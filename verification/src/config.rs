//! What a session is set up with.

use vstd::prelude::*;
use crate::models::copy_opt;
use crate::text::{
    cat, decimal, is_digit, lemma_decimal_digits, opt_text, owned, push_decimal, push_text, text_eq,
    texts,
};

verus! {

#[derive(Debug)]
pub struct PatchbayConfig {
    pub sink_prefix: String,
    pub sink_description: String,
    pub virtual_mic: bool,
    pub virtual_mic_name: Option<String>,
    pub virtual_mic_description: Option<String>,
    /// Creates the virtual sink with the media class `Audio/Sink`, without which
    /// it can never become the effective default sink. The ports that such a
    /// sink negotiates do not suit a virtual microphone, so this and `virtual_mic`
    /// exclude each other.
    pub sink_becomes_default: bool,
}

pub struct ConfigView {
    pub sink_prefix: Seq<char>,
    pub sink_description: Seq<char>,
    pub virtual_mic: bool,
    pub virtual_mic_name: Option<Seq<char>>,
    pub virtual_mic_description: Option<Seq<char>>,
    pub sink_becomes_default: bool,
}

impl View for PatchbayConfig {
    type V = ConfigView;

    open spec fn view(&self) -> ConfigView {
        ConfigView {
            sink_prefix: self.sink_prefix@,
            sink_description: self.sink_description@,
            virtual_mic: self.virtual_mic,
            virtual_mic_name: opt_text(self.virtual_mic_name),
            virtual_mic_description: opt_text(self.virtual_mic_description),
            sink_becomes_default: self.sink_becomes_default,
        }
    }
}

impl Clone for PatchbayConfig {
    fn clone(&self) -> (r: Self)
        ensures
            r == *self,
            r@ == self@,
    {
        PatchbayConfig {
            sink_prefix: self.sink_prefix.clone(),
            sink_description: self.sink_description.clone(),
            virtual_mic: self.virtual_mic,
            virtual_mic_name: copy_opt(&self.virtual_mic_name),
            virtual_mic_description: copy_opt(&self.virtual_mic_description),
            sink_becomes_default: self.sink_becomes_default,
        }
    }
}

pub open spec fn default_config() -> ConfigView {
    ConfigView {
        sink_prefix: "audio-share"@,
        sink_description: "Virtual Audio Share"@,
        virtual_mic: false,
        virtual_mic_name: None,
        virtual_mic_description: None,
        sink_becomes_default: false,
    }
}

impl Default for PatchbayConfig {
    fn default() -> (r: Self)
        ensures
            r@ == default_config(),
    {
        PatchbayConfig {
            sink_prefix: owned("audio-share"),
            sink_description: owned("Virtual Audio Share"),
            virtual_mic: false,
            virtual_mic_name: None,
            virtual_mic_description: None,
            sink_becomes_default: false,
        }
    }
}

/// The number that follows `n`; the last is followed by the first.
pub open spec fn number_after(n: u64) -> u64 {
    if n == u64::MAX {
        0
    } else {
        (n + 1) as u64
    }
}

/// The numbers of the sessions of this process, which make their names differ.
#[derive(Debug)]
pub struct SessionCounter {
    /// The number of the next session.
    pub next: u64,
}

impl SessionCounter {
    pub fn new() -> (r: Self)
        ensures
            r.next == 1,
    {
        SessionCounter { next: 1 }
    }

    /// Gives out the next number.
    pub fn take(&mut self) -> (n: u64)
        ensures
            n == old(self).next,
            final(self).next == number_after(n),
    {
        let n: u64 = self.next;
        self.next = if n == 0xffff_ffff_ffff_ffff {
            0
        } else {
            n + 1
        };
        n
    }
}

/// `base`, the process and a number that is used once, joined by hyphens.
pub open spec fn unique_name(base: Seq<char>, pid: u32, unique: u64) -> Seq<char> {
    base + "-"@ + decimal(pid as nat) + "-"@ + decimal(unique as nat)
}

pub fn make_unique_name(base: &str, pid: u32, unique: u64) -> (r: String)
    ensures
        r@ == unique_name(base@, pid, unique),
{
    let mut r = cat(base, "-");
    push_decimal(&mut r, pid as u64);
    push_text(&mut r, "-");
    push_decimal(&mut r, unique);
    r
}

impl ConfigView {
    /// The name that the virtual microphone is made from.
    pub open spec fn mic_base(self) -> Seq<char> {
        match self.virtual_mic_name {
            Some(name) => name,
            None => self.sink_prefix + "-mic"@,
        }
    }

    /// The description of the virtual microphone.
    pub open spec fn mic_text(self) -> Seq<char> {
        match self.virtual_mic_description {
            Some(text) => text,
            None => self.sink_description + " (Virtual Mic)"@,
        }
    }

    /// A microphone is wanted: it was asked for, or it was named.
    pub open spec fn wants_mic(self) -> bool {
        self.virtual_mic || self.virtual_mic_name is Some
    }
}

impl PatchbayConfig {
    pub fn mic_base_name(&self) -> (r: String)
        ensures
            r@ == self@.mic_base(),
    {
        match &self.virtual_mic_name {
            Some(name) => name.clone(),
            None => cat(self.sink_prefix.as_str(), "-mic"),
        }
    }

    pub fn mic_description_text(&self) -> (r: String)
        ensures
            r@ == self@.mic_text(),
    {
        match &self.virtual_mic_description {
            Some(text) => text.clone(),
            None => cat(self.sink_description.as_str(), " (Virtual Mic)"),
        }
    }
}

/// A sink that becomes the default goes without the microphone that
/// `virtual_mic` asks for. A microphone that is named stays.
pub open spec fn settled(c: ConfigView) -> ConfigView {
    ConfigView { virtual_mic: c.virtual_mic && !c.sink_becomes_default, ..c }
}

pub fn settle(config: &PatchbayConfig) -> (r: PatchbayConfig)
    ensures
        r@ == settled(config@),
{
    let mut r = config.clone();
    if r.sink_becomes_default && r.virtual_mic {
        r.virtual_mic = false;
    }
    r
}

/// What the command line says.
#[derive(Debug)]
pub struct ParsedArgs {
    pub config: PatchbayConfig,
    /// Arguments that mean nothing, in their order.
    pub unknown: Vec<String>,
    /// The usage was asked for; what follows is not read.
    pub help: bool,
}

pub struct ArgsView {
    pub config: ConfigView,
    pub unknown: Seq<Seq<char>>,
    pub help: bool,
}

impl View for ParsedArgs {
    type V = ArgsView;

    open spec fn view(&self) -> ArgsView {
        ArgsView { config: self.config@, unknown: texts(self.unknown@), help: self.help }
    }
}

/// The options that take a value.
#[derive(Debug, Clone, Copy, PartialEq, Eq, Structural)]
pub enum ValueOption {
    SinkPrefix,
    SinkDescription,
    VirtualMicName,
    VirtualMicDescription,
}

pub open spec fn value_option(arg: Seq<char>) -> Option<ValueOption> {
    if arg == "--sink-prefix"@ {
        Some(ValueOption::SinkPrefix)
    } else if arg == "--sink-description"@ {
        Some(ValueOption::SinkDescription)
    } else if arg == "--virtual-mic-name"@ {
        Some(ValueOption::VirtualMicName)
    } else if arg == "--virtual-mic-description"@ {
        Some(ValueOption::VirtualMicDescription)
    } else {
        None
    }
}

pub open spec fn with_value(c: ConfigView, option: ValueOption, value: Seq<char>) -> ConfigView {
    match option {
        ValueOption::SinkPrefix => ConfigView { sink_prefix: value, ..c },
        ValueOption::SinkDescription => ConfigView { sink_description: value, ..c },
        ValueOption::VirtualMicName => ConfigView { virtual_mic_name: Some(value), ..c },
        ValueOption::VirtualMicDescription => ConfigView {
            virtual_mic_description: Some(value),
            ..c
        },
    }
}

/// Reads `args` from the left on top of what was read before. An option at the
/// end that lacks its value says nothing.
pub open spec fn read_args(args: Seq<Seq<char>>, so_far: ArgsView) -> ArgsView
    decreases args.len(),
{
    if args.len() == 0 {
        so_far
    } else {
        let arg = args[0];
        match value_option(arg) {
            Some(option) => if args.len() == 1 {
                so_far
            } else {
                read_args(
                    args.skip(2),
                    ArgsView { config: with_value(so_far.config, option, args[1]), ..so_far },
                )
            },
            None => if arg == "--virtual-mic"@ {
                read_args(
                    args.skip(1),
                    ArgsView {
                        config: ConfigView { virtual_mic: true, ..so_far.config },
                        ..so_far
                    },
                )
            } else if arg == "-h"@ || arg == "--help"@ {
                ArgsView { help: true, ..so_far }
            } else {
                read_args(args.skip(1), ArgsView { unknown: so_far.unknown.push(arg), ..so_far })
            },
        }
    }
}

pub open spec fn nothing_read() -> ArgsView {
    ArgsView { config: default_config(), unknown: Seq::empty(), help: false }
}

fn find_value_option(arg: &str) -> (r: Option<ValueOption>)
    ensures
        r == value_option(arg@),
{
    if text_eq(arg, "--sink-prefix") {
        Some(ValueOption::SinkPrefix)
    } else if text_eq(arg, "--sink-description") {
        Some(ValueOption::SinkDescription)
    } else if text_eq(arg, "--virtual-mic-name") {
        Some(ValueOption::VirtualMicName)
    } else if text_eq(arg, "--virtual-mic-description") {
        Some(ValueOption::VirtualMicDescription)
    } else {
        None
    }
}

fn set_value(config: &mut PatchbayConfig, option: ValueOption, value: String)
    ensures
        final(config)@ == with_value(old(config)@, option, value@),
{
    match option {
        ValueOption::SinkPrefix => {
            config.sink_prefix = value;
        },
        ValueOption::SinkDescription => {
            config.sink_description = value;
        },
        ValueOption::VirtualMicName => {
            config.virtual_mic_name = Some(value);
        },
        ValueOption::VirtualMicDescription => {
            config.virtual_mic_description = Some(value);
        },
    }
}

/// Reads the arguments that follow the name of the program.
pub fn parse_args(args: &Vec<String>) -> (r: ParsedArgs)
    ensures
        r@ == read_args(texts(args@), nothing_read()),
{
    let ghost all = texts(args@);
    let mut config = PatchbayConfig::default();
    let mut unknown: Vec<String> = Vec::new();
    let mut i: usize = 0;
    assert(all.skip(0) =~= all);
    assert(texts(unknown@) =~= Seq::<Seq<char>>::empty());
    while i < args.len()
        invariant
            i <= args@.len(),
            all == texts(args@),
            read_args(all, nothing_read()) == read_args(
                all.skip(i as int),
                (ArgsView { config: config@, unknown: texts(unknown@), help: false }),
            ),
        decreases args@.len() - i,
    {
        let ghost rest = all.skip(i as int);
        assert(rest[0] == args@[i as int]@);
        assert(rest.skip(1) =~= all.skip(i + 1));
        match find_value_option(args[i].as_str()) {
            Some(option) => {
                if i == args.len() - 1 {
                    assert(rest.len() == 1);
                    return ParsedArgs { config, unknown, help: false };
                }
                assert(rest[1] == args@[i + 1]@);
                assert(rest.skip(2) =~= all.skip(i + 2));
                set_value(&mut config, option, args[i + 1].clone());
                i = i + 2;
            },
            None => {
                if text_eq(args[i].as_str(), "--virtual-mic") {
                    config.virtual_mic = true;
                } else if text_eq(args[i].as_str(), "-h") || text_eq(args[i].as_str(), "--help") {
                    return ParsedArgs { config, unknown, help: true };
                } else {
                    let ghost before = texts(unknown@);
                    unknown.push(args[i].clone());
                    assert(texts(unknown@) =~= before.push(args@[i as int]@));
                }
                i = i + 1;
            },
        }
    }
    ParsedArgs { config, unknown, help: false }
}

/// Whether `flag` stands among the arguments.
pub fn has_flag(args: &Vec<String>, flag: &str) -> (r: bool)
    ensures
        r == texts(args@).contains(flag@),
{
    let ghost all = texts(args@);
    let mut i: usize = 0;
    while i < args.len()
        invariant
            i <= args@.len(),
            all == texts(args@),
            forall|j: int| 0 <= j < i ==> all[j] != flag@,
        decreases args@.len() - i,
    {
        assert(all[i as int] == args@[i as int]@);
        if text_eq(args[i].as_str(), flag) {
            return true;
        }
        i = i + 1;
    }
    false
}

/// The command line never makes the sink the default, and nothing on it but
/// `--virtual-mic` switches the microphone on.
pub proof fn args_never_take_the_default(args: Seq<Seq<char>>, so_far: ArgsView)
    ensures
        read_args(args, so_far).config.sink_becomes_default == so_far.config.sink_becomes_default,
        !args.contains("--virtual-mic"@) ==> read_args(args, so_far).config.virtual_mic
            == so_far.config.virtual_mic,
    decreases args.len(),
{
    if args.len() > 0 {
        let arg = args[0];
        assert(args.contains(arg));
        let one = args.skip(1);
        let two = args.skip(2);
        if one.contains("--virtual-mic"@) {
            let k = one.index_of("--virtual-mic"@);
            assert(args[k + 1] == "--virtual-mic"@);
        }
        if args.len() > 1 && two.contains("--virtual-mic"@) {
            let k = two.index_of("--virtual-mic"@);
            assert(args[k + 2] == "--virtual-mic"@);
        }
        match value_option(arg) {
            Some(option) => {
                if args.len() > 1 {
                    args_never_take_the_default(
                        two,
                        ArgsView { config: with_value(so_far.config, option, args[1]), ..so_far },
                    );
                }
            },
            None => {
                if arg == "--virtual-mic"@ {
                    args_never_take_the_default(
                        one,
                        ArgsView {
                            config: ConfigView { virtual_mic: true, ..so_far.config },
                            ..so_far
                        },
                    );
                } else if arg == "-h"@ || arg == "--help"@ {
                } else {
                    args_never_take_the_default(
                        one,
                        ArgsView { unknown: so_far.unknown.push(arg), ..so_far },
                    );
                }
            },
        }
    }
}

/// A settled setup never makes its sink the default while `virtual_mic` is set,
/// and settling twice changes nothing.
pub proof fn settled_setups_exclude(c: ConfigView)
    ensures
        !(settled(c).sink_becomes_default && settled(c).virtual_mic),
        settled(c).sink_becomes_default == c.sink_becomes_default,
        settled(settled(c)) == settled(c),
        !c.sink_becomes_default ==> settled(c) == c,
{
}

/// Names with different numbers differ, whatever they are made from.
pub proof fn unique_names_differ(base: Seq<char>, other: Seq<char>, pid: u32, a: u64, b: u64)
    requires
        a != b,
    ensures
        unique_name(base, pid, a) != unique_name(other, pid, b),
{
    let x = unique_name(base, pid, a);
    let y = unique_name(other, pid, b);
    let d = decimal(a as nat);
    let e = decimal(b as nat);
    lemma_decimal_digits(a as nat);
    lemma_decimal_digits(b as nat);
    reveal_strlit("-");
    let i = x.len() - d.len();
    let j = y.len() - e.len();
    assert(x[i - 1] == '-' && y[j - 1] == '-');
    if x == y {
        if d.len() < e.len() {
            assert(y[i - 1] == e[i - 1 - j]);
            assert(is_digit(e[i - 1 - j]));
        } else if e.len() < d.len() {
            assert(x[j - 1] == d[j - 1 - i]);
            assert(is_digit(d[j - 1 - i]));
        } else {
            assert(x.skip(i) =~= d);
            assert(y.skip(j) =~= e);
            crate::text::decimal_injective(a as nat, b as nat);
        }
    }
}

/// The number that session `n` of a process gets, counted from zero.
pub open spec fn nth_number(n: nat) -> u64
    decreases n,
{
    if n == 0 {
        1
    } else {
        number_after(nth_number((n - 1) as nat))
    }
}

/// The first session gets the number 1, and no two sessions of a process get the
/// same, until all numbers have been given out.
pub proof fn no_number_is_given_twice(n: nat, m: nat)
    requires
        n < m,
        m < u64::MAX,
    ensures
        nth_number(0) == 1,
        nth_number(n) == n + 1,
        nth_number(n) < nth_number(m),
{
    lemma_nth_number(n);
    lemma_nth_number(m);
}

proof fn lemma_nth_number(n: nat)
    requires
        n < u64::MAX,
    ensures
        nth_number(n) == n + 1,
    decreases n,
{
    if n > 0 {
        lemma_nth_number((n - 1) as nat);
    }
}

/// Each option that takes a value sets its own part of the setup to that value
/// and nothing else, and what follows is read on top of it. An option at the end
/// that lacks its value changes nothing.
pub proof fn options_set_their_own_part(
    value: Seq<char>,
    rest: Seq<Seq<char>>,
    so_far: ArgsView,
)
    ensures
        ({
            let c = so_far.config;
            let on = |config: ConfigView| read_args(rest, ArgsView { config, ..so_far });
            let read = |option: Seq<char>| read_args(seq![option, value] + rest, so_far);
            &&& read("--sink-prefix"@) == on(ConfigView { sink_prefix: value, ..c })
            &&& read("--sink-description"@) == on(ConfigView { sink_description: value, ..c })
            &&& read("--virtual-mic-name"@) == on(
                ConfigView { virtual_mic_name: Some(value), ..c },
            )
            &&& read("--virtual-mic-description"@) == on(
                ConfigView { virtual_mic_description: Some(value), ..c },
            )
        }),
        read_args(seq!["--sink-prefix"@], so_far) == so_far,
        read_args(seq!["--sink-description"@], so_far) == so_far,
        read_args(seq!["--virtual-mic-name"@], so_far) == so_far,
        read_args(seq!["--virtual-mic-description"@], so_far) == so_far,
        read_args(Seq::empty(), so_far) == so_far,
{
    lemma_option_names();
    assert((seq!["--sink-prefix"@, value] + rest).skip(2) =~= rest);
    assert((seq!["--sink-description"@, value] + rest).skip(2) =~= rest);
    assert((seq!["--virtual-mic-name"@, value] + rest).skip(2) =~= rest);
    assert((seq!["--virtual-mic-description"@, value] + rest).skip(2) =~= rest);
}

/// `--virtual-mic` switches the microphone on; a call for help ends the reading;
/// and every other argument is set aside as unknown, behind those before it.
pub proof fn flags_and_strangers_are_told_apart(
    arg: Seq<char>,
    rest: Seq<Seq<char>>,
    so_far: ArgsView,
)
    ensures
        read_args(seq!["--virtual-mic"@] + rest, so_far) == read_args(
            rest,
            ArgsView { config: ConfigView { virtual_mic: true, ..so_far.config }, ..so_far },
        ),
        read_args(seq!["-h"@] + rest, so_far) == (ArgsView { help: true, ..so_far }),
        read_args(seq!["--help"@] + rest, so_far) == (ArgsView { help: true, ..so_far }),
        !seq![
            "--sink-prefix"@,
            "--sink-description"@,
            "--virtual-mic-name"@,
            "--virtual-mic-description"@,
            "--virtual-mic"@,
            "-h"@,
            "--help"@,
        ].contains(arg) ==> read_args(seq![arg] + rest, so_far) == read_args(
            rest,
            ArgsView { unknown: so_far.unknown.push(arg), ..so_far },
        ),
{
    lemma_option_names();
    let known = seq![
        "--sink-prefix"@,
        "--sink-description"@,
        "--virtual-mic-name"@,
        "--virtual-mic-description"@,
        "--virtual-mic"@,
        "-h"@,
        "--help"@,
    ];
    assert(known[0] == "--sink-prefix"@ && known[1] == "--sink-description"@);
    assert(known[2] == "--virtual-mic-name"@ && known[3] == "--virtual-mic-description"@);
    assert(known[4] == "--virtual-mic"@ && known[5] == "-h"@ && known[6] == "--help"@);
    assert((seq!["--virtual-mic"@] + rest).skip(1) =~= rest);
    assert((seq![arg] + rest).skip(1) =~= rest);
}

proof fn lemma_option_names()
    ensures
        "--sink-prefix"@.len() == 13 && "--sink-prefix"@[2] == 's',
        "--virtual-mic"@.len() == 13 && "--virtual-mic"@[2] == 'v',
        "--sink-description"@.len() == 18 && "--sink-description"@[2] == 's',
        "--virtual-mic-name"@.len() == 18 && "--virtual-mic-name"@[2] == 'v',
        "--virtual-mic-description"@.len() == 25,
        "-h"@.len() == 2,
        "--help"@.len() == 6,
{
    reveal_strlit("--sink-prefix");
    reveal_strlit("--virtual-mic");
    reveal_strlit("--sink-description");
    reveal_strlit("--virtual-mic-name");
    reveal_strlit("--virtual-mic-description");
    reveal_strlit("-h");
    reveal_strlit("--help");
}

/// Without any argument a session is named and described as an audio share, has
/// no microphone and leaves the default alone.
pub proof fn a_plain_setup_shares_audio(p: ArgsView)
    requires
        p == read_args(Seq::empty(), nothing_read()),
    ensures
        p.config.sink_prefix == "audio-share"@,
        p.config.sink_description == "Virtual Audio Share"@,
        !p.config.virtual_mic && !p.config.wants_mic(),
        p.config.virtual_mic_name is None && p.config.virtual_mic_description is None,
        !p.config.sink_becomes_default,
        p.unknown.len() == 0 && !p.help,
{
}

/// The microphone is named and described as was set up, and else after the sink;
/// it is wanted where it was asked for or named, and nowhere else.
pub proof fn the_microphone_is_named_after_the_sink(c: ConfigView, text: Seq<char>)
    ensures
        c.virtual_mic_name == Some(text) ==> c.mic_base() == text,
        c.virtual_mic_name is None ==> c.mic_base() == c.sink_prefix + "-mic"@,
        c.virtual_mic_description == Some(text) ==> c.mic_text() == text,
        c.virtual_mic_description is None ==> c.mic_text() == c.sink_description
            + " (Virtual Mic)"@,
        c.wants_mic() == (c.virtual_mic || c.virtual_mic_name is Some),
{
}

/// A unique name begins with what it is made from, and its parts are told apart
/// by hyphens.
pub proof fn unique_names_begin_with_their_base(base: Seq<char>, pid: u32, unique: u64)
    ensures
        base.is_prefix_of(unique_name(base, pid, unique)),
        unique_name(base, pid, unique) == base + "-"@ + decimal(pid as nat) + "-"@ + decimal(
            unique as nat,
        ),
        crate::text::contains_text(unique_name(base, pid, unique), base),
{
    let tail = "-"@ + decimal(pid as nat) + "-"@ + decimal(unique as nat);
    assert(unique_name(base, pid, unique) =~= Seq::<char>::empty() + base + tail);
    crate::text::parts_are_found_wherever_they_stand(Seq::empty(), base, tail);
}

/// Whoever gives an option with a value gets a setup in which its own part is
/// that value and every other is as it is without any argument.
pub proof fn a_lone_option_sets_its_own_part(args: Vec<String>, r: ParsedArgs)
    requires
        call_ensures(parse_args, (&args,), r),
        args@.len() == 2,
    ensures
        args@[0]@ == "--sink-prefix"@ ==> r.config@ == (ConfigView {
            sink_prefix: args@[1]@,
            ..default_config()
        }),
        args@[0]@ == "--sink-description"@ ==> r.config@ == (ConfigView {
            sink_description: args@[1]@,
            ..default_config()
        }),
        args@[0]@ == "--virtual-mic-name"@ ==> r.config@ == (ConfigView {
            virtual_mic_name: Some(args@[1]@),
            ..default_config()
        }),
        args@[0]@ == "--virtual-mic-description"@ ==> r.config@ == (ConfigView {
            virtual_mic_description: Some(args@[1]@),
            ..default_config()
        }),
{
    let all = texts(args@);
    options_set_their_own_part(all[1], Seq::empty(), nothing_read());
    assert(seq![all[0], all[1]] + Seq::<Seq<char>>::empty() =~= all);
}

/// A flag is set exactly if it stands among the arguments.
pub proof fn flags_are_found_wherever_they_stand(
    args: Vec<String>,
    flag: &str,
    r: bool,
)
    requires
        call_ensures(has_flag, (&args, flag), r),
    ensures
        r == exists|i: int| 0 <= i < args@.len() && (#[trigger] args@[i])@ == flag@,
{
    let all = texts(args@);
    if all.contains(flag@) {
        let i = all.index_of(flag@);
        assert(args@[i]@ == flag@);
    }
    if exists|i: int| 0 <= i < args@.len() && (#[trigger] args@[i])@ == flag@ {
        let i = choose|i: int| 0 <= i < args@.len() && (#[trigger] args@[i])@ == flag@;
        assert(all[i] == flag@);
    }
}

/// A view of a setup shows each thing that was set up in its own place.
pub proof fn views_of_setups_show_what_they_hold(c: PatchbayConfig, p: ParsedArgs, i: int)
    ensures
        c@.sink_prefix == c.sink_prefix@,
        c@.sink_description == c.sink_description@,
        c@.virtual_mic == c.virtual_mic,
        c@.virtual_mic_name == opt_text(c.virtual_mic_name),
        c@.virtual_mic_description == opt_text(c.virtual_mic_description),
        c@.sink_becomes_default == c.sink_becomes_default,
        p@.config == p.config@,
        p@.help == p.help,
        p@.unknown.len() == p.unknown@.len(),
        0 <= i < p.unknown@.len() ==> p@.unknown[i] == p.unknown@[i]@,
{
}

/// The numbers of a process begin at 1 and are counted up, and the largest is
/// followed by zero.
pub proof fn numbers_are_counted_up(numbers: SessionCounter, n: u64)
    requires
        call_ensures(SessionCounter::new, (), numbers),
    ensures
        numbers.next == 1,
        n < u64::MAX ==> number_after(n) == n + 1,
        number_after(u64::MAX) == 0,
{
}

} // verus!
