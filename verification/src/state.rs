//! A session that works through the command-line tools `pactl`, `pw-dump` and
//! `pw-link`.
//!
//! Each operation is a function from the state and what happened last to the
//! new state and what is to be done next. What is known along the way travels
//! in the events and the steps.

use vstd::prelude::*;
use crate::cmd::{text_outcome, CommandLine};
use crate::config::{
    make_unique_name, number_after, unique_name, unique_names_begin_with_their_base, ConfigView,
    PatchbayConfig, SessionCounter,
};
use crate::error::{BackendError, BackendErrorView};
use crate::listing::{
    is_listing, is_ours, list_nodes, monitor_name, monitor_source, our_own_are_known_by_name,
    ours, says_our_name, shareable_views, NameScope,
};
use crate::models::{
    copy_opt, find_screencast_hint, first_hint, NodeRecord, PortRecord, Route, ScreencastHint,
    ShareableNode, VirtualSinkInfo, VirtualSinkInfoView,
};
use crate::routes::{failures, selected, succeeded, RouteSet};
use crate::routing::{dedupe_node_ids, distinct, distinct_keeps_each_id_once, map_ports, mapping};
use crate::snapshot::{sink_node, PipeWireSnapshot};
use crate::table::IdTable;
use crate::text::{
    cat, contains_text, decimal, decimal_text, describe_fault, fault_text, first_word, is_digit,
    is_white_space, join, joined, joining_separates_the_pieces, leading_word,
    lemma_decimal_digits, lines, number, number_reads_decimal, opt_text, owned, parse_number,
    parts_are_found_wherever_they_stand, push_decimal, push_text, split_lines, text_contains,
    texts, the_first_word_is_the_first_run, trim, trimmed,
    trimming_takes_the_white_space_at_the_ends,
};

verus! {

/// How long a new sink is waited for: three seconds, in nanoseconds.
pub const SINK_TIMEOUT: u64 = 3_000_000_000;

/// The pause between two looks at the graph, in milliseconds.
pub const SINK_POLL_DELAY: u64 = 200;

pub open spec fn escaped_char(c: char) -> Seq<char> {
    if c == '\\' || c == '"' {
        seq!['\\', c]
    } else {
        seq![c]
    }
}

pub open spec fn escaped(s: Seq<char>) -> Seq<char>
    decreases s.len(),
{
    if s.len() == 0 {
        Seq::empty()
    } else {
        escaped_char(s[0]) + escaped(s.drop_first())
    }
}

/// A value as a module argument: in quotes, with a backslash before each quote
/// and each backslash.
pub open spec fn quoted(s: Seq<char>) -> Seq<char> {
    "\""@ + escaped(s) + "\""@
}

/// What stands behind backslashes is taken as it is.
pub open spec fn unescaped(s: Seq<char>) -> Seq<char>
    decreases s.len(),
{
    if s.len() == 0 {
        Seq::empty()
    } else if s[0] == '\\' && s.len() >= 2 {
        seq![s[1]] + unescaped(s.skip(2))
    } else {
        seq![s[0]] + unescaped(s.drop_first())
    }
}

/// Reading an escaped text gives the text back.
pub proof fn escaping_loses_nothing(s: Seq<char>)
    ensures
        unescaped(escaped(s)) == s,
    decreases s.len(),
{
    if s.len() > 0 {
        let rest = escaped(s.drop_first());
        escaping_loses_nothing(s.drop_first());
        let e = escaped(s);
        assert(s =~= seq![s[0]] + s.drop_first());
        if s[0] == '\\' || s[0] == '"' {
            assert(e.skip(2) =~= rest);
            assert(e[0] == '\\' && e[1] == s[0]);
        } else {
            assert(e.drop_first() =~= rest);
            assert(e[0] == s[0]);
        }
    }
}

proof fn lemma_escaped_push(s: Seq<char>, c: char)
    ensures
        escaped(s.push(c)) == escaped(s) + escaped_char(c),
    decreases s.len(),
{
    let t = s.push(c);
    if s.len() == 0 {
        assert(t.drop_first() =~= s);
        assert(t[0] == c);
        assert(escaped(s) =~= Seq::<char>::empty());
        assert(escaped(t) =~= escaped(s) + escaped_char(c));
    } else {
        assert(t.drop_first() =~= s.drop_first().push(c));
        lemma_escaped_push(s.drop_first(), c);
        assert(escaped(t) =~= escaped(s) + escaped_char(c));
    }
}

pub fn quote_module_value(value: &str) -> (r: String)
    ensures
        r@ == quoted(value@),
{
    let mut r = owned("\"");
    assert(value@.take(0) =~= Seq::<char>::empty());
    assert("\""@ + Seq::<char>::empty() =~= "\""@);
    for c in it: value.chars()
        invariant
            r@ == "\""@ + escaped(value@.take(it.index())),
            it.seq() == value@,
    {
        let ghost before = r@;
        let ghost head = value@.take(it.index());
        if c == '\\' || c == '"' {
            r.push('\\');
        }
        r.push(c);
        proof {
            lemma_escaped_push(head, c);
            assert(value@.take(it.index() + 1) =~= head.push(c));
            assert(r@ =~= before + escaped_char(c));
            assert(before + escaped_char(c) =~= "\""@ + (escaped(head) + escaped_char(c)));
        }
    }
    assert(value@.take(value@.len() as int) =~= value@);
    push_text(&mut r, "\"");
    r
}

/// The state as plain values.
pub struct StateView {
    pub sink_name: Seq<char>,
    pub sink_description: Seq<char>,
    pub module_id: Option<u32>,
    pub routes: Set<(Seq<char>, Seq<char>)>,
    pub virtual_mic_name: Option<Seq<char>>,
    pub virtual_mic_description: Option<Seq<char>>,
    pub remap_module_id: Option<u32>,
}

#[derive(Debug)]
pub struct PatchbayState {
    pub sink_name: String,
    pub sink_description: String,
    /// The module that makes the sink.
    pub module_id: Option<u32>,
    /// The links that this session has made and not yet removed.
    pub routes: RouteSet,
    pub virtual_mic_name: Option<String>,
    pub virtual_mic_description: Option<String>,
    /// The module that makes the microphone.
    pub remap_module_id: Option<u32>,
}

impl View for PatchbayState {
    type V = StateView;

    open spec fn view(&self) -> StateView {
        StateView {
            sink_name: self.sink_name@,
            sink_description: self.sink_description@,
            module_id: self.module_id,
            routes: self.routes@,
            virtual_mic_name: opt_text(self.virtual_mic_name),
            virtual_mic_description: opt_text(self.virtual_mic_description),
            remap_module_id: self.remap_module_id,
        }
    }
}

/// The state of a fresh session.
pub open spec fn fresh_state(c: ConfigView, pid: u32, unique: u64) -> StateView {
    StateView {
        sink_name: unique_name(c.sink_prefix, pid, unique),
        sink_description: c.sink_description,
        module_id: None,
        routes: Set::empty(),
        virtual_mic_name: if c.wants_mic() {
            Some(unique_name(c.mic_base(), pid, unique))
        } else {
            None
        },
        virtual_mic_description: if c.virtual_mic || c.virtual_mic_description is Some {
            Some(c.mic_text())
        } else {
            None
        },
        remap_module_id: None,
    }
}

/// The words by which modules of earlier sessions are known.
pub open spec fn orphan_marks(c: ConfigView) -> Seq<Seq<char>> {
    seq![c.sink_prefix, c.mic_base()]
}

/// The words by which modules of earlier sessions are known, to be looked for one
/// after the other.
pub fn orphan_prefixes(config: &PatchbayConfig) -> (r: Vec<String>)
    ensures
        texts(r@) == orphan_marks(config@),
{
    let r = vec![config.sink_prefix.clone(), config.mic_base_name()];
    assert(texts(r@) =~= orphan_marks(config@));
    r
}

/// The modules of `list` whose line mentions `mark`.
pub open spec fn orphans(list: Seq<Seq<char>>, mark: Seq<char>) -> Seq<Seq<char>>
    decreases list.len(),
{
    if list.len() == 0 {
        Seq::empty()
    } else {
        let head = orphans(list.drop_last(), mark);
        if contains_text(list.last(), mark) {
            match first_word(list.last()) {
                Some(id) => head.push(id),
                None => head,
            }
        } else {
            head
        }
    }
}

pub open spec fn unload_command(id: Seq<char>) -> (Seq<char>, Seq<Seq<char>>) {
    ("pactl"@, seq!["unload-module"@, id])
}

pub fn module_list_command() -> (c: CommandLine)
    ensures
        c@ == ("pactl"@, seq!["list"@, "short"@, "modules"@]),
{
    let c = CommandLine {
        program: "pactl",
        args: vec![owned("list"), owned("short"), owned("modules")],
    };
    assert(c@.1 =~= seq!["list"@, "short"@, "modules"@]);
    c
}

fn unload(id: String) -> (c: CommandLine)
    ensures
        c@ == unload_command(id@),
{
    let ghost name = id@;
    let c = CommandLine { program: "pactl", args: vec![owned("unload-module"), id] };
    assert(c@.1 =~= seq!["unload-module"@, name]);
    c
}

pub open spec fn command_views(s: Seq<CommandLine>) -> Seq<(Seq<char>, Seq<Seq<char>>)> {
    Seq::new(s.len(), |i: int| s[i]@)
}

pub open spec fn unload_commands(ids: Seq<Seq<char>>) -> Seq<(Seq<char>, Seq<Seq<char>>)> {
    Seq::new(ids.len(), |i: int| unload_command(ids[i]))
}

/// The commands that unload what earlier sessions left behind, given the answer
/// to [`module_list_command`]. Without an answer nothing is unloaded.
pub fn clean_orphaned_modules(prefix: &str, listing: Result<String, BackendError>) -> (r: Vec<
    CommandLine,
>)
    ensures
        command_views(r@) == (match text_outcome(listing) {
            Ok(text) => unload_commands(orphans(lines(text), prefix@)),
            Err(_) => Seq::empty(),
        }),
{
    let mut r: Vec<CommandLine> = Vec::new();
    assert(command_views(r@) =~= Seq::empty());
    let text = match listing {
        Ok(text) => text,
        Err(_) => {
            return r;
        },
    };
    let list = split_lines(text.as_str());
    let ghost all = texts(list@);
    let mut i: usize = 0;
    assert(command_views(r@) =~= unload_commands(orphans(all.take(0), prefix@)));
    while i < list.len()
        invariant
            i <= list@.len(),
            all == texts(list@),
            command_views(r@) == unload_commands(orphans(all.take(i as int), prefix@)),
        decreases list@.len() - i,
    {
        let ghost before = orphans(all.take(i as int), prefix@);
        assert(all.take(i + 1).drop_last() =~= all.take(i as int));
        assert(all.take(i + 1).last() == list@[i as int]@);
        if text_contains(list[i].as_str(), prefix) {
            match leading_word(list[i].as_str()) {
                Some(id) => {
                    let ghost name = id@;
                    let ghost commands = command_views(r@);
                    r.push(unload(id));
                    assert(command_views(r@) =~= commands.push(unload_command(name)));
                    assert(unload_commands(before.push(name)) =~= commands.push(
                        unload_command(name),
                    ));
                },
                None => {},
            }
        }
        i = i + 1;
    }
    assert(all.take(all.len() as int) =~= all);
    r
}

/// The id that `pactl load-module` prints, or what is wrong with its answer.
pub open spec fn loaded_module(
    answer: Result<Seq<char>, BackendErrorView>,
    complaint: Seq<char>,
) -> Result<u32, BackendErrorView> {
    match answer {
        Ok(text) => match number(trim(text)) {
            Ok(id) => Ok(id),
            Err(fault) => Err(
                BackendErrorView::InvalidOutput("pactl"@, complaint + fault_text(fault)),
            ),
        },
        Err(e) => Err(e),
    }
}

fn read_module_id(answer: Result<String, BackendError>, complaint: &str) -> (r: Result<
    u32,
    BackendError,
>)
    ensures
        crate::error::outcome(r) == loaded_module(text_outcome(answer), complaint@),
{
    match answer {
        Ok(text) => {
            let t = trimmed(text.as_str());
            match parse_number(t.as_str()) {
                Ok(id) => Ok(id),
                Err(fault) => {
                    let reason = describe_fault(fault);
                    Err(BackendError::InvalidOutput("pactl", cat(complaint, reason.as_str())))
                },
            }
        },
        Err(err) => Err(err),
    }
}

/// The properties of a module: one description, said twice, and a name.
pub open spec fn module_properties(
    option: Seq<char>,
    description: Seq<char>,
    name: Seq<char>,
) -> Seq<char> {
    option + "=device.description="@ + quoted(description) + " node.description="@ + quoted(
        description,
    ) + " node.name="@ + quoted(name)
}

fn make_properties(option: &str, description: &str, name: &str) -> (r: String)
    ensures
        r@ == module_properties(option@, description@, name@),
{
    let quoted_description = quote_module_value(description);
    let quoted_name = quote_module_value(name);
    let mut r = cat(option, "=device.description=");
    push_text(&mut r, quoted_description.as_str());
    push_text(&mut r, " node.description=");
    push_text(&mut r, quoted_description.as_str());
    push_text(&mut r, " node.name=");
    push_text(&mut r, quoted_name.as_str());
    r
}

/// The command that makes the sink.
pub open spec fn load_sink_command(s: StateView) -> (Seq<char>, Seq<Seq<char>>) {
    (
        "pactl"@,
        seq![
            "load-module"@,
            "module-null-sink"@,
            "sink_name="@ + s.sink_name,
            "channels=2"@,
            "channel_map=front-left,front-right"@,
            module_properties("sink_properties"@, s.sink_description, s.sink_name),
        ],
    )
}

/// The command that makes the microphone out of the monitor of the sink.
pub open spec fn load_mic_command(
    monitor: Seq<char>,
    mic: Seq<char>,
    description: Option<Seq<char>>,
) -> (Seq<char>, Seq<Seq<char>>) {
    let text = match description {
        Some(t) => t,
        None => "Virtual Microphone"@,
    };
    (
        "pactl"@,
        seq![
            "load-module"@,
            "module-remap-source"@,
            "master="@ + monitor,
            "source_name="@ + mic,
            module_properties("source_properties"@, text, mic),
        ],
    )
}

/// The sink as the graph shows it: once it has two linkable inputs.
pub open spec fn sink_info(s: StateView, nodes: Seq<(u32, NodeRecord)>) -> Option<
    VirtualSinkInfoView,
> {
    match sink_node(nodes, s.sink_name, s.sink_description) {
        Some(n) => if n.inputs().len() < 2 {
            None
        } else {
            Some(
                VirtualSinkInfoView {
                    sink_name: s.sink_name,
                    monitor_source: monitor_name(s.sink_name),
                    node_id: n.id,
                    virtual_mic_name: s.virtual_mic_name,
                    virtual_mic_description: s.virtual_mic_description,
                },
            )
        },
        None => None,
    }
}

/// The moment `span` after `now`, or the last moment there is.
pub open spec fn later(now: u64, span: u64) -> u64 {
    if now + span > u64::MAX {
        u64::MAX
    } else {
        (now + span) as u64
    }
}

pub fn moment_after(now: u64, span: u64) -> (r: u64)
    ensures
        r == later(now, span),
{
    if now > 0xffff_ffff_ffff_ffff - span {
        0xffff_ffff_ffff_ffff
    } else {
        now + span
    }
}

/// What happens while the sink is being made. Moments are nanoseconds of a
/// clock that never runs back.
pub enum SinkEvent {
    /// The sink is wanted.
    Asked,
    /// Whether PipeWire is the server.
    PipewireChecked(bool),
    /// The graph as it was found.
    Looked(Result<PipeWireSnapshot, BackendError>),
    /// The answer to the command that makes the sink.
    SinkLoaded { answer: Result<String, BackendError>, now: u64 },
    /// The graph at a later look.
    Polled { graph: Result<PipeWireSnapshot, BackendError>, now: u64, deadline: u64 },
    /// The answer to the command that makes the microphone.
    MicLoaded { answer: Result<String, BackendError>, info: VirtualSinkInfo },
}

pub enum SinkStep {
    CheckPipewire,
    /// Read the graph.
    Look,
    /// Run this command, which makes the sink.
    LoadSink(CommandLine),
    /// Pause and read the graph again.
    Poll { pause_ms: u64, deadline: u64 },
    /// Run this command, which makes the microphone.
    LoadMic { command: CommandLine, info: VirtualSinkInfo },
    Done(Result<VirtualSinkInfo, BackendError>),
}

pub enum SinkStepView {
    CheckPipewire,
    Look,
    LoadSink((Seq<char>, Seq<Seq<char>>)),
    Poll { pause_ms: u64, deadline: u64 },
    LoadMic { command: (Seq<char>, Seq<Seq<char>>), info: VirtualSinkInfoView },
    Done(Result<VirtualSinkInfoView, BackendErrorView>),
}

pub open spec fn info_outcome(r: Result<VirtualSinkInfo, BackendError>) -> Result<
    VirtualSinkInfoView,
    BackendErrorView,
> {
    match r {
        Ok(info) => Ok(info@),
        Err(e) => Err(e@),
    }
}

impl View for SinkStep {
    type V = SinkStepView;

    open spec fn view(&self) -> SinkStepView {
        match self {
            SinkStep::CheckPipewire => SinkStepView::CheckPipewire,
            SinkStep::Look => SinkStepView::Look,
            SinkStep::LoadSink(c) => SinkStepView::LoadSink(c@),
            SinkStep::Poll { pause_ms, deadline } => SinkStepView::Poll {
                pause_ms: *pause_ms,
                deadline: *deadline,
            },
            SinkStep::LoadMic { command, info } => SinkStepView::LoadMic {
                command: command@,
                info: info@,
            },
            SinkStep::Done(r) => SinkStepView::Done(info_outcome(*r)),
        }
    }
}

/// What follows once the sink is there.
pub open spec fn after_sink(s: StateView, info: VirtualSinkInfoView) -> SinkStepView {
    match (s.remap_module_id, s.virtual_mic_name) {
        (None, Some(mic)) => SinkStepView::LoadMic {
            command: load_mic_command(info.monitor_source, mic, s.virtual_mic_description),
            info,
        },
        _ => SinkStepView::Done(Ok(info)),
    }
}

/// How the making of the sink goes on.
pub open spec fn sink_transition(s: StateView, event: SinkEvent) -> (StateView, SinkStepView) {
    match event {
        SinkEvent::Asked => (s, SinkStepView::CheckPipewire),
        SinkEvent::PipewireChecked(found) => (
            s,
            if found {
                SinkStepView::Look
            } else {
                SinkStepView::Done(Err(BackendErrorView::Unsupported))
            },
        ),
        SinkEvent::Looked(graph) => (
            s,
            match graph {
                Ok(g) => match sink_info(s, g.nodes.entries()) {
                    Some(info) => after_sink(s, info),
                    None => SinkStepView::LoadSink(load_sink_command(s)),
                },
                Err(e) => SinkStepView::Done(Err(e@)),
            },
        ),
        SinkEvent::SinkLoaded { answer, now } => match loaded_module(
            text_outcome(answer),
            "failed to parse module id: "@,
        ) {
            Ok(id) => (
                StateView { module_id: Some(id), ..s },
                SinkStepView::Poll { pause_ms: 0, deadline: later(now, SINK_TIMEOUT) },
            ),
            Err(e) => (s, SinkStepView::Done(Err(e))),
        },
        SinkEvent::Polled { graph, now, deadline } => {
            let found = match graph {
                Ok(g) => sink_info(s, g.nodes.entries()),
                Err(_) => None,
            };
            (
                s,
                match found {
                    Some(info) => after_sink(s, info),
                    None => if now >= deadline {
                        SinkStepView::Done(Err(BackendErrorView::Timeout("virtual sink"@)))
                    } else {
                        SinkStepView::Poll { pause_ms: SINK_POLL_DELAY, deadline }
                    },
                },
            )
        },
        SinkEvent::MicLoaded { answer, info } => match loaded_module(
            text_outcome(answer),
            "failed to parse remap module id: "@,
        ) {
            Ok(id) => (
                StateView { remap_module_id: Some(id), ..s },
                SinkStepView::Done(Ok(info@)),
            ),
            Err(e) => (s, SinkStepView::Done(Err(e))),
        },
    }
}

/// The paths of a pair of ports, if both have one.
pub open spec fn pair_route(p: (PortRecord, PortRecord)) -> Option<(Seq<char>, Seq<char>)> {
    match (opt_text(p.0.path), opt_text(p.1.path)) {
        (Some(output), Some(input)) => Some((output, input)),
        _ => None,
    }
}

pub open spec fn pair_routes(s: Seq<(PortRecord, PortRecord)>) -> Set<(Seq<char>, Seq<char>)> {
    Set::new(
        |r: (Seq<char>, Seq<char>)|
            exists|k: int| 0 <= k < s.len() && pair_route(#[trigger] s[k]) == Some(r),
    )
}

/// A node that may be routed: it is in the graph, it is not the sink and it is
/// not ours.
pub open spec fn routable(
    nodes: Map<u32, NodeRecord>,
    sink: NodeRecord,
    own: spec_fn(NodeRecord) -> bool,
    id: u32,
) -> bool {
    nodes.contains_key(id) && id != sink.id && !own(nodes[id])
}

/// The routes that lead the outputs of node `id` into the sink.
pub open spec fn node_routes(
    nodes: Map<u32, NodeRecord>,
    sink: NodeRecord,
    own: spec_fn(NodeRecord) -> bool,
    id: u32,
) -> Set<(Seq<char>, Seq<char>)> {
    if routable(nodes, sink, own, id) {
        pair_routes(mapping(nodes[id].outputs(), sink.inputs()))
    } else {
        Set::empty()
    }
}

/// The routes that lead the outputs of the nodes `ids` into the sink.
pub open spec fn desired_routes(
    nodes: Map<u32, NodeRecord>,
    sink: NodeRecord,
    own: spec_fn(NodeRecord) -> bool,
    ids: Seq<u32>,
) -> Set<(Seq<char>, Seq<char>)> {
    Set::new(
        |r: (Seq<char>, Seq<char>)|
            exists|id: u32| #[trigger]
                ids.contains(id) && node_routes(nodes, sink, own, id).contains(r),
    )
}

impl StateView {
    pub open spec fn own(self) -> spec_fn(NodeRecord) -> bool {
        ours(NameScope::AnyName, self.sink_name, self.virtual_mic_name)
    }
}

/// The routes that the nodes `ids` ask for, or why there are none.
pub open spec fn planned_routes(
    s: StateView,
    nodes: IdTable<NodeRecord>,
    ids: Seq<u32>,
) -> Result<Set<(Seq<char>, Seq<char>)>, BackendErrorView> {
    match sink_node(nodes.entries(), s.sink_name, s.sink_description) {
        None => Err(
            BackendErrorView::Message(
                "virtual sink exists in PulseAudio but was not found in PipeWire"@,
            ),
        ),
        Some(sink) => if sink.inputs().len() < 2 {
            Err(BackendErrorView::Message("virtual sink has no usable stereo input ports"@))
        } else {
            let routes = desired_routes(nodes@, sink, s.own(), ids);
            if routes == Set::<(Seq<char>, Seq<char>)>::empty() {
                Err(BackendErrorView::Message("none of the selected nodes could be linked"@))
            } else {
                Ok(routes)
            }
        },
    }
}

/// What happens while nodes are being routed.
pub enum RouteEvent {
    /// These nodes, and no others, are to be routed.
    Asked { node_ids: Vec<u32> },
    /// The old routes have been removed, for want of new ones.
    Cleared { cleared: Result<(), BackendError> },
    /// The sink has been made.
    SinkEnsured { node_ids: Vec<u32>, result: Result<VirtualSinkInfo, BackendError> },
    /// The graph as it was found.
    Looked {
        node_ids: Vec<u32>,
        info: VirtualSinkInfo,
        graph: Result<PipeWireSnapshot, BackendError>,
    },
    /// What came of each link, in the order of the routes.
    Linked { desired: RouteSet, info: VirtualSinkInfo, outcomes: Vec<Result<(), BackendError>> },
    /// What came of each removal, in the order of the routes.
    Unlinked {
        stale: RouteSet,
        active: RouteSet,
        info: VirtualSinkInfo,
        outcomes: Vec<Result<(), BackendError>>,
    },
}

pub enum RouteStep {
    /// Remove all routes.
    ClearRoutes,
    /// Make the sink.
    EnsureSink { node_ids: Vec<u32> },
    /// Read the graph.
    Look { node_ids: Vec<u32>, info: VirtualSinkInfo },
    /// Make these links.
    Link { desired: RouteSet, info: VirtualSinkInfo },
    /// Remove these links.
    Unlink { stale: RouteSet, active: RouteSet, info: VirtualSinkInfo },
    Done(Result<VirtualSinkInfo, BackendError>),
}

pub enum RouteStepView {
    ClearRoutes,
    EnsureSink { node_ids: Seq<u32> },
    Look { node_ids: Seq<u32>, info: VirtualSinkInfoView },
    Link { desired: Set<(Seq<char>, Seq<char>)>, info: VirtualSinkInfoView },
    Unlink {
        stale: Set<(Seq<char>, Seq<char>)>,
        active: Set<(Seq<char>, Seq<char>)>,
        info: VirtualSinkInfoView,
    },
    Done(Result<VirtualSinkInfoView, BackendErrorView>),
}

impl View for RouteStep {
    type V = RouteStepView;

    open spec fn view(&self) -> RouteStepView {
        match self {
            RouteStep::ClearRoutes => RouteStepView::ClearRoutes,
            RouteStep::EnsureSink { node_ids } => RouteStepView::EnsureSink {
                node_ids: node_ids@,
            },
            RouteStep::Look { node_ids, info } => RouteStepView::Look {
                node_ids: node_ids@,
                info: info@,
            },
            RouteStep::Link { desired, info } => RouteStepView::Link {
                desired: desired@,
                info: info@,
            },
            RouteStep::Unlink { stale, active, info } => RouteStepView::Unlink {
                stale: stale@,
                active: active@,
                info: info@,
            },
            RouteStep::Done(r) => RouteStepView::Done(info_outcome(*r)),
        }
    }
}

/// How the routing goes on.
pub open spec fn route_transition(s: StateView, event: RouteEvent) -> (StateView, RouteStepView) {
    match event {
        RouteEvent::Asked { node_ids } => (
            s,
            if node_ids@.len() == 0 {
                RouteStepView::ClearRoutes
            } else {
                RouteStepView::EnsureSink { node_ids: node_ids@ }
            },
        ),
        RouteEvent::Cleared { cleared } => (
            s,
            match cleared {
                Ok(_) => RouteStepView::EnsureSink { node_ids: Seq::empty() },
                Err(e) => RouteStepView::Done(Err(e@)),
            },
        ),
        RouteEvent::SinkEnsured { node_ids, result } => (
            s,
            match result {
                Ok(info) => if node_ids@.len() == 0 {
                    RouteStepView::Done(Ok(info@))
                } else {
                    RouteStepView::Look { node_ids: node_ids@, info: info@ }
                },
                Err(e) => RouteStepView::Done(Err(e@)),
            },
        ),
        RouteEvent::Looked { node_ids, info, graph } => (
            s,
            match graph {
                Ok(g) => match planned_routes(s, g.nodes, node_ids@) {
                    Ok(desired) => RouteStepView::Link { desired, info: info@ },
                    Err(e) => RouteStepView::Done(Err(e)),
                },
                Err(e) => RouteStepView::Done(Err(e@)),
            },
        ),
        RouteEvent::Linked { desired, info, outcomes } => {
            let active = selected(desired.routes(), outcomes@, true);
            (
                s,
                if active == Set::<(Seq<char>, Seq<char>)>::empty() {
                    RouteStepView::Done(
                        Err(
                            BackendErrorView::Message(
                                "none of the selected nodes could be linked"@,
                            ),
                        ),
                    )
                } else {
                    RouteStepView::Unlink {
                        stale: s.routes.difference(desired@),
                        active,
                        info: info@,
                    }
                },
            )
        },
        RouteEvent::Unlinked { stale, active, info, outcomes } => (
            StateView {
                routes: active@.union(selected(stale.routes(), outcomes@, false)),
                ..s
            },
            RouteStepView::Done(Ok(info@)),
        ),
    }
}

/// What happens while routes are being removed.
pub enum ClearEvent {
    Asked,
    /// What came of each removal, in the order of the routes.
    Unlinked { routes: RouteSet, outcomes: Vec<Result<(), BackendError>> },
}

pub enum ClearStep {
    /// Remove these links.
    Unlink(RouteSet),
    Done(Result<(), BackendError>),
}

pub enum ClearStepView {
    Unlink(Set<(Seq<char>, Seq<char>)>),
    Done(Result<(), BackendErrorView>),
}

impl View for ClearStep {
    type V = ClearStepView;

    open spec fn view(&self) -> ClearStepView {
        match self {
            ClearStep::Unlink(routes) => ClearStepView::Unlink(routes@),
            ClearStep::Done(r) => ClearStepView::Done(crate::error::outcome(*r)),
        }
    }
}

pub open spec fn clear_failure(n: nat) -> BackendErrorView {
    BackendErrorView::Message(
        "failed to remove "@ + decimal(n) + " route(s); cleanup will be retried later"@,
    )
}

/// How the removal of all routes goes on.
pub open spec fn clear_transition(s: StateView, event: ClearEvent) -> (StateView, ClearStepView) {
    match event {
        ClearEvent::Asked => if s.routes == Set::<(Seq<char>, Seq<char>)>::empty() {
            (s, ClearStepView::Done(Ok(())))
        } else {
            (StateView { routes: Set::empty(), ..s }, ClearStepView::Unlink(s.routes))
        },
        ClearEvent::Unlinked { routes, outcomes } => {
            let n = failures(routes.routes().len(), outcomes@);
            (
                StateView { routes: selected(routes.routes(), outcomes@, false), ..s },
                ClearStepView::Done(
                    if n == 0 {
                        Ok(())
                    } else {
                        Err(clear_failure(n))
                    },
                ),
            )
        },
    }
}

/// What happens while a session is being taken down.
pub enum DisposeEvent {
    Asked,
    /// The routes have been removed.
    Cleared { result: Result<(), BackendError> },
    /// The answer to the command that unloads the microphone.
    MicUnloaded { module_id: u32, answer: Result<String, BackendError>, errors: Vec<String> },
    /// The answer to the command that unloads the sink.
    SinkUnloaded { module_id: u32, answer: Result<String, BackendError>, errors: Vec<String> },
}

pub enum DisposeStep {
    /// Remove all routes.
    ClearRoutes,
    /// Run this command, which unloads the microphone.
    UnloadMic { module_id: u32, command: CommandLine, errors: Vec<String> },
    /// Run this command, which unloads the sink.
    UnloadSink { module_id: u32, command: CommandLine, errors: Vec<String> },
    Done(Result<(), BackendError>),
}

pub enum DisposeStepView {
    ClearRoutes,
    UnloadMic { module_id: u32, command: (Seq<char>, Seq<Seq<char>>), errors: Seq<Seq<char>> },
    UnloadSink { module_id: u32, command: (Seq<char>, Seq<Seq<char>>), errors: Seq<Seq<char>> },
    Done(Result<(), BackendErrorView>),
}

impl View for DisposeStep {
    type V = DisposeStepView;

    open spec fn view(&self) -> DisposeStepView {
        match self {
            DisposeStep::ClearRoutes => DisposeStepView::ClearRoutes,
            DisposeStep::UnloadMic { module_id, command, errors } => DisposeStepView::UnloadMic {
                module_id: *module_id,
                command: command@,
                errors: texts(errors@),
            },
            DisposeStep::UnloadSink { module_id, command, errors } => DisposeStepView::UnloadSink {
                module_id: *module_id,
                command: command@,
                errors: texts(errors@),
            },
            DisposeStep::Done(r) => DisposeStepView::Done(crate::error::outcome(*r)),
        }
    }
}

/// The end of it: all errors in one.
pub open spec fn disposed(errors: Seq<Seq<char>>) -> Result<(), BackendErrorView> {
    if errors.len() == 0 {
        Ok(())
    } else {
        Err(BackendErrorView::Message(join(errors, "; "@)))
    }
}

/// What follows once the microphone is gone or was never there.
pub open spec fn after_mic_gone(s: StateView, errors: Seq<Seq<char>>) -> DisposeStepView {
    match s.module_id {
        Some(id) => DisposeStepView::UnloadSink {
            module_id: id,
            command: unload_command(decimal(id as nat)),
            errors,
        },
        None => DisposeStepView::Done(disposed(errors)),
    }
}

/// The complaint about module `id`, which is a virtual `what`.
pub open spec fn unload_complaint(what: Seq<char>, id: u32, e: BackendErrorView) -> Seq<char> {
    "failed to unload virtual "@ + what + " module "@ + decimal(id as nat) + ": "@ + e.text()
}

/// How the taking down goes on. Every part is tried, whatever came of the ones
/// before it.
pub open spec fn dispose_transition(s: StateView, event: DisposeEvent) -> (
    StateView,
    DisposeStepView,
) {
    match event {
        DisposeEvent::Asked => (s, DisposeStepView::ClearRoutes),
        DisposeEvent::Cleared { result } => {
            let errors = match result {
                Ok(_) => Seq::<Seq<char>>::empty(),
                Err(e) => seq![e@.text()],
            };
            (
                s,
                match s.remap_module_id {
                    Some(id) => DisposeStepView::UnloadMic {
                        module_id: id,
                        command: unload_command(decimal(id as nat)),
                        errors,
                    },
                    None => after_mic_gone(s, errors),
                },
            )
        },
        DisposeEvent::MicUnloaded { module_id, answer, errors } => match answer {
            Ok(_) => {
                let t = StateView { remap_module_id: None, ..s };
                (t, after_mic_gone(t, texts(errors@)))
            },
            Err(e) => (
                s,
                after_mic_gone(s, texts(errors@).push(unload_complaint("mic"@, module_id, e@))),
            ),
        },
        DisposeEvent::SinkUnloaded { module_id, answer, errors } => match answer {
            Ok(_) => (
                StateView { module_id: None, ..s },
                DisposeStepView::Done(disposed(texts(errors@))),
            ),
            Err(e) => (
                s,
                DisposeStepView::Done(
                    disposed(texts(errors@).push(unload_complaint("sink"@, module_id, e@))),
                ),
            ),
        },
    }
}

/// What happens while nodes are being listed.
pub enum ListEvent {
    Asked,
    PipewireChecked(bool),
    Looked(Result<PipeWireSnapshot, BackendError>),
}

pub enum ListStep {
    CheckPipewire,
    /// Read the graph.
    Look,
    Done(Result<Vec<ShareableNode>, BackendError>),
}

impl PatchbayState {
    /// A fresh session of process `pid`, under the next number.
    pub fn new(config: &PatchbayConfig, pid: u32, numbers: &mut SessionCounter) -> (r: Self)
        ensures
            r@ == fresh_state(config@, pid, old(numbers).next),
            final(numbers).next == number_after(old(numbers).next),
    {
        let unique = numbers.take();
        let virtual_mic_name = if config.virtual_mic || config.virtual_mic_name.is_some() {
            let base = config.mic_base_name();
            Some(make_unique_name(base.as_str(), pid, unique))
        } else {
            None
        };
        let virtual_mic_description = if config.virtual_mic
            || config.virtual_mic_description.is_some() {
            Some(config.mic_description_text())
        } else {
            None
        };
        PatchbayState {
            sink_name: make_unique_name(config.sink_prefix.as_str(), pid, unique),
            sink_description: config.sink_description.clone(),
            module_id: None,
            routes: RouteSet::new(),
            virtual_mic_name,
            virtual_mic_description,
            remap_module_id: None,
        }
    }

    /// Whether `node` is an object of this session.
    pub fn is_our_virtual_audio_object(&self, node: &NodeRecord) -> (r: bool)
        ensures
            r == (self@.own())(*node),
    {
        is_ours(NameScope::AnyName, node, self.sink_name.as_str(), &self.virtual_mic_name)
    }

    /// The nodes that a user is offered.
    pub fn list_shareable_nodes(&self, include_devices: bool, event: ListEvent) -> (step: ListStep)
        ensures
            match event {
                ListEvent::Asked => step is CheckPipewire,
                ListEvent::PipewireChecked(found) => if found {
                    step is Look
                } else {
                    step matches ListStep::Done(Err(e)) && e@ == BackendErrorView::Unsupported
                },
                ListEvent::Looked(graph) => match graph {
                    Ok(g) => step matches ListStep::Done(Ok(list)) && is_listing(
                        shareable_views(list@),
                        g.nodes.entries(),
                        self@.own(),
                        include_devices,
                    ),
                    Err(e) => step == ListStep::Done(Err(e)),
                },
            },
    {
        match event {
            ListEvent::Asked => ListStep::CheckPipewire,
            ListEvent::PipewireChecked(found) => {
                if found {
                    ListStep::Look
                } else {
                    ListStep::Done(Err(BackendError::Unsupported))
                }
            },
            ListEvent::Looked(graph) => match graph {
                Ok(g) => ListStep::Done(
                    Ok(
                        list_nodes(
                            &g.nodes,
                            NameScope::AnyName,
                            self.sink_name.as_str(),
                            &self.virtual_mic_name,
                            include_devices,
                        ),
                    ),
                ),
                Err(err) => ListStep::Done(Err(err)),
            },
        }
    }

    /// The hint that the graph gives of a window share in progress.
    pub fn find_screencast_hint(&self, graph: Result<PipeWireSnapshot, BackendError>) -> (r: Result<
        Option<ScreencastHint>,
        BackendError,
    >)
        ensures
            match graph {
                Ok(g) => match r {
                    Ok(Some(h)) => first_hint(g.nodes.entries()) == Some(
                        (h.desktop_file_id@, h.hint@),
                    ),
                    Ok(None) => first_hint(g.nodes.entries()) is None,
                    Err(_) => false,
                },
                Err(e) => r == Err::<Option<ScreencastHint>, BackendError>(e),
            },
    {
        match graph {
            Ok(g) => Ok(find_screencast_hint(&g.nodes)),
            Err(err) => Err(err),
        }
    }

    /// The sink as the graph shows it.
    pub fn virtual_sink_info(&self, graph: &PipeWireSnapshot) -> (r: Option<VirtualSinkInfo>)
        ensures
            match r {
                Some(info) => sink_info(self@, graph.nodes.entries()) == Some(info@),
                None => sink_info(self@, graph.nodes.entries()) is None,
            },
    {
        match graph.find_virtual_sink(self.sink_name.as_str(), self.sink_description.as_str()) {
            Some(node) => {
                let inputs = node.usable_inputs();
                if inputs.len() < 2 {
                    None
                } else {
                    Some(
                        VirtualSinkInfo {
                            sink_name: self.sink_name.clone(),
                            monitor_source: monitor_source(self.sink_name.as_str()),
                            node_id: node.id,
                            virtual_mic_name: copy_opt(&self.virtual_mic_name),
                            virtual_mic_description: copy_opt(&self.virtual_mic_description),
                        },
                    )
                }
            },
            None => None,
        }
    }

    fn load_sink(&self) -> (c: CommandLine)
        ensures
            c@ == load_sink_command(self@),
    {
        let properties = make_properties(
            "sink_properties",
            self.sink_description.as_str(),
            self.sink_name.as_str(),
        );
        let c = CommandLine {
            program: "pactl",
            args: vec![
                owned("load-module"),
                owned("module-null-sink"),
                cat("sink_name=", self.sink_name.as_str()),
                owned("channels=2"),
                owned("channel_map=front-left,front-right"),
                properties,
            ],
        };
        assert(c@.1 =~= load_sink_command(self@).1);
        c
    }

    fn load_mic(&self, mic: &String, info: &VirtualSinkInfo) -> (c: CommandLine)
        ensures
            c@ == load_mic_command(info@.monitor_source, mic@, self@.virtual_mic_description),
    {
        let description = match &self.virtual_mic_description {
            Some(t) => t.as_str(),
            None => "Virtual Microphone",
        };
        let properties = make_properties("source_properties", description, mic.as_str());
        let c = CommandLine {
            program: "pactl",
            args: vec![
                owned("load-module"),
                owned("module-remap-source"),
                cat("master=", info.monitor_source.as_str()),
                cat("source_name=", mic.as_str()),
                properties,
            ],
        };
        assert(c@.1 =~= load_mic_command(
            info@.monitor_source,
            mic@,
            self@.virtual_mic_description,
        ).1);
        c
    }

    fn go_on_to_mic(&self, info: VirtualSinkInfo) -> (step: SinkStep)
        ensures
            step@ == after_sink(self@, info@),
    {
        if self.remap_module_id.is_none() {
            match &self.virtual_mic_name {
                Some(mic) => SinkStep::LoadMic { command: self.load_mic(mic, &info), info },
                None => SinkStep::Done(Ok(info)),
            }
        } else {
            SinkStep::Done(Ok(info))
        }
    }

    /// Makes the sink and, where one is wanted, the microphone.
    pub fn ensure_virtual_sink(&mut self, event: SinkEvent) -> (step: SinkStep)
        ensures
            (final(self)@, step@) == sink_transition(old(self)@, event),
    {
        match event {
            SinkEvent::Asked => SinkStep::CheckPipewire,
            SinkEvent::PipewireChecked(found) => {
                if found {
                    SinkStep::Look
                } else {
                    SinkStep::Done(Err(BackendError::Unsupported))
                }
            },
            SinkEvent::Looked(graph) => match graph {
                Ok(g) => match self.virtual_sink_info(&g) {
                    Some(info) => self.go_on_to_mic(info),
                    None => SinkStep::LoadSink(self.load_sink()),
                },
                Err(err) => SinkStep::Done(Err(err)),
            },
            SinkEvent::SinkLoaded { answer, now } => match read_module_id(
                answer,
                "failed to parse module id: ",
            ) {
                Ok(id) => {
                    self.module_id = Some(id);
                    SinkStep::Poll { pause_ms: 0, deadline: moment_after(now, SINK_TIMEOUT) }
                },
                Err(err) => SinkStep::Done(Err(err)),
            },
            SinkEvent::Polled { graph, now, deadline } => {
                let found = match graph {
                    Ok(g) => self.virtual_sink_info(&g),
                    Err(_) => None,
                };
                match found {
                    Some(info) => self.go_on_to_mic(info),
                    None => {
                        if now >= deadline {
                            SinkStep::Done(Err(BackendError::Timeout(owned("virtual sink"))))
                        } else {
                            SinkStep::Poll { pause_ms: SINK_POLL_DELAY, deadline }
                        }
                    },
                }
            },
            SinkEvent::MicLoaded { answer, info } => match read_module_id(
                answer,
                "failed to parse remap module id: ",
            ) {
                Ok(id) => {
                    self.remap_module_id = Some(id);
                    SinkStep::Done(Ok(info))
                },
                Err(err) => SinkStep::Done(Err(err)),
            },
        }
    }

    /// The routes that the nodes `node_ids` ask for.
    fn plan_routes(&self, graph: &PipeWireSnapshot, node_ids: Vec<u32>) -> (r: Result<
        RouteSet,
        BackendError,
    >)
        ensures
            match r {
                Ok(routes) => planned_routes(self@, graph.nodes, node_ids@) == Ok::<
                    Set<(Seq<char>, Seq<char>)>,
                    BackendErrorView,
                >(routes@),
                Err(e) => planned_routes(self@, graph.nodes, node_ids@) == Err::<
                    Set<(Seq<char>, Seq<char>)>,
                    BackendErrorView,
                >(e@),
            },
    {
        let sink = match graph.find_virtual_sink(
            self.sink_name.as_str(),
            self.sink_description.as_str(),
        ) {
            Some(node) => node,
            None => {
                return Err(
                    BackendError::message(
                        "virtual sink exists in PulseAudio but was not found in PipeWire",
                    ),
                );
            },
        };
        let inputs = sink.usable_inputs();
        if inputs.len() < 2 {
            return Err(
                BackendError::message("virtual sink has no usable stereo input ports"),
            );
        }
        let ghost own = self@.own();
        let ghost nodes = graph.nodes@;
        let ghost asked = node_ids@;
        let ids = dedupe_node_ids(node_ids);
        let mut desired = RouteSet::new();
        let mut i: usize = 0;
        assert(desired@ =~= desired_routes(nodes, *sink, own, ids@.take(0)));
        while i < ids.len()
            invariant
                i <= ids@.len(),
                own == self@.own(),
                nodes == graph.nodes@,
                inputs@ == sink.inputs(),
                desired@ == desired_routes(nodes, *sink, own, ids@.take(i as int)),
            decreases ids@.len() - i,
        {
            let id: u32 = ids[i];
            let ghost before = desired@;
            if id != sink.id {
                match graph.nodes.get(id) {
                    Some(node) => {
                        if !self.is_our_virtual_audio_object(node) {
                            let outputs = node.usable_outputs();
                            let pairs = map_ports(&outputs, &inputs);
                            add_pairs(&mut desired, &pairs);
                        }
                    },
                    None => {},
                }
            }
            proof {
                assert(desired@ =~= before.union(node_routes(nodes, *sink, own, id)));
                lemma_desired_push(nodes, *sink, own, ids@, i as int);
            }
            i = i + 1;
        }
        proof {
            assert(ids@.take(ids@.len() as int) =~= ids@);
            distinct_keeps_each_id_once(asked);
            assert forall|r: (Seq<char>, Seq<char>)|
                desired_routes(nodes, *sink, own, ids@).contains(r) == desired_routes(
                    nodes,
                    *sink,
                    own,
                    asked,
                ).contains(r) by {
                if desired_routes(nodes, *sink, own, ids@).contains(r) {
                    let id = choose|id: u32| #[trigger]
                        ids@.contains(id) && node_routes(nodes, *sink, own, id).contains(r);
                    assert(asked.contains(id));
                }
                if desired_routes(nodes, *sink, own, asked).contains(r) {
                    let id = choose|id: u32| #[trigger]
                        asked.contains(id) && node_routes(nodes, *sink, own, id).contains(r);
                    assert(distinct(asked).contains(id));
                }
            }
            assert(desired@ =~= desired_routes(nodes, *sink, own, asked));
        }
        if desired.is_empty() {
            return Err(BackendError::message("none of the selected nodes could be linked"));
        }
        Ok(desired)
    }

    /// Routes the given nodes, and no others, into the sink.
    pub fn route_nodes(&mut self, event: RouteEvent) -> (step: RouteStep)
        ensures
            (final(self)@, step@) == route_transition(old(self)@, event),
    {
        match event {
            RouteEvent::Asked { node_ids } => {
                if node_ids.len() == 0 {
                    RouteStep::ClearRoutes
                } else {
                    RouteStep::EnsureSink { node_ids }
                }
            },
            RouteEvent::Cleared { cleared } => match cleared {
                Ok(_) => {
                    let node_ids: Vec<u32> = Vec::new();
                    assert(node_ids@ =~= Seq::<u32>::empty());
                    RouteStep::EnsureSink { node_ids }
                },
                Err(err) => RouteStep::Done(Err(err)),
            },
            RouteEvent::SinkEnsured { node_ids, result } => match result {
                Ok(info) => {
                    if node_ids.len() == 0 {
                        RouteStep::Done(Ok(info))
                    } else {
                        RouteStep::Look { node_ids, info }
                    }
                },
                Err(err) => RouteStep::Done(Err(err)),
            },
            RouteEvent::Looked { node_ids, info, graph } => match graph {
                Ok(g) => match self.plan_routes(&g, node_ids) {
                    Ok(desired) => RouteStep::Link { desired, info },
                    Err(err) => RouteStep::Done(Err(err)),
                },
                Err(err) => RouteStep::Done(Err(err)),
            },
            RouteEvent::Linked { desired, info, outcomes } => {
                let active = desired.select(&outcomes, true);
                if active.is_empty() {
                    RouteStep::Done(
                        Err(BackendError::message("none of the selected nodes could be linked")),
                    )
                } else {
                    let stale = self.routes.difference(&desired);
                    RouteStep::Unlink { stale, active, info }
                }
            },
            RouteEvent::Unlinked { stale, active, info, outcomes } => {
                let retained = stale.select(&outcomes, false);
                let mut routes = active;
                routes.extend(&retained);
                self.routes = routes;
                RouteStep::Done(Ok(info))
            },
        }
    }

    /// Removes all routes; those that cannot be removed are kept for a later
    /// try.
    pub fn clear_routes(&mut self, event: ClearEvent) -> (step: ClearStep)
        ensures
            (final(self)@, step@) == clear_transition(old(self)@, event),
    {
        match event {
            ClearEvent::Asked => {
                if self.routes.is_empty() {
                    ClearStep::Done(Ok(()))
                } else {
                    let mut routes = RouteSet::new();
                    std::mem::swap(&mut routes, &mut self.routes);
                    ClearStep::Unlink(routes)
                }
            },
            ClearEvent::Unlinked { routes, outcomes } => {
                let n = routes.count_failed(&outcomes);
                self.routes = routes.select(&outcomes, false);
                if n == 0 {
                    ClearStep::Done(Ok(()))
                } else {
                    let mut message = owned("failed to remove ");
                    push_decimal(&mut message, n as u64);
                    push_text(&mut message, " route(s); cleanup will be retried later");
                    ClearStep::Done(Err(BackendError::Message(message)))
                }
            },
        }
    }

    fn go_on_to_sink(&self, errors: Vec<String>) -> (step: DisposeStep)
        ensures
            step@ == after_mic_gone(self@, texts(errors@)),
    {
        match self.module_id {
            Some(module_id) => DisposeStep::UnloadSink {
                module_id,
                command: unload(decimal_text(module_id as u64)),
                errors,
            },
            None => DisposeStep::Done(finish(errors)),
        }
    }

    /// Takes the session down.
    pub fn dispose(&mut self, event: DisposeEvent) -> (step: DisposeStep)
        ensures
            (final(self)@, step@) == dispose_transition(old(self)@, event),
    {
        match event {
            DisposeEvent::Asked => DisposeStep::ClearRoutes,
            DisposeEvent::Cleared { result } => {
                let mut errors: Vec<String> = Vec::new();
                match result {
                    Ok(_) => {
                        assert(texts(errors@) =~= Seq::<Seq<char>>::empty());
                    },
                    Err(err) => {
                        errors.push(err.to_text());
                        assert(texts(errors@) =~= seq![err@.text()]);
                    },
                }
                match self.remap_module_id {
                    Some(module_id) => DisposeStep::UnloadMic {
                        module_id,
                        command: unload(decimal_text(module_id as u64)),
                        errors,
                    },
                    None => self.go_on_to_sink(errors),
                }
            },
            DisposeEvent::MicUnloaded { module_id, answer, errors } => {
                let mut errors = errors;
                let ghost before = texts(errors@);
                match answer {
                    Ok(_) => {
                        self.remap_module_id = None;
                    },
                    Err(err) => {
                        errors.push(complain("mic", module_id, &err));
                        assert(texts(errors@) =~= before.push(
                            unload_complaint("mic"@, module_id, err@),
                        ));
                    },
                }
                self.go_on_to_sink(errors)
            },
            DisposeEvent::SinkUnloaded { module_id, answer, errors } => {
                let mut errors = errors;
                let ghost before = texts(errors@);
                match answer {
                    Ok(_) => {
                        self.module_id = None;
                    },
                    Err(err) => {
                        errors.push(complain("sink", module_id, &err));
                        assert(texts(errors@) =~= before.push(
                            unload_complaint("sink"@, module_id, err@),
                        ));
                    },
                }
                DisposeStep::Done(finish(errors))
            },
        }
    }
}

fn complain(what: &str, module_id: u32, err: &BackendError) -> (r: String)
    ensures
        r@ == unload_complaint(what@, module_id, err@),
{
    let mut r = cat("failed to unload virtual ", what);
    push_text(&mut r, " module ");
    push_decimal(&mut r, module_id as u64);
    push_text(&mut r, ": ");
    let text = err.to_text();
    push_text(&mut r, text.as_str());
    r
}

/// All errors in one.
pub fn finish(errors: Vec<String>) -> (r: Result<(), BackendError>)
    ensures
        crate::error::outcome(r) == disposed(texts(errors@)),
{
    if errors.len() == 0 {
        Ok(())
    } else {
        Err(BackendError::Message(joined(&errors, "; ")))
    }
}

fn add_pairs(routes: &mut RouteSet, pairs: &Vec<(PortRecord, PortRecord)>)
    ensures
        final(routes)@ == old(routes)@.union(pair_routes(pairs@)),
{
    let ghost before = routes@;
    let mut i: usize = 0;
    assert(routes@ =~= before.union(pair_routes(pairs@.take(0))));
    while i < pairs.len()
        invariant
            i <= pairs@.len(),
            routes@ == before.union(pair_routes(pairs@.take(i as int))),
        decreases pairs@.len() - i,
    {
        let ghost earlier = routes@;
        let ghost a = pairs@.take(i as int);
        let ghost b = pairs@.take(i + 1);
        proof {
            assert forall|r: (Seq<char>, Seq<char>)|
                pair_routes(b).contains(r) == (pair_routes(a).contains(r) || pair_route(
                    pairs@[i as int],
                ) == Some(r)) by {
                if pair_routes(b).contains(r) {
                    let k = choose|k: int| 0 <= k < b.len() && pair_route(#[trigger] b[k]) == Some(r);
                    if k < i {
                        assert(a[k] == b[k]);
                    }
                }
                if pair_routes(a).contains(r) {
                    let k = choose|k: int| 0 <= k < a.len() && pair_route(#[trigger] a[k]) == Some(r);
                    assert(b[k] == a[k]);
                }
                assert(b[i as int] == pairs@[i as int]);
            }
        }
        match (&pairs[i].0.path, &pairs[i].1.path) {
            (Some(output), Some(input)) => {
                routes.insert(Route { output_path: output.clone(), input_path: input.clone() });
            },
            _ => {},
        }
        assert(routes@ =~= before.union(pair_routes(b)));
        i = i + 1;
    }
    assert(pairs@.take(pairs@.len() as int) =~= pairs@);
}

proof fn lemma_desired_push(
    nodes: Map<u32, NodeRecord>,
    sink: NodeRecord,
    own: spec_fn(NodeRecord) -> bool,
    ids: Seq<u32>,
    i: int,
)
    requires
        0 <= i < ids.len(),
    ensures
        desired_routes(nodes, sink, own, ids.take(i + 1)) == desired_routes(
            nodes,
            sink,
            own,
            ids.take(i),
        ).union(node_routes(nodes, sink, own, ids[i])),
{
    let a = ids.take(i);
    let b = ids.take(i + 1);
    assert(b =~= a.push(ids[i]));
    let x = desired_routes(nodes, sink, own, a);
    let y = desired_routes(nodes, sink, own, b);
    assert forall|r: (Seq<char>, Seq<char>)|
        y.contains(r) == (x.contains(r) || node_routes(nodes, sink, own, ids[i]).contains(r)) by {
        if y.contains(r) {
            let id = choose|id: u32| #[trigger]
                b.contains(id) && node_routes(nodes, sink, own, id).contains(r);
            let k = b.index_of(id);
            if k < i {
                assert(a[k] == id);
                assert(a.contains(id));
            }
        }
        if x.contains(r) {
            let id = choose|id: u32| #[trigger]
                a.contains(id) && node_routes(nodes, sink, own, id).contains(r);
            let k = a.index_of(id);
            assert(b[k] == id);
            assert(b.contains(id));
        }
        assert(b[i] == ids[i]);
        assert(b.contains(ids[i]));
    }
    assert(y =~= x.union(node_routes(nodes, sink, own, ids[i])));
}

/// A route that is planned leads an output of a chosen node, which is neither
/// the sink nor an object of ours, into an input of the sink.
pub proof fn planned_routes_lead_chosen_nodes_into_the_sink(
    nodes: Map<u32, NodeRecord>,
    sink: NodeRecord,
    own: spec_fn(NodeRecord) -> bool,
    ids: Seq<u32>,
    r: (Seq<char>, Seq<char>),
)
    requires
        desired_routes(nodes, sink, own, ids).contains(r),
    ensures
        exists|id: u32, output: PortRecord, input: PortRecord|
            {
                &&& ids.contains(id)
                &&& nodes.contains_key(id)
                &&& id != sink.id
                &&& !own(nodes[id])
                &&& #[trigger] nodes[id].outputs().contains(output)
                &&& #[trigger] sink.inputs().contains(input)
                &&& r == (output.path->0@, input.path->0@)
            },
{
    let id = choose|id: u32| #[trigger]
        ids.contains(id) && node_routes(nodes, sink, own, id).contains(r);
    let outputs = nodes[id].outputs();
    let inputs = sink.inputs();
    let pairs = mapping(outputs, inputs);
    let k = choose|k: int| 0 <= k < pairs.len() && pair_route(#[trigger] pairs[k]) == Some(r);
    crate::routing::mapping_joins_given_ports(outputs, inputs, k);
    assert(outputs.contains(pairs[k].0));
    assert(inputs.contains(pairs[k].1));
}

/// Every linkable output of every node that may be routed gets a route, where the
/// sink has an input at all.
pub proof fn every_chosen_output_is_routed(
    nodes: Map<u32, NodeRecord>,
    sink: NodeRecord,
    own: spec_fn(NodeRecord) -> bool,
    ids: Seq<u32>,
    id: u32,
    i: int,
)
    requires
        ids.contains(id),
        routable(nodes, sink, own, id),
        0 <= i < nodes[id].outputs().len(),
        sink.inputs().len() > 0,
    ensures
        exists|r: (Seq<char>, Seq<char>)| #[trigger]
            desired_routes(nodes, sink, own, ids).contains(r) && Some(r.0) == opt_text(
                nodes[id].outputs()[i].path,
            ),
{
    let outputs = nodes[id].outputs();
    let inputs = sink.inputs();
    let pairs = mapping(outputs, inputs);
    crate::routing::mapping_links_every_output(outputs, inputs, i);
    let k = choose|k: int| 0 <= k < pairs.len() && (#[trigger] pairs[k]).0 == outputs[i];
    crate::routing::mapping_joins_given_ports(outputs, inputs, k);
    lemma_usable_ports_have_paths(nodes[id], sink, pairs[k]);
    let r = (pairs[k].0.path->0@, pairs[k].1.path->0@);
    assert(pair_route(pairs[k]) == Some(r));
    assert(node_routes(nodes, sink, own, id).contains(r));
    assert(desired_routes(nodes, sink, own, ids).contains(r));
}

proof fn lemma_usable_ports_have_paths(
    node: NodeRecord,
    sink: NodeRecord,
    pair: (PortRecord, PortRecord),
)
    requires
        node.outputs().contains(pair.0),
        sink.inputs().contains(pair.1),
    ensures
        pair.0.path is Some,
        pair.1.path is Some,
{
    broadcast use vstd::seq_lib::group_filter_ensures;

}

/// The step at which a routing fails changes nothing of the session.
pub proof fn failed_routing_changes_nothing(s: StateView, event: RouteEvent)
    requires
        route_transition(s, event).1 matches RouteStepView::Done(Err(_)),
    ensures
        route_transition(s, event).0 == s,
{
}

proof fn lemma_all_selected(desired: RouteSet, outcomes: Seq<Result<(), BackendError>>)
    requires
        outcomes.len() >= desired.routes().len(),
        forall|i: int| 0 <= i < outcomes.len() ==> outcomes[i] is Ok,
    ensures
        selected(desired.routes(), outcomes, true) == desired@,
        selected(desired.routes(), outcomes, false) == Set::<(Seq<char>, Seq<char>)>::empty(),
{
    let s = desired.routes();
    assert forall|r: (Seq<char>, Seq<char>)|
        selected(s, outcomes, true).contains(r) == crate::routes::holds_route(s, r) by {
        if crate::routes::holds_route(s, r) {
            let k = choose|k: int| 0 <= k < s.len() && #[trigger] s[k]@ == r;
            assert(crate::routes::succeeded(outcomes, k));
        }
    }
    assert(selected(s, outcomes, true) =~= desired@);
    assert(selected(s, outcomes, false) =~= Set::<(Seq<char>, Seq<char>)>::empty());
}

/// Where every link is made and every stale one is removed, the session holds
/// the routes that were desired and no others.
pub proof fn smooth_routing_yields_the_desired_routes(
    s: StateView,
    desired: RouteSet,
    stale: RouteSet,
    active: RouteSet,
    info: VirtualSinkInfo,
    made: Vec<Result<(), BackendError>>,
    gone: Vec<Result<(), BackendError>>,
)
    requires
        made@.len() >= desired.routes().len(),
        gone@.len() >= stale.routes().len(),
        forall|i: int| 0 <= i < made@.len() ==> made@[i] is Ok,
        forall|i: int| 0 <= i < gone@.len() ==> gone@[i] is Ok,
        desired@ != Set::<(Seq<char>, Seq<char>)>::empty(),
        route_transition(s, RouteEvent::Linked { desired, info, outcomes: made }).1
            == (RouteStepView::Unlink { stale: stale@, active: active@, info: info@ }),
    ensures
        active@ == desired@,
        stale@ == s.routes.difference(desired@),
        route_transition(s, RouteEvent::Unlinked { stale, active, info, outcomes: gone }).0.routes
            == desired@,
{
    lemma_all_selected(desired, made@);
    lemma_all_selected(stale, gone@);
    assert(desired@.union(Set::<(Seq<char>, Seq<char>)>::empty()) =~= desired@);
}

/// A removal of all routes keeps exactly the routes that could not be removed,
/// and it succeeds exactly where none is kept.
pub proof fn clearing_keeps_what_it_could_not_remove(
    s: StateView,
    routes: RouteSet,
    outcomes: Vec<Result<(), BackendError>>,
)
    requires
        routes.ordered(),
    ensures
        ({
            let (after, step) = clear_transition(s, ClearEvent::Unlinked { routes, outcomes });
            &&& forall|r: (Seq<char>, Seq<char>)| #[trigger]
                after.routes.contains(r) ==> routes@.contains(r)
            &&& forall|i: int|
                0 <= i < routes.routes().len() ==> after.routes.contains(
                    (#[trigger] routes.routes()[i])@,
                ) == !succeeded(outcomes@, i)
            &&& (step == ClearStepView::Done(Ok(()))) == (after.routes == Set::<
                (Seq<char>, Seq<char>),
            >::empty())
        }),
{
    let list = routes.routes();
    crate::routes::no_failures_no_failed_routes(list, outcomes@);
    crate::routes::routes_are_walked_in_order(routes);
    let kept = selected(list, outcomes@, false);
    assert forall|r: (Seq<char>, Seq<char>)| #[trigger] kept.contains(r) implies routes@.contains(
        r,
    ) by {
        let k = choose|k: int|
            0 <= k < list.len() && #[trigger] list[k]@ == r && succeeded(outcomes@, k) == false;
        assert(crate::routes::holds_route(list, r));
    }
    assert forall|i: int| 0 <= i < list.len() implies kept.contains((#[trigger] list[i])@)
        == !succeeded(outcomes@, i) by {
        if kept.contains(list[i]@) {
            let k = choose|k: int|
                0 <= k < list.len() && #[trigger] list[k]@ == list[i]@ && succeeded(outcomes@, k)
                    == false;
            assert(k == i);
        }
    }
}

/// Clearing undoes routing: all routes that a routing left are handed to be removed
/// and, where each of them goes, none is left and nothing else has changed.
pub proof fn clearing_undoes_routing(
    s: StateView,
    stale: RouteSet,
    active: RouteSet,
    info: VirtualSinkInfo,
    made: Vec<Result<(), BackendError>>,
    routes: RouteSet,
    gone: Vec<Result<(), BackendError>>,
)
    requires
        ({
            let routed = route_transition(
                s,
                RouteEvent::Unlinked { stale, active, info, outcomes: made },
            ).0;
            routes@ == routed.routes && routed.routes != Set::<(Seq<char>, Seq<char>)>::empty()
        }),
        gone@.len() >= routes.routes().len(),
        forall|i: int| 0 <= i < gone@.len() ==> gone@[i] is Ok,
    ensures
        ({
            let routed = route_transition(
                s,
                RouteEvent::Unlinked { stale, active, info, outcomes: made },
            ).0;
            let (asked, step) = clear_transition(routed, ClearEvent::Asked);
            let (cleared, end) = clear_transition(
                asked,
                ClearEvent::Unlinked { routes, outcomes: gone },
            );
            &&& step == ClearStepView::Unlink(routes@)
            &&& cleared == (StateView { routes: Set::empty(), ..s })
            &&& end == ClearStepView::Done(Ok(()))
        }),
{
    lemma_all_selected(routes, gone@);
    crate::routes::no_failures_no_failed_routes(routes.routes(), gone@);
}

/// The complaint that an event of the taking down adds, if any.
pub open spec fn complaint(event: DisposeEvent) -> Seq<Seq<char>> {
    match event {
        DisposeEvent::Asked => Seq::empty(),
        DisposeEvent::Cleared { result } => match result {
            Ok(_) => Seq::empty(),
            Err(e) => seq![e@.text()],
        },
        DisposeEvent::MicUnloaded { module_id, answer, .. } => match answer {
            Ok(_) => Seq::empty(),
            Err(e) => seq![unload_complaint("mic"@, module_id, e@)],
        },
        DisposeEvent::SinkUnloaded { module_id, answer, .. } => match answer {
            Ok(_) => Seq::empty(),
            Err(e) => seq![unload_complaint("sink"@, module_id, e@)],
        },
    }
}

/// No error on the way is forgotten: each step hands on the complaints that
/// there were and the one that was added, and the end tells them all. A module
/// is given up exactly when it was unloaded.
pub proof fn disposing_forgets_no_error(s: StateView, event: DisposeEvent)
    ensures
        ({
            let (after, step) = dispose_transition(s, event);
            let before = match event {
                DisposeEvent::MicUnloaded { errors, .. } => texts(errors@),
                DisposeEvent::SinkUnloaded { errors, .. } => texts(errors@),
                _ => Seq::<Seq<char>>::empty(),
            };
            let now = before + complaint(event);
            &&& match step {
                DisposeStepView::ClearRoutes => event is Asked,
                DisposeStepView::UnloadMic { module_id, errors, .. } => errors == now
                    && s.remap_module_id == Some(module_id),
                DisposeStepView::UnloadSink { module_id, errors, .. } => errors == now
                    && s.module_id == Some(module_id),
                DisposeStepView::Done(r) => r == disposed(now),
            }
            &&& after == (StateView {
                module_id: if event is SinkUnloaded && complaint(event).len() == 0 {
                    None
                } else {
                    s.module_id
                },
                remap_module_id: if event is MicUnloaded && complaint(event).len() == 0 {
                    None
                } else {
                    s.remap_module_id
                },
                ..s
            })
            &&& step == DisposeStepView::Done(Ok(())) ==> after.module_id is None
        }),
{
    let (after, step) = dispose_transition(s, event);
    match event {
        DisposeEvent::MicUnloaded { module_id, answer, errors } => {
            match answer {
                Ok(_) => {
                    assert(texts(errors@) + complaint(event) =~= texts(errors@));
                },
                Err(e) => {
                    assert(texts(errors@) + complaint(event) =~= texts(errors@).push(
                        unload_complaint("mic"@, module_id, e@),
                    ));
                },
            }
        },
        DisposeEvent::SinkUnloaded { module_id, answer, errors } => {
            match answer {
                Ok(_) => {
                    assert(texts(errors@) + complaint(event) =~= texts(errors@));
                },
                Err(e) => {
                    assert(texts(errors@) + complaint(event) =~= texts(errors@).push(
                        unload_complaint("sink"@, module_id, e@),
                    ));
                },
            }
        },
        _ => {
            assert(Seq::<Seq<char>>::empty() + complaint(event) =~= complaint(event));
        },
    }
}

/// A sink is waited for no longer than its deadline, and the deadline never
/// moves.
pub proof fn waiting_for_the_sink_ends(s: StateView, event: SinkEvent)
    ensures
        event matches SinkEvent::Polled { now, deadline, .. } ==> match sink_transition(
            s,
            event,
        ).1 {
            SinkStepView::Poll { deadline: d, .. } => now < deadline && d == deadline,
            _ => true,
        },
{
}

/// A microphone that was made is not made again.
pub proof fn microphone_is_made_once(s: StateView, event: SinkEvent)
    requires
        s.remap_module_id is Some,
    ensures
        !(sink_transition(s, event).1 is LoadMic),
{
}

/// In a quoted value a backslash stands before each quote and each backslash of
/// the value, every other character stands as it is, and a quote stands at
/// either end.
pub proof fn quoting_guards_quotes_and_backslashes(s: Seq<char>, c: char)
    ensures
        escaped(Seq::empty()) == Seq::<char>::empty(),
        escaped(s.push('"')) == escaped(s) + seq!['\\', '"'],
        escaped(s.push('\\')) == escaped(s) + seq!['\\', '\\'],
        c != '"' && c != '\\' ==> escaped(s.push(c)) == escaped(s) + seq![c],
        quoted(s) == seq!['"'] + escaped(s) + seq!['"'],
{
    lemma_escaped_push(s, '"');
    lemma_escaped_push(s, '\\');
    lemma_escaped_push(s, c);
    reveal_strlit("\"");
    assert("\""@ =~= seq!['"']);
}

/// A new session has loaded nothing and made no route. Its sink and its
/// microphone bear unique names made from what was set up; it has a microphone
/// exactly if one was asked for or named.
pub proof fn a_new_session_has_loaded_nothing(c: ConfigView, pid: u32, unique: u64)
    ensures
        ({
            let s = fresh_state(c, pid, unique);
            &&& s.sink_name == unique_name(c.sink_prefix, pid, unique)
            &&& s.sink_description == c.sink_description
            &&& s.module_id is None && s.remap_module_id is None
            &&& s.routes == Set::<(Seq<char>, Seq<char>)>::empty()
            &&& s.virtual_mic_name is Some == (c.virtual_mic || c.virtual_mic_name is Some)
            &&& s.virtual_mic_name is Some ==> s.virtual_mic_name == Some(
                unique_name(c.mic_base(), pid, unique),
            )
            &&& s.virtual_mic_description is Some == (c.virtual_mic
                || c.virtual_mic_description is Some)
            &&& s.virtual_mic_description is Some ==> s.virtual_mic_description == Some(
                c.mic_text(),
            )
        }),
{
}

/// What an earlier session left behind is found again: a module whose line
/// names the sink or the microphone of a session with the same setup is unloaded,
/// by the id that stands first on the line, and a module whose line mentions
/// neither is left alone.
pub proof fn leftovers_are_unloaded_by_their_id(
    list: Seq<Seq<char>>,
    id: Seq<char>,
    a: Seq<char>,
    b: Seq<char>,
    mark: Seq<char>,
    line: Seq<char>,
)
    requires
        id.len() > 0,
        forall|i: int| 0 <= i < id.len() ==> !is_white_space(#[trigger] id[i]),
        a.len() > 0 && is_white_space(a[0]),
    ensures
        orphans(list.push(id + a + mark + b), mark) == orphans(list, mark).push(id),
        !contains_text(line, mark) ==> orphans(list.push(line), mark) == orphans(list, mark),
        orphans(Seq::empty(), mark) == Seq::<Seq<char>>::empty(),
        unload_command(id) == ("pactl"@, seq!["unload-module"@, id]),
{
    let found = id + a + mark + b;
    assert(list.push(found).drop_last() =~= list);
    assert(list.push(line).drop_last() =~= list);
    parts_are_found_wherever_they_stand(id + a, mark, b);
    the_first_word_is_the_first_run(Seq::empty(), id, a + mark + b);
    assert(Seq::<char>::empty() + id + (a + mark + b) =~= found);
    assert((a + mark + b)[0] == a[0]);
}

/// Leftovers are looked for by the prefix of the sink and by the name that the
/// microphone is made from, and the line of any session with that setup mentions
/// them.
pub proof fn sessions_are_known_by_their_prefixes(c: ConfigView, pid: u32, unique: u64)
    ensures
        orphan_marks(c) == seq![c.sink_prefix, c.mic_base()],
        contains_text(fresh_state(c, pid, unique).sink_name, c.sink_prefix),
        fresh_state(c, pid, unique).virtual_mic_name matches Some(mic) ==> contains_text(
            mic,
            c.mic_base(),
        ),
{
    unique_names_begin_with_their_base(c.sink_prefix, pid, unique);
    unique_names_begin_with_their_base(c.mic_base(), pid, unique);
}

/// The commands that clean up unload each module that was found, in the order of
/// the list, and nothing where the list could not be had.
pub proof fn cleaning_up_unloads_what_was_found(
    prefix: &str,
    text: String,
    e: BackendError,
    r: Vec<CommandLine>,
    none: Vec<CommandLine>,
    k: int,
)
    requires
        call_ensures(clean_orphaned_modules, (prefix, Ok(text)), r),
        call_ensures(clean_orphaned_modules, (prefix, Err(e)), none),
    ensures
        none@.len() == 0,
        r@.len() == orphans(lines(text@), prefix@).len(),
        0 <= k < r@.len() ==> r@[k]@.0 == "pactl"@ && r@[k]@.1 == seq![
            "unload-module"@,
            orphans(lines(text@), prefix@)[k],
        ],
{
    assert(command_views(none@).len() == 0);
    let ids = orphans(lines(text@), prefix@);
    assert(command_views(r@).len() == r@.len());
    if 0 <= k < r@.len() {
        assert(command_views(r@)[k] == r@[k]@);
        assert(unload_commands(ids)[k] == unload_command(ids[k]));
    }
}

/// A module is known by the number that was printed, with whatever white space
/// around it; anything else is an answer that makes no sense, and a fault of the
/// command stays a fault.
pub proof fn modules_are_known_by_the_printed_number(
    before: Seq<char>,
    id: u32,
    after: Seq<char>,
    complaint: Seq<char>,
    text: Seq<char>,
    e: BackendErrorView,
)
    requires
        forall|i: int| 0 <= i < before.len() ==> is_white_space(#[trigger] before[i]),
        forall|i: int| 0 <= i < after.len() ==> is_white_space(#[trigger] after[i]),
    ensures
        loaded_module(Ok(before + decimal(id as nat) + after), complaint) == Ok::<
            u32,
            BackendErrorView,
        >(id),
        loaded_module(Err(e), complaint) == Err::<u32, BackendErrorView>(e),
        number(trim(text)) matches Err(fault) ==> loaded_module(Ok(text), complaint) == Err::<
            u32,
            BackendErrorView,
        >(BackendErrorView::InvalidOutput("pactl"@, complaint + fault_text(fault))),
{
    let d = decimal(id as nat);
    lemma_decimal_digits(id as nat);
    assert(is_digit(d[0]) && is_digit(d[d.len() - 1]));
    trimming_takes_the_white_space_at_the_ends(before, d, after);
    number_reads_decimal(id);
}

/// The sink is loaded as a stereo null sink under its name, and described by its
/// description; the microphone as a source that plays what the given monitor
/// plays, under its own name and description.
pub proof fn modules_are_loaded_under_their_names(
    s: StateView,
    monitor: Seq<char>,
    mic: Seq<char>,
    text: Seq<char>,
)
    ensures
        ({
            let (program, args) = load_sink_command(s);
            &&& program == "pactl"@
            &&& args.len() == 6
            &&& args[0] == "load-module"@ && args[1] == "module-null-sink"@
            &&& args[2] == "sink_name="@ + s.sink_name
            &&& args[3] == "channels=2"@
            &&& args[4] == "channel_map=front-left,front-right"@
            &&& args[5] == "sink_properties"@ + "=device.description="@ + quoted(
                s.sink_description,
            ) + " node.description="@ + quoted(s.sink_description) + " node.name="@ + quoted(
                s.sink_name,
            )
        }),
        ({
            let (program, args) = load_mic_command(monitor, mic, Some(text));
            &&& program == "pactl"@
            &&& args.len() == 5
            &&& args[0] == "load-module"@ && args[1] == "module-remap-source"@
            &&& args[2] == "master="@ + monitor
            &&& args[3] == "source_name="@ + mic
            &&& args[4] == "source_properties"@ + "=device.description="@ + quoted(text)
                + " node.description="@ + quoted(text) + " node.name="@ + quoted(mic)
        }),
        load_mic_command(monitor, mic, None) == load_mic_command(
            monitor,
            mic,
            Some("Virtual Microphone"@),
        ),
{
}

/// What is told of the sink names the sink of the session, its monitor and its
/// microphone, and the node that the sink was found as; it is told only of a node
/// with two inputs that can be linked.
pub proof fn the_sink_is_told_by_its_names(s: StateView, nodes: Seq<(u32, NodeRecord)>)
    ensures
        ({
            let found = sink_node(nodes, s.sink_name, s.sink_description);
            &&& sink_info(s, nodes) is Some == (found matches Some(n) && n.inputs().len() >= 2)
            &&& sink_info(s, nodes) matches Some(info) ==> info.sink_name == s.sink_name
                && info.monitor_source == s.sink_name + ".monitor"@ && info.node_id == found->0.id
                && info.virtual_mic_name == s.virtual_mic_name && info.virtual_mic_description
                == s.virtual_mic_description
        }),
{
}

/// The sink is made only where PipeWire is there and the graph does not show it
/// ready; then it is waited for, at once and every fifth of a second, for three
/// seconds, and given up by name. A look that fails while it is waited for is as
/// good as one that does not show it.
pub proof fn the_sink_is_made_where_it_is_missing(
    s: StateView,
    g: PipeWireSnapshot,
    e: BackendError,
    now: u64,
    deadline: u64,
)
    ensures
        sink_transition(s, SinkEvent::Asked) == (s, SinkStepView::CheckPipewire),
        sink_transition(s, SinkEvent::PipewireChecked(true)) == (s, SinkStepView::Look),
        sink_transition(s, SinkEvent::PipewireChecked(false)) == (
            s,
            SinkStepView::Done(Err(BackendErrorView::Unsupported)),
        ),
        sink_transition(s, SinkEvent::Looked(Err(e))) == (s, SinkStepView::Done(Err(e@))),
        ({
            let shown = sink_info(s, g.nodes.entries()) is Some;
            let (looked, first) = sink_transition(s, SinkEvent::Looked(Ok(g)));
            let (polled, next) = sink_transition(
                s,
                SinkEvent::Polled { graph: Ok(g), now, deadline },
            );
            let (missed, other) = sink_transition(
                s,
                SinkEvent::Polled { graph: Err(e), now, deadline },
            );
            let waiting = if now >= deadline {
                SinkStepView::Done(Err(BackendErrorView::Timeout("virtual sink"@)))
            } else {
                SinkStepView::Poll { pause_ms: 200, deadline }
            };
            &&& looked == s && polled == s && missed == s
            &&& shown ==> first == next && (first is LoadMic || (first matches SinkStepView::Done(r)
                && r is Ok))
            &&& !shown ==> first == SinkStepView::LoadSink(load_sink_command(s)) && next == waiting
            &&& other == waiting
        }),
{
}

/// The number of the module that makes the sink is kept, and that of the one
/// that makes the microphone, each in its own place and nothing else changes; an
/// answer without a number is told as such, and changes nothing.
pub proof fn loaded_modules_are_kept(
    s: StateView,
    answer: Result<String, BackendError>,
    info: VirtualSinkInfo,
    now: u64,
)
    ensures
        ({
            let (after, step) = sink_transition(s, SinkEvent::SinkLoaded { answer, now });
            match loaded_module(text_outcome(answer), "failed to parse module id: "@) {
                Ok(id) => after == (StateView { module_id: Some(id), ..s }) && (now
                    + 3_000_000_000 <= u64::MAX ==> step == (SinkStepView::Poll {
                    pause_ms: 0,
                    deadline: (now + 3_000_000_000) as u64,
                })),
                Err(e) => after == s && step == SinkStepView::Done(Err(e)),
            }
        }),
        ({
            let (after, step) = sink_transition(s, SinkEvent::MicLoaded { answer, info });
            match loaded_module(text_outcome(answer), "failed to parse remap module id: "@) {
                Ok(id) => after == (StateView { remap_module_id: Some(id), ..s }) && step
                    == SinkStepView::Done(Ok(info@)),
                Err(e) => after == s && step == SinkStepView::Done(Err(e)),
            }
        }),
{
}

/// Once the sink is there, the microphone is made out of its monitor where the
/// session has one and has not made it; else the sink is told of.
pub proof fn the_microphone_is_made_out_of_the_monitor(s: StateView, info: VirtualSinkInfoView)
    ensures
        s.remap_module_id is None && s.virtual_mic_name is Some ==> after_sink(s, info) == (
        SinkStepView::LoadMic {
            command: load_mic_command(
                info.monitor_source,
                s.virtual_mic_name->0,
                s.virtual_mic_description,
            ),
            info,
        }),
        s.remap_module_id is Some || s.virtual_mic_name is None ==> after_sink(s, info)
            == SinkStepView::Done(Ok(info)),
{
}

/// A node may be routed exactly if it is in the graph, is not the sink and bears
/// none of our names.
pub proof fn nodes_may_be_routed_unless_ours(
    s: StateView,
    nodes: Map<u32, NodeRecord>,
    sink: NodeRecord,
    id: u32,
)
    ensures
        routable(nodes, sink, s.own(), id) == (nodes.contains_key(id) && id != sink.id
            && !says_our_name(
            nodes[id].props@,
            "node.name"@,
            s.sink_name,
            s.virtual_mic_name,
        ) && !says_our_name(
            nodes[id].props@,
            "device.name"@,
            s.sink_name,
            s.virtual_mic_name,
        ) && !says_our_name(
            nodes[id].props@,
            "node.nick"@,
            s.sink_name,
            s.virtual_mic_name,
        )),
{
    our_own_are_known_by_name(nodes[id], s.sink_name, s.virtual_mic_name);
}

/// Every pair of ports that the channels of a node and of the sink ask for is a
/// route from the path of the first to the path of the second.
pub proof fn routes_join_the_ports_that_belong_together(
    nodes: Map<u32, NodeRecord>,
    sink: NodeRecord,
    own: spec_fn(NodeRecord) -> bool,
    ids: Seq<u32>,
    id: u32,
    pair: (PortRecord, PortRecord),
    output: String,
    input: String,
)
    requires
        ids.contains(id),
        routable(nodes, sink, own, id),
        mapping(nodes[id].outputs(), sink.inputs()).contains(pair),
        pair.0.path == Some(output),
        pair.1.path == Some(input),
    ensures
        desired_routes(nodes, sink, own, ids).contains((output@, input@)),
{
    let pairs = mapping(nodes[id].outputs(), sink.inputs());
    let k = pairs.index_of(pair);
    assert(pair_route(pairs[k]) == Some((output@, input@)));
    assert(node_routes(nodes, sink, own, id).contains((output@, input@)));
}

/// A routing cannot be planned where the graph does not show the sink, where the
/// sink lacks two inputs that can be linked, and where no chosen node has a
/// route; each is told in its own words.
pub proof fn planning_fails_in_its_own_words(
    s: StateView,
    nodes: IdTable<NodeRecord>,
    ids: Seq<u32>,
)
    ensures
        ({
            let found = sink_node(nodes.entries(), s.sink_name, s.sink_description);
            let planned = planned_routes(s, nodes, ids);
            &&& found is None ==> planned == Err::<
                Set<(Seq<char>, Seq<char>)>,
                BackendErrorView,
            >(
                BackendErrorView::Message(
                    "virtual sink exists in PulseAudio but was not found in PipeWire"@,
                ),
            )
            &&& found matches Some(sink) ==> (sink.inputs().len() < 2 ==> planned == Err::<
                Set<(Seq<char>, Seq<char>)>,
                BackendErrorView,
            >(BackendErrorView::Message("virtual sink has no usable stereo input ports"@))) && (
            sink.inputs().len() >= 2 && desired_routes(nodes@, sink, s.own(), ids) == Set::<
                (Seq<char>, Seq<char>),
            >::empty() ==> planned == Err::<Set<(Seq<char>, Seq<char>)>, BackendErrorView>(
                BackendErrorView::Message("none of the selected nodes could be linked"@),
            )) && (sink.inputs().len() >= 2 && desired_routes(nodes@, sink, s.own(), ids)
                != Set::<(Seq<char>, Seq<char>)>::empty() ==> planned == Ok::<
                Set<(Seq<char>, Seq<char>)>,
                BackendErrorView,
            >(desired_routes(nodes@, sink, s.own(), ids)))
        }),
{
}

/// A choice goes through every step of a routing as it was made, and an error on
/// the way ends it as it is. No node at all means that the routes are removed and
/// the sink is kept.
pub proof fn a_choice_is_routed_as_it_was_made(
    s: StateView,
    node_ids: Vec<u32>,
    info: VirtualSinkInfo,
    g: PipeWireSnapshot,
    e: BackendError,
)
    ensures
        route_transition(s, RouteEvent::Asked { node_ids }) == (
            s,
            if node_ids@.len() == 0 {
                RouteStepView::ClearRoutes
            } else {
                RouteStepView::EnsureSink { node_ids: node_ids@ }
            },
        ),
        route_transition(s, RouteEvent::Cleared { cleared: Ok(()) }) == (
            s,
            RouteStepView::EnsureSink { node_ids: Seq::empty() },
        ),
        route_transition(s, RouteEvent::SinkEnsured { node_ids, result: Ok(info) }) == (
            s,
            if node_ids@.len() == 0 {
                RouteStepView::Done(Ok(info@))
            } else {
                RouteStepView::Look { node_ids: node_ids@, info: info@ }
            },
        ),
        route_transition(s, RouteEvent::Looked { node_ids, info, graph: Ok(g) }) == (
            s,
            match planned_routes(s, g.nodes, node_ids@) {
                Ok(desired) => RouteStepView::Link { desired, info: info@ },
                Err(e) => RouteStepView::Done(Err(e)),
            },
        ),
        ({
            let failed = (s, RouteStepView::Done(Err(e@)));
            &&& route_transition(s, RouteEvent::Cleared { cleared: Err(e) }) == failed
            &&& route_transition(s, RouteEvent::SinkEnsured { node_ids, result: Err(e) }) == failed
            &&& route_transition(s, RouteEvent::Looked { node_ids, info, graph: Err(e) }) == failed
        }),
{
}

/// Once new links are made, the routes that are no longer wanted are removed, and
/// no route that is wanted is; a route is kept exactly if its link was made or its
/// removal failed. Where no new link was made, nothing is removed.
pub proof fn routes_are_replaced_one_by_one(
    s: StateView,
    desired: RouteSet,
    stale: RouteSet,
    active: RouteSet,
    info: VirtualSinkInfo,
    outcomes: Vec<Result<(), BackendError>>,
    r: (Seq<char>, Seq<char>),
)
    ensures
        ({
            let (after, step) = route_transition(s, RouteEvent::Linked { desired, info, outcomes });
            let made = selected(desired.routes(), outcomes@, true);
            &&& after == s
            &&& made.contains(r) ==> (step matches RouteStepView::Unlink {
                stale: gone,
                active: kept,
                info: told,
            } && kept == made && told == info@ && (forall|x: (Seq<char>, Seq<char>)| #[trigger]
                gone.contains(x) == (s.routes.contains(x) && !desired@.contains(x))))
            &&& made == Set::<(Seq<char>, Seq<char>)>::empty() ==> step == RouteStepView::Done(
                Err(BackendErrorView::Message("none of the selected nodes could be linked"@)),
            )
        }),
        ({
            let (after, step) = route_transition(
                s,
                RouteEvent::Unlinked { stale, active, info, outcomes },
            );
            &&& step == RouteStepView::Done(Ok(info@))
            &&& after.routes.contains(r) == (active@.contains(r) || selected(
                stale.routes(),
                outcomes@,
                false,
            ).contains(r))
            &&& after == (StateView { routes: after.routes, ..s })
        }),
{
}

/// Clearing removes every route and answers how many could not be removed, if
/// any; these stay, to be removed later, and where there is no route nothing is
/// to be done.
pub proof fn clearing_answers_how_many_failed(
    s: StateView,
    routes: RouteSet,
    outcomes: Vec<Result<(), BackendError>>,
)
    ensures
        s.routes == Set::<(Seq<char>, Seq<char>)>::empty() ==> clear_transition(
            s,
            ClearEvent::Asked,
        ) == (s, ClearStepView::Done(Ok(()))),
        s.routes != Set::<(Seq<char>, Seq<char>)>::empty() ==> clear_transition(
            s,
            ClearEvent::Asked,
        ) == (StateView { routes: Set::empty(), ..s }, ClearStepView::Unlink(s.routes)),
        ({
            let (after, step) = clear_transition(s, ClearEvent::Unlinked { routes, outcomes });
            let n = failures(routes.routes().len(), outcomes@);
            &&& after == (StateView {
                routes: selected(routes.routes(), outcomes@, false),
                ..s
            })
            &&& n == 0 ==> step == ClearStepView::Done(Ok(()))
            &&& n > 0 ==> step == ClearStepView::Done(
                Err(
                    BackendErrorView::Message(
                        "failed to remove "@ + decimal(n)
                            + " route(s); cleanup will be retried later"@,
                    ),
                ),
            )
        }),
{
}

/// Taking a session down: first the routes go, then the module of the
/// microphone and then that of the sink, each unloaded by its number; what could
/// not be unloaded is complained of by what it is and by its number.
pub proof fn a_session_is_taken_down_in_order(
    s: StateView,
    r: Result<(), BackendError>,
    id: u32,
    answer: Result<String, BackendError>,
    errors: Vec<String>,
    e: BackendErrorView,
)
    ensures
        dispose_transition(s, DisposeEvent::Asked) == (s, DisposeStepView::ClearRoutes),
        ({
            let (after, step) = dispose_transition(s, DisposeEvent::Cleared { result: r });
            &&& after == s
            &&& s.remap_module_id matches Some(mic) ==> (step matches DisposeStepView::UnloadMic {
                module_id,
                command,
                ..
            } && module_id == mic && command == (
                "pactl"@,
                seq!["unload-module"@, decimal(mic as nat)],
            ))
            &&& s.remap_module_id is None && s.module_id is Some ==> step is UnloadSink
            &&& s.remap_module_id is None && s.module_id is None ==> step is Done
        }),
        ({
            let step = dispose_transition(
                s,
                DisposeEvent::MicUnloaded { module_id: id, answer, errors },
            ).1;
            &&& s.module_id matches Some(sink) ==> (step matches DisposeStepView::UnloadSink {
                module_id,
                command,
                ..
            } && module_id == sink && command == (
                "pactl"@,
                seq!["unload-module"@, decimal(sink as nat)],
            ))
            &&& s.module_id is None ==> step is Done
        }),
        dispose_transition(s, DisposeEvent::SinkUnloaded { module_id: id, answer, errors }).1
            is Done,
        unload_complaint("mic"@, id, e) == "failed to unload virtual "@ + "mic"@ + " module "@
            + decimal(id as nat) + ": "@ + e.text(),
        unload_complaint("sink"@, id, e) == "failed to unload virtual "@ + "sink"@ + " module "@
            + decimal(id as nat) + ": "@ + e.text(),
{
}

/// A session that was taken down without a complaint was taken down well; every
/// complaint on the way is told at the end, with a semicolon between each two.
pub proof fn all_complaints_are_told(errors: Seq<Seq<char>>, one: Seq<char>)
    ensures
        disposed(Seq::empty()) is Ok,
        disposed(seq![one]) == Err::<(), BackendErrorView>(BackendErrorView::Message(one)),
        errors.len() > 0 ==> (disposed(errors) matches Err(BackendErrorView::Message(before))
            && disposed(errors.push(one)) == Err::<(), BackendErrorView>(
            BackendErrorView::Message(before + "; "@ + one),
        )),
{
    joining_separates_the_pieces(errors, one, "; "@);
}

/// A span of time ends that much later, and never before it began; where the
/// clock has no such moment, it ends with the last there is.
pub proof fn spans_end_later(now: u64, span: u64)
    ensures
        now + span <= u64::MAX ==> later(now, span) == now + span,
        now + span > u64::MAX ==> later(now, span) == u64::MAX,
        later(now, span) >= now,
{
}

/// Listing asks for PipeWire, then for the graph, and then gives the list of the
/// graph that leaves out our own, in its order; without PipeWire, or without a
/// graph, that is the error.
pub proof fn listing_gives_what_the_graph_shows(
    state: PatchbayState,
    include_devices: bool,
    g: PipeWireSnapshot,
    e: BackendError,
    asked: ListStep,
    there: ListStep,
    missing: ListStep,
    listed: ListStep,
    failed: ListStep,
)
    requires
        call_ensures(
            PatchbayState::list_shareable_nodes,
            (&state, include_devices, ListEvent::Asked),
            asked,
        ),
        call_ensures(
            PatchbayState::list_shareable_nodes,
            (&state, include_devices, ListEvent::PipewireChecked(true)),
            there,
        ),
        call_ensures(
            PatchbayState::list_shareable_nodes,
            (&state, include_devices, ListEvent::PipewireChecked(false)),
            missing,
        ),
        call_ensures(
            PatchbayState::list_shareable_nodes,
            (&state, include_devices, ListEvent::Looked(Ok(g))),
            listed,
        ),
        call_ensures(
            PatchbayState::list_shareable_nodes,
            (&state, include_devices, ListEvent::Looked(Err(e))),
            failed,
        ),
    ensures
        asked is CheckPipewire,
        there is Look,
        missing matches ListStep::Done(Err(told)) && told@ == BackendErrorView::Unsupported,
        listed matches ListStep::Done(Ok(list)) && is_listing(
            shareable_views(list@),
            g.nodes.entries(),
            ours(NameScope::AnyName, state.sink_name@, opt_text(state.virtual_mic_name)),
            include_devices,
        ),
        failed == ListStep::Done(Err(e)),
{
}

/// Looking for a screencast gives the first hint of the graph, and without a
/// graph that is the error.
pub proof fn screencasts_are_looked_for_in_the_graph(
    state: PatchbayState,
    g: PipeWireSnapshot,
    e: BackendError,
    hint: Result<Option<ScreencastHint>, BackendError>,
    missed: Result<Option<ScreencastHint>, BackendError>,
)
    requires
        call_ensures(PatchbayState::find_screencast_hint, (&state, Ok(g)), hint),
        call_ensures(PatchbayState::find_screencast_hint, (&state, Err(e)), missed),
    ensures
        hint matches Ok(found) && match found {
            Some(h) => first_hint(g.nodes.entries()) == Some((h.desktop_file_id@, h.hint@)),
            None => first_hint(g.nodes.entries()) is None,
        },
        missed == Err::<Option<ScreencastHint>, BackendError>(e),
{
}

/// A view of a session shows each thing that the session holds in its own place.
pub proof fn views_of_sessions_show_what_they_hold(s: PatchbayState)
    ensures
        s@.sink_name == s.sink_name@,
        s@.sink_description == s.sink_description@,
        s@.module_id == s.module_id,
        s@.routes == s.routes@,
        s@.virtual_mic_name == opt_text(s.virtual_mic_name),
        s@.virtual_mic_description == opt_text(s.virtual_mic_description),
        s@.remap_module_id == s.remap_module_id,
{
}

/// A view of a step shows each thing that the step carries in its own place.
pub proof fn views_of_steps_show_what_they_carry(
    id: u32,
    command: CommandLine,
    pause_ms: u64,
    deadline: u64,
    info: VirtualSinkInfo,
    node_ids: Vec<u32>,
    a: RouteSet,
    b: RouteSet,
    errors: Vec<String>,
    done: Result<(), BackendError>,
    told: Result<VirtualSinkInfo, BackendError>,
)
    ensures
        SinkStep::CheckPipewire@ is CheckPipewire,
        SinkStep::Look@ is Look,
        SinkStep::LoadSink(command)@ == SinkStepView::LoadSink(command@),
        (SinkStep::Poll { pause_ms, deadline })@ == (SinkStepView::Poll { pause_ms, deadline }),
        (SinkStep::LoadMic { command, info })@ == (SinkStepView::LoadMic {
            command: command@,
            info: info@,
        }),
        told matches Ok(i) ==> SinkStep::Done(told)@ == SinkStepView::Done(Ok(i@)),
        told matches Err(e) ==> SinkStep::Done(told)@ == SinkStepView::Done(Err(e@)),
        RouteStep::ClearRoutes@ is ClearRoutes,
        (RouteStep::EnsureSink { node_ids })@ == (RouteStepView::EnsureSink {
            node_ids: node_ids@,
        }),
        (RouteStep::Look { node_ids, info })@ == (RouteStepView::Look {
            node_ids: node_ids@,
            info: info@,
        }),
        (RouteStep::Link { desired: a, info })@ == (RouteStepView::Link {
            desired: a@,
            info: info@,
        }),
        (RouteStep::Unlink { stale: a, active: b, info })@ == (RouteStepView::Unlink {
            stale: a@,
            active: b@,
            info: info@,
        }),
        told matches Ok(i) ==> RouteStep::Done(told)@ == RouteStepView::Done(Ok(i@)),
        told matches Err(e) ==> RouteStep::Done(told)@ == RouteStepView::Done(Err(e@)),
        ClearStep::Unlink(a)@ == ClearStepView::Unlink(a@),
        ClearStep::Done(done)@ == ClearStepView::Done(crate::error::outcome(done)),
        DisposeStep::ClearRoutes@ is ClearRoutes,
        (DisposeStep::UnloadMic { module_id: id, command, errors })@ == (
        DisposeStepView::UnloadMic {
            module_id: id,
            command: command@,
            errors: texts(errors@),
        }),
        (DisposeStep::UnloadSink { module_id: id, command, errors })@ == (
        DisposeStepView::UnloadSink {
            module_id: id,
            command: command@,
            errors: texts(errors@),
        }),
        DisposeStep::Done(done)@ == DisposeStepView::Done(crate::error::outcome(done)),
        command@.0 == command.program@,
        command@.1.len() == command.args@.len(),
        forall|i: int| 0 <= i < command.args@.len() ==> #[trigger] command@.1[i] == command.args@[i]@,
{
}

} // verus!
