//! Which recordings of other applications Discord is let through to, and what
//! becomes of the ones it is not.
//!
//! Discord first points a record stream at the audio of one application and
//! connects it afterwards. A stream that was pointed at an application which is
//! not on the allow-list is connected to a silent source instead: without a
//! target it would fall back to the real microphone.

use vstd::prelude::*;
use std::collections::HashSet;
use crate::text::{
    cat, decimal, is_digit, is_white_space, lemma_decimal_digits, lines, number,
    number_reads_decimal, opt_text, owned, parse_number, push_decimal, push_text, split_lines,
    texts, to_chars, trim, trimmed, trimming_takes_the_white_space_at_the_ends, NumberFault,
};

verus! {

/// The source that a blocked stream records: the monitor of a sink that nothing
/// is ever routed to.
pub const NULL_SINK_MONITOR_SOURCE: &'static str = "discord_capture_null.monitor";

/// The directory of the session: as the environment tells, or else as is usual.
pub open spec fn session_dir(env: Option<Seq<char>>, uid: u32) -> Seq<char> {
    match env {
        Some(dir) => if dir.len() > 0 {
            dir
        } else {
            "/run/user/"@ + decimal(uid as nat)
        },
        None => "/run/user/"@ + decimal(uid as nat),
    }
}

pub fn runtime_dir(env: Option<String>, uid: u32) -> (r: String)
    ensures
        r@ == session_dir(opt_text(env), uid),
{
    match env {
        Some(dir) => {
            if !dir.as_str().is_empty() {
                return dir;
            }
        },
        None => {},
    }
    let mut r = owned("/run/user/");
    push_decimal(&mut r, uid as u64);
    r
}

/// The allow-list of the process whose parent is `parent_pid`: each Discord has
/// its own, and both sides find it by a pid that each of them knows.
pub open spec fn list_path(dir: Seq<char>, parent_pid: u32) -> Seq<char> {
    let base = if dir.len() == 0 || dir.last() == '/' {
        dir
    } else {
        dir + "/"@
    };
    base + "patchcord/discord-capture-allowed."@ + decimal(parent_pid as nat)
}

/// The path of the allow-list below a directory.
pub fn allowlist_path(dir: &str, parent_pid: u32) -> (r: String)
    ensures
        r@ == list_path(dir@, parent_pid),
{
    let chars = to_chars(dir);
    let mut r = if chars.len() == 0 || chars[chars.len() - 1] == '/' {
        owned(dir)
    } else {
        cat(dir, "/")
    };
    push_text(&mut r, "patchcord/discord-capture-allowed.");
    push_decimal(&mut r, parent_pid as u64);
    r
}

/// A line of the allow-list that names `index`.
pub open spec fn names(line: Seq<char>, index: u32) -> bool {
    number(trim(line)) matches Ok(n) && n == index
}

/// One of the lines names `index`.
pub open spec fn some_line_names(list: Seq<Seq<char>>, index: u32) -> bool {
    exists|i: int| 0 <= i < list.len() && names(#[trigger] list[i], index)
}

/// `index` is on the allow-list. A list that cannot be read allows nothing.
pub open spec fn allowed(contents: Option<Seq<char>>, index: u32) -> bool {
    match contents {
        Some(text) => some_line_names(lines(text), index),
        None => false,
    }
}

pub fn is_allowed(contents: Option<&str>, sink_input_idx: u32) -> (r: bool)
    ensures
        r == (match contents {
            Some(text) => allowed(Some(text@), sink_input_idx),
            None => allowed(None, sink_input_idx),
        }),
{
    let text = match contents {
        Some(text) => text,
        None => {
            return false;
        },
    };
    let list = split_lines(text);
    let ghost all = lines(text@);
    let mut i: usize = 0;
    while i < list.len()
        invariant
            i <= list@.len(),
            all == texts(list@),
            all == lines(text@),
            contents matches Some(t) && t@ == text@,
            forall|k: int| 0 <= k < i ==> !names(#[trigger] all[k], sink_input_idx),
        decreases list@.len() - i,
    {
        assert(all[i as int] == list@[i as int]@);
        let line = trimmed(list[i].as_str());
        match parse_number(line.as_str()) {
            Ok(n) => {
                if n == sink_input_idx {
                    assert(names(all[i as int], sink_input_idx));
                    return true;
                }
            },
            Err(_) => {},
        }
        i = i + 1;
    }
    false
}

/// What becomes of a call that points a stream at an application.
#[derive(Debug, Clone, Copy, PartialEq, Eq, Structural)]
pub enum MonitorDecision {
    /// The call goes through as it is.
    Forward,
    /// The call is left out and counts as done.
    Suppress,
}

/// What becomes of a call that connects a stream.
#[derive(Debug, Clone, Copy, PartialEq, Eq)]
pub enum RecordDecision {
    /// The call goes through as it is.
    Forward,
    /// The call goes through with this source in place of the one it names.
    Redirect(&'static str),
}

/// The streams that were pointed at an application which is not allowed, by
/// their addresses.
#[derive(Debug)]
pub struct BlockedStreams {
    streams: HashSet<usize>,
}

impl View for BlockedStreams {
    type V = Set<usize>;

    closed spec fn view(&self) -> Set<usize> {
        self.streams@
    }
}

/// What a call that points a stream at an application comes to, given whether
/// the application is allowed: the streams that are blocked from then on, and the
/// decision.
pub open spec fn pointed(blocked: Set<usize>, stream: usize, ok: bool) -> (
    Set<usize>,
    MonitorDecision,
) {
    if ok {
        (blocked.remove(stream), MonitorDecision::Forward)
    } else {
        (blocked.insert(stream), MonitorDecision::Suppress)
    }
}

impl BlockedStreams {
    pub fn new() -> (r: Self)
        ensures
            r@ == Set::<usize>::empty(),
    {
        BlockedStreams { streams: HashSet::new() }
    }

    /// A stream is pointed at an application. One that is allowed goes through
    /// and is no longer blocked, for its address may have been that of a blocked
    /// stream before; any other is blocked.
    pub fn pa_stream_set_monitor_stream(
        &mut self,
        stream: usize,
        sink_input_idx: u32,
        allow_list: Option<&str>,
    ) -> (r: MonitorDecision)
        ensures
            ({
                let ok = match allow_list {
                    Some(text) => allowed(Some(text@), sink_input_idx),
                    None => allowed(None, sink_input_idx),
                };
                (final(self)@, r) == pointed(old(self)@, stream, ok)
            }),
    {
        broadcast use vstd::std_specs::hash::group_hash_axioms;

        if is_allowed(allow_list, sink_input_idx) {
            self.streams.remove(&stream);
            MonitorDecision::Forward
        } else {
            self.streams.insert(stream);
            MonitorDecision::Suppress
        }
    }

    /// A stream is connected.
    pub fn pa_stream_connect_record(&self, stream: usize) -> (r: RecordDecision)
        ensures
            if self@.contains(stream) {
                r matches RecordDecision::Redirect(source) && source@
                    == NULL_SINK_MONITOR_SOURCE@
            } else {
                r is Forward
            },
    {
        broadcast use vstd::std_specs::hash::group_hash_axioms;

        if self.streams.contains(&stream) {
            RecordDecision::Redirect(NULL_SINK_MONITOR_SOURCE)
        } else {
            RecordDecision::Forward
        }
    }
}

/// The blocked streams after a history of calls, each a stream and whether it
/// was allowed.
pub open spec fn blocked_after(history: Seq<(usize, bool)>) -> Set<usize>
    decreases history.len(),
{
    if history.len() == 0 {
        Set::empty()
    } else {
        let before = blocked_after(history.drop_last());
        if history.last().1 {
            before.remove(history.last().0)
        } else {
            before.insert(history.last().0)
        }
    }
}

/// A stream is blocked exactly if the last call about it was not allowed. Calls
/// about other streams do not matter, and a stream that no call was about is not
/// blocked.
pub proof fn the_last_call_decides(history: Seq<(usize, bool)>, stream: usize)
    ensures
        blocked_after(history).contains(stream) == (exists|i: int|
            {
                &&& 0 <= i < history.len()
                &&& #[trigger] history[i] == (stream, false)
                &&& forall|j: int| i < j < history.len() ==> (#[trigger] history[j]).0 != stream
            }),
    decreases history.len(),
{
    if history.len() > 0 {
        let head = history.drop_last();
        let n = history.len() - 1;
        the_last_call_decides(head, stream);
        if history.last().0 == stream {
            if !history.last().1 {
                assert(history[n] == (stream, false));
            } else {
                assert forall|i: int|
                    0 <= i < history.len() && #[trigger] history[i] == (
                        stream,
                        false,
                    ) implies !(forall|j: int|
                    i < j < history.len() ==> (#[trigger] history[j]).0 != stream) by {
                    assert(i < n);
                    assert(history[n].0 == stream);
                }
            }
        } else {
            if blocked_after(head).contains(stream) {
                let i = choose|i: int|
                    {
                        &&& 0 <= i < head.len()
                        &&& #[trigger] head[i] == (stream, false)
                        &&& forall|j: int| i < j < head.len() ==> (#[trigger] head[j]).0 != stream
                    };
                assert(history[i] == (stream, false));
                assert forall|j: int| i < j < history.len() implies (#[trigger] history[j]).0
                    != stream by {
                    if j < n {
                        assert(head[j] == history[j]);
                    }
                }
            } else {
                assert forall|i: int|
                    0 <= i < history.len() && #[trigger] history[i] == (
                        stream,
                        false,
                    ) implies !(forall|j: int|
                    i < j < history.len() ==> (#[trigger] history[j]).0 != stream) by {
                    assert(i < n);
                    assert(head[i] == (stream, false));
                    let j = choose|j: int| i < j < head.len() && (#[trigger] head[j]).0 == stream;
                    assert(history[j].0 == stream);
                }
            }
        }
    }
}

/// A list that is missing allows nothing, and neither does an empty one.
pub proof fn nothing_is_allowed_by_default(index: u32)
    ensures
        !allowed(None, index),
        !allowed(Some(Seq::empty()), index),
{
}

/// The session has the directory that the environment names, and one of its own
/// where it names none or an empty one; the allow-list of a process lies below
/// it, under the pid of its parent, with one slash between.
pub proof fn each_process_has_its_own_list(dir: Seq<char>, uid: u32, pid: u32)
    ensures
        dir.len() > 0 ==> session_dir(Some(dir), uid) == dir,
        session_dir(Some(Seq::empty()), uid) == "/run/user/"@ + decimal(uid as nat),
        session_dir(None, uid) == "/run/user/"@ + decimal(uid as nat),
        dir.len() > 0 && dir.last() != '/' ==> list_path(dir, pid) == dir + "/"@
            + "patchcord/discord-capture-allowed."@ + decimal(pid as nat),
        list_path(dir + "/"@, pid) == dir + "/"@ + "patchcord/discord-capture-allowed."@ + decimal(
            pid as nat,
        ),
{
    reveal_strlit("/");
    assert((dir + "/"@).last() == '/');
}

/// An index is allowed exactly if one of the lines of the list is its number,
/// with nothing but white space around it.
pub proof fn listed_indices_are_allowed(
    text: Seq<char>,
    index: u32,
    k: int,
    before: Seq<char>,
    after: Seq<char>,
)
    requires
        forall|i: int| 0 <= i < before.len() ==> is_white_space(#[trigger] before[i]),
        forall|i: int| 0 <= i < after.len() ==> is_white_space(#[trigger] after[i]),
    ensures
        0 <= k < lines(text).len() && lines(text)[k] == before + decimal(index as nat) + after
            ==> allowed(Some(text), index),
        allowed(Some(text), index) == (exists|i: int|
            0 <= i < lines(text).len() && number(trim(#[trigger] lines(text)[i])) == Ok::<
                u32,
                NumberFault,
            >(index)),
{
    let d = decimal(index as nat);
    lemma_decimal_digits(index as nat);
    assert(is_digit(d[0]) && is_digit(d[d.len() - 1]));
    trimming_takes_the_white_space_at_the_ends(before, d, after);
    number_reads_decimal(index);
    if 0 <= k < lines(text).len() && lines(text)[k] == before + d + after {
        assert(names(lines(text)[k], index));
    }
    assert forall|i: int| 0 <= i < lines(text).len() implies names(
        #[trigger] lines(text)[i],
        index,
    ) == (number(trim(lines(text)[i])) == Ok::<u32, NumberFault>(index)) by {}
}

/// A stream that is pointed at an allowed application goes through and is not
/// blocked from then on; one that is pointed at any other is left where it is and
/// is blocked; and no call changes another stream.
pub proof fn pointing_blocks_what_is_not_allowed(
    blocked: Set<usize>,
    stream: usize,
    other: usize,
    ok: bool,
)
    ensures
        ({
            let (after, decision) = pointed(blocked, stream, ok);
            &&& ok ==> decision == MonitorDecision::Forward && !after.contains(stream)
            &&& !ok ==> decision == MonitorDecision::Suppress && after.contains(stream)
            &&& other != stream ==> after.contains(other) == blocked.contains(other)
        }),
{
}

/// A blocked stream records silence, and every other what it asked for.
pub proof fn blocked_streams_record_silence(
    streams: BlockedStreams,
    stream: usize,
    r: RecordDecision,
)
    requires
        call_ensures(BlockedStreams::pa_stream_connect_record, (&streams, stream), r),
    ensures
        streams@.contains(stream) ==> (r matches RecordDecision::Redirect(source) && source@
            == "discord_capture_null.monitor"@),
        !streams@.contains(stream) ==> r is Forward,
{
}

/// An allow-list that holds the number of an index on one of its lines allows
/// it, and a list that could not be read allows nothing.
pub proof fn the_list_decides(
    text: &str,
    index: u32,
    there: bool,
    missing: bool,
    k: int,
)
    requires
        call_ensures(is_allowed, (Some(text), index), there),
        call_ensures(is_allowed, (None, index), missing),
    ensures
        0 <= k < lines(text@).len() && lines(text@)[k] == decimal(index as nat) ==> there,
        there ==> exists|i: int|
            0 <= i < lines(text@).len() && number(trim(#[trigger] lines(text@)[i])) == Ok::<
                u32,
                NumberFault,
            >(index),
        !missing,
{
    let none = Seq::<char>::empty();
    listed_indices_are_allowed(text@, index, k, none, none);
    assert(none + decimal(index as nat) + none =~= decimal(index as nat));
}

/// Where no directory is named at all the list lies where the process stands.
pub proof fn a_list_without_a_directory(pid: u32)
    ensures
        list_path(Seq::empty(), pid) == "patchcord/discord-capture-allowed."@ + decimal(pid as nat),
{
    let none = Seq::<char>::empty();
    assert(none + "patchcord/discord-capture-allowed."@ =~= "patchcord/discord-capture-allowed."@);
}

/// At first no stream is blocked.
pub proof fn no_stream_is_blocked_at_first(streams: BlockedStreams, stream: usize)
    requires
        call_ensures(BlockedStreams::new, (), streams),
    ensures
        !streams@.contains(stream),
{
}

} // verus!
