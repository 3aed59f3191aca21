//! The requests that come in, one JSON object to a line, and the answers that go
//! out.

use vstd::prelude::*;
use crate::error::{BackendError, JsonError};
use crate::json::{
    all_fit, bool_in, cut, cut_list, cut_members, each_is, field, find_member, json_in, last_is,
    lemma_field_cut, lemma_last_is, lemma_member, lemma_readable, member, members, number_in,
    number_or_null_in, read_bool, read_json, read_number, read_number_or_null, read_text, readable,
    text_in, the_last_member_counts, trees, JsonTree, JsonValue, LEVELS_READ,
};
use crate::models::RouteFilter;
use crate::pw_backend::BackendEvent;
use crate::text::{
    contains_text, is_white_space, owned, parts_are_found_wherever_they_stand, text_contains,
    text_eq, trim, trim_end, trimmed, trimming_takes_the_white_space_at_the_ends,
};

verus! {

/// A graph that keeps changing is told of no more often than this, in
/// nanoseconds.
pub const MONITOR_PAUSE: u64 = 400_000_000;

#[derive(Debug, PartialEq, Eq)]
pub enum Request {
    HasPipeWire { id: u64 },
    ListShareableNodes { id: u64, include_devices: bool },
    EnsureVirtualSink { id: u64 },
    RouteNodes { id: u64, node_ids: Vec<u32>, filter: RouteFilter },
    ClearRoutes { id: u64 },
    SetVirtualMicMute { id: u64, mute: bool },
    Dispose { id: u64 },
}

pub enum RequestView {
    HasPipeWire { id: u64 },
    ListShareableNodes { id: u64, include_devices: bool },
    EnsureVirtualSink { id: u64 },
    RouteNodes { id: u64, node_ids: Seq<u32>, filter: RouteFilter },
    ClearRoutes { id: u64 },
    SetVirtualMicMute { id: u64, mute: bool },
    Dispose { id: u64 },
}

impl View for Request {
    type V = RequestView;

    open spec fn view(&self) -> RequestView {
        match self {
            Request::HasPipeWire { id } => RequestView::HasPipeWire { id: *id },
            Request::ListShareableNodes { id, include_devices } =>
                RequestView::ListShareableNodes { id: *id, include_devices: *include_devices },
            Request::EnsureVirtualSink { id } => RequestView::EnsureVirtualSink { id: *id },
            Request::RouteNodes { id, node_ids, filter } => RequestView::RouteNodes {
                id: *id,
                node_ids: node_ids@,
                filter: *filter,
            },
            Request::ClearRoutes { id } => RequestView::ClearRoutes { id: *id },
            Request::SetVirtualMicMute { id, mute } => RequestView::SetVirtualMicMute {
                id: *id,
                mute: *mute,
            },
            Request::Dispose { id } => RequestView::Dispose { id: *id },
        }
    }
}

/// The value of a flag; one that is missing is off.
pub open spec fn flag(entries: Seq<(Seq<char>, JsonTree)>, key: Seq<char>) -> Option<bool> {
    match field(entries, key, bool_in()) {
        Some(Some(b)) => Some(b),
        Some(None) => Some(false),
        None => None,
    }
}

/// A list of node ids.
pub open spec fn id_list(list: Seq<JsonTree>) -> Option<Seq<u32>>
    decreases list.len(),
{
    if list.len() == 0 {
        Some(Seq::empty())
    } else {
        match (id_list(list.drop_last()), list.last()) {
            (Some(head), JsonTree::Unsigned(n)) => if n <= u32::MAX {
                Some(head.push(n as u32))
            } else {
                None
            },
            _ => None,
        }
    }
}

pub open spec fn node_ids_in() -> spec_fn(JsonTree) -> Option<Seq<u32>> {
    |t: JsonTree|
        match t {
            JsonTree::Array(list) => id_list(list),
            _ => None,
        }
}

/// The filter of a routing.
pub open spec fn route_filter(entries: Seq<(Seq<char>, JsonTree)>) -> Option<RouteFilter> {
    match (
        flag(entries, "onlySpeakers"@),
        flag(entries, "onlyDefaultSpeakers"@),
        flag(entries, "ignoreDevices"@),
        flag(entries, "ignoreVirtual"@),
        flag(entries, "ignoreInputMedia"@),
    ) {
        (Some(a), Some(b), Some(c), Some(d), Some(e)) => Some(
            RouteFilter {
                only_speakers: a,
                only_default_speakers: b,
                ignore_devices: c,
                ignore_virtual: d,
                ignore_input_media: e,
            },
        ),
        _ => None,
    }
}

/// The request with this method and this id.
pub open spec fn request_named(
    method: Seq<char>,
    id: u64,
    entries: Seq<(Seq<char>, JsonTree)>,
) -> Option<RequestView> {
    if method == "hasPipeWire"@ {
        Some(RequestView::HasPipeWire { id })
    } else if method == "listShareableNodes"@ {
        match flag(entries, "includeDevices"@) {
            Some(include_devices) => Some(RequestView::ListShareableNodes { id, include_devices }),
            None => None,
        }
    } else if method == "ensureVirtualSink"@ {
        Some(RequestView::EnsureVirtualSink { id })
    } else if method == "routeNodes"@ {
        match (field(entries, "nodeIds"@, node_ids_in()), route_filter(entries)) {
            (Some(Some(node_ids)), Some(filter)) => Some(
                RequestView::RouteNodes { id, node_ids, filter },
            ),
            _ => None,
        }
    } else if method == "clearRoutes"@ {
        Some(RequestView::ClearRoutes { id })
    } else if method == "setVirtualMicMute"@ {
        match field(entries, "mute"@, bool_in()) {
            Some(Some(mute)) => Some(RequestView::SetVirtualMicMute { id, mute }),
            _ => None,
        }
    } else if method == "dispose"@ {
        Some(RequestView::Dispose { id })
    } else {
        None
    }
}

/// The request that `value` is, if it is one.
pub open spec fn request_in(value: JsonTree) -> Option<RequestView> {
    match value {
        JsonTree::Object(entries) => match (
            field(entries, "method"@, text_in()),
            field(entries, "id"@, number_in()),
        ) {
            (Some(Some(method)), Some(Some(id))) => request_named(
                method,
                id,
                entries,
            ),
            _ => None,
        },
        _ => None,
    }
}

/// The id under which a line is answered, whatever else is wrong with it.
pub open spec fn envelope_id(value: JsonTree) -> u64 {
    match value {
        JsonTree::Object(entries) => match field(entries, "id"@, number_or_null_in()) {
            Some(Some(Some(id))) => id,
            _ => 0,
        },
        _ => 0,
    }
}

fn read_flag(entries: &Vec<(String, JsonValue)>, key: &str) -> (r: Option<bool>)
    ensures
        r == flag(members(entries@), key@),
{
    match read_bool(entries, key) {
        Some(Some(b)) => Some(b),
        Some(None) => Some(false),
        None => None,
    }
}

proof fn lemma_id_list_take(list: Seq<JsonTree>, i: int)
    requires
        0 <= i <= list.len(),
        id_list(list.take(i)) is None,
    ensures
        id_list(list) is None,
    decreases list.len() - i,
{
    if i < list.len() {
        assert(list.take(i + 1).drop_last() =~= list.take(i));
        lemma_id_list_take(list, i + 1);
    } else {
        assert(list.take(i) =~= list);
    }
}

fn read_id_list(value: &JsonValue) -> (r: Option<Vec<u32>>)
    ensures
        match r {
            Some(ids) => node_ids_in()(value@) == Some(ids@),
            None => node_ids_in()(value@) is None,
        },
{
    let list = match value {
        JsonValue::Array(list) => list,
        _ => {
            return None;
        },
    };
    let ghost all = trees(list@);
    let mut r: Vec<u32> = Vec::new();
    let mut i: usize = 0;
    while i < list.len()
        invariant
            i <= list@.len(),
            all == trees(list@),
            id_list(all.take(i as int)) == Some(r@),
            node_ids_in()(value@) == id_list(all),
        decreases list@.len() - i,
    {
        let ghost next = all.take(i + 1);
        assert(next.drop_last() =~= all.take(i as int));
        assert(next.last() == list@[i as int]@);
        match &list[i] {
            JsonValue::Unsigned(n) => {
                if *n > 0xffff_ffff {
                    proof {
                        lemma_id_list_take(all, i + 1);
                    }
                    return None;
                }
                r.push(*n as u32);
            },
            _ => {
                proof {
                    lemma_id_list_take(all, i + 1);
                }
                return None;
            },
        }
        i = i + 1;
    }
    assert(all.take(list@.len() as int) =~= all);
    Some(r)
}

fn is_id_list(value: &JsonValue) -> (r: bool)
    ensures
        r == (node_ids_in()(value@) is Some),
{
    read_id_list(value).is_some()
}

fn read_node_ids(entries: &Vec<(String, JsonValue)>) -> (r: Option<Vec<u32>>)
    ensures
        match r {
            Some(ids) => field(members(entries@), "nodeIds"@, node_ids_in()) == Some(Some(ids@)),
            None => !(field(members(entries@), "nodeIds"@, node_ids_in()) matches Some(Some(_))),
        },
{
    let fit = all_fit(entries, "nodeIds", is_id_list);
    proof {
        lemma_readable(entries@, "nodeIds"@, node_ids_in(), fit);
        lemma_member(members(entries@), "nodeIds"@);
    }
    if !fit {
        return None;
    }
    match find_member(entries, "nodeIds") {
        Some(v) => read_id_list(v),
        None => None,
    }
}

fn read_filter(entries: &Vec<(String, JsonValue)>) -> (r: Option<RouteFilter>)
    ensures
        r == route_filter(members(entries@)),
{
    match (
        read_flag(entries, "onlySpeakers"),
        read_flag(entries, "onlyDefaultSpeakers"),
        read_flag(entries, "ignoreDevices"),
        read_flag(entries, "ignoreVirtual"),
        read_flag(entries, "ignoreInputMedia"),
    ) {
        (Some(a), Some(b), Some(c), Some(d), Some(e)) => Some(
            RouteFilter {
                only_speakers: a,
                only_default_speakers: b,
                ignore_devices: c,
                ignore_virtual: d,
                ignore_input_media: e,
            },
        ),
        _ => None,
    }
}

fn read_named(method: &str, id: u64, entries: &Vec<(String, JsonValue)>) -> (r: Option<Request>)
    ensures
        match r {
            Some(request) => request_named(method@, id, members(entries@)) == Some(request@),
            None => request_named(method@, id, members(entries@)) is None,
        },
{
    if text_eq(method, "hasPipeWire") {
        Some(Request::HasPipeWire { id })
    } else if text_eq(method, "listShareableNodes") {
        match read_flag(entries, "includeDevices") {
            Some(include_devices) => Some(Request::ListShareableNodes { id, include_devices }),
            None => None,
        }
    } else if text_eq(method, "ensureVirtualSink") {
        Some(Request::EnsureVirtualSink { id })
    } else if text_eq(method, "routeNodes") {
        match (read_node_ids(entries), read_filter(entries)) {
            (Some(node_ids), Some(filter)) => Some(Request::RouteNodes { id, node_ids, filter }),
            _ => None,
        }
    } else if text_eq(method, "clearRoutes") {
        Some(Request::ClearRoutes { id })
    } else if text_eq(method, "setVirtualMicMute") {
        match read_bool(entries, "mute") {
            Some(Some(mute)) => Some(Request::SetVirtualMicMute { id, mute }),
            _ => None,
        }
    } else if text_eq(method, "dispose") {
        Some(Request::Dispose { id })
    } else {
        None
    }
}

/// Reads a request.
pub fn read_request(value: &JsonValue) -> (r: Result<Request, JsonError>)
    ensures
        match r {
            Ok(request) => request_in(value@) == Some(request@),
            Err(_) => request_in(value@) is None,
        },
{
    let entries = match value {
        JsonValue::Object(entries) => entries,
        _ => {
            return Err(JsonError);
        },
    };
    let (method, id) = match (read_text(entries, "method"), read_number(entries, "id")) {
        (Some(Some(method)), Some(Some(id))) => (method, id),
        _ => {
            return Err(JsonError);
        },
    };
    match read_named(method.as_str(), id, entries) {
        Some(request) => Ok(request),
        None => Err(JsonError),
    }
}

/// The id under which a line is answered.
pub fn request_id(value: &JsonValue) -> (id: u64)
    ensures
        id == envelope_id(value@),
{
    match value {
        JsonValue::Object(entries) => match read_number_or_null(entries, "id") {
            Some(Some(id)) => id,
            _ => 0,
        },
        _ => 0,
    }
}

/// An answer to a request.
#[derive(Debug, PartialEq, Eq)]
pub enum Response<T> {
    Success { id: u64, result: T },
    Error { id: u64, error: String },
}

/// What is to be done about a line.
#[derive(Debug)]
pub enum LineStep {
    /// Carry out this request.
    Handle(Request),
    /// Answer that it is none.
    Refuse { id: u64, error: String },
}

/// `step` is what is due to a line that says `value`, or that is no JSON.
pub open spec fn answers(step: LineStep, value: Option<JsonTree>) -> bool {
    match value {
        Some(v) => match request_in(v) {
            Some(request) => step matches LineStep::Handle(r) && r@ == request,
            None => step matches LineStep::Refuse { id, error } && id == envelope_id(v) && error@
                == "invalid request: Error"@,
        },
        None => step matches LineStep::Refuse { id, error } && id == 0 && error@
            == "invalid request: Error"@,
    }
}

/// Decides on a line that has been parsed, or that could not be.
pub fn on_parsed(parsed: Result<JsonValue, JsonError>) -> (step: LineStep)
    ensures
        answers(
            step,
            match parsed {
                Ok(value) => Some(value@),
                Err(_) => None,
            },
        ),
{
    match parsed {
        Ok(value) => match read_request(&value) {
            Ok(request) => LineStep::Handle(request),
            Err(_) => LineStep::Refuse {
                id: request_id(&value),
                error: owned("invalid request: Error"),
            },
        },
        Err(_) => LineStep::Refuse { id: 0, error: owned("invalid request: Error") },
    }
}

proof fn lemma_id_list_cut(list: Seq<JsonTree>, levels: nat)
    ensures
        id_list(cut_list(list, levels)) == id_list(list),
    decreases list.len(),
{
    if list.len() > 0 {
        lemma_id_list_cut(list.drop_last(), levels);
        assert(cut_list(list, levels).drop_last() =~= cut_list(list.drop_last(), levels));
        assert(cut_list(list, levels).last() == cut(list.last(), levels));
    }
}

/// A request lies in the first two levels of a value.
proof fn lemma_request_cut(value: JsonTree, levels: nat)
    requires
        levels >= 2,
    ensures
        request_in(cut(value, levels)) == request_in(value),
        envelope_id(cut(value, levels)) == envelope_id(value),
{
    if let JsonTree::Object(entries) = value {
        let below = (levels - 1) as nat;
        assert forall|t: JsonTree| node_ids_in()(#[trigger] cut(t, below)) == node_ids_in()(t) by {
            if let JsonTree::Array(list) = t {
                lemma_id_list_cut(list, (below - 1) as nat);
            }
        }
        lemma_field_cut(entries, "nodeIds"@, node_ids_in(), below);
        lemma_field_cut(entries, "method"@, text_in(), below);
        lemma_field_cut(entries, "id"@, number_in(), below);
        lemma_field_cut(entries, "id"@, number_or_null_in(), below);
        assert forall|key: Seq<char>| #[trigger]
            field(cut_members(entries, below), key, bool_in()) == field(
                entries,
                key,
                bool_in(),
            ) by {
            lemma_field_cut(entries, key, bool_in(), below);
        }
    }
}

/// Decides on a line, which may be no JSON at all.
pub fn on_line(line: &str) -> (step: LineStep)
    ensures
        answers(step, json_in(line@)),
{
    proof {
        if let Some(value) = json_in(line@) {
            lemma_request_cut(value, LEVELS_READ as nat);
        }
    }
    on_parsed(read_json(line))
}

/// The answer that tells a result or an error.
pub fn write_result<T>(id: u64, result: Result<T, BackendError>) -> (r: Response<T>)
    ensures
        match result {
            Ok(value) => r == (Response::Success { id, result: value }),
            Err(e) => r matches Response::Error { id: i, error } && i == id && error@
                == e@.text(),
        },
{
    match result {
        Ok(value) => Response::Success { id, result: value },
        Err(err) => Response::Error { id, error: err.to_text() },
    }
}

/// Whether the program goes on after it has answered a request.
pub fn goes_on_after(request: &Request) -> (r: bool)
    ensures
        r == !(request@ is Dispose),
{
    match request {
        Request::Dispose { .. } => false,
        _ => true,
    }
}

/// What comes in.
#[derive(Debug)]
pub enum IncomingMessage {
    Request(String),
    GraphChanged,
    MonitorDied,
    StdinClosed,
}

/// What the program does about it.
#[derive(Debug)]
pub enum MessageStep {
    /// Read this line.
    Read(String),
    /// Tell of this event.
    Tell(&'static str),
    Exit,
}

pub fn on_message(message: IncomingMessage) -> (step: MessageStep)
    ensures
        match message {
            IncomingMessage::Request(line) => step == MessageStep::Read(line),
            IncomingMessage::GraphChanged => step matches MessageStep::Tell(event) && event@
                == "graphChanged"@,
            IncomingMessage::MonitorDied => step matches MessageStep::Tell(event) && event@
                == "monitorDied"@,
            IncomingMessage::StdinClosed => step is Exit,
        },
{
    match message {
        IncomingMessage::Request(line) => MessageStep::Read(line),
        IncomingMessage::GraphChanged => MessageStep::Tell("graphChanged"),
        IncomingMessage::MonitorDied => MessageStep::Tell("monitorDied"),
        IncomingMessage::StdinClosed => MessageStep::Exit,
    }
}

/// A line that says something.
pub fn is_line(text: &str) -> (r: bool)
    ensures
        r == (trim(text@).len() > 0),
{
    let t = trimmed(text);
    !t.as_str().is_empty()
}

/// What an event of the live graph means to the program: a change of the graph
/// is told, a change of the default sink is not.
pub fn message_of(event: &BackendEvent) -> (r: Option<IncomingMessage>)
    ensures
        r == (match *event {
            BackendEvent::GraphChanged => Some(IncomingMessage::GraphChanged),
            BackendEvent::DefaultSinkChanged(_) => None,
        }),
{
    match event {
        BackendEvent::GraphChanged => Some(IncomingMessage::GraphChanged),
        BackendEvent::DefaultSinkChanged(_) => None,
    }
}

/// Watches what `pw-mon` prints.
#[derive(Debug, Clone, Copy, PartialEq, Eq)]
pub struct MonitorWatch {
    /// When a change was last told, in nanoseconds of a clock that never runs
    /// back.
    pub last: Option<u64>,
}

/// A line that speaks of a node or a port.
pub open spec fn speaks_of_graph(line: Seq<char>) -> bool {
    contains_text(line, "PipeWire:Interface:Node"@) || contains_text(
        line,
        "PipeWire:Interface:Port"@,
    )
}

/// A line printed at `now` is worth telling of, where a change was last told at
/// `last`.
pub open spec fn worth_telling(last: Option<u64>, line: Seq<char>, now: u64) -> bool {
    speaks_of_graph(line) && (last matches Some(last) ==> now - last > MONITOR_PAUSE)
}

/// When a change was last told after a line, and whether the line is told of.
pub open spec fn watch_transition(last: Option<u64>, line: Seq<char>, now: u64) -> (
    Option<u64>,
    bool,
) {
    if worth_telling(last, line, now) {
        (Some(now), true)
    } else {
        (last, false)
    }
}

impl MonitorWatch {
    pub fn new() -> (r: Self)
        ensures
            r.last is None,
    {
        MonitorWatch { last: None }
    }

    /// Whether a line printed at `now` is worth telling of.
    pub fn on_line(&mut self, line: &str, now: u64) -> (tell: bool)
        ensures
            (final(self).last, tell) == watch_transition(old(self).last, line@, now),
    {
        if !(text_contains(line, "PipeWire:Interface:Node") || text_contains(
            line,
            "PipeWire:Interface:Port",
        )) {
            return false;
        }
        match self.last {
            Some(last) => {
                if now < last || now - last <= MONITOR_PAUSE {
                    return false;
                }
            },
            None => {},
        }
        self.last = Some(now);
        true
    }
}

/// The id under which a line is refused is the id that the request would have
/// had.
pub proof fn refusals_bear_the_id_of_the_request(value: JsonTree)
    ensures
        request_in(value) matches Some(request) ==> envelope_id(value) == (match request {
            RequestView::HasPipeWire { id } => id,
            RequestView::ListShareableNodes { id, .. } => id,
            RequestView::EnsureVirtualSink { id } => id,
            RequestView::RouteNodes { id, .. } => id,
            RequestView::ClearRoutes { id } => id,
            RequestView::SetVirtualMicMute { id, .. } => id,
            RequestView::Dispose { id } => id,
        }),
{
    if let JsonTree::Object(entries) = value {
        lemma_member(entries, "id"@);
        if field(entries, "id"@, number_in()) matches Some(Some(_)) {
            assert(readable(entries, "id"@, number_or_null_in())) by {
                assert forall|i: int|
                    0 <= i < entries.len() && (#[trigger] entries[i]).0
                        == "id"@ implies number_or_null_in()(entries[i].1) is Some by {
                    assert(number_in()(entries[i].1) is Some);
                }
            }
        }
    }
}

/// A filter keeps each of its promises exactly if the last member of its own
/// name is `true`; the members of the other names do not matter to it.
pub proof fn filters_are_read_member_by_member(value: JsonTree)
    ensures
        request_in(value) matches Some(RequestView::RouteNodes { filter, .. }) ==> (value
            matches JsonTree::Object(entries) && filter.only_speakers == last_is(
            entries,
            "onlySpeakers"@,
            JsonTree::Bool(true),
        ) && filter.only_default_speakers == last_is(
            entries,
            "onlyDefaultSpeakers"@,
            JsonTree::Bool(true),
        ) && filter.ignore_devices == last_is(
            entries,
            "ignoreDevices"@,
            JsonTree::Bool(true),
        ) && filter.ignore_virtual == last_is(
            entries,
            "ignoreVirtual"@,
            JsonTree::Bool(true),
        ) && filter.ignore_input_media == last_is(
            entries,
            "ignoreInputMedia"@,
            JsonTree::Bool(true),
        )),
{
    if let JsonTree::Object(entries) = value {
        lemma_flag(entries, "onlySpeakers"@);
        lemma_flag(entries, "onlyDefaultSpeakers"@);
        lemma_flag(entries, "ignoreDevices"@);
        lemma_flag(entries, "ignoreVirtual"@);
        lemma_flag(entries, "ignoreInputMedia"@);
    }
}

proof fn lemma_flag(entries: Seq<(Seq<char>, JsonTree)>, key: Seq<char>)
    ensures
        flag(entries, key) matches Some(b) ==> b == last_is(entries, key, JsonTree::Bool(true)),
        flag(entries, key) is None == exists|i: int|
            0 <= i < entries.len() && (#[trigger] entries[i]).0 == key && !(entries[i].1 is Bool),
{
    lemma_last_is(entries, key, JsonTree::Bool(true));
    lemma_member(entries, key);
    if flag(entries, key) is None {
        let i = choose|i: int|
            0 <= i < entries.len() && (#[trigger] entries[i]).0 == key && bool_in()(
                entries[i].1,
            ) is None;
        assert(entries[i].0 == key && !(entries[i].1 is Bool));
    }
    if exists|i: int|
        0 <= i < entries.len() && (#[trigger] entries[i]).0 == key && !(entries[i].1 is Bool) {
        let i = choose|i: int|
            0 <= i < entries.len() && (#[trigger] entries[i]).0 == key && !(entries[i].1 is Bool);
        assert(bool_in()(entries[i].1) is None);
    }
}

proof fn lemma_id_list(list: Seq<JsonTree>)
    ensures
        id_list(list) matches Some(ids) ==> ids.len() == list.len() && forall|k: int|
            0 <= k < ids.len() ==> #[trigger] list[k] == JsonTree::Unsigned(ids[k] as u64),
        (forall|k: int|
            0 <= k < list.len() ==> (#[trigger] list[k] matches JsonTree::Unsigned(n) && n
                <= u32::MAX)) ==> id_list(list) is Some,
    decreases list.len(),
{
    if list.len() > 0 {
        let head = list.drop_last();
        lemma_id_list(head);
        let n = list.len() - 1;
        assert(list[n] == list.last());
        assert forall|k: int| 0 <= k < head.len() implies #[trigger] head[k] == list[k] by {}
        if let Some(ids) = id_list(list) {
            let short = id_list(head)->0;
            assert forall|k: int| 0 <= k < ids.len() implies #[trigger] list[k]
                == JsonTree::Unsigned(ids[k] as u64) by {
                if k < n {
                    assert(head[k] == JsonTree::Unsigned(short[k] as u64));
                }
            }
        }
    }
}

/// A request is what its method says: it bears the number in its last member
/// `id`, and what comes with it stands in the last members of their names. The
/// nodes to route are the numbers in the list `nodeIds`, in their order; what is
/// not told is off.
pub proof fn requests_are_what_their_method_says(value: JsonTree)
    ensures
        request_in(value) matches Some(request) ==> (value matches JsonTree::Object(entries)
            && match request {
            RequestView::HasPipeWire { id } => last_is(
                entries,
                "method"@,
                JsonTree::Text("hasPipeWire"@),
            ) && last_is(entries, "id"@, JsonTree::Unsigned(id)),
            RequestView::ListShareableNodes { id, include_devices } => last_is(
                entries,
                "method"@,
                JsonTree::Text("listShareableNodes"@),
            ) && last_is(entries, "id"@, JsonTree::Unsigned(id)) && include_devices == last_is(
                entries,
                "includeDevices"@,
                JsonTree::Bool(true),
            ),
            RequestView::EnsureVirtualSink { id } => last_is(
                entries,
                "method"@,
                JsonTree::Text("ensureVirtualSink"@),
            ) && last_is(entries, "id"@, JsonTree::Unsigned(id)),
            RequestView::RouteNodes { id, node_ids, .. } => last_is(
                entries,
                "method"@,
                JsonTree::Text("routeNodes"@),
            ) && last_is(entries, "id"@, JsonTree::Unsigned(id)) && last_is(
                entries,
                "nodeIds"@,
                JsonTree::Array(
                    Seq::new(node_ids.len(), |k: int| JsonTree::Unsigned(node_ids[k] as u64)),
                ),
            ),
            RequestView::ClearRoutes { id } => last_is(
                entries,
                "method"@,
                JsonTree::Text("clearRoutes"@),
            ) && last_is(entries, "id"@, JsonTree::Unsigned(id)),
            RequestView::SetVirtualMicMute { id, mute } => last_is(
                entries,
                "method"@,
                JsonTree::Text("setVirtualMicMute"@),
            ) && last_is(entries, "id"@, JsonTree::Unsigned(id)) && last_is(
                entries,
                "mute"@,
                JsonTree::Bool(mute),
            ),
            RequestView::Dispose { id } => last_is(
                entries,
                "method"@,
                JsonTree::Text("dispose"@),
            ) && last_is(entries, "id"@, JsonTree::Unsigned(id)),
        }),
{
    if let Some(request) = request_in(value) {
        let entries = value->Object_0;
        let method = field(entries, "method"@, text_in())->0->0;
        let id = field(entries, "id"@, number_in())->0->0;
        lemma_last_is(entries, "method"@, JsonTree::Text(method));
        lemma_last_is(entries, "id"@, JsonTree::Unsigned(id));
        lemma_flag(entries, "includeDevices"@);
        if let RequestView::RouteNodes { node_ids, .. } = request {
            let list = member(entries, "nodeIds"@)->0;
            let ids = list->Array_0;
            lemma_id_list(ids);
            assert(ids =~= Seq::new(
                node_ids.len(),
                |k: int| JsonTree::Unsigned(node_ids[k] as u64),
            ));
            lemma_last_is(entries, "nodeIds"@, list);
        }
        if let RequestView::SetVirtualMicMute { mute, .. } = request {
            lemma_last_is(entries, "mute"@, JsonTree::Bool(mute));
        }
    }
}

/// A line is a request as soon as it has a number for its id, one of the seven
/// methods, and what that method asks for, each of the right type; whatever else
/// it holds does not matter.
pub proof fn well_formed_requests_are_accepted(
    entries: Seq<(Seq<char>, JsonTree)>,
    method: Seq<char>,
    id: u64,
)
    requires
        last_is(entries, "method"@, JsonTree::Text(method)),
        last_is(entries, "id"@, JsonTree::Unsigned(id)),
        each_is(entries, "method"@, |t: JsonTree| t is Text),
        each_is(entries, "id"@, |t: JsonTree| t is Unsigned),
    ensures
        ({
            let request = request_in(JsonTree::Object(entries));
            let bools = |key: Seq<char>| each_is(entries, key, |t: JsonTree| t is Bool);
            &&& method == "hasPipeWire"@ ==> request == Some(RequestView::HasPipeWire { id })
            &&& method == "ensureVirtualSink"@ ==> request == Some(
                RequestView::EnsureVirtualSink { id },
            )
            &&& method == "clearRoutes"@ ==> request == Some(RequestView::ClearRoutes { id })
            &&& method == "dispose"@ ==> request == Some(RequestView::Dispose { id })
            &&& method == "listShareableNodes"@ && bools("includeDevices"@) ==> (request
                matches Some(RequestView::ListShareableNodes { .. }))
            &&& method == "setVirtualMicMute"@ && bools("mute"@) && (exists|b: bool|
                #[trigger] last_is(entries, "mute"@, JsonTree::Bool(b))) ==> (request matches Some(
                RequestView::SetVirtualMicMute { .. },
            ))
            &&& method == "routeNodes"@ && bools("onlySpeakers"@) && bools("onlyDefaultSpeakers"@)
                && bools("ignoreDevices"@) && bools("ignoreVirtual"@) && bools("ignoreInputMedia"@)
                && each_is(
                entries,
                "nodeIds"@,
                |t: JsonTree|
                    t matches JsonTree::Array(list) && forall|k: int|
                        0 <= k < list.len() ==> (#[trigger] list[k] matches JsonTree::Unsigned(n)
                            && n <= u32::MAX),
            ) && (exists|list: Seq<JsonTree>| #[trigger]
                last_is(entries, "nodeIds"@, JsonTree::Array(list))) ==> (request matches Some(
                RequestView::RouteNodes { .. },
            ))
        }),
{
    lemma_last_is(entries, "method"@, JsonTree::Text(method));
    lemma_last_is(entries, "id"@, JsonTree::Unsigned(id));
    assert(readable(entries, "method"@, text_in())) by {
        let wanted = |t: JsonTree| t is Text;
        assert forall|i: int| 0 <= i < entries.len() && (#[trigger] entries[i]).0
            == "method"@ implies text_in()(entries[i].1) is Some by {
            assert(wanted(entries[i].1));
        }
    }
    assert(readable(entries, "id"@, number_in())) by {
        let wanted = |t: JsonTree| t is Unsigned;
        assert forall|i: int| 0 <= i < entries.len() && (#[trigger] entries[i]).0
            == "id"@ implies number_in()(entries[i].1) is Some by {
            assert(wanted(entries[i].1));
        }
    }
    let wanted = |t: JsonTree| t is Bool;
    assert forall|key: Seq<char>| each_is(entries, key, wanted) implies (#[trigger] flag(
        entries,
        key,
    )) is Some && readable(entries, key, bool_in()) by {
        assert forall|i: int| 0 <= i < entries.len() && (#[trigger] entries[i]).0
            == key implies bool_in()(entries[i].1) is Some by {
            assert(wanted(entries[i].1));
        }
        lemma_member(entries, key);
    }
    lemma_last_is(entries, "mute"@, JsonTree::Bool(true));
    lemma_last_is(entries, "mute"@, JsonTree::Bool(false));
    lemma_method_names();
    if exists|b: bool| #[trigger] last_is(entries, "mute"@, JsonTree::Bool(b)) {
        let b = choose|b: bool| #[trigger] last_is(entries, "mute"@, JsonTree::Bool(b));
        assert(member(entries, "mute"@) == Some(JsonTree::Bool(b)));
    }
    let numbers = |t: JsonTree|
        t matches JsonTree::Array(list) && forall|k: int|
            0 <= k < list.len() ==> (#[trigger] list[k] matches JsonTree::Unsigned(n) && n
                <= u32::MAX);
    if each_is(entries, "nodeIds"@, numbers) && (exists|list: Seq<JsonTree>| #[trigger]
        last_is(entries, "nodeIds"@, JsonTree::Array(list))) {
        let list = choose|list: Seq<JsonTree>| #[trigger]
            last_is(entries, "nodeIds"@, JsonTree::Array(list));
        lemma_last_is(entries, "nodeIds"@, JsonTree::Array(list));
        assert forall|i: int| 0 <= i < entries.len() && (#[trigger] entries[i]).0
            == "nodeIds"@ implies node_ids_in()(entries[i].1) is Some by {
            assert(numbers(entries[i].1));
            lemma_id_list(entries[i].1->Array_0);
        }
        lemma_member(entries, "nodeIds"@);
        assert(field(entries, "nodeIds"@, node_ids_in()) matches Some(Some(_)));
    }
}

proof fn lemma_method_names()
    ensures
        "hasPipeWire"@.len() == 11,
        "listShareableNodes"@.len() == 18,
        "ensureVirtualSink"@.len() == 17 && "ensureVirtualSink"@[0] == 'e',
        "routeNodes"@.len() == 10,
        "clearRoutes"@.len() == 11 && "clearRoutes"@[0] == 'c' && "hasPipeWire"@[0] == 'h',
        "setVirtualMicMute"@.len() == 17 && "setVirtualMicMute"@[0] == 's',
        "dispose"@.len() == 7,
{
    reveal_strlit("hasPipeWire");
    reveal_strlit("listShareableNodes");
    reveal_strlit("ensureVirtualSink");
    reveal_strlit("routeNodes");
    reveal_strlit("clearRoutes");
    reveal_strlit("setVirtualMicMute");
    reveal_strlit("dispose");
}

/// A line that is a request is carried out as that request; every other is
/// refused in the same words, under the number in its last member `id` where
/// each of these is a number or nothing, and under zero where there is none.
pub proof fn lines_are_carried_out_or_refused(step: LineStep, value: Option<JsonTree>, n: u64)
    requires
        answers(step, value),
    ensures
        step matches LineStep::Handle(request) ==> (value matches Some(v) && request_in(v) == Some(
            request@,
        )),
        step matches LineStep::Refuse { error, .. } ==> error@ == "invalid request: Error"@ && (
        value matches Some(v) ==> request_in(v) is None),
        step is Refuse && value is None ==> step->id == 0,
        step is Refuse && (value matches Some(JsonTree::Object(entries)) && last_is(
            entries,
            "id"@,
            JsonTree::Unsigned(n),
        ) && each_is(entries, "id"@, |t: JsonTree| t is Unsigned || t is Null)) ==> step->id == n,
        step is Refuse && (value matches Some(JsonTree::Object(entries)) && forall|i: int|
            0 <= i < entries.len() ==> (#[trigger] entries[i]).0 != "id"@) ==> step->id == 0,
{
    if let Some(JsonTree::Object(entries)) = value {
        let wanted = |t: JsonTree| t is Unsigned || t is Null;
        lemma_last_is(entries, "id"@, JsonTree::Unsigned(n));
        the_last_member_counts(entries, "id"@, 0);
        if each_is(entries, "id"@, wanted) {
            assert forall|i: int| 0 <= i < entries.len() && (#[trigger] entries[i]).0
                == "id"@ implies number_or_null_in()(entries[i].1) is Some by {
                assert(wanted(entries[i].1));
            }
        }
    }
}

/// What is answered bears the id of the request, tells a result as it is and an
/// error in its own words; disposing alone ends the program.
pub proof fn answers_tell_what_came_of_the_request<T>(
    id: u64,
    value: T,
    error: BackendError,
    told: Response<T>,
    complained: Response<T>,
    request: Request,
    goes_on: bool,
)
    requires
        call_ensures(write_result::<T>, (id, Ok(value)), told),
        call_ensures(write_result::<T>, (id, Err(error)), complained),
        call_ensures(goes_on_after, (&request,), goes_on),
    ensures
        told == (Response::Success { id, result: value }),
        complained matches Response::Error { id: under, error: text } && under == id && text@
            == error@.text(),
        goes_on == !(request is Dispose),
{
}

/// A request is read, a change of the graph and the end of the monitor are told
/// by their names, and the end of the input is the end of the program. Of the
/// events of the live graph only a change of the graph is told.
pub proof fn messages_lead_to_their_steps(
    line: String,
    read: MessageStep,
    changed: MessageStep,
    died: MessageStep,
    closed: MessageStep,
    name: Option<String>,
    graph: Option<IncomingMessage>,
    sink: Option<IncomingMessage>,
)
    requires
        call_ensures(on_message, (IncomingMessage::Request(line),), read),
        call_ensures(on_message, (IncomingMessage::GraphChanged,), changed),
        call_ensures(on_message, (IncomingMessage::MonitorDied,), died),
        call_ensures(on_message, (IncomingMessage::StdinClosed,), closed),
        call_ensures(message_of, (&BackendEvent::GraphChanged,), graph),
        call_ensures(message_of, (&BackendEvent::DefaultSinkChanged(name),), sink),
    ensures
        read == MessageStep::Read(line),
        changed matches MessageStep::Tell(event) && event@ == "graphChanged"@,
        died matches MessageStep::Tell(event) && event@ == "monitorDied"@,
        closed is Exit,
        graph == Some(IncomingMessage::GraphChanged),
        sink is None,
{
}

/// A line says something exactly if it is not all white space.
pub proof fn white_space_is_no_line(text: &str, white: bool, r: bool)
    requires
        call_ensures(is_line, (text,), r),
        white == forall|i: int| 0 <= i < text@.len() ==> is_white_space(#[trigger] text@[i]),
    ensures
        r == !white,
{
    let s = text@;
    if white {
        trimming_takes_the_white_space_at_the_ends(s, Seq::empty(), Seq::empty());
        assert(s + Seq::<char>::empty() + Seq::<char>::empty() =~= s);
    } else {
        lemma_something_stays(s);
    }
}

proof fn lemma_something_stays(s: Seq<char>)
    requires
        exists|i: int| 0 <= i < s.len() && !is_white_space(#[trigger] s[i]),
    ensures
        trim(s).len() > 0,
    decreases s.len(),
{
    let i = choose|i: int| 0 <= i < s.len() && !is_white_space(#[trigger] s[i]);
    if is_white_space(s[0]) {
        assert(s.drop_first()[i - 1] == s[i]);
        lemma_something_stays(s.drop_first());
    } else {
        lemma_start_stays(s);
    }
}

proof fn lemma_start_stays(s: Seq<char>)
    requires
        s.len() > 0,
        !is_white_space(s[0]),
    ensures
        trim_end(s).len() > 0,
    decreases s.len(),
{
    if is_white_space(s.last()) {
        assert(s.drop_last()[0] == s[0]);
        lemma_start_stays(s.drop_last());
    }
}

/// A line is worth telling of exactly if it names a node or a port of the graph
/// and more than four tenths of a second have gone by since the last that was
/// told.
pub proof fn changes_are_told_no_more_than_needed(
    a: Seq<char>,
    b: Seq<char>,
    last: u64,
    now: u64,
    line: Seq<char>,
)
    ensures
        worth_telling(None, a + "PipeWire:Interface:Node"@ + b, now),
        worth_telling(None, a + "PipeWire:Interface:Port"@ + b, now),
        worth_telling(Some(last), a + "PipeWire:Interface:Node"@ + b, now) == (now > last
            + 400_000_000),
        worth_telling(Some(last), a + "PipeWire:Interface:Port"@ + b, now) == (now > last
            + 400_000_000),
        !contains_text(line, "PipeWire:Interface:Node"@) && !contains_text(
            line,
            "PipeWire:Interface:Port"@,
        ) ==> !worth_telling(None, line, now) && !worth_telling(Some(last), line, now),
{
    parts_are_found_wherever_they_stand(a, "PipeWire:Interface:Node"@, b);
    parts_are_found_wherever_they_stand(a, "PipeWire:Interface:Port"@, b);
}

/// A line that asks for a routing is carried out with the filter that it tells:
/// each promise is on exactly if the last member of its own name is `true`.
pub proof fn filters_are_carried_out_as_told(
    value: JsonValue,
    entries: Seq<(Seq<char>, JsonTree)>,
    step: LineStep,
)
    requires
        call_ensures(on_parsed, (Ok(value),), step),
        value@ == JsonTree::Object(entries),
    ensures
        step matches LineStep::Handle(Request::RouteNodes { filter, .. }) ==> filter.only_speakers
            == last_is(entries, "onlySpeakers"@, JsonTree::Bool(true))
            && filter.only_default_speakers == last_is(
            entries,
            "onlyDefaultSpeakers"@,
            JsonTree::Bool(true),
        ) && filter.ignore_devices == last_is(entries, "ignoreDevices"@, JsonTree::Bool(true))
            && filter.ignore_virtual == last_is(entries, "ignoreVirtual"@, JsonTree::Bool(true))
            && filter.ignore_input_media == last_is(
            entries,
            "ignoreInputMedia"@,
            JsonTree::Bool(true),
        ),
{
    filters_are_read_member_by_member(value@);
}

/// The watch remembers when it last told of a change, and nothing else moves it:
/// after a telling, nothing is told for four tenths of a second.
pub proof fn the_watch_remembers_the_last_telling(
    last: Option<u64>,
    line: Seq<char>,
    now: u64,
    next: Seq<char>,
    soon: u64,
)
    requires
        soon <= now + 400_000_000,
    ensures
        ({
            let (after, told) = watch_transition(last, line, now);
            &&& told ==> after == Some(now) && !watch_transition(after, next, soon).1
            &&& !told ==> after == last
            &&& told == worth_telling(last, line, now)
        }),
{
}

/// A view of a request shows each thing that was asked for in its own place.
pub proof fn views_of_requests_show_what_was_asked(
    id: u64,
    include_devices: bool,
    node_ids: Vec<u32>,
    filter: RouteFilter,
    mute: bool,
)
    ensures
        (Request::HasPipeWire { id })@ == (RequestView::HasPipeWire { id }),
        (Request::ListShareableNodes { id, include_devices })@ == (
        RequestView::ListShareableNodes { id, include_devices }),
        (Request::EnsureVirtualSink { id })@ == (RequestView::EnsureVirtualSink { id }),
        (Request::RouteNodes { id, node_ids, filter })@ == (RequestView::RouteNodes {
            id,
            node_ids: node_ids@,
            filter,
        }),
        (Request::ClearRoutes { id })@ == (RequestView::ClearRoutes { id }),
        (Request::SetVirtualMicMute { id, mute })@ == (RequestView::SetVirtualMicMute { id, mute }),
        (Request::Dispose { id })@ == (RequestView::Dispose { id }),
{
}

/// The watch has told of nothing at first.
pub proof fn the_watch_begins_afresh(watch: MonitorWatch)
    requires
        call_ensures(MonitorWatch::new, (), watch),
    ensures
        watch.last is None,
{
}

} // verus!
