//! What a trial run of the backend looks at in the live graph.

use vstd::prelude::*;
use crate::models::{runs, says, says_nothing, NodeRecord, PortDirection, PortRecord};
use crate::pw_backend::{BackendEvent, GraphSnapshot, LinkRecord};
use crate::state::{later, moment_after};
use crate::table::IdTable;
use crate::text::{contains_text, parts_are_found_wherever_they_stand, text_contains};

verus! {

/// A node through which an application plays.
pub open spec fn plays_for_app(n: NodeRecord) -> bool {
    &&& n.text("media.class"@) == Some("Stream/Output/Audio"@)
    &&& n.text("application.name"@) is Some || n.text("application.process.binary"@) is Some
}

pub fn is_app_like(node: &NodeRecord) -> (r: bool)
    ensures
        r == plays_for_app(*node),
{
    node.matches_prop("media.class", "Stream/Output/Audio") && (node.prop_str(
        "application.name",
    ).is_some() || node.prop_str("application.process.binary").is_some())
}

pub open spec fn has_outputs() -> spec_fn((u32, NodeRecord)) -> bool {
    |e: (u32, NodeRecord)| e.1.ports@.filter(runs(PortDirection::Output)).len() > 0
}

/// How many nodes have an output.
pub fn count_with_outputs(nodes: &IdTable<NodeRecord>) -> (n: usize)
    ensures
        n == nodes.entries().filter(has_outputs()).len(),
{
    let ghost s = nodes.entries();
    let mut n: usize = 0;
    let mut i: usize = 0;
    assert(s.take(0) =~= Seq::<(u32, NodeRecord)>::empty());
    while i < nodes.len()
        invariant
            s == nodes.entries(),
            i <= s.len(),
            n <= i,
            n == s.take(i as int).filter(has_outputs()).len(),
        decreases s.len() - i,
    {
        proof {
            let head = s.take(i as int);
            head.lemma_filter_push(s[i as int], has_outputs());
            assert(s.take(i + 1) =~= head.push(s[i as int]));
        }
        let outputs = nodes.value_at(i).output_ports();
        if outputs.len() > 0 {
            n = n + 1;
        }
        i = i + 1;
    }
    assert(s.take(s.len() as int) =~= s);
    n
}

pub open spec fn app_at() -> spec_fn((u32, NodeRecord)) -> Option<NodeRecord> {
    |e: (u32, NodeRecord)|
        if plays_for_app(e.1) {
            Some(e.1)
        } else {
            None
        }
}

/// The nodes through which applications play.
pub fn app_like_nodes(nodes: &IdTable<NodeRecord>) -> (r: Vec<&NodeRecord>)
    ensures
        r@.len() == nodes.entries().filter_map(app_at()).len(),
        forall|k: int|
            0 <= k < r@.len() ==> *(#[trigger] r@[k]) == nodes.entries().filter_map(app_at())[k],
{
    let ghost s = nodes.entries();
    let mut r: Vec<&NodeRecord> = Vec::new();
    let mut i: usize = 0;
    while i < nodes.len()
        invariant
            s == nodes.entries(),
            i <= s.len(),
            r@.len() == s.take(i as int).filter_map(app_at()).len(),
            forall|k: int|
                0 <= k < r@.len() ==> *(#[trigger] r@[k]) == s.take(i as int).filter_map(
                    app_at(),
                )[k],
        decreases s.len() - i,
    {
        proof {
            s.lemma_filter_map_take_succ(app_at(), i as int);
        }
        let node = nodes.value_at(i);
        if is_app_like(node) {
            r.push(node);
        }
        i = i + 1;
    }
    assert(s.take(s.len() as int) =~= s);
    r
}

/// A name worth showing.
pub open spec fn telling(name: Seq<char>) -> bool {
    ||| contains_text(name, "patchcord"@)
    ||| contains_text(name, "spike"@)
    ||| contains_text(name, "sink"@)
}

pub fn is_telling(name: &str) -> (r: bool)
    ensures
        r == telling(name@),
{
    text_contains(name, "patchcord") || text_contains(name, "spike") || text_contains(name, "sink")
}

/// The first node of an application's stream with a linkable output.
pub open spec fn first_player(s: Seq<(u32, NodeRecord)>) -> Option<NodeRecord>
    decreases s.len(),
{
    if s.len() == 0 {
        None
    } else if s[0].1.text("media.class"@) == Some("Stream/Output/Audio"@) && s[0].1.outputs().len()
        > 0 {
        Some(s[0].1)
    } else {
        first_player(s.drop_first())
    }
}

/// The link to try: the first output of the first player into the first input of
/// the sink.
pub open spec fn trial_link(graph: GraphSnapshot, sink_id: u32) -> Option<LinkRecord> {
    match first_player(graph.nodes.entries()) {
        Some(app) => {
            let outputs = app.ports@.filter(runs(PortDirection::Output));
            if graph.nodes@.contains_key(sink_id) {
                let sink = graph.nodes@[sink_id];
                let inputs = sink.ports@.filter(runs(PortDirection::Input));
                if outputs.len() > 0 && inputs.len() > 0 {
                    Some(
                        LinkRecord {
                            output_node: app.id,
                            output_port: outputs[0].id,
                            input_node: sink.id,
                            input_port: inputs[0].id,
                        },
                    )
                } else {
                    None
                }
            } else {
                None
            }
        },
        None => None,
    }
}

fn find_player(nodes: &IdTable<NodeRecord>) -> (r: Option<&NodeRecord>)
    ensures
        match r {
            Some(n) => first_player(nodes.entries()) == Some(*n),
            None => first_player(nodes.entries()) is None,
        },
{
    let ghost s = nodes.entries();
    let mut i: usize = 0;
    assert(s.skip(0) =~= s);
    while i < nodes.len()
        invariant
            s == nodes.entries(),
            i <= s.len(),
            first_player(s) == first_player(s.skip(i as int)),
        decreases s.len() - i,
    {
        assert(s.skip(i as int)[0] == s[i as int]);
        assert(s.skip(i as int).drop_first() =~= s.skip(i + 1));
        let node = nodes.value_at(i);
        if node.matches_prop("media.class", "Stream/Output/Audio") {
            let outputs = node.usable_outputs();
            if outputs.len() > 0 {
                return Some(node);
            }
        }
        i = i + 1;
    }
    None
}

pub fn plan_trial_link(graph: &GraphSnapshot, sink_id: u32) -> (r: Option<LinkRecord>)
    ensures
        r == trial_link(*graph, sink_id),
{
    let app = match find_player(&graph.nodes) {
        Some(n) => n,
        None => {
            return None;
        },
    };
    let sink = match graph.nodes.get(sink_id) {
        Some(n) => n,
        None => {
            return None;
        },
    };
    let outputs = app.output_ports();
    let inputs = sink.input_ports();
    if outputs.len() == 0 || inputs.len() == 0 {
        return None;
    }
    Some(
        LinkRecord {
            output_node: app.id,
            output_port: outputs[0].id,
            input_node: sink.id,
            input_port: inputs[0].id,
        },
    )
}

/// Some link leads from one node to the other.
pub open spec fn linked(graph: GraphSnapshot, output_node: u32, input_node: u32) -> bool {
    exists|i: int|
        0 <= i < graph.links.entries().len() && (#[trigger] graph.links.entries()[i]).1.output_node
            == output_node && graph.links.entries()[i].1.input_node == input_node
}

pub fn is_linked(graph: &GraphSnapshot, output_node: u32, input_node: u32) -> (r: bool)
    ensures
        r == linked(*graph, output_node, input_node),
{
    let ghost s = graph.links.entries();
    let mut i: usize = 0;
    while i < graph.links.len()
        invariant
            s == graph.links.entries(),
            i <= s.len(),
            forall|k: int|
                0 <= k < i ==> !((#[trigger] s[k]).1.output_node == output_node
                    && s[k].1.input_node == input_node),
        decreases s.len() - i,
    {
        let link = graph.links.value_at(i);
        if link.output_node == output_node && link.input_node == input_node {
            return true;
        }
        i = i + 1;
    }
    false
}

/// How long a change of the graph is waited for, in nanoseconds.
pub const CHANGE_TIMEOUT: u64 = 2_000_000_000;

/// How long one wait for an event lasts, in milliseconds.
pub const CHANGE_LISTEN: u64 = 100;

/// What happens while a change of the graph is waited for.
pub enum ChangeEvent {
    Asked { now: u64 },
    /// One wait has ended, with an event or without.
    Listened { heard: Option<BackendEvent>, now: u64, deadline: u64 },
}

#[derive(Debug, Clone, Copy, PartialEq, Eq, Structural)]
pub enum ChangeStep {
    /// Wait for an event, for so long at most.
    Listen { listen_ms: u64, deadline: u64 },
    /// Whether the graph has changed.
    Done(bool),
}

/// Waits until the graph has changed, but not beyond the deadline. Other events
/// do not count.
pub open spec fn change_transition(event: ChangeEvent) -> ChangeStep {
    match event {
        ChangeEvent::Asked { now } => ChangeStep::Listen {
            listen_ms: CHANGE_LISTEN,
            deadline: later(now, CHANGE_TIMEOUT),
        },
        ChangeEvent::Listened { heard, now, deadline } => if heard == Some(
            BackendEvent::GraphChanged,
        ) {
            ChangeStep::Done(true)
        } else if now >= deadline {
            ChangeStep::Done(false)
        } else {
            ChangeStep::Listen { listen_ms: CHANGE_LISTEN, deadline }
        },
    }
}

pub fn await_change(event: ChangeEvent) -> (step: ChangeStep)
    ensures
        step == change_transition(event),
{
    match event {
        ChangeEvent::Asked { now } => ChangeStep::Listen {
            listen_ms: CHANGE_LISTEN,
            deadline: moment_after(now, CHANGE_TIMEOUT),
        },
        ChangeEvent::Listened { heard, now, deadline } => {
            let changed = match heard {
                Some(BackendEvent::GraphChanged) => true,
                _ => false,
            };
            if changed {
                ChangeStep::Done(true)
            } else if now >= deadline {
                ChangeStep::Done(false)
            } else {
                ChangeStep::Listen { listen_ms: CHANGE_LISTEN, deadline }
            }
        },
    }
}

/// The wait for a change ends with the first that is heard and, at the latest,
/// with the deadline, which never moves.
pub proof fn waiting_for_a_change_ends(heard: Option<BackendEvent>, now: u64, deadline: u64)
    ensures
        ({
            let step = change_transition(ChangeEvent::Listened { heard, now, deadline });
            &&& (step is Done) == (heard == Some(BackendEvent::GraphChanged) || now >= deadline)
            &&& step matches ChangeStep::Done(changed) ==> changed == (heard == Some(
                BackendEvent::GraphChanged,
            ))
            &&& step matches ChangeStep::Listen { deadline: d, .. } ==> d == deadline
        }),
{
}

/// An application plays through a node exactly if the node is an audio stream
/// that goes out and tells the name or the binary of an application.
pub proof fn applications_play_through_output_streams(n: NodeRecord)
    ensures
        plays_for_app(n) == (says(n.props@, "media.class"@, "Stream/Output/Audio"@) && !(
        says_nothing(n.props@, "application.name"@) && says_nothing(
            n.props@,
            "application.process.binary"@,
        ))),
{
}

/// A node counts as one with outputs exactly if one of its ports is one, with a
/// path or without.
pub proof fn nodes_with_outputs_have_one(e: (u32, NodeRecord))
    ensures
        has_outputs()(e) == exists|i: int|
            0 <= i < e.1.ports@.len() && (#[trigger] e.1.ports@[i]).direction is Output,
{
    let ports = e.1.ports@;
    let out = runs(PortDirection::Output);
    let kept = ports.filter(out);
    if kept.len() > 0 {
        ports.lemma_filter_pred(out, 0);
        assert(kept.contains(kept[0]));
        ports.lemma_filter_contains_rev(out, kept[0]);
        let i = ports.index_of(kept[0]);
        assert(ports[i].direction is Output);
    }
    if exists|i: int| 0 <= i < ports.len() && (#[trigger] ports[i]).direction is Output {
        let i = choose|i: int| 0 <= i < ports.len() && (#[trigger] ports[i]).direction is Output;
        assert(out(ports[i]));
        ports.lemma_filter_contains(out, i);
    }
}

/// A name is worth showing wherever one of the three words stands in it, and
/// nowhere else.
pub proof fn three_words_are_worth_showing(a: Seq<char>, b: Seq<char>, name: Seq<char>)
    ensures
        telling(a + "patchcord"@ + b),
        telling(a + "spike"@ + b),
        telling(a + "sink"@ + b),
        !contains_text(name, "patchcord"@) && !contains_text(name, "spike"@) && !contains_text(
            name,
            "sink"@,
        ) ==> !telling(name),
{
    parts_are_found_wherever_they_stand(a, "patchcord"@, b);
    parts_are_found_wherever_they_stand(a, "spike"@, b);
    parts_are_found_wherever_they_stand(a, "sink"@, b);
}

/// The player is the first audio stream that goes out and has an output with a
/// path.
pub proof fn the_player_is_the_first_stream_that_can_be_linked(
    s: Seq<(u32, NodeRecord)>,
    i: int,
)
    ensures
        ({
            let plays = |n: NodeRecord|
                says(n.props@, "media.class"@, "Stream/Output/Audio"@) && n.outputs().len() > 0;
            &&& 0 <= i < s.len() && plays(s[i].1) && (forall|j: int|
                0 <= j < i ==> !plays((#[trigger] s[j]).1)) ==> first_player(s) == Some(s[i].1)
            &&& (forall|j: int| 0 <= j < s.len() ==> !plays((#[trigger] s[j]).1)) ==> first_player(s)
                is None
        }),
    decreases s.len(),
{
    if s.len() > 0 {
        let rest = s.drop_first();
        the_player_is_the_first_stream_that_can_be_linked(rest, i - 1);
        assert forall|j: int| 0 <= j < rest.len() implies #[trigger] rest[j] == s[j + 1] by {}
        let plays = |n: NodeRecord|
            says(n.props@, "media.class"@, "Stream/Output/Audio"@) && n.outputs().len() > 0;
        if 0 <= i < s.len() && plays(s[i].1) && (forall|j: int|
            0 <= j < i ==> !plays((#[trigger] s[j]).1)) && i > 0 {
            assert(!plays(s[0].1));
            assert forall|j: int| 0 <= j < i - 1 implies !plays((#[trigger] rest[j]).1) by {
                assert(!plays(s[j + 1].1));
            }
        }
        if forall|j: int| 0 <= j < s.len() ==> !plays((#[trigger] s[j]).1) {
            assert(!plays(s[0].1));
            assert forall|j: int| 0 <= j < rest.len() implies !plays((#[trigger] rest[j]).1) by {
                assert(!plays(s[j + 1].1));
            }
        }
    }
}

/// The link to try leads from the player to the sink, out of an output of the one
/// into an input of the other; there is none where either lacks one.
pub proof fn the_trial_leads_from_the_player_to_the_sink(graph: GraphSnapshot, sink_id: u32)
    requires
        graph.nodes@.contains_key(sink_id) ==> graph.nodes@[sink_id].id == sink_id,
    ensures
        trial_link(graph, sink_id) matches Some(link) ==> (first_player(graph.nodes.entries())
            matches Some(app) && link.output_node == app.id && graph.nodes@.contains_key(sink_id)
            && link.input_node == sink_id && (exists|p: PortRecord| #[trigger]
            app.ports@.contains(p) && p.direction is Output && p.id == link.output_port) && (
        exists|p: PortRecord| #[trigger]
            graph.nodes@[sink_id].ports@.contains(p) && p.direction is Input && p.id
                == link.input_port)),
        first_player(graph.nodes.entries()) is None || !graph.nodes@.contains_key(sink_id)
            ==> trial_link(graph, sink_id) is None,
{
    if let Some(link) = trial_link(graph, sink_id) {
        let app = first_player(graph.nodes.entries())->0;
        let sink = graph.nodes@[sink_id];
        let out = runs(PortDirection::Output);
        let into = runs(PortDirection::Input);
        let outputs = app.ports@.filter(out);
        let inputs = sink.ports@.filter(into);
        app.ports@.lemma_filter_pred(out, 0);
        assert(outputs.contains(outputs[0]));
        app.ports@.lemma_filter_contains_rev(out, outputs[0]);
        sink.ports@.lemma_filter_pred(into, 0);
        assert(inputs.contains(inputs[0]));
        sink.ports@.lemma_filter_contains_rev(into, inputs[0]);
        assert(app.ports@.contains(outputs[0]) && outputs[0].id == link.output_port);
        assert(sink.ports@.contains(inputs[0]) && inputs[0].id == link.input_port);
    }
}

/// Two nodes are linked exactly if a link of the graph leads from the one to the
/// other, in this direction.
pub proof fn links_lead_one_way(graph: GraphSnapshot, from: u32, to: u32)
    ensures
        linked(graph, from, to) == exists|e: (u32, LinkRecord)| #[trigger]
            graph.links.entries().contains(e) && e.1.output_node == from && e.1.input_node == to,
{
    let s = graph.links.entries();
    if linked(graph, from, to) {
        let i = choose|i: int|
            0 <= i < s.len() && (#[trigger] s[i]).1.output_node == from && s[i].1.input_node == to;
        assert(s.contains(s[i]));
    }
    if exists|e: (u32, LinkRecord)| #[trigger]
        s.contains(e) && e.1.output_node == from && e.1.input_node == to {
        let e = choose|e: (u32, LinkRecord)| #[trigger]
            s.contains(e) && e.1.output_node == from && e.1.input_node == to;
        let i = s.index_of(e);
        assert(s[i].1.output_node == from);
    }
}

/// A change is listened for a tenth of a second at a time, for two seconds.
pub proof fn changes_are_listened_for_two_seconds(now: u64, deadline: u64)
    ensures
        now + 2_000_000_000 <= u64::MAX ==> change_transition(ChangeEvent::Asked { now }) == (
        ChangeStep::Listen { listen_ms: 100, deadline: (now + 2_000_000_000) as u64 }),
        now < deadline ==> change_transition(ChangeEvent::Listened { heard: None, now, deadline })
            == (ChangeStep::Listen { listen_ms: 100, deadline }),
{
}

/// The nodes through which applications play are found, each of them and no
/// other.
pub proof fn players_are_found(
    nodes: IdTable<NodeRecord>,
    r: Vec<&NodeRecord>,
    i: int,
    k: int,
)
    requires
        call_ensures(app_like_nodes, (&nodes,), r),
        0 <= i < nodes.entries().len(),
    ensures
        plays_for_app(nodes.entries()[i].1) ==> exists|j: int|
            0 <= j < r@.len() && *(#[trigger] r@[j]) == nodes.entries()[i].1,
        0 <= k < r@.len() ==> plays_for_app(*r@[k]),
{
    let s = nodes.entries();
    let found = s.filter_map(app_at());
    if plays_for_app(s[i].1) {
        lemma_app_found(s, i);
        let j = found.index_of(s[i].1);
        assert(*r@[j] == s[i].1);
    }
    if 0 <= k < r@.len() {
        assert(found.contains(found[k]));
        s.lemma_filter_map_contains(app_at(), found[k]);
        let e = choose|e: (u32, NodeRecord)| #[trigger]
            s.contains(e) && app_at()(e) == Some(found[k]);
        assert(plays_for_app(e.1));
    }
}

proof fn lemma_app_found(s: Seq<(u32, NodeRecord)>, i: int)
    requires
        0 <= i < s.len(),
        plays_for_app(s[i].1),
    ensures
        s.filter_map(app_at()).contains(s[i].1),
    decreases s.len(),
{
    let f = app_at();
    let n = s.len() - 1;
    s.lemma_filter_map_take_succ(f, n);
    assert(s.take(n + 1) =~= s);
    let head = s.take(n);
    let all = s.filter_map(f);
    if i == n {
        assert(all[head.filter_map(f).len() as int] == s[i].1);
    } else {
        assert(head[i] == s[i]);
        lemma_app_found(head, i);
        let j = head.filter_map(f).index_of(s[i].1);
        assert(all[j] == s[i].1);
    }
}

/// The link to try leads out of the first output of the player and into the first
/// input of the sink.
pub proof fn the_trial_takes_the_first_ports(graph: GraphSnapshot, sink_id: u32, i: int, j: int)
    requires
        first_player(graph.nodes.entries()) is Some,
        graph.nodes@.contains_key(sink_id),
        ({
            let out = first_player(graph.nodes.entries())->0.ports@;
            let into = graph.nodes@[sink_id].ports@;
            &&& 0 <= i < out.len() && out[i].direction is Output
            &&& forall|k: int| 0 <= k < i ==> (#[trigger] out[k]).direction is Input
            &&& 0 <= j < into.len() && into[j].direction is Input
            &&& forall|k: int| 0 <= k < j ==> (#[trigger] into[k]).direction is Output
        }),
    ensures
        trial_link(graph, sink_id) matches Some(link) && link.output_port
            == first_player(graph.nodes.entries())->0.ports@[i].id && link.input_port
            == graph.nodes@[sink_id].ports@[j].id,
{
    lemma_first_of(first_player(graph.nodes.entries())->0.ports@, PortDirection::Output, i);
    lemma_first_of(graph.nodes@[sink_id].ports@, PortDirection::Input, j);
}

proof fn lemma_first_of(ports: Seq<PortRecord>, d: PortDirection, i: int)
    requires
        0 <= i < ports.len(),
        ports[i].direction == d,
        forall|k: int| 0 <= k < i ==> (#[trigger] ports[k]).direction != d,
    ensures
        ports.filter(runs(d)).len() > 0,
        ports.filter(runs(d))[0] == ports[i],
    decreases ports.len(),
{
    let n = ports.len() - 1;
    let head = ports.drop_last();
    head.lemma_filter_push(ports.last(), runs(d));
    assert(head.push(ports.last()) =~= ports);
    if i < n {
        lemma_first_of(head, d, i);
    } else {
        assert(head.filter(runs(d)).len() == 0) by {
            if head.filter(runs(d)).len() > 0 {
                let p = head.filter(runs(d))[0];
                head.lemma_filter_pred(runs(d), 0);
                assert(head.filter(runs(d)).contains(p));
                head.lemma_filter_contains_rev(runs(d), p);
                let k = head.index_of(p);
                assert(ports[k] == p);
            }
        }
    }
}

} // verus!
