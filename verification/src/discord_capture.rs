//! The links from the chosen applications into the capture nodes by which
//! Discord shares audio.
//!
//! Discord makes one such node for each application it hears. None of them is
//! linked by itself; the chosen applications are linked into all of them, and
//! again whenever the graph changes.

use vstd::prelude::*;
use crate::capture_shim::NULL_SINK_MONITOR_SOURCE;
use crate::error::{BackendError, BackendErrorView};
use crate::listing::monitor_name;
use crate::models::{says, NodeRecord, PortRecord, RouteFilter};
use crate::pw_backend::{GraphSnapshot, LinkRecord};
use crate::routing::{dedupe_node_ids, distinct, map_ports, mapping};
use crate::state_native::{
    default_sink_id, links_of, no_filter, passes, push_links, resolve_default_sink_id, should_link,
};
use crate::text::owned;

verus! {

/// The always silent sink whose monitor stands in for what must not be heard.
pub const NULL_SINK_NAME: &'static str = "discord_capture_null";

/// A node in which Discord captures the audio of an application.
pub open spec fn is_capture(n: NodeRecord) -> bool {
    &&& n.text("node.name"@) == Some("discord_capture"@)
    &&& n.text("media.name"@) == Some("game capture"@)
    &&& n.text("application.process.binary"@) == Some("Discord"@)
}

pub fn is_capture_node(node: &NodeRecord) -> (r: bool)
    ensures
        r == is_capture(*node),
{
    node.matches_prop("node.name", "discord_capture") && node.matches_prop(
        "media.name",
        "game capture",
    ) && node.matches_prop("application.process.binary", "Discord")
}

/// Which nodes are heard.
#[derive(Debug)]
pub struct CaptureChoice {
    pub node_ids: Vec<u32>,
    pub filter: RouteFilter,
}

pub struct ChoiceView {
    pub node_ids: Seq<u32>,
    pub filter: RouteFilter,
}

impl View for CaptureChoice {
    type V = ChoiceView;

    open spec fn view(&self) -> ChoiceView {
        ChoiceView { node_ids: self.node_ids@, filter: self.filter }
    }
}

/// A chosen node that is linked: it is in the graph, it is no capture node and
/// the filter lets it pass.
pub open spec fn heard(graph: GraphSnapshot, filter: RouteFilter, id: u32) -> bool {
    let default_sink = if filter.only_default_speakers {
        default_sink_id(graph)
    } else {
        None
    };
    &&& graph.nodes@.contains_key(id)
    &&& !is_capture(graph.nodes@[id])
    &&& passes(graph, graph.nodes@[id], filter, default_sink)
}

/// The links from the nodes `ids` into the capture node `c`.
pub open spec fn links_into(
    graph: GraphSnapshot,
    filter: RouteFilter,
    ids: Seq<u32>,
    c: NodeRecord,
) -> Seq<LinkRecord>
    decreases ids.len(),
{
    if ids.len() == 0 {
        Seq::empty()
    } else {
        links_into(graph, filter, ids.drop_last(), c) + if heard(graph, filter, ids.last()) {
            links_of(ids.last(), c.id, mapping(graph.nodes@[ids.last()].outputs(), c.inputs()))
        } else {
            Seq::empty()
        }
    }
}

/// The links into all capture nodes among `nodes`.
pub open spec fn links_into_all(
    graph: GraphSnapshot,
    filter: RouteFilter,
    ids: Seq<u32>,
    nodes: Seq<(u32, NodeRecord)>,
) -> Seq<LinkRecord>
    decreases nodes.len(),
{
    if nodes.len() == 0 {
        Seq::empty()
    } else {
        links_into_all(graph, filter, ids, nodes.drop_last()) + if is_capture(nodes.last().1) {
            links_into(graph, filter, ids, nodes.last().1)
        } else {
            Seq::empty()
        }
    }
}

/// The links that the choice asks for.
pub open spec fn wanted_links(graph: GraphSnapshot, choice: ChoiceView) -> Seq<LinkRecord> {
    links_into_all(graph, choice.filter, distinct(choice.node_ids), graph.nodes.entries())
}

fn push_links_into(
    links: &mut Vec<LinkRecord>,
    graph: &GraphSnapshot,
    filter: &RouteFilter,
    ids: &Vec<u32>,
    capture: &NodeRecord,
)
    ensures
        final(links)@ == old(links)@ + links_into(*graph, *filter, ids@, *capture),
{
    let ghost before = links@;
    let inputs = capture.usable_inputs();
    let default_sink = if filter.only_default_speakers {
        resolve_default_sink_id(graph)
    } else {
        None
    };
    let mut i: usize = 0;
    assert(links@ =~= before + links_into(*graph, *filter, ids@.take(0), *capture));
    while i < ids.len()
        invariant
            i <= ids@.len(),
            inputs@ == capture.inputs(),
            default_sink == (if filter.only_default_speakers {
                default_sink_id(*graph)
            } else {
                None
            }),
            links@ == before + links_into(*graph, *filter, ids@.take(i as int), *capture),
        decreases ids@.len() - i,
    {
        let id: u32 = ids[i];
        assert(ids@.take(i + 1).drop_last() =~= ids@.take(i as int));
        match graph.nodes.get(id) {
            Some(node) => {
                if !is_capture_node(node) && should_link(graph, node, filter, default_sink) {
                    let outputs = node.usable_outputs();
                    let pairs = map_ports(&outputs, &inputs);
                    push_links(links, id, capture.id, &pairs);
                }
            },
            None => {},
        }
        assert(links@ =~= before + links_into(*graph, *filter, ids@.take(i + 1), *capture));
        i = i + 1;
    }
    assert(ids@.take(ids@.len() as int) =~= ids@);
}

/// The links that the choice asks for.
fn want_links(graph: &GraphSnapshot, choice: &CaptureChoice) -> (links: Vec<LinkRecord>)
    ensures
        links@ == wanted_links(*graph, choice@),
{
    let ghost s = graph.nodes.entries();
    let ids = dedupe_node_ids(copy_ids(&choice.node_ids));
    let mut links: Vec<LinkRecord> = Vec::new();
    let mut i: usize = 0;
    while i < graph.nodes.len()
        invariant
            s == graph.nodes.entries(),
            ids@ == distinct(choice.node_ids@),
            i <= s.len(),
            links@ == links_into_all(*graph, choice.filter, ids@, s.take(i as int)),
        decreases s.len() - i,
    {
        assert(s.take(i + 1).drop_last() =~= s.take(i as int));
        let node = graph.nodes.value_at(i);
        let ghost before = links@;
        if is_capture_node(node) {
            push_links_into(&mut links, graph, &choice.filter, &ids, node);
        } else {
            assert(before + Seq::<LinkRecord>::empty() =~= before);
        }
        i = i + 1;
    }
    assert(s.take(s.len() as int) =~= s);
    links
}

fn copy_ids(ids: &Vec<u32>) -> (r: Vec<u32>)
    ensures
        r@ == ids@,
{
    let mut r: Vec<u32> = Vec::new();
    let mut i: usize = 0;
    while i < ids.len()
        invariant
            i <= ids@.len(),
            r@ == ids@.take(i as int),
        decreases ids@.len() - i,
    {
        r.push(ids[i]);
        assert(ids@.take(i + 1) =~= ids@.take(i as int).push(ids@[i as int]));
        i = i + 1;
    }
    assert(ids@.take(ids@.len() as int) =~= ids@);
    r
}

/// A link that was made.
#[derive(Debug, Clone, Copy, PartialEq, Eq, Structural)]
pub struct HeldLink {
    pub handle: u32,
    pub link: LinkRecord,
    /// The graph has shown the link at the last look. A link that was just made
    /// takes a while to show; one that has shown and no longer does is gone.
    pub shown: bool,
}

/// What is linked for Discord.
#[derive(Debug)]
pub struct DiscordCapture {
    pub choice: CaptureChoice,
    pub held: Vec<HeldLink>,
    /// The handle of the silent sink, once it was made.
    pub null_sink: Option<u32>,
}

pub struct CaptureView {
    pub choice: ChoiceView,
    pub held: Seq<HeldLink>,
    pub null_sink: Option<u32>,
}

impl View for DiscordCapture {
    type V = CaptureView;

    open spec fn view(&self) -> CaptureView {
        CaptureView { choice: self.choice@, held: self.held@, null_sink: self.null_sink }
    }
}

pub open spec fn holds_link(held: Seq<HeldLink>, link: LinkRecord) -> bool {
    exists|i: int| 0 <= i < held.len() && (#[trigger] held[i]).link == link
}

pub open spec fn not_held(held: Seq<HeldLink>) -> spec_fn(LinkRecord) -> bool {
    |link: LinkRecord| !holds_link(held, link)
}

/// The graph has such a link.
pub open spec fn shows(graph: GraphSnapshot, link: LinkRecord) -> bool {
    exists|i: int|
        0 <= i < graph.links.entries().len() && (#[trigger] graph.links.entries()[i]).1 == link
}

/// A held link stays: it is wanted and has not gone from the graph.
pub open spec fn stays(graph: GraphSnapshot, wanted: Seq<LinkRecord>, h: HeldLink) -> bool {
    wanted.contains(h.link) && (h.shown ==> shows(graph, h.link))
}

/// A held link that stays, after the look.
pub open spec fn kept_link(graph: GraphSnapshot, wanted: Seq<LinkRecord>) -> spec_fn(
    HeldLink,
) -> Option<HeldLink> {
    |h: HeldLink|
        if stays(graph, wanted, h) {
            Some(HeldLink { shown: shows(graph, h.link), ..h })
        } else {
            None
        }
}

/// The handle of a held link that does not stay.
pub open spec fn dropped_link(graph: GraphSnapshot, wanted: Seq<LinkRecord>) -> spec_fn(
    HeldLink,
) -> Option<u32> {
    |h: HeldLink|
        if stays(graph, wanted, h) {
            None
        } else {
            Some(h.handle)
        }
}

/// What happens while the links are being brought in line with the choice.
pub enum CaptureEvent {
    /// These nodes, and no others, are to be heard.
    Chosen { choice: CaptureChoice },
    /// The graph has changed.
    GraphChanged,
    /// The handle of the new silent sink.
    NullSinkCreated { created: Result<u32, BackendError> },
    /// The graph on which the links are planned.
    Looked { graph: Result<GraphSnapshot, BackendError> },
    /// What came of each of these links: its handle, or an error.
    Linked { links: Vec<LinkRecord>, outcomes: Vec<Result<u32, BackendError>> },
}

pub enum CaptureStep {
    /// Create a virtual node.
    CreateNullSink { name: String, description: String, media_class: &'static str },
    /// Snapshot the graph.
    Look,
    /// Destroy the links with the handles `destroy`, then create the links
    /// `create`.
    Apply { destroy: Vec<u32>, create: Vec<LinkRecord> },
    Done(Result<(), BackendError>),
}

pub enum CaptureStepView {
    CreateNullSink { name: Seq<char>, description: Seq<char>, media_class: Seq<char> },
    Look,
    Apply { destroy: Seq<u32>, create: Seq<LinkRecord> },
    Done(Result<(), BackendErrorView>),
}

impl View for CaptureStep {
    type V = CaptureStepView;

    open spec fn view(&self) -> CaptureStepView {
        match self {
            CaptureStep::CreateNullSink {
                name,
                description,
                media_class,
            } => CaptureStepView::CreateNullSink {
                name: name@,
                description: description@,
                media_class: media_class@,
            },
            CaptureStep::Look => CaptureStepView::Look,
            CaptureStep::Apply { destroy, create } => CaptureStepView::Apply {
                destroy: destroy@,
                create: create@,
            },
            CaptureStep::Done(r) => CaptureStepView::Done(crate::error::outcome(*r)),
        }
    }
}

/// The links that were made, with their handles.
pub open spec fn made_links(
    links: Seq<LinkRecord>,
    outcomes: Seq<Result<u32, BackendError>>,
    n: nat,
) -> Seq<HeldLink>
    decreases n,
{
    if n == 0 {
        Seq::empty()
    } else {
        let i = n - 1;
        let head = made_links(links, outcomes, i as nat);
        if i < links.len() && i < outcomes.len() {
            match outcomes[i] {
                Ok(handle) => head.push(HeldLink { handle, link: links[i], shown: false }),
                Err(_) => head,
            }
        } else {
            head
        }
    }
}

/// How the links follow the choice and the graph.
pub open spec fn capture_transition(s: CaptureView, event: CaptureEvent) -> (
    CaptureView,
    CaptureStepView,
) {
    match event {
        CaptureEvent::Chosen { choice } => (
            CaptureView { choice: choice@, ..s },
            if choice.node_ids@.len() > 0 && s.null_sink is None {
                CaptureStepView::CreateNullSink {
                    name: NULL_SINK_NAME@,
                    description: "Discord Capture Null Sink"@,
                    media_class: "Audio/Sink/Virtual"@,
                }
            } else {
                CaptureStepView::Look
            },
        ),
        CaptureEvent::GraphChanged => (
            s,
            if s.choice.node_ids.len() == 0 && s.held.len() == 0 {
                CaptureStepView::Done(Ok(()))
            } else {
                CaptureStepView::Look
            },
        ),
        CaptureEvent::NullSinkCreated { created } => match created {
            Ok(handle) => (
                CaptureView { null_sink: Some(handle), ..s },
                CaptureStepView::Look,
            ),
            Err(e) => (s, CaptureStepView::Done(Err(e@))),
        },
        CaptureEvent::Looked { graph } => match graph {
            Ok(g) => {
                let wanted = wanted_links(g, s.choice);
                let kept = s.held.filter_map(kept_link(g, wanted));
                (
                    CaptureView { held: kept, ..s },
                    CaptureStepView::Apply {
                        destroy: s.held.filter_map(dropped_link(g, wanted)),
                        create: wanted.filter(not_held(kept)),
                    },
                )
            },
            Err(e) => (s, CaptureStepView::Done(Err(e@))),
        },
        CaptureEvent::Linked { links, outcomes } => (
            CaptureView {
                held: s.held + made_links(links@, outcomes@, links@.len()),
                ..s
            },
            CaptureStepView::Done(Ok(())),
        ),
    }
}

fn contains_link(links: &Vec<LinkRecord>, link: LinkRecord) -> (r: bool)
    ensures
        r == links@.contains(link),
{
    let mut i: usize = 0;
    while i < links.len()
        invariant
            i <= links@.len(),
            forall|k: int| 0 <= k < i ==> links@[k] != link,
        decreases links@.len() - i,
    {
        if links[i] == link {
            return true;
        }
        i = i + 1;
    }
    false
}

fn is_held(held: &Vec<HeldLink>, link: LinkRecord) -> (r: bool)
    ensures
        r == holds_link(held@, link),
{
    let mut i: usize = 0;
    while i < held.len()
        invariant
            i <= held@.len(),
            forall|k: int| 0 <= k < i ==> (#[trigger] held@[k]).link != link,
        decreases held@.len() - i,
    {
        if held[i].link == link {
            return true;
        }
        i = i + 1;
    }
    false
}

fn is_shown(graph: &GraphSnapshot, link: LinkRecord) -> (r: bool)
    ensures
        r == shows(*graph, link),
{
    let ghost s = graph.links.entries();
    let mut i: usize = 0;
    while i < graph.links.len()
        invariant
            s == graph.links.entries(),
            i <= s.len(),
            forall|k: int| 0 <= k < i ==> (#[trigger] s[k]).1 != link,
        decreases s.len() - i,
    {
        if *graph.links.value_at(i) == link {
            assert(s[i as int].1 == link);
            return true;
        }
        i = i + 1;
    }
    false
}

impl DiscordCapture {
    /// Nothing is chosen, nothing is filtered out and nothing is linked.
    pub fn new() -> (r: Self)
        ensures
            r@.choice.node_ids.len() == 0,
            r@.choice.filter == no_filter(),
            r@.held.len() == 0,
            r@.null_sink is None,
    {
        DiscordCapture {
            choice: CaptureChoice { node_ids: Vec::new(), filter: RouteFilter::default() },
            held: Vec::new(),
            null_sink: None,
        }
    }

    fn missing(&self, wanted: &Vec<LinkRecord>) -> (r: Vec<LinkRecord>)
        ensures
            r@ == wanted@.filter(not_held(self.held@)),
    {
        let mut r: Vec<LinkRecord> = Vec::new();
        let mut i: usize = 0;
        assert(wanted@.take(0) =~= Seq::<LinkRecord>::empty());
        while i < wanted.len()
            invariant
                i <= wanted@.len(),
                r@ == wanted@.take(i as int).filter(not_held(self.held@)),
            decreases wanted@.len() - i,
        {
            proof {
                let head = wanted@.take(i as int);
                head.lemma_filter_push(wanted@[i as int], not_held(self.held@));
                assert(wanted@.take(i + 1) =~= head.push(wanted@[i as int]));
            }
            if !is_held(&self.held, wanted[i]) {
                r.push(wanted[i]);
            }
            i = i + 1;
        }
        assert(wanted@.take(wanted@.len() as int) =~= wanted@);
        r
    }

    /// Lets go of the links that do not stay and returns their handles.
    fn let_go(&mut self, graph: &GraphSnapshot, wanted: &Vec<LinkRecord>) -> (r: Vec<u32>)
        ensures
            r@ == old(self)@.held.filter_map(dropped_link(*graph, wanted@)),
            final(self)@ == (CaptureView {
                held: old(self)@.held.filter_map(kept_link(*graph, wanted@)),
                ..old(self)@
            }),
    {
        let ghost all = self.held@;
        let ghost keep = kept_link(*graph, wanted@);
        let ghost lose = dropped_link(*graph, wanted@);
        let mut kept: Vec<HeldLink> = Vec::new();
        let mut gone: Vec<u32> = Vec::new();
        let mut i: usize = 0;
        assert(kept@ =~= all.take(0).filter_map(keep));
        assert(gone@ =~= all.take(0).filter_map(lose));
        while i < self.held.len()
            invariant
                all == self.held@,
                i <= all.len(),
                keep == kept_link(*graph, wanted@),
                lose == dropped_link(*graph, wanted@),
                kept@ == all.take(i as int).filter_map(keep),
                gone@ == all.take(i as int).filter_map(lose),
            decreases all.len() - i,
        {
            proof {
                all.lemma_filter_map_take_succ(keep, i as int);
                all.lemma_filter_map_take_succ(lose, i as int);
            }
            let h = self.held[i];
            let shown = is_shown(graph, h.link);
            if contains_link(wanted, h.link) && (!h.shown || shown) {
                kept.push(HeldLink { handle: h.handle, link: h.link, shown });
            } else {
                gone.push(h.handle);
            }
            assert(kept@ =~= all.take(i + 1).filter_map(keep));
            assert(gone@ =~= all.take(i + 1).filter_map(lose));
            i = i + 1;
        }
        assert(all.take(all.len() as int) =~= all);
        self.held = kept;
        gone
    }

    fn take_hold(&mut self, links: &Vec<LinkRecord>, outcomes: &Vec<Result<u32, BackendError>>)
        ensures
            final(self)@ == (CaptureView {
                held: old(self)@.held + made_links(links@, outcomes@, links@.len()),
                ..old(self)@
            }),
    {
        let ghost before = self@;
        let mut i: usize = 0;
        assert(self.held@ =~= before.held + made_links(links@, outcomes@, 0));
        while i < links.len()
            invariant
                i <= links@.len(),
                self@ == (CaptureView {
                    held: before.held + made_links(links@, outcomes@, i as nat),
                    ..before
                }),
            decreases links@.len() - i,
        {
            let ghost so_far = self.held@;
            if i < outcomes.len() {
                match &outcomes[i] {
                    Ok(handle) => {
                        self.held.push(HeldLink { handle: *handle, link: links[i], shown: false });
                    },
                    Err(_) => {},
                }
            }
            assert(self.held@ =~= before.held + made_links(links@, outcomes@, (i + 1) as nat));
            i = i + 1;
        }
    }

    /// Brings the links in line with the choice and the graph.
    pub fn follow(&mut self, event: CaptureEvent) -> (step: CaptureStep)
        ensures
            (final(self)@, step@) == capture_transition(old(self)@, event),
    {
        match event {
            CaptureEvent::Chosen { choice } => {
                self.choice = choice;
                if self.choice.node_ids.len() > 0 && self.null_sink.is_none() {
                    CaptureStep::CreateNullSink {
                        name: owned(NULL_SINK_NAME),
                        description: owned("Discord Capture Null Sink"),
                        media_class: "Audio/Sink/Virtual",
                    }
                } else {
                    CaptureStep::Look
                }
            },
            CaptureEvent::GraphChanged => {
                if self.choice.node_ids.len() == 0 && self.held.len() == 0 {
                    CaptureStep::Done(Ok(()))
                } else {
                    CaptureStep::Look
                }
            },
            CaptureEvent::NullSinkCreated { created } => match created {
                Ok(handle) => {
                    self.null_sink = Some(handle);
                    CaptureStep::Look
                },
                Err(err) => CaptureStep::Done(Err(err)),
            },
            CaptureEvent::Looked { graph } => match graph {
                Ok(g) => {
                    let wanted = want_links(&g, &self.choice);
                    let destroy = self.let_go(&g, &wanted);
                    let create = self.missing(&wanted);
                    CaptureStep::Apply { destroy, create }
                },
                Err(err) => CaptureStep::Done(Err(err)),
            },
            CaptureEvent::Linked { links, outcomes } => {
                self.take_hold(&links, &outcomes);
                CaptureStep::Done(Ok(()))
            },
        }
    }
}

proof fn lemma_nothing_wanted(
    graph: GraphSnapshot,
    filter: RouteFilter,
    nodes: Seq<(u32, NodeRecord)>,
)
    ensures
        links_into_all(graph, filter, Seq::empty(), nodes) == Seq::<LinkRecord>::empty(),
    decreases nodes.len(),
{
    if nodes.len() > 0 {
        lemma_nothing_wanted(graph, filter, nodes.drop_last());
        assert(links_into_all(graph, filter, Seq::empty(), nodes) =~= Seq::<LinkRecord>::empty());
    }
}

/// With nothing chosen, nothing is linked: every link that is held goes.
pub proof fn nothing_chosen_nothing_linked(s: CaptureView, graph: GraphSnapshot)
    requires
        s.choice.node_ids.len() == 0,
    ensures
        ({
            let (after, step) = capture_transition(s, CaptureEvent::Looked { graph: Ok(graph) });
            &&& after.held.len() == 0
            &&& step matches CaptureStepView::Apply { destroy, create } && destroy.len()
                == s.held.len() && create.len() == 0
        }),
{
    assert(distinct(s.choice.node_ids) =~= Seq::<u32>::empty());
    lemma_nothing_wanted(graph, s.choice.filter, graph.nodes.entries());
    let wanted = wanted_links(graph, s.choice);
    assert(wanted =~= Seq::<LinkRecord>::empty());
    lemma_none_kept(s.held, graph, wanted);
    let kept = s.held.filter_map(kept_link(graph, wanted));
    assert(wanted.filter(not_held(kept)).len() <= wanted.len()) by {
        broadcast use vstd::seq_lib::group_filter_ensures;

    }
}

proof fn lemma_none_kept(held: Seq<HeldLink>, graph: GraphSnapshot, wanted: Seq<LinkRecord>)
    requires
        wanted.len() == 0,
    ensures
        held.filter_map(kept_link(graph, wanted)).len() == 0,
        held.filter_map(dropped_link(graph, wanted)).len() == held.len(),
    decreases held.len(),
{
    if held.len() > 0 {
        lemma_none_kept(held.drop_last(), graph, wanted);
    }
}

/// Once the links are in line with the choice, and none has gone from the graph,
/// another look leaves them as they are.
pub proof fn links_in_line_stay(s: CaptureView, graph: GraphSnapshot)
    requires
        forall|link: LinkRecord| #[trigger]
            wanted_links(graph, s.choice).contains(link) == holds_link(s.held, link),
        forall|i: int|
            0 <= i < s.held.len() && (#[trigger] s.held[i]).shown ==> shows(graph, s.held[i].link),
    ensures
        ({
            let (after, step) = capture_transition(s, CaptureEvent::Looked { graph: Ok(graph) });
            &&& after.choice == s.choice && after.null_sink == s.null_sink
            &&& after.held == Seq::new(
                s.held.len(),
                |i: int| HeldLink { shown: shows(graph, s.held[i].link), ..s.held[i] },
            )
            &&& step matches CaptureStepView::Apply { destroy, create } && destroy.len() == 0
                && create.len() == 0
        }),
{
    let wanted = wanted_links(graph, s.choice);
    let kept = s.held.filter_map(kept_link(graph, wanted));
    assert forall|i: int| 0 <= i < s.held.len() implies stays(
        graph,
        wanted,
        #[trigger] s.held[i],
    ) by {
        assert(holds_link(s.held, s.held[i].link));
        assert(wanted.contains(s.held[i].link));
    }
    lemma_all_kept(s.held, graph, wanted);
    let create = wanted.filter(not_held(kept));
    if create.len() > 0 {
        assert(create.contains(create[0]));
        wanted.lemma_filter_contains_rev(not_held(kept), create[0]);
        let i = choose|i: int| 0 <= i < s.held.len() && (#[trigger] s.held[i]).link == create[0];
        assert(kept[i].link == create[0]);
        assert(not_held(kept)(create[0])) by {
            broadcast use vstd::seq_lib::group_filter_ensures;

        }
    }
}

proof fn lemma_all_kept(held: Seq<HeldLink>, graph: GraphSnapshot, wanted: Seq<LinkRecord>)
    requires
        forall|i: int| 0 <= i < held.len() ==> stays(graph, wanted, #[trigger] held[i]),
    ensures
        held.filter_map(kept_link(graph, wanted)) == Seq::new(
            held.len(),
            |i: int| HeldLink { shown: shows(graph, held[i].link), ..held[i] },
        ),
        held.filter_map(dropped_link(graph, wanted)).len() == 0,
    decreases held.len(),
{
    if held.len() > 0 {
        let head = held.drop_last();
        assert forall|i: int| 0 <= i < head.len() implies stays(graph, wanted, #[trigger] head[i]) by {
            assert(head[i] == held[i]);
        }
        lemma_all_kept(head, graph, wanted);
        assert(stays(graph, wanted, held[held.len() - 1]));
    }
    assert(held.filter_map(kept_link(graph, wanted)) =~= Seq::new(
        held.len(),
        |i: int| HeldLink { shown: shows(graph, held[i].link), ..held[i] },
    ));
}

proof fn lemma_kept(held: Seq<HeldLink>, graph: GraphSnapshot, wanted: Seq<LinkRecord>, link: LinkRecord)
    ensures
        holds_link(held.filter_map(kept_link(graph, wanted)), link) == exists|i: int|
            0 <= i < held.len() && (#[trigger] held[i]).link == link && stays(graph, wanted, held[i]),
    decreases held.len(),
{
    let kept = held.filter_map(kept_link(graph, wanted));
    if held.len() > 0 {
        let head = held.drop_last();
        let before = head.filter_map(kept_link(graph, wanted));
        let last = held[held.len() - 1];
        lemma_kept(head, graph, wanted, link);
        if stays(graph, wanted, last) {
            assert(kept =~= before.push(HeldLink { shown: shows(graph, last.link), ..last }));
            assert(kept[before.len() as int].link == last.link);
        } else {
            assert(kept =~= before);
        }
        if holds_link(before, link) {
            let i = choose|i: int|
                0 <= i < head.len() && (#[trigger] head[i]).link == link && stays(
                    graph,
                    wanted,
                    head[i],
                );
            assert(held[i] == head[i]);
            let k = choose|k: int| 0 <= k < before.len() && (#[trigger] before[k]).link == link;
            assert(kept[k].link == link);
        } else {
            if holds_link(kept, link) {
                let k = choose|k: int| 0 <= k < kept.len() && (#[trigger] kept[k]).link == link;
                if k < before.len() {
                    assert(before[k].link == link);
                }
                assert(last.link == link && stays(graph, wanted, last));
            }
            if exists|i: int|
                0 <= i < held.len() && (#[trigger] held[i]).link == link && stays(
                    graph,
                    wanted,
                    held[i],
                ) {
                let i = choose|i: int|
                    0 <= i < held.len() && (#[trigger] held[i]).link == link && stays(
                        graph,
                        wanted,
                        held[i],
                    );
                if i < head.len() {
                    assert(head[i] == held[i]);
                }
            }
        }
    }
}

proof fn lemma_dropped(held: Seq<HeldLink>, graph: GraphSnapshot, wanted: Seq<LinkRecord>, i: int)
    requires
        0 <= i < held.len(),
        !stays(graph, wanted, held[i]),
    ensures
        held.filter_map(dropped_link(graph, wanted)).contains(held[i].handle),
    decreases held.len(),
{
    let head = held.drop_last();
    let before = head.filter_map(dropped_link(graph, wanted));
    let all = held.filter_map(dropped_link(graph, wanted));
    if i == head.len() {
        assert(all[before.len() as int] == held[i].handle);
    } else {
        assert(head[i] == held[i]);
        lemma_dropped(head, graph, wanted, i);
        let k = before.index_of(held[i].handle);
        assert(all[k] == before[k]);
    }
}

/// A wanted link that has gone from the graph is let go of and made again, even
/// where its nodes are there as before.
pub proof fn lost_links_are_made_again(s: CaptureView, graph: GraphSnapshot, i: int)
    requires
        0 <= i < s.held.len(),
        wanted_links(graph, s.choice).contains(s.held[i].link),
        !shows(graph, s.held[i].link),
        forall|k: int|
            0 <= k < s.held.len() && (#[trigger] s.held[k]).link == s.held[i].link
                ==> s.held[k].shown,
    ensures
        capture_transition(
            s,
            CaptureEvent::Looked { graph: Ok(graph) },
        ).1 matches CaptureStepView::Apply { destroy, create } && destroy.contains(s.held[i].handle)
            && create.contains(s.held[i].link),
{
    let wanted = wanted_links(graph, s.choice);
    let link = s.held[i].link;
    let kept = s.held.filter_map(kept_link(graph, wanted));
    lemma_dropped(s.held, graph, wanted, i);
    lemma_kept(s.held, graph, wanted, link);
    assert(!holds_link(kept, link));
    wanted.lemma_filter_contains(not_held(kept), wanted.index_of(link));
}

/// `link` leads a linkable output of its node into a linkable input of the capture
/// node `c`.
pub open spec fn leads_into(graph: GraphSnapshot, link: LinkRecord, c: NodeRecord) -> bool {
    &&& link.input_node == c.id
    &&& exists|p: PortRecord| #[trigger]
        graph.nodes@[link.output_node].outputs().contains(p) && p.id == link.output_port
    &&& exists|p: PortRecord| #[trigger] c.inputs().contains(p) && p.id == link.input_port
}

proof fn lemma_links_into(
    graph: GraphSnapshot,
    filter: RouteFilter,
    ids: Seq<u32>,
    c: NodeRecord,
    k: int,
)
    requires
        0 <= k < links_into(graph, filter, ids, c).len(),
    ensures
        ({
            let link = links_into(graph, filter, ids, c)[k];
            &&& ids.contains(link.output_node)
            &&& heard(graph, filter, link.output_node)
            &&& leads_into(graph, link, c)
        }),
    decreases ids.len(),
{
    let all = links_into(graph, filter, ids, c);
    let head = links_into(graph, filter, ids.drop_last(), c);
    if k < head.len() {
        lemma_links_into(graph, filter, ids.drop_last(), c, k);
        assert(all[k] == head[k]);
        let j = ids.drop_last().index_of(head[k].output_node);
        assert(ids[j] == head[k].output_node);
    } else {
        let id = ids.last();
        let outputs = graph.nodes@[id].outputs();
        let pairs = mapping(outputs, c.inputs());
        let j = k - head.len();
        assert(ids[ids.len() - 1] == id);
        assert(all[k] == links_of(id, c.id, pairs)[j]);
        crate::routing::mapping_joins_given_ports(outputs, c.inputs(), j);
        assert(outputs.contains(pairs[j].0) && pairs[j].0.id == all[k].output_port);
        assert(c.inputs().contains(pairs[j].1) && pairs[j].1.id == all[k].input_port);
    }
}

proof fn lemma_links_into_all(
    graph: GraphSnapshot,
    filter: RouteFilter,
    ids: Seq<u32>,
    nodes: Seq<(u32, NodeRecord)>,
    k: int,
)
    requires
        0 <= k < links_into_all(graph, filter, ids, nodes).len(),
    ensures
        ({
            let link = links_into_all(graph, filter, ids, nodes)[k];
            &&& ids.contains(link.output_node)
            &&& heard(graph, filter, link.output_node)
            &&& exists|e: (u32, NodeRecord)| #[trigger]
                nodes.contains(e) && is_capture(e.1) && leads_into(graph, link, e.1)
        }),
    decreases nodes.len(),
{
    let all = links_into_all(graph, filter, ids, nodes);
    let head = links_into_all(graph, filter, ids, nodes.drop_last());
    if k < head.len() {
        lemma_links_into_all(graph, filter, ids, nodes.drop_last(), k);
        assert(all[k] == head[k]);
        let e = choose|e: (u32, NodeRecord)| #[trigger]
            nodes.drop_last().contains(e) && is_capture(e.1) && leads_into(graph, head[k], e.1);
        let j = nodes.drop_last().index_of(e);
        assert(nodes[j] == e);
        assert(nodes.contains(e) && is_capture(e.1) && leads_into(graph, all[k], e.1));
    } else {
        let e = nodes.last();
        assert(nodes[nodes.len() - 1] == e);
        assert(is_capture(e.1));
        lemma_links_into(graph, filter, ids, e.1, k - head.len());
        assert(all[k] == links_into(graph, filter, ids, e.1)[k - head.len()]);
        assert(nodes.contains(e) && is_capture(e.1) && leads_into(graph, all[k], e.1));
    }
}

/// Only what was chosen is heard: a wanted link leads a chosen node, which is no
/// capture node and passes the filter, into a capture node.
pub proof fn only_chosen_nodes_are_heard(graph: GraphSnapshot, choice: ChoiceView, k: int)
    requires
        0 <= k < wanted_links(graph, choice).len(),
    ensures
        ({
            let link = wanted_links(graph, choice)[k];
            &&& choice.node_ids.contains(link.output_node)
            &&& heard(graph, choice.filter, link.output_node)
            &&& exists|e: (u32, NodeRecord)| #[trigger]
                graph.nodes.entries().contains(e) && is_capture(e.1) && leads_into(
                    graph,
                    link,
                    e.1,
                )
        }),
{
    let ids = distinct(choice.node_ids);
    lemma_links_into_all(graph, choice.filter, ids, graph.nodes.entries(), k);
    crate::routing::distinct_keeps_each_id_once(choice.node_ids);
    assert(ids.contains(wanted_links(graph, choice)[k].output_node));
}

proof fn lemma_links_into_cover(
    graph: GraphSnapshot,
    filter: RouteFilter,
    ids: Seq<u32>,
    c: NodeRecord,
    id: u32,
    j: int,
)
    requires
        ids.contains(id),
        heard(graph, filter, id),
        0 <= j < mapping(graph.nodes@[id].outputs(), c.inputs()).len(),
    ensures
        links_into(graph, filter, ids, c).contains(
            links_of(id, c.id, mapping(graph.nodes@[id].outputs(), c.inputs()))[j],
        ),
    decreases ids.len(),
{
    let all = links_into(graph, filter, ids, c);
    let head = links_into(graph, filter, ids.drop_last(), c);
    let link = links_of(id, c.id, mapping(graph.nodes@[id].outputs(), c.inputs()))[j];
    if ids.last() == id {
        assert(all[head.len() + j] == link);
    } else {
        let i = ids.index_of(id);
        assert(ids.drop_last()[i] == id);
        lemma_links_into_cover(graph, filter, ids.drop_last(), c, id, j);
        let k = head.index_of(link);
        assert(all[k] == head[k]);
    }
}

proof fn lemma_links_into_all_cover(
    graph: GraphSnapshot,
    filter: RouteFilter,
    ids: Seq<u32>,
    nodes: Seq<(u32, NodeRecord)>,
    n: int,
    link: LinkRecord,
)
    requires
        0 <= n < nodes.len(),
        is_capture(nodes[n].1),
        links_into(graph, filter, ids, nodes[n].1).contains(link),
    ensures
        links_into_all(graph, filter, ids, nodes).contains(link),
    decreases nodes.len(),
{
    let all = links_into_all(graph, filter, ids, nodes);
    let head = links_into_all(graph, filter, ids, nodes.drop_last());
    if n == nodes.len() - 1 {
        let k = links_into(graph, filter, ids, nodes[n].1).index_of(link);
        assert(all[head.len() + k] == link);
    } else {
        assert(nodes.drop_last()[n] == nodes[n]);
        lemma_links_into_all_cover(graph, filter, ids, nodes.drop_last(), n, link);
        let k = head.index_of(link);
        assert(all[k] == head[k]);
    }
}

/// Every capture node hears every chosen node that may be heard: all links that
/// join their ports are wanted.
pub proof fn every_capture_hears_every_choice(
    graph: GraphSnapshot,
    choice: ChoiceView,
    id: u32,
    n: int,
    j: int,
)
    requires
        choice.node_ids.contains(id),
        heard(graph, choice.filter, id),
        0 <= n < graph.nodes.entries().len(),
        is_capture(graph.nodes.entries()[n].1),
        0 <= j < mapping(
            graph.nodes@[id].outputs(),
            graph.nodes.entries()[n].1.inputs(),
        ).len(),
    ensures
        ({
            let c = graph.nodes.entries()[n].1;
            wanted_links(graph, choice).contains(
                links_of(id, c.id, mapping(graph.nodes@[id].outputs(), c.inputs()))[j],
            )
        }),
{
    let ids = distinct(choice.node_ids);
    let nodes = graph.nodes.entries();
    let c = nodes[n].1;
    crate::routing::distinct_keeps_each_id_once(choice.node_ids);
    assert(ids.contains(id));
    lemma_links_into_cover(graph, choice.filter, ids, c, id, j);
    let link = links_of(id, c.id, mapping(graph.nodes@[id].outputs(), c.inputs()))[j];
    lemma_links_into_all_cover(graph, choice.filter, ids, nodes, n, link);
}

proof fn lemma_all_made(
    links: Seq<LinkRecord>,
    outcomes: Seq<Result<u32, BackendError>>,
    n: nat,
    link: LinkRecord,
)
    requires
        n <= links.len(),
        outcomes.len() >= links.len(),
        forall|i: int| 0 <= i < outcomes.len() ==> outcomes[i] is Ok,
    ensures
        holds_link(made_links(links, outcomes, n), link) == links.take(n as int).contains(link),
    decreases n,
{
    let made = made_links(links, outcomes, n);
    let head = links.take(n as int);
    if n > 0 {
        let m = (n - 1) as nat;
        let before = made_links(links, outcomes, m);
        lemma_all_made(links, outcomes, m, link);
        assert(outcomes[m as int] is Ok);
        assert(made =~= before.push(
            HeldLink { handle: outcomes[m as int]->Ok_0, link: links[m as int], shown: false },
        ));
        assert(made[before.len() as int].link == links[m as int]);
        if holds_link(made, link) {
            let i = choose|i: int| 0 <= i < made.len() && (#[trigger] made[i]).link == link;
            if i < before.len() {
                assert(before[i].link == link);
                let k = links.take(m as int).index_of(link);
                assert(head[k] == link);
            } else {
                assert(head[m as int] == link);
            }
        }
        if head.contains(link) {
            let k = head.index_of(link);
            if k < m {
                assert(links.take(m as int)[k] == link);
                let i = choose|i: int| 0 <= i < before.len() && (#[trigger] before[i]).link == link;
                assert(made[i].link == link);
            } else {
                assert(made[before.len() as int].link == link);
            }
        }
    }
}

/// Where all missing links are made, the links are in line with the choice: the
/// wanted ones are held and no others.
pub proof fn making_all_links_brings_them_in_line(
    s: CaptureView,
    graph: GraphSnapshot,
    links: Vec<LinkRecord>,
    outcomes: Vec<Result<u32, BackendError>>,
    link: LinkRecord,
)
    requires
        capture_transition(s, CaptureEvent::Looked { graph: Ok(graph) }).1 matches CaptureStepView::Apply { create, .. }
            && create == links@,
        outcomes@.len() >= links@.len(),
        forall|i: int| 0 <= i < outcomes@.len() ==> outcomes@[i] is Ok,
    ensures
        ({
            let looked = capture_transition(s, CaptureEvent::Looked { graph: Ok(graph) }).0;
            let after = capture_transition(looked, CaptureEvent::Linked { links, outcomes }).0;
            holds_link(after.held, link) == wanted_links(graph, s.choice).contains(link)
        }),
{
    let wanted = wanted_links(graph, s.choice);
    let kept = s.held.filter_map(kept_link(graph, wanted));
    let create = wanted.filter(not_held(kept));
    let made = made_links(links@, outcomes@, links@.len());
    lemma_all_made(links@, outcomes@, links@.len(), link);
    lemma_kept(s.held, graph, wanted, link);
    assert(links@.take(links@.len() as int) =~= links@);
    let held = kept + made;
    assert(holds_link(held, link) == (holds_link(kept, link) || holds_link(made, link))) by {
        if holds_link(held, link) {
            let i = choose|i: int| 0 <= i < held.len() && (#[trigger] held[i]).link == link;
            if i < kept.len() {
                assert(kept[i].link == link);
            } else {
                assert(made[i - kept.len()].link == link);
            }
        }
        if holds_link(kept, link) {
            let i = choose|i: int| 0 <= i < kept.len() && (#[trigger] kept[i]).link == link;
            assert(held[i].link == link);
        }
        if holds_link(made, link) {
            let i = choose|i: int| 0 <= i < made.len() && (#[trigger] made[i]).link == link;
            assert(held[kept.len() + i].link == link);
        }
    }
    if create.contains(link) {
        wanted.lemma_filter_contains_rev(not_held(kept), link);
    }
    if wanted.contains(link) && !holds_link(kept, link) {
        wanted.lemma_filter_contains(not_held(kept), wanted.index_of(link));
    }
}

/// Discord captures in the nodes that bear its node name, play its game capture
/// and run its binary, and in no others.
pub proof fn captures_are_known_by_three_properties(n: NodeRecord)
    ensures
        is_capture(n) == (says(n.props@, "node.name"@, "discord_capture"@) && says(
            n.props@,
            "media.name"@,
            "game capture"@,
        ) && says(n.props@, "application.process.binary"@, "Discord"@)),
{
}

/// A chosen node is heard exactly if it is in the graph, is not itself a capture
/// and passes the filter.
pub proof fn chosen_nodes_are_heard_unless_they_capture(
    graph: GraphSnapshot,
    filter: RouteFilter,
    id: u32,
)
    ensures
        heard(graph, filter, id) == (graph.nodes@.contains_key(id) && !(says(
            graph.nodes@[id].props@,
            "node.name"@,
            "discord_capture"@,
        ) && says(graph.nodes@[id].props@, "media.name"@, "game capture"@) && says(
            graph.nodes@[id].props@,
            "application.process.binary"@,
            "Discord"@,
        )) && passes(graph, graph.nodes@[id], filter, default_sink_id(graph))),
{
}

/// Every pair of ports that the channels of a heard node and of a capture ask for
/// is to be linked, from the first port to the second.
pub proof fn captures_join_the_ports_that_belong_together(
    graph: GraphSnapshot,
    choice: ChoiceView,
    id: u32,
    n: int,
    pair: (PortRecord, PortRecord),
)
    requires
        choice.node_ids.contains(id),
        heard(graph, choice.filter, id),
        0 <= n < graph.nodes.entries().len(),
        is_capture(graph.nodes.entries()[n].1),
        mapping(graph.nodes@[id].outputs(), graph.nodes.entries()[n].1.inputs()).contains(pair),
    ensures
        wanted_links(graph, choice).contains(
            LinkRecord {
                output_node: id,
                output_port: pair.0.id,
                input_node: graph.nodes.entries()[n].1.id,
                input_port: pair.1.id,
            },
        ),
{
    let pairs = mapping(graph.nodes@[id].outputs(), graph.nodes.entries()[n].1.inputs());
    every_capture_hears_every_choice(graph, choice, id, n, pairs.index_of(pair));
}

/// At a look, a held link stays exactly if it is wanted and, once it has shown in
/// the graph, still shows there; it is remembered whether it shows. Every other
/// is destroyed by its handle. What is made anew is what is wanted and not held
/// then. The choice and the silent sink stay as they are.
pub proof fn links_stay_while_wanted_and_there(
    s: CaptureView,
    graph: GraphSnapshot,
    i: int,
    link: LinkRecord,
)
    requires
        0 <= i < s.held.len(),
    ensures
        ({
            let (after, step) = capture_transition(s, CaptureEvent::Looked { graph: Ok(graph) });
            let wanted = wanted_links(graph, s.choice);
            let h = s.held[i];
            let there = exists|e: (u32, LinkRecord)| #[trigger]
                graph.links.entries().contains(e) && e.1 == h.link;
            &&& after.choice == s.choice && after.null_sink == s.null_sink
            &&& step matches CaptureStepView::Apply { destroy, create } && {
                &&& wanted.contains(h.link) && (there || !h.shown) ==> after.held.contains(
                    HeldLink { handle: h.handle, link: h.link, shown: there },
                )
                &&& !(wanted.contains(h.link) && (there || !h.shown)) ==> destroy.contains(h.handle)
                &&& create.contains(link) == (wanted.contains(link) && !exists|k: int|
                    0 <= k < after.held.len() && (#[trigger] after.held[k]).link == link)
            }
        }),
{
    let wanted = wanted_links(graph, s.choice);
    let h = s.held[i];
    let entries = graph.links.entries();
    let there = exists|e: (u32, LinkRecord)| #[trigger] entries.contains(e) && e.1 == h.link;
    assert(there == shows(graph, h.link)) by {
        if there {
            let e = choose|e: (u32, LinkRecord)| #[trigger] entries.contains(e) && e.1 == h.link;
            let k = entries.index_of(e);
            assert(entries[k].1 == h.link);
        }
        if shows(graph, h.link) {
            let k = choose|k: int| 0 <= k < entries.len() && (#[trigger] entries[k]).1 == h.link;
            assert(entries.contains(entries[k]));
        }
    }
    let kept = s.held.filter_map(kept_link(graph, wanted));
    if stays(graph, wanted, h) {
        lemma_kept_exactly(s.held, graph, wanted, i);
    } else {
        lemma_dropped(s.held, graph, wanted, i);
    }
    let missing = not_held(kept);
    if wanted.filter(missing).contains(link) {
        wanted.lemma_filter_contains_rev(missing, link);
        wanted.lemma_filter_pred(missing, wanted.filter(missing).index_of(link));
    }
    if wanted.contains(link) && missing(link) {
        wanted.lemma_filter_contains(missing, wanted.index_of(link));
    }
    let (after, step) = capture_transition(s, CaptureEvent::Looked { graph: Ok(graph) });
    assert(after.held == kept);
    assert(missing(link) == !exists|k: int|
        0 <= k < after.held.len() && (#[trigger] after.held[k]).link == link);
    assert(stays(graph, wanted, h) == (wanted.contains(h.link) && (there || !h.shown)));
    let same = HeldLink { handle: h.handle, link: h.link, shown: there };
    assert(stays(graph, wanted, h) ==> after.held.contains(same));
}

proof fn lemma_kept_exactly(
    held: Seq<HeldLink>,
    graph: GraphSnapshot,
    wanted: Seq<LinkRecord>,
    i: int,
)
    requires
        0 <= i < held.len(),
        stays(graph, wanted, held[i]),
    ensures
        held.filter_map(kept_link(graph, wanted)).contains(
            HeldLink { shown: shows(graph, held[i].link), ..held[i] },
        ),
    decreases held.len(),
{
    let f = kept_link(graph, wanted);
    let n = held.len() - 1;
    held.lemma_filter_map_take_succ(f, n);
    assert(held.take(n + 1) =~= held);
    let head = held.take(n);
    let all = held.filter_map(f);
    let h = HeldLink { shown: shows(graph, held[i].link), ..held[i] };
    if i == n {
        assert(all[head.filter_map(f).len() as int] == h);
    } else {
        assert(head[i] == held[i]);
        lemma_kept_exactly(head, graph, wanted, i);
        let k = head.filter_map(f).index_of(h);
        assert(all[k] == h);
    }
}

/// A choice is taken as it was made. The first that names a node brings the
/// silent sink, which is made once; then the graph is looked at. A change of the
/// graph is followed as long as anything is chosen or held.
pub proof fn a_choice_is_taken_as_it_was_made(
    s: CaptureView,
    choice: CaptureChoice,
    handle: u32,
    e: BackendError,
)
    ensures
        ({
            let (after, step) = capture_transition(s, CaptureEvent::Chosen { choice });
            &&& after.choice.node_ids == choice.node_ids@ && after.choice.filter == choice.filter
            &&& after.held == s.held && after.null_sink == s.null_sink
            &&& choice.node_ids@.len() == 0 || s.null_sink is Some ==> step is Look
            &&& choice.node_ids@.len() > 0 && s.null_sink is None ==> step == (
            CaptureStepView::CreateNullSink {
                name: "discord_capture_null"@,
                description: "Discord Capture Null Sink"@,
                media_class: "Audio/Sink/Virtual"@,
            })
        }),
        capture_transition(s, CaptureEvent::NullSinkCreated { created: Ok(handle) }) == (
            CaptureView { null_sink: Some(handle), ..s },
            CaptureStepView::Look,
        ),
        capture_transition(s, CaptureEvent::GraphChanged) == (
            s,
            if s.choice.node_ids.len() == 0 && s.held.len() == 0 {
                CaptureStepView::Done(Ok(()))
            } else {
                CaptureStepView::Look
            },
        ),
        capture_transition(s, CaptureEvent::NullSinkCreated { created: Err(e) }) == (
            s,
            CaptureStepView::Done(Err(e@)),
        ),
        capture_transition(s, CaptureEvent::Looked { graph: Err(e) }) == (
            s,
            CaptureStepView::Done(Err(e@)),
        ),
{
}

/// Each link that was made is held by the handle that it was given, and has not
/// shown yet; one that failed is not held; and those that were held before stay in
/// front.
pub proof fn made_links_are_held_by_their_handles(
    s: CaptureView,
    links: Vec<LinkRecord>,
    outcomes: Vec<Result<u32, BackendError>>,
    h: HeldLink,
)
    ensures
        ({
            let (after, step) = capture_transition(s, CaptureEvent::Linked { links, outcomes });
            let made = after.held.skip(s.held.len() as int);
            &&& step == CaptureStepView::Done(Ok(()))
            &&& after.choice == s.choice && after.null_sink == s.null_sink
            &&& s.held.is_prefix_of(after.held)
            &&& made.contains(h) == (!h.shown && exists|i: int|
                0 <= i < links@.len() && i < outcomes@.len() && #[trigger] links@[i] == h.link
                    && outcomes@[i] == Ok::<u32, BackendError>(h.handle))
        }),
{
    let made = made_links(links@, outcomes@, links@.len());
    assert((s.held + made).skip(s.held.len() as int) =~= made);
    lemma_made(links@, outcomes@, links@.len(), h);
}

proof fn lemma_made(
    links: Seq<LinkRecord>,
    outcomes: Seq<Result<u32, BackendError>>,
    n: nat,
    h: HeldLink,
)
    requires
        n <= links.len(),
    ensures
        made_links(links, outcomes, n).contains(h) == (!h.shown && exists|i: int|
            0 <= i < n && i < outcomes.len() && #[trigger] links[i] == h.link && outcomes[i]
                == Ok::<u32, BackendError>(h.handle)),
    decreases n,
{
    let made = made_links(links, outcomes, n);
    if n > 0 {
        let m = (n - 1) as nat;
        let before = made_links(links, outcomes, m);
        lemma_made(links, outcomes, m, h);
        if made.contains(h) {
            let k = made.index_of(h);
            if k < before.len() {
                assert(before[k] == h);
                assert(before.contains(h));
            } else {
                assert(links[m as int] == h.link);
            }
        }
        if !h.shown && exists|i: int|
            0 <= i < n && i < outcomes.len() && #[trigger] links[i] == h.link && outcomes[i]
                == Ok::<u32, BackendError>(h.handle) {
            let i = choose|i: int|
                0 <= i < n && i < outcomes.len() && #[trigger] links[i] == h.link && outcomes[i]
                    == Ok::<u32, BackendError>(h.handle);
            if i < m {
                assert(before.contains(h));
                let k = before.index_of(h);
                assert(made[k] == h);
            } else {
                assert(made[before.len() as int] == h);
            }
        }
    }
}

/// What a blocked stream records is the monitor of the silent sink.
pub proof fn blocked_streams_record_the_silent_sink()
    ensures
        NULL_SINK_MONITOR_SOURCE@ == monitor_name(NULL_SINK_NAME@),
        NULL_SINK_NAME@ == "discord_capture_null"@,
{
    reveal_strlit("discord_capture_null");
    reveal_strlit(".monitor");
    reveal_strlit("discord_capture_null.monitor");
    assert(NULL_SINK_MONITOR_SOURCE@ =~= monitor_name(NULL_SINK_NAME@));
}

/// The links into a capture are wanted node by node: one more chosen node adds,
/// behind the links of the others, one link for each pair of ports that belong
/// together, in the order of the pairs, and one that is not heard adds none.
pub proof fn links_are_wanted_node_by_node(
    graph: GraphSnapshot,
    filter: RouteFilter,
    ids: Seq<u32>,
    id: u32,
    c: NodeRecord,
)
    ensures
        ({
            let before = links_into(graph, filter, ids, c);
            let after = links_into(graph, filter, ids.push(id), c);
            let pairs = mapping(graph.nodes@[id].outputs(), c.inputs());
            &&& !heard(graph, filter, id) ==> after == before
            &&& heard(graph, filter, id) ==> after == before + Seq::new(
                pairs.len(),
                |k: int|
                    LinkRecord {
                        output_node: id,
                        output_port: pairs[k].0.id,
                        input_node: c.id,
                        input_port: pairs[k].1.id,
                    },
            )
        }),
{
    assert(ids.push(id).drop_last() =~= ids);
    let before = links_into(graph, filter, ids, c);
    let after = links_into(graph, filter, ids.push(id), c);
    let pairs = mapping(graph.nodes@[id].outputs(), c.inputs());
    let added = Seq::new(
        pairs.len(),
        |k: int|
            LinkRecord {
                output_node: id,
                output_port: pairs[k].0.id,
                input_node: c.id,
                input_port: pairs[k].1.id,
            },
    );
    if heard(graph, filter, id) {
        assert(after =~= before + added);
    } else {
        assert(after =~= before);
    }
}

/// The captures are served one after the other, in the order of the graph, and no
/// other node is.
pub proof fn captures_are_served_one_by_one(
    graph: GraphSnapshot,
    filter: RouteFilter,
    ids: Seq<u32>,
    nodes: Seq<(u32, NodeRecord)>,
    e: (u32, NodeRecord),
)
    ensures
        links_into_all(graph, filter, ids, nodes.push(e)) == links_into_all(
            graph,
            filter,
            ids,
            nodes,
        ) + (if is_capture(e.1) {
            links_into(graph, filter, ids, e.1)
        } else {
            Seq::empty()
        }),
        links_into_all(graph, filter, ids, Seq::empty()) == Seq::<LinkRecord>::empty(),
{
    assert(nodes.push(e).drop_last() =~= nodes);
}

/// A view of what is linked for Discord, and of what is to be done, shows each
/// thing in its own place.
pub proof fn views_of_captures_show_what_they_hold(
    d: DiscordCapture,
    name: String,
    text: String,
    class: &'static str,
    destroy: Vec<u32>,
    create: Vec<LinkRecord>,
    done: Result<(), BackendError>,
)
    ensures
        d@.choice.node_ids == d.choice.node_ids@,
        d@.choice.filter == d.choice.filter,
        d@.held == d.held@,
        d@.null_sink == d.null_sink,
        (CaptureStep::CreateNullSink { name, description: text, media_class: class })@ == (
        CaptureStepView::CreateNullSink {
            name: name@,
            description: text@,
            media_class: class@,
        }),
        CaptureStep::Look@ is Look,
        (CaptureStep::Apply { destroy, create })@ == (CaptureStepView::Apply {
            destroy: destroy@,
            create: create@,
        }),
        CaptureStep::Done(done)@ == CaptureStepView::Done(crate::error::outcome(done)),
{
}

/// At first nothing is chosen, nothing is filtered out, nothing is linked, and
/// the silent sink is not made.
pub proof fn capturing_begins_with_nothing(d: DiscordCapture)
    requires
        call_ensures(DiscordCapture::new, (), d),
    ensures
        d.choice.node_ids@.len() == 0,
        !d.choice.filter.only_speakers && !d.choice.filter.only_default_speakers,
        !d.choice.filter.ignore_devices && !d.choice.filter.ignore_virtual,
        !d.choice.filter.ignore_input_media,
        d.held@.len() == 0,
        d.null_sink is None,
{
}

} // verus!
