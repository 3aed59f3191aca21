//! A session that works on the live graph.
//!
//! Objects made by this session are known by the handles that the backend gave
//! them. The ids that the server gives to nodes are found in snapshots of the
//! graph, by name.
//!
//! Each operation is a function from the state and what happened last to the
//! new state and what is to be done next. Moments are nanoseconds of a clock
//! that never runs back.

use vstd::prelude::*;
use crate::config::{
    make_unique_name, number_after, unique_name, ConfigView, PatchbayConfig, SessionCounter,
};
use crate::error::{BackendError, BackendErrorView};
use crate::listing::{
    is_listing, is_ours, list_nodes, monitor_name, monitor_source, our_own_are_known_by_name,
    ours, says_our_name, shareable_views, NameScope,
};
use crate::models::{
    a_walk_finds_the_first, copy_opt, devices_and_applications_say_so, find_named,
    find_screencast_hint, first_hint, first_node, lemma_first_node, named, says, says_something,
    NodeRecord, PortRecord, RouteFilter, ScreencastHint, ShareableNode, VirtualSinkInfo,
    VirtualSinkInfoView,
};
use crate::pw_backend::{targets_are_the_other_ends, GraphSnapshot, LinkRecord};
use crate::routing::{dedupe_node_ids, distinct, map_ports, mapping};
use crate::state::{disposed, finish, info_outcome, later, moment_after};
use crate::text::{
    decimal, has_prefix, has_text_prefix, opt_text, owned, parts_are_found_wherever_they_stand,
    push_decimal, push_text, texts,
};

verus! {

/// How long a node or its ports are waited for: three seconds, in nanoseconds.
pub const NODE_TIMEOUT: u64 = 3_000_000_000;

/// The pause between two looks at the graph, in milliseconds.
pub const NODE_POLL_DELAY: u64 = 200;

/// How many inputs a stereo node has.
pub const STEREO: usize = 2;

/// The objects that were made for the current session, by their handles.
#[derive(Debug)]
pub struct NativeSession {
    pub sink_handle: Option<u32>,
    pub sink_name: String,
    pub sink_description: String,
    pub mic_handle: Option<u32>,
    pub mic_name: Option<String>,
    pub mic_description: Option<String>,
    /// The links that route applications into the sink.
    pub route_link_handles: Vec<u32>,
    /// The links from the monitor of the sink to the microphone. They belong to
    /// the microphone and outlive all changes of the routes.
    pub mic_link_handles: Vec<u32>,
    /// The name of the default sink before it was overridden, if it was.
    pub prior_default_sink: Option<String>,
}

pub struct SessionView {
    pub sink_handle: Option<u32>,
    pub sink_name: Seq<char>,
    pub sink_description: Seq<char>,
    pub mic_handle: Option<u32>,
    pub mic_name: Option<Seq<char>>,
    pub mic_description: Option<Seq<char>>,
    pub route_link_handles: Seq<u32>,
    pub mic_link_handles: Seq<u32>,
    pub prior_default_sink: Option<Seq<char>>,
}

impl View for NativeSession {
    type V = SessionView;

    open spec fn view(&self) -> SessionView {
        SessionView {
            sink_handle: self.sink_handle,
            sink_name: self.sink_name@,
            sink_description: self.sink_description@,
            mic_handle: self.mic_handle,
            mic_name: opt_text(self.mic_name),
            mic_description: opt_text(self.mic_description),
            route_link_handles: self.route_link_handles@,
            mic_link_handles: self.mic_link_handles@,
            prior_default_sink: opt_text(self.prior_default_sink),
        }
    }
}

#[derive(Debug)]
pub struct PatchbayStateNative {
    pub config: PatchbayConfig,
    pub session: NativeSession,
}

pub struct NativeView {
    pub config: ConfigView,
    pub session: SessionView,
}

impl View for PatchbayStateNative {
    type V = NativeView;

    open spec fn view(&self) -> NativeView {
        NativeView { config: self.config@, session: self.session@ }
    }
}

/// A fresh session.
pub open spec fn fresh_session(c: ConfigView, pid: u32, unique: u64) -> SessionView {
    SessionView {
        sink_handle: None,
        sink_name: unique_name(c.sink_prefix, pid, unique),
        sink_description: c.sink_description,
        mic_handle: None,
        mic_name: if c.wants_mic() {
            Some(c.mic_base())
        } else {
            None
        },
        mic_description: if c.wants_mic() {
            Some(c.mic_text())
        } else {
            None
        },
        route_link_handles: Seq::empty(),
        mic_link_handles: Seq::empty(),
        prior_default_sink: None,
    }
}

impl SessionView {
    /// The virtual sink, its monitor and the virtual microphone.
    pub open spec fn own(self) -> spec_fn(NodeRecord) -> bool {
        ours(NameScope::NodeName, self.sink_name, self.mic_name)
    }
}

/// The id of the first node that is called `name`.
pub open spec fn node_id_named(nodes: Seq<(u32, NodeRecord)>, name: Seq<char>) -> Option<u32> {
    match first_node(nodes, named(name)) {
        Some(n) => Some(n.id),
        None => None,
    }
}

/// The id of the first node that is called `name`.
pub fn find_node_id_by_name(graph: &GraphSnapshot, name: &str) -> (r: Option<u32>)
    ensures
        r == node_id_named(graph.nodes.entries(), name@),
{
    match find_named(&graph.nodes, name) {
        Some(node) => Some(node.id),
        None => None,
    }
}

/// The node `id` as the sink of this session, once it has two linkable inputs.
pub open spec fn info_at(s: SessionView, graph: GraphSnapshot, id: u32) -> Option<
    VirtualSinkInfoView,
> {
    if graph.nodes@.contains_key(id) && graph.nodes@[id].inputs().len() >= STEREO {
        Some(
            VirtualSinkInfoView {
                sink_name: s.sink_name,
                monitor_source: monitor_name(s.sink_name),
                node_id: id,
                virtual_mic_name: s.mic_name,
                virtual_mic_description: s.mic_description,
            },
        )
    } else {
        None
    }
}

/// The id of the default sink, if the graph shows it.
pub open spec fn default_sink_id(graph: GraphSnapshot) -> Option<u32> {
    match graph.default_sink_name {
        Some(name) => node_id_named(graph.nodes.entries(), name@),
        None => None,
    }
}

pub fn resolve_default_sink_id(graph: &GraphSnapshot) -> (r: Option<u32>)
    ensures
        r == default_sink_id(*graph),
{
    match &graph.default_sink_name {
        Some(name) => find_node_id_by_name(graph, name.as_str()),
        None => None,
    }
}

/// Some link out of node `id` ends at a node of a device.
pub open spec fn reaches_device(graph: GraphSnapshot, id: u32) -> bool {
    exists|k: int|
        0 <= k < graph.targets(id).len() && graph.nodes@.contains_key(
            #[trigger] graph.targets(id)[k],
        ) && graph.nodes@[graph.targets(id)[k]].filled("device.id"@)
}

/// Whether `filter` lets `node` be routed, given where its outputs lead at
/// present.
pub open spec fn passes(
    graph: GraphSnapshot,
    node: NodeRecord,
    filter: RouteFilter,
    default_sink: Option<u32>,
) -> bool {
    &&& !(filter.ignore_devices && node.device())
    &&& !(filter.ignore_virtual && node.marked_virtual())
    &&& !(filter.ignore_input_media && (node.text("media.class"@) matches Some(c) && has_prefix(
        c,
        "Stream/Input/Audio"@,
    )))
    &&& filter.only_speakers ==> reaches_device(graph, node.id)
    &&& filter.only_default_speakers ==> (default_sink matches Some(id) && graph.targets(
        node.id,
    ).contains(id))
}

fn any_device(graph: &GraphSnapshot, targets: &Vec<u32>) -> (r: bool)
    ensures
        r == exists|k: int|
            0 <= k < targets@.len() && graph.nodes@.contains_key(#[trigger] targets@[k])
                && graph.nodes@[targets@[k]].filled("device.id"@),
{
    let mut i: usize = 0;
    while i < targets.len()
        invariant
            i <= targets@.len(),
            forall|k: int|
                0 <= k < i ==> !(graph.nodes@.contains_key(#[trigger] targets@[k])
                    && graph.nodes@[targets@[k]].filled("device.id"@)),
        decreases targets@.len() - i,
    {
        match graph.nodes.get(targets[i]) {
            Some(node) => {
                let filled = match node.prop_str("device.id") {
                    Some(t) => !t.is_empty(),
                    None => false,
                };
                if filled {
                    return true;
                }
            },
            None => {},
        }
        i = i + 1;
    }
    false
}

fn holds(list: &Vec<u32>, id: u32) -> (r: bool)
    ensures
        r == list@.contains(id),
{
    let mut i: usize = 0;
    while i < list.len()
        invariant
            i <= list@.len(),
            forall|k: int| 0 <= k < i ==> list@[k] != id,
        decreases list@.len() - i,
    {
        if list[i] == id {
            return true;
        }
        i = i + 1;
    }
    false
}

pub fn should_link(
    graph: &GraphSnapshot,
    node: &NodeRecord,
    filter: &RouteFilter,
    default_sink: Option<u32>,
) -> (r: bool)
    ensures
        r == passes(*graph, *node, *filter, default_sink),
{
    if node.is_device() && filter.ignore_devices {
        return false;
    }
    if node.matches_prop("node.virtual", "true") && filter.ignore_virtual {
        return false;
    }
    let input_media = match node.prop_str("media.class") {
        Some(c) => has_text_prefix(c, "Stream/Input/Audio"),
        None => false,
    };
    if input_media && filter.ignore_input_media {
        return false;
    }
    if filter.only_speakers || filter.only_default_speakers {
        let targets = graph.link_targets_of(node.id);
        if filter.only_speakers && !any_device(graph, &targets) {
            return false;
        }
        if filter.only_default_speakers {
            match default_sink {
                Some(id) => {
                    if !holds(&targets, id) {
                        return false;
                    }
                },
                None => {
                    return false;
                },
            }
        }
    }
    true
}

/// The links that join the given pairs of ports.
pub open spec fn links_of(
    output_node: u32,
    input_node: u32,
    pairs: Seq<(PortRecord, PortRecord)>,
) -> Seq<LinkRecord> {
    Seq::new(
        pairs.len(),
        |k: int|
            LinkRecord {
                output_node,
                output_port: pairs[k].0.id,
                input_node,
                input_port: pairs[k].1.id,
            },
    )
}

pub fn push_links(
    links: &mut Vec<LinkRecord>,
    output_node: u32,
    input_node: u32,
    pairs: &Vec<(PortRecord, PortRecord)>,
)
    ensures
        final(links)@ == old(links)@ + links_of(output_node, input_node, pairs@),
{
    let ghost before = links@;
    let mut i: usize = 0;
    assert(links@ =~= before + links_of(output_node, input_node, pairs@.take(0)));
    while i < pairs.len()
        invariant
            i <= pairs@.len(),
            links@ == before + links_of(output_node, input_node, pairs@.take(i as int)),
        decreases pairs@.len() - i,
    {
        links.push(
            LinkRecord {
                output_node,
                output_port: pairs[i].0.id,
                input_node,
                input_port: pairs[i].1.id,
            },
        );
        assert(links@ =~= before + links_of(output_node, input_node, pairs@.take(i + 1)));
        i = i + 1;
    }
    assert(pairs@.take(pairs@.len() as int) =~= pairs@);
}

/// A chosen node that is routed: it is in the graph, it is not the sink, it is
/// not ours and the filter lets it pass.
pub open spec fn chosen(
    s: SessionView,
    graph: GraphSnapshot,
    filter: RouteFilter,
    sink_id: u32,
    id: u32,
) -> bool {
    let default_sink = if filter.only_default_speakers {
        default_sink_id(graph)
    } else {
        None
    };
    &&& id != sink_id
    &&& graph.nodes@.contains_key(id)
    &&& !(s.own())(graph.nodes@[id])
    &&& passes(graph, graph.nodes@[id], filter, default_sink)
}

/// The links that lead node `id` into the sink.
pub open spec fn links_from(
    s: SessionView,
    graph: GraphSnapshot,
    filter: RouteFilter,
    sink_id: u32,
    inputs: Seq<PortRecord>,
    id: u32,
) -> Seq<LinkRecord> {
    if chosen(s, graph, filter, sink_id, id) {
        links_of(id, sink_id, mapping(graph.nodes@[id].outputs(), inputs))
    } else {
        Seq::empty()
    }
}

/// The links that lead the nodes `ids` into the sink, node by node.
pub open spec fn route_links(
    s: SessionView,
    graph: GraphSnapshot,
    filter: RouteFilter,
    sink_id: u32,
    inputs: Seq<PortRecord>,
    ids: Seq<u32>,
) -> Seq<LinkRecord>
    decreases ids.len(),
{
    if ids.len() == 0 {
        Seq::empty()
    } else {
        route_links(s, graph, filter, sink_id, inputs, ids.drop_last()) + links_from(
            s,
            graph,
            filter,
            sink_id,
            inputs,
            ids.last(),
        )
    }
}

/// The linkable inputs of node `id`.
pub open spec fn inputs_at(graph: GraphSnapshot, id: u32) -> Seq<PortRecord> {
    if graph.nodes@.contains_key(id) {
        graph.nodes@[id].inputs()
    } else {
        Seq::empty()
    }
}

/// The links that the choice `ids` asks for, or why there are none.
pub open spec fn planned_links(
    s: SessionView,
    graph: GraphSnapshot,
    filter: RouteFilter,
    sink_id: u32,
    ids: Seq<u32>,
) -> Result<Seq<LinkRecord>, BackendErrorView> {
    let inputs = inputs_at(graph, sink_id);
    if inputs.len() < STEREO {
        Err(BackendErrorView::Message("virtual sink has no usable stereo input ports"@))
    } else {
        let links = route_links(s, graph, filter, sink_id, inputs, distinct(ids));
        if links.len() == 0 {
            Err(BackendErrorView::Message("none of the selected nodes could be linked"@))
        } else {
            Ok(links)
        }
    }
}

/// What happens while a node is waited for.
pub enum WaitEvent {
    Asked { now: u64 },
    Looked { graph: Result<GraphSnapshot, BackendError>, now: u64, deadline: u64 },
}

pub enum WaitStep {
    /// Pause and snapshot the graph.
    Look { pause_ms: u64, deadline: u64 },
    Done(Result<u32, BackendError>),
}

/// The id of the first node called `name`, if it has enough linkable inputs.
pub open spec fn ready_node(
    nodes: Seq<(u32, NodeRecord)>,
    name: Seq<char>,
    min_inputs: nat,
) -> Option<u32> {
    match first_node(nodes, named(name)) {
        Some(n) => if n.inputs().len() >= min_inputs {
            Some(n.id)
        } else {
            None
        },
        None => None,
    }
}

/// Waits until a node called `name` has `min_inputs` linkable inputs, but not
/// beyond three seconds.
pub fn wait_for_node_ready(name: &str, min_inputs: usize, event: WaitEvent) -> (step: WaitStep)
    ensures
        match event {
            WaitEvent::Asked { now } => step == (WaitStep::Look {
                pause_ms: 0,
                deadline: later(now, NODE_TIMEOUT),
            }),
            WaitEvent::Looked { graph, now, deadline } => match graph {
                Ok(g) => match ready_node(g.nodes.entries(), name@, min_inputs as nat) {
                    Some(id) => step == WaitStep::Done(Ok(id)),
                    None => if now >= deadline {
                        step matches WaitStep::Done(Err(e)) && e@ == BackendErrorView::Timeout(
                            name@,
                        )
                    } else {
                        step == (WaitStep::Look { pause_ms: NODE_POLL_DELAY, deadline })
                    },
                },
                Err(e) => step == WaitStep::Done(Err(e)),
            },
        },
{
    match event {
        WaitEvent::Asked { now } => WaitStep::Look {
            pause_ms: 0,
            deadline: moment_after(now, NODE_TIMEOUT),
        },
        WaitEvent::Looked { graph, now, deadline } => {
            let g = match graph {
                Ok(g) => g,
                Err(err) => {
                    return WaitStep::Done(Err(err));
                },
            };
            match find_named(&g.nodes, name) {
                Some(node) => {
                    let inputs = node.usable_inputs();
                    if inputs.len() >= min_inputs {
                        return WaitStep::Done(Ok(node.id));
                    }
                },
                None => {},
            }
            if now >= deadline {
                WaitStep::Done(Err(BackendError::Timeout(owned(name))))
            } else {
                WaitStep::Look { pause_ms: NODE_POLL_DELAY, deadline }
            }
        },
    }
}

/// At which end of the making of the sink it is looked for.
#[derive(Debug, Clone, Copy, PartialEq, Eq, Structural)]
pub enum SinkStage {
    /// Before anything was made.
    First,
    /// After it was made.
    Last,
}

/// What happens while the sink is being made.
pub enum EnsureEvent {
    Asked,
    /// The graph in which the sink is looked for by name.
    Sought { graph: Result<GraphSnapshot, BackendError>, stage: SinkStage },
    /// The graph in which the node found by name is inspected.
    Inspected { graph: Result<GraphSnapshot, BackendError>, sink_id: u32, stage: SinkStage },
    /// The handle of the new sink.
    SinkCreated { created: Result<u32, BackendError> },
    /// The microphone has been made.
    MicEnsured { ensured: Result<(), BackendError>, info: Option<VirtualSinkInfo> },
    /// The new sink has its ports.
    SinkReady { ready: Result<u32, BackendError> },
    /// The new sink has become the default.
    DefaultSet { set: Result<(), BackendError> },
}

pub enum EnsureStep {
    /// Snapshot the graph to look for the sink.
    Seek { stage: SinkStage },
    /// Snapshot the graph to inspect the node.
    Inspect { sink_id: u32, stage: SinkStage },
    /// Create a virtual node.
    CreateSink { name: String, description: String, media_class: &'static str },
    /// Make the microphone.
    EnsureMic { info: Option<VirtualSinkInfo> },
    /// Wait until the node of this name has this many inputs.
    WaitSink { name: String, min_inputs: usize },
    /// Make the sink the default.
    SetDefault,
    Done(Result<VirtualSinkInfo, BackendError>),
}

pub enum EnsureStepView {
    Seek { stage: SinkStage },
    Inspect { sink_id: u32, stage: SinkStage },
    CreateSink { name: Seq<char>, description: Seq<char>, media_class: Seq<char> },
    EnsureMic { info: Option<VirtualSinkInfoView> },
    WaitSink { name: Seq<char>, min_inputs: usize },
    SetDefault,
    Done(Result<VirtualSinkInfoView, BackendErrorView>),
}

pub open spec fn opt_info(info: Option<VirtualSinkInfo>) -> Option<VirtualSinkInfoView> {
    match info {
        Some(i) => Some(i@),
        None => None,
    }
}

impl View for EnsureStep {
    type V = EnsureStepView;

    open spec fn view(&self) -> EnsureStepView {
        match self {
            EnsureStep::Seek { stage } => EnsureStepView::Seek { stage: *stage },
            EnsureStep::Inspect { sink_id, stage } => EnsureStepView::Inspect {
                sink_id: *sink_id,
                stage: *stage,
            },
            EnsureStep::CreateSink { name, description, media_class } => EnsureStepView::CreateSink {
                name: name@,
                description: description@,
                media_class: media_class@,
            },
            EnsureStep::EnsureMic { info } => EnsureStepView::EnsureMic { info: opt_info(*info) },
            EnsureStep::WaitSink { name, min_inputs } => EnsureStepView::WaitSink {
                name: name@,
                min_inputs: *min_inputs,
            },
            EnsureStep::SetDefault => EnsureStepView::SetDefault,
            EnsureStep::Done(r) => EnsureStepView::Done(info_outcome(*r)),
        }
    }
}

/// What follows where the sink is not in the graph.
pub open spec fn without_sink(s: NativeView, stage: SinkStage) -> EnsureStepView {
    match stage {
        SinkStage::First => EnsureStepView::CreateSink {
            name: s.session.sink_name,
            description: s.session.sink_description,
            media_class: if s.config.sink_becomes_default {
                "Audio/Sink"@
            } else {
                "Audio/Sink/Virtual"@
            },
        },
        SinkStage::Last => EnsureStepView::Done(
            Err(BackendErrorView::Message("virtual sink not found after creation"@)),
        ),
    }
}

/// How the making of the sink goes on.
pub open spec fn ensure_transition(s: NativeView, event: EnsureEvent) -> (
    NativeView,
    EnsureStepView,
) {
    match event {
        EnsureEvent::Asked => (s, EnsureStepView::Seek { stage: SinkStage::First }),
        EnsureEvent::Sought { graph, stage } => (
            s,
            match graph {
                Ok(g) => match node_id_named(g.nodes.entries(), s.session.sink_name) {
                    Some(sink_id) => EnsureStepView::Inspect { sink_id, stage },
                    None => without_sink(s, stage),
                },
                Err(e) => EnsureStepView::Done(Err(e@)),
            },
        ),
        EnsureEvent::Inspected { graph, sink_id, stage } => (
            s,
            match graph {
                Ok(g) => match info_at(s.session, g, sink_id) {
                    Some(info) => match stage {
                        SinkStage::First => EnsureStepView::EnsureMic { info: Some(info) },
                        SinkStage::Last => EnsureStepView::Done(Ok(info)),
                    },
                    None => without_sink(s, stage),
                },
                Err(e) => EnsureStepView::Done(Err(e@)),
            },
        ),
        EnsureEvent::SinkCreated { created } => match created {
            Ok(handle) => (
                NativeView {
                    session: SessionView { sink_handle: Some(handle), ..s.session },
                    ..s
                },
                EnsureStepView::EnsureMic { info: None },
            ),
            Err(e) => (s, EnsureStepView::Done(Err(e@))),
        },
        EnsureEvent::MicEnsured { ensured, info } => (
            s,
            match ensured {
                Ok(_) => match info {
                    Some(info) => EnsureStepView::Done(Ok(info@)),
                    None => EnsureStepView::WaitSink {
                        name: s.session.sink_name,
                        min_inputs: STEREO,
                    },
                },
                Err(e) => EnsureStepView::Done(Err(e@)),
            },
        ),
        EnsureEvent::SinkReady { ready } => (
            s,
            match ready {
                Ok(_) => if s.config.sink_becomes_default {
                    EnsureStepView::SetDefault
                } else {
                    EnsureStepView::Seek { stage: SinkStage::Last }
                },
                Err(e) => EnsureStepView::Done(Err(e@)),
            },
        ),
        EnsureEvent::DefaultSet { set } => (
            s,
            match set {
                Ok(_) => EnsureStepView::Seek { stage: SinkStage::Last },
                Err(e) => EnsureStepView::Done(Err(e@)),
            },
        ),
    }
}

/// What happens while the microphone is being made.
pub enum MicEvent {
    Asked,
    /// The handle of the new microphone.
    MicCreated { created: Result<u32, BackendError> },
    /// The monitor of the sink has been linked to it.
    MonitorLinked { linked: Result<(), BackendError> },
}

pub enum MicStep {
    /// Create a virtual node.
    CreateMic { name: String, description: String, media_class: &'static str },
    /// Link the monitor of the sink to the microphone.
    LinkMonitor,
    Done(Result<(), BackendError>),
}

pub enum MicStepView {
    CreateMic { name: Seq<char>, description: Seq<char>, media_class: Seq<char> },
    LinkMonitor,
    Done(Result<(), BackendErrorView>),
}

impl View for MicStep {
    type V = MicStepView;

    open spec fn view(&self) -> MicStepView {
        match self {
            MicStep::CreateMic { name, description, media_class } => MicStepView::CreateMic {
                name: name@,
                description: description@,
                media_class: media_class@,
            },
            MicStep::LinkMonitor => MicStepView::LinkMonitor,
            MicStep::Done(r) => MicStepView::Done(crate::error::outcome(*r)),
        }
    }
}

/// How the making of the microphone goes on. One that was made is not made
/// again.
pub open spec fn mic_transition(s: NativeView, event: MicEvent) -> (NativeView, MicStepView) {
    match event {
        MicEvent::Asked => (
            s,
            match (s.session.mic_name, s.session.mic_description, s.session.mic_handle) {
                (Some(name), Some(description), None) => MicStepView::CreateMic {
                    name,
                    description,
                    media_class: "Audio/Source/Virtual"@,
                },
                _ => MicStepView::Done(Ok(())),
            },
        ),
        MicEvent::MicCreated { created } => match created {
            Ok(handle) => (
                NativeView {
                    session: SessionView { mic_handle: Some(handle), ..s.session },
                    ..s
                },
                MicStepView::LinkMonitor,
            ),
            Err(e) => (s, MicStepView::Done(Err(e@))),
        },
        MicEvent::MonitorLinked { linked } => (s, MicStepView::Done(crate::error::outcome(linked))),
    }
}

/// What happens while the monitor of the sink is being linked to the
/// microphone.
pub enum MonitorEvent {
    Asked,
    /// The microphone has its ports.
    MicReady { ready: Result<u32, BackendError> },
    /// The sink has its ports.
    SinkReady { mic_id: u32, ready: Result<u32, BackendError>, now: u64 },
    /// The graph in which the ports of both are looked for.
    Looked {
        graph: Result<GraphSnapshot, BackendError>,
        sink_id: u32,
        mic_id: u32,
        now: u64,
        deadline: u64,
    },
    /// What came of a link: its handle, or an error. The others are still to be
    /// made.
    Linked { created: Result<u32, BackendError>, rest: Vec<LinkRecord> },
}

pub enum MonitorStep {
    /// Wait until the node of this name has this many inputs.
    WaitMic { name: String, min_inputs: usize },
    /// Wait until the node of this name has this many inputs.
    WaitSink { mic_id: u32, name: String, min_inputs: usize },
    /// Pause and snapshot the graph.
    Look { sink_id: u32, mic_id: u32, pause_ms: u64, deadline: u64 },
    /// Create this link; the others follow.
    Link { link: LinkRecord, rest: Vec<LinkRecord> },
    Done(Result<(), BackendError>),
}

pub enum MonitorStepView {
    WaitMic { name: Seq<char>, min_inputs: usize },
    WaitSink { mic_id: u32, name: Seq<char>, min_inputs: usize },
    Look { sink_id: u32, mic_id: u32, pause_ms: u64, deadline: u64 },
    Link { link: LinkRecord, rest: Seq<LinkRecord> },
    Done(Result<(), BackendErrorView>),
}

impl View for MonitorStep {
    type V = MonitorStepView;

    open spec fn view(&self) -> MonitorStepView {
        match self {
            MonitorStep::WaitMic { name, min_inputs } => MonitorStepView::WaitMic {
                name: name@,
                min_inputs: *min_inputs,
            },
            MonitorStep::WaitSink { mic_id, name, min_inputs } => MonitorStepView::WaitSink {
                mic_id: *mic_id,
                name: name@,
                min_inputs: *min_inputs,
            },
            MonitorStep::Look { sink_id, mic_id, pause_ms, deadline } => MonitorStepView::Look {
                sink_id: *sink_id,
                mic_id: *mic_id,
                pause_ms: *pause_ms,
                deadline: *deadline,
            },
            MonitorStep::Link { link, rest } => MonitorStepView::Link { link: *link, rest: rest@ },
            MonitorStep::Done(r) => MonitorStepView::Done(crate::error::outcome(*r)),
        }
    }
}

/// The links from the outputs of the sink to the inputs of the microphone, once
/// both have some.
pub open spec fn monitor_links(graph: GraphSnapshot, sink_id: u32, mic_id: u32) -> Option<
    Seq<LinkRecord>,
> {
    let nodes = graph.nodes@;
    if nodes.contains_key(sink_id) && nodes.contains_key(mic_id) && nodes[sink_id].outputs().len()
        > 0 && nodes[mic_id].inputs().len() > 0 {
        Some(
            links_of(
                nodes[sink_id].id,
                mic_id,
                mapping(nodes[sink_id].outputs(), nodes[mic_id].inputs()),
            ),
        )
    } else {
        None
    }
}

/// The next of these links is made, or there is none left.
pub open spec fn next_link(links: Seq<LinkRecord>) -> MonitorStepView {
    if links.len() == 0 {
        MonitorStepView::Done(Ok(()))
    } else {
        MonitorStepView::Link { link: links[0], rest: links.drop_first() }
    }
}

fn make_next(links: Vec<LinkRecord>) -> (step: MonitorStep)
    ensures
        step@ == next_link(links@),
{
    let mut rest = links;
    if rest.len() == 0 {
        return MonitorStep::Done(Ok(()));
    }
    let link = rest.remove(0);
    assert(rest@ =~= links@.drop_first());
    MonitorStep::Link { link, rest }
}

/// How the linking of the monitor goes on. It ends with the first link that
/// cannot be made; those before it are held.
pub open spec fn monitor_transition(s: NativeView, event: MonitorEvent) -> (
    NativeView,
    MonitorStepView,
) {
    match event {
        MonitorEvent::Asked => (
            s,
            match s.session.mic_name {
                Some(name) => MonitorStepView::WaitMic { name, min_inputs: STEREO },
                None => MonitorStepView::Done(Ok(())),
            },
        ),
        MonitorEvent::MicReady { ready } => (
            s,
            match ready {
                Ok(mic_id) => MonitorStepView::WaitSink {
                    mic_id,
                    name: s.session.sink_name,
                    min_inputs: STEREO,
                },
                Err(e) => MonitorStepView::Done(Err(e@)),
            },
        ),
        MonitorEvent::SinkReady { mic_id, ready, now } => (
            s,
            match ready {
                Ok(sink_id) => MonitorStepView::Look {
                    sink_id,
                    mic_id,
                    pause_ms: 0,
                    deadline: later(now, NODE_TIMEOUT),
                },
                Err(e) => MonitorStepView::Done(Err(e@)),
            },
        ),
        MonitorEvent::Looked { graph, sink_id, mic_id, now, deadline } => (
            s,
            match graph {
                Ok(g) => match monitor_links(g, sink_id, mic_id) {
                    Some(links) => next_link(links),
                    None => if now >= deadline {
                        MonitorStepView::Done(
                            Err(
                                BackendErrorView::Message(
                                    "timed out linking sink monitor to virtual mic"@,
                                ),
                            ),
                        )
                    } else {
                        MonitorStepView::Look {
                            sink_id,
                            mic_id,
                            pause_ms: NODE_POLL_DELAY,
                            deadline,
                        }
                    },
                },
                Err(e) => MonitorStepView::Done(Err(e@)),
            },
        ),
        MonitorEvent::Linked { created, rest } => match created {
            Ok(handle) => (
                NativeView {
                    session: SessionView {
                        mic_link_handles: s.session.mic_link_handles.push(handle),
                        ..s.session
                    },
                    ..s
                },
                next_link(rest@),
            ),
            Err(e) => (s, MonitorStepView::Done(Err(e@))),
        },
    }
}

/// What happens while nodes are being routed.
pub enum NativeRouteEvent {
    /// These nodes, and no others, are to be routed.
    Asked { node_ids: Vec<u32>, filter: RouteFilter },
    /// The old routes have been removed, for want of new ones.
    Cleared { cleared: Result<(), BackendError> },
    /// The sink has been made.
    SinkEnsured {
        node_ids: Vec<u32>,
        filter: RouteFilter,
        ensured: Result<VirtualSinkInfo, BackendError>,
    },
    /// The graph in which the sink is looked for by name.
    Sought {
        node_ids: Vec<u32>,
        filter: RouteFilter,
        info: VirtualSinkInfo,
        graph: Result<GraphSnapshot, BackendError>,
    },
    /// The graph on which the links are planned.
    Looked {
        node_ids: Vec<u32>,
        filter: RouteFilter,
        info: VirtualSinkInfo,
        sink_id: u32,
        graph: Result<GraphSnapshot, BackendError>,
    },
    /// What came of each link: its handle, or an error.
    Linked { info: VirtualSinkInfo, outcomes: Vec<Result<u32, BackendError>> },
    /// The old links have been dealt with, well or badly.
    Unlinked { info: VirtualSinkInfo },
}

pub enum NativeRouteStep {
    /// Remove all routes.
    ClearRoutes,
    /// Make the sink.
    EnsureSink { node_ids: Vec<u32>, filter: RouteFilter },
    /// Snapshot the graph to look for the sink.
    Seek { node_ids: Vec<u32>, filter: RouteFilter, info: VirtualSinkInfo },
    /// Snapshot the graph to plan the links.
    Look { node_ids: Vec<u32>, filter: RouteFilter, info: VirtualSinkInfo, sink_id: u32 },
    /// Create these links.
    Link { links: Vec<LinkRecord>, info: VirtualSinkInfo },
    /// Destroy the links with these handles.
    Unlink { handles: Vec<u32>, info: VirtualSinkInfo },
    Done(Result<VirtualSinkInfo, BackendError>),
}

pub enum NativeRouteStepView {
    ClearRoutes,
    EnsureSink { node_ids: Seq<u32>, filter: RouteFilter },
    Seek { node_ids: Seq<u32>, filter: RouteFilter, info: VirtualSinkInfoView },
    Look { node_ids: Seq<u32>, filter: RouteFilter, info: VirtualSinkInfoView, sink_id: u32 },
    Link { links: Seq<LinkRecord>, info: VirtualSinkInfoView },
    Unlink { handles: Seq<u32>, info: VirtualSinkInfoView },
    Done(Result<VirtualSinkInfoView, BackendErrorView>),
}

impl View for NativeRouteStep {
    type V = NativeRouteStepView;

    open spec fn view(&self) -> NativeRouteStepView {
        match self {
            NativeRouteStep::ClearRoutes => NativeRouteStepView::ClearRoutes,
            NativeRouteStep::EnsureSink { node_ids, filter } => NativeRouteStepView::EnsureSink {
                node_ids: node_ids@,
                filter: *filter,
            },
            NativeRouteStep::Seek { node_ids, filter, info } => NativeRouteStepView::Seek {
                node_ids: node_ids@,
                filter: *filter,
                info: info@,
            },
            NativeRouteStep::Look { node_ids, filter, info, sink_id } => NativeRouteStepView::Look {
                node_ids: node_ids@,
                filter: *filter,
                info: info@,
                sink_id: *sink_id,
            },
            NativeRouteStep::Link { links, info } => NativeRouteStepView::Link {
                links: links@,
                info: info@,
            },
            NativeRouteStep::Unlink { handles, info } => NativeRouteStepView::Unlink {
                handles: handles@,
                info: info@,
            },
            NativeRouteStep::Done(r) => NativeRouteStepView::Done(info_outcome(*r)),
        }
    }
}

pub open spec fn handle_made() -> spec_fn(Result<u32, BackendError>) -> Option<u32> {
    |r: Result<u32, BackendError>|
        match r {
            Ok(handle) => Some(handle),
            Err(_) => None,
        }
}

/// The handles of the links that were made.
pub open spec fn handles_made(outcomes: Seq<Result<u32, BackendError>>) -> Seq<u32> {
    outcomes.filter_map(handle_made())
}

fn collect_handles(outcomes: &Vec<Result<u32, BackendError>>) -> (r: Vec<u32>)
    ensures
        r@ == handles_made(outcomes@),
{
    let mut r: Vec<u32> = Vec::new();
    let mut i: usize = 0;
    assert(r@ =~= handles_made(outcomes@.take(0)));
    while i < outcomes.len()
        invariant
            i <= outcomes@.len(),
            r@ == handles_made(outcomes@.take(i as int)),
        decreases outcomes@.len() - i,
    {
        proof {
            outcomes@.lemma_filter_map_take_succ(handle_made(), i as int);
        }
        match &outcomes[i] {
            Ok(handle) => {
                r.push(*handle);
            },
            Err(_) => {},
        }
        assert(r@ =~= handles_made(outcomes@.take(i + 1)));
        i = i + 1;
    }
    assert(outcomes@.take(outcomes@.len() as int) =~= outcomes@);
    r
}

/// How the routing goes on. The new links are made before the old ones go.
pub open spec fn native_route_transition(s: NativeView, event: NativeRouteEvent) -> (
    NativeView,
    NativeRouteStepView,
) {
    match event {
        NativeRouteEvent::Asked { node_ids, filter } => (
            s,
            if node_ids@.len() == 0 {
                NativeRouteStepView::ClearRoutes
            } else {
                NativeRouteStepView::EnsureSink { node_ids: node_ids@, filter }
            },
        ),
        NativeRouteEvent::Cleared { cleared } => (
            s,
            match cleared {
                Ok(_) => NativeRouteStepView::EnsureSink {
                    node_ids: Seq::empty(),
                    filter: no_filter(),
                },
                Err(e) => NativeRouteStepView::Done(Err(e@)),
            },
        ),
        NativeRouteEvent::SinkEnsured { node_ids, filter, ensured } => (
            s,
            match ensured {
                Ok(info) => if node_ids@.len() == 0 {
                    NativeRouteStepView::Done(Ok(info@))
                } else {
                    NativeRouteStepView::Seek { node_ids: node_ids@, filter, info: info@ }
                },
                Err(e) => NativeRouteStepView::Done(Err(e@)),
            },
        ),
        NativeRouteEvent::Sought { node_ids, filter, info, graph } => (
            s,
            match graph {
                Ok(g) => match node_id_named(g.nodes.entries(), s.session.sink_name) {
                    Some(sink_id) => NativeRouteStepView::Look {
                        node_ids: node_ids@,
                        filter,
                        info: info@,
                        sink_id,
                    },
                    None => NativeRouteStepView::Done(
                        Err(BackendErrorView::Message("virtual sink missing after ensure"@)),
                    ),
                },
                Err(e) => NativeRouteStepView::Done(Err(e@)),
            },
        ),
        NativeRouteEvent::Looked { node_ids, filter, info, sink_id, graph } => (
            s,
            match graph {
                Ok(g) => match planned_links(s.session, g, filter, sink_id, node_ids@) {
                    Ok(links) => NativeRouteStepView::Link { links, info: info@ },
                    Err(e) => NativeRouteStepView::Done(Err(e)),
                },
                Err(e) => NativeRouteStepView::Done(Err(e@)),
            },
        ),
        NativeRouteEvent::Linked { info, outcomes } => {
            let handles = handles_made(outcomes@);
            if handles.len() == 0 {
                (
                    s,
                    NativeRouteStepView::Done(
                        Err(
                            BackendErrorView::Message(
                                "none of the selected nodes could be linked"@,
                            ),
                        ),
                    ),
                )
            } else {
                (
                    NativeView {
                        session: SessionView { route_link_handles: handles, ..s.session },
                        ..s
                    },
                    NativeRouteStepView::Unlink {
                        handles: s.session.route_link_handles,
                        info: info@,
                    },
                )
            }
        },
        NativeRouteEvent::Unlinked { info } => (s, NativeRouteStepView::Done(Ok(info@))),
    }
}

/// The filter that lets everything pass.
pub open spec fn no_filter() -> RouteFilter {
    RouteFilter {
        only_speakers: false,
        only_default_speakers: false,
        ignore_devices: false,
        ignore_virtual: false,
        ignore_input_media: false,
    }
}

/// What happens while routes are being removed.
pub enum NativeClearEvent {
    Asked,
    /// What came of each removal.
    Unlinked { outcomes: Vec<Result<(), BackendError>> },
}

pub enum NativeClearStep {
    /// Destroy the links with these handles.
    Unlink { handles: Vec<u32> },
    Done(Result<(), BackendError>),
}

pub enum NativeClearStepView {
    Unlink { handles: Seq<u32> },
    Done(Result<(), BackendErrorView>),
}

impl View for NativeClearStep {
    type V = NativeClearStepView;

    open spec fn view(&self) -> NativeClearStepView {
        match self {
            NativeClearStep::Unlink { handles } => NativeClearStepView::Unlink {
                handles: handles@,
            },
            NativeClearStep::Done(r) => NativeClearStepView::Done(crate::error::outcome(*r)),
        }
    }
}

/// How many of the outcomes are errors.
pub open spec fn errors_in(outcomes: Seq<Result<(), BackendError>>) -> nat
    decreases outcomes.len(),
{
    if outcomes.len() == 0 {
        0
    } else {
        errors_in(outcomes.drop_last()) + if outcomes.last() is Err {
            1nat
        } else {
            0
        }
    }
}

fn count_errors(outcomes: &Vec<Result<(), BackendError>>) -> (n: usize)
    ensures
        n == errors_in(outcomes@),
{
    let mut n: usize = 0;
    let mut i: usize = 0;
    while i < outcomes.len()
        invariant
            i <= outcomes@.len(),
            n <= i,
            n == errors_in(outcomes@.take(i as int)),
        decreases outcomes@.len() - i,
    {
        assert(outcomes@.take(i + 1).drop_last() =~= outcomes@.take(i as int));
        if outcomes[i].is_err() {
            n = n + 1;
        }
        i = i + 1;
    }
    assert(outcomes@.take(outcomes@.len() as int) =~= outcomes@);
    n
}

/// How the removal of all routes goes on. The session forgets them at once.
pub open spec fn native_clear_transition(s: NativeView, event: NativeClearEvent) -> (
    NativeView,
    NativeClearStepView,
) {
    match event {
        NativeClearEvent::Asked => (
            NativeView {
                session: SessionView { route_link_handles: Seq::empty(), ..s.session },
                ..s
            },
            NativeClearStepView::Unlink { handles: s.session.route_link_handles },
        ),
        NativeClearEvent::Unlinked { outcomes } => (
            s,
            NativeClearStepView::Done(
                if errors_in(outcomes@) == 0 {
                    Ok(())
                } else {
                    Err(
                        BackendErrorView::Message(
                            "failed to remove "@ + decimal(errors_in(outcomes@)) + " route(s)"@,
                        ),
                    )
                },
            ),
        ),
    }
}

/// What happens while a session is being taken down.
pub enum NativeDisposeEvent {
    Asked,
    /// The default sink has been restored.
    Restored { restored: Result<(), BackendError> },
    /// The routes have been removed.
    Cleared { cleared: Result<(), BackendError>, errors: Vec<String> },
    /// What came of the removal of each link of the microphone.
    MicUnlinked { outcomes: Vec<Result<(), BackendError>>, errors: Vec<String> },
    /// The microphone has been destroyed.
    MicDestroyed { destroyed: Result<(), BackendError>, errors: Vec<String> },
    /// The sink has been destroyed.
    SinkDestroyed { destroyed: Result<(), BackendError>, errors: Vec<String> },
}

pub enum NativeDisposeStep {
    /// Restore the default sink.
    RestoreDefault,
    /// Remove all routes.
    ClearRoutes { errors: Vec<String> },
    /// Destroy the links with these handles.
    UnlinkMic { handles: Vec<u32>, errors: Vec<String> },
    /// Destroy the node with this handle.
    DestroyMic { handle: u32, errors: Vec<String> },
    /// Destroy the node with this handle.
    DestroySink { handle: u32, errors: Vec<String> },
    Done(Result<(), BackendError>),
}

pub enum NativeDisposeStepView {
    RestoreDefault,
    ClearRoutes { errors: Seq<Seq<char>> },
    UnlinkMic { handles: Seq<u32>, errors: Seq<Seq<char>> },
    DestroyMic { handle: u32, errors: Seq<Seq<char>> },
    DestroySink { handle: u32, errors: Seq<Seq<char>> },
    Done(Result<(), BackendErrorView>),
}

impl View for NativeDisposeStep {
    type V = NativeDisposeStepView;

    open spec fn view(&self) -> NativeDisposeStepView {
        match self {
            NativeDisposeStep::RestoreDefault => NativeDisposeStepView::RestoreDefault,
            NativeDisposeStep::ClearRoutes { errors } => NativeDisposeStepView::ClearRoutes {
                errors: texts(errors@),
            },
            NativeDisposeStep::UnlinkMic { handles, errors } => NativeDisposeStepView::UnlinkMic {
                handles: handles@,
                errors: texts(errors@),
            },
            NativeDisposeStep::DestroyMic { handle, errors } => NativeDisposeStepView::DestroyMic {
                handle: *handle,
                errors: texts(errors@),
            },
            NativeDisposeStep::DestroySink {
                handle,
                errors,
            } => NativeDisposeStepView::DestroySink { handle: *handle, errors: texts(errors@) },
            NativeDisposeStep::Done(r) => NativeDisposeStepView::Done(crate::error::outcome(*r)),
        }
    }
}

/// The errors so far with one more, if there is one.
pub open spec fn noted(errors: Seq<Seq<char>>, r: Result<(), BackendError>) -> Seq<Seq<char>> {
    match r {
        Ok(_) => errors,
        Err(e) => errors.push(e@.text()),
    }
}

/// The errors so far with all errors of `outcomes`.
pub open spec fn all_noted(
    errors: Seq<Seq<char>>,
    outcomes: Seq<Result<(), BackendError>>,
) -> Seq<Seq<char>>
    decreases outcomes.len(),
{
    if outcomes.len() == 0 {
        errors
    } else {
        noted(all_noted(errors, outcomes.drop_last()), outcomes.last())
    }
}

fn note(errors: &mut Vec<String>, r: &Result<(), BackendError>)
    ensures
        texts(final(errors)@) == noted(texts(old(errors)@), *r),
{
    let ghost before = texts(errors@);
    match r {
        Ok(_) => {},
        Err(err) => {
            errors.push(err.to_text());
            assert(texts(errors@) =~= before.push(err@.text()));
        },
    }
}

fn note_all(errors: &mut Vec<String>, outcomes: &Vec<Result<(), BackendError>>)
    ensures
        texts(final(errors)@) == all_noted(texts(old(errors)@), outcomes@),
{
    let ghost before = texts(errors@);
    let mut i: usize = 0;
    while i < outcomes.len()
        invariant
            i <= outcomes@.len(),
            texts(errors@) == all_noted(before, outcomes@.take(i as int)),
        decreases outcomes@.len() - i,
    {
        assert(outcomes@.take(i + 1).drop_last() =~= outcomes@.take(i as int));
        note(errors, &outcomes[i]);
        i = i + 1;
    }
    assert(outcomes@.take(outcomes@.len() as int) =~= outcomes@);
}

/// What follows once the links of the microphone are gone.
pub open spec fn after_mic_links(s: NativeView, errors: Seq<Seq<char>>) -> (
    NativeView,
    NativeDisposeStepView,
) {
    match s.session.mic_handle {
        Some(handle) => (
            NativeView { session: SessionView { mic_handle: None, ..s.session }, ..s },
            NativeDisposeStepView::DestroyMic { handle, errors },
        ),
        None => after_mic(s, errors),
    }
}

/// What follows once the microphone is gone.
pub open spec fn after_mic(s: NativeView, errors: Seq<Seq<char>>) -> (
    NativeView,
    NativeDisposeStepView,
) {
    match s.session.sink_handle {
        Some(handle) => (
            NativeView { session: SessionView { sink_handle: None, ..s.session }, ..s },
            NativeDisposeStepView::DestroySink { handle, errors },
        ),
        None => (s, NativeDisposeStepView::Done(disposed(errors))),
    }
}

/// How the taking down goes on. The default sink is restored first, so that it
/// never points at a sink that is gone; every part is tried, whatever came of
/// the ones before it.
pub open spec fn native_dispose_transition(s: NativeView, event: NativeDisposeEvent) -> (
    NativeView,
    NativeDisposeStepView,
) {
    match event {
        NativeDisposeEvent::Asked => (s, NativeDisposeStepView::RestoreDefault),
        NativeDisposeEvent::Restored { restored } => (
            s,
            NativeDisposeStepView::ClearRoutes { errors: noted(Seq::empty(), restored) },
        ),
        NativeDisposeEvent::Cleared { cleared, errors } => (
            NativeView {
                session: SessionView { mic_link_handles: Seq::empty(), ..s.session },
                ..s
            },
            NativeDisposeStepView::UnlinkMic {
                handles: s.session.mic_link_handles,
                errors: noted(texts(errors@), cleared),
            },
        ),
        NativeDisposeEvent::MicUnlinked { outcomes, errors } => after_mic_links(
            s,
            all_noted(texts(errors@), outcomes@),
        ),
        NativeDisposeEvent::MicDestroyed { destroyed, errors } => after_mic(
            s,
            noted(texts(errors@), destroyed),
        ),
        NativeDisposeEvent::SinkDestroyed { destroyed, errors } => (
            s,
            NativeDisposeStepView::Done(disposed(noted(texts(errors@), destroyed))),
        ),
    }
}

/// What happens while the microphone is being muted or unmuted.
pub enum MicMuteEvent {
    Asked,
    /// The graph in which the microphone is looked for by name.
    Sought { graph: Result<GraphSnapshot, BackendError> },
    /// The node has been muted or unmuted.
    Muted { muted: Result<(), BackendError> },
}

pub enum MicMuteStep {
    /// Snapshot the graph to look for the microphone.
    Seek,
    /// Mute or unmute the node.
    Mute { node_id: u32, mute: bool },
    Done(Result<(), BackendError>),
}

pub enum MicMuteStepView {
    Seek,
    Mute { node_id: u32, mute: bool },
    Done(Result<(), BackendErrorView>),
}

impl View for MicMuteStep {
    type V = MicMuteStepView;

    open spec fn view(&self) -> MicMuteStepView {
        match self {
            MicMuteStep::Seek => MicMuteStepView::Seek,
            MicMuteStep::Mute { node_id, mute } => MicMuteStepView::Mute {
                node_id: *node_id,
                mute: *mute,
            },
            MicMuteStep::Done(r) => MicMuteStepView::Done(crate::error::outcome(*r)),
        }
    }
}

pub open spec fn mic_mute_transition(s: NativeView, mute: bool, event: MicMuteEvent)
    -> MicMuteStepView {
    let inactive = MicMuteStepView::Done(
        Err(BackendErrorView::Message("virtual mic is not active"@)),
    );
    match event {
        MicMuteEvent::Asked => match s.session.mic_name {
            Some(_) => MicMuteStepView::Seek,
            None => inactive,
        },
        MicMuteEvent::Sought { graph } => match graph {
            Ok(g) => match s.session.mic_name {
                Some(name) => match node_id_named(g.nodes.entries(), name) {
                    Some(node_id) => MicMuteStepView::Mute { node_id, mute },
                    None => inactive,
                },
                None => inactive,
            },
            Err(e) => MicMuteStepView::Done(Err(e@)),
        },
        MicMuteEvent::Muted { muted } => MicMuteStepView::Done(crate::error::outcome(muted)),
    }
}

/// What happens while the sink is being made the default.
pub enum DefaultEvent {
    Asked,
    /// The graph, which tells the present default.
    Looked { graph: Result<GraphSnapshot, BackendError> },
    /// The default has been written.
    Written { written: Result<(), BackendError> },
}

pub enum DefaultStep {
    /// Snapshot the graph.
    Look,
    /// Make this sink the default.
    Write { sink_name: String },
    Done(Result<(), BackendError>),
}

pub enum DefaultStepView {
    Look,
    Write { sink_name: Seq<char> },
    Done(Result<(), BackendErrorView>),
}

impl View for DefaultStep {
    type V = DefaultStepView;

    open spec fn view(&self) -> DefaultStepView {
        match self {
            DefaultStep::Look => DefaultStepView::Look,
            DefaultStep::Write { sink_name } => DefaultStepView::Write { sink_name: sink_name@ },
            DefaultStep::Done(r) => DefaultStepView::Done(crate::error::outcome(*r)),
        }
    }
}

/// How the sink becomes the default. The default before the first time is
/// remembered.
pub open spec fn set_default_transition(s: NativeView, event: DefaultEvent) -> (
    NativeView,
    DefaultStepView,
) {
    match event {
        DefaultEvent::Asked => (s, DefaultStepView::Look),
        DefaultEvent::Looked { graph } => match graph {
            Ok(g) => (
                NativeView {
                    session: SessionView {
                        prior_default_sink: match s.session.prior_default_sink {
                            Some(name) => Some(name),
                            None => opt_text(g.default_sink_name),
                        },
                        ..s.session
                    },
                    ..s
                },
                DefaultStepView::Write { sink_name: s.session.sink_name },
            ),
            Err(e) => (s, DefaultStepView::Done(Err(e@))),
        },
        DefaultEvent::Written { written } => (
            s,
            DefaultStepView::Done(crate::error::outcome(written)),
        ),
    }
}

/// What happens while the default is being restored.
pub enum RestoreEvent {
    Asked,
    /// The default has been written.
    Written { written: Result<(), BackendError> },
}

/// How the default is restored, if one is remembered. It is forgotten thereby.
pub open spec fn restore_transition(s: NativeView, event: RestoreEvent) -> (
    NativeView,
    DefaultStepView,
) {
    match event {
        RestoreEvent::Asked => match s.session.prior_default_sink {
            Some(sink_name) => (
                NativeView { session: SessionView { prior_default_sink: None, ..s.session }, ..s },
                DefaultStepView::Write { sink_name },
            ),
            None => (s, DefaultStepView::Done(Ok(()))),
        },
        RestoreEvent::Written { written } => (
            s,
            DefaultStepView::Done(crate::error::outcome(written)),
        ),
    }
}

impl PatchbayStateNative {
    /// A fresh session of process `pid`, under the next number.
    pub fn spawn(config: &PatchbayConfig, pid: u32, numbers: &mut SessionCounter) -> (r: Self)
        ensures
            r@ == (NativeView {
                config: config@,
                session: fresh_session(config@, pid, old(numbers).next),
            }),
            final(numbers).next == number_after(old(numbers).next),
    {
        let unique = numbers.take();
        let wanted = config.virtual_mic || config.virtual_mic_name.is_some();
        let mic_name = if wanted {
            Some(config.mic_base_name())
        } else {
            None
        };
        let mic_description = if wanted {
            Some(config.mic_description_text())
        } else {
            None
        };
        let session = NativeSession {
            sink_handle: None,
            sink_name: make_unique_name(config.sink_prefix.as_str(), pid, unique),
            sink_description: config.sink_description.clone(),
            mic_handle: None,
            mic_name,
            mic_description,
            route_link_handles: Vec::new(),
            mic_link_handles: Vec::new(),
            prior_default_sink: None,
        };
        PatchbayStateNative { config: config.clone(), session }
    }

    /// Whether `node` is an object of this session.
    pub fn is_our_virtual_audio_object(&self, node: &NodeRecord) -> (r: bool)
        ensures
            r == (self@.session.own())(*node),
    {
        is_ours(
            NameScope::NodeName,
            node,
            self.session.sink_name.as_str(),
            &self.session.mic_name,
        )
    }

    /// The nodes that a user is offered.
    pub fn list_shareable_nodes(
        &self,
        include_devices: bool,
        graph: Result<GraphSnapshot, BackendError>,
    ) -> (r: Result<Vec<ShareableNode>, BackendError>)
        ensures
            match graph {
                Ok(g) => r matches Ok(list) && is_listing(
                    shareable_views(list@),
                    g.nodes.entries(),
                    self@.session.own(),
                    include_devices,
                ),
                Err(e) => r == Err::<Vec<ShareableNode>, BackendError>(e),
            },
    {
        match graph {
            Ok(g) => Ok(
                list_nodes(
                    &g.nodes,
                    NameScope::NodeName,
                    self.session.sink_name.as_str(),
                    &self.session.mic_name,
                    include_devices,
                ),
            ),
            Err(err) => Err(err),
        }
    }

    /// The hint that the graph gives of a window share in progress.
    pub fn find_screencast_hint(&self, graph: Result<GraphSnapshot, BackendError>) -> (r: Result<
        Option<ScreencastHint>,
        BackendError,
    >)
        ensures
            match graph {
                Ok(g) => match r {
                    Ok(Some(h)) => first_hint(g.nodes.entries()) == Some(
                        (h.desktop_file_id@, h.hint@),
                    ),
                    Ok(None) => first_hint(g.nodes.entries()) is None,
                    Err(_) => false,
                },
                Err(e) => r == Err::<Option<ScreencastHint>, BackendError>(e),
            },
    {
        match graph {
            Ok(g) => Ok(find_screencast_hint(&g.nodes)),
            Err(err) => Err(err),
        }
    }

    /// The node `sink_id` as the sink of this session.
    pub fn virtual_sink_info(&self, graph: &GraphSnapshot, sink_id: u32) -> (r: Option<
        VirtualSinkInfo,
    >)
        ensures
            opt_info(r) == info_at(self@.session, *graph, sink_id),
    {
        match graph.nodes.get(sink_id) {
            Some(node) => {
                let inputs = node.usable_inputs();
                if inputs.len() < STEREO {
                    None
                } else {
                    Some(
                        VirtualSinkInfo {
                            sink_name: self.session.sink_name.clone(),
                            monitor_source: monitor_source(self.session.sink_name.as_str()),
                            node_id: sink_id,
                            virtual_mic_name: copy_opt(&self.session.mic_name),
                            virtual_mic_description: copy_opt(&self.session.mic_description),
                        },
                    )
                }
            },
            None => None,
        }
    }

    fn go_without_sink(&self, stage: SinkStage) -> (step: EnsureStep)
        ensures
            step@ == without_sink(self@, stage),
    {
        match stage {
            SinkStage::First => EnsureStep::CreateSink {
                name: self.session.sink_name.clone(),
                description: self.session.sink_description.clone(),
                media_class: if self.config.sink_becomes_default {
                    "Audio/Sink"
                } else {
                    "Audio/Sink/Virtual"
                },
            },
            SinkStage::Last => EnsureStep::Done(
                Err(BackendError::message("virtual sink not found after creation")),
            ),
        }
    }

    /// Makes the sink and, where one is wanted, the microphone.
    pub fn ensure_virtual_sink(&mut self, event: EnsureEvent) -> (step: EnsureStep)
        ensures
            (final(self)@, step@) == ensure_transition(old(self)@, event),
    {
        match event {
            EnsureEvent::Asked => EnsureStep::Seek { stage: SinkStage::First },
            EnsureEvent::Sought { graph, stage } => match graph {
                Ok(g) => match find_node_id_by_name(&g, self.session.sink_name.as_str()) {
                    Some(sink_id) => EnsureStep::Inspect { sink_id, stage },
                    None => self.go_without_sink(stage),
                },
                Err(err) => EnsureStep::Done(Err(err)),
            },
            EnsureEvent::Inspected { graph, sink_id, stage } => match graph {
                Ok(g) => match self.virtual_sink_info(&g, sink_id) {
                    Some(info) => match stage {
                        SinkStage::First => EnsureStep::EnsureMic { info: Some(info) },
                        SinkStage::Last => EnsureStep::Done(Ok(info)),
                    },
                    None => self.go_without_sink(stage),
                },
                Err(err) => EnsureStep::Done(Err(err)),
            },
            EnsureEvent::SinkCreated { created } => match created {
                Ok(handle) => {
                    self.session.sink_handle = Some(handle);
                    EnsureStep::EnsureMic { info: None }
                },
                Err(err) => EnsureStep::Done(Err(err)),
            },
            EnsureEvent::MicEnsured { ensured, info } => match ensured {
                Ok(_) => match info {
                    Some(info) => EnsureStep::Done(Ok(info)),
                    None => EnsureStep::WaitSink {
                        name: self.session.sink_name.clone(),
                        min_inputs: STEREO,
                    },
                },
                Err(err) => EnsureStep::Done(Err(err)),
            },
            EnsureEvent::SinkReady { ready } => match ready {
                Ok(_) => {
                    if self.config.sink_becomes_default {
                        EnsureStep::SetDefault
                    } else {
                        EnsureStep::Seek { stage: SinkStage::Last }
                    }
                },
                Err(err) => EnsureStep::Done(Err(err)),
            },
            EnsureEvent::DefaultSet { set } => match set {
                Ok(_) => EnsureStep::Seek { stage: SinkStage::Last },
                Err(err) => EnsureStep::Done(Err(err)),
            },
        }
    }

    /// Makes the microphone, where one is wanted and none was made.
    pub fn ensure_virtual_mic(&mut self, event: MicEvent) -> (step: MicStep)
        ensures
            (final(self)@, step@) == mic_transition(old(self)@, event),
    {
        match event {
            MicEvent::Asked => {
                if self.session.mic_handle.is_some() {
                    return MicStep::Done(Ok(()));
                }
                match (&self.session.mic_name, &self.session.mic_description) {
                    (Some(name), Some(description)) => MicStep::CreateMic {
                        name: name.clone(),
                        description: description.clone(),
                        media_class: "Audio/Source/Virtual",
                    },
                    _ => MicStep::Done(Ok(())),
                }
            },
            MicEvent::MicCreated { created } => match created {
                Ok(handle) => {
                    self.session.mic_handle = Some(handle);
                    MicStep::LinkMonitor
                },
                Err(err) => MicStep::Done(Err(err)),
            },
            MicEvent::MonitorLinked { linked } => MicStep::Done(linked),
        }
    }

    /// Links the monitor of the sink to the microphone, without which it would
    /// hear nothing.
    pub fn link_monitor_to_mic(&mut self, event: MonitorEvent) -> (step: MonitorStep)
        ensures
            (final(self)@, step@) == monitor_transition(old(self)@, event),
    {
        match event {
            MonitorEvent::Asked => match &self.session.mic_name {
                Some(name) => MonitorStep::WaitMic { name: name.clone(), min_inputs: STEREO },
                None => MonitorStep::Done(Ok(())),
            },
            MonitorEvent::MicReady { ready } => match ready {
                Ok(mic_id) => MonitorStep::WaitSink {
                    mic_id,
                    name: self.session.sink_name.clone(),
                    min_inputs: STEREO,
                },
                Err(err) => MonitorStep::Done(Err(err)),
            },
            MonitorEvent::SinkReady { mic_id, ready, now } => match ready {
                Ok(sink_id) => MonitorStep::Look {
                    sink_id,
                    mic_id,
                    pause_ms: 0,
                    deadline: moment_after(now, NODE_TIMEOUT),
                },
                Err(err) => MonitorStep::Done(Err(err)),
            },
            MonitorEvent::Looked { graph, sink_id, mic_id, now, deadline } => {
                let g = match graph {
                    Ok(g) => g,
                    Err(err) => {
                        return MonitorStep::Done(Err(err));
                    },
                };
                match (g.nodes.get(sink_id), g.nodes.get(mic_id)) {
                    (Some(sink), Some(mic)) => {
                        let outputs = sink.usable_outputs();
                        let inputs = mic.usable_inputs();
                        if outputs.len() > 0 && inputs.len() > 0 {
                            let pairs = map_ports(&outputs, &inputs);
                            let mut links: Vec<LinkRecord> = Vec::new();
                            push_links(&mut links, sink.id, mic_id, &pairs);
                            assert(links@ =~= links_of(sink.id, mic_id, pairs@));
                            return make_next(links);
                        }
                    },
                    _ => {},
                }
                if now >= deadline {
                    MonitorStep::Done(
                        Err(BackendError::message("timed out linking sink monitor to virtual mic")),
                    )
                } else {
                    MonitorStep::Look { sink_id, mic_id, pause_ms: NODE_POLL_DELAY, deadline }
                }
            },
            MonitorEvent::Linked { created, rest } => match created {
                Ok(handle) => {
                    self.session.mic_link_handles.push(handle);
                    make_next(rest)
                },
                Err(err) => MonitorStep::Done(Err(err)),
            },
        }
    }

    /// The links that the choice `node_ids` asks for.
    fn plan_links(
        &self,
        graph: &GraphSnapshot,
        filter: RouteFilter,
        sink_id: u32,
        node_ids: Vec<u32>,
    ) -> (r: Result<Vec<LinkRecord>, BackendError>)
        ensures
            match r {
                Ok(links) => planned_links(self@.session, *graph, filter, sink_id, node_ids@)
                    == Ok::<Seq<LinkRecord>, BackendErrorView>(links@),
                Err(e) => planned_links(self@.session, *graph, filter, sink_id, node_ids@) == Err::<
                    Seq<LinkRecord>,
                    BackendErrorView,
                >(e@),
            },
    {
        let inputs = match graph.nodes.get(sink_id) {
            Some(node) => node.usable_inputs(),
            None => Vec::new(),
        };
        assert(inputs@ =~= inputs_at(*graph, sink_id));
        if inputs.len() < STEREO {
            return Err(
                BackendError::message("virtual sink has no usable stereo input ports"),
            );
        }
        let default_sink = if filter.only_default_speakers {
            resolve_default_sink_id(graph)
        } else {
            None
        };
        let ghost s = self@.session;
        let ids = dedupe_node_ids(node_ids);
        let mut links: Vec<LinkRecord> = Vec::new();
        let mut i: usize = 0;
        while i < ids.len()
            invariant
                i <= ids@.len(),
                s == self@.session,
                inputs@ == inputs_at(*graph, sink_id),
                default_sink == (if filter.only_default_speakers {
                    default_sink_id(*graph)
                } else {
                    None
                }),
                links@ == route_links(s, *graph, filter, sink_id, inputs@, ids@.take(i as int)),
            decreases ids@.len() - i,
        {
            let id: u32 = ids[i];
            let ghost before = links@;
            assert(ids@.take(i + 1).drop_last() =~= ids@.take(i as int));
            if id != sink_id {
                match graph.nodes.get(id) {
                    Some(node) => {
                        if !self.is_our_virtual_audio_object(node) && should_link(
                            graph,
                            node,
                            &filter,
                            default_sink,
                        ) {
                            let outputs = node.usable_outputs();
                            let pairs = map_ports(&outputs, &inputs);
                            push_links(&mut links, id, sink_id, &pairs);
                        }
                    },
                    None => {},
                }
            }
            assert(links@ =~= before + links_from(s, *graph, filter, sink_id, inputs@, id));
            i = i + 1;
        }
        assert(ids@.take(ids@.len() as int) =~= ids@);
        if links.len() == 0 {
            return Err(BackendError::message("none of the selected nodes could be linked"));
        }
        Ok(links)
    }

    /// Routes the given nodes, and no others, into the sink.
    pub fn route_nodes(&mut self, event: NativeRouteEvent) -> (step: NativeRouteStep)
        ensures
            (final(self)@, step@) == native_route_transition(old(self)@, event),
    {
        match event {
            NativeRouteEvent::Asked { node_ids, filter } => {
                if node_ids.len() == 0 {
                    NativeRouteStep::ClearRoutes
                } else {
                    NativeRouteStep::EnsureSink { node_ids, filter }
                }
            },
            NativeRouteEvent::Cleared { cleared } => match cleared {
                Ok(_) => {
                    let node_ids: Vec<u32> = Vec::new();
                    assert(node_ids@ =~= Seq::<u32>::empty());
                    NativeRouteStep::EnsureSink { node_ids, filter: RouteFilter::default() }
                },
                Err(err) => NativeRouteStep::Done(Err(err)),
            },
            NativeRouteEvent::SinkEnsured { node_ids, filter, ensured } => match ensured {
                Ok(info) => {
                    if node_ids.len() == 0 {
                        NativeRouteStep::Done(Ok(info))
                    } else {
                        NativeRouteStep::Seek { node_ids, filter, info }
                    }
                },
                Err(err) => NativeRouteStep::Done(Err(err)),
            },
            NativeRouteEvent::Sought { node_ids, filter, info, graph } => match graph {
                Ok(g) => match find_node_id_by_name(&g, self.session.sink_name.as_str()) {
                    Some(sink_id) => NativeRouteStep::Look { node_ids, filter, info, sink_id },
                    None => NativeRouteStep::Done(
                        Err(BackendError::message("virtual sink missing after ensure")),
                    ),
                },
                Err(err) => NativeRouteStep::Done(Err(err)),
            },
            NativeRouteEvent::Looked { node_ids, filter, info, sink_id, graph } => match graph {
                Ok(g) => match self.plan_links(&g, filter, sink_id, node_ids) {
                    Ok(links) => NativeRouteStep::Link { links, info },
                    Err(err) => NativeRouteStep::Done(Err(err)),
                },
                Err(err) => NativeRouteStep::Done(Err(err)),
            },
            NativeRouteEvent::Linked { info, outcomes } => {
                let mut handles = collect_handles(&outcomes);
                if handles.len() == 0 {
                    NativeRouteStep::Done(
                        Err(BackendError::message("none of the selected nodes could be linked")),
                    )
                } else {
                    std::mem::swap(&mut handles, &mut self.session.route_link_handles);
                    NativeRouteStep::Unlink { handles, info }
                }
            },
            NativeRouteEvent::Unlinked { info } => NativeRouteStep::Done(Ok(info)),
        }
    }

    /// Removes all routes.
    pub fn clear_routes(&mut self, event: NativeClearEvent) -> (step: NativeClearStep)
        ensures
            (final(self)@, step@) == native_clear_transition(old(self)@, event),
    {
        match event {
            NativeClearEvent::Asked => {
                let mut handles: Vec<u32> = Vec::new();
                assert(handles@ =~= Seq::<u32>::empty());
                std::mem::swap(&mut handles, &mut self.session.route_link_handles);
                NativeClearStep::Unlink { handles }
            },
            NativeClearEvent::Unlinked { outcomes } => {
                let n = count_errors(&outcomes);
                if n == 0 {
                    NativeClearStep::Done(Ok(()))
                } else {
                    let mut message = owned("failed to remove ");
                    push_decimal(&mut message, n as u64);
                    push_text(&mut message, " route(s)");
                    NativeClearStep::Done(Err(BackendError::Message(message)))
                }
            },
        }
    }

    fn go_on_to_sink(&mut self, errors: Vec<String>) -> (step: NativeDisposeStep)
        ensures
            (final(self)@, step@) == after_mic(old(self)@, texts(errors@)),
    {
        match self.session.sink_handle {
            Some(handle) => {
                self.session.sink_handle = None;
                NativeDisposeStep::DestroySink { handle, errors }
            },
            None => NativeDisposeStep::Done(finish(errors)),
        }
    }

    /// Takes the session down.
    pub fn dispose(&mut self, event: NativeDisposeEvent) -> (step: NativeDisposeStep)
        ensures
            (final(self)@, step@) == native_dispose_transition(old(self)@, event),
    {
        match event {
            NativeDisposeEvent::Asked => NativeDisposeStep::RestoreDefault,
            NativeDisposeEvent::Restored { restored } => {
                let mut errors: Vec<String> = Vec::new();
                assert(texts(errors@) =~= Seq::<Seq<char>>::empty());
                note(&mut errors, &restored);
                NativeDisposeStep::ClearRoutes { errors }
            },
            NativeDisposeEvent::Cleared { cleared, errors } => {
                let mut errors = errors;
                note(&mut errors, &cleared);
                let mut handles: Vec<u32> = Vec::new();
                assert(handles@ =~= Seq::<u32>::empty());
                std::mem::swap(&mut handles, &mut self.session.mic_link_handles);
                NativeDisposeStep::UnlinkMic { handles, errors }
            },
            NativeDisposeEvent::MicUnlinked { outcomes, errors } => {
                let mut errors = errors;
                note_all(&mut errors, &outcomes);
                match self.session.mic_handle {
                    Some(handle) => {
                        self.session.mic_handle = None;
                        NativeDisposeStep::DestroyMic { handle, errors }
                    },
                    None => self.go_on_to_sink(errors),
                }
            },
            NativeDisposeEvent::MicDestroyed { destroyed, errors } => {
                let mut errors = errors;
                note(&mut errors, &destroyed);
                self.go_on_to_sink(errors)
            },
            NativeDisposeEvent::SinkDestroyed { destroyed, errors } => {
                let mut errors = errors;
                note(&mut errors, &destroyed);
                NativeDisposeStep::Done(finish(errors))
            },
        }
    }

    /// Mutes or unmutes the microphone.
    pub fn set_virtual_mic_mute(&self, mute: bool, event: MicMuteEvent) -> (step: MicMuteStep)
        ensures
            step@ == mic_mute_transition(self@, mute, event),
    {
        match event {
            MicMuteEvent::Asked => match &self.session.mic_name {
                Some(_) => MicMuteStep::Seek,
                None => MicMuteStep::Done(Err(BackendError::message("virtual mic is not active"))),
            },
            MicMuteEvent::Sought { graph } => {
                let g = match graph {
                    Ok(g) => g,
                    Err(err) => {
                        return MicMuteStep::Done(Err(err));
                    },
                };
                let found = match &self.session.mic_name {
                    Some(name) => find_node_id_by_name(&g, name.as_str()),
                    None => None,
                };
                match found {
                    Some(node_id) => MicMuteStep::Mute { node_id, mute },
                    None => MicMuteStep::Done(
                        Err(BackendError::message("virtual mic is not active")),
                    ),
                }
            },
            MicMuteEvent::Muted { muted } => MicMuteStep::Done(muted),
        }
    }

    /// Makes the sink the default and remembers the default before it.
    pub fn set_default_sink_to_virtual(&mut self, event: DefaultEvent) -> (step: DefaultStep)
        ensures
            (final(self)@, step@) == set_default_transition(old(self)@, event),
    {
        match event {
            DefaultEvent::Asked => DefaultStep::Look,
            DefaultEvent::Looked { graph } => match graph {
                Ok(g) => {
                    if self.session.prior_default_sink.is_none() {
                        self.session.prior_default_sink = copy_opt(&g.default_sink_name);
                    }
                    DefaultStep::Write { sink_name: self.session.sink_name.clone() }
                },
                Err(err) => DefaultStep::Done(Err(err)),
            },
            DefaultEvent::Written { written } => DefaultStep::Done(written),
        }
    }

    /// Restores the default that was overridden, if one was.
    pub fn restore_default_sink(&mut self, event: RestoreEvent) -> (step: DefaultStep)
        ensures
            (final(self)@, step@) == restore_transition(old(self)@, event),
    {
        match event {
            RestoreEvent::Asked => {
                let prior = copy_opt(&self.session.prior_default_sink);
                match prior {
                    Some(sink_name) => {
                        self.session.prior_default_sink = None;
                        DefaultStep::Write { sink_name }
                    },
                    None => DefaultStep::Done(Ok(())),
                }
            },
            RestoreEvent::Written { written } => DefaultStep::Done(written),
        }
    }
}

/// Routing and clearing touch the routes alone: the microphone with its links,
/// the sink and the remembered default stay as they are.
pub proof fn routing_touches_the_routes_alone(
    s: NativeView,
    route: NativeRouteEvent,
    clear: NativeClearEvent,
)
    ensures
        native_route_transition(s, route).0 == (NativeView {
            session: SessionView {
                route_link_handles: native_route_transition(
                    s,
                    route,
                ).0.session.route_link_handles,
                ..s.session
            },
            ..s
        }),
        native_clear_transition(s, clear).0 == (NativeView {
            session: SessionView {
                route_link_handles: native_clear_transition(
                    s,
                    clear,
                ).0.session.route_link_handles,
                ..s.session
            },
            ..s
        }),
{
}

/// The step at which a routing fails changes nothing of the session.
pub proof fn failed_routing_changes_nothing(s: NativeView, event: NativeRouteEvent)
    requires
        native_route_transition(s, event).1 matches NativeRouteStepView::Done(Err(_)),
    ensures
        native_route_transition(s, event).0 == s,
{
}

/// Clearing undoes routing: the links that a routing made are the ones that are
/// destroyed, and nothing else has changed.
pub proof fn clearing_undoes_routing(
    s: NativeView,
    info: VirtualSinkInfo,
    outcomes: Vec<Result<u32, BackendError>>,
)
    requires
        handles_made(outcomes@).len() > 0,
    ensures
        ({
            let routed = native_route_transition(
                s,
                NativeRouteEvent::Linked { info, outcomes },
            ).0;
            let (cleared, step) = native_clear_transition(routed, NativeClearEvent::Asked);
            &&& step == (NativeClearStepView::Unlink { handles: handles_made(outcomes@) })
            &&& cleared == (NativeView {
                session: SessionView { route_link_handles: Seq::empty(), ..s.session },
                ..s
            })
        }),
{
}

/// Restoring undoes overriding: the default that was there before is written
/// back and the session is as it was, even where the default was overridden again
/// in between.
pub proof fn restoring_undoes_overriding(
    s: NativeView,
    first: GraphSnapshot,
    again: GraphSnapshot,
)
    requires
        s.session.prior_default_sink is None,
        first.default_sink_name is Some,
    ensures
        ({
            let once = set_default_transition(s, DefaultEvent::Looked { graph: Ok(first) }).0;
            let twice = set_default_transition(once, DefaultEvent::Looked { graph: Ok(again) }).0;
            let (restored, step) = restore_transition(twice, RestoreEvent::Asked);
            &&& twice == once
            &&& restored == s
            &&& step == (DefaultStepView::Write { sink_name: first.default_sink_name->0@ })
        }),
{
}

/// Where no default was overridden there is nothing to restore.
pub proof fn nothing_to_restore(s: NativeView)
    requires
        s.session.prior_default_sink is None,
    ensures
        restore_transition(s, RestoreEvent::Asked) == (s, DefaultStepView::Done(Ok(()))),
{
}

/// Without a filter every node passes.
pub proof fn no_filter_lets_everything_pass(
    graph: GraphSnapshot,
    node: NodeRecord,
    default_sink: Option<u32>,
)
    ensures
        passes(graph, node, no_filter(), default_sink),
{
}

/// A planned link leads an output of a chosen node, which is neither the sink
/// nor an object of ours and passes the filter, into an input of the sink.
pub proof fn planned_links_lead_chosen_nodes_into_the_sink(
    s: SessionView,
    graph: GraphSnapshot,
    filter: RouteFilter,
    sink_id: u32,
    ids: Seq<u32>,
    k: int,
)
    requires
        planned_links(s, graph, filter, sink_id, ids) matches Ok(links) && 0 <= k < links.len(),
    ensures
        ({
            let link = planned_links(s, graph, filter, sink_id, ids)->Ok_0[k];
            &&& ids.contains(link.output_node)
            &&& chosen(s, graph, filter, sink_id, link.output_node)
            &&& link.input_node == sink_id
            &&& exists|p: PortRecord| #[trigger]
                graph.nodes@[link.output_node].outputs().contains(p) && p.id == link.output_port
            &&& exists|p: PortRecord| #[trigger]
                graph.nodes@[sink_id].inputs().contains(p) && p.id == link.input_port
        }),
{
    let inputs = inputs_at(graph, sink_id);
    lemma_route_links(s, graph, filter, sink_id, inputs, distinct(ids), k);
    crate::routing::distinct_keeps_each_id_once(ids);
    let link = route_links(s, graph, filter, sink_id, inputs, distinct(ids))[k];
    assert(distinct(ids).contains(link.output_node));
}

proof fn lemma_route_links(
    s: SessionView,
    graph: GraphSnapshot,
    filter: RouteFilter,
    sink_id: u32,
    inputs: Seq<PortRecord>,
    ids: Seq<u32>,
    k: int,
)
    requires
        0 <= k < route_links(s, graph, filter, sink_id, inputs, ids).len(),
    ensures
        ({
            let link = route_links(s, graph, filter, sink_id, inputs, ids)[k];
            &&& ids.contains(link.output_node)
            &&& chosen(s, graph, filter, sink_id, link.output_node)
            &&& link.input_node == sink_id
            &&& exists|p: PortRecord| #[trigger]
                graph.nodes@[link.output_node].outputs().contains(p) && p.id == link.output_port
            &&& exists|p: PortRecord| #[trigger] inputs.contains(p) && p.id == link.input_port
        }),
    decreases ids.len(),
{
    let head = route_links(s, graph, filter, sink_id, inputs, ids.drop_last());
    if k < head.len() {
        lemma_route_links(s, graph, filter, sink_id, inputs, ids.drop_last(), k);
        let link = head[k];
        assert(route_links(s, graph, filter, sink_id, inputs, ids)[k] == link);
        let j = ids.drop_last().index_of(link.output_node);
        assert(ids[j] == link.output_node);
    } else {
        let id = ids.last();
        let j = k - head.len();
        assert(ids[ids.len() - 1] == id);
        assert(chosen(s, graph, filter, sink_id, id));
        let outputs = graph.nodes@[id].outputs();
        let pairs = mapping(outputs, inputs);
        let link = route_links(s, graph, filter, sink_id, inputs, ids)[k];
        assert(link == links_of(id, sink_id, pairs)[j]);
        crate::routing::mapping_joins_given_ports(outputs, inputs, j);
        assert(outputs.contains(pairs[j].0) && pairs[j].0.id == link.output_port);
        assert(inputs.contains(pairs[j].1) && pairs[j].1.id == link.input_port);
    }
}

/// One of the links leads from this port of this node to the sink.
pub open spec fn links_port(links: Seq<LinkRecord>, node: u32, port: u32, sink_id: u32) -> bool {
    exists|k: int|
        0 <= k < links.len() && (#[trigger] links[k]).output_node == node && links[k].output_port
            == port && links[k].input_node == sink_id
}

/// Every linkable output of every chosen node gets a link into the sink, where the
/// sink is ready.
pub proof fn every_chosen_output_is_linked(
    s: SessionView,
    graph: GraphSnapshot,
    filter: RouteFilter,
    sink_id: u32,
    ids: Seq<u32>,
    id: u32,
    i: int,
)
    requires
        ids.contains(id),
        chosen(s, graph, filter, sink_id, id),
        0 <= i < graph.nodes@[id].outputs().len(),
        inputs_at(graph, sink_id).len() >= STEREO,
    ensures
        planned_links(s, graph, filter, sink_id, ids) matches Ok(links) && links_port(
            links,
            id,
            graph.nodes@[id].outputs()[i].id,
            sink_id,
        ),
{
    let inputs = inputs_at(graph, sink_id);
    crate::routing::distinct_keeps_each_id_once(ids);
    assert(distinct(ids).contains(id));
    lemma_route_links_cover(s, graph, filter, sink_id, inputs, distinct(ids), id, i);
    let links = route_links(s, graph, filter, sink_id, inputs, distinct(ids));
    assert(links.len() > 0);
}

proof fn lemma_route_links_cover(
    s: SessionView,
    graph: GraphSnapshot,
    filter: RouteFilter,
    sink_id: u32,
    inputs: Seq<PortRecord>,
    ids: Seq<u32>,
    id: u32,
    i: int,
)
    requires
        ids.contains(id),
        chosen(s, graph, filter, sink_id, id),
        0 <= i < graph.nodes@[id].outputs().len(),
        inputs.len() > 0,
    ensures
        links_port(
            route_links(s, graph, filter, sink_id, inputs, ids),
            id,
            graph.nodes@[id].outputs()[i].id,
            sink_id,
        ),
    decreases ids.len(),
{
    let outputs = graph.nodes@[id].outputs();
    let links = route_links(s, graph, filter, sink_id, inputs, ids);
    let head = route_links(s, graph, filter, sink_id, inputs, ids.drop_last());
    if ids.last() == id {
        let pairs = mapping(outputs, inputs);
        crate::routing::mapping_links_every_output(outputs, inputs, i);
        let k = choose|k: int| 0 <= k < pairs.len() && (#[trigger] pairs[k]).0 == outputs[i];
        let link = links_of(id, sink_id, pairs)[k];
        assert(links[head.len() + k] == link);
    } else {
        let j = ids.index_of(id);
        assert(ids.drop_last()[j] == id);
        lemma_route_links_cover(s, graph, filter, sink_id, inputs, ids.drop_last(), id, i);
        let k = choose|k: int|
            0 <= k < head.len() && (#[trigger] head[k]).output_node == id && head[k].output_port
                == outputs[i].id && head[k].input_node == sink_id;
        assert(links[k] == head[k]);
    }
}

/// A microphone that was made is not made again.
pub proof fn microphone_is_made_once(s: NativeView)
    requires
        s.session.mic_handle is Some,
    ensures
        mic_transition(s, MicEvent::Asked) == (s, MicStepView::Done(Ok(()))),
{
}

/// No error on the way is forgotten, a step destroys nothing twice, and a
/// session that has been taken down holds no handle of what it was to destroy.
pub proof fn disposing_forgets_no_error(s: NativeView, event: NativeDisposeEvent)
    ensures
        ({
            let (after, step) = native_dispose_transition(s, event);
            let had = match event {
                NativeDisposeEvent::Asked => Seq::<Seq<char>>::empty(),
                NativeDisposeEvent::Restored { restored } => noted(Seq::empty(), restored),
                NativeDisposeEvent::Cleared { cleared, errors } => noted(texts(errors@), cleared),
                NativeDisposeEvent::MicUnlinked { outcomes, errors } => all_noted(
                    texts(errors@),
                    outcomes@,
                ),
                NativeDisposeEvent::MicDestroyed { destroyed, errors } => noted(
                    texts(errors@),
                    destroyed,
                ),
                NativeDisposeEvent::SinkDestroyed { destroyed, errors } => noted(
                    texts(errors@),
                    destroyed,
                ),
            };
            &&& match step {
                NativeDisposeStepView::RestoreDefault => event is Asked,
                NativeDisposeStepView::ClearRoutes { errors } => errors == had,
                NativeDisposeStepView::UnlinkMic { handles, errors } => errors == had && handles
                    == s.session.mic_link_handles && after.session.mic_link_handles.len() == 0,
                NativeDisposeStepView::DestroyMic { handle, errors } => errors == had
                    && s.session.mic_handle == Some(handle) && after.session.mic_handle is None,
                NativeDisposeStepView::DestroySink { handle, errors } => errors == had
                    && s.session.sink_handle == Some(handle) && after.session.sink_handle is None,
                NativeDisposeStepView::Done(r) => (r is Ok) == (had.len() == 0),
            }
            &&& step is Done && !(event is SinkDestroyed) ==> after.session.sink_handle is None
        }),
{
}

/// A link whose making failed is not among the routes; one that was made is.
pub proof fn routes_are_the_links_that_were_made(
    outcomes: Seq<Result<u32, BackendError>>,
    handle: u32,
)
    ensures
        handles_made(outcomes).contains(handle) == outcomes.contains(
            Ok::<u32, BackendError>(handle),
        ),
    decreases outcomes.len(),
{
    if outcomes.len() > 0 {
        let head = outcomes.drop_last();
        routes_are_the_links_that_were_made(head, handle);
        let made = handles_made(head);
        let wanted = Ok::<u32, BackendError>(handle);
        if handles_made(outcomes).contains(handle) {
            let j = handles_made(outcomes).index_of(handle);
            if j < made.len() {
                assert(made[j] == handle);
                assert(made.contains(handle));
                let k = head.index_of(wanted);
                assert(outcomes[k] == wanted);
            } else {
                assert(outcomes[outcomes.len() - 1] == wanted);
            }
        }
        if outcomes.contains(wanted) {
            let k = outcomes.index_of(wanted);
            if k < head.len() {
                assert(head[k] == wanted);
                assert(made.contains(handle));
                let j = made.index_of(handle);
                assert(handles_made(outcomes)[j] == handle);
            } else {
                assert(handles_made(outcomes)[made.len() as int] == handle);
            }
        }
    }
}

/// Node `i` of a walk is the first whose `node.name` is `name`.
pub open spec fn first_called(nodes: Seq<(u32, NodeRecord)>, name: Seq<char>, i: int) -> bool {
    &&& 0 <= i < nodes.len()
    &&& says(nodes[i].1.props@, "node.name"@, name)
    &&& forall|j: int| 0 <= j < i ==> !says((#[trigger] nodes[j]).1.props@, "node.name"@, name)
}

/// No node of a walk has the `node.name` `name`.
pub open spec fn none_called(nodes: Seq<(u32, NodeRecord)>, name: Seq<char>) -> bool {
    forall|j: int|
        0 <= j < nodes.len() ==> !says((#[trigger] nodes[j]).1.props@, "node.name"@, name)
}

/// A name finds the first node whose `node.name` it is, whatever the other
/// properties of the nodes are, and nothing where there is none.
pub proof fn a_name_finds_the_first_so_called(
    nodes: Seq<(u32, NodeRecord)>,
    name: Seq<char>,
    i: int,
)
    ensures
        first_called(nodes, name, i) ==> node_id_named(nodes, name) == Some(nodes[i].1.id),
        none_called(nodes, name) ==> node_id_named(nodes, name) is None,
{
    let wanted = named(name);
    assert forall|n: NodeRecord| #[trigger] wanted(n) == says(n.props@, "node.name"@, name) by {}
    lemma_first_node(nodes, wanted);
    if first_called(nodes, name, i) {
        assert forall|j: int| 0 <= j < i implies !wanted((#[trigger] nodes[j]).1) by {}
        a_walk_finds_the_first(nodes, wanted, i);
    }
}

/// Whatever is asked for, a step that mutes a node sets the mute that was asked
/// for, and the node is one whose `node.name` is the name of the microphone.
pub proof fn muting_sets_what_was_asked_for(s: NativeView, mute: bool, event: MicMuteEvent)
    ensures
        mic_mute_transition(s, mute, event) matches MicMuteStepView::Mute { node_id, mute: set }
            ==> set == mute && (event matches MicMuteEvent::Sought { graph: Ok(g) }
            && s.session.mic_name matches Some(name) && has_node_called(
            g.nodes.entries(),
            name,
            node_id,
        )),
{
    if let MicMuteEvent::Sought { graph: Ok(g) } = event {
        if let Some(name) = s.session.mic_name {
            let nodes = g.nodes.entries();
            lemma_first_node(nodes, named(name));
            if let Some(n) = first_node(nodes, named(name)) {
                let i = choose|i: int| 0 <= i < nodes.len() && (#[trigger] nodes[i]).1 == n;
                assert(nodes[i].1.id == n.id && says(nodes[i].1.props@, "node.name"@, name));
            }
        }
    }
}

/// Some node of a walk has this id and this `node.name`.
pub open spec fn has_node_called(nodes: Seq<(u32, NodeRecord)>, name: Seq<char>, id: u32) -> bool {
    exists|i: int|
        0 <= i < nodes.len() && (#[trigger] nodes[i]).1.id == id && says(
            nodes[i].1.props@,
            "node.name"@,
            name,
        )
}

/// Where a session has a microphone and the graph shows it, it is muted; where
/// it has none, or the graph does not show it, the answer is that it is not
/// active. What came of the muting, or of looking at the graph, is answered as it
/// is.
pub proof fn the_microphone_is_muted_where_it_is_found(
    s: NativeView,
    mute: bool,
    g: GraphSnapshot,
    i: int,
    e: BackendError,
    muted: Result<(), BackendError>,
)
    ensures
        ({
            let inactive = MicMuteStepView::Done(
                Err(BackendErrorView::Message("virtual mic is not active"@)),
            );
            let asked = mic_mute_transition(s, mute, MicMuteEvent::Asked);
            let sought = mic_mute_transition(s, mute, MicMuteEvent::Sought { graph: Ok(g) });
            &&& s.session.mic_name is None ==> asked == inactive && sought == inactive
            &&& s.session.mic_name matches Some(name) ==> asked is Seek && (first_called(
                g.nodes.entries(),
                name,
                i,
            ) ==> sought == (MicMuteStepView::Mute {
                node_id: g.nodes.entries()[i].1.id,
                mute,
            })) && (none_called(g.nodes.entries(), name) ==> sought == inactive)
        }),
        mic_mute_transition(s, mute, MicMuteEvent::Sought { graph: Err(e) })
            == MicMuteStepView::Done(Err(e@)),
        mic_mute_transition(s, mute, MicMuteEvent::Muted { muted }) == MicMuteStepView::Done(
            crate::error::outcome(muted),
        ),
{
    if let Some(name) = s.session.mic_name {
        a_name_finds_the_first_so_called(g.nodes.entries(), name, i);
    }
}

/// The default sink is the first node that bears the name that the graph has for
/// it.
pub proof fn the_default_sink_is_found_by_its_name(graph: GraphSnapshot, i: int)
    ensures
        graph.default_sink_name is None ==> default_sink_id(graph) is None,
        graph.default_sink_name matches Some(name) ==> (first_called(
            graph.nodes.entries(),
            name@,
            i,
        ) ==> default_sink_id(graph) == Some(graph.nodes.entries()[i].1.id)) && (none_called(
            graph.nodes.entries(),
            name@,
        ) ==> default_sink_id(graph) is None),
{
    if let Some(name) = graph.default_sink_name {
        a_name_finds_the_first_so_called(graph.nodes.entries(), name@, i);
    }
}

/// Some link of the graph leads from one node to the other.
pub open spec fn is_linked_to(graph: GraphSnapshot, from: u32, to: u32) -> bool {
    exists|e: (u32, LinkRecord)| #[trigger]
        graph.links.entries().contains(e) && e.1.output_node == from && e.1.input_node == to
}

/// A filter keeps back what each of its parts says and nothing else: devices,
/// virtual nodes, nodes that take audio in, nodes that no link leads from to a
/// node with a device id, and nodes that no link leads from to the default sink.
pub proof fn filters_keep_back_what_they_name(
    graph: GraphSnapshot,
    node: NodeRecord,
    filter: RouteFilter,
    default_sink: Option<u32>,
)
    ensures
        passes(graph, node, filter, default_sink) == ({
            let p = node.props@;
            &&& filter.ignore_devices ==> !says_something(p, "device.id"@) && forall|
                rest: Seq<char>,
            |
                !says(p, "media.class"@, #[trigger] ("Audio/Sink"@ + rest)) && !says(
                    p,
                    "media.class"@,
                    "Audio/Source"@ + rest,
                )
            &&& filter.ignore_virtual ==> !says(p, "node.virtual"@, "true"@)
            &&& filter.ignore_input_media ==> forall|rest: Seq<char>|
                !says(p, "media.class"@, #[trigger] ("Stream/Input/Audio"@ + rest))
            &&& filter.only_speakers ==> exists|to: u32| #[trigger]
                is_linked_to(graph, node.id, to) && graph.nodes@.contains_key(to)
                    && says_something(graph.nodes@[to].props@, "device.id"@)
            &&& filter.only_default_speakers ==> (default_sink matches Some(to) && is_linked_to(
                graph,
                node.id,
                to,
            ))
        }),
{
    let p = node.props@;
    devices_and_applications_say_so(node);
    let input = "Stream/Input/Audio"@;
    if let Some(c) = node.text("media.class"@) {
        assert(says(p, "media.class"@, c));
        if has_prefix(c, input) {
            parts_are_found_wherever_they_stand(c, input, Seq::empty());
            assert(says(p, "media.class"@, input + c.skip(input.len() as int)));
        }
    }
    assert forall|rest: Seq<char>|
        says(p, "media.class"@, #[trigger] (input + rest)) implies node.text("media.class"@)
        matches Some(c) && has_prefix(c, input) by {
        parts_are_found_wherever_they_stand(Seq::empty(), input, rest);
    }
    let targets = graph.targets(node.id);
    assert forall|to: u32| targets.contains(to) == #[trigger] is_linked_to(graph, node.id, to) by {
        targets_are_the_other_ends(graph, node.id, to);
    }
    if reaches_device(graph, node.id) {
        let k = choose|k: int|
            0 <= k < targets.len() && graph.nodes@.contains_key(#[trigger] targets[k])
                && graph.nodes@[targets[k]].filled("device.id"@);
        assert(targets.contains(targets[k]));
        assert(is_linked_to(graph, node.id, targets[k]));
    }
    if exists|to: u32| #[trigger]
        is_linked_to(graph, node.id, to) && graph.nodes@.contains_key(to) && says_something(
            graph.nodes@[to].props@,
            "device.id"@,
        ) {
        let to = choose|to: u32| #[trigger]
            is_linked_to(graph, node.id, to) && graph.nodes@.contains_key(to) && says_something(
                graph.nodes@[to].props@,
                "device.id"@,
            );
        let k = targets.index_of(to);
        assert(graph.nodes@[targets[k]].filled("device.id"@));
    }
}

/// A chosen node is routed exactly if it is in the graph, is not the sink, bears
/// none of our names and passes the filter.
pub proof fn chosen_nodes_are_routed_unless_ours(
    s: SessionView,
    graph: GraphSnapshot,
    filter: RouteFilter,
    sink_id: u32,
    id: u32,
)
    ensures
        chosen(s, graph, filter, sink_id, id) == (id != sink_id && graph.nodes@.contains_key(id)
            && !says_our_name(graph.nodes@[id].props@, "node.name"@, s.sink_name, s.mic_name)
            && passes(graph, graph.nodes@[id], filter, default_sink_id(graph))),
{
    our_own_are_known_by_name(graph.nodes@[id], s.sink_name, s.mic_name);
}

/// Every pair of ports that the channels of a chosen node and of the sink ask
/// for is linked, and the link leads from the first port to the second.
pub proof fn links_join_the_ports_that_belong_together(
    s: SessionView,
    graph: GraphSnapshot,
    filter: RouteFilter,
    sink_id: u32,
    ids: Seq<u32>,
    id: u32,
    pair: (PortRecord, PortRecord),
)
    requires
        ids.contains(id),
        chosen(s, graph, filter, sink_id, id),
        graph.nodes@.contains_key(sink_id),
        graph.nodes@[sink_id].inputs().len() >= 2,
        mapping(graph.nodes@[id].outputs(), graph.nodes@[sink_id].inputs()).contains(pair),
    ensures
        planned_links(s, graph, filter, sink_id, ids) matches Ok(links) && links.contains(
            LinkRecord {
                output_node: id,
                output_port: pair.0.id,
                input_node: sink_id,
                input_port: pair.1.id,
            },
        ),
{
    let inputs = inputs_at(graph, sink_id);
    crate::routing::distinct_keeps_each_id_once(ids);
    assert(distinct(ids).contains(id));
    lemma_pairs_are_linked(s, graph, filter, sink_id, inputs, distinct(ids), id, pair);
}

proof fn lemma_pairs_are_linked(
    s: SessionView,
    graph: GraphSnapshot,
    filter: RouteFilter,
    sink_id: u32,
    inputs: Seq<PortRecord>,
    ids: Seq<u32>,
    id: u32,
    pair: (PortRecord, PortRecord),
)
    requires
        ids.contains(id),
        chosen(s, graph, filter, sink_id, id),
        mapping(graph.nodes@[id].outputs(), inputs).contains(pair),
    ensures
        route_links(s, graph, filter, sink_id, inputs, ids).contains(
            LinkRecord {
                output_node: id,
                output_port: pair.0.id,
                input_node: sink_id,
                input_port: pair.1.id,
            },
        ),
    decreases ids.len(),
{
    let link = LinkRecord {
        output_node: id,
        output_port: pair.0.id,
        input_node: sink_id,
        input_port: pair.1.id,
    };
    let links = route_links(s, graph, filter, sink_id, inputs, ids);
    let head = route_links(s, graph, filter, sink_id, inputs, ids.drop_last());
    if ids.last() == id {
        let pairs = mapping(graph.nodes@[id].outputs(), inputs);
        let k = pairs.index_of(pair);
        assert(links_of(id, sink_id, pairs)[k] == link);
        assert(links[head.len() + k] == link);
    } else {
        let j = ids.index_of(id);
        assert(ids.drop_last()[j] == id);
        lemma_pairs_are_linked(s, graph, filter, sink_id, inputs, ids.drop_last(), id, pair);
        let k = head.index_of(link);
        assert(links[k] == link);
    }
}

/// Where the sink lacks two inputs that can be linked, that is the error; where
/// no chosen node has an output that can be linked, that is; and else there is
/// none.
pub proof fn planning_fails_without_inputs_or_outputs(
    s: SessionView,
    graph: GraphSnapshot,
    filter: RouteFilter,
    sink_id: u32,
    ids: Seq<u32>,
)
    ensures
        !graph.nodes@.contains_key(sink_id) || graph.nodes@[sink_id].inputs().len() < 2
            ==> planned_links(s, graph, filter, sink_id, ids) == Err::<
            Seq<LinkRecord>,
            BackendErrorView,
        >(BackendErrorView::Message("virtual sink has no usable stereo input ports"@)),
        graph.nodes@.contains_key(sink_id) && graph.nodes@[sink_id].inputs().len() >= 2 && (
        forall|k: int|
            0 <= k < ids.len() ==> !chosen(s, graph, filter, sink_id, #[trigger] ids[k])
                || graph.nodes@[ids[k]].outputs().len() == 0) ==> planned_links(
            s,
            graph,
            filter,
            sink_id,
            ids,
        ) == Err::<Seq<LinkRecord>, BackendErrorView>(
            BackendErrorView::Message("none of the selected nodes could be linked"@),
        ),
{
    let inputs = inputs_at(graph, sink_id);
    let links = route_links(s, graph, filter, sink_id, inputs, distinct(ids));
    if inputs.len() >= 2 && links.len() > 0 {
        planned_links_lead_chosen_nodes_into_the_sink(s, graph, filter, sink_id, ids, 0);
        let link = links[0];
        let k = ids.index_of(link.output_node);
        let p = choose|p: PortRecord| #[trigger]
            graph.nodes@[link.output_node].outputs().contains(p) && p.id == link.output_port;
        assert(graph.nodes@[ids[k]].outputs().len() > 0);
    }
}

/// A new session has made nothing yet. Its sink is named after the prefix and
/// described as was set up; it has a microphone exactly if one was asked for or
/// named.
pub proof fn a_new_session_has_made_nothing(c: ConfigView, pid: u32, unique: u64)
    ensures
        ({
            let s = fresh_session(c, pid, unique);
            &&& s.sink_name == unique_name(c.sink_prefix, pid, unique)
            &&& s.sink_description == c.sink_description
            &&& s.sink_handle is None && s.mic_handle is None
            &&& s.route_link_handles.len() == 0 && s.mic_link_handles.len() == 0
            &&& s.prior_default_sink is None
            &&& s.mic_name is Some == (c.virtual_mic || c.virtual_mic_name is Some)
            &&& s.mic_description is Some == s.mic_name is Some
            &&& s.mic_name is Some && c.virtual_mic_name is Some ==> s.mic_name
                == c.virtual_mic_name
            &&& s.mic_name is Some && c.virtual_mic_description is Some ==> s.mic_description
                == c.virtual_mic_description
        }),
{
}

/// What is told of the sink names the sink of the session, its monitor and its
/// microphone, and the node that was inspected; it is told of a node that is in
/// the graph with two inputs that can be linked, and of no other.
pub proof fn the_sink_is_told_by_its_names(s: SessionView, graph: GraphSnapshot, id: u32)
    ensures
        info_at(s, graph, id) is Some == (graph.nodes@.contains_key(id)
            && graph.nodes@[id].inputs().len() >= 2),
        info_at(s, graph, id) matches Some(info) ==> info.sink_name == s.sink_name
            && info.monitor_source == s.sink_name + ".monitor"@ && info.node_id == id
            && info.virtual_mic_name == s.mic_name && info.virtual_mic_description
            == s.mic_description,
{
}

/// Making the sink: it is looked for under its own name, and made under that
/// name with its description where it is not there, as a plain sink where it is
/// to become the default and as a virtual one where it is not. One that was made
/// and still is not there is an error.
pub proof fn a_missing_sink_is_made_under_its_name(
    s: NativeView,
    g: GraphSnapshot,
    i: int,
    stage: SinkStage,
)
    ensures
        ensure_transition(s, EnsureEvent::Asked) == (
            s,
            EnsureStepView::Seek { stage: SinkStage::First },
        ),
        ({
            let (after, step) = ensure_transition(s, EnsureEvent::Sought { graph: Ok(g), stage });
            let nodes = g.nodes.entries();
            &&& after == s
            &&& first_called(nodes, s.session.sink_name, i) ==> step == (EnsureStepView::Inspect {
                sink_id: nodes[i].1.id,
                stage,
            })
            &&& none_called(nodes, s.session.sink_name) && stage == SinkStage::First ==> step == (
            EnsureStepView::CreateSink {
                name: s.session.sink_name,
                description: s.session.sink_description,
                media_class: if s.config.sink_becomes_default {
                    "Audio/Sink"@
                } else {
                    "Audio/Sink/Virtual"@
                },
            })
            &&& none_called(nodes, s.session.sink_name) && stage == SinkStage::Last ==> step
                == EnsureStepView::Done(
                Err(BackendErrorView::Message("virtual sink not found after creation"@)),
            )
        }),
{
    a_name_finds_the_first_so_called(g.nodes.entries(), s.session.sink_name, i);
}

/// A sink that is found ready is told of once the microphone has been seen to; a
/// node of its name that is not ready counts as missing.
pub proof fn a_ready_sink_is_told_of(s: NativeView, g: GraphSnapshot, sink_id: u32)
    ensures
        ({
            let ready = g.nodes@.contains_key(sink_id) && g.nodes@[sink_id].inputs().len() >= 2;
            let (before, first) = ensure_transition(
                s,
                EnsureEvent::Inspected { graph: Ok(g), sink_id, stage: SinkStage::First },
            );
            let (after, last) = ensure_transition(
                s,
                EnsureEvent::Inspected { graph: Ok(g), sink_id, stage: SinkStage::Last },
            );
            &&& before == s && after == s
            &&& ready ==> first == (EnsureStepView::EnsureMic {
                info: info_at(s.session, g, sink_id),
            }) && last == EnsureStepView::Done(Ok(info_at(s.session, g, sink_id)->0))
            &&& !ready ==> first is CreateSink && (last matches EnsureStepView::Done(r) && r is Err)
        }),
{
}

/// The handle of a sink that was made is kept, and nothing else of the session
/// changes; then come the microphone, the ports, the default where the sink is
/// to become it, and the last look.
pub proof fn a_made_sink_is_kept_by_its_handle(
    s: NativeView,
    handle: u32,
    id: u32,
    info: VirtualSinkInfo,
)
    ensures
        ensure_transition(s, EnsureEvent::SinkCreated { created: Ok(handle) }) == (
            NativeView { session: SessionView { sink_handle: Some(handle), ..s.session }, ..s },
            EnsureStepView::EnsureMic { info: None },
        ),
        ensure_transition(s, EnsureEvent::MicEnsured { ensured: Ok(()), info: None }) == (
            s,
            EnsureStepView::WaitSink { name: s.session.sink_name, min_inputs: 2 },
        ),
        ensure_transition(s, EnsureEvent::MicEnsured { ensured: Ok(()), info: Some(info) }) == (
            s,
            EnsureStepView::Done(Ok(info@)),
        ),
        ensure_transition(s, EnsureEvent::SinkReady { ready: Ok(id) }) == (
            s,
            if s.config.sink_becomes_default {
                EnsureStepView::SetDefault
            } else {
                EnsureStepView::Seek { stage: SinkStage::Last }
            },
        ),
        ensure_transition(s, EnsureEvent::DefaultSet { set: Ok(()) }) == (
            s,
            EnsureStepView::Seek { stage: SinkStage::Last },
        ),
{
}

/// Whatever fails while the sink, the microphone or the monitor is being made,
/// or while routes are, ends the making with that very error, and the session
/// stays as it is.
pub proof fn failures_end_the_making_as_they_are(
    s: NativeView,
    e: BackendError,
    stage: SinkStage,
    id: u32,
    now: u64,
    deadline: u64,
    info: Option<VirtualSinkInfo>,
    rest: Vec<LinkRecord>,
)
    ensures
        ({
            let failed = (s, EnsureStepView::Done(Err(e@)));
            &&& ensure_transition(s, EnsureEvent::Sought { graph: Err(e), stage }) == failed
            &&& ensure_transition(
                s,
                EnsureEvent::Inspected { graph: Err(e), sink_id: id, stage },
            ) == failed
            &&& ensure_transition(s, EnsureEvent::SinkCreated { created: Err(e) }) == failed
            &&& ensure_transition(s, EnsureEvent::MicEnsured { ensured: Err(e), info }) == failed
            &&& ensure_transition(s, EnsureEvent::SinkReady { ready: Err(e) }) == failed
            &&& ensure_transition(s, EnsureEvent::DefaultSet { set: Err(e) }) == failed
        }),
        ({
            let failed = (s, MicStepView::Done(Err(e@)));
            &&& mic_transition(s, MicEvent::MicCreated { created: Err(e) }) == failed
            &&& mic_transition(s, MicEvent::MonitorLinked { linked: Err(e) }) == failed
        }),
        ({
            let failed = (s, MonitorStepView::Done(Err(e@)));
            &&& monitor_transition(s, MonitorEvent::MicReady { ready: Err(e) }) == failed
            &&& monitor_transition(
                s,
                MonitorEvent::SinkReady { mic_id: id, ready: Err(e), now },
            ) == failed
            &&& monitor_transition(
                s,
                MonitorEvent::Looked { graph: Err(e), sink_id: id, mic_id: id, now, deadline },
            ) == failed
            &&& monitor_transition(s, MonitorEvent::Linked { created: Err(e), rest }) == failed
        }),
        set_default_transition(s, DefaultEvent::Looked { graph: Err(e) }) == (
            s,
            DefaultStepView::Done(Err(e@)),
        ),
{
}

/// The microphone is made once, under its name and with its description, as a
/// virtual source; a session without one makes none. The handle of the one that
/// was made is kept, nothing else changes, and then the monitor is linked.
pub proof fn the_microphone_is_made_under_its_name(s: NativeView, handle: u32)
    ensures
        ({
            let (after, step) = mic_transition(s, MicEvent::Asked);
            &&& after == s
            &&& s.session.mic_name is None || s.session.mic_description is None
                || s.session.mic_handle is Some ==> step == MicStepView::Done(Ok(()))
            &&& s.session.mic_name is Some && s.session.mic_description is Some
                && s.session.mic_handle is None ==> step == (MicStepView::CreateMic {
                name: s.session.mic_name->0,
                description: s.session.mic_description->0,
                media_class: "Audio/Source/Virtual"@,
            })
        }),
        mic_transition(s, MicEvent::MicCreated { created: Ok(handle) }) == (
            NativeView { session: SessionView { mic_handle: Some(handle), ..s.session }, ..s },
            MicStepView::LinkMonitor,
        ),
        mic_transition(s, MicEvent::MonitorLinked { linked: Ok(()) }) == (
            s,
            MicStepView::Done(Ok(())),
        ),
{
}

/// Linking the monitor waits for the microphone and then for the sink, each by
/// its name and for two inputs, and then for three seconds at most until both
/// show ports.
pub proof fn the_monitor_waits_for_both_ends(
    s: NativeView,
    mic_id: u32,
    sink_id: u32,
    now: u64,
    deadline: u64,
    g: GraphSnapshot,
)
    ensures
        monitor_transition(s, MonitorEvent::Asked) == (
            s,
            match s.session.mic_name {
                Some(name) => MonitorStepView::WaitMic { name, min_inputs: 2 },
                None => MonitorStepView::Done(Ok(())),
            },
        ),
        monitor_transition(s, MonitorEvent::MicReady { ready: Ok(mic_id) }) == (
            s,
            MonitorStepView::WaitSink { mic_id, name: s.session.sink_name, min_inputs: 2 },
        ),
        now + 3_000_000_000 <= u64::MAX ==> monitor_transition(
            s,
            MonitorEvent::SinkReady { mic_id, ready: Ok(sink_id), now },
        ) == (
            s,
            MonitorStepView::Look {
                sink_id,
                mic_id,
                pause_ms: 0,
                deadline: (now + 3_000_000_000) as u64,
            },
        ),
        ({
            let (after, step) = monitor_transition(
                s,
                MonitorEvent::Looked { graph: Ok(g), sink_id, mic_id, now, deadline },
            );
            let nodes = g.nodes@;
            let shown = nodes.contains_key(sink_id) && nodes.contains_key(mic_id)
                && nodes[sink_id].outputs().len() > 0 && nodes[mic_id].inputs().len() > 0;
            &&& after == s
            &&& shown ==> step is Link
            &&& !shown && now < deadline ==> step == (MonitorStepView::Look {
                sink_id,
                mic_id,
                pause_ms: 200,
                deadline,
            })
            &&& !shown && now >= deadline ==> step == MonitorStepView::Done(
                Err(BackendErrorView::Message("timed out linking sink monitor to virtual mic"@)),
            )
        }),
{
    let nodes = g.nodes@;
    if nodes.contains_key(sink_id) && nodes.contains_key(mic_id) && nodes[sink_id].outputs().len()
        > 0 && nodes[mic_id].inputs().len() > 0 {
        crate::routing::mapping_links_every_output(
            nodes[sink_id].outputs(),
            nodes[mic_id].inputs(),
            0,
        );
    }
}

/// The monitor is linked port by port as the channels of the sink and of the
/// microphone ask for: every such pair gets a link, from the sink to the
/// microphone, and no other link is made.
pub proof fn the_monitor_feeds_the_microphone(
    graph: GraphSnapshot,
    sink_id: u32,
    mic_id: u32,
    pair: (PortRecord, PortRecord),
    k: int,
)
    requires
        graph.nodes@.contains_key(sink_id),
        graph.nodes@[sink_id].id == sink_id,
        monitor_links(graph, sink_id, mic_id) is Some,
        ({
            let pairs = mapping(graph.nodes@[sink_id].outputs(), graph.nodes@[mic_id].inputs());
            pairs.contains(pair) && 0 <= k < pairs.len()
        }),
    ensures
        ({
            let links = monitor_links(graph, sink_id, mic_id)->0;
            let pairs = mapping(graph.nodes@[sink_id].outputs(), graph.nodes@[mic_id].inputs());
            &&& links.len() == pairs.len()
            &&& links.contains(
                LinkRecord {
                    output_node: sink_id,
                    output_port: pair.0.id,
                    input_node: mic_id,
                    input_port: pair.1.id,
                },
            )
            &&& links[k].output_node == sink_id && links[k].output_port == pairs[k].0.id
            &&& links[k].input_node == mic_id && links[k].input_port == pairs[k].1.id
        }),
{
    let links = monitor_links(graph, sink_id, mic_id)->0;
    let pairs = mapping(graph.nodes@[sink_id].outputs(), graph.nodes@[mic_id].inputs());
    let j = pairs.index_of(pair);
    assert(links[j].output_port == pair.0.id);
}

/// The links of the microphone are made one after the other, from the first to
/// the last, and each that was made is kept with the microphone and never among
/// the routes.
pub proof fn the_links_of_the_microphone_are_made_in_turn(
    s: NativeView,
    links: Seq<LinkRecord>,
    handle: u32,
    rest: Vec<LinkRecord>,
)
    ensures
        next_link(links) is Done == (links.len() == 0),
        next_link(links) matches MonitorStepView::Link { link, rest } ==> seq![link] + rest
            == links,
        next_link(links) matches MonitorStepView::Done(r) ==> r is Ok,
        ({
            let (after, step) = monitor_transition(
                s,
                MonitorEvent::Linked { created: Ok(handle), rest },
            );
            &&& step == next_link(rest@)
            &&& after.session.mic_link_handles == s.session.mic_link_handles.push(handle)
            &&& after == (NativeView {
                session: SessionView {
                    mic_link_handles: after.session.mic_link_handles,
                    ..s.session
                },
                ..s
            })
        }),
{
    if links.len() > 0 {
        assert(seq![links[0]] + links.drop_first() =~= links);
    }
}

/// A choice goes through every step of a routing as it was made: the nodes and
/// the filter that the links are planned by are the ones that were asked for.
/// No node at all means that the routes are removed and the sink is kept.
pub proof fn a_choice_is_routed_as_it_was_made(
    s: NativeView,
    node_ids: Vec<u32>,
    filter: RouteFilter,
    info: VirtualSinkInfo,
    g: GraphSnapshot,
    i: int,
)
    ensures
        native_route_transition(s, NativeRouteEvent::Asked { node_ids, filter }) == (
            s,
            if node_ids@.len() == 0 {
                NativeRouteStepView::ClearRoutes
            } else {
                NativeRouteStepView::EnsureSink { node_ids: node_ids@, filter }
            },
        ),
        native_route_transition(
            s,
            NativeRouteEvent::SinkEnsured { node_ids, filter, ensured: Ok(info) },
        ) == (
            s,
            if node_ids@.len() == 0 {
                NativeRouteStepView::Done(Ok(info@))
            } else {
                NativeRouteStepView::Seek { node_ids: node_ids@, filter, info: info@ }
            },
        ),
        ({
            let (after, step) = native_route_transition(
                s,
                NativeRouteEvent::Sought { node_ids, filter, info, graph: Ok(g) },
            );
            let nodes = g.nodes.entries();
            &&& after == s
            &&& first_called(nodes, s.session.sink_name, i) ==> step == (NativeRouteStepView::Look {
                node_ids: node_ids@,
                filter,
                info: info@,
                sink_id: nodes[i].1.id,
            })
            &&& none_called(nodes, s.session.sink_name) ==> step == NativeRouteStepView::Done(
                Err(BackendErrorView::Message("virtual sink missing after ensure"@)),
            )
        }),
        native_route_transition(s, NativeRouteEvent::Cleared { cleared: Ok(()) }).1 matches
            NativeRouteStepView::EnsureSink { node_ids: none, filter: f } && none.len() == 0
            && !f.only_speakers && !f.only_default_speakers && !f.ignore_devices
            && !f.ignore_virtual && !f.ignore_input_media,
{
    a_name_finds_the_first_so_called(g.nodes.entries(), s.session.sink_name, i);
}

/// The links that are planned are the links that are made. Once some of them
/// are made, they are the routes, in their order, and the routes from before are
/// destroyed; where none could be made, the routes from before stay.
pub proof fn new_routes_take_the_place_of_old_ones(
    s: NativeView,
    node_ids: Vec<u32>,
    filter: RouteFilter,
    info: VirtualSinkInfo,
    sink_id: u32,
    g: GraphSnapshot,
    outcomes: Vec<Result<u32, BackendError>>,
)
    ensures
        native_route_transition(
            s,
            NativeRouteEvent::Looked { node_ids, filter, info, sink_id, graph: Ok(g) },
        ) == (
            s,
            match planned_links(s.session, g, filter, sink_id, node_ids@) {
                Ok(links) => NativeRouteStepView::Link { links, info: info@ },
                Err(e) => NativeRouteStepView::Done(Err(e)),
            },
        ),
        ({
            let (after, step) = native_route_transition(
                s,
                NativeRouteEvent::Linked { info, outcomes },
            );
            let some = exists|i: int| 0 <= i < outcomes@.len() && #[trigger] outcomes@[i] is Ok;
            &&& some ==> after.session.route_link_handles == handles_made(outcomes@) && step == (
            NativeRouteStepView::Unlink {
                handles: s.session.route_link_handles,
                info: info@,
            })
            &&& !some ==> after == s && step == NativeRouteStepView::Done(
                Err(BackendErrorView::Message("none of the selected nodes could be linked"@)),
            )
        }),
        native_route_transition(s, NativeRouteEvent::Unlinked { info }) == (
            s,
            NativeRouteStepView::Done(Ok(info@)),
        ),
{
    let made = handles_made(outcomes@);
    if exists|i: int| 0 <= i < outcomes@.len() && #[trigger] outcomes@[i] is Ok {
        let i = choose|i: int| 0 <= i < outcomes@.len() && #[trigger] outcomes@[i] is Ok;
        routes_are_the_links_that_were_made(outcomes@, outcomes@[i]->Ok_0);
        assert(outcomes@.contains(outcomes@[i]));
        assert(made.len() > 0);
    } else if made.len() > 0 {
        assert(made.contains(made[0]));
        routes_are_the_links_that_were_made(outcomes@, made[0]);
        let i = outcomes@.index_of(Ok(made[0]));
        assert(outcomes@[i] is Ok);
    }
}

/// The errors on the way of a routing end it as they are.
pub proof fn failures_end_the_routing_as_they_are(
    s: NativeView,
    e: BackendError,
    node_ids: Vec<u32>,
    filter: RouteFilter,
    info: VirtualSinkInfo,
    sink_id: u32,
)
    ensures
        ({
            let failed = (s, NativeRouteStepView::Done(Err(e@)));
            &&& native_route_transition(s, NativeRouteEvent::Cleared { cleared: Err(e) }) == failed
            &&& native_route_transition(
                s,
                NativeRouteEvent::SinkEnsured { node_ids, filter, ensured: Err(e) },
            ) == failed
            &&& native_route_transition(
                s,
                NativeRouteEvent::Sought { node_ids, filter, info, graph: Err(e) },
            ) == failed
            &&& native_route_transition(
                s,
                NativeRouteEvent::Looked { node_ids, filter, info, sink_id, graph: Err(e) },
            ) == failed
        }),
{
}

/// The handles of the links that were made stand in the order in which the links
/// were asked for.
pub proof fn handles_stand_in_the_order_of_their_links(
    outcomes: Seq<Result<u32, BackendError>>,
    more: Seq<Result<u32, BackendError>>,
)
    ensures
        handles_made(outcomes + more) == handles_made(outcomes) + handles_made(more),
    decreases more.len(),
{
    if more.len() == 0 {
        assert(outcomes + more =~= outcomes);
        assert(handles_made(outcomes) + handles_made(more) =~= handles_made(outcomes));
    } else {
        handles_stand_in_the_order_of_their_links(outcomes, more.drop_last());
        assert((outcomes + more).drop_last() =~= outcomes + more.drop_last());
        assert((outcomes + more).last() == more.last());
        assert(handles_made(outcomes + more) =~= handles_made(outcomes) + handles_made(more));
    }
}

/// Clearing destroys every route and forgets it, and answers how many could not
/// be destroyed, if any.
pub proof fn clearing_answers_how_many_failed(
    s: NativeView,
    outcomes: Vec<Result<(), BackendError>>,
)
    ensures
        ({
            let (after, step) = native_clear_transition(s, NativeClearEvent::Asked);
            &&& step == (NativeClearStepView::Unlink { handles: s.session.route_link_handles })
            &&& after.session.route_link_handles.len() == 0
        }),
        ({
            let (after, step) = native_clear_transition(
                s,
                NativeClearEvent::Unlinked { outcomes },
            );
            let all_well = forall|i: int| 0 <= i < outcomes@.len() ==> #[trigger] outcomes@[i] is Ok;
            &&& after == s
            &&& all_well ==> step == NativeClearStepView::Done(Ok(()))
            &&& !all_well ==> step == NativeClearStepView::Done(
                Err(
                    BackendErrorView::Message(
                        "failed to remove "@ + decimal(
                            outcomes@.filter(|r: Result<(), BackendError>| r is Err).len(),
                        ) + " route(s)"@,
                    ),
                ),
            )
        }),
{
    let failed = |r: Result<(), BackendError>| r is Err;
    lemma_errors_in(outcomes@);
    if exists|i: int| 0 <= i < outcomes@.len() && !(#[trigger] outcomes@[i] is Ok) {
        let i = choose|i: int| 0 <= i < outcomes@.len() && !(#[trigger] outcomes@[i] is Ok);
        assert(failed(outcomes@[i]));
        outcomes@.lemma_filter_contains(failed, i);
        assert(outcomes@.filter(failed).len() > 0);
    } else if outcomes@.filter(failed).len() > 0 {
        let r = outcomes@.filter(failed)[0];
        outcomes@.lemma_filter_pred(failed, 0);
        assert(outcomes@.filter(failed).contains(r));
        outcomes@.lemma_filter_contains_rev(failed, r);
        let i = outcomes@.index_of(r);
        assert(outcomes@[i] is Ok);
    }
}

proof fn lemma_errors_in(outcomes: Seq<Result<(), BackendError>>)
    ensures
        errors_in(outcomes) == outcomes.filter(|r: Result<(), BackendError>| r is Err).len(),
    decreases outcomes.len(),
{
    let failed = |r: Result<(), BackendError>| r is Err;
    if outcomes.len() > 0 {
        let head = outcomes.drop_last();
        lemma_errors_in(head);
        head.lemma_filter_push(outcomes.last(), failed);
        assert(head.push(outcomes.last()) =~= outcomes);
    } else {
        assert(outcomes.filter(failed).len() == 0) by {
            reveal(Seq::filter);
        }
    }
}

/// Taking a session down: first the default is restored, then the routes are
/// removed, then the links of the microphone, then the microphone and then the
/// sink, each by the handle under which it is kept, and each but once.
pub proof fn a_session_is_taken_down_in_order(
    s: NativeView,
    r: Result<(), BackendError>,
    errors: Vec<String>,
    outcomes: Vec<Result<(), BackendError>>,
)
    ensures
        native_dispose_transition(s, NativeDisposeEvent::Asked) == (
            s,
            NativeDisposeStepView::RestoreDefault,
        ),
        native_dispose_transition(s, NativeDisposeEvent::Restored { restored: r }).1
            is ClearRoutes,
        ({
            let (after, step) = native_dispose_transition(
                s,
                NativeDisposeEvent::Cleared { cleared: r, errors },
            );
            &&& step matches NativeDisposeStepView::UnlinkMic { handles, .. } && handles
                == s.session.mic_link_handles
            &&& after.session.mic_link_handles.len() == 0
            &&& after.session.mic_handle == s.session.mic_handle && after.session.sink_handle
                == s.session.sink_handle
        }),
        ({
            let (after, step) = native_dispose_transition(
                s,
                NativeDisposeEvent::MicUnlinked { outcomes, errors },
            );
            &&& s.session.mic_handle matches Some(h) ==> (step matches
                NativeDisposeStepView::DestroyMic { handle, .. } && handle == h
                && after.session.sink_handle == s.session.sink_handle)
            &&& s.session.mic_handle is None && s.session.sink_handle is Some ==> step is DestroySink
            &&& s.session.mic_handle is None && s.session.sink_handle is None ==> step is Done
            &&& after.session.mic_handle is None
        }),
        ({
            let (after, step) = native_dispose_transition(
                s,
                NativeDisposeEvent::MicDestroyed { destroyed: r, errors },
            );
            &&& s.session.sink_handle matches Some(h) ==> (step matches
                NativeDisposeStepView::DestroySink { handle, .. } && handle == h)
            &&& s.session.sink_handle is None ==> step is Done
            &&& after.session.sink_handle is None
        }),
        native_dispose_transition(
            s,
            NativeDisposeEvent::SinkDestroyed { destroyed: r, errors },
        ).1 is Done,
{
}

/// An error is noted behind those before it, in its own words, and a success is
/// not noted; of a list of outcomes each is, in its order.
pub proof fn errors_are_noted_in_their_order(
    errors: Seq<Seq<char>>,
    e: BackendError,
    outcomes: Seq<Result<(), BackendError>>,
)
    ensures
        noted(errors, Ok(())) == errors,
        noted(errors, Err(e)) == errors.push(e@.text()),
        all_noted(errors, Seq::empty()) == errors,
        all_noted(errors, outcomes.push(Ok(()))) == all_noted(errors, outcomes),
        all_noted(errors, outcomes.push(Err(e))) == all_noted(errors, outcomes).push(e@.text()),
{
    assert(outcomes.push(Ok(())).drop_last() =~= outcomes);
    assert(outcomes.push(Err(e)).drop_last() =~= outcomes);
}

/// The sink that is made the default is the sink of the session, and the default
/// that is remembered is the one from before the first time; nothing else of the
/// session changes.
pub proof fn the_sink_of_the_session_becomes_the_default(
    s: NativeView,
    g: GraphSnapshot,
    r: Result<(), BackendError>,
)
    ensures
        set_default_transition(s, DefaultEvent::Asked) == (s, DefaultStepView::Look),
        ({
            let (after, step) = set_default_transition(s, DefaultEvent::Looked { graph: Ok(g) });
            &&& step == (DefaultStepView::Write { sink_name: s.session.sink_name })
            &&& s.session.prior_default_sink is Some ==> after == s
            &&& s.session.prior_default_sink is None ==> after.session.prior_default_sink
                == opt_text(g.default_sink_name)
            &&& after == (NativeView {
                session: SessionView {
                    prior_default_sink: after.session.prior_default_sink,
                    ..s.session
                },
                ..s
            })
        }),
        set_default_transition(s, DefaultEvent::Written { written: r }) == (
            s,
            DefaultStepView::Done(crate::error::outcome(r)),
        ),
        restore_transition(s, RestoreEvent::Written { written: r }) == (
            s,
            DefaultStepView::Done(crate::error::outcome(r)),
        ),
{
}

/// A node that is waited for is ready once the first that bears its name has
/// enough inputs; until then it is looked for every fifth of a second, for
/// three seconds, and then the waiting fails by its name.
pub proof fn a_node_is_waited_for_by_its_name(
    name: &str,
    min_inputs: usize,
    now: u64,
    deadline: u64,
    g: GraphSnapshot,
    i: int,
    e: BackendError,
    first: WaitStep,
    looked: WaitStep,
    failed: WaitStep,
)
    requires
        call_ensures(wait_for_node_ready, (name, min_inputs, WaitEvent::Asked { now }), first),
        call_ensures(
            wait_for_node_ready,
            (name, min_inputs, WaitEvent::Looked { graph: Ok(g), now, deadline }),
            looked,
        ),
        call_ensures(
            wait_for_node_ready,
            (name, min_inputs, WaitEvent::Looked { graph: Err(e), now, deadline }),
            failed,
        ),
    ensures
        now + 3_000_000_000 <= u64::MAX ==> first == (WaitStep::Look {
            pause_ms: 0,
            deadline: (now + 3_000_000_000) as u64,
        }),
        ({
            let nodes = g.nodes.entries();
            let ready = first_called(nodes, name@, i) && nodes[i].1.inputs().len() >= min_inputs;
            let unready = none_called(nodes, name@) || first_called(nodes, name@, i)
                && nodes[i].1.inputs().len() < min_inputs;
            &&& ready ==> looked == WaitStep::Done(Ok(nodes[i].1.id))
            &&& unready && now < deadline ==> looked == (WaitStep::Look { pause_ms: 200, deadline })
            &&& unready && now >= deadline ==> (looked matches WaitStep::Done(Err(told)) && told@
                == BackendErrorView::Timeout(name@))
        }),
        failed == WaitStep::Done(Err(e)),
{
    let nodes = g.nodes.entries();
    let wanted = named(name@);
    assert forall|n: NodeRecord| #[trigger] wanted(n) == says(n.props@, "node.name"@, name@) by {}
    lemma_first_node(nodes, wanted);
    if first_called(nodes, name@, i) {
        assert forall|j: int| 0 <= j < i implies !wanted((#[trigger] nodes[j]).1) by {}
        a_walk_finds_the_first(nodes, wanted, i);
    }
}

/// Listing gives the list of the graph that leaves out our own, by their
/// `node.name`; without a graph that is the error. Looking for a screencast gives
/// the first hint of the graph.
pub proof fn looks_give_what_the_graph_shows(
    state: PatchbayStateNative,
    include_devices: bool,
    g: GraphSnapshot,
    e: BackendError,
    listed: Result<Vec<ShareableNode>, BackendError>,
    failed: Result<Vec<ShareableNode>, BackendError>,
    hint: Result<Option<ScreencastHint>, BackendError>,
    missed: Result<Option<ScreencastHint>, BackendError>,
)
    requires
        call_ensures(
            PatchbayStateNative::list_shareable_nodes,
            (&state, include_devices, Ok(g)),
            listed,
        ),
        call_ensures(
            PatchbayStateNative::list_shareable_nodes,
            (&state, include_devices, Err(e)),
            failed,
        ),
        call_ensures(PatchbayStateNative::find_screencast_hint, (&state, Ok(g)), hint),
        call_ensures(PatchbayStateNative::find_screencast_hint, (&state, Err(e)), missed),
    ensures
        listed matches Ok(list) && is_listing(
            shareable_views(list@),
            g.nodes.entries(),
            ours(NameScope::NodeName, state.session.sink_name@, opt_text(state.session.mic_name)),
            include_devices,
        ),
        failed == Err::<Vec<ShareableNode>, BackendError>(e),
        hint matches Ok(found) && match found {
            Some(h) => first_hint(g.nodes.entries()) == Some((h.desktop_file_id@, h.hint@)),
            None => first_hint(g.nodes.entries()) is None,
        },
        missed == Err::<Option<ScreencastHint>, BackendError>(e),
{
}

/// Whatever mute is asked for of a session, a step that mutes a node sets that
/// mute, on a node whose `node.name` is the name of the microphone.
pub proof fn a_session_mutes_as_asked(
    state: PatchbayStateNative,
    mute: bool,
    event: MicMuteEvent,
    step: MicMuteStep,
)
    requires
        call_ensures(PatchbayStateNative::set_virtual_mic_mute, (&state, mute, event), step),
    ensures
        step matches MicMuteStep::Mute { node_id, mute: set } ==> set == mute && (event
            matches MicMuteEvent::Sought { graph: Ok(g) } && state.session.mic_name matches Some(
            name,
        ) && has_node_called(g.nodes.entries(), name@, node_id)),
{
    muting_sets_what_was_asked_for(state@, mute, event);
}

/// A node of a session is one of our own exactly if its `node.name` is the name
/// of the sink, of its monitor or of the microphone.
pub proof fn a_session_knows_its_own(
    state: PatchbayStateNative,
    node: NodeRecord,
    r: bool,
)
    requires
        call_ensures(PatchbayStateNative::is_our_virtual_audio_object, (&state, &node), r),
    ensures
        r == says_our_name(
            node.props@,
            "node.name"@,
            state.session.sink_name@,
            opt_text(state.session.mic_name),
        ),
{
    our_own_are_known_by_name(node, state.session.sink_name@, opt_text(state.session.mic_name));
}

/// Links are planned node by node: one more chosen node adds, behind the links of
/// the others, one link for each pair of ports that belong together, in the order
/// of the pairs, and one that may not be routed adds none.
pub proof fn links_are_planned_node_by_node(
    s: SessionView,
    graph: GraphSnapshot,
    filter: RouteFilter,
    sink_id: u32,
    ids: Seq<u32>,
    id: u32,
)
    requires
        graph.nodes@.contains_key(sink_id),
        graph.nodes@[sink_id].inputs().len() >= 2,
        ids.no_duplicates(),
        !ids.contains(id),
    ensures
        ({
            let before = match planned_links(s, graph, filter, sink_id, ids) {
                Ok(links) => links,
                Err(_) => Seq::empty(),
            };
            let after = match planned_links(s, graph, filter, sink_id, ids.push(id)) {
                Ok(links) => links,
                Err(_) => Seq::empty(),
            };
            let pairs = mapping(graph.nodes@[id].outputs(), graph.nodes@[sink_id].inputs());
            &&& !chosen(s, graph, filter, sink_id, id) ==> after == before
            &&& chosen(s, graph, filter, sink_id, id) ==> after == before + Seq::new(
                pairs.len(),
                |k: int|
                    LinkRecord {
                        output_node: id,
                        output_port: pairs[k].0.id,
                        input_node: sink_id,
                        input_port: pairs[k].1.id,
                    },
            )
        }),
{
    let more = ids.push(id);
    assert(more.no_duplicates());
    crate::routing::distinct_is_idempotent(ids);
    crate::routing::distinct_is_idempotent(more);
    assert(more.drop_last() =~= ids);
    let inputs = inputs_at(graph, sink_id);
    let old_links = route_links(s, graph, filter, sink_id, inputs, ids);
    let new_links = route_links(s, graph, filter, sink_id, inputs, more);
    let pairs = mapping(graph.nodes@[id].outputs(), inputs);
    let added = Seq::new(
        pairs.len(),
        |k: int|
            LinkRecord {
                output_node: id,
                output_port: pairs[k].0.id,
                input_node: sink_id,
                input_port: pairs[k].1.id,
            },
    );
    if chosen(s, graph, filter, sink_id, id) {
        assert(new_links =~= old_links + added);
        assert(old_links.len() == 0 ==> old_links =~= Seq::empty());
        assert(new_links.len() == 0 ==> new_links =~= Seq::empty());
    } else {
        assert(new_links =~= old_links);
        assert(old_links.len() == 0 ==> old_links =~= Seq::empty());
    }
}

/// A view of a session shows each thing that the session holds in its own place.
pub proof fn views_of_sessions_show_what_they_hold(state: PatchbayStateNative)
    ensures
        ({
            let (v, s) = (state@.session, state.session);
            &&& v.sink_handle == s.sink_handle && v.mic_handle == s.mic_handle
            &&& v.sink_name == s.sink_name@ && v.sink_description == s.sink_description@
            &&& v.mic_name == opt_text(s.mic_name) && v.mic_description == opt_text(
                s.mic_description,
            )
            &&& v.route_link_handles == s.route_link_handles@
            &&& v.mic_link_handles == s.mic_link_handles@
            &&& v.prior_default_sink == opt_text(s.prior_default_sink)
            &&& state@.config == state.config@
        }),
{
}

/// A view of a step shows each thing that the step carries in its own place.
pub proof fn views_of_steps_show_what_they_carry(
    id: u32,
    handle: u32,
    stage: SinkStage,
    name: String,
    text: String,
    class: &'static str,
    min_inputs: usize,
    pause_ms: u64,
    deadline: u64,
    link: LinkRecord,
    links: Vec<LinkRecord>,
    handles: Vec<u32>,
    errors: Vec<String>,
    info: VirtualSinkInfo,
    filter: RouteFilter,
    done: Result<(), BackendError>,
    told: Result<VirtualSinkInfo, BackendError>,
)
    ensures
        (EnsureStep::Seek { stage })@ == (EnsureStepView::Seek { stage }),
        (EnsureStep::Inspect { sink_id: id, stage })@ == (EnsureStepView::Inspect {
            sink_id: id,
            stage,
        }),
        (EnsureStep::CreateSink { name, description: text, media_class: class })@ == (
        EnsureStepView::CreateSink { name: name@, description: text@, media_class: class@ }),
        (EnsureStep::EnsureMic { info: Some(info) })@ == (EnsureStepView::EnsureMic {
            info: Some(info@),
        }),
        (EnsureStep::EnsureMic { info: None })@ == (EnsureStepView::EnsureMic { info: None }),
        (EnsureStep::WaitSink { name, min_inputs })@ == (EnsureStepView::WaitSink {
            name: name@,
            min_inputs,
        }),
        EnsureStep::SetDefault@ is SetDefault,
        told matches Ok(i) ==> EnsureStep::Done(told)@ == EnsureStepView::Done(Ok(i@)),
        told matches Err(e) ==> EnsureStep::Done(told)@ == EnsureStepView::Done(Err(e@)),
        (MicStep::CreateMic { name, description: text, media_class: class })@ == (
        MicStepView::CreateMic { name: name@, description: text@, media_class: class@ }),
        MicStep::LinkMonitor@ is LinkMonitor,
        MicStep::Done(done)@ == MicStepView::Done(crate::error::outcome(done)),
        (MonitorStep::WaitMic { name, min_inputs })@ == (MonitorStepView::WaitMic {
            name: name@,
            min_inputs,
        }),
        (MonitorStep::WaitSink { mic_id: id, name, min_inputs })@ == (MonitorStepView::WaitSink {
            mic_id: id,
            name: name@,
            min_inputs,
        }),
        (MonitorStep::Look { sink_id: id, mic_id: handle, pause_ms, deadline })@ == (
        MonitorStepView::Look { sink_id: id, mic_id: handle, pause_ms, deadline }),
        (MonitorStep::Link { link, rest: links })@ == (MonitorStepView::Link {
            link,
            rest: links@,
        }),
        MonitorStep::Done(done)@ == MonitorStepView::Done(crate::error::outcome(done)),
        NativeRouteStep::ClearRoutes@ is ClearRoutes,
        (NativeRouteStep::EnsureSink { node_ids: handles, filter })@ == (
        NativeRouteStepView::EnsureSink { node_ids: handles@, filter }),
        (NativeRouteStep::Seek { node_ids: handles, filter, info })@ == (
        NativeRouteStepView::Seek { node_ids: handles@, filter, info: info@ }),
        (NativeRouteStep::Look { node_ids: handles, filter, info, sink_id: id })@ == (
        NativeRouteStepView::Look { node_ids: handles@, filter, info: info@, sink_id: id }),
        (NativeRouteStep::Link { links, info })@ == (NativeRouteStepView::Link {
            links: links@,
            info: info@,
        }),
        (NativeRouteStep::Unlink { handles, info })@ == (NativeRouteStepView::Unlink {
            handles: handles@,
            info: info@,
        }),
        told matches Ok(i) ==> NativeRouteStep::Done(told)@ == NativeRouteStepView::Done(Ok(i@)),
        told matches Err(e) ==> NativeRouteStep::Done(told)@ == NativeRouteStepView::Done(Err(e@)),
        (NativeClearStep::Unlink { handles })@ == (NativeClearStepView::Unlink {
            handles: handles@,
        }),
        NativeClearStep::Done(done)@ == NativeClearStepView::Done(crate::error::outcome(done)),
        NativeDisposeStep::RestoreDefault@ is RestoreDefault,
        (NativeDisposeStep::ClearRoutes { errors })@ == (NativeDisposeStepView::ClearRoutes {
            errors: texts(errors@),
        }),
        (NativeDisposeStep::UnlinkMic { handles, errors })@ == (NativeDisposeStepView::UnlinkMic {
            handles: handles@,
            errors: texts(errors@),
        }),
        (NativeDisposeStep::DestroyMic { handle, errors })@ == (NativeDisposeStepView::DestroyMic {
            handle,
            errors: texts(errors@),
        }),
        (NativeDisposeStep::DestroySink { handle, errors })@ == (
        NativeDisposeStepView::DestroySink { handle, errors: texts(errors@) }),
        NativeDisposeStep::Done(done)@ == NativeDisposeStepView::Done(crate::error::outcome(done)),
        DefaultStep::Look@ is Look,
        (DefaultStep::Write { sink_name: name })@ == (DefaultStepView::Write { sink_name: name@ }),
        DefaultStep::Done(done)@ == DefaultStepView::Done(crate::error::outcome(done)),
{
}

} // verus!
