//! The live graph, kept up to date from what the server announces, and the
//! commands on it.
//!
//! The objects of the server live on one thread of their own. This is what that
//! thread knows and decides; calling the server is left to its surroundings.

use vstd::prelude::*;
use crate::error::{BackendError, BackendErrorView, JsonError};
use crate::json::{
    cut, field, json_in, lemma_field_cut, members_are_read_from_the_last, read_json, read_text,
    text_in, JsonTree, JsonValue, LEVELS_READ, PropMap, PropValue, PropView,
};
use crate::models::{
    copy_opt, direction_named, four_words_name_a_direction, node_views, port_views, says,
    says_nothing, NodeRecord, NodeView, PortDirection, PortRecord, PortView,
};
use crate::table::{lemma_entry_in_map, table_map, IdTable};
use crate::text::{
    cat, decimal, decimal_text, number, opt_text, owned, parse_number, push_decimal, push_text,
    text_eq,
};

verus! {

/// A link between two ports.
#[derive(Debug, Clone, Copy, PartialEq, Eq, Structural)]
pub struct LinkRecord {
    pub output_node: u32,
    pub output_port: u32,
    pub input_node: u32,
    pub input_port: u32,
}

/// The graph at one moment.
#[derive(Debug)]
pub struct GraphSnapshot {
    pub nodes: IdTable<NodeRecord>,
    /// The links by their id, by which a caller finds the nodes that the
    /// outputs of a node are connected to at present.
    pub links: IdTable<LinkRecord>,
    pub default_sink_name: Option<String>,
}

pub struct GraphView {
    pub nodes: Map<u32, NodeView>,
    pub links: Map<u32, LinkRecord>,
    pub default_sink_name: Option<Seq<char>>,
}

impl View for GraphSnapshot {
    type V = GraphView;

    open spec fn view(&self) -> GraphView {
        GraphView {
            nodes: node_views(self.nodes@),
            links: self.links@,
            default_sink_name: opt_text(self.default_sink_name),
        }
    }
}

pub open spec fn empty_graph() -> GraphView {
    GraphView { nodes: Map::empty(), links: Map::empty(), default_sink_name: None }
}

impl Default for GraphSnapshot {
    fn default() -> (r: Self)
        ensures
            r@ == empty_graph(),
            r.nodes.entries().len() == 0,
            r.links.entries().len() == 0,
    {
        let r = GraphSnapshot {
            nodes: IdTable::new(),
            links: IdTable::new(),
            default_sink_name: None,
        };
        assert(r@.nodes =~= Map::<u32, NodeView>::empty());
        r
    }
}

fn copy_nodes(nodes: &IdTable<NodeRecord>) -> (r: IdTable<NodeRecord>)
    ensures
        node_views(r@) == node_views(nodes@),
{
    let r = nodes.clone();
    proof {
        let a = nodes.entries();
        let b = r.entries();
        assert forall|i: int| 0 <= i < a.len() implies (#[trigger] b[i]).1@ == a[i].1@ by {
            assert(cloned(a[i].1, b[i].1));
        }
        assert forall|id: u32| crate::table::has_id(a, id) == crate::table::has_id(b, id) by {
            if crate::table::has_id(a, id) {
                let i = choose|i: int| 0 <= i < a.len() && a[i].0 == id;
                assert(b[i].0 == id);
            }
            if crate::table::has_id(b, id) {
                let i = choose|i: int| 0 <= i < b.len() && b[i].0 == id;
                assert(a[i].0 == id);
            }
        }
        assert forall|id: u32| crate::table::has_id(a, id) implies table_map(a)[id]@ == table_map(
            b,
        )[id]@ by {
            let i = choose|i: int| 0 <= i < a.len() && a[i].0 == id;
            lemma_entry_in_map(a, i);
            lemma_entry_in_map(b, i);
        }
        assert(node_views(r@) =~= node_views(nodes@));
    }
    r
}

fn copy_links(links: &IdTable<LinkRecord>) -> (r: IdTable<LinkRecord>)
    ensures
        r@ == links@,
{
    let r = links.clone();
    proof {
        let a = links.entries();
        let b = r.entries();
        assert forall|i: int| 0 <= i < a.len() implies (#[trigger] b[i]) == a[i] by {
            assert(cloned(a[i].1, b[i].1));
        }
        assert(a =~= b);
    }
    r
}

impl Clone for GraphSnapshot {
    fn clone(&self) -> (r: Self)
        ensures
            r@ == self@,
    {
        GraphSnapshot {
            nodes: copy_nodes(&self.nodes),
            links: copy_links(&self.links),
            default_sink_name: copy_opt(&self.default_sink_name),
        }
    }
}

pub open spec fn leads_from(node_id: u32) -> spec_fn((u32, LinkRecord)) -> Option<u32> {
    |e: (u32, LinkRecord)|
        if e.1.output_node == node_id {
            Some(e.1.input_node)
        } else {
            None
        }
}

impl GraphSnapshot {
    /// The nodes that the outputs of node `node_id` are linked to, one for each
    /// link.
    pub open spec fn targets(self, node_id: u32) -> Seq<u32> {
        self.links.entries().filter_map(leads_from(node_id))
    }

    pub fn link_targets_of(&self, node_id: u32) -> (r: Vec<u32>)
        ensures
            r@ == self.targets(node_id),
    {
        let ghost s = self.links.entries();
        let mut r: Vec<u32> = Vec::new();
        let mut i: usize = 0;
        assert(r@ =~= s.take(0).filter_map(leads_from(node_id)));
        while i < self.links.len()
            invariant
                s == self.links.entries(),
                i <= s.len(),
                r@ == s.take(i as int).filter_map(leads_from(node_id)),
            decreases s.len() - i,
        {
            proof {
                s.lemma_filter_map_take_succ(leads_from(node_id), i as int);
            }
            let link = self.links.value_at(i);
            let ghost before = r@;
            if link.output_node == node_id {
                r.push(link.input_node);
            }
            assert(r@ =~= s.take(i + 1).filter_map(leads_from(node_id)));
            i = i + 1;
        }
        assert(s.take(s.len() as int) =~= s);
        r
    }
}

/// What kind of object the server announces.
#[derive(Debug, Clone, Copy, PartialEq, Eq, Structural)]
pub enum ObjectKind {
    Node,
    Port,
    Link,
    Metadata,
    Other,
}

/// An object as the server announces it.
#[derive(Debug)]
pub struct GlobalObject {
    pub id: u32,
    pub kind: ObjectKind,
    pub props: Option<PropMap>,
}

/// What the thread tells the rest of the program of its own accord.
#[derive(Debug, PartialEq, Eq)]
pub enum BackendEvent {
    GraphChanged,
    DefaultSinkChanged(Option<String>),
}

/// The text of a property of an announced object.
pub open spec fn told(props: Map<Seq<char>, PropView>, key: Seq<char>) -> Option<Seq<char>> {
    if props.contains_key(key) {
        props[key].text()
    } else {
        None
    }
}

pub open spec fn told_number(props: Map<Seq<char>, PropView>, key: Seq<char>) -> Option<u32> {
    match told(props, key) {
        Some(s) => match number(s) {
            Ok(n) => Some(n),
            Err(_) => None,
        },
        None => None,
    }
}

fn get_text(props: &PropMap, key: &str) -> (r: Option<String>)
    ensures
        opt_text(r) == told(props@, key@),
{
    match props.get(key) {
        Some(v) => match v {
            PropValue::Text(s) => Some(s.clone()),
            _ => None,
        },
        None => None,
    }
}

fn get_number(props: &PropMap, key: &str) -> (r: Option<u32>)
    ensures
        r == told_number(props@, key@),
{
    match get_text(props, key) {
        Some(s) => match parse_number(s.as_str()) {
            Ok(n) => Some(n),
            Err(_) => None,
        },
        None => None,
    }
}

/// The port that is announced, with the node it belongs to.
pub open spec fn announced_port(id: u32, props: Map<Seq<char>, PropView>) -> Option<
    (u32, PortView),
> {
    let direction = match told(props, "port.direction"@) {
        Some(s) => direction_named(s),
        None => None,
    };
    match (told_number(props, "node.id"@), direction) {
        (Some(owner), Some(direction)) => Some(
            (
                owner,
                PortView {
                    id,
                    direction,
                    channel: told(props, "audio.channel"@),
                    port_index: told(props, "port.id"@),
                    path: Some(decimal(id as nat)),
                    port_name: told(props, "port.name"@),
                    object_path: told(props, "object.path"@),
                },
            ),
        ),
        _ => None,
    }
}

fn read_port(id: u32, props: &PropMap) -> (r: Option<(u32, PortRecord)>)
    ensures
        match r {
            Some((owner, p)) => announced_port(id, props@) == Some((owner, p@)),
            None => announced_port(id, props@) is None,
        },
{
    let owner: u32 = match get_number(props, "node.id") {
        Some(n) => n,
        None => {
            return None;
        },
    };
    let direction = match get_text(props, "port.direction") {
        Some(s) => match PortDirection::parse(s.as_str()) {
            Some(d) => d,
            None => {
                return None;
            },
        },
        None => {
            return None;
        },
    };
    Some(
        (
            owner,
            PortRecord {
                id,
                direction,
                channel: get_text(props, "audio.channel"),
                port_index: get_text(props, "port.id"),
                path: Some(decimal_text(id as u64)),
                port_name: get_text(props, "port.name"),
                object_path: get_text(props, "object.path"),
            },
        ),
    )
}

/// The link that is announced.
pub open spec fn announced_link(props: Map<Seq<char>, PropView>) -> Option<LinkRecord> {
    match (
        told_number(props, "link.output.node"@),
        told_number(props, "link.output.port"@),
        told_number(props, "link.input.node"@),
        told_number(props, "link.input.port"@),
    ) {
        (Some(output_node), Some(output_port), Some(input_node), Some(input_port)) => Some(
            LinkRecord { output_node, output_port, input_node, input_port },
        ),
        _ => None,
    }
}

fn read_link(props: &PropMap) -> (r: Option<LinkRecord>)
    ensures
        r == announced_link(props@),
{
    match (
        get_number(props, "link.output.node"),
        get_number(props, "link.output.port"),
        get_number(props, "link.input.node"),
        get_number(props, "link.input.port"),
    ) {
        (Some(output_node), Some(output_port), Some(input_node), Some(input_port)) => Some(
            LinkRecord { output_node, output_port, input_node, input_port },
        ),
        _ => None,
    }
}

/// What the thread knows.
#[derive(Debug)]
pub struct LoopState {
    pub graph: GraphSnapshot,
    /// The node and the direction of each port.
    pub port_owner: IdTable<(u32, PortDirection)>,
    /// The objects that the server has announced and not withdrawn.
    pub known_globals: IdTable<()>,
    /// The handles of the nodes that were made here and are kept alive.
    pub created_nodes: IdTable<()>,
    /// The handles of the links that were made here and are kept alive.
    pub created_links: IdTable<()>,
    /// The ports that were announced before their node, each with its node, in
    /// the order in which they came.
    pub waiting_ports: Vec<(u32, PortRecord)>,
}

pub struct LoopView {
    pub graph: GraphView,
    pub port_owner: Map<u32, (u32, PortDirection)>,
    pub known_globals: Map<u32, ()>,
    pub created_nodes: Map<u32, ()>,
    pub created_links: Map<u32, ()>,
    pub waiting_ports: Seq<(u32, PortView)>,
}

pub open spec fn waiting_views(s: Seq<(u32, PortRecord)>) -> Seq<(u32, PortView)> {
    Seq::new(s.len(), |i: int| (s[i].0, s[i].1@))
}

impl View for LoopState {
    type V = LoopView;

    open spec fn view(&self) -> LoopView {
        LoopView {
            graph: self.graph@,
            port_owner: self.port_owner@,
            known_globals: self.known_globals@,
            created_nodes: self.created_nodes@,
            created_links: self.created_links@,
            waiting_ports: waiting_views(self.waiting_ports@),
        }
    }
}

pub open spec fn waits_for(id: u32) -> spec_fn((u32, PortView)) -> Option<PortView> {
    |w: (u32, PortView)|
        if w.0 == id {
            Some(w.1)
        } else {
            None
        }
}

pub open spec fn waits_for_another(id: u32) -> spec_fn((u32, PortView)) -> bool {
    |w: (u32, PortView)| w.0 != id
}

/// The waiting ports that stay when object `id` is withdrawn: neither the port
/// nor its node is that object.
pub open spec fn stays_without(id: u32) -> spec_fn((u32, PortView)) -> bool {
    |w: (u32, PortView)| w.0 != id && w.1.id != id
}

/// The node that is announced. The ports that are known of it stay, and those
/// that have waited for it follow them.
pub open spec fn announced_node(
    s: LoopView,
    id: u32,
    props: Option<Map<Seq<char>, PropView>>,
) -> NodeView {
    NodeView {
        id,
        props: match props {
            Some(p) => p,
            None => Map::empty(),
        },
        ports: (if s.graph.nodes.contains_key(id) {
            s.graph.nodes[id].ports
        } else {
            Seq::empty()
        }) + s.waiting_ports.filter_map(waits_for(id)),
    }
}

/// A node takes its place, with its ports.
pub open spec fn with_node(
    s: LoopView,
    id: u32,
    props: Option<Map<Seq<char>, PropView>>,
) -> LoopView {
    LoopView {
        graph: GraphView {
            nodes: s.graph.nodes.insert(id, announced_node(s, id, props)),
            ..s.graph
        },
        waiting_ports: s.waiting_ports.filter(waits_for_another(id)),
        ..s
    }
}

/// A port takes its place at the end of the ports of its node or, where the node
/// is not known yet, waits for it.
pub open spec fn with_port(s: LoopView, owner: u32, port: PortView) -> LoopView {
    let nodes = s.graph.nodes;
    if nodes.contains_key(owner) {
        LoopView {
            graph: GraphView {
                nodes: nodes.insert(
                    owner,
                    NodeView { ports: nodes[owner].ports.push(port), ..nodes[owner] },
                ),
                ..s.graph
            },
            ..s
        }
    } else {
        LoopView { waiting_ports: s.waiting_ports.push((owner, port)), ..s }
    }
}

pub open spec fn props_view(props: Option<PropMap>) -> Option<Map<Seq<char>, PropView>> {
    match props {
        Some(p) => Some(p@),
        None => None,
    }
}

/// What an announcement changes, and whether it is worth telling.
pub open spec fn global_transition(s: LoopView, global: GlobalObject) -> (LoopView, bool) {
    let t = LoopView { known_globals: s.known_globals.insert(global.id, ()), ..s };
    match global.kind {
        ObjectKind::Node => (with_node(t, global.id, props_view(global.props)), true),
        ObjectKind::Port => match global.props {
            Some(props) => match announced_port(global.id, props@) {
                Some((owner, port)) => (
                    with_port(
                        LoopView {
                            port_owner: s.port_owner.insert(global.id, (owner, port.direction)),
                            ..t
                        },
                        owner,
                        port,
                    ),
                    true,
                ),
                None => (t, false),
            },
            None => (t, false),
        },
        ObjectKind::Link => match global.props {
            Some(props) => match announced_link(props@) {
                Some(link) => (
                    LoopView {
                        graph: GraphView {
                            links: s.graph.links.insert(global.id, link),
                            ..s.graph
                        },
                        ..t
                    },
                    true,
                ),
                None => (t, false),
            },
            None => (t, false),
        },
        _ => (t, false),
    }
}

/// What the withdrawal of an object changes.
pub open spec fn remove_transition(s: LoopView, id: u32) -> LoopView {
    LoopView {
        graph: GraphView {
            nodes: s.graph.nodes.remove(id),
            links: s.graph.links.remove(id),
            ..s.graph
        },
        port_owner: s.port_owner.remove(id),
        known_globals: s.known_globals.remove(id),
        waiting_ports: s.waiting_ports.filter(stays_without(id)),
        ..s
    }
}

/// The name in the value of the metadata key `default.audio.sink`, which is an
/// object with a member `name`. A value that is no JSON names nothing.
pub open spec fn sink_name_in(value: Option<JsonTree>) -> Option<Seq<char>> {
    match value {
        Some(JsonTree::Object(entries)) => match field(entries, "name"@, text_in()) {
            Some(name) => name,
            None => None,
        },
        _ => None,
    }
}

/// What a metadata property changes, and the name of the default sink that it
/// tells, if it tells one. A value that cannot be read counts as none.
pub open spec fn metadata_transition(
    s: LoopView,
    key: Option<Seq<char>>,
    value: Option<Seq<char>>,
) -> (LoopView, Option<Option<Seq<char>>>) {
    let name = match value {
        Some(text) => sink_name_in(json_in(text)),
        None => None,
    };
    if key == Some("default.audio.sink"@) {
        (with_default_sink(s, name), Some(name))
    } else {
        (s, None)
    }
}

/// The name of the default sink that an event tells.
pub open spec fn told_default(event: Option<BackendEvent>) -> Option<Option<Seq<char>>> {
    match event {
        Some(BackendEvent::DefaultSinkChanged(name)) => Some(opt_text(name)),
        _ => None,
    }
}

pub open spec fn with_default_sink(s: LoopView, name: Option<Seq<char>>) -> LoopView {
    LoopView { graph: GraphView { default_sink_name: name, ..s.graph }, ..s }
}

/// The name lies in the first level of a value.
proof fn lemma_sink_name_cut(value: JsonTree, levels: nat)
    requires
        levels >= 1,
    ensures
        sink_name_in(Some(cut(value, levels))) == sink_name_in(Some(value)),
{
    if let JsonTree::Object(entries) = value {
        lemma_field_cut(entries, "name"@, text_in(), (levels - 1) as nat);
    }
}

/// The sink that a parsed value names, if it could be parsed.
pub fn read_sink_name(parsed: Result<JsonValue, JsonError>) -> (r: Option<String>)
    ensures
        opt_text(r) == sink_name_in(
            match parsed {
                Ok(value) => Some(value@),
                Err(_) => None,
            },
        ),
{
    match parsed {
        Ok(value) => match &value {
            JsonValue::Object(entries) => match read_text(entries, "name") {
                Some(name) => name,
                None => None,
            },
            _ => None,
        },
        Err(_) => None,
    }
}

/// A command to the thread.
#[derive(Debug)]
pub enum Command {
    /// Snapshot the current live graph state.
    Snapshot,
    /// Create a link between an output port and an input port. The answer is a
    /// handle, which is not the id that the server gives the link.
    CreateLink { output_node: u32, output_port: u32, input_node: u32, input_port: u32 },
    /// Destroy a link by its handle.
    DestroyLink { link_handle: u32 },
    /// Create a virtual sink or source. The answer is a handle likewise.
    CreateVirtualNode { node_name: String, node_description: String, media_class: &'static str },
    /// Destroy a virtual node by its handle.
    DestroyNode { node_handle: u32 },
    /// Mute or unmute a node by the id that the server gave it.
    SetMute { node_id: u32, mute: bool },
    /// Make a sink the configured default.
    SetDefaultSink { sink_name: Option<String> },
    Shutdown,
}

/// The objects that are made here.
#[derive(Debug, Clone, Copy, PartialEq, Eq, Structural)]
pub enum CreatedKind {
    Link,
    Node,
}

/// What the thread is to do about a command.
#[derive(Debug)]
pub enum CommandStep {
    /// Answer with this graph.
    Graph(GraphSnapshot),
    /// Ask the factory for an object with these properties, keep it alive and
    /// report what came of it.
    Create { kind: CreatedKind, factory: &'static str, props: Vec<(String, String)> },
    /// Let go of the object with this handle, which removes it, and answer that
    /// it is gone.
    Release { kind: CreatedKind, handle: u32 },
    /// Bind the node, set its mute property and report what came of it.
    Mute { node_id: u32, mute: bool },
    /// Write the default sink.
    WriteDefaultSink { sink_name: Option<String> },
    /// Answer with this error.
    Refuse(BackendError),
    Quit,
}

pub enum CommandStepView {
    Graph(GraphView),
    Create { kind: CreatedKind, factory: Seq<char>, props: Seq<(Seq<char>, Seq<char>)> },
    Release { kind: CreatedKind, handle: u32 },
    Mute { node_id: u32, mute: bool },
    WriteDefaultSink { sink_name: Option<Seq<char>> },
    Refuse(BackendErrorView),
    Quit,
}

pub open spec fn pair_texts(s: Seq<(String, String)>) -> Seq<(Seq<char>, Seq<char>)> {
    Seq::new(s.len(), |i: int| (s[i].0@, s[i].1@))
}

impl View for CommandStep {
    type V = CommandStepView;

    open spec fn view(&self) -> CommandStepView {
        match self {
            CommandStep::Graph(g) => CommandStepView::Graph(g@),
            CommandStep::Create { kind, factory, props } => CommandStepView::Create {
                kind: *kind,
                factory: factory@,
                props: pair_texts(props@),
            },
            CommandStep::Release { kind, handle } => CommandStepView::Release {
                kind: *kind,
                handle: *handle,
            },
            CommandStep::Mute { node_id, mute } => CommandStepView::Mute {
                node_id: *node_id,
                mute: *mute,
            },
            CommandStep::WriteDefaultSink { sink_name } => CommandStepView::WriteDefaultSink {
                sink_name: opt_text(*sink_name),
            },
            CommandStep::Refuse(e) => CommandStepView::Refuse(e@),
            CommandStep::Quit => CommandStepView::Quit,
        }
    }
}

/// The properties of a link between two ports. It lives no longer than it is
/// kept here.
pub open spec fn link_props(
    output_node: u32,
    output_port: u32,
    input_node: u32,
    input_port: u32,
) -> Seq<(Seq<char>, Seq<char>)> {
    seq![
        ("link.output.node"@, decimal(output_node as nat)),
        ("link.output.port"@, decimal(output_port as nat)),
        ("link.input.node"@, decimal(input_node as nat)),
        ("link.input.port"@, decimal(input_port as nat)),
        ("object.linger"@, "false"@),
    ]
}

/// The properties of a virtual node with two channels.
pub open spec fn virtual_node_props(
    name: Seq<char>,
    description: Seq<char>,
    media_class: Seq<char>,
) -> Seq<(Seq<char>, Seq<char>)> {
    seq![
        ("factory.name"@, "support.null-audio-sink"@),
        ("node.name"@, name),
        ("node.description"@, description),
        ("media.class"@, media_class),
        ("audio.position"@, "FL,FR"@),
    ]
}

/// What a command changes and what is to be done about it.
pub open spec fn command_transition(s: LoopView, command: Command) -> (LoopView, CommandStepView) {
    match command {
        Command::Snapshot => (s, CommandStepView::Graph(s.graph)),
        Command::CreateLink { output_node, output_port, input_node, input_port } => (
            s,
            CommandStepView::Create {
                kind: CreatedKind::Link,
                factory: "link-factory"@,
                props: link_props(output_node, output_port, input_node, input_port),
            },
        ),
        Command::DestroyLink { link_handle } => if s.created_links.contains_key(link_handle) {
            (
                LoopView { created_links: s.created_links.remove(link_handle), ..s },
                CommandStepView::Release { kind: CreatedKind::Link, handle: link_handle },
            )
        } else {
            (
                s,
                CommandStepView::Refuse(
                    BackendErrorView::Message(
                        "unknown link handle "@ + decimal(link_handle as nat),
                    ),
                ),
            )
        },
        Command::CreateVirtualNode { node_name, node_description, media_class } => (
            s,
            CommandStepView::Create {
                kind: CreatedKind::Node,
                factory: "adapter"@,
                props: virtual_node_props(node_name@, node_description@, media_class@),
            },
        ),
        Command::DestroyNode { node_handle } => if s.created_nodes.contains_key(node_handle) {
            (
                LoopView { created_nodes: s.created_nodes.remove(node_handle), ..s },
                CommandStepView::Release { kind: CreatedKind::Node, handle: node_handle },
            )
        } else {
            (
                s,
                CommandStepView::Refuse(
                    BackendErrorView::Message(
                        "unknown node handle "@ + decimal(node_handle as nat),
                    ),
                ),
            )
        },
        Command::SetMute { node_id, mute } => (
            s,
            if s.known_globals.contains_key(node_id) {
                CommandStepView::Mute { node_id, mute }
            } else {
                CommandStepView::Refuse(
                    BackendErrorView::Message(
                        "no known global for node "@ + decimal(node_id as nat),
                    ),
                )
            },
        ),
        Command::SetDefaultSink { sink_name } => (
            s,
            CommandStepView::WriteDefaultSink { sink_name: opt_text(sink_name) },
        ),
        Command::Shutdown => (s, CommandStepView::Quit),
    }
}

/// The handle that follows `handle`; the last is followed by the first.
pub open spec fn handle_after(handle: u32) -> u32 {
    if handle == u32::MAX {
        0
    } else {
        (handle + 1) as u32
    }
}

/// The handles of the objects that are made in this process. Every loop draws
/// from the same counter, so that a handle tells an object from all others,
/// whichever loop made it.
#[derive(Debug)]
pub struct HandleCounter {
    /// The handle that is given out next.
    pub next: u32,
}

impl HandleCounter {
    pub fn new() -> (r: Self)
        ensures
            r.next == 1,
    {
        HandleCounter { next: 1 }
    }

    /// Gives out the next handle.
    pub fn next_handle(&mut self) -> (handle: u32)
        ensures
            handle == old(self).next,
            final(self).next == handle_after(handle),
    {
        let handle: u32 = self.next;
        self.next = if handle == 0xffff_ffff {
            0
        } else {
            handle + 1
        };
        handle
    }
}

/// What came of an object that was asked for: the handle by which it is known
/// from now on, which is `next`, or an error. In between stands the handle that
/// is given out after that.
pub open spec fn created_transition(
    s: LoopView,
    next: u32,
    kind: CreatedKind,
    fault: Option<Seq<char>>,
) -> (LoopView, u32, Result<u32, BackendErrorView>) {
    match fault {
        None => (
            match kind {
                CreatedKind::Link => LoopView {
                    created_links: s.created_links.insert(next, ()),
                    ..s
                },
                CreatedKind::Node => LoopView {
                    created_nodes: s.created_nodes.insert(next, ()),
                    ..s
                },
            },
            handle_after(next),
            Ok(next),
        ),
        Some(fault) => (
            s,
            next,
            Err(
                BackendErrorView::Message(
                    (match kind {
                        CreatedKind::Link => "failed to create link: "@,
                        CreatedKind::Node => "failed to create virtual node: "@,
                    }) + fault,
                ),
            ),
        ),
    }
}

/// How far the muting of a node got.
#[derive(Debug)]
pub enum MuteOutcome {
    Done,
    NotBound(String),
    NotBuilt(String),
    NotParsed,
}

pub open spec fn mute_answer(node_id: u32, outcome: MuteOutcome) -> Result<(), BackendErrorView> {
    match outcome {
        MuteOutcome::Done => Ok(()),
        MuteOutcome::NotBound(e) => Err(
            BackendErrorView::Message(
                "failed to bind node "@ + decimal(node_id as nat) + ": "@ + e@,
            ),
        ),
        MuteOutcome::NotBuilt(e) => Err(
            BackendErrorView::Message("failed to build mute props pod: "@ + e@),
        ),
        MuteOutcome::NotParsed => Err(
            BackendErrorView::Message("failed to parse built props pod"@),
        ),
    }
}

fn numbered(text: &str, n: u32) -> (r: BackendError)
    ensures
        r@ == BackendErrorView::Message(text@ + decimal(n as nat)),
{
    let mut message = owned(text);
    push_decimal(&mut message, n as u64);
    BackendError::Message(message)
}

fn prop(key: &str, value: String) -> (r: (String, String))
    ensures
        r.0@ == key@,
        r.1 == value,
{
    (owned(key), value)
}

proof fn lemma_node_views_insert(m: Map<u32, NodeRecord>, id: u32, node: NodeRecord)
    ensures
        node_views(m.insert(id, node)) == node_views(m).insert(id, node@),
{
    assert(node_views(m.insert(id, node)) =~= node_views(m).insert(id, node@));
}

proof fn lemma_node_views_remove(m: Map<u32, NodeRecord>, id: u32)
    ensures
        node_views(m.remove(id)) == node_views(m).remove(id),
{
    assert(node_views(m.remove(id)) =~= node_views(m).remove(id));
}

pub open spec fn fresh_loop() -> LoopView {
    LoopView {
        graph: empty_graph(),
        port_owner: Map::empty(),
        known_globals: Map::empty(),
        created_nodes: Map::empty(),
        created_links: Map::empty(),
        waiting_ports: Seq::empty(),
    }
}

impl LoopState {
    pub fn new() -> (r: Self)
        ensures
            r@ == fresh_loop(),
    {
        let r = LoopState {
            graph: GraphSnapshot::default(),
            port_owner: IdTable::new(),
            known_globals: IdTable::new(),
            created_nodes: IdTable::new(),
            created_links: IdTable::new(),
            waiting_ports: Vec::new(),
        };
        assert(waiting_views(r.waiting_ports@) =~= Seq::<(u32, PortView)>::empty());
        r
    }

    /// Takes the ports that have waited for a node.
    fn take_waiting(&mut self, id: u32) -> (r: Vec<PortRecord>)
        ensures
            port_views(r@) == old(self)@.waiting_ports.filter_map(waits_for(id)),
            final(self)@ == (LoopView {
                waiting_ports: old(self)@.waiting_ports.filter(waits_for_another(id)),
                ..old(self)@
            }),
    {
        let ghost all = waiting_views(self.waiting_ports@);
        let mut kept: Vec<(u32, PortRecord)> = Vec::new();
        let mut taken: Vec<PortRecord> = Vec::new();
        let mut i: usize = 0;
        assert(all.take(0) =~= Seq::<(u32, PortView)>::empty());
        assert(waiting_views(kept@) =~= Seq::<(u32, PortView)>::empty());
        assert(port_views(taken@) =~= Seq::<PortView>::empty());
        while i < self.waiting_ports.len()
            invariant
                all == waiting_views(self.waiting_ports@),
                i <= all.len(),
                waiting_views(kept@) == all.take(i as int).filter(waits_for_another(id)),
                port_views(taken@) == all.take(i as int).filter_map(waits_for(id)),
            decreases all.len() - i,
        {
            let ghost head = all.take(i as int);
            let ghost kept_before = waiting_views(kept@);
            let ghost taken_before = port_views(taken@);
            proof {
                head.lemma_filter_push(all[i as int], waits_for_another(id));
                all.lemma_filter_map_take_succ(waits_for(id), i as int);
                assert(all.take(i + 1) =~= head.push(all[i as int]));
            }
            let (owner, port) = &self.waiting_ports[i];
            if *owner == id {
                taken.push(port.clone());
                assert(port_views(taken@) =~= taken_before.push(all[i as int].1));
            } else {
                kept.push((*owner, port.clone()));
                assert(waiting_views(kept@) =~= kept_before.push(all[i as int]));
            }
            assert(port_views(taken@) =~= all.take(i + 1).filter_map(waits_for(id)));
            i = i + 1;
        }
        assert(all.take(all.len() as int) =~= all);
        self.waiting_ports = kept;
        taken
    }

    /// Forgets the waiting ports that have to do with a withdrawn object.
    fn drop_waiting(&mut self, id: u32)
        ensures
            final(self)@ == (LoopView {
                waiting_ports: old(self)@.waiting_ports.filter(stays_without(id)),
                ..old(self)@
            }),
    {
        let ghost all = waiting_views(self.waiting_ports@);
        let mut kept: Vec<(u32, PortRecord)> = Vec::new();
        let mut i: usize = 0;
        assert(all.take(0) =~= Seq::<(u32, PortView)>::empty());
        assert(waiting_views(kept@) =~= Seq::<(u32, PortView)>::empty());
        while i < self.waiting_ports.len()
            invariant
                all == waiting_views(self.waiting_ports@),
                i <= all.len(),
                waiting_views(kept@) == all.take(i as int).filter(stays_without(id)),
            decreases all.len() - i,
        {
            let ghost head = all.take(i as int);
            let ghost kept_before = waiting_views(kept@);
            proof {
                head.lemma_filter_push(all[i as int], stays_without(id));
                assert(all.take(i + 1) =~= head.push(all[i as int]));
            }
            let (owner, port) = &self.waiting_ports[i];
            if *owner != id && port.id != id {
                kept.push((*owner, port.clone()));
                assert(waiting_views(kept@) =~= kept_before.push(all[i as int]));
            }
            i = i + 1;
        }
        assert(all.take(all.len() as int) =~= all);
        self.waiting_ports = kept;
    }

    fn put_node(&mut self, id: u32, props: Option<PropMap>)
        ensures
            final(self)@ == with_node(old(self)@, id, props_view(props)),
    {
        let mut waited = self.take_waiting(id);
        let ghost before = self.graph.nodes@;
        let props = match props {
            Some(p) => p,
            None => PropMap::new(),
        };
        let ports = match self.graph.nodes.remove(id) {
            Some(existing) => existing.ports,
            None => {
                let none: Vec<PortRecord> = Vec::new();
                assert(port_views(none@) =~= Seq::<PortView>::empty());
                none
            },
        };
        let mut ports = ports;
        let ghost had = ports@;
        let ghost late = waited@;
        ports.append(&mut waited);
        assert(port_views(ports@) =~= port_views(had) + port_views(late));
        let node = NodeRecord { id, props, ports };
        proof {
            lemma_node_views_remove(before, id);
            lemma_node_views_insert(before.remove(id), id, node);
            assert(node_views(before).remove(id).insert(id, node@) =~= node_views(before).insert(
                id,
                node@,
            ));
        }
        self.graph.nodes.insert(id, node);
    }

    fn put_port(&mut self, owner: u32, port: PortRecord)
        ensures
            final(self)@ == with_port(old(self)@, owner, port@),
    {
        let ghost before = self.graph.nodes@;
        match self.graph.nodes.remove(owner) {
            Some(node) => {
                let mut node = node;
                let ghost had = port_views(node.ports@);
                let ghost view = port@;
                node.ports.push(port);
                proof {
                    assert(port_views(node.ports@) =~= had.push(view));
                    lemma_node_views_remove(before, owner);
                    lemma_node_views_insert(before.remove(owner), owner, node);
                    assert(node_views(before).remove(owner).insert(owner, node@) =~= node_views(
                        before,
                    ).insert(owner, node@));
                }
                self.graph.nodes.insert(owner, node);
            },
            None => {
                let ghost had = waiting_views(self.waiting_ports@);
                let ghost view = port@;
                self.waiting_ports.push((owner, port));
                assert(waiting_views(self.waiting_ports@) =~= had.push((owner, view)));
                assert(before.remove(owner) =~= before);
            },
        }
    }

    /// Takes note of an object that the server announces.
    pub fn on_global(&mut self, global: GlobalObject) -> (event: Option<BackendEvent>)
        ensures
            final(self)@ == global_transition(old(self)@, global).0,
            event == (if global_transition(old(self)@, global).1 {
                Some(BackendEvent::GraphChanged)
            } else {
                None
            }),
    {
        self.known_globals.insert(global.id, ());
        match global.kind {
            ObjectKind::Node => {
                self.put_node(global.id, global.props);
                Some(BackendEvent::GraphChanged)
            },
            ObjectKind::Port => match global.props {
                Some(props) => match read_port(global.id, &props) {
                    Some((owner, port)) => {
                        self.port_owner.insert(global.id, (owner, port.direction));
                        self.put_port(owner, port);
                        Some(BackendEvent::GraphChanged)
                    },
                    None => None,
                },
                None => None,
            },
            ObjectKind::Link => match global.props {
                Some(props) => match read_link(&props) {
                    Some(link) => {
                        self.graph.links.insert(global.id, link);
                        Some(BackendEvent::GraphChanged)
                    },
                    None => None,
                },
                None => None,
            },
            _ => None,
        }
    }

    /// Takes note that an object is gone.
    pub fn on_global_remove(&mut self, id: u32) -> (event: BackendEvent)
        ensures
            final(self)@ == remove_transition(old(self)@, id),
            event == BackendEvent::GraphChanged,
    {
        self.drop_waiting(id);
        proof {
            lemma_node_views_remove(self.graph.nodes@, id);
        }
        self.graph.nodes.remove(id);
        self.graph.links.remove(id);
        self.port_owner.remove(id);
        self.known_globals.remove(id);
        BackendEvent::GraphChanged
    }

    /// Takes note of the name of the default sink.
    pub fn on_default_sink(&mut self, name: Option<String>) -> (event: BackendEvent)
        ensures
            final(self)@ == with_default_sink(old(self)@, opt_text(name)),
            event matches BackendEvent::DefaultSinkChanged(n) && opt_text(n) == opt_text(name),
    {
        self.graph.default_sink_name = copy_opt(&name);
        BackendEvent::DefaultSinkChanged(name)
    }

    /// Takes note of a metadata property. A value that cannot be read counts as
    /// none.
    pub fn on_metadata_property(&mut self, key: Option<&str>, value: Option<&str>) -> (event:
        Option<BackendEvent>)
        ensures
            ({
                let name = match value {
                    Some(text) => sink_name_in(json_in(text@)),
                    None => None,
                };
                if key matches Some(k) && k@ == "default.audio.sink"@ {
                    &&& final(self)@ == with_default_sink(old(self)@, name)
                    &&& event matches Some(BackendEvent::DefaultSinkChanged(n)) && opt_text(n)
                        == name
                } else {
                    final(self)@ == old(self)@ && event is None
                }
            }),
            (final(self)@, told_default(event)) == metadata_transition(
                old(self)@,
                (match key {
                    Some(k) => Some(k@),
                    None => None,
                }),
                (match value {
                    Some(text) => Some(text@),
                    None => None,
                }),
            ),
    {
        let concerned = match key {
            Some(k) => text_eq(k, "default.audio.sink"),
            None => false,
        };
        if !concerned {
            return None;
        }
        let name = match value {
            Some(text) => {
                proof {
                    if let Some(value) = json_in(text@) {
                        lemma_sink_name_cut(value, LEVELS_READ as nat);
                    }
                }
                read_sink_name(read_json(text))
            },
            None => None,
        };
        Some(self.on_default_sink(name))
    }

    /// Decides on a command.
    pub fn handle_command(&mut self, command: Command) -> (step: CommandStep)
        ensures
            (final(self)@, step@) == command_transition(old(self)@, command),
    {
        match command {
            Command::Snapshot => CommandStep::Graph(self.graph.clone()),
            Command::CreateLink { output_node, output_port, input_node, input_port } => {
                let props = vec![
                    prop("link.output.node", decimal_text(output_node as u64)),
                    prop("link.output.port", decimal_text(output_port as u64)),
                    prop("link.input.node", decimal_text(input_node as u64)),
                    prop("link.input.port", decimal_text(input_port as u64)),
                    prop("object.linger", owned("false")),
                ];
                assert(pair_texts(props@) =~= link_props(
                    output_node,
                    output_port,
                    input_node,
                    input_port,
                ));
                CommandStep::Create { kind: CreatedKind::Link, factory: "link-factory", props }
            },
            Command::DestroyLink { link_handle } => {
                if self.created_links.remove(link_handle).is_some() {
                    CommandStep::Release { kind: CreatedKind::Link, handle: link_handle }
                } else {
                    assert(self@.created_links =~= old(self)@.created_links);
                    CommandStep::Refuse(numbered("unknown link handle ", link_handle))
                }
            },
            Command::CreateVirtualNode { node_name, node_description, media_class } => {
                let ghost expected = virtual_node_props(
                    node_name@,
                    node_description@,
                    media_class@,
                );
                let props = vec![
                    prop("factory.name", owned("support.null-audio-sink")),
                    prop("node.name", node_name),
                    prop("node.description", node_description),
                    prop("media.class", owned(media_class)),
                    prop("audio.position", owned("FL,FR")),
                ];
                assert(pair_texts(props@) =~= expected);
                CommandStep::Create { kind: CreatedKind::Node, factory: "adapter", props }
            },
            Command::DestroyNode { node_handle } => {
                if self.created_nodes.remove(node_handle).is_some() {
                    CommandStep::Release { kind: CreatedKind::Node, handle: node_handle }
                } else {
                    assert(self@.created_nodes =~= old(self)@.created_nodes);
                    CommandStep::Refuse(numbered("unknown node handle ", node_handle))
                }
            },
            Command::SetMute { node_id, mute } => {
                if self.known_globals.contains(node_id) {
                    CommandStep::Mute { node_id, mute }
                } else {
                    CommandStep::Refuse(numbered("no known global for node ", node_id))
                }
            },
            Command::SetDefaultSink { sink_name } => CommandStep::WriteDefaultSink { sink_name },
            Command::Shutdown => CommandStep::Quit,
        }
    }

    /// Takes note of what came of an object that was asked for.
    pub fn on_created(
        &mut self,
        handles: &mut HandleCounter,
        kind: CreatedKind,
        result: Result<(), String>,
    ) -> (r: Result<u32, BackendError>)
        ensures
            ({
                let fault = match result {
                    Ok(_) => None,
                    Err(e) => Some(e@),
                };
                (final(self)@, final(handles).next, crate::error::outcome(r)) == created_transition(
                    old(self)@,
                    old(handles).next,
                    kind,
                    fault,
                )
            }),
    {
        match result {
            Ok(_) => {
                let handle = handles.next_handle();
                match kind {
                    CreatedKind::Link => {
                        self.created_links.insert(handle, ());
                    },
                    CreatedKind::Node => {
                        self.created_nodes.insert(handle, ());
                    },
                }
                Ok(handle)
            },
            Err(fault) => {
                let text = match kind {
                    CreatedKind::Link => "failed to create link: ",
                    CreatedKind::Node => "failed to create virtual node: ",
                };
                Err(BackendError::Message(cat(text, fault.as_str())))
            },
        }
    }
}

/// The announced object is the metadata in which the server keeps its defaults.
pub open spec fn is_default_metadata(global: GlobalObject) -> bool {
    global.kind == ObjectKind::Metadata && (global.props matches Some(props) && told(
        props@,
        "metadata.name"@,
    ) == Some("default"@))
}

/// Whether the properties of an announced object are to be followed.
pub fn wants_metadata(global: &GlobalObject) -> (r: bool)
    ensures
        r == is_default_metadata(*global),
{
    match global.kind {
        ObjectKind::Metadata => match &global.props {
            Some(props) => match get_text(props, "metadata.name") {
                Some(name) => text_eq(name.as_str(), "default"),
                None => false,
            },
            None => false,
        },
        _ => false,
    }
}

/// The answer to a request to mute a node.
pub fn answer_mute(node_id: u32, outcome: MuteOutcome) -> (r: Result<(), BackendError>)
    ensures
        crate::error::outcome(r) == mute_answer(node_id, outcome),
{
    match outcome {
        MuteOutcome::Done => Ok(()),
        MuteOutcome::NotBound(e) => {
            let mut message = owned("failed to bind node ");
            push_decimal(&mut message, node_id as u64);
            push_text(&mut message, ": ");
            push_text(&mut message, e.as_str());
            Err(BackendError::Message(message))
        },
        MuteOutcome::NotBuilt(e) => Err(
            BackendError::Message(cat("failed to build mute props pod: ", e.as_str())),
        ),
        MuteOutcome::NotParsed => Err(BackendError::message("failed to parse built props pod")),
    }
}

/// An answer of the thread, which may never come.
pub fn recv_result<T>(reply: Option<Result<T, BackendError>>) -> (r: Result<T, BackendError>)
    ensures
        match reply {
            Some(answer) => r == answer,
            None => r matches Err(e) && e@ == BackendErrorView::Message(
                "pipewire thread did not respond"@,
            ),
        },
{
    match reply {
        Some(answer) => answer,
        None => Err(BackendError::message("pipewire thread did not respond")),
    }
}

/// What is answered where the thread no longer takes commands.
pub fn not_running() -> (r: BackendError)
    ensures
        r@ == BackendErrorView::Message("pipewire thread is not running"@),
{
    BackendError::message("pipewire thread is not running")
}

/// What happens while the first announcements are waited for.
pub enum ReadyEvent {
    Asked { now: u64, timeout: u64 },
    Looked { graph: Result<GraphSnapshot, BackendError>, now: u64, deadline: u64 },
    LookedLast { graph: Result<GraphSnapshot, BackendError> },
}

pub enum ReadyStep {
    /// Pause and snapshot the graph.
    Look { pause_ms: u64, deadline: u64 },
    /// Snapshot the graph a last time.
    LookLast,
    Done(GraphSnapshot),
}

/// How long the first nodes of the graph are waited for, in nanoseconds.
pub const READY_TIMEOUT: u64 = 3_000_000_000;

/// The pause between two looks, in milliseconds.
pub const READY_POLL_DELAY: u64 = 50;

/// Waits until the graph has a node, but not beyond the timeout; then takes the
/// graph as it is.
pub fn wait_ready(event: ReadyEvent) -> (step: ReadyStep)
    ensures
        match event {
            ReadyEvent::Asked { now, timeout } => step == (ReadyStep::Look {
                pause_ms: 0,
                deadline: crate::state::later(now, timeout),
            }),
            ReadyEvent::Looked { graph, now, deadline } => match graph {
                Ok(g) if g.nodes.entries().len() > 0 => step == ReadyStep::Done(g),
                _ => step == (if now >= deadline {
                    ReadyStep::LookLast
                } else {
                    ReadyStep::Look { pause_ms: READY_POLL_DELAY, deadline }
                }),
            },
            ReadyEvent::LookedLast { graph } => match graph {
                Ok(g) => step == ReadyStep::Done(g),
                Err(_) => step matches ReadyStep::Done(g) && g@ == empty_graph(),
            },
        },
{
    match event {
        ReadyEvent::Asked { now, timeout } => ReadyStep::Look {
            pause_ms: 0,
            deadline: crate::state::moment_after(now, timeout),
        },
        ReadyEvent::Looked { graph, now, deadline } => {
            match graph {
                Ok(g) => {
                    if !g.nodes.is_empty() {
                        return ReadyStep::Done(g);
                    }
                },
                Err(_) => {},
            }
            if now >= deadline {
                ReadyStep::LookLast
            } else {
                ReadyStep::Look { pause_ms: READY_POLL_DELAY, deadline }
            }
        },
        ReadyEvent::LookedLast { graph } => match graph {
            Ok(g) => ReadyStep::Done(g),
            Err(_) => ReadyStep::Done(GraphSnapshot::default()),
        },
    }
}

/// Every node stands under its own id.
pub open spec fn filed(s: LoopView) -> bool {
    forall|id: u32| #[trigger] s.graph.nodes.contains_key(id) ==> s.graph.nodes[id].id == id
}

/// Every node of the graph stands under its own id: so it is at the start, and
/// neither an announcement nor a withdrawal nor a command changes that.
pub proof fn nodes_are_filed_under_their_ids(
    s: LoopView,
    global: GlobalObject,
    id: u32,
    command: Command,
)
    requires
        filed(s),
    ensures
        filed(fresh_loop()),
        filed(global_transition(s, global).0),
        filed(remove_transition(s, id)),
        filed(command_transition(s, command).0),
{
}

/// No port waits for a node that is known.
pub open spec fn none_overlooked(s: LoopView) -> bool {
    forall|i: int|
        0 <= i < s.waiting_ports.len() ==> !s.graph.nodes.contains_key(
            (#[trigger] s.waiting_ports[i]).0,
        )
}

/// No port ever waits for a node that is known.
pub proof fn known_nodes_have_their_ports(
    s: LoopView,
    global: GlobalObject,
    id: u32,
    command: Command,
)
    requires
        none_overlooked(s),
    ensures
        none_overlooked(fresh_loop()),
        none_overlooked(global_transition(s, global).0),
        none_overlooked(remove_transition(s, id)),
        none_overlooked(command_transition(s, command).0),
{
    let w = s.waiting_ports;
    let kept = w.filter(waits_for_another(global.id));
    assert forall|i: int| 0 <= i < kept.len() implies (#[trigger] kept[i]).0 != global.id
        && w.contains(kept[i]) by {
        w.lemma_filter_pred(waits_for_another(global.id), i);
        w.lemma_filter_contains_rev(waits_for_another(global.id), kept[i]);
    }
    let left = w.filter(stays_without(id));
    assert forall|i: int| 0 <= i < left.len() implies w.contains(#[trigger] left[i]) by {
        w.lemma_filter_contains_rev(stays_without(id), left[i]);
    }
}

proof fn lemma_none_waits(w: Seq<(u32, PortView)>, id: u32)
    requires
        forall|i: int| 0 <= i < w.len() ==> (#[trigger] w[i]).0 != id,
    ensures
        w.filter_map(waits_for(id)) == Seq::<PortView>::empty(),
    decreases w.len(),
{
    if w.len() > 0 {
        assert(w.last().0 != id);
        lemma_none_waits(w.drop_last(), id);
    }
}

/// A node and a port of it may be announced in either order: what is known after
/// both is the same.
pub proof fn ports_may_come_before_their_node(
    s: LoopView,
    node: GlobalObject,
    port: GlobalObject,
)
    requires
        none_overlooked(s),
        node.kind == ObjectKind::Node,
        port.kind == ObjectKind::Port,
        port.props matches Some(props) && (announced_port(port.id, props@) matches Some((owner, _))
            && owner == node.id),
    ensures
        global_transition(global_transition(s, port).0, node).0 == global_transition(
            global_transition(s, node).0,
            port,
        ).0,
{
    let w = s.waiting_ports;
    let found = announced_port(port.id, port.props->0@)->0;
    let p = found.1;
    let a = global_transition(global_transition(s, port).0, node).0;
    let b = global_transition(global_transition(s, node).0, port).0;
    if s.graph.nodes.contains_key(node.id) {
        lemma_none_waits(w, node.id);
    } else {
        let longer = w.push((node.id, p));
        assert(longer.drop_last() =~= w);
        w.lemma_filter_push((node.id, p), waits_for_another(node.id));
        assert(longer.filter_map(waits_for(node.id)) =~= w.filter_map(waits_for(node.id)).push(p));
    }
    assert(a.known_globals =~= b.known_globals);
    assert(a.graph.nodes[node.id].ports =~= b.graph.nodes[node.id].ports);
    assert(a.graph.nodes =~= b.graph.nodes);
}

/// A node that is announced again keeps its ports, and nothing of a node is left
/// once it is withdrawn.
pub proof fn nodes_come_and_go(s: LoopView, global: GlobalObject)
    requires
        none_overlooked(s),
        global.kind == ObjectKind::Node,
    ensures
        s.graph.nodes.contains_key(global.id) ==> global_transition(
            s,
            global,
        ).0.graph.nodes[global.id].ports == s.graph.nodes[global.id].ports,
        remove_transition(global_transition(s, global).0, global.id).graph.nodes
            == s.graph.nodes.remove(global.id),
{
    let t = global_transition(s, global).0;
    assert(t.graph.nodes.remove(global.id) =~= s.graph.nodes.remove(global.id));
    if s.graph.nodes.contains_key(global.id) {
        lemma_none_waits(s.waiting_ports, global.id);
        assert(t.graph.nodes[global.id].ports =~= s.graph.nodes[global.id].ports);
    }
}

/// An object is announced with all of the properties in `list`.
pub open spec fn carries(
    props: Map<Seq<char>, PropView>,
    list: Seq<(Seq<char>, Seq<char>)>,
) -> bool {
    forall|i: int| 0 <= i < list.len() ==> told(props, (#[trigger] list[i]).0) == Some(list[i].1)
}

/// A link that is announced with the ends it was asked for with is known by
/// these ends.
pub proof fn links_are_known_as_they_were_asked_for(
    props: Map<Seq<char>, PropView>,
    link: LinkRecord,
)
    requires
        carries(
            props,
            link_props(link.output_node, link.output_port, link.input_node, link.input_port),
        ),
    ensures
        announced_link(props) == Some(link),
{
    let p = link_props(link.output_node, link.output_port, link.input_node, link.input_port);
    assert(told(props, p[0].0) == Some(p[0].1));
    assert(told(props, p[1].0) == Some(p[1].1));
    assert(told(props, p[2].0) == Some(p[2].1));
    assert(told(props, p[3].0) == Some(p[3].1));
    crate::text::number_reads_decimal(link.output_node);
    crate::text::number_reads_decimal(link.output_port);
    crate::text::number_reads_decimal(link.input_node);
    crate::text::number_reads_decimal(link.input_port);
}

/// The handle that call number `n` of a process gets, counted from zero.
pub open spec fn nth_handle(n: nat) -> u32
    decreases n,
{
    if n == 0 {
        1
    } else {
        handle_after(nth_handle((n - 1) as nat))
    }
}

/// The first handle is 1 and, until all have been given out, a later handle is
/// larger than an earlier one, whichever loops they are for.
pub proof fn later_handles_are_larger(n: nat, m: nat)
    requires
        n < m,
        m < u32::MAX,
    ensures
        nth_handle(0) == 1,
        nth_handle(n) == n + 1,
        nth_handle(n) < nth_handle(m),
{
    lemma_nth_handle(n);
    lemma_nth_handle(m);
}

proof fn lemma_nth_handle(n: nat)
    requires
        n < u32::MAX,
    ensures
        nth_handle(n) == n + 1,
    decreases n,
{
    if n > 0 {
        lemma_nth_handle((n - 1) as nat);
    }
}

/// Every handle in use was given out before the handle `next`.
pub open spec fn handles_in_order(s: LoopView, next: u32) -> bool {
    &&& forall|h: u32| #[trigger] s.created_links.contains_key(h) ==> h < next
    &&& forall|h: u32| #[trigger] s.created_nodes.contains_key(h) ==> h < next
}

/// Until all handles have been given out once, a new object gets a handle that
/// is in use for no object, neither in its own loop nor in another one.
pub proof fn new_handles_are_fresh(s: LoopView, other: LoopView, next: u32, kind: CreatedKind)
    requires
        handles_in_order(s, next),
        handles_in_order(other, next),
        next < u32::MAX,
    ensures
        ({
            let (t, after, r) = created_transition(s, next, kind, None);
            &&& r == Ok::<u32, BackendErrorView>(next)
            &&& !s.created_links.contains_key(next) && !s.created_nodes.contains_key(next)
            &&& !other.created_links.contains_key(next) && !other.created_nodes.contains_key(next)
            &&& next < after
            &&& handles_in_order(t, after) && handles_in_order(other, after)
        }),
{
}

/// Commands and announcements keep the order of the handles.
pub proof fn handles_stay_in_order(
    s: LoopView,
    next: u32,
    command: Command,
    global: GlobalObject,
    id: u32,
)
    requires
        handles_in_order(s, next),
    ensures
        handles_in_order(fresh_loop(), next),
        handles_in_order(command_transition(s, command).0, next),
        handles_in_order(global_transition(s, global).0, next),
        handles_in_order(remove_transition(s, id), next),
{
}

/// A link that was made can be destroyed once by its handle, and a second time
/// the handle is unknown.
pub proof fn links_are_destroyed_once(s: LoopView, next: u32)
    requires
        !s.created_links.contains_key(next),
    ensures
        ({
            let made = created_transition(s, next, CreatedKind::Link, None).0;
            let (gone, first) = command_transition(
                made,
                Command::DestroyLink { link_handle: next },
            );
            let second = command_transition(gone, Command::DestroyLink { link_handle: next }).1;
            &&& first == (CommandStepView::Release { kind: CreatedKind::Link, handle: next })
            &&& gone.created_links == s.created_links
            &&& second is Refuse
        }),
{
    assert(s.created_links.insert(next, ()).remove(next) =~= s.created_links);
}

/// The word for a direction, in either of its forms.
pub open spec fn points(props: Map<Seq<char>, PropView>, d: PortDirection) -> bool {
    match d {
        PortDirection::Input => says(props, "port.direction"@, "in"@) || says(
            props,
            "port.direction"@,
            "input"@,
        ),
        PortDirection::Output => says(props, "port.direction"@, "out"@) || says(
            props,
            "port.direction"@,
            "output"@,
        ),
    }
}

/// A port that is announced with the id of a known node and with a direction
/// stands last among the ports of that node, and each thing that it was
/// announced with is known of it: its channel from `audio.channel`, its index
/// from `port.id`, its names from `port.name` and `object.path`, and its path,
/// which is its id. What it was not announced with it does not have.
pub proof fn announced_ports_stand_at_their_node(
    s: LoopView,
    global: GlobalObject,
    props: PropMap,
    owner: u32,
    d: PortDirection,
    t: Seq<char>,
)
    requires
        global.kind == ObjectKind::Port,
        global.props == Some(props),
        says(props@, "node.id"@, decimal(owner as nat)),
        points(props@, d),
        s.graph.nodes.contains_key(owner),
    ensures
        ({
            let (after, told) = global_transition(s, global);
            let node = after.graph.nodes[owner];
            let p = node.ports.last();
            &&& told
            &&& after.graph.nodes.dom() == s.graph.nodes.dom()
            &&& node.ports.len() > 0 && node.ports.drop_last() == s.graph.nodes[owner].ports
            &&& node.props == s.graph.nodes[owner].props && node.id == s.graph.nodes[owner].id
            &&& p.id == global.id
            &&& p.direction == d
            &&& p.path == Some(decimal(global.id as nat))
            &&& (p.channel == Some(t)) == says(props@, "audio.channel"@, t)
            &&& p.channel is None == says_nothing(props@, "audio.channel"@)
            &&& (p.port_index == Some(t)) == says(props@, "port.id"@, t)
            &&& p.port_index is None == says_nothing(props@, "port.id"@)
            &&& (p.port_name == Some(t)) == says(props@, "port.name"@, t)
            &&& p.port_name is None == says_nothing(props@, "port.name"@)
            &&& (p.object_path == Some(t)) == says(props@, "object.path"@, t)
            &&& p.object_path is None == says_nothing(props@, "object.path"@)
            &&& after.port_owner.contains_key(global.id) && after.port_owner[global.id] == (
                owner,
                d,
            )
        }),
{
    lemma_announced_port(global.id, props@, owner, d);
    let (after, told) = global_transition(s, global);
    assert(after.graph.nodes.dom() =~= s.graph.nodes.dom());
    assert(after.graph.nodes[owner].ports.drop_last() =~= s.graph.nodes[owner].ports);
}

proof fn lemma_announced_port(
    id: u32,
    props: Map<Seq<char>, PropView>,
    owner: u32,
    d: PortDirection,
)
    requires
        says(props, "node.id"@, decimal(owner as nat)),
        points(props, d),
    ensures
        announced_port(id, props) matches Some((o, p)) && o == owner && p.direction == d && p.id
            == id,
{
    crate::text::number_reads_decimal(owner);
    four_words_name_a_direction("in"@);
    four_words_name_a_direction("input"@);
    four_words_name_a_direction("out"@);
    four_words_name_a_direction("output"@);
}

/// A port that is announced before its node waits for it, and then stands at it
/// as it was announced.
pub proof fn early_ports_wait_for_their_node(
    s: LoopView,
    port: GlobalObject,
    node: GlobalObject,
    props: PropMap,
    d: PortDirection,
    t: Seq<char>,
)
    requires
        port.kind == ObjectKind::Port,
        port.props == Some(props),
        node.kind == ObjectKind::Node,
        says(props@, "node.id"@, decimal(node.id as nat)),
        points(props@, d),
        none_overlooked(s),
        !s.graph.nodes.contains_key(node.id),
    ensures
        global_transition(s, port).0.graph == s.graph,
        ({
            let after = global_transition(global_transition(s, port).0, node).0;
            let p = after.graph.nodes[node.id].ports.last();
            &&& after.graph.nodes.contains_key(node.id)
            &&& after.graph.nodes[node.id].ports.len() > 0
            &&& p.id == port.id && p.direction == d
            &&& (p.channel == Some(t)) == says(props@, "audio.channel"@, t)
        }),
{
    lemma_announced_port(port.id, props@, node.id, d);
    ports_may_come_before_their_node(s, node, port);
    let known = global_transition(s, node).0;
    announced_ports_stand_at_their_node(known, port, props, node.id, d, t);
}

/// A port that is announced without the id of a node or without a direction is
/// passed over, and so is an object that is announced without properties, unless
/// it is a node.
pub proof fn objects_that_tell_too_little_are_passed_over(s: LoopView, global: GlobalObject)
    requires
        match global.props {
            Some(props) => {
                ||| global.kind == ObjectKind::Port && (says_nothing(props@, "node.id"@)
                    || says_nothing(props@, "port.direction"@) || !points(
                    props@,
                    PortDirection::Input,
                ) && !points(props@, PortDirection::Output))
                ||| global.kind == ObjectKind::Link && (says_nothing(props@, "link.output.node"@)
                    || says_nothing(props@, "link.output.port"@) || says_nothing(
                    props@,
                    "link.input.node"@,
                ) || says_nothing(props@, "link.input.port"@))
                ||| global.kind == ObjectKind::Metadata || global.kind == ObjectKind::Other
            },
            None => global.kind != ObjectKind::Node,
        },
    ensures
        !global_transition(s, global).1,
        global_transition(s, global).0 == (LoopView {
            known_globals: s.known_globals.insert(global.id, ()),
            ..s
        }),
{
    if let Some(props) = global.props {
        if let Some(word) = told(props@, "port.direction"@) {
            assert(says(props@, "port.direction"@, word));
            four_words_name_a_direction(word);
        }
    }
}

/// An announced node is in the graph with the properties that it was announced
/// with, and the announcement changes no other node and no link.
pub proof fn announced_nodes_have_their_properties(s: LoopView, global: GlobalObject, id: u32)
    requires
        global.kind == ObjectKind::Node,
    ensures
        ({
            let (after, told) = global_transition(s, global);
            let node = after.graph.nodes[global.id];
            &&& told
            &&& after.graph.nodes.contains_key(global.id)
            &&& node.id == global.id
            &&& global.props matches Some(props) ==> node.props == props@
            &&& global.props is None ==> node.props == Map::<Seq<char>, PropView>::empty()
            &&& after.known_globals.contains_key(global.id)
            &&& id != global.id ==> after.graph.nodes.contains_key(id)
                == s.graph.nodes.contains_key(id) && after.graph.nodes[id] == s.graph.nodes[id]
            &&& after.graph.links == s.graph.links
            &&& after.graph.default_sink_name == s.graph.default_sink_name
            &&& after.created_links == s.created_links && after.created_nodes == s.created_nodes
        }),
{
}

/// A link that is announced with its four ends is known by its id, each end from
/// the property that names it, and the announcement changes nothing else of the
/// graph.
pub proof fn announced_links_are_known_by_their_ends(
    s: LoopView,
    global: GlobalObject,
    props: PropMap,
    output_node: u32,
    output_port: u32,
    input_node: u32,
    input_port: u32,
)
    requires
        global.kind == ObjectKind::Link,
        global.props == Some(props),
        says(props@, "link.output.node"@, decimal(output_node as nat)),
        says(props@, "link.output.port"@, decimal(output_port as nat)),
        says(props@, "link.input.node"@, decimal(input_node as nat)),
        says(props@, "link.input.port"@, decimal(input_port as nat)),
    ensures
        ({
            let (after, told) = global_transition(s, global);
            let link = after.graph.links[global.id];
            &&& told
            &&& after.graph.links.dom() == s.graph.links.dom().insert(global.id)
            &&& link.output_node == output_node && link.output_port == output_port
            &&& link.input_node == input_node && link.input_port == input_port
            &&& after.graph.nodes == s.graph.nodes
            &&& after.graph.default_sink_name == s.graph.default_sink_name
            &&& after.known_globals.contains_key(global.id)
        }),
{
    crate::text::number_reads_decimal(output_node);
    crate::text::number_reads_decimal(output_port);
    crate::text::number_reads_decimal(input_node);
    crate::text::number_reads_decimal(input_port);
    assert(global_transition(s, global).0.graph.links.dom() =~= s.graph.links.dom().insert(
        global.id,
    ));
}

/// What is withdrawn is gone as a node, as a link and as a port, no port waits
/// for it or is it any longer, and everything else stays.
pub proof fn withdrawing_removes_one_object(s: LoopView, id: u32, other: u32, w: (u32, PortView))
    requires
        other != id,
    ensures
        ({
            let after = remove_transition(s, id);
            &&& !after.graph.nodes.contains_key(id)
            &&& !after.graph.links.contains_key(id)
            &&& !after.port_owner.contains_key(id)
            &&& !after.known_globals.contains_key(id)
            &&& after.graph.nodes.contains_key(other) == s.graph.nodes.contains_key(other)
            &&& after.graph.nodes[other] == s.graph.nodes[other]
            &&& after.graph.links.contains_key(other) == s.graph.links.contains_key(other)
            &&& after.graph.links[other] == s.graph.links[other]
            &&& after.port_owner.contains_key(other) == s.port_owner.contains_key(other)
            &&& after.port_owner[other] == s.port_owner[other]
            &&& after.known_globals.contains_key(other) == s.known_globals.contains_key(other)
            &&& after.waiting_ports.contains(w) == (s.waiting_ports.contains(w) && w.0 != id
                && w.1.id != id)
            &&& after.graph.default_sink_name == s.graph.default_sink_name
            &&& after.created_links == s.created_links && after.created_nodes == s.created_nodes
        }),
{
    let stays = stays_without(id);
    let kept = s.waiting_ports.filter(stays);
    if kept.contains(w) {
        s.waiting_ports.lemma_filter_contains_rev(stays, w);
        s.waiting_ports.lemma_filter_pred(stays, kept.index_of(w));
    }
    if s.waiting_ports.contains(w) && stays(w) {
        s.waiting_ports.lemma_filter_contains(stays, s.waiting_ports.index_of(w));
    }
}

/// A link is asked for with the ends that the command gives, each under the
/// property that names it, and so that it goes when it is let go of; a virtual
/// node with its name, its description and its class, with a left and a right
/// channel. Asking changes nothing of what is known.
pub proof fn objects_are_asked_for_as_commanded(
    s: LoopView,
    output_node: u32,
    output_port: u32,
    input_node: u32,
    input_port: u32,
    node_name: String,
    node_description: String,
    media_class: &'static str,
)
    ensures
        ({
            let (after, step) = command_transition(
                s,
                Command::CreateLink { output_node, output_port, input_node, input_port },
            );
            &&& after == s
            &&& step matches CommandStepView::Create { kind, factory, props } && kind
                == CreatedKind::Link && factory == "link-factory"@ && props.len() == 5
                && props.contains(("link.output.node"@, decimal(output_node as nat)))
                && props.contains(("link.output.port"@, decimal(output_port as nat)))
                && props.contains(("link.input.node"@, decimal(input_node as nat)))
                && props.contains(("link.input.port"@, decimal(input_port as nat)))
                && props.contains(("object.linger"@, "false"@))
        }),
        ({
            let (after, step) = command_transition(
                s,
                Command::CreateVirtualNode { node_name, node_description, media_class },
            );
            &&& after == s
            &&& step matches CommandStepView::Create { kind, factory, props } && kind
                == CreatedKind::Node && factory == "adapter"@ && props.len() == 5
                && props.contains(("factory.name"@, "support.null-audio-sink"@))
                && props.contains(("node.name"@, node_name@))
                && props.contains(("node.description"@, node_description@))
                && props.contains(("media.class"@, media_class@))
                && props.contains(("audio.position"@, "FL,FR"@))
        }),
{
    let l = link_props(output_node, output_port, input_node, input_port);
    assert(l.contains(l[0]) && l.contains(l[1]) && l.contains(l[2]) && l.contains(l[3])
        && l.contains(l[4]));
    let v = virtual_node_props(node_name@, node_description@, media_class@);
    assert(v.contains(v[0]) && v.contains(v[1]) && v.contains(v[2]) && v.contains(v[3])
        && v.contains(v[4]));
}

/// A handle releases the object that it was given for, and none of the other
/// kind: where it is known the object is let go of and the handle forgotten, and
/// where it is not the command is refused by that handle and nothing changes.
pub proof fn handles_release_their_own_object(s: LoopView, handle: u32, other: u32)
    requires
        other != handle,
    ensures
        ({
            let (after, step) = command_transition(
                s,
                Command::DestroyLink { link_handle: handle },
            );
            &&& after.created_nodes == s.created_nodes && after.graph == s.graph
            &&& !after.created_links.contains_key(handle)
            &&& after.created_links.contains_key(other) == s.created_links.contains_key(other)
            &&& s.created_links.contains_key(handle) ==> step == (CommandStepView::Release {
                kind: CreatedKind::Link,
                handle,
            })
            &&& !s.created_links.contains_key(handle) ==> step == CommandStepView::Refuse(
                BackendErrorView::Message("unknown link handle "@ + decimal(handle as nat)),
            )
        }),
        ({
            let (after, step) = command_transition(
                s,
                Command::DestroyNode { node_handle: handle },
            );
            &&& after.created_links == s.created_links && after.graph == s.graph
            &&& !after.created_nodes.contains_key(handle)
            &&& after.created_nodes.contains_key(other) == s.created_nodes.contains_key(other)
            &&& s.created_nodes.contains_key(handle) ==> step == (CommandStepView::Release {
                kind: CreatedKind::Node,
                handle,
            })
            &&& !s.created_nodes.contains_key(handle) ==> step == CommandStepView::Refuse(
                BackendErrorView::Message("unknown node handle "@ + decimal(handle as nat)),
            )
        }),
{
}

/// A known node is muted exactly as it was asked for, an unknown one not at all;
/// the default sink that is written is the one that was given; a snapshot is the
/// graph as it stands; and none of this changes what is known.
pub proof fn commands_pass_on_what_they_were_given(
    s: LoopView,
    node_id: u32,
    mute: bool,
    sink_name: Option<String>,
)
    ensures
        ({
            let (after, step) = command_transition(s, Command::SetMute { node_id, mute });
            &&& after == s
            &&& s.known_globals.contains_key(node_id) ==> step == (CommandStepView::Mute {
                node_id,
                mute,
            })
            &&& !s.known_globals.contains_key(node_id) ==> step == CommandStepView::Refuse(
                BackendErrorView::Message("no known global for node "@ + decimal(node_id as nat)),
            )
        }),
        command_transition(s, Command::SetDefaultSink { sink_name }) == (
            s,
            CommandStepView::WriteDefaultSink {
                sink_name: match sink_name {
                    Some(name) => Some(name@),
                    None => None,
                },
            },
        ),
        command_transition(s, Command::Snapshot) == (s, CommandStepView::Graph(s.graph)),
        command_transition(s, Command::Shutdown) == (s, CommandStepView::Quit),
{
}

/// An object that was made is kept under the handle that is answered, among the
/// objects of its own kind; one that was not made leaves everything as it is,
/// uses up no handle, and the answer tells its kind and the fault.
pub proof fn made_objects_are_kept_by_their_handle(
    s: LoopView,
    next: u32,
    other: u32,
    fault: Seq<char>,
)
    requires
        other != next,
    ensures
        ({
            let (t, after, r) = created_transition(s, next, CreatedKind::Link, None);
            &&& r == Ok::<u32, BackendErrorView>(next)
            &&& t.created_links.contains_key(next) && t.created_nodes == s.created_nodes
            &&& t.created_links.contains_key(other) == s.created_links.contains_key(other)
            &&& t.graph == s.graph && t.known_globals == s.known_globals
            &&& after != next
        }),
        ({
            let (t, after, r) = created_transition(s, next, CreatedKind::Node, None);
            &&& r == Ok::<u32, BackendErrorView>(next)
            &&& t.created_nodes.contains_key(next) && t.created_links == s.created_links
            &&& t.created_nodes.contains_key(other) == s.created_nodes.contains_key(other)
            &&& t.graph == s.graph && t.known_globals == s.known_globals
            &&& after != next
        }),
        created_transition(s, next, CreatedKind::Link, Some(fault)) == (
            s,
            next,
            Err::<u32, BackendErrorView>(
                BackendErrorView::Message("failed to create link: "@ + fault),
            ),
        ),
        created_transition(s, next, CreatedKind::Node, Some(fault)) == (
            s,
            next,
            Err::<u32, BackendErrorView>(
                BackendErrorView::Message("failed to create virtual node: "@ + fault),
            ),
        ),
{
}

/// The default sink is what the last member `name` of the value says; a value
/// that is no object, has no such member or has one that is no text names none.
pub proof fn the_default_sink_is_named_by_its_value(
    entries: Seq<(Seq<char>, JsonTree)>,
    i: int,
    name: Seq<char>,
)
    requires
        0 <= i < entries.len() ==> entries[i] == ("name"@, JsonTree::Text(name)),
        forall|j: int| i < j < entries.len() ==> (#[trigger] entries[j]).0 != "name"@,
    ensures
        0 <= i && i < entries.len() && (forall|j: int|
            0 <= j < entries.len() && (#[trigger] entries[j]).0 == "name"@ ==> entries[j].1 is Text)
            ==> sink_name_in(Some(JsonTree::Object(entries))) == Some(name),
        i < 0 ==> sink_name_in(Some(JsonTree::Object(entries))) is None,
        (exists|j: int|
            0 <= j < entries.len() && (#[trigger] entries[j]).0 == "name"@ && !(entries[j].1
                is Text)) ==> sink_name_in(Some(JsonTree::Object(entries))) is None,
        sink_name_in(None) is None,
        sink_name_in(Some(JsonTree::Text(name))) is None,
{
    members_are_read_from_the_last(entries, "name"@, text_in(), i);
    if i < 0 {
        assert forall|j: int| 0 <= j < entries.len() implies (#[trigger] entries[j]).0
            != "name"@ by {}
    }
    if exists|j: int|
        0 <= j < entries.len() && (#[trigger] entries[j]).0 == "name"@ && !(entries[j].1 is Text) {
        let j = choose|j: int|
            0 <= j < entries.len() && (#[trigger] entries[j]).0 == "name"@ && !(entries[j].1
                is Text);
        assert(text_in()(entries[j].1) is None);
    }
}

/// Only the metadata that is named `default` is followed.
pub proof fn only_the_default_metadata_is_followed(global: GlobalObject)
    ensures
        is_default_metadata(global) == (global.kind == ObjectKind::Metadata && (global.props
            matches Some(props) && says(props@, "metadata.name"@, "default"@))),
{
}

/// The links that lead out of a node lead to the nodes at their other ends, one
/// for each link.
pub proof fn targets_are_the_other_ends(graph: GraphSnapshot, node_id: u32, target: u32)
    ensures
        graph.targets(node_id).contains(target) == (exists|e: (u32, LinkRecord)| #[trigger]
            graph.links.entries().contains(e) && e.1.output_node == node_id && e.1.input_node
                == target),
{
    let s = graph.links.entries();
    let f = leads_from(node_id);
    if graph.targets(node_id).contains(target) {
        s.lemma_filter_map_contains(f, target);
        let e = choose|e: (u32, LinkRecord)| #[trigger] s.contains(e) && f(e) == Some(target);
        assert(e.1.output_node == node_id && e.1.input_node == target);
    }
    if exists|e: (u32, LinkRecord)| #[trigger]
        s.contains(e) && e.1.output_node == node_id && e.1.input_node == target {
        let e = choose|e: (u32, LinkRecord)| #[trigger]
            s.contains(e) && e.1.output_node == node_id && e.1.input_node == target;
        lemma_target(s, node_id, s.index_of(e));
    }
}

proof fn lemma_target(s: Seq<(u32, LinkRecord)>, node_id: u32, i: int)
    requires
        0 <= i < s.len(),
        s[i].1.output_node == node_id,
    ensures
        s.filter_map(leads_from(node_id)).contains(s[i].1.input_node),
    decreases s.len(),
{
    let f = leads_from(node_id);
    let n = s.len() - 1;
    s.lemma_filter_map_take_succ(f, n);
    assert(s.take(n + 1) =~= s);
    let head = s.take(n);
    let all = s.filter_map(f);
    if i == n {
        assert(all[head.filter_map(f).len() as int] == s[i].1.input_node);
    } else {
        assert(head[i] == s[i]);
        lemma_target(head, node_id, i);
        let k = head.filter_map(f).index_of(s[i].1.input_node);
        assert(all[k] == s[i].1.input_node);
    }
}

/// How far the muting of a node got is told apart, with the node and the fault.
pub proof fn faults_of_muting_are_told_apart(node_id: u32, e: String)
    ensures
        mute_answer(node_id, MuteOutcome::Done) is Ok,
        mute_answer(node_id, MuteOutcome::NotBound(e)) == Err::<(), BackendErrorView>(
            BackendErrorView::Message(
                "failed to bind node "@ + decimal(node_id as nat) + ": "@ + e@,
            ),
        ),
        mute_answer(node_id, MuteOutcome::NotBuilt(e)) == Err::<(), BackendErrorView>(
            BackendErrorView::Message("failed to build mute props pod: "@ + e@),
        ),
        mute_answer(node_id, MuteOutcome::NotParsed) == Err::<(), BackendErrorView>(
            BackendErrorView::Message("failed to parse built props pod"@),
        ),
{
}

/// Waiting for the first nodes ends with the first look that finds one. Before
/// the deadline every other look is followed by one a twentieth of a second
/// later, with the same deadline, and after it by a last one, which ends the
/// waiting whatever it finds.
pub proof fn waiting_ends_with_the_first_node(
    graph: Result<GraphSnapshot, BackendError>,
    now: u64,
    deadline: u64,
    step: ReadyStep,
    last: ReadyStep,
)
    requires
        call_ensures(wait_ready, (ReadyEvent::Looked { graph, now, deadline },), step),
        call_ensures(wait_ready, (ReadyEvent::LookedLast { graph },), last),
    ensures
        ({
            let found = graph matches Ok(g) && g.nodes.entries().len() > 0;
            &&& found ==> step == ReadyStep::Done(graph->Ok_0)
            &&& !found && now < deadline ==> step == (ReadyStep::Look { pause_ms: 50, deadline })
            &&& !found && now >= deadline ==> step is LookLast
            &&& graph is Ok ==> last == ReadyStep::Done(graph->Ok_0)
            &&& graph is Err ==> (last matches ReadyStep::Done(g)
                && g@.nodes.dom() == Set::<u32>::empty() && g@.links.dom() == Set::<u32>::empty()
                && g@.default_sink_name is None)
        }),
{
}

/// Only the key of the default sink is followed: what its value names is known
/// as the default from then on and told, and where the value is withdrawn none
/// is; every other key changes and tells nothing. Nothing else of the graph is
/// touched.
pub proof fn only_the_key_of_the_default_sink_is_followed(
    s: LoopView,
    key: Seq<char>,
    value: Option<Seq<char>>,
    text: Seq<char>,
)
    ensures
        key != "default.audio.sink"@ ==> metadata_transition(s, Some(key), value) == (
            s,
            None::<Option<Seq<char>>>,
        ),
        metadata_transition(s, None, value) == (s, None::<Option<Seq<char>>>),
        ({
            let (after, told) = metadata_transition(s, Some("default.audio.sink"@), Some(text));
            &&& after.graph.default_sink_name == sink_name_in(json_in(text))
            &&& told == Some(sink_name_in(json_in(text)))
            &&& after.graph.nodes == s.graph.nodes && after.graph.links == s.graph.links
            &&& after.known_globals == s.known_globals && after.waiting_ports == s.waiting_ports
        }),
        ({
            let (after, told) = metadata_transition(s, Some("default.audio.sink"@), None);
            &&& after.graph.default_sink_name is None
            &&& told == Some(None::<Seq<char>>)
        }),
{
}

/// An answer of the thread is passed on as it is, and a thread that does not
/// answer or does not run is told as such.
pub proof fn answers_of_the_thread_are_passed_on<T>(
    answer: Result<T, BackendError>,
    given: Result<T, BackendError>,
    missing: Result<T, BackendError>,
    stopped: BackendError,
)
    requires
        call_ensures(recv_result::<T>, (Some(answer),), given),
        call_ensures(recv_result::<T>, (None,), missing),
        call_ensures(not_running, (), stopped),
    ensures
        given == answer,
        missing matches Err(e) && e@ == BackendErrorView::Message(
            "pipewire thread did not respond"@,
        ),
        stopped@ == BackendErrorView::Message("pipewire thread is not running"@),
{
}

/// An announced port changes nothing but the ports of its node and what is known
/// of the port itself: every other node, the links, the default sink, the waiting
/// ports and what was made here stay as they are.
pub proof fn announced_ports_change_their_node_alone(
    s: LoopView,
    global: GlobalObject,
    props: PropMap,
    owner: u32,
    d: PortDirection,
    other: u32,
)
    requires
        global.kind == ObjectKind::Port,
        global.props == Some(props),
        says(props@, "node.id"@, decimal(owner as nat)),
        points(props@, d),
        s.graph.nodes.contains_key(owner),
        other != owner,
    ensures
        ({
            let after = global_transition(s, global).0;
            &&& after.graph.nodes[other] == s.graph.nodes[other]
            &&& after.graph.links == s.graph.links
            &&& after.graph.default_sink_name == s.graph.default_sink_name
            &&& after.waiting_ports == s.waiting_ports
            &&& after.created_links == s.created_links && after.created_nodes == s.created_nodes
            &&& after.known_globals == s.known_globals.insert(global.id, ())
            &&& after.port_owner == s.port_owner.insert(global.id, (owner, d))
        }),
{
    lemma_announced_port(global.id, props@, owner, d);
}

/// An announced node takes the ports that waited for it, and no others; an
/// announced link changes no other link.
pub proof fn announcements_leave_the_rest_alone(
    s: LoopView,
    node: GlobalObject,
    link: GlobalObject,
    other: u32,
    w: (u32, PortView),
)
    requires
        node.kind == ObjectKind::Node,
        link.kind == ObjectKind::Link,
        other != link.id,
    ensures
        ({
            let after = global_transition(s, node).0;
            &&& after.waiting_ports.contains(w) == (s.waiting_ports.contains(w) && w.0 != node.id)
            &&& s.waiting_ports.contains(w) && w.0 == node.id
                ==> after.graph.nodes[node.id].ports.contains(w.1)
            &&& after.port_owner == s.port_owner
        }),
        ({
            let after = global_transition(s, link).0;
            &&& after.graph.links.contains_key(other) == s.graph.links.contains_key(other)
            &&& after.graph.links[other] == s.graph.links[other]
            &&& after.graph.nodes == s.graph.nodes && after.port_owner == s.port_owner
            &&& after.waiting_ports == s.waiting_ports
            &&& after.created_links == s.created_links && after.created_nodes == s.created_nodes
        }),
{
    let stays = waits_for_another(node.id);
    let kept = s.waiting_ports.filter(stays);
    if kept.contains(w) {
        s.waiting_ports.lemma_filter_contains_rev(stays, w);
        s.waiting_ports.lemma_filter_pred(stays, kept.index_of(w));
    }
    if s.waiting_ports.contains(w) && stays(w) {
        s.waiting_ports.lemma_filter_contains(stays, s.waiting_ports.index_of(w));
    }
    if s.waiting_ports.contains(w) && w.0 == node.id {
        let i = s.waiting_ports.index_of(w);
        lemma_waiting_joins(s.waiting_ports, node.id, i);
        let had = if s.graph.nodes.contains_key(node.id) {
            s.graph.nodes[node.id].ports
        } else {
            Seq::empty()
        };
        let came = s.waiting_ports.filter_map(waits_for(node.id));
        let j = came.index_of(w.1);
        assert((had + came)[had.len() + j] == w.1);
    }
}

proof fn lemma_waiting_joins(w: Seq<(u32, PortView)>, id: u32, i: int)
    requires
        0 <= i < w.len(),
        w[i].0 == id,
    ensures
        w.filter_map(waits_for(id)).contains(w[i].1),
    decreases w.len(),
{
    let f = waits_for(id);
    let n = w.len() - 1;
    w.lemma_filter_map_take_succ(f, n);
    assert(w.take(n + 1) =~= w);
    let head = w.take(n);
    let all = w.filter_map(f);
    if i == n {
        assert(all[head.filter_map(f).len() as int] == w[i].1);
    } else {
        assert(head[i] == w[i]);
        lemma_waiting_joins(head, id, i);
        let j = head.filter_map(f).index_of(w[i].1);
        assert(all[j] == w[i].1);
    }
}

/// The loop begins with nothing known and nothing made, and a view of it shows
/// each thing that it holds in its own place.
pub proof fn views_of_the_loop_show_what_it_holds(s: LoopState, g: GraphSnapshot, i: int)
    ensures
        fresh_loop().graph.nodes.dom() == Set::<u32>::empty(),
        fresh_loop().graph.links.dom() == Set::<u32>::empty(),
        fresh_loop().graph.default_sink_name is None,
        fresh_loop().waiting_ports.len() == 0,
        fresh_loop().created_nodes.dom() == Set::<u32>::empty(),
        fresh_loop().created_links.dom() == Set::<u32>::empty(),
        s@.graph == s.graph@,
        s@.port_owner == s.port_owner@,
        s@.known_globals == s.known_globals@,
        s@.created_nodes == s.created_nodes@,
        s@.created_links == s.created_links@,
        s@.waiting_ports.len() == s.waiting_ports@.len(),
        0 <= i < s.waiting_ports@.len() ==> s@.waiting_ports[i] == (
            s.waiting_ports@[i].0,
            s.waiting_ports@[i].1@,
        ),
        g@.links == g.links@,
        g@.default_sink_name == opt_text(g.default_sink_name),
        forall|id: u32| #[trigger]
            g@.nodes.contains_key(id) == g.nodes@.contains_key(id) && (g.nodes@.contains_key(id)
                ==> g@.nodes[id] == g.nodes@[id]@),
{
}

/// A view of what is to be done about a command shows each thing that it carries
/// in its own place.
pub proof fn views_of_commands_show_what_they_carry(
    g: GraphSnapshot,
    kind: CreatedKind,
    factory: &'static str,
    props: Vec<(String, String)>,
    handle: u32,
    mute: bool,
    name: Option<String>,
    e: BackendError,
    i: int,
)
    ensures
        CommandStep::Graph(g)@ == CommandStepView::Graph(g@),
        (CommandStep::Create { kind, factory, props })@ matches CommandStepView::Create {
            kind: k,
            factory: f,
            props: p,
        } && k == kind && f == factory@ && p.len() == props@.len() && (0 <= i < p.len() ==> p[i] == (
            props@[i].0@,
            props@[i].1@,
        )),
        (CommandStep::Release { kind, handle })@ == (CommandStepView::Release { kind, handle }),
        (CommandStep::Mute { node_id: handle, mute })@ == (CommandStepView::Mute {
            node_id: handle,
            mute,
        }),
        (CommandStep::WriteDefaultSink { sink_name: name })@ == (
        CommandStepView::WriteDefaultSink { sink_name: opt_text(name) }),
        CommandStep::Refuse(e)@ == CommandStepView::Refuse(e@),
        CommandStep::Quit@ is Quit,
{
}

/// The first handle of a process is 1, and the first nodes of the graph are
/// looked for at once and for as long as was asked, which is three seconds where
/// nothing else is said.
pub proof fn the_loop_begins_at_once(
    handles: HandleCounter,
    now: u64,
    timeout: u64,
    step: ReadyStep,
)
    requires
        call_ensures(HandleCounter::new, (), handles),
        call_ensures(wait_ready, (ReadyEvent::Asked { now, timeout },), step),
    ensures
        handles.next == 1,
        now + timeout <= u64::MAX ==> step == (ReadyStep::Look {
            pause_ms: 0,
            deadline: (now + timeout) as u64,
        }),
        READY_TIMEOUT == 3_000_000_000,
{
}

/// A handle is followed by the next larger one, and the largest by zero.
pub proof fn handles_are_counted_up(handle: u32)
    ensures
        handle < u32::MAX ==> handle_after(handle) == handle + 1,
        handle_after(u32::MAX) == 0,
{
}

} // verus!
