//! The graph as `pw-dump` prints it.

use vstd::prelude::*;
use crate::error::{BackendError, BackendErrorView, JsonError};
use crate::json::{
    all_fit, cut, cut_list, each_is, field, find_member, integer_text, json_in, last_is,
    lemma_field_cut, lemma_last_is, lemma_member, lemma_prop_map_cut, lemma_readable, member,
    members, prop_map, read_json, read_text, read_text_or_null,
    text_in, text_or_null_in, to_props, trees, JsonTree, JsonValue, LEVELS_READ, PropMap, PropView,
};
use crate::models::{
    a_walk_finds_the_first, as_text, direction_named, first_node, four_words_name_a_direction,
    lemma_first_node, node_views, port_views, says, NodeRecord, NodeView, PortDirection,
    PortRecord, PortView,
};
use crate::table::IdTable;
use crate::text::{
    decimal, decimal_text, number, number_reads_decimal, opt_text, parse_number, text_eq,
};

verus! {

/// How often a graph is read before its faults are believed.
pub const GRAPH_RETRY_ATTEMPTS: u32 = 8;

/// The pause between two tries, in milliseconds.
pub const GRAPH_RETRY_DELAY: u64 = 50;

/// One object of a dump.
#[derive(Debug)]
pub struct RawPwObject {
    pub id: u32,
    pub kind: String,
    pub props: PropMap,
    pub direction: Option<String>,
}

pub struct RawView {
    pub id: u32,
    pub kind: Seq<char>,
    pub props: Map<Seq<char>, PropView>,
    pub direction: Option<Seq<char>>,
}

impl View for RawPwObject {
    type V = RawView;

    open spec fn view(&self) -> RawView {
        RawView {
            id: self.id,
            kind: self.kind@,
            props: self.props@,
            direction: opt_text(self.direction),
        }
    }
}

pub open spec fn raw_views(s: Seq<RawPwObject>) -> Seq<RawView> {
    Seq::new(s.len(), |i: int| s[i]@)
}

/// The properties in an object.
pub open spec fn props_in() -> spec_fn(JsonTree) -> Option<Map<Seq<char>, PropView>> {
    |t: JsonTree|
        match t {
            JsonTree::Object(entries) => Some(prop_map(entries)),
            _ => None,
        }
}

pub open spec fn id_in() -> spec_fn(JsonTree) -> Option<u32> {
    |t: JsonTree|
        match t {
            JsonTree::Unsigned(n) => if n <= u32::MAX {
                Some(n as u32)
            } else {
                None
            },
            _ => None,
        }
}

/// The properties and the direction in an `info`. Either may be missing, and the
/// direction may be null.
pub open spec fn info_in() -> spec_fn(JsonTree) -> Option<
    (Map<Seq<char>, PropView>, Option<Seq<char>>),
> {
    |t: JsonTree|
        match t {
            JsonTree::Object(entries) => match (
                field(entries, "props"@, props_in()),
                field(entries, "direction"@, text_or_null_in()),
            ) {
                (Some(props), Some(direction)) => Some(
                    (
                        match props {
                            Some(p) => p,
                            None => Map::empty(),
                        },
                        match direction {
                            Some(d) => d,
                            None => None,
                        },
                    ),
                ),
                _ => None,
            },
            _ => None,
        }
}

/// An object of a dump, if `value` is one: it has an id, a type and, where
/// there is an `info`, one that can be read.
pub open spec fn raw_object(value: JsonTree) -> Option<RawView> {
    match value {
        JsonTree::Object(entries) => match (
            field(entries, "id"@, id_in()),
            field(entries, "type"@, text_in()),
            field(entries, "info"@, info_in()),
        ) {
            (Some(Some(id)), Some(Some(kind)), Some(info)) => Some(
                match info {
                    Some(info) => RawView { id, kind, props: info.0, direction: info.1 },
                    None => RawView { id, kind, props: Map::empty(), direction: None },
                },
            ),
            _ => None,
        },
        _ => None,
    }
}

/// The objects of a dump, if every one can be read.
pub open spec fn raw_list(list: Seq<JsonTree>) -> Option<Seq<RawView>>
    decreases list.len(),
{
    if list.len() == 0 {
        Some(Seq::empty())
    } else {
        match (raw_list(list.drop_last()), raw_object(list.last())) {
            (Some(head), Some(last)) => Some(head.push(last)),
            _ => None,
        }
    }
}

pub open spec fn raw_objects(value: JsonTree) -> Option<Seq<RawView>> {
    match value {
        JsonTree::Array(list) => raw_list(list),
        _ => None,
    }
}

fn is_object(value: &JsonValue) -> (r: bool)
    ensures
        r == (props_in()(value@) is Some),
{
    matches!(value, JsonValue::Object(_))
}

fn is_id(value: &JsonValue) -> (r: bool)
    ensures
        r == (id_in()(value@) is Some),
{
    match value {
        JsonValue::Unsigned(n) => *n <= 0xffff_ffff,
        _ => false,
    }
}

fn read_props(entries: &Vec<(String, JsonValue)>) -> (r: Option<PropMap>)
    ensures
        match r {
            Some(props) => match field(members(entries@), "props"@, props_in()) {
                Some(Some(p)) => props@ == p,
                Some(None) => props@ == Map::<Seq<char>, PropView>::empty(),
                None => false,
            },
            None => field(members(entries@), "props"@, props_in()) is None,
        },
{
    let fit = all_fit(entries, "props", is_object);
    proof {
        lemma_readable(entries@, "props"@, props_in(), fit);
        lemma_member(members(entries@), "props"@);
    }
    if !fit {
        return None;
    }
    match find_member(entries, "props") {
        Some(JsonValue::Object(inner)) => Some(to_props(inner)),
        _ => Some(PropMap::new()),
    }
}

fn read_id(entries: &Vec<(String, JsonValue)>) -> (r: Option<Option<u32>>)
    ensures
        r == field(members(entries@), "id"@, id_in()),
{
    let fit = all_fit(entries, "id", is_id);
    proof {
        lemma_readable(entries@, "id"@, id_in(), fit);
        lemma_member(members(entries@), "id"@);
    }
    if !fit {
        return None;
    }
    match find_member(entries, "id") {
        Some(JsonValue::Unsigned(n)) => if *n <= 0xffff_ffff {
            Some(Some(*n as u32))
        } else {
            None
        },
        _ => Some(None),
    }
}

fn read_info(value: &JsonValue) -> (r: Option<(PropMap, Option<String>)>)
    ensures
        match r {
            Some((props, direction)) => info_in()(value@) == Some((props@, opt_text(direction))),
            None => info_in()(value@) is None,
        },
{
    match value {
        JsonValue::Object(entries) => match (
            read_props(entries),
            read_text_or_null(entries, "direction"),
        ) {
            (Some(props), Some(direction)) => Some((props, direction)),
            _ => None,
        },
        _ => None,
    }
}

fn is_info(value: &JsonValue) -> (r: bool)
    ensures
        r == (info_in()(value@) is Some),
{
    read_info(value).is_some()
}

/// An `info` that is missing says nothing.
fn read_info_member(entries: &Vec<(String, JsonValue)>) -> (r: Option<(PropMap, Option<String>)>)
    ensures
        match r {
            Some((props, direction)) => match field(members(entries@), "info"@, info_in()) {
                Some(Some(info)) => info == (props@, opt_text(direction)),
                Some(None) => props@ == Map::<Seq<char>, PropView>::empty() && direction is None,
                None => false,
            },
            None => field(members(entries@), "info"@, info_in()) is None,
        },
{
    let fit = all_fit(entries, "info", is_info);
    proof {
        lemma_readable(entries@, "info"@, info_in(), fit);
        lemma_member(members(entries@), "info"@);
    }
    if !fit {
        return None;
    }
    match find_member(entries, "info") {
        Some(v) => read_info(v),
        None => Some((PropMap::new(), None)),
    }
}

fn read_object(value: &JsonValue) -> (r: Option<RawPwObject>)
    ensures
        match r {
            Some(o) => raw_object(value@) == Some(o@),
            None => raw_object(value@) is None,
        },
{
    let entries = match value {
        JsonValue::Object(entries) => entries,
        _ => {
            return None;
        },
    };
    match (read_id(entries), read_text(entries, "type"), read_info_member(entries)) {
        (Some(Some(id)), Some(Some(kind)), Some((props, direction))) => Some(
            RawPwObject { id, kind, props, direction },
        ),
        _ => None,
    }
}

proof fn lemma_raw_list_take(list: Seq<JsonTree>, i: int)
    requires
        0 <= i <= list.len(),
        raw_list(list.take(i)) is None,
    ensures
        raw_list(list) is None,
    decreases list.len() - i,
{
    if i < list.len() {
        assert(list.take(i + 1).drop_last() =~= list.take(i));
        lemma_raw_list_take(list, i + 1);
    } else {
        assert(list.take(i) =~= list);
    }
}

/// Reads the objects of a dump.
pub fn read_objects(value: &JsonValue) -> (r: Result<Vec<RawPwObject>, JsonError>)
    ensures
        match r {
            Ok(v) => raw_objects(value@) == Some(raw_views(v@)),
            Err(_) => raw_objects(value@) is None,
        },
{
    let list = match value {
        JsonValue::Array(list) => list,
        _ => {
            return Err(JsonError);
        },
    };
    let ghost all = trees(list@);
    let mut r: Vec<RawPwObject> = Vec::new();
    let mut i: usize = 0;
    assert(raw_views(r@) =~= Seq::<RawView>::empty());
    while i < list.len()
        invariant
            i <= list@.len(),
            all == trees(list@),
            raw_list(all.take(i as int)) == Some(raw_views(r@)),
            raw_objects(value@) == raw_list(all),
        decreases list@.len() - i,
    {
        let ghost before = raw_views(r@);
        let ghost next = all.take(i + 1);
        assert(next.drop_last() =~= all.take(i as int));
        assert(next.last() == list@[i as int]@);
        match read_object(&list[i]) {
            Some(o) => {
                r.push(o);
                assert(raw_views(r@) =~= before.push(o@));
            },
            None => {
                proof {
                    lemma_raw_list_take(all, i + 1);
                }
                return Err(JsonError);
            },
        }
        i = i + 1;
    }
    assert(all.take(list@.len() as int) =~= all);
    Ok(r)
}

impl RawView {
    /// Property `key` as text, if it is a string or a number.
    pub open spec fn scalar(self, key: Seq<char>) -> Option<Seq<char>> {
        if self.props.contains_key(key) {
            self.props[key].scalar()
        } else {
            None
        }
    }

    pub open spec fn is_node(self) -> bool {
        self.kind == "PipeWire:Interface:Node"@
    }

    pub open spec fn is_port(self) -> bool {
        self.kind == "PipeWire:Interface:Port"@
    }

    /// The node that a port belongs to.
    pub open spec fn owner(self) -> Option<u32> {
        match self.scalar("node.id"@) {
            Some(s) => match number(s) {
                Ok(n) => Some(n),
                Err(_) => None,
            },
            None => None,
        }
    }

    /// The direction of a port: that of its `info`, or else its property.
    pub open spec fn port_direction(self) -> Option<PortDirection> {
        let told = match self.direction {
            Some(s) => direction_named(s),
            None => None,
        };
        match told {
            Some(d) => Some(d),
            None => match self.scalar("port.direction"@) {
                Some(s) => direction_named(s),
                None => None,
            },
        }
    }

    /// The port that this object is, with the node it belongs to.
    pub open spec fn port(self) -> Option<(u32, PortView)> {
        match (self.owner(), self.port_direction()) {
            (Some(owner), Some(direction)) => if self.is_port() {
                Some(
                    (
                        owner,
                        PortView {
                            id: self.id,
                            direction,
                            channel: self.scalar("audio.channel"@),
                            port_index: match self.scalar("port.id"@) {
                                Some(s) => Some(s),
                                None => self.scalar("port.index"@),
                            },
                            path: Some(decimal(self.id as nat)),
                            port_name: self.scalar("port.name"@),
                            object_path: self.scalar("object.path"@),
                        },
                    ),
                )
            } else {
                None
            },
            _ => None,
        }
    }
}

/// The properties of node `id`: those of the last object that is this node.
pub open spec fn node_props(objects: Seq<RawView>, id: u32) -> Option<Map<Seq<char>, PropView>>
    decreases objects.len(),
{
    if objects.len() == 0 {
        None
    } else if objects.last().is_node() && objects.last().id == id {
        Some(objects.last().props)
    } else {
        node_props(objects.drop_last(), id)
    }
}

pub open spec fn port_here() -> spec_fn(RawView) -> Option<(u32, PortView)> {
    |o: RawView| o.port()
}

/// All ports of a dump with the nodes they belong to, in the order of the dump.
pub open spec fn all_ports(objects: Seq<RawView>) -> Seq<(u32, PortView)> {
    objects.filter_map(port_here())
}

pub open spec fn owned_by(id: u32) -> spec_fn((u32, PortView)) -> Option<PortView> {
    |e: (u32, PortView)|
        if e.0 == id {
            Some(e.1)
        } else {
            None
        }
}

/// The ports of node `id` among `ports`.
pub open spec fn ports_of(ports: Seq<(u32, PortView)>, id: u32) -> Seq<PortView> {
    ports.filter_map(owned_by(id))
}

/// The graph that a dump describes. A port whose node is not in the dump is not
/// in the graph.
pub open spec fn graph(objects: Seq<RawView>) -> Map<u32, NodeView> {
    Map::new(
        |id: u32| node_props(objects, id) is Some,
        |id: u32|
            NodeView {
                id,
                props: node_props(objects, id)->0,
                ports: ports_of(all_ports(objects), id),
            },
    )
}

impl RawPwObject {
    fn scalar_prop(&self, key: &str) -> (r: Option<String>)
        ensures
            opt_text(r) == self@.scalar(key@),
    {
        match self.props.get(key) {
            Some(v) => v.scalar_text(),
            None => None,
        }
    }

    fn read_owner(&self) -> (r: Option<u32>)
        ensures
            r == self@.owner(),
    {
        match self.scalar_prop("node.id") {
            Some(s) => match parse_number(s.as_str()) {
                Ok(n) => Some(n),
                Err(_) => None,
            },
            None => None,
        }
    }

    fn read_direction(&self) -> (r: Option<PortDirection>)
        ensures
            r == self@.port_direction(),
    {
        let told = match as_text(&self.direction) {
            Some(s) => PortDirection::parse(s),
            None => None,
        };
        if told.is_some() {
            return told;
        }
        match self.scalar_prop("port.direction") {
            Some(s) => PortDirection::parse(s.as_str()),
            None => None,
        }
    }

    /// The port that this object is, with the node it belongs to.
    fn read_port(&self) -> (r: Option<(u32, PortRecord)>)
        ensures
            match r {
                Some((owner, p)) => self@.port() == Some((owner, p@)),
                None => self@.port() is None,
            },
    {
        if !text_eq(self.kind.as_str(), "PipeWire:Interface:Port") {
            return None;
        }
        let owner: u32 = match self.read_owner() {
            Some(id) => id,
            None => {
                return None;
            },
        };
        let direction = match self.read_direction() {
            Some(d) => d,
            None => {
                return None;
            },
        };
        let port_index = match self.scalar_prop("port.id") {
            Some(s) => Some(s),
            None => self.scalar_prop("port.index"),
        };
        Some(
            (
                owner,
                PortRecord {
                    id: self.id,
                    direction,
                    channel: self.scalar_prop("audio.channel"),
                    port_index,
                    path: Some(decimal_text(self.id as u64)),
                    port_name: self.scalar_prop("port.name"),
                    object_path: self.scalar_prop("object.path"),
                },
            ),
        )
    }
}

/// The graph as it was read at one moment.
#[derive(Debug)]
pub struct PipeWireSnapshot {
    pub nodes: IdTable<NodeRecord>,
}

impl View for PipeWireSnapshot {
    type V = Map<u32, NodeView>;

    open spec fn view(&self) -> Map<u32, NodeView> {
        node_views(self.nodes@)
    }
}

/// A pending port, by its view.
pub open spec fn pending_views(s: Seq<(u32, PortRecord)>) -> Seq<(u32, PortView)> {
    Seq::new(s.len(), |i: int| (s[i].0, s[i].1@))
}

/// The nodes without their ports, and the ports with the nodes they belong to.
fn sort_objects(objects: &Vec<RawPwObject>) -> (r: (IdTable<NodeRecord>, Vec<(u32, PortRecord)>))
    ensures
        pending_views(r.1@) == all_ports(raw_views(objects@)),
        forall|id: u32| #[trigger]
            r.0@.contains_key(id) == (node_props(raw_views(objects@), id) is Some),
        forall|id: u32| #[trigger]
            r.0@.contains_key(id) ==> r.0@[id].id == id && Some(r.0@[id].props@) == node_props(
                raw_views(objects@),
                id,
            ) && r.0@[id].ports@.len() == 0,
{
    let ghost all = raw_views(objects@);
    let mut nodes: IdTable<NodeRecord> = IdTable::new();
    let mut pending: Vec<(u32, PortRecord)> = Vec::new();
    let mut i: usize = 0;
    assert(pending_views(pending@) =~= all_ports(all.take(0)));
    while i < objects.len()
        invariant
            i <= objects@.len(),
            all == raw_views(objects@),
            pending_views(pending@) == all_ports(all.take(i as int)),
            forall|id: u32| #[trigger]
                nodes@.contains_key(id) == (node_props(all.take(i as int), id) is Some),
            forall|id: u32| #[trigger]
                nodes@.contains_key(id) ==> nodes@[id].id == id && Some(nodes@[id].props@)
                    == node_props(all.take(i as int), id) && nodes@[id].ports@.len() == 0,
        decreases objects@.len() - i,
    {
        let object = &objects[i];
        let ghost next = all.take(i + 1);
        proof {
            all.lemma_filter_map_take_succ(port_here(), i as int);
            assert(next.drop_last() =~= all.take(i as int));
            assert(next.last() == object@);
            reveal_strlit("PipeWire:Interface:Node");
            reveal_strlit("PipeWire:Interface:Port");
            assert("PipeWire:Interface:Node"@[19] != "PipeWire:Interface:Port"@[19]);
        }
        let ghost before = pending_views(pending@);
        if text_eq(object.kind.as_str(), "PipeWire:Interface:Node") {
            nodes.insert(
                object.id,
                NodeRecord { id: object.id, props: object.props.clone(), ports: Vec::new() },
            );
            assert(before + Seq::<(u32, PortView)>::empty() =~= before);
        } else {
            match object.read_port() {
                Some(entry) => {
                    pending.push(entry);
                    assert(pending_views(pending@) =~= before + seq![(entry.0, entry.1@)]);
                },
                None => {
                    assert(before + Seq::<(u32, PortView)>::empty() =~= before);
                },
            }
        }
        i = i + 1;
    }
    assert(all.take(all.len() as int) =~= all);
    (nodes, pending)
}

/// The graph that the objects of a dump describe.
pub fn collect_objects(objects: &Vec<RawPwObject>) -> (r: PipeWireSnapshot)
    ensures
        r@ == graph(raw_views(objects@)),
{
    let ghost all = raw_views(objects@);
    let (mut nodes, pending) = sort_objects(objects);
    let ghost ports = pending_views(pending@);
    let mut j: usize = 0;
    while j < pending.len()
        invariant
            j <= pending@.len(),
            ports == pending_views(pending@),
            forall|id: u32| #[trigger]
                nodes@.contains_key(id) == (node_props(all, id) is Some),
            forall|id: u32| #[trigger]
                nodes@.contains_key(id) ==> nodes@[id].id == id && Some(nodes@[id].props@)
                    == node_props(all, id) && port_views(nodes@[id].ports@) == ports_of(
                    ports.take(j as int),
                    id,
                ),
        decreases pending@.len() - j,
    {
        let owner: u32 = pending[j].0;
        let ghost before = nodes@;
        proof {
            assert forall|id: u32| #[trigger] before.contains_key(id) implies ports_of(
                ports.take(j + 1),
                id,
            ) == (if id == owner {
                ports_of(ports.take(j as int), id).push(pending@[j as int].1@)
            } else {
                ports_of(ports.take(j as int), id)
            }) by {
                ports.lemma_filter_map_take_succ(owned_by(id), j as int);
                assert(ports[j as int] == (owner, pending@[j as int].1@));
                assert(ports_of(ports.take(j + 1), id) =~= if id == owner {
                    ports_of(ports.take(j as int), id).push(pending@[j as int].1@)
                } else {
                    ports_of(ports.take(j as int), id)
                });
            }
        }
        match nodes.remove(owner) {
            Some(node) => {
                let mut node = node;
                let ghost had = port_views(node.ports@);
                node.ports.push(pending[j].1.clone());
                assert(port_views(node.ports@) =~= had.push(pending@[j as int].1@));
                nodes.insert(owner, node);
            },
            None => {
                assert(nodes@ =~= before);
            },
        }
        j = j + 1;
    }
    proof {
        assert(ports.take(ports.len() as int) =~= ports);
        assert(node_views(nodes@) =~= graph(all));
    }
    PipeWireSnapshot { nodes }
}

/// A snapshot or an error, by its view.
pub open spec fn snapshot_outcome(r: Result<PipeWireSnapshot, BackendError>) -> Result<
    Map<u32, NodeView>,
    BackendErrorView,
> {
    match r {
        Ok(s) => Ok(s@),
        Err(e) => Err(e@),
    }
}

pub fn dump_command() -> (c: crate::cmd::CommandLine)
    ensures
        c@ == ("pw-dump"@, Seq::<Seq<char>>::empty()),
{
    let c = crate::cmd::CommandLine { program: "pw-dump", args: Vec::new() };
    assert(c@.1 =~= Seq::<Seq<char>>::empty());
    c
}

/// The graph in what was read from a dump; a dump that is no JSON, or holds
/// something other than objects, is an error.
pub open spec fn dumped_graph(dump: Option<JsonTree>) -> Result<
    Map<u32, NodeView>,
    BackendErrorView,
> {
    match dump {
        Some(value) => match raw_objects(value) {
            Some(objects) => Ok(graph(objects)),
            None => Err(BackendErrorView::Json),
        },
        None => Err(BackendErrorView::Json),
    }
}

proof fn lemma_info_cut(value: JsonTree, levels: nat)
    requires
        levels >= 2,
    ensures
        info_in()(cut(value, levels)) == info_in()(value),
{
    if let JsonTree::Object(entries) = value {
        let below = (levels - 1) as nat;
        assert forall|t: JsonTree| props_in()(#[trigger] cut(t, below)) == props_in()(t) by {
            if let JsonTree::Object(props) = t {
                lemma_prop_map_cut(props, (below - 1) as nat);
            }
        }
        lemma_field_cut(entries, "props"@, props_in(), below);
        lemma_field_cut(entries, "direction"@, text_or_null_in(), below);
    }
}

proof fn lemma_raw_list_cut(list: Seq<JsonTree>, levels: nat)
    requires
        levels >= 3,
    ensures
        raw_list(cut_list(list, levels)) == raw_list(list),
    decreases list.len(),
{
    if list.len() > 0 {
        lemma_raw_list_cut(list.drop_last(), levels);
        assert(cut_list(list, levels).drop_last() =~= cut_list(list.drop_last(), levels));
        assert(cut_list(list, levels).last() == cut(list.last(), levels));
        if let JsonTree::Object(entries) = list.last() {
            let below = (levels - 1) as nat;
            assert forall|t: JsonTree| info_in()(#[trigger] cut(t, below)) == info_in()(t) by {
                lemma_info_cut(t, below);
            }
            lemma_field_cut(entries, "id"@, id_in(), below);
            lemma_field_cut(entries, "type"@, text_in(), below);
            lemma_field_cut(entries, "info"@, info_in(), below);
        }
    }
}

/// A dump is read from the first four levels of a value.
proof fn lemma_dump_cut(value: JsonTree, levels: nat)
    requires
        levels >= 4,
    ensures
        dumped_graph(Some(cut(value, levels))) == dumped_graph(Some(value)),
{
    if let JsonTree::Array(list) = value {
        lemma_raw_list_cut(list, (levels - 1) as nat);
    }
}

pub enum CollectStep {
    Done(Result<PipeWireSnapshot, BackendError>),
    /// Pause and read the graph again; this is the number of the next try.
    Again { attempt: u32, pause_ms: u64 },
}

impl PipeWireSnapshot {
    /// The graph in a dump that has been parsed, or that could not be.
    pub fn read_dump(parsed: Result<JsonValue, JsonError>) -> (r: Result<Self, BackendError>)
        ensures
            snapshot_outcome(r) == dumped_graph(
                match parsed {
                    Ok(value) => Some(value@),
                    Err(_) => None,
                },
            ),
    {
        match parsed {
            Ok(value) => match read_objects(&value) {
                Ok(objects) => Ok(collect_objects(&objects)),
                Err(err) => Err(BackendError::from(err)),
            },
            Err(err) => Err(BackendError::from(err)),
        }
    }

    /// The graph in one answer of `pw-dump`, or why there is none.
    pub fn collect_once(dump: Result<String, BackendError>) -> (r: Result<Self, BackendError>)
        ensures
            snapshot_outcome(r) == (match dump {
                Ok(text) => dumped_graph(json_in(text@)),
                Err(e) => Err(e@),
            }),
    {
        match dump {
            Ok(text) => {
                proof {
                    if let Some(value) = json_in(text@) {
                        lemma_dump_cut(value, LEVELS_READ as nat);
                    }
                }
                Self::read_dump(read_json(text.as_str()))
            },
            Err(err) => Err(err),
        }
    }

    /// What follows try number `attempt`, counted from zero. A transient fault
    /// is tried again while tries are left; anything else is the answer.
    pub fn collect(attempt: u32, tried: Result<Self, BackendError>) -> (step: CollectStep)
        ensures
            ({
                let again = tried matches Err(e) && e@.transient() && attempt + 1
                    < GRAPH_RETRY_ATTEMPTS;
                step == (if again {
                    CollectStep::Again { attempt: (attempt + 1) as u32, pause_ms: GRAPH_RETRY_DELAY }
                } else {
                    CollectStep::Done(tried)
                })
            }),
    {
        match tried {
            Ok(snapshot) => CollectStep::Done(Ok(snapshot)),
            Err(err) => {
                if err.is_transient_snapshot_error() && attempt < GRAPH_RETRY_ATTEMPTS - 1 {
                    CollectStep::Again { attempt: attempt + 1, pause_ms: GRAPH_RETRY_DELAY }
                } else {
                    CollectStep::Done(Err(err))
                }
            },
        }
    }

    /// The node of the virtual sink: the first that bears its name, or else the
    /// first that bears its description.
    pub fn find_virtual_sink(&self, sink_name: &str, sink_description: &str) -> (r: Option<
        &NodeRecord,
    >)
        ensures
            match r {
                Some(n) => sink_node(self.nodes.entries(), sink_name@, sink_description@) == Some(
                    *n,
                ),
                None => sink_node(self.nodes.entries(), sink_name@, sink_description@) is None,
            },
    {
        let mut i: usize = 0;
        let ghost s = self.nodes.entries();
        assert(s.skip(0) =~= s);
        while i < self.nodes.len()
            invariant
                s == self.nodes.entries(),
                i <= s.len(),
                first_node(s, bears_name(sink_name@)) == first_node(
                    s.skip(i as int),
                    bears_name(sink_name@),
                ),
            decreases s.len() - i,
        {
            assert(s.skip(i as int)[0] == s[i as int]);
            assert(s.skip(i as int).drop_first() =~= s.skip(i + 1));
            let node = self.nodes.value_at(i);
            if node_bears_name(node, sink_name) {
                return Some(node);
            }
            i = i + 1;
        }
        assert(first_node(s, bears_name(sink_name@)) is None);
        let mut j: usize = 0;
        while j < self.nodes.len()
            invariant
                s == self.nodes.entries(),
                j <= s.len(),
                first_node(s, bears_name(sink_name@)) is None,
                first_node(s, bears_description(sink_description@)) == first_node(
                    s.skip(j as int),
                    bears_description(sink_description@),
                ),
            decreases s.len() - j,
        {
            assert(s.skip(j as int)[0] == s[j as int]);
            assert(s.skip(j as int).drop_first() =~= s.skip(j + 1));
            let node = self.nodes.value_at(j);
            if node.matches_prop("node.description", sink_description) || node.matches_prop(
                "device.description",
                sink_description,
            ) {
                return Some(node);
            }
            j = j + 1;
        }
        None
    }
}

/// Nodes that are called `name` in one of the three ways a node is called.
pub open spec fn bears_name(name: Seq<char>) -> spec_fn(NodeRecord) -> bool {
    |n: NodeRecord|
        n.text("node.name"@) == Some(name) || n.text("device.name"@) == Some(name) || n.text(
            "node.nick"@,
        ) == Some(name)
}

pub open spec fn bears_description(description: Seq<char>) -> spec_fn(NodeRecord) -> bool {
    |n: NodeRecord|
        n.text("node.description"@) == Some(description) || n.text("device.description"@) == Some(
            description,
        )
}

pub open spec fn sink_node(
    s: Seq<(u32, NodeRecord)>,
    name: Seq<char>,
    description: Seq<char>,
) -> Option<NodeRecord> {
    match first_node(s, bears_name(name)) {
        Some(n) => Some(n),
        None => first_node(s, bears_description(description)),
    }
}

pub fn node_bears_name(node: &NodeRecord, name: &str) -> (r: bool)
    ensures
        r == bears_name(name@)(*node),
{
    node.matches_prop("node.name", name) || node.matches_prop("device.name", name)
        || node.matches_prop("node.nick", name)
}

/// Every port of the graph is a port of the dump that names the node it stands
/// at, and it is linked by its id.
pub proof fn graph_ports_name_their_node(objects: Seq<RawView>, id: u32, k: int)
    requires
        graph(objects).contains_key(id),
        0 <= k < graph(objects)[id].ports.len(),
    ensures
        exists|o: RawView| #[trigger]
            objects.contains(o) && o.is_port() && o.owner() == Some(id) && o.port() == Some(
                (id, graph(objects)[id].ports[k]),
            ) && graph(objects)[id].ports[k].path == Some(decimal(o.id as nat)),
{
    let p = graph(objects)[id].ports[k];
    let ports = all_ports(objects);
    assert(ports_of(ports, id).contains(p));
    ports.lemma_filter_map_contains(owned_by(id), p);
    let e = choose|e: (u32, PortView)| #[trigger] ports.contains(e) && owned_by(id)(e) == Some(p);
    assert(e == (id, p));
    objects.lemma_filter_map_contains(port_here(), e);
    let o = choose|o: RawView| #[trigger] objects.contains(o) && port_here()(o) == Some(e);
    assert(o.port() == Some((id, p)));
}

/// An object of a dump has the number in its last member `id`, the type in its
/// last member `type`, and what its last member `info` tells: the properties
/// under `props` and the direction under `direction`. What is not told is not
/// there.
pub proof fn objects_are_read_member_by_member(
    entries: Seq<(Seq<char>, JsonTree)>,
    info: Seq<(Seq<char>, JsonTree)>,
    props: Seq<(Seq<char>, JsonTree)>,
    word: Seq<char>,
)
    ensures
        raw_object(JsonTree::Object(entries)) matches Some(o) ==> {
            &&& last_is(entries, "id"@, JsonTree::Unsigned(o.id as u64))
            &&& last_is(entries, "type"@, JsonTree::Text(o.kind))
            &&& member(entries, "info"@) is None ==> o.props == Map::<Seq<char>, PropView>::empty()
                && o.direction is None
            &&& last_is(entries, "info"@, JsonTree::Object(info)) ==> {
                &&& last_is(info, "props"@, JsonTree::Object(props)) ==> o.props == prop_map(props)
                &&& member(info, "props"@) is None ==> o.props
                    == Map::<Seq<char>, PropView>::empty()
                &&& last_is(info, "direction"@, JsonTree::Text(word)) == (o.direction == Some(word))
                &&& last_is(info, "direction"@, JsonTree::Null) || member(info, "direction"@)
                    is None ==> o.direction is None
            }
        },
{
    if let Some(o) = raw_object(JsonTree::Object(entries)) {
        lemma_last_is(entries, "id"@, JsonTree::Unsigned(o.id as u64));
        lemma_last_is(entries, "type"@, JsonTree::Text(o.kind));
        lemma_last_is(entries, "info"@, JsonTree::Object(info));
        lemma_last_is(info, "props"@, JsonTree::Object(props));
        lemma_last_is(info, "direction"@, JsonTree::Text(word));
        lemma_last_is(info, "direction"@, JsonTree::Null);
        lemma_member(entries, "info"@);
        lemma_member(entries, "id"@);
        lemma_member(entries, "type"@);
        lemma_member(info, "props"@);
        lemma_member(info, "direction"@);
    }
}

/// An object is read as soon as it has a small number for its id and a text for
/// its type, and an `info`, where it has one, that is an object with properties
/// and a direction of the right types.
pub proof fn well_formed_objects_are_read(
    entries: Seq<(Seq<char>, JsonTree)>,
    id: u32,
    kind: Seq<char>,
)
    requires
        last_is(entries, "id"@, JsonTree::Unsigned(id as u64)),
        last_is(entries, "type"@, JsonTree::Text(kind)),
        each_is(entries, "id"@, |t: JsonTree| t matches JsonTree::Unsigned(n) && n <= u32::MAX),
        each_is(entries, "type"@, |t: JsonTree| t is Text),
        each_is(
            entries,
            "info"@,
            |t: JsonTree|
                t matches JsonTree::Object(info) && each_is(
                    info,
                    "props"@,
                    |p: JsonTree| p is Object,
                ) && each_is(info, "direction"@, |d: JsonTree| d is Text || d is Null),
        ),
    ensures
        raw_object(JsonTree::Object(entries)) matches Some(o) && o.id == id && o.kind == kind,
{
    lemma_last_is(entries, "id"@, JsonTree::Unsigned(id as u64));
    lemma_last_is(entries, "type"@, JsonTree::Text(kind));
    let small = |t: JsonTree| t matches JsonTree::Unsigned(n) && n <= u32::MAX;
    assert forall|i: int| 0 <= i < entries.len() && (#[trigger] entries[i]).0
        == "id"@ implies id_in()(entries[i].1) is Some by {
        assert(small(entries[i].1));
    }
    let text = |t: JsonTree| t is Text;
    assert forall|i: int| 0 <= i < entries.len() && (#[trigger] entries[i]).0
        == "type"@ implies text_in()(entries[i].1) is Some by {
        assert(text(entries[i].1));
    }
    let whole = |t: JsonTree|
        t matches JsonTree::Object(info) && each_is(info, "props"@, |p: JsonTree| p is Object)
            && each_is(info, "direction"@, |d: JsonTree| d is Text || d is Null);
    assert forall|i: int| 0 <= i < entries.len() && (#[trigger] entries[i]).0
        == "info"@ implies info_in()(entries[i].1) is Some by {
        assert(whole(entries[i].1));
        let info = entries[i].1->Object_0;
        let object = |p: JsonTree| p is Object;
        assert forall|j: int| 0 <= j < info.len() && (#[trigger] info[j]).0
            == "props"@ implies props_in()(info[j].1) is Some by {
            assert(object(info[j].1));
        }
        let word = |d: JsonTree| d is Text || d is Null;
        assert forall|j: int| 0 <= j < info.len() && (#[trigger] info[j]).0
            == "direction"@ implies text_or_null_in()(info[j].1) is Some by {
            assert(word(info[j].1));
        }
    }
}

/// The objects of a dump are the objects of its list, one for each and in its
/// order; one that cannot be read spoils the dump, and so does a dump that is no
/// list.
pub proof fn dumps_are_read_object_by_object(list: Seq<JsonTree>, k: int, value: JsonTree)
    ensures
        raw_list(list) matches Some(objects) ==> objects.len() == list.len() && (0 <= k < list.len()
            ==> raw_object(list[k]) == Some(objects[k])),
        (forall|i: int| 0 <= i < list.len() ==> raw_object(#[trigger] list[i]) is Some) ==> raw_list(
            list,
        ) is Some,
        !(value is Array) ==> dumped_graph(Some(value)) == Err::<
            Map<u32, NodeView>,
            BackendErrorView,
        >(BackendErrorView::Json),
        dumped_graph(None) == Err::<Map<u32, NodeView>, BackendErrorView>(BackendErrorView::Json),
        dumped_graph(Some(JsonTree::Array(list))) == (match raw_list(list) {
            Some(objects) => Ok::<Map<u32, NodeView>, BackendErrorView>(graph(objects)),
            None => Err(BackendErrorView::Json),
        }),
    decreases list.len(),
{
    if list.len() > 0 {
        let head = list.drop_last();
        dumps_are_read_object_by_object(head, k, value);
        assert forall|i: int| 0 <= i < head.len() implies #[trigger] head[i] == list[i] by {}
        assert(list[list.len() - 1] == list.last());
    }
}

/// A node is in the graph exactly if the dump has an object of that type and id,
/// and its properties are those of the last such object.
pub proof fn dumped_nodes_are_in_the_graph(objects: Seq<RawView>, k: int, id: u32)
    ensures
        0 <= k < objects.len() && objects[k].kind == "PipeWire:Interface:Node"@ && objects[k].id
            == id && (forall|j: int|
            k < j < objects.len() ==> !((#[trigger] objects[j]).kind == "PipeWire:Interface:Node"@
                && objects[j].id == id)) ==> graph(objects).contains_key(id)
            && graph(objects)[id].props == objects[k].props && graph(objects)[id].id == id,
        (forall|j: int|
            0 <= j < objects.len() ==> !((#[trigger] objects[j]).kind
                == "PipeWire:Interface:Node"@ && objects[j].id == id)) ==> !graph(
            objects,
        ).contains_key(id),
{
    lemma_node_props(objects, k, id);
}

proof fn lemma_node_props(objects: Seq<RawView>, k: int, id: u32)
    ensures
        0 <= k < objects.len() && objects[k].kind == "PipeWire:Interface:Node"@ && objects[k].id
            == id && (forall|j: int|
            k < j < objects.len() ==> !((#[trigger] objects[j]).kind == "PipeWire:Interface:Node"@
                && objects[j].id == id)) ==> node_props(objects, id) == Some(objects[k].props),
        (forall|j: int|
            0 <= j < objects.len() ==> !((#[trigger] objects[j]).kind
                == "PipeWire:Interface:Node"@ && objects[j].id == id)) ==> node_props(objects, id)
            is None,
    decreases objects.len(),
{
    if objects.len() > 0 {
        let head = objects.drop_last();
        lemma_node_props(head, k, id);
        assert forall|i: int| 0 <= i < head.len() implies #[trigger] head[i] == objects[i] by {}
        assert(objects[objects.len() - 1] == objects.last());
    }
}

/// Property `key` is the text `value`, or the number whose digits it is.
pub open spec fn tells(
    props: Map<Seq<char>, PropView>,
    key: Seq<char>,
    value: Seq<char>,
) -> bool {
    props.contains_key(key) && (props[key] == PropView::Text(value) || props[key]
        == PropView::Fraction(value) || (props[key] matches PropView::Unsigned(n) && value
        == decimal(n as nat)) || (props[key] matches PropView::Negative(n) && value
        == integer_text(n as int)))
}

/// A port of a dump that names a node of the dump and a direction stands among
/// the ports of that node, with what it tells: its channel from `audio.channel`,
/// its index from `port.id` or else from `port.index`, its names, and its path,
/// which is its id.
pub proof fn dumped_ports_stand_at_their_node(
    objects: Seq<RawView>,
    k: int,
    owner: u32,
    d: PortDirection,
    word: Seq<char>,
    t: Seq<char>,
) -> (p: PortView)
    requires
        0 <= k < objects.len(),
        objects[k].kind == "PipeWire:Interface:Port"@,
        tells(objects[k].props, "node.id"@, decimal(owner as nat)),
        word == "in"@ || word == "input"@ ==> d == PortDirection::Input,
        word == "out"@ || word == "output"@ ==> d == PortDirection::Output,
        word == "in"@ || word == "input"@ || word == "out"@ || word == "output"@,
        objects[k].direction == Some(word) || objects[k].direction is None && tells(
            objects[k].props,
            "port.direction"@,
            word,
        ),
        graph(objects).contains_key(owner),
    ensures
        graph(objects)[owner].ports.contains(p),
        p.id == objects[k].id,
        p.direction == d,
        p.path == Some(decimal(objects[k].id as nat)),
        (p.channel == Some(t)) == tells(objects[k].props, "audio.channel"@, t),
        (p.port_index == Some(t)) == (tells(objects[k].props, "port.id"@, t) || tells(
            objects[k].props,
            "port.index"@,
            t,
        ) && objects[k].scalar("port.id"@) is None),
        (p.port_name == Some(t)) == tells(objects[k].props, "port.name"@, t),
        (p.object_path == Some(t)) == tells(objects[k].props, "object.path"@, t),
{
    let o = objects[k];
    number_reads_decimal(owner);
    four_words_name_a_direction(word);
    assert(o.scalar("node.id"@) == Some(decimal(owner as nat)));
    let p = o.port()->0;
    assert(o.port() == Some((owner, p.1)));
    let ports = all_ports(objects);
    lemma_filter_map_covers(objects, port_here(), k);
    let j = ports.index_of((owner, p.1));
    lemma_filter_map_covers(ports, owned_by(owner), j);
    p.1
}

/// What a filtering map makes of an element is among its results.
proof fn lemma_filter_map_covers<A, B>(s: Seq<A>, f: spec_fn(A) -> Option<B>, i: int)
    requires
        0 <= i < s.len(),
        f(s[i]) is Some,
    ensures
        s.filter_map(f).contains(f(s[i])->0),
    decreases s.len(),
{
    let n = s.len() - 1;
    s.lemma_filter_map_take_succ(f, n);
    assert(s.take(n + 1) =~= s);
    let head = s.take(n);
    let all = s.filter_map(f);
    if i == n {
        assert(all[head.filter_map(f).len() as int] == f(s[i])->0);
    } else {
        assert(head[i] == s[i]);
        lemma_filter_map_covers(head, f, i);
        let j = head.filter_map(f).index_of(f(s[i])->0);
        assert(all[j] == f(s[i])->0);
    }
}

/// The node of the virtual sink is the first that bears its name in one of three
/// properties, and where none does the first that bears its description in one
/// of two.
pub proof fn the_sink_is_found_by_name_or_description(
    s: Seq<(u32, NodeRecord)>,
    name: Seq<char>,
    description: Seq<char>,
    i: int,
)
    ensures
        ({
            let called = |n: NodeRecord|
                says(n.props@, "node.name"@, name) || says(n.props@, "device.name"@, name) || says(
                    n.props@,
                    "node.nick"@,
                    name,
                );
            let described = |n: NodeRecord|
                says(n.props@, "node.description"@, description) || says(
                    n.props@,
                    "device.description"@,
                    description,
                );
            &&& 0 <= i < s.len() && called(s[i].1) && (forall|j: int|
                0 <= j < i ==> !called((#[trigger] s[j]).1)) ==> sink_node(s, name, description)
                == Some(s[i].1)
            &&& 0 <= i < s.len() && described(s[i].1) && (forall|j: int|
                0 <= j < i ==> !described((#[trigger] s[j]).1)) && (forall|j: int|
                0 <= j < s.len() ==> !called((#[trigger] s[j]).1)) ==> sink_node(
                s,
                name,
                description,
            ) == Some(s[i].1)
            &&& (forall|j: int|
                0 <= j < s.len() ==> !called((#[trigger] s[j]).1) && !described(s[j].1))
                ==> sink_node(s, name, description) is None
        }),
{
    let called = |n: NodeRecord|
        says(n.props@, "node.name"@, name) || says(n.props@, "device.name"@, name) || says(
            n.props@,
            "node.nick"@,
            name,
        );
    let described = |n: NodeRecord|
        says(n.props@, "node.description"@, description) || says(
            n.props@,
            "device.description"@,
            description,
        );
    assert forall|n: NodeRecord| bears_name(name)(n) == #[trigger] called(n) by {}
    assert forall|n: NodeRecord| bears_description(description)(n) == #[trigger] described(n) by {}
    lemma_first_node(s, bears_name(name));
    lemma_first_node(s, bears_description(description));
    if 0 <= i < s.len() {
        a_walk_finds_the_first(s, bears_name(name), i);
        a_walk_finds_the_first(s, bears_description(description), i);
        if described(s[i].1) && (forall|j: int| 0 <= j < i ==> !described((#[trigger] s[j]).1)) {
            assert forall|j: int| 0 <= j < i implies !bears_description(description)(
                (#[trigger] s[j]).1,
            ) by {
                assert(!described(s[j].1));
            }
        }
        if called(s[i].1) && (forall|j: int| 0 <= j < i ==> !called((#[trigger] s[j]).1)) {
            assert forall|j: int| 0 <= j < i implies !bears_name(name)((#[trigger] s[j]).1) by {
                assert(!called(s[j].1));
            }
        }
    }
    if forall|j: int| 0 <= j < s.len() ==> !called((#[trigger] s[j]).1) {
        assert forall|j: int| 0 <= j < s.len() implies !bears_name(name)((#[trigger] s[j]).1) by {
            assert(!called(s[j].1));
        }
        if let Some(n) = first_node(s, bears_name(name)) {
            let j = choose|j: int| 0 <= j < s.len() && (#[trigger] s[j]).1 == n;
            assert(!bears_name(name)(s[j].1));
        }
    }
    if forall|j: int| 0 <= j < s.len() ==> !called((#[trigger] s[j]).1) && !described(s[j].1) {
        if let Some(n) = first_node(s, bears_description(description)) {
            let j = choose|j: int| 0 <= j < s.len() && (#[trigger] s[j]).1 == n;
            assert(!called(s[j].1) && !described(s[j].1));
        }
    }
}

/// A transient fault is tried again a twentieth of a second later, eight times
/// in all; a graph, any other fault and the last try are final.
pub proof fn transient_faults_are_tried_again(
    attempt: u32,
    tried: Result<PipeWireSnapshot, BackendError>,
    step: CollectStep,
)
    requires
        call_ensures(PipeWireSnapshot::collect, (attempt, tried), step),
    ensures
        tried is Ok ==> step == CollectStep::Done(tried),
        tried matches Err(e) && (!e@.transient() || attempt >= 7) ==> step == CollectStep::Done(
            tried,
        ),
        tried matches Err(e) && e@.transient() && attempt < 7 ==> step == (CollectStep::Again {
            attempt: (attempt + 1) as u32,
            pause_ms: 50,
        }),
{
}

/// The dump is asked for without any argument.
pub proof fn dumps_are_asked_for_plainly(c: crate::cmd::CommandLine)
    requires
        call_ensures(dump_command, (), c),
    ensures
        c@.0 == "pw-dump"@,
        c@.1.len() == 0,
{
}

/// One more port of a node at the end of a dump is one more port of that node at
/// the end of its ports, and any other object but a node leaves the ports of
/// every node as they are.
pub proof fn one_more_port_is_one_more_port(objects: Seq<RawView>, o: RawView, id: u32)
    requires
        o.kind != "PipeWire:Interface:Node"@,
    ensures
        graph(objects.push(o)).dom() == graph(objects).dom(),
        graph(objects).contains_key(id) ==> graph(objects.push(o))[id].ports == (match o.port() {
            Some((owner, p)) => if owner == id {
                graph(objects)[id].ports.push(p)
            } else {
                graph(objects)[id].ports
            },
            None => graph(objects)[id].ports,
        }),
        o.kind != "PipeWire:Interface:Port"@ ==> o.port() is None,
{
    let more = objects.push(o);
    assert(more.drop_last() =~= objects);
    assert forall|n: u32| node_props(more, n) == node_props(objects, n) by {}
    assert(graph(more).dom() =~= graph(objects).dom());
    let n = objects.len() as int;
    more.lemma_filter_map_take_succ(port_here(), n);
    assert(more.take(n) =~= objects);
    assert(more.take(n + 1) =~= more);
    let before = all_ports(objects);
    let after = all_ports(more);
    match o.port() {
        Some((owner, p)) => {
            assert(after =~= before.push((owner, p)));
            let m = before.len() as int;
            after.lemma_filter_map_take_succ(owned_by(id), m);
            assert(after.take(m) =~= before);
            assert(after.take(m + 1) =~= after);
            if owner == id {
                assert(ports_of(after, id) =~= ports_of(before, id).push(p));
            } else {
                assert(ports_of(after, id) =~= ports_of(before, id));
            }
        },
        None => {
            assert(after =~= before);
        },
    }
}

/// A view of an object of a dump shows each thing that it holds in its own place.
pub proof fn views_of_objects_show_what_they_hold(o: RawPwObject)
    ensures
        o@.id == o.id,
        o@.kind == o.kind@,
        o@.props == o.props@,
        o@.direction == opt_text(o.direction),
{
}

} // verus!
