//! The records of the audio graph and what the library says about them.

use vstd::prelude::*;
use crate::json::{PropMap, PropValue, PropView};
use crate::table::IdTable;
use crate::text::{
    after_last, cat, decimal, decimal_text, has_prefix, has_text_prefix, lower, opt_eq, opt_text,
    owned, tail_after_last, text_eq, to_lower, without_prefix,
};

verus! {

/// A node offered to the user for sharing.
#[derive(Debug, PartialEq, Eq)]
pub struct ShareableNode {
    pub id: u32,
    pub display_name: String,
    pub application_name: Option<String>,
    pub node_name: Option<String>,
    pub description: Option<String>,
    pub media_name: Option<String>,
    pub binary: Option<String>,
    pub process_id: Option<u32>,
    pub media_class: Option<String>,
    pub is_virtual: bool,
    pub is_device: bool,
}

impl Clone for ShareableNode {
    fn clone(&self) -> (r: Self)
        ensures
            r == *self,
    {
        ShareableNode {
            id: self.id,
            display_name: self.display_name.clone(),
            application_name: copy_opt(&self.application_name),
            node_name: copy_opt(&self.node_name),
            description: copy_opt(&self.description),
            media_name: copy_opt(&self.media_name),
            binary: copy_opt(&self.binary),
            process_id: self.process_id,
            media_class: copy_opt(&self.media_class),
            is_virtual: self.is_virtual,
            is_device: self.is_device,
        }
    }
}

pub struct ShareableNodeView {
    pub id: u32,
    pub display_name: Seq<char>,
    pub application_name: Option<Seq<char>>,
    pub node_name: Option<Seq<char>>,
    pub description: Option<Seq<char>>,
    pub media_name: Option<Seq<char>>,
    pub binary: Option<Seq<char>>,
    pub process_id: Option<u32>,
    pub media_class: Option<Seq<char>>,
    pub is_virtual: bool,
    pub is_device: bool,
}

impl View for ShareableNode {
    type V = ShareableNodeView;

    open spec fn view(&self) -> ShareableNodeView {
        ShareableNodeView {
            id: self.id,
            display_name: self.display_name@,
            application_name: opt_text(self.application_name),
            node_name: opt_text(self.node_name),
            description: opt_text(self.description),
            media_name: opt_text(self.media_name),
            binary: opt_text(self.binary),
            process_id: self.process_id,
            media_class: opt_text(self.media_class),
            is_virtual: self.is_virtual,
            is_device: self.is_device,
        }
    }
}

/// Which of the chosen nodes are really routed.
#[derive(Debug, Clone, Copy, PartialEq, Eq, Structural)]
pub struct RouteFilter {
    /// When sharing many nodes at once, only keep nodes whose current
    /// output actually reaches a device (speaker) on the graph.
    pub only_speakers: bool,
    /// Like only_speakers, but must reach the *default* sink specifically.
    pub only_default_speakers: bool,
    /// Exclude device nodes (mic/speaker) from being routed.
    pub ignore_devices: bool,
    /// Exclude virtual nodes (node.virtual=true).
    pub ignore_virtual: bool,
    /// Exclude capture-oriented nodes (media.class Stream/Input/Audio).
    pub ignore_input_media: bool,
}

impl Default for RouteFilter {
    fn default() -> (r: Self)
        ensures
            !r.only_speakers,
            !r.only_default_speakers,
            !r.ignore_devices,
            !r.ignore_virtual,
            !r.ignore_input_media,
    {
        RouteFilter {
            only_speakers: false,
            only_default_speakers: false,
            ignore_devices: false,
            ignore_virtual: false,
            ignore_input_media: false,
        }
    }
}

/// A best-effort hint that ties a KWin window share in progress to the app
/// that is likely to be its source of audio.
///
/// KWin names its screencast node `kwin-screencast-<desktopFileName>`, where
/// `<desktopFileName>` is the desktop-file id of the shared window. No hint is
/// the normal case, not an error.
#[derive(Debug, PartialEq, Eq)]
pub struct ScreencastHint {
    /// The desktop-file id that KWin put into the node name, such as
    /// `org.mozilla.firefox` or `steam`.
    pub desktop_file_id: String,
    /// The last dot-separated component of `desktop_file_id` in lower case,
    /// such as `firefox` or `steam`.
    pub hint: String,
}

impl Clone for ScreencastHint {
    fn clone(&self) -> (r: Self)
        ensures
            r == *self,
    {
        ScreencastHint {
            desktop_file_id: self.desktop_file_id.clone(),
            hint: self.hint.clone(),
        }
    }
}

/// What a caller learns of the virtual sink.
#[derive(Debug, PartialEq, Eq)]
pub struct VirtualSinkInfo {
    pub sink_name: String,
    pub monitor_source: String,
    pub node_id: u32,
    pub virtual_mic_name: Option<String>,
    pub virtual_mic_description: Option<String>,
}

impl Clone for VirtualSinkInfo {
    fn clone(&self) -> (r: Self)
        ensures
            r == *self,
    {
        VirtualSinkInfo {
            sink_name: self.sink_name.clone(),
            monitor_source: self.monitor_source.clone(),
            node_id: self.node_id,
            virtual_mic_name: copy_opt(&self.virtual_mic_name),
            virtual_mic_description: copy_opt(&self.virtual_mic_description),
        }
    }
}

pub struct VirtualSinkInfoView {
    pub sink_name: Seq<char>,
    pub monitor_source: Seq<char>,
    pub node_id: u32,
    pub virtual_mic_name: Option<Seq<char>>,
    pub virtual_mic_description: Option<Seq<char>>,
}

impl View for VirtualSinkInfo {
    type V = VirtualSinkInfoView;

    open spec fn view(&self) -> VirtualSinkInfoView {
        VirtualSinkInfoView {
            sink_name: self.sink_name@,
            monitor_source: self.monitor_source@,
            node_id: self.node_id,
            virtual_mic_name: opt_text(self.virtual_mic_name),
            virtual_mic_description: opt_text(self.virtual_mic_description),
        }
    }
}

#[derive(Debug, Clone, Copy, PartialEq, Eq, Structural)]
pub enum PortDirection {
    Input,
    Output,
}

/// The direction that `value` names, if it names one.
pub open spec fn direction_named(value: Seq<char>) -> Option<PortDirection> {
    if value == "in"@ || value == "input"@ {
        Some(PortDirection::Input)
    } else if value == "out"@ || value == "output"@ {
        Some(PortDirection::Output)
    } else {
        None
    }
}

impl PortDirection {
    pub fn parse(value: &str) -> (r: Option<Self>)
        ensures
            r == direction_named(value@),
    {
        if text_eq(value, "in") || text_eq(value, "input") {
            Some(PortDirection::Input)
        } else if text_eq(value, "out") || text_eq(value, "output") {
            Some(PortDirection::Output)
        } else {
            None
        }
    }
}

/// A link between two ports, each given by its path.
#[derive(Debug, PartialEq, Eq, PartialOrd, Ord, Hash)]
pub struct Route {
    pub output_path: String,
    pub input_path: String,
}

impl View for Route {
    type V = (Seq<char>, Seq<char>);

    open spec fn view(&self) -> (Seq<char>, Seq<char>) {
        (self.output_path@, self.input_path@)
    }
}

impl Clone for Route {
    fn clone(&self) -> (r: Self)
        ensures
            r == *self,
    {
        Route { output_path: self.output_path.clone(), input_path: self.input_path.clone() }
    }
}

#[derive(Debug)]
pub struct PortRecord {
    pub id: u32,
    pub direction: PortDirection,
    pub channel: Option<String>,
    pub port_index: Option<String>,
    pub path: Option<String>,
    pub port_name: Option<String>,
    pub object_path: Option<String>,
}

pub struct PortView {
    pub id: u32,
    pub direction: PortDirection,
    pub channel: Option<Seq<char>>,
    pub port_index: Option<Seq<char>>,
    pub path: Option<Seq<char>>,
    pub port_name: Option<Seq<char>>,
    pub object_path: Option<Seq<char>>,
}

impl View for PortRecord {
    type V = PortView;

    open spec fn view(&self) -> PortView {
        PortView {
            id: self.id,
            direction: self.direction,
            channel: opt_text(self.channel),
            port_index: opt_text(self.port_index),
            path: opt_text(self.path),
            port_name: opt_text(self.port_name),
            object_path: opt_text(self.object_path),
        }
    }
}

pub open spec fn port_views(s: Seq<PortRecord>) -> Seq<PortView> {
    Seq::new(s.len(), |i: int| s[i]@)
}

impl Clone for PortRecord {
    fn clone(&self) -> (r: Self)
        ensures
            r == *self,
    {
        PortRecord {
            id: self.id,
            direction: self.direction,
            channel: copy_opt(&self.channel),
            port_index: copy_opt(&self.port_index),
            path: copy_opt(&self.path),
            port_name: copy_opt(&self.port_name),
            object_path: copy_opt(&self.object_path),
        }
    }
}

pub fn copy_opt(s: &Option<String>) -> (r: Option<String>)
    ensures
        r == *s,
        opt_text(r) == opt_text(*s),
{
    match s {
        Some(t) => Some(t.clone()),
        None => None,
    }
}

pub fn as_text(s: &Option<String>) -> (r: Option<&str>)
    ensures
        match r {
            Some(t) => opt_text(*s) == Some(t@),
            None => opt_text(*s) is None,
        },
{
    match s {
        Some(t) => Some(t.as_str()),
        None => None,
    }
}

fn own_opt(s: Option<&str>) -> (r: Option<String>)
    ensures
        match s {
            Some(t) => opt_text(r) == Some(t@),
            None => r is None,
        },
{
    match s {
        Some(t) => Some(owned(t)),
        None => None,
    }
}

/// A node of the graph with its properties and its ports.
#[derive(Debug)]
pub struct NodeRecord {
    pub id: u32,
    pub props: PropMap,
    pub ports: Vec<PortRecord>,
}

pub struct NodeView {
    pub id: u32,
    pub props: Map<Seq<char>, PropView>,
    pub ports: Seq<PortView>,
}

impl View for NodeRecord {
    type V = NodeView;

    open spec fn view(&self) -> NodeView {
        NodeView { id: self.id, props: self.props@, ports: port_views(self.ports@) }
    }
}

/// Nodes by id, each taken by its view.
pub open spec fn node_views(m: Map<u32, NodeRecord>) -> Map<u32, NodeView> {
    Map::new(|id: u32| m.contains_key(id), |id: u32| m[id]@)
}

impl Clone for NodeRecord {
    fn clone(&self) -> (r: Self)
        ensures
            r.id == self.id,
            r.props@ == self.props@,
            r.ports@ == self.ports@,
    {
        let mut ports: Vec<PortRecord> = Vec::new();
        let mut i: usize = 0;
        while i < self.ports.len()
            invariant
                i <= self.ports@.len(),
                ports@ == self.ports@.take(i as int),
            decreases self.ports@.len() - i,
        {
            ports.push(self.ports[i].clone());
            assert(self.ports@.take(i + 1) =~= self.ports@.take(i as int).push(
                self.ports@[i as int],
            ));
            i = i + 1;
        }
        assert(self.ports@.take(self.ports@.len() as int) =~= self.ports@);
        NodeRecord { id: self.id, props: self.props.clone(), ports }
    }
}

/// The ports that run in direction `d`.
pub open spec fn runs(d: PortDirection) -> spec_fn(PortRecord) -> bool {
    |p: PortRecord| p.direction == d
}

/// The ports that run in direction `d` and have a path to link them by.
pub open spec fn usable(d: PortDirection) -> spec_fn(PortRecord) -> bool {
    |p: PortRecord| p.direction == d && p.path is Some
}

impl NodeRecord {
    /// The text of property `key`, if it is a string.
    pub open spec fn text(self, key: Seq<char>) -> Option<Seq<char>> {
        if self.props@.contains_key(key) {
            self.props@[key].text()
        } else {
            None
        }
    }

    /// Property `key` read as a number.
    pub open spec fn num(self, key: Seq<char>) -> Option<u32> {
        if self.props@.contains_key(key) {
            self.props@[key].as_number()
        } else {
            None
        }
    }

    pub open spec fn filled(self, key: Seq<char>) -> bool {
        self.text(key) matches Some(t) && t.len() > 0
    }

    /// A speaker, a microphone or another node of a device.
    pub open spec fn device(self) -> bool {
        ||| self.filled("device.id"@)
        ||| self.text("media.class"@) matches Some(c) && (has_prefix(c, "Audio/Sink"@)
            || has_prefix(c, "Audio/Source"@))
    }

    pub open spec fn outputs(self) -> Seq<PortRecord> {
        self.ports@.filter(usable(PortDirection::Output))
    }

    pub open spec fn inputs(self) -> Seq<PortRecord> {
        self.ports@.filter(usable(PortDirection::Input))
    }

    pub fn prop_str(&self, key: &str) -> (r: Option<&str>)
        ensures
            match r {
                Some(t) => self.text(key@) == Some(t@),
                None => self.text(key@) is None,
            },
    {
        match self.props.get(key) {
            Some(v) => match v {
                PropValue::Text(s) => Some(s.as_str()),
                _ => None,
            },
            None => None,
        }
    }

    pub fn prop_num(&self, key: &str) -> (r: Option<u32>)
        ensures
            r == self.num(key@),
    {
        match self.props.get(key) {
            Some(v) => v.to_number(),
            None => None,
        }
    }

    pub fn matches_prop(&self, key: &str, expected: &str) -> (r: bool)
        ensures
            r == (self.text(key@) == Some(expected@)),
    {
        opt_eq(self.prop_str(key), expected)
    }

    fn has_filled(&self, key: &str) -> (r: bool)
        ensures
            r == self.filled(key@),
    {
        match self.prop_str(key) {
            Some(t) => !t.is_empty(),
            None => false,
        }
    }

    fn ports_running(&self, d: PortDirection) -> (r: Vec<&PortRecord>)
        ensures
            r@.len() == self.ports@.filter(runs(d)).len(),
            forall|i: int| 0 <= i < r@.len() ==> *(#[trigger] r@[i]) == self.ports@.filter(runs(d))[i],
    {
        let mut r: Vec<&PortRecord> = Vec::new();
        let mut i: usize = 0;
        assert(self.ports@.take(0) =~= Seq::<PortRecord>::empty());
        while i < self.ports.len()
            invariant
                i <= self.ports@.len(),
                r@.len() == self.ports@.take(i as int).filter(runs(d)).len(),
                forall|j: int|
                    0 <= j < r@.len() ==> *(#[trigger] r@[j]) == self.ports@.take(i as int).filter(
                        runs(d),
                    )[j],
            decreases self.ports@.len() - i,
        {
            proof {
                let head = self.ports@.take(i as int);
                head.lemma_filter_push(self.ports@[i as int], runs(d));
                assert(self.ports@.take(i + 1) =~= head.push(self.ports@[i as int]));
            }
            if self.ports[i].direction == d {
                r.push(&self.ports[i]);
            }
            i = i + 1;
        }
        assert(self.ports@.take(self.ports@.len() as int) =~= self.ports@);
        r
    }

    pub fn output_ports(&self) -> (r: Vec<&PortRecord>)
        ensures
            r@.len() == self.ports@.filter(runs(PortDirection::Output)).len(),
            forall|i: int|
                0 <= i < r@.len() ==> *(#[trigger] r@[i]) == self.ports@.filter(
                    runs(PortDirection::Output),
                )[i],
    {
        self.ports_running(PortDirection::Output)
    }

    pub fn input_ports(&self) -> (r: Vec<&PortRecord>)
        ensures
            r@.len() == self.ports@.filter(runs(PortDirection::Input)).len(),
            forall|i: int|
                0 <= i < r@.len() ==> *(#[trigger] r@[i]) == self.ports@.filter(
                    runs(PortDirection::Input),
                )[i],
    {
        self.ports_running(PortDirection::Input)
    }

    fn usable_ports(&self, d: PortDirection) -> (r: Vec<PortRecord>)
        ensures
            r@ == self.ports@.filter(usable(d)),
    {
        let mut r: Vec<PortRecord> = Vec::new();
        let mut i: usize = 0;
        assert(self.ports@.take(0) =~= Seq::<PortRecord>::empty());
        while i < self.ports.len()
            invariant
                i <= self.ports@.len(),
                r@ == self.ports@.take(i as int).filter(usable(d)),
            decreases self.ports@.len() - i,
        {
            proof {
                let head = self.ports@.take(i as int);
                head.lemma_filter_push(self.ports@[i as int], usable(d));
                assert(self.ports@.take(i + 1) =~= head.push(self.ports@[i as int]));
            }
            if self.ports[i].direction == d && self.ports[i].path.is_some() {
                r.push(self.ports[i].clone());
            }
            i = i + 1;
        }
        assert(self.ports@.take(self.ports@.len() as int) =~= self.ports@);
        r
    }

    /// The output ports that can be linked.
    pub fn usable_outputs(&self) -> (r: Vec<PortRecord>)
        ensures
            r@ == self.outputs(),
    {
        self.usable_ports(PortDirection::Output)
    }

    /// The input ports that can be linked.
    pub fn usable_inputs(&self) -> (r: Vec<PortRecord>)
        ensures
            r@ == self.inputs(),
    {
        self.usable_ports(PortDirection::Input)
    }

    pub fn is_device(&self) -> (r: bool)
        ensures
            r == self.device(),
    {
        let has_device_id = self.has_filled("device.id");
        let is_audio_device = match self.prop_str("media.class") {
            Some(class) => has_text_prefix(class, "Audio/Sink") || has_text_prefix(
                class,
                "Audio/Source",
            ),
            None => false,
        };
        has_device_id || is_audio_device
    }

    /// A node that an application plays through.
    pub open spec fn app(self) -> bool {
        self.filled("application.name"@) || self.filled("application.process.binary"@)
    }

    pub fn is_app(&self) -> (r: bool)
        ensures
            r == self.app(),
    {
        self.has_filled("application.name") || self.has_filled("application.process.binary")
    }

    pub open spec fn marked_virtual(self) -> bool {
        self.text("node.virtual"@) == Some("true"@)
    }

    pub open spec fn description(self) -> Option<Seq<char>> {
        match self.text("node.description"@) {
            Some(t) => Some(t),
            None => self.text("device.description"@),
        }
    }

    /// The name shown to the user: the first of the description, the media
    /// name, the application name and the node name that there is.
    pub open spec fn display_name(self) -> Seq<char> {
        match self.description() {
            Some(t) => t,
            None => match self.text("media.name"@) {
                Some(t) => t,
                None => match self.text("application.name"@) {
                    Some(t) => t,
                    None => match self.text("node.name"@) {
                        Some(t) => t,
                        None => "Node "@ + decimal(self.id as nat),
                    },
                },
            },
        }
    }

    pub open spec fn shareable(self) -> ShareableNodeView {
        ShareableNodeView {
            id: self.id,
            display_name: self.display_name(),
            application_name: self.text("application.name"@),
            node_name: self.text("node.name"@),
            description: self.description(),
            media_name: self.text("media.name"@),
            binary: self.text("application.process.binary"@),
            process_id: self.num("application.process.id"@),
            media_class: self.text("media.class"@),
            is_virtual: self.marked_virtual(),
            is_device: self.device(),
        }
    }
}

fn first_of(a: &Option<String>, b: Option<String>) -> (r: Option<String>)
    ensures
        opt_text(r) == (match opt_text(*a) {
            Some(t) => Some(t),
            None => opt_text(b),
        }),
{
    match a {
        Some(t) => Some(t.clone()),
        None => b,
    }
}

pub fn to_shareable_node(node: &NodeRecord) -> (r: ShareableNode)
    ensures
        r@ == node.shareable(),
{
    let application_name = own_opt(node.prop_str("application.name"));
    let node_name = own_opt(node.prop_str("node.name"));
    let named = own_opt(node.prop_str("node.description"));
    let description = first_of(&named, own_opt(node.prop_str("device.description")));
    let media_name = own_opt(node.prop_str("media.name"));
    let binary = own_opt(node.prop_str("application.process.binary"));
    let process_id = node.prop_num("application.process.id");
    let shown = first_of(
        &description,
        first_of(&media_name, first_of(&application_name, copy_opt(&node_name))),
    );
    let display_name = match shown {
        Some(t) => t,
        None => {
            let id = decimal_text(node.id as u64);
            cat("Node ", id.as_str())
        },
    };
    ShareableNode {
        id: node.id,
        display_name,
        application_name,
        node_name,
        description,
        media_name,
        binary,
        process_id,
        media_class: own_opt(node.prop_str("media.class")),
        is_virtual: node.matches_prop("node.virtual", "true"),
        is_device: node.is_device(),
    }
}

/// The hint that one node gives: the desktop-file id and its fragment.
pub open spec fn hint_of(node: NodeRecord) -> Option<(Seq<char>, Seq<char>)> {
    match node.text("node.name"@) {
        Some(name) => {
            let prefix = "kwin-screencast-"@;
            let id = name.skip(prefix.len() as int);
            let hint = lower(after_last(id, '.'));
            if has_prefix(name, prefix) && id.len() > 0 && hint.len() > 0 {
                Some((id, hint))
            } else {
                None
            }
        },
        None => None,
    }
}

/// The hint of the first node that gives one.
pub open spec fn first_hint(s: Seq<(u32, NodeRecord)>) -> Option<(Seq<char>, Seq<char>)>
    decreases s.len(),
{
    if s.len() == 0 {
        None
    } else {
        match hint_of(s[0].1) {
            Some(h) => Some(h),
            None => first_hint(s.drop_first()),
        }
    }
}

fn screencast_hint(node: &NodeRecord) -> (r: Option<ScreencastHint>)
    ensures
        match r {
            Some(h) => hint_of(*node) == Some((h.desktop_file_id@, h.hint@)),
            None => hint_of(*node) is None,
        },
{
    let name = match node.prop_str("node.name") {
        Some(name) => name,
        None => {
            return None;
        },
    };
    let desktop_file_id = match without_prefix(name, "kwin-screencast-") {
        Some(id) => id,
        None => {
            return None;
        },
    };
    if desktop_file_id.as_str().is_empty() {
        return None;
    }
    let last = tail_after_last(desktop_file_id.as_str(), '.');
    let hint = to_lower(last.as_str());
    if hint.as_str().is_empty() {
        return None;
    }
    Some(ScreencastHint { desktop_file_id, hint })
}

/// Looks through the nodes for a KWin window share in progress.
pub fn find_screencast_hint(nodes: &IdTable<NodeRecord>) -> (r: Option<ScreencastHint>)
    ensures
        match r {
            Some(h) => first_hint(nodes.entries()) == Some((h.desktop_file_id@, h.hint@)),
            None => first_hint(nodes.entries()) is None,
        },
{
    let mut i: usize = 0;
    assert(nodes.entries().skip(0) =~= nodes.entries());
    while i < nodes.len()
        invariant
            i <= nodes.entries().len(),
            first_hint(nodes.entries()) == first_hint(nodes.entries().skip(i as int)),
        decreases nodes.entries().len() - i,
    {
        let ghost rest = nodes.entries().skip(i as int);
        assert(rest[0] == nodes.entries()[i as int]);
        assert(rest.drop_first() =~= nodes.entries().skip(i + 1));
        let found = screencast_hint(nodes.value_at(i));
        if found.is_some() {
            return found;
        }
        i = i + 1;
    }
    None
}

/// The first node of a walk that `wanted` accepts.
pub open spec fn first_node(
    s: Seq<(u32, NodeRecord)>,
    wanted: spec_fn(NodeRecord) -> bool,
) -> Option<NodeRecord>
    decreases s.len(),
{
    if s.len() == 0 {
        None
    } else if wanted(s[0].1) {
        Some(s[0].1)
    } else {
        first_node(s.drop_first(), wanted)
    }
}

/// Nodes whose `node.name` is `name`.
pub open spec fn named(name: Seq<char>) -> spec_fn(NodeRecord) -> bool {
    |n: NodeRecord| n.text("node.name"@) == Some(name)
}

/// The first node that is called `name`.
pub fn find_named<'a>(nodes: &'a IdTable<NodeRecord>, name: &str) -> (r: Option<&'a NodeRecord>)
    ensures
        match r {
            Some(n) => first_node(nodes.entries(), named(name@)) == Some(*n),
            None => first_node(nodes.entries(), named(name@)) is None,
        },
{
    let mut i: usize = 0;
    assert(nodes.entries().skip(0) =~= nodes.entries());
    while i < nodes.len()
        invariant
            i <= nodes.entries().len(),
            first_node(nodes.entries(), named(name@)) == first_node(
                nodes.entries().skip(i as int),
                named(name@),
            ),
        decreases nodes.entries().len() - i,
    {
        let ghost rest = nodes.entries().skip(i as int);
        assert(rest[0] == nodes.entries()[i as int]);
        assert(rest.drop_first() =~= nodes.entries().skip(i + 1));
        let node = nodes.value_at(i);
        if node.matches_prop("node.name", name) {
            return Some(node);
        }
        i = i + 1;
    }
    None
}

/// A node that a walk finds is accepted and stands in the walk.
pub proof fn lemma_first_node(s: Seq<(u32, NodeRecord)>, wanted: spec_fn(NodeRecord) -> bool)
    ensures
        first_node(s, wanted) matches Some(n) ==> wanted(n) && exists|i: int|
            0 <= i < s.len() && (#[trigger] s[i]).1 == n,
        first_node(s, wanted) is None ==> forall|i: int|
            0 <= i < s.len() ==> !wanted((#[trigger] s[i]).1),
    decreases s.len(),
{
    if s.len() > 0 && !wanted(s[0].1) {
        let rest = s.drop_first();
        lemma_first_node(rest, wanted);
        match first_node(rest, wanted) {
            Some(n) => {
                let i = choose|i: int| 0 <= i < rest.len() && (#[trigger] rest[i]).1 == n;
                assert(s[i + 1].1 == n);
            },
            None => {
                assert forall|i: int| 0 <= i < s.len() implies !wanted((#[trigger] s[i]).1) by {
                    if i > 0 {
                        assert(rest[i - 1] == s[i]);
                    }
                }
            },
        }
    }
}

/// Property `key` is the text `value`.
pub open spec fn says(
    props: Map<Seq<char>, PropView>,
    key: Seq<char>,
    value: Seq<char>,
) -> bool {
    props.contains_key(key) && props[key] == PropView::Text(value)
}

/// Property `key` is a text, and not an empty one.
pub open spec fn says_something(props: Map<Seq<char>, PropView>, key: Seq<char>) -> bool {
    props.contains_key(key) && (props[key] matches PropView::Text(t) && t.len() > 0)
}

/// Property `key` is no text.
pub open spec fn says_nothing(props: Map<Seq<char>, PropView>, key: Seq<char>) -> bool {
    !props.contains_key(key) || !(props[key] is Text)
}

/// The text of a property is read where the property is a text, and only there;
/// a number is read from a number or from its digits.
pub proof fn properties_are_read_as_they_were_told(n: NodeRecord, key: Seq<char>, number: u32)
    ensures
        forall|t: Seq<char>| (n.text(key) == Some(t)) == #[trigger] says(n.props@, key, t),
        n.text(key) is None == says_nothing(n.props@, key),
        n.props@.contains_key(key) && n.props@[key] == PropView::Unsigned(number as u64)
            ==> n.num(key) == Some(number),
        says(n.props@, key, decimal(number as nat)) ==> n.num(key) == Some(number),
        !n.props@.contains_key(key) || n.props@[key] == PropView::Other ==> n.num(key) is None,
{
    crate::text::number_reads_decimal(number);
}

/// The two words for each direction name it, and no other word names one.
pub proof fn four_words_name_a_direction(word: Seq<char>)
    ensures
        (direction_named(word) == Some(PortDirection::Input)) == (word == "in"@ || word
            == "input"@),
        (direction_named(word) == Some(PortDirection::Output)) == (word == "out"@ || word
            == "output"@),
{
    reveal_strlit("in");
    reveal_strlit("input");
    reveal_strlit("out");
    reveal_strlit("output");
    assert("in"@[0] == 'i' && "input"@[0] == 'i' && "out"@[0] == 'o' && "output"@[0] == 'o');
}

/// A node is a device exactly if it tells a device id or a media class that
/// begins with `Audio/Sink` or `Audio/Source`, and an application exactly if it
/// tells the name of one or the binary of one; nothing else that it tells
/// matters.
pub proof fn devices_and_applications_say_so(n: NodeRecord)
    ensures
        n.device() == (says_something(n.props@, "device.id"@) || exists|rest: Seq<char>|
            says(n.props@, "media.class"@, #[trigger] ("Audio/Sink"@ + rest)) || says(
                n.props@,
                "media.class"@,
                "Audio/Source"@ + rest,
            )),
        n.app() == (says_something(n.props@, "application.name"@) || says_something(
            n.props@,
            "application.process.binary"@,
        )),
        n.marked_virtual() == says(n.props@, "node.virtual"@, "true"@),
{
    let p = n.props@;
    let key = "media.class"@;
    let (sink, source) = ("Audio/Sink"@, "Audio/Source"@);
    if let Some(c) = n.text(key) {
        if has_prefix(c, sink) {
            crate::text::parts_are_found_wherever_they_stand(c, sink, Seq::empty());
            assert(says(p, key, sink + c.skip(sink.len() as int)));
        }
        if has_prefix(c, source) {
            crate::text::parts_are_found_wherever_they_stand(c, source, Seq::empty());
            let rest = c.skip(source.len() as int);
            assert(says(p, key, source + rest));
            let other = sink + rest;
        }
    }
    assert forall|rest: Seq<char>| says(p, key, #[trigger] (sink + rest)) implies n.device() by {
        crate::text::parts_are_found_wherever_they_stand(Seq::empty(), sink, rest);
    }
    assert forall|rest: Seq<char>| says(p, key, #[trigger] (source + rest)) implies n.device() by {
        crate::text::parts_are_found_wherever_they_stand(Seq::empty(), source, rest);
    }
    assert forall|rest: Seq<char>|
        #![trigger sink + rest]
        says(p, key, source + rest) implies n.device() by {
        let whole = source + rest;
    }
}

/// A port of a node can be linked exactly if it has a path, as an output where
/// it runs out of the node and as an input where it runs into it.
pub proof fn ports_with_a_path_can_be_linked(n: NodeRecord, p: PortRecord)
    ensures
        n.outputs().contains(p) == (n.ports@.contains(p) && p.direction is Output && p.path
            is Some),
        n.inputs().contains(p) == (n.ports@.contains(p) && p.direction is Input && p.path is Some),
{
    lemma_kept(n.ports@, usable(PortDirection::Output), p);
    lemma_kept(n.ports@, usable(PortDirection::Input), p);
}

proof fn lemma_kept(s: Seq<PortRecord>, wanted: spec_fn(PortRecord) -> bool, p: PortRecord)
    ensures
        s.filter(wanted).contains(p) == (s.contains(p) && wanted(p)),
{
    if s.filter(wanted).contains(p) {
        s.lemma_filter_contains_rev(wanted, p);
        s.lemma_filter_pred(wanted, s.filter(wanted).index_of(p));
    }
    if s.contains(p) && wanted(p) {
        s.lemma_filter_contains(wanted, s.index_of(p));
    }
}

/// What is offered of a node tells each thing that the node tells, and each from
/// the property that it stands in.
pub proof fn offers_tell_what_the_node_tells(n: NodeRecord, t: Seq<char>)
    ensures
        ({
            let p = n.props@;
            let v = n.shareable();
            &&& v.id == n.id
            &&& (v.application_name == Some(t)) == says(p, "application.name"@, t)
            &&& (v.node_name == Some(t)) == says(p, "node.name"@, t)
            &&& (v.media_name == Some(t)) == says(p, "media.name"@, t)
            &&& (v.binary == Some(t)) == says(p, "application.process.binary"@, t)
            &&& (v.media_class == Some(t)) == says(p, "media.class"@, t)
            &&& (v.description == Some(t)) == (says(p, "node.description"@, t) || says_nothing(
                p,
                "node.description"@,
            ) && says(p, "device.description"@, t))
            &&& v.process_id == n.num("application.process.id"@)
            &&& v.is_virtual == says(p, "node.virtual"@, "true"@)
            &&& v.is_device == n.device()
        }),
{
}

/// A node is shown by its own description; without one, by that of its device;
/// without one, by what it plays; without that, by its application; without
/// that, by its name; and without any of these, by its id.
pub proof fn nodes_are_shown_by_the_first_name_they_have(n: NodeRecord, t: Seq<char>)
    ensures
        ({
            let p = n.props@;
            let shown = n.shareable().display_name;
            let no_description = says_nothing(p, "node.description"@) && says_nothing(
                p,
                "device.description"@,
            );
            &&& says(p, "node.description"@, t) ==> shown == t
            &&& says_nothing(p, "node.description"@) && says(p, "device.description"@, t) ==> shown
                == t
            &&& no_description && says(p, "media.name"@, t) ==> shown == t
            &&& no_description && says_nothing(p, "media.name"@) && says(p, "application.name"@, t)
                ==> shown == t
            &&& no_description && says_nothing(p, "media.name"@) && says_nothing(
                p,
                "application.name"@,
            ) && says(p, "node.name"@, t) ==> shown == t
            &&& no_description && says_nothing(p, "media.name"@) && says_nothing(
                p,
                "application.name"@,
            ) && says_nothing(p, "node.name"@) ==> shown == "Node "@ + decimal(n.id as nat)
        }),
{
}

/// A node that is named after the screencast of a window hints at the desktop
/// file of the window and, in lower case, at the last of the parts that dots
/// divide it into, where that is not empty.
pub proof fn screencasts_hint_at_their_window(n: NodeRecord, parts: Seq<char>, last: Seq<char>)
    requires
        last.len() > 0,
        !last.contains('.'),
    ensures
        says(n.props@, "node.name"@, "kwin-screencast-"@ + last) ==> hint_of(n) == Some(
            (last, lower(last)),
        ),
        says(n.props@, "node.name"@, "kwin-screencast-"@ + parts + seq!['.'] + last) ==> hint_of(n)
            == Some((parts + seq!['.'] + last, lower(last))),
        says(n.props@, "node.name"@, "kwin-screencast-"@ + parts + seq!['.']) ==> hint_of(n)
            is None,
        says(n.props@, "node.name"@, "kwin-screencast-"@) ==> hint_of(n) is None,
        says_nothing(n.props@, "node.name"@) ==> hint_of(n) is None,
{
    let prefix = "kwin-screencast-"@;
    crate::text::the_tail_is_what_follows_the_last(parts, '.', last);
    crate::text::the_tail_is_what_follows_the_last(parts, '.', Seq::empty());
    assert((prefix + last).skip(prefix.len() as int) =~= last);
    assert((prefix + last).take(prefix.len() as int) =~= prefix);
    let name = prefix + parts + seq!['.'] + last;
    assert(name.skip(prefix.len() as int) =~= parts + seq!['.'] + last);
    assert(name.take(prefix.len() as int) =~= prefix);
    let bare = prefix + parts + seq!['.'];
    assert(bare.skip(prefix.len() as int) =~= parts + seq!['.'] + Seq::<char>::empty());
    assert(bare.take(prefix.len() as int) =~= prefix);
    assert(prefix.skip(prefix.len() as int) =~= Seq::<char>::empty());
}

/// Whoever hints is named after a screencast, and the hint names the window.
pub proof fn hints_come_from_screencasts(n: NodeRecord)
    ensures
        hint_of(n) matches Some((id, hint)) ==> says(
            n.props@,
            "node.name"@,
            "kwin-screencast-"@ + id,
        ) && id.len() > 0 && hint.len() > 0,
{
    if let Some(name) = n.text("node.name"@) {
        let prefix = "kwin-screencast-"@;
        crate::text::parts_are_found_wherever_they_stand(name, prefix, Seq::empty());
    }
}

/// A walk finds the first node that is wanted, and the first hint that is given:
/// no node that stands later counts.
pub proof fn a_walk_finds_the_first(
    s: Seq<(u32, NodeRecord)>,
    wanted: spec_fn(NodeRecord) -> bool,
    i: int,
)
    requires
        0 <= i < s.len(),
    ensures
        wanted(s[i].1) && (forall|j: int| 0 <= j < i ==> !wanted((#[trigger] s[j]).1))
            ==> first_node(s, wanted) == Some(s[i].1),
        (hint_of(s[i].1) is Some && forall|j: int|
            0 <= j < i ==> hint_of((#[trigger] s[j]).1) is None) ==> first_hint(s) == hint_of(
            s[i].1,
        ),
        first_hint(s) is None ==> hint_of(s[i].1) is None,
    decreases s.len(),
{
    if i > 0 {
        let rest = s.drop_first();
        a_walk_finds_the_first(rest, wanted, i - 1);
        assert(rest[i - 1] == s[i]);
        assert(s[0] == s[0]);
        assert forall|j: int|
            0 <= j < i - 1 && (forall|k: int|
                0 <= k < i ==> !wanted((#[trigger] s[k]).1)) implies !wanted(
            (#[trigger] rest[j]).1,
        ) by {
            assert(!wanted(s[j + 1].1));
        }
        assert forall|j: int|
            0 <= j < i - 1 && (forall|k: int|
                0 <= k < i ==> hint_of((#[trigger] s[k]).1) is None) implies hint_of(
            (#[trigger] rest[j]).1,
        ) is None by {
            assert(hint_of(s[j + 1].1) is None);
        }
    }
}

/// What is handed out as shareable tells what the node tells: its id, each text
/// from the property that it stands in, and whether it is virtual.
pub proof fn shareable_nodes_tell_what_the_node_tells(
    node: NodeRecord,
    r: ShareableNode,
    t: Seq<char>,
)
    requires
        call_ensures(to_shareable_node, (&node,), r),
    ensures
        r.id == node.id,
        (opt_text(r.application_name) == Some(t)) == says(node.props@, "application.name"@, t),
        (opt_text(r.node_name) == Some(t)) == says(node.props@, "node.name"@, t),
        (opt_text(r.media_name) == Some(t)) == says(node.props@, "media.name"@, t),
        (opt_text(r.binary) == Some(t)) == says(node.props@, "application.process.binary"@, t),
        (opt_text(r.media_class) == Some(t)) == says(node.props@, "media.class"@, t),
        r.is_virtual == says(node.props@, "node.virtual"@, "true"@),
        r.is_device == node.device(),
        says(node.props@, "node.description"@, t) ==> r.display_name@ == t,
{
    offers_tell_what_the_node_tells(node, t);
    nodes_are_shown_by_the_first_name_they_have(node, t);
    assert(r@.id == r.id);
}

/// The ports that run out of a node are its outputs and those that run into it
/// its inputs, with a path or without; together they are all of its ports.
pub proof fn every_port_runs_one_way(
    node: NodeRecord,
    outputs: Vec<&PortRecord>,
    inputs: Vec<&PortRecord>,
    p: PortRecord,
)
    requires
        call_ensures(NodeRecord::output_ports, (&node,), outputs),
        call_ensures(NodeRecord::input_ports, (&node,), inputs),
        node.ports@.contains(p),
    ensures
        p.direction is Output ==> exists|i: int|
            0 <= i < outputs@.len() && *(#[trigger] outputs@[i]) == p,
        p.direction is Input ==> exists|i: int|
            0 <= i < inputs@.len() && *(#[trigger] inputs@[i]) == p,
        forall|i: int| 0 <= i < outputs@.len() ==> (#[trigger] outputs@[i]).direction is Output,
        forall|i: int| 0 <= i < inputs@.len() ==> (#[trigger] inputs@[i]).direction is Input,
{
    let out = runs(PortDirection::Output);
    let into = runs(PortDirection::Input);
    lemma_kept(node.ports@, out, p);
    lemma_kept(node.ports@, into, p);
    if p.direction is Output {
        let i = node.ports@.filter(out).index_of(p);
        assert(*outputs@[i] == p);
    } else {
        let i = node.ports@.filter(into).index_of(p);
        assert(*inputs@[i] == p);
    }
    assert forall|i: int| 0 <= i < outputs@.len() implies (#[trigger] outputs@[i]).direction
        is Output by {
        node.ports@.lemma_filter_pred(out, i);
    }
    assert forall|i: int| 0 <= i < inputs@.len() implies (#[trigger] inputs@[i]).direction
        is Input by {
        node.ports@.lemma_filter_pred(into, i);
    }
}

/// A view of a record shows each thing that the record holds in its own place.
pub proof fn views_of_records_show_what_they_hold(
    p: PortRecord,
    n: NodeRecord,
    v: VirtualSinkInfo,
    r: Route,
    s: ShareableNode,
    i: int,
)
    ensures
        p@.id == p.id,
        p@.direction == p.direction,
        p@.channel == opt_text(p.channel),
        p@.port_index == opt_text(p.port_index),
        p@.path == opt_text(p.path),
        p@.port_name == opt_text(p.port_name),
        p@.object_path == opt_text(p.object_path),
        n@.id == n.id,
        n@.props == n.props@,
        n@.ports.len() == n.ports@.len(),
        0 <= i < n.ports@.len() ==> n@.ports[i] == n.ports@[i]@,
        v@.sink_name == v.sink_name@,
        v@.monitor_source == v.monitor_source@,
        v@.node_id == v.node_id,
        v@.virtual_mic_name == opt_text(v.virtual_mic_name),
        v@.virtual_mic_description == opt_text(v.virtual_mic_description),
        r@ == (r.output_path@, r.input_path@),
        s@.id == s.id,
        s@.display_name == s.display_name@,
        s@.application_name == opt_text(s.application_name),
        s@.node_name == opt_text(s.node_name),
        s@.description == opt_text(s.description),
        s@.media_name == opt_text(s.media_name),
        s@.binary == opt_text(s.binary),
        s@.process_id == s.process_id,
        s@.media_class == opt_text(s.media_class),
        s@.is_virtual == s.is_virtual,
        s@.is_device == s.is_device,
{
}

/// A negative number, and a fraction that is no plain number, is no `u32`.
pub proof fn negative_numbers_are_no_ids(n: NodeRecord, key: Seq<char>, m: i64)
    requires
        m < 0,
        n.props@.contains_key(key),
        n.props@[key] == PropView::Negative(m),
    ensures
        n.num(key) is None,
{
    reveal_strlit("-");
    let digits = crate::json::integer_text(m as int);
    assert(digits[0] == '-');
}

/// A filter keeps nothing back unless it is told to.
pub proof fn filters_are_off_at_first(f: RouteFilter)
    requires
        call_ensures(RouteFilter::default, (), f),
    ensures
        !f.only_speakers && !f.only_default_speakers && !f.ignore_devices && !f.ignore_virtual
            && !f.ignore_input_media,
{
}

} // verus!
