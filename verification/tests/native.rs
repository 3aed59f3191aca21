use patchcord::config::{PatchbayConfig, SessionCounter};
use patchcord::discord_capture::{
    is_capture_node, CaptureChoice, CaptureEvent, CaptureStep, DiscordCapture,
};
use patchcord::error::{BackendError, JsonError};
use patchcord::json::{JsonValue, PropMap, PropValue};
use patchcord::models::{NodeRecord, PortDirection, PortRecord, RouteFilter, VirtualSinkInfo};
use patchcord::patchbay::{
    AudioSharePatchbay, BackendState, ClearRun, DisposeRun, HintRun, ListRun, RouteRun, SinkRun,
};
use patchcord::pw_backend::{
    answer_mute, not_running, read_sink_name, recv_result, wait_ready, wants_metadata, BackendEvent, Command,
    CommandStep, CreatedKind, GlobalObject, GraphSnapshot, HandleCounter, LinkRecord, LoopState,
    MuteOutcome,
    ObjectKind, ReadyEvent, ReadyStep,
};
use patchcord::spike::{
    app_like_nodes, await_change, count_with_outputs, is_linked, is_telling, plan_trial_link, ChangeEvent, ChangeStep,
};
use patchcord::state_native::{
    find_node_id_by_name, resolve_default_sink_id, should_link, wait_for_node_ready, DefaultEvent,
    DefaultStep, EnsureEvent, EnsureStep, MicEvent, MicMuteEvent, MicMuteStep, MicStep,
    MonitorEvent, MonitorStep, NativeClearEvent, NativeClearStep, NativeDisposeEvent,
    NativeDisposeStep, NativeRouteEvent, NativeRouteStep, PatchbayStateNative, RestoreEvent,
    SinkStage, WaitEvent, WaitStep,
};
use patchcord::table::IdTable;

fn props(list: &[(&str, &str)]) -> PropMap {
    let mut p = PropMap::new();
    for (k, v) in list {
        p.insert(k.to_string(), PropValue::Text(v.to_string()));
    }
    p
}

fn port(id: u32, direction: PortDirection, channel: &str) -> PortRecord {
    PortRecord {
        id,
        direction,
        channel: Some(channel.to_string()),
        port_index: None,
        path: Some(id.to_string()),
        port_name: None,
        object_path: None,
    }
}

fn stereo_in(id: u32) -> Vec<PortRecord> {
    vec![port(id + 1, PortDirection::Input, "FL"), port(id + 2, PortDirection::Input, "FR")]
}

fn stereo_out(id: u32) -> Vec<PortRecord> {
    vec![port(id + 3, PortDirection::Output, "FL"), port(id + 4, PortDirection::Output, "FR")]
}

fn node(id: u32, list: &[(&str, &str)], ports: Vec<PortRecord>) -> NodeRecord {
    NodeRecord { id, props: props(list), ports }
}

fn snapshot(nodes: Vec<NodeRecord>, links: Vec<LinkRecord>, default: Option<&str>) -> GraphSnapshot {
    let mut t = IdTable::new();
    for n in nodes {
        t.insert(n.id, n);
    }
    let mut l = IdTable::new();
    for (i, link) in links.into_iter().enumerate() {
        l.insert(900 + i as u32, link);
    }
    GraphSnapshot { nodes: t, links: l, default_sink_name: default.map(|d| d.to_string()) }
}

fn link(output_node: u32, output_port: u32, input_node: u32, input_port: u32) -> LinkRecord {
    LinkRecord { output_node, output_port, input_node, input_port }
}

fn fault() -> BackendError {
    BackendError::message("no")
}

const SINK: &str = "audio-share-99-1";

fn sink() -> NodeRecord {
    let mut ports = stereo_in(50);
    ports.append(&mut stereo_out(50));
    node(50, &[("node.name", SINK)], ports)
}

fn app(id: u32) -> NodeRecord {
    node(id, &[("application.name", "A")], stereo_out(id))
}

fn native(mic: bool, default: bool) -> PatchbayStateNative {
    let mut c = PatchbayConfig::default();
    c.virtual_mic = mic;
    c.sink_becomes_default = default;
    PatchbayStateNative::spawn(&c, 99, &mut SessionCounter::new())
}

fn info() -> VirtualSinkInfo {
    VirtualSinkInfo {
        sink_name: SINK.to_string(),
        monitor_source: format!("{}.monitor", SINK),
        node_id: 50,
        virtual_mic_name: None,
        virtual_mic_description: None,
    }
}

fn global(id: u32, kind: ObjectKind, list: Option<&[(&str, &str)]>) -> GlobalObject {
    GlobalObject { id, kind, props: list.map(props) }
}

#[test]
fn announcements_build_the_graph() {
    let mut s = LoopState::new();
    assert_eq!(
        s.on_global(global(5, ObjectKind::Node, Some(&[("node.name", "n")]))),
        Some(BackendEvent::GraphChanged)
    );
    let port_props: &[(&str, &str)] = &[
        ("node.id", "5"),
        ("port.direction", "out"),
        ("audio.channel", "FL"),
        ("port.id", "0"),
    ];
    assert_eq!(
        s.on_global(global(6, ObjectKind::Port, Some(port_props))),
        Some(BackendEvent::GraphChanged)
    );
    assert_eq!(s.graph.nodes.get(5).unwrap().ports.len(), 1);
    assert_eq!(s.graph.nodes.get(5).unwrap().ports[0].path, Some("6".to_string()));
    assert_eq!(s.port_owner.get(6), Some(&(5, PortDirection::Output)));
    s.on_global(global(5, ObjectKind::Node, None));
    assert_eq!(s.graph.nodes.get(5).unwrap().ports.len(), 1);
    assert_eq!(s.graph.nodes.get(5).unwrap().prop_str("node.name"), None);
    let link_props: &[(&str, &str)] = &[
        ("link.output.node", "5"),
        ("link.output.port", "6"),
        ("link.input.node", "7"),
        ("link.input.port", "8"),
    ];
    s.on_global(global(9, ObjectKind::Link, Some(link_props)));
    assert_eq!(s.graph.links.get(9), Some(&link(5, 6, 7, 8)));
    assert_eq!(s.graph.link_targets_of(5), vec![7]);
    assert_eq!(s.graph.link_targets_of(7), Vec::<u32>::new());
    assert_eq!(s.on_global_remove(5), BackendEvent::GraphChanged);
    assert!(s.graph.nodes.get(5).is_none());
    s.on_global_remove(9);
    assert!(s.graph.links.is_empty());
    assert!(!s.known_globals.contains(5) && s.known_globals.contains(6));
}

#[test]
fn announcements_that_say_too_little_are_noted_only() {
    let mut s = LoopState::new();
    let no_direction: &[(&str, &str)] = &[("node.id", "5")];
    let no_owner: &[(&str, &str)] = &[("port.direction", "in")];
    let orphan: &[(&str, &str)] = &[("node.id", "5"), ("port.direction", "in")];
    let half: &[(&str, &str)] = &[("link.output.node", "5")];
    assert_eq!(s.on_global(global(1, ObjectKind::Port, None)), None);
    assert_eq!(s.on_global(global(2, ObjectKind::Port, Some(no_direction))), None);
    assert_eq!(s.on_global(global(3, ObjectKind::Port, Some(no_owner))), None);
    assert_eq!(s.on_global(global(4, ObjectKind::Link, Some(half))), None);
    assert_eq!(s.on_global(global(5, ObjectKind::Link, None)), None);
    assert_eq!(s.on_global(global(6, ObjectKind::Other, None)), None);
    assert_eq!(
        s.on_global(global(7, ObjectKind::Port, Some(orphan))),
        Some(BackendEvent::GraphChanged)
    );
    assert!(s.graph.nodes.is_empty());
    for id in 1..8 {
        assert!(s.known_globals.contains(id));
    }
}

#[test]
fn the_default_sink_is_followed() {
    let mut s = LoopState::new();
    assert_eq!(
        s.on_metadata_property(Some("default.audio.sink"), Some("{ \"name\": \"alsa\" }")),
        Some(BackendEvent::DefaultSinkChanged(Some("alsa".to_string())))
    );
    assert_eq!(s.graph.default_sink_name, Some("alsa".to_string()));
    assert_eq!(s.on_metadata_property(Some("default.audio.source"), None), None);
    assert_eq!(s.on_metadata_property(None, None), None);
    assert_eq!(s.graph.default_sink_name, Some("alsa".to_string()));
    for value in [None, Some("null"), Some("{\"name\":1}"), Some("{}"), Some("alsa")] {
        s.on_default_sink(Some("x".to_string()));
        assert_eq!(
            s.on_metadata_property(Some("default.audio.sink"), value),
            Some(BackendEvent::DefaultSinkChanged(None))
        );
        assert_eq!(s.graph.default_sink_name, None);
    }
    assert_eq!(
        read_sink_name(Ok(JsonValue::Object(vec![(
            "name".to_string(),
            JsonValue::Text("n".to_string())
        )]))),
        Some("n".to_string())
    );
    assert_eq!(read_sink_name(Ok(JsonValue::Null)), None);
    let twice = |first: JsonValue, second: JsonValue| {
        Ok(JsonValue::Object(vec![("name".to_string(), first), ("name".to_string(), second)]))
    };
    let named = |name: &str| JsonValue::Text(name.to_string());
    assert_eq!(read_sink_name(twice(named("a"), named("b"))), Some("b".to_string()));
    assert_eq!(read_sink_name(twice(JsonValue::Unsigned(1), named("b"))), None);
    assert_eq!(read_sink_name(Err(JsonError)), None);
    let named: &[(&str, &str)] = &[("metadata.name", "default")];
    let other: &[(&str, &str)] = &[("metadata.name", "settings")];
    assert!(wants_metadata(&global(1, ObjectKind::Metadata, Some(named))));
    assert!(!wants_metadata(&global(1, ObjectKind::Metadata, Some(other))));
    assert!(!wants_metadata(&global(1, ObjectKind::Metadata, None)));
    assert!(!wants_metadata(&global(1, ObjectKind::Node, Some(named))));
}

#[test]
fn commands_create_and_destroy() {
    let mut s = LoopState::new();
    let mut handles = HandleCounter::new();
    match s.handle_command(Command::CreateLink {
        output_node: 1,
        output_port: 2,
        input_node: 3,
        input_port: 4,
    }) {
        CommandStep::Create { kind, factory, props } => {
            assert_eq!(kind, CreatedKind::Link);
            assert_eq!(factory, "link-factory");
            let expected: Vec<(String, String)> = [
                ("link.output.node", "1"),
                ("link.output.port", "2"),
                ("link.input.node", "3"),
                ("link.input.port", "4"),
                ("object.linger", "false"),
            ]
            .iter()
            .map(|(k, v)| (k.to_string(), v.to_string()))
            .collect();
            assert_eq!(props, expected);
        }
        other => panic!("{:?}", other),
    }
    assert_eq!(s.on_created(&mut handles, CreatedKind::Link, Ok(())).unwrap(), 1);
    assert_eq!(s.on_created(&mut handles, CreatedKind::Node, Ok(())).unwrap(), 2);
    assert_eq!(
        s.on_created(&mut handles, CreatedKind::Link, Err("x".to_string())).unwrap_err().to_text(),
        "failed to create link: x"
    );
    assert_eq!(
        s.on_created(&mut handles, CreatedKind::Node, Err("x".to_string())).unwrap_err().to_text(),
        "failed to create virtual node: x"
    );
    assert!(matches!(
        s.handle_command(Command::DestroyLink { link_handle: 1 }),
        CommandStep::Release { kind: CreatedKind::Link, handle: 1 }
    ));
    match s.handle_command(Command::DestroyLink { link_handle: 1 }) {
        CommandStep::Refuse(e) => assert_eq!(e.to_text(), "unknown link handle 1"),
        other => panic!("{:?}", other),
    }
    match s.handle_command(Command::DestroyNode { node_handle: 1 }) {
        CommandStep::Refuse(e) => assert_eq!(e.to_text(), "unknown node handle 1"),
        other => panic!("{:?}", other),
    }
    assert!(matches!(
        s.handle_command(Command::DestroyNode { node_handle: 2 }),
        CommandStep::Release { kind: CreatedKind::Node, handle: 2 }
    ));
    assert!(matches!(s.handle_command(Command::Shutdown), CommandStep::Quit));
}

#[test]
fn virtual_nodes_are_asked_for_with_their_class() {
    let mut s = LoopState::new();
    match s.handle_command(Command::CreateVirtualNode {
        node_name: "n".to_string(),
        node_description: "d".to_string(),
        media_class: "Audio/Sink",
    }) {
        CommandStep::Create { kind, factory, props } => {
            assert_eq!(kind, CreatedKind::Node);
            assert_eq!(factory, "adapter");
            let expected: Vec<(String, String)> = [
                ("factory.name", "support.null-audio-sink"),
                ("node.name", "n"),
                ("node.description", "d"),
                ("media.class", "Audio/Sink"),
                ("audio.position", "FL,FR"),
            ]
            .iter()
            .map(|(k, v)| (k.to_string(), v.to_string()))
            .collect();
            assert_eq!(props, expected);
        }
        other => panic!("{:?}", other),
    }
}

#[test]
fn handles_start_again_after_the_last() {
    let mut handles = HandleCounter::new();
    assert_eq!(handles.next_handle(), 1);
    handles.next = u32::MAX;
    assert_eq!(handles.next_handle(), u32::MAX);
    assert_eq!(handles.next_handle(), 0);
}

#[test]
fn two_loops_never_share_a_handle() {
    let mut handles = HandleCounter::new();
    let mut a = LoopState::new();
    let mut b = LoopState::new();
    assert_eq!(a.on_created(&mut handles, CreatedKind::Link, Ok(())).unwrap(), 1);
    assert_eq!(b.on_created(&mut handles, CreatedKind::Link, Ok(())).unwrap(), 2);
    assert!(a.on_created(&mut handles, CreatedKind::Node, Err("x".to_string())).is_err());
    assert_eq!(a.on_created(&mut handles, CreatedKind::Node, Ok(())).unwrap(), 3);
    match b.handle_command(Command::DestroyLink { link_handle: 1 }) {
        CommandStep::Refuse(e) => assert_eq!(e.to_text(), "unknown link handle 1"),
        other => panic!("{:?}", other),
    }
}

#[test]
fn ports_wait_for_their_node() {
    let left: &[(&str, &str)] = &[("node.id", "5"), ("port.direction", "out"), ("port.id", "0")];
    let right: &[(&str, &str)] = &[("node.id", "5"), ("port.direction", "out"), ("port.id", "1")];
    let other: &[(&str, &str)] = &[("node.id", "9"), ("port.direction", "in")];
    let mut s = LoopState::new();
    s.on_global(global(6, ObjectKind::Port, Some(left)));
    s.on_global(global(10, ObjectKind::Port, Some(other)));
    assert!(s.graph.nodes.is_empty());
    s.on_global(global(5, ObjectKind::Node, Some(&[("node.name", "n")])));
    s.on_global(global(7, ObjectKind::Port, Some(right)));
    let ports = |s: &LoopState, id: u32| -> Vec<u32> {
        s.graph.nodes.get(id).unwrap().ports.iter().map(|p| p.id).collect()
    };
    assert_eq!(ports(&s, 5), vec![6, 7]);
    assert_eq!(s.waiting_ports.len(), 1);
    s.on_global_remove(10);
    s.on_global(global(9, ObjectKind::Node, None));
    assert_eq!(ports(&s, 9), Vec::<u32>::new());

    let mut s = LoopState::new();
    s.on_global(global(6, ObjectKind::Port, Some(left)));
    s.on_global(global(7, ObjectKind::Port, Some(right)));
    s.on_global(global(5, ObjectKind::Node, None));
    assert_eq!(ports(&s, 5), vec![6, 7]);
    s.on_global(global(5, ObjectKind::Node, None));
    assert_eq!(ports(&s, 5), vec![6, 7]);
}

#[test]
fn metadata_nests_to_any_depth() {
    let deep = format!("{}{}", "[".repeat(200_000), "]".repeat(200_000));
    let mut s = LoopState::new();
    let value = format!("{{\"name\": \"alsa\", \"more\": {deep}}}");
    s.on_metadata_property(Some("default.audio.sink"), Some(&value));
    assert_eq!(s.graph.default_sink_name, Some("alsa".to_string()));
    s.on_metadata_property(Some("default.audio.sink"), Some(&deep));
    assert_eq!(s.graph.default_sink_name, None);
}

#[test]
fn muting_is_answered() {
    let mut s = LoopState::new();
    match s.handle_command(Command::SetMute { node_id: 4, mute: true }) {
        CommandStep::Refuse(e) => assert_eq!(e.to_text(), "no known global for node 4"),
        other => panic!("{:?}", other),
    }
    s.on_global(global(4, ObjectKind::Node, None));
    assert!(matches!(
        s.handle_command(Command::SetMute { node_id: 4, mute: true }),
        CommandStep::Mute { node_id: 4, mute: true }
    ));
    assert!(answer_mute(4, MuteOutcome::Done).is_ok());
    assert_eq!(
        answer_mute(4, MuteOutcome::NotBound("x".to_string())).unwrap_err().to_text(),
        "failed to bind node 4: x"
    );
    assert_eq!(
        answer_mute(4, MuteOutcome::NotBuilt("x".to_string())).unwrap_err().to_text(),
        "failed to build mute props pod: x"
    );
    assert_eq!(
        answer_mute(4, MuteOutcome::NotParsed).unwrap_err().to_text(),
        "failed to parse built props pod"
    );
    assert!(matches!(
        s.handle_command(Command::SetDefaultSink { sink_name: Some("x".to_string()) }),
        CommandStep::WriteDefaultSink { sink_name: Some(_) }
    ));
}

#[test]
fn snapshots_are_copies() {
    let mut s = LoopState::new();
    s.on_global(global(5, ObjectKind::Node, Some(&[("node.name", "n")])));
    let copy = match s.handle_command(Command::Snapshot) {
        CommandStep::Graph(g) => g,
        other => panic!("{:?}", other),
    };
    s.on_global_remove(5);
    assert_eq!(copy.nodes.get(5).unwrap().prop_str("node.name"), Some("n"));
    assert!(s.graph.nodes.is_empty());
}

#[test]
fn a_silent_thread_is_an_error() {
    assert_eq!(recv_result(Some(Ok(3))).unwrap(), 3);
    let none: Option<Result<u32, BackendError>> = None;
    assert_eq!(recv_result(none).unwrap_err().to_text(), "pipewire thread did not respond");
    assert_eq!(not_running().to_text(), "pipewire thread is not running");
}

#[test]
fn the_first_nodes_are_waited_for() {
    let deadline = match wait_ready(ReadyEvent::Asked { now: 1, timeout: 10 }) {
        ReadyStep::Look { pause_ms: 0, deadline } => deadline,
        _ => panic!("no look"),
    };
    assert_eq!(deadline, 11);
    let empty = || Ok(GraphSnapshot::default());
    assert!(matches!(
        wait_ready(ReadyEvent::Looked { graph: empty(), now: 10, deadline }),
        ReadyStep::Look { pause_ms: 50, deadline: 11 }
    ));
    assert!(matches!(
        wait_ready(ReadyEvent::Looked { graph: Err(fault()), now: 11, deadline }),
        ReadyStep::LookLast
    ));
    assert!(matches!(
        wait_ready(ReadyEvent::Looked {
            graph: Ok(snapshot(vec![sink()], vec![], None)),
            now: 99,
            deadline,
        }),
        ReadyStep::Done(_)
    ));
    match wait_ready(ReadyEvent::LookedLast { graph: Err(fault()) }) {
        ReadyStep::Done(g) => assert!(g.nodes.is_empty()),
        _ => panic!("no end"),
    }
}

#[test]
fn native_sessions_are_named_after_their_setup() {
    let s = native(true, false);
    assert_eq!(s.session.sink_name, SINK);
    assert_eq!(s.session.mic_name, Some("audio-share-mic".to_string()));
    assert_eq!(
        s.session.mic_description,
        Some("Virtual Audio Share (Virtual Mic)".to_string())
    );
    let s = native(false, false);
    assert_eq!(s.session.mic_name, None);
    assert_eq!(s.session.mic_description, None);
}

#[test]
fn nodes_are_waited_for_by_name() {
    let deadline = match wait_for_node_ready(SINK, 2, WaitEvent::Asked { now: 5 }) {
        WaitStep::Look { pause_ms: 0, deadline } => deadline,
        _ => panic!("no look"),
    };
    assert_eq!(deadline, 3_000_000_005);
    let none = || Ok(snapshot(vec![], vec![], None));
    assert!(matches!(
        wait_for_node_ready(SINK, 2, WaitEvent::Looked { graph: none(), now: 6, deadline }),
        WaitStep::Look { pause_ms: 200, deadline: 3_000_000_005 }
    ));
    match wait_for_node_ready(SINK, 2, WaitEvent::Looked { graph: none(), now: deadline, deadline }) {
        WaitStep::Done(Err(e)) => {
            assert_eq!(e.to_text(), "timed out waiting for audio-share-99-1")
        }
        _ => panic!("no end"),
    }
    let g = || Ok(snapshot(vec![sink()], vec![], None));
    assert!(matches!(
        wait_for_node_ready(SINK, 2, WaitEvent::Looked { graph: g(), now: deadline, deadline }),
        WaitStep::Done(Ok(50))
    ));
    assert!(matches!(
        wait_for_node_ready(SINK, 3, WaitEvent::Looked { graph: g(), now: 6, deadline }),
        WaitStep::Look { .. }
    ));
    assert!(matches!(
        wait_for_node_ready(SINK, 2, WaitEvent::Looked { graph: Err(fault()), now: 6, deadline }),
        WaitStep::Done(Err(BackendError::Message(_)))
    ));
}

#[test]
fn a_native_sink_is_made() {
    let mut s = native(false, true);
    assert!(matches!(
        s.ensure_virtual_sink(EnsureEvent::Asked),
        EnsureStep::Seek { stage: SinkStage::First }
    ));
    match s.ensure_virtual_sink(EnsureEvent::Sought {
        graph: Ok(snapshot(vec![], vec![], None)),
        stage: SinkStage::First,
    }) {
        EnsureStep::CreateSink { name, description, media_class } => {
            assert_eq!(name, SINK);
            assert_eq!(description, "Virtual Audio Share");
            assert_eq!(media_class, "Audio/Sink");
        }
        _ => panic!("no sink"),
    }
    assert!(matches!(
        s.ensure_virtual_sink(EnsureEvent::SinkCreated { created: Ok(3) }),
        EnsureStep::EnsureMic { info: None }
    ));
    assert_eq!(s.session.sink_handle, Some(3));
    assert!(matches!(
        s.ensure_virtual_sink(EnsureEvent::MicEnsured { ensured: Ok(()), info: None }),
        EnsureStep::WaitSink { min_inputs: 2, .. }
    ));
    assert!(matches!(
        s.ensure_virtual_sink(EnsureEvent::SinkReady { ready: Ok(50) }),
        EnsureStep::SetDefault
    ));
    assert!(matches!(
        s.ensure_virtual_sink(EnsureEvent::DefaultSet { set: Ok(()) }),
        EnsureStep::Seek { stage: SinkStage::Last }
    ));
    assert!(matches!(
        s.ensure_virtual_sink(EnsureEvent::Sought {
            graph: Ok(snapshot(vec![sink()], vec![], None)),
            stage: SinkStage::Last,
        }),
        EnsureStep::Inspect { sink_id: 50, stage: SinkStage::Last }
    ));
    match s.ensure_virtual_sink(EnsureEvent::Inspected {
        graph: Ok(snapshot(vec![sink()], vec![], None)),
        sink_id: 50,
        stage: SinkStage::Last,
    }) {
        EnsureStep::Done(Ok(i)) => assert_eq!(i, info()),
        _ => panic!("no end"),
    }
    match s.ensure_virtual_sink(EnsureEvent::Inspected {
        graph: Ok(snapshot(vec![], vec![], None)),
        sink_id: 50,
        stage: SinkStage::Last,
    }) {
        EnsureStep::Done(Err(e)) => {
            assert_eq!(e.to_text(), "virtual sink not found after creation")
        }
        _ => panic!("no end"),
    }
}

#[test]
fn a_native_sink_that_is_there_is_kept() {
    let mut s = native(false, false);
    let found = match s.ensure_virtual_sink(EnsureEvent::Inspected {
        graph: Ok(snapshot(vec![sink()], vec![], None)),
        sink_id: 50,
        stage: SinkStage::First,
    }) {
        EnsureStep::EnsureMic { info: Some(i) } => i,
        _ => panic!("no sink"),
    };
    assert!(matches!(
        s.ensure_virtual_sink(EnsureEvent::MicEnsured { ensured: Ok(()), info: Some(found) }),
        EnsureStep::Done(Ok(_))
    ));
    match s.ensure_virtual_sink(EnsureEvent::Sought {
        graph: Ok(snapshot(vec![], vec![], None)),
        stage: SinkStage::First,
    }) {
        EnsureStep::CreateSink { media_class, .. } => assert_eq!(media_class, "Audio/Sink/Virtual"),
        _ => panic!("no sink"),
    }
    assert!(matches!(
        s.ensure_virtual_sink(EnsureEvent::SinkReady { ready: Ok(50) }),
        EnsureStep::Seek { stage: SinkStage::Last }
    ));
    assert!(matches!(
        s.ensure_virtual_sink(EnsureEvent::SinkCreated { created: Err(fault()) }),
        EnsureStep::Done(Err(_))
    ));
}

#[test]
fn a_native_microphone_is_made_once_and_linked() {
    let mut s = native(true, false);
    match s.ensure_virtual_mic(MicEvent::Asked) {
        MicStep::CreateMic { name, description, media_class } => {
            assert_eq!(name, "audio-share-mic");
            assert_eq!(description, "Virtual Audio Share (Virtual Mic)");
            assert_eq!(media_class, "Audio/Source/Virtual");
        }
        _ => panic!("no microphone"),
    }
    assert!(matches!(
        s.ensure_virtual_mic(MicEvent::MicCreated { created: Ok(4) }),
        MicStep::LinkMonitor
    ));
    assert!(matches!(s.ensure_virtual_mic(MicEvent::Asked), MicStep::Done(Ok(()))));
    assert!(matches!(
        s.link_monitor_to_mic(MonitorEvent::Asked),
        MonitorStep::WaitMic { min_inputs: 2, .. }
    ));
    assert!(matches!(
        s.link_monitor_to_mic(MonitorEvent::MicReady { ready: Ok(80) }),
        MonitorStep::WaitSink { mic_id: 80, min_inputs: 2, .. }
    ));
    let deadline = match s.link_monitor_to_mic(MonitorEvent::SinkReady {
        mic_id: 80,
        ready: Ok(50),
        now: 1,
    }) {
        MonitorStep::Look { sink_id: 50, mic_id: 80, pause_ms: 0, deadline } => deadline,
        _ => panic!("no look"),
    };
    let look = |now: u64, nodes: Vec<NodeRecord>| MonitorEvent::Looked {
        graph: Ok(snapshot(nodes, vec![], None)),
        sink_id: 50,
        mic_id: 80,
        now,
        deadline,
    };
    assert!(matches!(
        s.link_monitor_to_mic(look(2, vec![sink()])),
        MonitorStep::Look { pause_ms: 200, .. }
    ));
    match s.link_monitor_to_mic(look(deadline, vec![sink()])) {
        MonitorStep::Done(Err(e)) => {
            assert_eq!(e.to_text(), "timed out linking sink monitor to virtual mic")
        }
        _ => panic!("no end"),
    }
    let mic = node(80, &[("node.name", "audio-share-mic")], stereo_in(80));
    match s.link_monitor_to_mic(look(2, vec![sink(), mic])) {
        MonitorStep::Link { link: first, rest } => {
            assert_eq!(first, link(50, 53, 80, 81));
            assert_eq!(rest, vec![link(50, 54, 80, 82)]);
            match s.link_monitor_to_mic(MonitorEvent::Linked { created: Ok(7), rest }) {
                MonitorStep::Link { link: second, rest } => {
                    assert_eq!(second, link(50, 54, 80, 82));
                    assert!(rest.is_empty());
                }
                _ => panic!("no second link"),
            }
        }
        _ => panic!("no links"),
    }
    assert!(matches!(
        s.link_monitor_to_mic(MonitorEvent::Linked {
            created: Err(fault()),
            rest: vec![link(50, 54, 80, 82)],
        }),
        MonitorStep::Done(Err(_))
    ));
    assert_eq!(s.session.mic_link_handles, vec![7]);
    assert!(matches!(
        s.link_monitor_to_mic(MonitorEvent::Linked { created: Ok(8), rest: vec![] }),
        MonitorStep::Done(Ok(()))
    ));
    assert_eq!(s.session.mic_link_handles, vec![7, 8]);
    assert!(matches!(
        native(false, false).link_monitor_to_mic(MonitorEvent::Asked),
        MonitorStep::Done(Ok(()))
    ));
}

#[test]
fn native_nodes_are_routed_with_a_filter() {
    let mut s = native(false, false);
    let filter = RouteFilter::default();
    assert!(matches!(
        s.route_nodes(NativeRouteEvent::Asked { node_ids: vec![60], filter }),
        NativeRouteStep::EnsureSink { .. }
    ));
    assert!(matches!(
        s.route_nodes(NativeRouteEvent::SinkEnsured {
            node_ids: vec![60],
            filter,
            ensured: Ok(info()),
        }),
        NativeRouteStep::Seek { .. }
    ));
    assert!(matches!(
        s.route_nodes(NativeRouteEvent::Sought {
            node_ids: vec![60],
            filter,
            info: info(),
            graph: Ok(snapshot(vec![sink()], vec![], None)),
        }),
        NativeRouteStep::Look { sink_id: 50, .. }
    ));
    match s.route_nodes(NativeRouteEvent::Sought {
        node_ids: vec![60],
        filter,
        info: info(),
        graph: Ok(snapshot(vec![], vec![], None)),
    }) {
        NativeRouteStep::Done(Err(e)) => {
            assert_eq!(e.to_text(), "virtual sink missing after ensure")
        }
        _ => panic!("no error"),
    }
    let looked = |ids: Vec<u32>, nodes: Vec<NodeRecord>| NativeRouteEvent::Looked {
        node_ids: ids,
        filter,
        info: info(),
        sink_id: 50,
        graph: Ok(snapshot(nodes, vec![], None)),
    };
    match s.route_nodes(looked(vec![70, 60, 50, 70, 5], vec![sink(), app(60), app(70)])) {
        NativeRouteStep::Link { links, .. } => assert_eq!(
            links,
            vec![
                link(70, 73, 50, 51),
                link(70, 74, 50, 52),
                link(60, 63, 50, 51),
                link(60, 64, 50, 52),
            ]
        ),
        _ => panic!("no links"),
    }
    match s.route_nodes(looked(vec![60], vec![])) {
        NativeRouteStep::Done(Err(e)) => {
            assert_eq!(e.to_text(), "virtual sink has no usable stereo input ports")
        }
        _ => panic!("no error"),
    }
    match s.route_nodes(looked(vec![50], vec![sink()])) {
        NativeRouteStep::Done(Err(e)) => {
            assert_eq!(e.to_text(), "none of the selected nodes could be linked")
        }
        _ => panic!("no error"),
    }
}

#[test]
fn native_routes_are_replaced_and_the_microphone_stays() {
    let mut s = native(true, false);
    s.session.route_link_handles = vec![1, 2];
    s.session.mic_link_handles = vec![3];
    match s.route_nodes(NativeRouteEvent::Linked {
        info: info(),
        outcomes: vec![Ok(7), Err(fault()), Ok(8)],
    }) {
        NativeRouteStep::Unlink { handles, .. } => assert_eq!(handles, vec![1, 2]),
        _ => panic!("no removal"),
    }
    assert_eq!(s.session.route_link_handles, vec![7, 8]);
    assert_eq!(s.session.mic_link_handles, vec![3]);
    assert!(matches!(
        s.route_nodes(NativeRouteEvent::Unlinked { info: info() }),
        NativeRouteStep::Done(Ok(_))
    ));
    assert!(matches!(
        s.route_nodes(NativeRouteEvent::Linked { info: info(), outcomes: vec![Err(fault())] }),
        NativeRouteStep::Done(Err(_))
    ));
    assert_eq!(s.session.route_link_handles, vec![7, 8]);
    match s.clear_routes(NativeClearEvent::Asked) {
        NativeClearStep::Unlink { handles } => assert_eq!(handles, vec![7, 8]),
        _ => panic!("no removal"),
    }
    assert!(s.session.route_link_handles.is_empty());
    assert_eq!(s.session.mic_link_handles, vec![3]);
    match s.clear_routes(NativeClearEvent::Unlinked { outcomes: vec![Err(fault()), Ok(())] }) {
        NativeClearStep::Done(Err(e)) => assert_eq!(e.to_text(), "failed to remove 1 route(s)"),
        _ => panic!("no error"),
    }
    assert!(matches!(
        s.clear_routes(NativeClearEvent::Unlinked { outcomes: vec![Ok(())] }),
        NativeClearStep::Done(Ok(()))
    ));
}

#[test]
fn filters_look_at_where_a_node_plays() {
    let speaker = node(30, &[("device.id", "4"), ("node.name", "alsa")], vec![]);
    let other = node(31, &[("node.name", "file")], vec![]);
    let g = snapshot(
        vec![
            app(60),
            app(70),
            app(80),
            speaker,
            other,
            node(90, &[("node.virtual", "true"), ("media.class", "Stream/Input/Audio/X")], vec![]),
        ],
        vec![link(60, 1, 30, 2), link(70, 1, 31, 2)],
        Some("file"),
    );
    let get = |id: u32| g.nodes.get(id).unwrap();
    let default_id = resolve_default_sink_id(&g);
    assert_eq!(default_id, Some(31));
    let mut f = RouteFilter::default();
    assert!(should_link(&g, get(80), &f, None));
    f.only_speakers = true;
    assert!(should_link(&g, get(60), &f, None));
    assert!(!should_link(&g, get(70), &f, None));
    assert!(!should_link(&g, get(80), &f, None));
    let mut f = RouteFilter::default();
    f.only_default_speakers = true;
    assert!(should_link(&g, get(70), &f, default_id));
    assert!(!should_link(&g, get(60), &f, default_id));
    assert!(!should_link(&g, get(70), &f, None));
    let mut f = RouteFilter::default();
    f.ignore_devices = true;
    assert!(!should_link(&g, get(30), &f, None));
    let mut f = RouteFilter::default();
    f.ignore_virtual = true;
    assert!(!should_link(&g, get(90), &f, None));
    let mut f = RouteFilter::default();
    f.ignore_input_media = true;
    assert!(!should_link(&g, get(90), &f, None));
    assert!(should_link(&g, get(60), &f, None));
    assert_eq!(find_node_id_by_name(&g, "alsa"), Some(30));
    assert_eq!(resolve_default_sink_id(&GraphSnapshot::default()), None);
}

#[test]
fn the_default_is_restored() {
    let mut s = native(false, true);
    assert!(matches!(
        s.restore_default_sink(RestoreEvent::Asked),
        DefaultStep::Done(Ok(()))
    ));
    assert!(matches!(s.set_default_sink_to_virtual(DefaultEvent::Asked), DefaultStep::Look));
    match s.set_default_sink_to_virtual(DefaultEvent::Looked {
        graph: Ok(snapshot(vec![], vec![], Some("alsa"))),
    }) {
        DefaultStep::Write { sink_name } => assert_eq!(sink_name, SINK),
        _ => panic!("no write"),
    }
    s.set_default_sink_to_virtual(DefaultEvent::Looked {
        graph: Ok(snapshot(vec![], vec![], Some(SINK))),
    });
    match s.restore_default_sink(RestoreEvent::Asked) {
        DefaultStep::Write { sink_name } => assert_eq!(sink_name, "alsa"),
        _ => panic!("no write"),
    }
    assert_eq!(s.session.prior_default_sink, None);
    assert!(matches!(
        s.restore_default_sink(RestoreEvent::Written { written: Err(fault()) }),
        DefaultStep::Done(Err(_))
    ));
    assert!(matches!(
        s.set_default_sink_to_virtual(DefaultEvent::Looked { graph: Err(fault()) }),
        DefaultStep::Done(Err(_))
    ));
}

#[test]
fn the_microphone_is_muted_by_its_node() {
    let s = native(true, false);
    assert!(matches!(s.set_virtual_mic_mute(true, MicMuteEvent::Asked), MicMuteStep::Seek));
    let g = || Ok(snapshot(vec![node(80, &[("node.name", "audio-share-mic")], vec![])], vec![], None));
    assert!(matches!(
        s.set_virtual_mic_mute(true, MicMuteEvent::Sought { graph: g() }),
        MicMuteStep::Mute { node_id: 80, mute: true }
    ));
    match s.set_virtual_mic_mute(
        true,
        MicMuteEvent::Sought { graph: Ok(snapshot(vec![], vec![], None)) },
    ) {
        MicMuteStep::Done(Err(e)) => assert_eq!(e.to_text(), "virtual mic is not active"),
        _ => panic!("no error"),
    }
    assert!(matches!(
        s.set_virtual_mic_mute(false, MicMuteEvent::Muted { muted: Ok(()) }),
        MicMuteStep::Done(Ok(()))
    ));
    assert!(matches!(
        native(false, false).set_virtual_mic_mute(true, MicMuteEvent::Asked),
        MicMuteStep::Done(Err(_))
    ));
}

#[test]
fn a_native_session_is_taken_down_part_by_part() {
    let mut s = native(true, false);
    s.session.mic_link_handles = vec![3, 4];
    s.session.mic_handle = Some(2);
    s.session.sink_handle = Some(1);
    assert!(matches!(s.dispose(NativeDisposeEvent::Asked), NativeDisposeStep::RestoreDefault));
    let errors = match s.dispose(NativeDisposeEvent::Restored { restored: Err(fault()) }) {
        NativeDisposeStep::ClearRoutes { errors } => errors,
        _ => panic!("no clearing"),
    };
    let errors = match s.dispose(NativeDisposeEvent::Cleared { cleared: Ok(()), errors }) {
        NativeDisposeStep::UnlinkMic { handles, errors } => {
            assert_eq!(handles, vec![3, 4]);
            errors
        }
        _ => panic!("no links"),
    };
    let errors = match s.dispose(NativeDisposeEvent::MicUnlinked {
        outcomes: vec![Ok(()), Err(BackendError::message("stuck"))],
        errors,
    }) {
        NativeDisposeStep::DestroyMic { handle, errors } => {
            assert_eq!(handle, 2);
            errors
        }
        _ => panic!("no microphone"),
    };
    let errors = match s.dispose(NativeDisposeEvent::MicDestroyed { destroyed: Ok(()), errors }) {
        NativeDisposeStep::DestroySink { handle, errors } => {
            assert_eq!(handle, 1);
            errors
        }
        _ => panic!("no sink"),
    };
    match s.dispose(NativeDisposeEvent::SinkDestroyed { destroyed: Err(fault()), errors }) {
        NativeDisposeStep::Done(Err(e)) => assert_eq!(e.to_text(), "no; stuck; no"),
        _ => panic!("no end"),
    }
    assert_eq!((s.session.mic_handle, s.session.sink_handle), (None, None));
    assert!(s.session.mic_link_handles.is_empty());
    assert!(matches!(
        s.dispose(NativeDisposeEvent::MicUnlinked { outcomes: vec![], errors: vec![] }),
        NativeDisposeStep::Done(Ok(()))
    ));
}

#[test]
fn native_nodes_are_listed_without_our_own() {
    let s = native(false, false);
    let own = node(50, &[("node.name", SINK), ("application.name", "x")], stereo_out(50));
    let list = s
        .list_shareable_nodes(true, Ok(snapshot(vec![own, app(60)], vec![], None)))
        .unwrap();
    assert_eq!(list.iter().map(|n| n.id).collect::<Vec<_>>(), vec![60]);
    assert!(s.list_shareable_nodes(true, Err(fault())).is_err());
    let kwin = node(3, &[("node.name", "kwin-screencast-a.b")], vec![]);
    let hint = s.find_screencast_hint(Ok(snapshot(vec![kwin], vec![], None))).unwrap().unwrap();
    assert_eq!((hint.desktop_file_id.as_str(), hint.hint.as_str()), ("a.b", "b"));
}

fn capture(id: u32) -> NodeRecord {
    node(
        id,
        &[
            ("node.name", "discord_capture"),
            ("media.name", "game capture"),
            ("application.process.binary", "Discord"),
        ],
        stereo_in(id),
    )
}

#[test]
fn chosen_nodes_are_linked_into_all_captures() {
    let mut d = DiscordCapture::new();
    assert!(matches!(d.follow(CaptureEvent::GraphChanged), CaptureStep::Done(Ok(()))));
    let choice = |ids: Vec<u32>| CaptureChoice { node_ids: ids, filter: RouteFilter::default() };
    match d.follow(CaptureEvent::Chosen { choice: choice(vec![60, 60]) }) {
        CaptureStep::CreateNullSink { name, media_class, .. } => {
            assert_eq!(name, "discord_capture_null");
            assert_eq!(media_class, "Audio/Sink/Virtual");
        }
        _ => panic!("no silent sink"),
    }
    assert!(matches!(
        d.follow(CaptureEvent::NullSinkCreated { created: Ok(1) }),
        CaptureStep::Look
    ));
    let g = || Ok(snapshot(vec![app(60), app(70), capture(100), capture(110)], vec![], None));
    let create = match d.follow(CaptureEvent::Looked { graph: g() }) {
        CaptureStep::Apply { destroy, create } => {
            assert!(destroy.is_empty());
            create
        }
        _ => panic!("no links"),
    };
    assert_eq!(
        create,
        vec![
            link(60, 63, 100, 101),
            link(60, 64, 100, 102),
            link(60, 63, 110, 111),
            link(60, 64, 110, 112),
        ]
    );
    d.follow(CaptureEvent::Linked {
        links: create,
        outcomes: vec![Ok(11), Err(fault()), Ok(12), Ok(13)],
    });
    match d.follow(CaptureEvent::Looked { graph: g() }) {
        CaptureStep::Apply { destroy, create } => {
            assert!(destroy.is_empty());
            assert_eq!(create, vec![link(60, 64, 100, 102)]);
            d.follow(CaptureEvent::Linked { links: create, outcomes: vec![Ok(14)] });
        }
        _ => panic!("no links"),
    }
    match d.follow(CaptureEvent::Looked { graph: g() }) {
        CaptureStep::Apply { destroy, create } => assert!(destroy.is_empty() && create.is_empty()),
        _ => panic!("no links"),
    }
    assert!(matches!(
        d.follow(CaptureEvent::Chosen { choice: choice(vec![]) }),
        CaptureStep::Look
    ));
    match d.follow(CaptureEvent::Looked { graph: g() }) {
        CaptureStep::Apply { destroy, create } => {
            assert_eq!(destroy, vec![11, 12, 13, 14]);
            assert!(create.is_empty());
        }
        _ => panic!("no links"),
    }
    assert!(is_capture_node(&capture(1)) && !is_capture_node(&app(1)));
}

#[test]
fn captures_that_lose_a_link_get_it_again() {
    let mut d = DiscordCapture::new();
    d.follow(CaptureEvent::Chosen {
        choice: CaptureChoice { node_ids: vec![60], filter: RouteFilter::default() },
    });
    d.follow(CaptureEvent::NullSinkCreated { created: Ok(1) });
    let links = || vec![link(60, 63, 100, 101), link(60, 64, 100, 102)];
    let mut look = |shown: Vec<LinkRecord>, d: &mut DiscordCapture| {
        let g = snapshot(vec![app(60), capture(100)], shown, None);
        match d.follow(CaptureEvent::Looked { graph: Ok(g) }) {
            CaptureStep::Apply { destroy, create } => (destroy, create),
            _ => panic!("no links"),
        }
    };
    assert_eq!(look(vec![], &mut d), (vec![], links()));
    d.follow(CaptureEvent::Linked { links: links(), outcomes: vec![Ok(11), Ok(12)] });
    assert_eq!(look(vec![], &mut d), (vec![], vec![]));
    assert_eq!(look(links(), &mut d), (vec![], vec![]));
    assert!(d.held.iter().all(|h| h.shown));
    assert_eq!(
        look(vec![link(60, 63, 100, 101)], &mut d),
        (vec![12], vec![link(60, 64, 100, 102)])
    );
    d.follow(CaptureEvent::Linked {
        links: vec![link(60, 64, 100, 102)],
        outcomes: vec![Ok(13)],
    });
    assert_eq!(look(vec![link(60, 63, 100, 101)], &mut d), (vec![], vec![]));
}

#[test]
fn the_patchbay_picks_its_backend() {
    let mut c = PatchbayConfig::default();
    c.virtual_mic = true;
    c.sink_becomes_default = true;
    let mut p = AudioSharePatchbay::new(&c, true, 99, &mut SessionCounter::new());
    match &p.state {
        BackendState::Native { state, .. } => {
            assert!(!state.config.virtual_mic);
            assert_eq!(state.session.mic_name, None);
        }
        _ => panic!("wrong backend"),
    }
    assert!(matches!(p.list_shareable_nodes(true), ListRun::Native));
    assert!(matches!(p.find_screencast_hint(), HintRun::Native));
    assert!(matches!(p.ensure_virtual_sink(), SinkRun::Native(EnsureStep::Seek { .. })));
    assert!(matches!(
        p.route_nodes(vec![], RouteFilter::default()),
        RouteRun::Native(NativeRouteStep::ClearRoutes)
    ));
    assert!(matches!(p.clear_routes(), ClearRun::Native(_)));
    assert!(matches!(p.dispose(), DisposeRun::Native(_)));
    assert!(matches!(p.sync_discord_capture_links(), CaptureStep::Done(Ok(()))));
    assert!(matches!(
        p.set_discord_capture_targets(vec![1], RouteFilter::default()),
        CaptureStep::CreateNullSink { .. }
    ));
}

#[test]
fn the_legacy_backend_refuses_what_it_cannot_do() {
    let mut p =
        AudioSharePatchbay::new(&PatchbayConfig::default(), false, 99, &mut SessionCounter::new());
    let text = |r: Result<(), BackendError>| r.unwrap_err().to_text();
    match p.set_virtual_mic_mute(true, MicMuteEvent::Asked) {
        MicMuteStep::Done(r) => {
            assert_eq!(text(r), "setVirtualMicMute is not supported by the legacy backend")
        }
        _ => panic!("no refusal"),
    }
    match p.set_default_sink_to_virtual(DefaultEvent::Asked) {
        DefaultStep::Done(r) => {
            assert_eq!(text(r), "setDefaultSinkToVirtual is not supported by the legacy backend")
        }
        _ => panic!("no refusal"),
    }
    match p.set_discord_capture_targets(vec![1], RouteFilter::default()) {
        CaptureStep::Done(r) => {
            assert_eq!(text(r), "setDiscordCaptureTargets is not supported by the legacy backend")
        }
        _ => panic!("no refusal"),
    }
    assert!(matches!(
        p.restore_default_sink(RestoreEvent::Asked),
        DefaultStep::Done(Ok(()))
    ));
    assert!(matches!(p.sync_discord_capture_links(), CaptureStep::Done(Ok(()))));
    assert!(matches!(p.ensure_virtual_sink(), SinkRun::Legacy(_)));
    assert!(matches!(p.dispose(), DisposeRun::Legacy(_)));
    assert!(matches!(p.clear_routes(), ClearRun::Legacy(_)));
    assert!(matches!(p.list_shareable_nodes(true), ListRun::Legacy(_)));
}

#[test]
fn the_trial_run_looks_at_the_graph() {
    let player = node(
        60,
        &[("media.class", "Stream/Output/Audio"), ("application.name", "")],
        stereo_out(60),
    );
    let g = snapshot(vec![player, sink(), app(70)], vec![link(60, 63, 50, 51)], None);
    assert_eq!(count_with_outputs(&g.nodes), 3);
    let apps: Vec<u32> = app_like_nodes(&g.nodes).iter().map(|n| n.id).collect();
    assert_eq!(apps, vec![60]);
    assert_eq!(plan_trial_link(&g, 50), Some(link(60, 63, 50, 51)));
    assert_eq!(plan_trial_link(&g, 51), None);
    assert!(is_linked(&g, 60, 50) && !is_linked(&g, 70, 50));
    assert!(is_telling("pw-backend-spike-sink-1") && is_telling("patchcord") && !is_telling("alsa"));
}

#[test]
fn a_change_is_waited_for() {
    let deadline = match await_change(ChangeEvent::Asked { now: 5 }) {
        ChangeStep::Listen { listen_ms, deadline } => {
            assert_eq!(listen_ms, 100);
            deadline
        }
        other => panic!("{:?}", other),
    };
    assert_eq!(deadline, 2_000_000_005);
    let hear = |heard: Option<BackendEvent>, now: u64| {
        await_change(ChangeEvent::Listened { heard, now, deadline })
    };
    let again = ChangeStep::Listen { listen_ms: 100, deadline };
    assert_eq!(hear(None, 6), again);
    assert_eq!(hear(Some(BackendEvent::DefaultSinkChanged(None)), 6), again);
    assert_eq!(hear(Some(BackendEvent::GraphChanged), 6), ChangeStep::Done(true));
    assert_eq!(hear(Some(BackendEvent::GraphChanged), deadline), ChangeStep::Done(true));
    assert_eq!(hear(None, deadline), ChangeStep::Done(false));
}
