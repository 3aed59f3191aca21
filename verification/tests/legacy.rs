use patchcord::config::{PatchbayConfig, SessionCounter};
use patchcord::error::BackendError;
use patchcord::json::{PropMap, PropValue};
use patchcord::models::{NodeRecord, PortDirection, PortRecord, Route, VirtualSinkInfo};
use patchcord::routes::RouteSet;
use patchcord::snapshot::PipeWireSnapshot;
use patchcord::state::{
    clean_orphaned_modules, module_list_command, orphan_prefixes, quote_module_value, ClearEvent, ClearStep,
    DisposeEvent, DisposeStep, ListEvent, ListStep, PatchbayState, RouteEvent, RouteStep,
    SinkEvent, SinkStep,
};
use patchcord::table::IdTable;

fn port(id: u32, direction: PortDirection, channel: &str) -> PortRecord {
    PortRecord {
        id,
        direction,
        channel: Some(channel.to_string()),
        port_index: None,
        path: Some(id.to_string()),
        port_name: None,
        object_path: None,
    }
}

fn node(id: u32, list: &[(&str, &str)], ports: Vec<PortRecord>) -> NodeRecord {
    let mut props = PropMap::new();
    for (k, v) in list {
        props.insert(k.to_string(), PropValue::Text(v.to_string()));
    }
    NodeRecord { id, props, ports }
}

fn graph(nodes: Vec<NodeRecord>) -> PipeWireSnapshot {
    let mut t = IdTable::new();
    for n in nodes {
        t.insert(n.id, n);
    }
    PipeWireSnapshot { nodes: t }
}

fn sink(name: &str) -> NodeRecord {
    node(
        50,
        &[("node.name", name)],
        vec![
            port(51, PortDirection::Input, "FL"),
            port(52, PortDirection::Input, "FR"),
        ],
    )
}

fn app(id: u32) -> NodeRecord {
    node(
        id,
        &[("application.name", "A")],
        vec![
            port(id + 1, PortDirection::Output, "FL"),
            port(id + 2, PortDirection::Output, "FR"),
        ],
    )
}

fn state(mic: bool) -> PatchbayState {
    let mut c = PatchbayConfig::default();
    c.virtual_mic = mic;
    PatchbayState::new(&c, 99, &mut SessionCounter::new())
}

fn info() -> VirtualSinkInfo {
    VirtualSinkInfo {
        sink_name: "audio-share-99-1".to_string(),
        monitor_source: "audio-share-99-1.monitor".to_string(),
        node_id: 50,
        virtual_mic_name: None,
        virtual_mic_description: None,
    }
}

fn routes(list: &[(&str, &str)]) -> RouteSet {
    let mut r = RouteSet::new();
    for (o, i) in list {
        r.insert(Route { output_path: o.to_string(), input_path: i.to_string() });
    }
    r
}

fn paths(r: &RouteSet) -> Vec<(String, String)> {
    (0..r.len()).map(|i| (r.at(i).output_path.clone(), r.at(i).input_path.clone())).collect()
}

fn pair(o: &str, i: &str) -> (String, String) {
    (o.to_string(), i.to_string())
}

fn fault() -> BackendError {
    BackendError::message("no")
}

#[test]
fn a_fresh_session_is_named_after_its_setup() {
    let s = state(true);
    assert_eq!(s.sink_name, "audio-share-99-1");
    assert_eq!(s.virtual_mic_name, Some("audio-share-mic-99-1".to_string()));
    assert_eq!(s.virtual_mic_description, Some("Virtual Audio Share (Virtual Mic)".to_string()));
    let mut c = PatchbayConfig::default();
    c.virtual_mic_description = Some("D".to_string());
    let mut numbers = SessionCounter::new();
    let s = PatchbayState::new(&c, 1, &mut numbers);
    assert_eq!(s.sink_name, "audio-share-1-1");
    assert_eq!(s.virtual_mic_name, None);
    assert_eq!(s.virtual_mic_description, Some("D".to_string()));
    c.virtual_mic_name = Some("m".to_string());
    let s = PatchbayState::new(&c, 1, &mut numbers);
    assert_eq!(s.sink_name, "audio-share-1-2");
    assert_eq!(s.virtual_mic_name, Some("m-1-2".to_string()));
    assert!(s.routes.is_empty() && s.module_id.is_none() && s.remap_module_id.is_none());
}

#[test]
fn module_values_are_quoted() {
    assert_eq!(quote_module_value("plain"), "\"plain\"");
    assert_eq!(quote_module_value("a\"b\\c"), "\"a\\\"b\\\\c\"");
    assert_eq!(quote_module_value(""), "\"\"");
}

#[test]
fn orphans_are_unloaded_by_their_ids() {
    let listing = "12\tmodule-null-sink\tsink_name=audio-share-1-1\n13\tmodule-x\n  14 audio-share\n";
    let commands = clean_orphaned_modules("audio-share", Ok(listing.to_string()));
    let ids: Vec<String> = commands.iter().map(|c| c.args[1].clone()).collect();
    assert_eq!(ids, vec!["12".to_string(), "14".to_string()]);
    assert_eq!(commands[0].program, "pactl");
    assert_eq!(commands[0].args[0], "unload-module");
    assert!(clean_orphaned_modules("audio-share", Err(fault())).is_empty());
    assert_eq!(module_list_command().args.join(" "), "list short modules");
}

#[test]
fn modules_of_earlier_sessions_are_known_by_two_words() {
    let mut c = PatchbayConfig::default();
    assert_eq!(orphan_prefixes(&c), vec!["audio-share".to_string(), "audio-share-mic".to_string()]);
    c.virtual_mic_name = Some("m".to_string());
    assert_eq!(orphan_prefixes(&c), vec!["audio-share".to_string(), "m".to_string()]);
}

#[test]
fn a_sink_is_made_and_waited_for() {
    let mut s = state(false);
    assert!(matches!(s.ensure_virtual_sink(SinkEvent::Asked), SinkStep::CheckPipewire));
    assert!(matches!(
        s.ensure_virtual_sink(SinkEvent::PipewireChecked(false)),
        SinkStep::Done(Err(BackendError::Unsupported))
    ));
    assert!(matches!(s.ensure_virtual_sink(SinkEvent::PipewireChecked(true)), SinkStep::Look));
    match s.ensure_virtual_sink(SinkEvent::Looked(Ok(graph(vec![])))) {
        SinkStep::LoadSink(c) => {
            assert_eq!(c.program, "pactl");
            assert_eq!(
                c.args,
                vec![
                    "load-module".to_string(),
                    "module-null-sink".to_string(),
                    "sink_name=audio-share-99-1".to_string(),
                    "channels=2".to_string(),
                    "channel_map=front-left,front-right".to_string(),
                    "sink_properties=device.description=\"Virtual Audio Share\" node.description=\"Virtual Audio Share\" node.name=\"audio-share-99-1\"".to_string(),
                ]
            );
        }
        _ => panic!("no command"),
    }
    let deadline = match s.ensure_virtual_sink(SinkEvent::SinkLoaded {
        answer: Ok("  536870916\n".to_string()),
        now: 7,
    }) {
        SinkStep::Poll { pause_ms, deadline } => {
            assert_eq!(pause_ms, 0);
            deadline
        }
        _ => panic!("no poll"),
    };
    assert_eq!(deadline, 3_000_000_007);
    assert_eq!(s.module_id, Some(536870916));
    assert!(matches!(
        s.ensure_virtual_sink(SinkEvent::Polled { graph: Err(fault()), now: 8, deadline }),
        SinkStep::Poll { pause_ms: 200, deadline: 3_000_000_007 }
    ));
    assert!(matches!(
        s.ensure_virtual_sink(SinkEvent::Polled {
            graph: Ok(graph(vec![])),
            now: 3_000_000_007,
            deadline,
        }),
        SinkStep::Done(Err(BackendError::Timeout(_)))
    ));
    match s.ensure_virtual_sink(SinkEvent::Polled {
        graph: Ok(graph(vec![sink("audio-share-99-1")])),
        now: 3_000_000_007,
        deadline,
    }) {
        SinkStep::Done(Ok(i)) => assert_eq!(i, info()),
        _ => panic!("no sink"),
    }
}

#[test]
fn a_sink_with_one_input_is_not_ready() {
    let mut half = sink("audio-share-99-1");
    half.ports.pop();
    let mut s = state(false);
    assert!(matches!(
        s.ensure_virtual_sink(SinkEvent::Looked(Ok(graph(vec![half])))),
        SinkStep::LoadSink(_)
    ));
}

#[test]
fn answers_that_are_no_module_ids_are_refused() {
    let mut s = state(false);
    match s.ensure_virtual_sink(SinkEvent::SinkLoaded { answer: Ok("x".to_string()), now: 0 }) {
        SinkStep::Done(Err(e)) => assert_eq!(
            e.to_text(),
            "invalid output from pactl: failed to parse module id: invalid digit found in string"
        ),
        _ => panic!("no error"),
    }
    assert_eq!(s.module_id, None);
    match s.ensure_virtual_sink(SinkEvent::MicLoaded { answer: Ok("".to_string()), info: info() }) {
        SinkStep::Done(Err(e)) => assert_eq!(
            e.to_text(),
            "invalid output from pactl: failed to parse remap module id: cannot parse integer from empty string"
        ),
        _ => panic!("no error"),
    }
    assert!(matches!(
        s.ensure_virtual_sink(SinkEvent::SinkLoaded { answer: Err(fault()), now: 0 }),
        SinkStep::Done(Err(BackendError::Message(_)))
    ));
}

#[test]
fn a_microphone_is_made_once() {
    let mut s = state(true);
    let g = || Ok(graph(vec![sink("audio-share-99-1")]));
    let made = match s.ensure_virtual_sink(SinkEvent::Looked(g())) {
        SinkStep::LoadMic { command, info } => {
            assert_eq!(
                command.args,
                vec![
                    "load-module".to_string(),
                    "module-remap-source".to_string(),
                    "master=audio-share-99-1.monitor".to_string(),
                    "source_name=audio-share-mic-99-1".to_string(),
                    "source_properties=device.description=\"Virtual Audio Share (Virtual Mic)\" node.description=\"Virtual Audio Share (Virtual Mic)\" node.name=\"audio-share-mic-99-1\"".to_string(),
                ]
            );
            info
        }
        _ => panic!("no microphone"),
    };
    assert!(matches!(
        s.ensure_virtual_sink(SinkEvent::MicLoaded { answer: Ok("8\n".to_string()), info: made }),
        SinkStep::Done(Ok(_))
    ));
    assert_eq!(s.remap_module_id, Some(8));
    assert!(matches!(
        s.ensure_virtual_sink(SinkEvent::Looked(g())),
        SinkStep::Done(Ok(_))
    ));
}

#[test]
fn a_named_microphone_without_description_is_described() {
    let mut c = PatchbayConfig::default();
    c.virtual_mic_name = Some("m".to_string());
    let mut s = PatchbayState::new(&c, 99, &mut SessionCounter::new());
    match s.ensure_virtual_sink(SinkEvent::Looked(Ok(graph(vec![sink("audio-share-99-1")])))) {
        SinkStep::LoadMic { command, .. } => {
            assert!(command.args[4].contains("\"Virtual Microphone\""))
        }
        _ => panic!("no microphone"),
    }
}

#[test]
fn nodes_are_routed_into_the_sink() {
    let mut s = state(false);
    assert!(matches!(
        s.route_nodes(RouteEvent::Asked { node_ids: vec![60] }),
        RouteStep::EnsureSink { .. }
    ));
    assert!(matches!(
        s.route_nodes(RouteEvent::SinkEnsured { node_ids: vec![60], result: Ok(info()) }),
        RouteStep::Look { .. }
    ));
    let g = graph(vec![sink("audio-share-99-1"), app(60), app(70)]);
    let desired = match s.route_nodes(RouteEvent::Looked {
        node_ids: vec![60, 50, 60, 1234],
        info: info(),
        graph: Ok(g),
    }) {
        RouteStep::Link { desired, .. } => desired,
        _ => panic!("no links"),
    };
    assert_eq!(paths(&desired), vec![pair("61", "51"), pair("62", "52")]);
    s.routes = routes(&[("61", "51"), ("71", "51"), ("72", "52")]);
    let (stale, active) = match s.route_nodes(RouteEvent::Linked {
        desired,
        info: info(),
        outcomes: vec![Ok(()), Err(fault())],
    }) {
        RouteStep::Unlink { stale, active, .. } => (stale, active),
        _ => panic!("no removal"),
    };
    assert_eq!(paths(&active), vec![pair("61", "51")]);
    assert_eq!(paths(&stale), vec![pair("71", "51"), pair("72", "52")]);
    assert!(matches!(
        s.route_nodes(RouteEvent::Unlinked {
            stale,
            active,
            info: info(),
            outcomes: vec![Ok(()), Err(fault())],
        }),
        RouteStep::Done(Ok(_))
    ));
    assert_eq!(paths(&s.routes), vec![pair("61", "51"), pair("72", "52")]);
}

#[test]
fn smooth_routing_replaces_the_routes() {
    let mut s = state(false);
    s.routes = routes(&[("1", "2")]);
    let desired = routes(&[("3", "4")]);
    let (stale, active) = match s.route_nodes(RouteEvent::Linked {
        desired,
        info: info(),
        outcomes: vec![Ok(())],
    }) {
        RouteStep::Unlink { stale, active, .. } => (stale, active),
        _ => panic!("no removal"),
    };
    s.route_nodes(RouteEvent::Unlinked { stale, active, info: info(), outcomes: vec![Ok(())] });
    assert_eq!(paths(&s.routes), vec![pair("3", "4")]);
}

#[test]
fn clearing_undoes_routing() {
    let mut s = state(true);
    s.module_id = Some(5);
    s.routes = routes(&[("1", "2")]);
    s.route_nodes(RouteEvent::Unlinked {
        stale: routes(&[("1", "2")]),
        active: routes(&[("3", "4")]),
        info: info(),
        outcomes: vec![Err(fault())],
    });
    let all = match s.clear_routes(ClearEvent::Asked) {
        ClearStep::Unlink(all) => all,
        _ => panic!("no removal"),
    };
    assert_eq!(paths(&all), vec![pair("1", "2"), pair("3", "4")]);
    assert!(matches!(
        s.clear_routes(ClearEvent::Unlinked { routes: all, outcomes: vec![Ok(()), Ok(())] }),
        ClearStep::Done(Ok(()))
    ));
    assert!(s.routes.is_empty());
    assert_eq!(s.module_id, Some(5));
}

#[test]
fn routing_fails_for_a_reason() {
    let mut s = state(false);
    s.routes = routes(&[("1", "2")]);
    let mut text = |nodes: Vec<NodeRecord>, ids: Vec<u32>| -> String {
        match s.route_nodes(RouteEvent::Looked {
            node_ids: ids,
            info: info(),
            graph: Ok(graph(nodes)),
        }) {
            RouteStep::Done(Err(e)) => e.to_text(),
            _ => panic!("no error"),
        }
    };
    assert_eq!(
        text(vec![], vec![60]),
        "virtual sink exists in PulseAudio but was not found in PipeWire"
    );
    assert_eq!(
        text(vec![node(50, &[("node.name", "audio-share-99-1")], vec![])], vec![60]),
        "virtual sink has no usable stereo input ports"
    );
    assert_eq!(
        text(vec![sink("audio-share-99-1"), node(60, &[], vec![])], vec![60, 50]),
        "none of the selected nodes could be linked"
    );
    let own = node(
        60,
        &[("node.nick", "audio-share-99-1.monitor")],
        vec![port(61, PortDirection::Output, "FL")],
    );
    assert_eq!(
        text(vec![sink("audio-share-99-1"), own], vec![60]),
        "none of the selected nodes could be linked"
    );
    assert!(matches!(
        s.route_nodes(RouteEvent::Linked {
            desired: routes(&[("3", "4")]),
            info: info(),
            outcomes: vec![Err(fault())],
        }),
        RouteStep::Done(Err(BackendError::Message(_)))
    ));
    assert_eq!(paths(&s.routes), vec![pair("1", "2")]);
}

#[test]
fn an_empty_choice_clears_and_keeps_the_sink() {
    let mut s = state(false);
    assert!(matches!(
        s.route_nodes(RouteEvent::Asked { node_ids: vec![] }),
        RouteStep::ClearRoutes
    ));
    assert!(matches!(
        s.route_nodes(RouteEvent::Cleared { cleared: Err(fault()) }),
        RouteStep::Done(Err(_))
    ));
    let ids = match s.route_nodes(RouteEvent::Cleared { cleared: Ok(()) }) {
        RouteStep::EnsureSink { node_ids } => node_ids,
        _ => panic!("no sink"),
    };
    assert!(matches!(
        s.route_nodes(RouteEvent::SinkEnsured { node_ids: ids, result: Ok(info()) }),
        RouteStep::Done(Ok(_))
    ));
}

#[test]
fn clearing_keeps_what_it_could_not_remove() {
    let mut s = state(false);
    assert!(matches!(s.clear_routes(ClearEvent::Asked), ClearStep::Done(Ok(()))));
    s.routes = routes(&[("1", "2"), ("3", "4"), ("5", "6")]);
    let all = match s.clear_routes(ClearEvent::Asked) {
        ClearStep::Unlink(all) => all,
        _ => panic!("no removal"),
    };
    assert!(s.routes.is_empty());
    match s.clear_routes(ClearEvent::Unlinked {
        routes: all,
        outcomes: vec![Err(fault()), Ok(()), Err(fault())],
    }) {
        ClearStep::Done(Err(e)) => assert_eq!(
            e.to_text(),
            "failed to remove 2 route(s); cleanup will be retried later"
        ),
        _ => panic!("no error"),
    }
    assert_eq!(paths(&s.routes), vec![pair("1", "2"), pair("5", "6")]);
    let all = match s.clear_routes(ClearEvent::Asked) {
        ClearStep::Unlink(all) => all,
        _ => panic!("no removal"),
    };
    assert!(matches!(
        s.clear_routes(ClearEvent::Unlinked { routes: all, outcomes: vec![Ok(()), Ok(())] }),
        ClearStep::Done(Ok(()))
    ));
    assert!(s.routes.is_empty());
}

#[test]
fn a_session_is_taken_down_part_by_part() {
    let mut s = state(true);
    s.module_id = Some(5);
    s.remap_module_id = Some(6);
    assert!(matches!(s.dispose(DisposeEvent::Asked), DisposeStep::ClearRoutes));
    let errors = match s.dispose(DisposeEvent::Cleared { result: Err(fault()) }) {
        DisposeStep::UnloadMic { module_id, command, errors } => {
            assert_eq!(module_id, 6);
            assert_eq!(command.args, vec!["unload-module".to_string(), "6".to_string()]);
            errors
        }
        _ => panic!("no microphone"),
    };
    let errors = match s.dispose(DisposeEvent::MicUnloaded {
        module_id: 6,
        answer: Err(fault()),
        errors,
    }) {
        DisposeStep::UnloadSink { module_id, errors, .. } => {
            assert_eq!(module_id, 5);
            errors
        }
        _ => panic!("no sink"),
    };
    match s.dispose(DisposeEvent::SinkUnloaded { module_id: 5, answer: Err(fault()), errors }) {
        DisposeStep::Done(Err(e)) => assert_eq!(
            e.to_text(),
            "no; failed to unload virtual mic module 6: no; failed to unload virtual sink module 5: no"
        ),
        _ => panic!("no error"),
    }
    assert_eq!((s.remap_module_id, s.module_id), (Some(6), Some(5)));
    let errors = match s.dispose(DisposeEvent::Cleared { result: Ok(()) }) {
        DisposeStep::UnloadMic { errors, .. } => errors,
        _ => panic!("no microphone"),
    };
    let errors = match s.dispose(DisposeEvent::MicUnloaded {
        module_id: 6,
        answer: Ok(String::new()),
        errors,
    }) {
        DisposeStep::UnloadSink { errors, .. } => errors,
        _ => panic!("no sink"),
    };
    assert!(matches!(
        s.dispose(DisposeEvent::SinkUnloaded { module_id: 5, answer: Ok(String::new()), errors }),
        DisposeStep::Done(Ok(()))
    ));
    assert_eq!((s.remap_module_id, s.module_id), (None, None));
    assert!(matches!(
        s.dispose(DisposeEvent::Cleared { result: Ok(()) }),
        DisposeStep::Done(Ok(()))
    ));
}

#[test]
fn nodes_are_listed_without_our_own() {
    let s = state(false);
    assert!(matches!(s.list_shareable_nodes(false, ListEvent::Asked), ListStep::CheckPipewire));
    assert!(matches!(
        s.list_shareable_nodes(false, ListEvent::PipewireChecked(false)),
        ListStep::Done(Err(BackendError::Unsupported))
    ));
    assert!(matches!(
        s.list_shareable_nodes(false, ListEvent::PipewireChecked(true)),
        ListStep::Look
    ));
    let own = node(
        40,
        &[("application.name", "x"), ("device.name", "audio-share-99-1")],
        vec![port(41, PortDirection::Output, "FL")],
    );
    match s.list_shareable_nodes(true, ListEvent::Looked(Ok(graph(vec![own, app(60)])))) {
        ListStep::Done(Ok(list)) => {
            assert_eq!(list.iter().map(|n| n.id).collect::<Vec<_>>(), vec![60])
        }
        _ => panic!("no list"),
    }
    assert!(matches!(
        s.list_shareable_nodes(true, ListEvent::Looked(Err(fault()))),
        ListStep::Done(Err(_))
    ));
    let kwin = node(3, &[("node.name", "kwin-screencast-code")], vec![]);
    let hint = s.find_screencast_hint(Ok(graph(vec![kwin]))).unwrap().unwrap();
    assert_eq!(hint.hint, "code");
    assert!(s.find_screencast_hint(Err(fault())).is_err());
}

#[test]
fn route_sets_are_ordered_and_hold_each_route_once() {
    let mut r = routes(&[("2", "1"), ("10", "1"), ("2", "0"), ("2", "1")]);
    assert_eq!(paths(&r), vec![pair("10", "1"), pair("2", "0"), pair("2", "1")]);
    assert!(r.contains(&Route { output_path: "2".to_string(), input_path: "0".to_string() }));
    assert!(!r.contains(&Route { output_path: "2".to_string(), input_path: "9".to_string() }));
    let d = r.difference(&routes(&[("2", "0")]));
    assert_eq!(paths(&d), vec![pair("10", "1"), pair("2", "1")]);
    r.extend(&routes(&[("0", "0")]));
    assert_eq!(r.len(), 4);
}
