use patchcord::error::{BackendError, JsonError};
use patchcord::json::{find_member, read_json, to_props, JsonValue, PropMap, PropValue};
use patchcord::listing::{is_ours, list_nodes, monitor_source, NameScope};
use patchcord::models::{
    find_named, find_screencast_hint, to_shareable_node, NodeRecord, PortDirection, PortRecord,
    RouteFilter,
};
use patchcord::snapshot::{
    collect_objects, dump_command, read_objects, CollectStep, PipeWireSnapshot, RawPwObject,
    GRAPH_RETRY_ATTEMPTS,
};
use patchcord::table::IdTable;

fn props(list: &[(&str, &str)]) -> PropMap {
    let mut p = PropMap::new();
    for (k, v) in list {
        p.insert(k.to_string(), PropValue::Text(v.to_string()));
    }
    p
}

fn port(id: u32, direction: PortDirection, path: bool) -> PortRecord {
    PortRecord {
        id,
        direction,
        channel: None,
        port_index: None,
        path: if path { Some(id.to_string()) } else { None },
        port_name: None,
        object_path: None,
    }
}

fn node(id: u32, list: &[(&str, &str)], ports: Vec<PortRecord>) -> NodeRecord {
    NodeRecord { id, props: props(list), ports }
}

fn table(nodes: Vec<NodeRecord>) -> IdTable<NodeRecord> {
    let mut t = IdTable::new();
    for n in nodes {
        t.insert(n.id, n);
    }
    t
}

fn out(id: u32) -> Vec<PortRecord> {
    vec![port(id, PortDirection::Output, true)]
}

fn text(s: &str) -> JsonValue {
    JsonValue::Text(s.to_string())
}

fn object(list: Vec<(&str, JsonValue)>) -> JsonValue {
    JsonValue::Object(list.into_iter().map(|(k, v)| (k.to_string(), v)).collect())
}

#[test]
fn port_directions_have_two_names_each() {
    assert_eq!(PortDirection::parse("in"), Some(PortDirection::Input));
    assert_eq!(PortDirection::parse("input"), Some(PortDirection::Input));
    assert_eq!(PortDirection::parse("out"), Some(PortDirection::Output));
    assert_eq!(PortDirection::parse("output"), Some(PortDirection::Output));
    assert_eq!(PortDirection::parse("Output"), None);
    assert_eq!(PortDirection::parse(""), None);
}

#[test]
fn properties_are_read_by_kind() {
    let mut p = props(&[("a", "x"), ("n", "12"), ("bad", "1x")]);
    p.insert("u".to_string(), PropValue::Unsigned(4294967295));
    p.insert("big".to_string(), PropValue::Unsigned(4294967296));
    p.insert("neg".to_string(), PropValue::Negative(-3));
    p.insert("f".to_string(), PropValue::Fraction("1.5".to_string()));
    p.insert("o".to_string(), PropValue::Other);
    let n = NodeRecord { id: 1, props: p, ports: vec![] };
    assert_eq!(n.prop_str("a"), Some("x"));
    assert_eq!(n.prop_str("u"), None);
    assert_eq!(n.prop_str("none"), None);
    assert_eq!(n.prop_num("n"), Some(12));
    assert_eq!(n.prop_num("u"), Some(4294967295));
    assert_eq!(n.prop_num("big"), None);
    assert_eq!(n.prop_num("neg"), None);
    assert_eq!(n.prop_num("bad"), None);
    assert_eq!(n.prop_num("f"), None);
    assert_eq!(n.prop_num("o"), None);
    assert!(n.matches_prop("a", "x"));
    assert!(!n.matches_prop("a", "y"));
    assert_eq!(PropValue::Negative(i64::MIN).scalar_text(), Some(i64::MIN.to_string()));
    assert_eq!(PropValue::Unsigned(u64::MAX).scalar_text(), Some(u64::MAX.to_string()));
    assert_eq!(PropValue::Other.scalar_text(), None);
}

#[test]
fn ports_are_sorted_by_direction() {
    let n = node(
        1,
        &[],
        vec![
            port(1, PortDirection::Output, true),
            port(2, PortDirection::Input, true),
            port(3, PortDirection::Output, false),
        ],
    );
    assert_eq!(n.output_ports().iter().map(|p| p.id).collect::<Vec<_>>(), vec![1, 3]);
    assert_eq!(n.input_ports().iter().map(|p| p.id).collect::<Vec<_>>(), vec![2]);
    assert_eq!(n.usable_outputs().iter().map(|p| p.id).collect::<Vec<_>>(), vec![1]);
}

#[test]
fn devices_are_known_by_id_or_class() {
    assert!(node(1, &[("device.id", "40")], vec![]).is_device());
    assert!(!node(1, &[("device.id", "")], vec![]).is_device());
    assert!(node(1, &[("media.class", "Audio/Sink/Virtual")], vec![]).is_device());
    assert!(node(1, &[("media.class", "Audio/Source")], vec![]).is_device());
    assert!(!node(1, &[("media.class", "Stream/Output/Audio")], vec![]).is_device());
}

#[test]
fn shareable_nodes_show_the_best_name() {
    let n = node(
        9,
        &[
            ("application.name", "Firefox"),
            ("node.name", "ff"),
            ("media.name", "Song"),
            ("application.process.binary", "firefox"),
            ("application.process.id", "42"),
            ("media.class", "Stream/Output/Audio"),
            ("node.virtual", "true"),
        ],
        vec![],
    );
    let s = to_shareable_node(&n);
    assert_eq!(s.id, 9);
    assert_eq!(s.display_name, "Song");
    assert_eq!(s.application_name, Some("Firefox".to_string()));
    assert_eq!(s.node_name, Some("ff".to_string()));
    assert_eq!(s.description, None);
    assert_eq!(s.binary, Some("firefox".to_string()));
    assert_eq!(s.process_id, Some(42));
    assert!(s.is_virtual && !s.is_device);
    let described = node(1, &[("device.description", "D"), ("media.name", "M")], vec![]);
    assert_eq!(to_shareable_node(&described).display_name, "D");
    let both = node(1, &[("node.description", "N"), ("device.description", "D")], vec![]);
    assert_eq!(to_shareable_node(&both).description, Some("N".to_string()));
    assert_eq!(to_shareable_node(&node(7, &[], vec![])).display_name, "Node 7");
    let app = node(7, &[("application.name", "A"), ("node.name", "n")], vec![]);
    assert_eq!(to_shareable_node(&app).display_name, "A");
}

#[test]
fn hints_come_from_kwin_nodes() {
    let t = table(vec![
        node(1, &[("node.name", "other")], vec![]),
        node(2, &[("node.name", "kwin-screencast-")], vec![]),
        node(3, &[("node.name", "kwin-screencast-x.")], vec![]),
        node(4, &[("node.name", "kwin-screencast-org.mozilla.Firefox")], vec![]),
        node(5, &[("node.name", "kwin-screencast-steam")], vec![]),
    ]);
    let h = find_screencast_hint(&t).unwrap();
    assert_eq!(h.desktop_file_id, "org.mozilla.Firefox");
    assert_eq!(h.hint, "firefox");
    assert!(find_screencast_hint(&table(vec![])).is_none());
}

#[test]
fn tables_keep_one_value_for_each_id() {
    let mut t: IdTable<u32> = IdTable::new();
    assert!(t.is_empty());
    t.insert(5, 50);
    t.insert(2, 20);
    t.insert(9, 90);
    t.insert(5, 51);
    assert_eq!(t.len(), 3);
    assert_eq!((t.id_at(0), t.id_at(1), t.id_at(2)), (2, 5, 9));
    assert_eq!(t.get(5), Some(&51));
    assert_eq!(t.remove(5), Some(51));
    assert_eq!(t.remove(5), None);
    assert!(!t.contains(5) && t.contains(9));
    let copy = t.clone();
    assert_eq!(copy.get(2), Some(&20));
}

#[test]
fn our_objects_are_known_by_name() {
    let mic = Some("mic".to_string());
    let nick = node(1, &[("node.nick", "s")], vec![]);
    assert!(is_ours(NameScope::AnyName, &nick, "s", &mic));
    assert!(!is_ours(NameScope::NodeName, &nick, "s", &mic));
    let monitor = node(1, &[("node.name", "s.monitor")], vec![]);
    assert!(is_ours(NameScope::NodeName, &monitor, "s", &None));
    let m = node(1, &[("node.name", "mic")], vec![]);
    assert!(is_ours(NameScope::NodeName, &m, "s", &mic));
    assert!(!is_ours(NameScope::NodeName, &m, "s", &None));
    assert_eq!(monitor_source("s"), "s.monitor");
}

#[test]
fn the_list_is_filtered_and_sorted() {
    let t = table(vec![
        node(1, &[("application.name", "x"), ("media.name", "zebra")], out(11)),
        node(2, &[("application.name", "x"), ("media.name", "Apple")], out(12)),
        node(3, &[("application.name", "x"), ("media.name", "apple")], out(13)),
        node(4, &[("application.name", "x"), ("node.name", "sink")], out(14)),
        node(5, &[("application.name", "x"), ("media.name", "mute")], vec![]),
        node(6, &[("device.id", "3"), ("media.name", "Mic")], out(16)),
        node(7, &[("media.name", "nobody")], out(17)),
        node(8, &[("application.name", ""), ("application.process.binary", "b")], out(18)),
    ]);
    let ids = |devices: bool| -> Vec<u32> {
        list_nodes(&t, NameScope::NodeName, "sink", &None, devices).iter().map(|n| n.id).collect()
    };
    assert_eq!(ids(false), vec![8, 2, 3, 1]);
    assert_eq!(ids(true), vec![8, 2, 3, 6, 1]);
}

#[test]
fn nodes_are_found_by_name() {
    let t = table(vec![
        node(4, &[("node.name", "b")], vec![]),
        node(3, &[("node.name", "a")], vec![]),
        node(2, &[("node.name", "b")], vec![]),
    ]);
    assert_eq!(find_named(&t, "b").map(|n| n.id), Some(2));
    assert!(find_named(&t, "c").is_none());
}

#[test]
fn filters_start_out_open() {
    let f = RouteFilter::default();
    assert!(!f.only_speakers && !f.only_default_speakers && !f.ignore_devices);
    assert!(!f.ignore_virtual && !f.ignore_input_media);
}

#[test]
fn the_last_member_of_a_name_counts() {
    let entries = vec![
        ("a".to_string(), JsonValue::Bool(false)),
        ("a".to_string(), JsonValue::Bool(true)),
    ];
    assert!(matches!(find_member(&entries, "a"), Some(JsonValue::Bool(true))));
    assert!(find_member(&entries, "b").is_none());
    let p = to_props(&vec![
        ("k".to_string(), JsonValue::Null),
        ("k".to_string(), JsonValue::Unsigned(3)),
    ]);
    assert!(matches!(p.get("k"), Some(PropValue::Unsigned(3))));
}

fn dump() -> JsonValue {
    JsonValue::Array(vec![
        object(vec![
            ("id", JsonValue::Unsigned(30)),
            ("type", text("PipeWire:Interface:Port")),
            (
                "info",
                object(vec![
                    ("direction", text("output")),
                    (
                        "props",
                        object(vec![
                            ("node.id", JsonValue::Unsigned(20)),
                            ("audio.channel", text("FL")),
                            ("port.id", JsonValue::Unsigned(0)),
                        ]),
                    ),
                ]),
            ),
        ]),
        object(vec![
            ("id", JsonValue::Unsigned(20)),
            ("type", text("PipeWire:Interface:Node")),
            ("info", object(vec![("props", object(vec![("node.name", text("app"))]))])),
        ]),
        object(vec![
            ("id", JsonValue::Unsigned(31)),
            ("type", text("PipeWire:Interface:Port")),
            (
                "info",
                object(vec![
                    ("direction", text("sideways")),
                    (
                        "props",
                        object(vec![
                            ("node.id", text("20")),
                            ("port.direction", text("in")),
                            ("port.index", JsonValue::Unsigned(4)),
                        ]),
                    ),
                ]),
            ),
        ]),
        object(vec![
            ("id", JsonValue::Unsigned(32)),
            ("type", text("PipeWire:Interface:Port")),
            (
                "info",
                object(vec![("props", object(vec![("node.id", text("99")), ("port.direction", text("in"))]))]),
            ),
        ]),
        object(vec![("id", JsonValue::Unsigned(40)), ("type", text("PipeWire:Interface:Core"))]),
    ])
}

#[test]
fn a_dump_becomes_a_graph() {
    let snapshot = PipeWireSnapshot::read_dump(Ok(dump())).unwrap();
    assert_eq!(snapshot.nodes.len(), 1);
    let n = snapshot.nodes.get(20).unwrap();
    assert_eq!(n.prop_str("node.name"), Some("app"));
    assert_eq!(n.ports.len(), 2);
    assert_eq!(n.ports[0].id, 30);
    assert_eq!(n.ports[0].direction, PortDirection::Output);
    assert_eq!(n.ports[0].channel, Some("FL".to_string()));
    assert_eq!(n.ports[0].port_index, Some("0".to_string()));
    assert_eq!(n.ports[0].path, Some("30".to_string()));
    assert_eq!(n.ports[1].direction, PortDirection::Input);
    assert_eq!(n.ports[1].port_index, Some("4".to_string()));
}

#[test]
fn a_later_node_replaces_an_earlier_one() {
    let raw = |name: &str| RawPwObject {
        id: 7,
        kind: "PipeWire:Interface:Node".to_string(),
        props: props(&[("node.name", name)]),
        direction: None,
    };
    let snapshot = collect_objects(&vec![raw("old"), raw("new")]);
    assert_eq!(snapshot.nodes.get(7).unwrap().prop_str("node.name"), Some("new"));
}

#[test]
fn a_dump_must_hold_objects() {
    let bad = vec![
        JsonValue::Null,
        object(vec![]),
        JsonValue::Array(vec![JsonValue::Null]),
        JsonValue::Array(vec![object(vec![("type", text("x"))])]),
        JsonValue::Array(vec![object(vec![("id", JsonValue::Unsigned(1))])]),
        JsonValue::Array(vec![object(vec![("id", JsonValue::Unsigned(4294967296)), ("type", text("x"))])]),
        JsonValue::Array(vec![object(vec![("id", JsonValue::Negative(-1)), ("type", text("x"))])]),
        JsonValue::Array(vec![object(vec![
            ("id", JsonValue::Unsigned(1)),
            ("type", text("x")),
            ("info", JsonValue::Bool(true)),
        ])]),
        JsonValue::Array(vec![object(vec![
            ("id", JsonValue::Unsigned(1)),
            ("type", text("x")),
            ("info", object(vec![("direction", JsonValue::Unsigned(1))])),
        ])]),
    ];
    for value in bad {
        assert!(matches!(read_objects(&value), Err(JsonError)));
        assert!(matches!(
            PipeWireSnapshot::read_dump(Ok(value)),
            Err(BackendError::Json(JsonError))
        ));
    }
    assert!(read_objects(&JsonValue::Array(vec![])).unwrap().is_empty());
    let repeated = |list: Vec<(&'static str, JsonValue)>| {
        let mut all = vec![("id", JsonValue::Unsigned(1)), ("type", text("x"))];
        all.extend(list);
        read_objects(&JsonValue::Array(vec![object(all)]))
    };
    assert_eq!(repeated(vec![("id", JsonValue::Unsigned(2))]).unwrap()[0].id, 2);
    assert!(repeated(vec![("id", text("2"))]).is_err());
    assert!(repeated(vec![("type", JsonValue::Null)]).is_err());
    assert!(repeated(vec![("info", JsonValue::Null), ("info", object(vec![]))]).is_err());
    let both = object(vec![
        ("direction", text("input")),
        ("direction", JsonValue::Null),
        ("props", object(vec![("a", text("1"))])),
        ("props", object(vec![("b", text("2"))])),
    ]);
    let read = repeated(vec![("info", object(vec![])), ("info", both)]).unwrap();
    assert_eq!(read[0].direction, None);
    assert!(read[0].props.get("a").is_none() && read[0].props.get("b").is_some());
    let odd = object(vec![("props", JsonValue::Null), ("props", object(vec![]))]);
    assert!(repeated(vec![("info", odd)]).is_err());
    let null_direction = JsonValue::Array(vec![object(vec![
        ("id", JsonValue::Unsigned(1)),
        ("type", text("x")),
        ("info", object(vec![("direction", JsonValue::Null)])),
    ])]);
    assert_eq!(read_objects(&null_direction).unwrap().len(), 1);
    assert_eq!(dump_command().program, "pw-dump");
    assert!(dump_command().args.is_empty());
}

#[test]
fn transient_faults_are_tried_again_eight_times_in_all() {
    let mut attempt = 0;
    let mut tries = 0;
    loop {
        tries += 1;
        match PipeWireSnapshot::collect(attempt, Err(BackendError::Json(JsonError))) {
            CollectStep::Again { attempt: next, pause_ms } => {
                assert_eq!(next, attempt + 1);
                assert_eq!(pause_ms, 50);
                attempt = next;
            }
            CollectStep::Done(r) => {
                assert!(matches!(r, Err(BackendError::Json(_))));
                break;
            }
        }
    }
    assert_eq!(tries, GRAPH_RETRY_ATTEMPTS);
    assert_eq!(tries, 8);
    assert!(matches!(
        PipeWireSnapshot::collect(0, Err(BackendError::Unsupported)),
        CollectStep::Done(Err(BackendError::Unsupported))
    ));
    assert!(matches!(
        PipeWireSnapshot::collect(0, Ok(collect_objects(&vec![]))),
        CollectStep::Done(Ok(_))
    ));
}

#[test]
fn the_sink_is_found_by_name_before_description() {
    let nodes = table(vec![
        node(1, &[("node.description", "Desc")], vec![]),
        node(2, &[("device.name", "sink")], vec![]),
        node(3, &[("device.description", "Other")], vec![]),
    ]);
    let snapshot = PipeWireSnapshot { nodes };
    assert_eq!(snapshot.find_virtual_sink("sink", "Desc").map(|n| n.id), Some(2));
    assert_eq!(snapshot.find_virtual_sink("none", "Desc").map(|n| n.id), Some(1));
    assert_eq!(snapshot.find_virtual_sink("none", "Other").map(|n| n.id), Some(3));
    assert!(snapshot.find_virtual_sink("none", "nothing").is_none());
}

#[test]
fn json_texts_are_read() {
    let list = match read_json("[null, true, 7, -7, 1.5, \"a\\n\", [], {\"k\": 1}]").unwrap() {
        JsonValue::Array(list) => list,
        other => panic!("{:?}", other),
    };
    assert!(matches!(list[0], JsonValue::Null));
    assert!(matches!(list[1], JsonValue::Bool(true)));
    assert!(matches!(list[2], JsonValue::Unsigned(7)));
    assert!(matches!(list[3], JsonValue::Negative(-7)));
    assert!(matches!(&list[4], JsonValue::Fraction(s) if s.as_str() == "1.5"));
    assert!(matches!(&list[5], JsonValue::Text(s) if s.as_str() == "a\n"));
    assert!(matches!(&list[6], JsonValue::Array(l) if l.is_empty()));
    match &list[7] {
        JsonValue::Object(entries) => {
            assert_eq!(entries.len(), 1);
            assert_eq!(entries[0].0, "k");
            assert!(matches!(entries[0].1, JsonValue::Unsigned(1)));
        }
        other => panic!("{:?}", other),
    }
    assert!(read_json("").is_err());
    assert!(read_json("[1,]").is_err());
    assert!(read_json("{\"k\": 1} x").is_err());
}

/// An array in an array, and so on, far deeper than a call stack goes.
fn nested() -> String {
    format!("{}{}", "[".repeat(200_000), "]".repeat(200_000))
}

#[test]
fn json_nests_to_any_depth() {
    let mut value = read_json(&nested()).unwrap();
    for _ in 0..4 {
        value = match value {
            JsonValue::Array(mut list) => {
                assert_eq!(list.len(), 1);
                list.remove(0)
            }
            other => panic!("{:?}", other),
        };
    }
    assert!(matches!(value, JsonValue::Unread));
    match read_json("[[[{\"a\": {}, \"b\": 2}]]]").unwrap() {
        JsonValue::Array(list) => match &list[0] {
            JsonValue::Array(list) => match &list[0] {
                JsonValue::Array(list) => match &list[0] {
                    JsonValue::Object(entries) => {
                        assert!(matches!(entries[0].1, JsonValue::Unread));
                        assert!(matches!(entries[1].1, JsonValue::Unsigned(2)));
                    }
                    other => panic!("{:?}", other),
                },
                other => panic!("{:?}", other),
            },
            other => panic!("{:?}", other),
        },
        other => panic!("{:?}", other),
    }
    assert!(read_json(&"[".repeat(200_000)).is_err());
}

#[test]
fn a_dump_nests_to_any_depth() {
    let text = format!(
        "[ {{ \"id\": 20, \"type\": \"PipeWire:Interface:Node\", \"more\": {deep},
        \"info\": {{ \"params\": {deep}, \"props\": {{ \"node.name\": \"app\", \"deep\": {deep} }} }} }} ]",
        deep = nested()
    );
    let snapshot = PipeWireSnapshot::collect_once(Ok(text)).unwrap();
    let n = snapshot.nodes.get(20).unwrap();
    assert_eq!(n.prop_str("node.name"), Some("app"));
    assert_eq!(n.prop_str("deep"), None);
    assert!(matches!(
        PipeWireSnapshot::collect_once(Ok(nested())),
        Err(BackendError::Json(JsonError))
    ));
}

#[test]
fn a_printed_dump_becomes_a_graph() {
    let text = "[ { \"id\": 20, \"type\": \"PipeWire:Interface:Node\", \"version\": 3,
        \"info\": { \"state\": \"running\", \"error\": null, \"props\": { \"node.name\": \"app\",
        \"application.process.id\": 4711, \"clock.rate\": 0.5 } } },
        { \"id\": 21, \"type\": \"PipeWire:Interface:Port\",
        \"info\": { \"direction\": \"input\", \"props\": { \"node.id\": 20 } } },
        { \"id\": 0, \"type\": \"PipeWire:Interface:Core\" } ]";
    let snapshot = PipeWireSnapshot::collect_once(Ok(text.to_string())).unwrap();
    let n = snapshot.nodes.get(20).unwrap();
    assert_eq!(snapshot.nodes.len(), 1);
    assert_eq!(n.prop_str("node.name"), Some("app"));
    assert_eq!(n.prop_num("application.process.id"), Some(4711));
    assert_eq!(n.prop_num("clock.rate"), None);
    assert_eq!(n.ports.len(), 1);
    assert_eq!(n.ports[0].direction, PortDirection::Input);
    assert!(matches!(
        PipeWireSnapshot::collect_once(Ok("[ {".to_string())),
        Err(BackendError::Json(JsonError))
    ));
    assert!(matches!(
        PipeWireSnapshot::collect_once(Err(BackendError::Unsupported)),
        Err(BackendError::Unsupported)
    ));
}
