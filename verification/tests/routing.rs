use patchcord::models::{PortDirection, PortRecord};
use patchcord::routing::{channel_role, dedupe_node_ids, map_ports, same_port_index, ChannelRole};

fn port(id: u32, channel: Option<&str>, index: Option<&str>) -> PortRecord {
    PortRecord {
        id,
        direction: PortDirection::Output,
        channel: channel.map(|c| c.to_string()),
        port_index: index.map(|i| i.to_string()),
        path: Some(id.to_string()),
        port_name: None,
        object_path: None,
    }
}

fn ids(outputs: Vec<PortRecord>, inputs: Vec<PortRecord>) -> Vec<(u32, u32)> {
    map_ports(&outputs, &inputs).iter().map(|(o, i)| (o.id, i.id)).collect()
}

#[test]
fn test_channel_role_parsing() {
    assert_eq!(channel_role(Some("FL")), ChannelRole::Left);
    assert_eq!(channel_role(Some("front-right")), ChannelRole::Right);
    assert_eq!(channel_role(Some("MONO")), ChannelRole::Both);
    assert_eq!(channel_role(None), ChannelRole::Unknown);
    assert_eq!(channel_role(Some("weird-channel")), ChannelRole::Unknown);
}

#[test]
fn test_map_ports() {
    fn make_port(id: u32, channel: &str, path: &str) -> PortRecord {
        PortRecord {
            id,
            direction: PortDirection::Output,
            channel: Some(channel.to_string()),
            port_index: None,
            path: Some(path.to_string()),
            port_name: None,
            object_path: None,
        }
    }

    let out_l = make_port(1, "FL", "1");
    let out_r = make_port(2, "FR", "2");
    let in_l = make_port(3, "FL", "3");
    let in_r = make_port(4, "FR", "4");

    let outputs = vec![out_l.clone(), out_r.clone()];
    let inputs = vec![in_l.clone(), in_r.clone()];

    let mapped = map_ports(&outputs, &inputs);

    assert_eq!(mapped.len(), 2);
    assert_eq!(mapped[0].0.path, out_l.path);
    assert_eq!(mapped[0].1.path, in_l.path);

    assert_eq!(mapped[1].0.path, out_r.path);
    assert_eq!(mapped[1].1.path, in_r.path);
}

#[test]
fn test_dedupe_node_ids() {
    let input = vec![1, 2, 2, 3, 1, 4];
    let expected = vec![1, 2, 3, 4];
    assert_eq!(dedupe_node_ids(input), expected);
}

#[test]
fn every_channel_name_has_its_role() {
    for name in ["FL", "FRONT-LEFT", "SL", "SIDE-LEFT", "RL", "REAR-LEFT", "FLC"] {
        assert_eq!(channel_role(Some(name)), ChannelRole::Left);
        assert_eq!(channel_role(Some(&name.to_lowercase())), ChannelRole::Left);
    }
    for name in ["FR", "FRONT-RIGHT", "SR", "SIDE-RIGHT", "RR", "REAR-RIGHT", "FRC"] {
        assert_eq!(channel_role(Some(name)), ChannelRole::Right);
    }
    for name in ["FC", "LFE", "RC", "MONO"] {
        assert_eq!(channel_role(Some(name)), ChannelRole::Both);
    }
    assert_eq!(channel_role(Some("")), ChannelRole::Unknown);
}

#[test]
fn nothing_is_mapped_without_ports() {
    assert_eq!(ids(vec![], vec![port(1, Some("FL"), None)]), vec![]);
    assert_eq!(ids(vec![port(1, Some("FL"), None)], vec![]), vec![]);
}

#[test]
fn mono_output_reaches_both_sides() {
    let inputs = vec![port(10, Some("FR"), None), port(11, Some("FL"), None), port(12, None, None)];
    assert_eq!(ids(vec![port(1, Some("MONO"), None)], inputs), vec![(1, 11), (1, 10)]);
}

#[test]
fn mono_output_reaches_all_unnamed_inputs() {
    let inputs = vec![port(10, None, None), port(11, None, None)];
    assert_eq!(ids(vec![port(1, Some("FC"), None)], inputs), vec![(1, 10), (1, 11)]);
}

#[test]
fn left_output_falls_back_on_index_then_position_then_first() {
    let by_index = vec![port(10, None, Some("0")), port(11, None, Some("1"))];
    assert_eq!(ids(vec![port(1, Some("FL"), Some("1"))], by_index), vec![(1, 11)]);
    let by_position = vec![port(10, None, None), port(11, None, None)];
    assert_eq!(
        ids(vec![port(1, Some("LFE"), None), port(2, Some("FL"), None)], by_position),
        vec![(1, 10), (1, 11), (2, 11)]
    );
    let too_few = vec![port(10, None, None)];
    assert_eq!(
        ids(vec![port(1, Some("FR"), None), port(2, Some("FL"), None)], too_few),
        vec![(1, 10), (2, 10)]
    );
}

#[test]
fn right_output_falls_back_on_the_last_input() {
    let inputs = vec![port(10, None, None), port(11, None, None)];
    let outputs = vec![
        port(1, Some("FR"), None),
        port(2, Some("FR"), None),
        port(3, Some("FR"), None),
    ];
    assert_eq!(ids(outputs, inputs), vec![(1, 10), (2, 11), (3, 11)]);
}

#[test]
fn single_unknown_output_reaches_all_inputs() {
    let inputs = vec![port(10, Some("FL"), None), port(11, Some("FR"), None)];
    assert_eq!(ids(vec![port(1, None, None)], inputs), vec![(1, 10), (1, 11)]);
}

#[test]
fn several_unknown_outputs_go_one_by_one() {
    let inputs = vec![port(10, None, Some("5")), port(11, None, None)];
    let outputs = vec![port(1, None, None), port(2, None, Some("5")), port(3, None, None)];
    assert_eq!(ids(outputs, inputs), vec![(1, 10), (2, 10), (3, 11)]);
}

#[test]
fn port_indices_count_only_where_both_are_known() {
    assert!(same_port_index(&port(1, None, Some("0")), &port(2, None, Some("0"))));
    assert!(!same_port_index(&port(1, None, Some("0")), &port(2, None, Some("1"))));
    assert!(!same_port_index(&port(1, None, None), &port(2, None, None)));
}

#[test]
fn every_output_is_linked_and_sides_are_kept() {
    let outputs = vec![port(1, Some("FL"), None), port(2, Some("FR"), None), port(3, None, None)];
    let inputs = vec![port(10, Some("FL"), None), port(11, Some("FR"), None)];
    let mapped = ids(outputs, inputs);
    for id in [1, 2, 3] {
        assert!(mapped.iter().any(|(o, _)| *o == id));
    }
    assert!(mapped.contains(&(1, 10)) && !mapped.contains(&(1, 11)));
    assert!(mapped.contains(&(2, 11)) && !mapped.contains(&(2, 10)));
}

#[test]
fn dedupe_keeps_the_first_occurrence() {
    assert_eq!(dedupe_node_ids(vec![]), Vec::<u32>::new());
    assert_eq!(dedupe_node_ids(vec![7, 7, 7]), vec![7]);
    assert_eq!(dedupe_node_ids(vec![3, 1, 3, 2]), vec![3, 1, 2]);
}
