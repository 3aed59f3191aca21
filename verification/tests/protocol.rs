use patchcord::config::{
    has_flag, make_unique_name, parse_args, settle, PatchbayConfig, SessionCounter,
};
use patchcord::error::{BackendError, JsonError};
use patchcord::json::JsonValue;
use patchcord::models::RouteFilter;
use patchcord::protocol::{
    goes_on_after, is_line, message_of, on_line, on_message, on_parsed, read_request, request_id,
    write_result, IncomingMessage, LineStep, MessageStep, MonitorWatch, Request, Response,
};
use patchcord::pw_backend::BackendEvent;

fn text(s: &str) -> JsonValue {
    JsonValue::Text(s.to_string())
}

fn object(list: Vec<(&str, JsonValue)>) -> JsonValue {
    JsonValue::Object(list.into_iter().map(|(k, v)| (k.to_string(), v)).collect())
}

fn request(method: &str, mut rest: Vec<(&'static str, JsonValue)>) -> Result<Request, JsonError> {
    let mut list = vec![("method", text(method)), ("id", JsonValue::Unsigned(7))];
    list.append(&mut rest);
    read_request(&object(list))
}

fn strings(list: &[&str]) -> Vec<String> {
    list.iter().map(|s| s.to_string()).collect()
}

#[test]
fn requests_are_read() {
    assert_eq!(request("hasPipeWire", vec![]), Ok(Request::HasPipeWire { id: 7 }));
    assert_eq!(
        request("listShareableNodes", vec![]),
        Ok(Request::ListShareableNodes { id: 7, include_devices: false })
    );
    assert_eq!(
        request("listShareableNodes", vec![("includeDevices", JsonValue::Bool(true))]),
        Ok(Request::ListShareableNodes { id: 7, include_devices: true })
    );
    assert_eq!(request("ensureVirtualSink", vec![]), Ok(Request::EnsureVirtualSink { id: 7 }));
    assert_eq!(request("clearRoutes", vec![]), Ok(Request::ClearRoutes { id: 7 }));
    assert_eq!(
        request("setVirtualMicMute", vec![("mute", JsonValue::Bool(true))]),
        Ok(Request::SetVirtualMicMute { id: 7, mute: true })
    );
    assert_eq!(request("dispose", vec![("extra", JsonValue::Null)]), Ok(Request::Dispose { id: 7 }));
}

#[test]
fn routing_requests_are_read_with_their_filter() {
    let ids = JsonValue::Array(vec![JsonValue::Unsigned(3), JsonValue::Unsigned(4294967295)]);
    let r = request(
        "routeNodes",
        vec![
            ("nodeIds", ids),
            ("onlySpeakers", JsonValue::Bool(true)),
            ("ignoreInputMedia", JsonValue::Bool(true)),
        ],
    );
    assert_eq!(
        r,
        Ok(Request::RouteNodes {
            id: 7,
            node_ids: vec![3, 4294967295],
            filter: RouteFilter {
                only_speakers: true,
                only_default_speakers: false,
                ignore_devices: false,
                ignore_virtual: false,
                ignore_input_media: true,
            },
        })
    );
}

#[test]
fn what_is_no_request_is_refused() {
    assert!(request("unknown", vec![]).is_err());
    assert!(request("routeNodes", vec![]).is_err());
    assert!(request("routeNodes", vec![("nodeIds", text("x"))]).is_err());
    let too_large = JsonValue::Array(vec![JsonValue::Unsigned(4294967296)]);
    assert!(request("routeNodes", vec![("nodeIds", too_large)]).is_err());
    let negative = JsonValue::Array(vec![JsonValue::Negative(-1)]);
    assert!(request("routeNodes", vec![("nodeIds", negative)]).is_err());
    let none = JsonValue::Array(vec![]);
    assert!(request("routeNodes", vec![("nodeIds", none), ("onlySpeakers", JsonValue::Null)]).is_err());
    assert!(request("setVirtualMicMute", vec![]).is_err());
    assert!(request("listShareableNodes", vec![("includeDevices", text("yes"))]).is_err());
    assert!(read_request(&object(vec![("method", text("dispose"))])).is_err());
    assert!(read_request(&object(vec![("id", JsonValue::Unsigned(1))])).is_err());
    assert!(read_request(&JsonValue::Null).is_err());
}

#[test]
fn refusals_bear_the_id_of_the_line() {
    match on_parsed(Ok(object(vec![("id", JsonValue::Unsigned(9)), ("method", text("x"))]))) {
        LineStep::Refuse { id, error } => {
            assert_eq!(id, 9);
            assert_eq!(error, "invalid request: Error");
        }
        other => panic!("{:?}", other),
    }
    assert!(matches!(on_parsed(Err(JsonError)), LineStep::Refuse { id: 0, .. }));
    assert!(matches!(
        on_parsed(Ok(object(vec![("id", JsonValue::Unsigned(9)), ("method", text("dispose"))]))),
        LineStep::Handle(Request::Dispose { id: 9 })
    ));
    assert_eq!(request_id(&object(vec![("id", text("9"))])), 0);
    assert_eq!(request_id(&object(vec![])), 0);
    assert_eq!(request_id(&JsonValue::Array(vec![])), 0);
}

#[test]
fn answers_tell_results_and_errors() {
    assert_eq!(write_result(3, Ok(true)), Response::Success { id: 3, result: true });
    let r: Response<bool> = write_result(3, Err(BackendError::Unsupported));
    assert_eq!(
        r,
        Response::Error {
            id: 3,
            error: "PipeWire was not detected as the active audio server".to_string(),
        }
    );
}

#[test]
fn only_dispose_ends_the_program() {
    assert!(!goes_on_after(&Request::Dispose { id: 1 }));
    assert!(goes_on_after(&Request::ClearRoutes { id: 1 }));
}

#[test]
fn messages_are_told_or_read() {
    assert!(matches!(
        on_message(IncomingMessage::GraphChanged),
        MessageStep::Tell("graphChanged")
    ));
    assert!(matches!(on_message(IncomingMessage::MonitorDied), MessageStep::Tell("monitorDied")));
    assert!(matches!(on_message(IncomingMessage::StdinClosed), MessageStep::Exit));
    match on_message(IncomingMessage::Request("x".to_string())) {
        MessageStep::Read(line) => assert_eq!(line, "x"),
        other => panic!("{:?}", other),
    }
    assert!(matches!(message_of(&BackendEvent::GraphChanged), Some(IncomingMessage::GraphChanged)));
    assert!(message_of(&BackendEvent::DefaultSinkChanged(None)).is_none());
}

#[test]
fn blank_lines_say_nothing() {
    assert!(!is_line(""));
    assert!(!is_line(" \t\r"));
    assert!(is_line(" {"));
}

#[test]
fn a_busy_graph_is_told_of_after_a_pause() {
    let mut watch = MonitorWatch::new();
    assert!(!watch.on_line("something else", 10));
    assert!(watch.on_line("  type: PipeWire:Interface:Node", 10));
    assert!(!watch.on_line("type: PipeWire:Interface:Port", 400_000_010));
    assert!(watch.on_line("type: PipeWire:Interface:Port", 400_000_011));
    assert!(!watch.on_line("type: PipeWire:Interface:Link", 900_000_000));
}

#[test]
fn arguments_are_read() {
    let parsed = parse_args(&strings(&[
        "--sink-prefix",
        "p",
        "--sink-description",
        "d",
        "--virtual-mic",
        "--virtual-mic-name",
        "m",
        "--virtual-mic-description",
        "md",
        "--legacy-backend",
    ]));
    assert_eq!(parsed.config.sink_prefix, "p");
    assert_eq!(parsed.config.sink_description, "d");
    assert!(parsed.config.virtual_mic);
    assert_eq!(parsed.config.virtual_mic_name, Some("m".to_string()));
    assert_eq!(parsed.config.virtual_mic_description, Some("md".to_string()));
    assert!(!parsed.config.sink_becomes_default);
    assert_eq!(parsed.unknown, strings(&["--legacy-backend"]));
    assert!(!parsed.help);
}

#[test]
fn arguments_without_values_and_help() {
    let parsed = parse_args(&strings(&["--virtual-mic", "--sink-prefix"]));
    assert_eq!(parsed.config.sink_prefix, "audio-share");
    assert!(parsed.config.virtual_mic);
    let parsed = parse_args(&strings(&["x", "--help", "y", "--virtual-mic"]));
    assert!(parsed.help);
    assert_eq!(parsed.unknown, strings(&["x"]));
    assert!(!parsed.config.virtual_mic);
    assert!(parse_args(&strings(&["-h"])).help);
    let parsed = parse_args(&strings(&["--sink-prefix", "--help"]));
    assert!(!parsed.help);
    assert_eq!(parsed.config.sink_prefix, "--help");
    assert!(has_flag(&strings(&["a", "--legacy-backend"]), "--legacy-backend"));
    assert!(!has_flag(&strings(&["a"]), "--legacy-backend"));
}

#[test]
fn repeated_members_must_all_be_readable() {
    let number = |n: u64| JsonValue::Unsigned(n);
    let dispose = |ids: Vec<JsonValue>| {
        let mut list = vec![("method", text("dispose"))];
        list.extend(ids.into_iter().map(|id| ("id", id)));
        object(list)
    };
    assert_eq!(read_request(&dispose(vec![number(1), number(2)])), Ok(Request::Dispose { id: 2 }));
    assert!(read_request(&dispose(vec![text("1"), number(2)])).is_err());
    assert!(read_request(&dispose(vec![number(2), JsonValue::Null])).is_err());
    assert_eq!(request_id(&dispose(vec![number(1), number(2)])), 2);
    assert_eq!(request_id(&dispose(vec![text("1"), number(2)])), 0);
    assert_eq!(request_id(&dispose(vec![JsonValue::Null, number(2)])), 2);
    assert_eq!(request_id(&dispose(vec![number(2), JsonValue::Null])), 0);
    let ids = |list: Vec<JsonValue>| ("nodeIds", JsonValue::Array(list));
    assert!(request("routeNodes", vec![ids(vec![text("3")]), ids(vec![number(3)])]).is_err());
    match request("routeNodes", vec![ids(vec![number(3)]), ids(vec![number(4)])]) {
        Ok(Request::RouteNodes { node_ids, .. }) => assert_eq!(node_ids, vec![4]),
        other => panic!("{:?}", other),
    }
    let flag = |b: JsonValue| ("includeDevices", b);
    assert!(request(
        "listShareableNodes",
        vec![flag(JsonValue::Null), flag(JsonValue::Bool(true))]
    )
    .is_err());
    assert!(request("dispose", vec![("method", JsonValue::Null)]).is_err());
    assert_eq!(request("dispose", vec![("mute", text("x"))]), Ok(Request::Dispose { id: 7 }));
}

#[test]
fn the_default_setup() {
    let c = PatchbayConfig::default();
    assert_eq!(c.sink_prefix, "audio-share");
    assert_eq!(c.sink_description, "Virtual Audio Share");
    assert!(!c.virtual_mic && !c.sink_becomes_default);
    assert_eq!(c.virtual_mic_name, None);
    assert_eq!(c.virtual_mic_description, None);
}

#[test]
fn a_default_sink_goes_without_a_microphone() {
    let mut c = PatchbayConfig::default();
    c.virtual_mic = true;
    assert!(settle(&c).virtual_mic);
    c.sink_becomes_default = true;
    assert!(!settle(&c).virtual_mic);
    assert!(settle(&c).sink_becomes_default);
    c.virtual_mic = false;
    c.virtual_mic_name = Some("m".to_string());
    assert_eq!(settle(&c).virtual_mic_name, Some("m".to_string()));
    c.sink_becomes_default = false;
    assert_eq!(settle(&c).virtual_mic_name, Some("m".to_string()));
}

#[test]
fn names_are_unique() {
    assert_eq!(make_unique_name("audio-share", 12, 3), "audio-share-12-3");
    assert!(make_unique_name("a", 1, 1) != make_unique_name("a", 1, 2));
    assert!(make_unique_name("a-1-1", 1, 2) != make_unique_name("a", 1, 1));
}

#[test]
fn sessions_are_numbered_from_one() {
    let mut numbers = SessionCounter::new();
    assert_eq!((numbers.take(), numbers.take(), numbers.take()), (1, 2, 3));
    numbers.next = u64::MAX;
    assert_eq!((numbers.take(), numbers.take()), (u64::MAX, 0));
}

#[test]
fn lines_nest_to_any_depth() {
    let deep = format!("{}{}", "[".repeat(200_000), "]".repeat(200_000));
    let line = format!("{{\"method\": \"dispose\", \"id\": 7, \"more\": {deep}}}");
    assert_eq!(handled(&line), Request::Dispose { id: 7 });
    let line = format!("{{\"method\": \"routeNodes\", \"id\": 8, \"nodeIds\": {deep}}}");
    assert_eq!(refused(&line), 8);
    assert_eq!(refused(&deep), 0);
}

fn handled(line: &str) -> Request {
    match on_line(line) {
        LineStep::Handle(request) => request,
        other => panic!("{:?}", other),
    }
}

fn refused(line: &str) -> u64 {
    match on_line(line) {
        LineStep::Refuse { id, error } => {
            assert_eq!(error, "invalid request: Error");
            id
        }
        other => panic!("{:?}", other),
    }
}

#[test]
fn lines_are_read_as_they_come() {
    assert_eq!(handled("{\"id\":1,\"method\":\"hasPipeWire\"}"), Request::HasPipeWire { id: 1 });
    assert_eq!(
        handled(" { \"method\" : \"list\\u0053hareableNodes\", \"id\": 18446744073709551615 } "),
        Request::ListShareableNodes { id: 18446744073709551615, include_devices: false }
    );
    assert_eq!(
        handled("{\"method\":\"routeNodes\",\"id\":2,\"nodeIds\":[5,0],\"ignoreVirtual\":true,\"x\":[{}]}"),
        Request::RouteNodes {
            id: 2,
            node_ids: vec![5, 0],
            filter: RouteFilter {
                only_speakers: false,
                only_default_speakers: false,
                ignore_devices: false,
                ignore_virtual: true,
                ignore_input_media: false,
            },
        }
    );
    assert_eq!(
        handled("{\"id\":1,\"id\":3,\"method\":\"dispose\"}"),
        Request::Dispose { id: 3 }
    );
}

#[test]
fn lines_that_are_no_requests_are_refused() {
    assert_eq!(refused("hello"), 0);
    assert_eq!(refused("{\"id\":4"), 0);
    assert_eq!(refused("{\"id\":4}"), 4);
    assert_eq!(refused("{\"id\":4,\"method\":\"x\"}"), 4);
    assert_eq!(refused("{\"id\":-4,\"method\":\"dispose\"}"), 0);
    assert_eq!(refused("{\"id\":4.0,\"method\":\"dispose\"}"), 0);
    assert_eq!(refused("{\"id\":null,\"method\":\"dispose\"}"), 0);
    assert_eq!(refused("[]"), 0);
}
