use intent_runtime::adapters::{
    native_reply_header, native_status_error,
    parse_netifd_devices, parse_netifd_interfaces, strict_response_json, parse_netifd_wireless, parse_uci_get, read_only_method, JsonValue,
    ObservationError, ReadOnlyUbus, UbusTransport,
};
use intent_runtime::state::{Completeness, ConfigField};
use std::cell::RefCell;
use std::collections::VecDeque;

const READ_PERMISSIONS: [(&str, &str); 5] = [
    ("uci", "get"),
    ("uci", "changes"),
    ("network.interface", "dump"),
    ("network.device", "status"),
    ("network.wireless", "status"),
];
const WRITE_METHODS: [&str; 7] = ["set", "add", "delete", "commit", "apply", "confirm", "rollback"];

fn s(v: &str) -> JsonValue {
    JsonValue::String(v.to_string())
}
fn n(v: u64) -> JsonValue {
    JsonValue::Number(Some(v))
}
fn b(v: bool) -> JsonValue {
    JsonValue::Bool(v)
}
fn arr(items: Vec<JsonValue>) -> JsonValue {
    JsonValue::Array(items)
}
fn obj(entries: Vec<(&str, JsonValue)>) -> JsonValue {
    JsonValue::Object(entries.into_iter().map(|(k, v)| (k.to_string(), v)).collect())
}
fn text(v: &JsonValue, key: &str) -> Option<String> {
    match v.get(key) {
        Some(JsonValue::String(t)) => Some(t.clone()),
        _ => None,
    }
}

struct Call {
    object: String,
    method: String,
    requested_object: Option<String>,
    requested_function: Option<String>,
    session: Option<String>,
}

struct Mock {
    calls: RefCell<Vec<Call>>,
    limits: RefCell<Vec<(u64, usize)>>,
    replies: RefCell<VecDeque<Result<JsonValue, ObservationError>>>,
}

impl Mock {
    fn new(replies: Vec<Result<JsonValue, ObservationError>>) -> Self {
        Mock { calls: RefCell::new(Vec::new()), limits: RefCell::new(Vec::new()), replies: RefCell::new(replies.into()) }
    }
}

impl UbusTransport for Mock {
    fn invoke(&self, object: &str, method: &str, request: &JsonValue, timeout_ms: u64, max_response_bytes: usize)
        -> Result<JsonValue, ObservationError> {
        self.calls.borrow_mut().push(Call {
            object: object.into(),
            method: method.into(),
            requested_object: text(request, "object"),
            requested_function: text(request, "function"),
            session: text(request, "ubus_rpc_session"),
        });
        self.limits.borrow_mut().push((timeout_ms, max_response_bytes));
        self.replies.borrow_mut().pop_front().unwrap_or_else(|| Err(ObservationError::Unavailable("unexpected call".into())))
    }

    fn now_ms(&self) -> u64 {
        1_000
    }
}

fn uci_values() -> JsonValue {
    obj(vec![(
        "values",
        obj(vec![
            ("wan", obj(vec![(".type", s("interface")), (".name", s("wan")), (".index", n(2)), ("proto", s("dhcp"))])),
            (
                "lan",
                obj(vec![
                    (".type", s("interface")),
                    (".name", s("lan")),
                    (".index", n(1)),
                    ("password", s("leak")),
                    ("secret_list", arr(vec![s("leak1"), s("leak2")])),
                    ("dns", arr(vec![s("1.1.1.1"), s("8.8.8.8")])),
                ]),
            ),
        ]),
    )])
}

fn access(granted: bool) -> Result<JsonValue, ObservationError> {
    Ok(obj(vec![("access", b(granted))]))
}

fn authorization_replies() -> Vec<Result<JsonValue, ObservationError>> {
    let mut replies: Vec<_> = READ_PERMISSIONS.iter().map(|_| access(true)).collect();
    replies.extend(WRITE_METHODS.iter().map(|_| access(false)));
    replies
}

fn reader(mock: Mock) -> ReadOnlyUbus<Mock> {
    ReadOnlyUbus::with_limits(mock, "session-a".to_string(), 1_000, 4096).unwrap()
}

#[test]
fn uci_parser_preserves_index_and_redacts_before_serialization() {
    let sections = parse_uci_get("network", &uci_values()).unwrap();
    assert_eq!(sections.iter().map(|s| s.section.as_str()).collect::<Vec<_>>(), ["lan", "wan"]);
    assert!(sections[0].fields.iter().any(|f| matches!(f, ConfigField::Redacted { name } if name == "password")));
    assert!(sections[0].fields.iter().any(|f| matches!(f, ConfigField::Redacted { name } if name == "secret_list")));
    assert!(!format!("{sections:?}").contains("leak"));
}

#[test]
fn malformed_uci_never_becomes_empty_success() {
    assert!(parse_uci_get("network", &obj(vec![("values", obj(vec![("lan", obj(vec![(".type", s("interface"))]))]))])).is_err());
    assert!(parse_uci_get(
        "network",
        &obj(vec![("values", obj(vec![("lan", obj(vec![(".type", s("interface")), (".index", n(1)), ("bad", b(true))]))]))])
    )
    .is_err());
}

#[test]
fn committed_read_checks_staging_before_and_after() {
    let mut replies = authorization_replies();
    replies.extend([Ok(obj(vec![("changes", arr(vec![]))])), Ok(uci_values()), Ok(obj(vec![("changes", arr(vec![]))]))]);
    let ubus = reader(Mock::new(replies));
    assert_eq!(ubus.committed_sections("network").unwrap().len(), 2);
    let mut replies = authorization_replies();
    replies.extend([Ok(obj(vec![("changes", arr(vec![s("network.lan.proto=dhcp")]))]))]);
    let ubus = reader(Mock::new(replies));
    assert!(matches!(ubus.committed_sections("network"), Err(ObservationError::Unavailable(_))));
}

#[test]
fn only_fixed_read_methods_are_permitted() {
    assert!(read_only_method("uci", "get"));
    for method in ["set", "add", "delete", "commit", "apply", "confirm", "rollback"] {
        assert!(!read_only_method("uci", method));
    }
}

#[test]
fn session_requires_every_read_permission_and_rejects_every_uci_write() {
    let ubus = reader(Mock::new(authorization_replies()));
    ubus.verify_read_session().unwrap();
    let calls = ubus.transport().calls.borrow();
    assert_eq!(calls.len(), READ_PERMISSIONS.len() + WRITE_METHODS.len());
    for (call, (object, expected_method)) in calls[..READ_PERMISSIONS.len()].iter().zip(READ_PERMISSIONS) {
        assert_eq!(call.method, "access");
        assert_eq!(call.requested_object.as_deref(), Some(object));
        assert_eq!(call.requested_function.as_deref(), Some(expected_method));
    }
    let denied_read = Mock::new(vec![access(false)]);
    assert!(matches!(reader(denied_read).verify_read_session(), Err(ObservationError::Denied(_))));
    let mut replies = authorization_replies();
    replies[READ_PERMISSIONS.len()] = access(true);
    assert!(matches!(reader(Mock::new(replies)).verify_read_session(), Err(ObservationError::Denied(_))));
}

#[test]
fn netifd_calls_authorize_then_send_session_and_use_assignment_limits() {
    let mut replies = authorization_replies();
    replies.push(Ok(obj(vec![("interface", arr(vec![]))])));
    let reader = reader(Mock::new(replies));
    assert!(matches!(reader.interfaces().unwrap().completeness, Completeness::Complete));
    let calls = reader.transport().calls.borrow();
    let last = calls.last().unwrap();
    assert_eq!(last.object, "network.interface");
    assert_eq!(last.session.as_deref(), Some("session-a"));
    let limits = reader.transport().limits.borrow();
    assert!(limits.iter().all(|(_, bytes)| *bytes == 4096));
    assert!(limits.windows(2).all(|pair| pair[1].0 <= pair[0].0));
    assert!(ReadOnlyUbus::with_limits(Mock::new(vec![]), "s".to_string(), 0, 1).is_err());
    assert!(ReadOnlyUbus::with_limits(Mock::new(vec![]), "s".to_string(), 1_000, 0).is_err());
}

#[test]
fn netifd_parsers_reject_malformed_and_only_complete_typed_data() {
    let interfaces = parse_netifd_interfaces(&obj(vec![(
        "interface",
        arr(vec![obj(vec![
            ("interface", s("lan")),
            ("up", b(true)),
            ("device", s("br-lan")),
            ("ipv4-address", arr(vec![obj(vec![("address", s("192.0.2.1")), ("mask", n(24))])])),
        ])]),
    )]))
    .unwrap();
    assert!(parse_netifd_interfaces(&obj(vec![("interface", arr(vec![obj(vec![("interface", s("lan")), ("up", s("yes"))])]))]))
        .is_err());
    assert!(matches!(interfaces.completeness, Completeness::Partial { .. }));
    let complete = parse_netifd_interfaces(&obj(vec![(
        "interface",
        arr(vec![obj(vec![
            ("interface", s("wan")),
            ("up", b(false)),
            ("ipv4-address", arr(vec![])),
            ("ipv6-address", arr(vec![])),
        ])]),
    )]))
    .unwrap();
    assert!(matches!(complete.completeness, Completeness::Complete));
    assert!(parse_netifd_devices(&obj(vec![("br-lan", obj(vec![("present", b(true)), ("bridge-members", arr(vec![s("lan1")]))]))]))
        .is_ok());
    assert!(parse_netifd_devices(&obj(vec![("devices", arr(vec![]))])).is_err());
    assert!(parse_netifd_wireless(&obj(vec![("radio0", obj(vec![("up", b(true)), ("pending", b(false))]))])).is_ok());
}

#[test]
fn a_refused_method_never_reaches_the_transport() {
    let ubus = reader(Mock::new(vec![access(false)]));
    assert!(ubus.verify_read_session().is_err());
    assert_eq!(ubus.transport().calls.borrow().len(), 1);
    assert!(!read_only_method("network.interface", "up"));
    assert!(read_only_method("network.interface", "dump"));
    assert!(read_only_method("session", "access"));
}

#[test]
fn invalid_session_ids_are_refused() {
    assert!(ReadOnlyUbus::with_limits(Mock::new(vec![]), "".to_string(), 1_000, 1).is_err());
    assert!(ReadOnlyUbus::with_limits(Mock::new(vec![]), "a\nb".to_string(), 1_000, 1).is_err());
    assert!(ReadOnlyUbus::with_limits(Mock::new(vec![]), "x".repeat(129), 1_000, 1).is_err());
    assert!(ReadOnlyUbus::with_limits(Mock::new(vec![]), "x".repeat(128), 1_000, 1).is_ok());
}

#[test]
fn native_worker_status_codes_map_to_observation_errors() {
    assert_eq!(native_status_error(7001), ObservationError::ResponseTooLarge);
    assert_eq!(native_status_error(7002), ObservationError::Timeout);
    assert_eq!(native_status_error(7003), ObservationError::Denied("ubus permission denied".into()));
    assert_eq!(native_status_error(7004), ObservationError::Malformed("multipart, empty or invalid native ubus reply".into()));
    assert_eq!(native_status_error(-5), ObservationError::Unavailable("libubus status -5".into()));
    assert_eq!(native_status_error(12), ObservationError::Unavailable("libubus status 12".into()));
}

#[test]
fn native_worker_reply_header_is_checked_before_the_payload() {
    assert_eq!(native_reply_header(&[0, 0, 0, 0, 0, 0, 1, 0], 256), Ok(256));
    assert_eq!(native_reply_header(&[0, 0, 0, 0, 0, 0, 1, 1], 256), Err(ObservationError::ResponseTooLarge));
    assert_eq!(native_reply_header(&[0, 0, 0x1b, 0x5a, 0, 0, 0, 0], 256), Err(ObservationError::Timeout));
    assert_eq!(
        native_reply_header(&[0, 0, 0x1b, 0x5a, 0, 0, 0, 1], 256),
        Err(ObservationError::Malformed("native worker error included payload".into()))
    );
    assert_eq!(native_reply_header(&[0xff, 0xff, 0xff, 0xff, 0, 0, 0, 0], 256), Err(ObservationError::Unavailable("libubus status -1".into())));
}

#[test]
fn response_json_rejects_duplicate_keys_at_any_depth() {
    // {"access":true,"access":false}
    assert!(strict_response_json(obj(vec![("access", b(true)), ("access", b(false))])).is_err());
    // {"nested":{"x":1,"x":2}}
    assert!(strict_response_json(obj(vec![("nested", obj(vec![("x", n(1)), ("x", n(2))]))])).is_err());
    // {"access":true}
    assert!(strict_response_json(obj(vec![("access", b(true))])).is_ok());
}

#[test]
fn duplicate_keys_inside_arrays_are_rejected_and_reported_as_malformed() {
    let nested = arr(vec![obj(vec![("a", n(1))]), obj(vec![("b", s("x")), ("b", s("y"))])]);
    match strict_response_json(obj(vec![("list", nested)])) {
        Err(ObservationError::Malformed(m)) => assert_eq!(m, "invalid or duplicate-key libubus JSON"),
        _ => panic!("duplicate key inside an array must be refused"),
    }
    let fine = obj(vec![("a", arr(vec![obj(vec![("a", n(1))]), obj(vec![("a", n(2))])])), ("b", JsonValue::Null)]);
    assert!(strict_response_json(fine).is_ok());
}
