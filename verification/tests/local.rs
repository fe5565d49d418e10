use intent_runtime::adapters::{JsonValue, ObservationError, UbusTransport};
use intent_runtime::assurance::{Expectation, Outcome, Primitive, ProbeSource, ProbeSpec, ResourceLimits, UciFieldForm};
use intent_runtime::local::{execute, LocalObservationContext};
use intent_runtime::net::IpAddr;
use intent_runtime::protocol::DeviceBinding;
use std::cell::{Cell, RefCell};
use std::collections::VecDeque;
use std::rc::Rc;

fn s(v: &str) -> JsonValue {
    JsonValue::String(v.to_string())
}
fn n(v: u64) -> JsonValue {
    JsonValue::Number(Some(v))
}
fn b(v: bool) -> JsonValue {
    JsonValue::Bool(v)
}
fn arr(items: Vec<JsonValue>) -> JsonValue {
    JsonValue::Array(items)
}
fn obj(entries: Vec<(&str, JsonValue)>) -> JsonValue {
    JsonValue::Object(entries.into_iter().map(|(k, v)| (k.to_string(), v)).collect())
}

type Replies = Vec<Result<JsonValue, ObservationError>>;

struct Mock {
    replies: RefCell<VecDeque<Result<JsonValue, ObservationError>>>,
    calls: Rc<Cell<usize>>,
    clock: Cell<u64>,
    tick: u64,
}

impl Mock {
    fn new(replies: Replies) -> (Self, Rc<Cell<usize>>) {
        let calls = Rc::new(Cell::new(0));
        (Mock { replies: RefCell::new(replies.into()), calls: calls.clone(), clock: Cell::new(1_000), tick: 0 }, calls)
    }
}

impl UbusTransport for Mock {
    fn invoke(&self, _object: &str, _method: &str, _request: &JsonValue, _timeout_ms: u64, _max: usize)
        -> Result<JsonValue, ObservationError> {
        self.calls.set(self.calls.get() + 1);
        self.clock.set(self.clock.get() + self.tick);
        self.replies.borrow_mut().pop_front().unwrap_or_else(|| Err(ObservationError::Unavailable("unexpected call".into())))
    }

    fn now_ms(&self) -> u64 {
        self.clock.get()
    }
}

fn binding() -> DeviceBinding {
    DeviceBinding { device_id: "router-a".into(), profile_digest: "profile-a".into(), fencing_generation: 4 }
}

fn source() -> ProbeSource {
    ProbeSource { witness_id: "witness-a".into(), location: "lab".into(), bind_address: IpAddr::V4(192, 0, 2, 2), interface: None }
}

fn spec(expectation: Expectation) -> ProbeSpec {
    ProbeSpec {
        id: "probe-a".into(),
        primitive: match expectation {
            Expectation::NetifdInterface { .. } => Primitive::NetifdState,
            _ => Primitive::UciReadback,
        },
        device: binding(),
        source: source(),
        endpoint: None,
        expectation,
        limits: ResourceLimits { timeout_ms: 500, max_response_bytes: 4096, max_attempts: 1 },
        interval_ms: 60_000,
        depends_on: vec![],
        claims: vec![],
    }
}

fn context() -> LocalObservationContext {
    LocalObservationContext { device: binding(), source: source(), rpcd_session: "session-a".into() }
}

fn access() -> Replies {
    let mut r: Replies = (0..5).map(|_| Ok(obj(vec![("access", b(true))]))).collect();
    r.extend((0..7).map(|_| Ok(obj(vec![("access", b(false))]))));
    r
}

fn uci_reply() -> JsonValue {
    obj(vec![(
        "values",
        obj(vec![
            (
                "lan",
                obj(vec![
                    (".type", s("interface")),
                    (".name", s("lan")),
                    (".index", n(1)),
                    ("proto", s("dhcp")),
                    ("dns", arr(vec![s("1.1.1.1"), s("8.8.8.8")])),
                    ("password", s("secret")),
                ]),
            ),
            ("other", obj(vec![(".type", s("interface")), (".name", s("other")), (".index", n(2)), ("proto", s("static"))])),
        ]),
    )])
}

fn changes(staged: &[&str]) -> JsonValue {
    obj(vec![("changes", arr(staged.iter().map(|c| s(c)).collect()))])
}

fn uci_replies(staged: &[&str]) -> Replies {
    let mut r = access();
    r.extend([Ok(changes(staged)), Ok(uci_reply()), Ok(changes(staged))]);
    r
}

fn run(s: ProbeSpec, replies: Replies) -> (Outcome, usize) {
    let (mock, calls) = Mock::new(replies);
    (execute(&s, &context(), mock, 0).outcome, calls.get())
}

fn value(option: &str, form: UciFieldForm, values: Vec<&str>) -> Expectation {
    Expectation::UciValue {
        package: "network".into(),
        section: "lan".into(),
        option: option.into(),
        form,
        values: values.into_iter().map(String::from).collect(),
    }
}

fn section(section_type: &str) -> Expectation {
    Expectation::UciSection { package: "network".into(), section: "lan".into(), section_type: section_type.into() }
}

fn netifd(addresses: Vec<&str>) -> Expectation {
    Expectation::NetifdInterface { interface: "lan".into(), up: true, addresses: addresses.into_iter().map(String::from).collect() }
}

fn interface(ipv4: Vec<JsonValue>, ipv6: Option<Vec<JsonValue>>) -> JsonValue {
    let mut fields = vec![("interface", s("lan")), ("up", b(true)), ("ipv4-address", arr(ipv4))];
    if let Some(v6) = ipv6 {
        fields.push(("ipv6-address", arr(v6)));
    }
    obj(fields)
}

fn address(a: &str, mask: u64) -> JsonValue {
    obj(vec![("address", s(a)), ("mask", n(mask))])
}

#[test]
fn scalar_list_order_and_absence_are_distinct() {
    assert_eq!(run(spec(value("proto", UciFieldForm::Scalar, vec!["dhcp"])), uci_replies(&[])).0, Outcome::Success);
    assert_eq!(
        run(spec(value("dns", UciFieldForm::OrderedList, vec!["1.1.1.1", "8.8.8.8"])), uci_replies(&[])).0,
        Outcome::Success
    );
    assert_eq!(
        run(spec(value("dns", UciFieldForm::OrderedList, vec!["8.8.8.8", "1.1.1.1"])), uci_replies(&[])).0,
        Outcome::Violation
    );
    assert_eq!(run(spec(value("missing", UciFieldForm::Absent, vec![])), uci_replies(&[])).0, Outcome::Success);
}

#[test]
fn section_kind_redaction_staging_denial_and_malformed_are_not_success() {
    assert_eq!(run(spec(section("interface")), uci_replies(&[])).0, Outcome::Success);
    assert_eq!(run(spec(section("wrong")), uci_replies(&[])).0, Outcome::Violation);
    assert_eq!(run(spec(value("password", UciFieldForm::Scalar, vec!["secret"])), uci_replies(&[])).0, Outcome::Unsupported);
    assert_eq!(
        run(spec(value("proto", UciFieldForm::Scalar, vec!["dhcp"])), uci_replies(&["lan.proto=static"])).0,
        Outcome::Unavailable
    );
    let mut denied = access();
    denied[0] = Ok(obj(vec![("access", b(false))]));
    assert_eq!(run(spec(value("proto", UciFieldForm::Scalar, vec!["dhcp"])), denied).0, Outcome::Unavailable);
    let mut malformed = access();
    malformed.extend([
        Ok(obj(vec![("changes", arr(vec![]))])),
        Ok(obj(vec![("values", obj(vec![("lan", obj(vec![(".type", s("interface")), (".index", n(1)), ("proto", b(true))]))]))])),
        Ok(obj(vec![("changes", arr(vec![]))])),
    ]);
    assert_eq!(run(spec(value("proto", UciFieldForm::Scalar, vec!["dhcp"])), malformed).0, Outcome::MalformedResponse);
}

#[test]
fn mismatched_local_binding_or_source_does_zero_rpc() {
    for change in 0..3 {
        let mut c = context();
        match change {
            0 => c.device.profile_digest = "stale".into(),
            1 => c.device.fencing_generation = 3,
            _ => c.source.witness_id = "other".into(),
        }
        let (mock, calls) = Mock::new(vec![]);
        assert_eq!(execute(&spec(section("interface")), &c, mock, 0).outcome, Outcome::Unavailable);
        assert_eq!(calls.get(), 0);
    }
}

#[test]
fn timeout_and_netifd_exactness_never_promote_unknown() {
    assert_eq!(run(spec(section("interface")), vec![Err(ObservationError::Timeout)]).0, Outcome::Timeout);
    let s = spec(netifd(vec!["192.0.2.1/24"]));
    let mut r = access();
    r.push(Ok(obj(vec![("interface", arr(vec![interface(vec![address("192.0.2.1", 24)], Some(vec![]))]))])));
    assert_eq!(run(s.clone(), r).0, Outcome::Success);
    let mut r = access();
    r.push(Ok(obj(vec![("interface", arr(vec![interface(vec![address("192.0.2.1", 24)], None)]))])));
    assert_eq!(run(s.clone(), r).0, Outcome::Unavailable);
    let mut r = access();
    r.push(Ok(obj(vec![("interface", arr(vec![interface(vec![], Some(vec![])), interface(vec![], Some(vec![]))]))])));
    assert_eq!(run(s, r).0, Outcome::MalformedResponse);
}

#[test]
fn netifd_compares_ip_semantics_and_rejects_bad_prefixes_before_rpc() {
    let mut r = access();
    r.push(Ok(obj(vec![("interface", arr(vec![interface(vec![], Some(vec![address("2001:0db8:0:0:0:0:0:1", 64)]))]))])));
    assert_eq!(run(spec(netifd(vec!["2001:db8::1/64"])), r).0, Outcome::Success);
    let mut r = access();
    r.push(Ok(obj(vec![("interface", arr(vec![interface(vec![address("192.0.2.1", 24)], Some(vec![]))]))])));
    assert_eq!(run(spec(netifd(vec!["192.0.2.2/24"])), r).0, Outcome::Violation);
    for bad in ["192.0.2.1/33", "2001:db8::1/129", "192.0.2.1/bad", "192.0.2.1/24/1"] {
        let (outcome, calls) = run(spec(netifd(vec![bad])), vec![]);
        assert_eq!(outcome, Outcome::Unsupported);
        assert_eq!(calls, 0, "malformed {bad} reached RPC");
    }
}

#[test]
fn address_sets_ignore_order_and_repeats() {
    let mut r = access();
    r.push(Ok(obj(vec![(
        "interface",
        arr(vec![interface(vec![address("192.0.2.1", 24), address("198.51.100.1", 24)], Some(vec![]))]),
    )])));
    assert_eq!(run(spec(netifd(vec!["198.51.100.1/24", "192.0.2.1/24", "192.0.2.1/24"])), r).0, Outcome::Success);
}

#[test]
fn slow_observation_is_a_timeout() {
    let (mut mock, _) = Mock::new(uci_replies(&[]));
    mock.tick = 100;
    let result = execute(&spec(section("interface")), &context(), mock, 7);
    assert_eq!(result.outcome, Outcome::Timeout);
    assert_eq!(result.started_at_ms, 7);
    assert!(result.finished_at_ms >= 7 + 500);
}
