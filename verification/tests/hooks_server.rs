use dredd_hooks::hooks::listen_port;
use dredd_hooks::{DispatchError, EventType, HookMessage, HooksServer, MultiTransaction, SingleTransaction, Transaction};
use serde_json::Value;

type MultiHook = Box<dyn FnMut(Vec<Transaction>) -> Vec<Transaction>>;
type SingleHook = Box<dyn FnMut(Transaction) -> Transaction>;
type Server = HooksServer<MultiHook, SingleHook>;

const KEY: &str = "hooks_modifications";

fn note(mut tr: Transaction, text: &str) -> Transaction {
    let entry = tr.entry(KEY).or_insert(Value::Array(Vec::new()));
    entry.as_array_mut().unwrap().push(Value::String(text.to_string()));
    tr
}

fn notes(tr: &Transaction) -> Vec<String> {
    match tr.get(KEY) {
        Some(Value::Array(items)) => items.iter().map(|v| v.as_str().unwrap().to_string()).collect(),
        _ => Vec::new(),
    }
}

fn named(name: &str) -> Transaction {
    let mut tr = Transaction::new();
    tr.insert("name".to_string(), Value::String(name.to_string()));
    tr
}

fn single(event: EventType, data: Transaction) -> HookMessage {
    HookMessage::Each(SingleTransaction { event, uuid: "1234-abcd".to_string(), data })
}

fn answer_data(answer: Result<HookMessage, DispatchError>) -> Transaction {
    match answer {
        Ok(HookMessage::Each(o)) => o.data,
        _ => panic!("expected an answer about a single transaction"),
    }
}

fn execution_order_server() -> Server {
    let mut hooks: Server = HooksServer::new();
    hooks.before("/message > GET", Box::new(|tr| note(tr, "before modification")));
    hooks.after("/message > GET", Box::new(|tr| note(tr, "after modification")));
    hooks.before_validation("/message > GET", Box::new(|tr| note(tr, "before validation modification")));
    hooks.before_all(Box::new(|mut trs: Vec<Transaction>| {
        let first = trs.remove(0);
        trs.insert(0, note(first, "before all modification"));
        trs
    }));
    hooks.after_all(Box::new(|mut trs: Vec<Transaction>| {
        let first = trs.remove(0);
        trs.insert(0, note(first, "after all modification"));
        trs
    }));
    hooks.before_each(Box::new(|tr| note(tr, "before each modification")));
    hooks.before_each_validation(Box::new(|tr| note(tr, "before each validation modification")));
    hooks.after_each(Box::new(|tr| note(tr, "after each modification")));
    hooks
}

#[test]
fn it_works() {
}

#[test]
fn before_each_runs_general_then_named_hooks() {
    let mut hooks = execution_order_server();
    let data = answer_data(hooks.dispatch(single(EventType::BeforeEach, named("/message > GET"))));
    assert_eq!(notes(&data), vec!["before each modification", "before modification"]);
}

#[test]
fn before_each_validation_runs_general_then_named_hooks() {
    let mut hooks = execution_order_server();
    let data = answer_data(hooks.dispatch(single(EventType::BeforeEachValidation, named("/message > GET"))));
    assert_eq!(notes(&data), vec!["before each validation modification", "before validation modification"]);
}

#[test]
fn after_each_runs_named_then_general_hooks() {
    let mut hooks = execution_order_server();
    let data = answer_data(hooks.dispatch(single(EventType::AfterEach, named("/message > GET"))));
    assert_eq!(notes(&data), vec!["after modification", "after each modification"]);
}

#[test]
fn all_events_run_hooks_for_all_transactions() {
    let mut hooks = execution_order_server();
    for (event, text) in [(EventType::BeforeAll, "before all modification"), (EventType::AfterAll, "after all modification")] {
        let message = HookMessage::All(MultiTransaction {
            event,
            uuid: "u".to_string(),
            data: vec![named("/message > GET"), named("other")],
        });
        match hooks.dispatch(message) {
            Ok(HookMessage::All(o)) => {
                assert_eq!(o.event, event);
                assert_eq!(o.uuid, "u");
                assert_eq!(o.data.len(), 2);
                assert_eq!(notes(&o.data[0]), vec![text]);
                assert_eq!(notes(&o.data[1]), Vec::<String>::new());
            }
            _ => panic!("expected an answer about all transactions"),
        }
    }
}

#[test]
fn answer_keeps_event_and_uuid() {
    let mut hooks = execution_order_server();
    match hooks.dispatch(single(EventType::AfterEach, named("x"))) {
        Ok(HookMessage::Each(o)) => {
            assert_eq!(o.event, EventType::AfterEach);
            assert_eq!(o.uuid, "1234-abcd");
            assert_eq!(notes(&o.data), vec!["after each modification"]);
        }
        _ => panic!("expected an answer"),
    }
}

#[test]
fn hooks_of_other_names_do_not_run() {
    let mut hooks = execution_order_server();
    let data = answer_data(hooks.dispatch(single(EventType::BeforeEach, named("/other > POST"))));
    assert_eq!(notes(&data), vec!["before each modification"]);
}

#[test]
fn hooks_of_one_stage_run_in_registration_order() {
    let mut hooks: Server = HooksServer::new();
    hooks.before("t", Box::new(|tr| note(tr, "first")));
    hooks.before("t", Box::new(|tr| note(tr, "second")));
    hooks.before_each(Box::new(|tr| note(tr, "each 1")));
    hooks.before_each(Box::new(|tr| note(tr, "each 2")));
    let data = answer_data(hooks.dispatch(single(EventType::BeforeEach, named("t"))));
    assert_eq!(notes(&data), vec!["each 1", "each 2", "first", "second"]);
}

#[test]
fn named_hooks_follow_the_name_set_by_before_each_hooks() {
    let mut hooks: Server = HooksServer::new();
    hooks.before_each(Box::new(|mut tr: Transaction| {
        tr.insert("name".to_string(), Value::String("renamed".to_string()));
        tr
    }));
    hooks.before("original", Box::new(|tr| note(tr, "original")));
    hooks.before("renamed", Box::new(|tr| note(tr, "renamed")));
    let data = answer_data(hooks.dispatch(single(EventType::BeforeEach, named("original"))));
    assert_eq!(notes(&data), vec!["renamed"]);
}

#[test]
fn server_without_hooks_answers_with_the_same_data() {
    let mut hooks: Server = HooksServer::new();
    let mut tr = named("t");
    tr.insert("fail".to_string(), Value::String("no".to_string()));
    let data = answer_data(hooks.dispatch(single(EventType::BeforeEach, tr.clone())));
    assert_eq!(data, tr);
}

#[test]
fn hook_can_fail_a_transaction() {
    let mut hooks: Server = HooksServer::new();
    hooks.before("/message > GET", Box::new(|mut tr: Transaction| {
        tr.insert("fail".to_owned(), "Yay! Failed!".into());
        tr
    }));
    let data = answer_data(hooks.dispatch(single(EventType::BeforeEach, named("/message > GET"))));
    assert_eq!(data.get("fail"), Some(&Value::String("Yay! Failed!".to_string())));
}

#[test]
fn transaction_without_name_is_refused() {
    let mut hooks = execution_order_server();
    for event in [EventType::BeforeEach, EventType::BeforeEachValidation] {
        let message = single(event, Transaction::new());
        assert!(message.is_dispatchable());
        let r = hooks.dispatch(message);
        assert!(matches!(r, Err(DispatchError::MissingName)));
    }
    assert!(!single(EventType::AfterEach, Transaction::new()).is_dispatchable());
    let mut not_a_string = Transaction::new();
    not_a_string.insert("name".to_string(), Value::Bool(true));
    let r = hooks.dispatch(single(EventType::BeforeEach, not_a_string));
    assert!(matches!(r, Err(DispatchError::MissingName)));
}

#[test]
fn events_without_hooks_of_their_own_are_not_answered() {
    for event in [EventType::Before, EventType::BeforeValidation, EventType::After, EventType::BeforeAll, EventType::AfterAll] {
        assert!(!single(event, named("/message > GET")).is_dispatchable());
    }
    for event in [EventType::BeforeEach, EventType::BeforeEachValidation, EventType::AfterEach] {
        assert!(single(event, named("/message > GET")).is_dispatchable());
        let message = HookMessage::All(MultiTransaction { event, uuid: "u".to_string(), data: vec![] });
        assert!(!message.is_dispatchable());
    }
    for event in [EventType::BeforeAll, EventType::AfterAll] {
        let message = HookMessage::All(MultiTransaction { event, uuid: "u".to_string(), data: vec![] });
        assert!(message.is_dispatchable());
    }
}

#[test]
fn transaction_renamed_away_is_refused() {
    let mut hooks: Server = HooksServer::new();
    hooks.before_each(Box::new(|mut tr: Transaction| {
        tr.remove("name");
        tr
    }));
    let r = hooks.dispatch(single(EventType::BeforeEach, named("t")));
    assert!(matches!(r, Err(DispatchError::MissingName)));
}

#[test]
fn debug_string_counts_hooks() {
    let hooks = execution_order_server();
    assert_eq!(
        hooks.debug_string(),
        "HooksServer { hooks_before_all: 1, hooks_before_each: 1, hooks_before: 1, hooks_before_each_validation: 1, hooks_before_validation: 1, hooks_before_after: 1, hooks_before_after_each: 1, hooks_before_after_all: 1 }"
    );
    let mut hooks: Server = HooksServer::new();
    hooks.before("a", Box::new(|tr| tr));
    hooks.before("a", Box::new(|tr| tr));
    hooks.before("b", Box::new(|tr| tr));
    for _ in 0..12 {
        hooks.after_each(Box::new(|tr| tr));
    }
    assert_eq!(
        hooks.debug_string(),
        "HooksServer { hooks_before_all: 0, hooks_before_each: 0, hooks_before: 2, hooks_before_each_validation: 0, hooks_before_validation: 0, hooks_before_after: 0, hooks_before_after_each: 12, hooks_before_after_all: 0 }"
    );
}

#[test]
fn listen_port_refuses_what_is_no_tcp_port() {
    assert_eq!(listen_port(61322), Some(61322));
    assert_eq!(listen_port(0), Some(0));
    assert_eq!(listen_port(65535), Some(65535));
    assert_eq!(listen_port(65536 + 5), None);
}

#[test]
fn default_server_has_no_hooks() {
    let hooks: Server = HooksServer::default();
    assert_eq!(
        hooks.debug_string(),
        "HooksServer { hooks_before_all: 0, hooks_before_each: 0, hooks_before: 0, hooks_before_each_validation: 0, hooks_before_validation: 0, hooks_before_after: 0, hooks_before_after_each: 0, hooks_before_after_all: 0 }"
    );
}
