use dredd_hooks::cli::{dredd_arguments, select_hook_targets};
use dredd_hooks::integration::{FIRST_HOOK_PORT, INTEGRATION_PORT};
use dredd_hooks::IntegrationServer;

#[test]
fn hook_files_get_consecutive_ports() {
    let mut srv: IntegrationServer<&str> = IntegrationServer::new();
    assert_eq!(srv.next_port(), 61322);
    assert_eq!(FIRST_HOOK_PORT, 61322);
    assert_eq!(INTEGRATION_PORT, 61321);
    srv.add_runner("first");
    assert_eq!(srv.next_port(), 61323);
    srv.add_runner("second");
    assert_eq!(srv.ports(), vec![61322, 61323]);
    assert_eq!(srv.into_runners(), vec![(61322, "first"), (61323, "second")]);
}

#[test]
fn messages_pass_through_every_hook_server_in_order() {
    let mut srv: IntegrationServer<()> = IntegrationServer::new();
    srv.add_runner(());
    srv.add_runner(());
    let mut relay = srv.relay("{\"a\":1}".to_string());
    assert_eq!(relay.next_port(), Some(61322));
    assert_eq!(relay.outgoing(), b"{\"a\":1}\n".to_vec());
    relay.receive("{\"a\":2}\n".to_string());
    assert_eq!(relay.next_port(), Some(61323));
    assert_eq!(relay.outgoing(), b"{\"a\":2}\n".to_vec());
    relay.receive("{\"a\":3}\n".to_string());
    assert_eq!(relay.next_port(), None);
    assert_eq!(relay.outgoing(), b"{\"a\":3}\n".to_vec());
    assert_eq!(relay.into_response(), "{\"a\":3}");
}

#[test]
fn without_hook_servers_the_message_comes_back() {
    let srv: IntegrationServer<()> = IntegrationServer::new();
    let relay = srv.relay("ping".to_string());
    assert_eq!(relay.next_port(), None);
    assert_eq!(relay.into_response(), "ping");
}

#[test]
fn reply_loses_its_last_character_only() {
    let mut srv: IntegrationServer<()> = IntegrationServer::new();
    srv.add_runner(());
    let mut relay = srv.relay("x".to_string());
    relay.receive("no line feed".to_string());
    assert_eq!(relay.into_response(), "no line fee");
    let mut relay = srv.relay("x".to_string());
    relay.receive(String::new());
    assert_eq!(relay.into_response(), "");
}

#[test]
fn dredd_gets_blueprint_url_language_and_hookfiles() {
    let args = dredd_arguments(
        "test.apib".to_string(),
        "http://127.0.0.1:3000".to_string(),
        None,
        vec!["target/debug/a".to_string(), "target/debug/b".to_string()],
    );
    assert_eq!(
        args,
        vec![
            "test.apib",
            "http://127.0.0.1:3000",
            "--language=rust",
            "--hookfiles=target/debug/a",
            "--hookfiles=target/debug/b",
        ]
    );
    let args = dredd_arguments("b".to_string(), "u".to_string(), Some("dredd-hooks-rust".to_string()), vec![]);
    assert_eq!(args, vec!["b", "u", "--language=dredd-hooks-rust"]);
}

#[test]
fn hook_targets_keep_the_strings() {
    let targets = select_hook_targets(vec![Some("dredd_test_hooks".to_string()), None, Some("more".to_string())]);
    assert_eq!(targets, vec!["dredd_test_hooks", "more"]);
    assert!(select_hook_targets(vec![None]).is_empty());
}

#[test]
fn default_integration_server_starts_at_port_zero() {
    let srv: IntegrationServer<()> = IntegrationServer::default();
    assert_eq!(srv.next_port(), 0);
    assert!(srv.ports().is_empty());
}
