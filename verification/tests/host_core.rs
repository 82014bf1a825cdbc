use plugin_host::lifecycle::{sandbox_step, stop_fallback_action, SandboxEvent, SandboxState, StopAction};
use plugin_host::lock::{lock_file_outcome, lock_step, LockStep, DEFAULT_LOCK_RETRY_BUDGET};
use plugin_host::path::{join_path, resolve_exec_path, system_exec_name};
use plugin_host::pipe::{frame_message, unframe_message};
use plugin_host::router::{route_notification, PluginHandler, PluginNotification, RouterAction};
use plugin_host::rpc::{number_from_id, parse_u64_digits, PluginCatalogRpc, RpcError, RpcId};
use plugin_host::rpc::PluginCatalogRpcHandler;
use plugin_host::PluginId;

fn response_channel() -> (
    crossbeam_channel::Sender<Result<serde_json::Value, RpcError>>,
    crossbeam_channel::Receiver<Result<serde_json::Value, RpcError>>,
) {
    crossbeam_channel::unbounded()
}

#[test]
fn request_ids_strictly_increase() {
    let (mut broker, _rx) = PluginCatalogRpcHandler::new();
    let (tx1, _r1) = response_channel();
    let (tx2, _r2) = response_channel();
    let (tx3, _r3) = response_channel();
    let id1 = broker.send_request("alpha".to_string(), serde_json::Value::Null, tx1);
    let id2 = broker.send_request("beta".to_string(), serde_json::Value::Null, tx2);
    let _ = broker.notify("gamma".to_string(), serde_json::Value::Null);
    let id3 = broker.send_request("delta".to_string(), serde_json::Value::Null, tx3);
    assert_eq!(id1, 0);
    assert_eq!(id2, 1);
    assert_eq!(id3, 2);
    assert!(id1 < id2 && id2 < id3);
}

#[test]
fn response_is_delivered_exactly_once() {
    let (mut broker, _rx) = PluginCatalogRpcHandler::new();
    let (tx, resp_rx) = response_channel();
    let id = broker.send_request("alpha".to_string(), serde_json::Value::Null, tx);
    let first = broker.handle_response(id, Ok(serde_json::Value::Bool(true)));
    assert!(first);
    let delivered = resp_rx.try_recv().expect("continuation should have a response");
    assert!(matches!(delivered, Ok(serde_json::Value::Bool(true))));
    let second = broker.handle_response(id, Ok(serde_json::Value::Bool(false)));
    assert!(!second);
    assert!(resp_rx.try_recv().is_err());
}

#[test]
fn stale_response_is_a_no_op() {
    let (mut broker, _rx) = PluginCatalogRpcHandler::new();
    assert!(!broker.handle_response(7, Err(RpcError { code: -1, message: "stale".to_string() })));
}

#[test]
fn request_goes_out_with_its_id() {
    let (mut broker, rx) = PluginCatalogRpcHandler::new();
    let (tx, _r) = response_channel();
    let id = broker.send_request("alpha".to_string(), serde_json::Value::Null, tx);
    match rx.try_recv().expect("request should be enqueued") {
        PluginCatalogRpc::ServerRequest { id: sent, method, .. } => {
            assert_eq!(sent, id);
            assert_eq!(method, "alpha");
        },
        _ => panic!("expected a server request"),
    }
    let _ = broker.notify("beta".to_string(), serde_json::Value::Null);
    match rx.try_recv().expect("notification should be enqueued") {
        PluginCatalogRpc::ServerNotification { method, .. } => assert_eq!(method, "beta"),
        _ => panic!("expected a server notification"),
    }
}

#[test]
fn system_exec_path_reduces_to_file_name() {
    match route_notification(
        None,
        PluginNotification::StartLspServer {
            exec_path: "/usr/bin/evil; rm -rf".to_string(),
            language_id: "rust".to_string(),
            options: None,
            system_lsp: Some(true),
        },
    ) {
        RouterAction::SpawnLspServer { exec_path, language_id, .. } => {
            assert_eq!(exec_path, "evil; rm -rf");
            assert_eq!(language_id, "rust");
        },
        _ => panic!("a system spawn with a residual file name must be accepted"),
    }
}

#[test]
fn traversal_exec_path_is_refused() {
    match route_notification(
        None,
        PluginNotification::StartLspServer {
            exec_path: "../../etc/passwd".to_string(),
            language_id: "rust".to_string(),
            options: None,
            system_lsp: Some(true),
        },
    ) {
        RouterAction::Refused => {},
        _ => panic!("a traversal path must be refused"),
    }
    assert!(system_exec_name("../..").is_none());
    assert!(system_exec_name("/").is_none());
    assert!(system_exec_name("").is_none());
    assert!(system_exec_name(".").is_none());
}

#[test]
fn system_exec_name_cases() {
    assert_eq!(system_exec_name("rust-analyzer").unwrap(), "rust-analyzer");
    assert_eq!(system_exec_name("bin/ra").unwrap(), "ra");
    assert_eq!(system_exec_name("a/./b").unwrap(), "b");
    assert_eq!(system_exec_name("foo/").unwrap(), "foo");
}

#[test]
fn non_system_exec_path_resolves_below_plugin_dir() {
    let dir = "/plugins/lsp".to_string();
    let r = resolve_exec_path(false, "server/bin", Some(&dir));
    assert_eq!(r.unwrap(), "/plugins/lsp/server/bin");
    assert!(resolve_exec_path(false, "server/bin", None).is_none());
    assert_eq!(join_path("/base", "/abs/path"), "/abs/path");
}

#[test]
fn unknown_plugin_file_requests_are_refused() {
    match route_notification(
        None,
        PluginNotification::DownloadFile { url: "u".to_string(), path: "p".to_string() },
    ) {
        RouterAction::Refused => {},
        _ => panic!("a download for an unknown plugin must be refused"),
    }
    let dir = "/plugins/x".to_string();
    match route_notification(
        Some(&dir),
        PluginNotification::LockFile { path: "work.lock".to_string() },
    ) {
        RouterAction::AcquireLock { path } => assert_eq!(path, "/plugins/x/work.lock"),
        _ => panic!("a lock for a known plugin must resolve below its directory"),
    }
    match route_notification(
        Some(&dir),
        PluginNotification::MakeFileExecutable { path: "bin/ls".to_string() },
    ) {
        RouterAction::MakeExecutable { path } => assert_eq!(path, "/plugins/x/bin/ls"),
        _ => panic!("an executable mark must resolve below the plugin directory"),
    }
}

#[test]
fn host_surface_tags_with_plugin_id() {
    let (tx, rx) = crossbeam_channel::unbounded();
    let handler = PluginHandler { plugin_id: PluginId(9), proxy_tx: tx };
    assert!(handler.forward(PluginNotification::LockFile { path: "l".to_string() }));
    let (id, n) = rx.try_recv().expect("the notification should be forwarded");
    assert_eq!(id, PluginId(9));
    assert!(matches!(n, PluginNotification::LockFile { .. }));
}

#[test]
fn lock_acquired_within_budget() {
    let outcomes = vec![false, false, true, false, false, false, false, false, false, false, false, false];
    assert_eq!(lock_file_outcome(&outcomes, DEFAULT_LOCK_RETRY_BUDGET), Some(2));
}

#[test]
fn lock_gives_up_after_bounded_attempts() {
    let outcomes = vec![false; DEFAULT_LOCK_RETRY_BUDGET + 1];
    assert_eq!(lock_file_outcome(&outcomes, DEFAULT_LOCK_RETRY_BUDGET), None);
    assert_eq!(lock_step(false, DEFAULT_LOCK_RETRY_BUDGET, DEFAULT_LOCK_RETRY_BUDGET), LockStep::GiveUp);
    assert_eq!(lock_step(false, 0, DEFAULT_LOCK_RETRY_BUDGET), LockStep::Retry);
    assert_eq!(lock_step(true, 0, DEFAULT_LOCK_RETRY_BUDGET), LockStep::Acquired);
}

#[test]
fn lifecycle_walks_to_terminal_stop() {
    let s0 = SandboxState::Loaded;
    let s1 = sandbox_step(s0, SandboxEvent::InstanceReady);
    assert_eq!(s1, SandboxState::Initializing);
    let s2 = sandbox_step(s1, SandboxEvent::InitializeOk);
    assert_eq!(s2, SandboxState::Running);
    let s3 = sandbox_step(s2, SandboxEvent::StopRequested);
    assert_eq!(s3, SandboxState::Stopping);
    let s4 = sandbox_step(s3, SandboxEvent::StopCompleted);
    assert_eq!(s4, SandboxState::Stopped);
    assert_eq!(sandbox_step(s4, SandboxEvent::InstanceReady), SandboxState::Stopped);
    assert_eq!(sandbox_step(s4, SandboxEvent::InitializeOk), SandboxState::Stopped);
}

#[test]
fn initialize_trap_is_terminal() {
    let s = sandbox_step(SandboxState::Initializing, SandboxEvent::InitializeTrap);
    assert_eq!(s, SandboxState::Stopped);
}

#[test]
fn stop_fallback_prefers_the_export() {
    assert!(matches!(stop_fallback_action(true, Some("rust".to_string())), StopAction::CallStopExport));
    match stop_fallback_action(false, Some("rust".to_string())) {
        StopAction::StopLanguageServer { language_id } => assert_eq!(language_id, "rust"),
        _ => panic!("the language-server fallback should be chosen"),
    }
    assert!(matches!(stop_fallback_action(false, None), StopAction::Nothing));
}

#[test]
fn pipe_framing_round_trips() {
    let framed = frame_message("{\"method\":\"lock_file\"}");
    assert_eq!(framed, "{\"method\":\"lock_file\"}\r\n");
    assert_eq!(unframe_message(&framed), "{\"method\":\"lock_file\"}");
    assert_eq!(unframe_message("bare"), "bare");
}

#[test]
fn decimal_ids_parse_exactly() {
    assert_eq!(parse_u64_digits("123"), Some(123));
    assert_eq!(parse_u64_digits("0"), Some(0));
    assert_eq!(parse_u64_digits(""), None);
    assert_eq!(parse_u64_digits("12a"), None);
    assert_eq!(parse_u64_digits("18446744073709551615"), Some(u64::MAX));
    assert_eq!(parse_u64_digits("18446744073709551616"), None);
    assert_eq!(number_from_id(&RpcId::Num(41)), 41);
    assert_eq!(number_from_id(&RpcId::Str("77".to_string())), 77);
    assert_eq!(number_from_id(&RpcId::Str("+7".to_string())), 7);
}

#[test]
fn configuration_reads_the_language_id_field() {
    let with = |configuration: Option<&str>| plugin_host::descriptor::PluginDescriptor {
        name: "p".to_string(),
        version: "1".to_string(),
        repository: "r".to_string(),
        wasm: None,
        themes: Vec::new(),
        configuration: configuration.map(str::to_string),
        dir: None,
    };
    assert_eq!(
        with(Some("{\"language_id\":\"rust\"}")).configuration_language_id(),
        Some("rust".to_string()),
    );
    assert_eq!(
        with(Some("{\"theme\":\"x\",\"language_id\":\"go\"}")).configuration_language_id(),
        Some("go".to_string()),
    );
    assert_eq!(with(Some("{\"language_id\":7}")).configuration_language_id(), None);
    assert_eq!(with(Some("{\"theme\":\"dark\"}")).configuration_language_id(), None);
    assert_eq!(with(Some("{nope")).configuration_language_id(), None);
    assert_eq!(with(None).configuration_language_id(), None);
}
