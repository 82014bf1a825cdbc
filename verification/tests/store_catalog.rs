use plugin_host::catalog::{load_plugin, PluginCatalog, StartError};
use plugin_host::descriptor::{
    encode_descriptor, encode_name_list, parse_descriptor, parse_name_list, PluginDescriptor,
};
use plugin_host::lifecycle::{ControlMessage, SandboxEvent, SandboxState};
use plugin_host::rpc::{PluginCatalogNotification, PluginCatalogRpc, PluginServerRpcHandler, ServerRpc};

fn sample_descriptor() -> PluginDescriptor {
    PluginDescriptor {
        name: "lapce-rust".to_string(),
        version: "0.1.0".to_string(),
        repository: "lapce/lapce-rust".to_string(),
        wasm: Some("plugin.wasm".to_string()),
        themes: vec!["dark.toml".to_string(), "light.toml".to_string()],
        configuration: Some("{\"language_id\":\"rust\"}".to_string()),
        dir: None,
    }
}

fn control_sender() -> crossbeam_channel::Sender<ControlMessage> {
    crossbeam_channel::unbounded().0
}

fn assert_descriptor_eq(a: &PluginDescriptor, b: &PluginDescriptor) {
    assert_eq!(a.name, b.name);
    assert_eq!(a.version, b.version);
    assert_eq!(a.repository, b.repository);
    assert_eq!(a.wasm, b.wasm);
    assert_eq!(a.themes, b.themes);
    assert_eq!(a.configuration, b.configuration);
    assert_eq!(a.dir, b.dir);
}

#[test]
fn descriptor_round_trips_field_for_field() {
    let d = sample_descriptor();
    let text = encode_descriptor(&d);
    let back = parse_descriptor(&text).expect("the record must parse back");
    assert_descriptor_eq(&d, &back);
}

#[test]
fn descriptor_round_trips_with_absent_fields() {
    let d = PluginDescriptor {
        name: "min".to_string(),
        version: "0".to_string(),
        repository: "r".to_string(),
        wasm: None,
        themes: Vec::new(),
        configuration: None,
        dir: None,
    };
    let text = encode_descriptor(&d);
    assert_eq!(text, "min\n0\nr\n-\n-\n-\n-\n");
    let back = parse_descriptor(&text).expect("the record must parse back");
    assert_descriptor_eq(&d, &back);
}

#[test]
fn malformed_descriptor_records_are_refused() {
    assert!(parse_descriptor("").is_none());
    assert!(parse_descriptor("just-one-line\n").is_none());
    assert!(parse_descriptor("n\nv\nr\n?\n-\n-\n-\n").is_none());
    assert!(parse_descriptor("n\nv\nr\n-\n-\n-\n-\nextra").is_none());
}

#[test]
fn name_list_round_trips() {
    let names = vec!["a".to_string(), "b".to_string()];
    let text = encode_name_list(&names);
    assert_eq!(text, "a\nb\n");
    assert_eq!(parse_name_list(&text).expect("must parse"), names);
    assert_eq!(parse_name_list("").expect("empty list"), Vec::<String>::new());
    assert!(parse_name_list("unterminated").is_none());
}

#[test]
fn discovery_resolves_paths_below_the_descriptor_dir() {
    let d = sample_descriptor();
    let text = encode_descriptor(&d);
    let loaded = load_plugin(&text, "/plugins/lapce-rust").expect("must load");
    assert_eq!(loaded.dir.as_deref(), Some("/plugins/lapce-rust"));
    assert_eq!(loaded.wasm.as_deref(), Some("/plugins/lapce-rust/plugin.wasm"));
    assert_eq!(
        loaded.themes,
        vec![
            "/plugins/lapce-rust/dark.toml".to_string(),
            "/plugins/lapce-rust/light.toml".to_string(),
        ],
    );
    assert!(load_plugin("garbage", "/plugins/x").is_none());
}

#[test]
fn distinct_plugin_ids_and_isolated_traps() {
    let mut catalog = PluginCatalog::new();
    let mut a = sample_descriptor();
    a.dir = Some("/plugins/a".to_string());
    let mut b = sample_descriptor();
    b.name = "other".to_string();
    b.dir = Some("/plugins/b".to_string());
    let plan_a = catalog.start_plugin(&a, control_sender()).expect("a starts");
    let plan_b = catalog.start_plugin(&b, control_sender()).expect("b starts");
    assert_ne!(plan_a.plugin_id, plan_b.plugin_id);
    assert_eq!(plan_a.root_dir, "/plugins/a");

    assert!(catalog.apply_instance_event(plan_a.plugin_id, SandboxEvent::InstanceReady));
    assert!(catalog.apply_instance_event(plan_b.plugin_id, SandboxEvent::InstanceReady));
    assert!(catalog.apply_instance_event(plan_a.plugin_id, SandboxEvent::InitializeTrap));
    assert!(catalog.apply_instance_event(plan_b.plugin_id, SandboxEvent::InitializeOk));
    let state_of = |c: &PluginCatalog, id| {
        c.instances.iter().find(|i| i.id == id).map(|i| i.state)
    };
    assert_eq!(state_of(&catalog, plan_a.plugin_id), Some(SandboxState::Stopped));
    assert_eq!(state_of(&catalog, plan_b.plugin_id), Some(SandboxState::Running));
}

#[test]
fn start_refuses_incomplete_descriptors() {
    let mut catalog = PluginCatalog::new();
    let mut no_wasm = sample_descriptor();
    no_wasm.wasm = None;
    match catalog.start_plugin(&no_wasm, control_sender()) {
        Err(e) => assert_eq!(e, StartError::MissingArtifact),
        Ok(_) => panic!("a descriptor without an artifact must be refused"),
    }
    let no_dir = sample_descriptor();
    match catalog.start_plugin(&no_dir, control_sender()) {
        Err(e) => assert_eq!(e, StartError::MissingDirectory),
        Ok(_) => panic!("a descriptor without a directory must be refused"),
    }
    assert!(catalog.instances.is_empty());
}

#[test]
fn disable_excludes_from_auto_start_and_survives_reload() {
    let mut catalog = PluginCatalog::new();
    let a = sample_descriptor();
    let mut b = sample_descriptor();
    b.name = "keeper".to_string();
    catalog.load(&vec![a, b], &Vec::new());
    assert_eq!(catalog.start_all().len(), 2);

    let (_stop, persisted) = catalog.disable_plugin(&"lapce-rust".to_string());
    let started = catalog.start_all();
    assert_eq!(started.len(), 1);
    assert_eq!(started[0].name, "keeper");
    // a disabled name is still a known descriptor
    assert_eq!(catalog.items.len(), 2);

    // a full discovery reload from the persisted state keeps the exclusion
    let reload_names = parse_name_list(&persisted).expect("persisted list parses");
    let mut fresh = PluginCatalog::new();
    let a2 = sample_descriptor();
    let mut b2 = sample_descriptor();
    b2.name = "keeper".to_string();
    fresh.load(&vec![a2, b2], &reload_names);
    let started = fresh.start_all();
    assert_eq!(started.len(), 1);
    assert_eq!(started[0].name, "keeper");
}

#[test]
fn a_name_the_list_cannot_hold_is_never_disabled() {
    let mut catalog = PluginCatalog::new();
    let mut d = sample_descriptor();
    d.name = "a\nb".to_string();
    catalog.load(&vec![d], &vec!["a\nb".to_string()]);
    // the record list cannot persist such a name, so it is not accepted into
    // the disabled set and the plugin still auto-starts
    assert!(catalog.disabled.is_empty());
    assert_eq!(catalog.start_all().len(), 1);
    assert!(plugin_host::descriptor::descriptor_is_encodable(&sample_descriptor()));
    let mut bad = sample_descriptor();
    bad.version = "1\n2".to_string();
    assert!(!plugin_host::descriptor::descriptor_is_encodable(&bad));
    let mut bad_theme = sample_descriptor();
    bad_theme.themes = vec!["a\tb".to_string()];
    assert!(!plugin_host::descriptor::descriptor_is_encodable(&bad_theme));
}

#[test]
fn enable_restarts_and_unpersists() {
    let mut catalog = PluginCatalog::new();
    let d = sample_descriptor();
    catalog.load(&vec![d], &vec!["lapce-rust".to_string()]);
    let started = catalog.start_all();
    assert!(started.is_empty());

    let d = sample_descriptor();
    let (to_start, persisted) = catalog.enable_plugin(&d, "/plugins").expect("enable succeeds");
    assert_eq!(to_start.dir.as_deref(), Some("/plugins/lapce-rust"));
    assert_eq!(to_start.wasm.as_deref(), Some("/plugins/lapce-rust/plugin.wasm"));
    assert_eq!(persisted, "");
    assert_eq!(catalog.start_all().len(), 1);

    let mut no_wasm = sample_descriptor();
    no_wasm.wasm = None;
    match catalog.enable_plugin(&no_wasm, "/plugins") {
        Err(e) => assert_eq!(e, StartError::MissingArtifact),
        Ok(_) => panic!("enabling without an artifact must be refused"),
    }
}

#[test]
fn install_plan_points_at_the_registry() {
    let mut catalog = PluginCatalog::new();
    let d = sample_descriptor();
    let plan = catalog.install_plugin(&d, "/plugins");
    assert_eq!(plan.install_dir, "/plugins/lapce-rust");
    assert_eq!(plan.descriptor_text, encode_descriptor(&d));
    assert_eq!(
        plan.wasm_url.as_deref(),
        Some("https://raw.githubusercontent.com/lapce/lapce-rust/master/plugin.wasm"),
    );
    assert_eq!(plan.wasm_dest.as_deref(), Some("/plugins/lapce-rust/plugin.wasm"));
    assert_eq!(
        plan.theme_urls,
        vec![
            "https://raw.githubusercontent.com/lapce/lapce-rust/master/dark.toml".to_string(),
            "https://raw.githubusercontent.com/lapce/lapce-rust/master/light.toml".to_string(),
        ],
    );
    assert_eq!(
        plan.theme_dests,
        vec![
            "/plugins/lapce-rust/dark.toml".to_string(),
            "/plugins/lapce-rust/light.toml".to_string(),
        ],
    );
    assert_eq!(catalog.items.len(), 1);
    assert_eq!(catalog.items[0].dir.as_deref(), Some("/plugins/lapce-rust"));
    assert_eq!(catalog.items[0].wasm.as_deref(), Some("/plugins/lapce-rust/plugin.wasm"));

    // the written record reads back as the descriptor that was handed in
    let back = parse_descriptor(&plan.descriptor_text).expect("record parses");
    assert_descriptor_eq(&d, &back);
}

#[test]
fn remove_plugin_forgets_and_names_the_directory() {
    let mut catalog = PluginCatalog::new();
    let d = sample_descriptor();
    catalog.load(&vec![d], &Vec::new());
    let name = "lapce-rust".to_string();
    let (_stop, persisted, dir) = catalog.remove_plugin(&name, "/plugins");
    assert_eq!(dir, "/plugins/lapce-rust");
    assert_eq!(persisted, "");
    assert!(catalog.items.is_empty());
    assert!(catalog.disabled.is_empty());
}

#[test]
fn catalog_mainloop_fans_out_serially() {
    let mut catalog = PluginCatalog::new();
    let (server_tx, server_rx) = crossbeam_channel::unbounded();
    catalog.handle_catalog_rpc(PluginCatalogRpc::Handler(
        PluginCatalogNotification::PluginServerLoaded(PluginServerRpcHandler {
            plugin_id: plugin_host::PluginId(0),
            server_tx,
        }),
    ));
    assert_eq!(catalog.servers.len(), 1);
    catalog.handle_catalog_rpc(PluginCatalogRpc::ServerRequest {
        id: 3,
        method: "m".to_string(),
        params: serde_json::Value::String("payload".to_string()),
    });
    match server_rx.try_recv().expect("request fans out") {
        ServerRpc::Request { id, method, params } => {
            assert_eq!(id, 3);
            assert_eq!(method, "m");
            assert_eq!(params, serde_json::Value::String("payload".to_string()));
        },
        _ => panic!("expected a request"),
    }
    catalog.handle_catalog_rpc(PluginCatalogRpc::DidChangeTextDocument {
        uri: "file:///a.rs".to_string(),
        version: 4,
        text: "fn a() {}".to_string(),
    });
    match server_rx.try_recv().expect("change fans out") {
        ServerRpc::DidChange { uri, version, .. } => {
            assert_eq!(uri, "file:///a.rs");
            assert_eq!(version, 4);
        },
        _ => panic!("expected a document change"),
    }
}

#[test]
fn instance_dir_feeds_the_router() {
    let mut catalog = PluginCatalog::new();
    let mut d = sample_descriptor();
    d.dir = Some("/plugins/lapce-rust".to_string());
    let plan = catalog.start_plugin(&d, control_sender()).expect("starts");
    assert_eq!(catalog.instance_dir(plan.plugin_id).as_deref(), Some("/plugins/lapce-rust"));
    assert!(catalog.instance_dir(plugin_host::PluginId(999)).is_none());
}

#[test]
fn configuration_language_id_is_read_from_the_configuration() {
    let d = sample_descriptor();
    assert_eq!(d.configuration_language_id(), Some("rust".to_string()));
    let mut none = sample_descriptor();
    none.configuration = None;
    assert_eq!(none.configuration_language_id(), None);
    let mut other = sample_descriptor();
    other.configuration = Some("{\"theme\":\"dark\"}".to_string());
    assert_eq!(other.configuration_language_id(), None);
}
