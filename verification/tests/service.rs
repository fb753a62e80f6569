use xhub::service::{
    bind_addr, check_backend, check_listen, firewall_add_args, firewall_delete_args,
    firewall_rule_name, missing_entry_message, probe_host, BackendSpec, EngineSpec, ServiceTable,
    StartDecision,
};

fn mk(host: Option<String>) -> BackendSpec {
    BackendSpec { entry: "s.js".into(), engine: None, cwd: None, port: None, host, health: None }
}

#[test]
fn backend_spec_external_detection() {
    assert!(!mk(None).is_external());
    assert!(!mk(Some("127.0.0.1".into())).is_external());
    assert!(!mk(Some("localhost".into())).is_external());
    assert!(mk(Some("0.0.0.0".into())).is_external());
    assert!(mk(Some("192.168.1.5".into())).is_external());
    assert_eq!(mk(None).listen_host(), "127.0.0.1");
    assert_eq!(mk(Some("0.0.0.0".into())).listen_host(), "0.0.0.0");
}

#[test]
fn wildcard_hosts_are_probed_on_loopback() {
    assert_eq!(probe_host("0.0.0.0"), "127.0.0.1");
    assert_eq!(probe_host("::"), "127.0.0.1");
    assert_eq!(probe_host("192.168.1.5"), "192.168.1.5");
    assert_eq!(probe_host("127.0.0.1"), "127.0.0.1");
}

#[test]
fn bind_addresses() {
    assert_eq!(bind_addr("127.0.0.1", None), "127.0.0.1:0");
    assert_eq!(bind_addr("0.0.0.0", Some(8080)), "0.0.0.0:8080");
    assert_eq!(bind_addr("h", Some(65535)), "h:65535");
}

#[test]
fn firewall_rule_and_netsh_arguments() {
    assert_eq!(firewall_rule_name("demo"), "x-hub extension demo");
    assert_eq!(
        firewall_delete_args("demo"),
        vec!["advfirewall", "firewall", "delete", "rule", "name=x-hub extension demo"]
    );
    assert_eq!(
        firewall_add_args("demo", 3000, "C:\\node\\node.exe"),
        vec![
            "advfirewall",
            "firewall",
            "add",
            "rule",
            "name=x-hub extension demo",
            "dir=in",
            "action=allow",
            "protocol=TCP",
            "localport=3000",
            "program=C:\\node\\node.exe",
            "profile=private"
        ]
    );
}

#[test]
fn start_needs_a_node_backend() {
    assert_eq!(
        check_backend("demo", None),
        Err("扩展 demo 未声明 backend（非 service 扩展）".to_string())
    );
    let mut b = mk(None);
    assert_eq!(check_backend("demo", Some(&b)), Ok(None));
    b.engine = Some(EngineSpec { engine_type: "deno".into(), min_version: None });
    assert_eq!(check_backend("demo", Some(&b)), Err("不支持的运行时引擎类型: deno".to_string()));
    b.engine = Some(EngineSpec { engine_type: "node".into(), min_version: Some("18".into()) });
    assert_eq!(check_backend("demo", Some(&b)), Ok(Some("18".to_string())));
    assert_eq!(missing_entry_message("server/index.js"), "后端入口不存在: server/index.js");
}

#[test]
fn listening_beyond_loopback_needs_network_permission() {
    let none: Vec<String> = vec![];
    let net = vec!["storage".to_string(), "network".to_string()];
    assert_eq!(check_listen("demo", &mk(None), &none, false), Ok(("127.0.0.1".to_string(), false)));
    assert_eq!(
        check_listen("demo", &mk(Some("0.0.0.0".into())), &none, true),
        Err("PERMISSION_DENIED: 扩展 demo 对外监听（host=0.0.0.0）需要声明 network 权限".to_string())
    );
    assert_eq!(
        check_listen("demo", &mk(Some("0.0.0.0".into())), &net, false),
        Err("PERMISSION_DENIED: 扩展 demo 的 network 权限已被用户关闭，无法对外监听".to_string())
    );
    assert_eq!(
        check_listen("demo", &mk(Some("192.168.1.5".into())), &net, true),
        Ok(("192.168.1.5".to_string(), true))
    );
}

#[test]
fn registry_reuses_a_started_backend_until_it_stops() {
    let mut t = ServiceTable::new();
    assert_eq!(t.port_of("a"), None);
    assert!(!t.ready_of("a"));
    t.register("a", 4100);
    t.register("b", 4200);
    assert_eq!(t.port_of("a"), Some(4100));
    assert!(!t.ready_of("a"));
    t.set_ready("a", true);
    assert!(t.ready_of("a"));
    assert!(!t.ready_of("b"));
    assert_eq!(t.port_of("a"), Some(4100));
    let mut ids = t.ids();
    ids.sort();
    assert_eq!(ids, vec!["a".to_string(), "b".to_string()]);
    assert_eq!(t.remove("a"), Some(4100));
    assert_eq!(t.port_of("a"), None);
    assert_eq!(t.remove("a"), None);
    t.set_ready("a", true);
    assert_eq!(t.port_of("a"), None);
    t.register("b", 4300);
    assert_eq!(t.port_of("b"), Some(4300));
    assert_eq!(t.ids(), vec!["b".to_string()]);
}

#[test]
fn a_second_start_reuses_the_running_backend() {
    let mut t = ServiceTable::new();
    assert_eq!(t.start_decision("a"), StartDecision::Launch);
    t.register("a", 4100);
    assert_eq!(t.start_decision("a"), StartDecision::Reuse(4100));
    assert_eq!(t.start_decision("a"), StartDecision::Reuse(4100));
    t.set_ready("a", true);
    assert_eq!(t.start_decision("a"), StartDecision::Reuse(4100));
    assert_eq!(t.start_decision("b"), StartDecision::Launch);
    t.remove("a");
    assert_eq!(t.start_decision("a"), StartDecision::Launch);
}
