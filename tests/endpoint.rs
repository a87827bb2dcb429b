use realm_bridge::endpoint::{
    build_endpoints, create_endpoint_conf, create_net_conf, listen_address, plan_instance, transport_descriptor,
    EndpointInfo, NetConf,
};
use realm_bridge::init::{initialize_once, InitState, InitSteps};
use realm_bridge::key::ConfigKey;
use realm_bridge::workers::{plan_workers, Task, Worker};

#[test]
fn descriptor_without_tls() {
    assert_eq!(transport_descriptor("example.com", "/ws", false, false), "ws;host=example.com;path=/ws");
    assert_eq!(transport_descriptor("example.com", "/ws", false, true), "ws;host=example.com;path=/ws");
}

#[test]
fn descriptor_with_tls() {
    assert_eq!(
        transport_descriptor("example.com", "/ws", true, false),
        "ws;host=example.com;path=/ws;tls;sni=example.com"
    );
}

#[test]
fn descriptor_with_tls_insecure() {
    assert_eq!(
        transport_descriptor("example.com", "/ws", true, true),
        "ws;host=example.com;path=/ws;tls;sni=example.com;insecure"
    );
}

#[test]
fn listen_address_is_loopback() {
    assert_eq!(listen_address(0), None);
    assert_eq!(listen_address(1), Some("127.0.0.1:1".to_string()));
    assert_eq!(listen_address(8080), Some("127.0.0.1:8080".to_string()));
    assert_eq!(listen_address(10), Some("127.0.0.1:10".to_string()));
    assert_eq!(listen_address(65535), Some("127.0.0.1:65535".to_string()));
}

#[test]
fn net_conf_runs_both_workers() {
    let n = create_net_conf();
    assert!(n.use_udp);
    assert!(!n.no_tcp);
}

#[test]
fn endpoint_conf_carries_its_inputs() {
    let e = create_endpoint_conf("example.com", "127.0.0.1:5000".to_string(), create_net_conf(), "/ws", true, true);
    assert_eq!(e.listen, "127.0.0.1:5000");
    assert_eq!(e.remote, "example.com");
    assert_eq!(e.remote_transport.as_deref(), Some("ws;host=example.com;path=/ws;tls;sni=example.com;insecure"));
    assert!(e.network.use_udp && !e.network.no_tcp);
}

#[test]
fn build_endpoints_lifts_the_switches() {
    let net = NetConf { use_udp: false, no_tcp: true };
    let e = create_endpoint_conf("r:1", "127.0.0.1:5001".to_string(), net, "/p", false, false);
    let v = build_endpoints(e);
    assert_eq!(v.len(), 1);
    assert!(!v[0].use_udp);
    assert!(v[0].no_tcp);
    assert_eq!(v[0].endpoint.listen, "127.0.0.1:5001");
}

#[test]
fn plan_instance_builds_one_endpoint() {
    let k = ConfigKey::new("example.com", "example.com", "/ws", true, false);
    assert!(plan_instance(&k, 0).is_none());
    let p = plan_instance(&k, 40123).unwrap();
    assert_eq!(p.listen, "127.0.0.1:40123");
    assert_eq!(p.endpoints.len(), 1);
    let e = &p.endpoints[0];
    assert!(e.use_udp && !e.no_tcp);
    assert_eq!(e.endpoint.listen, "127.0.0.1:40123");
    assert_eq!(e.endpoint.remote, "example.com");
    assert_eq!(e.endpoint.remote_transport.as_deref(), Some("ws;host=example.com;path=/ws;tls;sni=example.com"));
}

fn info(use_udp: bool, no_tcp: bool) -> EndpointInfo {
    let net = NetConf { use_udp, no_tcp };
    let e = create_endpoint_conf("r:1", "127.0.0.1:1".to_string(), net, "/", false, false);
    EndpointInfo { endpoint: e, no_tcp, use_udp }
}

#[test]
fn workers_follow_the_switches() {
    let eps = vec![info(true, false), info(false, false), info(true, true), info(false, true)];
    let plan = plan_workers(&eps);
    assert_eq!(
        plan,
        vec![
            Task { endpoint: 0, worker: Worker::Udp },
            Task { endpoint: 0, worker: Worker::Tcp },
            Task { endpoint: 1, worker: Worker::Tcp },
            Task { endpoint: 2, worker: Worker::Udp },
        ]
    );
    assert!(plan_workers(&Vec::new()).is_empty());
}

#[test]
fn setup_is_claimed_once() {
    let mut s = InitState::new();
    assert_eq!(initialize_once(&mut s), InitSteps { setup_log: true, setup_dns: true });
    assert_eq!(initialize_once(&mut s), InitSteps { setup_log: false, setup_dns: false });
    assert_eq!(initialize_once(&mut s), InitSteps { setup_log: false, setup_dns: false });
}
