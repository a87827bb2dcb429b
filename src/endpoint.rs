//! Listen addresses and endpoint descriptions handed to the relay engine.
use vstd::prelude::*;
use vstd::string::StringExecFns;
use crate::key::ConfigKey;
use crate::text::{decimal_text, push_decimal};

verus! {

/// Which forwarding workers an endpoint runs.
pub struct NetConf {
    pub use_udp: bool,
    pub no_tcp: bool,
}

/// One relay endpoint: where it listens, where it forwards to, and how the
/// remote side is wrapped.
pub struct EndpointConf {
    pub listen: String,
    pub remote: String,
    pub remote_transport: Option<String>,
    pub network: NetConf,
}

/// An endpoint ready to run, with its worker switches lifted out.
pub struct EndpointInfo {
    pub endpoint: EndpointConf,
    pub no_tcp: bool,
    pub use_udp: bool,
}

/// What a new relay instance runs: its listen address and its endpoints.
pub struct Provision {
    pub listen: String,
    pub endpoints: Vec<EndpointInfo>,
}

/// The loopback listen address on `port`.
pub open spec fn loopback_address(port: nat) -> Seq<char> {
    "127.0.0.1:"@ + decimal_text(port)
}

/// The remote-transport descriptor: WebSocket to `remote` at `path`,
/// with TLS (server name `remote`) when `tls` is set, and certificate
/// checks off when `insecure` is also set. Nothing in `remote` or `path`
/// is escaped, so a `;` or `=` in them makes the descriptor ambiguous.
pub open spec fn transport_text(remote: Seq<char>, path: Seq<char>, tls: bool, insecure: bool) -> Seq<char> {
    let base = "ws;host="@ + remote + ";path="@ + path;
    if !tls {
        base
    } else if insecure {
        base + ";tls;sni="@ + remote + ";insecure"@
    } else {
        base + ";tls;sni="@ + remote
    }
}

/// Network options for a relay endpoint: UDP on, TCP on.
pub fn create_net_conf() -> (r: NetConf)
    ensures
        r.use_udp,
        !r.no_tcp,
{
    NetConf { use_udp: true, no_tcp: false }
}

/// The listen address for an OS-assigned `port`; `None` for port 0,
/// which names no socket.
pub fn listen_address(port: u16) -> (r: Option<String>)
    ensures
        port == 0 ==> r.is_none(),
        port != 0 ==> r.is_some() && r.unwrap()@ == loopback_address(port as nat),
{
    if port == 0 {
        None
    } else {
        let mut s = String::from_str("127.0.0.1:");
        push_decimal(&mut s, port);
        Some(s)
    }
}

/// Builds the remote-transport descriptor.
pub fn transport_descriptor(remote: &str, path: &str, tls: bool, insecure: bool) -> (r: String)
    ensures
        r@ == transport_text(remote@, path@, tls, insecure),
{
    let mut s = String::from_str("ws;host=");
    s.append(remote);
    s.append(";path=");
    s.append(path);
    if tls {
        s.append(";tls;sni=");
        s.append(remote);
        if insecure {
            s.append(";insecure");
        }
    }
    s
}

/// The endpoint that listens on `listen_addr` and relays to `remote`
/// through a WebSocket at `path`.
pub fn create_endpoint_conf(
    remote: &str,
    listen_addr: String,
    net: NetConf,
    path: &str,
    tls: bool,
    insecure: bool,
) -> (r: EndpointConf)
    ensures
        r.listen == listen_addr,
        r.remote@ == remote@,
        r.remote_transport.is_some(),
        r.remote_transport.unwrap()@ == transport_text(remote@, path@, tls, insecure),
        r.network == net,
{
    let transport = transport_descriptor(remote, path, tls, insecure);
    EndpointConf {
        listen: listen_addr,
        remote: String::from_str(remote),
        remote_transport: Some(transport),
        network: net,
    }
}

/// The endpoints to run for one relay instance: `endpoint` alone, with its
/// worker switches lifted out.
pub fn build_endpoints(endpoint: EndpointConf) -> (r: Vec<EndpointInfo>)
    ensures
        r@.len() == 1,
        r@[0].use_udp == endpoint.network.use_udp,
        r@[0].no_tcp == endpoint.network.no_tcp,
        r@[0].endpoint == endpoint,
{
    let use_udp = endpoint.network.use_udp;
    let no_tcp = endpoint.network.no_tcp;
    let mut v: Vec<EndpointInfo> = Vec::new();
    v.push(EndpointInfo { endpoint, no_tcp, use_udp });
    v
}

/// The provisioning plan for the configuration `key` on the OS-assigned
/// `port`: one endpoint listening on the loopback address of `port`,
/// relaying to the key's remote through its WebSocket path, with UDP and
/// TCP workers on. `None` for port 0.
pub fn plan_instance(key: &ConfigKey, port: u16) -> (r: Option<Provision>)
    ensures
        port == 0 ==> r.is_none(),
        port != 0 ==> r.is_some(),
        r.is_some() ==> {
            let p = r.unwrap();
            &&& p.listen@ == loopback_address(port as nat)
            &&& p.endpoints@.len() == 1
            &&& p.endpoints@[0].use_udp
            &&& !p.endpoints@[0].no_tcp
            &&& p.endpoints@[0].endpoint.listen@ == p.listen@
            &&& p.endpoints@[0].endpoint.remote@ == key.remote@
            &&& p.endpoints@[0].endpoint.remote_transport.is_some()
            &&& p.endpoints@[0].endpoint.remote_transport.unwrap()@ == transport_text(
                key.remote@,
                key.path@,
                key.tls,
                key.insecure,
            )
        },
{
    match listen_address(port) {
        None => None,
        Some(listen) => {
            let net = create_net_conf();
            let endpoint = create_endpoint_conf(
                key.remote.as_str(),
                listen.clone(),
                net,
                key.path.as_str(),
                key.tls,
                key.insecure,
            );
            let endpoints = build_endpoints(endpoint);
            Some(Provision { listen, endpoints })
        }
    }
}

} // verus!
