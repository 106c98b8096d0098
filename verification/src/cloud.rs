//! What the controller sees of a Hetzner Cloud load balancer, as plain values.

use vstd::prelude::*;

verus! {

/// How a load balancer spreads connections over its targets.
#[derive(Clone, Copy, Debug, PartialEq, Eq, Structural)]
pub enum LBAlgorithm {
    RoundRobin,
    LeastConnections,
}

/// The protocol a load-balancer service speaks.
#[derive(Clone, Copy, Debug, PartialEq, Eq, Structural)]
pub enum ServiceProtocol {
    Http,
    Https,
    Tcp,
}

/// The protocol a health check probes with.
#[derive(Clone, Copy, Debug, PartialEq, Eq, Structural)]
pub enum HealthCheckProtocol {
    Http,
    Tcp,
}

/// The health check of one service.
#[derive(Clone, Copy, Debug, PartialEq, Eq, Structural)]
pub struct HealthCheck {
    pub protocol: HealthCheckProtocol,
    pub port: i32,
    pub interval: i32,
    pub retries: i32,
    pub timeout: i32,
}

/// One listener of a load balancer. `http` says whether the service carries
/// an HTTP configuration block.
#[derive(Clone, Copy, Debug, PartialEq, Eq, Structural)]
pub struct BalancerService {
    pub listen_port: i32,
    pub destination_port: i32,
    pub protocol: ServiceProtocol,
    pub proxyprotocol: bool,
    pub http: bool,
    pub health_check: HealthCheck,
}

/// One backend of a load balancer. Only targets given by address have an
/// `ip`; targets given by server or by label selector have none.
#[derive(Clone, Debug, PartialEq, Eq)]
pub struct Target {
    pub ip: Option<String>,
}

/// [`Target`] as contracts speak of it: a plain value with texts as character sequences.
pub struct TargetView {
    pub ip: Option<Seq<char>>,
}

impl DeepView for Target {
    type V = TargetView;

    open spec fn deep_view(&self) -> TargetView {
        TargetView { ip: self.ip.deep_view() }
    }
}

/// One attachment of a load balancer to a private network.
#[derive(Clone, Debug, PartialEq, Eq)]
pub struct PrivateNet {
    pub network: Option<i64>,
    pub ip: Option<String>,
}

/// [`PrivateNet`] as contracts speak of it: a plain value with texts as character sequences.
pub struct PrivateNetView {
    pub network: Option<i64>,
    pub ip: Option<Seq<char>>,
}

impl DeepView for PrivateNet {
    type V = PrivateNetView;

    open spec fn deep_view(&self) -> PrivateNetView {
        PrivateNetView { network: self.network, ip: self.ip.deep_view() }
    }
}

/// A public address of a load balancer with its reverse DNS name.
#[derive(Clone, Debug, PartialEq, Eq)]
pub struct PublicAddress {
    pub ip: Option<String>,
    pub dns_ptr: Option<String>,
}

/// [`PublicAddress`] as contracts speak of it: a plain value with texts as character sequences.
pub struct PublicAddressView {
    pub ip: Option<Seq<char>>,
    pub dns_ptr: Option<Seq<char>>,
}

impl DeepView for PublicAddress {
    type V = PublicAddressView;

    open spec fn deep_view(&self) -> PublicAddressView {
        PublicAddressView { ip: self.ip.deep_view(), dns_ptr: self.dns_ptr.deep_view() }
    }
}

/// A load balancer as Hetzner Cloud reports it.
#[derive(Clone, Debug, PartialEq, Eq)]
pub struct ObservedLoadBalancer {
    pub id: i64,
    pub name: String,
    pub algorithm: LBAlgorithm,
    pub balancer_type: String,
    pub services: Vec<BalancerService>,
    pub targets: Vec<Target>,
    pub private_net: Vec<PrivateNet>,
    pub ipv4: PublicAddress,
    pub ipv6: PublicAddress,
}

/// [`ObservedLoadBalancer`] as contracts speak of it: a plain value with texts as character sequences.
pub struct BalancerView {
    pub id: i64,
    pub name: Seq<char>,
    pub algorithm: LBAlgorithm,
    pub balancer_type: Seq<char>,
    pub services: Seq<BalancerService>,
    pub targets: Seq<TargetView>,
    pub private_net: Seq<PrivateNetView>,
    pub ipv4: PublicAddressView,
    pub ipv6: PublicAddressView,
}

impl DeepView for ObservedLoadBalancer {
    type V = BalancerView;

    open spec fn deep_view(&self) -> BalancerView {
        BalancerView {
            id: self.id,
            name: self.name@,
            algorithm: self.algorithm,
            balancer_type: self.balancer_type@,
            services: self.services@,
            targets: self.targets.deep_view(),
            private_net: self.private_net.deep_view(),
            ipv4: self.ipv4.deep_view(),
            ipv6: self.ipv6.deep_view(),
        }
    }
}

/// A private network as Hetzner Cloud reports it.
#[derive(Clone, Debug, PartialEq, Eq)]
pub struct Network {
    pub id: i64,
    pub name: String,
}

/// [`Network`] as contracts speak of it: a plain value with texts as character sequences.
pub struct NetworkView {
    pub id: i64,
    pub name: Seq<char>,
}

impl DeepView for Network {
    type V = NetworkView;

    open spec fn deep_view(&self) -> NetworkView {
        NetworkView { id: self.id, name: self.name@ }
    }
}

} // verus!
