//! The operator's settings.

use crate::consts;
use vstd::prelude::*;
use vstd::string::StringExecFns;

verus! {

/// How much the operator logs.
#[derive(Clone, Copy, Debug, PartialEq, Eq, Structural)]
pub enum LogLevel {
    Off,
    Error,
    Warn,
    Info,
    Debug,
    Trace,
}

/// Cluster-wide defaults and switches. An annotation on a service overrides
/// the default of the same setting.
#[derive(Clone, Debug, PartialEq, Eq)]
pub struct OperatorConfig {
    /// The token for the Hetzner Cloud API.
    pub hcloud_token: String,
    /// The private network for load balancers whose service names none.
    pub default_network: Option<String>,
    /// Whether targets are the nodes on which the service's pods run, or the
    /// nodes that a label filter selects.
    pub dynamic_node_selector: bool,
    pub default_lb_retries: i32,
    pub default_lb_timeout: i32,
    pub default_lb_interval: i32,
    pub default_lb_location: String,
    pub default_balancer_type: String,
    pub default_lb_algorithm: String,
    pub default_lb_proxy_mode_enabled: bool,
    /// Whether the load balancer's IPv6 address is published beside its IPv4
    /// address.
    pub ipv6_ingress: bool,
    pub log_level: LogLevel,
}

/// [`OperatorConfig`] as contracts speak of it: a plain value with texts as character sequences.
pub struct OperatorConfigView {
    pub hcloud_token: Seq<char>,
    pub default_network: Option<Seq<char>>,
    pub dynamic_node_selector: bool,
    pub default_lb_retries: i32,
    pub default_lb_timeout: i32,
    pub default_lb_interval: i32,
    pub default_lb_location: Seq<char>,
    pub default_balancer_type: Seq<char>,
    pub default_lb_algorithm: Seq<char>,
    pub default_lb_proxy_mode_enabled: bool,
    pub ipv6_ingress: bool,
    pub log_level: LogLevel,
}

impl DeepView for OperatorConfig {
    type V = OperatorConfigView;

    open spec fn deep_view(&self) -> OperatorConfigView {
        OperatorConfigView {
            hcloud_token: self.hcloud_token@,
            default_network: self.default_network.deep_view(),
            dynamic_node_selector: self.dynamic_node_selector,
            default_lb_retries: self.default_lb_retries,
            default_lb_timeout: self.default_lb_timeout,
            default_lb_interval: self.default_lb_interval,
            default_lb_location: self.default_lb_location@,
            default_balancer_type: self.default_balancer_type@,
            default_lb_algorithm: self.default_lb_algorithm@,
            default_lb_proxy_mode_enabled: self.default_lb_proxy_mode_enabled,
            ipv6_ingress: self.ipv6_ingress,
            log_level: self.log_level,
        }
    }
}

impl OperatorConfig {
    /// The settings of an operator that was given its token and nothing
    /// else: no default network, targets by pod location, three retries, ten
    /// seconds of timeout, fifteen seconds between checks, location `hel1`,
    /// type `lb11`, least connections, no proxy protocol, no IPv6 ingress.
    pub fn with_defaults(hcloud_token: String) -> (config: OperatorConfig)
        ensures
            config.deep_view() == (OperatorConfigView {
                hcloud_token: hcloud_token@,
                default_network: None,
                dynamic_node_selector: true,
                default_lb_retries: 3,
                default_lb_timeout: 10,
                default_lb_interval: 15,
                default_lb_location: consts::DEFAULT_LB_LOCATION@,
                default_balancer_type: consts::DEFAULT_LB_BALANCER_TYPE@,
                default_lb_algorithm: consts::DEFAULT_LB_ALGORITHM@,
                default_lb_proxy_mode_enabled: false,
                ipv6_ingress: false,
                log_level: LogLevel::Info,
            }),
    {
        OperatorConfig {
            hcloud_token,
            default_network: None,
            dynamic_node_selector: true,
            default_lb_retries: consts::DEFAULT_LB_RETRIES,
            default_lb_timeout: consts::DEFAULT_LB_TIMEOUT,
            default_lb_interval: consts::DEFAULT_LB_INTERVAL,
            default_lb_location: String::from_str(consts::DEFAULT_LB_LOCATION),
            default_balancer_type: String::from_str(consts::DEFAULT_LB_BALANCER_TYPE),
            default_lb_algorithm: String::from_str(consts::DEFAULT_LB_ALGORITHM),
            default_lb_proxy_mode_enabled: false,
            ipv6_ingress: false,
            log_level: LogLevel::Info,
        }
    }
}

} // verus!
