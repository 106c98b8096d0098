//! The load balancer a service asks for, and the calls that bring the load
//! balancer at Hetzner Cloud to it.

use crate::calls::{Request, RequestView};
use crate::cluster::{Service, ServiceView, StringMap};
use crate::config::OperatorConfigView;
use crate::consts;
use crate::controller::CurrentContext;
use crate::text::{decimal_value, is_decimal_i32, parse_bool, parse_i32};
use crate::cloud::{Network, NetworkView};
use crate::error::{ErrorView, LBTrackerError};
use vstd::string::StringExecFns;
use crate::cloud::{
    BalancerService, BalancerView, HealthCheck, HealthCheckProtocol, LBAlgorithm,
    ObservedLoadBalancer, PrivateNet, PrivateNetView, ServiceProtocol, Target, TargetView,
};
use crate::ports::{ascending_keys, keys_ascending, lists_keys};
use std::collections::HashMap;
use vstd::prelude::*;

verus! {

broadcast use vstd::std_specs::hash::group_hash_axioms;

/// One service a load balancer is to offer: it listens on `listen_port` and
/// forwards to `target_port` on every target.
#[derive(Clone, Copy, Debug, PartialEq, Eq, Structural)]
pub struct LBService {
    pub listen_port: i32,
    pub target_port: i32,
}

/// The load balancer that a service asks for.
#[derive(Clone, Debug, PartialEq, Eq)]
pub struct LoadBalancer {
    pub name: String,
    pub services: HashMap<i32, i32>,
    pub targets: Vec<String>,
    pub private_ip: Option<String>,
    pub check_interval: i32,
    pub timeout: i32,
    pub retries: i32,
    pub proxy_mode: bool,
    pub location: String,
    pub balancer_type: String,
    pub algorithm: LBAlgorithm,
    pub network_name: Option<String>,
}

/// [`LoadBalancer`] as contracts speak of it: a plain value with texts as character sequences.
pub struct LoadBalancerView {
    pub name: Seq<char>,
    pub services: Map<i32, i32>,
    pub targets: Seq<Seq<char>>,
    pub private_ip: Option<Seq<char>>,
    pub check_interval: i32,
    pub timeout: i32,
    pub retries: i32,
    pub proxy_mode: bool,
    pub location: Seq<char>,
    pub balancer_type: Seq<char>,
    pub algorithm: LBAlgorithm,
    pub network_name: Option<Seq<char>>,
}

impl DeepView for LoadBalancer {
    type V = LoadBalancerView;

    open spec fn deep_view(&self) -> LoadBalancerView {
        LoadBalancerView {
            name: self.name@,
            services: self.services@,
            targets: self.targets.deep_view(),
            private_ip: self.private_ip.deep_view(),
            check_interval: self.check_interval,
            timeout: self.timeout,
            retries: self.retries,
            proxy_mode: self.proxy_mode,
            location: self.location@,
            balancer_type: self.balancer_type@,
            algorithm: self.algorithm,
            network_name: self.network_name.deep_view(),
        }
    }
}

/// The services of a port map, by ascending listen port.
pub open spec fn service_list(services: Map<i32, i32>) -> Seq<LBService> {
    let ports = ascending_keys(services);
    Seq::new(
        ports.len(),
        |i: int| LBService { listen_port: ports[i], target_port: services[ports[i]] },
    )
}

/// Whether one of `services` listens on `port`.
pub open spec fn listens_on(services: Seq<BalancerService>, port: i32) -> bool {
    exists|i: int| 0 <= i < services.len() && #[trigger] services[i].listen_port == port
}

impl LoadBalancerView {
    /// The service that is to listen on `listen_port`: plain TCP to
    /// `destination_port`, checked by a TCP probe of that same port.
    pub open spec fn service_for(self, listen_port: i32, destination_port: i32) -> BalancerService {
        BalancerService {
            listen_port,
            destination_port,
            protocol: ServiceProtocol::Tcp,
            proxyprotocol: self.proxy_mode,
            http: false,
            health_check: HealthCheck {
                protocol: HealthCheckProtocol::Tcp,
                port: destination_port,
                interval: self.check_interval,
                retries: self.retries,
                timeout: self.timeout,
            },
        }
    }

    /// Whether `service` already is what this load balancer wants on its
    /// port, given that the port is to forward to `destination_port`. These
    /// are the fields that are compared; nothing else of a service is.
    pub open spec fn service_is_current(self, service: BalancerService, destination_port: i32) -> bool {
        &&& service.destination_port == destination_port
        &&& service.health_check.port == destination_port
        &&& service.health_check.interval == self.check_interval
        &&& service.health_check.retries == self.retries
        &&& service.health_check.timeout == self.timeout
        &&& service.proxyprotocol == self.proxy_mode
        &&& !service.http
        &&& service.health_check.protocol == HealthCheckProtocol::Tcp
    }

    /// What is to be done about one service that the load balancer `id` has:
    /// delete it where its port is not wanted, update it where it differs,
    /// leave it where it is current.
    pub open spec fn service_fix(self, id: i64, service: BalancerService) -> Seq<RequestView> {
        if self.services.contains_key(service.listen_port) {
            let destination_port = self.services[service.listen_port];
            if self.service_is_current(service, destination_port) {
                Seq::empty()
            } else {
                seq![
                    RequestView::UpdateService {
                        id,
                        service: self.service_for(service.listen_port, destination_port),
                    },
                ]
            }
        } else {
            seq![RequestView::DeleteService { id, listen_port: service.listen_port }]
        }
    }

    /// The fixes for each of `observed`, in the order in which they are
    /// reported.
    pub open spec fn service_fixes(self, id: i64, observed: Seq<BalancerService>) -> Seq<RequestView>
        decreases observed.len(),
    {
        if observed.len() == 0 {
            Seq::empty()
        } else {
            self.service_fixes(id, observed.drop_last()) + self.service_fix(id, observed.last())
        }
    }

    /// A service to add for each of `ports` on which none of `observed`
    /// listens.
    pub open spec fn missing_services(
        self,
        id: i64,
        observed: Seq<BalancerService>,
        ports: Seq<i32>,
    ) -> Seq<RequestView>
        decreases ports.len(),
    {
        if ports.len() == 0 {
            Seq::empty()
        } else {
            let before = self.missing_services(id, observed, ports.drop_last());
            let port = ports.last();
            if listens_on(observed, port) {
                before
            } else {
                before.push(
                    RequestView::AddService { id, service: self.service_for(port, self.services[port]) },
                )
            }
        }
    }

    /// The calls that bring the services of `balancer` to the wanted ones:
    /// first the deletions and updates, in the order of the reported
    /// services, then the additions, by ascending listen port.
    pub open spec fn service_calls(self, balancer: BalancerView) -> Seq<RequestView> {
        self.service_fixes(balancer.id, balancer.services) + self.missing_services(
            balancer.id,
            balancer.services,
            ascending_keys(self.services),
        )
    }
}

/// Whether one of `services` listens on `port`.
fn any_listens_on(services: &Vec<BalancerService>, port: i32) -> (found: bool)
    ensures
        found == listens_on(services@, port),
{
    let mut i: usize = 0;
    while i < services.len()
        invariant
            i <= services.len(),
            forall|k: int| 0 <= k < i ==> (#[trigger] services@[k]).listen_port != port,
        decreases services.len() - i,
    {
        if services[i].listen_port == port {
            return true;
        }
        i = i + 1;
    }
    false
}

impl LoadBalancer {
    /// Adds a service: the load balancer is to listen on `listen_port` and to
    /// forward to `target_port`. A service already wanted on that port is
    /// replaced.
    pub fn add_service(&mut self, listen_port: i32, target_port: i32)
        ensures
            final(self).deep_view() == (LoadBalancerView {
                services: old(self).deep_view().services.insert(listen_port, target_port),
                ..old(self).deep_view()
            }),
    {
        self.services.insert(listen_port, target_port);
    }

    /// Adds a target by its address, behind the targets that are already
    /// wanted.
    pub fn add_target(&mut self, ip: &str)
        ensures
            final(self).deep_view() == (LoadBalancerView {
                targets: old(self).deep_view().targets.push(ip@),
                ..old(self).deep_view()
            }),
    {
        let ghost before = self.targets.deep_view();
        self.targets.push(ip.to_owned());
        assert(self.targets.deep_view() =~= before.push(ip@));
    }

    /// The wanted services, by ascending listen port.
    pub fn service_list(&self) -> (list: Vec<LBService>)
        ensures
            list@ == service_list(self.services@),
    {
        let ports = keys_ascending(&self.services);
        let mut list: Vec<LBService> = Vec::new();
        let mut i: usize = 0;
        while i < ports.len()
            invariant
                lists_keys(ports@, self.services@),
                i <= ports.len(),
                list.len() == i,
                forall|k: int|
                    0 <= k < i ==> #[trigger] list@[k] == (LBService {
                        listen_port: ports@[k],
                        target_port: self.services@[ports@[k]],
                    }),
            decreases ports.len() - i,
        {
            let port = ports[i];
            assert(ports@.contains(port));
            match self.services.get(&port) {
                Some(target_port) => {
                    list.push(LBService { listen_port: port, target_port: *target_port });
                },
                None => {},
            }
            i = i + 1;
        }
        assert(list@ =~= service_list(self.services@));
        list
    }

    /// The service that is to listen on `listen_port`.
    fn service_for(&self, listen_port: i32, destination_port: i32) -> (service: BalancerService)
        ensures
            service == self.deep_view().service_for(listen_port, destination_port),
    {
        BalancerService {
            listen_port,
            destination_port,
            protocol: ServiceProtocol::Tcp,
            proxyprotocol: self.proxy_mode,
            http: false,
            health_check: HealthCheck {
                protocol: HealthCheckProtocol::Tcp,
                port: destination_port,
                interval: self.check_interval,
                retries: self.retries,
                timeout: self.timeout,
            },
        }
    }

    /// Whether `service` already is what is wanted on its port.
    fn service_is_current(&self, service: &BalancerService, destination_port: i32) -> (current: bool)
        ensures
            current == self.deep_view().service_is_current(*service, destination_port),
    {
        service.destination_port == destination_port && service.health_check.port
            == destination_port && service.health_check.interval == self.check_interval
            && service.health_check.retries == self.retries && service.health_check.timeout
            == self.timeout && service.proxyprotocol == self.proxy_mode && !service.http
            && service.health_check.protocol == HealthCheckProtocol::Tcp
    }

    /// The calls that bring the services of `balancer` to the wanted ones. A
    /// reported service is deleted where its port is not wanted, updated
    /// where one of the compared fields differs, and left alone otherwise;
    /// then each wanted port on which nothing listens gets its service.
    pub fn reconcile_services(&self, balancer: &ObservedLoadBalancer) -> (calls: Vec<Request>)
        ensures
            calls.deep_view() == self.deep_view().service_calls(balancer.deep_view()),
    {
        let ghost wanted = self.deep_view();
        let ghost observed = balancer.services@;
        let id = balancer.id;
        let mut calls: Vec<Request> = Vec::new();
        let mut i: usize = 0;
        assert(calls.deep_view() =~= wanted.service_fixes(id, observed.take(0)));
        while i < balancer.services.len()
            invariant
                wanted == self.deep_view(),
                observed == balancer.services@,
                id == balancer.id,
                i <= observed.len(),
                calls.deep_view() == wanted.service_fixes(id, observed.take(i as int)),
            decreases observed.len() - i,
        {
            let service = balancer.services[i];
            let ghost before = calls.deep_view();
            proof {
                assert(observed.take(i as int + 1).drop_last() =~= observed.take(i as int));
                assert(observed.take(i as int + 1).last() == service);
            }
            match self.services.get(&service.listen_port) {
                Some(destination_port) => {
                    if !self.service_is_current(&service, *destination_port) {
                        let fixed = self.service_for(service.listen_port, *destination_port);
                        calls.push(Request::UpdateService { id, service: fixed });
                        assert(calls.deep_view() =~= before + wanted.service_fix(id, service));
                    } else {
                        assert(calls.deep_view() =~= before + wanted.service_fix(id, service));
                    }
                },
                None => {
                    calls.push(Request::DeleteService { id, listen_port: service.listen_port });
                    assert(calls.deep_view() =~= before + wanted.service_fix(id, service));
                },
            }
            i = i + 1;
        }
        assert(observed.take(observed.len() as int) =~= observed);
        let services = self.service_list();
        let ghost ports = ascending_keys(wanted.services);
        let ghost fixes = calls.deep_view();
        let mut j: usize = 0;
        assert(calls.deep_view() =~= fixes + wanted.missing_services(id, observed, ports.take(0)));
        while j < services.len()
            invariant
                wanted == self.deep_view(),
                observed == balancer.services@,
                id == balancer.id,
                ports == ascending_keys(wanted.services),
                services@ == service_list(wanted.services),
                j <= ports.len(),
                calls.deep_view() == fixes + wanted.missing_services(
                    id,
                    observed,
                    ports.take(j as int),
                ),
            decreases ports.len() - j,
        {
            let service = services[j];
            let ghost before = calls.deep_view();
            proof {
                assert(ports.take(j as int + 1).drop_last() =~= ports.take(j as int));
                assert(ports.take(j as int + 1).last() == service.listen_port);
            }
            if !any_listens_on(&balancer.services, service.listen_port) {
                let added = self.service_for(service.listen_port, service.target_port);
                calls.push(Request::AddService { id, service: added });
                proof {
                    let call = RequestView::AddService { id, service: added };
                    let earlier = wanted.missing_services(id, observed, ports.take(j as int));
                    assert(calls.deep_view() =~= before.push(call));
                    assert(wanted.missing_services(id, observed, ports.take(j as int + 1))
                        == earlier.push(call));
                    assert(before.push(call) =~= fixes + earlier.push(call));
                }
            }
            j = j + 1;
        }
        assert(ports.take(ports.len() as int) =~= ports);
        calls
    }
}


/// Whether one of `targets` is given by the address `ip`.
pub open spec fn has_target(targets: Seq<TargetView>, ip: Seq<char>) -> bool {
    exists|i: int| 0 <= i < targets.len() && (#[trigger] targets[i]).ip == Some(ip)
}

impl LoadBalancerView {
    /// What is to be done about one target that the load balancer `id` has:
    /// a target given by an address that is not wanted is removed. Targets
    /// that are not given by address are left alone.
    pub open spec fn target_removal(self, id: i64, target: TargetView) -> Seq<RequestView> {
        match target.ip {
            Some(ip) => if self.targets.contains(ip) {
                Seq::empty()
            } else {
                seq![RequestView::RemoveTarget { id, ip }]
            },
            None => Seq::empty(),
        }
    }

    /// The removals for each of `observed`, in the order in which they are
    /// reported.
    pub open spec fn target_removals(self, id: i64, observed: Seq<TargetView>) -> Seq<RequestView>
        decreases observed.len(),
    {
        if observed.len() == 0 {
            Seq::empty()
        } else {
            self.target_removals(id, observed.drop_last()) + self.target_removal(
                id,
                observed.last(),
            )
        }
    }

    /// A target to add for each of `wanted` that none of `observed` has.
    pub open spec fn missing_targets(
        id: i64,
        observed: Seq<TargetView>,
        wanted: Seq<Seq<char>>,
    ) -> Seq<RequestView>
        decreases wanted.len(),
    {
        if wanted.len() == 0 {
            Seq::empty()
        } else {
            let before = Self::missing_targets(id, observed, wanted.drop_last());
            if has_target(observed, wanted.last()) {
                before
            } else {
                before.push(RequestView::AddTarget { id, ip: wanted.last() })
            }
        }
    }

    /// The calls that bring the targets of `balancer` to the wanted ones:
    /// first the removals, in the order of the reported targets, then the
    /// additions, in the order of the wanted targets.
    pub open spec fn target_calls(self, balancer: BalancerView) -> Seq<RequestView> {
        self.target_removals(balancer.id, balancer.targets) + Self::missing_targets(
            balancer.id,
            balancer.targets,
            self.targets,
        )
    }

    /// The call that brings the algorithm of `balancer` to the wanted one, if
    /// it differs.
    pub open spec fn algorithm_calls(self, balancer: BalancerView) -> Seq<RequestView> {
        if balancer.algorithm == self.algorithm {
            Seq::empty()
        } else {
            seq![RequestView::ChangeAlgorithm { id: balancer.id, algorithm: self.algorithm }]
        }
    }

    /// The call that brings the type of `balancer` to the wanted one, if it
    /// differs.
    pub open spec fn type_calls(self, balancer: BalancerView) -> Seq<RequestView> {
        if balancer.balancer_type == self.balancer_type {
            Seq::empty()
        } else {
            seq![RequestView::ChangeType { id: balancer.id, balancer_type: self.balancer_type }]
        }
    }

    /// Whether an attachment is the wanted one: it is to the network `wanted`
    /// and, where a private address is asked for, it has that address.
    pub open spec fn attachment_is_wanted(self, net: PrivateNetView, wanted: Option<i64>) -> bool {
        &&& net.network is Some
        &&& net.network == wanted
        &&& self.private_ip is Some ==> net.ip == self.private_ip
    }

    /// What is to be done about one attachment that the load balancer `id`
    /// has: it is detached unless it is the wanted one. An attachment that
    /// names no network is left alone.
    pub open spec fn detachment(self, id: i64, net: PrivateNetView, wanted: Option<i64>) -> Seq<
        RequestView,
    > {
        match net.network {
            Some(network) => if self.attachment_is_wanted(net, wanted) {
                Seq::empty()
            } else {
                seq![RequestView::DetachFromNetwork { id, network }]
            },
            None => Seq::empty(),
        }
    }

    /// The detachments for each of `nets`, in the order in which they are
    /// reported.
    pub open spec fn detachments(self, id: i64, nets: Seq<PrivateNetView>, wanted: Option<i64>) -> Seq<
        RequestView,
    >
        decreases nets.len(),
    {
        if nets.len() == 0 {
            Seq::empty()
        } else {
            self.detachments(id, nets.drop_last(), wanted) + self.detachment(
                id,
                nets.last(),
                wanted,
            )
        }
    }

    /// Whether one of `nets` is the wanted attachment.
    pub open spec fn has_wanted_attachment(self, nets: Seq<PrivateNetView>, wanted: Option<i64>) -> bool {
        exists|i: int| 0 <= i < nets.len() && self.attachment_is_wanted(#[trigger] nets[i], wanted)
    }

    /// The attachment to make where the wanted one is not there.
    pub open spec fn attachment(self, balancer: BalancerView, wanted: Option<i64>) -> Seq<RequestView> {
        match wanted {
            Some(network) => if self.has_wanted_attachment(balancer.private_net, wanted) {
                Seq::empty()
            } else {
                seq![RequestView::AttachToNetwork { id: balancer.id, network, ip: self.private_ip }]
            },
            None => Seq::empty(),
        }
    }

    /// The calls that bring the network attachments of `balancer` to the
    /// wanted one, `wanted` being the id of the wanted network, if one is
    /// wanted: first every other attachment is detached, in the order in
    /// which they are reported, then the wanted one is made unless it is
    /// there.
    pub open spec fn network_calls(self, balancer: BalancerView, wanted: Option<i64>) -> Seq<RequestView> {
        self.detachments(balancer.id, balancer.private_net, wanted) + self.attachment(
            balancer,
            wanted,
        )
    }

    /// The calls of one pass over `balancer`, in the order in which they are
    /// made: algorithm, type, network, services, targets.
    pub open spec fn pass_calls(self, balancer: BalancerView, network: Option<i64>) -> Seq<RequestView> {
        self.algorithm_calls(balancer) + self.type_calls(balancer) + self.network_calls(
            balancer,
            network,
        ) + self.service_calls(balancer) + self.target_calls(balancer)
    }

    /// The load balancer among those found by name: the one that was found,
    /// none where none was, and a refusal where there are several, for none
    /// of them is then picked.
    pub open spec fn found_balancer(found: Seq<BalancerView>) -> Result<Option<BalancerView>, ErrorView> {
        if found.len() > 1 {
            Err(ErrorView::SkipService)
        } else if found.len() == 1 {
            Ok(Some(found[0]))
        } else {
            Ok(None)
        }
    }

    /// The wanted network among those found by its name. Where no network
    /// is wanted there is none, whatever was found; a wanted network has to
    /// be found, and only once.
    pub open spec fn found_network(self, found: Seq<NetworkView>) -> Result<Option<NetworkView>, ErrorView> {
        match self.network_name {
            Some(name) => if found.len() > 1 {
                Err(ErrorView::HCloudError("Found more than one network with name "@ + name))
            } else if found.len() == 0 {
                Err(ErrorView::HCloudError("Network with name "@ + name + " not found"@))
            } else {
                Ok(Some(found[0]))
            },
            None => Ok(None),
        }
    }

    /// The calls that take `balancer` apart: every service is deleted, every
    /// target given by address is removed, then the load balancer itself is
    /// deleted.
    pub open spec fn cleanup_calls(balancer: BalancerView) -> Seq<RequestView> {
        Self::service_deletions(balancer.id, balancer.services) + Self::target_clearances(
            balancer.id,
            balancer.targets,
        ) + seq![RequestView::DeleteLoadBalancer { id: balancer.id }]
    }

    /// The deletion of each of `services`, in their order.
    pub open spec fn service_deletions(id: i64, services: Seq<BalancerService>) -> Seq<RequestView> {
        Seq::new(
            services.len(),
            |i: int| RequestView::DeleteService { id, listen_port: services[i].listen_port },
        )
    }

    /// The removal of one target, if it is given by address.
    pub open spec fn target_clearance(id: i64, target: TargetView) -> Seq<RequestView> {
        match target.ip {
            Some(ip) => seq![RequestView::RemoveTarget { id, ip }],
            None => Seq::empty(),
        }
    }

    /// The removal of each of `targets` that is given by address, in their
    /// order.
    pub open spec fn target_clearances(id: i64, targets: Seq<TargetView>) -> Seq<RequestView>
        decreases targets.len(),
    {
        if targets.len() == 0 {
            Seq::empty()
        } else {
            Self::target_clearances(id, targets.drop_last()) + Self::target_clearance(
                id,
                targets.last(),
            )
        }
    }

    /// The call that creates the wanted load balancer: by name, with the
    /// wanted algorithm, type and location, reachable from outside, and bare
    /// of services, targets and network, which a pass gives it afterwards.
    pub open spec fn creation(self) -> RequestView {
        RequestView::CreateLoadBalancer {
            name: self.name,
            algorithm: self.algorithm,
            balancer_type: self.balancer_type,
            location: self.location,
            public_interface: true,
            services: Seq::empty(),
            targets: Seq::empty(),
            network: None,
        }
    }
}

/// Whether one of `targets` is given by the address `ip`.
fn any_target_has(targets: &Vec<Target>, ip: &str) -> (found: bool)
    ensures
        found == has_target(targets.deep_view(), ip@),
{
    let mut i: usize = 0;
    while i < targets.len()
        invariant
            i <= targets.len(),
            forall|k: int| 0 <= k < i ==> (#[trigger] targets.deep_view()[k]).ip != Some(ip@),
        decreases targets.len() - i,
    {
        match &targets[i].ip {
            Some(have) => {
                if have.as_str().eq(ip) {
                    assert(targets.deep_view()[i as int].ip == Some(ip@));
                    return true;
                }
            },
            None => {},
        }
        i = i + 1;
    }
    false
}

impl LoadBalancer {
    /// The calls that bring the targets of `balancer` to the wanted ones. A
    /// reported target is removed where it is given by an address that is not
    /// wanted; then each wanted address that no reported target has is added.
    pub fn reconcile_targets(&self, balancer: &ObservedLoadBalancer) -> (calls: Vec<Request>)
        ensures
            calls.deep_view() == self.deep_view().target_calls(balancer.deep_view()),
    {
        let ghost wanted = self.deep_view();
        let ghost observed = balancer.targets.deep_view();
        let id = balancer.id;
        let mut calls: Vec<Request> = Vec::new();
        let mut i: usize = 0;
        assert(calls.deep_view() =~= wanted.target_removals(id, observed.take(0)));
        while i < balancer.targets.len()
            invariant
                wanted == self.deep_view(),
                observed == balancer.targets.deep_view(),
                id == balancer.id,
                i <= observed.len(),
                calls.deep_view() == wanted.target_removals(id, observed.take(i as int)),
            decreases observed.len() - i,
        {
            let ghost before = calls.deep_view();
            let ghost target = observed[i as int];
            proof {
                assert(observed.take(i as int + 1).drop_last() =~= observed.take(i as int));
                assert(observed.take(i as int + 1).last() == target);
            }
            match &balancer.targets[i].ip {
                Some(ip) => {
                    if !crate::text::holds_text(&self.targets, ip.as_str()) {
                        calls.push(Request::RemoveTarget { id, ip: ip.clone() });
                        assert(calls.deep_view() =~= before + wanted.target_removal(id, target));
                    } else {
                        assert(calls.deep_view() =~= before + wanted.target_removal(id, target));
                    }
                },
                None => {
                    assert(calls.deep_view() =~= before + wanted.target_removal(id, target));
                },
            }
            i = i + 1;
        }
        assert(observed.take(observed.len() as int) =~= observed);
        let ghost removals = calls.deep_view();
        let mut j: usize = 0;
        assert(calls.deep_view() =~= removals + LoadBalancerView::missing_targets(
            id,
            observed,
            wanted.targets.take(0),
        ));
        while j < self.targets.len()
            invariant
                wanted == self.deep_view(),
                observed == balancer.targets.deep_view(),
                id == balancer.id,
                j <= wanted.targets.len(),
                calls.deep_view() == removals + LoadBalancerView::missing_targets(
                    id,
                    observed,
                    wanted.targets.take(j as int),
                ),
            decreases wanted.targets.len() - j,
        {
            let ip = &self.targets[j];
            let ghost before = calls.deep_view();
            let ghost earlier = LoadBalancerView::missing_targets(
                id,
                observed,
                wanted.targets.take(j as int),
            );
            proof {
                assert(wanted.targets.take(j as int + 1).drop_last() =~= wanted.targets.take(
                    j as int,
                ));
                assert(wanted.targets.take(j as int + 1).last() == ip@);
            }
            if !any_target_has(&balancer.targets, ip.as_str()) {
                calls.push(Request::AddTarget { id, ip: ip.clone() });
                proof {
                    let call = RequestView::AddTarget { id, ip: ip@ };
                    assert(calls.deep_view() =~= before.push(call));
                    assert(before.push(call) =~= removals + earlier.push(call));
                }
            }
            j = j + 1;
        }
        assert(wanted.targets.take(wanted.targets.len() as int) =~= wanted.targets);
        calls
    }

    /// The call that brings the algorithm of `balancer` to the wanted one, if
    /// it differs.
    pub fn reconcile_algorithm(&self, balancer: &ObservedLoadBalancer) -> (calls: Vec<Request>)
        ensures
            calls.deep_view() == self.deep_view().algorithm_calls(balancer.deep_view()),
    {
        let mut calls: Vec<Request> = Vec::new();
        if balancer.algorithm == self.algorithm {
            assert(calls.deep_view() =~= Seq::empty());
        } else {
            calls.push(Request::ChangeAlgorithm { id: balancer.id, algorithm: self.algorithm });
            assert(calls.deep_view() =~= seq![
                RequestView::ChangeAlgorithm { id: balancer.id, algorithm: self.algorithm },
            ]);
        }
        calls
    }

    /// The call that brings the type of `balancer` to the wanted one, if it
    /// differs.
    pub fn reconcile_lb_type(&self, balancer: &ObservedLoadBalancer) -> (calls: Vec<Request>)
        ensures
            calls.deep_view() == self.deep_view().type_calls(balancer.deep_view()),
    {
        let mut calls: Vec<Request> = Vec::new();
        if balancer.balancer_type == self.balancer_type {
            assert(calls.deep_view() =~= Seq::empty());
        } else {
            calls.push(
                Request::ChangeType { id: balancer.id, balancer_type: self.balancer_type.clone() },
            );
            assert(calls.deep_view() =~= seq![
                RequestView::ChangeType { id: balancer.id, balancer_type: self.balancer_type@ },
            ]);
        }
        calls
    }

    /// Whether an attachment is the wanted one.
    fn attachment_is_wanted(&self, net: &PrivateNet, wanted: Option<i64>) -> (is_wanted: bool)
        ensures
            is_wanted == self.deep_view().attachment_is_wanted(net.deep_view(), wanted),
    {
        match net.network {
            Some(network) => match wanted {
                Some(wanted_network) => {
                    network == wanted_network && (self.private_ip.is_none()
                        || crate::text::same_optional_text(&net.ip, &self.private_ip))
                },
                None => false,
            },
            None => false,
        }
    }

    /// The calls that bring the network attachments of `balancer` to the
    /// wanted one. `wanted` is the id of the wanted network, or nothing where
    /// the load balancer is to be in no network.
    pub fn reconcile_network(&self, balancer: &ObservedLoadBalancer, wanted: Option<i64>) -> (calls:
        Vec<Request>)
        ensures
            calls.deep_view() == self.deep_view().network_calls(balancer.deep_view(), wanted),
    {
        let ghost this = self.deep_view();
        let ghost nets = balancer.private_net.deep_view();
        let id = balancer.id;
        let mut calls: Vec<Request> = Vec::new();
        let mut found = false;
        let mut i: usize = 0;
        assert(calls.deep_view() =~= this.detachments(id, nets.take(0), wanted));
        while i < balancer.private_net.len()
            invariant
                this == self.deep_view(),
                nets == balancer.private_net.deep_view(),
                id == balancer.id,
                i <= nets.len(),
                calls.deep_view() == this.detachments(id, nets.take(i as int), wanted),
                found == this.has_wanted_attachment(nets.take(i as int), wanted),
            decreases nets.len() - i,
        {
            let net = &balancer.private_net[i];
            let ghost before = calls.deep_view();
            proof {
                assert(nets.take(i as int + 1).drop_last() =~= nets.take(i as int));
                assert(nets.take(i as int + 1).last() == net.deep_view());
            }
            let is_wanted = self.attachment_is_wanted(net, wanted);
            proof {
                if found {
                    let k = choose|k: int|
                        0 <= k < nets.take(i as int).len() && this.attachment_is_wanted(
                            #[trigger] nets.take(i as int)[k],
                            wanted,
                        );
                    assert(nets.take(i as int + 1)[k] == nets.take(i as int)[k]);
                }
                if is_wanted {
                    assert(this.attachment_is_wanted(nets.take(i as int + 1)[i as int], wanted));
                }
                if this.has_wanted_attachment(nets.take(i as int + 1), wanted) && !is_wanted {
                    let k = choose|k: int|
                        0 <= k < nets.take(i as int + 1).len() && this.attachment_is_wanted(
                            #[trigger] nets.take(i as int + 1)[k],
                            wanted,
                        );
                    assert(nets.take(i as int)[k] == nets.take(i as int + 1)[k]);
                }
            }
            match net.network {
                Some(network) => {
                    if is_wanted {
                        found = true;
                        assert(calls.deep_view() =~= before + this.detachment(
                            id,
                            net.deep_view(),
                            wanted,
                        ));
                    } else {
                        calls.push(Request::DetachFromNetwork { id, network });
                        assert(calls.deep_view() =~= before + this.detachment(
                            id,
                            net.deep_view(),
                            wanted,
                        ));
                    }
                },
                None => {
                    assert(calls.deep_view() =~= before + this.detachment(
                        id,
                        net.deep_view(),
                        wanted,
                    ));
                },
            }
            i = i + 1;
        }
        assert(nets.take(nets.len() as int) =~= nets);
        let ghost detached = calls.deep_view();
        if !found {
            match wanted {
                Some(network) => {
                    calls.push(
                        Request::AttachToNetwork {
                            id,
                            network,
                            ip: crate::text::copy_optional_text(&self.private_ip),
                        },
                    );
                    assert(calls.deep_view() =~= detached + this.attachment(
                        balancer.deep_view(),
                        wanted,
                    ));
                },
                None => {
                    assert(calls.deep_view() =~= detached + this.attachment(
                        balancer.deep_view(),
                        wanted,
                    ));
                },
            }
        } else {
            assert(calls.deep_view() =~= detached + this.attachment(balancer.deep_view(), wanted));
        }
        calls
    }

    /// The call that creates the wanted load balancer, bare of services,
    /// targets and network.
    pub fn creation(&self) -> (call: Request)
        ensures
            call.deep_view() == self.deep_view().creation(),
    {
        let targets: Vec<String> = Vec::new();
        assert(targets.deep_view() =~= Seq::empty());
        Request::CreateLoadBalancer {
            name: self.name.clone(),
            algorithm: self.algorithm,
            balancer_type: self.balancer_type.clone(),
            location: self.location.clone(),
            public_interface: true,
            services: Vec::new(),
            targets,
            network: None,
        }
    }
}


impl LoadBalancer {
    /// Picks the load balancer out of those that were found by the wanted
    /// name. Several load balancers of one name are refused with
    /// `SkipService`.
    pub fn get_hcloud_lb(&self, found: Vec<ObservedLoadBalancer>) -> (picked: Result<
        Option<ObservedLoadBalancer>,
        LBTrackerError,
    >)
        ensures
            match picked {
                Ok(Some(balancer)) => LoadBalancerView::found_balancer(found.deep_view()) == Ok::<
                    Option<BalancerView>,
                    ErrorView,
                >(Some(balancer.deep_view())),
                Ok(None) => LoadBalancerView::found_balancer(found.deep_view()) == Ok::<
                    Option<BalancerView>,
                    ErrorView,
                >(None),
                Err(error) => LoadBalancerView::found_balancer(found.deep_view()) == Err::<
                    Option<BalancerView>,
                    ErrorView,
                >(error.deep_view()),
            },
    {
        if found.len() > 1 {
            return Err(LBTrackerError::SkipService);
        }
        let mut found = found;
        let ghost all = found.deep_view();
        match found.pop() {
            Some(balancer) => {
                assert(all[0] == balancer.deep_view());
                Ok(Some(balancer))
            },
            None => Ok(None),
        }
    }

    /// The load balancer of the wanted name where one was found, and
    /// otherwise the call that creates it.
    pub fn get_or_create_hcloud_lb(&self, found: Vec<ObservedLoadBalancer>) -> (fetched: Result<
        Result<ObservedLoadBalancer, Request>,
        LBTrackerError,
    >)
        ensures
            match fetched {
                Ok(Ok(balancer)) => LoadBalancerView::found_balancer(found.deep_view()) == Ok::<
                    Option<BalancerView>,
                    ErrorView,
                >(Some(balancer.deep_view())),
                Ok(Err(call)) => LoadBalancerView::found_balancer(found.deep_view()) == Ok::<
                    Option<BalancerView>,
                    ErrorView,
                >(None) && call.deep_view() == self.deep_view().creation(),
                Err(error) => LoadBalancerView::found_balancer(found.deep_view()) == Err::<
                    Option<BalancerView>,
                    ErrorView,
                >(error.deep_view()),
            },
    {
        match self.get_hcloud_lb(found) {
            Ok(Some(balancer)) => Ok(Ok(balancer)),
            Ok(None) => Ok(Err(self.creation())),
            Err(error) => Err(error),
        }
    }

    /// Picks the wanted network out of those that were found by its name.
    /// Where no network is wanted, none is picked; a wanted network that was
    /// not found, or found more than once, is an error.
    pub fn get_network(&self, found: Vec<Network>) -> (picked: Result<Option<Network>, LBTrackerError>)
        ensures
            match picked {
                Ok(Some(network)) => self.deep_view().found_network(found.deep_view()) == Ok::<
                    Option<NetworkView>,
                    ErrorView,
                >(Some(network.deep_view())),
                Ok(None) => self.deep_view().found_network(found.deep_view()) == Ok::<
                    Option<NetworkView>,
                    ErrorView,
                >(None),
                Err(error) => self.deep_view().found_network(found.deep_view()) == Err::<
                    Option<NetworkView>,
                    ErrorView,
                >(error.deep_view()),
            },
    {
        match &self.network_name {
            Some(name) => {
                if found.len() > 1 {
                    let mut message = String::from_str("Found more than one network with name ");
                    message.append(name.as_str());
                    return Err(LBTrackerError::HCloudError(message));
                }
                let mut found = found;
                let ghost all = found.deep_view();
                match found.pop() {
                    Some(network) => {
                        assert(all[0] == network.deep_view());
                        Ok(Some(network))
                    },
                    None => {
                        let mut message = String::from_str("Network with name ");
                        message.append(name.as_str());
                        message.append(" not found");
                        Err(LBTrackerError::HCloudError(message))
                    },
                }
            },
            None => Ok(None),
        }
    }

    /// The calls that take `balancer` apart.
    pub fn cleanup_calls(balancer: &ObservedLoadBalancer) -> (calls: Vec<Request>)
        ensures
            calls.deep_view() == LoadBalancerView::cleanup_calls(balancer.deep_view()),
    {
        let id = balancer.id;
        let ghost services = balancer.services@;
        let ghost targets = balancer.targets.deep_view();
        let mut calls: Vec<Request> = Vec::new();
        let mut i: usize = 0;
        while i < balancer.services.len()
            invariant
                id == balancer.id,
                services == balancer.services@,
                i <= services.len(),
                calls.deep_view().len() == i,
                forall|k: int|
                    0 <= k < i ==> #[trigger] calls.deep_view()[k] == (RequestView::DeleteService {
                        id,
                        listen_port: services[k].listen_port,
                    }),
            decreases services.len() - i,
        {
            let ghost before = calls.deep_view();
            calls.push(Request::DeleteService { id, listen_port: balancer.services[i].listen_port });
            proof {
                assert(calls.deep_view().drop_last() =~= before);
                assert forall|k: int| 0 <= k < i + 1 implies #[trigger] calls.deep_view()[k] == (
                RequestView::DeleteService { id, listen_port: services[k].listen_port }) by {
                    if k < i {
                        assert(calls.deep_view()[k] == before[k]);
                    }
                }
            }
            i = i + 1;
        }
        let ghost deletions = calls.deep_view();
        assert(deletions =~= LoadBalancerView::service_deletions(id, services));
        let mut j: usize = 0;
        assert(calls.deep_view() =~= deletions + LoadBalancerView::target_clearances(
            id,
            targets.take(0),
        ));
        while j < balancer.targets.len()
            invariant
                id == balancer.id,
                targets == balancer.targets.deep_view(),
                j <= targets.len(),
                calls.deep_view() == deletions + LoadBalancerView::target_clearances(
                    id,
                    targets.take(j as int),
                ),
            decreases targets.len() - j,
        {
            let ghost before = calls.deep_view();
            proof {
                assert(targets.take(j as int + 1).drop_last() =~= targets.take(j as int));
                assert(targets.take(j as int + 1).last() == targets[j as int]);
            }
            match &balancer.targets[j].ip {
                Some(ip) => {
                    calls.push(Request::RemoveTarget { id, ip: ip.clone() });
                    assert(calls.deep_view() =~= before + LoadBalancerView::target_clearance(
                        id,
                        targets[j as int],
                    ));
                },
                None => {
                    assert(calls.deep_view() =~= before + LoadBalancerView::target_clearance(
                        id,
                        targets[j as int],
                    ));
                },
            }
            j = j + 1;
        }
        assert(targets.take(targets.len() as int) =~= targets);
        let ghost cleared = calls.deep_view();
        calls.push(Request::DeleteLoadBalancer { id });
        assert(calls.deep_view() =~= cleared + seq![RequestView::DeleteLoadBalancer { id }]);
        calls
    }
}


/// A number that an annotation may set: the annotation's value where the
/// service has the annotation, which then has to be a number, and the
/// default otherwise.
pub open spec fn number_setting(
    annotations: Map<Seq<char>, Seq<char>>,
    key: Seq<char>,
    default: i32,
) -> Result<i32, ErrorView> {
    if annotations.contains_key(key) {
        if is_decimal_i32(annotations[key]) {
            Ok(decimal_value(annotations[key]) as i32)
        } else {
            Err(ErrorView::PaseIntError)
        }
    } else {
        Ok(default)
    }
}

/// A switch that an annotation may set to `true` or `false`.
pub open spec fn switch_setting(
    annotations: Map<Seq<char>, Seq<char>>,
    key: Seq<char>,
    default: bool,
) -> Result<bool, ErrorView> {
    if annotations.contains_key(key) {
        if annotations[key] == "true"@ {
            Ok(true)
        } else if annotations[key] == "false"@ {
            Ok(false)
        } else {
            Err(ErrorView::PaseBoolError)
        }
    } else {
        Ok(default)
    }
}

/// A text that an annotation may set.
pub open spec fn text_setting(
    annotations: Map<Seq<char>, Seq<char>>,
    key: Seq<char>,
    default: Seq<char>,
) -> Seq<char> {
    if annotations.contains_key(key) {
        annotations[key]
    } else {
        default
    }
}

/// A text that an annotation may set and that has no default.
pub open spec fn optional_setting(annotations: Map<Seq<char>, Seq<char>>, key: Seq<char>) -> Option<
    Seq<char>,
> {
    if annotations.contains_key(key) {
        Some(annotations[key])
    } else {
        None
    }
}

/// The algorithm that a text names.
pub open spec fn algorithm_named(text: Seq<char>) -> Result<LBAlgorithm, ErrorView> {
    if text == "round-robin"@ {
        Ok(LBAlgorithm::RoundRobin)
    } else if text == "least-connections"@ {
        Ok(LBAlgorithm::LeastConnections)
    } else {
        Err(ErrorView::UnknownLBAlgorithm)
    }
}

/// The load balancer that a service asks for, before its targets and
/// services are known. Each setting is the service's annotation where there
/// is one, and the operator's default otherwise; the name falls back to the
/// service's name; a private address is only ever asked for by annotation.
/// The settings are read in the order retries, timeout, check interval,
/// proxy mode, algorithm, and the first that cannot be read is the error.
pub open spec fn wanted_balancer(svc: ServiceView, config: OperatorConfigView) -> Result<
    LoadBalancerView,
    ErrorView,
> {
    let set = svc.annotations;
    match number_setting(set, consts::LB_RETRIES_ANN_NAME@, config.default_lb_retries) {
        Err(error) => Err(error),
        Ok(retries) => match number_setting(
            set,
            consts::LB_TIMEOUT_ANN_NAME@,
            config.default_lb_timeout,
        ) {
            Err(error) => Err(error),
            Ok(timeout) => match number_setting(
                set,
                consts::LB_CHECK_INTERVAL_ANN_NAME@,
                config.default_lb_interval,
            ) {
                Err(error) => Err(error),
                Ok(check_interval) => match switch_setting(
                    set,
                    consts::LB_PROXY_MODE_LABEL_NAME@,
                    config.default_lb_proxy_mode_enabled,
                ) {
                    Err(error) => Err(error),
                    Ok(proxy_mode) => match algorithm_named(
                        text_setting(
                            set,
                            consts::LB_ALGORITHM_LABEL_NAME@,
                            config.default_lb_algorithm,
                        ),
                    ) {
                        Err(error) => Err(error),
                        Ok(algorithm) => Ok(
                            LoadBalancerView {
                                name: text_setting(set, consts::LB_NAME_LABEL_NAME@, svc.name),
                                services: Map::empty(),
                                targets: Seq::empty(),
                                private_ip: optional_setting(
                                    set,
                                    consts::LB_PRIVATE_IP_LABEL_NAME@,
                                ),
                                check_interval,
                                timeout,
                                retries,
                                proxy_mode,
                                location: text_setting(
                                    set,
                                    consts::LB_LOCATION_LABEL_NAME@,
                                    config.default_lb_location,
                                ),
                                balancer_type: text_setting(
                                    set,
                                    consts::LB_BALANCER_TYPE_LABEL_NAME@,
                                    config.default_balancer_type,
                                ),
                                algorithm,
                                network_name: if set.contains_key(consts::LB_NETWORK_LABEL_NAME@) {
                                    Some(set[consts::LB_NETWORK_LABEL_NAME@])
                                } else {
                                    config.default_network
                                },
                            },
                        ),
                    },
                },
            },
        },
    }
}

/// Reads a number that an annotation may set.
fn read_number(annotations: &StringMap, key: &str, default: i32) -> (number: Result<
    i32,
    LBTrackerError,
>)
    ensures
        match number {
            Ok(n) => number_setting(annotations@, key@, default) == Ok::<i32, ErrorView>(n),
            Err(error) => number_setting(annotations@, key@, default) == Err::<i32, ErrorView>(
                error.deep_view(),
            ),
        },
{
    match annotations.get(key) {
        Some(text) => match parse_i32(text.as_str()) {
            Ok(n) => Ok(n),
            Err(error) => Err(LBTrackerError::PaseIntError(error)),
        },
        None => Ok(default),
    }
}

/// Reads a switch that an annotation may set.
fn read_switch(annotations: &StringMap, key: &str, default: bool) -> (switch: Result<
    bool,
    LBTrackerError,
>)
    ensures
        match switch {
            Ok(b) => switch_setting(annotations@, key@, default) == Ok::<bool, ErrorView>(b),
            Err(error) => switch_setting(annotations@, key@, default) == Err::<bool, ErrorView>(
                error.deep_view(),
            ),
        },
{
    match annotations.get(key) {
        Some(text) => match parse_bool(text.as_str()) {
            Ok(b) => Ok(b),
            Err(error) => Err(LBTrackerError::PaseBoolError(error)),
        },
        None => Ok(default),
    }
}

/// Reads a text that an annotation may set.
fn read_text(annotations: &StringMap, key: &str, default: &String) -> (text: String)
    ensures
        text@ == text_setting(annotations@, key@, default@),
{
    match annotations.get(key) {
        Some(text) => text.clone(),
        None => default.clone(),
    }
}

/// Reads a text that an annotation may set and that has no default.
fn read_optional(annotations: &StringMap, key: &str) -> (text: Option<String>)
    ensures
        text.deep_view() == optional_setting(annotations@, key@),
{
    match annotations.get(key) {
        Some(text) => Some(text.clone()),
        None => None,
    }
}

impl LBAlgorithm {
    /// The algorithm that a text names: `round-robin` or
    /// `least-connections`.
    pub fn from_str(s: &str) -> (algorithm: Result<LBAlgorithm, LBTrackerError>)
        ensures
            match algorithm {
                Ok(named) => algorithm_named(s@) == Ok::<LBAlgorithm, ErrorView>(named),
                Err(error) => algorithm_named(s@) == Err::<LBAlgorithm, ErrorView>(
                    error.deep_view(),
                ),
            },
    {
        if s.eq("round-robin") {
            Ok(LBAlgorithm::RoundRobin)
        } else if s.eq("least-connections") {
            Ok(LBAlgorithm::LeastConnections)
        } else {
            Err(LBTrackerError::UnknownLBAlgorithm)
        }
    }
}

impl LoadBalancer {
    /// The load balancer that `svc` asks for, from its annotations and the
    /// operator's defaults, still without targets and services.
    pub fn try_from_svc(svc: &Service, context: &CurrentContext) -> (built: Result<
        LoadBalancer,
        LBTrackerError,
    >)
        ensures
            match built {
                Ok(balancer) => wanted_balancer(svc.deep_view(), context.config.deep_view()) == Ok::<
                    LoadBalancerView,
                    ErrorView,
                >(balancer.deep_view()),
                Err(error) => wanted_balancer(svc.deep_view(), context.config.deep_view()) == Err::<
                    LoadBalancerView,
                    ErrorView,
                >(error.deep_view()),
            },
    {
        let set = &svc.annotations;
        let config = &context.config;
        let retries = match read_number(set, consts::LB_RETRIES_ANN_NAME, config.default_lb_retries) {
            Ok(n) => n,
            Err(error) => {
                return Err(error);
            },
        };
        let timeout = match read_number(set, consts::LB_TIMEOUT_ANN_NAME, config.default_lb_timeout) {
            Ok(n) => n,
            Err(error) => {
                return Err(error);
            },
        };
        let check_interval = match read_number(
            set,
            consts::LB_CHECK_INTERVAL_ANN_NAME,
            config.default_lb_interval,
        ) {
            Ok(n) => n,
            Err(error) => {
                return Err(error);
            },
        };
        let proxy_mode = match read_switch(
            set,
            consts::LB_PROXY_MODE_LABEL_NAME,
            config.default_lb_proxy_mode_enabled,
        ) {
            Ok(b) => b,
            Err(error) => {
                return Err(error);
            },
        };
        let location = read_text(set, consts::LB_LOCATION_LABEL_NAME, &config.default_lb_location);
        let balancer_type = read_text(
            set,
            consts::LB_BALANCER_TYPE_LABEL_NAME,
            &config.default_balancer_type,
        );
        let algorithm_name = read_text(
            set,
            consts::LB_ALGORITHM_LABEL_NAME,
            &config.default_lb_algorithm,
        );
        let algorithm = match LBAlgorithm::from_str(algorithm_name.as_str()) {
            Ok(named) => named,
            Err(error) => {
                return Err(error);
            },
        };
        let network_name = match set.get(consts::LB_NETWORK_LABEL_NAME) {
            Some(name) => Some(name.clone()),
            None => crate::text::copy_optional_text(&config.default_network),
        };
        let name = read_text(set, consts::LB_NAME_LABEL_NAME, &svc.name);
        let private_ip = read_optional(set, consts::LB_PRIVATE_IP_LABEL_NAME);
        let balancer = LoadBalancer {
            name,
            services: HashMap::new(),
            targets: Vec::new(),
            private_ip,
            check_interval,
            timeout,
            retries,
            proxy_mode,
            location,
            balancer_type,
            algorithm,
            network_name,
        };
        assert(balancer.targets.deep_view() =~= Seq::empty());
        Ok(balancer)
    }
}

} // verus!
