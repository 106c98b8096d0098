//! What a pass of calls does to a load balancer, and why one pass is enough:
//! after it the load balancer is the wanted one, and a further pass finds
//! nothing to do.

use crate::calls::RequestView;
use crate::cloud::{BalancerService, BalancerView, PrivateNetView, TargetView};
use crate::lb::{has_target, listens_on, LoadBalancerView};
use crate::ports::{ascending_keys, lists_keys};
use vstd::prelude::*;

verus! {

/// Tells the services that do not listen on `port`.
pub open spec fn off_port(port: i32) -> spec_fn(BalancerService) -> bool {
    |s: BalancerService| s.listen_port != port
}

/// Puts `service` in the place of the service on its port.
pub open spec fn replace_on_port(service: BalancerService) -> spec_fn(BalancerService) -> BalancerService {
    |s: BalancerService|
        if s.listen_port == service.listen_port {
            service
        } else {
            s
        }
}

/// Tells the targets that are not given by the address `ip`.
pub open spec fn other_than(ip: Seq<char>) -> spec_fn(TargetView) -> bool {
    |t: TargetView| t.ip != Some(ip)
}

/// Tells the attachments that are not to `network`.
pub open spec fn outside_of(network: i64) -> spec_fn(PrivateNetView) -> bool {
    |n: PrivateNetView| n.network != Some(network)
}

/// The services of a load balancer after Hetzner Cloud has carried out
/// `call` on it. Services are told apart by their listen port.
pub open spec fn services_after(services: Seq<BalancerService>, call: RequestView) -> Seq<
    BalancerService,
> {
    match call {
        RequestView::UpdateService { service, .. } => services.map_values(replace_on_port(service)),
        RequestView::DeleteService { listen_port, .. } => services.filter(off_port(listen_port)),
        RequestView::AddService { service, .. } => services.push(service),
        _ => services,
    }
}

/// The targets of a load balancer after `call`.
pub open spec fn targets_after(targets: Seq<TargetView>, call: RequestView) -> Seq<TargetView> {
    match call {
        RequestView::RemoveTarget { ip, .. } => targets.filter(other_than(ip)),
        RequestView::AddTarget { ip, .. } => targets.push(TargetView { ip: Some(ip) }),
        _ => targets,
    }
}

/// The network attachments of a load balancer after `call`. Where an
/// attachment asks for no address, the cloud gives one: `given_ip`.
pub open spec fn nets_after(nets: Seq<PrivateNetView>, call: RequestView, given_ip: Seq<char>) -> Seq<
    PrivateNetView,
> {
    match call {
        RequestView::DetachFromNetwork { network, .. } => nets.filter(outside_of(network)),
        RequestView::AttachToNetwork { network, ip, .. } => nets.push(
            PrivateNetView {
                network: Some(network),
                ip: Some(
                    match ip {
                        Some(asked) => asked,
                        None => given_ip,
                    },
                ),
            },
        ),
        _ => nets,
    }
}

/// The load balancer that `call` names, after Hetzner Cloud has carried the
/// call out.
pub open spec fn carried_out(balancer: BalancerView, call: RequestView, given_ip: Seq<char>) -> BalancerView {
    BalancerView {
        algorithm: match call {
            RequestView::ChangeAlgorithm { algorithm, .. } => algorithm,
            _ => balancer.algorithm,
        },
        balancer_type: match call {
            RequestView::ChangeType { balancer_type, .. } => balancer_type,
            _ => balancer.balancer_type,
        },
        services: services_after(balancer.services, call),
        targets: targets_after(balancer.targets, call),
        private_net: nets_after(balancer.private_net, call, given_ip),
        ..balancer
    }
}

/// The load balancer after a run of calls, one after the other.
pub open spec fn carried_out_all(balancer: BalancerView, calls: Seq<RequestView>, given_ip: Seq<char>) -> BalancerView
    decreases calls.len(),
{
    if calls.len() == 0 {
        balancer
    } else {
        carried_out(carried_out_all(balancer, calls.drop_last(), given_ip), calls.last(), given_ip)
    }
}

/// Carrying out two runs of calls, one after the other, is carrying out
/// their concatenation.
pub proof fn runs_compose(
    balancer: BalancerView,
    first: Seq<RequestView>,
    second: Seq<RequestView>,
    given_ip: Seq<char>,
)
    ensures
        carried_out_all(balancer, first + second, given_ip) == carried_out_all(
            carried_out_all(balancer, first, given_ip),
            second,
            given_ip,
        ),
    decreases second.len(),
{
    if second.len() == 0 {
        assert(first + second =~= first);
    } else {
        runs_compose(balancer, first, second.drop_last(), given_ip);
        assert((first + second).drop_last() =~= first + second.drop_last());
        assert((first + second).last() == second.last());
    }
}

/// A run of one call is that call.
pub proof fn run_of_one(balancer: BalancerView, calls: Seq<RequestView>, given_ip: Seq<char>)
    requires
        calls.len() == 1,
    ensures
        carried_out_all(balancer, calls, given_ip) == carried_out(balancer, calls[0], given_ip),
{
    assert(calls.drop_last() =~= Seq::empty());
    assert(carried_out_all(balancer, calls.drop_last(), given_ip) == balancer);
}

/// A filter keeps a list whose members all pass it.
pub proof fn filter_keeps_all<A>(items: Seq<A>, pass: spec_fn(A) -> bool)
    requires
        forall|i: int| 0 <= i < items.len() ==> pass(#[trigger] items[i]),
    ensures
        items.filter(pass) == items,
    decreases items.len(),
{
    reveal(Seq::filter);
    if items.len() > 0 {
        assert forall|i: int| 0 <= i < items.drop_last().len() implies pass(
            #[trigger] items.drop_last()[i],
        ) by {
            assert(items.drop_last()[i] == items[i]);
        }
        filter_keeps_all(items.drop_last(), pass);
        assert(pass(items[items.len() - 1]));
        assert(items.filter(pass) == items.drop_last().filter(pass).push(items.last()));
        assert(items.drop_last().push(items.last()) =~= items);
    } else {
        assert(items.filter(pass) =~= items);
    }
}

/// A filter takes exactly `out` from a list in which only `out` fails it.
pub proof fn filter_takes_one<A>(before: Seq<A>, out: A, after: Seq<A>, pass: spec_fn(A) -> bool)
    requires
        forall|i: int| 0 <= i < before.len() ==> pass(#[trigger] before[i]),
        forall|i: int| 0 <= i < after.len() ==> pass(#[trigger] after[i]),
        !pass(out),
    ensures
        (before + seq![out] + after).filter(pass) == before + after,
{
    reveal(Seq::filter);
    filter_keeps_all(before, pass);
    filter_keeps_all(after, pass);
    Seq::filter_distributes_over_add(before + seq![out], after, pass);
    Seq::filter_distributes_over_add(before, seq![out], pass);
    let single = seq![out];
    assert(single.len() == 1);
    assert(single.last() == out);
    assert(single.drop_last() =~= Seq::<A>::empty());
    assert(single.drop_last().filter(pass) =~= Seq::<A>::empty());
    assert(single.filter(pass) == single.drop_last().filter(pass));
    assert(before + Seq::<A>::empty() =~= before);
}


/// Whether no two of `services` listen on the same port.
pub open spec fn distinct_ports(services: Seq<BalancerService>) -> bool {
    forall|i: int, j: int|
        0 <= i < j < services.len() ==> (#[trigger] services[i]).listen_port != (
        #[trigger] services[j]).listen_port
}

impl LoadBalancerView {
    /// What a pass leaves of one reported service: nothing where its port is
    /// not wanted, the service itself where it is current, the wanted
    /// service otherwise.
    pub open spec fn kept_service(self, service: BalancerService) -> Seq<BalancerService> {
        if self.services.contains_key(service.listen_port) {
            let destination_port = self.services[service.listen_port];
            if self.service_is_current(service, destination_port) {
                seq![service]
            } else {
                seq![self.service_for(service.listen_port, destination_port)]
            }
        } else {
            Seq::empty()
        }
    }

    /// What a pass leaves of the reported services, in their order.
    pub open spec fn kept_services(self, observed: Seq<BalancerService>) -> Seq<BalancerService>
        decreases observed.len(),
    {
        if observed.len() == 0 {
            Seq::empty()
        } else {
            self.kept_services(observed.drop_last()) + self.kept_service(observed.last())
        }
    }

    /// The services that a pass adds: the wanted service for each of `ports`
    /// on which none of `observed` listens.
    pub open spec fn added_services(self, observed: Seq<BalancerService>, ports: Seq<i32>) -> Seq<
        BalancerService,
    >
        decreases ports.len(),
    {
        if ports.len() == 0 {
            Seq::empty()
        } else {
            let before = self.added_services(observed, ports.drop_last());
            if listens_on(observed, ports.last()) {
                before
            } else {
                before.push(self.service_for(ports.last(), self.services[ports.last()]))
            }
        }
    }

    /// The services of a load balancer after a pass over `observed`.
    pub open spec fn services_in_step(self, observed: Seq<BalancerService>) -> Seq<BalancerService> {
        self.kept_services(observed) + self.added_services(observed, ascending_keys(self.services))
    }

    /// Whether `services` are the wanted ones: each listens on a wanted
    /// port and is current, and on each wanted port one of them listens.
    pub open spec fn services_are_wanted(self, services: Seq<BalancerService>) -> bool {
        &&& forall|i: int|
            0 <= i < services.len() ==> self.services.contains_key(
                (#[trigger] services[i]).listen_port,
            ) && self.service_is_current(services[i], self.services[services[i].listen_port])
        &&& forall|port: i32| #[trigger]
            self.services.contains_key(port) ==> listens_on(services, port)
    }
}

/// What a pass keeps of the reported services listens on wanted ports, is
/// current, and listens where a reported service did.
pub proof fn kept_services_are_current(wanted: LoadBalancerView, observed: Seq<BalancerService>)
    ensures
        forall|i: int|
            0 <= i < wanted.kept_services(observed).len() ==> {
                let kept = #[trigger] wanted.kept_services(observed)[i];
                &&& wanted.services.contains_key(kept.listen_port)
                &&& wanted.service_is_current(kept, wanted.services[kept.listen_port])
                &&& listens_on(observed, kept.listen_port)
            },
    decreases observed.len(),
{
    if observed.len() > 0 {
        let earlier = wanted.kept_services(observed.drop_last());
        kept_services_are_current(wanted, observed.drop_last());
        assert forall|i: int| 0 <= i < wanted.kept_services(observed).len() implies {
            let kept = #[trigger] wanted.kept_services(observed)[i];
            &&& wanted.services.contains_key(kept.listen_port)
            &&& wanted.service_is_current(kept, wanted.services[kept.listen_port])
            &&& listens_on(observed, kept.listen_port)
        } by {
            let kept = wanted.kept_services(observed)[i];
            if i < earlier.len() {
                assert(kept == earlier[i]);
                let j = choose|j: int|
                    0 <= j < observed.drop_last().len() && (
                    #[trigger] observed.drop_last()[j]).listen_port == kept.listen_port;
                assert(observed[j].listen_port == kept.listen_port);
            } else {
                assert(kept == wanted.kept_service(observed.last())[0]);
                assert(observed[observed.len() - 1].listen_port == kept.listen_port);
            }
        }
    }
}

/// After the fixes for the first `done` of its services, a load balancer has
/// what the pass keeps of those, followed by the services not yet looked at.
pub proof fn fixes_keep_the_wanted(
    wanted: LoadBalancerView,
    balancer: BalancerView,
    done: int,
    given_ip: Seq<char>,
)
    requires
        0 <= done <= balancer.services.len(),
        distinct_ports(balancer.services),
    ensures
        carried_out_all(
            balancer,
            wanted.service_fixes(balancer.id, balancer.services.take(done)),
            given_ip,
        ) == (BalancerView {
            services: wanted.kept_services(balancer.services.take(done)) + balancer.services.skip(
                done,
            ),
            ..balancer
        }),
    decreases done,
{
    let services = balancer.services;
    if done == 0 {
        assert(services.take(0) =~= Seq::empty());
        assert(wanted.kept_services(services.take(0)) + services.skip(0) =~= services);
    } else {
        fixes_keep_the_wanted(wanted, balancer, done - 1, given_ip);
        let earlier = services.take(done - 1);
        let service = services[done - 1];
        let port = service.listen_port;
        assert(services.take(done).drop_last() =~= earlier);
        assert(services.take(done).last() == service);
        let fix = wanted.service_fix(balancer.id, service);
        runs_compose(balancer, wanted.service_fixes(balancer.id, earlier), fix, given_ip);
        let kept = wanted.kept_services(earlier);
        let rest = services.skip(done);
        let reached = carried_out_all(
            balancer,
            wanted.service_fixes(balancer.id, earlier),
            given_ip,
        );
        assert(services.skip(done - 1) =~= seq![service] + rest);
        assert(reached.services =~= kept + seq![service] + rest);
        kept_services_are_current(wanted, earlier);
        assert forall|i: int| 0 <= i < kept.len() implies (#[trigger] kept[i]).listen_port
            != port by {
            let j = choose|j: int|
                0 <= j < earlier.len() && (#[trigger] earlier[j]).listen_port
                    == kept[i].listen_port;
            assert(services[j].listen_port == kept[i].listen_port);
        }
        assert forall|i: int| 0 <= i < rest.len() implies (#[trigger] rest[i]).listen_port
            != port by {
            assert(rest[i] == services[done + i]);
        }
        if fix.len() == 0 {
            assert(wanted.kept_services(services.take(done)) + rest =~= kept + seq![service]
                + rest);
        } else {
            run_of_one(reached, fix, given_ip);
            if wanted.services.contains_key(port) {
                let fixed = wanted.service_for(port, wanted.services[port]);
                assert(fix.last() == RequestView::UpdateService {
                    id: balancer.id,
                    service: fixed,
                });
                assert((kept + seq![service] + rest).map_values(replace_on_port(fixed)) =~= kept
                    + seq![fixed] + rest);
                assert(wanted.kept_services(services.take(done)) + rest =~= kept + seq![fixed]
                    + rest);
            } else {
                assert(fix.last() == RequestView::DeleteService {
                    id: balancer.id,
                    listen_port: port,
                });
                filter_takes_one(kept, service, rest, off_port(port));
                assert(wanted.kept_services(services.take(done)) + rest =~= kept + rest);
            }
        }
    }
}


/// After the additions for `ports`, a load balancer has the services it had,
/// followed by the added ones.
pub proof fn additions_follow(
    wanted: LoadBalancerView,
    balancer: BalancerView,
    observed: Seq<BalancerService>,
    ports: Seq<i32>,
    given_ip: Seq<char>,
)
    ensures
        carried_out_all(
            balancer,
            wanted.missing_services(balancer.id, observed, ports),
            given_ip,
        ) == (BalancerView {
            services: balancer.services + wanted.added_services(observed, ports),
            ..balancer
        }),
    decreases ports.len(),
{
    if ports.len() == 0 {
        assert(balancer.services + wanted.added_services(observed, ports) =~= balancer.services);
    } else {
        additions_follow(wanted, balancer, observed, ports.drop_last(), given_ip);
        let earlier = wanted.added_services(observed, ports.drop_last());
        if !listens_on(observed, ports.last()) {
            let added = wanted.service_for(ports.last(), wanted.services[ports.last()]);
            let calls = wanted.missing_services(balancer.id, observed, ports);
            assert(calls.drop_last() =~= wanted.missing_services(
                balancer.id,
                observed,
                ports.drop_last(),
            ));
            assert((balancer.services + earlier).push(added) =~= balancer.services
                + earlier.push(added));
        }
    }
}

/// The calls for the services leave a load balancer with the services of a
/// pass, and change nothing else of it.
pub proof fn service_calls_settle(wanted: LoadBalancerView, balancer: BalancerView, given_ip: Seq<char>)
    requires
        distinct_ports(balancer.services),
    ensures
        carried_out_all(balancer, wanted.service_calls(balancer), given_ip) == (BalancerView {
            services: wanted.services_in_step(balancer.services),
            ..balancer
        }),
{
    let services = balancer.services;
    let fixes = wanted.service_fixes(balancer.id, services);
    let additions = wanted.missing_services(balancer.id, services, ascending_keys(wanted.services));
    fixes_keep_the_wanted(wanted, balancer, services.len() as int, given_ip);
    assert(services.take(services.len() as int) =~= services);
    assert(wanted.kept_services(services) + services.skip(services.len() as int)
        =~= wanted.kept_services(services));
    let fixed = BalancerView { services: wanted.kept_services(services), ..balancer };
    runs_compose(balancer, fixes, additions, given_ip);
    additions_follow(wanted, fixed, services, ascending_keys(wanted.services), given_ip);
}

/// What a pass keeps of distinct services is distinct.
pub proof fn kept_services_are_distinct(wanted: LoadBalancerView, observed: Seq<BalancerService>)
    requires
        distinct_ports(observed),
    ensures
        distinct_ports(wanted.kept_services(observed)),
    decreases observed.len(),
{
    if observed.len() > 0 {
        let front = observed.drop_last();
        assert forall|i: int, j: int| 0 <= i < j < front.len() implies (#[trigger] front[i]).listen_port
            != (#[trigger] front[j]).listen_port by {
            assert(front[i] == observed[i] && front[j] == observed[j]);
        }
        kept_services_are_distinct(wanted, front);
        kept_services_are_current(wanted, front);
        let earlier = wanted.kept_services(front);
        let kept = wanted.kept_services(observed);
        assert forall|i: int, j: int| 0 <= i < j < kept.len() implies (#[trigger] kept[i]).listen_port
            != (#[trigger] kept[j]).listen_port by {
            if j < earlier.len() {
                assert(kept[i] == earlier[i] && kept[j] == earlier[j]);
            } else {
                assert(kept[i] == earlier[i]);
                let at = choose|at: int|
                    0 <= at < front.len() && (#[trigger] front[at]).listen_port
                        == earlier[i].listen_port;
                assert(observed[at].listen_port == earlier[i].listen_port);
                assert(kept[j].listen_port == observed[observed.len() - 1].listen_port);
            }
        }
    }
}

/// On every wanted port on which a reported service listened, a kept one
/// listens.
pub proof fn kept_services_cover(wanted: LoadBalancerView, observed: Seq<BalancerService>, port: i32)
    requires
        wanted.services.contains_key(port),
        listens_on(observed, port),
    ensures
        listens_on(wanted.kept_services(observed), port),
    decreases observed.len(),
{
    let at = choose|at: int| 0 <= at < observed.len() && (#[trigger] observed[at]).listen_port == port;
    let kept = wanted.kept_services(observed);
    let earlier = wanted.kept_services(observed.drop_last());
    if at == observed.len() - 1 {
        assert(kept[earlier.len() as int].listen_port == port);
    } else {
        assert(observed.drop_last()[at].listen_port == port);
        kept_services_cover(wanted, observed.drop_last(), port);
        let found = choose|found: int|
            0 <= found < earlier.len() && (#[trigger] earlier[found]).listen_port == port;
        assert(kept[found].listen_port == port);
    }
}

/// The added services are the wanted ones for ports of `ports` on which no
/// reported service listened, in the order of `ports`.
pub proof fn added_services_are_new(
    wanted: LoadBalancerView,
    observed: Seq<BalancerService>,
    ports: Seq<i32>,
)
    requires
        crate::ports::ascending(ports),
    ensures
        forall|i: int|
            0 <= i < wanted.added_services(observed, ports).len() ==> {
                let added = #[trigger] wanted.added_services(observed, ports)[i];
                &&& ports.contains(added.listen_port)
                &&& !listens_on(observed, added.listen_port)
                &&& added == wanted.service_for(added.listen_port, wanted.services[added.listen_port])
            },
        distinct_ports(wanted.added_services(observed, ports)),
        forall|port: i32|
            ports.contains(port) && !listens_on(observed, port) ==> #[trigger] listens_on(
                wanted.added_services(observed, ports),
                port,
            ),
    decreases ports.len(),
{
    if ports.len() > 0 {
        let front = ports.drop_last();
        let top = ports.last();
        assert forall|i: int, j: int| 0 <= i < j < front.len() implies front[i] < front[j] by {
            assert(front[i] == ports[i] && front[j] == ports[j]);
        }
        added_services_are_new(wanted, observed, front);
        let earlier = wanted.added_services(observed, front);
        let all = wanted.added_services(observed, ports);
        assert forall|p: i32| front.contains(p) implies ports.contains(p) && p < top by {
            let k = choose|k: int| 0 <= k < front.len() && front[k] == p;
            assert(ports[k] == p);
        }
        assert(ports[ports.len() - 1] == top);
        assert forall|i: int| 0 <= i < all.len() implies {
            let added = #[trigger] all[i];
            &&& ports.contains(added.listen_port)
            &&& !listens_on(observed, added.listen_port)
            &&& added == wanted.service_for(added.listen_port, wanted.services[added.listen_port])
        } by {
            if i < earlier.len() {
                assert(all[i] == earlier[i]);
                assert(front.contains(earlier[i].listen_port));
            }
        }
        assert forall|i: int, j: int| 0 <= i < j < all.len() implies (#[trigger] all[i]).listen_port
            != (#[trigger] all[j]).listen_port by {
            assert(all[i] == earlier[i]);
            assert(front.contains(earlier[i].listen_port));
            if j < earlier.len() {
                assert(all[j] == earlier[j]);
            }
        }
        assert forall|port: i32| ports.contains(port) && !listens_on(observed, port) implies #[trigger] listens_on(
            all,
            port,
        ) by {
            let k = choose|k: int| 0 <= k < ports.len() && ports[k] == port;
            if k < front.len() {
                assert(front[k] == port);
                assert(front.contains(port));
                assert(listens_on(earlier, port));
                let found = choose|found: int|
                    0 <= found < earlier.len() && (#[trigger] earlier[found]).listen_port == port;
                assert(all[found].listen_port == port);
            } else {
                assert(all[earlier.len() as int].listen_port == port);
            }
        }
    }
}

/// After a pass over distinct services, the services are the wanted ones,
/// and distinct again.
pub proof fn services_in_step_are_wanted(wanted: LoadBalancerView, observed: Seq<BalancerService>)
    requires
        distinct_ports(observed),
        wanted.services.dom().finite(),
    ensures
        wanted.services_are_wanted(wanted.services_in_step(observed)),
        distinct_ports(wanted.services_in_step(observed)),
{
    let ports = ascending_keys(wanted.services);
    crate::ports::finite_map_has_ascending_keys(wanted.services);
    let kept = wanted.kept_services(observed);
    let added = wanted.added_services(observed, ports);
    let all = wanted.services_in_step(observed);
    kept_services_are_current(wanted, observed);
    kept_services_are_distinct(wanted, observed);
    added_services_are_new(wanted, observed, ports);
    assert forall|i: int| 0 <= i < all.len() implies wanted.services.contains_key(
        (#[trigger] all[i]).listen_port,
    ) && wanted.service_is_current(all[i], wanted.services[all[i].listen_port]) by {
        if i < kept.len() {
            assert(all[i] == kept[i]);
        } else {
            assert(all[i] == added[i - kept.len()]);
            assert(ports.contains(all[i].listen_port));
        }
    }
    assert forall|port: i32| #[trigger] wanted.services.contains_key(port) implies listens_on(
        all,
        port,
    ) by {
        if listens_on(observed, port) {
            kept_services_cover(wanted, observed, port);
            let found = choose|found: int|
                0 <= found < kept.len() && (#[trigger] kept[found]).listen_port == port;
            assert(all[found].listen_port == port);
        } else {
            assert(ports.contains(port));
            assert(listens_on(added, port));
            let found = choose|found: int|
                0 <= found < added.len() && (#[trigger] added[found]).listen_port == port;
            assert(all[kept.len() + found].listen_port == port);
        }
    }
    assert forall|i: int, j: int| 0 <= i < j < all.len() implies (#[trigger] all[i]).listen_port
        != (#[trigger] all[j]).listen_port by {
        if j < kept.len() {
            assert(all[i] == kept[i] && all[j] == kept[j]);
        } else if i >= kept.len() {
            assert(all[i] == added[i - kept.len()] && all[j] == added[j - kept.len()]);
        } else {
            assert(all[i] == kept[i] && all[j] == added[j - kept.len()]);
        }
    }
}

/// Services that are the wanted ones need no call.
pub proof fn wanted_services_need_no_call(wanted: LoadBalancerView, balancer: BalancerView)
    requires
        wanted.services_are_wanted(balancer.services),
        wanted.services.dom().finite(),
    ensures
        wanted.service_calls(balancer) == Seq::<RequestView>::empty(),
{
    no_fix_for_wanted_services(wanted, balancer.id, balancer.services, balancer.services.len() as int);
    assert(balancer.services.take(balancer.services.len() as int) =~= balancer.services);
    crate::ports::finite_map_has_ascending_keys(wanted.services);
    let ports = ascending_keys(wanted.services);
    nothing_missing_among_wanted_services(wanted, balancer.id, balancer.services, ports, ports.len() as int);
    assert(ports.take(ports.len() as int) =~= ports);
    assert(wanted.service_calls(balancer) =~= Seq::<RequestView>::empty());
}

/// Wanted services call for no fix.
proof fn no_fix_for_wanted_services(
    wanted: LoadBalancerView,
    id: i64,
    services: Seq<BalancerService>,
    done: int,
)
    requires
        wanted.services_are_wanted(services),
        0 <= done <= services.len(),
    ensures
        wanted.service_fixes(id, services.take(done)) == Seq::<RequestView>::empty(),
    decreases done,
{
    if done > 0 {
        no_fix_for_wanted_services(wanted, id, services, done - 1);
        assert(services.take(done).drop_last() =~= services.take(done - 1));
        assert(services.take(done).last() == services[done - 1]);
        assert(wanted.service_fix(id, services[done - 1]) =~= Seq::<RequestView>::empty());
        assert(wanted.service_fixes(id, services.take(done)) =~= Seq::<RequestView>::empty());
    }
}

/// Where the wanted services are there, none is missing.
proof fn nothing_missing_among_wanted_services(
    wanted: LoadBalancerView,
    id: i64,
    services: Seq<BalancerService>,
    ports: Seq<i32>,
    done: int,
)
    requires
        wanted.services_are_wanted(services),
        lists_keys(ports, wanted.services),
        0 <= done <= ports.len(),
    ensures
        wanted.missing_services(id, services, ports.take(done)) == Seq::<RequestView>::empty(),
    decreases done,
{
    if done > 0 {
        nothing_missing_among_wanted_services(wanted, id, services, ports, done - 1);
        assert(ports.take(done).drop_last() =~= ports.take(done - 1));
        assert(ports.take(done).last() == ports[done - 1]);
        assert(ports.contains(ports[done - 1]));
        assert(wanted.services.contains_key(ports[done - 1]));
    }
}


/// Whether no two of `targets` are given by the same address.
pub open spec fn distinct_addresses(targets: Seq<TargetView>) -> bool {
    forall|i: int, j: int|
        0 <= i < j < targets.len() && (#[trigger] targets[i]).ip is Some ==> targets[i].ip != (
        #[trigger] targets[j]).ip
}

/// The addresses of the targets that are given by address, in their order.
pub open spec fn addresses(targets: Seq<TargetView>) -> Seq<Seq<char>>
    decreases targets.len(),
{
    if targets.len() == 0 {
        Seq::empty()
    } else {
        match targets.last().ip {
            Some(ip) => addresses(targets.drop_last()).push(ip),
            None => addresses(targets.drop_last()),
        }
    }
}

impl LoadBalancerView {
    /// What a pass leaves of one reported target: nothing where it is given
    /// by an address that is not wanted, the target itself otherwise.
    pub open spec fn kept_target(self, target: TargetView) -> Seq<TargetView> {
        match target.ip {
            Some(ip) => if self.targets.contains(ip) {
                seq![target]
            } else {
                Seq::empty()
            },
            None => seq![target],
        }
    }

    /// What a pass leaves of the reported targets, in their order.
    pub open spec fn kept_targets(self, observed: Seq<TargetView>) -> Seq<TargetView>
        decreases observed.len(),
    {
        if observed.len() == 0 {
            Seq::empty()
        } else {
            self.kept_targets(observed.drop_last()) + self.kept_target(observed.last())
        }
    }

    /// The targets that a pass adds: one for each of `wanted` that none of
    /// `observed` has.
    pub open spec fn added_targets(observed: Seq<TargetView>, wanted: Seq<Seq<char>>) -> Seq<TargetView>
        decreases wanted.len(),
    {
        if wanted.len() == 0 {
            Seq::empty()
        } else {
            let before = Self::added_targets(observed, wanted.drop_last());
            if has_target(observed, wanted.last()) {
                before
            } else {
                before.push(TargetView { ip: Some(wanted.last()) })
            }
        }
    }

    /// The targets of a load balancer after a pass over `observed`.
    pub open spec fn targets_in_step(self, observed: Seq<TargetView>) -> Seq<TargetView> {
        self.kept_targets(observed) + Self::added_targets(observed, self.targets)
    }

    /// Whether `targets` are the wanted ones: each address among them is
    /// wanted, and each wanted address is among them.
    pub open spec fn targets_are_wanted(self, targets: Seq<TargetView>) -> bool {
        &&& forall|i: int|
            0 <= i < targets.len() && (#[trigger] targets[i]).ip is Some ==> self.targets.contains(
                targets[i].ip->0,
            )
        &&& forall|ip: Seq<char>| #[trigger] self.targets.contains(ip) ==> has_target(targets, ip)
    }
}

/// What a pass keeps of the reported targets was reported, and is wanted
/// where it is given by address.
pub proof fn kept_targets_were_there(wanted: LoadBalancerView, observed: Seq<TargetView>)
    ensures
        forall|i: int|
            0 <= i < wanted.kept_targets(observed).len() ==> {
                let kept = #[trigger] wanted.kept_targets(observed)[i];
                &&& observed.contains(kept)
                &&& kept.ip is Some ==> wanted.targets.contains(kept.ip->0)
            },
    decreases observed.len(),
{
    if observed.len() > 0 {
        let earlier = wanted.kept_targets(observed.drop_last());
        kept_targets_were_there(wanted, observed.drop_last());
        assert forall|i: int| 0 <= i < wanted.kept_targets(observed).len() implies {
            let kept = #[trigger] wanted.kept_targets(observed)[i];
            &&& observed.contains(kept)
            &&& kept.ip is Some ==> wanted.targets.contains(kept.ip->0)
        } by {
            let kept = wanted.kept_targets(observed)[i];
            if i < earlier.len() {
                assert(kept == earlier[i]);
                let j = choose|j: int|
                    0 <= j < observed.drop_last().len() && observed.drop_last()[j] == kept;
                assert(observed[j] == kept);
            } else {
                assert(kept == observed[observed.len() - 1]);
            }
        }
    }
}

/// After the removals for the first `done` of its targets, a load balancer
/// has what the pass keeps of those, followed by the targets not yet looked
/// at.
pub proof fn removals_keep_the_wanted(
    wanted: LoadBalancerView,
    balancer: BalancerView,
    done: int,
    given_ip: Seq<char>,
)
    requires
        0 <= done <= balancer.targets.len(),
        distinct_addresses(balancer.targets),
    ensures
        carried_out_all(
            balancer,
            wanted.target_removals(balancer.id, balancer.targets.take(done)),
            given_ip,
        ) == (BalancerView {
            targets: wanted.kept_targets(balancer.targets.take(done)) + balancer.targets.skip(done),
            ..balancer
        }),
    decreases done,
{
    let targets = balancer.targets;
    if done == 0 {
        assert(targets.take(0) =~= Seq::empty());
        assert(wanted.kept_targets(targets.take(0)) + targets.skip(0) =~= targets);
    } else {
        removals_keep_the_wanted(wanted, balancer, done - 1, given_ip);
        let earlier = targets.take(done - 1);
        let target = targets[done - 1];
        assert(targets.take(done).drop_last() =~= earlier);
        assert(targets.take(done).last() == target);
        let removal = wanted.target_removal(balancer.id, target);
        runs_compose(balancer, wanted.target_removals(balancer.id, earlier), removal, given_ip);
        let kept = wanted.kept_targets(earlier);
        let rest = targets.skip(done);
        let reached = carried_out_all(
            balancer,
            wanted.target_removals(balancer.id, earlier),
            given_ip,
        );
        assert(targets.skip(done - 1) =~= seq![target] + rest);
        assert(reached.targets =~= kept + seq![target] + rest);
        if removal.len() == 0 {
            assert(wanted.kept_targets(targets.take(done)) + rest =~= kept + seq![target] + rest);
        } else {
            let ip = target.ip->0;
            run_of_one(reached, removal, given_ip);
            kept_targets_were_there(wanted, earlier);
            assert forall|i: int| 0 <= i < kept.len() implies other_than(ip)(#[trigger] kept[i]) by {
                let j = choose|j: int| 0 <= j < earlier.len() && earlier[j] == kept[i];
                assert(targets[j] == kept[i]);
                assert(targets[j].ip is Some ==> targets[j].ip != targets[done - 1].ip);
            }
            assert forall|i: int| 0 <= i < rest.len() implies other_than(ip)(#[trigger] rest[i]) by {
                assert(rest[i] == targets[done + i]);
                assert(targets[done - 1].ip != targets[done + i].ip);
            }
            filter_takes_one(kept, target, rest, other_than(ip));
            assert(wanted.kept_targets(targets.take(done)) + rest =~= kept + rest);
        }
    }
}

/// After the additions for `addresses`, a load balancer has the targets it
/// had, followed by the added ones.
pub proof fn target_additions_follow(
    balancer: BalancerView,
    observed: Seq<TargetView>,
    addresses: Seq<Seq<char>>,
    given_ip: Seq<char>,
)
    ensures
        carried_out_all(
            balancer,
            LoadBalancerView::missing_targets(balancer.id, observed, addresses),
            given_ip,
        ) == (BalancerView {
            targets: balancer.targets + LoadBalancerView::added_targets(observed, addresses),
            ..balancer
        }),
    decreases addresses.len(),
{
    if addresses.len() == 0 {
        assert(balancer.targets + LoadBalancerView::added_targets(observed, addresses)
            =~= balancer.targets);
    } else {
        target_additions_follow(balancer, observed, addresses.drop_last(), given_ip);
        let earlier = LoadBalancerView::added_targets(observed, addresses.drop_last());
        if !has_target(observed, addresses.last()) {
            let added = TargetView { ip: Some(addresses.last()) };
            let calls = LoadBalancerView::missing_targets(balancer.id, observed, addresses);
            assert(calls.drop_last() =~= LoadBalancerView::missing_targets(
                balancer.id,
                observed,
                addresses.drop_last(),
            ));
            assert((balancer.targets + earlier).push(added) =~= balancer.targets + earlier.push(
                added,
            ));
        }
    }
}

/// The calls for the targets leave a load balancer with the targets of a
/// pass, and change nothing else of it.
pub proof fn target_calls_settle(wanted: LoadBalancerView, balancer: BalancerView, given_ip: Seq<char>)
    requires
        distinct_addresses(balancer.targets),
    ensures
        carried_out_all(balancer, wanted.target_calls(balancer), given_ip) == (BalancerView {
            targets: wanted.targets_in_step(balancer.targets),
            ..balancer
        }),
{
    let targets = balancer.targets;
    let removals = wanted.target_removals(balancer.id, targets);
    let additions = LoadBalancerView::missing_targets(balancer.id, targets, wanted.targets);
    removals_keep_the_wanted(wanted, balancer, targets.len() as int, given_ip);
    assert(targets.take(targets.len() as int) =~= targets);
    assert(wanted.kept_targets(targets) + targets.skip(targets.len() as int)
        =~= wanted.kept_targets(targets));
    let cleared = BalancerView { targets: wanted.kept_targets(targets), ..balancer };
    runs_compose(balancer, removals, additions, given_ip);
    target_additions_follow(cleared, targets, wanted.targets, given_ip);
}

/// What a pass keeps of targets with distinct addresses has distinct
/// addresses.
pub proof fn kept_targets_are_distinct(wanted: LoadBalancerView, observed: Seq<TargetView>)
    requires
        distinct_addresses(observed),
    ensures
        distinct_addresses(wanted.kept_targets(observed)),
    decreases observed.len(),
{
    if observed.len() > 0 {
        let front = observed.drop_last();
        assert forall|i: int, j: int|
            0 <= i < j < front.len() && (#[trigger] front[i]).ip is Some implies front[i].ip != (
        #[trigger] front[j]).ip by {
            assert(front[i] == observed[i] && front[j] == observed[j]);
        }
        kept_targets_are_distinct(wanted, front);
        kept_targets_were_there(wanted, front);
        let earlier = wanted.kept_targets(front);
        let kept = wanted.kept_targets(observed);
        assert forall|i: int, j: int|
            0 <= i < j < kept.len() && (#[trigger] kept[i]).ip is Some implies kept[i].ip != (
        #[trigger] kept[j]).ip by {
            if j < earlier.len() {
                assert(kept[i] == earlier[i] && kept[j] == earlier[j]);
            } else {
                assert(kept[i] == earlier[i]);
                let at = choose|at: int| 0 <= at < front.len() && front[at] == earlier[i];
                assert(observed[at] == earlier[i]);
                assert(kept[j] == observed[observed.len() - 1]);
            }
        }
    }
}

/// Every wanted address that a reported target had, a kept target has.
pub proof fn kept_targets_cover(wanted: LoadBalancerView, observed: Seq<TargetView>, ip: Seq<char>)
    requires
        wanted.targets.contains(ip),
        has_target(observed, ip),
    ensures
        has_target(wanted.kept_targets(observed), ip),
    decreases observed.len(),
{
    let at = choose|at: int| 0 <= at < observed.len() && (#[trigger] observed[at]).ip == Some(ip);
    let kept = wanted.kept_targets(observed);
    let earlier = wanted.kept_targets(observed.drop_last());
    if at == observed.len() - 1 {
        assert(kept[earlier.len() as int].ip == Some(ip));
    } else {
        assert(observed.drop_last()[at].ip == Some(ip));
        kept_targets_cover(wanted, observed.drop_last(), ip);
        let found = choose|found: int|
            0 <= found < earlier.len() && (#[trigger] earlier[found]).ip == Some(ip);
        assert(kept[found].ip == Some(ip));
    }
}

/// The added targets are given by the addresses of `addresses` that no
/// reported target had, in the order of `addresses`.
pub proof fn added_targets_are_new(observed: Seq<TargetView>, addresses: Seq<Seq<char>>)
    requires
        addresses.no_duplicates(),
    ensures
        forall|i: int|
            0 <= i < LoadBalancerView::added_targets(observed, addresses).len() ==> {
                let added = #[trigger] LoadBalancerView::added_targets(observed, addresses)[i];
                &&& added.ip is Some
                &&& addresses.contains(added.ip->0)
                &&& !has_target(observed, added.ip->0)
            },
        distinct_addresses(LoadBalancerView::added_targets(observed, addresses)),
        forall|ip: Seq<char>|
            addresses.contains(ip) && !has_target(observed, ip) ==> #[trigger] has_target(
                LoadBalancerView::added_targets(observed, addresses),
                ip,
            ),
    decreases addresses.len(),
{
    if addresses.len() > 0 {
        let front = addresses.drop_last();
        let top = addresses.last();
        assert forall|i: int, j: int|
            0 <= i < front.len() && 0 <= j < front.len() && i != j implies front[i] != front[j] by {
            assert(front[i] == addresses[i] && front[j] == addresses[j]);
        }
        added_targets_are_new(observed, front);
        let earlier = LoadBalancerView::added_targets(observed, front);
        let all = LoadBalancerView::added_targets(observed, addresses);
        assert forall|ip: Seq<char>| front.contains(ip) implies addresses.contains(ip) && ip
            != top by {
            let k = choose|k: int| 0 <= k < front.len() && front[k] == ip;
            assert(addresses[k] == ip);
        }
        assert(addresses[addresses.len() - 1] == top);
        assert forall|i: int| 0 <= i < all.len() implies {
            let added = #[trigger] all[i];
            &&& added.ip is Some
            &&& addresses.contains(added.ip->0)
            &&& !has_target(observed, added.ip->0)
        } by {
            if i < earlier.len() {
                assert(all[i] == earlier[i]);
                assert(front.contains(earlier[i].ip->0));
            }
        }
        assert forall|i: int, j: int|
            0 <= i < j < all.len() && (#[trigger] all[i]).ip is Some implies all[i].ip != (
        #[trigger] all[j]).ip by {
            assert(all[i] == earlier[i]);
            assert(front.contains(earlier[i].ip->0));
            if j < earlier.len() {
                assert(all[j] == earlier[j]);
            }
        }
        assert forall|ip: Seq<char>|
            addresses.contains(ip) && !has_target(observed, ip) implies #[trigger] has_target(
            all,
            ip,
        ) by {
            let k = choose|k: int| 0 <= k < addresses.len() && addresses[k] == ip;
            if k < front.len() {
                assert(front[k] == ip);
                assert(front.contains(ip));
                assert(has_target(earlier, ip));
                let found = choose|found: int|
                    0 <= found < earlier.len() && (#[trigger] earlier[found]).ip == Some(ip);
                assert(all[found].ip == Some(ip));
            } else {
                assert(all[earlier.len() as int].ip == Some(ip));
            }
        }
    }
}

/// After a pass over targets with distinct addresses, towards distinct
/// wanted addresses, the targets are the wanted ones, with distinct
/// addresses again.
pub proof fn targets_in_step_are_wanted(wanted: LoadBalancerView, observed: Seq<TargetView>)
    requires
        distinct_addresses(observed),
        wanted.targets.no_duplicates(),
    ensures
        wanted.targets_are_wanted(wanted.targets_in_step(observed)),
        distinct_addresses(wanted.targets_in_step(observed)),
{
    let kept = wanted.kept_targets(observed);
    let added = LoadBalancerView::added_targets(observed, wanted.targets);
    let all = wanted.targets_in_step(observed);
    kept_targets_were_there(wanted, observed);
    kept_targets_are_distinct(wanted, observed);
    added_targets_are_new(observed, wanted.targets);
    assert forall|i: int| 0 <= i < all.len() && (#[trigger] all[i]).ip is Some implies wanted.targets.contains(
        all[i].ip->0,
    ) by {
        if i < kept.len() {
            assert(all[i] == kept[i]);
        } else {
            assert(all[i] == added[i - kept.len()]);
        }
    }
    assert forall|ip: Seq<char>| #[trigger] wanted.targets.contains(ip) implies has_target(all, ip) by {
        if has_target(observed, ip) {
            kept_targets_cover(wanted, observed, ip);
            let found = choose|found: int|
                0 <= found < kept.len() && (#[trigger] kept[found]).ip == Some(ip);
            assert(all[found].ip == Some(ip));
        } else {
            assert(has_target(added, ip));
            let found = choose|found: int|
                0 <= found < added.len() && (#[trigger] added[found]).ip == Some(ip);
            assert(all[kept.len() + found].ip == Some(ip));
        }
    }
    assert forall|i: int, j: int|
        0 <= i < j < all.len() && (#[trigger] all[i]).ip is Some implies all[i].ip != (
    #[trigger] all[j]).ip by {
        if j < kept.len() {
            assert(all[i] == kept[i] && all[j] == kept[j]);
        } else if i >= kept.len() {
            assert(all[i] == added[i - kept.len()] && all[j] == added[j - kept.len()]);
        } else {
            assert(all[i] == kept[i] && all[j] == added[j - kept.len()]);
            let at = choose|at: int| 0 <= at < observed.len() && observed[at] == kept[i];
            assert(observed[at].ip == Some(kept[i].ip->0));
            assert(has_target(observed, kept[i].ip->0));
        }
    }
}

/// Targets that are the wanted ones need no call.
pub proof fn wanted_targets_need_no_call(wanted: LoadBalancerView, balancer: BalancerView)
    requires
        wanted.targets_are_wanted(balancer.targets),
    ensures
        wanted.target_calls(balancer) == Seq::<RequestView>::empty(),
{
    no_removal_for_wanted_targets(wanted, balancer.id, balancer.targets, balancer.targets.len() as int);
    assert(balancer.targets.take(balancer.targets.len() as int) =~= balancer.targets);
    nothing_missing_among_wanted_targets(
        wanted,
        balancer.id,
        balancer.targets,
        wanted.targets.len() as int,
    );
    assert(wanted.targets.take(wanted.targets.len() as int) =~= wanted.targets);
    assert(wanted.target_calls(balancer) =~= Seq::<RequestView>::empty());
}

/// Wanted targets call for no removal.
proof fn no_removal_for_wanted_targets(
    wanted: LoadBalancerView,
    id: i64,
    targets: Seq<TargetView>,
    done: int,
)
    requires
        wanted.targets_are_wanted(targets),
        0 <= done <= targets.len(),
    ensures
        wanted.target_removals(id, targets.take(done)) == Seq::<RequestView>::empty(),
    decreases done,
{
    if done > 0 {
        no_removal_for_wanted_targets(wanted, id, targets, done - 1);
        assert(targets.take(done).drop_last() =~= targets.take(done - 1));
        assert(targets.take(done).last() == targets[done - 1]);
        assert(wanted.target_removal(id, targets[done - 1]) =~= Seq::<RequestView>::empty());
        assert(wanted.target_removals(id, targets.take(done)) =~= Seq::<RequestView>::empty());
    }
}

/// Where the wanted targets are there, none is missing.
proof fn nothing_missing_among_wanted_targets(
    wanted: LoadBalancerView,
    id: i64,
    targets: Seq<TargetView>,
    done: int,
)
    requires
        wanted.targets_are_wanted(targets),
        0 <= done <= wanted.targets.len(),
    ensures
        LoadBalancerView::missing_targets(id, targets, wanted.targets.take(done)) == Seq::<
            RequestView,
        >::empty(),
    decreases done,
{
    if done > 0 {
        nothing_missing_among_wanted_targets(wanted, id, targets, done - 1);
        assert(wanted.targets.take(done).drop_last() =~= wanted.targets.take(done - 1));
        assert(wanted.targets.take(done).last() == wanted.targets[done - 1]);
        assert(wanted.targets.contains(wanted.targets[done - 1]));
    }
}


/// The addresses of targets are those that some target is given by; they
/// are distinct where the targets' addresses are.
pub proof fn addresses_are_the_targets(targets: Seq<TargetView>)
    ensures
        forall|ip: Seq<char>| #[trigger] addresses(targets).contains(ip) <==> has_target(targets, ip),
        distinct_addresses(targets) ==> addresses(targets).no_duplicates(),
    decreases targets.len(),
{
    if targets.len() == 0 {
        assert forall|ip: Seq<char>| #[trigger]
            addresses(targets).contains(ip) <==> has_target(targets, ip) by {}
    } else {
        let front = targets.drop_last();
        let last = targets.last();
        addresses_are_the_targets(front);
        let earlier = addresses(front);
        let all = addresses(targets);
        assert forall|ip: Seq<char>| #[trigger] all.contains(ip) <==> has_target(targets, ip) by {
            if all.contains(ip) {
                let k = choose|k: int| 0 <= k < all.len() && all[k] == ip;
                if k < earlier.len() {
                    assert(earlier[k] == ip);
                    assert(earlier.contains(ip));
                    assert(has_target(front, ip));
                    let at = choose|at: int|
                        0 <= at < front.len() && (#[trigger] front[at]).ip == Some(ip);
                    assert(targets[at].ip == Some(ip));
                } else {
                    assert(targets[targets.len() - 1].ip == Some(ip));
                }
            }
            if has_target(targets, ip) {
                let at = choose|at: int|
                    0 <= at < targets.len() && (#[trigger] targets[at]).ip == Some(ip);
                if at < front.len() {
                    assert(front[at].ip == Some(ip));
                    assert(has_target(front, ip));
                    assert(earlier.contains(ip));
                    let k = choose|k: int| 0 <= k < earlier.len() && earlier[k] == ip;
                    assert(all[k] == ip);
                } else {
                    assert(all[earlier.len() as int] == ip);
                }
            }
        }
        if distinct_addresses(targets) {
            assert forall|i: int, j: int|
                0 <= i < j < front.len() && (#[trigger] front[i]).ip is Some implies front[i].ip
                != (#[trigger] front[j]).ip by {
                assert(front[i] == targets[i] && front[j] == targets[j]);
            }
            assert forall|i: int, j: int|
                0 <= i < all.len() && 0 <= j < all.len() && i != j implies all[i] != all[j] by {
                if i < earlier.len() && j < earlier.len() {
                    assert(all[i] == earlier[i] && all[j] == earlier[j]);
                } else {
                    let low = if i < j {
                        i
                    } else {
                        j
                    };
                    assert(all[low] == earlier[low]);
                    assert(earlier.contains(earlier[low]));
                    assert(has_target(front, earlier[low]));
                    let at = choose|at: int|
                        0 <= at < front.len() && (#[trigger] front[at]).ip == Some(earlier[low]);
                    assert(targets[at].ip != targets[targets.len() - 1].ip);
                }
            }
        }
    }
}

/// Two lists without repetitions that have the same members are the same
/// multiset.
pub proof fn same_members_same_multiset<A>(a: Seq<A>, b: Seq<A>)
    requires
        a.no_duplicates(),
        b.no_duplicates(),
        forall|x: A| a.contains(x) <==> b.contains(x),
    ensures
        a.to_multiset() == b.to_multiset(),
{
    a.lemma_multiset_has_no_duplicates();
    b.lemma_multiset_has_no_duplicates();
    a.to_multiset_ensures();
    b.to_multiset_ensures();
    assert forall|x: A| a.to_multiset().count(x) == b.to_multiset().count(x) by {
        if a.contains(x) {
            assert(b.contains(x));
            assert(a.to_multiset().count(x) > 0);
            assert(b.to_multiset().count(x) > 0);
            assert(a.to_multiset().contains(x));
            assert(b.to_multiset().contains(x));
        } else {
            assert(!b.contains(x));
        }
    }
    assert(a.to_multiset() =~= b.to_multiset());
}

/// Whether no two of `nets` are attachments to the same network.
pub open spec fn distinct_networks(nets: Seq<PrivateNetView>) -> bool {
    forall|i: int, j: int|
        0 <= i < j < nets.len() && (#[trigger] nets[i]).network is Some ==> nets[i].network != (
        #[trigger] nets[j]).network
}

impl LoadBalancerView {
    /// What a pass leaves of one reported attachment: nothing where it is to
    /// a network and is not the wanted one, the attachment itself otherwise.
    pub open spec fn kept_net(self, net: PrivateNetView, network: Option<i64>) -> Seq<PrivateNetView> {
        if net.network is Some && !self.attachment_is_wanted(net, network) {
            Seq::empty()
        } else {
            seq![net]
        }
    }

    /// What a pass leaves of the reported attachments, in their order.
    pub open spec fn kept_nets(self, observed: Seq<PrivateNetView>, network: Option<i64>) -> Seq<
        PrivateNetView,
    >
        decreases observed.len(),
    {
        if observed.len() == 0 {
            Seq::empty()
        } else {
            self.kept_nets(observed.drop_last(), network) + self.kept_net(observed.last(), network)
        }
    }

    /// The attachment that a pass makes where the wanted one is not there.
    pub open spec fn added_net(
        self,
        observed: Seq<PrivateNetView>,
        network: Option<i64>,
        given_ip: Seq<char>,
    ) -> Seq<PrivateNetView> {
        if network is Some && !self.has_wanted_attachment(observed, network) {
            seq![
                PrivateNetView {
                    network,
                    ip: Some(
                        match self.private_ip {
                            Some(asked) => asked,
                            None => given_ip,
                        },
                    ),
                },
            ]
        } else {
            Seq::empty()
        }
    }

    /// The attachments of a load balancer after a pass over `observed`.
    pub open spec fn nets_in_step(
        self,
        observed: Seq<PrivateNetView>,
        network: Option<i64>,
        given_ip: Seq<char>,
    ) -> Seq<PrivateNetView> {
        self.kept_nets(observed, network) + self.added_net(observed, network, given_ip)
    }

    /// Whether `nets` are the wanted attachments: none is to another
    /// network or has another address than asked for, and where a network
    /// is wanted, the attachment to it is there.
    pub open spec fn nets_are_wanted(self, nets: Seq<PrivateNetView>, network: Option<i64>) -> bool {
        &&& forall|i: int|
            0 <= i < nets.len() && (#[trigger] nets[i]).network is Some
                ==> self.attachment_is_wanted(nets[i], network)
        &&& network is Some ==> self.has_wanted_attachment(nets, network)
    }
}

/// What a pass keeps of the reported attachments was reported, and is the
/// wanted attachment where it is to a network.
pub proof fn kept_nets_were_there(
    wanted: LoadBalancerView,
    observed: Seq<PrivateNetView>,
    network: Option<i64>,
)
    ensures
        forall|i: int|
            0 <= i < wanted.kept_nets(observed, network).len() ==> {
                let kept = #[trigger] wanted.kept_nets(observed, network)[i];
                &&& observed.contains(kept)
                &&& kept.network is Some ==> wanted.attachment_is_wanted(kept, network)
            },
    decreases observed.len(),
{
    if observed.len() > 0 {
        let earlier = wanted.kept_nets(observed.drop_last(), network);
        kept_nets_were_there(wanted, observed.drop_last(), network);
        assert forall|i: int| 0 <= i < wanted.kept_nets(observed, network).len() implies {
            let kept = #[trigger] wanted.kept_nets(observed, network)[i];
            &&& observed.contains(kept)
            &&& kept.network is Some ==> wanted.attachment_is_wanted(kept, network)
        } by {
            let kept = wanted.kept_nets(observed, network)[i];
            if i < earlier.len() {
                assert(kept == earlier[i]);
                let j = choose|j: int|
                    0 <= j < observed.drop_last().len() && observed.drop_last()[j] == kept;
                assert(observed[j] == kept);
            } else {
                assert(kept == observed[observed.len() - 1]);
            }
        }
    }
}

/// After the detachments for the first `done` of its attachments, a load
/// balancer has what the pass keeps of those, followed by the attachments
/// not yet looked at.
pub proof fn detachments_keep_the_wanted(
    wanted: LoadBalancerView,
    balancer: BalancerView,
    network: Option<i64>,
    done: int,
    given_ip: Seq<char>,
)
    requires
        0 <= done <= balancer.private_net.len(),
        distinct_networks(balancer.private_net),
    ensures
        carried_out_all(
            balancer,
            wanted.detachments(balancer.id, balancer.private_net.take(done), network),
            given_ip,
        ) == (BalancerView {
            private_net: wanted.kept_nets(balancer.private_net.take(done), network)
                + balancer.private_net.skip(done),
            ..balancer
        }),
    decreases done,
{
    let nets = balancer.private_net;
    if done == 0 {
        assert(nets.take(0) =~= Seq::empty());
        assert(wanted.kept_nets(nets.take(0), network) + nets.skip(0) =~= nets);
    } else {
        detachments_keep_the_wanted(wanted, balancer, network, done - 1, given_ip);
        let earlier = nets.take(done - 1);
        let net = nets[done - 1];
        assert(nets.take(done).drop_last() =~= earlier);
        assert(nets.take(done).last() == net);
        let detachment = wanted.detachment(balancer.id, net, network);
        runs_compose(
            balancer,
            wanted.detachments(balancer.id, earlier, network),
            detachment,
            given_ip,
        );
        let kept = wanted.kept_nets(earlier, network);
        let rest = nets.skip(done);
        let reached = carried_out_all(
            balancer,
            wanted.detachments(balancer.id, earlier, network),
            given_ip,
        );
        assert(nets.skip(done - 1) =~= seq![net] + rest);
        assert(reached.private_net =~= kept + seq![net] + rest);
        if detachment.len() == 0 {
            assert(wanted.kept_nets(nets.take(done), network) + rest =~= kept + seq![net] + rest);
        } else {
            let left = net.network->0;
            run_of_one(reached, detachment, given_ip);
            kept_nets_were_there(wanted, earlier, network);
            assert forall|i: int| 0 <= i < kept.len() implies outside_of(left)(#[trigger] kept[i]) by {
                let j = choose|j: int| 0 <= j < earlier.len() && earlier[j] == kept[i];
                assert(nets[j] == kept[i]);
                assert(nets[j].network is Some ==> nets[j].network != nets[done - 1].network);
            }
            assert forall|i: int| 0 <= i < rest.len() implies outside_of(left)(#[trigger] rest[i]) by {
                assert(rest[i] == nets[done + i]);
                assert(nets[done - 1].network != nets[done + i].network);
            }
            filter_takes_one(kept, net, rest, outside_of(left));
            assert(wanted.kept_nets(nets.take(done), network) + rest =~= kept + rest);
        }
    }
}

/// The calls for the network leave a load balancer with the attachments of
/// a pass, and change nothing else of it.
pub proof fn network_calls_settle(
    wanted: LoadBalancerView,
    balancer: BalancerView,
    network: Option<i64>,
    given_ip: Seq<char>,
)
    requires
        distinct_networks(balancer.private_net),
    ensures
        carried_out_all(balancer, wanted.network_calls(balancer, network), given_ip) == (
        BalancerView {
            private_net: wanted.nets_in_step(balancer.private_net, network, given_ip),
            ..balancer
        }),
{
    let nets = balancer.private_net;
    let detachments = wanted.detachments(balancer.id, nets, network);
    let attachment = wanted.attachment(balancer, network);
    detachments_keep_the_wanted(wanted, balancer, network, nets.len() as int, given_ip);
    assert(nets.take(nets.len() as int) =~= nets);
    assert(wanted.kept_nets(nets, network) + nets.skip(nets.len() as int) =~= wanted.kept_nets(
        nets,
        network,
    ));
    let detached = BalancerView { private_net: wanted.kept_nets(nets, network), ..balancer };
    runs_compose(balancer, detachments, attachment, given_ip);
    if attachment.len() == 0 {
        assert(wanted.kept_nets(nets, network) + wanted.added_net(nets, network, given_ip)
            =~= wanted.kept_nets(nets, network));
    } else {
        run_of_one(detached, attachment, given_ip);
        assert(wanted.kept_nets(nets, network).push(wanted.added_net(nets, network, given_ip)[0])
            =~= wanted.kept_nets(nets, network) + wanted.added_net(nets, network, given_ip));
    }
}

/// The wanted attachment, where it was reported, is kept.
pub proof fn kept_nets_cover(wanted: LoadBalancerView, observed: Seq<PrivateNetView>, network: Option<i64>)
    requires
        wanted.has_wanted_attachment(observed, network),
    ensures
        wanted.has_wanted_attachment(wanted.kept_nets(observed, network), network),
    decreases observed.len(),
{
    let at = choose|at: int|
        0 <= at < observed.len() && wanted.attachment_is_wanted(#[trigger] observed[at], network);
    let kept = wanted.kept_nets(observed, network);
    let earlier = wanted.kept_nets(observed.drop_last(), network);
    if at == observed.len() - 1 {
        assert(wanted.attachment_is_wanted(kept[earlier.len() as int], network));
    } else {
        assert(wanted.attachment_is_wanted(observed.drop_last()[at], network));
        kept_nets_cover(wanted, observed.drop_last(), network);
        let found = choose|found: int|
            0 <= found < earlier.len() && wanted.attachment_is_wanted(
                #[trigger] earlier[found],
                network,
            );
        assert(wanted.attachment_is_wanted(kept[found], network));
    }
}

/// What a pass keeps of attachments to distinct networks is to distinct
/// networks.
pub proof fn kept_nets_are_distinct(
    wanted: LoadBalancerView,
    observed: Seq<PrivateNetView>,
    network: Option<i64>,
)
    requires
        distinct_networks(observed),
    ensures
        distinct_networks(wanted.kept_nets(observed, network)),
    decreases observed.len(),
{
    if observed.len() > 0 {
        let front = observed.drop_last();
        assert forall|i: int, j: int|
            0 <= i < j < front.len() && (#[trigger] front[i]).network is Some implies front[i].network
            != (#[trigger] front[j]).network by {
            assert(front[i] == observed[i] && front[j] == observed[j]);
        }
        kept_nets_are_distinct(wanted, front, network);
        kept_nets_were_there(wanted, front, network);
        let earlier = wanted.kept_nets(front, network);
        let kept = wanted.kept_nets(observed, network);
        assert forall|i: int, j: int|
            0 <= i < j < kept.len() && (#[trigger] kept[i]).network is Some implies kept[i].network
            != (#[trigger] kept[j]).network by {
            if j < earlier.len() {
                assert(kept[i] == earlier[i] && kept[j] == earlier[j]);
            } else {
                assert(kept[i] == earlier[i]);
                let at = choose|at: int| 0 <= at < front.len() && front[at] == earlier[i];
                assert(observed[at] == earlier[i]);
                assert(kept[j] == observed[observed.len() - 1]);
            }
        }
    }
}

/// After a pass over attachments to distinct networks, the attachments are
/// the wanted ones, to distinct networks again.
pub proof fn nets_in_step_are_wanted(
    wanted: LoadBalancerView,
    observed: Seq<PrivateNetView>,
    network: Option<i64>,
    given_ip: Seq<char>,
)
    requires
        distinct_networks(observed),
    ensures
        wanted.nets_are_wanted(wanted.nets_in_step(observed, network, given_ip), network),
        distinct_networks(wanted.nets_in_step(observed, network, given_ip)),
{
    let kept = wanted.kept_nets(observed, network);
    let added = wanted.added_net(observed, network, given_ip);
    let all = wanted.nets_in_step(observed, network, given_ip);
    kept_nets_were_there(wanted, observed, network);
    kept_nets_are_distinct(wanted, observed, network);
    assert forall|i: int| 0 <= i < all.len() && (#[trigger] all[i]).network is Some implies wanted.attachment_is_wanted(
        all[i],
        network,
    ) by {
        if i < kept.len() {
            assert(all[i] == kept[i]);
        } else {
            assert(all[i] == added[0]);
        }
    }
    if network is Some {
        if wanted.has_wanted_attachment(observed, network) {
            kept_nets_cover(wanted, observed, network);
            let found = choose|found: int|
                0 <= found < kept.len() && wanted.attachment_is_wanted(
                    #[trigger] kept[found],
                    network,
                );
            assert(wanted.attachment_is_wanted(all[found], network));
        } else {
            assert(wanted.attachment_is_wanted(all[kept.len() as int], network));
        }
    }
    assert forall|i: int, j: int|
        0 <= i < j < all.len() && (#[trigger] all[i]).network is Some implies all[i].network != (
    #[trigger] all[j]).network by {
        if j < kept.len() {
            assert(all[i] == kept[i] && all[j] == kept[j]);
        } else {
            assert(all[i] == kept[i] && all[j] == added[0]);
            let at = choose|at: int| 0 <= at < observed.len() && observed[at] == kept[i];
            if kept[i].network == network {
                assert(wanted.attachment_is_wanted(observed[at], network));
            }
        }
    }
}

/// Attachments that are the wanted ones need no call.
pub proof fn wanted_nets_need_no_call(
    wanted: LoadBalancerView,
    balancer: BalancerView,
    network: Option<i64>,
)
    requires
        wanted.nets_are_wanted(balancer.private_net, network),
    ensures
        wanted.network_calls(balancer, network) == Seq::<RequestView>::empty(),
{
    no_detachment_for_wanted_nets(
        wanted,
        balancer.id,
        balancer.private_net,
        network,
        balancer.private_net.len() as int,
    );
    assert(balancer.private_net.take(balancer.private_net.len() as int) =~= balancer.private_net);
    assert(wanted.network_calls(balancer, network) =~= Seq::<RequestView>::empty());
}

/// Wanted attachments call for no detachment.
proof fn no_detachment_for_wanted_nets(
    wanted: LoadBalancerView,
    id: i64,
    nets: Seq<PrivateNetView>,
    network: Option<i64>,
    done: int,
)
    requires
        wanted.nets_are_wanted(nets, network),
        0 <= done <= nets.len(),
    ensures
        wanted.detachments(id, nets.take(done), network) == Seq::<RequestView>::empty(),
    decreases done,
{
    if done > 0 {
        no_detachment_for_wanted_nets(wanted, id, nets, network, done - 1);
        assert(nets.take(done).drop_last() =~= nets.take(done - 1));
        assert(nets.take(done).last() == nets[done - 1]);
        assert(wanted.detachment(id, nets[done - 1], network) =~= Seq::<RequestView>::empty());
        assert(wanted.detachments(id, nets.take(done), network) =~= Seq::<RequestView>::empty());
    }
}


/// Whether a load balancer is as Hetzner Cloud keeps load balancers: no two
/// services on one port, no two targets with one address, no two
/// attachments to one network.
pub open spec fn well_formed(balancer: BalancerView) -> bool {
    &&& distinct_ports(balancer.services)
    &&& distinct_addresses(balancer.targets)
    &&& distinct_networks(balancer.private_net)
}

impl LoadBalancerView {
    /// Whether the wanted load balancer can be reached: it wants no address
    /// twice, and finitely many services.
    pub open spec fn reachable(self) -> bool {
        &&& self.targets.no_duplicates()
        &&& self.services.dom().finite()
    }

    /// Whether `balancer` is the wanted load balancer, `network` being the
    /// id of the wanted network, if one is wanted.
    pub open spec fn in_step(self, balancer: BalancerView, network: Option<i64>) -> bool {
        &&& balancer.algorithm == self.algorithm
        &&& balancer.balancer_type == self.balancer_type
        &&& self.nets_are_wanted(balancer.private_net, network)
        &&& self.services_are_wanted(balancer.services)
        &&& self.targets_are_wanted(balancer.targets)
    }

    /// The load balancer that a pass over `balancer` leaves.
    pub open spec fn after_pass(self, balancer: BalancerView, network: Option<i64>, given_ip: Seq<char>) -> BalancerView {
        BalancerView {
            algorithm: self.algorithm,
            balancer_type: self.balancer_type,
            private_net: self.nets_in_step(balancer.private_net, network, given_ip),
            services: self.services_in_step(balancer.services),
            targets: self.targets_in_step(balancer.targets),
            ..balancer
        }
    }
}

/// Convergence. One pass brings any well-formed load balancer to the wanted
/// one: after Hetzner Cloud has carried out the calls of the pass, algorithm
/// and type are the wanted ones, exactly the wanted services listen, each
/// with the wanted settings, exactly the wanted addresses are targets, and
/// the only network attachment is the wanted one. The load balancer is
/// well-formed again.
pub proof fn pass_reaches_the_wanted_state(
    wanted: LoadBalancerView,
    balancer: BalancerView,
    network: Option<i64>,
    given_ip: Seq<char>,
)
    requires
        well_formed(balancer),
        wanted.reachable(),
    ensures
        carried_out_all(balancer, wanted.pass_calls(balancer, network), given_ip)
            == wanted.after_pass(balancer, network, given_ip),
        wanted.in_step(wanted.after_pass(balancer, network, given_ip), network),
        well_formed(wanted.after_pass(balancer, network, given_ip)),
{
    let algorithm = wanted.algorithm_calls(balancer);
    let kind = wanted.type_calls(balancer);
    let nets = wanted.network_calls(balancer, network);
    let services = wanted.service_calls(balancer);
    let targets = wanted.target_calls(balancer);
    let first = BalancerView { algorithm: wanted.algorithm, ..balancer };
    if algorithm.len() == 1 {
        run_of_one(balancer, algorithm, given_ip);
    }
    assert(carried_out_all(balancer, algorithm, given_ip) == first);
    let second = BalancerView { balancer_type: wanted.balancer_type, ..first };
    if kind.len() == 1 {
        run_of_one(first, kind, given_ip);
    }
    assert(carried_out_all(first, kind, given_ip) == second);
    runs_compose(balancer, algorithm, kind, given_ip);
    network_calls_settle(wanted, second, network, given_ip);
    assert(wanted.network_calls(second, network) == nets);
    let third = BalancerView {
        private_net: wanted.nets_in_step(balancer.private_net, network, given_ip),
        ..second
    };
    runs_compose(balancer, algorithm + kind, nets, given_ip);
    service_calls_settle(wanted, third, given_ip);
    assert(wanted.service_calls(third) == services);
    let fourth = BalancerView { services: wanted.services_in_step(balancer.services), ..third };
    runs_compose(balancer, algorithm + kind + nets, services, given_ip);
    target_calls_settle(wanted, fourth, given_ip);
    assert(wanted.target_calls(fourth) == targets);
    runs_compose(balancer, algorithm + kind + nets + services, targets, given_ip);
    nets_in_step_are_wanted(wanted, balancer.private_net, network, given_ip);
    services_in_step_are_wanted(wanted, balancer.services);
    targets_in_step_are_wanted(wanted, balancer.targets);
}

/// A load balancer that is the wanted one needs no call.
pub proof fn wanted_state_needs_no_call(
    wanted: LoadBalancerView,
    balancer: BalancerView,
    network: Option<i64>,
)
    requires
        wanted.in_step(balancer, network),
        wanted.services.dom().finite(),
    ensures
        wanted.pass_calls(balancer, network) == Seq::<RequestView>::empty(),
{
    wanted_nets_need_no_call(wanted, balancer, network);
    wanted_services_need_no_call(wanted, balancer);
    wanted_targets_need_no_call(wanted, balancer);
    assert(wanted.pass_calls(balancer, network) =~= Seq::<RequestView>::empty());
}

/// Idempotence. A second pass, over the load balancer that a first pass
/// left, asks for no call, so it leaves the load balancer as it is.
pub proof fn second_pass_changes_nothing(
    wanted: LoadBalancerView,
    balancer: BalancerView,
    network: Option<i64>,
    given_ip: Seq<char>,
)
    requires
        well_formed(balancer),
        wanted.reachable(),
    ensures
        ({
            let once = carried_out_all(balancer, wanted.pass_calls(balancer, network), given_ip);
            &&& wanted.pass_calls(once, network) == Seq::<RequestView>::empty()
            &&& carried_out_all(once, wanted.pass_calls(once, network), given_ip) == once
        }),
{
    pass_reaches_the_wanted_state(wanted, balancer, network, given_ip);
    wanted_state_needs_no_call(wanted, wanted.after_pass(balancer, network, given_ip), network);
}

/// Target set equality. After a pass, the addresses of the load balancer's
/// targets are, as a multiset, the wanted addresses.
pub proof fn pass_leaves_the_wanted_targets(
    wanted: LoadBalancerView,
    balancer: BalancerView,
    network: Option<i64>,
    given_ip: Seq<char>,
)
    requires
        well_formed(balancer),
        wanted.reachable(),
    ensures
        addresses(
            carried_out_all(balancer, wanted.pass_calls(balancer, network), given_ip).targets,
        ).to_multiset() == wanted.targets.to_multiset(),
{
    pass_reaches_the_wanted_state(wanted, balancer, network, given_ip);
    let after = wanted.after_pass(balancer, network, given_ip);
    addresses_are_the_targets(after.targets);
    assert forall|ip: Seq<char>| addresses(after.targets).contains(ip) <==> wanted.targets.contains(
        ip,
    ) by {
        if addresses(after.targets).contains(ip) {
            assert(has_target(after.targets, ip));
            let at = choose|at: int|
                0 <= at < after.targets.len() && (#[trigger] after.targets[at]).ip == Some(ip);
            assert(wanted.targets.contains(after.targets[at].ip->0));
        }
    }
    same_members_same_multiset(addresses(after.targets), wanted.targets);
}


/// Whether a call is about the service on `port`.
pub open spec fn names_port(call: RequestView, port: i32) -> bool {
    match call {
        RequestView::UpdateService { service, .. } => service.listen_port == port,
        RequestView::DeleteService { listen_port, .. } => listen_port == port,
        RequestView::AddService { service, .. } => service.listen_port == port,
        _ => false,
    }
}

/// Every fix that is about a port is the fix for a reported service on that
/// port, and each fix for a reported service is among the fixes.
proof fn fixes_stem_from_services(
    wanted: LoadBalancerView,
    id: i64,
    services: Seq<BalancerService>,
    port: i32,
)
    ensures
        forall|k: int|
            0 <= k < wanted.service_fixes(id, services).len() && names_port(
                #[trigger] wanted.service_fixes(id, services)[k],
                port,
            ) ==> exists|j: int|
                0 <= j < services.len() && (#[trigger] services[j]).listen_port == port
                    && wanted.service_fix(id, services[j]) == seq![
                    wanted.service_fixes(id, services)[k],
                ],
        forall|j: int|
            0 <= j < services.len() && wanted.service_fix(id, #[trigger] services[j]).len() > 0
                ==> wanted.service_fixes(id, services).contains(
                wanted.service_fix(id, services[j])[0],
            ),
    decreases services.len(),
{
    if services.len() > 0 {
        let front = services.drop_last();
        let earlier = wanted.service_fixes(id, front);
        let last = wanted.service_fix(id, services.last());
        let all = wanted.service_fixes(id, services);
        fixes_stem_from_services(wanted, id, front, port);
        assert forall|k: int| 0 <= k < all.len() && names_port(#[trigger] all[k], port) implies exists|
            j: int,
        |
            0 <= j < services.len() && (#[trigger] services[j]).listen_port == port
                && wanted.service_fix(id, services[j]) == seq![all[k]] by {
            if k < earlier.len() {
                assert(all[k] == earlier[k]);
                let j = choose|j: int|
                    0 <= j < front.len() && (#[trigger] front[j]).listen_port == port
                        && wanted.service_fix(id, front[j]) == seq![earlier[k]];
                assert(services[j] == front[j]);
            } else {
                assert(all[k] == last[0]);
                assert(last =~= seq![all[k]]);
                assert(services[services.len() - 1].listen_port == port);
            }
        }
        assert forall|j: int|
            0 <= j < services.len() && wanted.service_fix(id, #[trigger] services[j]).len()
                > 0 implies all.contains(wanted.service_fix(id, services[j])[0]) by {
            if j < front.len() {
                assert(front[j] == services[j]);
                let fix = wanted.service_fix(id, services[j])[0];
                assert(earlier.contains(fix));
                let k = choose|k: int| 0 <= k < earlier.len() && earlier[k] == fix;
                assert(all[k] == fix);
            } else {
                assert(all[earlier.len() as int] == last[0]);
            }
        }
    }
}

/// No addition is about a port on which a reported service listens.
proof fn additions_are_about_free_ports(
    wanted: LoadBalancerView,
    id: i64,
    services: Seq<BalancerService>,
    ports: Seq<i32>,
    port: i32,
)
    requires
        listens_on(services, port),
    ensures
        forall|k: int|
            0 <= k < wanted.missing_services(id, services, ports).len() ==> !names_port(
                #[trigger] wanted.missing_services(id, services, ports)[k],
                port,
            ),
    decreases ports.len(),
{
    if ports.len() > 0 {
        additions_are_about_free_ports(wanted, id, services, ports.drop_last(), port);
        let earlier = wanted.missing_services(id, services, ports.drop_last());
        let all = wanted.missing_services(id, services, ports);
        assert forall|k: int| 0 <= k < all.len() implies !names_port(#[trigger] all[k], port) by {
            if k < earlier.len() {
                assert(all[k] == earlier[k]);
            }
        }
    }
}

/// Diff minimality. A reported service on a wanted port is updated if and
/// only if one of the compared fields differs, and then to the wanted
/// service; a service of which none differs is left alone: no call of the
/// pass is about its port.
pub proof fn service_is_updated_only_where_it_differs(
    wanted: LoadBalancerView,
    balancer: BalancerView,
    at: int,
)
    requires
        distinct_ports(balancer.services),
        0 <= at < balancer.services.len(),
        wanted.services.contains_key(balancer.services[at].listen_port),
    ensures
        ({
            let service = balancer.services[at];
            let port = service.listen_port;
            let update = RequestView::UpdateService {
                id: balancer.id,
                service: wanted.service_for(port, wanted.services[port]),
            };
            let calls = wanted.service_calls(balancer);
            &&& calls.contains(update) <==> !wanted.service_is_current(
                service,
                wanted.services[port],
            )
            &&& forall|k: int|
                0 <= k < calls.len() && names_port(#[trigger] calls[k], port) ==> calls[k]
                    == update
        }),
{
    let services = balancer.services;
    let service = services[at];
    let port = service.listen_port;
    let id = balancer.id;
    let update = RequestView::UpdateService {
        id,
        service: wanted.service_for(port, wanted.services[port]),
    };
    let fixes = wanted.service_fixes(id, services);
    let additions = wanted.missing_services(id, services, ascending_keys(wanted.services));
    let calls = wanted.service_calls(balancer);
    fixes_stem_from_services(wanted, id, services, port);
    assert(listens_on(services, port));
    additions_are_about_free_ports(wanted, id, services, ascending_keys(wanted.services), port);
    assert forall|k: int| 0 <= k < calls.len() && names_port(#[trigger] calls[k], port) implies calls[k]
        == update && !wanted.service_is_current(service, wanted.services[port]) by {
        if k < fixes.len() {
            assert(calls[k] == fixes[k]);
            let j = choose|j: int|
                0 <= j < services.len() && (#[trigger] services[j]).listen_port == port
                    && wanted.service_fix(id, services[j]) == seq![fixes[k]];
            if j < at {
                assert(services[j].listen_port != services[at].listen_port);
            } else if at < j {
                assert(services[at].listen_port != services[j].listen_port);
            }
            assert(wanted.service_fix(id, service)[0] == fixes[k]);
        } else {
            assert(calls[k] == additions[k - fixes.len()]);
        }
    }
    if calls.contains(update) {
        let k = choose|k: int| 0 <= k < calls.len() && calls[k] == update;
        assert(names_port(calls[k], port));
    }
    if !wanted.service_is_current(service, wanted.services[port]) {
        assert(wanted.service_fix(id, services[at])[0] == update);
        assert(fixes.contains(update));
        let k = choose|k: int| 0 <= k < fixes.len() && fixes[k] == update;
        assert(calls[k] == update);
    }
}

} // verus!
