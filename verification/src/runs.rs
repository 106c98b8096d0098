//! Whole passes against Hetzner Cloud: the calls that a pass makes one after
//! the other, each answered by the cloud before the next is asked for, and
//! what the cloud is like once the pass is over.

use crate::calls::{EventView, RequestView, StepView};
use crate::cloud::{BalancerView, NetworkView, PrivateNetView, TargetView};
use crate::convergence::{carried_out, carried_out_all, run_of_one, runs_compose, well_formed};
use crate::error::ErrorView;
use crate::lb::LoadBalancerView;
use crate::pass::{CleanupView, ReconcileView};
use vstd::prelude::*;

verus! {

/// What a pass sees of a Hetzner Cloud project: the load balancers that have
/// the wanted name, and the networks that have the wanted network's name.
pub struct ProjectView {
    pub balancers: Seq<BalancerView>,
    pub networks: Seq<NetworkView>,
}

/// What the cloud decides by itself: the id and the public addresses of a
/// load balancer that it creates, given as a load balancer of which nothing
/// else counts, and the address of an attachment that asks for none.
pub struct ChoiceView {
    pub created: BalancerView,
    pub given_ip: Seq<char>,
}

/// The load balancer that a call changes, if it changes one.
pub open spec fn addressed(call: RequestView) -> Option<i64> {
    match call {
        RequestView::ChangeAlgorithm { id, .. } => Some(id),
        RequestView::ChangeType { id, .. } => Some(id),
        RequestView::DetachFromNetwork { id, .. } => Some(id),
        RequestView::AttachToNetwork { id, .. } => Some(id),
        RequestView::UpdateService { id, .. } => Some(id),
        RequestView::DeleteService { id, .. } => Some(id),
        RequestView::AddService { id, .. } => Some(id),
        RequestView::RemoveTarget { id, .. } => Some(id),
        RequestView::AddTarget { id, .. } => Some(id),
        _ => None,
    }
}

/// Carries a call out on the load balancer that it names.
pub open spec fn change(call: RequestView, given_ip: Seq<char>) -> spec_fn(BalancerView) -> BalancerView {
    |balancer: BalancerView|
        if addressed(call) == Some(balancer.id) {
            carried_out(balancer, call, given_ip)
        } else {
            balancer
        }
}

/// Tells the load balancers other than the one with this id.
pub open spec fn other_balancers(id: i64) -> spec_fn(BalancerView) -> bool {
    |balancer: BalancerView| balancer.id != id
}

/// The load balancer that a creation yields: named and set as asked, with
/// the services and targets asked for, and attached to the network asked
/// for, if any.
pub open spec fn created_balancer(call: RequestView, choice: ChoiceView) -> BalancerView {
    match call {
        RequestView::CreateLoadBalancer {
            name,
            algorithm,
            balancer_type,
            services,
            targets,
            network,
            ..
        } => BalancerView {
            name,
            algorithm,
            balancer_type,
            services,
            targets: Seq::new(targets.len(), |i: int| TargetView { ip: Some(targets[i]) }),
            private_net: match network {
                Some(id) => seq![PrivateNetView { network, ip: Some(choice.given_ip) }],
                None => Seq::empty(),
            },
            ..choice.created
        },
        _ => choice.created,
    }
}

/// What Hetzner Cloud answers to a call that goes through, and what the
/// project is like afterwards.
pub open spec fn answered(project: ProjectView, call: RequestView, choice: ChoiceView) -> (
    ProjectView,
    EventView,
) {
    match call {
        RequestView::ListLoadBalancers { .. } => (project, EventView::LoadBalancers(project.balancers)),
        RequestView::ListNetworks { .. } => (project, EventView::Networks(project.networks)),
        RequestView::CreateLoadBalancer { .. } => (
            ProjectView {
                balancers: project.balancers.push(created_balancer(call, choice)),
                ..project
            },
            EventView::Created(created_balancer(call, choice)),
        ),
        RequestView::DeleteLoadBalancer { id } => (
            ProjectView {
                balancers: project.balancers.filter(other_balancers(id)),
                ..project
            },
            EventView::Done,
        ),
        _ => (
            ProjectView {
                balancers: project.balancers.map_values(change(call, choice.given_ip)),
                ..project
            },
            EventView::Done,
        ),
    }
}

/// A pass as it went: the calls that were made, in their order, what the
/// project is like after them, and how the pass ended, if it has ended.
pub struct RunView {
    pub project: ProjectView,
    pub calls: Seq<RequestView>,
    pub outcome: Option<Result<BalancerView, ErrorView>>,
}

/// The pass from one of its steps on, for at most `patience` calls: each
/// call that the pass asks for is answered by the cloud, and the answer is
/// handed to the next step.
pub open spec fn continued(
    wanted: LoadBalancerView,
    step: (ReconcileView, StepView<BalancerView>),
    project: ProjectView,
    choice: ChoiceView,
    patience: nat,
) -> RunView
    decreases patience,
{
    match step.1 {
        StepView::Done(outcome) => RunView { project, calls: Seq::empty(), outcome: Some(outcome) },
        StepView::Call(call) => if patience == 0 {
            RunView { project, calls: Seq::empty(), outcome: None }
        } else {
            let (after, event) = answered(project, call, choice);
            let rest = continued(
                wanted,
                wanted.reconcile_step(step.0, event),
                after,
                choice,
                (patience - 1) as nat,
            );
            RunView { calls: seq![call] + rest.calls, ..rest }
        },
    }
}

/// A whole pass, for at most `patience` calls.
pub open spec fn pass_run(
    wanted: LoadBalancerView,
    project: ProjectView,
    choice: ChoiceView,
    patience: nat,
) -> RunView {
    continued(
        wanted,
        wanted.reconcile_step(ReconcileView::Start, crate::calls::EventView::Start),
        project,
        choice,
        patience,
    )
}

/// Whether each of `calls` changes the load balancer `id`.
pub open spec fn all_address(calls: Seq<RequestView>, id: i64) -> bool {
    forall|i: int| 0 <= i < calls.len() ==> addressed(#[trigger] calls[i]) == Some(id)
}

/// Two runs of calls that change one load balancer change it as one run.
pub proof fn joined_calls_address(first: Seq<RequestView>, second: Seq<RequestView>, id: i64)
    requires
        all_address(first, id),
        all_address(second, id),
    ensures
        all_address(first + second, id),
{
    assert forall|i: int| 0 <= i < (first + second).len() implies addressed(
        #[trigger] (first + second)[i],
    ) == Some(id) by {
        if i < first.len() {
            assert((first + second)[i] == first[i]);
        } else {
            assert((first + second)[i] == second[i - first.len()]);
        }
    }
}

/// Every fix of a service changes the load balancer it was planned for.
proof fn fixes_address(wanted: LoadBalancerView, id: i64, services: Seq<crate::cloud::BalancerService>)
    ensures
        all_address(wanted.service_fixes(id, services), id),
    decreases services.len(),
{
    if services.len() > 0 {
        fixes_address(wanted, id, services.drop_last());
        joined_calls_address(
            wanted.service_fixes(id, services.drop_last()),
            wanted.service_fix(id, services.last()),
            id,
        );
    }
}

/// Every addition of a service changes the load balancer it was planned
/// for.
proof fn additions_address(
    wanted: LoadBalancerView,
    id: i64,
    services: Seq<crate::cloud::BalancerService>,
    ports: Seq<i32>,
)
    ensures
        all_address(wanted.missing_services(id, services, ports), id),
    decreases ports.len(),
{
    if ports.len() > 0 {
        additions_address(wanted, id, services, ports.drop_last());
    }
}

/// Every removal of a target changes the load balancer it was planned for.
proof fn removals_address(wanted: LoadBalancerView, id: i64, targets: Seq<TargetView>)
    ensures
        all_address(wanted.target_removals(id, targets), id),
    decreases targets.len(),
{
    if targets.len() > 0 {
        removals_address(wanted, id, targets.drop_last());
        joined_calls_address(
            wanted.target_removals(id, targets.drop_last()),
            wanted.target_removal(id, targets.last()),
            id,
        );
    }
}

/// Every addition of a target changes the load balancer it was planned for.
proof fn target_additions_address(id: i64, targets: Seq<TargetView>, addresses: Seq<Seq<char>>)
    ensures
        all_address(LoadBalancerView::missing_targets(id, targets, addresses), id),
    decreases addresses.len(),
{
    if addresses.len() > 0 {
        target_additions_address(id, targets, addresses.drop_last());
    }
}

/// Every detachment changes the load balancer it was planned for.
proof fn detachments_address(
    wanted: LoadBalancerView,
    id: i64,
    nets: Seq<PrivateNetView>,
    network: Option<i64>,
)
    ensures
        all_address(wanted.detachments(id, nets, network), id),
    decreases nets.len(),
{
    if nets.len() > 0 {
        detachments_address(wanted, id, nets.drop_last(), network);
        joined_calls_address(
            wanted.detachments(id, nets.drop_last(), network),
            wanted.detachment(id, nets.last(), network),
            id,
        );
    }
}

/// Every call of a pass over a load balancer changes that load balancer.
pub proof fn pass_calls_address(wanted: LoadBalancerView, balancer: BalancerView, network: Option<i64>)
    ensures
        all_address(wanted.first_calls(balancer), balancer.id),
        all_address(wanted.later_calls(balancer, network), balancer.id),
        wanted.pass_calls(balancer, network) == wanted.first_calls(balancer) + wanted.later_calls(
            balancer,
            network,
        ),
{
    let id = balancer.id;
    joined_calls_address(wanted.algorithm_calls(balancer), wanted.type_calls(balancer), id);
    detachments_address(wanted, id, balancer.private_net, network);
    joined_calls_address(
        wanted.detachments(id, balancer.private_net, network),
        wanted.attachment(balancer, network),
        id,
    );
    fixes_address(wanted, id, balancer.services);
    additions_address(
        wanted,
        id,
        balancer.services,
        crate::ports::ascending_keys(wanted.services),
    );
    joined_calls_address(
        wanted.service_fixes(id, balancer.services),
        wanted.missing_services(
            id,
            balancer.services,
            crate::ports::ascending_keys(wanted.services),
        ),
        id,
    );
    removals_address(wanted, id, balancer.targets);
    target_additions_address(id, balancer.targets, wanted.targets);
    joined_calls_address(
        wanted.target_removals(id, balancer.targets),
        LoadBalancerView::missing_targets(id, balancer.targets, wanted.targets),
        id,
    );
    joined_calls_address(wanted.network_calls(balancer, network), wanted.service_calls(balancer), id);
    joined_calls_address(
        wanted.network_calls(balancer, network) + wanted.service_calls(balancer),
        wanted.target_calls(balancer),
        id,
    );
    assert(wanted.pass_calls(balancer, network) =~= wanted.first_calls(balancer)
        + wanted.later_calls(balancer, network));
}

/// The project with its one load balancer.
pub open spec fn project_of(balancer: BalancerView, networks: Seq<NetworkView>) -> ProjectView {
    ProjectView { balancers: seq![balancer], networks }
}

/// A call that changes the project's one load balancer is answered with
/// `Done`, and has been carried out on that load balancer.
proof fn change_is_carried_out(
    balancer: BalancerView,
    networks: Seq<NetworkView>,
    call: RequestView,
    choice: ChoiceView,
)
    requires
        addressed(call) == Some(balancer.id),
    ensures
        answered(project_of(balancer, networks), call, choice) == (
            project_of(carried_out(balancer, call, choice.given_ip), networks),
            EventView::Done,
        ),
{
    assert(seq![balancer].map_values(change(call, choice.given_ip)) =~= seq![
        carried_out(balancer, call, choice.given_ip),
    ]);
}

/// The later calls of a pass are made one after the other, each on the
/// load balancer as the calls before it left it, and then the pass is over.
pub proof fn later_calls_are_carried_out(
    wanted: LoadBalancerView,
    found: BalancerView,
    queue: Seq<RequestView>,
    current: BalancerView,
    networks: Seq<NetworkView>,
    choice: ChoiceView,
    patience: nat,
)
    requires
        all_address(queue, found.id),
        current.id == found.id,
        patience >= queue.len(),
    ensures
        continued(
            wanted,
            LoadBalancerView::next_later_call(found, queue),
            project_of(current, networks),
            choice,
            patience,
        ) == (RunView {
            project: project_of(carried_out_all(current, queue, choice.given_ip), networks),
            calls: queue,
            outcome: Some(Ok(found)),
        }),
    decreases queue.len(),
{
    if queue.len() > 0 {
        let call = queue[0];
        let rest = queue.drop_first();
        let next = carried_out(current, call, choice.given_ip);
        change_is_carried_out(current, networks, call, choice);
        assert forall|i: int| 0 <= i < rest.len() implies addressed(#[trigger] rest[i]) == Some(
            found.id,
        ) by {
            assert(rest[i] == queue[i + 1]);
        }
        assert(next.id == current.id);
        later_calls_are_carried_out(
            wanted,
            found,
            rest,
            next,
            networks,
            choice,
            (patience - 1) as nat,
        );
        assert(wanted.reconcile_step(
            ReconcileView::Applying { balancer: found, queue: rest, network_pending: false },
            EventView::Done,
        ) == LoadBalancerView::next_later_call(found, rest));
        runs_compose(current, seq![call], rest, choice.given_ip);
        run_of_one(current, seq![call], choice.given_ip);
        assert(seq![call] + rest =~= queue);
    } else {
        assert(queue =~= Seq::empty());
    }
}

/// The calls that look the wanted network up: one where a network is
/// wanted, none otherwise.
pub open spec fn lookup_calls(wanted: LoadBalancerView) -> Seq<RequestView> {
    match wanted.network_name {
        Some(name) => seq![RequestView::ListNetworks { name }],
        None => Seq::empty(),
    }
}

/// The id of the network that the lookup finds.
pub open spec fn network_id(found: Option<NetworkView>) -> Option<i64> {
    match found {
        Some(network) => Some(network.id),
        None => None,
    }
}

/// Once the first calls are through, the pass turns to the network, looks
/// it up where one is wanted, and makes the later calls.
proof fn network_turn_is_carried_out(
    wanted: LoadBalancerView,
    found: BalancerView,
    current: BalancerView,
    networks: Seq<NetworkView>,
    network: Option<NetworkView>,
    choice: ChoiceView,
    patience: nat,
)
    requires
        current.id == found.id,
        wanted.found_network(networks) == Ok::<Option<NetworkView>, ErrorView>(network),
        patience >= wanted.later_calls(found, network_id(network)).len() + 1,
    ensures
        continued(
            wanted,
            wanted.turn_to_network(found),
            project_of(current, networks),
            choice,
            patience,
        ) == (RunView {
            project: project_of(
                carried_out_all(
                    current,
                    wanted.later_calls(found, network_id(network)),
                    choice.given_ip,
                ),
                networks,
            ),
            calls: lookup_calls(wanted) + wanted.later_calls(found, network_id(network)),
            outcome: Some(Ok(found)),
        }),
{
    let later = wanted.later_calls(found, network_id(network));
    pass_calls_address(wanted, found, network_id(network));
    match wanted.network_name {
        Some(name) => {
            later_calls_are_carried_out(
                wanted,
                found,
                later,
                current,
                networks,
                choice,
                (patience - 1) as nat,
            );
        },
        None => {
            later_calls_are_carried_out(wanted, found, later, current, networks, choice, patience);
            assert(lookup_calls(wanted) + later =~= later);
        },
    }
}

/// The first calls of a pass are made one after the other, then the pass
/// turns to the network.
proof fn first_calls_are_carried_out(
    wanted: LoadBalancerView,
    found: BalancerView,
    queue: Seq<RequestView>,
    current: BalancerView,
    networks: Seq<NetworkView>,
    network: Option<NetworkView>,
    choice: ChoiceView,
    patience: nat,
)
    requires
        all_address(queue, found.id),
        current.id == found.id,
        wanted.found_network(networks) == Ok::<Option<NetworkView>, ErrorView>(network),
        patience >= queue.len() + wanted.later_calls(found, network_id(network)).len() + 1,
    ensures
        continued(
            wanted,
            wanted.next_call(found, queue, true),
            project_of(current, networks),
            choice,
            patience,
        ) == (RunView {
            project: project_of(
                carried_out_all(
                    current,
                    queue + wanted.later_calls(found, network_id(network)),
                    choice.given_ip,
                ),
                networks,
            ),
            calls: queue + lookup_calls(wanted) + wanted.later_calls(found, network_id(network)),
            outcome: Some(Ok(found)),
        }),
    decreases queue.len(),
{
    let later = wanted.later_calls(found, network_id(network));
    if queue.len() > 0 {
        let call = queue[0];
        let rest = queue.drop_first();
        let next = carried_out(current, call, choice.given_ip);
        change_is_carried_out(current, networks, call, choice);
        assert forall|i: int| 0 <= i < rest.len() implies addressed(#[trigger] rest[i]) == Some(
            found.id,
        ) by {
            assert(rest[i] == queue[i + 1]);
        }
        first_calls_are_carried_out(
            wanted,
            found,
            rest,
            next,
            networks,
            network,
            choice,
            (patience - 1) as nat,
        );
        assert(wanted.reconcile_step(
            ReconcileView::Applying { balancer: found, queue: rest, network_pending: true },
            EventView::Done,
        ) == wanted.next_call(found, rest, true));
        runs_compose(current, seq![call], rest + later, choice.given_ip);
        run_of_one(current, seq![call], choice.given_ip);
        assert(seq![call] + (rest + later) =~= queue + later);
        assert(seq![call] + (rest + lookup_calls(wanted) + later) =~= queue + lookup_calls(wanted)
            + later);
    } else {
        network_turn_is_carried_out(wanted, found, current, networks, network, choice, patience);
        assert(queue + later =~= later);
        assert(queue + lookup_calls(wanted) + later =~= lookup_calls(wanted) + later);
    }
}

/// A pass over a project with one load balancer of the wanted name: the
/// load balancers are listed, the calls of the pass are made in their
/// order, with the lookup of the network in its place, and the project's
/// load balancer is left as the calls leave it. The pass ends with the load
/// balancer as it was found.
pub proof fn pass_over_one_balancer(
    wanted: LoadBalancerView,
    balancer: BalancerView,
    networks: Seq<NetworkView>,
    network: Option<NetworkView>,
    choice: ChoiceView,
    patience: nat,
)
    requires
        wanted.found_network(networks) == Ok::<Option<NetworkView>, ErrorView>(network),
        patience >= wanted.pass_calls(balancer, network_id(network)).len() + 2,
    ensures
        pass_run(wanted, project_of(balancer, networks), choice, patience) == (RunView {
            project: project_of(
                carried_out_all(
                    balancer,
                    wanted.pass_calls(balancer, network_id(network)),
                    choice.given_ip,
                ),
                networks,
            ),
            calls: seq![RequestView::ListLoadBalancers { name: wanted.name }] + wanted.first_calls(
                balancer,
            ) + lookup_calls(wanted) + wanted.later_calls(balancer, network_id(network)),
            outcome: Some(Ok(balancer)),
        }),
{
    let net = network_id(network);
    pass_calls_address(wanted, balancer, net);
    let first = wanted.first_calls(balancer);
    let later = wanted.later_calls(balancer, net);
    first_calls_are_carried_out(
        wanted,
        balancer,
        first,
        balancer,
        networks,
        network,
        choice,
        (patience - 1) as nat,
    );
    let list = RequestView::ListLoadBalancers { name: wanted.name };
    assert(seq![list] + (first + lookup_calls(wanted) + later) =~= seq![list] + first
        + lookup_calls(wanted) + later);
}

/// Convergence, for a whole pass. From any well-formed load balancer, one
/// pass that goes through leaves the load balancer that is wanted.
pub proof fn pass_converges(
    wanted: LoadBalancerView,
    balancer: BalancerView,
    networks: Seq<NetworkView>,
    network: Option<NetworkView>,
    choice: ChoiceView,
    patience: nat,
)
    requires
        well_formed(balancer),
        wanted.reachable(),
        wanted.found_network(networks) == Ok::<Option<NetworkView>, ErrorView>(network),
        patience >= wanted.pass_calls(balancer, network_id(network)).len() + 2,
    ensures
        ({
            let run = pass_run(wanted, project_of(balancer, networks), choice, patience);
            &&& run.outcome == Some(Ok::<BalancerView, ErrorView>(balancer))
            &&& run.project == project_of(
                wanted.after_pass(balancer, network_id(network), choice.given_ip),
                networks,
            )
            &&& wanted.in_step(run.project.balancers[0], network_id(network))
            &&& well_formed(run.project.balancers[0])
        }),
{
    pass_over_one_balancer(wanted, balancer, networks, network, choice, patience);
    crate::convergence::pass_reaches_the_wanted_state(
        wanted,
        balancer,
        network_id(network),
        choice.given_ip,
    );
}

/// Target set equality, for a whole pass. After a pass that goes through,
/// the addresses of the load balancer's targets are, as a multiset, the
/// wanted addresses.
pub proof fn pass_leaves_the_wanted_addresses(
    wanted: LoadBalancerView,
    balancer: BalancerView,
    networks: Seq<NetworkView>,
    network: Option<NetworkView>,
    choice: ChoiceView,
    patience: nat,
)
    requires
        well_formed(balancer),
        wanted.reachable(),
        wanted.found_network(networks) == Ok::<Option<NetworkView>, ErrorView>(network),
        patience >= wanted.pass_calls(balancer, network_id(network)).len() + 2,
    ensures
        crate::convergence::addresses(
            pass_run(wanted, project_of(balancer, networks), choice, patience).project.balancers[0].targets,
        ).to_multiset() == wanted.targets.to_multiset(),
{
    pass_over_one_balancer(wanted, balancer, networks, network, choice, patience);
    crate::convergence::pass_leaves_the_wanted_targets(
        wanted,
        balancer,
        network_id(network),
        choice.given_ip,
    );
}

/// Idempotence, for whole passes. A second pass, over the project as a
/// first pass left it, makes no call that changes anything, and leaves the
/// project as it is.
pub proof fn second_pass_is_quiet(
    wanted: LoadBalancerView,
    balancer: BalancerView,
    networks: Seq<NetworkView>,
    network: Option<NetworkView>,
    choice: ChoiceView,
    patience: nat,
)
    requires
        well_formed(balancer),
        wanted.reachable(),
        wanted.found_network(networks) == Ok::<Option<NetworkView>, ErrorView>(network),
        patience >= wanted.pass_calls(balancer, network_id(network)).len() + 2,
    ensures
        ({
            let once = pass_run(wanted, project_of(balancer, networks), choice, patience);
            let twice = pass_run(wanted, once.project, choice, patience);
            &&& twice.project == once.project
            &&& twice.outcome == Some(Ok::<BalancerView, ErrorView>(once.project.balancers[0]))
            &&& forall|i: int| 0 <= i < twice.calls.len() ==> !(#[trigger] twice.calls[i]).changes_cloud()
        }),
{
    let net = network_id(network);
    pass_converges(wanted, balancer, networks, network, choice, patience);
    let after = wanted.after_pass(balancer, net, choice.given_ip);
    crate::convergence::wanted_state_needs_no_call(wanted, after, net);
    pass_over_one_balancer(wanted, after, networks, network, choice, patience);
    pass_calls_address(wanted, after, net);
    let twice = pass_run(wanted, project_of(after, networks), choice, patience);
    assert(wanted.first_calls(after).len() == 0);
    assert(wanted.later_calls(after, net).len() == 0);
    assert(twice.calls =~= seq![RequestView::ListLoadBalancers { name: wanted.name }]
        + lookup_calls(wanted));
}

/// At most one load balancer. Where several load balancers have the wanted
/// name, the pass ends with `SkipService` after it has listed them: it has
/// made no call that changes anything, and the project is as it was.
pub proof fn several_balancers_stop_the_pass(
    wanted: LoadBalancerView,
    project: ProjectView,
    choice: ChoiceView,
    patience: nat,
)
    requires
        project.balancers.len() >= 2,
        patience >= 1,
    ensures
        pass_run(wanted, project, choice, patience) == (RunView {
            project,
            calls: seq![RequestView::ListLoadBalancers { name: wanted.name }],
            outcome: Some(Err(ErrorView::SkipService)),
        }),
        !(RequestView::ListLoadBalancers { name: wanted.name }).changes_cloud(),
{
    let list = RequestView::ListLoadBalancers { name: wanted.name };
    let listed = wanted.reconcile_step(
        ReconcileView::Listing,
        EventView::LoadBalancers(project.balancers),
    );
    assert(listed == LoadBalancerView::pass_failed(ErrorView::SkipService));
    assert(continued(wanted, listed, project, choice, (patience - 1) as nat) == (RunView {
        project,
        calls: Seq::empty(),
        outcome: Some(Err(ErrorView::SkipService)),
    }));
    assert(answered(project, list, choice) == (project, EventView::LoadBalancers(project.balancers)));
    assert(seq![list] + Seq::<RequestView>::empty() =~= seq![list]);
}

/// Creation. Where no load balancer has the wanted name, the pass creates
/// one and goes on with it: after the pass, the project has the one load
/// balancer, and it is the wanted one.
pub proof fn missing_balancer_is_created(
    wanted: LoadBalancerView,
    networks: Seq<NetworkView>,
    network: Option<NetworkView>,
    choice: ChoiceView,
    patience: nat,
)
    requires
        wanted.reachable(),
        wanted.found_network(networks) == Ok::<Option<NetworkView>, ErrorView>(network),
        patience >= wanted.pass_calls(
            created_balancer(wanted.creation(), choice),
            network_id(network),
        ).len() + 3,
    ensures
        ({
            let created = created_balancer(wanted.creation(), choice);
            let run = pass_run(
                wanted,
                ProjectView { balancers: Seq::empty(), networks },
                choice,
                patience,
            );
            &&& created.name == wanted.name
            &&& run.calls[0] == RequestView::ListLoadBalancers { name: wanted.name }
            &&& run.calls[1] == wanted.creation()
            &&& run.outcome == Some(Ok::<BalancerView, ErrorView>(created))
            &&& run.project == project_of(
                wanted.after_pass(created, network_id(network), choice.given_ip),
                networks,
            )
            &&& wanted.in_step(run.project.balancers[0], network_id(network))
        }),
{
    let created = created_balancer(wanted.creation(), choice);
    let net = network_id(network);
    let none = ProjectView { balancers: Seq::<BalancerView>::empty(), networks };
    let list = RequestView::ListLoadBalancers { name: wanted.name };
    assert(none.balancers.push(created) =~= seq![created]);
    assert(well_formed(created));
    pass_calls_address(wanted, created, net);
    first_calls_are_carried_out(
        wanted,
        created,
        wanted.first_calls(created),
        created,
        networks,
        network,
        choice,
        (patience - 2) as nat,
    );
    crate::convergence::pass_reaches_the_wanted_state(wanted, created, net, choice.given_ip);
    let converging = wanted.next_call(created, wanted.first_calls(created), true);
    let tail = continued(
        wanted,
        converging,
        project_of(created, networks),
        choice,
        (patience - 2) as nat,
    );
    assert(answered(none, list, choice) == (none, EventView::LoadBalancers(none.balancers)));
    let listed = wanted.reconcile_step(
        ReconcileView::Listing,
        EventView::LoadBalancers(none.balancers),
    );
    assert(listed == (ReconcileView::Creating, StepView::<BalancerView>::Call(wanted.creation())));
    assert(answered(none, wanted.creation(), choice) == (
        project_of(created, networks),
        EventView::Created(created),
    ));
    assert(wanted.reconcile_step(ReconcileView::Creating, EventView::Created(created))
        == converging);
    let middle = continued(wanted, listed, none, choice, (patience - 1) as nat);
    assert(middle == (RunView { calls: seq![wanted.creation()] + tail.calls, ..tail }));
    let run = pass_run(wanted, none, choice, patience);
    assert(run == (RunView { calls: seq![list] + middle.calls, ..middle }));
    assert(run.calls[0] == list);
    assert(run.calls[1] == wanted.creation());
}


/// A taking apart as it went: the calls that were made, in their order,
/// what the project is like after them, and how the work ended, if it has
/// ended.
pub struct CleanupRunView {
    pub project: ProjectView,
    pub calls: Seq<RequestView>,
    pub outcome: Option<Result<(), ErrorView>>,
}

/// The taking apart from one of its steps on, for at most `patience` calls.
pub open spec fn cleanup_continued(
    wanted: LoadBalancerView,
    step: (CleanupView, StepView<()>),
    project: ProjectView,
    choice: ChoiceView,
    patience: nat,
) -> CleanupRunView
    decreases patience,
{
    match step.1 {
        StepView::Done(outcome) => CleanupRunView {
            project,
            calls: Seq::empty(),
            outcome: Some(outcome),
        },
        StepView::Call(call) => if patience == 0 {
            CleanupRunView { project, calls: Seq::empty(), outcome: None }
        } else {
            let (after, event) = answered(project, call, choice);
            let rest = cleanup_continued(
                wanted,
                wanted.cleanup_step(step.0, event),
                after,
                choice,
                (patience - 1) as nat,
            );
            CleanupRunView { calls: seq![call] + rest.calls, ..rest }
        },
    }
}

/// A whole taking apart, for at most `patience` calls.
pub open spec fn cleanup_run(
    wanted: LoadBalancerView,
    project: ProjectView,
    choice: ChoiceView,
    patience: nat,
) -> CleanupRunView {
    cleanup_continued(
        wanted,
        wanted.cleanup_step(CleanupView::Start, EventView::Start),
        project,
        choice,
        patience,
    )
}

/// Every removal of a target for the taking apart changes the load balancer
/// it was planned for.
proof fn clearances_address(id: i64, targets: Seq<TargetView>)
    ensures
        all_address(LoadBalancerView::target_clearances(id, targets), id),
    decreases targets.len(),
{
    if targets.len() > 0 {
        clearances_address(id, targets.drop_last());
        joined_calls_address(
            LoadBalancerView::target_clearances(id, targets.drop_last()),
            LoadBalancerView::target_clearance(id, targets.last()),
            id,
        );
    }
}

/// The deletions of the taking apart are made one after the other, the load
/// balancer itself being deleted last; then the project has no load
/// balancer left.
proof fn deletions_are_carried_out(
    wanted: LoadBalancerView,
    id: i64,
    emptying: Seq<RequestView>,
    current: BalancerView,
    networks: Seq<NetworkView>,
    choice: ChoiceView,
    patience: nat,
)
    requires
        all_address(emptying, id),
        current.id == id,
        patience >= emptying.len() + 1,
    ensures
        cleanup_continued(
            wanted,
            LoadBalancerView::next_deletion(
                emptying + seq![RequestView::DeleteLoadBalancer { id }],
            ),
            project_of(current, networks),
            choice,
            patience,
        ) == (CleanupRunView {
            project: ProjectView { balancers: Seq::empty(), networks },
            calls: emptying + seq![RequestView::DeleteLoadBalancer { id }],
            outcome: Some(Ok(())),
        }),
    decreases emptying.len(),
{
    let last = RequestView::DeleteLoadBalancer { id };
    let queue = emptying + seq![last];
    let rest = queue.drop_first();
    assert(wanted.cleanup_step(CleanupView::Applying { queue: rest }, EventView::Done)
        == LoadBalancerView::next_deletion(rest));
    if emptying.len() > 0 {
        let call = emptying[0];
        assert(queue[0] == call);
        change_is_carried_out(current, networks, call, choice);
        let remaining = emptying.drop_first();
        assert(rest =~= remaining + seq![last]);
        assert forall|i: int| 0 <= i < remaining.len() implies addressed(
            #[trigger] remaining[i],
        ) == Some(id) by {
            assert(remaining[i] == emptying[i + 1]);
        }
        deletions_are_carried_out(
            wanted,
            id,
            remaining,
            carried_out(current, call, choice.given_ip),
            networks,
            choice,
            (patience - 1) as nat,
        );
        assert(seq![call] + (remaining + seq![last]) =~= queue);
    } else {
        reveal(Seq::filter);
        assert(queue =~= seq![last]);
        assert(rest =~= Seq::<RequestView>::empty());
        let one = seq![current];
        let none = ProjectView { balancers: Seq::<BalancerView>::empty(), networks };
        assert(one.drop_last() =~= Seq::<BalancerView>::empty());
        assert(one.drop_last().filter(other_balancers(id)) =~= Seq::<BalancerView>::empty());
        assert(one.filter(other_balancers(id)) =~= Seq::<BalancerView>::empty());
        assert(answered(project_of(current, networks), last, choice) == (none, EventView::Done));
        assert(LoadBalancerView::next_deletion(rest) == LoadBalancerView::cleanup_over());
        assert(cleanup_continued(
            wanted,
            LoadBalancerView::cleanup_over(),
            none,
            choice,
            (patience - 1) as nat,
        ) == (CleanupRunView { project: none, calls: Seq::empty(), outcome: Some(Ok(())) }));
        assert(seq![last] + Seq::<RequestView>::empty() =~= queue);
    }
}

/// Deletion. The taking apart of the one load balancer of the wanted name
/// deletes its services, removes its targets that are given by address, and
/// deletes the load balancer: the project has none left, and the work ends
/// well.
pub proof fn taking_apart_leaves_nothing(
    wanted: LoadBalancerView,
    balancer: BalancerView,
    networks: Seq<NetworkView>,
    choice: ChoiceView,
    patience: nat,
)
    requires
        patience >= LoadBalancerView::cleanup_calls(balancer).len() + 1,
    ensures
        cleanup_run(wanted, project_of(balancer, networks), choice, patience) == (CleanupRunView {
            project: ProjectView { balancers: Seq::empty(), networks },
            calls: seq![RequestView::ListLoadBalancers { name: wanted.name }]
                + LoadBalancerView::cleanup_calls(balancer),
            outcome: Some(Ok(())),
        }),
{
    let id = balancer.id;
    let deletions = LoadBalancerView::service_deletions(id, balancer.services);
    let clearances = LoadBalancerView::target_clearances(id, balancer.targets);
    clearances_address(id, balancer.targets);
    joined_calls_address(deletions, clearances, id);
    deletions_are_carried_out(
        wanted,
        id,
        deletions + clearances,
        balancer,
        networks,
        choice,
        (patience - 1) as nat,
    );
}

/// Where no load balancer has the wanted name, there is nothing to take
/// apart: the work ends well after the listing.
pub proof fn nothing_to_take_apart(
    wanted: LoadBalancerView,
    networks: Seq<NetworkView>,
    choice: ChoiceView,
    patience: nat,
)
    requires
        patience >= 1,
    ensures
        cleanup_run(wanted, ProjectView { balancers: Seq::empty(), networks }, choice, patience)
            == (CleanupRunView {
            project: ProjectView { balancers: Seq::empty(), networks },
            calls: seq![RequestView::ListLoadBalancers { name: wanted.name }],
            outcome: Some(Ok(())),
        }),
{
    let none = ProjectView { balancers: Seq::<BalancerView>::empty(), networks };
    let list = RequestView::ListLoadBalancers { name: wanted.name };
    let listed = wanted.cleanup_step(CleanupView::Listing, EventView::LoadBalancers(none.balancers));
    assert(listed == LoadBalancerView::cleanup_over());
    assert(cleanup_continued(wanted, listed, none, choice, (patience - 1) as nat) == (
    CleanupRunView { project: none, calls: Seq::empty(), outcome: Some(Ok(())) }));
    assert(answered(none, list, choice) == (none, EventView::LoadBalancers(none.balancers)));
    assert(seq![list] + Seq::<RequestView>::empty() =~= seq![list]);
}

} // verus!
