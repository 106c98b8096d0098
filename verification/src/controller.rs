//! The reconciliation of one service, from the service as the cluster
//! reports it to the load balancer at Hetzner Cloud and back to the
//! service's status.

use crate::calls::{Event, EventView, Ingress, IngressView, Request, RequestView, Step, StepView};
use crate::cloud::{BalancerView, ObservedLoadBalancer, PublicAddress, PublicAddressView};
use crate::cluster::{
    Node, NodeAddressView, NodeView, Pod, PodView, Service, ServicePortView, ServiceView,
    StringMap,
};
use crate::config::{OperatorConfig, OperatorConfigView};
use crate::consts::{LB_NODE_SELECTOR, REQUEUE_SECONDS};
use crate::error::{ErrorView, LBTrackerError};
use crate::finalizers;
use crate::label_filter::{filter_rules, rules_hold, LabelFilter, RuleView};
use crate::lb::{wanted_balancer, LoadBalancer, LoadBalancerView};
use crate::pass::{Cleanup, CleanupView, Reconcile, ReconcileView};
use crate::text::{copy_optional_text, holds_text};
use vstd::prelude::*;
use vstd::string::StringExecFns;

verus! {

/// What every reconciliation shares and none changes: the operator's
/// settings, and the namespace that the cluster client falls back to for a
/// service that names none.
#[derive(Clone, Debug, PartialEq, Eq)]
pub struct CurrentContext {
    pub default_namespace: String,
    pub config: OperatorConfig,
}

/// [`CurrentContext`] as contracts speak of it: a plain value with texts as character sequences.
pub struct CurrentContextView {
    pub default_namespace: Seq<char>,
    pub config: OperatorConfigView,
}

impl DeepView for CurrentContext {
    type V = CurrentContextView;

    open spec fn deep_view(&self) -> CurrentContextView {
        CurrentContextView {
            default_namespace: self.default_namespace@,
            config: self.config.deep_view(),
        }
    }
}

impl CurrentContext {
    /// The context of an operator with these settings, whose client falls
    /// back to `default_namespace`.
    #[must_use]
    pub fn new(default_namespace: String, config: OperatorConfig) -> (context: CurrentContext)
        ensures
            context.deep_view() == (CurrentContextView {
                default_namespace: default_namespace@,
                config: config.deep_view(),
            }),
    {
        CurrentContext { default_namespace, config }
    }
}

/// What is to happen to a service after a reconciliation.
#[derive(Clone, Copy, Debug, PartialEq, Eq, Structural)]
pub enum Action {
    /// Reconcile the service again after this many seconds.
    Requeue(u64),
    /// Leave the service alone until it changes.
    AwaitChange,
}

impl DeepView for Action {
    type V = Action;

    open spec fn deep_view(&self) -> Action {
        *self
    }
}

/// What is to happen to a service whose reconciliation ended in `error`: a
/// skipped service is left alone until it changes, every other service is
/// reconciled again after half a minute.
pub open spec fn action_after(error: ErrorView) -> Action {
    match error {
        ErrorView::SkipService => Action::AwaitChange,
        _ => Action::Requeue(30),
    }
}

/// What is to happen to a service whose reconciliation ended in `error`.
pub fn on_error(error: &LBTrackerError) -> (action: Action)
    ensures
        action == action_after(error.deep_view()),
{
    match error {
        LBTrackerError::SkipService => Action::AwaitChange,
        _ => Action::Requeue(REQUEUE_SECONDS),
    }
}


/// Where the search for a service's nodes stands.
#[derive(Clone, Debug, PartialEq, Eq)]
pub enum NodeSearch {
    /// Nothing has been asked for yet.
    Start,
    /// The service's pods have been asked for.
    ListingPods,
    /// The nodes have been asked for, to keep those named in `names`.
    ListingNodes { names: Vec<String> },
    /// The nodes have been asked for, to keep those that pass the service's
    /// label filter.
    Filtering,
    /// The search is over.
    Finished,
}

/// [`NodeSearch`] as contracts speak of it: a plain value with texts as character sequences.
pub enum NodeSearchView {
    Start,
    ListingPods,
    ListingNodes { names: Seq<Seq<char>> },
    Filtering,
    Finished,
}

impl DeepView for NodeSearch {
    type V = NodeSearchView;

    open spec fn deep_view(&self) -> NodeSearchView {
        match self {
            NodeSearch::Start => NodeSearchView::Start,
            NodeSearch::ListingPods => NodeSearchView::ListingPods,
            NodeSearch::ListingNodes { names } => NodeSearchView::ListingNodes {
                names: names.deep_view(),
            },
            NodeSearch::Filtering => NodeSearchView::Filtering,
            NodeSearch::Finished => NodeSearchView::Finished,
        }
    }
}

/// A selector as the cluster reads it: `key=value` for each entry, with
/// commas between.
pub open spec fn selector_text(pairs: Seq<(Seq<char>, Seq<char>)>) -> Seq<char>
    decreases pairs.len(),
{
    if pairs.len() == 0 {
        Seq::empty()
    } else if pairs.len() == 1 {
        pairs[0].0 + "="@ + pairs[0].1
    } else {
        selector_text(pairs.drop_last()) + ","@ + pairs.last().0 + "="@ + pairs.last().1
    }
}

/// The namespace of a service: its own, or the one the client falls back
/// to.
pub open spec fn namespace_of(svc: ServiceView, context: CurrentContextView) -> Seq<char> {
    match svc.namespace {
        Some(namespace) => namespace,
        None => context.default_namespace,
    }
}

/// The call for the pods of a service: those of its namespace that its
/// selector selects. A service without selector, or with an empty one, has
/// no pods to ask for.
pub open spec fn pods_call(svc: ServiceView, context: CurrentContextView) -> Result<
    RequestView,
    ErrorView,
> {
    match svc.selector {
        Some(pairs) => if pairs.len() > 0 {
            Ok(
                RequestView::ListPods {
                    namespace: namespace_of(svc, context),
                    label_selector: selector_text(pairs),
                },
            )
        } else {
            Err(ErrorView::ServiceWithoutSelector)
        },
        None => Err(ErrorView::ServiceWithoutSelector),
    }
}

/// The names of the nodes that `pods` run on, for the pods that have a
/// node.
pub open spec fn pod_nodes(pods: Seq<PodView>) -> Seq<Seq<char>>
    decreases pods.len(),
{
    if pods.len() == 0 {
        Seq::empty()
    } else {
        match pods.last().node_name {
            Some(name) => pod_nodes(pods.drop_last()).push(name),
            None => pod_nodes(pods.drop_last()),
        }
    }
}

/// The nodes among `nodes` whose name is one of `names`, in their order.
pub open spec fn nodes_named(nodes: Seq<NodeView>, names: Seq<Seq<char>>) -> Seq<NodeView>
    decreases nodes.len(),
{
    if nodes.len() == 0 {
        Seq::empty()
    } else if names.contains(nodes.last().name) {
        nodes_named(nodes.drop_last(), names).push(nodes.last())
    } else {
        nodes_named(nodes.drop_last(), names)
    }
}

/// The nodes among `nodes` whose labels pass `rules`, in their order.
pub open spec fn nodes_passing(nodes: Seq<NodeView>, rules: Seq<RuleView>) -> Seq<NodeView>
    decreases nodes.len(),
{
    if nodes.len() == 0 {
        Seq::empty()
    } else if rules_hold(rules, nodes.last().labels) {
        nodes_passing(nodes.drop_last(), rules).push(nodes.last())
    } else {
        nodes_passing(nodes.drop_last(), rules)
    }
}

/// The label filter that a service asks for by annotation.
pub open spec fn node_filter(svc: ServiceView) -> Result<Seq<RuleView>, ErrorView> {
    if svc.annotations.contains_key(LB_NODE_SELECTOR@) {
        match filter_rules(svc.annotations[LB_NODE_SELECTOR@]) {
            Ok(rules) => Ok(rules),
            Err(clause) => Err(ErrorView::InvalidNodeFilter(clause)),
        }
    } else {
        Err(ErrorView::ServiceWithoutSelector)
    }
}

/// The end of a search in an error.
pub open spec fn search_failed(error: ErrorView) -> (NodeSearchView, StepView<Seq<NodeView>>) {
    (NodeSearchView::Finished, StepView::Done(Err(error)))
}

/// One step of the search for the nodes on which the pods of a service run:
/// the pods that the service selects are listed, then the nodes, and the
/// nodes that one of the pods runs on are kept.
pub open spec fn dynamic_search_step(
    svc: ServiceView,
    context: CurrentContextView,
    state: NodeSearchView,
    event: EventView,
) -> (NodeSearchView, StepView<Seq<NodeView>>) {
    match (state, event) {
        (NodeSearchView::Start, EventView::Start) => match pods_call(svc, context) {
            Ok(call) => (NodeSearchView::ListingPods, StepView::Call(call)),
            Err(error) => search_failed(error),
        },
        (_, EventView::Start) => search_failed(ErrorView::UnexpectedEvent),
        (NodeSearchView::Start, _) => search_failed(ErrorView::UnexpectedEvent),
        (NodeSearchView::Finished, _) => search_failed(ErrorView::UnexpectedEvent),
        (NodeSearchView::Filtering, _) => search_failed(ErrorView::UnexpectedEvent),
        (_, EventView::Failed(error)) => search_failed(error),
        (NodeSearchView::ListingPods, EventView::Pods(pods)) => (
            NodeSearchView::ListingNodes { names: pod_nodes(pods) },
            StepView::Call(RequestView::ListNodes),
        ),
        (NodeSearchView::ListingNodes { names }, EventView::Nodes(nodes)) => (
            NodeSearchView::Finished,
            StepView::Done(Ok(nodes_named(nodes, names))),
        ),
        _ => search_failed(ErrorView::UnexpectedEvent),
    }
}

/// One step of the search for the nodes that a service selects by label
/// filter: the filter is read from the service's annotation, the nodes are
/// listed, and those that pass the filter are kept.
pub open spec fn static_search_step(svc: ServiceView, state: NodeSearchView, event: EventView) -> (
    NodeSearchView,
    StepView<Seq<NodeView>>,
) {
    match (state, event) {
        (NodeSearchView::Start, EventView::Start) => match node_filter(svc) {
            Ok(_) => (NodeSearchView::Filtering, StepView::Call(RequestView::ListNodes)),
            Err(error) => search_failed(error),
        },
        (NodeSearchView::Filtering, EventView::Failed(error)) => search_failed(error),
        (NodeSearchView::Filtering, EventView::Nodes(nodes)) => match node_filter(svc) {
            Ok(rules) => (
                NodeSearchView::Finished,
                StepView::Done(Ok(nodes_passing(nodes, rules))),
            ),
            Err(error) => search_failed(error),
        },
        _ => search_failed(ErrorView::UnexpectedEvent),
    }
}

/// The namespace of a service.
fn namespace_for(svc: &Service, context: &CurrentContext) -> (namespace: String)
    ensures
        namespace@ == namespace_of(svc.deep_view(), context.deep_view()),
{
    match &svc.namespace {
        Some(namespace) => namespace.clone(),
        None => context.default_namespace.clone(),
    }
}

/// A selector as the cluster reads it.
fn selector_as_text(selector: &StringMap) -> (text: String)
    ensures
        text@ == selector_text(selector.pairs()),
{
    let n = selector.len();
    let mut text = String::new();
    let mut i: usize = 0;
    assert(selector.pairs().take(0) =~= Seq::empty());
    while i < n
        invariant
            n == selector.pairs().len(),
            i <= n,
            text@ == selector_text(selector.pairs().take(i as int)),
        decreases n - i,
    {
        let ghost before = selector.pairs().take(i as int);
        let ghost grown = selector.pairs().take(i as int + 1);
        proof {
            assert(grown.drop_last() =~= before);
            assert(grown.last() == selector.pairs()[i as int]);
        }
        let (key, value) = selector.entry(i);
        if i > 0 {
            text.append(",");
        } else {
            assert(text@ + key@ =~= key@);
            assert(grown[0] == selector.pairs()[i as int]);
        }
        text.append(key.as_str());
        text.append("=");
        text.append(value.as_str());
        proof {
            if i > 0 {
                assert(text@ =~= selector_text(before) + ","@ + key@ + "="@ + value@);
            } else {
                assert(text@ =~= key@ + "="@ + value@);
            }
        }
        i = i + 1;
    }
    assert(selector.pairs().take(n as int) =~= selector.pairs());
    text
}

/// The names of the nodes that `pods` run on.
fn nodes_of_pods(pods: &Vec<Pod>) -> (names: Vec<String>)
    ensures
        names.deep_view() == pod_nodes(pods.deep_view()),
{
    let ghost all = pods.deep_view();
    let mut names: Vec<String> = Vec::new();
    let mut i: usize = 0;
    assert(names.deep_view() =~= pod_nodes(all.take(0)));
    while i < pods.len()
        invariant
            all == pods.deep_view(),
            i <= all.len(),
            names.deep_view() == pod_nodes(all.take(i as int)),
        decreases all.len() - i,
    {
        let ghost before = names.deep_view();
        proof {
            assert(all.take(i as int + 1).drop_last() =~= all.take(i as int));
            assert(all.take(i as int + 1).last() == all[i as int]);
        }
        match &pods[i].node_name {
            Some(name) => {
                names.push(name.clone());
                assert(names.deep_view() =~= before.push(name@));
            },
            None => {},
        }
        i = i + 1;
    }
    assert(all.take(all.len() as int) =~= all);
    names
}

/// The nodes of `nodes` at the places that `picked` marks, in their order.
fn keep_nodes(nodes: Vec<Node>, picked: &Vec<bool>) -> (kept: Vec<Node>)
    requires
        picked.len() == nodes.len(),
    ensures
        kept.deep_view() == picked_nodes(nodes.deep_view(), picked@),
{
    let ghost all = nodes@;
    let ghost views = nodes.deep_view();
    let mut kept: Vec<Node> = Vec::new();
    let mut i: usize = 0;
    proof {
        vstd::std_specs::vec::axiom_spec_into_iter(nodes);
        assert(views.take(0) =~= Seq::empty());
        assert(kept.deep_view() =~= Seq::empty());
    }
    for node in it: nodes.into_iter()
        invariant
            it.seq() == all,
            i == it.index(),
            picked.len() == all.len(),
            views.len() == all.len(),
            forall|k: int| 0 <= k < all.len() ==> views[k] == (#[trigger] all[k]).deep_view(),
            kept.deep_view() == picked_nodes(views.take(i as int), picked@.take(i as int)),
    {
        let ghost before = kept.deep_view();
        proof {
            assert(views.take(i as int + 1).drop_last() =~= views.take(i as int));
            assert(picked@.take(i as int + 1).drop_last() =~= picked@.take(i as int));
            assert(views.take(i as int + 1).last() == node.deep_view());
        }
        if picked[i] {
            kept.push(node);
            assert(kept.deep_view() =~= before.push(node.deep_view()));
        }
        i = i + 1;
    }
    proof {
        assert(views.take(all.len() as int) =~= views);
        assert(picked@.take(all.len() as int) =~= picked@);
    }
    kept
}

/// The members of `nodes` at the places that `picked` marks, in their
/// order.
pub open spec fn picked_nodes(nodes: Seq<NodeView>, picked: Seq<bool>) -> Seq<NodeView>
    decreases nodes.len(),
{
    if nodes.len() == 0 || picked.len() != nodes.len() {
        Seq::empty()
    } else if picked.last() {
        picked_nodes(nodes.drop_last(), picked.drop_last()).push(nodes.last())
    } else {
        picked_nodes(nodes.drop_last(), picked.drop_last())
    }
}

/// Picking the nodes with a name among `names` keeps the nodes so named.
proof fn picking_by_name(nodes: Seq<NodeView>, picked: Seq<bool>, names: Seq<Seq<char>>)
    requires
        picked.len() == nodes.len(),
        forall|i: int| 0 <= i < nodes.len() ==> picked[i] == names.contains(nodes[i].name),
    ensures
        picked_nodes(nodes, picked) == nodes_named(nodes, names),
    decreases nodes.len(),
{
    if nodes.len() > 0 {
        picking_by_name(nodes.drop_last(), picked.drop_last(), names);
    }
}

/// Picking the nodes whose labels pass `rules` keeps the nodes that pass.
proof fn picking_by_labels(nodes: Seq<NodeView>, picked: Seq<bool>, rules: Seq<RuleView>)
    requires
        picked.len() == nodes.len(),
        forall|i: int| 0 <= i < nodes.len() ==> picked[i] == rules_hold(rules, nodes[i].labels),
    ensures
        picked_nodes(nodes, picked) == nodes_passing(nodes, rules),
    decreases nodes.len(),
{
    if nodes.len() > 0 {
        picking_by_labels(nodes.drop_last(), picked.drop_last(), rules);
    }
}

/// One step of the search for the nodes on which the pods of a service run.
/// It starts from `NodeSearch::Start` with `Event::Start` and ends with the
/// nodes, or with the first error.
pub fn get_nodes_dynamically(
    svc: &Service,
    context: &CurrentContext,
    state: NodeSearch,
    event: Event,
) -> (next: (NodeSearch, Step<Vec<Node>>))
    ensures
        (next.0.deep_view(), next.1.deep_view()) == dynamic_search_step(
            svc.deep_view(),
            context.deep_view(),
            state.deep_view(),
            event.deep_view(),
        ),
{
    match (state, event) {
        (NodeSearch::Start, Event::Start) => {
            match &svc.selector {
                Some(selector) => {
                    if selector.len() > 0 {
                        (
                            NodeSearch::ListingPods,
                            Step::Call(
                                Request::ListPods {
                                    namespace: namespace_for(svc, context),
                                    label_selector: selector_as_text(selector),
                                },
                            ),
                        )
                    } else {
                        (
                            NodeSearch::Finished,
                            Step::Done(Err(LBTrackerError::ServiceWithoutSelector)),
                        )
                    }
                },
                None => (
                    NodeSearch::Finished,
                    Step::Done(Err(LBTrackerError::ServiceWithoutSelector)),
                ),
            }
        },
        (_, Event::Start) => (NodeSearch::Finished, Step::Done(Err(LBTrackerError::UnexpectedEvent))),
        (NodeSearch::Start, _) => (
            NodeSearch::Finished,
            Step::Done(Err(LBTrackerError::UnexpectedEvent)),
        ),
        (NodeSearch::Finished, _) => (
            NodeSearch::Finished,
            Step::Done(Err(LBTrackerError::UnexpectedEvent)),
        ),
        (NodeSearch::Filtering, _) => (
            NodeSearch::Finished,
            Step::Done(Err(LBTrackerError::UnexpectedEvent)),
        ),
        (_, Event::Failed(error)) => (NodeSearch::Finished, Step::Done(Err(error))),
        (NodeSearch::ListingPods, Event::Pods(pods)) => (
            NodeSearch::ListingNodes { names: nodes_of_pods(&pods) },
            Step::Call(Request::ListNodes),
        ),
        (NodeSearch::ListingNodes { names }, Event::Nodes(nodes)) => {
            let mut picked: Vec<bool> = Vec::new();
            let mut i: usize = 0;
            while i < nodes.len()
                invariant
                    i <= nodes.len(),
                    picked.len() == i,
                    forall|k: int|
                        0 <= k < i ==> picked@[k] == names.deep_view().contains(
                            nodes.deep_view()[k].name,
                        ),
                decreases nodes.len() - i,
            {
                picked.push(holds_text(&names, nodes[i].name.as_str()));
                i = i + 1;
            }
            proof {
                picking_by_name(nodes.deep_view(), picked@, names.deep_view());
            }
            (NodeSearch::Finished, Step::Done(Ok(keep_nodes(nodes, &picked))))
        },
        _ => (NodeSearch::Finished, Step::Done(Err(LBTrackerError::UnexpectedEvent))),
    }
}

/// Reads the label filter that a service asks for by annotation.
fn read_node_filter(svc: &Service) -> (filter: Result<LabelFilter, LBTrackerError>)
    ensures
        match filter {
            Ok(read) => node_filter(svc.deep_view()) == Ok::<Seq<RuleView>, ErrorView>(
                read.deep_view(),
            ),
            Err(error) => node_filter(svc.deep_view()) == Err::<Seq<RuleView>, ErrorView>(
                error.deep_view(),
            ),
        },
{
    match svc.annotations.get(LB_NODE_SELECTOR) {
        Some(text) => LabelFilter::from_str(text.as_str()),
        None => Err(LBTrackerError::ServiceWithoutSelector),
    }
}

/// One step of the search for the nodes that a service selects by label
/// filter. It starts from `NodeSearch::Start` with `Event::Start` and ends
/// with the nodes, or with the first error.
pub fn get_nodes_by_selector(svc: &Service, state: NodeSearch, event: Event) -> (next: (
    NodeSearch,
    Step<Vec<Node>>,
))
    ensures
        (next.0.deep_view(), next.1.deep_view()) == static_search_step(
            svc.deep_view(),
            state.deep_view(),
            event.deep_view(),
        ),
{
    match (state, event) {
        (NodeSearch::Start, Event::Start) => match read_node_filter(svc) {
            Ok(_) => (NodeSearch::Filtering, Step::Call(Request::ListNodes)),
            Err(error) => (NodeSearch::Finished, Step::Done(Err(error))),
        },
        (NodeSearch::Filtering, Event::Failed(error)) => (
            NodeSearch::Finished,
            Step::Done(Err(error)),
        ),
        (NodeSearch::Filtering, Event::Nodes(nodes)) => match read_node_filter(svc) {
            Ok(filter) => {
                let mut picked: Vec<bool> = Vec::new();
                let mut i: usize = 0;
                while i < nodes.len()
                    invariant
                        i <= nodes.len(),
                        picked.len() == i,
                        forall|k: int|
                            0 <= k < i ==> picked@[k] == rules_hold(
                                filter.deep_view(),
                                nodes.deep_view()[k].labels,
                            ),
                    decreases nodes.len() - i,
                {
                    picked.push(filter.check(&nodes[i].labels));
                    i = i + 1;
                }
                proof {
                    picking_by_labels(nodes.deep_view(), picked@, filter.deep_view());
                }
                (NodeSearch::Finished, Step::Done(Ok(keep_nodes(nodes, &picked))))
            },
            Err(error) => (NodeSearch::Finished, Step::Done(Err(error))),
        },
        _ => (NodeSearch::Finished, Step::Done(Err(LBTrackerError::UnexpectedEvent))),
    }
}


/// Where the reconciliation of a service's load balancer stands.
#[derive(Clone, Debug, PartialEq, Eq)]
pub enum BalancingPhase {
    /// The nodes of the service are being searched.
    Resolving(NodeSearch),
    /// A pass over the load balancer is under way.
    Converging(Reconcile),
    /// The patch of the service's status has been asked for.
    Patching,
    /// The work is over.
    Finished,
}

/// [`BalancingPhase`] as contracts speak of it: a plain value with texts as character sequences.
pub enum BalancingPhaseView {
    Resolving(NodeSearchView),
    Converging(ReconcileView),
    Patching,
    Finished,
}

impl DeepView for BalancingPhase {
    type V = BalancingPhaseView;

    open spec fn deep_view(&self) -> BalancingPhaseView {
        match self {
            BalancingPhase::Resolving(search) => BalancingPhaseView::Resolving(search.deep_view()),
            BalancingPhase::Converging(pass) => BalancingPhaseView::Converging(pass.deep_view()),
            BalancingPhase::Patching => BalancingPhaseView::Patching,
            BalancingPhase::Finished => BalancingPhaseView::Finished,
        }
    }
}

/// The reconciliation of a service's load balancer: the load balancer that
/// is wanted, as far as it is known, and where the work stands.
#[derive(Clone, Debug, PartialEq, Eq)]
pub struct Balancing {
    pub lb: LoadBalancer,
    pub phase: BalancingPhase,
}

/// [`Balancing`] as contracts speak of it: a plain value with texts as character sequences.
pub struct BalancingView {
    pub lb: LoadBalancerView,
    pub phase: BalancingPhaseView,
}

impl DeepView for Balancing {
    type V = BalancingView;

    open spec fn deep_view(&self) -> BalancingView {
        BalancingView { lb: self.lb.deep_view(), phase: self.phase.deep_view() }
    }
}

impl Balancing {
    /// The reconciliation of `lb` before anything has been asked for.
    pub fn new(lb: LoadBalancer) -> (state: Balancing)
        ensures
            state.deep_view() == Self::begin(lb.deep_view()),
    {
        Balancing { lb, phase: BalancingPhase::Resolving(NodeSearch::Start) }
    }

    /// The reconciliation of `lb` before anything has been asked for.
    pub open spec fn begin(lb: LoadBalancerView) -> BalancingView {
        BalancingView { lb, phase: BalancingPhaseView::Resolving(NodeSearchView::Start) }
    }
}

/// The kind of node address that becomes a target: the internal address
/// where the load balancer is in a private network, the external one
/// otherwise.
pub open spec fn address_kind(lb: LoadBalancerView) -> Seq<char> {
    if lb.network_name is None {
        "ExternalIP"@
    } else {
        "InternalIP"@
    }
}

/// The addresses of kind `kind` among `addresses`, in their order.
pub open spec fn address_targets(addresses: Seq<NodeAddressView>, kind: Seq<char>) -> Seq<Seq<char>>
    decreases addresses.len(),
{
    if addresses.len() == 0 {
        Seq::empty()
    } else if addresses.last().kind == kind {
        address_targets(addresses.drop_last(), kind).push(addresses.last().address)
    } else {
        address_targets(addresses.drop_last(), kind)
    }
}

/// The addresses of kind `kind` of `nodes`, node by node.
pub open spec fn node_targets(nodes: Seq<NodeView>, kind: Seq<char>) -> Seq<Seq<char>>
    decreases nodes.len(),
{
    if nodes.len() == 0 {
        Seq::empty()
    } else {
        node_targets(nodes.drop_last(), kind) + address_targets(nodes.last().addresses, kind)
    }
}

/// Whether a port is a TCP port. A port that names no protocol is one.
pub open spec fn is_tcp(port: ServicePortView) -> bool {
    match port.protocol {
        Some(protocol) => protocol == "TCP"@,
        None => true,
    }
}

/// `services` with a service for each TCP port of `ports` that has a node
/// port: it listens on the port and forwards to the node port. A later port
/// replaces an earlier one of the same number.
pub open spec fn port_services(ports: Seq<ServicePortView>, services: Map<i32, i32>) -> Map<i32, i32>
    decreases ports.len(),
{
    if ports.len() == 0 {
        services
    } else {
        let before = port_services(ports.drop_last(), services);
        match ports.last().node_port {
            Some(node_port) => if is_tcp(ports.last()) {
                before.insert(ports.last().port, node_port)
            } else {
                before
            },
            None => before,
        }
    }
}

/// The wanted load balancer with its targets and services: the addresses of
/// `nodes` behind the targets it has, and the service's ports among its
/// services.
pub open spec fn equipped(lb: LoadBalancerView, svc: ServiceView, nodes: Seq<NodeView>) -> LoadBalancerView {
    LoadBalancerView {
        targets: lb.targets + node_targets(nodes, address_kind(lb)),
        services: port_services(svc.ports, lb.services),
        ..lb
    }
}

/// The ingress entry for a public address, if the load balancer has it.
pub open spec fn ingress_entry(address: PublicAddressView) -> Seq<IngressView> {
    match address.ip {
        Some(ip) => seq![IngressView { ip, dns: address.dns_ptr, ip_mode: "VIP"@ }],
        None => Seq::empty(),
    }
}

/// The ingress of a service: the load balancer's IPv4 address and, where
/// that is switched on, its IPv6 address.
pub open spec fn ingress_of(balancer: BalancerView, ipv6: bool) -> Seq<IngressView> {
    if ipv6 {
        ingress_entry(balancer.ipv4) + ingress_entry(balancer.ipv6)
    } else {
        ingress_entry(balancer.ipv4)
    }
}

/// The end of the reconciliation of a load balancer in an error.
pub open spec fn balancing_failed(lb: LoadBalancerView, error: ErrorView) -> (
    BalancingView,
    StepView<Action>,
) {
    (BalancingView { lb, phase: BalancingPhaseView::Finished }, StepView::Done(Err(error)))
}

/// The good end of the reconciliation of a load balancer: the service is
/// due again after half a minute.
pub open spec fn balancing_over(lb: LoadBalancerView) -> (BalancingView, StepView<Action>) {
    (
        BalancingView { lb, phase: BalancingPhaseView::Finished },
        StepView::Done(Ok(Action::Requeue(30))),
    )
}

/// After the pass: the service's status is patched with the ingress that
/// the load balancer gives, unless it gives none.
pub open spec fn publish(
    svc: ServiceView,
    context: CurrentContextView,
    lb: LoadBalancerView,
    balancer: BalancerView,
) -> (BalancingView, StepView<Action>) {
    let ingress = ingress_of(balancer, context.config.ipv6_ingress);
    if ingress.len() > 0 {
        (
            BalancingView { lb, phase: BalancingPhaseView::Patching },
            StepView::Call(
                RequestView::PatchStatus {
                    namespace: namespace_of(svc, context),
                    name: svc.name,
                    ingress,
                },
            ),
        )
    } else {
        balancing_over(lb)
    }
}

/// One step of the pass, and what follows its end.
pub open spec fn converge(
    svc: ServiceView,
    context: CurrentContextView,
    lb: LoadBalancerView,
    pass: ReconcileView,
    event: EventView,
) -> (BalancingView, StepView<Action>) {
    match lb.reconcile_step(pass, event) {
        (next, StepView::Call(call)) => (
            BalancingView { lb, phase: BalancingPhaseView::Converging(next) },
            StepView::Call(call),
        ),
        (_, StepView::Done(Ok(balancer))) => publish(svc, context, lb, balancer),
        (_, StepView::Done(Err(error))) => balancing_failed(lb, error),
    }
}

/// One step of the search for the nodes, by the strategy that the operator
/// is set to.
pub open spec fn search_step(
    svc: ServiceView,
    context: CurrentContextView,
    state: NodeSearchView,
    event: EventView,
) -> (NodeSearchView, StepView<Seq<NodeView>>) {
    if context.config.dynamic_node_selector {
        dynamic_search_step(svc, context, state, event)
    } else {
        static_search_step(svc, state, event)
    }
}

/// One step of the search for the nodes, and what follows its end: the
/// wanted load balancer gets its targets and services, and the pass begins.
pub open spec fn resolve(
    svc: ServiceView,
    context: CurrentContextView,
    lb: LoadBalancerView,
    search: NodeSearchView,
    event: EventView,
) -> (BalancingView, StepView<Action>) {
    match search_step(svc, context, search, event) {
        (next, StepView::Call(call)) => (
            BalancingView { lb, phase: BalancingPhaseView::Resolving(next) },
            StepView::Call(call),
        ),
        (_, StepView::Done(Ok(nodes))) => converge(
            svc,
            context,
            equipped(lb, svc, nodes),
            ReconcileView::Start,
            EventView::Start,
        ),
        (_, StepView::Done(Err(error))) => balancing_failed(lb, error),
    }
}

/// One step of the reconciliation of a service's load balancer: the nodes
/// behind the service are found, their addresses become the wanted targets
/// and the service's ports the wanted services, a pass brings the load
/// balancer at Hetzner Cloud to that, and the load balancer's public
/// addresses are written to the service's status. Then the service is due
/// again after half a minute.
pub open spec fn balancing_step(
    svc: ServiceView,
    context: CurrentContextView,
    state: BalancingView,
    event: EventView,
) -> (BalancingView, StepView<Action>) {
    match state.phase {
        BalancingPhaseView::Resolving(search) => resolve(svc, context, state.lb, search, event),
        BalancingPhaseView::Converging(pass) => converge(svc, context, state.lb, pass, event),
        BalancingPhaseView::Patching => match event {
            EventView::Done => balancing_over(state.lb),
            EventView::Failed(error) => balancing_failed(state.lb, error),
            _ => balancing_failed(state.lb, ErrorView::UnexpectedEvent),
        },
        BalancingPhaseView::Finished => balancing_failed(state.lb, ErrorView::UnexpectedEvent),
    }
}

/// Gives the wanted load balancer its targets and services.
fn equip(lb: &mut LoadBalancer, svc: &Service, nodes: &Vec<Node>)
    ensures
        final(lb).deep_view() == equipped(old(lb).deep_view(), svc.deep_view(), nodes.deep_view()),
{
    let ghost start = lb.deep_view();
    let ghost kind = address_kind(start);
    let ghost all = nodes.deep_view();
    let internal = lb.network_name.is_some();
    let mut i: usize = 0;
    assert(start.targets + node_targets(all.take(0), kind) =~= start.targets);
    while i < nodes.len()
        invariant
            all == nodes.deep_view(),
            kind == address_kind(start),
            internal == (start.network_name is Some),
            i <= all.len(),
            lb.deep_view() == (LoadBalancerView {
                targets: start.targets + node_targets(all.take(i as int), kind),
                ..start
            }),
        decreases all.len() - i,
    {
        let node = &nodes[i];
        let ghost addresses = node.addresses.deep_view();
        let ghost reached = start.targets + node_targets(all.take(i as int), kind);
        proof {
            assert(all.take(i as int + 1).drop_last() =~= all.take(i as int));
            assert(all.take(i as int + 1).last() == all[i as int]);
            assert(all[i as int].addresses == addresses);
        }
        let mut j: usize = 0;
        assert(reached + address_targets(addresses.take(0), kind) =~= reached);
        while j < node.addresses.len()
            invariant
                addresses == node.addresses.deep_view(),
                kind == address_kind(start),
                internal == (start.network_name is Some),
                j <= addresses.len(),
                lb.deep_view() == (LoadBalancerView {
                    targets: reached + address_targets(addresses.take(j as int), kind),
                    ..start
                }),
            decreases addresses.len() - j,
        {
            let address = &node.addresses[j];
            proof {
                assert(addresses.take(j as int + 1).drop_last() =~= addresses.take(j as int));
                assert(addresses.take(j as int + 1).last() == address.deep_view());
            }
            let wanted = if internal {
                address.kind.as_str().eq("InternalIP")
            } else {
                address.kind.as_str().eq("ExternalIP")
            };
            if wanted {
                lb.add_target(address.address.as_str());
                assert(lb.deep_view().targets =~= reached + address_targets(
                    addresses.take(j as int + 1),
                    kind,
                ));
            }
            j = j + 1;
        }
        proof {
            assert(addresses.take(addresses.len() as int) =~= addresses);
            assert(reached + address_targets(addresses, kind) =~= start.targets + node_targets(
                all.take(i as int + 1),
                kind,
            ));
        }
        i = i + 1;
    }
    assert(all.take(all.len() as int) =~= all);
    let ghost ports = svc.ports.deep_view();
    let ghost with_targets = lb.deep_view();
    let mut k: usize = 0;
    assert(ports.take(0) =~= Seq::empty());
    while k < svc.ports.len()
        invariant
            ports == svc.ports.deep_view(),
            k <= ports.len(),
            lb.deep_view() == (LoadBalancerView {
                services: port_services(ports.take(k as int), start.services),
                ..with_targets
            }),
        decreases ports.len() - k,
    {
        let port = &svc.ports[k];
        proof {
            assert(ports.take(k as int + 1).drop_last() =~= ports.take(k as int));
            assert(ports.take(k as int + 1).last() == port.deep_view());
        }
        let tcp = match &port.protocol {
            Some(protocol) => protocol.as_str().eq("TCP"),
            None => true,
        };
        if tcp {
            match port.node_port {
                Some(node_port) => {
                    lb.add_service(port.port, node_port);
                },
                None => {},
            }
        }
        k = k + 1;
    }
    assert(ports.take(ports.len() as int) =~= ports);
}

/// The ingress entry for a public address.
fn ingress_for(address: &PublicAddress, ingress: &mut Vec<Ingress>)
    ensures
        final(ingress).deep_view() == old(ingress).deep_view() + ingress_entry(address.deep_view()),
{
    let ghost before = ingress.deep_view();
    match &address.ip {
        Some(ip) => {
            ingress.push(
                Ingress {
                    ip: ip.clone(),
                    dns: copy_optional_text(&address.dns_ptr),
                    ip_mode: String::from_str("VIP"),
                },
            );
            assert(ingress.deep_view() =~= before + ingress_entry(address.deep_view()));
        },
        None => {
            assert(ingress.deep_view() =~= before + ingress_entry(address.deep_view()));
        },
    }
}

/// Asks for the patch of the service's status, or ends the work where there
/// is no ingress to publish.
fn publish_ingress(
    svc: &Service,
    context: &CurrentContext,
    lb: LoadBalancer,
    balancer: &ObservedLoadBalancer,
) -> (next: (Balancing, Step<Action>))
    ensures
        (next.0.deep_view(), next.1.deep_view()) == publish(
            svc.deep_view(),
            context.deep_view(),
            lb.deep_view(),
            balancer.deep_view(),
        ),
{
    let mut ingress: Vec<Ingress> = Vec::new();
    assert(ingress.deep_view() =~= Seq::empty());
    ingress_for(&balancer.ipv4, &mut ingress);
    if context.config.ipv6_ingress {
        ingress_for(&balancer.ipv6, &mut ingress);
    }
    assert(ingress.deep_view() =~= ingress_of(
        balancer.deep_view(),
        context.deep_view().config.ipv6_ingress,
    ));
    if ingress.len() > 0 {
        (
            Balancing { lb, phase: BalancingPhase::Patching },
            Step::Call(
                Request::PatchStatus {
                    namespace: namespace_for(svc, context),
                    name: svc.name.clone(),
                    ingress,
                },
            ),
        )
    } else {
        (
            Balancing { lb, phase: BalancingPhase::Finished },
            Step::Done(Ok(Action::Requeue(REQUEUE_SECONDS))),
        )
    }
}

/// Makes one step of the pass and goes on to the status once it is over.
fn converge_on(
    svc: &Service,
    context: &CurrentContext,
    lb: LoadBalancer,
    pass: Reconcile,
    event: Event,
) -> (next: (Balancing, Step<Action>))
    ensures
        (next.0.deep_view(), next.1.deep_view()) == converge(
            svc.deep_view(),
            context.deep_view(),
            lb.deep_view(),
            pass.deep_view(),
            event.deep_view(),
        ),
{
    let (next, step) = lb.reconcile(pass, event);
    match step {
        Step::Call(call) => (
            Balancing { lb, phase: BalancingPhase::Converging(next) },
            Step::Call(call),
        ),
        Step::Done(Ok(balancer)) => publish_ingress(svc, context, lb, &balancer),
        Step::Done(Err(error)) => (
            Balancing { lb, phase: BalancingPhase::Finished },
            Step::Done(Err(error)),
        ),
    }
}

/// One step of the reconciliation of a service's load balancer. It starts
/// from `Balancing::new` of the wanted load balancer with `Event::Start`;
/// each further step takes the state that the step before returned and the
/// answer to the call that it asked for. It ends with the action for the
/// service, or with the first error.
pub fn reconcile_load_balancer(
    svc: &Service,
    context: &CurrentContext,
    state: Balancing,
    event: Event,
) -> (next: (Balancing, Step<Action>))
    ensures
        (next.0.deep_view(), next.1.deep_view()) == balancing_step(
            svc.deep_view(),
            context.deep_view(),
            state.deep_view(),
            event.deep_view(),
        ),
{
    let Balancing { lb, phase } = state;
    match phase {
        BalancingPhase::Resolving(search) => {
            let (next, step) = if context.config.dynamic_node_selector {
                get_nodes_dynamically(svc, context, search, event)
            } else {
                get_nodes_by_selector(svc, search, event)
            };
            match step {
                Step::Call(call) => (
                    Balancing { lb, phase: BalancingPhase::Resolving(next) },
                    Step::Call(call),
                ),
                Step::Done(Ok(nodes)) => {
                    let mut lb = lb;
                    equip(&mut lb, svc, &nodes);
                    converge_on(svc, context, lb, Reconcile::Start, Event::Start)
                },
                Step::Done(Err(error)) => (
                    Balancing { lb, phase: BalancingPhase::Finished },
                    Step::Done(Err(error)),
                ),
            }
        },
        BalancingPhase::Converging(pass) => converge_on(svc, context, lb, pass, event),
        BalancingPhase::Patching => match event {
            Event::Done => (
                Balancing { lb, phase: BalancingPhase::Finished },
                Step::Done(Ok(Action::Requeue(REQUEUE_SECONDS))),
            ),
            Event::Failed(error) => (
                Balancing { lb, phase: BalancingPhase::Finished },
                Step::Done(Err(error)),
            ),
            _ => (
                Balancing { lb, phase: BalancingPhase::Finished },
                Step::Done(Err(LBTrackerError::UnexpectedEvent)),
            ),
        },
        BalancingPhase::Finished => (
            Balancing { lb, phase: BalancingPhase::Finished },
            Step::Done(Err(LBTrackerError::UnexpectedEvent)),
        ),
    }
}

/// Where the reconciliation of a service stands.
#[derive(Clone, Debug, PartialEq, Eq)]
pub enum Reconciling {
    /// Nothing has been asked for yet.
    Start,
    /// The service is being deleted; its load balancer is being taken apart.
    Cleaning { lb: LoadBalancer, cleanup: Cleanup },
    /// The removal of the finalizer has been asked for.
    Unpinning,
    /// The addition of the finalizer has been asked for.
    Pinning { lb: LoadBalancer },
    /// The load balancer is being reconciled.
    Balancing(Balancing),
    /// The work is over.
    Finished,
}

/// [`Reconciling`] as contracts speak of it: a plain value with texts as character sequences.
pub enum ReconcilingView {
    Start,
    Cleaning { lb: LoadBalancerView, cleanup: CleanupView },
    Unpinning,
    Pinning { lb: LoadBalancerView },
    Balancing(BalancingView),
    Finished,
}

impl DeepView for Reconciling {
    type V = ReconcilingView;

    open spec fn deep_view(&self) -> ReconcilingView {
        match self {
            Reconciling::Start => ReconcilingView::Start,
            Reconciling::Cleaning { lb, cleanup } => ReconcilingView::Cleaning {
                lb: lb.deep_view(),
                cleanup: cleanup.deep_view(),
            },
            Reconciling::Unpinning => ReconcilingView::Unpinning,
            Reconciling::Pinning { lb } => ReconcilingView::Pinning { lb: lb.deep_view() },
            Reconciling::Balancing(balancing) => ReconcilingView::Balancing(balancing.deep_view()),
            Reconciling::Finished => ReconcilingView::Finished,
        }
    }
}

/// Whether a service is of type `LoadBalancer`. A service that names no type
/// is not.
pub open spec fn is_load_balancer(svc: ServiceView) -> bool {
    svc.service_type == Some("LoadBalancer"@)
}

/// The end of the reconciliation of a service in an error.
pub open spec fn reconciling_failed(error: ErrorView) -> (ReconcilingView, StepView<Action>) {
    (ReconcilingView::Finished, StepView::Done(Err(error)))
}

/// One step of the reconciliation of the load balancer, within the
/// reconciliation of the service.
pub open spec fn balance(
    svc: ServiceView,
    context: CurrentContextView,
    balancing: BalancingView,
    event: EventView,
) -> (ReconcilingView, StepView<Action>) {
    match balancing_step(svc, context, balancing, event) {
        (next, StepView::Call(call)) => (ReconcilingView::Balancing(next), StepView::Call(call)),
        (_, StepView::Done(outcome)) => (ReconcilingView::Finished, StepView::Done(outcome)),
    }
}

/// One step of the taking apart, and what follows its end: the finalizer is
/// removed, and only then.
pub open spec fn clean(svc: ServiceView, lb: LoadBalancerView, cleanup: CleanupView, event: EventView) -> (
    ReconcilingView,
    StepView<Action>,
) {
    match lb.cleanup_step(cleanup, event) {
        (next, StepView::Call(call)) => (
            ReconcilingView::Cleaning { lb, cleanup: next },
            StepView::Call(call),
        ),
        (_, StepView::Done(Ok(_))) => match finalizers::removal(svc) {
            Ok(patch) => (ReconcilingView::Unpinning, StepView::Call(patch)),
            Err(error) => reconciling_failed(error),
        },
        (_, StepView::Done(Err(error))) => reconciling_failed(error),
    }
}

/// The first step of the reconciliation of a service.
pub open spec fn begin(svc: ServiceView, context: CurrentContextView) -> (
    ReconcilingView,
    StepView<Action>,
) {
    if !is_load_balancer(svc) {
        reconciling_failed(ErrorView::SkipService)
    } else {
        match wanted_balancer(svc, context.config) {
            Ok(lb) => if svc.deletion_requested {
                clean(svc, lb, CleanupView::Start, EventView::Start)
            } else if finalizers::carries_finalizer(svc) {
                balance(svc, context, Balancing::begin(lb), EventView::Start)
            } else {
                match finalizers::addition(svc) {
                    Ok(patch) => (ReconcilingView::Pinning { lb }, StepView::Call(patch)),
                    Err(error) => reconciling_failed(error),
                }
            },
            Err(error) => reconciling_failed(error),
        }
    }
}

/// One step of the reconciliation of a service. A service that is not of
/// type `LoadBalancer` is skipped. For a service that is being deleted, the
/// load balancer is taken apart, then the finalizer removed, and the service
/// is left alone from then on. Any other service gets the finalizer, unless
/// it carries it, and its load balancer is reconciled.
pub open spec fn service_step(
    svc: ServiceView,
    context: CurrentContextView,
    state: ReconcilingView,
    event: EventView,
) -> (ReconcilingView, StepView<Action>) {
    match (state, event) {
        (ReconcilingView::Start, EventView::Start) => begin(svc, context),
        (ReconcilingView::Cleaning { lb, cleanup }, _) => clean(svc, lb, cleanup, event),
        (ReconcilingView::Unpinning, EventView::Done) => (
            ReconcilingView::Finished,
            StepView::Done(Ok(Action::AwaitChange)),
        ),
        (ReconcilingView::Unpinning, EventView::Failed(error)) => reconciling_failed(error),
        (ReconcilingView::Pinning { lb }, EventView::Done) => balance(
            svc,
            context,
            Balancing::begin(lb),
            EventView::Start,
        ),
        (ReconcilingView::Pinning { lb }, EventView::Failed(error)) => reconciling_failed(error),
        (ReconcilingView::Balancing(balancing), _) => balance(svc, context, balancing, event),
        _ => reconciling_failed(ErrorView::UnexpectedEvent),
    }
}

/// Makes one step of the reconciliation of the load balancer.
fn balance_on(svc: &Service, context: &CurrentContext, balancing: Balancing, event: Event) -> (next:
    (Reconciling, Step<Action>))
    ensures
        (next.0.deep_view(), next.1.deep_view()) == balance(
            svc.deep_view(),
            context.deep_view(),
            balancing.deep_view(),
            event.deep_view(),
        ),
{
    let (next, step) = reconcile_load_balancer(svc, context, balancing, event);
    match step {
        Step::Call(call) => (Reconciling::Balancing(next), Step::Call(call)),
        Step::Done(outcome) => (Reconciling::Finished, Step::Done(outcome)),
    }
}

/// Makes one step of the taking apart and goes on to the finalizer once it
/// is over.
fn clean_on(svc: &Service, lb: LoadBalancer, cleanup: Cleanup, event: Event) -> (next: (
    Reconciling,
    Step<Action>,
))
    ensures
        (next.0.deep_view(), next.1.deep_view()) == clean(
            svc.deep_view(),
            lb.deep_view(),
            cleanup.deep_view(),
            event.deep_view(),
        ),
{
    let (next, step) = lb.cleanup(cleanup, event);
    match step {
        Step::Call(call) => (Reconciling::Cleaning { lb, cleanup: next }, Step::Call(call)),
        Step::Done(Ok(_)) => match finalizers::remove(svc) {
            Ok(patch) => (Reconciling::Unpinning, Step::Call(patch)),
            Err(error) => (Reconciling::Finished, Step::Done(Err(error))),
        },
        Step::Done(Err(error)) => (Reconciling::Finished, Step::Done(Err(error))),
    }
}

/// One step of the reconciliation of a service. It starts from
/// `Reconciling::Start` with `Event::Start`; each further step takes the
/// state that the step before returned and the answer to the call that it
/// asked for. It ends with the action for the service, or with the first
/// error.
pub fn reconcile_service(
    svc: &Service,
    context: &CurrentContext,
    state: Reconciling,
    event: Event,
) -> (next: (Reconciling, Step<Action>))
    ensures
        (next.0.deep_view(), next.1.deep_view()) == service_step(
            svc.deep_view(),
            context.deep_view(),
            state.deep_view(),
            event.deep_view(),
        ),
{
    match (state, event) {
        (Reconciling::Start, Event::Start) => {
            let wanted_type = match &svc.service_type {
                Some(kind) => kind.as_str().eq("LoadBalancer"),
                None => false,
            };
            if !wanted_type {
                return (Reconciling::Finished, Step::Done(Err(LBTrackerError::SkipService)));
            }
            match LoadBalancer::try_from_svc(svc, context) {
                Ok(lb) => {
                    if svc.deletion_requested {
                        clean_on(svc, lb, Cleanup::Start, Event::Start)
                    } else if finalizers::check(svc) {
                        balance_on(svc, context, Balancing::new(lb), Event::Start)
                    } else {
                        match finalizers::add(svc) {
                            Ok(patch) => (Reconciling::Pinning { lb }, Step::Call(patch)),
                            Err(error) => (Reconciling::Finished, Step::Done(Err(error))),
                        }
                    }
                },
                Err(error) => (Reconciling::Finished, Step::Done(Err(error))),
            }
        },
        (Reconciling::Cleaning { lb, cleanup }, event) => clean_on(svc, lb, cleanup, event),
        (Reconciling::Unpinning, Event::Done) => (
            Reconciling::Finished,
            Step::Done(Ok(Action::AwaitChange)),
        ),
        (Reconciling::Unpinning, Event::Failed(error)) => (
            Reconciling::Finished,
            Step::Done(Err(error)),
        ),
        (Reconciling::Pinning { lb }, Event::Done) => balance_on(
            svc,
            context,
            Balancing::new(lb),
            Event::Start,
        ),
        (Reconciling::Pinning { lb }, Event::Failed(error)) => (
            Reconciling::Finished,
            Step::Done(Err(error)),
        ),
        (Reconciling::Balancing(balancing), event) => balance_on(svc, context, balancing, event),
        _ => (Reconciling::Finished, Step::Done(Err(LBTrackerError::UnexpectedEvent))),
    }
}

} // verus!
