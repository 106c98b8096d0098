//! A pass over one load balancer, and the taking apart of one, call by call.
//! Each function takes where the work stands and the answer to the call that
//! was asked for last, and says what to do next.

use crate::calls::{Event, EventView, Request, RequestView, Step, StepView};
use crate::cloud::{BalancerView, ObservedLoadBalancer};
use crate::error::{ErrorView, LBTrackerError};
use crate::lb::{LoadBalancer, LoadBalancerView};
use vstd::prelude::*;
use vstd::string::StringExecFns;

verus! {

/// Where a pass stands.
#[derive(Clone, Debug, PartialEq, Eq)]
pub enum Reconcile {
    /// Nothing has been asked for yet.
    Start,
    /// The load balancers of the wanted name have been asked for.
    Listing,
    /// The creation of the load balancer has been asked for.
    Creating,
    /// A change of `balancer` has been asked for; `queue` are the changes to
    /// ask for next. While `network_pending`, the network is still to be
    /// looked at once the queue is empty.
    Applying { balancer: ObservedLoadBalancer, queue: Vec<Request>, network_pending: bool },
    /// The networks of the wanted name have been asked for.
    LookingUp { balancer: ObservedLoadBalancer },
    /// The pass is over.
    Finished,
}

/// [`Reconcile`] as contracts speak of it: a plain value with texts as character sequences.
pub enum ReconcileView {
    Start,
    Listing,
    Creating,
    Applying { balancer: BalancerView, queue: Seq<RequestView>, network_pending: bool },
    LookingUp { balancer: BalancerView },
    Finished,
}

impl DeepView for Reconcile {
    type V = ReconcileView;

    open spec fn deep_view(&self) -> ReconcileView {
        match self {
            Reconcile::Start => ReconcileView::Start,
            Reconcile::Listing => ReconcileView::Listing,
            Reconcile::Creating => ReconcileView::Creating,
            Reconcile::Applying { balancer, queue, network_pending } => ReconcileView::Applying {
                balancer: balancer.deep_view(),
                queue: queue.deep_view(),
                network_pending: *network_pending,
            },
            Reconcile::LookingUp { balancer } => ReconcileView::LookingUp {
                balancer: balancer.deep_view(),
            },
            Reconcile::Finished => ReconcileView::Finished,
        }
    }
}

/// Where the taking apart of a load balancer stands.
#[derive(Clone, Debug, PartialEq, Eq)]
pub enum Cleanup {
    /// Nothing has been asked for yet.
    Start,
    /// The load balancers of the wanted name have been asked for.
    Listing,
    /// A deletion has been asked for; `queue` are the ones to ask for next.
    Applying { queue: Vec<Request> },
    /// The work is over.
    Finished,
}

/// [`Cleanup`] as contracts speak of it: a plain value with texts as character sequences.
pub enum CleanupView {
    Start,
    Listing,
    Applying { queue: Seq<RequestView> },
    Finished,
}

impl DeepView for Cleanup {
    type V = CleanupView;

    open spec fn deep_view(&self) -> CleanupView {
        match self {
            Cleanup::Start => CleanupView::Start,
            Cleanup::Listing => CleanupView::Listing,
            Cleanup::Applying { queue } => CleanupView::Applying { queue: queue.deep_view() },
            Cleanup::Finished => CleanupView::Finished,
        }
    }
}

impl LoadBalancerView {
    /// The calls of a pass that do not wait for the network to be known.
    pub open spec fn first_calls(self, balancer: BalancerView) -> Seq<RequestView> {
        self.algorithm_calls(balancer) + self.type_calls(balancer)
    }

    /// The calls of a pass that are made once the wanted network is known.
    pub open spec fn later_calls(self, balancer: BalancerView, network: Option<i64>) -> Seq<RequestView> {
        self.network_calls(balancer, network) + self.service_calls(balancer) + self.target_calls(
            balancer,
        )
    }

    /// The end of a pass: the load balancer as it was found or created.
    pub open spec fn pass_over(balancer: BalancerView) -> (ReconcileView, StepView<BalancerView>) {
        (ReconcileView::Finished, StepView::Done(Ok(balancer)))
    }

    /// The end of a pass in an error.
    pub open spec fn pass_failed(error: ErrorView) -> (ReconcileView, StepView<BalancerView>) {
        (ReconcileView::Finished, StepView::Done(Err(error)))
    }

    /// Asks for the first of the later calls, or ends the pass where there
    /// is none.
    pub open spec fn next_later_call(balancer: BalancerView, queue: Seq<RequestView>) -> (
        ReconcileView,
        StepView<BalancerView>,
    ) {
        if queue.len() > 0 {
            (
                ReconcileView::Applying {
                    balancer,
                    queue: queue.drop_first(),
                    network_pending: false,
                },
                StepView::Call(queue[0]),
            )
        } else {
            Self::pass_over(balancer)
        }
    }

    /// Turns to the network: where one is wanted, it is looked up by name;
    /// where none is wanted, the later calls are those for no network.
    pub open spec fn turn_to_network(self, balancer: BalancerView) -> (ReconcileView, StepView<BalancerView>) {
        match self.network_name {
            Some(name) => (
                ReconcileView::LookingUp { balancer },
                StepView::Call(RequestView::ListNetworks { name }),
            ),
            None => Self::next_later_call(balancer, self.later_calls(balancer, None)),
        }
    }

    /// Asks for the first call of `queue`; where `queue` is empty, turns to
    /// the network if that is still pending, and ends the pass otherwise.
    pub open spec fn next_call(
        self,
        balancer: BalancerView,
        queue: Seq<RequestView>,
        network_pending: bool,
    ) -> (ReconcileView, StepView<BalancerView>) {
        if queue.len() > 0 {
            (
                ReconcileView::Applying { balancer, queue: queue.drop_first(), network_pending },
                StepView::Call(queue[0]),
            )
        } else if network_pending {
            self.turn_to_network(balancer)
        } else {
            Self::pass_over(balancer)
        }
    }

    /// What a failed creation is reported as.
    pub open spec fn creation_failure(error: ErrorView) -> ErrorView {
        match error {
            ErrorView::HcloudLBCreateError(text) => ErrorView::HCloudError(
                "Failed to create load balancer: "@ + text,
            ),
            other => other,
        }
    }

    /// One step of a pass. The pass lists the load balancers of the wanted
    /// name. Several are refused; none has the load balancer created; then,
    /// on the one load balancer, algorithm and type are changed where they
    /// differ, the wanted network is looked up if one is wanted, and the
    /// calls for network, services and targets follow. Every call is asked
    /// for only after the one before it went through: the first failure ends
    /// the pass. An answer that does not fit the call ends it too.
    pub open spec fn reconcile_step(self, state: ReconcileView, event: EventView) -> (
        ReconcileView,
        StepView<BalancerView>,
    ) {
        match (state, event) {
            (ReconcileView::Start, EventView::Start) => (
                ReconcileView::Listing,
                StepView::Call(RequestView::ListLoadBalancers { name: self.name }),
            ),
            (_, EventView::Start) => Self::pass_failed(ErrorView::UnexpectedEvent),
            (ReconcileView::Start, _) => Self::pass_failed(ErrorView::UnexpectedEvent),
            (ReconcileView::Finished, _) => Self::pass_failed(ErrorView::UnexpectedEvent),
            (ReconcileView::Creating, EventView::Failed(error)) => Self::pass_failed(
                Self::creation_failure(error),
            ),
            (_, EventView::Failed(error)) => Self::pass_failed(error),
            (ReconcileView::Listing, EventView::LoadBalancers(found)) => match Self::found_balancer(
                found,
            ) {
                Ok(Some(balancer)) => self.next_call(balancer, self.first_calls(balancer), true),
                Ok(None) => (ReconcileView::Creating, StepView::Call(self.creation())),
                Err(error) => Self::pass_failed(error),
            },
            (ReconcileView::Creating, EventView::Created(balancer)) => self.next_call(
                balancer,
                self.first_calls(balancer),
                true,
            ),
            (
                ReconcileView::Applying { balancer, queue, network_pending },
                EventView::Done,
            ) => self.next_call(balancer, queue, network_pending),
            (ReconcileView::LookingUp { balancer }, EventView::Networks(found)) => match self.found_network(
                found,
            ) {
                Ok(Some(network)) => Self::next_later_call(
                    balancer,
                    self.later_calls(balancer, Some(network.id)),
                ),
                Ok(None) => Self::next_later_call(balancer, self.later_calls(balancer, None)),
                Err(error) => Self::pass_failed(error),
            },
            _ => Self::pass_failed(ErrorView::UnexpectedEvent),
        }
    }

    /// The end of a taking apart.
    pub open spec fn cleanup_over() -> (CleanupView, StepView<()>) {
        (CleanupView::Finished, StepView::Done(Ok(())))
    }

    /// The end of a taking apart in an error.
    pub open spec fn cleanup_failed(error: ErrorView) -> (CleanupView, StepView<()>) {
        (CleanupView::Finished, StepView::Done(Err(error)))
    }

    /// Asks for the first deletion of `queue`, or ends the work where there
    /// is none.
    pub open spec fn next_deletion(queue: Seq<RequestView>) -> (CleanupView, StepView<()>) {
        if queue.len() > 0 {
            (CleanupView::Applying { queue: queue.drop_first() }, StepView::Call(queue[0]))
        } else {
            Self::cleanup_over()
        }
    }

    /// One step of taking the load balancer of the wanted name apart. Where
    /// there is no such load balancer the work is over at once; several are
    /// refused. On the one load balancer every service is deleted, every
    /// target given by address removed, then the load balancer deleted, each
    /// call only after the one before it went through.
    pub open spec fn cleanup_step(self, state: CleanupView, event: EventView) -> (
        CleanupView,
        StepView<()>,
    ) {
        match (state, event) {
            (CleanupView::Start, EventView::Start) => (
                CleanupView::Listing,
                StepView::Call(RequestView::ListLoadBalancers { name: self.name }),
            ),
            (_, EventView::Start) => Self::cleanup_failed(ErrorView::UnexpectedEvent),
            (CleanupView::Start, _) => Self::cleanup_failed(ErrorView::UnexpectedEvent),
            (CleanupView::Finished, _) => Self::cleanup_failed(ErrorView::UnexpectedEvent),
            (_, EventView::Failed(error)) => Self::cleanup_failed(error),
            (CleanupView::Listing, EventView::LoadBalancers(found)) => match Self::found_balancer(
                found,
            ) {
                Ok(Some(balancer)) => Self::next_deletion(Self::cleanup_calls(balancer)),
                Ok(None) => Self::cleanup_over(),
                Err(error) => Self::cleanup_failed(error),
            },
            (CleanupView::Applying { queue }, EventView::Done) => Self::next_deletion(queue),
            _ => Self::cleanup_failed(ErrorView::UnexpectedEvent),
        }
    }
}

/// Takes the first call off a queue that has one.
fn take_first(queue: Vec<Request>) -> (taken: (Request, Vec<Request>))
    requires
        queue.len() > 0,
    ensures
        taken.0.deep_view() == queue.deep_view()[0],
        taken.1.deep_view() == queue.deep_view().drop_first(),
{
    let mut rest = queue;
    let first = rest.remove(0);
    assert(rest.deep_view() =~= queue.deep_view().drop_first());
    (first, rest)
}

/// One list of calls after the other.
fn chain(first: Vec<Request>, second: Vec<Request>) -> (both: Vec<Request>)
    ensures
        both.deep_view() == first.deep_view() + second.deep_view(),
{
    let mut both = first;
    let mut rest = second;
    both.append(&mut rest);
    assert(both.deep_view() =~= first.deep_view() + second.deep_view());
    both
}

impl LoadBalancer {
    /// The calls of a pass that do not wait for the network to be known.
    fn first_calls(&self, balancer: &ObservedLoadBalancer) -> (calls: Vec<Request>)
        ensures
            calls.deep_view() == self.deep_view().first_calls(balancer.deep_view()),
    {
        chain(self.reconcile_algorithm(balancer), self.reconcile_lb_type(balancer))
    }

    /// The calls of a pass that are made once the wanted network is known.
    fn later_calls(&self, balancer: &ObservedLoadBalancer, network: Option<i64>) -> (calls: Vec<
        Request,
    >)
        ensures
            calls.deep_view() == self.deep_view().later_calls(balancer.deep_view(), network),
    {
        chain(
            chain(self.reconcile_network(balancer, network), self.reconcile_services(balancer)),
            self.reconcile_targets(balancer),
        )
    }

    /// Asks for the first of the later calls, or ends the pass.
    fn next_later_call(balancer: ObservedLoadBalancer, queue: Vec<Request>) -> (next: (
        Reconcile,
        Step<ObservedLoadBalancer>,
    ))
        ensures
            (next.0.deep_view(), next.1.deep_view()) == LoadBalancerView::next_later_call(
                balancer.deep_view(),
                queue.deep_view(),
            ),
    {
        if queue.len() > 0 {
            let (call, rest) = take_first(queue);
            (Reconcile::Applying { balancer, queue: rest, network_pending: false }, Step::Call(call))
        } else {
            (Reconcile::Finished, Step::Done(Ok(balancer)))
        }
    }

    /// Asks for the first call of `queue`, turns to the network, or ends the
    /// pass.
    fn next_call(&self, balancer: ObservedLoadBalancer, queue: Vec<Request>, network_pending: bool) -> (next:
        (Reconcile, Step<ObservedLoadBalancer>))
        ensures
            (next.0.deep_view(), next.1.deep_view()) == self.deep_view().next_call(
                balancer.deep_view(),
                queue.deep_view(),
                network_pending,
            ),
    {
        if queue.len() > 0 {
            let (call, rest) = take_first(queue);
            (Reconcile::Applying { balancer, queue: rest, network_pending }, Step::Call(call))
        } else if network_pending {
            match &self.network_name {
                Some(name) => (
                    Reconcile::LookingUp { balancer },
                    Step::Call(Request::ListNetworks { name: name.clone() }),
                ),
                None => {
                    let calls = self.later_calls(&balancer, None);
                    Self::next_later_call(balancer, calls)
                },
            }
        } else {
            (Reconcile::Finished, Step::Done(Ok(balancer)))
        }
    }

    /// What a failed creation is reported as.
    fn creation_failure(error: LBTrackerError) -> (reported: LBTrackerError)
        ensures
            reported.deep_view() == LoadBalancerView::creation_failure(error.deep_view()),
    {
        match error {
            LBTrackerError::HcloudLBCreateError(text) => {
                let mut message = String::from_str("Failed to create load balancer: ");
                message.append(text.as_str());
                LBTrackerError::HCloudError(message)
            },
            other => other,
        }
    }

    /// One step of a pass that brings the load balancer at Hetzner Cloud to
    /// this one. It starts from `Reconcile::Start` with `Event::Start`; each
    /// further step takes the state that the step before returned and the
    /// answer to the call that it asked for. The pass ends with the load
    /// balancer as it was found or created, or with the first error.
    pub fn reconcile(&self, state: Reconcile, event: Event) -> (next: (
        Reconcile,
        Step<ObservedLoadBalancer>,
    ))
        ensures
            (next.0.deep_view(), next.1.deep_view()) == self.deep_view().reconcile_step(
                state.deep_view(),
                event.deep_view(),
            ),
    {
        match (state, event) {
            (Reconcile::Start, Event::Start) => (
                Reconcile::Listing,
                Step::Call(Request::ListLoadBalancers { name: self.name.clone() }),
            ),
            (_, Event::Start) => (Reconcile::Finished, Step::Done(Err(LBTrackerError::UnexpectedEvent))),
            (Reconcile::Start, _) => (
                Reconcile::Finished,
                Step::Done(Err(LBTrackerError::UnexpectedEvent)),
            ),
            (Reconcile::Finished, _) => (
                Reconcile::Finished,
                Step::Done(Err(LBTrackerError::UnexpectedEvent)),
            ),
            (Reconcile::Creating, Event::Failed(error)) => (
                Reconcile::Finished,
                Step::Done(Err(Self::creation_failure(error))),
            ),
            (_, Event::Failed(error)) => (Reconcile::Finished, Step::Done(Err(error))),
            (Reconcile::Listing, Event::LoadBalancers(found)) => {
                match self.get_or_create_hcloud_lb(found) {
                    Ok(Ok(balancer)) => {
                        let calls = self.first_calls(&balancer);
                        self.next_call(balancer, calls, true)
                    },
                    Ok(Err(creation)) => (Reconcile::Creating, Step::Call(creation)),
                    Err(error) => (Reconcile::Finished, Step::Done(Err(error))),
                }
            },
            (Reconcile::Creating, Event::Created(balancer)) => {
                let calls = self.first_calls(&balancer);
                self.next_call(balancer, calls, true)
            },
            (Reconcile::Applying { balancer, queue, network_pending }, Event::Done) => {
                self.next_call(balancer, queue, network_pending)
            },
            (Reconcile::LookingUp { balancer }, Event::Networks(found)) => {
                match self.get_network(found) {
                    Ok(Some(network)) => {
                        let calls = self.later_calls(&balancer, Some(network.id));
                        Self::next_later_call(balancer, calls)
                    },
                    Ok(None) => {
                        let calls = self.later_calls(&balancer, None);
                        Self::next_later_call(balancer, calls)
                    },
                    Err(error) => (Reconcile::Finished, Step::Done(Err(error))),
                }
            },
            _ => (Reconcile::Finished, Step::Done(Err(LBTrackerError::UnexpectedEvent))),
        }
    }

    /// Asks for the first deletion of `queue`, or ends the work.
    fn next_deletion(queue: Vec<Request>) -> (next: (Cleanup, Step<()>))
        ensures
            (next.0.deep_view(), next.1.deep_view()) == LoadBalancerView::next_deletion(
                queue.deep_view(),
            ),
    {
        if queue.len() > 0 {
            let (call, rest) = take_first(queue);
            (Cleanup::Applying { queue: rest }, Step::Call(call))
        } else {
            (Cleanup::Finished, Step::Done(Ok(())))
        }
    }

    /// One step of taking apart the load balancer that Hetzner Cloud has
    /// under this one's name. It starts from `Cleanup::Start` with
    /// `Event::Start` and goes on like a pass. It ends well where there is no
    /// such load balancer, and where every deletion went through.
    pub fn cleanup(&self, state: Cleanup, event: Event) -> (next: (Cleanup, Step<()>))
        ensures
            (next.0.deep_view(), next.1.deep_view()) == self.deep_view().cleanup_step(
                state.deep_view(),
                event.deep_view(),
            ),
    {
        match (state, event) {
            (Cleanup::Start, Event::Start) => (
                Cleanup::Listing,
                Step::Call(Request::ListLoadBalancers { name: self.name.clone() }),
            ),
            (_, Event::Start) => (Cleanup::Finished, Step::Done(Err(LBTrackerError::UnexpectedEvent))),
            (Cleanup::Start, _) => (Cleanup::Finished, Step::Done(Err(LBTrackerError::UnexpectedEvent))),
            (Cleanup::Finished, _) => (
                Cleanup::Finished,
                Step::Done(Err(LBTrackerError::UnexpectedEvent)),
            ),
            (_, Event::Failed(error)) => (Cleanup::Finished, Step::Done(Err(error))),
            (Cleanup::Listing, Event::LoadBalancers(found)) => {
                match self.get_hcloud_lb(found) {
                    Ok(Some(balancer)) => Self::next_deletion(Self::cleanup_calls(&balancer)),
                    Ok(None) => (Cleanup::Finished, Step::Done(Ok(()))),
                    Err(error) => (Cleanup::Finished, Step::Done(Err(error))),
                }
            },
            (Cleanup::Applying { queue }, Event::Done) => Self::next_deletion(queue),
            _ => (Cleanup::Finished, Step::Done(Err(LBTrackerError::UnexpectedEvent))),
        }
    }
}

} // verus!
