//! The finalizer that ties a service to its load balancer: while a service
//! carries it, the service cannot go away, so the load balancer can be taken
//! apart first.

use crate::calls::{Request, RequestView};
use crate::cluster::{Service, ServiceView};
use crate::consts::FINALIZER_NAME;
use crate::error::{ErrorView, LBTrackerError};
use crate::text::holds_text;
use vstd::prelude::*;
use vstd::string::StringExecFns;

verus! {

/// `finalizers` without every occurrence of `name`, the others in their
/// order.
pub open spec fn without(finalizers: Seq<Seq<char>>, name: Seq<char>) -> Seq<Seq<char>>
    decreases finalizers.len(),
{
    if finalizers.len() == 0 {
        Seq::empty()
    } else if finalizers.last() == name {
        without(finalizers.drop_last(), name)
    } else {
        without(finalizers.drop_last(), name).push(finalizers.last())
    }
}

/// The patch that gives a service the finalizer: its finalizers become the
/// controller's finalizer alone. A service without namespace is skipped.
pub open spec fn addition(svc: ServiceView) -> Result<RequestView, ErrorView> {
    match svc.namespace {
        Some(namespace) => Ok(
            RequestView::PatchFinalizers {
                namespace,
                name: svc.name,
                finalizers: seq![FINALIZER_NAME@],
            },
        ),
        None => Err(ErrorView::SkipService),
    }
}

/// The patch that takes the finalizer off a service: its finalizers become
/// the ones it has, without the controller's. A service without namespace is
/// skipped.
pub open spec fn removal(svc: ServiceView) -> Result<RequestView, ErrorView> {
    match svc.namespace {
        Some(namespace) => Ok(
            RequestView::PatchFinalizers {
                namespace,
                name: svc.name,
                finalizers: without(svc.finalizers, FINALIZER_NAME@),
            },
        ),
        None => Err(ErrorView::SkipService),
    }
}

/// Whether a service carries the finalizer.
pub open spec fn carries_finalizer(svc: ServiceView) -> bool {
    svc.finalizers.contains(FINALIZER_NAME@)
}

/// The service after a patch of its finalizers has gone through: a merge
/// patch puts the list of the patch in the place of the list that was there.
pub open spec fn patched(svc: ServiceView, patch: RequestView) -> ServiceView {
    match patch {
        RequestView::PatchFinalizers { finalizers, .. } => ServiceView { finalizers, ..svc },
        _ => svc,
    }
}

/// What is left after taking a name out holds that name no more, and holds
/// every other member as before.
pub proof fn without_takes_only_the_name(finalizers: Seq<Seq<char>>, name: Seq<char>)
    ensures
        !without(finalizers, name).contains(name),
        forall|other: Seq<char>|
            other != name ==> (#[trigger] without(finalizers, name).contains(other)
                <==> finalizers.contains(other)),
        !finalizers.contains(name) ==> without(finalizers, name) == finalizers,
    decreases finalizers.len(),
{
    let left = without(finalizers, name);
    if finalizers.len() > 0 {
        let front = finalizers.drop_last();
        let before = without(front, name);
        without_takes_only_the_name(front, name);
        assert(finalizers[finalizers.len() - 1] == finalizers.last());
        if left.contains(name) {
            let k = choose|k: int| 0 <= k < left.len() && left[k] == name;
            if k < before.len() {
                assert(before[k] == name);
                assert(before.contains(name));
            }
        }
        assert forall|other: Seq<char>| other != name implies (#[trigger] left.contains(other)
            <==> finalizers.contains(other)) by {
            if left.contains(other) {
                let k = choose|k: int| 0 <= k < left.len() && left[k] == other;
                if k < before.len() {
                    assert(before[k] == other);
                    assert(before.contains(other));
                    assert(front.contains(other));
                    let at = choose|at: int| 0 <= at < front.len() && front[at] == other;
                    assert(finalizers[at] == other);
                }
            }
            if finalizers.contains(other) {
                let at = choose|at: int| 0 <= at < finalizers.len() && finalizers[at] == other;
                if at < front.len() {
                    assert(front[at] == other);
                    assert(front.contains(other));
                    assert(before.contains(other));
                    let k = choose|k: int| 0 <= k < before.len() && before[k] == other;
                    assert(left[k] == other);
                } else {
                    assert(left[before.len() as int] == other);
                }
            }
        }
        if !finalizers.contains(name) {
            if front.contains(name) {
                let at = choose|at: int| 0 <= at < front.len() && front[at] == name;
                assert(finalizers[at] == name);
            }
            assert(left =~= finalizers);
        }
    } else {
        assert(left =~= finalizers);
    }
}

/// Finalizer round trip. Once the finalizer has been added to a service that
/// had no finalizers, and then removed again, the service has the finalizers
/// it had before: none. In between it carries the finalizer.
pub proof fn finalizer_round_trip(svc: ServiceView)
    requires
        svc.namespace is Some,
        svc.finalizers.len() == 0,
    ensures
        ({
            let with = patched(svc, addition(svc)->Ok_0);
            let again = patched(with, removal(with)->Ok_0);
            &&& carries_finalizer(with)
            &&& !carries_finalizer(again)
            &&& again.finalizers.to_multiset() == svc.finalizers.to_multiset()
        }),
{
    let with = patched(svc, addition(svc)->Ok_0);
    let again = patched(with, removal(with)->Ok_0);
    assert(with.finalizers[0] == FINALIZER_NAME@);
    without_takes_only_the_name(with.finalizers, FINALIZER_NAME@);
    let given = with.finalizers;
    assert(given.len() == 1 && given.last() == FINALIZER_NAME@);
    assert(given.drop_last() =~= Seq::<Seq<char>>::empty());
    assert(without(given.drop_last(), FINALIZER_NAME@) =~= Seq::<Seq<char>>::empty());
    assert(without(given, FINALIZER_NAME@) == without(given.drop_last(), FINALIZER_NAME@));
    assert(again.finalizers =~= svc.finalizers);
}

/// Removing the finalizer twice is removing it once.
pub proof fn removal_is_idempotent(svc: ServiceView)
    requires
        svc.namespace is Some,
    ensures
        ({
            let once = patched(svc, removal(svc)->Ok_0);
            &&& !carries_finalizer(once)
            &&& patched(once, removal(once)->Ok_0) == once
        }),
{
    let once = patched(svc, removal(svc)->Ok_0);
    without_takes_only_the_name(svc.finalizers, FINALIZER_NAME@);
    without_takes_only_the_name(once.finalizers, FINALIZER_NAME@);
}

/// The patch that gives the service the finalizer.
pub fn add(svc: &Service) -> (patch: Result<Request, LBTrackerError>)
    ensures
        match patch {
            Ok(request) => addition(svc.deep_view()) == Ok::<RequestView, ErrorView>(
                request.deep_view(),
            ),
            Err(error) => addition(svc.deep_view()) == Err::<RequestView, ErrorView>(
                error.deep_view(),
            ),
        },
{
    match &svc.namespace {
        Some(namespace) => {
            let mut finalizers: Vec<String> = Vec::new();
            finalizers.push(String::from_str(FINALIZER_NAME));
            assert(finalizers.deep_view() =~= seq![FINALIZER_NAME@]);
            Ok(
                Request::PatchFinalizers {
                    namespace: namespace.clone(),
                    name: svc.name.clone(),
                    finalizers,
                },
            )
        },
        None => Err(LBTrackerError::SkipService),
    }
}

/// Whether the service carries the finalizer.
#[must_use]
pub fn check(service: &Service) -> (carries: bool)
    ensures
        carries == carries_finalizer(service.deep_view()),
{
    holds_text(&service.finalizers, FINALIZER_NAME)
}

/// The patch that takes the finalizer off the service. A service that does
/// not carry it is patched to the finalizers it has.
pub fn remove(svc: &Service) -> (patch: Result<Request, LBTrackerError>)
    ensures
        match patch {
            Ok(request) => removal(svc.deep_view()) == Ok::<RequestView, ErrorView>(
                request.deep_view(),
            ),
            Err(error) => removal(svc.deep_view()) == Err::<RequestView, ErrorView>(
                error.deep_view(),
            ),
        },
{
    match &svc.namespace {
        Some(namespace) => {
            let ghost all = svc.finalizers.deep_view();
            let mut finalizers: Vec<String> = Vec::new();
            let mut i: usize = 0;
            assert(finalizers.deep_view() =~= without(all.take(0), FINALIZER_NAME@));
            while i < svc.finalizers.len()
                invariant
                    all == svc.finalizers.deep_view(),
                    i <= all.len(),
                    finalizers.deep_view() == without(all.take(i as int), FINALIZER_NAME@),
                decreases all.len() - i,
            {
                let ghost before = finalizers.deep_view();
                proof {
                    assert(all.take(i as int + 1).drop_last() =~= all.take(i as int));
                    assert(all.take(i as int + 1).last() == all[i as int]);
                }
                if !svc.finalizers[i].as_str().eq(FINALIZER_NAME) {
                    finalizers.push(svc.finalizers[i].clone());
                    assert(finalizers.deep_view() =~= before.push(all[i as int]));
                }
                i = i + 1;
            }
            assert(all.take(all.len() as int) =~= all);
            Ok(
                Request::PatchFinalizers {
                    namespace: namespace.clone(),
                    name: svc.name.clone(),
                    finalizers,
                },
            )
        },
        None => Err(LBTrackerError::SkipService),
    }
}

} // verus!
