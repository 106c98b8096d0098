//! A pass over one load balancer and the taking apart of one, step by step.

use robotlb::calls::{Event, Request, Step};
use robotlb::cloud::{LBAlgorithm, Network, ObservedLoadBalancer, PrivateNet, PublicAddress, Target};
use robotlb::error::LBTrackerError;
use robotlb::lb::LoadBalancer;
use robotlb::pass::{Cleanup, Reconcile};
use std::collections::HashMap;

fn wanted() -> LoadBalancer {
    LoadBalancer {
        name: "web".to_string(),
        services: HashMap::new(),
        targets: vec!["10.0.0.1".to_string()],
        private_ip: None,
        check_interval: 15,
        timeout: 10,
        retries: 3,
        proxy_mode: false,
        location: "hel1".to_string(),
        balancer_type: "lb11".to_string(),
        algorithm: LBAlgorithm::RoundRobin,
        network_name: Some("inner".to_string()),
    }
}

fn observed() -> ObservedLoadBalancer {
    ObservedLoadBalancer {
        id: 12,
        name: "web".to_string(),
        algorithm: LBAlgorithm::LeastConnections,
        balancer_type: "lb31".to_string(),
        services: vec![],
        targets: vec![Target { ip: Some("10.0.0.9".to_string()) }],
        private_net: vec![PrivateNet { network: Some(4), ip: None }],
        ipv4: PublicAddress { ip: None, dns_ptr: None },
        ipv6: PublicAddress { ip: None, dns_ptr: None },
    }
}

#[test]
fn pass_asks_for_one_call_at_a_time_in_order() {
    let balancer = wanted();
    let (state, step) = balancer.reconcile(Reconcile::Start, Event::Start);
    assert_eq!(state, Reconcile::Listing);
    assert_eq!(step, Step::Call(Request::ListLoadBalancers { name: "web".to_string() }));
    let (state, step) = balancer.reconcile(state, Event::LoadBalancers(vec![observed()]));
    assert_eq!(
        step,
        Step::Call(Request::ChangeAlgorithm { id: 12, algorithm: LBAlgorithm::RoundRobin })
    );
    let (state, step) = balancer.reconcile(state, Event::Done);
    assert_eq!(
        step,
        Step::Call(Request::ChangeType { id: 12, balancer_type: "lb11".to_string() })
    );
    // The network is looked up only after algorithm and type are through.
    let (state, step) = balancer.reconcile(state, Event::Done);
    assert_eq!(state, Reconcile::LookingUp { balancer: observed() });
    assert_eq!(step, Step::Call(Request::ListNetworks { name: "inner".to_string() }));
    let found = vec![Network { id: 3, name: "inner".to_string() }];
    let (state, step) = balancer.reconcile(state, Event::Networks(found));
    assert_eq!(step, Step::Call(Request::DetachFromNetwork { id: 12, network: 4 }));
    let (state, step) = balancer.reconcile(state, Event::Done);
    assert_eq!(step, Step::Call(Request::AttachToNetwork { id: 12, network: 3, ip: None }));
    let (state, step) = balancer.reconcile(state, Event::Done);
    assert_eq!(step, Step::Call(Request::RemoveTarget { id: 12, ip: "10.0.0.9".to_string() }));
    let (state, step) = balancer.reconcile(state, Event::Done);
    assert_eq!(step, Step::Call(Request::AddTarget { id: 12, ip: "10.0.0.1".to_string() }));
    let (state, step) = balancer.reconcile(state, Event::Done);
    assert_eq!(state, Reconcile::Finished);
    // The pass ends with the load balancer as it was found.
    assert_eq!(step, Step::Done(Ok(observed())));
}

#[test]
fn pass_without_network_wish_looks_nothing_up() {
    let mut balancer = wanted();
    balancer.network_name = None;
    let mut reported = observed();
    reported.algorithm = LBAlgorithm::RoundRobin;
    reported.balancer_type = "lb11".to_string();
    let (state, _) = balancer.reconcile(Reconcile::Start, Event::Start);
    let (state, step) = balancer.reconcile(state, Event::LoadBalancers(vec![reported]));
    assert_eq!(step, Step::Call(Request::DetachFromNetwork { id: 12, network: 4 }));
    assert!(matches!(state, Reconcile::Applying { network_pending: false, .. }));
}

#[test]
fn pass_over_a_balancer_in_step_ends_at_once() {
    let mut balancer = wanted();
    balancer.network_name = None;
    balancer.targets = vec![];
    let mut reported = observed();
    reported.algorithm = LBAlgorithm::RoundRobin;
    reported.balancer_type = "lb11".to_string();
    reported.targets = vec![Target { ip: None }];
    reported.private_net = vec![];
    let (state, _) = balancer.reconcile(Reconcile::Start, Event::Start);
    let (state, step) = balancer.reconcile(state, Event::LoadBalancers(vec![reported.clone()]));
    assert_eq!(state, Reconcile::Finished);
    assert_eq!(step, Step::Done(Ok(reported)));
}

#[test]
fn failure_of_a_call_ends_the_pass_with_it() {
    let balancer = wanted();
    let (state, _) = balancer.reconcile(Reconcile::Start, Event::Start);
    let (state, _) = balancer.reconcile(state, Event::LoadBalancers(vec![observed()]));
    let failure = LBTrackerError::HcloudLBChangeAlgorithm("locked".to_string());
    let (state, step) = balancer.reconcile(state, Event::Failed(failure));
    assert_eq!(state, Reconcile::Finished);
    assert_eq!(
        step,
        Step::Done(Err(LBTrackerError::HcloudLBChangeAlgorithm("locked".to_string())))
    );
    let (state, _) = balancer.reconcile(Reconcile::Start, Event::Start);
    let failure = LBTrackerError::HcloudListLoadBalancersError("offline".to_string());
    let (_, step) = balancer.reconcile(state, Event::Failed(failure));
    assert_eq!(
        step,
        Step::Done(Err(LBTrackerError::HcloudListLoadBalancersError("offline".to_string())))
    );
}

#[test]
fn created_balancer_is_passed_over_like_a_found_one() {
    let balancer = wanted();
    let (state, _) = balancer.reconcile(Reconcile::Start, Event::Start);
    let (state, step) = balancer.reconcile(state, Event::LoadBalancers(vec![]));
    assert_eq!(state, Reconcile::Creating);
    assert_eq!(
        step,
        Step::Call(Request::CreateLoadBalancer {
            name: "web".to_string(),
            algorithm: LBAlgorithm::RoundRobin,
            balancer_type: "lb11".to_string(),
            location: "hel1".to_string(),
            public_interface: true,
            services: vec![],
            targets: vec![],
            network: None,
        })
    );
    let mut created = observed();
    created.algorithm = LBAlgorithm::RoundRobin;
    created.balancer_type = "lb11".to_string();
    created.targets = vec![];
    created.private_net = vec![];
    let (state, step) = balancer.reconcile(state, Event::Created(created));
    assert_eq!(step, Step::Call(Request::ListNetworks { name: "inner".to_string() }));
    let (_, step) = balancer.reconcile(state, Event::Networks(vec![]));
    assert_eq!(
        step,
        Step::Done(Err(LBTrackerError::HCloudError(
            "Network with name inner not found".to_string()
        )))
    );
}

#[test]
fn failed_creation_with_another_error_is_passed_on() {
    let balancer = wanted();
    let (state, step) =
        balancer.reconcile(Reconcile::Creating, Event::Failed(LBTrackerError::SkipService));
    assert_eq!(state, Reconcile::Finished);
    assert_eq!(step, Step::Done(Err(LBTrackerError::SkipService)));
}

#[test]
fn answers_that_do_not_fit_end_the_pass() {
    let balancer = wanted();
    let misfits = vec![
        (Reconcile::Start, Event::Done),
        (Reconcile::Listing, Event::Start),
        (Reconcile::Listing, Event::Done),
        (Reconcile::Listing, Event::Networks(vec![])),
        (Reconcile::Creating, Event::LoadBalancers(vec![])),
        (Reconcile::LookingUp { balancer: observed() }, Event::Done),
        (
            Reconcile::Applying { balancer: observed(), queue: vec![], network_pending: true },
            Event::Created(observed()),
        ),
        (Reconcile::Finished, Event::Done),
        (Reconcile::Finished, Event::Failed(LBTrackerError::SkipService)),
        (Reconcile::Start, Event::Failed(LBTrackerError::SkipService)),
    ];
    for (state, event) in misfits {
        let shown = format!("{:?} on {:?}", event, state);
        let (state, step) = balancer.reconcile(state, event);
        assert_eq!(state, Reconcile::Finished, "{}", shown);
        assert_eq!(step, Step::Done(Err(LBTrackerError::UnexpectedEvent)), "{}", shown);
    }
}

#[test]
fn taking_apart_goes_call_by_call() {
    let balancer = wanted();
    let (state, step) = balancer.cleanup(Cleanup::Start, Event::Start);
    assert_eq!(step, Step::Call(Request::ListLoadBalancers { name: "web".to_string() }));
    let (state, step) = balancer.cleanup(state, Event::LoadBalancers(vec![observed()]));
    assert_eq!(step, Step::Call(Request::RemoveTarget { id: 12, ip: "10.0.0.9".to_string() }));
    let (state, step) = balancer.cleanup(state, Event::Done);
    assert_eq!(step, Step::Call(Request::DeleteLoadBalancer { id: 12 }));
    assert_eq!(state, Cleanup::Applying { queue: vec![] });
    let (state, step) = balancer.cleanup(state, Event::Done);
    assert_eq!(state, Cleanup::Finished);
    assert_eq!(step, Step::Done(Ok(())));
}

#[test]
fn taking_apart_nothing_is_done_at_once() {
    let balancer = wanted();
    let (state, _) = balancer.cleanup(Cleanup::Start, Event::Start);
    let (state, step) = balancer.cleanup(state, Event::LoadBalancers(vec![]));
    assert_eq!(state, Cleanup::Finished);
    assert_eq!(step, Step::Done(Ok(())));
    let (state, _) = balancer.cleanup(Cleanup::Start, Event::Start);
    let (_, step) = balancer.cleanup(state, Event::LoadBalancers(vec![observed(), observed()]));
    assert_eq!(step, Step::Done(Err(LBTrackerError::SkipService)));
    let (_, step) = balancer.cleanup(Cleanup::Listing, Event::Done);
    assert_eq!(step, Step::Done(Err(LBTrackerError::UnexpectedEvent)));
}
