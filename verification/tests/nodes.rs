//! The search for the nodes behind a service, and the settings.

use robotlb::calls::{Event, Request, Step};
use robotlb::cluster::{Node, NodeAddress, Pod, Service, StringMap};
use robotlb::config::{LogLevel, OperatorConfig};
use robotlb::controller::{
    get_nodes_by_selector, get_nodes_dynamically, on_error, Action, CurrentContext, NodeSearch,
};
use robotlb::error::LBTrackerError;
use robotlb::text::split_text;

fn map_of(pairs: &[(&str, &str)]) -> StringMap {
    let mut map = StringMap::new();
    for (key, value) in pairs {
        map.insert(key.to_string(), value.to_string());
    }
    map
}

fn service(selector: &[(&str, &str)], namespace: Option<&str>) -> Service {
    Service {
        name: "web".to_string(),
        namespace: namespace.map(str::to_string),
        service_type: Some("LoadBalancer".to_string()),
        annotations: StringMap::new(),
        finalizers: vec![],
        deletion_requested: false,
        selector: Some(map_of(selector)),
        ports: vec![],
    }
}

fn node(name: &str, labels: &[(&str, &str)]) -> Node {
    Node {
        name: name.to_string(),
        labels: map_of(labels),
        addresses: vec![NodeAddress {
            kind: "InternalIP".to_string(),
            address: format!("10.0.0.{}", name.len()),
        }],
    }
}

fn context() -> CurrentContext {
    CurrentContext::new("fallback".to_string(), OperatorConfig::with_defaults("t".to_string()))
}

#[test]
fn selector_is_written_as_pairs_with_commas() {
    let context = context();
    let svc = service(&[("app", "web"), ("tier", "front"), ("x", "")], Some("prod"));
    let (state, step) = get_nodes_dynamically(&svc, &context, NodeSearch::Start, Event::Start);
    assert_eq!(state, NodeSearch::ListingPods);
    assert_eq!(
        step,
        Step::Call(Request::ListPods {
            namespace: "prod".to_string(),
            label_selector: "app=web,tier=front,x=".to_string(),
        })
    );
    let svc = service(&[("app", "web")], None);
    let (_, step) = get_nodes_dynamically(&svc, &context, NodeSearch::Start, Event::Start);
    assert_eq!(
        step,
        Step::Call(Request::ListPods {
            namespace: "fallback".to_string(),
            label_selector: "app=web".to_string(),
        })
    );
}

#[test]
fn nodes_with_pods_are_kept_in_their_order() {
    let context = context();
    let svc = service(&[("app", "web")], Some("prod"));
    let pods = vec![
        Pod { node_name: Some("c".to_string()) },
        Pod { node_name: None },
        Pod { node_name: Some("a".to_string()) },
        Pod { node_name: Some("c".to_string()) },
    ];
    let (state, step) =
        get_nodes_dynamically(&svc, &context, NodeSearch::ListingPods, Event::Pods(pods));
    assert_eq!(
        state,
        NodeSearch::ListingNodes {
            names: vec!["c".to_string(), "a".to_string(), "c".to_string()],
        }
    );
    assert_eq!(step, Step::Call(Request::ListNodes));
    let nodes = vec![node("a", &[]), node("b", &[]), node("c", &[]), node("d", &[])];
    let (state, step) = get_nodes_dynamically(&svc, &context, state, Event::Nodes(nodes));
    assert_eq!(state, NodeSearch::Finished);
    assert_eq!(step, Step::Done(Ok(vec![node("a", &[]), node("c", &[])])));
}

#[test]
fn search_by_pods_passes_failures_on() {
    let context = context();
    let svc = service(&[("app", "web")], Some("prod"));
    let (state, step) = get_nodes_dynamically(
        &svc,
        &context,
        NodeSearch::ListingPods,
        Event::Failed(LBTrackerError::KubeError("forbidden".to_string())),
    );
    assert_eq!(state, NodeSearch::Finished);
    assert_eq!(step, Step::Done(Err(LBTrackerError::KubeError("forbidden".to_string()))));
    let (_, step) =
        get_nodes_dynamically(&svc, &context, NodeSearch::ListingPods, Event::Nodes(vec![]));
    assert_eq!(step, Step::Done(Err(LBTrackerError::UnexpectedEvent)));
    let (_, step) = get_nodes_dynamically(&svc, &context, NodeSearch::Filtering, Event::Nodes(vec![]));
    assert_eq!(step, Step::Done(Err(LBTrackerError::UnexpectedEvent)));
}

#[test]
fn nodes_are_filtered_by_the_annotated_selector() {
    let mut svc = service(&[], Some("prod"));
    let (state, step) = get_nodes_by_selector(&svc, NodeSearch::Start, Event::Start);
    assert_eq!(state, NodeSearch::Finished);
    assert_eq!(step, Step::Done(Err(LBTrackerError::ServiceWithoutSelector)));
    svc.annotations.insert("robotlb/node-selector".to_string(), "pool=edge,!drain".to_string());
    let (state, step) = get_nodes_by_selector(&svc, NodeSearch::Start, Event::Start);
    assert_eq!(state, NodeSearch::Filtering);
    assert_eq!(step, Step::Call(Request::ListNodes));
    let nodes = vec![
        node("a", &[("pool", "edge")]),
        node("b", &[("pool", "core")]),
        node("c", &[("pool", "edge"), ("drain", "")]),
        node("d", &[("pool", "edge"), ("zone", "1")]),
    ];
    let (state, step) = get_nodes_by_selector(&svc, state, Event::Nodes(nodes));
    assert_eq!(state, NodeSearch::Finished);
    assert_eq!(
        step,
        Step::Done(Ok(vec![node("a", &[("pool", "edge")]), node("d", &[("pool", "edge"), ("zone", "1")])]))
    );
    let (_, step) = get_nodes_by_selector(&svc, NodeSearch::ListingPods, Event::Pods(vec![]));
    assert_eq!(step, Step::Done(Err(LBTrackerError::UnexpectedEvent)));
}

#[test]
fn skipped_service_waits_for_a_change_other_errors_requeue() {
    assert_eq!(on_error(&LBTrackerError::SkipService), Action::AwaitChange);
    for error in [
        LBTrackerError::UnknownLBAlgorithm,
        LBTrackerError::ServiceWithoutSelector,
        LBTrackerError::UnsupportedServiceType,
        LBTrackerError::UnexpectedEvent,
        LBTrackerError::InvalidNodeFilter("a=b=c".to_string()),
        LBTrackerError::HCloudError("down".to_string()),
        LBTrackerError::KubeError("down".to_string()),
        LBTrackerError::HcloudLBAddTargetError("down".to_string()),
    ] {
        assert_eq!(on_error(&error), Action::Requeue(30));
    }
}

#[test]
fn default_settings() {
    let config = OperatorConfig::with_defaults("secret".to_string());
    assert_eq!(config.hcloud_token, "secret");
    assert_eq!(config.default_network, None);
    assert!(config.dynamic_node_selector);
    assert_eq!(config.default_lb_retries, 3);
    assert_eq!(config.default_lb_timeout, 10);
    assert_eq!(config.default_lb_interval, 15);
    assert_eq!(config.default_lb_location, "hel1");
    assert_eq!(config.default_balancer_type, "lb11");
    assert_eq!(config.default_lb_algorithm, "least-connections");
    assert!(!config.default_lb_proxy_mode_enabled);
    assert!(!config.ipv6_ingress);
    assert_eq!(config.log_level, LogLevel::Info);
}

#[test]
fn text_is_split_at_every_separator() {
    let split = |text: &str| split_text(text, ',');
    assert_eq!(split(""), vec![""]);
    assert_eq!(split("a"), vec!["a"]);
    assert_eq!(split("a,b"), vec!["a", "b"]);
    assert_eq!(split(",a,,b,"), vec!["", "a", "", "b", ""]);
    assert_eq!(split("é,ü"), vec!["é", "ü"]);
    assert_eq!(split_text("a=b", ','), vec!["a=b"]);
}
