//! The wanted load balancer and the calls that a pass plans.

use robotlb::calls::Request;
use robotlb::cloud::{
    BalancerService, HealthCheck, HealthCheckProtocol, LBAlgorithm, Network,
    ObservedLoadBalancer, PrivateNet, PublicAddress, ServiceProtocol, Target,
};
use robotlb::cluster::{Service, StringMap};
use robotlb::config::OperatorConfig;
use robotlb::controller::CurrentContext;
use robotlb::error::LBTrackerError;
use robotlb::lb::{LBService, LoadBalancer};
use std::collections::HashMap;

fn plain_service(annotations: &[(&str, &str)]) -> Service {
    let mut map = StringMap::new();
    for (key, value) in annotations {
        map.insert(key.to_string(), value.to_string());
    }
    Service {
        name: "web".to_string(),
        namespace: Some("prod".to_string()),
        service_type: Some("LoadBalancer".to_string()),
        annotations: map,
        finalizers: vec![],
        deletion_requested: false,
        selector: None,
        ports: vec![],
    }
}

fn default_context() -> CurrentContext {
    CurrentContext::new("default".to_string(), OperatorConfig::with_defaults("t".to_string()))
}

fn wanted() -> LoadBalancer {
    LoadBalancer::try_from_svc(&plain_service(&[]), &default_context()).unwrap()
}

fn service(listen_port: i32, destination_port: i32) -> BalancerService {
    BalancerService {
        listen_port,
        destination_port,
        protocol: ServiceProtocol::Tcp,
        proxyprotocol: false,
        http: false,
        health_check: HealthCheck {
            protocol: HealthCheckProtocol::Tcp,
            port: destination_port,
            interval: 15,
            retries: 3,
            timeout: 10,
        },
    }
}

fn observed() -> ObservedLoadBalancer {
    ObservedLoadBalancer {
        id: 12,
        name: "web".to_string(),
        algorithm: LBAlgorithm::LeastConnections,
        balancer_type: "lb11".to_string(),
        services: vec![],
        targets: vec![],
        private_net: vec![],
        ipv4: PublicAddress { ip: Some("198.51.100.7".to_string()), dns_ptr: None },
        ipv6: PublicAddress { ip: None, dns_ptr: None },
    }
}

fn target(ip: &str) -> Target {
    Target { ip: Some(ip.to_string()) }
}

#[test]
fn balancer_from_defaults() {
    let balancer = wanted();
    assert_eq!(
        balancer,
        LoadBalancer {
            name: "web".to_string(),
            services: HashMap::new(),
            targets: vec![],
            private_ip: None,
            check_interval: 15,
            timeout: 10,
            retries: 3,
            proxy_mode: false,
            location: "hel1".to_string(),
            balancer_type: "lb11".to_string(),
            algorithm: LBAlgorithm::LeastConnections,
            network_name: None,
        }
    );
}

#[test]
fn annotations_override_the_defaults() {
    let svc = plain_service(&[
        ("robotlb/balancer", "edge"),
        ("robotlb/lb-retries", "7"),
        ("robotlb/lb-timeout", "+20"),
        ("robotlb/lb-check-interval", "030"),
        ("robotlb/lb-proxy-mode", "true"),
        ("robotlb/lb-location", "fsn1"),
        ("robotlb/balancer-type", "lb21"),
        ("robotlb/lb-algorithm", "round-robin"),
        ("robotlb/lb-network", "inner"),
        ("robotlb/lb-private-ip", "10.0.5.7"),
    ]);
    let balancer = LoadBalancer::try_from_svc(&svc, &default_context()).unwrap();
    assert_eq!(
        balancer,
        LoadBalancer {
            name: "edge".to_string(),
            services: HashMap::new(),
            targets: vec![],
            private_ip: Some("10.0.5.7".to_string()),
            check_interval: 30,
            timeout: 20,
            retries: 7,
            proxy_mode: true,
            location: "fsn1".to_string(),
            balancer_type: "lb21".to_string(),
            algorithm: LBAlgorithm::RoundRobin,
            network_name: Some("inner".to_string()),
        }
    );
}

#[test]
fn default_network_is_taken_when_the_service_names_none() {
    let mut config = OperatorConfig::with_defaults("t".to_string());
    config.default_network = Some("shared".to_string());
    config.default_lb_algorithm = "round-robin".to_string();
    let context = CurrentContext::new("default".to_string(), config);
    let balancer = LoadBalancer::try_from_svc(&plain_service(&[]), &context).unwrap();
    assert_eq!(balancer.network_name, Some("shared".to_string()));
    assert_eq!(balancer.algorithm, LBAlgorithm::RoundRobin);
    let named = plain_service(&[("robotlb/lb-network", "own")]);
    let balancer = LoadBalancer::try_from_svc(&named, &context).unwrap();
    assert_eq!(balancer.network_name, Some("own".to_string()));
}

#[test]
fn numbers_are_read_as_signed_decimals() {
    let read = |text: &str| {
        LoadBalancer::try_from_svc(
            &plain_service(&[("robotlb/lb-retries", text)]),
            &default_context(),
        )
        .map(|balancer| balancer.retries)
    };
    assert_eq!(read("0"), Ok(0));
    assert_eq!(read("-3"), Ok(-3));
    assert_eq!(read("+12"), Ok(12));
    assert_eq!(read("0007"), Ok(7));
    assert_eq!(read("000000000000000000000000000012"), Ok(12));
    assert_eq!(read("-0"), Ok(0));
    assert_eq!(read("2147483647"), Ok(i32::MAX));
    assert_eq!(read("-2147483648"), Ok(i32::MIN));
    for refused in ["", "-", "+", "2147483648", "-2147483649", "1 ", " 1", "1.5", "0x10", "ten", "+-1", "１２", "٣", "1_000", "--1", "1e3"] {
        assert!(
            matches!(read(refused), Err(LBTrackerError::PaseIntError(_))),
            "{:?} was read",
            refused
        );
    }
}

#[test]
fn first_setting_that_cannot_be_read_is_the_error() {
    let context = default_context();
    let svc = plain_service(&[
        ("robotlb/lb-algorithm", "random"),
        ("robotlb/lb-proxy-mode", "yes"),
        ("robotlb/lb-check-interval", "soon"),
    ]);
    assert!(matches!(
        LoadBalancer::try_from_svc(&svc, &context),
        Err(LBTrackerError::PaseIntError(_))
    ));
    let svc = plain_service(&[
        ("robotlb/lb-algorithm", "random"),
        ("robotlb/lb-proxy-mode", "yes"),
    ]);
    assert!(matches!(
        LoadBalancer::try_from_svc(&svc, &context),
        Err(LBTrackerError::PaseBoolError(_))
    ));
    let svc = plain_service(&[("robotlb/lb-algorithm", "random")]);
    assert_eq!(
        LoadBalancer::try_from_svc(&svc, &context),
        Err(LBTrackerError::UnknownLBAlgorithm)
    );
}

#[test]
fn switches_are_true_or_false_only() {
    let read = |text: &str| {
        LoadBalancer::try_from_svc(
            &plain_service(&[("robotlb/lb-proxy-mode", text)]),
            &default_context(),
        )
        .map(|balancer| balancer.proxy_mode)
    };
    assert_eq!(read("true"), Ok(true));
    assert_eq!(read("false"), Ok(false));
    for refused in ["True", "1", "", "false "] {
        assert!(matches!(read(refused), Err(LBTrackerError::PaseBoolError(_))));
    }
}

#[test]
fn algorithm_names() {
    assert_eq!(LBAlgorithm::from_str("round-robin"), Ok(LBAlgorithm::RoundRobin));
    assert_eq!(LBAlgorithm::from_str("least-connections"), Ok(LBAlgorithm::LeastConnections));
    assert_eq!(LBAlgorithm::from_str("round_robin"), Err(LBTrackerError::UnknownLBAlgorithm));
    assert_eq!(LBAlgorithm::from_str(""), Err(LBTrackerError::UnknownLBAlgorithm));
}

#[test]
fn added_service_replaces_the_one_on_its_port() {
    let mut balancer = wanted();
    balancer.add_service(80, 30080);
    balancer.add_service(443, 30443);
    balancer.add_service(80, 31080);
    assert_eq!(balancer.services.len(), 2);
    assert_eq!(balancer.services.get(&80), Some(&31080));
    assert_eq!(
        balancer.service_list(),
        vec![
            LBService { listen_port: 80, target_port: 31080 },
            LBService { listen_port: 443, target_port: 30443 },
        ]
    );
}

#[test]
fn added_targets_keep_their_order() {
    let mut balancer = wanted();
    balancer.add_target("10.0.0.2");
    balancer.add_target("10.0.0.1");
    assert_eq!(balancer.targets, vec!["10.0.0.2".to_string(), "10.0.0.1".to_string()]);
}

#[test]
fn service_list_ascends_whatever_the_order_of_insertion() {
    let mut balancer = wanted();
    for port in [9000, -1, 443, 80, 65535, 22, 0, 8080] {
        balancer.add_service(port, port + 1);
    }
    let ports: Vec<i32> = balancer.service_list().iter().map(|s| s.listen_port).collect();
    assert_eq!(ports, vec![-1, 0, 22, 80, 443, 8080, 9000, 65535]);
    assert!(balancer.service_list().iter().all(|s| s.target_port == s.listen_port + 1));
}

#[test]
fn service_is_updated_exactly_when_a_compared_field_differs() {
    let mut balancer = wanted();
    balancer.add_service(80, 30080);
    let current = service(80, 30080);
    let mut differing = vec![];
    let mut other = current;
    other.destination_port = 1;
    differing.push(other);
    let mut other = current;
    other.health_check.port = 1;
    differing.push(other);
    let mut other = current;
    other.health_check.interval = 1;
    differing.push(other);
    let mut other = current;
    other.health_check.retries = 1;
    differing.push(other);
    let mut other = current;
    other.health_check.timeout = 1;
    differing.push(other);
    let mut other = current;
    other.proxyprotocol = true;
    differing.push(other);
    let mut other = current;
    other.http = true;
    differing.push(other);
    let mut other = current;
    other.health_check.protocol = HealthCheckProtocol::Http;
    differing.push(other);
    for have in differing {
        let mut reported = observed();
        reported.services = vec![have];
        assert_eq!(
            balancer.reconcile_services(&reported),
            vec![Request::UpdateService { id: 12, service: current }],
            "{:?}",
            have
        );
    }
    let mut reported = observed();
    reported.services = vec![current];
    assert_eq!(balancer.reconcile_services(&reported), vec![]);
    // The protocol of the service itself is not among the compared fields.
    let mut same_but_http = current;
    same_but_http.protocol = ServiceProtocol::Http;
    reported.services = vec![same_but_http];
    assert_eq!(balancer.reconcile_services(&reported), vec![]);
}

#[test]
fn services_are_fixed_in_reported_order_then_added_by_port() {
    let mut balancer = wanted();
    balancer.proxy_mode = true;
    balancer.add_service(8080, 30002);
    balancer.add_service(80, 30000);
    balancer.add_service(443, 30001);
    balancer.add_service(22, 30003);
    let mut reported = observed();
    reported.services = vec![service(9999, 1), service(443, 30001), service(25, 2)];
    let mut proxied = |listen: i32, destination: i32| {
        let mut s = service(listen, destination);
        s.proxyprotocol = true;
        s
    };
    assert_eq!(
        balancer.reconcile_services(&reported),
        vec![
            Request::DeleteService { id: 12, listen_port: 9999 },
            Request::UpdateService { id: 12, service: proxied(443, 30001) },
            Request::DeleteService { id: 12, listen_port: 25 },
            Request::AddService { id: 12, service: proxied(22, 30003) },
            Request::AddService { id: 12, service: proxied(80, 30000) },
            Request::AddService { id: 12, service: proxied(8080, 30002) },
        ]
    );
}

#[test]
fn health_check_probes_the_destination_port_with_the_wanted_settings() {
    let svc = plain_service(&[
        ("robotlb/lb-retries", "5"),
        ("robotlb/lb-timeout", "4"),
        ("robotlb/lb-check-interval", "9"),
    ]);
    let mut balancer = LoadBalancer::try_from_svc(&svc, &default_context()).unwrap();
    balancer.add_service(80, 30080);
    assert_eq!(
        balancer.reconcile_services(&observed()),
        vec![Request::AddService {
            id: 12,
            service: BalancerService {
                listen_port: 80,
                destination_port: 30080,
                protocol: ServiceProtocol::Tcp,
                proxyprotocol: false,
                http: false,
                health_check: HealthCheck {
                    protocol: HealthCheckProtocol::Tcp,
                    port: 30080,
                    interval: 9,
                    retries: 5,
                    timeout: 4,
                },
            },
        }]
    );
}

#[test]
fn targets_are_removed_in_reported_order_then_added_in_wanted_order() {
    let mut balancer = wanted();
    balancer.add_target("10.0.0.3");
    balancer.add_target("10.0.0.1");
    balancer.add_target("10.0.0.2");
    let mut reported = observed();
    reported.targets = vec![
        target("10.0.0.9"),
        Target { ip: None },
        target("10.0.0.1"),
        target("10.0.0.8"),
    ];
    assert_eq!(
        balancer.reconcile_targets(&reported),
        vec![
            Request::RemoveTarget { id: 12, ip: "10.0.0.9".to_string() },
            Request::RemoveTarget { id: 12, ip: "10.0.0.8".to_string() },
            Request::AddTarget { id: 12, ip: "10.0.0.3".to_string() },
            Request::AddTarget { id: 12, ip: "10.0.0.2".to_string() },
        ]
    );
    reported.targets = vec![target("10.0.0.2"), target("10.0.0.3"), target("10.0.0.1")];
    assert_eq!(balancer.reconcile_targets(&reported), vec![]);
}

#[test]
fn algorithm_and_type_change_only_where_they_differ() {
    let balancer = wanted();
    let mut reported = observed();
    assert_eq!(balancer.reconcile_algorithm(&reported), vec![]);
    assert_eq!(balancer.reconcile_lb_type(&reported), vec![]);
    reported.algorithm = LBAlgorithm::RoundRobin;
    reported.balancer_type = "lb31".to_string();
    assert_eq!(
        balancer.reconcile_algorithm(&reported),
        vec![Request::ChangeAlgorithm { id: 12, algorithm: LBAlgorithm::LeastConnections }]
    );
    assert_eq!(
        balancer.reconcile_lb_type(&reported),
        vec![Request::ChangeType { id: 12, balancer_type: "lb11".to_string() }]
    );
}

#[test]
fn network_without_wish_detaches_everything() {
    let balancer = wanted();
    let mut reported = observed();
    assert_eq!(balancer.reconcile_network(&reported, None), vec![]);
    reported.private_net = vec![
        PrivateNet { network: Some(3), ip: Some("10.0.0.5".to_string()) },
        PrivateNet { network: None, ip: None },
        PrivateNet { network: Some(4), ip: None },
    ];
    assert_eq!(
        balancer.reconcile_network(&reported, None),
        vec![
            Request::DetachFromNetwork { id: 12, network: 3 },
            Request::DetachFromNetwork { id: 12, network: 4 },
        ]
    );
}

#[test]
fn network_attachment_is_kept_detached_or_made() {
    let mut balancer = wanted();
    balancer.network_name = Some("inner".to_string());
    let mut reported = observed();
    assert_eq!(
        balancer.reconcile_network(&reported, Some(3)),
        vec![Request::AttachToNetwork { id: 12, network: 3, ip: None }]
    );
    reported.private_net = vec![
        PrivateNet { network: Some(4), ip: Some("10.1.0.5".to_string()) },
        PrivateNet { network: Some(3), ip: Some("10.0.0.5".to_string()) },
    ];
    assert_eq!(
        balancer.reconcile_network(&reported, Some(3)),
        vec![Request::DetachFromNetwork { id: 12, network: 4 }]
    );
    balancer.private_ip = Some("10.0.0.6".to_string());
    assert_eq!(
        balancer.reconcile_network(&reported, Some(3)),
        vec![
            Request::DetachFromNetwork { id: 12, network: 4 },
            Request::DetachFromNetwork { id: 12, network: 3 },
            Request::AttachToNetwork { id: 12, network: 3, ip: Some("10.0.0.6".to_string()) },
        ]
    );
    balancer.private_ip = Some("10.0.0.5".to_string());
    assert_eq!(
        balancer.reconcile_network(&reported, Some(3)),
        vec![Request::DetachFromNetwork { id: 12, network: 4 }]
    );
}

#[test]
fn one_balancer_is_picked_none_is_none_several_are_refused() {
    let balancer = wanted();
    assert_eq!(balancer.get_hcloud_lb(vec![]), Ok(None));
    assert_eq!(balancer.get_hcloud_lb(vec![observed()]), Ok(Some(observed())));
    let mut twin = observed();
    twin.id = 13;
    assert_eq!(
        balancer.get_hcloud_lb(vec![observed(), twin.clone()]),
        Err(LBTrackerError::SkipService)
    );
    assert_eq!(
        balancer.get_or_create_hcloud_lb(vec![observed(), twin]),
        Err(LBTrackerError::SkipService)
    );
    assert_eq!(balancer.get_or_create_hcloud_lb(vec![observed()]), Ok(Ok(observed())));
    assert_eq!(
        balancer.get_or_create_hcloud_lb(vec![]),
        Ok(Err(Request::CreateLoadBalancer {
            name: "web".to_string(),
            algorithm: LBAlgorithm::LeastConnections,
            balancer_type: "lb11".to_string(),
            location: "hel1".to_string(),
            public_interface: true,
            services: vec![],
            targets: vec![],
            network: None,
        }))
    );
}

#[test]
fn wanted_network_has_to_be_found_once() {
    let mut balancer = wanted();
    let inner = Network { id: 3, name: "inner".to_string() };
    assert_eq!(balancer.get_network(vec![inner.clone()]), Ok(None));
    balancer.network_name = Some("inner".to_string());
    assert_eq!(balancer.get_network(vec![inner.clone()]), Ok(Some(inner.clone())));
    assert_eq!(
        balancer.get_network(vec![]),
        Err(LBTrackerError::HCloudError("Network with name inner not found".to_string()))
    );
    assert_eq!(
        balancer.get_network(vec![inner.clone(), inner]),
        Err(LBTrackerError::HCloudError(
            "Found more than one network with name inner".to_string()
        ))
    );
}

#[test]
fn cleanup_deletes_services_targets_and_the_balancer() {
    let mut reported = observed();
    reported.services = vec![service(80, 1), service(443, 2)];
    reported.targets = vec![target("10.0.0.1"), Target { ip: None }, target("10.0.0.2")];
    assert_eq!(
        LoadBalancer::cleanup_calls(&reported),
        vec![
            Request::DeleteService { id: 12, listen_port: 80 },
            Request::DeleteService { id: 12, listen_port: 443 },
            Request::RemoveTarget { id: 12, ip: "10.0.0.1".to_string() },
            Request::RemoveTarget { id: 12, ip: "10.0.0.2".to_string() },
            Request::DeleteLoadBalancer { id: 12 },
        ]
    );
    assert_eq!(
        LoadBalancer::cleanup_calls(&observed()),
        vec![Request::DeleteLoadBalancer { id: 12 }]
    );
}

#[test]
fn calls_that_change_the_cloud() {
    assert!(Request::DeleteLoadBalancer { id: 1 }.changes_cloud());
    assert!(Request::AddTarget { id: 1, ip: "10.0.0.1".to_string() }.changes_cloud());
    assert!(!Request::ListLoadBalancers { name: "web".to_string() }.changes_cloud());
    assert!(!Request::ListNetworks { name: "inner".to_string() }.changes_cloud());
    assert!(!Request::ListNodes.changes_cloud());
    assert!(!Request::PatchFinalizers {
        namespace: "n".to_string(),
        name: "s".to_string(),
        finalizers: vec![],
    }
    .changes_cloud());
}
