//! Whole reconciliations against a cluster and a cloud that live in memory.

use robotlb::calls::{Event, Ingress, Request, Step};
use robotlb::cloud::{
    BalancerService, HealthCheck, HealthCheckProtocol, LBAlgorithm, Network,
    ObservedLoadBalancer, PrivateNet, PublicAddress, ServiceProtocol, Target,
};
use robotlb::cluster::{Node, NodeAddress, Pod, Service, ServicePort, StringMap};
use robotlb::config::OperatorConfig;
use robotlb::controller::{reconcile_service, Action, CurrentContext, Reconciling};
use robotlb::error::LBTrackerError;

/// A cluster with one service and a cloud project, both in memory.
struct World {
    balancers: Vec<ObservedLoadBalancer>,
    networks: Vec<Network>,
    /// Each pod with the selector text that finds it.
    pods: Vec<(String, Pod)>,
    nodes: Vec<Node>,
    service: Service,
    ingress: Vec<Ingress>,
    next_id: i64,
    log: Vec<Request>,
    fail_next_change: bool,
}

fn text_map(pairs: &[(&str, &str)]) -> StringMap {
    let mut map = StringMap::new();
    for (key, value) in pairs {
        map.insert(key.to_string(), value.to_string());
    }
    map
}

fn node(name: &str, internal: &str, external: &str) -> Node {
    Node {
        name: name.to_string(),
        labels: text_map(&[("kubernetes.io/hostname", name)]),
        addresses: vec![
            NodeAddress { kind: "Hostname".to_string(), address: name.to_string() },
            NodeAddress { kind: "InternalIP".to_string(), address: internal.to_string() },
            NodeAddress { kind: "ExternalIP".to_string(), address: external.to_string() },
        ],
    }
}

fn pod_on(node: &str) -> (String, Pod) {
    ("app=web".to_string(), Pod { node_name: Some(node.to_string()) })
}

fn web_service() -> Service {
    Service {
        name: "svc1".to_string(),
        namespace: Some("n".to_string()),
        service_type: Some("LoadBalancer".to_string()),
        annotations: StringMap::new(),
        finalizers: vec![],
        deletion_requested: false,
        selector: Some(text_map(&[("app", "web")])),
        ports: vec![ServicePort {
            port: 80,
            node_port: Some(30080),
            protocol: Some("TCP".to_string()),
        }],
    }
}

fn context() -> CurrentContext {
    CurrentContext::new("default".to_string(), OperatorConfig::with_defaults("token".to_string()))
}

impl World {
    fn new() -> World {
        World {
            balancers: vec![],
            networks: vec![],
            pods: vec![pod_on("nodeA"), pod_on("nodeB")],
            nodes: vec![
                node("nodeA", "10.0.0.1", "1.2.3.4"),
                node("nodeB", "10.0.0.2", "1.2.3.5"),
                node("nodeC", "10.0.0.3", "1.2.3.6"),
            ],
            service: web_service(),
            ingress: vec![],
            next_id: 41,
            log: vec![],
            fail_next_change: false,
        }
    }

    fn balancer(&mut self, id: i64) -> &mut ObservedLoadBalancer {
        self.balancers.iter_mut().find(|b| b.id == id).expect("no such load balancer")
    }

    fn perform(&mut self, request: Request) -> Event {
        self.log.push(request.clone());
        if request.changes_cloud() && self.fail_next_change {
            self.fail_next_change = false;
            return Event::Failed(LBTrackerError::HCloudError("refused".to_string()));
        }
        match request {
            Request::ListLoadBalancers { name } => Event::LoadBalancers(
                self.balancers.iter().filter(|b| b.name == name).cloned().collect(),
            ),
            Request::CreateLoadBalancer { name, algorithm, balancer_type, .. } => {
                self.next_id += 1;
                let created = ObservedLoadBalancer {
                    id: self.next_id,
                    name,
                    algorithm,
                    balancer_type,
                    services: vec![],
                    targets: vec![],
                    private_net: vec![],
                    ipv4: PublicAddress {
                        ip: Some("203.0.113.10".to_string()),
                        dns_ptr: Some("lb.example.org".to_string()),
                    },
                    ipv6: PublicAddress { ip: Some("2001:db8::10".to_string()), dns_ptr: None },
                };
                self.balancers.push(created.clone());
                Event::Created(created)
            },
            Request::ChangeAlgorithm { id, algorithm } => {
                self.balancer(id).algorithm = algorithm;
                Event::Done
            },
            Request::ChangeType { id, balancer_type } => {
                self.balancer(id).balancer_type = balancer_type;
                Event::Done
            },
            Request::ListNetworks { name } => Event::Networks(
                self.networks.iter().filter(|n| n.name == name).cloned().collect(),
            ),
            Request::DetachFromNetwork { id, network } => {
                self.balancer(id).private_net.retain(|n| n.network != Some(network));
                Event::Done
            },
            Request::AttachToNetwork { id, network, ip } => {
                let ip = ip.unwrap_or("10.9.9.9".to_string());
                self.balancer(id).private_net.push(PrivateNet { network: Some(network), ip: Some(ip) });
                Event::Done
            },
            Request::UpdateService { id, service } => {
                for have in self.balancer(id).services.iter_mut() {
                    if have.listen_port == service.listen_port {
                        *have = service;
                    }
                }
                Event::Done
            },
            Request::DeleteService { id, listen_port } => {
                self.balancer(id).services.retain(|s| s.listen_port != listen_port);
                Event::Done
            },
            Request::AddService { id, service } => {
                self.balancer(id).services.push(service);
                Event::Done
            },
            Request::RemoveTarget { id, ip } => {
                self.balancer(id).targets.retain(|t| t.ip.as_ref() != Some(&ip));
                Event::Done
            },
            Request::AddTarget { id, ip } => {
                self.balancer(id).targets.push(Target { ip: Some(ip) });
                Event::Done
            },
            Request::DeleteLoadBalancer { id } => {
                self.balancers.retain(|b| b.id != id);
                Event::Done
            },
            Request::PatchFinalizers { namespace, name, finalizers } => {
                assert_eq!(Some(namespace), self.service.namespace);
                assert_eq!(name, self.service.name);
                self.service.finalizers = finalizers;
                Event::Done
            },
            Request::ListPods { namespace, label_selector } => {
                assert_eq!(namespace, "n");
                Event::Pods(
                    self.pods
                        .iter()
                        .filter(|(selector, _)| *selector == label_selector)
                        .map(|(_, pod)| pod.clone())
                        .collect(),
                )
            },
            Request::ListNodes => Event::Nodes(self.nodes.clone()),
            Request::PatchStatus { namespace, name, ingress } => {
                assert_eq!(namespace, "n");
                assert_eq!(name, self.service.name);
                self.ingress = ingress;
                Event::Done
            },
        }
    }

    /// Reconciles the service once and tells how it ended. The log holds
    /// the calls of this reconciliation only.
    fn reconcile(&mut self, context: &CurrentContext) -> Result<Action, LBTrackerError> {
        self.log.clear();
        let service = self.service.clone();
        let mut state = Reconciling::Start;
        let mut event = Event::Start;
        for _ in 0..1000 {
            let (next, step) = reconcile_service(&service, context, state, event);
            state = next;
            match step {
                Step::Call(request) => event = self.perform(request),
                Step::Done(outcome) => {
                    assert_eq!(state, Reconciling::Finished);
                    return outcome;
                },
            }
        }
        panic!("the reconciliation does not end");
    }

    fn changes(&self) -> Vec<Request> {
        self.log.iter().filter(|r| r.changes_cloud()).cloned().collect()
    }
}

fn tcp_service(listen_port: i32, destination_port: i32, proxyprotocol: bool) -> BalancerService {
    BalancerService {
        listen_port,
        destination_port,
        protocol: ServiceProtocol::Tcp,
        proxyprotocol,
        http: false,
        health_check: HealthCheck {
            protocol: HealthCheckProtocol::Tcp,
            port: destination_port,
            interval: 15,
            retries: 3,
            timeout: 10,
        },
    }
}

fn addresses(balancer: &ObservedLoadBalancer) -> Vec<String> {
    let mut ips: Vec<String> = balancer.targets.iter().filter_map(|t| t.ip.clone()).collect();
    ips.sort();
    ips
}

#[test]
fn create_path() {
    let mut world = World::new();
    let context = context();
    let outcome = world.reconcile(&context);
    assert_eq!(outcome, Ok(Action::Requeue(30)));
    assert_eq!(world.balancers.len(), 1);
    let balancer = &world.balancers[0];
    assert_eq!(balancer.name, "svc1");
    assert_eq!(balancer.balancer_type, "lb11");
    assert_eq!(balancer.algorithm, LBAlgorithm::LeastConnections);
    assert_eq!(balancer.services, vec![tcp_service(80, 30080, false)]);
    assert_eq!(addresses(balancer), vec!["1.2.3.4".to_string(), "1.2.3.5".to_string()]);
    assert!(balancer.private_net.is_empty());
    assert_eq!(
        world.ingress,
        vec![Ingress {
            ip: "203.0.113.10".to_string(),
            dns: Some("lb.example.org".to_string()),
            ip_mode: "VIP".to_string(),
        }]
    );
    assert_eq!(world.service.finalizers, vec!["robotlb/finalizer".to_string()]);
    assert_eq!(
        world.log[0],
        Request::PatchFinalizers {
            namespace: "n".to_string(),
            name: "svc1".to_string(),
            finalizers: vec!["robotlb/finalizer".to_string()],
        }
    );
    assert!(world.log.contains(&Request::CreateLoadBalancer {
        name: "svc1".to_string(),
        algorithm: LBAlgorithm::LeastConnections,
        balancer_type: "lb11".to_string(),
        location: "hel1".to_string(),
        public_interface: true,
        services: vec![],
        targets: vec![],
        network: None,
    }));
}

#[test]
fn second_reconciliation_is_a_no_op() {
    let mut world = World::new();
    let context = context();
    assert_eq!(world.reconcile(&context), Ok(Action::Requeue(30)));
    let after_first = world.balancers.clone();
    assert_eq!(world.reconcile(&context), Ok(Action::Requeue(30)));
    assert_eq!(world.changes(), vec![]);
    assert_eq!(world.balancers, after_first);
    assert!(!world.log.iter().any(|r| matches!(r, Request::PatchFinalizers { .. })));
}

#[test]
fn scale_down_removes_the_target() {
    let mut world = World::new();
    let context = context();
    assert_eq!(world.reconcile(&context), Ok(Action::Requeue(30)));
    let id = world.balancers[0].id;
    world.pods = vec![pod_on("nodeA")];
    assert_eq!(world.reconcile(&context), Ok(Action::Requeue(30)));
    assert_eq!(world.changes(), vec![Request::RemoveTarget { id, ip: "1.2.3.5".to_string() }]);
    assert_eq!(addresses(&world.balancers[0]), vec!["1.2.3.4".to_string()]);
    assert_eq!(world.balancers[0].services, vec![tcp_service(80, 30080, false)]);
}

#[test]
fn algorithm_change_is_made_once() {
    let mut world = World::new();
    let context = context();
    assert_eq!(world.reconcile(&context), Ok(Action::Requeue(30)));
    let id = world.balancers[0].id;
    world.service.annotations.insert("robotlb/lb-algorithm".to_string(), "round-robin".to_string());
    assert_eq!(world.reconcile(&context), Ok(Action::Requeue(30)));
    assert_eq!(
        world.changes(),
        vec![Request::ChangeAlgorithm { id, algorithm: LBAlgorithm::RoundRobin }]
    );
    assert_eq!(world.balancers[0].algorithm, LBAlgorithm::RoundRobin);
    assert_eq!(world.reconcile(&context), Ok(Action::Requeue(30)));
    assert_eq!(world.changes(), vec![]);
}

#[test]
fn network_switch_detaches_then_attaches() {
    let mut world = World::new();
    let context = context();
    world.networks = vec![
        Network { id: 7, name: "net-a".to_string() },
        Network { id: 8, name: "net-b".to_string() },
    ];
    assert_eq!(world.reconcile(&context), Ok(Action::Requeue(30)));
    let id = world.balancers[0].id;
    world.balancers[0].private_net =
        vec![PrivateNet { network: Some(8), ip: Some("10.0.6.1".to_string()) }];
    world.service.annotations.insert("robotlb/lb-network".to_string(), "net-a".to_string());
    assert_eq!(world.reconcile(&context), Ok(Action::Requeue(30)));
    let network_calls: Vec<Request> = world
        .changes()
        .into_iter()
        .filter(|r| {
            matches!(r, Request::DetachFromNetwork { .. } | Request::AttachToNetwork { .. })
        })
        .collect();
    assert_eq!(
        network_calls,
        vec![
            Request::DetachFromNetwork { id, network: 8 },
            Request::AttachToNetwork { id, network: 7, ip: None },
        ]
    );
    assert_eq!(
        world.balancers[0].private_net,
        vec![PrivateNet { network: Some(7), ip: Some("10.9.9.9".to_string()) }]
    );
    // In a private network the targets are the nodes' internal addresses.
    assert_eq!(addresses(&world.balancers[0]), vec!["10.0.0.1".to_string(), "10.0.0.2".to_string()]);
    assert_eq!(world.reconcile(&context), Ok(Action::Requeue(30)));
    assert_eq!(world.changes(), vec![]);
}

#[test]
fn attachment_with_the_asked_address_is_left_alone() {
    let mut world = World::new();
    let context = context();
    world.networks = vec![Network { id: 7, name: "net-a".to_string() }];
    world.service.annotations.insert("robotlb/lb-network".to_string(), "net-a".to_string());
    world.service.annotations.insert("robotlb/lb-private-ip".to_string(), "10.0.5.7".to_string());
    assert_eq!(world.reconcile(&context), Ok(Action::Requeue(30)));
    let id = world.balancers[0].id;
    assert!(world.changes().contains(&Request::AttachToNetwork {
        id,
        network: 7,
        ip: Some("10.0.5.7".to_string()),
    }));
    assert_eq!(
        world.balancers[0].private_net,
        vec![PrivateNet { network: Some(7), ip: Some("10.0.5.7".to_string()) }]
    );
    assert_eq!(world.reconcile(&context), Ok(Action::Requeue(30)));
    assert_eq!(world.changes(), vec![]);
    // Another address on the right network is detached and attached anew.
    world.balancers[0].private_net[0].ip = Some("10.0.5.8".to_string());
    assert_eq!(world.reconcile(&context), Ok(Action::Requeue(30)));
    assert_eq!(
        world.changes(),
        vec![
            Request::DetachFromNetwork { id, network: 7 },
            Request::AttachToNetwork { id, network: 7, ip: Some("10.0.5.7".to_string()) },
        ]
    );
}

#[test]
fn deletion_takes_the_balancer_apart_then_unpins() {
    let mut world = World::new();
    let context = context();
    assert_eq!(world.reconcile(&context), Ok(Action::Requeue(30)));
    let id = world.balancers[0].id;
    world.service.finalizers.insert(0, "other/finalizer".to_string());
    world.service.deletion_requested = true;
    assert_eq!(world.reconcile(&context), Ok(Action::AwaitChange));
    assert_eq!(
        world.log,
        vec![
            Request::ListLoadBalancers { name: "svc1".to_string() },
            Request::DeleteService { id, listen_port: 80 },
            Request::RemoveTarget { id, ip: "1.2.3.4".to_string() },
            Request::RemoveTarget { id, ip: "1.2.3.5".to_string() },
            Request::DeleteLoadBalancer { id },
            Request::PatchFinalizers {
                namespace: "n".to_string(),
                name: "svc1".to_string(),
                finalizers: vec!["other/finalizer".to_string()],
            },
        ]
    );
    assert!(world.balancers.is_empty());
    assert_eq!(world.service.finalizers, vec!["other/finalizer".to_string()]);
}

#[test]
fn deletion_without_balancer_still_unpins() {
    let mut world = World::new();
    let context = context();
    world.service.finalizers = vec!["robotlb/finalizer".to_string()];
    world.service.deletion_requested = true;
    assert_eq!(world.reconcile(&context), Ok(Action::AwaitChange));
    assert_eq!(world.changes(), vec![]);
    assert_eq!(world.service.finalizers, Vec::<String>::new());
}

#[test]
fn failed_deletion_keeps_the_finalizer() {
    let mut world = World::new();
    let context = context();
    assert_eq!(world.reconcile(&context), Ok(Action::Requeue(30)));
    world.service.deletion_requested = true;
    world.fail_next_change = true;
    assert_eq!(
        world.reconcile(&context),
        Err(LBTrackerError::HCloudError("refused".to_string()))
    );
    assert_eq!(world.log.len(), 2);
    assert_eq!(world.service.finalizers, vec!["robotlb/finalizer".to_string()]);
    assert_eq!(world.balancers.len(), 1);
}

#[test]
fn two_balancers_of_one_name_are_skipped() {
    let mut world = World::new();
    let context = context();
    assert_eq!(world.reconcile(&context), Ok(Action::Requeue(30)));
    let mut twin = world.balancers[0].clone();
    twin.id = 99;
    twin.targets.clear();
    world.balancers.push(twin);
    let before = world.balancers.clone();
    assert_eq!(world.reconcile(&context), Err(LBTrackerError::SkipService));
    assert_eq!(world.changes(), vec![]);
    assert_eq!(world.balancers, before);
    assert_eq!(
        world.log.last(),
        Some(&Request::ListLoadBalancers { name: "svc1".to_string() })
    );
}

#[test]
fn service_of_another_type_is_skipped_without_a_call() {
    let mut world = World::new();
    let context = context();
    world.service.service_type = Some("ClusterIP".to_string());
    assert_eq!(world.reconcile(&context), Err(LBTrackerError::SkipService));
    assert!(world.log.is_empty());
    world.service.service_type = None;
    assert_eq!(world.reconcile(&context), Err(LBTrackerError::SkipService));
    assert!(world.log.is_empty());
}

#[test]
fn first_failure_ends_the_pass() {
    let mut world = World::new();
    let context = context();
    assert_eq!(world.reconcile(&context), Ok(Action::Requeue(30)));
    world.service.annotations.insert("robotlb/lb-algorithm".to_string(), "round-robin".to_string());
    world.service.annotations.insert("robotlb/balancer-type".to_string(), "lb21".to_string());
    world.fail_next_change = true;
    assert_eq!(
        world.reconcile(&context),
        Err(LBTrackerError::HCloudError("refused".to_string()))
    );
    assert_eq!(world.changes().len(), 1);
    assert_eq!(world.balancers[0].balancer_type, "lb11");
    // The next reconciliation makes up for it.
    assert_eq!(world.reconcile(&context), Ok(Action::Requeue(30)));
    assert_eq!(world.balancers[0].algorithm, LBAlgorithm::RoundRobin);
    assert_eq!(world.balancers[0].balancer_type, "lb21");
}

#[test]
fn pass_converges_from_a_foreign_state() {
    let mut world = World::new();
    let context = context();
    world.networks = vec![Network { id: 7, name: "net-a".to_string() }];
    let mut stale = tcp_service(80, 30080, true);
    stale.health_check.interval = 99;
    world.balancers = vec![ObservedLoadBalancer {
        id: 5,
        name: "svc1".to_string(),
        algorithm: LBAlgorithm::RoundRobin,
        balancer_type: "lb31".to_string(),
        services: vec![tcp_service(443, 30443, false), stale, tcp_service(8080, 1, false)],
        targets: vec![
            Target { ip: Some("9.9.9.9".to_string()) },
            Target { ip: None },
            Target { ip: Some("1.2.3.5".to_string()) },
        ],
        private_net: vec![
            PrivateNet { network: Some(7), ip: Some("10.0.5.1".to_string()) },
            PrivateNet { network: None, ip: None },
        ],
        ipv4: PublicAddress { ip: None, dns_ptr: None },
        ipv6: PublicAddress { ip: Some("2001:db8::5".to_string()), dns_ptr: None },
    }];
    assert_eq!(world.reconcile(&context), Ok(Action::Requeue(30)));
    assert_eq!(
        world.changes(),
        vec![
            Request::ChangeAlgorithm { id: 5, algorithm: LBAlgorithm::LeastConnections },
            Request::ChangeType { id: 5, balancer_type: "lb11".to_string() },
            Request::DetachFromNetwork { id: 5, network: 7 },
            Request::DeleteService { id: 5, listen_port: 443 },
            Request::UpdateService { id: 5, service: tcp_service(80, 30080, false) },
            Request::DeleteService { id: 5, listen_port: 8080 },
            Request::RemoveTarget { id: 5, ip: "9.9.9.9".to_string() },
            Request::AddTarget { id: 5, ip: "1.2.3.4".to_string() },
        ]
    );
    let balancer = &world.balancers[0];
    assert_eq!(balancer.services, vec![tcp_service(80, 30080, false)]);
    assert_eq!(addresses(balancer), vec!["1.2.3.4".to_string(), "1.2.3.5".to_string()]);
    assert_eq!(balancer.private_net, vec![PrivateNet { network: None, ip: None }]);
    // Without an IPv4 address there is no ingress to publish.
    assert!(world.ingress.is_empty());
    assert!(!world.log.iter().any(|r| matches!(r, Request::PatchStatus { .. })));
    assert_eq!(world.reconcile(&context), Ok(Action::Requeue(30)));
    assert_eq!(world.changes(), vec![]);
}

#[test]
fn ipv6_ingress_is_published_when_switched_on() {
    let mut world = World::new();
    let mut config = OperatorConfig::with_defaults("token".to_string());
    config.ipv6_ingress = true;
    let context = CurrentContext::new("default".to_string(), config);
    assert_eq!(world.reconcile(&context), Ok(Action::Requeue(30)));
    assert_eq!(
        world.ingress,
        vec![
            Ingress {
                ip: "203.0.113.10".to_string(),
                dns: Some("lb.example.org".to_string()),
                ip_mode: "VIP".to_string(),
            },
            Ingress { ip: "2001:db8::10".to_string(), dns: None, ip_mode: "VIP".to_string() },
        ]
    );
}

#[test]
fn static_selector_picks_nodes_by_label() {
    let mut world = World::new();
    let mut config = OperatorConfig::with_defaults("token".to_string());
    config.dynamic_node_selector = false;
    let context = CurrentContext::new("default".to_string(), config);
    assert_eq!(world.reconcile(&context), Err(LBTrackerError::ServiceWithoutSelector));
    world.service.annotations.insert(
        "robotlb/node-selector".to_string(),
        "kubernetes.io/hostname!=nodeB,!spot".to_string(),
    );
    assert_eq!(world.reconcile(&context), Ok(Action::Requeue(30)));
    assert!(!world.log.iter().any(|r| matches!(r, Request::ListPods { .. })));
    assert_eq!(addresses(&world.balancers[0]), vec!["1.2.3.4".to_string(), "1.2.3.6".to_string()]);
    world.service.annotations.insert("robotlb/node-selector".to_string(), "a=b=c".to_string());
    assert_eq!(
        world.reconcile(&context),
        Err(LBTrackerError::InvalidNodeFilter("a=b=c".to_string()))
    );
}

#[test]
fn service_without_selector_has_no_pods_to_track() {
    let mut world = World::new();
    let context = context();
    world.service.selector = None;
    assert_eq!(world.reconcile(&context), Err(LBTrackerError::ServiceWithoutSelector));
    world.service.selector = Some(StringMap::new());
    assert_eq!(world.reconcile(&context), Err(LBTrackerError::ServiceWithoutSelector));
    assert!(world.balancers.is_empty());
}

#[test]
fn service_without_namespace_is_skipped_when_pinning() {
    let mut world = World::new();
    let context = context();
    world.service.namespace = None;
    assert_eq!(world.reconcile(&context), Err(LBTrackerError::SkipService));
    assert!(world.log.is_empty());
}

#[test]
fn ports_without_node_port_or_tcp_are_left_out() {
    let mut world = World::new();
    let context = context();
    world.service.ports = vec![
        ServicePort { port: 53, node_port: Some(30053), protocol: Some("UDP".to_string()) },
        ServicePort { port: 443, node_port: None, protocol: Some("TCP".to_string()) },
        ServicePort { port: 8443, node_port: Some(30443), protocol: None },
        ServicePort { port: 80, node_port: Some(30080), protocol: Some("TCP".to_string()) },
    ];
    assert_eq!(world.reconcile(&context), Ok(Action::Requeue(30)));
    assert_eq!(
        world.balancers[0].services,
        vec![tcp_service(80, 30080, false), tcp_service(8443, 30443, false)]
    );
}

#[test]
fn failed_creation_is_reported_with_its_cause() {
    let service = web_service();
    let context = context();
    let mut state = Reconciling::Start;
    let mut event = Event::Start;
    let mut asked = vec![];
    let outcome = loop {
        let (next, step) = reconcile_service(&service, &context, state, event);
        state = next;
        match step {
            Step::Call(request) => {
                event = match &request {
                    Request::PatchFinalizers { .. } => Event::Done,
                    Request::ListPods { .. } => Event::Pods(vec![]),
                    Request::ListNodes => Event::Nodes(vec![]),
                    Request::ListLoadBalancers { .. } => Event::LoadBalancers(vec![]),
                    Request::CreateLoadBalancer { .. } => Event::Failed(
                        LBTrackerError::HcloudLBCreateError("quota exceeded".to_string()),
                    ),
                    other => panic!("unexpected call {:?}", other),
                };
                asked.push(request);
            },
            Step::Done(outcome) => break outcome,
        }
    };
    assert_eq!(
        outcome,
        Err(LBTrackerError::HCloudError(
            "Failed to create load balancer: quota exceeded".to_string()
        ))
    );
    assert_eq!(asked.len(), 5);
}

#[test]
fn answer_that_does_not_fit_ends_the_reconciliation() {
    let service = web_service();
    let context = context();
    let (state, step) = reconcile_service(&service, &context, Reconciling::Start, Event::Start);
    assert!(matches!(step, Step::Call(Request::PatchFinalizers { .. })));
    let (state, step) = reconcile_service(&service, &context, state, Event::Nodes(vec![]));
    assert_eq!(state, Reconciling::Finished);
    assert_eq!(step, Step::Done(Err(LBTrackerError::UnexpectedEvent)));
    let (_, step) = reconcile_service(&service, &context, state, Event::Done);
    assert_eq!(step, Step::Done(Err(LBTrackerError::UnexpectedEvent)));
    let (_, step) = reconcile_service(&service, &context, Reconciling::Start, Event::Done);
    assert_eq!(step, Step::Done(Err(LBTrackerError::UnexpectedEvent)));
}

#[test]
fn missing_or_ambiguous_network_is_an_error() {
    let mut world = World::new();
    let context = context();
    world.service.annotations.insert("robotlb/lb-network".to_string(), "net-a".to_string());
    assert_eq!(
        world.reconcile(&context),
        Err(LBTrackerError::HCloudError("Network with name net-a not found".to_string()))
    );
    world.networks = vec![
        Network { id: 7, name: "net-a".to_string() },
        Network { id: 9, name: "net-a".to_string() },
    ];
    assert_eq!(
        world.reconcile(&context),
        Err(LBTrackerError::HCloudError(
            "Found more than one network with name net-a".to_string()
        ))
    );
}
