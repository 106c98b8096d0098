//! The calls the engine asks its driver to make, to Kubernetes and to Hetzner
//! Cloud. The engine only decides; whoever drives it performs each call and
//! hands the answer back.

use crate::cloud::{
    BalancerService, BalancerView, LBAlgorithm, Network, NetworkView, ObservedLoadBalancer,
};
use crate::cluster::{Node, NodeView, Pod, PodView};
use crate::error::{ErrorView, LBTrackerError};
use vstd::prelude::*;

verus! {

/// One entry of a service's `status.loadBalancer.ingress`.
#[derive(Clone, Debug, PartialEq, Eq)]
pub struct Ingress {
    pub ip: String,
    pub dns: Option<String>,
    pub ip_mode: String,
}

/// [`Ingress`] as contracts speak of it: a plain value with texts as character sequences.
pub struct IngressView {
    pub ip: Seq<char>,
    pub dns: Option<Seq<char>>,
    pub ip_mode: Seq<char>,
}

impl DeepView for Ingress {
    type V = IngressView;

    open spec fn deep_view(&self) -> IngressView {
        IngressView { ip: self.ip@, dns: self.dns.deep_view(), ip_mode: self.ip_mode@ }
    }
}

/// A call to make. Load balancers are looked up by name and changed by id.
#[derive(Clone, Debug, PartialEq, Eq)]
#[allow(inconsistent_fields)]
pub enum Request {
    /// List the load balancers that have exactly this name.
    ListLoadBalancers { name: String },
    /// Create a load balancer. `targets` are addresses; `network` is the
    /// private network to attach it to from the start, if any.
    CreateLoadBalancer {
        name: String,
        algorithm: LBAlgorithm,
        balancer_type: String,
        location: String,
        public_interface: bool,
        services: Vec<BalancerService>,
        targets: Vec<String>,
        network: Option<i64>,
    },
    ChangeAlgorithm { id: i64, algorithm: LBAlgorithm },
    ChangeType { id: i64, balancer_type: String },
    /// List the private networks that have exactly this name.
    ListNetworks { name: String },
    DetachFromNetwork { id: i64, network: i64 },
    AttachToNetwork { id: i64, network: i64, ip: Option<String> },
    /// Bring the service that listens on `service.listen_port` to `service`.
    UpdateService { id: i64, service: BalancerService },
    DeleteService { id: i64, listen_port: i32 },
    AddService { id: i64, service: BalancerService },
    /// Remove the target with this address.
    RemoveTarget { id: i64, ip: String },
    /// Add a target by address.
    AddTarget { id: i64, ip: String },
    DeleteLoadBalancer { id: i64 },
    /// Merge-patch `metadata.finalizers` of the service to this list.
    PatchFinalizers { namespace: String, name: String, finalizers: Vec<String> },
    /// List the pods of a namespace that match a label selector.
    ListPods { namespace: String, label_selector: String },
    /// List all nodes of the cluster.
    ListNodes,
    /// Merge-patch `status.loadBalancer.ingress` of the service to this list.
    PatchStatus { namespace: String, name: String, ingress: Vec<Ingress> },
}

/// [`Request`] as contracts speak of it: a plain value with texts as character sequences.
#[allow(inconsistent_fields)]
pub enum RequestView {
    ListLoadBalancers { name: Seq<char> },
    CreateLoadBalancer {
        name: Seq<char>,
        algorithm: LBAlgorithm,
        balancer_type: Seq<char>,
        location: Seq<char>,
        public_interface: bool,
        services: Seq<BalancerService>,
        targets: Seq<Seq<char>>,
        network: Option<i64>,
    },
    ChangeAlgorithm { id: i64, algorithm: LBAlgorithm },
    ChangeType { id: i64, balancer_type: Seq<char> },
    ListNetworks { name: Seq<char> },
    DetachFromNetwork { id: i64, network: i64 },
    AttachToNetwork { id: i64, network: i64, ip: Option<Seq<char>> },
    UpdateService { id: i64, service: BalancerService },
    DeleteService { id: i64, listen_port: i32 },
    AddService { id: i64, service: BalancerService },
    RemoveTarget { id: i64, ip: Seq<char> },
    AddTarget { id: i64, ip: Seq<char> },
    DeleteLoadBalancer { id: i64 },
    PatchFinalizers { namespace: Seq<char>, name: Seq<char>, finalizers: Seq<Seq<char>> },
    ListPods { namespace: Seq<char>, label_selector: Seq<char> },
    ListNodes,
    PatchStatus { namespace: Seq<char>, name: Seq<char>, ingress: Seq<IngressView> },
}

impl DeepView for Request {
    type V = RequestView;

    open spec fn deep_view(&self) -> RequestView {
        match self {
            Request::ListLoadBalancers { name } => RequestView::ListLoadBalancers { name: name@ },
            Request::CreateLoadBalancer {
                name,
                algorithm,
                balancer_type,
                location,
                public_interface,
                services,
                targets,
                network,
            } => {
                RequestView::CreateLoadBalancer {
                    name: name@,
                    algorithm: *algorithm,
                    balancer_type: balancer_type@,
                    location: location@,
                    public_interface: *public_interface,
                    services: services@,
                    targets: targets.deep_view(),
                    network: *network,
                }
            },
            Request::ChangeAlgorithm { id, algorithm } => RequestView::ChangeAlgorithm {
                id: *id,
                algorithm: *algorithm,
            },
            Request::ChangeType { id, balancer_type } => RequestView::ChangeType {
                id: *id,
                balancer_type: balancer_type@,
            },
            Request::ListNetworks { name } => RequestView::ListNetworks { name: name@ },
            Request::DetachFromNetwork { id, network } => RequestView::DetachFromNetwork {
                id: *id,
                network: *network,
            },
            Request::AttachToNetwork { id, network, ip } => RequestView::AttachToNetwork {
                id: *id,
                network: *network,
                ip: ip.deep_view(),
            },
            Request::UpdateService { id, service } => RequestView::UpdateService {
                id: *id,
                service: *service,
            },
            Request::DeleteService { id, listen_port } => RequestView::DeleteService {
                id: *id,
                listen_port: *listen_port,
            },
            Request::AddService { id, service } => RequestView::AddService {
                id: *id,
                service: *service,
            },
            Request::RemoveTarget { id, ip } => RequestView::RemoveTarget { id: *id, ip: ip@ },
            Request::AddTarget { id, ip } => RequestView::AddTarget { id: *id, ip: ip@ },
            Request::DeleteLoadBalancer { id } => RequestView::DeleteLoadBalancer { id: *id },
            Request::PatchFinalizers { namespace, name, finalizers } => {
                RequestView::PatchFinalizers {
                    namespace: namespace@,
                    name: name@,
                    finalizers: finalizers.deep_view(),
                }
            },
            Request::ListPods { namespace, label_selector } => RequestView::ListPods {
                namespace: namespace@,
                label_selector: label_selector@,
            },
            Request::ListNodes => RequestView::ListNodes,
            Request::PatchStatus { namespace, name, ingress } => RequestView::PatchStatus {
                namespace: namespace@,
                name: name@,
                ingress: ingress.deep_view(),
            },
        }
    }
}

impl RequestView {
    /// Whether the call changes anything at Hetzner Cloud.
    pub open spec fn changes_cloud(self) -> bool {
        match self {
            RequestView::CreateLoadBalancer { .. } => true,
            RequestView::ChangeAlgorithm { .. } => true,
            RequestView::ChangeType { .. } => true,
            RequestView::DetachFromNetwork { .. } => true,
            RequestView::AttachToNetwork { .. } => true,
            RequestView::UpdateService { .. } => true,
            RequestView::DeleteService { .. } => true,
            RequestView::AddService { .. } => true,
            RequestView::RemoveTarget { .. } => true,
            RequestView::AddTarget { .. } => true,
            RequestView::DeleteLoadBalancer { .. } => true,
            _ => false,
        }
    }
}

impl Request {
    /// Whether the call changes anything at Hetzner Cloud.
    pub fn changes_cloud(&self) -> (changes: bool)
        ensures
            changes == self.deep_view().changes_cloud(),
    {
        match self {
            Request::CreateLoadBalancer { .. } => true,
            Request::ChangeAlgorithm { .. } => true,
            Request::ChangeType { .. } => true,
            Request::DetachFromNetwork { .. } => true,
            Request::AttachToNetwork { .. } => true,
            Request::UpdateService { .. } => true,
            Request::DeleteService { .. } => true,
            Request::AddService { .. } => true,
            Request::RemoveTarget { .. } => true,
            Request::AddTarget { .. } => true,
            Request::DeleteLoadBalancer { .. } => true,
            _ => false,
        }
    }
}


/// What the driver hands to the engine: the start signal, or the answer to
/// the call that the engine asked for last.
#[derive(Debug, PartialEq, Eq)]
pub enum Event {
    /// Nothing has been asked for yet.
    Start,
    /// The call went through; it has nothing to report.
    Done,
    /// The pods that were asked for.
    Pods(Vec<Pod>),
    /// The nodes of the cluster.
    Nodes(Vec<Node>),
    /// The load balancers that have the name asked for.
    LoadBalancers(Vec<ObservedLoadBalancer>),
    /// The load balancer that was created.
    Created(ObservedLoadBalancer),
    /// The networks that have the name asked for.
    Networks(Vec<Network>),
    /// The call failed.
    Failed(LBTrackerError),
}

/// [`Event`] as contracts speak of it: a plain value with texts as character sequences.
pub enum EventView {
    Start,
    Done,
    Pods(Seq<PodView>),
    Nodes(Seq<NodeView>),
    LoadBalancers(Seq<BalancerView>),
    Created(BalancerView),
    Networks(Seq<NetworkView>),
    Failed(ErrorView),
}

impl DeepView for Event {
    type V = EventView;

    open spec fn deep_view(&self) -> EventView {
        match self {
            Event::Start => EventView::Start,
            Event::Done => EventView::Done,
            Event::Pods(pods) => EventView::Pods(pods.deep_view()),
            Event::Nodes(nodes) => EventView::Nodes(nodes.deep_view()),
            Event::LoadBalancers(found) => EventView::LoadBalancers(found.deep_view()),
            Event::Created(balancer) => EventView::Created(balancer.deep_view()),
            Event::Networks(found) => EventView::Networks(found.deep_view()),
            Event::Failed(error) => EventView::Failed(error.deep_view()),
        }
    }
}

/// What the engine answers: the next call to make, or the end of the work
/// with its outcome.
#[derive(Debug, PartialEq, Eq)]
pub enum Step<T> {
    Call(Request),
    Done(Result<T, LBTrackerError>),
}

/// [`Step`] as contracts speak of it: a plain value with texts as character sequences.
pub enum StepView<V> {
    Call(RequestView),
    Done(Result<V, ErrorView>),
}

impl<T: DeepView> DeepView for Step<T> {
    type V = StepView<T::V>;

    open spec fn deep_view(&self) -> StepView<T::V> {
        match self {
            Step::Call(request) => StepView::Call(request.deep_view()),
            Step::Done(Ok(outcome)) => StepView::Done(Ok(outcome.deep_view())),
            Step::Done(Err(error)) => StepView::Done(Err(error.deep_view())),
        }
    }
}

} // verus!
