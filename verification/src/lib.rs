//! Reconciliation engine that keeps Hetzner Cloud load balancers in step with
//! Kubernetes services of type `LoadBalancer`.

pub mod calls;
pub mod cloud;
pub mod cluster;
pub mod config;
pub mod consts;
pub mod controller;
pub mod convergence;
pub mod error;
pub mod finalizers;
pub mod label_filter;
pub mod lb;
pub mod pass;
pub mod ports;
pub mod runs;
pub mod text;

pub use controller::{
    on_error, reconcile_load_balancer, reconcile_service, Action, CurrentContext,
};
