//! The failures a reconciliation can end in.

use vstd::prelude::*;

verus! {

pub type LBTrackerResult<T> = Result<T, LBTrackerError>;

/// Why a reconciliation stopped. `SkipService` is no failure: the service is
/// not this controller's business and is left alone until it changes. The
/// variants that carry a text hold what the failed call reported.
#[derive(Debug, PartialEq, Eq)]
pub enum LBTrackerError {
    InvalidNodeFilter(String),
    UnsupportedServiceType,
    SkipService,
    PaseIntError(std::num::ParseIntError),
    PaseBoolError(std::str::ParseBoolError),
    HCloudError(String),
    KubeError(String),
    UnknownLBAlgorithm,
    ServiceWithoutSelector,
    HCloudLBAttachToNetworkError(String),
    HcloudLBDetachFromNetworkError(String),
    HcloudLBAddTargetError(String),
    HcloudLBRemoveTargetError(String),
    HcloudLBAddServiceError(String),
    HcloudLBRemoveServiceError(String),
    HcloudLBCreateError(String),
    HcloudLBDeleteError(String),
    HcloudLBGetError(String),
    HcloudLBUpdateServiceError(String),
    HcloudLBChangeType(String),
    HcloudLBChangeAlgorithm(String),
    HcloudListNetworksError(String),
    HcloudListLoadBalancersError(String),
    /// The driver handed over an event that does not answer the call that was
    /// last asked for.
    UnexpectedEvent,
}

/// An error with its texts as character sequences. Of a number or a boolean
/// that could not be read, only the fact is kept.
pub enum ErrorView {
    InvalidNodeFilter(Seq<char>),
    UnsupportedServiceType,
    SkipService,
    PaseIntError,
    PaseBoolError,
    HCloudError(Seq<char>),
    KubeError(Seq<char>),
    UnknownLBAlgorithm,
    ServiceWithoutSelector,
    HCloudLBAttachToNetworkError(Seq<char>),
    HcloudLBDetachFromNetworkError(Seq<char>),
    HcloudLBAddTargetError(Seq<char>),
    HcloudLBRemoveTargetError(Seq<char>),
    HcloudLBAddServiceError(Seq<char>),
    HcloudLBRemoveServiceError(Seq<char>),
    HcloudLBCreateError(Seq<char>),
    HcloudLBDeleteError(Seq<char>),
    HcloudLBGetError(Seq<char>),
    HcloudLBUpdateServiceError(Seq<char>),
    HcloudLBChangeType(Seq<char>),
    HcloudLBChangeAlgorithm(Seq<char>),
    HcloudListNetworksError(Seq<char>),
    HcloudListLoadBalancersError(Seq<char>),
    UnexpectedEvent,
}

impl DeepView for LBTrackerError {
    type V = ErrorView;

    open spec fn deep_view(&self) -> ErrorView {
        match self {
            LBTrackerError::InvalidNodeFilter(t) => ErrorView::InvalidNodeFilter(t@),
            LBTrackerError::UnsupportedServiceType => ErrorView::UnsupportedServiceType,
            LBTrackerError::SkipService => ErrorView::SkipService,
            LBTrackerError::PaseIntError(_) => ErrorView::PaseIntError,
            LBTrackerError::PaseBoolError(_) => ErrorView::PaseBoolError,
            LBTrackerError::HCloudError(t) => ErrorView::HCloudError(t@),
            LBTrackerError::KubeError(t) => ErrorView::KubeError(t@),
            LBTrackerError::UnknownLBAlgorithm => ErrorView::UnknownLBAlgorithm,
            LBTrackerError::ServiceWithoutSelector => ErrorView::ServiceWithoutSelector,
            LBTrackerError::HCloudLBAttachToNetworkError(t) => ErrorView::HCloudLBAttachToNetworkError(t@),
            LBTrackerError::HcloudLBDetachFromNetworkError(t) => ErrorView::HcloudLBDetachFromNetworkError(t@),
            LBTrackerError::HcloudLBAddTargetError(t) => ErrorView::HcloudLBAddTargetError(t@),
            LBTrackerError::HcloudLBRemoveTargetError(t) => ErrorView::HcloudLBRemoveTargetError(t@),
            LBTrackerError::HcloudLBAddServiceError(t) => ErrorView::HcloudLBAddServiceError(t@),
            LBTrackerError::HcloudLBRemoveServiceError(t) => ErrorView::HcloudLBRemoveServiceError(t@),
            LBTrackerError::HcloudLBCreateError(t) => ErrorView::HcloudLBCreateError(t@),
            LBTrackerError::HcloudLBDeleteError(t) => ErrorView::HcloudLBDeleteError(t@),
            LBTrackerError::HcloudLBGetError(t) => ErrorView::HcloudLBGetError(t@),
            LBTrackerError::HcloudLBUpdateServiceError(t) => ErrorView::HcloudLBUpdateServiceError(t@),
            LBTrackerError::HcloudLBChangeType(t) => ErrorView::HcloudLBChangeType(t@),
            LBTrackerError::HcloudLBChangeAlgorithm(t) => ErrorView::HcloudLBChangeAlgorithm(t@),
            LBTrackerError::HcloudListNetworksError(t) => ErrorView::HcloudListNetworksError(t@),
            LBTrackerError::HcloudListLoadBalancersError(t) => ErrorView::HcloudListLoadBalancersError(t@),
            LBTrackerError::UnexpectedEvent => ErrorView::UnexpectedEvent,
        }
    }
}

} // verus!
