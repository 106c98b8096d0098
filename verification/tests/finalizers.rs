use robotlb::calls::Request;
use robotlb::cluster::{Service, StringMap};
use robotlb::consts::FINALIZER_NAME;
use robotlb::error::LBTrackerError;
use robotlb::finalizers;

fn service_with(finalizers: &[&str]) -> Service {
    Service {
        name: "web".to_string(),
        namespace: Some("prod".to_string()),
        service_type: Some("LoadBalancer".to_string()),
        annotations: StringMap::new(),
        finalizers: finalizers.iter().map(|f| f.to_string()).collect(),
        deletion_requested: false,
        selector: None,
        ports: vec![],
    }
}

fn patched(mut service: Service, patch: Request) -> Service {
    match patch {
        Request::PatchFinalizers { namespace, name, finalizers } => {
            assert_eq!(Some(namespace), service.namespace);
            assert_eq!(name, service.name);
            service.finalizers = finalizers;
            service
        },
        other => panic!("not a patch of finalizers: {:?}", other),
    }
}

#[test]
fn finalizer_name() {
    assert_eq!(FINALIZER_NAME, "robotlb/finalizer");
}

#[test]
fn add_patches_to_the_finalizer_alone() {
    assert_eq!(
        finalizers::add(&service_with(&["other/finalizer"])),
        Ok(Request::PatchFinalizers {
            namespace: "prod".to_string(),
            name: "web".to_string(),
            finalizers: vec!["robotlb/finalizer".to_string()],
        })
    );
}

#[test]
fn check_looks_for_the_finalizer() {
    assert!(!finalizers::check(&service_with(&[])));
    assert!(!finalizers::check(&service_with(&["other/finalizer", "robotlb/finalizers"])));
    assert!(finalizers::check(&service_with(&["other/finalizer", "robotlb/finalizer"])));
}

#[test]
fn remove_keeps_the_other_finalizers_in_order() {
    let service = service_with(&["b", "robotlb/finalizer", "a", "robotlb/finalizer", "c"]);
    assert_eq!(
        finalizers::remove(&service),
        Ok(Request::PatchFinalizers {
            namespace: "prod".to_string(),
            name: "web".to_string(),
            finalizers: vec!["b".to_string(), "a".to_string(), "c".to_string()],
        })
    );
}

#[test]
fn remove_is_idempotent() {
    let service = service_with(&["a", "robotlb/finalizer"]);
    let once = patched(service.clone(), finalizers::remove(&service).unwrap());
    assert_eq!(once.finalizers, vec!["a".to_string()]);
    let twice = patched(once.clone(), finalizers::remove(&once).unwrap());
    assert_eq!(twice, once);
}

#[test]
fn add_then_remove_round_trip() {
    let service = service_with(&[]);
    let with = patched(service.clone(), finalizers::add(&service).unwrap());
    assert!(finalizers::check(&with));
    let again = patched(with.clone(), finalizers::remove(&with).unwrap());
    assert!(!finalizers::check(&again));
    assert_eq!(again, service);
}

#[test]
fn service_without_namespace_is_skipped() {
    let mut service = service_with(&["robotlb/finalizer"]);
    service.namespace = None;
    assert_eq!(finalizers::add(&service), Err(LBTrackerError::SkipService));
    assert_eq!(finalizers::remove(&service), Err(LBTrackerError::SkipService));
}
