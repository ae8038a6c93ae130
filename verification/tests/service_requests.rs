use teex_core::services::{
    plan_service_request, ServiceAction, ServicePlan, ServiceRequest, ServiceRequestCapture,
};

fn s(x: &str) -> String {
    x.to_string()
}

fn request(action: ServiceAction, path: &str) -> ServiceRequest {
    ServiceRequest { action, path: s(path) }
}

#[test]
fn captured_service_requests_are_taken_exactly_once() {
    let mut capture = ServiceRequestCapture::new();
    capture.push_request(request(ServiceAction::NewFileTabHere, "/work/a.md"));
    capture.push_request(request(ServiceAction::NewWindowHere, "/work/project"));

    let taken = capture.take_requests();
    assert_eq!(taken.len(), 2);
    assert_eq!(taken[0].action, ServiceAction::NewFileTabHere);
    assert_eq!(taken[0].path, "/work/a.md");
    assert_eq!(taken[1].action, ServiceAction::NewWindowHere);
    assert_eq!(taken[1].path, "/work/project");
    assert!(capture.take_requests().is_empty());
}

#[test]
fn new_tab_requests_go_to_the_target_or_the_global_queue() {
    match plan_service_request(
        request(ServiceAction::NewFileTabHere, "/work/a.md"),
        Some(s("teex-window-1")),
    ) {
        ServicePlan::EmitOpenFileTo { label, path } => {
            assert_eq!(label, "teex-window-1");
            assert_eq!(path, "/work/a.md");
        }
        other => panic!("expected an emit plan, got {:?}", other),
    }

    match plan_service_request(request(ServiceAction::NewFileTabHere, "/work/a.md"), None) {
        ServicePlan::QueueGlobally { path } => assert_eq!(path, "/work/a.md"),
        other => panic!("expected a queue plan, got {:?}", other),
    }

    match plan_service_request(
        request(ServiceAction::NewWindowHere, "/work/project"),
        Some(s("teex-window-1")),
    ) {
        ServicePlan::OpenInNewWindow { path } => assert_eq!(path, "/work/project"),
        other => panic!("expected a new-window plan, got {:?}", other),
    }
}
