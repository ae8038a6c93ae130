use vstd::prelude::*;

verus! {

/// What a system-services invocation asked the editor to do with a path.
#[derive(Clone, Copy, Debug, PartialEq, Eq, Structural)]
pub enum ServiceAction {
    /// Open the file as a tab in the current window.
    NewFileTabHere,
    /// Open the file or folder in a new window.
    NewWindowHere,
}

/// One captured services invocation: the action and the path it selected.
#[derive(Debug)]
pub struct ServiceRequest {
    pub action: ServiceAction,
    pub path: String,
}

/// The store where the system-services shim parks requests until the
/// runtime's main loop collects them. The shim only appends; the runtime
/// drains.
#[derive(Debug)]
pub struct ServiceRequestCapture {
    pub captured: Vec<ServiceRequest>,
}

impl ServiceRequestCapture {
    /// An empty store.
    pub fn new() -> (r: Self)
        ensures
            r.captured@ =~= Seq::<ServiceRequest>::empty(),
    {
        ServiceRequestCapture { captured: Vec::new() }
    }

    /// Park one request delivered by the services shim.
    pub fn push_request(&mut self, request: ServiceRequest)
        ensures
            final(self).captured@ == old(self).captured@.push(request),
    {
        self.captured.push(request);
    }

    /// Drain every captured request, in arrival order. Each request is
    /// handed out exactly once: the store is empty afterwards.
    pub fn take_requests(&mut self) -> (r: Vec<ServiceRequest>)
        ensures
            r@ == old(self).captured@,
            final(self).captured@ =~= Seq::<ServiceRequest>::empty(),
    {
        let mut drained: Vec<ServiceRequest> = Vec::new();
        drained.append(&mut self.captured);
        drained
    }
}

/// How one service request is delivered.
#[derive(Debug)]
pub enum ServicePlan {
    /// Emit the file-selected event for this path to the target window.
    EmitOpenFileTo { label: String, path: String },
    /// No window can take it now: queue the path globally, for the first
    /// window that drains.
    QueueGlobally { path: String },
    /// Open the path in a freshly created window.
    OpenInNewWindow { path: String },
}

/// Decide where one service request goes, given the already-resolved
/// target window. A new-tab request goes to the target window, or into the
/// global pending queue when no window is live; a new-window request always
/// opens its own window.
pub fn plan_service_request(request: ServiceRequest, target: Option<String>) -> (r: ServicePlan)
    ensures
        ({
            let t = target.deep_view();
            match request.action {
                ServiceAction::NewFileTabHere => match r {
                    ServicePlan::EmitOpenFileTo { label, path } => t == Some(label@) && path
                        == request.path,
                    ServicePlan::QueueGlobally { path } => t is None && path == request.path,
                    _ => false,
                },
                ServiceAction::NewWindowHere => match r {
                    ServicePlan::OpenInNewWindow { path } => path == request.path,
                    _ => false,
                },
            }
        }),
{
    match request.action {
        ServiceAction::NewFileTabHere => match target {
            Some(label) => ServicePlan::EmitOpenFileTo { label, path: request.path },
            None => ServicePlan::QueueGlobally { path: request.path },
        },
        ServiceAction::NewWindowHere => ServicePlan::OpenInNewWindow { path: request.path },
    }
}

} // verus!
