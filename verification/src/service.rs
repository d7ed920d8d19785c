//! Decisions of the Windows service wrapper: control requests and the
//! service registration command line.
use vstd::prelude::*;
use vstd::string::StringExecFns;

verus! {

/// The service control requests the agent tells apart.
#[derive(Clone, Copy, Debug, PartialEq, Eq)]
pub enum ControlRequest {
    Stop,
    Shutdown,
    Interrogate,
    /// Any other request.
    Other,
}

/// The answer to the service control manager.
#[derive(Clone, Copy, Debug, PartialEq, Eq)]
pub enum ControlReply {
    NoError,
    NotImplemented,
}

/// How the agent answers a control request, and whether it must stop:
/// stop and shutdown request a stop, interrogate is acknowledged, anything
/// else is not implemented.
pub fn handle_control(request: ControlRequest) -> (r: (bool, ControlReply))
    ensures
        r.0 == (request == ControlRequest::Stop || request == ControlRequest::Shutdown),
        r.1 == (if request == ControlRequest::Other { ControlReply::NotImplemented } else { ControlReply::NoError }),
{
    match request {
        ControlRequest::Stop | ControlRequest::Shutdown => (true, ControlReply::NoError),
        ControlRequest::Interrogate => (false, ControlReply::NoError),
        ControlRequest::Other => (false, ControlReply::NotImplemented),
    }
}

/// The `binPath=` argument of `sc.exe create`: the quoted executable path
/// and its service arguments, all in one quoted value.
pub open spec fn spec_bin_path_arg(exe: Seq<char>, config_path: Seq<char>) -> Seq<char> {
    "binPath= \"\\\""@ + exe + "\\\" --run-as-service --config \\\""@ + config_path + "\\\"\""@
}

/// Builds the `binPath=` argument that registers the agent as a service.
pub fn bin_path_arg(exe: &str, config_path: &str) -> (r: String)
    ensures
        r@ == spec_bin_path_arg(exe@, config_path@),
{
    let mut r = String::from_str("binPath= \"\\\"");
    r.append(exe);
    r.append("\\\" --run-as-service --config \\\"");
    r.append(config_path);
    r.append("\\\"\"");
    r
}

} // verus!
