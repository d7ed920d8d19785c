use netflow_agent::service::{bin_path_arg, handle_control, ControlReply, ControlRequest};

#[test]
fn control_requests() {
    assert_eq!(handle_control(ControlRequest::Stop), (true, ControlReply::NoError));
    assert_eq!(handle_control(ControlRequest::Shutdown), (true, ControlReply::NoError));
    assert_eq!(handle_control(ControlRequest::Interrogate), (false, ControlReply::NoError));
    assert_eq!(handle_control(ControlRequest::Other), (false, ControlReply::NotImplemented));
}

#[test]
fn bin_path_argument_quotes_path_and_config() {
    assert_eq!(
        bin_path_arg("C:\\agent\\netflowAgent.exe", "C:\\agent\\config.toml"),
        "binPath= \"\\\"C:\\agent\\netflowAgent.exe\\\" --run-as-service --config \\\"C:\\agent\\config.toml\\\"\""
    );
}
