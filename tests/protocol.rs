use socks5_configurator::relay::{copy_step, CopyStep, CHUNK};
use socks5_configurator::protocol::{
    answer_command, select_method, Command, Socks5Stream,
    HandshakeError, UpstreamError, NO_AUTH, REPLY_COMMAND_NOT_SUPPORTED, REPLY_SUCCEEDED,
};

#[test]
fn no_auth_is_selected_when_offered() {
    assert_eq!(select_method(&vec![2, 1, 0]), Ok(0));
    assert_eq!(select_method(&vec![0]), Ok(NO_AUTH));
}

#[test]
fn no_acceptable_method_fails() {
    assert_eq!(select_method(&vec![1, 2]), Err(HandshakeError::NoAcceptableMethod));
    assert_eq!(select_method(&vec![]), Err(HandshakeError::NoAcceptableMethod));
}

#[test]
fn connect_is_answered_with_success() {
    assert_eq!(answer_command(Command::Connect), (REPLY_SUCCEEDED, Ok(())));
}

#[test]
fn bind_is_answered_not_supported_then_fails() {
    let (code, outcome) = answer_command(Command::Bind);
    assert_eq!(code, 7);
    assert_eq!(outcome, Err(HandshakeError::CommandNotSupported(Command::Bind)));
}

#[test]
fn udp_associate_is_answered_not_supported_then_fails() {
    assert_eq!(
        answer_command(Command::UdpAssociate),
        (
            REPLY_COMMAND_NOT_SUPPORTED,
            Err(HandshakeError::CommandNotSupported(Command::UdpAssociate))
        )
    );
}

#[test]
fn client_offers_only_no_auth() {
    assert_eq!(Socks5Stream::offered_methods(), vec![0u8]);
}

#[test]
fn upstream_selecting_other_method_fails() {
    assert_eq!(Socks5Stream::check_method(0), Ok(()));
    assert_eq!(Socks5Stream::check_method(2), Err(UpstreamError::MethodRejected(2)));
    assert_eq!(Socks5Stream::check_method(0xff), Err(UpstreamError::MethodRejected(0xff)));
}

#[test]
fn upstream_reply_code_is_reported() {
    assert_eq!(Socks5Stream::check_reply(0), Ok(()));
    assert_eq!(Socks5Stream::check_reply(5), Err(UpstreamError::CommandFailed(5)));
}

#[test]
fn copy_loop_ends_on_empty_read() {
    assert_eq!(copy_step(0), CopyStep::Finished);
    assert_eq!(copy_step(1), CopyStep::Forward(1));
    assert_eq!(copy_step(CHUNK), CopyStep::Forward(49152));
}
