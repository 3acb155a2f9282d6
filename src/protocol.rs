use vstd::prelude::*;

verus! {

/// The SOCKS version byte.
pub const VERSION: u8 = 5;

/// The "no authentication required" method, the only one this gateway speaks.
pub const NO_AUTH: u8 = 0;

/// The reply code of a command that succeeded.
pub const REPLY_SUCCEEDED: u8 = 0;

/// The reply code of a command that the server does not carry out.
pub const REPLY_COMMAND_NOT_SUPPORTED: u8 = 7;

/// The command of a SOCKS5 request.
#[derive(Debug, Clone, Copy, PartialEq, Eq, Structural)]
pub enum Command {
    Connect,
    Bind,
    UdpAssociate,
}

/// Why the handshake with a client failed.
#[derive(Debug, Clone, Copy, PartialEq, Eq, Structural)]
pub enum HandshakeError {
    /// The client offered no method that the gateway speaks; nothing is sent back.
    NoAcceptableMethod,
    /// The client asked for a command other than `Connect`; it has been told so.
    CommandNotSupported(Command),
}

/// Why the handshake with the upstream proxy failed.
#[derive(Debug, Clone, Copy, PartialEq, Eq, Structural)]
pub enum UpstreamError {
    /// The upstream selected this method instead of "no authentication".
    MethodRejected(u8),
    /// The upstream answered the connect request with this reply code.
    CommandFailed(u8),
}

/// Server role, method negotiation: "no authentication" is selected when the
/// client offers it, and the handshake fails otherwise.
pub fn select_method(offered: &Vec<u8>) -> (r: Result<u8, HandshakeError>)
    ensures
        r == (if offered@.contains(NO_AUTH) {
            Ok(NO_AUTH)
        } else {
            Err(HandshakeError::NoAcceptableMethod)
        }),
{
    let mut i: usize = 0;
    while i < offered.len()
        invariant
            i <= offered@.len(),
            forall|j: int| 0 <= j < i ==> offered@[j] != NO_AUTH,
        decreases offered@.len() - i,
    {
        if offered[i] == NO_AUTH {
            return Ok(NO_AUTH);
        }
        i += 1;
    }
    Err(HandshakeError::NoAcceptableMethod)
}

/// Server role, command request: the reply code to write back, and whether
/// the connection goes on. Only `Connect` is carried out; `Bind` and
/// `UdpAssociate` are answered "command not supported" and fail.
pub fn answer_command(cmd: Command) -> (r: (u8, Result<(), HandshakeError>))
    ensures
        cmd == Command::Connect ==> r == (REPLY_SUCCEEDED, Ok::<(), HandshakeError>(())),
        cmd != Command::Connect ==> r == (
            REPLY_COMMAND_NOT_SUPPORTED,
            Err::<(), HandshakeError>(HandshakeError::CommandNotSupported(cmd)),
        ),
{
    match cmd {
        Command::Connect => (REPLY_SUCCEEDED, Ok(())),
        _ => (REPLY_COMMAND_NOT_SUPPORTED, Err(HandshakeError::CommandNotSupported(cmd))),
    }
}

/// The client role of the handshake, spoken to the upstream proxy.
pub struct Socks5Stream {}

impl Socks5Stream {
    /// Client role: the methods offered to the upstream proxy.
    pub fn offered_methods() -> (r: Vec<u8>)
        ensures
            r@ == seq![NO_AUTH],
    {
        vec![NO_AUTH]
    }

    /// Client role, method negotiation: the upstream must select "no authentication".
    pub fn check_method(method: u8) -> (r: Result<(), UpstreamError>)
        ensures
            r == (if method == NO_AUTH {
                Ok(())
            } else {
                Err(UpstreamError::MethodRejected(method))
            }),
    {
        if method == NO_AUTH {
            Ok(())
        } else {
            Err(UpstreamError::MethodRejected(method))
        }
    }

    /// Client role, command response: the upstream must report success; any other
    /// code fails with that code.
    pub fn check_reply(code: u8) -> (r: Result<(), UpstreamError>)
        ensures
            r == (if code == REPLY_SUCCEEDED {
                Ok(())
            } else {
                Err(UpstreamError::CommandFailed(code))
            }),
    {
        if code == REPLY_SUCCEEDED {
            Ok(())
        } else {
            Err(UpstreamError::CommandFailed(code))
        }
    }
}

} // verus!
