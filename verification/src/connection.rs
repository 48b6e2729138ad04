//! The outcome of establishing connections: transport-level failures, and the
//! pairing of a listen end with a dial end.
use vstd::prelude::*;
use vstd::string::*;

verus! {

/// A transport-level connection failure.
#[derive(Debug)]
#[allow(inconsistent_fields)]
pub enum ConnectError {
    /// The resolved address shape is not one this transport recognizes.
    UnsupportedAddress {
        /// The transport scheme that rejected the address.
        scheme: String,
    },
    /// The transport failed to bind, spawn, or hand-shake.
    Setup(String),
    /// The transport's I/O failed while establishing the channel.
    Io(String),
}

impl ConnectError {
    /// The text that a person reads of the error.
    pub open spec fn message_text(self) -> Seq<char> {
        match self {
            ConnectError::UnsupportedAddress { scheme } => "transport `"@ + scheme@
                + "` does not accept this address shape"@,
            ConnectError::Setup(message) => "transport setup failed: "@ + message@,
            ConnectError::Io(message) => "transport I/O failed: "@ + message@,
        }
    }

    /// The text that a person reads of the error.
    pub fn message(&self) -> (text: String)
        ensures
            text@ == self.message_text(),
    {
        match self {
            ConnectError::UnsupportedAddress { scheme } => "transport `".to_owned().concat(
                scheme.as_str(),
            ).concat("` does not accept this address shape"),
            ConnectError::Setup(message) => "transport setup failed: ".to_owned().concat(
                message.as_str(),
            ),
            ConnectError::Io(message) => "transport I/O failed: ".to_owned().concat(
                message.as_str(),
            ),
        }
    }
}

/// What binding a dial end to its peer listen end comes to, once both have
/// answered: both channels, or the failure of the listen end before that of the
/// dial end.
pub fn paired<L, D>(accepted: Result<L, ConnectError>, dialed: Result<D, ConnectError>) -> (r:
    Result<(L, D), ConnectError>)
    ensures
        match (accepted, dialed) {
            (Ok(listening), Ok(dialing)) => r == Ok::<(L, D), ConnectError>((listening, dialing)),
            (Err(error), _) => r == Err::<(L, D), ConnectError>(error),
            (Ok(_), Err(error)) => r == Err::<(L, D), ConnectError>(error),
        },
{
    match accepted {
        Err(error) => Err(error),
        Ok(listening) => match dialed {
            Err(error) => Err(error),
            Ok(dialing) => Ok((listening, dialing)),
        },
    }
}

} // verus!
