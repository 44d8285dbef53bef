use vstd::prelude::*;

verus! {

/// Every failure the wallet can report, as a structured kind.
///
/// The front end decides what to print from the kind alone, never by
/// inspecting message text.  Variants that arise from a remote call carry
/// the full human-readable message that the operation built for them.
#[derive(Debug)]
pub enum WalletError {
    /// The configuration document could not be parsed or rendered.
    ConfigError,
    /// A filesystem operation failed (only ever constructed by the
    /// unverified shell around this library).
    IOError,
    /// No secret key file exists for the requested signer.
    KeyNotFound,
    /// The stored secret key does not belong to the claimed address.
    KeyMismatch,
    /// An address string is not a well-formed public key; carries the
    /// offending text.
    InvalidAddress(String),
    /// A remote request could not be issued; carries the full message.
    RequestFailed(String),
    /// A submitted transaction could not be confirmed; carries the full
    /// message.
    ConfirmationFailed(String),
    /// A signed transfer was rejected or lost; carries the full message.
    SubmissionFailed(String),
    /// A command-line argument was malformed; carries the offending text.
    CliUsageError(String),
}

impl WalletError {
    /// The human-readable text for this error, shaped like the messages
    /// the original command printed.
    pub fn message(&self) -> (r: String)
        ensures
            r@ == self.spec_message(),
    {
        match self {
            WalletError::ConfigError => String::from_str("Malformed configuration file."),
            WalletError::IOError => String::from_str("A file could not be read or written."),
            WalletError::KeyNotFound => String::from_str(
                "Secret key file not found. Generate a keypair first.",
            ),
            WalletError::KeyMismatch => String::from_str(
                "Provided public key does not match the stored keypair.",
            ),
            WalletError::InvalidAddress(a) => {
                let mut s = String::from_str("Invalid public key: ");
                s.append(a.as_str());
                s
            },
            WalletError::RequestFailed(m) => m.clone(),
            WalletError::ConfirmationFailed(m) => m.clone(),
            WalletError::SubmissionFailed(m) => m.clone(),
            WalletError::CliUsageError(a) => {
                let mut s = String::from_str("Invalid amount: ");
                s.append(a.as_str());
                s
            },
        }
    }

    /// What `message` returns, variant by variant.
    pub open spec fn spec_message(&self) -> Seq<char> {
        match self {
            WalletError::ConfigError => "Malformed configuration file."@,
            WalletError::IOError => "A file could not be read or written."@,
            WalletError::KeyNotFound => "Secret key file not found. Generate a keypair first."@,
            WalletError::KeyMismatch => "Provided public key does not match the stored keypair."@,
            WalletError::InvalidAddress(a) => "Invalid public key: "@ + a@,
            WalletError::RequestFailed(m) => m@,
            WalletError::ConfirmationFailed(m) => m@,
            WalletError::SubmissionFailed(m) => m@,
            WalletError::CliUsageError(a) => "Invalid amount: "@ + a@,
        }
    }
}

} // verus!
