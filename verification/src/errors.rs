use vstd::prelude::*;

verus! {

/// Every failure the vault engine can report. Each operation's contract says
/// exactly which of these it returns and on which inputs.
#[derive(Debug, Clone, Copy, PartialEq, Eq, Structural)]
pub enum VaultError {
    /// No valid identity binding was found for the vault root.
    NotInitialized,
    /// A logical name failed the charset or traversal checks.
    InvalidName,
    /// The secret or binding file is absent.
    NotFound,
    /// The encryption subprocess exited with a non-zero status.
    EncryptionFailed,
    /// The decryption subprocess exited with a non-zero status.
    DecryptionFailed,
    /// The key-listing subprocess could not be invoked or exited abnormally.
    KeyToolError,
    /// A one-time-password code could not be derived from the stored URI.
    OtpComputationError,
    /// An enrollment URI lacks the issuer or the account, or cannot be parsed.
    InvalidOtpUri,
    /// Decoding an enrollment image yielded no single usable payload.
    OtpDecodeError,
    /// The shared clipboard resource could not be acquired or written.
    ClipboardUnavailable,
    /// A filesystem fault outside the cases above.
    IoError,
}

impl VaultError {
    /// A short human-readable description, one fixed text per kind.
    pub fn message(&self) -> (r: &'static str)
        ensures
            r@ == match *self {
                VaultError::NotInitialized => "vault is not initialized"@,
                VaultError::InvalidName => "invalid secret name"@,
                VaultError::NotFound => "secret not found"@,
                VaultError::EncryptionFailed => "failed to encrypt"@,
                VaultError::DecryptionFailed => "failed to decrypt"@,
                VaultError::KeyToolError => "failed to list secret keys"@,
                VaultError::OtpComputationError => "failed to derive a one-time code"@,
                VaultError::InvalidOtpUri => "invalid one-time-password URI"@,
                VaultError::OtpDecodeError => "failed to decode the enrollment image"@,
                VaultError::ClipboardUnavailable => "clipboard is unavailable"@,
                VaultError::IoError => "filesystem error"@,
            },
    {
        match *self {
            VaultError::NotInitialized => "vault is not initialized",
            VaultError::InvalidName => "invalid secret name",
            VaultError::NotFound => "secret not found",
            VaultError::EncryptionFailed => "failed to encrypt",
            VaultError::DecryptionFailed => "failed to decrypt",
            VaultError::KeyToolError => "failed to list secret keys",
            VaultError::OtpComputationError => "failed to derive a one-time code",
            VaultError::InvalidOtpUri => "invalid one-time-password URI",
            VaultError::OtpDecodeError => "failed to decode the enrollment image",
            VaultError::ClipboardUnavailable => "clipboard is unavailable",
            VaultError::IoError => "filesystem error",
        }
    }
}

} // verus!
