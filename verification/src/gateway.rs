use vstd::prelude::*;

use crate::errors::VaultError;

verus! {

/// The exact invocation of the external engine for encryption: batch mode,
/// encrypting for the one recipient the vault is bound to.
pub open spec fn is_encrypt_args(a: Seq<String>, recipient: Seq<char>) -> bool {
    &&& a.len() == 4
    &&& a[0]@ == "--batch"@
    &&& a[1]@ == "--encrypt"@
    &&& a[2]@ == "--recipient"@
    &&& a[3]@ == recipient
}

/// The exact invocation of the external engine for decryption. When the
/// caller supplies the passphrase, it travels over the loopback descriptor,
/// never as argument text that a process listing would show; that is why no
/// argument ever holds the passphrase itself.
pub open spec fn is_decrypt_args(a: Seq<String>, ask_password: bool, path: Seq<char>) -> bool {
    if ask_password {
        &&& a.len() == 7
        &&& a[0]@ == "--decrypt"@
        &&& a[1]@ == "--batch"@
        &&& a[2]@ == "--pinentry-mode"@
        &&& a[3]@ == "loopback"@
        &&& a[4]@ == "--passphrase-fd"@
        &&& a[5]@ == "0"@
        &&& a[6]@ == path
    } else {
        &&& a.len() == 2
        &&& a[0]@ == "--decrypt"@
        &&& a[1]@ == path
    }
}

/// The argument list that encrypts its input stream for the given recipient.
pub fn encrypt_args(recipient: &String) -> (r: Vec<String>)
    ensures
        is_encrypt_args(r@, recipient@),
{
    let mut r: Vec<String> = Vec::new();
    r.push(String::from_str("--batch"));
    r.push(String::from_str("--encrypt"));
    r.push(String::from_str("--recipient"));
    r.push(String::from_str(recipient.as_str()));
    r
}

/// The argument list that decrypts the file at `path`. With `ask_password`
/// the engine reads the passphrase from its input stream over the loopback
/// channel; without it the ambient agent supplies the key.
pub fn decrypt_args(ask_password: bool, path: &String) -> (r: Vec<String>)
    ensures
        is_decrypt_args(r@, ask_password, path@),
{
    let mut r: Vec<String> = Vec::new();
    r.push(String::from_str("--decrypt"));
    if ask_password {
        r.push(String::from_str("--batch"));
        r.push(String::from_str("--pinentry-mode"));
        r.push(String::from_str("loopback"));
        r.push(String::from_str("--passphrase-fd"));
        r.push(String::from_str("0"));
    }
    r.push(String::from_str(path.as_str()));
    r
}

/// What a finished decryption subprocess means: its output stream is the
/// plaintext on a zero exit, and any other exit is a `DecryptionFailed`.
pub fn decrypt_outcome(exit_code: i32, stdout: String) -> (r: Result<String, VaultError>)
    ensures
        exit_code == 0 ==> (r matches Ok(s) && s@ == stdout@),
        exit_code != 0 ==> r == Err::<String, VaultError>(VaultError::DecryptionFailed),
{
    if exit_code == 0 {
        Ok(stdout)
    } else {
        Err(VaultError::DecryptionFailed)
    }
}

/// What a finished encryption subprocess means: its output stream is the
/// ciphertext on a zero exit, and any other exit is an `EncryptionFailed`.
pub fn encrypt_outcome(exit_code: i32, output: Vec<u8>) -> (r: Result<Vec<u8>, VaultError>)
    ensures
        exit_code == 0 ==> (r matches Ok(b) && b@ == output@),
        exit_code != 0 ==> r == Err::<Vec<u8>, VaultError>(VaultError::EncryptionFailed),
{
    if exit_code == 0 {
        Ok(output)
    } else {
        Err(VaultError::EncryptionFailed)
    }
}

/// What a finished key-listing subprocess means: its output stream is the
/// listing on a zero exit, and any other exit is a `KeyToolError`; malformed
/// lines inside a successful listing are never fatal, the parser skips them.
pub fn keylist_outcome(exit_code: i32, stdout: String) -> (r: Result<String, VaultError>)
    ensures
        exit_code == 0 ==> (r matches Ok(s) && s@ == stdout@),
        exit_code != 0 ==> r == Err::<String, VaultError>(VaultError::KeyToolError),
{
    if exit_code == 0 {
        Ok(stdout)
    } else {
        Err(VaultError::KeyToolError)
    }
}

} // verus!
