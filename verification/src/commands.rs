use vstd::prelude::*;

use crate::errors::VaultError;
use crate::gateway::{decrypt_args, encrypt_args, is_decrypt_args, is_encrypt_args};
use crate::store::{resolve, resolve_stored, resolved_path, valid_name, valid_stored_name};

verus! {

/// How one invocation sees the vault: its root directory, whether the
/// passphrase is asked for instead of relying on the ambient agent, and the
/// identity key the vault is bound to.
#[derive(Debug)]
pub struct VaultConfig {
    pub vault: String,
    pub ask_password: bool,
    pub key_id: String,
}

/// Where the named stored secret lives under the configured vault root. A
/// stored name may be namespaced — the system-generated one-time-password
/// records are — so each separator-joined segment is checked rather than
/// the single-name charset; a name with an empty, dot or dot-dot segment or
/// a backslash is rejected before any path is formed.
pub fn get_secret_path(name: &String, config: &VaultConfig) -> (r: Result<String, VaultError>)
    ensures
        match r {
            Ok(p) => valid_stored_name(name@) && p@ == resolved_path(config.vault@, name@),
            Err(e) => !valid_stored_name(name@) && e == VaultError::InvalidName,
        },
{
    resolve_stored(&config.vault, name)
}

/// Everything the caller needs to store one secret: the file to write and
/// the engine invocation whose output stream belongs in it.
#[derive(Debug)]
pub struct EncryptPlan {
    pub path: String,
    pub args: Vec<String>,
}

/// Plans storing a secret under a logical name: the path the ciphertext
/// belongs at, and the engine invocation that encrypts the plaintext for the
/// vault's bound identity. A name that fails the charset check is rejected
/// and nothing is planned.
pub fn add(config: &VaultConfig, name: &String) -> (r: Result<EncryptPlan, VaultError>)
    ensures
        match r {
            Ok(plan) => {
                &&& valid_name(name@)
                &&& plan.path@ == resolved_path(config.vault@, name@)
                &&& is_encrypt_args(plan.args@, config.key_id@)
            },
            Err(e) => !valid_name(name@) && e == VaultError::InvalidName,
        },
{
    let path = match resolve(&config.vault, name) {
        Ok(p) => p,
        Err(e) => {
            return Err(e);
        },
    };
    let args = encrypt_args(&config.key_id);
    Ok(EncryptPlan { path, args })
}

/// Everything the caller needs to reveal one secret: the file to decrypt and
/// the engine invocation that yields its plaintext.
#[derive(Debug)]
pub struct DecryptPlan {
    pub path: String,
    pub args: Vec<String>,
}

/// Plans revealing a secret for the clipboard or the screen: the stored
/// file's path and the engine invocation that decrypts it, asking for the
/// passphrase over the loopback channel when the configuration says so.
/// Namespaced stored names resolve here too, so enrolled one-time-password
/// records can be revealed; a name with an unsafe segment is rejected and
/// nothing is planned.
pub fn copy(config: &VaultConfig, name: &String) -> (r: Result<DecryptPlan, VaultError>)
    ensures
        match r {
            Ok(plan) => {
                &&& valid_stored_name(name@)
                &&& plan.path@ == resolved_path(config.vault@, name@)
                &&& is_decrypt_args(plan.args@, config.ask_password, plan.path@)
            },
            Err(e) => !valid_stored_name(name@) && e == VaultError::InvalidName,
        },
{
    let path = match get_secret_path(name, config) {
        Ok(p) => p,
        Err(e) => {
            return Err(e);
        },
    };
    let args = decrypt_args(config.ask_password, &path);
    Ok(DecryptPlan { path, args })
}

} // verus!
