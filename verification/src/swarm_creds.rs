//! Credentials for a Swarm host in the OS keychain. Under the service
//! `diffie-swarm`, account `{host}:user` holds the user name and account
//! `{host}:ticket` the login ticket. Every operation is best-effort: without
//! a usable keychain the helpers give `None` or do nothing.

use vstd::prelude::*;

use crate::text::{push_str, string_of_str};

verus! {

/// Keychain service the entries are stored under.
pub const SERVICE: &'static str = "diffie-swarm";

#[verifier::external_type_specification]
#[verifier::external_body]
pub struct ExKeyringEntry(keyring::Entry);

/// The keychain account for `kind` (`user` or `ticket`) on `host`.
pub fn account_name(host: &str, kind: &str) -> (s: String)
    ensures
        s@ == host@ + ":"@ + kind@,
{
    let mut s = string_of_str(host);
    push_str(&mut s, ":");
    push_str(&mut s, kind);
    s
}

/// Calls `keyring::Entry::new(service, account)`; `None` when the platform
/// store cannot make the entry. Whether it can depends on the machine, so
/// nothing is stated of the outcome.
#[verifier::external_body]
fn open_entry(service: &str, account: &str) -> Option<keyring::Entry> {
    keyring::Entry::new(service, account).ok()
}

/// Calls `keyring::Entry::get_password`; `None` on any error. The stored
/// secret lives in the keychain, so nothing is stated of it.
#[verifier::external_body]
fn read_secret(e: &keyring::Entry) -> Option<String> {
    e.get_password().ok()
}

/// Calls `keyring::Entry::set_password`, ignoring failure.
#[verifier::external_body]
fn write_secret(e: &keyring::Entry, secret: &str) {
    let _ = e.set_password(secret);
}

/// Calls `keyring::Entry::delete_credential`, ignoring failure.
#[verifier::external_body]
fn delete_secret(e: &keyring::Entry) {
    let _ = e.delete_credential();
}

fn entry(host: &str, kind: &str) -> Option<keyring::Entry> {
    let account = account_name(host, kind);
    open_entry(SERVICE, account.as_str())
}

/// The credentials made of what was read for the user name and for the
/// ticket: both, when both were read.
pub fn pair_credentials(user: Option<String>, ticket: Option<String>) -> (r: Option<(String, String)>)
    ensures
        r == match (user, ticket) {
            (Some(u), Some(t)) => Some((u, t)),
            _ => None,
        },
{
    match (user, ticket) {
        (Some(u), Some(t)) => Some((u, t)),
        _ => None,
    }
}

/// The stored `(user, ticket)` for `host`, when both are present. The
/// ticket is not read when no user name is stored.
pub fn load(host: &str) -> Option<(String, String)> {
    let user = match entry(host, "user") {
        Some(e) => read_secret(&e),
        None => None,
    };
    if user.is_none() {
        return None;
    }
    let ticket = match entry(host, "ticket") {
        Some(e) => read_secret(&e),
        None => None,
    };
    pair_credentials(user, ticket)
}

/// Store the user name and ticket for `host`.
pub fn store(host: &str, user: &str, ticket: &str) {
    if let Some(e) = entry(host, "user") {
        write_secret(&e, user);
    }
    if let Some(e) = entry(host, "ticket") {
        write_secret(&e, ticket);
    }
}

/// Forget the ticket for `host` (the user name stays, to prefill the login).
pub fn clear_ticket(host: &str) {
    if let Some(e) = entry(host, "ticket") {
        delete_secret(&e);
    }
}

/// The stored user name for `host`.
pub fn load_user(host: &str) -> Option<String> {
    match entry(host, "user") {
        Some(e) => read_secret(&e),
        None => None,
    }
}

} // verus!
