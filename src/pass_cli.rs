use vstd::prelude::*;

use crate::models::{ItemList, ItemView, VaultList, opt_view, doc_password, doc_username};

verus! {

/// What one run of the credential manager gave.
pub enum Outcome<T> {
    /// It exited with a failure status; the text is what it wrote on stderr.
    Failed(String),
    /// It succeeded, but its output could not be read as the expected document.
    Malformed,
    /// It succeeded and its output was read as this document.
    Parsed(T),
}

/// Why a call to the credential manager failed.
pub enum CliError {
    /// The command exited with a failure status; the text is its stderr.
    CommandFailed(String),
    /// The command's output was not the expected document.
    InvalidOutput,
    /// The viewed item holds no password.
    NoPassword,
}

/// The vaults, from a run of the vault listing. There is no fallback: a
/// failed or unreadable listing is an error.
pub fn fetch_vaults(outcome: Outcome<VaultList>) -> (r: Result<VaultList, CliError>)
    ensures
        match outcome {
            Outcome::Failed(e) => r matches Err(CliError::CommandFailed(m)) && m@ == e@,
            Outcome::Malformed => r matches Err(CliError::InvalidOutput),
            Outcome::Parsed(v) => r matches Ok(w) && w.vaults@ == v.vaults@,
        },
{
    match outcome {
        Outcome::Failed(e) => Err(CliError::CommandFailed(e)),
        Outcome::Malformed => Err(CliError::InvalidOutput),
        Outcome::Parsed(v) => Ok(v),
    }
}

/// The items of one vault, from a run of the item listing. A failed run
/// counts as an empty vault, since a vault may be empty or out of reach;
/// only unreadable output is an error.
pub fn list_vault_items(outcome: Outcome<ItemList>) -> (r: Result<ItemList, CliError>)
    ensures
        match outcome {
            Outcome::Failed(_) => r matches Ok(l) && l.items@.len() == 0,
            Outcome::Malformed => r matches Err(CliError::InvalidOutput),
            Outcome::Parsed(v) => r matches Ok(l) && l.items@ == v.items@,
        },
{
    match outcome {
        Outcome::Failed(_) => Ok(ItemList::new()),
        Outcome::Malformed => Err(CliError::InvalidOutput),
        Outcome::Parsed(v) => Ok(v),
    }
}

/// The username and password of one item, from a run of the item view made
/// for it. The password comes from that view alone; the username falls back
/// from the `username` field to the `email` field.
pub fn get_item_credentials(outcome: Outcome<ItemView>) -> (r: Result<(Option<String>, String), CliError>)
    ensures
        match outcome {
            Outcome::Failed(e) => r matches Err(CliError::CommandFailed(m)) && m@ == e@,
            Outcome::Malformed => r matches Err(CliError::InvalidOutput),
            Outcome::Parsed(v) => match doc_password(v.item.content.content) {
                Some(p) => r matches Ok((u, q)) && q@ == p && opt_view(u) == doc_username(v.item.content.content),
                None => r matches Err(CliError::NoPassword),
            },
        },
{
    match outcome {
        Outcome::Failed(e) => Err(CliError::CommandFailed(e)),
        Outcome::Malformed => Err(CliError::InvalidOutput),
        Outcome::Parsed(v) => {
            let username = v.item.content.get_username();
            match v.item.content.get_password() {
                Some(p) => Ok((username, p)),
                None => Err(CliError::NoPassword),
            }
        },
    }
}

} // verus!
