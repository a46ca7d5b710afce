//! Saved connections. Their metadata is saved as a list keyed by id; the
//! passwords live in the OS keychain, and a record only says whether one
//! is stored.

use vstd::prelude::*;
use crate::records::Keyed;

verus! {

/// A saved connection.
pub struct Connection {
    pub id: String,
    pub name: String,
    /// "ssh" | "serial" | "telnet" | "local"
    pub kind: String,
    pub host: Option<String>,
    pub port: Option<u16>,
    pub user: Option<String>,
    /// Serial device path.
    pub path: Option<String>,
    pub baud: Option<u32>,
    pub has_password: bool,
    pub group: Option<String>,
}

impl Keyed for Connection {
    open spec fn key_of(&self) -> Seq<char> {
        self.id@
    }

    fn key(&self) -> (k: &String) {
        &self.id
    }
}

/// What saving a connection does to its stored password.
pub enum PasswordChange {
    /// No password given: leave the keychain as it is.
    Keep,
    /// An empty password: delete the stored one.
    Clear,
    /// A new password to store.
    Replace(String),
}

/// `None` leaves the stored password, `Some("")` clears it, anything else
/// replaces it.
pub fn password_change(password: Option<String>) -> (c: PasswordChange)
    ensures
        match password {
            None => c is Keep,
            Some(p) => if p@.len() == 0 {
                c is Clear
            } else {
                c matches PasswordChange::Replace(q) && q@ == p@
            },
        },
{
    match password {
        None => PasswordChange::Keep,
        Some(p) => if p.as_str().is_empty() {
            PasswordChange::Clear
        } else {
            PasswordChange::Replace(p)
        },
    }
}

/// The connection as it is saved once the keychain has been updated: it
/// has a password after a Replace, none after a Clear, and keeps its flag
/// otherwise. Nothing else changes.
pub fn with_password_flag(conn: Connection, change: &PasswordChange) -> (r: Connection)
    ensures
        r.has_password == (match change {
            PasswordChange::Keep => conn.has_password,
            PasswordChange::Clear => false,
            PasswordChange::Replace(_) => true,
        }),
        r == (Connection { has_password: r.has_password, ..conn }),
{
    let mut conn = conn;
    match change {
        PasswordChange::Keep => {},
        PasswordChange::Clear => {
            conn.has_password = false;
        },
        PasswordChange::Replace(_) => {
            conn.has_password = true;
        },
    }
    conn
}

} // verus!
