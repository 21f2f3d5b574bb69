//! The command dispatcher's decision logic: one parsed command is applied to
//! the store, and the reply says what to print and how to exit.
//!
//! The front end that parses command-line words and writes to the standard
//! streams stays outside the library; it hands a [`Command`] in and carries
//! the [`Reply`] out. A missing key on `get` or `rm` is the one failure and
//! exits nonzero; `set` always succeeds, whether or not the key was new.

use vstd::prelude::*;

use crate::store::KvStore;
use crate::store::spec_get;

verus! {

/// One parsed command: exactly one of `set KEY VALUE`, `get KEY`, `rm KEY`.
pub enum Command {
    Put { key: String, value: String },
    Get { key: String },
    Rm { key: String },
}

/// What a command came to: success with nothing to print, success with a
/// value to print on standard output, or a missing key, which is reported on
/// standard error with a nonzero exit status.
pub enum Reply {
    Done,
    Value(String),
    KeyNotFound,
}

impl Reply {
    /// The process exit status this reply calls for: nonzero exactly on a
    /// missing key.
    pub fn exit_code(&self) -> (r: i32)
        ensures
            r == (if self is KeyNotFound {
                1i32
            } else {
                0i32
            }),
    {
        match self {
            Reply::KeyNotFound => 1,
            _ => 0,
        }
    }
}

/// Apply one command to the store. `set` binds the key and always reports
/// success; `get` leaves the store untouched and reports the value or a
/// missing key; `rm` deletes the key and reports success, or a missing key.
pub fn dispatch(store: &mut KvStore, cmd: Command) -> (r: Reply)
    ensures
        match cmd {
            Command::Put { key, value } => {
                &&& final(store)@ == old(store)@.insert(key@, value@)
                &&& r is Done
            },
            Command::Get { key } => {
                &&& final(store)@ == old(store)@
                &&& match spec_get(old(store)@, key@) {
                    Some(v) => r matches Reply::Value(out) && out@ == v,
                    None => r is KeyNotFound,
                }
            },
            Command::Rm { key } => {
                &&& final(store)@ == old(store)@.remove(key@)
                &&& if old(store)@.contains_key(key@) {
                    r is Done
                } else {
                    r is KeyNotFound
                }
            },
        },
{
    match cmd {
        Command::Put { key, value } => {
            let _prev = store.set(key, value);
            Reply::Done
        },
        Command::Get { key } => match store.get(key) {
            Some(v) => Reply::Value(v),
            None => Reply::KeyNotFound,
        },
        Command::Rm { key } => match store.remove(key) {
            Some(_) => Reply::Done,
            None => Reply::KeyNotFound,
        },
    }
}

} // verus!
