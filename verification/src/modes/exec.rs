//! Exec mode: the command of one script, looked up by its key.
use crate::config::{script_table, table_get, Scripts};
use vstd::prelude::*;

verus! {

/// The command of the script stored under `name`, or `None` when there is no
/// such script.
pub fn run(scripts: &Scripts, name: &str) -> (r: Option<String>)
    ensures
        match r {
            Some(c) => exists|i: int|
                0 <= i < script_table(scripts.entries).len()
                    && script_table(scripts.entries)[i].0 == name@
                    && script_table(scripts.entries)[i].1.command == c@,
            None => forall|i: int|
                0 <= i < script_table(scripts.entries).len() ==> script_table(scripts.entries)[i].0 != name@,
        },
{
    match table_get(&scripts.entries, name) {
        Some(entry) => Some(entry.command.clone()),
        None => None,
    }
}

} // verus!
