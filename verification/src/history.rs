//! Which two snapshots a diff compares when the command line names fewer
//! than two.

use vstd::prelude::*;

verus! {

/// Message when the history is too short to supply a default pair.
pub open spec fn too_few_snapshots() -> Seq<char> {
    "at least 2 snapshots are required when snapshot IDs are omitted"@
}

/// Default pair from the snapshot history (oldest first): the second
/// newest, against `newer` when one was named, else against the newest.
pub open spec fn history_pair(history: Seq<u64>, newer: Option<u64>) -> Result<
    (u64, u64),
    Seq<char>,
> {
    if history.len() < 2 {
        Err(too_few_snapshots())
    } else {
        let older = history[history.len() - 2];
        match newer {
            Some(id) => Ok((older, id)),
            None => Ok((older, history[history.len() - 1])),
        }
    }
}

/// Picks the snapshot pair of a diff from the history, oldest first, when
/// no older snapshot was named; `newer` is the resolved newer one, if any.
pub fn pair_from_history(history: &[u64], newer: Option<u64>) -> (r: Result<(u64, u64), String>)
    ensures
        match r {
            Ok(pair) => history_pair(history@, newer) == Ok::<(u64, u64), Seq<char>>(pair),
            Err(message) => history_pair(history@, newer) == Err::<(u64, u64), Seq<char>>(
                message@,
            ),
        },
{
    let n = history.len();
    if n < 2 {
        return Err(String::from_str("at least 2 snapshots are required when snapshot IDs are omitted"));
    }
    let older = history[n - 2];
    match newer {
        Some(id) => Ok((older, id)),
        None => Ok((older, history[n - 1])),
    }
}

} // verus!
