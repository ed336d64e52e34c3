//! The public listing of the catalogue.
use vstd::prelude::*;

use crate::state::AppState;

verus! {

/// What the server tells clients about one executable: its name and the
/// fingerprint of its build time.
pub struct ExecutablePublic {
    pub name: String,
    pub hash: u64,
}

/// The listing the server sends for `GET /executables`: every executable of the
/// catalogue, in order, with its name and fingerprint.
pub fn get_executables(state: &AppState) -> (r: Vec<ExecutablePublic>)
    ensures
        r.len() == state@.len(),
        forall|i: int|
            0 <= i < state@.len() ==> (#[trigger] r[i]).name@ == state@[i].name && r[i].hash
                == state@[i].hash,
{
    let mut r: Vec<ExecutablePublic> = Vec::new();
    let mut i: usize = 0;
    while i < state.crates.len()
        invariant
            0 <= i <= state.crates.len(),
            r.len() == i,
            forall|j: int|
                0 <= j < i ==> (#[trigger] r[j]).name@ == state@[j].name && r[j].hash == state@[j].hash,
        decreases state.crates.len() - i,
    {
        r.push(ExecutablePublic { name: state.crates[i].name.clone(), hash: state.crates[i].hash });
        i = i + 1;
    }
    r
}

} // verus!
