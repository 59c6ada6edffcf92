//! Choosing the capture device for the arena's bridge network.

use vstd::prelude::*;
use crate::text::{eq_ignore_ascii_case, eq_ignore_case};

verus! {

/// The refusal when no device carries the arena's interface name.
pub const NO_ARENA_DEVICE: &'static str = "failed getting arena device";

/// Picks the first device whose name equals the arena's interface name up
/// to ASCII case; its index among `device_names`.
pub fn get_arena_device(device_names: &Vec<String>, interface: &str) -> (r: Result<usize, &'static str>)
    ensures
        r matches Ok(i) ==> i < device_names@.len() && eq_ignore_case(device_names@[i as int]@, interface@)
            && forall|j: int| 0 <= j < i ==> !eq_ignore_case(#[trigger] device_names@[j]@, interface@),
        r matches Err(m) ==> m == NO_ARENA_DEVICE && forall|j: int|
            0 <= j < device_names@.len() ==> !eq_ignore_case(#[trigger] device_names@[j]@, interface@),
{
    let mut i: usize = 0;
    while i < device_names.len()
        invariant
            i <= device_names@.len(),
            forall|j: int| 0 <= j < i ==> !eq_ignore_case(#[trigger] device_names@[j]@, interface@),
        decreases device_names@.len() - i,
    {
        if eq_ignore_ascii_case(device_names[i].as_str(), interface) {
            return Ok(i);
        }
        i = i + 1;
    }
    Err(NO_ARENA_DEVICE)
}

/// Entry point of the capture component; it has no work of its own.
pub fn network_main() {
}

/// Placeholder for reporting the containers' network details; it has no
/// work of its own.
pub fn get_container_network_info() {
}

} // verus!
