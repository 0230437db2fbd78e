//! The size of the pool of workers that read and decode input files.

use vstd::prelude::*;

verus! {

/// The number of processors left to the rest of the system.
pub const RESERVED_CPUS: usize = 3;

/// Trusted: `num_cpus::get`, the number of processors that the current
/// system offers. Nothing is claimed of the number.
#[verifier::external_body]
fn available_cpus() -> (n: usize) {
    num_cpus::get()
}

/// The number of workers for a number of processors: all but the reserved
/// ones, and one at least.
pub open spec fn workers_for(cpus: usize) -> usize {
    if cpus > RESERVED_CPUS + 1 {
        (cpus - RESERVED_CPUS) as usize
    } else {
        1
    }
}

/// The number of workers for a number of processors: all but the reserved
/// ones, and one at least.
pub fn worker_count(cpus: usize) -> (workers: usize)
    ensures
        workers == workers_for(cpus),
        workers >= 1,
        cpus >= 1 ==> workers <= cpus,
{
    if cpus > RESERVED_CPUS + 1 {
        cpus - RESERVED_CPUS
    } else {
        1
    }
}

/// The number of processors that the system offers, and the number of
/// workers for them.
pub fn pool_size() -> (r: (usize, usize))
    ensures
        r.1 == workers_for(r.0),
        r.1 >= 1,
{
    let cpus = available_cpus();
    (cpus, worker_count(cpus))
}

} // verus!
