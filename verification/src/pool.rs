//! How many workers a crawl gets.

use vstd::prelude::*;

verus! {

/// Calls `num_cpus::get`. The number is the machine's to give: nothing is
/// claimed of it.
#[verifier::external_body]
fn logical_cpus() -> usize {
    num_cpus::get()
}

/// The worker count for a machine that reports `cpus` logical CPUs: one
/// worker per CPU, and one worker where none is reported.
pub open spec fn pool_size(cpus: usize) -> usize {
    if cpus == 0 {
        1
    } else {
        cpus
    }
}

/// The worker count for a machine that reports `cpus` logical CPUs.
pub fn worker_count(cpus: usize) -> (workers: usize)
    ensures
        workers == pool_size(cpus),
{
    if cpus == 0 {
        1
    } else {
        cpus
    }
}

/// The worker count for this machine. It is at least 1 whatever the machine
/// reports.
pub fn default_worker_count() -> (workers: usize)
    ensures
        workers >= 1,
{
    worker_count(logical_cpus())
}

} // verus!
