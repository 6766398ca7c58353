//! How the command-line program ends on an error, and the memory and thread
//! figures that its statistics report.

use vstd::prelude::*;

verus! {

/// An early exit of the program: the message to print and the exit code.
#[derive(Debug)]
pub struct CliExit {
    /// Message to print.
    pub message: String,
    /// Process exit code.
    pub code: i32,
}

impl CliExit {
    /// An exit for a usage error (code 1).
    pub fn usage(message: String) -> (r: Self)
        ensures
            r.message@ == message@,
            r.code == 1,
    {
        CliExit { message, code: 1 }
    }

    /// An exit for a configuration error (code 2).
    pub fn config(message: String) -> (r: Self)
        ensures
            r.message@ == message@,
            r.code == 2,
    {
        CliExit { message, code: 2 }
    }
}

/// The peak resident memory in bytes, from the maximum resident set size
/// that the operating system reported (`None` where it reported none), in
/// KiB where `rss_in_kib` (Linux, Android) and in bytes elsewhere. A
/// negative report gives `None`; a figure past `u64::MAX` bytes saturates.
pub fn peak_memory_bytes(max_rss: Option<i64>, rss_in_kib: bool) -> (r: Option<u64>)
    ensures
        match max_rss {
            None => r is None,
            Some(raw) => if raw < 0 {
                r is None
            } else if rss_in_kib {
                r == Some(if raw * 1024 > u64::MAX { u64::MAX } else { (raw * 1024) as u64 })
            } else {
                r == Some(raw as u64)
            },
        },
{
    match max_rss {
        None => None,
        Some(raw) => {
            if raw < 0 {
                return None;
            }
            let rss = raw as u64;
            if rss_in_kib {
                if rss > u64::MAX / 1024 {
                    Some(u64::MAX)
                } else {
                    Some(rss * 1024)
                }
            } else {
                Some(rss)
            }
        },
    }
}

/// Calls `rayon::current_num_threads`: the number of threads of the pool
/// that the caller runs in, or of the global pool (started on first use).
/// The figure depends on the machine and the environment
/// (`RAYON_NUM_THREADS`), so only what holds of every outcome is stated:
/// rayon starts a pool with at least one thread. Where the global pool
/// cannot be started, rayon panics; that is not excluded here.
#[verifier::external_body]
fn rayon_threads() -> (n: usize)
    ensures
        n >= 1,
{
    rayon::current_num_threads()
}

/// The number of worker threads a search uses, given the size of the
/// thread pool: one when it runs sequentially, else the pool's size.
pub fn thread_count_for(parallel_enabled: bool, pool_threads: usize) -> (n: usize)
    ensures
        n == if parallel_enabled {
            pool_threads
        } else {
            1
        },
{
    if parallel_enabled {
        pool_threads
    } else {
        1
    }
}

/// The number of worker threads a search uses: one when it runs
/// sequentially, else the size of rayon's pool (at least one), as
/// `thread_count_for` gives it for the pool size that rayon reports.
pub fn effective_thread_count(parallel_enabled: bool) -> (n: usize)
    ensures
        n >= 1,
        !parallel_enabled ==> n == 1,
{
    if !parallel_enabled {
        return thread_count_for(false, 1);
    }
    let pool = rayon_threads();
    thread_count_for(true, pool)
}

} // verus!
