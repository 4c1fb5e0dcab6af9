//! Which benchmark measures a configuration, and how many threads it runs.

use vstd::prelude::*;
use crate::config::{SocketType, TestConfig};
use crate::error::SuiteError;

verus! {

/// The measuring routines.
#[derive(Clone, Copy, PartialEq, Eq, Structural, Debug)]
pub enum Benchmark {
    /// Blocking std sockets, sender and receiver on the calling thread.
    StdUdpSync,
    /// Blocking std sockets, sender and receiver threads in pairs.
    StdUdpThreaded,
    /// Non-blocking mio sockets polled on the calling thread.
    MioUdpSync,
    /// Non-blocking mio sockets, sender and receiver threads in pairs.
    MioUdpThreaded,
    /// Tokio sockets on a multi-threaded runtime.
    TokioUdp,
}

/// The benchmark that measures `config`: `Ok(None)` where the configuration
/// is skipped as redundant (one thread with the exhaustive mio sockets, which
/// would starve one of its two sockets), `Err(Unimplemented)` where no
/// benchmark exists.
pub open spec fn plan_of(config: TestConfig) -> Result<Option<Benchmark>, SuiteError> {
    if config.threads == 1 {
        match config.socket_t {
            SocketType::MioUdpExhaustive => Ok(None),
            SocketType::StdUdpBlock => Ok(Some(Benchmark::StdUdpSync)),
            SocketType::MioUdp => Ok(Some(Benchmark::MioUdpSync)),
            SocketType::TokioUdpAsync => Ok(Some(Benchmark::TokioUdp)),
            SocketType::TokioUdpSyncExhaustive => Ok(Some(Benchmark::TokioUdp)),
        }
    } else {
        match config.socket_t {
            SocketType::StdUdpBlock => Ok(Some(Benchmark::StdUdpThreaded)),
            SocketType::MioUdp => Ok(Some(Benchmark::MioUdpThreaded)),
            SocketType::MioUdpExhaustive => Ok(Some(Benchmark::MioUdpThreaded)),
            SocketType::TokioUdpAsync => Ok(Some(Benchmark::TokioUdp)),
            SocketType::TokioUdpSyncExhaustive => Ok(Some(Benchmark::TokioUdp)),
        }
    }
}

/// Every configuration is either skipped or measured: the redundant case is
/// decided before the missing one could arise, so `Unimplemented` never comes.
pub proof fn lemma_every_config_is_planned(config: TestConfig)
    ensures
        plan_of(config) is Ok,
{
}

/// Chooses the benchmark for `config` (see `plan_of`).
pub fn plan_run(config: &TestConfig) -> (r: Result<Option<Benchmark>, SuiteError>)
    ensures
        r == plan_of(*config),
        config.socket_t == SocketType::TokioUdpAsync || config.socket_t
            == SocketType::TokioUdpSyncExhaustive ==> r == Ok::<Option<Benchmark>, SuiteError>(
            Some(Benchmark::TokioUdp),
        ),
        r is Ok,
{
    if config.threads == 1 && config.socket_t == SocketType::MioUdpExhaustive {
        return Ok(None);
    }
    if config.threads == 1 {
        match config.socket_t {
            SocketType::StdUdpBlock => Ok(Some(Benchmark::StdUdpSync)),
            SocketType::MioUdp => Ok(Some(Benchmark::MioUdpSync)),
            SocketType::TokioUdpAsync | SocketType::TokioUdpSyncExhaustive => Ok(
                Some(Benchmark::TokioUdp),
            ),
            _ => Err(SuiteError::Unimplemented),
        }
    } else {
        match config.socket_t {
            SocketType::StdUdpBlock => Ok(Some(Benchmark::StdUdpThreaded)),
            SocketType::MioUdp | SocketType::MioUdpExhaustive => Ok(Some(Benchmark::MioUdpThreaded)),
            SocketType::TokioUdpAsync | SocketType::TokioUdpSyncExhaustive => Ok(
                Some(Benchmark::TokioUdp),
            ),
        }
    }
}

/// The number of sender-receiver pairs that `benchmark` starts for `threads`
/// threads: half the threads, and for tokio at least one pair.
pub open spec fn pairs_of(benchmark: Benchmark, threads: usize) -> int {
    if benchmark == Benchmark::TokioUdp && threads / 2 < 1 {
        1
    } else {
        (threads / 2) as int
    }
}

/// Computes `pairs_of(benchmark, threads)`.
pub fn worker_pairs(benchmark: Benchmark, threads: usize) -> (n: usize)
    ensures
        n == pairs_of(benchmark, threads),
        threads >= 2 ==> 2 * n <= threads < 2 * n + 2,
        threads < 2 ==> (n == 1 <==> benchmark == Benchmark::TokioUdp) && n <= 1,
{
    let half = threads / 2;
    match benchmark {
        Benchmark::TokioUdp => if half < 1 {
            1
        } else {
            half
        },
        _ => half,
    }
}

/// The number of threads that meet at each barrier of a run with `threads`
/// threads: every thread and the one that starts the timers.
pub fn barrier_parties(threads: usize) -> (n: usize)
    requires
        threads < usize::MAX,
    ensures
        n == threads + 1,
{
    threads + 1
}

/// With an even thread count, a threaded std or mio run starts exactly as
/// many workers as its barriers wait for, besides the thread that starts the
/// timers.
pub proof fn lemma_barrier_party_complete(benchmark: Benchmark, threads: usize)
    requires
        benchmark == Benchmark::StdUdpThreaded || benchmark == Benchmark::MioUdpThreaded,
        threads % 2 == 0,
        threads < usize::MAX,
    ensures
        2 * pairs_of(benchmark, threads) + 1 == threads + 1,
{
}

/// The benchmark chosen for a configuration runs on the socket library that
/// its socket type names, on the calling thread exactly when the
/// configuration has one thread; tokio configurations always run on tokio,
/// whatever the thread count; only the one-thread exhaustive mio
/// configuration is skipped; and nothing but the socket type and the thread
/// count decides.
pub proof fn lemma_plan_follows_socket_type(config: TestConfig, other: TestConfig)
    ensures
        config.socket_t == SocketType::TokioUdpAsync || config.socket_t
            == SocketType::TokioUdpSyncExhaustive ==> plan_of(config) == Ok::<
            Option<Benchmark>,
            SuiteError,
        >(Some(Benchmark::TokioUdp)),
        config.socket_t == SocketType::StdUdpBlock ==> (plan_of(config) == Ok::<
            Option<Benchmark>,
            SuiteError,
        >(Some(Benchmark::StdUdpSync)) || plan_of(config) == Ok::<Option<Benchmark>, SuiteError>(
            Some(Benchmark::StdUdpThreaded),
        )),
        config.socket_t == SocketType::MioUdp || config.socket_t == SocketType::MioUdpExhaustive ==> (
        plan_of(config) == Ok::<Option<Benchmark>, SuiteError>(None) || plan_of(config) == Ok::<
            Option<Benchmark>,
            SuiteError,
        >(Some(Benchmark::MioUdpSync)) || plan_of(config) == Ok::<Option<Benchmark>, SuiteError>(
            Some(Benchmark::MioUdpThreaded),
        )),
        plan_of(config) == Ok::<Option<Benchmark>, SuiteError>(None) <==> (config.threads == 1
            && config.socket_t == SocketType::MioUdpExhaustive),
        plan_of(config) == Ok::<Option<Benchmark>, SuiteError>(Some(Benchmark::StdUdpSync)) || plan_of(
            config,
        ) == Ok::<Option<Benchmark>, SuiteError>(Some(Benchmark::MioUdpSync)) ==> config.threads
            == 1,
        plan_of(config) == Ok::<Option<Benchmark>, SuiteError>(Some(Benchmark::StdUdpThreaded))
            || plan_of(config) == Ok::<Option<Benchmark>, SuiteError>(
            Some(Benchmark::MioUdpThreaded),
        ) ==> config.threads != 1,
        other.socket_t == config.socket_t && other.threads == config.threads ==> plan_of(other)
            == plan_of(config),
{
}

/// A run with at least two threads starts half of them as senders and half
/// as receivers (an odd thread left over), whatever the benchmark; with fewer
/// threads only tokio starts a pair. Barriers wait for every thread and the
/// one that starts the timers.
pub proof fn lemma_thread_split(benchmark: Benchmark, threads: usize)
    ensures
        threads >= 2 ==> 2 * pairs_of(benchmark, threads) <= threads < 2 * pairs_of(benchmark, threads) + 2,
        threads < 2 ==> pairs_of(benchmark, threads) == (if benchmark == Benchmark::TokioUdp {
            1int
        } else {
            0int
        }),
        pairs_of(benchmark, threads) >= 0,
{
}

} // verus!
