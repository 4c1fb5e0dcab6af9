use std::time::Duration;

use rust_socket_benchmark::config::{ConnectionMode, IPProtocol, SocketType, TestConfig};
use rust_socket_benchmark::plan::{barrier_parties, plan_run, worker_pairs, Benchmark};
use rust_socket_benchmark::sync::DoubleBarrier;

fn config(socket_t: SocketType, threads: usize) -> TestConfig {
    TestConfig {
        socket_t,
        threads,
        conn_m: ConnectionMode::Connected,
        ip_proto: IPProtocol::V4,
        duration: Duration::from_millis(10),
        warmup: Duration::from_millis(1),
        payload_sz: 26,
    }
}

#[test]
fn single_thread_plans() {
    assert_eq!(plan_run(&config(SocketType::StdUdpBlock, 1)), Ok(Some(Benchmark::StdUdpSync)));
    assert_eq!(plan_run(&config(SocketType::MioUdp, 1)), Ok(Some(Benchmark::MioUdpSync)));
    assert_eq!(plan_run(&config(SocketType::MioUdpExhaustive, 1)), Ok(None));
    assert_eq!(plan_run(&config(SocketType::TokioUdpAsync, 1)), Ok(Some(Benchmark::TokioUdp)));
    assert_eq!(
        plan_run(&config(SocketType::TokioUdpSyncExhaustive, 1)),
        Ok(Some(Benchmark::TokioUdp))
    );
}

#[test]
fn threaded_plans() {
    for threads in [0usize, 2, 3, 4, 16] {
        assert_eq!(
            plan_run(&config(SocketType::StdUdpBlock, threads)),
            Ok(Some(Benchmark::StdUdpThreaded))
        );
        assert_eq!(plan_run(&config(SocketType::MioUdp, threads)), Ok(Some(Benchmark::MioUdpThreaded)));
        assert_eq!(
            plan_run(&config(SocketType::MioUdpExhaustive, threads)),
            Ok(Some(Benchmark::MioUdpThreaded))
        );
        assert_eq!(plan_run(&config(SocketType::TokioUdpAsync, threads)), Ok(Some(Benchmark::TokioUdp)));
    }
}

#[test]
fn pairs_and_parties() {
    assert_eq!(worker_pairs(Benchmark::StdUdpThreaded, 4), 2);
    assert_eq!(worker_pairs(Benchmark::MioUdpThreaded, 5), 2);
    assert_eq!(worker_pairs(Benchmark::StdUdpThreaded, 1), 0);
    assert_eq!(worker_pairs(Benchmark::TokioUdp, 1), 1);
    assert_eq!(worker_pairs(Benchmark::TokioUdp, 0), 1);
    assert_eq!(worker_pairs(Benchmark::TokioUdp, 6), 3);
    assert_eq!(barrier_parties(4), 5);
    assert_eq!(2 * worker_pairs(Benchmark::StdUdpThreaded, 8) + 1, barrier_parties(8));
}

#[test]
fn single_party_barriers_do_not_block() {
    let barrier = DoubleBarrier::new(1);
    barrier.wait_first();
    barrier.wait_second();
    barrier.wait();
}

use rust_socket_benchmark::transfer::{
    blocking_action, drains_socket, draining_action, polled_action, IoAction, IoOutcome,
};

#[test]
fn blocking_sockets_tolerate_timeouts() {
    assert_eq!(blocking_action(IoOutcome::Transferred(300)), IoAction::Count(300));
    assert_eq!(blocking_action(IoOutcome::WouldBlock), IoAction::Skip);
    assert_eq!(blocking_action(IoOutcome::TimedOut), IoAction::Skip);
    assert_eq!(blocking_action(IoOutcome::Failed), IoAction::Abort);
}

#[test]
fn polled_sockets_tolerate_only_would_block() {
    assert_eq!(polled_action(IoOutcome::Transferred(26)), IoAction::Count(26));
    assert_eq!(polled_action(IoOutcome::WouldBlock), IoAction::Skip);
    assert_eq!(polled_action(IoOutcome::TimedOut), IoAction::Abort);
    assert_eq!(polled_action(IoOutcome::Failed), IoAction::Abort);
}

#[test]
fn draining_stops_when_socket_would_block() {
    assert_eq!(draining_action(IoOutcome::Transferred(1460)), IoAction::Count(1460));
    assert_eq!(draining_action(IoOutcome::WouldBlock), IoAction::StopDraining);
    assert_eq!(draining_action(IoOutcome::TimedOut), IoAction::Abort);
    assert_eq!(draining_action(IoOutcome::Failed), IoAction::Abort);
}

#[test]
fn only_plain_mio_spares_the_socket() {
    assert!(!drains_socket(SocketType::MioUdp));
    assert!(drains_socket(SocketType::MioUdpExhaustive));
    assert!(drains_socket(SocketType::StdUdpBlock));
    assert!(drains_socket(SocketType::TokioUdpAsync));
    assert!(drains_socket(SocketType::TokioUdpSyncExhaustive));
}
