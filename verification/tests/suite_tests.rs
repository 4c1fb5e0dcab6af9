use std::time::Duration;

use rust_socket_benchmark::config::{
    ConfigValue, ConnectionMode, IPProtocol, PartialTestConfig, SocketType, TestConfig, CONN_M,
    DURATION, IP_PROTO, PAYLOAD_SZ, SOCKET_T, THREADS, WARMUP,
};
use rust_socket_benchmark::error::SuiteError;
use rust_socket_benchmark::suite::{default_test_suite, field_index, TestSuite, TestSuiteBuilder};

fn collect(suite: &TestSuite) -> Vec<TestConfig> {
    assert!(suite.is_runnable());
    let mut it = suite.iter();
    let mut out = Vec::new();
    while let Some(config) = it.next() {
        out.push(config);
    }
    out
}

#[test]
fn field_names_and_indexes_agree() {
    let names = TestSuite::field_names();
    assert_eq!(
        names,
        &["socket_t", "threads", "conn_m", "ip_proto", "duration", "warmup", "payload_sz"]
    );
    for (i, name) in names.iter().enumerate() {
        assert_eq!(field_index(name), Some(i));
    }
    assert_eq!(field_index("socket"), None);
    assert_eq!(field_index(""), None);
    assert_eq!(field_index("Threads"), None);
}

#[test]
fn default_suite_has_every_combination_once() {
    let suite = default_test_suite(4);
    let configs = collect(&suite);
    assert_eq!(configs.len(), 5 * 3 * 2 * 2 * 1 * 1 * 3);
    assert_eq!(configs.len(), 180);
    for i in 0..configs.len() {
        for j in (i + 1)..configs.len() {
            assert_ne!(configs[i], configs[j]);
        }
    }
    for config in configs.iter() {
        assert_eq!(config.duration, Duration::from_millis(1000));
        assert_eq!(config.warmup, Duration::from_millis(100));
        assert!([1usize, 2, 4].contains(&config.threads));
        assert!([26usize, 300, 1460].contains(&config.payload_sz));
    }
}

#[test]
fn default_suite_varies_socket_type_fastest() {
    let suite = default_test_suite(8);
    let configs = collect(&suite);
    let first = configs[0];
    assert_eq!(first.socket_t, SocketType::StdUdpBlock);
    assert_eq!(first.conn_m, ConnectionMode::Unconnected);
    assert_eq!(first.ip_proto, IPProtocol::V4);
    assert_eq!(first.threads, 1);
    assert_eq!(first.payload_sz, 26);
    assert_eq!(configs[1].socket_t, SocketType::MioUdp);
    assert_eq!(configs[1].conn_m, ConnectionMode::Unconnected);
    assert_eq!(configs[4].socket_t, SocketType::TokioUdpSyncExhaustive);
    assert_eq!(configs[5].socket_t, SocketType::StdUdpBlock);
    assert_eq!(configs[5].conn_m, ConnectionMode::Connected);
    assert_eq!(configs[10].ip_proto, IPProtocol::V6);
    assert_eq!(configs[20].threads, 2);
    assert_eq!(configs[40].threads, 8);
    assert_eq!(configs[60].payload_sz, 300);
    assert_eq!(configs[120].payload_sz, 1460);
    let last = configs[179];
    assert_eq!(last.socket_t, SocketType::TokioUdpSyncExhaustive);
    assert_eq!(last.conn_m, ConnectionMode::Connected);
    assert_eq!(last.ip_proto, IPProtocol::V6);
    assert_eq!(last.threads, 8);
    assert_eq!(last.payload_sz, 1460);
}

#[test]
fn exhausted_iterator_stays_exhausted() {
    let suite = default_test_suite(2);
    let mut it = suite.iter();
    for _ in 0..180 {
        assert!(it.next().is_some());
    }
    assert!(it.next().is_none());
    assert!(it.next().is_none());
}

#[test]
fn builder_like_the_program() {
    let mut builder = TestSuiteBuilder::default();
    builder.set_variable("threads", &[ConfigValue::Threads(4)]);
    builder.set_fixed("ip_proto", ConfigValue::IpProto(IPProtocol::V4));
    builder.set_fixed("conn_m", ConfigValue::ConnM(ConnectionMode::Unconnected));
    builder.set_fixed("payload_sz", ConfigValue::PayloadSz(300));
    let suite = builder.finish().unwrap();
    let configs = collect(&suite);
    assert_eq!(configs.len(), 5);
    let sockets: Vec<SocketType> = configs.iter().map(|c| c.socket_t).collect();
    assert_eq!(
        sockets,
        vec![
            SocketType::StdUdpBlock,
            SocketType::MioUdp,
            SocketType::MioUdpExhaustive,
            SocketType::TokioUdpAsync,
            SocketType::TokioUdpSyncExhaustive,
        ]
    );
    for c in configs.iter() {
        assert_eq!(c.threads, 4);
        assert_eq!(c.ip_proto, IPProtocol::V4);
        assert_eq!(c.conn_m, ConnectionMode::Unconnected);
        assert_eq!(c.payload_sz, 300);
    }
}

#[test]
fn set_variable_keeps_the_given_order() {
    let mut builder = TestSuiteBuilder::default();
    builder.set_fixed("socket_t", ConfigValue::SocketT(SocketType::MioUdp));
    builder.set_fixed("threads", ConfigValue::Threads(2));
    builder.set_fixed("conn_m", ConfigValue::ConnM(ConnectionMode::Connected));
    builder.set_fixed("ip_proto", ConfigValue::IpProto(IPProtocol::V6));
    builder.set_variable(
        "payload_sz",
        &[ConfigValue::PayloadSz(1), ConfigValue::PayloadSz(2), ConfigValue::PayloadSz(3)],
    );
    let suite = builder.finish().unwrap();
    let sizes: Vec<usize> = collect(&suite).iter().map(|c| c.payload_sz).collect();
    assert_eq!(sizes, vec![1, 2, 3]);
}

#[test]
fn empty_builder_misses_fields() {
    let builder = TestSuiteBuilder::new();
    assert_eq!(builder.finish().err(), Some(SuiteError::MissingField));
}

#[test]
fn empty_option_list_is_incomplete() {
    let mut builder = TestSuiteBuilder::default();
    builder.set_variable("conn_m", &[]);
    assert_eq!(builder.finish().err(), Some(SuiteError::IncompleteSpecification));
}

#[test]
fn first_failing_field_decides_the_error() {
    let mut builder = TestSuiteBuilder::new();
    builder.set_variable("socket_t", &[]);
    assert_eq!(builder.finish().err(), Some(SuiteError::IncompleteSpecification));
    let mut builder = TestSuiteBuilder::new();
    builder.set_fixed("socket_t", ConfigValue::SocketT(SocketType::MioUdp));
    builder.set_variable("threads", &[]);
    builder.set_variable("conn_m", &[]);
    assert_eq!(builder.finish().err(), Some(SuiteError::IncompleteSpecification));
    let mut builder = TestSuiteBuilder::new();
    builder.set_fixed("socket_t", ConfigValue::SocketT(SocketType::MioUdp));
    builder.set_variable("conn_m", &[]);
    assert_eq!(builder.finish().err(), Some(SuiteError::MissingField));
}

#[test]
fn complete_suite_without_order_is_valid_but_not_runnable() {
    let mut builder = TestSuiteBuilder::new();
    builder.set_fixed("socket_t", ConfigValue::SocketT(SocketType::MioUdp));
    builder.set_fixed("threads", ConfigValue::Threads(2));
    builder.set_fixed("conn_m", ConfigValue::ConnM(ConnectionMode::Connected));
    builder.set_fixed("ip_proto", ConfigValue::IpProto(IPProtocol::V6));
    builder.set_fixed("duration", ConfigValue::Duration(Duration::from_millis(5)));
    builder.set_fixed("warmup", ConfigValue::Warmup(Duration::from_millis(1)));
    builder.set_fixed("payload_sz", ConfigValue::PayloadSz(10));
    let suite = builder.finish().unwrap();
    assert!(!suite.is_runnable());
}

#[test]
fn mismatched_option_is_not_runnable() {
    let mut builder = TestSuiteBuilder::default();
    builder.set_fixed("threads", ConfigValue::PayloadSz(3));
    let suite = builder.finish().unwrap();
    assert!(!suite.is_runnable());
    assert!(default_test_suite(3).is_runnable());
}

#[test]
fn default_builder_has_cpu_count_option() {
    let builder = TestSuiteBuilder::default();
    let suite = builder.finish().unwrap();
    let configs = collect(&suite);
    assert_eq!(configs.len(), 180);
    let cpus = configs[40].threads;
    assert!(cpus >= 1);
    assert_eq!(configs[0].duration, Duration::from_millis(1000));
}

#[test]
fn finalize_reads_every_field() {
    let mut partial = PartialTestConfig::default();
    partial.insert(SOCKET_T, ConfigValue::SocketT(SocketType::TokioUdpAsync));
    partial.insert(THREADS, ConfigValue::Threads(7));
    partial.insert(CONN_M, ConfigValue::ConnM(ConnectionMode::Connected));
    partial.insert(IP_PROTO, ConfigValue::IpProto(IPProtocol::V6));
    partial.insert(DURATION, ConfigValue::Duration(Duration::from_millis(2000)));
    partial.insert(WARMUP, ConfigValue::Warmup(Duration::from_millis(50)));
    partial.insert(PAYLOAD_SZ, ConfigValue::PayloadSz(512));
    partial.insert(PAYLOAD_SZ, ConfigValue::PayloadSz(1024));
    let config = partial.finalize();
    assert_eq!(
        config,
        TestConfig {
            socket_t: SocketType::TokioUdpAsync,
            threads: 7,
            conn_m: ConnectionMode::Connected,
            ip_proto: IPProtocol::V6,
            duration: Duration::from_millis(2000),
            warmup: Duration::from_millis(50),
            payload_sz: 1024,
        }
    );
}

#[test]
fn config_values_know_their_field() {
    assert_eq!(ConfigValue::SocketT(SocketType::MioUdp).field(), SOCKET_T);
    assert_eq!(ConfigValue::Threads(3).field(), THREADS);
    assert_eq!(ConfigValue::ConnM(ConnectionMode::Connected).field(), CONN_M);
    assert_eq!(ConfigValue::IpProto(IPProtocol::V4).field(), IP_PROTO);
    assert_eq!(ConfigValue::Duration(Duration::from_millis(1)).field(), DURATION);
    assert_eq!(ConfigValue::Warmup(Duration::from_millis(1)).field(), WARMUP);
    assert_eq!(ConfigValue::PayloadSz(1).field(), PAYLOAD_SZ);
}

#[test]
fn error_messages() {
    assert_eq!(SuiteError::InvalidField.message(), "Invalid field");
    assert_eq!(
        SuiteError::IncompleteSpecification.message(),
        "Incomplete TestSuite specification"
    );
    assert_eq!(SuiteError::MissingField.message(), "Missing field");
    assert_eq!(SuiteError::Unimplemented.message(), "Unimplemented");
}

#[test]
fn two_iterators_yield_the_same_sequence() {
    let suite = default_test_suite(6);
    let first = collect(&suite);
    let second = collect(&suite);
    assert_eq!(first, second);
    assert_eq!(first.len(), 180);
}
