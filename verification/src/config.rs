//! Benchmark configurations: the option types, the named fields of a
//! configuration, and the partial configuration that is completed field by field.

use vstd::prelude::*;
use std::collections::HashMap;
use std::time::Duration;

verus! {

/// Internet protocol version of the sockets.
#[derive(Clone, Copy, PartialEq, Eq, Structural, Debug)]
pub enum IPProtocol {
    V4,
    V6,
}

/// Whether the sending socket is connected to the receiver.
#[derive(Clone, Copy, PartialEq, Eq, Structural, Debug)]
pub enum ConnectionMode {
    Connected,
    Unconnected,
}

/// The socket implementation under test.
#[derive(Clone, Copy, PartialEq, Eq, Structural, Debug)]
pub enum SocketType {
    StdUdpBlock,
    MioUdp,
    MioUdpExhaustive,
    TokioUdpAsync,
    TokioUdpSyncExhaustive,
}

/// One option of one configuration field.
#[derive(Clone, Copy, Debug)]
pub enum ConfigValue {
    SocketT(SocketType),
    Threads(usize),
    ConnM(ConnectionMode),
    IpProto(IPProtocol),
    Duration(Duration),
    Warmup(Duration),
    PayloadSz(usize),
}

/// The number of fields of a configuration.
pub const FIELD_COUNT: usize = 7;

/// The name of field `i`, in the order of `TestSuite::field_names`.
pub open spec fn field_name(i: int) -> Seq<char> {
    if i == 0 {
        "socket_t"@
    } else if i == 1 {
        "threads"@
    } else if i == 2 {
        "conn_m"@
    } else if i == 3 {
        "ip_proto"@
    } else if i == 4 {
        "duration"@
    } else if i == 5 {
        "warmup"@
    } else if i == 6 {
        "payload_sz"@
    } else {
        Seq::empty()
    }
}

/// Index of the field `socket_t`.
pub const SOCKET_T: usize = 0;
/// Index of the field `threads`.
pub const THREADS: usize = 1;
/// Index of the field `conn_m`.
pub const CONN_M: usize = 2;
/// Index of the field `ip_proto`.
pub const IP_PROTO: usize = 3;
/// Index of the field `duration`.
pub const DURATION: usize = 4;
/// Index of the field `warmup`.
pub const WARMUP: usize = 5;
/// Index of the field `payload_sz`.
pub const PAYLOAD_SZ: usize = 6;

/// The index of the field called `name`, if there is one.
pub open spec fn field_of_name(name: Seq<char>) -> Option<usize> {
    if name == field_name(0) {
        Some(0)
    } else if name == field_name(1) {
        Some(1)
    } else if name == field_name(2) {
        Some(2)
    } else if name == field_name(3) {
        Some(3)
    } else if name == field_name(4) {
        Some(4)
    } else if name == field_name(5) {
        Some(5)
    } else if name == field_name(6) {
        Some(6)
    } else {
        None
    }
}

/// Whether `v` is an option of field `field`: each variant of `ConfigValue`
/// belongs to exactly one field.
pub open spec fn fits_field(field: int, v: ConfigValue) -> bool {
    match v {
        ConfigValue::SocketT(_) => field == 0,
        ConfigValue::Threads(_) => field == 1,
        ConfigValue::ConnM(_) => field == 2,
        ConfigValue::IpProto(_) => field == 3,
        ConfigValue::Duration(_) => field == 4,
        ConfigValue::Warmup(_) => field == 5,
        ConfigValue::PayloadSz(_) => field == 6,
    }
}

/// No two fields share a name.
pub proof fn lemma_field_names_distinct()
    ensures
        forall|i: int, j: int|
            0 <= i < 7 && 0 <= j < 7 && i != j ==> #[trigger] field_name(i) != #[trigger] field_name(
                j,
            ),
{
    reveal_strlit("socket_t");
    reveal_strlit("threads");
    reveal_strlit("conn_m");
    reveal_strlit("ip_proto");
    reveal_strlit("duration");
    reveal_strlit("warmup");
    reveal_strlit("payload_sz");
    assert(field_name(0)[0] == 's');
    assert(field_name(1)[0] == 't');
    assert(field_name(2)[0] == 'c');
    assert(field_name(3)[0] == 'i');
    assert(field_name(4)[0] == 'd');
    assert(field_name(5)[0] == 'w');
    assert(field_name(6)[0] == 'p');
}

/// Each field's own name leads back to its index.
pub proof fn lemma_field_of_own_name(i: int)
    requires
        0 <= i < 7,
    ensures
        field_of_name(field_name(i)) == Some(i as usize),
{
    lemma_field_names_distinct();
}

impl ConfigValue {
    /// The index of the field that this value is an option of.
    pub fn field(&self) -> (f: usize)
        ensures
            f < 7,
            fits_field(f as int, *self),
    {
        match self {
            ConfigValue::SocketT(_) => SOCKET_T,
            ConfigValue::Threads(_) => THREADS,
            ConfigValue::ConnM(_) => CONN_M,
            ConfigValue::IpProto(_) => IP_PROTO,
            ConfigValue::Duration(_) => DURATION,
            ConfigValue::Warmup(_) => WARMUP,
            ConfigValue::PayloadSz(_) => PAYLOAD_SZ,
        }
    }
}

/// A complete benchmark configuration.
#[derive(Clone, Copy, Debug, PartialEq)]
pub struct TestConfig {
    pub socket_t: SocketType,
    pub threads: usize,
    pub conn_m: ConnectionMode,
    pub ip_proto: IPProtocol,
    pub duration: Duration,
    pub warmup: Duration,
    pub payload_sz: usize,
}

/// The value that `config` gives field `field`, as an option of that field.
pub open spec fn value_of(config: TestConfig, field: usize) -> ConfigValue {
    if field == 0 {
        ConfigValue::SocketT(config.socket_t)
    } else if field == 1 {
        ConfigValue::Threads(config.threads)
    } else if field == 2 {
        ConfigValue::ConnM(config.conn_m)
    } else if field == 3 {
        ConfigValue::IpProto(config.ip_proto)
    } else if field == 4 {
        ConfigValue::Duration(config.duration)
    } else if field == 5 {
        ConfigValue::Warmup(config.warmup)
    } else {
        ConfigValue::PayloadSz(config.payload_sz)
    }
}

/// A configuration under construction: a value for some of the fields,
/// keyed by field index.
pub struct PartialTestConfig {
    fields: HashMap<usize, ConfigValue>,
}

impl View for PartialTestConfig {
    type V = Map<usize, ConfigValue>;

    closed spec fn view(&self) -> Map<usize, ConfigValue> {
        self.fields@
    }
}

impl Default for PartialTestConfig {
    fn default() -> (r: Self)
        ensures
            r@ == Map::<usize, ConfigValue>::empty(),
    {
        PartialTestConfig { fields: HashMap::new() }
    }
}

impl PartialTestConfig {
    /// Every field has a value, and each value is an option of its field.
    pub open spec fn is_complete(self) -> bool {
        forall|i: usize| i < 7 ==> #[trigger] self@.contains_key(i) && fits_field(i as int, self@[i])
    }

    /// Sets the value of field `field`, replacing any earlier one.
    pub fn insert(&mut self, field: usize, value: ConfigValue)
        ensures
            final(self)@ == old(self)@.insert(field, value),
    {
        broadcast use vstd::std_specs::hash::group_hash_axioms;

        self.fields.insert(field, value);
    }

    /// The configuration that the field values describe.
    pub fn finalize(self) -> (config: TestConfig)
        requires
            self.is_complete(),
        ensures
            self@[SOCKET_T] == ConfigValue::SocketT(config.socket_t),
            self@[THREADS] == ConfigValue::Threads(config.threads),
            self@[CONN_M] == ConfigValue::ConnM(config.conn_m),
            self@[IP_PROTO] == ConfigValue::IpProto(config.ip_proto),
            self@[DURATION] == ConfigValue::Duration(config.duration),
            self@[WARMUP] == ConfigValue::Warmup(config.warmup),
            self@[PAYLOAD_SZ] == ConfigValue::PayloadSz(config.payload_sz),
    {
        broadcast use vstd::std_specs::hash::group_hash_axioms;

        let mut fields = self.fields;
        let ghost m = fields@;
        assert(m.contains_key(0usize) && m.contains_key(1usize) && m.contains_key(2usize)
            && m.contains_key(3usize) && m.contains_key(4usize) && m.contains_key(5usize)
            && m.contains_key(6usize));
        let socket_t = match fields.remove(&SOCKET_T) {
            Some(ConfigValue::SocketT(v)) => v,
            _ => unreached(),
        };
        let threads = match fields.remove(&THREADS) {
            Some(ConfigValue::Threads(v)) => v,
            _ => unreached(),
        };
        let conn_m = match fields.remove(&CONN_M) {
            Some(ConfigValue::ConnM(v)) => v,
            _ => unreached(),
        };
        let ip_proto = match fields.remove(&IP_PROTO) {
            Some(ConfigValue::IpProto(v)) => v,
            _ => unreached(),
        };
        let duration = match fields.remove(&DURATION) {
            Some(ConfigValue::Duration(v)) => v,
            _ => unreached(),
        };
        let warmup = match fields.remove(&WARMUP) {
            Some(ConfigValue::Warmup(v)) => v,
            _ => unreached(),
        };
        let payload_sz = match fields.remove(&PAYLOAD_SZ) {
            Some(ConfigValue::PayloadSz(v)) => v,
            _ => unreached(),
        };
        TestConfig { socket_t, threads, conn_m, ip_proto, duration, warmup, payload_sz }
    }
}

} // verus!
