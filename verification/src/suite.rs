//! Benchmark suites: for each configuration field a list of options, and an
//! order in which the fields are varied. A suite's iterator yields every
//! combination of options exactly once.

use vstd::prelude::*;
use std::collections::HashMap;
use crate::config::{
    field_name, field_of_name, fits_field, value_of, ConfigValue, ConnectionMode, IPProtocol,
    PartialTestConfig, SocketType, TestConfig, CONN_M, DURATION, FIELD_COUNT, IP_PROTO,
    PAYLOAD_SZ, SOCKET_T, THREADS, WARMUP,
};
use crate::error::SuiteError;
use crate::odometer::{
    digits_valid, place_value, position, position_count, position_from, radices_valid,
    lemma_position_frame, lemma_position_bounds, lemma_position_zero, lemma_positions_biject,
    is_position_of_some_digits, product, lemma_place_value_is_product, lemma_product_permuted,
    digits_at, lemma_digits_at,
};
use crate::platform::{cpu_count, duration_of_millis, millis};
use crate::smallvec_model::{
    options_from_slice, options_get, options_len, order_from_slice, order_get, order_len, order_new,
    FieldOrder, OptionList,
};

verus! {

broadcast use vstd::std_specs::hash::group_hash_axioms;

/// What a suite holds: the option list of each field that has one, and the
/// variation order, from the field varied least often to the one varied most often.
pub struct SuiteView {
    pub options: Map<usize, Seq<ConfigValue>>,
    pub order: Seq<usize>,
}

impl SuiteView {
    /// Every entry of the variation order is a field.
    pub open spec fn order_is_valid(self) -> bool {
        forall|k: int| 0 <= k < self.order.len() ==> #[trigger] self.order[k] < 7
    }

    /// The verdict on the fields from `from` on: the first of them, in field
    /// order, that has no option list or an empty one decides the error.
    pub open spec fn first_problem(self, from: int) -> Result<(), SuiteError>
        decreases 7 - from,
    {
        if from < 0 || from >= 7 {
            Ok(())
        } else if !self.options.contains_key(from as usize) {
            Err(SuiteError::MissingField)
        } else if self.options[from as usize].len() == 0 {
            Err(SuiteError::IncompleteSpecification)
        } else {
            self.first_problem(from + 1)
        }
    }

    /// The verdict of checking the suite.
    pub open spec fn validation(self) -> Result<(), SuiteError> {
        if !self.order_is_valid() {
            Err(SuiteError::InvalidField)
        } else {
            self.first_problem(0)
        }
    }

    /// The suite can be enumerated: the variation order lists each of the
    /// seven fields once, and each field has a nonempty list of its own options.
    pub open spec fn is_runnable(self) -> bool {
        &&& self.order.len() == 7
        &&& forall|k: int| 0 <= k < 7 ==> #[trigger] self.order[k] < 7
        &&& forall|k: int, m: int|
            0 <= k < 7 && 0 <= m < 7 && k != m ==> #[trigger] self.order[k] != #[trigger] self.order[m]
        &&& forall|f: usize| f < 7 ==> #[trigger] self.order.contains(f)
        &&& forall|f: usize| f < 7 ==> #[trigger] self.options.contains_key(f)
        &&& forall|f: usize| f < 7 ==> #[trigger] self.options[f].len() >= 1
        &&& forall|f: usize, i: int|
            f < 7 && 0 <= i < self.options[f].len() ==> fits_field(
                f as int,
                #[trigger] self.options[f][i],
            )
    }

    /// The number of options of the field at each position of the variation order.
    pub open spec fn radices(self) -> Seq<int> {
        Seq::new(7, |k: int| self.options[self.order[k]].len() as int)
    }

    /// The number of combinations of options.
    pub open spec fn combination_count(self) -> int {
        position_count(self.radices())
    }

    /// The option that `digits` choose for position `k` of the variation order.
    pub open spec fn chosen(self, digits: Seq<int>, k: int) -> ConfigValue {
        self.options[self.order[k]][digits[k]]
    }

    /// `config` is the combination that `digits` choose: for each position `k`
    /// of the variation order, option number `digits[k]` of field `order[k]`.
    pub open spec fn is_combination(self, config: TestConfig, digits: Seq<int>) -> bool {
        forall|k: int| 0 <= k < 7 ==> value_of(config, #[trigger] self.order[k]) == self.chosen(digits, k)
    }

    /// `m` with the chosen options of positions `from` to 6 of the variation
    /// order set, one position after another.
    pub open spec fn fill_from(self, m: Map<usize, ConfigValue>, digits: Seq<int>, from: int) -> Map<
        usize,
        ConfigValue,
    >
        decreases 7 - from,
    {
        if from < 0 || from >= 7 {
            m
        } else {
            self.fill_from(m.insert(self.order[from], self.chosen(digits, from)), digits, from + 1)
        }
    }
}

/// The suite with which a default builder starts, for a machine with `cpus` CPUs.
pub open spec fn default_suite_view(cpus: usize) -> SuiteView {
    SuiteView {
        options: map![
            SOCKET_T => seq![
                ConfigValue::SocketT(SocketType::StdUdpBlock),
                ConfigValue::SocketT(SocketType::MioUdp),
                ConfigValue::SocketT(SocketType::MioUdpExhaustive),
                ConfigValue::SocketT(SocketType::TokioUdpAsync),
                ConfigValue::SocketT(SocketType::TokioUdpSyncExhaustive),
            ],
            THREADS => seq![ConfigValue::Threads(1), ConfigValue::Threads(2), ConfigValue::Threads(cpus)],
            CONN_M => seq![
                ConfigValue::ConnM(ConnectionMode::Unconnected),
                ConfigValue::ConnM(ConnectionMode::Connected),
            ],
            IP_PROTO => seq![ConfigValue::IpProto(IPProtocol::V4), ConfigValue::IpProto(IPProtocol::V6)],
            DURATION => seq![ConfigValue::Duration(duration_of_millis(1000))],
            WARMUP => seq![ConfigValue::Warmup(duration_of_millis(100))],
            PAYLOAD_SZ => seq![
                ConfigValue::PayloadSz(26),
                ConfigValue::PayloadSz(300),
                ConfigValue::PayloadSz(1460),
            ],
        ],
        order: seq![PAYLOAD_SZ, WARMUP, DURATION, THREADS, IP_PROTO, CONN_M, SOCKET_T],
    }
}

/// A benchmark suite.
pub struct TestSuite {
    fields: HashMap<usize, OptionList>,
    rev_var_order: FieldOrder,
}

impl View for TestSuite {
    type V = SuiteView;

    closed spec fn view(&self) -> SuiteView {
        SuiteView {
            options: self.fields@.map_values(|l: OptionList| l@),
            order: self.rev_var_order@,
        }
    }
}

fn str_eq(a: &str, b: &str) -> (r: bool)
    ensures
        r == (a@ == b@),
{
    let x = a.to_owned();
    let y = b.to_owned();
    x == y
}

/// The index of the field called `name`, or `None` where no field has that name.
pub fn field_index(name: &str) -> (r: Option<usize>)
    ensures
        r == field_of_name(name@),
{
    let names = TestSuite::field_names();
    let mut i: usize = 0;
    while i < FIELD_COUNT
        invariant
            i <= 7,
            forall|j: int| 0 <= j < 7 ==> #[trigger] names@[j]@ == field_name(j),
            forall|j: int| 0 <= j < i ==> name@ != #[trigger] field_name(j),
        decreases 7 - i,
    {
        if str_eq(names[i], name) {
            return Some(i);
        }
        i = i + 1;
    }
    None
}

impl Default for TestSuite {
    /// A suite with no fields and an empty variation order.
    fn default() -> (s: TestSuite)
        ensures
            s@.options == Map::<usize, Seq<ConfigValue>>::empty(),
            s@.order == Seq::<usize>::empty(),
    {
        let s = TestSuite { fields: HashMap::new(), rev_var_order: order_new() };
        assert(s@.options =~= Map::<usize, Seq<ConfigValue>>::empty());
        s
    }
}

impl TestSuite {
    /// The names of the seven fields, in field-index order.
    pub fn field_names() -> (names: &'static [&'static str; 7])
        ensures
            forall|i: int| 0 <= i < 7 ==> #[trigger] names@[i]@ == field_name(i),
    {
        &["socket_t", "threads", "conn_m", "ip_proto", "duration", "warmup", "payload_sz"]
    }

    /// Checks that the variation order names only fields and that every field
    /// has a nonempty option list.
    fn validate(&self) -> (r: Result<(), SuiteError>)
        ensures
            r == self@.validation(),
    {
        let n = order_len(&self.rev_var_order);
        let mut j: usize = 0;
        while j < n
            invariant
                j <= n,
                n == self@.order.len(),
                forall|k: int| 0 <= k < j ==> #[trigger] self@.order[k] < 7,
            decreases n - j,
        {
            if order_get(&self.rev_var_order, j) >= FIELD_COUNT {
                return Err(SuiteError::InvalidField);
            }
            j = j + 1;
        }
        assert(self@.order_is_valid());
        let mut f: usize = 0;
        while f < FIELD_COUNT
            invariant
                f <= 7,
                self@.order_is_valid(),
                self@.validation() == self@.first_problem(f as int),
            decreases 7 - f,
        {
            match self.fields.get(&f) {
                Some(list) => {
                    if options_len(list) < 1 {
                        return Err(SuiteError::IncompleteSpecification);
                    }
                },
                None => {
                    return Err(SuiteError::MissingField);
                },
            }
            f = f + 1;
        }
        Ok(())
    }

    /// Whether the suite can be enumerated (see `SuiteView::is_runnable`).
    pub fn is_runnable(&self) -> (r: bool)
        ensures
            r == self@.is_runnable(),
    {
        let n = order_len(&self.rev_var_order);
        if n != FIELD_COUNT {
            return false;
        }
        let mut k: usize = 0;
        while k < FIELD_COUNT
            invariant
                self@.order.len() == 7,
                k <= 7,
                forall|j: int| 0 <= j < k ==> #[trigger] self@.order[j] < 7,
            decreases 7 - k,
        {
            if order_get(&self.rev_var_order, k) >= FIELD_COUNT {
                return false;
            }
            k = k + 1;
        }
        let mut k: usize = 0;
        while k < FIELD_COUNT
            invariant
                self@.order.len() == 7,
                k <= 7,
                forall|j: int| 0 <= j < 7 ==> #[trigger] self@.order[j] < 7,
                forall|a: int, b: int|
                    0 <= a < k && 0 <= b < 7 && a != b ==> #[trigger] self@.order[a]
                        != #[trigger] self@.order[b],
            decreases 7 - k,
        {
            let x = order_get(&self.rev_var_order, k);
            let mut m: usize = 0;
            while m < FIELD_COUNT
                invariant
                    self@.order.len() == 7,
                    k < 7,
                    m <= 7,
                    x == self@.order[k as int],
                    forall|b: int| 0 <= b < m && b != k ==> x != #[trigger] self@.order[b],
                decreases 7 - m,
            {
                if m != k && order_get(&self.rev_var_order, m) == x {
                    return false;
                }
                m = m + 1;
            }
            k = k + 1;
        }
        let mut f: usize = 0;
        while f < FIELD_COUNT
            invariant
                self@.order.len() == 7,
                f <= 7,
                forall|j: int| 0 <= j < 7 ==> #[trigger] self@.order[j] < 7,
                forall|a: int, b: int|
                    0 <= a < 7 && 0 <= b < 7 && a != b ==> #[trigger] self@.order[a]
                        != #[trigger] self@.order[b],
                forall|g: usize| g < f ==> #[trigger] self@.order.contains(g),
            decreases 7 - f,
        {
            let mut k: usize = 0;
            let mut found = false;
            while k < FIELD_COUNT
                invariant
                    self@.order.len() == 7,
                    k <= 7,
                    found ==> self@.order.contains(f),
                    !found ==> forall|j: int| 0 <= j < k ==> #[trigger] self@.order[j] != f,
                decreases 7 - k,
            {
                if order_get(&self.rev_var_order, k) == f {
                    found = true;
                }
                k = k + 1;
            }
            if !found {
                assert(!self@.order.contains(f));
                return false;
            }
            f = f + 1;
        }
        let mut f: usize = 0;
        while f < FIELD_COUNT
            invariant
                self@.order.len() == 7,
                f <= 7,
                forall|j: int| 0 <= j < 7 ==> #[trigger] self@.order[j] < 7,
                forall|a: int, b: int|
                    0 <= a < 7 && 0 <= b < 7 && a != b ==> #[trigger] self@.order[a]
                        != #[trigger] self@.order[b],
                forall|g: usize| g < 7 ==> #[trigger] self@.order.contains(g),
                forall|g: usize| g < f ==> #[trigger] self@.options.contains_key(g),
                forall|g: usize| g < f ==> #[trigger] self@.options[g].len() >= 1,
                forall|g: usize, i: int|
                    g < f && 0 <= i < self@.options[g].len() ==> fits_field(
                        g as int,
                        #[trigger] self@.options[g][i],
                    ),
            decreases 7 - f,
        {
            match self.fields.get(&f) {
                None => {
                    assert(!self@.options.contains_key(f));
                    return false;
                },
                Some(list) => {
                    let len = options_len(list);
                    if len < 1 {
                        assert(self@.options[f].len() < 1);
                        return false;
                    }
                    let mut i: usize = 0;
                    while i < len
                        invariant
                            f < 7,
                            i <= len,
                            len == list@.len(),
                            self@.options.contains_key(f),
                            self@.options[f] == list@,
                            forall|j: int| 0 <= j < i ==> fits_field(f as int, #[trigger] list@[j]),
                        decreases len - i,
                    {
                        if options_get(list, i).field() != f {
                            assert(!fits_field(f as int, self@.options[f][i as int]));
                            return false;
                        }
                        i = i + 1;
                    }
                },
            }
            f = f + 1;
        }
        true
    }

    /// An iterator over every combination of the suite's options.
    pub fn iter(&self) -> (it: TestSuiteIterator<'_>)
        requires
            self@.is_runnable(),
        ensures
            it.wf(),
            it.suite() == self@,
            !it.is_finished(),
            it.digits() == Seq::new(7, |k: int| 0int),
            it.position() == 0,
            it.yielded() == Seq::<TestConfig>::empty(),
    {
        let it = TestSuiteIterator {
            src: self,
            finished: false,
            variant_indexes: [0, 0, 0, 0, 0, 0, 0],
            yielded: Ghost(Seq::empty()),
        };
        assert(it.digits() =~= Seq::new(7, |k: int| 0int));
        proof {
            lemma_position_zero(it.digits(), it.suite().radices(), 0);
        }
        it
    }
}

/// The default suite for a machine with `cpus` CPUs: every socket type, one
/// and two threads and one per CPU, both connection modes, both protocol
/// versions, one second of measurement after a tenth of a second of warm-up,
/// and payloads of 26, 300 and 1460 bytes. The payload size varies least often
/// and the socket type most often.
pub fn default_test_suite(cpus: usize) -> (s: TestSuite)
    ensures
        s@ == default_suite_view(cpus),
{
    let ghost want = default_suite_view(cpus);
    let socket_types = [
        ConfigValue::SocketT(SocketType::StdUdpBlock),
        ConfigValue::SocketT(SocketType::MioUdp),
        ConfigValue::SocketT(SocketType::MioUdpExhaustive),
        ConfigValue::SocketT(SocketType::TokioUdpAsync),
        ConfigValue::SocketT(SocketType::TokioUdpSyncExhaustive),
    ];
    let threads = [ConfigValue::Threads(1), ConfigValue::Threads(2), ConfigValue::Threads(cpus)];
    let conn_modes = [
        ConfigValue::ConnM(ConnectionMode::Unconnected),
        ConfigValue::ConnM(ConnectionMode::Connected),
    ];
    let protocols = [ConfigValue::IpProto(IPProtocol::V4), ConfigValue::IpProto(IPProtocol::V6)];
    let durations = [ConfigValue::Duration(millis(1000))];
    let warmups = [ConfigValue::Warmup(millis(100))];
    let payloads = [
        ConfigValue::PayloadSz(26),
        ConfigValue::PayloadSz(300),
        ConfigValue::PayloadSz(1460),
    ];
    let order = [PAYLOAD_SZ, WARMUP, DURATION, THREADS, IP_PROTO, CONN_M, SOCKET_T];
    assert(socket_types@ =~= want.options[SOCKET_T]);
    assert(threads@ =~= want.options[THREADS]);
    assert(conn_modes@ =~= want.options[CONN_M]);
    assert(protocols@ =~= want.options[IP_PROTO]);
    assert(durations@ =~= want.options[DURATION]);
    assert(warmups@ =~= want.options[WARMUP]);
    assert(payloads@ =~= want.options[PAYLOAD_SZ]);
    assert(order@ =~= want.order);

    let mut fields: HashMap<usize, OptionList> = HashMap::new();
    fields.insert(SOCKET_T, options_from_slice(socket_types.as_slice()));
    fields.insert(THREADS, options_from_slice(threads.as_slice()));
    fields.insert(CONN_M, options_from_slice(conn_modes.as_slice()));
    fields.insert(IP_PROTO, options_from_slice(protocols.as_slice()));
    fields.insert(DURATION, options_from_slice(durations.as_slice()));
    fields.insert(WARMUP, options_from_slice(warmups.as_slice()));
    fields.insert(PAYLOAD_SZ, options_from_slice(payloads.as_slice()));
    let rev_var_order = order_from_slice(order.as_slice());
    let s = TestSuite { fields, rev_var_order };
    assert(s@.options =~= want.options);
    s
}

/// Builds a suite field by field, starting from an empty or the default suite.
pub struct TestSuiteBuilder {
    suite: TestSuite,
}

impl View for TestSuiteBuilder {
    type V = SuiteView;

    closed spec fn view(&self) -> SuiteView {
        self.suite@
    }
}

impl TestSuiteBuilder {
    /// A builder that starts from a suite with no fields and an empty variation order.
    pub fn new() -> (b: TestSuiteBuilder)
        ensures
            b@.options == Map::<usize, Seq<ConfigValue>>::empty(),
            b@.order == Seq::<usize>::empty(),
    {
        TestSuiteBuilder { suite: TestSuite::default() }
    }

    /// A builder that starts from the default suite for this machine's CPU count.
    pub fn default() -> (b: TestSuiteBuilder)
        ensures
            exists|cpus: usize| cpus >= 1 && b@ == default_suite_view(cpus),
    {
        let cpus = cpu_count();
        TestSuiteBuilder { suite: default_test_suite(cpus) }
    }

    /// Gives the field called `field_name` the single option `field_value`.
    pub fn set_fixed(&mut self, field_name: &str, field_value: ConfigValue)
        requires
            field_of_name(field_name@) is Some,
        ensures
            final(self)@.options == old(self)@.options.insert(
                field_of_name(field_name@).unwrap(),
                seq![field_value],
            ),
            final(self)@.order == old(self)@.order,
    {
        let field = match field_index(field_name) {
            Some(f) => f,
            None => unreached(),
        };
        let single = [field_value];
        assert(single@ =~= seq![field_value]);
        let list = options_from_slice(single.as_slice());
        self.suite.fields.insert(field, list);
        assert(self@.options =~= old(self)@.options.insert(field, seq![field_value]));
    }

    /// Gives the field called `field_name` the options `options`, in order.
    pub fn set_variable(&mut self, field_name: &str, options: &[ConfigValue])
        requires
            field_of_name(field_name@) is Some,
        ensures
            final(self)@.options == old(self)@.options.insert(
                field_of_name(field_name@).unwrap(),
                options@,
            ),
            final(self)@.order == old(self)@.order,
    {
        let field = match field_index(field_name) {
            Some(f) => f,
            None => unreached(),
        };
        let list = options_from_slice(options);
        self.suite.fields.insert(field, list);
        assert(self@.options =~= old(self)@.options.insert(field, options@));
    }

    /// The suite, once it has been checked: every entry of the variation order
    /// is a field and every field has a nonempty option list.
    pub fn finish(self) -> (r: Result<TestSuite, SuiteError>)
        ensures
            match r {
                Ok(s) => self@.validation() is Ok && s@ == self@,
                Err(e) => self@.validation() == Err::<(), SuiteError>(e),
            },
            r is Ok ==> forall|f: usize|
                f < 7 ==> #[trigger] self@.options.contains_key(f) && self@.options[f].len() >= 1,
            r is Ok ==> forall|k: int| 0 <= k < self@.order.len() ==> #[trigger] self@.order[k] < 7,
    {
        let ghost v = self@;
        proof {
            lemma_validation_meaning(v);
        }
        match self.suite.validate() {
            Ok(()) => {
                assert(v.validation() is Ok);
                assert(forall|f: usize|
                    f < 7 ==> #[trigger] v.options.contains_key(f) && v.options[f].len() >= 1);
                Ok(self.suite)
            },
            Err(e) => Err(e),
        }
    }
}

/// Enumerates the combinations of a suite's options. It keeps one digit per
/// position of the variation order, the number of the option chosen there; the
/// digits together are a mixed-radix number, the last position the least
/// significant, that counts the combinations yielded so far.
pub struct TestSuiteIterator<'a> {
    src: &'a TestSuite,
    finished: bool,
    variant_indexes: [usize; 7],
    yielded: Ghost<Seq<TestConfig>>,
}

impl<'a> TestSuiteIterator<'a> {
    /// The suite being enumerated.
    pub closed spec fn suite(self) -> SuiteView {
        self.src@
    }

    /// The option number chosen at each position of the variation order.
    pub closed spec fn digits(self) -> Seq<int> {
        Seq::new(7, |k: int| self.variant_indexes@[k] as int)
    }

    /// Every combination has been yielded.
    pub closed spec fn is_finished(self) -> bool {
        self.finished
    }

    /// The number of combinations yielded so far, unless finished.
    pub open spec fn position(self) -> int {
        position(self.digits(), self.suite().radices())
    }

    /// The configurations yielded so far, in order.
    pub closed spec fn yielded(self) -> Seq<TestConfig> {
        self.yielded@
    }

    /// The iterator's state is consistent with its suite: the configurations
    /// yielded so far are the combinations at positions 0, 1, 2, ..., and
    /// the position is their number, or all of them have been yielded.
    pub open spec fn wf(self) -> bool {
        &&& self.suite().is_runnable()
        &&& digits_valid(self.digits(), self.suite().radices())
        &&& self.is_finished() ==> self.position() == 0
        &&& self.is_finished() ==> self.yielded().len() == self.suite().combination_count()
        &&& !self.is_finished() ==> self.yielded().len() == self.position()
        &&& forall|i: int|
            0 <= i < self.yielded().len() ==> self.suite().is_combination(
                #[trigger] self.yielded()[i],
                digits_at(self.suite().radices(), i),
            )
    }

    /// Sets the chosen options of positions `field_ix` to 6 into `pconfig`, then
    /// advances those digits by one with carry. Returns whether they all
    /// wrapped around to zero.
    fn expand(&mut self, field_ix: usize, pconfig: &mut PartialTestConfig) -> (exhausted: bool)
        requires
            field_ix <= 7,
            old(self).suite().order.len() >= 7,
            forall|k: int|
                field_ix <= k < 7 ==> old(self).suite().options.contains_key(
                    #[trigger] old(self).suite().order[k],
                ),
            forall|k: int|
                field_ix <= k < 7 ==> 0 <= #[trigger] old(self).digits()[k]
                    < old(self).suite().radices()[k],
        ensures
            final(self).src == old(self).src,
            final(self).finished == old(self).finished,
            final(self).yielded == old(self).yielded,
            forall|k: int|
                field_ix <= k < 7 ==> 0 <= #[trigger] final(self).digits()[k]
                    < old(self).suite().radices()[k],
            forall|k: int| 0 <= k < field_ix ==> #[trigger] final(self).digits()[k] == old(self).digits()[k],
            exhausted ==> position_from(old(self).digits(), old(self).suite().radices(), field_ix as int) + 1
                == place_value(old(self).suite().radices(), field_ix as int),
            exhausted ==> position_from(final(self).digits(), old(self).suite().radices(), field_ix as int) == 0,
            !exhausted ==> position_from(final(self).digits(), old(self).suite().radices(), field_ix as int)
                == position_from(old(self).digits(), old(self).suite().radices(), field_ix as int) + 1,
            !exhausted ==> position_from(old(self).digits(), old(self).suite().radices(), field_ix as int) + 1
                < place_value(old(self).suite().radices(), field_ix as int),
            final(pconfig)@ == old(self).suite().fill_from(old(pconfig)@, old(self).digits(), field_ix as int),
        decreases 7 - field_ix,
    {
        if field_ix == FIELD_COUNT {
            return true;
        }
        let ghost v = self.suite();
        let ghost radices = v.radices();
        let ghost d0 = self.digits();
        let src = self.src;
        let field = order_get(&src.rev_var_order, field_ix);
        assert(v.options.contains_key(field));
        let list = src.fields.get(&field).unwrap();
        assert(list@ == v.options[field]);
        let digit = self.variant_indexes[field_ix];
        assert(digit == d0[field_ix as int]);
        pconfig.insert(field, options_get(list, digit));
        if self.expand(field_ix + 1, pconfig) {
            let ghost d1 = self.digits();
            let len = options_len(list);
            let current = self.variant_indexes[field_ix];
            assert(d1[field_ix as int] == d0[field_ix as int]);
            assert(current == digit);
            if current < len - 1 {
                self.variant_indexes[field_ix] = current + 1;
                proof {
                    let d2 = self.digits();
                    assert(d2 =~= d1.update(field_ix as int, digit + 1));
                    lemma_position_frame(d2, d1, radices, field_ix + 1);
                    let p = place_value(radices, field_ix + 1);
                    assert((digit + 1) * p == digit * p + p) by (nonlinear_arith);
                }
            } else {
                self.variant_indexes[field_ix] = 0;
                proof {
                    let d2 = self.digits();
                    assert(d2 =~= d1.update(field_ix as int, 0));
                    lemma_position_frame(d2, d1, radices, field_ix + 1);
                    let p = place_value(radices, field_ix + 1);
                    let r = radices[field_ix as int];
                    assert(digit + 1 == r);
                    assert(digit * p + p == r * p) by (nonlinear_arith)
                        requires
                            digit + 1 == r,
                    ;
                    assert(d2[field_ix as int] == 0);
                    assert(0 * p == 0) by (nonlinear_arith);
                    assert(position_from(d2, radices, field_ix as int) == 0 * p + position_from(
                        d2,
                        radices,
                        field_ix + 1,
                    ));
                }
                return true;
            }
        }
        proof {
            lemma_position_bounds(self.digits(), radices, field_ix as int);
        }
        false
    }

    /// The next combination, or `None` once every combination has been yielded.
    pub fn next(&mut self) -> (r: Option<TestConfig>)
        requires
            old(self).wf(),
        ensures
            final(self).wf(),
            final(self).suite() == old(self).suite(),
            old(self).is_finished() ==> r is None && final(self).is_finished() && final(self).yielded()
                == old(self).yielded(),
            !old(self).is_finished() ==> {
                &&& r is Some
                &&& final(self).yielded() == old(self).yielded().push(r.unwrap())
                &&& old(self).suite().is_combination(r.unwrap(), old(self).digits())
                &&& final(self).is_finished() <==> old(self).position() + 1
                    == old(self).suite().combination_count()
                &&& !final(self).is_finished() ==> final(self).position() == old(self).position() + 1
            },
    {
        if self.finished {
            return None;
        }
        let ghost v = self.suite();
        let ghost d0 = self.digits();
        let ghost p0 = self.position();
        let mut partial_config = PartialTestConfig::default();
        self.finished = self.expand(0, &mut partial_config);
        proof {
            lemma_fill_from(v, Map::empty(), d0, 0);
            assert forall|f: usize| f < 7 implies #[trigger] partial_config@.contains_key(f)
                && fits_field(f as int, partial_config@[f]) by {
                assert(v.order.contains(f));
                let k = choose|k: int| 0 <= k < 7 && v.order[k] == f;
                assert(v.fill_from(Map::empty(), d0, 0).contains_key(v.order[k]));
            }
        }
        let config = partial_config.finalize();
        proof {
            assert forall|k: int| 0 <= k < 7 implies value_of(config, #[trigger] v.order[k])
                == v.chosen(d0, k) by {
                assert(v.fill_from(Map::empty(), d0, 0).contains_key(v.order[k]));
            }
            lemma_each_combination_once(v);
            lemma_digits_at(v.radices());
            assert(digits_at(v.radices(), position(d0, v.radices())) == d0);
        }
        self.yielded = Ghost(self.yielded@.push(config));
        Some(config)
    }
}

/// Setting the chosen options of positions `from` to 6 sets each of those
/// fields to its chosen option and leaves the fields of earlier positions alone.
pub proof fn lemma_fill_from(v: SuiteView, m: Map<usize, ConfigValue>, digits: Seq<int>, from: int)
    requires
        v.is_runnable(),
        0 <= from <= 7,
    ensures
        forall|k: int|
            from <= k < 7 ==> #[trigger] v.fill_from(m, digits, from).contains_key(v.order[k])
                && v.fill_from(m, digits, from)[v.order[k]] == v.chosen(digits, k),
        forall|j: int|
            0 <= j < from ==> (#[trigger] v.fill_from(m, digits, from).contains_key(v.order[j])
                == m.contains_key(v.order[j])) && (m.contains_key(v.order[j]) ==> v.fill_from(
                m,
                digits,
                from,
            )[v.order[j]] == m[v.order[j]]),
    decreases 7 - from,
{
    if from < 7 {
        let m2 = m.insert(v.order[from], v.chosen(digits, from));
        lemma_fill_from(v, m2, digits, from + 1);
        assert forall|j: int| 0 <= j < from implies v.order[j] != v.order[from] by {}
    }
}

/// A suite that can be enumerated passes the check of `TestSuiteBuilder::finish`.
pub proof fn lemma_runnable_suite_is_valid(v: SuiteView)
    requires
        v.is_runnable(),
    ensures
        v.validation() == Ok::<(), SuiteError>(()),
{
    assert(v.order_is_valid());
    assert(v.first_problem(7) == Ok::<(), SuiteError>(()));
    assert(v.first_problem(6) == Ok::<(), SuiteError>(()));
    assert(v.first_problem(5) == Ok::<(), SuiteError>(()));
    assert(v.first_problem(4) == Ok::<(), SuiteError>(()));
    assert(v.first_problem(3) == Ok::<(), SuiteError>(()));
    assert(v.first_problem(2) == Ok::<(), SuiteError>(()));
    assert(v.first_problem(1) == Ok::<(), SuiteError>(()));
}

/// Enumerating a suite visits each combination of options exactly once. The
/// iterator's position (see `TestSuiteIterator::next`) runs 0, 1, 2, ... below
/// the number of combinations, which is the product of the fields' option
/// counts; these positions correspond one to one to the choices of an option
/// number for every position of the variation order.
pub proof fn lemma_each_combination_once(v: SuiteView)
    requires
        v.is_runnable(),
    ensures
        radices_valid(v.radices()),
        v.combination_count() == v.options[0].len() * v.options[1].len() * v.options[2].len()
            * v.options[3].len() * v.options[4].len() * v.options[5].len() * v.options[6].len(),
        forall|d: Seq<int>|
            digits_valid(d, v.radices()) ==> 0 <= #[trigger] position(d, v.radices())
                < v.combination_count(),
        forall|d1: Seq<int>, d2: Seq<int>|
            digits_valid(d1, v.radices()) && digits_valid(d2, v.radices()) && #[trigger] position(
                d1,
                v.radices(),
            ) == #[trigger] position(d2, v.radices()) ==> d1 == d2,
        forall|n: int|
            0 <= n < v.combination_count() ==> #[trigger] is_position_of_some_digits(
                v.radices(),
                n,
            ),
{
    let r = v.radices();
    assert forall|k: int| 0 <= k < r.len() implies #[trigger] r[k] >= 1 by {
        assert(v.order[k] < 7);
    }
    lemma_positions_biject(r);
    let counts = Seq::new(7, |f: int| v.options[f as usize].len() as int);
    lemma_place_value_is_product(r, 0);
    assert(r.subrange(0, 7) =~= r);
    lemma_product_permuted(counts, v.order);
    assert(Seq::new(v.order.len(), |j: int| counts[v.order[j] as int]) =~= r);
    let c0 = counts.subrange(0, 0);
    let c1 = counts.subrange(0, 1);
    let c2 = counts.subrange(0, 2);
    let c3 = counts.subrange(0, 3);
    let c4 = counts.subrange(0, 4);
    let c5 = counts.subrange(0, 5);
    let c6 = counts.subrange(0, 6);
    assert(counts.drop_last() =~= c6);
    assert(c6.drop_last() =~= c5);
    assert(c5.drop_last() =~= c4);
    assert(c4.drop_last() =~= c3);
    assert(c3.drop_last() =~= c2);
    assert(c2.drop_last() =~= c1);
    assert(c1.drop_last() =~= c0);
    assert(product(c0) == 1);
    assert(product(c1) == counts[0]);
    assert(product(c2) == counts[0] * counts[1]);
    assert(product(c3) == counts[0] * counts[1] * counts[2]);
    assert(product(c4) == counts[0] * counts[1] * counts[2] * counts[3]);
    assert(product(c5) == counts[0] * counts[1] * counts[2] * counts[3] * counts[4]);
    assert(product(c6) == counts[0] * counts[1] * counts[2] * counts[3] * counts[4] * counts[5]);
    assert(product(counts) == counts[0] * counts[1] * counts[2] * counts[3] * counts[4]
        * counts[5] * counts[6]);
}

/// The default suite can be enumerated, whatever the CPU count, and has
/// 5 * 3 * 2 * 2 * 1 * 1 * 3 = 180 combinations.
pub proof fn lemma_default_suite_runnable(cpus: usize)
    ensures
        default_suite_view(cpus).is_runnable(),
        default_suite_view(cpus).combination_count() == 180,
{
    let v = default_suite_view(cpus);
    assert(v.order[6] == 0usize && v.order[3] == 1usize && v.order[5] == 2usize && v.order[4] == 3usize
        && v.order[2] == 4usize && v.order[1] == 5usize && v.order[0] == 6usize);
    assert forall|f: usize| f < 7 implies #[trigger] v.order.contains(f) by {
        if f == 0 { assert(v.order[6] == f); }
        else if f == 1 { assert(v.order[3] == f); }
        else if f == 2 { assert(v.order[5] == f); }
        else if f == 3 { assert(v.order[4] == f); }
        else if f == 4 { assert(v.order[2] == f); }
        else if f == 5 { assert(v.order[1] == f); }
        else { assert(v.order[0] == f); }
    }
    let r = v.radices();
    assert(r[0] == 3 && r[1] == 1 && r[2] == 1 && r[3] == 3 && r[4] == 2 && r[5] == 2 && r[6] == 5);
    assert(r.len() == 7);
    assert(place_value(r, 7) == 1);
    assert(place_value(r, 6) == 5);
    assert(place_value(r, 5) == 10);
    assert(place_value(r, 4) == 20);
    assert(place_value(r, 3) == 60);
    assert(place_value(r, 2) == 60);
    assert(place_value(r, 1) == 60);
    assert(place_value(r, 0) == 180);
}

/// A field with a single option, as `TestSuiteBuilder::set_fixed` leaves it,
/// has that option in every combination that the suite's iterator yields.
pub proof fn lemma_single_option_in_every_combination(
    v: SuiteView,
    field: usize,
    value: ConfigValue,
    config: TestConfig,
    digits: Seq<int>,
)
    requires
        v.is_runnable(),
        field < 7,
        v.options[field] == seq![value],
        digits_valid(digits, v.radices()),
        v.is_combination(config, digits),
    ensures
        value_of(config, field) == value,
{
    assert(v.order.contains(field));
    let k = choose|k: int| 0 <= k < v.order.len() && v.order[k] == field;
    assert(v.radices()[k] == 1);
    assert(digits[k] == 0);
    assert(value_of(config, v.order[k]) == v.chosen(digits, k));
}

/// Two configurations that are the same combination are equal: every field
/// sits at some position of the variation order.
pub proof fn lemma_combination_determines_config(
    v: SuiteView,
    c1: TestConfig,
    c2: TestConfig,
    digits: Seq<int>,
)
    requires
        v.is_runnable(),
        v.is_combination(c1, digits),
        v.is_combination(c2, digits),
    ensures
        c1 == c2,
{
    assert forall|f: usize| f < 7 implies value_of(c1, f) == value_of(c2, f) by {
        assert(v.order.contains(f));
        let k = choose|k: int| 0 <= k < v.order.len() && v.order[k] == f;
        assert(value_of(c1, v.order[k]) == v.chosen(digits, k));
        assert(value_of(c2, v.order[k]) == v.chosen(digits, k));
    }
    assert(value_of(c1, 0) == value_of(c2, 0));
    assert(value_of(c1, 1) == value_of(c2, 1));
    assert(value_of(c1, 2) == value_of(c2, 2));
    assert(value_of(c1, 3) == value_of(c2, 3));
    assert(value_of(c1, 4) == value_of(c2, 4));
    assert(value_of(c1, 5) == value_of(c2, 5));
    assert(value_of(c1, 6) == value_of(c2, 6));
}

/// The whole enumeration. An iterator from `TestSuite::iter` that has
/// finished (from then on `next` returns only `None`) has yielded exactly as
/// many configurations as there are combinations, the product of the fields'
/// option counts; the `i`-th of them is the combination whose mixed-radix
/// digits stand for `i`, the last position of the variation order the least
/// significant; and every combination of option numbers was yielded, exactly once.
pub proof fn lemma_whole_iteration<'a>(it: TestSuiteIterator<'a>)
    requires
        it.wf(),
        it.is_finished(),
    ensures
        it.yielded().len() == it.suite().combination_count(),
        it.suite().combination_count() == it.suite().options[0].len() * it.suite().options[1].len()
            * it.suite().options[2].len() * it.suite().options[3].len() * it.suite().options[4].len()
            * it.suite().options[5].len() * it.suite().options[6].len(),
        forall|i: int|
            0 <= i < it.yielded().len() ==> it.suite().is_combination(
                #[trigger] it.yielded()[i],
                digits_at(it.suite().radices(), i),
            ),
        forall|d: Seq<int>|
            digits_valid(d, it.suite().radices()) ==> {
                let i = #[trigger] position(d, it.suite().radices());
                &&& 0 <= i < it.yielded().len()
                &&& it.suite().is_combination(it.yielded()[i], d)
            },
        forall|i: int, j: int|
            0 <= i < it.yielded().len() && 0 <= j < it.yielded().len() && i != j ==> #[trigger] digits_at(
                it.suite().radices(),
                i,
            ) != #[trigger] digits_at(it.suite().radices(), j),
{
    let v = it.suite();
    let r = v.radices();
    lemma_each_combination_once(v);
    lemma_digits_at(r);
    assert forall|d: Seq<int>| digits_valid(d, r) implies {
        let i = #[trigger] position(d, r);
        &&& 0 <= i < it.yielded().len()
        &&& v.is_combination(it.yielded()[i], d)
    } by {
        let i = position(d, r);
        assert(digits_at(r, i) == d);
        assert(v.is_combination(it.yielded()[i], digits_at(r, i)));
    }
    assert forall|i: int, j: int|
        0 <= i < it.yielded().len() && 0 <= j < it.yielded().len() && i != j implies #[trigger] digits_at(
            r,
            i,
        ) != #[trigger] digits_at(r, j) by {
        assert(position(digits_at(r, i), r) == i);
        assert(position(digits_at(r, j), r) == j);
    }
}

/// Two iterators over the same suite yield the same sequence: wherever both
/// have yielded an `i`-th configuration, the two are equal. Iterating never
/// changes the suite (`TestSuite::iter` borrows it immutably).
pub proof fn lemma_iterations_agree<'a, 'b>(a: TestSuiteIterator<'a>, b: TestSuiteIterator<'b>)
    requires
        a.wf(),
        b.wf(),
        a.suite() == b.suite(),
    ensures
        forall|i: int|
            0 <= i < a.yielded().len() && 0 <= i < b.yielded().len() ==> #[trigger] a.yielded()[i]
                == #[trigger] b.yielded()[i],
{
    let v = a.suite();
    assert forall|i: int| 0 <= i < a.yielded().len() && 0 <= i < b.yielded().len() implies #[trigger] a.yielded()[i]
        == #[trigger] b.yielded()[i] by {
        lemma_combination_determines_config(v, a.yielded()[i], b.yielded()[i], digits_at(v.radices(), i));
    }
}

proof fn lemma_first_problem_ok(v: SuiteView, from: int)
    requires
        0 <= from <= 7,
        v.first_problem(from) is Ok,
    ensures
        forall|f: usize|
            from <= f < 7 ==> #[trigger] v.options.contains_key(f) && v.options[f].len() >= 1,
    decreases 7 - from,
{
    if from < 7 {
        lemma_first_problem_ok(v, from + 1);
        assert(v.options.contains_key(from as usize));
    }
}

proof fn lemma_first_problem_reaches(v: SuiteView, from: int, f: int)
    requires
        0 <= from <= f < 7,
        forall|g: usize|
            from <= g < f ==> #[trigger] v.options.contains_key(g) && v.options[g].len() >= 1,
    ensures
        v.first_problem(from) == v.first_problem(f),
    decreases f - from,
{
    if from < f {
        assert(v.options.contains_key(from as usize));
        lemma_first_problem_reaches(v, from + 1, f);
    }
}

/// What the check of `TestSuiteBuilder::finish` accepts: a suite passes
/// exactly when its variation order names only fields and each of the seven
/// fields has a nonempty option list. Otherwise the first field, in field
/// order, without a list gives `MissingField` and the first with an empty
/// list gives `IncompleteSpecification`, unless the order names a non-field,
/// which gives `InvalidField`.
pub proof fn lemma_validation_meaning(v: SuiteView)
    ensures
        v.validation() is Ok <==> (forall|k: int| 0 <= k < v.order.len() ==> #[trigger] v.order[k] < 7)
            && (forall|f: usize|
            f < 7 ==> #[trigger] v.options.contains_key(f) && v.options[f].len() >= 1),
        (exists|k: int| 0 <= k < v.order.len() && #[trigger] v.order[k] >= 7) ==> v.validation()
            == Err::<(), SuiteError>(SuiteError::InvalidField),
        forall|f: usize|
            f < 7 && (forall|k: int| 0 <= k < v.order.len() ==> #[trigger] v.order[k] < 7) && (forall|
                g: usize,
            |
                g < f ==> #[trigger] v.options.contains_key(g) && v.options[g].len() >= 1)
                ==> (!v.options.contains_key(f) ==> #[trigger] v.validation() == Err::<
                (),
                SuiteError,
            >(SuiteError::MissingField)) && (v.options.contains_key(f) && v.options[f].len() == 0
                ==> v.validation() == Err::<(), SuiteError>(SuiteError::IncompleteSpecification)),
{
    if v.validation() is Ok {
        assert(v.order_is_valid());
        lemma_first_problem_ok(v, 0);
    }
    if (forall|k: int| 0 <= k < v.order.len() ==> #[trigger] v.order[k] < 7) && (forall|f: usize|
        f < 7 ==> #[trigger] v.options.contains_key(f) && v.options[f].len() >= 1) {
        assert(v.order_is_valid());
        lemma_first_problem_reaches(v, 0, 6);
        assert(v.options.contains_key(6usize));
        assert(v.options[6usize].len() >= 1);
        assert(v.first_problem(7) is Ok);
        assert(v.first_problem(6) == v.first_problem(7));
        assert(v.validation() is Ok);
    }
    assert forall|f: usize|
        f < 7 && (forall|k: int| 0 <= k < v.order.len() ==> #[trigger] v.order[k] < 7) && (forall|
            g: usize,
        |
            g < f ==> #[trigger] v.options.contains_key(g) && v.options[g].len() >= 1) implies (
    !v.options.contains_key(f) ==> #[trigger] v.validation() == Err::<(), SuiteError>(
        SuiteError::MissingField,
    )) && (v.options.contains_key(f) && v.options[f].len() == 0 ==> v.validation() == Err::<
        (),
        SuiteError,
    >(SuiteError::IncompleteSpecification)) by {
        lemma_first_problem_reaches(v, 0, f as int);
    }
}

/// Whether a suite can be enumerated does not depend on how many options a
/// field has: giving any field any nonempty list of its own options keeps a
/// runnable suite runnable.
pub proof fn lemma_runnable_any_option_count(v: SuiteView, field: usize, opts: Seq<ConfigValue>)
    requires
        v.is_runnable(),
        field < 7,
        opts.len() >= 1,
        forall|i: int| 0 <= i < opts.len() ==> fits_field(field as int, #[trigger] opts[i]),
    ensures
        (SuiteView { options: v.options.insert(field, opts), order: v.order }).is_runnable(),
{
    let w = SuiteView { options: v.options.insert(field, opts), order: v.order };
    assert forall|f: usize, i: int|
        f < 7 && 0 <= i < w.options[f].len() implies fits_field(f as int, #[trigger] w.options[f][i]) by {
        if f == field {
            assert(w.options[f] == opts);
        } else {
            assert(w.options[f] == v.options[f]);
        }
    }
    assert forall|f: usize| f < 7 implies #[trigger] w.options[f].len() >= 1 by {
        if f != field {
            assert(w.options[f] == v.options[f]);
        }
    }
}

} // verus!
