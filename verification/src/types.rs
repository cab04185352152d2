//! The in-memory model of a parsed file: streams, generators,
//! transactions, attributes and relations, all keyed by small integer ids
//! rather than by references.

use std::collections::HashMap;
use vstd::prelude::*;
use vstd::string::StringExecFns;

verus! {

/// The character of one decimal digit.
pub open spec fn dec_digit(d: nat) -> char {
    if d == 0 {
        '0'
    } else if d == 1 {
        '1'
    } else if d == 2 {
        '2'
    } else if d == 3 {
        '3'
    } else if d == 4 {
        '4'
    } else if d == 5 {
        '5'
    } else if d == 6 {
        '6'
    } else if d == 7 {
        '7'
    } else if d == 8 {
        '8'
    } else {
        '9'
    }
}

/// The decimal digits of a number, most significant first.
pub open spec fn dec_str(n: nat) -> Seq<char>
    decreases n,
{
    if n < 10 {
        seq![dec_digit(n)]
    } else {
        dec_str(n / 10).push(dec_digit(n % 10))
    }
}

/// The decimal rendering of a signed number.
pub open spec fn int_str(v: int) -> Seq<char> {
    if v < 0 {
        seq!['-'] + dec_str((-v) as nat)
    } else {
        dec_str(v as nat)
    }
}

/// The string of one decimal digit.
fn digit_str(d: u64) -> (r: &'static str)
    requires
        d < 10,
    ensures
        r@ == seq![dec_digit(d as nat)],
{
    proof {
        reveal_strlit("0");
        reveal_strlit("1");
        reveal_strlit("2");
        reveal_strlit("3");
        reveal_strlit("4");
        reveal_strlit("5");
        reveal_strlit("6");
        reveal_strlit("7");
        reveal_strlit("8");
        reveal_strlit("9");
    }
    let r: &'static str = if d == 0 {
        "0"
    } else if d == 1 {
        "1"
    } else if d == 2 {
        "2"
    } else if d == 3 {
        "3"
    } else if d == 4 {
        "4"
    } else if d == 5 {
        "5"
    } else if d == 6 {
        "6"
    } else if d == 7 {
        "7"
    } else if d == 8 {
        "8"
    } else {
        "9"
    };
    proof {
        assert(r@ =~= seq![dec_digit(d as nat)]);
    }
    r
}

/// Render an unsigned number in decimal.
fn u64_dec(n: u64) -> (r: String)
    ensures
        r@ == dec_str(n as nat),
    decreases n,
{
    if n < 10 {
        String::from_str(digit_str(n))
    } else {
        let mut s2 = u64_dec(n / 10);
        s2.append(digit_str(n % 10));
        proof {
            assert(s2@ =~= dec_str((n / 10) as nat).push(dec_digit((n % 10) as nat)));
        }
        s2
    }
}

/// Render a signed number in decimal.
fn i64_dec(v: i64) -> (r: String)
    ensures
        r@ == int_str(v as int),
{
    if v >= 0 {
        u64_dec(v as u64)
    } else {
        let mag: u64 = ((-(v + 1)) as u64) + 1;
        proof {
            assert(mag == -(v as int));
        }
        let mut s = String::from_str("-");
        proof {
            reveal_strlit("-");
            assert(s@ =~= seq!['-']);
        }
        let d = u64_dec(mag);
        s.append(d.as_str());
        proof {
            assert(s@ =~= seq!['-'] + dec_str(mag as nat));
        }
        s
    }
}

broadcast use vstd::std_specs::hash::group_hash_axioms;

/// The time unit all timestamps of a file are expressed in, derived from
/// the signed power-of-ten exponent of the info chunk.
#[derive(Debug, Clone, Copy, PartialEq, Eq, Structural)]
pub enum Timescale {
    Fs,
    Ps,
    Ns,
    Us,
    Ms,
    S,
    Unit,
    NoUnit,
}

impl Timescale {
    /// The unit a file exponent denotes; any exponent outside the six
    /// known values maps to the `NoUnit` sentinel rather than failing.
    pub fn get_timescale(exponent: i64) -> (r: Timescale)
        ensures
            r == spec_timescale(exponent as int),
    {
        if exponent == 0 {
            Timescale::S
        } else if exponent == -4 {
            Timescale::Ms
        } else if exponent == -8 {
            Timescale::Us
        } else if exponent == -12 {
            Timescale::Ns
        } else if exponent == -16 {
            Timescale::Ps
        } else if exponent == -20 {
            Timescale::Fs
        } else {
            Timescale::NoUnit
        }
    }
}

/// The unit each known exponent stands for.
pub open spec fn spec_timescale(exponent: int) -> Timescale {
    if exponent == 0 {
        Timescale::S
    } else if exponent == -4 {
        Timescale::Ms
    } else if exponent == -8 {
        Timescale::Us
    } else if exponent == -12 {
        Timescale::Ns
    } else if exponent == -16 {
        Timescale::Ps
    } else if exponent == -20 {
        Timescale::Fs
    } else {
        Timescale::NoUnit
    }
}

/// Which phase of its transaction produced an attribute.
#[derive(Debug, Clone, Copy, PartialEq, Eq, Structural)]
pub enum AttributeType {
    BEGIN,
    RECORD,
    END,
    NONE,
}

/// The closed union of attribute values over the wire format's type
/// codes, with an error arm for unrecognized codes. The three
/// floating-point arms carry the raw big-endian bits of the encoded
/// 32-bit float; rendering them as a floating value is left to callers.
#[derive(Debug, Clone, PartialEq)]
pub enum DataType {
    Boolean(bool),
    Enumeration(String),
    Integer(i64),
    Unsigned(u64),
    FloatingPointNumber(u32),
    BitVector(String),
    LogicVector(String),
    FixedPointInteger(u32),
    UnsignedFixedPointInteger(u32),
    Pointer(u64),
    String(String),
    Time(u64),
    Error,
}

/// The identity of one transaction: its id, its generator's id, and its
/// start and end timestamps.
#[derive(Debug, Clone, PartialEq)]
pub struct Event {
    pub tx_id: usize,
    pub gen_id: usize,
    pub start_time: i64,
    pub end_time: i64,
}

impl Event {
    pub fn new() -> (r: Event)
        ensures
            r.tx_id == 0,
            r.gen_id == 0,
            r.start_time == 0,
            r.end_time == 0,
    {
        Event { tx_id: 0, gen_id: 0, start_time: 0, end_time: 0 }
    }
}

/// A (phase, name, typed value) triple attached to a transaction.
#[derive(Debug, Clone, PartialEq)]
pub struct Attribute {
    pub kind: AttributeType,
    pub name: String,
    pub data_type: DataType,
}

impl Attribute {
    pub fn new_empty() -> (r: Attribute)
        ensures
            r.kind == AttributeType::NONE,
            r.name@ == Seq::<char>::empty(),
            r.data_type == DataType::Error,
    {
        Attribute { kind: AttributeType::NONE, name: String::new(), data_type: DataType::Error }
    }

    pub fn new_begin(name: String, data_type: DataType) -> (r: Attribute)
        ensures
            r.kind == AttributeType::BEGIN,
            r.name == name,
            r.data_type == data_type,
    {
        Attribute { kind: AttributeType::BEGIN, name, data_type }
    }

    pub fn new_record(name: String, data_type: DataType) -> (r: Attribute)
        ensures
            r.kind == AttributeType::RECORD,
            r.name == name,
            r.data_type == data_type,
    {
        Attribute { kind: AttributeType::RECORD, name, data_type }
    }

    pub fn new_end(name: String, data_type: DataType) -> (r: Attribute)
        ensures
            r.kind == AttributeType::END,
            r.name == name,
            r.data_type == data_type,
    {
        Attribute { kind: AttributeType::END, name, data_type }
    }

    /// Render the attribute's value: booleans, numbers and raw float
    /// bits in decimal, labels and strings as themselves, and the error
    /// value as the empty string.
    pub fn value(&self) -> (r: String)
        ensures
            r@ == spec_value_str(self.data_type@),
    {
        match &self.data_type {
            DataType::Boolean(b) => if *b {
                String::from_str("true")
            } else {
                String::from_str("false")
            },
            DataType::Enumeration(s) => s.clone(),
            DataType::Integer(v) => i64_dec(*v),
            DataType::Unsigned(v) => u64_dec(*v),
            DataType::FloatingPointNumber(v) => u64_dec(*v as u64),
            DataType::BitVector(s) => s.clone(),
            DataType::LogicVector(s) => s.clone(),
            DataType::FixedPointInteger(v) => u64_dec(*v as u64),
            DataType::UnsignedFixedPointInteger(v) => u64_dec(*v as u64),
            DataType::Pointer(v) => u64_dec(*v),
            DataType::String(s) => s.clone(),
            DataType::Time(v) => u64_dec(*v),
            DataType::Error => String::new(),
        }
    }
}

/// What `value` renders for each attribute value.
pub open spec fn spec_value_str(v: ValView) -> Seq<char> {
    match v {
        ValView::Bool(b) => if b {
            "true"@
        } else {
            "false"@
        },
        ValView::Enum(s) => s,
        ValView::Int(x) => int_str(x as int),
        ValView::Uns(u) => dec_str(u as nat),
        ValView::FloatBits(b) => dec_str(b as nat),
        ValView::BitVec(s) => s,
        ValView::LogicVec(s) => s,
        ValView::Fixed(b) => dec_str(b as nat),
        ValView::UFixed(b) => dec_str(b as nat),
        ValView::Ptr(u) => dec_str(u as nat),
        ValView::Str(s) => s,
        ValView::Time(u) => dec_str(u as nat),
        ValView::Error => Seq::empty(),
    }
}

/// A named directed edge between two transactions, each endpoint
/// annotated with the id of the stream it belongs to.
#[derive(Debug)]
pub struct TxRelation {
    pub name: String,
    pub source_tx_id: usize,
    pub sink_tx_id: usize,
    pub source_stream_id: usize,
    pub sink_stream_id: usize,
}

impl Clone for TxRelation {
    fn clone(&self) -> (r: Self)
        ensures
            r == *self,
    {
        TxRelation {
            name: self.name.clone(),
            source_tx_id: self.source_tx_id,
            sink_tx_id: self.sink_tx_id,
            source_stream_id: self.source_stream_id,
            sink_stream_id: self.sink_stream_id,
        }
    }
}

/// One recorded transaction: its event, its attributes in decode order,
/// and the relations known at decode time that point into or out of it.
#[derive(Debug, Clone)]
pub struct Transaction {
    pub event: Event,
    pub attributes: Vec<Attribute>,
    pub inc_relations: Vec<TxRelation>,
    pub out_relations: Vec<TxRelation>,
}

impl Transaction {
    pub fn get_tx_id(&self) -> (r: usize)
        ensures
            r == self.event.tx_id,
    {
        self.event.tx_id
    }

    pub fn get_gen_id(&self) -> (r: usize)
        ensures
            r == self.event.gen_id,
    {
        self.event.gen_id
    }

    pub fn get_start_time(&self) -> (r: i64)
        ensures
            r == self.event.start_time,
    {
        self.event.start_time
    }

    pub fn get_end_time(&self) -> (r: i64)
        ensures
            r == self.event.end_time,
    {
        self.event.end_time
    }
}

/// A named timeline of transactions. The stream stores where each of its
/// transaction blocks lives in the source (byte offset and compression
/// flag), so that deferred blocks can be fetched later.
#[derive(Debug, Clone)]
pub struct TxStream {
    pub id: usize,
    pub name: String,
    pub kind: String,
    pub generators: Vec<usize>,
    pub transactions_loaded: bool,
    pub tx_block_ids: Vec<(u64, bool)>,
}

/// A named sub-producer within one stream; owns the transactions it has
/// produced.
#[derive(Debug, Clone)]
pub struct TxGenerator {
    pub id: usize,
    pub stream_id: usize,
    pub name: String,
    pub transactions: Vec<Transaction>,
}

impl PartialEq for TxStream {
    /// Streams compare by id alone.
    fn eq(&self, other: &Self) -> (r: bool) {
        self.id == other.id
    }
}

impl vstd::std_specs::cmp::PartialEqSpecImpl for TxStream {
    open spec fn obeys_eq_spec() -> bool {
        true
    }

    open spec fn eq_spec(&self, other: &Self) -> bool {
        self.id == other.id
    }
}

impl PartialEq for TxGenerator {
    /// Generators compare by their id and their stream's id.
    fn eq(&self, other: &Self) -> (r: bool) {
        self.id == other.id && self.stream_id == other.stream_id
    }
}

impl vstd::std_specs::cmp::PartialEqSpecImpl for TxGenerator {
    open spec fn obeys_eq_spec() -> bool {
        true
    }

    open spec fn eq_spec(&self, other: &Self) -> bool {
        self.id == other.id && self.stream_id == other.stream_id
    }
}

impl PartialEq for TxRelation {
    /// Relations compare by their endpoints, not by name.
    fn eq(&self, other: &Self) -> (r: bool) {
        self.source_tx_id == other.source_tx_id && self.sink_tx_id == other.sink_tx_id
            && self.source_stream_id == other.source_stream_id && self.sink_stream_id
            == other.sink_stream_id
    }
}

impl vstd::std_specs::cmp::PartialEqSpecImpl for TxRelation {
    open spec fn obeys_eq_spec() -> bool {
        true
    }

    open spec fn eq_spec(&self, other: &Self) -> bool {
        self.source_tx_id == other.source_tx_id && self.sink_tx_id == other.sink_tx_id
            && self.source_stream_id == other.source_stream_id && self.sink_stream_id
            == other.sink_stream_id
    }
}

impl PartialEq for Transaction {
    /// Transactions compare by their own id and their generator's id.
    fn eq(&self, other: &Self) -> (r: bool) {
        self.event.tx_id == other.event.tx_id && self.event.gen_id == other.event.gen_id
    }
}

impl vstd::std_specs::cmp::PartialEqSpecImpl for Transaction {
    open spec fn obeys_eq_spec() -> bool {
        true
    }

    open spec fn eq_spec(&self, other: &Self) -> bool {
        self.event.tx_id == other.event.tx_id && self.event.gen_id == other.event.gen_id
    }
}

/// The root model of a parsed file.
#[derive(Debug)]
pub struct FTR {
    pub time_scale: Timescale,
    /// The largest declared block end-time seen so far; never decreases
    /// over a parse, whether or not the block itself was decoded.
    pub max_timestamp: i64,
    pub str_dict: HashMap<usize, String>,
    pub tx_streams: HashMap<usize, TxStream>,
    pub tx_generators: HashMap<usize, TxGenerator>,
    pub tx_relations: Vec<TxRelation>,
    /// Stream ids in registration order.
    pub stream_ids: Vec<usize>,
    /// Generator ids in registration order.
    pub generator_ids: Vec<usize>,
    /// Whether the source can be reopened later, so that transaction
    /// blocks may be skipped now and loaded on demand.
    pub file_backed: bool,
}

impl FTR {
    /// The registries are consistent: the two id lists enumerate exactly
    /// the keys of their maps, without repetition, every entry carries
    /// the id it is registered under, and every generator id a stream
    /// lists is registered.
    pub open spec fn wf(self) -> bool {
        &&& forall|k: usize|
            #![trigger self.tx_streams@[k].id]
            self.tx_streams@.contains_key(k) ==> self.tx_streams@[k].id == k
        &&& forall|k: usize|
            #![trigger self.tx_generators@[k].id]
            self.tx_generators@.contains_key(k) ==> self.tx_generators@[k].id == k
        &&& self.stream_ids@.no_duplicates()
        &&& forall|j: int|
            0 <= j < self.stream_ids@.len() ==> #[trigger] self.tx_streams@.contains_key(
                self.stream_ids@[j],
            )
        &&& forall|k: usize| #[trigger]
            self.tx_streams@.contains_key(k) ==> self.stream_ids@.contains(k)
        &&& self.generator_ids@.no_duplicates()
        &&& forall|j: int|
            0 <= j < self.generator_ids@.len() ==> #[trigger] self.tx_generators@.contains_key(
                self.generator_ids@[j],
            )
        &&& forall|k: usize| #[trigger]
            self.tx_generators@.contains_key(k) ==> self.generator_ids@.contains(k)
        &&& forall|k: usize|
            #![trigger self.tx_streams@[k]]
            self.tx_streams@.contains_key(k) ==> forall|j: int|
                0 <= j < self.tx_streams@[k].generators@.len()
                    ==> self.tx_generators@.contains_key(
                    #[trigger] self.tx_streams@[k].generators@[j],
                )
    }

    /// A fresh, empty model.
    pub fn new(file_backed: bool) -> (r: FTR)
        ensures
            r.wf(),
            r.time_scale == Timescale::NoUnit,
            r.max_timestamp == 0,
            r.str_dict@ =~= Map::<usize, String>::empty(),
            r.tx_streams@ =~= Map::<usize, TxStream>::empty(),
            r.tx_generators@ =~= Map::<usize, TxGenerator>::empty(),
            r.tx_relations@ =~= Seq::<TxRelation>::empty(),
            r.stream_ids@ =~= Seq::<usize>::empty(),
            r.generator_ids@ =~= Seq::<usize>::empty(),
            r.file_backed == file_backed,
    {
        FTR {
            time_scale: Timescale::NoUnit,
            max_timestamp: 0,
            str_dict: HashMap::new(),
            tx_streams: HashMap::new(),
            tx_generators: HashMap::new(),
            tx_relations: Vec::new(),
            stream_ids: Vec::new(),
            generator_ids: Vec::new(),
            file_backed,
        }
    }

    /// The stream registered under `stream_id`, if any; it carries that
    /// very id.
    pub fn get_stream(&self, stream_id: usize) -> (r: Option<&TxStream>)
        requires
            self.wf(),
        ensures
            match r {
                Some(st) => {
                    &&& self.tx_streams@.contains_key(stream_id)
                    &&& *st == self.tx_streams@[stream_id]
                    &&& st.id == stream_id
                },
                None => !self.tx_streams@.contains_key(stream_id),
            },
    {
        self.tx_streams.get(&stream_id)
    }

    /// The generator registered under `gen_id`, if any; it carries that
    /// very id.
    pub fn get_generator(&self, gen_id: usize) -> (r: Option<&TxGenerator>)
        requires
            self.wf(),
        ensures
            match r {
                Some(g) => {
                    &&& self.tx_generators@.contains_key(gen_id)
                    &&& *g == self.tx_generators@[gen_id]
                    &&& g.id == gen_id
                },
                None => !self.tx_generators@.contains_key(gen_id),
            },
    {
        self.tx_generators.get(&gen_id)
    }

    /// The first stream, in registration order, whose name is `name`.
    pub fn get_stream_from_name(&self, name: String) -> (r: Option<&TxStream>)
        requires
            self.wf(),
        ensures
            match r {
                Some(st) => exists|j: int|
                    {
                        &&& 0 <= j < self.stream_ids@.len()
                        &&& *st == self.tx_streams@[self.stream_ids@[j]]
                        &&& st.name@ == name@
                        &&& forall|k: int|
                            0 <= k < j ==> (#[trigger] self.tx_streams@[self.stream_ids@[k]]).name@
                                != name@
                    },
                None => forall|k: usize| #[trigger]
                    self.tx_streams@.contains_key(k) ==> self.tx_streams@[k].name@ != name@,
            },
    {
        let n = self.stream_ids.len();
        let mut j: usize = 0;
        while j < n
            invariant
                self.wf(),
                n == self.stream_ids@.len(),
                0 <= j <= n,
                forall|k: int|
                    0 <= k < j ==> (#[trigger] self.tx_streams@[self.stream_ids@[k]]).name@
                        != name@,
            decreases n - j,
        {
            let id = self.stream_ids[j];
            match self.tx_streams.get(&id) {
                Some(st) => {
                    if st.name.eq(&name) {
                        return Some(st);
                    }
                },
                None => {
                    proof {
                        assert(false);
                    }
                },
            }
            j = j + 1;
        }
        proof {
            assert forall|k: usize| #[trigger]
                self.tx_streams@.contains_key(k) implies self.tx_streams@[k].name@ != name@ by {
                let jj = choose|jj: int|
                    0 <= jj < self.stream_ids@.len() && (#[trigger] self.stream_ids@[jj]) == k;
                assert(self.stream_ids@.contains(k));
                assert(self.tx_streams@[self.stream_ids@[jj]].name@ != name@);
            }
        }
        None
    }

    /// The first generator, in the order its stream lists them, whose
    /// name is `gen_name`, out of the stream registered under
    /// `stream_id`; `None` on any miss, an unregistered stream included.
    pub fn get_generator_from_name(&self, stream_id: usize, gen_name: String) -> (r: Option<
        &TxGenerator,
    >)
        requires
            self.wf(),
        ensures
            ({
                let gens = self.tx_streams@[stream_id].generators@;
                match r {
                    Some(g) => {
                        &&& self.tx_streams@.contains_key(stream_id)
                        &&& exists|j: int|
                            {
                                &&& 0 <= j < gens.len()
                                &&& *g == self.tx_generators@[gens[j]]
                                &&& g.name@ == gen_name@
                                &&& forall|k: int|
                                    0 <= k < j ==> (#[trigger] self.tx_generators@[gens[k]]).name@
                                        != gen_name@
                            }
                    },
                    None => !self.tx_streams@.contains_key(stream_id) || forall|k: int|
                        0 <= k < gens.len() ==> (#[trigger] self.tx_generators@[gens[k]]).name@
                            != gen_name@,
                }
            }),
    {
        let st = match self.tx_streams.get(&stream_id) {
            Some(st) => st,
            None => {
                return None;
            },
        };
        let n = st.generators.len();
        let mut j: usize = 0;
        while j < n
            invariant
                self.wf(),
                self.tx_streams@.contains_key(stream_id),
                *st == self.tx_streams@[stream_id],
                n == st.generators@.len(),
                0 <= j <= n,
                forall|k: int|
                    0 <= k < j ==> (#[trigger] self.tx_generators@[st.generators@[k]]).name@
                        != gen_name@,
            decreases n - j,
        {
            let id = st.generators[j];
            match self.tx_generators.get(&id) {
                Some(g) => {
                    if g.name.eq(&gen_name) {
                        return Some(g);
                    }
                },
                None => {
                    proof {
                        assert(false);
                    }
                },
            }
            j = j + 1;
        }
        None
    }

    /// Release the transactions of the stream registered under
    /// `stream_id`: every generator the stream lists keeps its identity
    /// but loses its transaction list, the stream keeps its recorded
    /// block offsets and is marked not resident, and nothing else of the
    /// model changes, so that a later load can reproduce the dropped
    /// transactions from the source.
    pub fn drop_stream_from_memory(&mut self, stream_id: usize)
        requires
            old(self).wf(),
            old(self).tx_streams@.contains_key(stream_id),
        ensures
            final(self).wf(),
            final(self).time_scale == old(self).time_scale,
            final(self).max_timestamp == old(self).max_timestamp,
            final(self).str_dict@ == old(self).str_dict@,
            final(self).tx_relations@ == old(self).tx_relations@,
            final(self).stream_ids@ == old(self).stream_ids@,
            final(self).generator_ids@ == old(self).generator_ids@,
            final(self).file_backed == old(self).file_backed,
            final(self).tx_streams@.dom() =~= old(self).tx_streams@.dom(),
            final(self).tx_generators@.dom() =~= old(self).tx_generators@.dom(),
            stream_unloaded(final(self).tx_streams@[stream_id], old(self).tx_streams@[stream_id]),
            forall|k: usize|
                old(self).tx_streams@.contains_key(k) && k != stream_id
                    ==> final(self).tx_streams@[k] == (#[trigger] old(self).tx_streams@[k]),
            forall|g: usize| #[trigger]
                old(self).tx_generators@.contains_key(g) ==> if old(
                    self,
                ).tx_streams@[stream_id].generators@.contains(g) {
                    gen_cleared(final(self).tx_generators@[g], old(self).tx_generators@[g])
                } else {
                    final(self).tx_generators@[g] == old(self).tx_generators@[g]
                },
    {
        let st = match self.tx_streams.get(&stream_id) {
            Some(st) => st,
            None => {
                proof {
                    assert(false);
                }
                return ;
            },
        };
        let gen_ids = clone_id_list(&st.generators);
        let n = gen_ids.len();
        let mut j: usize = 0;
        while j < n
            invariant
                self.wf(),
                old(self).wf(),
                self.tx_streams@ == old(self).tx_streams@,
                self.time_scale == old(self).time_scale,
                self.max_timestamp == old(self).max_timestamp,
                self.str_dict@ == old(self).str_dict@,
                self.tx_relations@ == old(self).tx_relations@,
                self.stream_ids@ == old(self).stream_ids@,
                self.generator_ids@ == old(self).generator_ids@,
                self.file_backed == old(self).file_backed,
                old(self).tx_streams@.contains_key(stream_id),
                gen_ids@ == old(self).tx_streams@[stream_id].generators@,
                0 <= j <= n == gen_ids@.len(),
                self.tx_generators@.dom() =~= old(self).tx_generators@.dom(),
                forall|g: usize| #[trigger]
                    old(self).tx_generators@.contains_key(g) ==> if gen_ids@.subrange(
                        0,
                        j as int,
                    ).contains(g) {
                        gen_cleared(self.tx_generators@[g], old(self).tx_generators@[g])
                    } else {
                        self.tx_generators@[g] == old(self).tx_generators@[g]
                    },
            decreases n - j,
        {
            let gid = gen_ids[j];
            match self.tx_generators.remove(&gid) {
                Some(mut g) => {
                    g.transactions = Vec::new();
                    self.tx_generators.insert(gid, g);
                },
                None => {
                    proof {
                        assert(old(self).tx_streams@[stream_id].generators@.contains(gid));
                        assert(false);
                    }
                },
            }
            proof {
                assert forall|g: usize| #[trigger]
                    old(self).tx_generators@.contains_key(g) implies if gen_ids@.subrange(
                    0,
                    j + 1,
                ).contains(g) {
                    gen_cleared(self.tx_generators@[g], old(self).tx_generators@[g])
                } else {
                    self.tx_generators@[g] == old(self).tx_generators@[g]
                } by {
                    assert(gen_ids@[j as int] == gid);
                    assert(old(self).tx_streams@[stream_id].generators@[j as int] == gid);
                    assert(old(self).tx_generators@.contains_key(gid));
                    if g == gid {
                        assert(gen_ids@.subrange(0, j + 1)[j as int] == g);
                        assert(gen_ids@.subrange(0, j + 1).contains(g));
                    } else if gen_ids@.subrange(0, j + 1).contains(g) {
                        assert(gen_ids@.subrange(0, j as int).contains(g)) by {
                            let w = choose|w: int|
                                0 <= w < j + 1 && (#[trigger] gen_ids@.subrange(0, j + 1)[w]) == g;
                            assert(gen_ids@.subrange(0, j + 1)[j as int] == gid);
                            assert(w != j);
                            assert(gen_ids@.subrange(0, j as int)[w] == g);
                        }
                    } else {
                        assert(!gen_ids@.subrange(0, j as int).contains(g)) by {
                            if gen_ids@.subrange(0, j as int).contains(g) {
                                let w = choose|w: int|
                                    0 <= w < j && (#[trigger] gen_ids@.subrange(0, j as int)[w]) == g;
                                assert(gen_ids@.subrange(0, j + 1)[w] == g);
                            }
                        }
                    }
                }
            }
            j = j + 1;
        }
        proof {
            assert(gen_ids@.subrange(0, n as int) =~= gen_ids@);
        }
        match self.tx_streams.remove(&stream_id) {
            Some(mut st2) => {
                st2.transactions_loaded = false;
                self.tx_streams.insert(stream_id, st2);
            },
            None => {
                proof {
                    assert(false);
                }
            },
        }
    }
}

/// The mathematical mirror of a `TxRelation`.
#[verifier::ext_equal]
pub struct RelView {
    pub name: Seq<char>,
    pub source_tx_id: usize,
    pub sink_tx_id: usize,
    pub source_stream_id: usize,
    pub sink_stream_id: usize,
}

impl View for TxRelation {
    type V = RelView;

    open spec fn view(&self) -> RelView {
        RelView {
            name: self.name@,
            source_tx_id: self.source_tx_id,
            sink_tx_id: self.sink_tx_id,
            source_stream_id: self.source_stream_id,
            sink_stream_id: self.sink_stream_id,
        }
    }
}

/// The mathematical mirror of a `DataType` value.
#[verifier::ext_equal]
pub enum ValView {
    Bool(bool),
    Enum(Seq<char>),
    Int(i64),
    Uns(u64),
    FloatBits(u32),
    BitVec(Seq<char>),
    LogicVec(Seq<char>),
    Fixed(u32),
    UFixed(u32),
    Ptr(u64),
    Str(Seq<char>),
    Time(u64),
    Error,
}

impl View for DataType {
    type V = ValView;

    open spec fn view(&self) -> ValView {
        match self {
            DataType::Boolean(b) => ValView::Bool(*b),
            DataType::Enumeration(s) => ValView::Enum(s@),
            DataType::Integer(v) => ValView::Int(*v),
            DataType::Unsigned(v) => ValView::Uns(*v),
            DataType::FloatingPointNumber(v) => ValView::FloatBits(*v),
            DataType::BitVector(s) => ValView::BitVec(s@),
            DataType::LogicVector(s) => ValView::LogicVec(s@),
            DataType::FixedPointInteger(v) => ValView::Fixed(*v),
            DataType::UnsignedFixedPointInteger(v) => ValView::UFixed(*v),
            DataType::Pointer(v) => ValView::Ptr(*v),
            DataType::String(s) => ValView::Str(s@),
            DataType::Time(v) => ValView::Time(*v),
            DataType::Error => ValView::Error,
        }
    }
}

/// The mathematical mirror of an `Attribute`.
#[verifier::ext_equal]
pub struct AttrView {
    pub kind: AttributeType,
    pub name: Seq<char>,
    pub value: ValView,
}

impl View for Attribute {
    type V = AttrView;

    open spec fn view(&self) -> AttrView {
        AttrView { kind: self.kind, name: self.name@, value: self.data_type@ }
    }
}

/// The mathematical mirror of a `Transaction`.
#[verifier::ext_equal]
pub struct TxView {
    pub event: Event,
    pub attrs: Seq<AttrView>,
    pub inc: Seq<RelView>,
    pub out: Seq<RelView>,
}

impl View for Transaction {
    type V = TxView;

    open spec fn view(&self) -> TxView {
        TxView {
            event: self.event,
            attrs: self.attributes@.map_values(|a: Attribute| a@),
            inc: self.inc_relations@.map_values(|r: TxRelation| r@),
            out: self.out_relations@.map_values(|r: TxRelation| r@),
        }
    }
}

/// The mathematical mirror of a `TxStream`.
#[verifier::ext_equal]
pub struct StreamView {
    pub id: usize,
    pub name: Seq<char>,
    pub kind: Seq<char>,
    pub generators: Seq<usize>,
    pub loaded: bool,
    pub blocks: Seq<(u64, bool)>,
}

impl View for TxStream {
    type V = StreamView;

    open spec fn view(&self) -> StreamView {
        StreamView {
            id: self.id,
            name: self.name@,
            kind: self.kind@,
            generators: self.generators@,
            loaded: self.transactions_loaded,
            blocks: self.tx_block_ids@,
        }
    }
}

/// The mathematical mirror of a `TxGenerator`.
#[verifier::ext_equal]
pub struct GenView {
    pub id: usize,
    pub stream_id: usize,
    pub name: Seq<char>,
    pub txs: Seq<TxView>,
}

impl View for TxGenerator {
    type V = GenView;

    open spec fn view(&self) -> GenView {
        GenView {
            id: self.id,
            stream_id: self.stream_id,
            name: self.name@,
            txs: self.transactions@.map_values(|t: Transaction| t@),
        }
    }
}

/// The stream and generator registries of a model, as mathematical maps
/// and registration orders.
#[verifier::ext_equal]
pub struct RegView {
    pub streams: Map<usize, StreamView>,
    pub stream_order: Seq<usize>,
    pub gens: Map<usize, GenView>,
    pub gen_order: Seq<usize>,
}

/// The dictionary as a mathematical map from id to characters.
pub open spec fn dict_view(m: Map<usize, String>) -> Map<usize, Seq<char>> {
    Map::new(|k: usize| m.dom().contains(k), |k: usize| m[k]@)
}

/// Everything the parse builds, as one mathematical value.
#[verifier::ext_equal]
pub struct ModelView {
    pub ts: Timescale,
    pub max: i64,
    pub dict: Map<usize, Seq<char>>,
    pub reg: RegView,
    pub rels: Seq<RelView>,
}

impl FTR {
    /// The whole parsed model as one mathematical value.
    pub open spec fn model_view(self) -> ModelView {
        ModelView {
            ts: self.time_scale,
            max: self.max_timestamp,
            dict: dict_view(self.str_dict@),
            reg: self.reg_view(),
            rels: self.rels_view(),
        }
    }

    /// The registries of this model as one mathematical value.
    pub open spec fn reg_view(self) -> RegView {
        RegView {
            streams: Map::new(
                |k: usize| self.tx_streams@.dom().contains(k),
                |k: usize| self.tx_streams@[k]@,
            ),
            stream_order: self.stream_ids@,
            gens: Map::new(
                |k: usize| self.tx_generators@.dom().contains(k),
                |k: usize| self.tx_generators@[k]@,
            ),
            gen_order: self.generator_ids@,
        }
    }

    /// The relation list as mathematical values.
    pub open spec fn rels_view(self) -> Seq<RelView> {
        self.tx_relations@.map_values(|r: TxRelation| r@)
    }
}

/// `g2` is `g1` with its transaction list released and everything else
/// kept.
pub open spec fn gen_cleared(g2: TxGenerator, g1: TxGenerator) -> bool {
    &&& g2.id == g1.id
    &&& g2.stream_id == g1.stream_id
    &&& g2.name == g1.name
    &&& g2.transactions@ == Seq::<Transaction>::empty()
}

/// `s2` is `s1` marked not resident, with identity, generator list and
/// recorded block offsets kept.
pub open spec fn stream_unloaded(s2: TxStream, s1: TxStream) -> bool {
    &&& s2.id == s1.id
    &&& s2.name == s1.name
    &&& s2.kind == s1.kind
    &&& s2.generators@ == s1.generators@
    &&& s2.tx_block_ids@ == s1.tx_block_ids@
    &&& s2.transactions_loaded == false
}

/// Copy a list of ids.
fn clone_id_list(v: &Vec<usize>) -> (r: Vec<usize>)
    ensures
        r@ == v@,
{
    let mut out: Vec<usize> = Vec::new();
    let mut i: usize = 0;
    while i < v.len()
        invariant
            0 <= i <= v@.len(),
            out@ =~= v@.subrange(0, i as int),
        decreases v@.len() - i,
    {
        out.push(v[i]);
        proof {
            assert(out@ =~= v@.subrange(0, i + 1));
        }
        i = i + 1;
    }
    proof {
        assert(v@.subrange(0, v@.len() as int) =~= v@);
    }
    out
}

} // verus!
