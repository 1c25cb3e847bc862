//! Table walks: reading the entries that an agent returns while a table is
//! walked, and turning a walked table into typed values.
use vstd::prelude::*;
use crate::numbers::{fields, parse_u32, parse_u32_text, split_fields};
use crate::table::{IndexTable, lemma_map_of, map_of};

verus! {

/// A value of a walked table.
#[derive(Debug, PartialEq, Eq)]
pub enum SnmpValue {
    Bytes(Vec<u8>),
    Integer(u32),
}

/// A value as the agent returned it.
#[derive(Debug, PartialEq, Eq)]
pub enum RawValue {
    OctetString(Vec<u8>),
    Integer(i64),
    Unsigned32(u32),
    /// Any other kind of value; such entries are passed over.
    Other,
}

/// The table value that a returned value gives, if any. A signed integer
/// keeps its low 32 bits.
pub open spec fn value_of(v: RawValue) -> Option<SnmpValue> {
    match v {
        RawValue::OctetString(b) => Some(SnmpValue::Bytes(b)),
        RawValue::Integer(n) => Some(SnmpValue::Integer(n as u32)),
        RawValue::Unsigned32(n) => Some(SnmpValue::Integer(n)),
        RawValue::Other => None,
    }
}

/// The numbers among the fields `fs`, in order; fields that are no number
/// are passed over.
pub open spec fn numbers_of(fs: Seq<Seq<char>>) -> Seq<u32>
    decreases fs.len(),
{
    if fs.len() == 0 {
        Seq::empty()
    } else {
        match parse_u32(fs.last()) {
            Ok(v) => numbers_of(fs.drop_last()).push(v),
            Err(_) => numbers_of(fs.drop_last()),
        }
    }
}

/// The sub-identifiers of a dotted object identifier such as `1.3.6.1`.
pub open spec fn oid_of(s: Seq<char>) -> Seq<u32> {
    numbers_of(fields(s, '.'))
}

/// Whether `oid` begins with `prefix`.
pub open spec fn has_prefix(oid: Seq<u32>, prefix: Seq<u32>) -> bool {
    prefix.len() <= oid.len() && oid.subrange(0, prefix.len() as int) == prefix
}

/// The last sub-identifier, cut to 16 bits; 0 for an empty identifier.
pub open spec fn last_id(oid: Seq<u32>) -> u16 {
    if oid.len() == 0 {
        0
    } else {
        oid.last() as u16
    }
}

/// Reads a dotted object identifier; parts that are no number are passed
/// over.
pub fn parse_oid(oid_str: &str) -> (r: Vec<u32>)
    ensures
        r@ == oid_of(oid_str@),
{
    let parts = split_fields(oid_str, '.');
    let ghost fs = parts@.map_values(|f: String| f@);
    let mut r: Vec<u32> = Vec::new();
    let mut i: usize = 0;
    while i < parts.len()
        invariant
            i <= parts@.len(),
            fs == parts@.map_values(|f: String| f@),
            r@ == numbers_of(fs.subrange(0, i as int)),
        decreases parts@.len() - i,
    {
        assert(fs.subrange(0, i + 1).drop_last() =~= fs.subrange(0, i as int));
        assert(fs[i as int] == parts@[i as int]@);
        match parse_u32_text(parts[i].as_str()) {
            Ok(v) => r.push(v),
            Err(_) => {},
        }
        i = i + 1;
    }
    assert(fs.subrange(0, fs.len() as int) =~= fs);
    r
}

/// Whether `oid` begins with `prefix`.
pub fn starts_with(oid: &[u32], prefix: &[u32]) -> (r: bool)
    ensures
        r == has_prefix(oid@, prefix@),
{
    if oid.len() < prefix.len() {
        return false;
    }
    let mut i: usize = 0;
    while i < prefix.len()
        invariant
            prefix@.len() <= oid@.len(),
            i <= prefix@.len(),
            oid@.subrange(0, i as int) == prefix@.subrange(0, i as int),
        decreases prefix@.len() - i,
    {
        if oid[i] != prefix[i] {
            assert(oid@.subrange(0, prefix@.len() as int)[i as int] != prefix@[i as int]);
            return false;
        }
        assert(oid@.subrange(0, i + 1) =~= oid@.subrange(0, i as int).push(oid@[i as int]));
        assert(prefix@.subrange(0, i + 1) =~= prefix@.subrange(0, i as int).push(prefix@[i as int]));
        i = i + 1;
    }
    assert(prefix@.subrange(0, prefix@.len() as int) =~= prefix@);
    true
}

/// The last sub-identifier of `oid`, cut to 16 bits; 0 if `oid` is empty.
pub fn extract_last_id(oid: &[u32]) -> (r: u16)
    ensures
        r == last_id(oid@),
{
    if oid.len() == 0 {
        0
    } else {
        oid[oid.len() - 1] as u16
    }
}

/// The table value that a returned value gives, if any.
pub fn snmp_value(v: RawValue) -> (r: Option<SnmpValue>)
    ensures
        r == value_of(v),
{
    match v {
        RawValue::OctetString(b) => Some(SnmpValue::Bytes(b)),
        RawValue::Integer(n) => Some(SnmpValue::Integer(n as u32)),
        RawValue::Unsigned32(n) => Some(SnmpValue::Integer(n)),
        RawValue::Other => None,
    }
}

/// One step of a table walk under `base_oid`. The agent returned the entry
/// `oid_text` with `value`. Where the entry lies under `base_oid`, its value
/// is stored under the entry's last sub-identifier and the walk goes on from
/// the entry: the result is the identifier to ask for next. Otherwise the
/// walk is over and the result is `None`.
pub fn walk_step(
    base_oid: &[u32],
    results: &mut IndexTable<SnmpValue>,
    oid_text: &str,
    value: RawValue,
) -> (next: Option<Vec<u32>>)
    requires
        old(results).wf(),
    ensures
        final(results).wf(),
        has_prefix(oid_of(oid_text@), base_oid@) ==> next is Some && next->0@ == oid_of(oid_text@)
            && final(results)@ == match value_of(value) {
            Some(v) => old(results)@.insert(last_id(oid_of(oid_text@)) as u32, v),
            None => old(results)@,
        },
        !has_prefix(oid_of(oid_text@), base_oid@) ==> next is None && final(results)@ == old(
            results,
        )@,
{
    let oid = parse_oid(oid_text);
    if !starts_with(oid.as_slice(), base_oid) {
        return None;
    }
    match snmp_value(value) {
        Some(v) => {
            let last = extract_last_id(oid.as_slice());
            results.insert(last as u32, v);
        },
        None => {},
    }
    Some(oid)
}

/// Four bytes read as a big-endian number.
pub open spec fn be_u32(b: Seq<u8>) -> u32 {
    (b[0] as int * 16777216 + b[1] as int * 65536 + b[2] as int * 256 + b[3] as int) as u32
}

/// A table value read as a number: an integer as it is, bytes as the
/// big-endian number in their first four (0 where there are fewer).
pub open spec fn u32_of(v: SnmpValue) -> u32 {
    match v {
        SnmpValue::Integer(n) => n,
        SnmpValue::Bytes(b) => if b@.len() >= 4 {
            be_u32(b@)
        } else {
            0
        },
    }
}

/// The four big-endian bytes of `n`.
pub open spec fn be_bytes(n: u32) -> Seq<u8> {
    seq![(n / 16777216) as u8, (n / 65536 % 256) as u8, (n / 256 % 256) as u8, (n % 256) as u8]
}

/// A table value read as bytes: bytes as they are, an integer as its four
/// big-endian bytes.
pub open spec fn bytes_of(v: SnmpValue) -> Seq<u8> {
    match v {
        SnmpValue::Bytes(b) => b@,
        SnmpValue::Integer(n) => be_bytes(n),
    }
}

fn number_of(v: &SnmpValue) -> (r: u32)
    ensures
        r == u32_of(*v),
{
    match v {
        SnmpValue::Integer(n) => *n,
        SnmpValue::Bytes(b) => {
            if b.len() >= 4 {
                let x = b[0] as u32 * 16777216 + b[1] as u32 * 65536 + b[2] as u32 * 256 + b[3] as u32;
                x
            } else {
                0
            }
        },
    }
}

fn bytes_from(v: &SnmpValue) -> (r: Vec<u8>)
    ensures
        r@ == bytes_of(*v),
{
    match v {
        SnmpValue::Bytes(b) => {
            let mut r: Vec<u8> = Vec::new();
            let mut i: usize = 0;
            while i < b.len()
                invariant
                    i <= b@.len(),
                    r@ == b@.subrange(0, i as int),
                decreases b@.len() - i,
            {
                r.push(b[i]);
                i = i + 1;
            }
            assert(r@ =~= b@);
            r
        },
        SnmpValue::Integer(n) => {
            let r = vec![(*n / 16777216) as u8, (*n / 65536 % 256) as u8, (*n / 256 % 256) as u8, (*n % 256) as u8];
            assert(r@ =~= be_bytes(*n));
            r
        },
    }
}

/// A walked table read as numbers.
pub fn u32_table(raw: &IndexTable<SnmpValue>) -> (r: IndexTable<u32>)
    requires
        raw.wf(),
    ensures
        r.wf(),
        r@ == raw@.map_values(|v: SnmpValue| u32_of(v)),
{
    let ghost s = raw.spec_entries();
    let mut r: IndexTable<u32> = IndexTable::new();
    let mut i: usize = 0;
    while i < raw.len()
        invariant
            raw.wf(),
            s == raw.spec_entries(),
            i <= s.len(),
            r.wf(),
            r@ == map_of(s.subrange(0, i as int)).map_values(|v: SnmpValue| u32_of(v)),
        decreases s.len() - i,
    {
        let ghost before = r@;
        r.insert(raw.id_at(i), number_of(raw.value_at(i)));
        proof {
            let p = s.subrange(0, i + 1);
            assert(p.drop_last() =~= s.subrange(0, i as int));
            assert(map_of(p) == map_of(s.subrange(0, i as int)).insert(s[i as int].0, s[i as int].1));
            assert(r@ =~= map_of(p).map_values(|v: SnmpValue| u32_of(v)));
        }
        i = i + 1;
    }
    assert(s.subrange(0, s.len() as int) =~= s);
    r
}

/// A walked table read as bytes.
pub fn raw_table(raw: &IndexTable<SnmpValue>) -> (r: IndexTable<Vec<u8>>)
    requires
        raw.wf(),
    ensures
        r.wf(),
        r@.dom() == raw@.dom(),
        forall|k: u32| #[trigger] r@.contains_key(k) ==> r@[k]@ == bytes_of(raw@[k]),
{
    let ghost s = raw.spec_entries();
    let mut r: IndexTable<Vec<u8>> = IndexTable::new();
    let mut i: usize = 0;
    while i < raw.len()
        invariant
            raw.wf(),
            s == raw.spec_entries(),
            i <= s.len(),
            r.wf(),
            r@.dom() == map_of(s.subrange(0, i as int)).dom(),
            forall|k: u32| #[trigger]
                r@.contains_key(k) ==> r@[k]@ == bytes_of(map_of(s.subrange(0, i as int))[k]),
        decreases s.len() - i,
    {
        r.insert(raw.id_at(i), bytes_from(raw.value_at(i)));
        proof {
            let p = s.subrange(0, i + 1);
            assert(p.drop_last() =~= s.subrange(0, i as int));
            assert(map_of(p) == map_of(s.subrange(0, i as int)).insert(s[i as int].0, s[i as int].1));
            assert(r@.dom() =~= map_of(p).dom());
        }
        i = i + 1;
    }
    assert(s.subrange(0, s.len() as int) =~= s);
    r
}

/// The text that `String::from_utf8_lossy` makes of `b`.
pub uninterp spec fn lossy_text(b: Seq<u8>) -> Seq<char>;

/// Relies on `String::from_utf8_lossy`: the text depends on the bytes
/// alone, and no bytes give no text.
#[verifier::external_body]
fn text_from_bytes(b: &[u8]) -> (r: String)
    ensures
        r@ == lossy_text(b@),
        b@.len() == 0 ==> r@.len() == 0,
{
    String::from_utf8_lossy(b).into_owned()
}

/// Whether the table holds an integer, which no text table may.
pub open spec fn holds_integer(m: Map<u32, SnmpValue>) -> bool {
    exists|k: u32| #[trigger] m.contains_key(k) && m[k] is Integer
}

/// The text of a table value that holds bytes.
pub open spec fn text_of(v: SnmpValue) -> Seq<char> {
    match v {
        SnmpValue::Bytes(b) => lossy_text(b@),
        SnmpValue::Integer(_) => Seq::empty(),
    }
}

proof fn lemma_integer_found(raw: IndexTable<SnmpValue>, i: int)
    requires
        raw.wf(),
        0 <= i < raw.spec_entries().len(),
        raw.spec_entries()[i].1 is Integer,
    ensures
        holds_integer(raw@),
{
    lemma_map_of(raw.spec_entries());
    assert(raw@.contains_key(raw.spec_entries()[i].0));
}

proof fn lemma_no_integer(raw: IndexTable<SnmpValue>)
    requires
        raw.wf(),
        forall|j: int| 0 <= j < raw.spec_entries().len() ==> !(#[trigger] raw.spec_entries()[j].1 is Integer),
    ensures
        !holds_integer(raw@),
{
    let s = raw.spec_entries();
    lemma_map_of(s);
    if holds_integer(raw@) {
        let k = choose|k: u32| #[trigger] raw@.contains_key(k) && raw@[k] is Integer;
        let j = choose|j: int| 0 <= j < s.len() && s[j].0 == k;
        assert(raw@[s[j].0] == s[j].1);
    }
}

/// A walked table read as text; `None` where it holds an integer.
pub fn string_table(raw: &IndexTable<SnmpValue>) -> (r: Option<IndexTable<String>>)
    requires
        raw.wf(),
    ensures
        r is None <==> holds_integer(raw@),
        r matches Some(t) ==> t.wf() && t@.dom() == raw@.dom() && forall|k: u32| #[trigger]
            t@.contains_key(k) ==> t@[k]@ == text_of(raw@[k]),
{
    let ghost s = raw.spec_entries();
    let mut r: IndexTable<String> = IndexTable::new();
    let mut i: usize = 0;
    while i < raw.len()
        invariant
            raw.wf(),
            s == raw.spec_entries(),
            i <= s.len(),
            r.wf(),
            forall|j: int| 0 <= j < i ==> !(#[trigger] s[j].1 is Integer),
            r@.dom() == map_of(s.subrange(0, i as int)).dom(),
            forall|k: u32| #[trigger]
                r@.contains_key(k) ==> r@[k]@ == text_of(map_of(s.subrange(0, i as int))[k]),
        decreases s.len() - i,
    {
        match raw.value_at(i) {
            SnmpValue::Bytes(b) => {
                r.insert(raw.id_at(i), text_from_bytes(b.as_slice()));
            },
            SnmpValue::Integer(_) => {
                proof {
                    lemma_integer_found(*raw, i as int);
                }
                return None;
            },
        }
        proof {
            let p = s.subrange(0, i + 1);
            assert(p.drop_last() =~= s.subrange(0, i as int));
            assert(map_of(p) == map_of(s.subrange(0, i as int)).insert(s[i as int].0, s[i as int].1));
            assert(r@.dom() =~= map_of(p).dom());
        }
        i = i + 1;
    }
    proof {
        lemma_no_integer(*raw);
    }
    assert(s.subrange(0, s.len() as int) =~= s);
    Some(r)
}

/// A walked table read as optional text: an empty text counts as none.
/// `None` where the table holds an integer.
pub fn optional_string_table(raw: &IndexTable<SnmpValue>) -> (r: Option<IndexTable<Option<String>>>)
    requires
        raw.wf(),
    ensures
        r is None <==> holds_integer(raw@),
        r matches Some(t) ==> t.wf() && t@.dom() == raw@.dom() && forall|k: u32| #[trigger]
            t@.contains_key(k) ==> crate::config::text_view(t@[k]) == if text_of(raw@[k]).len()
                == 0 {
                None
            } else {
                Some(text_of(raw@[k]))
            },
{
    let ghost s = raw.spec_entries();
    let mut r: IndexTable<Option<String>> = IndexTable::new();
    let mut i: usize = 0;
    while i < raw.len()
        invariant
            raw.wf(),
            s == raw.spec_entries(),
            i <= s.len(),
            r.wf(),
            forall|j: int| 0 <= j < i ==> !(#[trigger] s[j].1 is Integer),
            r@.dom() == map_of(s.subrange(0, i as int)).dom(),
            forall|k: u32| #[trigger]
                r@.contains_key(k) ==> crate::config::text_view(r@[k]) == if text_of(
                    map_of(s.subrange(0, i as int))[k],
                ).len() == 0 {
                    None
                } else {
                    Some(text_of(map_of(s.subrange(0, i as int))[k]))
                },
        decreases s.len() - i,
    {
        match raw.value_at(i) {
            SnmpValue::Bytes(b) => {
                let text = text_from_bytes(b.as_slice());
                if text.as_str().is_empty() {
                    r.insert(raw.id_at(i), None);
                } else {
                    r.insert(raw.id_at(i), Some(text));
                }
            },
            SnmpValue::Integer(_) => {
                proof {
                    lemma_integer_found(*raw, i as int);
                }
                return None;
            },
        }
        proof {
            let p = s.subrange(0, i + 1);
            assert(p.drop_last() =~= s.subrange(0, i as int));
            assert(map_of(p) == map_of(s.subrange(0, i as int)).insert(s[i as int].0, s[i as int].1));
            assert(r@.dom() =~= map_of(p).dom());
        }
        i = i + 1;
    }
    proof {
        lemma_no_integer(*raw);
    }
    assert(s.subrange(0, s.len() as int) =~= s);
    Some(r)
}

} // verus!
