//! One reputation record and its decoding from a fragment.
use crate::extract::reputation_tag;
use crate::extract::reputation_tag_spec;
use crate::foreign::{
    datetime_seconds, network_of, parse_network, parse_utc_seconds, unescape_xml, utf8_string,
    xml_unescaped,
};
use crate::fragment::{child_views, fragment_children, parse_fragment, Child};
use crate::numeral::{chars_of, int_value, parse_i32};
use crate::packed_key::{decode, decode_spec, KeyError, ReputationKey};
use vstd::prelude::*;
use vstd::utf8::{decode_utf8, valid_utf8};

verus! {

/// The format of the `stamp` field, read as UTC.
pub const STAMP_FORMAT: &'static str = "%Y-%m-%d %H:%M:%S";

/// A single host or a network, as address bits and prefix length.
#[derive(Clone, Copy, Debug, PartialEq, Eq, Structural)]
pub enum NetAddr {
    V4 { addr: u32, prefix: u8 },
    V6 { addr: u128, prefix: u8 },
}

/// The child elements of a record, in the order the decoder checks them.
#[derive(Clone, Copy, Debug, PartialEq, Eq, Structural)]
pub enum Field {
    Stamp,
    Addr,
    Notes,
    Cc,
    ReputationKey,
    Proto,
    Family,
    Asn,
    Category,
    ReputationScore,
    Port,
}

#[derive(Clone, Copy, Debug, PartialEq, Eq, Structural)]
pub enum RecordError {
    /// The fragment does not follow the fragment grammar.
    Malformed,
    /// A required field is absent.
    Missing(Field),
    /// A field's text cannot be read or converted.
    Invalid(Field),
    /// The packed key is refused.
    Key(KeyError),
}

/// One reputation observation.
#[derive(Clone, Debug)]
pub struct Reputation {
    /// Seconds since the Unix epoch, UTC.
    pub stamp: i64,
    pub addr: NetAddr,
    pub notes: Option<String>,
    pub cc: String,
    pub reputation_key: ReputationKey,
    pub proto: Option<i32>,
    pub family: Option<String>,
    pub asn: Option<i32>,
    pub category: String,
    pub reputation_score: i32,
    pub port: Option<i32>,
}

pub struct RecordView {
    pub stamp: i64,
    pub addr: NetAddr,
    pub notes: Option<Seq<char>>,
    pub cc: Seq<char>,
    pub reputation_key: ReputationKey,
    pub proto: Option<i32>,
    pub family: Option<Seq<char>>,
    pub asn: Option<i32>,
    pub category: Seq<char>,
    pub reputation_score: i32,
    pub port: Option<i32>,
}

pub open spec fn opt_view(o: Option<String>) -> Option<Seq<char>> {
    match o {
        Some(s) => Some(s@),
        None => None,
    }
}

impl View for Reputation {
    type V = RecordView;

    open spec fn view(&self) -> RecordView {
        RecordView {
            stamp: self.stamp,
            addr: self.addr,
            notes: opt_view(self.notes),
            cc: self.cc@,
            reputation_key: self.reputation_key,
            proto: self.proto,
            family: opt_view(self.family),
            asn: self.asn,
            category: self.category@,
            reputation_score: self.reputation_score,
            port: self.port,
        }
    }
}

pub open spec fn result_view(r: Result<Reputation, RecordError>) -> Result<RecordView, RecordError> {
    match r {
        Ok(rep) => Ok(rep@),
        Err(e) => Err(e),
    }
}

pub open spec fn field_at(i: int) -> Field {
    if i == 0 {
        Field::Stamp
    } else if i == 1 {
        Field::Addr
    } else if i == 2 {
        Field::Notes
    } else if i == 3 {
        Field::Cc
    } else if i == 4 {
        Field::ReputationKey
    } else if i == 5 {
        Field::Proto
    } else if i == 6 {
        Field::Family
    } else if i == 7 {
        Field::Asn
    } else if i == 8 {
        Field::Category
    } else if i == 9 {
        Field::ReputationScore
    } else {
        Field::Port
    }
}

/// The element name of the field at position `i`.
pub open spec fn field_name(i: int) -> Seq<u8> {
    if i == 0 {
        seq![115u8, 116, 97, 109, 112] // stamp
    } else if i == 1 {
        seq![97u8, 100, 100, 114] // addr
    } else if i == 2 {
        seq![110u8, 111, 116, 101, 115] // notes
    } else if i == 3 {
        seq![99u8, 99] // cc
    } else if i == 4 {
        seq![114u8, 101, 112, 117, 116, 97, 116, 105, 111, 110, 95, 107, 101, 121] // reputation_key
    } else if i == 5 {
        seq![112u8, 114, 111, 116, 111] // proto
    } else if i == 6 {
        seq![102u8, 97, 109, 105, 108, 121] // family
    } else if i == 7 {
        seq![97u8, 115, 110] // asn
    } else if i == 8 {
        seq![99u8, 97, 116, 101, 103, 111, 114, 121] // category
    } else if i == 9 {
        seq![114u8, 101, 112, 117, 116, 97, 116, 105, 111, 110, 95, 115, 99, 111, 114, 101] // reputation_score
    } else {
        seq![112u8, 111, 114, 116] // port
    }
}

/// The text of the first child named `name`.
pub open spec fn lookup(cs: Seq<(Seq<u8>, Seq<u8>)>, name: Seq<u8>) -> Option<Seq<u8>>
    decreases cs.len(),
{
    if cs.len() == 0 {
        None
    } else if cs[0].0 == name {
        Some(cs[0].1)
    } else {
        lookup(cs.drop_first(), name)
    }
}

/// The text of the field at position `i`: absent, or decoded from UTF-8 and
/// unescaped; `Err` where either step refuses it.
pub open spec fn field_text(cs: Seq<(Seq<u8>, Seq<u8>)>, i: int) -> Result<Option<Seq<char>>, ()> {
    match lookup(cs, field_name(i)) {
        None => Ok(None),
        Some(b) => if valid_utf8(b) && xml_unescaped(decode_utf8(b)) is Some {
            Ok(Some(xml_unescaped(decode_utf8(b))->Some_0))
        } else {
            Err(())
        },
    }
}

/// The texts of the first `n` fields, or the error of the first that
/// cannot be read.
pub open spec fn texts_upto(cs: Seq<(Seq<u8>, Seq<u8>)>, n: nat) -> Result<
    Seq<Option<Seq<char>>>,
    RecordError,
>
    decreases n,
{
    if n == 0 {
        Ok(Seq::empty())
    } else {
        match texts_upto(cs, (n - 1) as nat) {
            Err(e) => Err(e),
            Ok(p) => match field_text(cs, n - 1) {
                Err(_) => Err(RecordError::Invalid(field_at(n - 1))),
                Ok(t) => Ok(p.push(t)),
            },
        }
    }
}

/// Once a field cannot be read, the error stands for all later prefixes.
proof fn lemma_texts_error_stays(cs: Seq<(Seq<u8>, Seq<u8>)>, m: nat, n: nat)
    requires
        m <= n,
        texts_upto(cs, m) is Err,
    ensures
        texts_upto(cs, n) == texts_upto(cs, m),
    decreases n - m,
{
    if m < n {
        lemma_texts_error_stays(cs, m, (n - 1) as nat);
    }
}

pub open spec fn opt_int_ok(t: Option<Seq<char>>) -> bool {
    match t {
        Some(s) => int_value(s) is Some,
        None => true,
    }
}

pub open spec fn opt_int(t: Option<Seq<char>>) -> Option<i32> {
    match t {
        Some(s) => int_value(s),
        None => None,
    }
}

pub open spec fn is_na(s: Seq<char>) -> bool {
    s == seq!['N', 'A']
}

/// The record that field texts make, given what the date-time and address
/// parsers made of the `stamp` and `addr` texts. Fields are checked in
/// order; the first that fails gives the error.
pub open spec fn build_spec(
    t: Seq<Option<Seq<char>>>,
    stamp: Option<i64>,
    addr: Option<NetAddr>,
) -> Result<RecordView, RecordError> {
    if t[0] is None {
        Err(RecordError::Missing(Field::Stamp))
    } else if stamp is None {
        Err(RecordError::Invalid(Field::Stamp))
    } else if t[1] is None {
        Err(RecordError::Missing(Field::Addr))
    } else if addr is None {
        Err(RecordError::Invalid(Field::Addr))
    } else if t[3] is None {
        Err(RecordError::Missing(Field::Cc))
    } else if t[4] is None {
        Err(RecordError::Missing(Field::ReputationKey))
    } else if decode_spec(t[4]->Some_0) is Err {
        Err(RecordError::Key(decode_spec(t[4]->Some_0)->Err_0))
    } else if !opt_int_ok(t[5]) {
        Err(RecordError::Invalid(Field::Proto))
    } else if t[7] is None {
        Err(RecordError::Missing(Field::Asn))
    } else if !is_na(t[7]->Some_0) && int_value(t[7]->Some_0) is None {
        Err(RecordError::Invalid(Field::Asn))
    } else if t[8] is None {
        Err(RecordError::Missing(Field::Category))
    } else if t[9] is None {
        Err(RecordError::Missing(Field::ReputationScore))
    } else if int_value(t[9]->Some_0) is None {
        Err(RecordError::Invalid(Field::ReputationScore))
    } else if !opt_int_ok(t[10]) {
        Err(RecordError::Invalid(Field::Port))
    } else {
        Ok(
            RecordView {
                stamp: stamp->Some_0,
                addr: addr->Some_0,
                notes: t[2],
                cc: t[3]->Some_0,
                reputation_key: decode_spec(t[4]->Some_0)->Ok_0,
                proto: opt_int(t[5]),
                family: t[6],
                asn: if is_na(t[7]->Some_0) {
                    None
                } else {
                    int_value(t[7]->Some_0)
                },
                category: t[8]->Some_0,
                reputation_score: int_value(t[9]->Some_0)->Some_0,
                port: opt_int(t[10]),
            },
        )
    }
}

/// The ASN text `NA` stands for no ASN: a record decoded with it has none.
/// Any other ASN text that is not a number makes the record fail.
pub proof fn lemma_asn_sentinel(t: Seq<Option<Seq<char>>>, stamp: Option<i64>, addr: Option<NetAddr>)
    requires
        t.len() == 11,
    ensures
        t[7] == Some(seq!['N', 'A']) && build_spec(t, stamp, addr) is Ok ==> build_spec(
            t,
            stamp,
            addr,
        )->Ok_0.asn is None,
        t[7] is Some && !is_na(t[7]->Some_0) && int_value(t[7]->Some_0) is None ==> build_spec(
            t,
            stamp,
            addr,
        ) is Err,
{
}

pub open spec fn stamp_of(t: Option<Seq<char>>) -> Option<i64> {
    match t {
        Some(s) => datetime_seconds(s, STAMP_FORMAT@),
        None => None,
    }
}

pub open spec fn addr_of(t: Option<Seq<char>>) -> Option<NetAddr> {
    match t {
        Some(s) => network_of(s),
        None => None,
    }
}

/// What a fragment decodes to.
pub open spec fn record_spec(b: Seq<u8>) -> Result<RecordView, RecordError> {
    match fragment_children(b, reputation_tag_spec()) {
        None => Err(RecordError::Malformed),
        Some(cs) => match texts_upto(cs, 11) {
            Err(e) => Err(e),
            Ok(t) => build_spec(t, stamp_of(t[0]), addr_of(t[1])),
        },
    }
}

pub open spec fn opt_views(s: Seq<Option<String>>) -> Seq<Option<Seq<char>>> {
    Seq::new(s.len(), |i: int| opt_view(s[i]))
}

fn field_name_exec(i: usize) -> (r: Vec<u8>)
    requires
        i < 11,
    ensures
        r@ == field_name(i as int),
{
    let r = if i == 0 {
        vec![115u8, 116, 97, 109, 112] // stamp
    } else if i == 1 {
        vec![97u8, 100, 100, 114] // addr
    } else if i == 2 {
        vec![110u8, 111, 116, 101, 115] // notes
    } else if i == 3 {
        vec![99u8, 99] // cc
    } else if i == 4 {
        vec![114u8, 101, 112, 117, 116, 97, 116, 105, 111, 110, 95, 107, 101, 121] // reputation_key
    } else if i == 5 {
        vec![112u8, 114, 111, 116, 111] // proto
    } else if i == 6 {
        vec![102u8, 97, 109, 105, 108, 121] // family
    } else if i == 7 {
        vec![97u8, 115, 110] // asn
    } else if i == 8 {
        vec![99u8, 97, 116, 101, 103, 111, 114, 121] // category
    } else if i == 9 {
        vec![114u8, 101, 112, 117, 116, 97, 116, 105, 111, 110, 95, 115, 99, 111, 114, 101] // reputation_score
    } else {
        vec![112u8, 111, 114, 116] // port
    };
    assert(r@ =~= field_name(i as int));
    r
}

fn lookup_exec(cs: &Vec<Child>, name: &Vec<u8>) -> (r: Option<usize>)
    ensures
        match r {
            Some(k) => k < cs@.len() && lookup(child_views(cs@), name@) == Some(cs@[k as int].text@),
            None => lookup(child_views(cs@), name@) is None,
        },
{
    let ghost all = child_views(cs@);
    let mut k: usize = 0;
    assert(all.subrange(0, all.len() as int) =~= all);
    while k < cs.len()
        invariant
            k <= cs@.len(),
            all == child_views(cs@),
            lookup(all, name@) == lookup(all.subrange(k as int, all.len() as int), name@),
        decreases cs@.len() - k,
    {
        let ghost rest = all.subrange(k as int, all.len() as int);
        assert(rest[0] == (cs@[k as int].name@, cs@[k as int].text@));
        if names_equal(&cs[k].name, name) {
            return Some(k);
        }
        assert(rest.drop_first() =~= all.subrange(k + 1, all.len() as int));
        k = k + 1;
    }
    None
}

fn names_equal(a: &Vec<u8>, b: &Vec<u8>) -> (r: bool)
    ensures
        r == (a@ == b@),
{
    if a.len() != b.len() {
        return false;
    }
    let mut i: usize = 0;
    while i < a.len()
        invariant
            a@.len() == b@.len(),
            i <= a@.len(),
            a@.subrange(0, i as int) == b@.subrange(0, i as int),
        decreases a@.len() - i,
    {
        if a[i] != b[i] {
            return false;
        }
        assert(a@.subrange(0, i + 1) =~= a@.subrange(0, i as int).push(a@[i as int]));
        assert(b@.subrange(0, i + 1) =~= b@.subrange(0, i as int).push(b@[i as int]));
        i = i + 1;
    }
    assert(a@ =~= a@.subrange(0, a@.len() as int));
    assert(b@ =~= b@.subrange(0, b@.len() as int));
    true
}

/// The text of the field at position `i`, decoded and unescaped.
fn text_of(cs: &Vec<Child>, i: usize) -> (r: Result<Option<String>, ()>)
    requires
        i < 11,
    ensures
        match r {
            Ok(t) => field_text(child_views(cs@), i as int) == Ok::<Option<Seq<char>>, ()>(opt_view(t)),
            Err(_) => field_text(child_views(cs@), i as int) is Err,
        },
{
    let name = field_name_exec(i);
    match lookup_exec(cs, &name) {
        None => Ok(None),
        Some(k) => {
            let raw = cs[k].text.clone();
            match utf8_string(raw) {
                None => Err(()),
                Some(s) => match unescape_xml(s.as_str()) {
                    Ok(t) => Ok(Some(t)),
                    Err(_) => Err(()),
                },
            }
        },
    }
}

/// The texts of all eleven fields, in field order.
pub fn collect_texts(cs: &Vec<Child>) -> (r: Result<Vec<Option<String>>, RecordError>)
    ensures
        match r {
            Ok(t) => t@.len() == 11 && texts_upto(child_views(cs@), 11) == Ok::<
                Seq<Option<Seq<char>>>,
                RecordError,
            >(opt_views(t@)),
            Err(e) => texts_upto(child_views(cs@), 11) == Err::<Seq<Option<Seq<char>>>, RecordError>(e),
        },
{
    let mut out: Vec<Option<String>> = Vec::new();
    let mut i: usize = 0;
    assert(opt_views(out@) =~= Seq::<Option<Seq<char>>>::empty());
    while i < 11
        invariant
            i <= 11,
            out@.len() == i,
            texts_upto(child_views(cs@), i as nat) == Ok::<Seq<Option<Seq<char>>>, RecordError>(
                opt_views(out@),
            ),
        decreases 11 - i,
    {
        let t = text_of(cs, i);
        match t {
            Err(_) => {
                let f = field_of(i);
                proof {
                    lemma_texts_error_stays(child_views(cs@), (i + 1) as nat, 11);
                }
                return Err(RecordError::Invalid(f));
            },
            Ok(x) => {
                let ghost before = opt_views(out@);
                out.push(x);
                assert(opt_views(out@) =~= before.push(opt_view(x)));
            },
        }
        i = i + 1;
    }
    Ok(out)
}

fn field_of(i: usize) -> (r: Field)
    requires
        i < 11,
    ensures
        r == field_at(i as int),
{
    if i == 0 { Field::Stamp }
    else if i == 1 { Field::Addr }
    else if i == 2 { Field::Notes }
    else if i == 3 { Field::Cc }
    else if i == 4 { Field::ReputationKey }
    else if i == 5 { Field::Proto }
    else if i == 6 { Field::Family }
    else if i == 7 { Field::Asn }
    else if i == 8 { Field::Category }
    else if i == 9 { Field::ReputationScore }
    else { Field::Port }
}

fn read_int(s: &String) -> (r: Option<i32>)
    ensures
        r == int_value(s@),
{
    let cs = chars_of(s.as_str());
    parse_i32(cs.as_slice())
}

fn read_opt_int(t: &Option<String>) -> (r: Result<Option<i32>, ()>)
    ensures
        r is Ok <==> opt_int_ok(opt_view(*t)),
        r is Ok ==> r->Ok_0 == opt_int(opt_view(*t)),
{
    match t {
        None => Ok(None),
        Some(s) => match read_int(s) {
            Some(v) => Ok(Some(v)),
            None => Err(()),
        },
    }
}

fn is_na_exec(s: &String) -> (r: bool)
    ensures
        r == is_na(s@),
{
    let cs = chars_of(s.as_str());
    let r = cs.len() == 2 && cs[0] == 'N' && cs[1] == 'A';
    proof {
        if r {
            assert(s@ =~= seq!['N', 'A']);
        } else if s@.len() == 2 {
            assert(s@[0] != seq!['N', 'A'][0] || s@[1] != seq!['N', 'A'][1]);
        }
    }
    r
}

/// Makes a record from the field texts (in field order, as
/// `collect_texts` gives them) and from what the date-time and address
/// parsers made of the `stamp` and `addr` texts.
pub fn build_reputation(texts: &Vec<Option<String>>, stamp: Option<i64>, addr: Option<NetAddr>) -> (r: Result<Reputation, RecordError>)
    requires
        texts@.len() == 11,
    ensures
        result_view(r) == build_spec(opt_views(texts@), stamp, addr),
{
    let ghost t = opt_views(texts@);
    assert(forall|i: int| 0 <= i < 11 ==> t[i] == opt_view(#[trigger] texts@[i]));
    let stamp = match (&texts[0], stamp) {
        (None, _) => return Err(RecordError::Missing(Field::Stamp)),
        (Some(_), None) => return Err(RecordError::Invalid(Field::Stamp)),
        (Some(_), Some(v)) => v,
    };
    let addr = match (&texts[1], addr) {
        (None, _) => return Err(RecordError::Missing(Field::Addr)),
        (Some(_), None) => return Err(RecordError::Invalid(Field::Addr)),
        (Some(_), Some(a)) => a,
    };
    let cc = match &texts[3] {
        None => return Err(RecordError::Missing(Field::Cc)),
        Some(s) => s.clone(),
    };
    let key = match &texts[4] {
        None => return Err(RecordError::Missing(Field::ReputationKey)),
        Some(s) => match decode(s.as_str()) {
            Err(e) => return Err(RecordError::Key(e)),
            Ok(k) => k,
        },
    };
    let proto = match read_opt_int(&texts[5]) {
        Err(_) => return Err(RecordError::Invalid(Field::Proto)),
        Ok(p) => p,
    };
    let asn = match &texts[7] {
        None => return Err(RecordError::Missing(Field::Asn)),
        Some(s) => if is_na_exec(s) {
            None
        } else {
            match read_int(s) {
                None => return Err(RecordError::Invalid(Field::Asn)),
                Some(v) => Some(v),
            }
        },
    };
    let category = match &texts[8] {
        None => return Err(RecordError::Missing(Field::Category)),
        Some(s) => s.clone(),
    };
    let score = match &texts[9] {
        None => return Err(RecordError::Missing(Field::ReputationScore)),
        Some(s) => match read_int(s) {
            None => return Err(RecordError::Invalid(Field::ReputationScore)),
            Some(v) => v,
        },
    };
    let port = match read_opt_int(&texts[10]) {
        Err(_) => return Err(RecordError::Invalid(Field::Port)),
        Ok(p) => p,
    };
    let rep = Reputation {
        stamp,
        addr,
        notes: texts[2].clone(),
        cc,
        reputation_key: key,
        proto,
        family: texts[6].clone(),
        asn,
        category,
        reputation_score: score,
        port,
    };
    Ok(rep)
}

/// Decodes one record fragment.
pub fn decode_record(frag: &[u8]) -> (r: Result<Reputation, RecordError>)
    ensures
        result_view(r) == record_spec(frag@),
{
    let tag = reputation_tag();
    let cs = match parse_fragment(frag, tag.as_slice()) {
        None => return Err(RecordError::Malformed),
        Some(cs) => cs,
    };
    let texts = match collect_texts(&cs) {
        Err(e) => return Err(e),
        Ok(t) => t,
    };
    let ghost t = opt_views(texts@);
    assert(t[0] == opt_view(texts@[0]) && t[1] == opt_view(texts@[1]));
    let stamp = match &texts[0] {
        None => None,
        Some(s) => match parse_utc_seconds(s.as_str(), STAMP_FORMAT) {
            Ok(v) => Some(v),
            Err(_) => None,
        },
    };
    let addr = match &texts[1] {
        None => None,
        Some(s) => parse_network(s.as_str()),
    };
    build_reputation(&texts, stamp, addr)
}

} // verus!
