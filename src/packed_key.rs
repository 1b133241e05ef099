//! The packed reputation key: eleven marker-prefixed numbers in one token,
//! `A<n>B<n>C<n>D<n>E<n>F<n>G<n>H<n>I<n>J<n>K<n>`.
//!
//! Grammar, as read by [`decode`]: the token is cut at every character that
//! is not an ASCII digit. The cut must leave exactly twelve pieces: the empty
//! piece before the first marker, then one digit run per field. The marker
//! characters themselves are not checked.
use crate::numeral::{
    all_digits, append_signed, chars_of, decimal, digits_value, int_value, is_digit,
    lemma_decimal_digits, lemma_digits_value_nonneg, lemma_int_value_of_decimal, parse_i32,
    signed_decimal,
};
use vstd::prelude::*;
use vstd::string::StringExecFns;

verus! {

/// How an observation was made; coded 0 to 8 in this order.
#[derive(Clone, Copy, Debug, PartialEq, Eq, Structural)]
pub enum DetectionType {
    Other,
    Netflow,
    Sinkhole,
    Darknet,
    Honeypot,
    HumanVerified,
    ActiveProbe,
    ReportedBy3rdParty,
    UnverifiedMalwareC2,
}

pub open spec fn detection_code(d: DetectionType) -> int {
    match d {
        DetectionType::Other => 0,
        DetectionType::Netflow => 1,
        DetectionType::Sinkhole => 2,
        DetectionType::Darknet => 3,
        DetectionType::Honeypot => 4,
        DetectionType::HumanVerified => 5,
        DetectionType::ActiveProbe => 6,
        DetectionType::ReportedBy3rdParty => 7,
        DetectionType::UnverifiedMalwareC2 => 8,
    }
}

pub open spec fn detection_of_code(n: int) -> Option<DetectionType> {
    if n == 0 { Some(DetectionType::Other) }
    else if n == 1 { Some(DetectionType::Netflow) }
    else if n == 2 { Some(DetectionType::Sinkhole) }
    else if n == 3 { Some(DetectionType::Darknet) }
    else if n == 4 { Some(DetectionType::Honeypot) }
    else if n == 5 { Some(DetectionType::HumanVerified) }
    else if n == 6 { Some(DetectionType::ActiveProbe) }
    else if n == 7 { Some(DetectionType::ReportedBy3rdParty) }
    else if n == 8 { Some(DetectionType::UnverifiedMalwareC2) }
    else { None }
}

impl DetectionType {
    /// The variant with the given code, if there is one.
    pub fn from_code(n: i32) -> (r: Option<DetectionType>)
        ensures
            r == detection_of_code(n as int),
    {
        match n {
            0 => Some(DetectionType::Other),
            1 => Some(DetectionType::Netflow),
            2 => Some(DetectionType::Sinkhole),
            3 => Some(DetectionType::Darknet),
            4 => Some(DetectionType::Honeypot),
            5 => Some(DetectionType::HumanVerified),
            6 => Some(DetectionType::ActiveProbe),
            7 => Some(DetectionType::ReportedBy3rdParty),
            8 => Some(DetectionType::UnverifiedMalwareC2),
            _ => None,
        }
    }

    pub fn code(&self) -> (r: u8)
        ensures
            r as int == detection_code(*self),
    {
        match self {
            DetectionType::Other => 0,
            DetectionType::Netflow => 1,
            DetectionType::Sinkhole => 2,
            DetectionType::Darknet => 3,
            DetectionType::Honeypot => 4,
            DetectionType::HumanVerified => 5,
            DetectionType::ActiveProbe => 6,
            DetectionType::ReportedBy3rdParty => 7,
            DetectionType::UnverifiedMalwareC2 => 8,
        }
    }
}

/// The decoded fields of a packed key, in token order.
#[derive(Clone, Copy, Debug, PartialEq, Eq, Structural)]
pub struct ReputationKey {
    pub days_in_feed: i32,
    pub count_of_active_detections: i32,
    pub count_of_passive_detections: i32,
    pub detection_type: DetectionType,
    pub sslusage: bool,
    pub controller_instruction_decoded: bool,
    pub ddo_scommand_observed: bool,
    pub non_standard_port: bool,
    pub number_of_unique_domain_names_on_same_ip: i32,
    pub number_of_distinct_controllers_on_same_ip: i32,
    pub other_bad_ips_in24: i32,
}

#[derive(Clone, Copy, Debug, PartialEq, Eq, Structural)]
pub enum KeyError {
    /// Cutting at non-digits did not leave exactly twelve pieces.
    MalformedKey,
    /// The detection-type field is a number outside 0 to 8.
    InvalidDetectionType,
    /// A field is empty or too large for `i32`.
    NumericFieldError,
}

/// The pieces left by cutting `s` at every character that is not a digit.
#[verifier::opaque]
pub open spec fn segments(s: Seq<char>) -> Seq<Seq<char>>
    decreases s.len(),
{
    if s.len() == 0 {
        seq![Seq::<char>::empty()]
    } else {
        let p = segments(s.drop_last());
        if is_digit(s.last()) {
            p.update(p.len() - 1, p.last().push(s.last()))
        } else {
            p.push(Seq::<char>::empty())
        }
    }
}

/// A flag field is set exactly when its piece is the single digit `1`.
pub open spec fn flag_of(seg: Seq<char>) -> bool {
    seg == seq!['1']
}

pub open spec fn field_value(g: Seq<Seq<char>>, i: int) -> i32 {
    int_value(g[i])->Some_0
}

/// Every numeric field other than the detection type reads as an `i32`.
pub open spec fn numeric_fields_read(g: Seq<Seq<char>>) -> bool {
    &&& int_value(g[1]) is Some
    &&& int_value(g[2]) is Some
    &&& int_value(g[3]) is Some
    &&& int_value(g[5]) is Some
    &&& int_value(g[6]) is Some
    &&& int_value(g[7]) is Some
    &&& int_value(g[8]) is Some
    &&& int_value(g[9]) is Some
    &&& int_value(g[10]) is Some
    &&& int_value(g[11]) is Some
}

pub open spec fn key_from_segments(g: Seq<Seq<char>>) -> ReputationKey {
    ReputationKey {
        days_in_feed: field_value(g, 1),
        count_of_active_detections: field_value(g, 2),
        count_of_passive_detections: field_value(g, 3),
        detection_type: detection_of_code(digits_value(g[4]))->Some_0,
        sslusage: flag_of(g[5]),
        controller_instruction_decoded: flag_of(g[6]),
        ddo_scommand_observed: flag_of(g[7]),
        non_standard_port: flag_of(g[8]),
        number_of_unique_domain_names_on_same_ip: field_value(g, 9),
        number_of_distinct_controllers_on_same_ip: field_value(g, 10),
        other_bad_ips_in24: field_value(g, 11),
    }
}

/// What a token decodes to. The checks go in this order: the number of
/// pieces, then the detection type, then the other numeric fields.
pub open spec fn decode_spec(s: Seq<char>) -> Result<ReputationKey, KeyError> {
    let g = segments(s);
    if g.len() != 12 {
        Err(KeyError::MalformedKey)
    } else if g[4].len() == 0 {
        Err(KeyError::NumericFieldError)
    } else if digits_value(g[4]) > 8 {
        Err(KeyError::InvalidDetectionType)
    } else if !numeric_fields_read(g) {
        Err(KeyError::NumericFieldError)
    } else {
        Ok(key_from_segments(g))
    }
}

pub open spec fn marker(i: int) -> char {
    seq!['A', 'B', 'C', 'D', 'E', 'F', 'G', 'H', 'I', 'J', 'K'][i]
}

pub open spec fn flag_number(b: bool) -> int {
    if b { 1 } else { 0 }
}

/// The eleven fields as numbers, in token order; a flag is 1 or 0.
pub open spec fn key_numbers(k: ReputationKey) -> Seq<int> {
    seq![
        k.days_in_feed as int,
        k.count_of_active_detections as int,
        k.count_of_passive_detections as int,
        detection_code(k.detection_type),
        flag_number(k.sslusage),
        flag_number(k.controller_instruction_decoded),
        flag_number(k.ddo_scommand_observed),
        flag_number(k.non_standard_port),
        k.number_of_unique_domain_names_on_same_ip as int,
        k.number_of_distinct_controllers_on_same_ip as int,
        k.other_bad_ips_in24 as int,
    ]
}

/// Each number written after its marker letter.
pub open spec fn marked(ns: Seq<int>) -> Seq<char>
    decreases ns.len(),
{
    if ns.len() == 0 {
        Seq::<char>::empty()
    } else {
        marked(ns.drop_last()).push(marker(ns.len() - 1)) + signed_decimal(ns.last())
    }
}

/// The token that a key encodes to.
pub open spec fn encode_spec(k: ReputationKey) -> Seq<char> {
    marked(key_numbers(k))
}

/// A key whose numeric fields are all non-negative: the keys that decoding
/// can produce.
pub open spec fn key_in_range(k: ReputationKey) -> bool {
    &&& k.days_in_feed >= 0
    &&& k.count_of_active_detections >= 0
    &&& k.count_of_passive_detections >= 0
    &&& k.number_of_unique_domain_names_on_same_ip >= 0
    &&& k.number_of_distinct_controllers_on_same_ip >= 0
    &&& k.other_bad_ips_in24 >= 0
}

pub proof fn lemma_segments_nonempty(s: Seq<char>)
    ensures
        segments(s).len() >= 1,
    decreases s.len(),
{
    reveal(segments);
    if s.len() > 0 {
        lemma_segments_nonempty(s.drop_last());
    }
}

pub proof fn lemma_segments_digits(s: Seq<char>)
    ensures
        forall|i: int| 0 <= i < segments(s).len() ==> all_digits(#[trigger] segments(s)[i]),
    decreases s.len(),
{
    reveal(segments);
    if s.len() > 0 {
        lemma_segments_digits(s.drop_last());
        lemma_segments_nonempty(s.drop_last());
        let p = segments(s.drop_last());
        if is_digit(s.last()) {
            let q = p.last().push(s.last());
            assert(all_digits(p.last()));
            assert(all_digits(q)) by {
                assert forall|j: int| 0 <= j < q.len() implies is_digit(#[trigger] q[j]) by {
                    if j < q.len() - 1 {
                        assert(q[j] == p.last()[j]);
                    }
                }
            }
        } else {
            assert(all_digits(Seq::<char>::empty()));
        }
    }
}

/// Cutting after a marker and a run of digits adds that run as one piece.
pub proof fn lemma_segments_marker_run(x: Seq<char>, m: char, d: Seq<char>)
    requires
        !is_digit(m),
        all_digits(d),
    ensures
        segments(x.push(m) + d) == segments(x).push(d),
    decreases d.len(),
{
    reveal(segments);
    if d.len() == 0 {
        assert(d =~= Seq::<char>::empty());
        assert(x.push(m) + d =~= x.push(m));
        assert(x.push(m).drop_last() =~= x);
        assert(segments(x).push(Seq::<char>::empty()) =~= segments(x).push(d));
    } else {
        let y = x.push(m) + d;
        assert(y.drop_last() =~= x.push(m) + d.drop_last());
        assert(all_digits(d.drop_last())) by {
            assert forall|j: int| 0 <= j < d.drop_last().len() implies is_digit(
                #[trigger] d.drop_last()[j],
            ) by {
                assert(d.drop_last()[j] == d[j]);
            }
        }
        lemma_segments_marker_run(x, m, d.drop_last());
        assert(y.last() == d.last());
        assert(is_digit(d[d.len() - 1]));
        let p = segments(x).push(d.drop_last());
        assert(p.update(p.len() - 1, p.last().push(d.last())) =~= segments(x).push(d)) by {
            assert(d.drop_last().push(d.last()) =~= d);
        }
    }
}

proof fn lemma_field_nonneg(g: Seq<Seq<char>>, i: int)
    requires
        all_digits(g[i]),
        int_value(g[i]) is Some,
    ensures
        field_value(g, i) >= 0,
        g[i].len() > 0,
{
    let s = g[i];
    assert(is_digit(s[0]));
    lemma_digits_value_nonneg(s);
}

proof fn lemma_marked_segments(ns: Seq<int>)
    requires
        ns.len() <= 11,
        forall|i: int| 0 <= i < ns.len() ==> ns[i] >= 0,
    ensures
        segments(marked(ns)) == seq![Seq::<char>::empty()] + Seq::new(
            ns.len(),
            |i: int| decimal(ns[i] as nat),
        ),
    decreases ns.len(),
{
    if ns.len() == 0 {
        reveal(segments);
        assert(segments(marked(ns)) =~= seq![Seq::<char>::empty()] + Seq::new(
            ns.len(),
            |i: int| decimal(ns[i] as nat),
        ));
    } else {
        let p = ns.drop_last();
        lemma_marked_segments(p);
        let v = ns.last();
        assert(signed_decimal(v) == decimal(v as nat));
        lemma_decimal_digits(v as nat);
        assert(!is_digit(marker(ns.len() - 1)));
        lemma_segments_marker_run(marked(p), marker(ns.len() - 1), decimal(v as nat));
        assert(segments(marked(ns)) =~= seq![Seq::<char>::empty()] + Seq::new(
            ns.len(),
            |i: int| decimal(ns[i] as nat),
        ));
    }
}

proof fn lemma_flag_decimal(b: bool)
    ensures
        int_value(decimal(flag_number(b) as nat)) is Some,
        flag_of(decimal(flag_number(b) as nat)) == b,
{
    lemma_int_value_of_decimal(flag_number(b) as nat);
    assert(seq!['0'][0] != seq!['1'][0]);
    assert(decimal(0) == seq!['0']);
    assert(decimal(1) == seq!['1']);
}

/// Encoding a key of non-negative fields and decoding the token gives the
/// key back.
pub proof fn lemma_decode_encode(k: ReputationKey)
    requires
        key_in_range(k),
    ensures
        decode_spec(encode_spec(k)) == Ok::<ReputationKey, KeyError>(k),
{
    let ns = key_numbers(k);
    lemma_marked_segments(ns);
    let g = segments(encode_spec(k));
    assert(g.len() == 12);
    lemma_int_value_of_decimal(ns[0] as nat);
    lemma_int_value_of_decimal(ns[1] as nat);
    lemma_int_value_of_decimal(ns[2] as nat);
    lemma_int_value_of_decimal(ns[8] as nat);
    lemma_int_value_of_decimal(ns[9] as nat);
    lemma_int_value_of_decimal(ns[10] as nat);
    lemma_decimal_digits(ns[3] as nat);
    lemma_flag_decimal(k.sslusage);
    lemma_flag_decimal(k.controller_instruction_decoded);
    lemma_flag_decimal(k.ddo_scommand_observed);
    lemma_flag_decimal(k.non_standard_port);
    assert(g[1] == decimal(ns[0] as nat));
    assert(g[2] == decimal(ns[1] as nat));
    assert(g[3] == decimal(ns[2] as nat));
    assert(g[4] == decimal(ns[3] as nat));
    assert(g[5] == decimal(ns[4] as nat));
    assert(g[6] == decimal(ns[5] as nat));
    assert(g[7] == decimal(ns[6] as nat));
    assert(g[8] == decimal(ns[7] as nat));
    assert(g[9] == decimal(ns[8] as nat));
    assert(g[10] == decimal(ns[9] as nat));
    assert(g[11] == decimal(ns[10] as nat));
    assert(numeric_fields_read(g));
    assert(key_from_segments(g) == k);
}

/// Decoding a token, encoding the key and decoding again gives the first
/// result.
pub proof fn lemma_round_trip(t: Seq<char>)
    requires
        decode_spec(t) is Ok,
    ensures
        decode_spec(encode_spec(decode_spec(t)->Ok_0)) == decode_spec(t),
{
    let g = segments(t);
    lemma_segments_digits(t);
    lemma_field_nonneg(g, 1);
    lemma_field_nonneg(g, 2);
    lemma_field_nonneg(g, 3);
    lemma_field_nonneg(g, 9);
    lemma_field_nonneg(g, 10);
    lemma_field_nonneg(g, 11);
    lemma_decode_encode(decode_spec(t)->Ok_0);
}

/// A token that does not cut into exactly twelve pieces is refused as
/// malformed, whatever else it holds.
pub proof fn lemma_piece_count_checked(t: Seq<char>)
    requires
        segments(t).len() != 12,
    ensures
        decode_spec(t) == Err::<ReputationKey, KeyError>(KeyError::MalformedKey),
{
}

/// A well-shaped token whose detection-type field is a number above 8 is
/// refused for its detection type.
pub proof fn lemma_detection_type_range(t: Seq<char>)
    requires
        segments(t).len() == 12,
        segments(t)[4].len() > 0,
        digits_value(segments(t)[4]) > 8,
    ensures
        decode_spec(t) == Err::<ReputationKey, KeyError>(KeyError::InvalidDetectionType),
{
}

/// Each flag of a decoded key is set exactly when its field is the single
/// digit `1`; any other digits leave it clear.
pub proof fn lemma_flags_literal(t: Seq<char>)
    requires
        decode_spec(t) is Ok,
    ensures
        decode_spec(t)->Ok_0.sslusage == (segments(t)[5] == seq!['1']),
        decode_spec(t)->Ok_0.controller_instruction_decoded == (segments(t)[6] == seq!['1']),
        decode_spec(t)->Ok_0.ddo_scommand_observed == (segments(t)[7] == seq!['1']),
        decode_spec(t)->Ok_0.non_standard_port == (segments(t)[8] == seq!['1']),
{
}

pub open spec fn views(v: Seq<Vec<char>>) -> Seq<Seq<char>> {
    Seq::new(v.len(), |i: int| v[i]@)
}

/// Cuts a token at every character that is not a digit.
pub fn split_segments(t: &[char]) -> (r: Vec<Vec<char>>)
    ensures
        views(r@) == segments(t@),
{
    let n = t.len();
    let mut done: Vec<Vec<char>> = Vec::new();
    let mut cur: Vec<char> = Vec::new();
    let mut i: usize = 0;
    proof {
        reveal(segments);
        assert(t@.subrange(0, 0) =~= Seq::<char>::empty());
        assert(views(done@).push(cur@) =~= seq![Seq::<char>::empty()]);
    }
    while i < n
        invariant
            n == t@.len(),
            i <= n,
            views(done@).push(cur@) == segments(t@.subrange(0, i as int)),
        decreases n - i,
    {
        let c = t[i];
        let ghost before = t@.subrange(0, i as int);
        let ghost after = t@.subrange(0, i + 1);
        assert(after.drop_last() =~= before);
        assert(after.last() == c);
        proof {
            lemma_segments_nonempty(before);
            reveal(segments);
        }
        if c >= '0' && c <= '9' {
            cur.push(c);
            assert(views(done@).push(cur@) =~= segments(after));
        } else {
            let ghost old_done = views(done@);
            let ghost old_cur = cur@;
            done.push(cur);
            cur = Vec::new();
            assert(views(done@) =~= old_done.push(old_cur));
            assert(views(done@).push(cur@) =~= segments(after));
        }
        i = i + 1;
    }
    assert(t@.subrange(0, n as int) =~= t@);
    let ghost old_done = views(done@);
    let ghost old_cur = cur@;
    done.push(cur);
    assert(views(done@) =~= old_done.push(old_cur));
    done
}

/// Decodes a packed key token.
pub fn decode(token: &str) -> (r: Result<ReputationKey, KeyError>)
    ensures
        r == decode_spec(token@),
{
    let chars = chars_of(token);
    let g = split_segments(chars.as_slice());
    let ghost gs = segments(token@);
    proof {
        lemma_segments_digits(token@);
    }
    assert(chars@ == token@);
    if g.len() != 12 {
        return Err(KeyError::MalformedKey);
    }
    assert(g[4]@ == views(g@)[4]);
    if g[4].len() == 0 {
        return Err(KeyError::NumericFieldError);
    }
    proof {
        assert(all_digits(gs[4]));
        lemma_digits_value_nonneg(gs[4]);
        assert(is_digit(gs[4][0]));
    }
    let detection = match parse_i32(g[4].as_slice()) {
        Some(v) => match DetectionType::from_code(v) {
            Some(d) => d,
            None => {
                return Err(KeyError::InvalidDetectionType);
            },
        },
        None => {
            return Err(KeyError::InvalidDetectionType);
        },
    };
    let f1 = parse_i32(g[1].as_slice());
    let f2 = parse_i32(g[2].as_slice());
    let f3 = parse_i32(g[3].as_slice());
    let f5 = parse_i32(g[5].as_slice());
    let f6 = parse_i32(g[6].as_slice());
    let f7 = parse_i32(g[7].as_slice());
    let f8 = parse_i32(g[8].as_slice());
    let f9 = parse_i32(g[9].as_slice());
    let f10 = parse_i32(g[10].as_slice());
    let f11 = parse_i32(g[11].as_slice());
    assert(g[1]@ == views(g@)[1] && g[2]@ == views(g@)[2] && g[3]@ == views(g@)[3]);
    assert(g[5]@ == views(g@)[5] && g[6]@ == views(g@)[6] && g[7]@ == views(g@)[7]);
    assert(g[8]@ == views(g@)[8] && g[9]@ == views(g@)[9] && g[10]@ == views(g@)[10]);
    assert(g[11]@ == views(g@)[11]);
    match (f1, f2, f3, f5, f6, f7, f8, f9, f10, f11) {
        (Some(a), Some(b), Some(c), Some(_), Some(_), Some(_), Some(_), Some(i), Some(j), Some(k)) => {
            let key = ReputationKey {
                days_in_feed: a,
                count_of_active_detections: b,
                count_of_passive_detections: c,
                detection_type: detection,
                sslusage: is_one(&g[5]),
                controller_instruction_decoded: is_one(&g[6]),
                ddo_scommand_observed: is_one(&g[7]),
                non_standard_port: is_one(&g[8]),
                number_of_unique_domain_names_on_same_ip: i,
                number_of_distinct_controllers_on_same_ip: j,
                other_bad_ips_in24: k,
            };
            Ok(key)
        },
        _ => Err(KeyError::NumericFieldError),
    }
}

fn is_one(seg: &Vec<char>) -> (r: bool)
    ensures
        r == flag_of(seg@),
{
    let r = seg.len() == 1 && seg[0] == '1';
    proof {
        if r {
            assert(seg@ =~= seq!['1']);
        } else if seg@.len() == 1 {
            assert(seg@[0] != seq!['1'][0]);
        }
    }
    r
}

fn marker_str(i: usize) -> (r: &'static str)
    requires
        i < 11,
    ensures
        r@ == seq![marker(i as int)],
{
    proof {
        reveal_strlit("A");
        reveal_strlit("B");
        reveal_strlit("C");
        reveal_strlit("D");
        reveal_strlit("E");
        reveal_strlit("F");
        reveal_strlit("G");
        reveal_strlit("H");
        reveal_strlit("I");
        reveal_strlit("J");
        reveal_strlit("K");
    }
    if i == 0 { "A" }
    else if i == 1 { "B" }
    else if i == 2 { "C" }
    else if i == 3 { "D" }
    else if i == 4 { "E" }
    else if i == 5 { "F" }
    else if i == 6 { "G" }
    else if i == 7 { "H" }
    else if i == 8 { "I" }
    else if i == 9 { "J" }
    else { "K" }
}

fn flag_i32(b: bool) -> (r: i32)
    ensures
        r as int == flag_number(b),
{
    if b { 1 } else { 0 }
}

impl ReputationKey {
    /// The eleven fields as numbers, in token order.
    pub fn numbers(&self) -> (r: Vec<i32>)
        ensures
            r@.len() == 11,
            forall|i: int| 0 <= i < 11 ==> r@[i] as int == #[trigger] key_numbers(*self)[i],
    {
        let r = vec![
            self.days_in_feed,
            self.count_of_active_detections,
            self.count_of_passive_detections,
            self.detection_type.code() as i32,
            flag_i32(self.sslusage),
            flag_i32(self.controller_instruction_decoded),
            flag_i32(self.ddo_scommand_observed),
            flag_i32(self.non_standard_port),
            self.number_of_unique_domain_names_on_same_ip,
            self.number_of_distinct_controllers_on_same_ip,
            self.other_bad_ips_in24,
        ];
        r
    }

    /// Writes the key as a token, marker letters `A` to `K` before the
    /// fields.
    pub fn encode(&self) -> (r: String)
        ensures
            r@ == encode_spec(*self),
    {
        let ns = self.numbers();
        let ghost spec_ns = key_numbers(*self);
        let mut out = String::new();
        let mut i: usize = 0;
        while i < 11
            invariant
                i <= 11,
                ns@.len() == 11,
                spec_ns == key_numbers(*self),
                forall|j: int| 0 <= j < 11 ==> ns@[j] as int == #[trigger] spec_ns[j],
                out@ == marked(spec_ns.subrange(0, i as int)),
            decreases 11 - i,
        {
            out.append(marker_str(i));
            append_signed(&mut out, ns[i]);
            proof {
                let q = spec_ns.subrange(0, i + 1);
                assert(q.drop_last() =~= spec_ns.subrange(0, i as int));
                assert(q.last() == ns@[i as int] as int);
                assert(out@ =~= marked(q));
            }
            i = i + 1;
        }
        assert(spec_ns.subrange(0, 11) =~= spec_ns);
        out
    }
}

} // verus!
