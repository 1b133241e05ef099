//! Batching of decoded records, and the statement and parameters that
//! write one batch as a single multi-row insert.
use crate::numeral::{append_decimal, decimal};
use crate::packed_key::{detection_code, DetectionType};
use crate::record::{opt_view, NetAddr, RecordView, Reputation};
use vstd::prelude::*;
use vstd::string::StringExecFns;

verus! {

/// Number of columns bound per record.
pub const COLUMNS: usize = 21;

/// The statement up to the first row of values.
pub const INSERT_HEAD: &'static str = "INSERT INTO sink.dave_team_cymru_repfeed (stamp, addr, notes, cc, rep_days_in_feed, rep_count_of_active_detections, rep_count_of_passive_detections, rep_detection_type, rep_ssl_usage, rep_controller_instruction_decoded, rep_ddos_command_observed, rep_non_standard_port, rep_number_of_unique_domain_names_on_same_ip, rep_number_of_distinct_controllers_on_same_ip, rep_other_bad_ips_in_24, proto, family, asn, category, reputation_score, port) VALUES ";

/// `$first, $first+1, ...`: `n` numbered placeholders.
pub open spec fn placeholders(first: nat, n: nat) -> Seq<char>
    decreases n,
{
    if n == 0 {
        Seq::<char>::empty()
    } else if n == 1 {
        seq!['$'] + decimal(first)
    } else {
        placeholders(first, (n - 1) as nat) + seq![',', ' ', '$'] + decimal((first + n - 1) as nat)
    }
}

/// The parenthesised placeholders of row `k`, counting rows from 0.
pub open spec fn row_tuple(k: nat) -> Seq<char> {
    seq!['('] + placeholders(COLUMNS as nat * k + 1, COLUMNS as nat) + seq![')']
}

/// The first `n` rows, separated by commas.
pub open spec fn rows_text(n: nat) -> Seq<char>
    decreases n,
{
    if n == 0 {
        Seq::<char>::empty()
    } else if n == 1 {
        row_tuple(0)
    } else {
        rows_text((n - 1) as nat) + seq![','] + row_tuple((n - 1) as nat)
    }
}

pub open spec fn insert_sql(n: nat) -> Seq<char> {
    INSERT_HEAD@ + rows_text(n)
}

/// The insert statement for `rows` records, placeholders `$1` onwards.
pub fn insert_statement(rows: usize) -> (r: String)
    requires
        COLUMNS * rows <= u64::MAX,
    ensures
        r@ == insert_sql(rows as nat),
{
    let mut out = String::from_str(INSERT_HEAD);
    let mut k: usize = 0;
    assert(out@ =~= insert_sql(0));
    while k < rows
        invariant
            k <= rows,
            COLUMNS * rows <= u64::MAX,
            out@ == insert_sql(k as nat),
        decreases rows - k,
    {
        proof {
            reveal_strlit(",");
            reveal_strlit("(");
            reveal_strlit(")");
        }
        let ghost before = out@;
        if k > 0 {
            out.append(",");
        }
        let ghost row_start = out@;
        out.append("(");
        assert(k < rows);
        assert(COLUMNS * k <= COLUMNS * rows) by (nonlinear_arith)
            requires
                k < rows,
        ;
        let base: u64 = (COLUMNS as u64) * (k as u64);
        let mut j: usize = 0;
        assert(out@ =~= row_start + seq!['('] + placeholders(base as nat + 1, 0));
        while j < COLUMNS
            invariant
                j <= COLUMNS,
                k < rows,
                COLUMNS * rows <= u64::MAX,
                base == COLUMNS * k,
                out@ == row_start + seq!['('] + placeholders(base as nat + 1, j as nat),
            decreases COLUMNS - j,
        {
            proof {
                reveal_strlit(", ");
                reveal_strlit("$");
            }
            let ghost prev = out@;
            if j > 0 {
                out.append(", ");
            }
            out.append("$");
            assert(COLUMNS * k + COLUMNS <= COLUMNS * rows) by (nonlinear_arith)
                requires
                    k < rows,
            ;
            append_decimal(&mut out, base + j as u64 + 1);
            proof {
                let f = base as nat + 1;
                if j == 0 {
                    assert(placeholders(f, 1) == seq!['$'] + decimal(f));
                    assert(out@ =~= prev + seq!['$'] + decimal(f));
                } else {
                    assert(placeholders(f, (j + 1) as nat) == placeholders(f, j as nat) + seq![
                        ',',
                        ' ',
                        '$',
                    ] + decimal((f + j) as nat));
                    assert(out@ =~= prev + seq![',', ' ', '$'] + decimal((f + j) as nat));
                }
            }
            assert(out@ =~= row_start + seq!['('] + placeholders(base as nat + 1, (j + 1) as nat));
            j = j + 1;
        }
        out.append(")");
        proof {
            assert(base as nat + 1 == COLUMNS as nat * k + 1);
            assert(out@ =~= row_start + row_tuple(k as nat));
            if k == 0 {
                assert(rows_text(1) == row_tuple(0));
                assert(out@ =~= insert_sql(1));
            } else {
                assert(out@ =~= insert_sql((k + 1) as nat));
            }
        }
        k = k + 1;
    }
    out
}

/// One bound value of a row, typed as its column is.
#[derive(Clone, Debug)]
pub enum Param {
    Stamp(i64),
    Addr(NetAddr),
    Text(Option<String>),
    Int(Option<i32>),
    Bool(bool),
    Detection(DetectionType),
}

pub enum ParamView {
    Stamp(i64),
    Addr(NetAddr),
    Text(Option<Seq<char>>),
    Int(Option<i32>),
    Bool(bool),
    Detection(DetectionType),
}

pub open spec fn param_view(p: Param) -> ParamView {
    match p {
        Param::Stamp(s) => ParamView::Stamp(s),
        Param::Addr(a) => ParamView::Addr(a),
        Param::Text(t) => ParamView::Text(opt_view(t)),
        Param::Int(i) => ParamView::Int(i),
        Param::Bool(b) => ParamView::Bool(b),
        Param::Detection(d) => ParamView::Detection(d),
    }
}

pub open spec fn param_views(ps: Seq<Param>) -> Seq<ParamView> {
    Seq::new(ps.len(), |i: int| param_view(ps[i]))
}

/// The values of one record, in the column order of [`INSERT_HEAD`].
pub open spec fn row_values(r: RecordView) -> Seq<ParamView> {
    let k = r.reputation_key;
    seq![
        ParamView::Stamp(r.stamp),
        ParamView::Addr(r.addr),
        ParamView::Text(r.notes),
        ParamView::Text(Some(r.cc)),
        ParamView::Int(Some(k.days_in_feed)),
        ParamView::Int(Some(k.count_of_active_detections)),
        ParamView::Int(Some(k.count_of_passive_detections)),
        ParamView::Detection(k.detection_type),
        ParamView::Bool(k.sslusage),
        ParamView::Bool(k.controller_instruction_decoded),
        ParamView::Bool(k.ddo_scommand_observed),
        ParamView::Bool(k.non_standard_port),
        ParamView::Int(Some(k.number_of_unique_domain_names_on_same_ip)),
        ParamView::Int(Some(k.number_of_distinct_controllers_on_same_ip)),
        ParamView::Int(Some(k.other_bad_ips_in24)),
        ParamView::Int(r.proto),
        ParamView::Text(r.family),
        ParamView::Int(r.asn),
        ParamView::Text(Some(r.category)),
        ParamView::Int(Some(r.reputation_score)),
        ParamView::Int(r.port),
    ]
}

impl Reputation {
    /// The values to bind for this record, one per column.
    pub fn row_params(&self) -> (r: Vec<Param>)
        ensures
            r@.len() == COLUMNS,
            param_views(r@) == row_values(self@),
    {
        let k = self.reputation_key;
        let r = vec![
            Param::Stamp(self.stamp),
            Param::Addr(self.addr),
            Param::Text(self.notes.clone()),
            Param::Text(Some(self.cc.clone())),
            Param::Int(Some(k.days_in_feed)),
            Param::Int(Some(k.count_of_active_detections)),
            Param::Int(Some(k.count_of_passive_detections)),
            Param::Detection(k.detection_type),
            Param::Bool(k.sslusage),
            Param::Bool(k.controller_instruction_decoded),
            Param::Bool(k.ddo_scommand_observed),
            Param::Bool(k.non_standard_port),
            Param::Int(Some(k.number_of_unique_domain_names_on_same_ip)),
            Param::Int(Some(k.number_of_distinct_controllers_on_same_ip)),
            Param::Int(Some(k.other_bad_ips_in24)),
            Param::Int(self.proto),
            Param::Text(self.family.clone()),
            Param::Int(self.asn),
            Param::Text(Some(self.category.clone())),
            Param::Int(Some(self.reputation_score)),
            Param::Int(self.port),
        ];
        assert(param_views(r@) =~= row_values(self@));
        r
    }
}

/// What adding a record to the pending batch does: the pending batch
/// afterwards, and the batch handed out for writing when it filled up.
pub open spec fn accumulate(cap: nat, pending: Seq<Reputation>, r: Reputation) -> (
    Seq<Reputation>,
    Option<Seq<Reputation>>,
) {
    let p = pending.push(r);
    if p.len() >= cap {
        (Seq::empty(), Some(p))
    } else {
        (p, None)
    }
}

/// What is left to write at the end of the stream.
pub open spec fn residual(pending: Seq<Reputation>) -> Option<Seq<Reputation>> {
    if pending.len() > 0 {
        Some(pending)
    } else {
        None
    }
}

pub open spec fn batch_view(b: Option<Vec<Reputation>>) -> Option<Seq<Reputation>> {
    match b {
        Some(v) => Some(v@),
        None => None,
    }
}

/// Groups records into batches of a fixed size.
pub struct Batcher {
    capacity: usize,
    pending: Vec<Reputation>,
}

impl View for Batcher {
    /// The batch size, and the records waiting for the batch to fill.
    type V = (nat, Seq<Reputation>);

    closed spec fn view(&self) -> (nat, Seq<Reputation>) {
        (self.capacity as nat, self.pending@)
    }
}

impl Batcher {
    pub closed spec fn wf(&self) -> bool {
        self.capacity > 0 && self.pending@.len() < self.capacity
    }

    pub fn new(capacity: usize) -> (r: Batcher)
        requires
            capacity > 0,
        ensures
            r.wf(),
            r@ == (capacity as nat, Seq::<Reputation>::empty()),
    {
        Batcher { capacity, pending: Vec::new() }
    }

    /// Adds a record; hands out the batch when it reaches the batch size.
    pub fn push(&mut self, r: Reputation) -> (out: Option<Vec<Reputation>>)
        requires
            old(self).wf(),
        ensures
            final(self).wf(),
            final(self)@.0 == old(self)@.0,
            (final(self)@.1, batch_view(out)) == accumulate(old(self)@.0, old(self)@.1, r),
    {
        self.pending.push(r);
        if self.pending.len() >= self.capacity {
            let mut full: Vec<Reputation> = Vec::new();
            std::mem::swap(&mut full, &mut self.pending);
            Some(full)
        } else {
            None
        }
    }

    /// Hands out what is pending, if anything, and leaves the batch empty.
    pub fn finish(&mut self) -> (out: Option<Vec<Reputation>>)
        requires
            old(self).wf(),
        ensures
            final(self).wf(),
            final(self)@ == (old(self)@.0, Seq::<Reputation>::empty()),
            batch_view(out) == residual(old(self)@.1),
    {
        if self.pending.len() > 0 {
            let mut rest: Vec<Reputation> = Vec::new();
            std::mem::swap(&mut rest, &mut self.pending);
            Some(rest)
        } else {
            assert(self.pending@ =~= Seq::<Reputation>::empty());
            None
        }
    }
}

} // verus!
