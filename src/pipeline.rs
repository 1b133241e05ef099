//! The driver: extractor, then decoder, then batcher, one event at a time.
//! The caller reads events and writes the batches it is handed; a record
//! that fails to decode is reported and skipped, and only a structural
//! error ends the run.
use crate::extract::{extract_step, reputation_tag, reputation_tag_spec, Extractor, StructuralError, XmlEvent};
use crate::record::{decode_record, record_spec, RecordError, Reputation};
use crate::sink::{accumulate, batch_view, residual, Batcher};
use vstd::prelude::*;

verus! {

/// What the caller is to do after one event.
#[derive(Debug)]
pub enum Step {
    /// Nothing.
    Continue,
    /// Report a fragment that did not decode, with the reason; it is dropped.
    Dropped(Vec<u8>, RecordError),
    /// Write this full batch.
    Flush(Vec<Reputation>),
    /// The input has ended: write this last, partial batch if there is one.
    Finished(Option<Vec<Reputation>>),
}

pub enum StepView {
    Continue,
    Dropped(Seq<u8>, RecordError),
    Flush(Seq<Reputation>),
    Finished(Option<Seq<Reputation>>),
}

pub open spec fn step_view(s: Step) -> StepView {
    match s {
        Step::Continue => StepView::Continue,
        Step::Dropped(f, e) => StepView::Dropped(f@, e),
        Step::Flush(b) => StepView::Flush(b@),
        Step::Finished(b) => StepView::Finished(batch_view(b)),
    }
}

pub open spec fn result_step(r: Result<Step, StructuralError>) -> Result<StepView, StructuralError> {
    match r {
        Ok(s) => Ok(step_view(s)),
        Err(e) => Err(e),
    }
}

/// The step that adding a decoded record makes.
pub open spec fn flush_step(out: Option<Seq<Reputation>>) -> StepView {
    match out {
        Some(b) => StepView::Flush(b),
        None => StepView::Continue,
    }
}

pub struct Pipeline {
    extractor: Extractor,
    batcher: Batcher,
}

impl View for Pipeline {
    /// The extractor's view and the batcher's view.
    type V = ((Seq<u8>, Option<Seq<u8>>), (nat, Seq<Reputation>));

    closed spec fn view(&self) -> ((Seq<u8>, Option<Seq<u8>>), (nat, Seq<Reputation>)) {
        (self.extractor@, self.batcher@)
    }
}

impl Pipeline {
    pub closed spec fn wf(&self) -> bool {
        self.batcher.wf()
    }

    /// A driver for `reputation` records in batches of `batch_size`.
    pub fn new(batch_size: usize) -> (r: Pipeline)
        requires
            batch_size > 0,
        ensures
            r.wf(),
            r@ == (
                (reputation_tag_spec(), None::<Seq<u8>>),
                (batch_size as nat, Seq::<Reputation>::empty()),
            ),
    {
        Pipeline { extractor: Extractor::new(reputation_tag()), batcher: Batcher::new(batch_size) }
    }

    /// Takes one event. A closed record is decoded and batched, or handed
    /// back as dropped; the end of input hands out the residual batch.
    pub fn on_event(&mut self, ev: XmlEvent) -> (r: Result<Step, StructuralError>)
        requires
            old(self).wf(),
        ensures
            final(self).wf(),
            final(self)@.0 == (old(self)@.0.0, extract_step(old(self)@.0.0, old(self)@.0.1, ev).0),
            final(self)@.1.0 == old(self)@.1.0,
            ({
                let cap = old(self)@.1.0;
                let pending = old(self)@.1.1;
                match extract_step(old(self)@.0.0, old(self)@.0.1, ev).1 {
                    Err(e) => r == Err::<Step, StructuralError>(e) && final(self)@.1.1 == pending,
                    Ok(None) => if ev is Eof {
                        final(self)@.1.1 == Seq::<Reputation>::empty() && result_step(r) == Ok::<
                            StepView,
                            StructuralError,
                        >(StepView::Finished(residual(pending)))
                    } else {
                        final(self)@.1.1 == pending && result_step(r) == Ok::<
                            StepView,
                            StructuralError,
                        >(StepView::Continue)
                    },
                    Ok(Some(f)) => match record_spec(f) {
                        Err(e) => final(self)@.1.1 == pending && result_step(r) == Ok::<
                            StepView,
                            StructuralError,
                        >(StepView::Dropped(f, e)),
                        Ok(v) => exists|rep: Reputation|
                            #![auto]
                            rep@ == v && final(self)@.1.1 == accumulate(cap, pending, rep).0
                                && result_step(r) == Ok::<StepView, StructuralError>(
                                flush_step(accumulate(cap, pending, rep).1),
                            ),
                    },
                }
            }),
    {
        let is_eof = match ev {
            XmlEvent::Eof => true,
            _ => false,
        };
        match self.extractor.feed(ev) {
            Err(e) => Err(e),
            Ok(None) => {
                if is_eof {
                    let rest = self.batcher.finish();
                    Ok(Step::Finished(rest))
                } else {
                    Ok(Step::Continue)
                }
            },
            Ok(Some(frag)) => {
                match decode_record(frag.as_slice()) {
                    Err(e) => Ok(Step::Dropped(frag, e)),
                    Ok(rep) => {
                        let ghost rv = rep;
                        let out = self.batcher.push(rep);
                        let r = match out {
                            Some(b) => Step::Flush(b),
                            None => Step::Continue,
                        };
                        assert(step_view(r) == flush_step(batch_view(out)));
                        Ok(r)
                    },
                }
            },
        }
    }
}

/// The records of a run, in order, that decoded.
pub open spec fn decoded(os: Seq<Result<Reputation, RecordError>>) -> Seq<Reputation>
    decreases os.len(),
{
    if os.len() == 0 {
        Seq::empty()
    } else {
        let p = decoded(os.drop_last());
        match os.last() {
            Ok(r) => p.push(r),
            Err(_) => p,
        }
    }
}

/// The number of records of a run that did not decode.
pub open spec fn failures(os: Seq<Result<Reputation, RecordError>>) -> nat
    decreases os.len(),
{
    if os.len() == 0 {
        0
    } else {
        failures(os.drop_last()) + if os.last() is Err { 1nat } else { 0nat }
    }
}

/// The batches, in order, as one sequence of records.
pub open spec fn joined(bs: Seq<Seq<Reputation>>) -> Seq<Reputation>
    decreases bs.len(),
{
    if bs.len() == 0 {
        Seq::empty()
    } else {
        joined(bs.drop_last()) + bs.last()
    }
}

/// A run over decode outcomes from a fresh batcher of size `cap`: the
/// records still pending, the batches handed out for writing, and the number
/// of records dropped.
pub open spec fn run(cap: nat, os: Seq<Result<Reputation, RecordError>>) -> (
    Seq<Reputation>,
    Seq<Seq<Reputation>>,
    nat,
)
    decreases os.len(),
{
    if os.len() == 0 {
        (Seq::empty(), Seq::empty(), 0)
    } else {
        let prev = run(cap, os.drop_last());
        match os.last() {
            Err(_) => (prev.0, prev.1, prev.2 + 1),
            Ok(r) => {
                let (p, out) = accumulate(cap, prev.0, r);
                (
                    p,
                    match out {
                        Some(b) => prev.1.push(b),
                        None => prev.1,
                    },
                    prev.2,
                )
            },
        }
    }
}

/// Every outcome decoded.
pub open spec fn all_decoded(rs: Seq<Reputation>) -> Seq<Result<Reputation, RecordError>> {
    Seq::new(rs.len(), |i: int| Ok::<Reputation, RecordError>(rs[i]))
}

/// Records are written in the order they decoded, each exactly once: the
/// batches handed out, then the residual batch, are the decoded records;
/// every batch handed out is full, the pending one is not, and the dropped
/// count is the number of failures.
pub proof fn lemma_run_keeps_order(cap: nat, os: Seq<Result<Reputation, RecordError>>)
    requires
        cap > 0,
    ensures
        joined(run(cap, os).1) + run(cap, os).0 == decoded(os),
        run(cap, os).0.len() < cap,
        forall|i: int| 0 <= i < run(cap, os).1.len() ==> (#[trigger] run(cap, os).1[i]).len() == cap,
        run(cap, os).2 == failures(os),
    decreases os.len(),
{
    if os.len() > 0 {
        let q = os.drop_last();
        lemma_run_keeps_order(cap, q);
        let prev = run(cap, q);
        match os.last() {
            Err(_) => {},
            Ok(r) => {
                let (p, out) = accumulate(cap, prev.0, r);
                match out {
                    Some(b) => {
                        let bs = prev.1.push(b);
                        assert(bs.drop_last() =~= prev.1);
                        assert(joined(bs) + p =~= decoded(os));
                    },
                    None => {
                        assert(joined(prev.1) + p =~= decoded(os));
                    },
                }
            },
        }
    }
}

proof fn lemma_run_below_capacity(cap: nat, rs: Seq<Reputation>)
    requires
        rs.len() < cap,
    ensures
        run(cap, all_decoded(rs)) == (rs, Seq::<Seq<Reputation>>::empty(), 0nat),
    decreases rs.len(),
{
    if rs.len() == 0 {
        assert(rs =~= Seq::<Reputation>::empty());
    } else {
        let q = rs.drop_last();
        assert(all_decoded(rs).drop_last() =~= all_decoded(q));
        lemma_run_below_capacity(cap, q);
        assert(q.push(rs.last()) =~= rs);
    }
}

/// A run of exactly `cap` records hands out one full batch of them and
/// leaves nothing for the end of the stream.
pub proof fn lemma_full_batch_written_once(cap: nat, rs: Seq<Reputation>)
    requires
        cap > 0,
        rs.len() == cap,
    ensures
        run(cap, all_decoded(rs)).1 == seq![rs],
        run(cap, all_decoded(rs)).2 == 0,
        residual(run(cap, all_decoded(rs)).0) is None,
{
    let q = rs.drop_last();
    assert(all_decoded(rs).drop_last() =~= all_decoded(q));
    lemma_run_below_capacity(cap, q);
    assert(q.push(rs.last()) =~= rs);
    assert(Seq::<Seq<Reputation>>::empty().push(rs) =~= seq![rs]);
}

/// A run of `cap - 1` records hands out nothing while it lasts, and all of
/// them as one batch at the end of the stream.
pub proof fn lemma_short_batch_written_at_end(cap: nat, rs: Seq<Reputation>)
    requires
        cap > 1,
        rs.len() == cap - 1,
    ensures
        run(cap, all_decoded(rs)).1 == Seq::<Seq<Reputation>>::empty(),
        run(cap, all_decoded(rs)).2 == 0,
        residual(run(cap, all_decoded(rs)).0) == Some(rs),
{
    lemma_run_below_capacity(cap, rs);
}

/// A record that fails between two that decode is dropped and counted;
/// the other two are written, in order.
pub proof fn lemma_failure_skipped(cap: nat, a: Reputation, e: RecordError, b: Reputation)
    requires
        cap > 0,
    ensures
        ({
            let os = seq![Ok(a), Err(e), Ok(b)];
            &&& joined(run(cap, os).1) + run(cap, os).0 == seq![a, b]
            &&& run(cap, os).2 == 1
        }),
{
    let os = seq![Ok::<Reputation, RecordError>(a), Err(e), Ok(b)];
    let o2 = seq![Ok::<Reputation, RecordError>(a), Err(e)];
    let o1 = seq![Ok::<Reputation, RecordError>(a)];
    let o0 = Seq::<Result<Reputation, RecordError>>::empty();
    lemma_run_keeps_order(cap, os);
    assert(os.drop_last() =~= o2);
    assert(o2.drop_last() =~= o1);
    assert(o1.drop_last() =~= o0);
    assert(decoded(o0) == Seq::<Reputation>::empty());
    assert(decoded(o1) == seq![a]) by {
        assert(Seq::<Reputation>::empty().push(a) =~= seq![a]);
    }
    assert(decoded(o2) == seq![a]);
    assert(decoded(os) == seq![a].push(b));
    assert(seq![a].push(b) =~= seq![a, b]);
    assert(failures(o0) == 0);
    assert(o1.last() is Ok);
    assert(failures(o1) == 0);
    assert(failures(o2) == 1);
    assert(failures(os) == 1);
}

} // verus!
