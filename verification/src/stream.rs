//! The pipeline executor's streaming discipline: a lazy, order-preserving,
//! per-item transform over a value stream, tolerant of per-item errors and
//! observing a cooperative cancellation signal between items.

use vstd::prelude::*;

use crate::value::{Value, ValueView};

verus! {

/// The cooperative cancellation signal: set once by the interrupt source,
/// read by the executor between items, reset at the start of a top-level
/// execution.
#[derive(Debug, Clone, Copy, PartialEq, Eq, Structural)]
pub struct Interrupt {
    pub triggered: bool,
}

impl Interrupt {
    pub fn new() -> (r: Interrupt)
        ensures
            !r.triggered,
    {
        Interrupt { triggered: false }
    }

    pub fn trigger(&mut self)
        ensures
            final (self).triggered,
    {
        self.triggered = true;
    }

    pub fn is_set(&self) -> (r: bool)
        ensures
            r == self.triggered,
    {
        self.triggered
    }
}

/// One pipeline stage's per-item work: a value in, zero or more values
/// out. The mathematical content is fixed by `spec_apply`, so the whole
/// stage is a function of its input items.
pub trait ItemTransform: Sized {
    spec fn spec_apply(&self, v: ValueView) -> Seq<ValueView>;

    fn apply(&self, v: &Value) -> (r: Vec<Value>)
        ensures
            r.deep_view() == self.spec_apply(v.deep_view()),
    ;
}

/// What a whole stream maps to: each item's outputs, concatenated in
/// input order. Order preservation and per-item isolation are this very
/// shape: one bad item contributes its error value and the rest go on.
pub open spec fn flat_apply<T: ItemTransform>(t: T, vs: Seq<ValueView>) -> Seq<ValueView>
    decreases vs.len(),
{
    if vs.len() == 0 {
        Seq::empty()
    } else {
        t.spec_apply(vs[0]) + flat_apply(t, vs.drop_first())
    }
}

/// Appending input items appends their outputs.
pub proof fn lemma_flat_apply_snoc<T: ItemTransform>(t: T, vs: Seq<ValueView>, x: ValueView)
    ensures
        flat_apply(t, vs + seq![x]) == flat_apply(t, vs) + t.spec_apply(x),
    decreases vs.len(),
{
    if vs.len() == 0 {
        assert(vs + seq![x] =~= seq![x]);
        assert(seq![x].len() == 1);
        assert(seq![x][0] == x);
        assert(seq![x].drop_first() =~= Seq::<ValueView>::empty());
        assert(flat_apply(t, Seq::<ValueView>::empty()) == Seq::<ValueView>::empty());
        assert(flat_apply(t, seq![x]) == t.spec_apply(x) + Seq::<ValueView>::empty());
        assert(t.spec_apply(x) + Seq::<ValueView>::empty() =~= t.spec_apply(x));
        assert(flat_apply(t, vs) + t.spec_apply(x) =~= t.spec_apply(x));
    } else {
        assert((vs + seq![x])[0] == vs[0]);
        assert((vs + seq![x]).drop_first() =~= vs.drop_first() + seq![x]);
        lemma_flat_apply_snoc(t, vs.drop_first(), x);
        assert(t.spec_apply(vs[0]) + (flat_apply(t, vs.drop_first()) + t.spec_apply(x)) =~= (
        t.spec_apply(vs[0]) + flat_apply(t, vs.drop_first())) + t.spec_apply(x));
    }
}

/// A lazy stream transform: items are pulled from the input one at a time,
/// on demand; nothing is materialized beyond the outputs of the single
/// item under work. `emitted` is the history of values already yielded.
pub struct Transform<T: ItemTransform> {
    pub input: Vec<Value>,
    pub in_pos: usize,
    pub pending: Vec<Value>,
    pub transform: T,
    pub cancelled: bool,
    pub emitted: Ghost<Seq<ValueView>>,
}

impl<T: ItemTransform> Transform<T> {
    /// Every value yielded so far, followed by the outputs not yet
    /// yielded of the items pulled so far, is exactly the transform of
    /// the items pulled so far.
    pub open spec fn wf(&self) -> bool {
        &&& self.in_pos <= self.input@.len()
        &&& self.emitted@ + self.pending.deep_view() == flat_apply(
            self.transform,
            self.input.deep_view().subrange(0, self.in_pos as int),
        )
    }

    pub fn new(input: Vec<Value>, transform: T) -> (r: Transform<T>)
        ensures
            r.wf(),
            r.input == input,
            r.transform == transform,
            !r.cancelled,
            r.in_pos == 0,
            r.emitted@ == Seq::<ValueView>::empty(),
    {
        let r = Transform {
            input,
            in_pos: 0,
            pending: Vec::new(),
            transform,
            cancelled: false,
            emitted: Ghost(Seq::empty()),
        };
        proof {
            assert(r.input.deep_view().subrange(0, 0) =~= Seq::<ValueView>::empty());
            assert(r.pending.deep_view() =~= Seq::<ValueView>::empty());
            assert(r.emitted@ + r.pending.deep_view() =~= Seq::<ValueView>::empty());
        }
        r
    }

    /// Sets the cancellation flag. Nothing already produced is touched:
    /// the history of yielded values is exactly as it was.
    pub fn cancel(&mut self)
        ensures
            final (self).cancelled,
            final (self).input == old(self).input,
            final (self).in_pos == old(self).in_pos,
            final (self).pending == old(self).pending,
            final (self).transform == old(self).transform,
            final (self).emitted == old(self).emitted,
            old(self).wf() ==> final (self).wf(),
    {
        self.cancelled = true;
    }

    /// Yields the next value, pulling at most as much input as that needs.
    /// Once the flag is set, no further input is pulled: the items of the
    /// input already under work still drain, then the stream ends. The
    /// history only ever grows; cancellation never shrinks it.
    pub fn next(&mut self) -> (r: Option<Value>)
        requires
            old(self).wf(),
        ensures
            final (self).wf(),
            final (self).input == old(self).input,
            final (self).transform == old(self).transform,
            final (self).cancelled == old(self).cancelled,
            final (self).in_pos >= old(self).in_pos,
            old(self).cancelled ==> final (self).in_pos == old(self).in_pos,
            r matches Some(v) ==> final (self).emitted@ == old(self).emitted@ + seq![
                v.deep_view(),
            ],
            r is None ==> final (self).emitted@ == old(self).emitted@,
            r is None && !old(self).cancelled ==> final (self).emitted@ == flat_apply(
                old(self).transform,
                old(self).input.deep_view(),
            ),
    {
        loop
            invariant
                self.wf(),
                self.input == old(self).input,
                self.transform == old(self).transform,
                self.cancelled == old(self).cancelled,
                self.emitted == old(self).emitted,
                self.in_pos >= old(self).in_pos,
                old(self).cancelled ==> self.in_pos == old(self).in_pos,
            decreases self.input@.len() - self.in_pos,
        {
            if self.pending.len() > 0 {
                let ghost prev_pending = self.pending.deep_view();
                let ghost prev_emitted = self.emitted@;
                let ghost prefix = self.input.deep_view().subrange(0, self.in_pos as int);
                let v = self.pending.remove(0);
                let ghost gv = v.deep_view();
                self.emitted = Ghost(self.emitted@ + seq![gv]);
                proof {
                    assert(self.pending.deep_view() =~= prev_pending.drop_first());
                    assert(prev_pending[0] == gv);
                    assert(self.emitted@ + self.pending.deep_view() =~= prev_emitted
                        + prev_pending);
                }
                return Some(v);
            }
            if self.cancelled {
                return None;
            }
            if self.in_pos == self.input.len() {
                proof {
                    assert(self.input.deep_view().subrange(0, self.in_pos as int) =~= self
                        .input.deep_view());
                    assert(self.pending.deep_view() =~= Seq::<ValueView>::empty());
                    assert(self.emitted@ + self.pending.deep_view() =~= self.emitted@);
                }
                return None;
            }
            let ghost prefix = self.input.deep_view().subrange(0, self.in_pos as int);
            let ghost idx = self.in_pos as int;
            proof {
                assert(self.pending.deep_view() =~= Seq::<ValueView>::empty());
                assert(self.emitted@ + self.pending.deep_view() =~= self.emitted@);
            }
            let ghost prev_emitted = self.emitted@;
            let piece = self.transform.apply(&self.input[self.in_pos]);
            self.pending = piece;
            self.in_pos = self.in_pos + 1;
            proof {
                lemma_flat_apply_snoc(self.transform, prefix, self.input.deep_view()[idx]);
                assert(prefix + seq![self.input.deep_view()[idx]] =~= self
                    .input.deep_view().subrange(0, idx + 1));
                assert(self.input.deep_view()[idx] == self.input@[idx].deep_view());
                assert(self.pending.deep_view() == self.transform.spec_apply(
                    self.input.deep_view()[idx],
                ));
                assert(self.emitted@ + self.pending.deep_view() =~= flat_apply(
                    self.transform,
                    prefix,
                ) + self.transform.spec_apply(self.input.deep_view()[idx]));
            }
        }
    }
}

/// A materialized stretch of pipeline data: the values that flow between
/// two stages when a consumer forces them.
#[derive(Debug, PartialEq)]
pub struct PipelineData {
    pub vals: Vec<Value>,
}

impl View for PipelineData {
    type V = Seq<ValueView>;

    open spec fn view(&self) -> Seq<ValueView> {
        self.vals.deep_view()
    }
}

impl PipelineData {
    pub fn new(vals: Vec<Value>) -> (r: PipelineData)
        ensures
            r@ == vals.deep_view(),
    {
        PipelineData { vals }
    }

    /// Runs one stage over this data: each item maps to its outputs, in
    /// input order, contiguously. The signal is read between items; when
    /// it is set before work starts, nothing is pulled at all.
    #[verifier::loop_isolation(false)]
    pub fn flat_map<T: ItemTransform>(self, t: T, ctrlc: &Interrupt) -> (r: PipelineData)
        ensures
            ctrlc.triggered ==> r@ == Seq::<ValueView>::empty(),
            !ctrlc.triggered ==> r@ == flat_apply(t, self@),
    {
        if ctrlc.is_set() {
            let r = PipelineData { vals: Vec::new() };
            proof {
                assert(r@ =~= Seq::<ValueView>::empty());
            }
            return r;
        }
        let ghost full = flat_apply(t, self.vals.deep_view());
        let mut tr = Transform::new(self.vals, t);
        let mut out: Vec<Value> = Vec::new();
        proof {
            assert(out.deep_view() =~= tr.emitted@);
        }
        loop
            invariant
                tr.wf(),
                !tr.cancelled,
                !ctrlc.triggered,
                full == flat_apply(tr.transform, tr.input.deep_view()),
                out.deep_view() == tr.emitted@,
                out@.len() <= full.len(),
            decreases full.len() - out@.len(),
        {
            let ghost old_out = out.deep_view();
            match tr.next() {
                Some(v) => {
                    let ghost gv = v.deep_view();
                    out.push(v);
                    proof {
                        assert(out.deep_view() =~= old_out + seq![gv]);
                        lemma_flat_apply_prefix_len(
                            tr.transform,
                            tr.input.deep_view(),
                            tr.in_pos as int,
                        );
                        assert(tr.emitted@.len() + tr.pending.deep_view().len() == flat_apply(
                            tr.transform,
                            tr.input.deep_view().subrange(0, tr.in_pos as int),
                        ).len());
                        assert(out.deep_view().len() <= full.len());
                    }
                },
                None => {
                    let r = PipelineData { vals: out };
                    return r;
                },
            }
        }
    }

    /// Collects the data into one list value at the given span.
    pub fn into_value(self, span: crate::span::Span) -> (r: Value)
        ensures
            r.deep_view() == (ValueView::List { vals: self@, span }),
    {
        let r = Value::List { vals: self.vals, span };
        proof {
            crate::value::lemma_vview_seq(r->List_vals@);
            assert(crate::value::vview_seq(r->List_vals@) =~= r->List_vals.deep_view());
        }
        r
    }
}

/// Wraps one value as pipeline data, as a stage that produced a single
/// value does.
pub fn into_pipeline_data(v: Value) -> (r: PipelineData)
    ensures
        r@ == seq![v.deep_view()],
{
    let mut vals: Vec<Value> = Vec::new();
    vals.push(v);
    let r = PipelineData { vals };
    proof {
        assert(r@ =~= seq![r.vals@[0].deep_view()]);
    }
    r
}

/// The outputs of a prefix never outnumber the outputs of the whole.
pub proof fn lemma_flat_apply_prefix_len<T: ItemTransform>(t: T, vs: Seq<ValueView>, k: int)
    requires
        0 <= k <= vs.len(),
    ensures
        flat_apply(t, vs.subrange(0, k)).len() + flat_apply(
            t,
            vs.subrange(k, vs.len() as int),
        ).len() == flat_apply(t, vs).len(),
    decreases k,
{
    if k == 0 {
        assert(vs.subrange(0, 0).len() == 0);
        assert(vs.subrange(0, vs.len() as int) =~= vs);
    } else {
        lemma_flat_apply_prefix_len(t, vs, k - 1);
        lemma_flat_apply_snoc(t, vs.subrange(0, k - 1), vs[k - 1]);
        assert(vs.subrange(0, k - 1) + seq![vs[k - 1]] =~= vs.subrange(0, k));
        assert(vs.subrange(k - 1, vs.len() as int)[0] == vs[k - 1]);
        assert(vs.subrange(k - 1, vs.len() as int).drop_first() =~= vs.subrange(
            k,
            vs.len() as int,
        ));
    }
}

} // verus!
