//! The mathematical model of the tracker and of the engine.
//!
//! Every contract of the executable code is stated over the types and
//! functions of this file, and the laws are proved of them.

use vstd::prelude::*;
use super::span::{SpanKey, span_le};

verus! {

/// One detector's report for one span.
pub struct VerdictModel<A> {
    pub span: SpanKey,
    pub chunk_text: Seq<char>,
    pub annotations: Seq<A>,
}

/// What the tracker holds for a span: the chunk's text, the annotations of
/// every verdict merged so far, in the order of arrival, and the number of
/// detectors that have reported.
pub struct RecordModel<A> {
    pub text: Seq<char>,
    pub annotations: Seq<A>,
    pub reported_count: nat,
}

/// A span leaving the tracker, with its record as it stood at that moment.
pub struct Emission<A> {
    pub span: SpanKey,
    pub record: RecordModel<A>,
}

/// The classified event that is handed downstream for an emitted span.
pub struct ChunkModel<A> {
    pub generated_text: Seq<char>,
    pub input_token_count: u32,
    pub start_index: u32,
    pub processed_index: u32,
    pub annotations: Seq<A>,
}

impl<A> Emission<A> {
    /// The outbound event of this emission.
    pub open spec fn chunk(self, input_token_count: u32) -> ChunkModel<A> {
        ChunkModel {
            generated_text: self.record.text,
            input_token_count,
            start_index: self.span.0,
            processed_index: self.span.1,
            annotations: self.record.annotations,
        }
    }
}

/// The spans of a sequence of emissions, in order.
pub open spec fn spans_of<A>(emissions: Seq<Emission<A>>) -> Seq<SpanKey> {
    Seq::new(emissions.len(), |i: int| emissions[i].span)
}

/// The outbound events of a sequence of emissions, in order.
pub open spec fn chunks_of<A>(emissions: Seq<Emission<A>>, input_token_count: u32) -> Seq<
    ChunkModel<A>,
> {
    Seq::new(emissions.len(), |i: int| emissions[i].chunk(input_token_count))
}

/// The span tracker: every span that has a verdict and was not emitted yet.
pub struct TrackerModel<A> {
    pub records: Map<SpanKey, RecordModel<A>>,
    pub total_detectors: nat,
}

impl<A> TrackerModel<A> {
    /// A tracker without records.
    pub open spec fn empty(total_detectors: nat) -> Self {
        TrackerModel { records: Map::empty(), total_detectors }
    }

    /// Finitely many records, each for a span that does not end before it
    /// starts, each with at least one report and no more than there are
    /// detectors.
    pub open spec fn wf(self) -> bool {
        &&& self.records.dom().finite()
        &&& forall|k: SpanKey| #[trigger]
            self.records.contains_key(k) ==> {
                &&& k.0 <= k.1
                &&& 1 <= self.records[k].reported_count <= self.total_detectors
            }
    }

    /// Number of detectors that have reported on `k`; 0 for an unseen span.
    pub open spec fn reported(self, k: SpanKey) -> nat {
        if self.records.contains_key(k) {
            self.records[k].reported_count
        } else {
            0
        }
    }

    /// Whether every detector has reported on `k`.
    pub open spec fn is_complete(self, k: SpanKey) -> bool {
        self.records.contains_key(k) && self.records[k].reported_count == self.total_detectors
    }

    /// The record of `v`'s span after `v` has been merged: seeded from `v`
    /// where the span is unseen, else the old record with `v`'s annotations
    /// appended and one more report.
    pub open spec fn merged(self, v: VerdictModel<A>) -> RecordModel<A> {
        if self.records.contains_key(v.span) {
            RecordModel {
                text: self.records[v.span].text,
                annotations: self.records[v.span].annotations + v.annotations,
                reported_count: self.records[v.span].reported_count + 1,
            }
        } else {
            RecordModel { text: v.chunk_text, annotations: v.annotations, reported_count: 1 }
        }
    }

    /// The tracker after `v` was recorded.
    pub open spec fn record(self, v: VerdictModel<A>) -> Self {
        TrackerModel { records: self.records.insert(v.span, self.merged(v)), ..self }
    }

    /// `k` is tracked and no tracked span is lexicographically before it.
    pub open spec fn is_earliest(self, k: SpanKey) -> bool {
        &&& self.records.contains_key(k)
        &&& forall|j: SpanKey| #[trigger] self.records.contains_key(j) ==> span_le(k, j)
    }

    /// `k` is tracked, starts at `start`, and is the first such span.
    pub open spec fn is_first_at(self, start: u32, k: SpanKey) -> bool {
        &&& self.records.contains_key(k)
        &&& k.0 == start
        &&& forall|j: SpanKey| #[trigger]
            self.records.contains_key(j) && j.0 == start ==> span_le(k, j)
    }

    /// `k` is the one span that may be emitted next: the earliest tracked span
    /// while nothing was emitted (`watermark == 0`), afterwards the span that
    /// starts where the last emitted one ended.
    pub open spec fn is_candidate(self, watermark: u32, k: SpanKey) -> bool {
        if watermark == 0 {
            self.is_earliest(k)
        } else {
            self.is_first_at(watermark, k)
        }
    }

    /// The candidate, if there is one.
    pub open spec fn candidate(self, watermark: u32) -> Option<SpanKey> {
        if exists|k: SpanKey| self.is_candidate(watermark, k) {
            Some(choose|k: SpanKey| self.is_candidate(watermark, k))
        } else {
            None
        }
    }

    /// The span to emit next: the candidate, if it is complete.
    pub open spec fn next_ready(self, watermark: u32) -> Option<SpanKey> {
        match self.candidate(watermark) {
            Some(k) => if self.is_complete(k) {
                Some(k)
            } else {
                None
            },
            None => None,
        }
    }

    /// The tracker without the record of `k`.
    pub open spec fn evict(self, k: SpanKey) -> Self {
        TrackerModel { records: self.records.remove(k), ..self }
    }

    /// There is at most one candidate, and `candidate` names it.
    pub proof fn lemma_candidate_unique(self, watermark: u32)
        ensures
            forall|k: SpanKey| #[trigger]
                self.is_candidate(watermark, k) ==> self.candidate(watermark) == Some(k),
            (forall|k: SpanKey| !self.is_candidate(watermark, k)) ==> self.candidate(watermark)
                is None,
    {
        assert forall|k: SpanKey| #[trigger] self.is_candidate(watermark, k) implies self.candidate(
            watermark,
        ) == Some(k) by {
            let c = choose|c: SpanKey| self.is_candidate(watermark, c);
            assert(self.is_candidate(watermark, c));
            assert(span_le(c, k) && span_le(k, c));
        }
    }
}

/// Where a request stands.
#[derive(Clone, Copy, Debug, PartialEq, Eq, Structural)]
pub enum Phase {
    /// Nothing was emitted yet: the watermark is 0.
    AwaitingFirstSpan,
    /// The watermark is past 0 and advances with every emission.
    Streaming,
}

/// The aggregation engine of one request: its tracker, its watermark and the
/// number of input tokens that every outbound event carries.
pub struct EngineModel<A> {
    pub tracker: TrackerModel<A>,
    pub watermark: u32,
    pub input_token_count: u32,
}

impl<A> EngineModel<A> {
    /// The engine before the first verdict.
    pub open spec fn init(total_detectors: nat, input_token_count: u32) -> Self {
        EngineModel { tracker: TrackerModel::empty(total_detectors), watermark: 0, input_token_count }
    }

    pub open spec fn wf(self) -> bool {
        self.tracker.wf()
    }

    pub open spec fn phase(self) -> Phase {
        if self.watermark == 0 {
            Phase::AwaitingFirstSpan
        } else {
            Phase::Streaming
        }
    }

    /// Whether a verdict for `k` may arrive: `k` does not end before it
    /// starts, and not every detector has reported on it yet.
    pub open spec fn admits(self, k: SpanKey) -> bool {
        k.0 <= k.1 && self.tracker.reported(k) < self.tracker.total_detectors
    }

    /// The engine with `v` recorded and nothing emitted yet.
    pub open spec fn recorded(self, v: VerdictModel<A>) -> Self {
        EngineModel { tracker: self.tracker.record(v), ..self }
    }

    /// The emission of the tracked span `k`.
    pub open spec fn emission(self, k: SpanKey) -> Emission<A> {
        Emission { span: k, record: self.tracker.records[k] }
    }

    /// The engine after `k` was emitted: the watermark stands at `k`'s end and
    /// `k` is no longer tracked.
    pub open spec fn advance(self, k: SpanKey) -> Self {
        EngineModel { tracker: self.tracker.evict(k), watermark: k.1, ..self }
    }

    /// Emits while a span is ready: the emissions in order, and the engine
    /// when no further span is ready.
    pub open spec fn drain(self) -> (Seq<Emission<A>>, Self)
        decreases self.tracker.records.dom().len(),
        when self.tracker.records.dom().finite()
        via Self::drain_decreases
    {
        match self.tracker.next_ready(self.watermark) {
            Some(k) => {
                let (rest, last) = self.advance(k).drain();
                (seq![self.emission(k)] + rest, last)
            },
            None => (Seq::empty(), self),
        }
    }

    #[via_fn]
    proof fn drain_decreases(self) {
        match self.tracker.next_ready(self.watermark) {
            Some(k) => {
                assert(self.tracker.records.contains_key(k));
            },
            None => {},
        }
    }

    /// One verdict arrives: it is recorded, then the engine drains.
    pub open spec fn step(self, v: VerdictModel<A>) -> (Seq<Emission<A>>, Self) {
        self.recorded(v).drain()
    }

    /// The verdicts of `arrivals` arrive one after the other: all emissions in
    /// order, and the engine after the last verdict.
    pub open spec fn run(self, arrivals: Seq<VerdictModel<A>>) -> (Seq<Emission<A>>, Self)
        decreases arrivals.len(),
    {
        if arrivals.len() == 0 {
            (Seq::empty(), self)
        } else {
            let (before, mid) = self.run(arrivals.drop_last());
            let (now, after) = mid.step(arrivals.last());
            (before + now, after)
        }
    }

    /// Whether each verdict of `arrivals` may arrive when its turn comes.
    pub open spec fn admits_all(self, arrivals: Seq<VerdictModel<A>>) -> bool
        decreases arrivals.len(),
    {
        arrivals.len() == 0 || {
            &&& self.admits_all(arrivals.drop_last())
            &&& self.run(arrivals.drop_last()).1.admits(arrivals.last().span)
        }
    }
}

impl<A> TrackerModel<A> {
    /// Recording an admitted verdict keeps the tracker well formed and
    /// counts one more report on the verdict's span, whatever the verdict
    /// holds.
    pub proof fn lemma_record(self, v: VerdictModel<A>)
        requires
            self.wf(),
            v.span.0 <= v.span.1,
            self.reported(v.span) < self.total_detectors,
        ensures
            self.record(v).wf(),
            self.record(v).total_detectors == self.total_detectors,
            self.record(v).reported(v.span) == self.reported(v.span) + 1,
            forall|k: SpanKey| k != v.span ==> self.record(v).reported(k) == self.reported(k),
    {
    }

    /// Evicting keeps the tracker well formed; an evicted span that was
    /// tracked leaves one span fewer.
    pub proof fn lemma_evict(self, k: SpanKey)
        requires
            self.wf(),
        ensures
            self.evict(k).wf(),
            self.records.contains_key(k) ==> self.evict(k).records.dom().len()
                == self.records.dom().len() - 1,
    {
    }

    /// A span that is ready is the candidate, is tracked, and is complete.
    pub proof fn lemma_next_ready(self, watermark: u32)
        ensures
            match self.next_ready(watermark) {
                Some(k) => {
                    &&& self.is_candidate(watermark, k)
                    &&& self.records.contains_key(k)
                    &&& self.is_complete(k)
                    &&& watermark != 0 ==> k.0 == watermark
                },
                None => true,
            },
    {
    }
}

impl<A> EngineModel<A> {
    /// What holds of every drain: the engine stays well formed and keeps its
    /// configuration, the watermark does not go back, and nothing is ready
    /// when the drain has ended.
    pub proof fn lemma_drain(self)
        requires
            self.wf(),
        ensures
            self.drain().1.wf(),
            self.drain().1.tracker.total_detectors == self.tracker.total_detectors,
            self.drain().1.input_token_count == self.input_token_count,
            self.drain().1.watermark >= self.watermark,
            self.drain().1.tracker.next_ready(self.drain().1.watermark) is None,
            self.drain().0.len() + self.drain().1.tracker.records.dom().len()
                == self.tracker.records.dom().len(),
        decreases self.tracker.records.dom().len(),
    {
        self.tracker.lemma_next_ready(self.watermark);
        match self.tracker.next_ready(self.watermark) {
            Some(k) => {
                self.tracker.lemma_evict(k);
                self.advance(k).lemma_drain();
            },
            None => {},
        }
    }

    /// A run over the first `n + 1` verdicts is the run over the first `n`,
    /// followed by the step on the next one.
    pub proof fn lemma_run_next(self, arrivals: Seq<VerdictModel<A>>, n: int)
        requires
            0 <= n < arrivals.len(),
        ensures
            self.run(arrivals.take(n + 1)) == ({
                let (before, mid) = self.run(arrivals.take(n));
                let (now, after) = mid.step(arrivals[n]);
                (before + now, after)
            }),
            self.admits_all(arrivals.take(n + 1)) == (self.admits_all(arrivals.take(n))
                && self.run(arrivals.take(n)).1.admits(arrivals[n].span)),
    {
        assert(arrivals.take(n + 1).drop_last() =~= arrivals.take(n));
        assert(arrivals.take(n + 1).last() == arrivals[n]);
    }

    /// Where every verdict of `arrivals` is admitted, so is every verdict of
    /// each of its prefixes.
    pub proof fn lemma_admits_prefix(self, arrivals: Seq<VerdictModel<A>>, n: int)
        requires
            self.admits_all(arrivals),
            0 <= n <= arrivals.len(),
        ensures
            self.admits_all(arrivals.take(n)),
        decreases arrivals.len(),
    {
        if n == arrivals.len() {
            assert(arrivals.take(n) =~= arrivals);
        } else {
            self.lemma_admits_prefix(arrivals.drop_last(), n);
            assert(arrivals.drop_last().take(n) =~= arrivals.take(n));
        }
    }

    /// What holds of every run on admitted verdicts: the engine stays well
    /// formed and keeps its configuration, and the watermark does not go
    /// back.
    pub proof fn lemma_run(self, arrivals: Seq<VerdictModel<A>>)
        requires
            self.wf(),
            self.admits_all(arrivals),
        ensures
            self.run(arrivals).1.wf(),
            self.run(arrivals).1.tracker.total_detectors == self.tracker.total_detectors,
            self.run(arrivals).1.input_token_count == self.input_token_count,
            self.run(arrivals).1.watermark >= self.watermark,
        decreases arrivals.len(),
    {
        if arrivals.len() > 0 {
            self.lemma_run(arrivals.drop_last());
            self.run(arrivals.drop_last()).1.lemma_step(arrivals.last());
        }
    }

    /// What holds of every step on an admitted verdict.
    pub proof fn lemma_step(self, v: VerdictModel<A>)
        requires
            self.wf(),
            self.admits(v.span),
        ensures
            self.recorded(v).wf(),
            self.step(v).1.wf(),
            self.step(v).1.tracker.total_detectors == self.tracker.total_detectors,
            self.step(v).1.input_token_count == self.input_token_count,
            self.step(v).1.watermark >= self.watermark,
            self.step(v).1.tracker.next_ready(self.step(v).1.watermark) is None,
    {
        self.tracker.lemma_record(v);
        self.recorded(v).lemma_drain();
    }
}

} // verus!
