//! The aggregation engine of one request.

use vstd::prelude::*;
use super::model::{ChunkModel, Emission, EngineModel, Phase, VerdictModel, chunks_of};
use super::span::Span;
use super::tracker::{Tracker, Verdict};

verus! {

/// The classified event for one emitted span: the chunk's text, where it lies
/// in the generation, and the merged annotations of all detectors.
#[derive(Clone, Debug, PartialEq)]
pub struct ClassifiedChunk<A> {
    pub generated_text: String,
    pub input_token_count: u32,
    pub start_index: u32,
    pub processed_index: u32,
    pub annotations: Vec<A>,
}

impl<A> View for ClassifiedChunk<A> {
    type V = ChunkModel<A>;

    open spec fn view(&self) -> ChunkModel<A> {
        ChunkModel {
            generated_text: self.generated_text@,
            input_token_count: self.input_token_count,
            start_index: self.start_index,
            processed_index: self.processed_index,
            annotations: self.annotations@,
        }
    }
}

/// The events of `chunks`, each by its view.
pub open spec fn chunk_views<A>(chunks: Seq<ClassifiedChunk<A>>) -> Seq<ChunkModel<A>> {
    Seq::new(chunks.len(), |i: int| chunks[i]@)
}

/// The verdicts of `verdicts`, each by its view.
pub open spec fn verdict_views<A>(verdicts: Seq<Verdict<A>>) -> Seq<VerdictModel<A>> {
    Seq::new(verdicts.len(), |i: int| verdicts[i]@)
}

/// What is left when the verdict channels have closed.
#[derive(Clone, Copy, Debug, PartialEq, Eq, Structural)]
pub struct Drained {
    /// End of the last span that was emitted; 0 if none was.
    pub processed_index: u32,
    /// Number of spans that had a verdict and were never emitted.
    pub dropped_spans: usize,
}

/// Merges the verdicts of all detectors of one request into one ordered
/// stream of classified chunks. The engine is the only owner of its tracker
/// and of its watermark.
pub struct Engine<A> {
    tracker: Tracker<A>,
    watermark: u32,
    input_token_count: u32,
}

impl<A> View for Engine<A> {
    type V = EngineModel<A>;

    closed spec fn view(&self) -> EngineModel<A> {
        EngineModel {
            tracker: self.tracker@,
            watermark: self.watermark,
            input_token_count: self.input_token_count,
        }
    }
}

impl<A> Engine<A> {
    /// The engine of a request with `total_detectors` detectors, before the
    /// first verdict. Every emitted chunk will carry `input_token_count`.
    pub fn new(total_detectors: usize, input_token_count: u32) -> (r: Self)
        ensures
            r@ == EngineModel::<A>::init(total_detectors as nat, input_token_count),
            r@.wf(),
    {
        Engine { tracker: Tracker::new(total_detectors), watermark: 0, input_token_count }
    }

    /// End of the last emitted span; 0 while nothing was emitted.
    pub fn watermark(&self) -> (r: u32)
        ensures
            r == self@.watermark,
    {
        self.watermark
    }

    /// Number of detectors configured for the request.
    pub fn total_detectors(&self) -> (r: usize)
        ensures
            r == self@.tracker.total_detectors,
    {
        self.tracker.total_detectors()
    }

    /// Number of input tokens of the request.
    pub fn input_token_count(&self) -> (r: u32)
        ensures
            r == self@.input_token_count,
    {
        self.input_token_count
    }

    /// Number of spans that have a verdict and were not emitted yet.
    pub fn pending(&self) -> (r: usize)
        ensures
            r == self@.tracker.records.dom().len(),
    {
        self.tracker.len()
    }

    /// Where the request stands.
    pub fn phase(&self) -> (r: Phase)
        ensures
            r == self@.phase(),
    {
        if self.watermark == 0 {
            Phase::AwaitingFirstSpan
        } else {
            Phase::Streaming
        }
    }

    /// Whether a verdict for `span` may be handed to `on_verdict`: not every
    /// detector has reported on `span` yet.
    pub fn admits(&self, span: Span) -> (r: bool)
        ensures
            r == self@.admits(span.key()),
    {
        let _end = span.end();
        self.tracker.reported_count(span) < self.tracker.total_detectors()
    }

    /// A verdict arrives. It is recorded; then every span that is ready is
    /// emitted, in order, until none is: one verdict can release several
    /// spans that were complete and waited for the watermark. Returns the
    /// chunks to hand downstream, in the order of emission.
    #[verifier::rlimit(30)]
    pub fn on_verdict(&mut self, verdict: Verdict<A>) -> (out: Vec<ClassifiedChunk<A>>)
        requires
            old(self)@.wf(),
            old(self)@.admits(verdict@.span),
        ensures
            final(self)@ == old(self)@.step(verdict@).1,
            chunk_views(out@) == chunks_of(
                old(self)@.step(verdict@).0,
                old(self)@.input_token_count,
            ),
            final(self)@.wf(),
            final(self)@.watermark >= old(self)@.watermark,
    {
        proof {
            old(self)@.lemma_step(verdict@);
        }
        self.tracker.record_verdict(verdict);
        let ghost start = self@;
        let ghost mut emitted: Seq<Emission<A>> = Seq::empty();
        let mut out: Vec<ClassifiedChunk<A>> = Vec::new();
        assert(chunk_views(out@) =~= chunks_of(emitted, self.input_token_count));
        loop
            invariant
                start.wf(),
                self@.wf(),
                self@.input_token_count == start.input_token_count,
                start.drain() == (emitted + self@.drain().0, self@.drain().1),
                chunk_views(out@) == chunks_of(emitted, start.input_token_count),
            ensures
                start.drain() == (emitted, self@),
            decreases self@.tracker.records.dom().len(),
        {
            proof {
                self@.tracker.lemma_next_ready(self@.watermark);
            }
            match self.tracker.next_ready(self.watermark) {
                Some(span) => {
                    let ghost before = self@;
                    proof {
                        before.tracker.lemma_evict(span.key());
                    }
                    let record = self.tracker.advance_and_evict(&mut self.watermark, span);
                    assert(self@ == before.advance(span.key()));
                    let record = record.unwrap();
                    let chunk = ClassifiedChunk {
                        generated_text: record.text,
                        input_token_count: self.input_token_count,
                        start_index: span.start(),
                        processed_index: span.end(),
                        annotations: record.annotations,
                    };
                    assert(chunk@ == before.emission(span.key()).chunk(start.input_token_count));
                    let ghost chunks_before = out@;
                    let ghost emitted_before = emitted;
                    out.push(chunk);
                    proof {
                        let e = before.emission(span.key());
                        assert(emitted + before.drain().0 =~= emitted.push(e) + self@.drain().0);
                        emitted = emitted.push(e);
                        assert(chunk_views(chunks_before).len() == chunks_before.len());
                        assert(chunks_of(emitted_before, start.input_token_count).len()
                            == emitted_before.len());
                        assert forall|i: int| 0 <= i < out@.len() implies chunk_views(out@)[i]
                            == chunks_of(emitted, start.input_token_count)[i] by {
                            if i < chunks_before.len() {
                                assert(chunk_views(chunks_before)[i] == chunks_of(
                                    emitted_before,
                                    start.input_token_count,
                                )[i]);
                            }
                        }
                        assert(chunk_views(out@) =~= chunks_of(emitted, start.input_token_count));
                    }
                },
                None => {
                    assert(emitted + self@.drain().0 =~= emitted);
                    break ;
                },
            }
        }
        out
    }

    /// Hands `verdict` to `on_verdict` if it is admitted. A verdict that is
    /// not admitted is handed back, and the engine stays as it was.
    pub fn try_on_verdict(&mut self, verdict: Verdict<A>) -> (r: Result<
        Vec<ClassifiedChunk<A>>,
        Verdict<A>,
    >)
        requires
            old(self)@.wf(),
        ensures
            final(self)@.wf(),
            match r {
                Ok(out) => {
                    &&& old(self)@.admits(verdict@.span)
                    &&& final(self)@ == old(self)@.step(verdict@).1
                    &&& chunk_views(out@) == chunks_of(
                        old(self)@.step(verdict@).0,
                        old(self)@.input_token_count,
                    )
                },
                Err(refused) => {
                    &&& !old(self)@.admits(verdict@.span)
                    &&& refused == verdict
                    &&& final(self)@ == old(self)@
                },
            },
    {
        if self.admits(verdict.span) {
            Ok(self.on_verdict(verdict))
        } else {
            Err(verdict)
        }
    }

    /// The tracker of the engine.
    pub fn tracker(&self) -> (r: &Tracker<A>)
        ensures
            r@ == self@.tracker,
    {
        &self.tracker
    }

    /// The verdict channels have closed. Nothing more is emitted: the spans
    /// that are still tracked, complete or not, are dropped with the engine.
    pub fn finish(self) -> (r: Drained)
        ensures
            r.processed_index == self@.watermark,
            r.dropped_spans == self@.tracker.records.dom().len(),
    {
        Drained { processed_index: self.watermark, dropped_spans: self.tracker.len() }
    }
}

} // verus!
