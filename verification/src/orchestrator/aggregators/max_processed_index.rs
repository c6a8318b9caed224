//! Aggregation by the "max processed index" strategy: a span is released
//! when it abuts everything released before it and every detector has
//! reported on it.

use vstd::prelude::*;
use vstd::std_specs::iter::IteratorSpec;
use super::engine::{ClassifiedChunk, Engine, chunk_views, verdict_views};
use super::model::{EngineModel, chunks_of};
use super::tracker::Verdict;

verus! {

/// Aggregates results applying a "max processed index" strategy.
#[derive(Default)]
pub struct MaxProcessedIndexAggregator {}

impl MaxProcessedIndexAggregator {
    /// Aggregates the verdicts of one request, given in the order in which
    /// they arrived from the detectors, whatever the interleaving. Returns
    /// the chunks in the order of emission. Spans that are still tracked
    /// after the last verdict are not emitted.
    #[verifier::rlimit(30)]
    pub fn process<A>(
        &self,
        total_detectors: usize,
        input_token_count: u32,
        arrivals: Vec<Verdict<A>>,
    ) -> (out: Vec<ClassifiedChunk<A>>)
        requires
            EngineModel::<A>::init(total_detectors as nat, input_token_count).admits_all(
                verdict_views(arrivals@),
            ),
        ensures
            chunk_views(out@) == chunks_of(
                EngineModel::<A>::init(total_detectors as nat, input_token_count).run(
                    verdict_views(arrivals@),
                ).0,
                input_token_count,
            ),
    {
        let ghost init = EngineModel::<A>::init(total_detectors as nat, input_token_count);
        let ghost views = verdict_views(arrivals@);
        let mut engine: Engine<A> = Engine::new(total_detectors, input_token_count);
        let mut out: Vec<ClassifiedChunk<A>> = Vec::new();
        proof {
            assert(views.take(0) =~= Seq::empty());
            assert(chunk_views(out@) =~= chunks_of(init.run(views.take(0)).0, input_token_count));
        }
        for verdict in it: arrivals.into_iter()
            invariant
                it.seq() == arrivals@,
                views == verdict_views(arrivals@),
                init == EngineModel::<A>::init(total_detectors as nat, input_token_count),
                init.admits_all(views),
                engine@.wf(),
                engine@ == init.run(views.take(it.index() as int)).1,
                chunk_views(out@) == chunks_of(
                    init.run(views.take(it.index() as int)).0,
                    input_token_count,
                ),
        {
            let ghost n = it.index() as int;
            let ghost before = out@;
            proof {
                init.lemma_admits_prefix(views, n + 1);
                init.lemma_run_next(views, n);
                init.lemma_run(views.take(n));
                assert(views[n] == verdict@);
            }
            let mut chunks = engine.on_verdict(verdict);
            let ghost now = chunks@;
            out.append(&mut chunks);
            proof {
                let emitted = init.run(views.take(n)).0;
                let released = engine@.step(views[n]).0;
                assert(out@ == before + now);
                assert(chunk_views(before + now) =~= chunk_views(before) + chunk_views(now));
                assert(chunks_of(emitted + init.run(views.take(n)).1.step(views[n]).0, input_token_count)
                    =~= chunks_of(emitted, input_token_count) + chunks_of(
                    init.run(views.take(n)).1.step(views[n]).0,
                    input_token_count,
                ));
            }
        }
        proof {
            assert(views.take(arrivals@.len() as int) =~= views);
        }
        out
    }
}

} // verus!
