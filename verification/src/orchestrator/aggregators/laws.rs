//! What holds of every run of the engine.

use vstd::prelude::*;
use super::model::{EngineModel, RecordModel, TrackerModel, VerdictModel, spans_of};
use super::span::{SpanKey, span_le, span_lt};

verus! {

/// Each span but the first starts where the span before it ended.
pub open spec fn chained(spans: Seq<SpanKey>) -> bool {
    forall|i: int| 0 <= i < spans.len() - 1 ==> (#[trigger] spans[i]).1 == spans[i + 1].0
}

/// What a drain emits, and what it leaves. Each emitted span was tracked and
/// complete, and is emitted with its record as it stood; the spans that
/// were not emitted stay as they were; the first emitted span is the one
/// that was ready, and the watermark ends at the end of the last.
#[verifier::rlimit(30)]
pub proof fn lemma_drain_emissions<A>(s: EngineModel<A>)
    requires
        s.wf(),
    ensures
        forall|i: int|
            0 <= i < s.drain().0.len() ==> {
                let e = #[trigger] s.drain().0[i];
                &&& s.tracker.records.contains_key(e.span)
                &&& e.record == s.tracker.records[e.span]
                &&& e.record.reported_count == s.tracker.total_detectors
                &&& e.span.0 <= e.span.1
            },
        forall|k: SpanKey| #[trigger]
            s.drain().1.tracker.records.contains_key(k) <==> s.tracker.records.contains_key(k)
                && !spans_of(s.drain().0).contains(k),
        forall|k: SpanKey| #[trigger]
            s.drain().1.tracker.records.contains_key(k) ==> s.drain().1.tracker.records[k]
                == s.tracker.records[k],
        s.drain().0.len() == 0 ==> s.drain().1 == s && s.tracker.next_ready(s.watermark) is None,
        s.drain().0.len() > 0 ==> {
            &&& s.tracker.next_ready(s.watermark) == Some(s.drain().0[0].span)
            &&& s.drain().1.watermark == s.drain().0.last().span.1
            &&& s.watermark != 0 ==> s.drain().0[0].span.0 == s.watermark
        },
        spans_of(s.drain().0).no_duplicates(),
        (forall|k: SpanKey| s.tracker.records.contains_key(k) ==> k.1 > 0) ==> chained(
            spans_of(s.drain().0),
        ),
    decreases s.tracker.records.dom().len(),
{
    s.tracker.lemma_next_ready(s.watermark);
    match s.tracker.next_ready(s.watermark) {
        Some(k) => {
            let next = s.advance(k);
            s.tracker.lemma_evict(k);
            lemma_drain_emissions(next);
            let rest = next.drain().0;
            let em = s.drain().0;
            let spans = spans_of(em);
            assert(em == seq![s.emission(k)] + rest);
            assert(spans =~= seq![k] + spans_of(rest));
            assert forall|i: int| 0 <= i < em.len() implies {
                let e = #[trigger] em[i];
                &&& s.tracker.records.contains_key(e.span)
                &&& e.record == s.tracker.records[e.span]
                &&& e.record.reported_count == s.tracker.total_detectors
                &&& e.span.0 <= e.span.1
            } by {
                if i > 0 {
                    assert(em[i] == rest[i - 1]);
                }
            }
            assert forall|k2: SpanKey| #[trigger]
                s.drain().1.tracker.records.contains_key(k2) <==> s.tracker.records.contains_key(k2)
                    && !spans.contains(k2) by {
                if spans.contains(k2) {
                    let i = choose|i: int| 0 <= i < spans.len() && spans[i] == k2;
                    if i > 0 {
                        assert(spans_of(rest)[i - 1] == k2);
                    }
                }
                if s.tracker.records.contains_key(k2) && !spans.contains(k2) {
                    assert(spans[0] == k);
                    assert forall|j: int| 0 <= j < spans_of(rest).len() implies spans_of(rest)[j]
                        != k2 by {
                        assert(spans[j + 1] == spans_of(rest)[j]);
                    }
                }
            }
            assert forall|a: int, b: int| 0 <= a < spans.len() && 0 <= b < spans.len() && a
                != b implies spans[a] != spans[b] by {
                if a > 0 {
                    assert(spans[a] == spans_of(rest)[a - 1]);
                    assert(next.tracker.records.contains_key(rest[a - 1].span));
                }
                if b > 0 {
                    assert(spans[b] == spans_of(rest)[b - 1]);
                    assert(next.tracker.records.contains_key(rest[b - 1].span));
                }
            }
            if forall|k2: SpanKey| s.tracker.records.contains_key(k2) ==> k2.1 > 0 {
                assert forall|i: int| 0 <= i < spans.len() - 1 implies (#[trigger] spans[i]).1
                    == spans[i + 1].0 by {
                    if i == 0 {
                        assert(spans[1] == spans_of(rest)[0]);
                        assert(next.watermark == k.1);
                    } else {
                        assert(spans[i] == spans_of(rest)[i - 1]);
                        assert(spans[i + 1] == spans_of(rest)[i]);
                    }
                }
            }
            if rest.len() > 0 {
                assert(em.last() == rest.last());
            }
        },
        None => {
            assert(spans_of(s.drain().0) =~= Seq::<SpanKey>::empty());
        },
    }
}

/// A verdict without annotations counts like any other: it is one more
/// report on its span, it completes the span where it is the last report
/// that was missing, and it leaves the annotations as they were.
pub proof fn law_clean_verdict_counts<A>(tracker: TrackerModel<A>, v: VerdictModel<A>)
    requires
        tracker.wf(),
        v.span.0 <= v.span.1,
        tracker.reported(v.span) < tracker.total_detectors,
        v.annotations.len() == 0,
    ensures
        tracker.record(v).reported(v.span) == tracker.reported(v.span) + 1,
        tracker.reported(v.span) + 1 == tracker.total_detectors ==> tracker.record(v).is_complete(
            v.span,
        ),
        tracker.records.contains_key(v.span) ==> tracker.record(v).records[v.span].annotations
            == tracker.records[v.span].annotations,
        !tracker.records.contains_key(v.span) ==> tracker.record(v).records[v.span].annotations.len()
            == 0,
{
    if tracker.records.contains_key(v.span) {
        assert(tracker.records[v.span].annotations + v.annotations
            =~= tracker.records[v.span].annotations);
    }
}

/// The completeness gate: whatever verdicts arrive, in whatever order, every
/// span that is emitted has a report from every detector.
pub proof fn law_completeness_gate<A>(engine: EngineModel<A>, arrivals: Seq<VerdictModel<A>>)
    requires
        engine.wf(),
        engine.admits_all(arrivals),
    ensures
        forall|i: int|
            0 <= i < engine.run(arrivals).0.len() ==> (#[trigger] engine.run(
                arrivals,
            ).0[i]).record.reported_count == engine.tracker.total_detectors,
    decreases arrivals.len(),
{
    if arrivals.len() > 0 {
        let before = engine.run(arrivals.drop_last());
        law_completeness_gate(engine, arrivals.drop_last());
        engine.lemma_run(arrivals.drop_last());
        before.1.tracker.lemma_record(arrivals.last());
        lemma_drain_emissions(before.1.recorded(arrivals.last()));
        let now = before.1.step(arrivals.last()).0;
        assert forall|i: int| 0 <= i < engine.run(arrivals).0.len() implies (#[trigger] engine.run(
            arrivals,
        ).0[i]).record.reported_count == engine.tracker.total_detectors by {
            if i >= before.0.len() {
                assert(engine.run(arrivals).0[i] == now[i - before.0.len()]);
            } else {
                assert(engine.run(arrivals).0[i] == before.0[i]);
            }
        }
    }
}

/// The tracker as it would stand if every verdict of `arrivals` were
/// recorded and no span were ever emitted.
pub open spec fn tally<A>(total_detectors: nat, arrivals: Seq<VerdictModel<A>>) -> TrackerModel<A>
    decreases arrivals.len(),
{
    if arrivals.len() == 0 {
        TrackerModel::empty(total_detectors)
    } else {
        tally(total_detectors, arrivals.drop_last()).record(arrivals.last())
    }
}

/// No span that starts after 0 is complete while it is ahead of all others
/// that were reported on. At each moment, if the earliest of the spans
/// reported on so far has a report from every detector, it starts at 0.
///
/// This holds wherever the first verdict to arrive is for the span that
/// starts at 0, as it is where every detector reports on the spans in their
/// order.
pub open spec fn head_guarded<A>(total_detectors: nat, arrivals: Seq<VerdictModel<A>>) -> bool {
    forall|n: int, k: SpanKey|
        0 <= n <= arrivals.len() && (#[trigger] tally(total_detectors, arrivals.take(n))).is_earliest(k)
            && #[trigger] tally(total_detectors, arrivals.take(n)).is_complete(k) ==> k.0 == 0
}

/// Every verdict is for a span that ends after 0.
pub open spec fn ends_after_zero<A>(arrivals: Seq<VerdictModel<A>>) -> bool {
    forall|i: int| 0 <= i < arrivals.len() ==> (#[trigger] arrivals[i]).span.1 > 0
}

/// What holds of a run from the start on verdicts for spans that end after
/// 0, with what the proof of it carries along.
#[verifier::rlimit(30)]
proof fn lemma_run_contiguous<A>(
    total_detectors: nat,
    input_token_count: u32,
    arrivals: Seq<VerdictModel<A>>,
)
    requires
        EngineModel::<A>::init(total_detectors, input_token_count).admits_all(arrivals),
        ends_after_zero(arrivals),
    ensures
        ({
            let (emitted, last) = EngineModel::<A>::init(total_detectors, input_token_count).run(
                arrivals,
            );
            let spans = spans_of(emitted);
            &&& last.wf()
            &&& last.tracker.total_detectors == total_detectors
            &&& forall|k: SpanKey| last.tracker.records.contains_key(k) ==> k.1 > 0
            &&& emitted.len() == 0 ==> last.watermark == 0 && last.tracker == tally(
                total_detectors,
                arrivals,
            )
            &&& emitted.len() > 0 ==> last.watermark == spans.last().1 && last.watermark > 0
            &&& emitted.len() > 0 && head_guarded(total_detectors, arrivals) ==> spans[0].0 == 0
            &&& chained(spans)
        }),
    decreases arrivals.len(),
{
    let init = EngineModel::<A>::init(total_detectors, input_token_count);
    if arrivals.len() > 0 {
        let prefix = arrivals.drop_last();
        let v = arrivals.last();
        if head_guarded(total_detectors, arrivals) {
            assert forall|n: int, k: SpanKey|
                0 <= n <= prefix.len() && (#[trigger] tally(
                    total_detectors,
                    prefix.take(n),
                )).is_earliest(k) && #[trigger] tally(total_detectors, prefix.take(n)).is_complete(
                    k,
                ) implies k.0 == 0 by {
                assert(prefix.take(n) =~= arrivals.take(n));
            }
        }
        assert(ends_after_zero(prefix)) by {
            assert forall|i: int| 0 <= i < prefix.len() implies (#[trigger] prefix[i]).span.1
                > 0 by {
                assert(prefix[i] == arrivals[i]);
            }
        }
        lemma_run_contiguous(total_detectors, input_token_count, prefix);
        let (before, mid) = init.run(prefix);
        mid.tracker.lemma_record(v);
        let recorded = mid.recorded(v);
        lemma_drain_emissions(recorded);
        recorded.lemma_drain();
        let (now, last) = recorded.drain();
        let emitted = before + now;
        let spans = spans_of(emitted);
        assert(init.run(arrivals) == (emitted, last));
        assert(spans =~= spans_of(before) + spans_of(now));
        assert(v.span.1 > 0);
        assert forall|k: SpanKey| recorded.tracker.records.contains_key(k) implies k.1 > 0 by {}
        if now.len() > 0 {
            let first = now[0].span;
            assert(spans_of(now)[0] == first);
            assert(spans.last() == spans_of(now).last());
            assert(spans_of(now).last() == now.last().span);
            assert(recorded.tracker.records.contains_key(now.last().span));
            if before.len() == 0 {
                assert(spans[0] == first);
                if head_guarded(total_detectors, arrivals) {
                    assert(recorded.tracker == tally(total_detectors, arrivals));
                    assert(arrivals.take(arrivals.len() as int) =~= arrivals);
                    recorded.tracker.lemma_next_ready(0);
                    assert(tally(total_detectors, arrivals.take(arrivals.len() as int)).is_earliest(
                        first,
                    ));
                    assert(first.0 == 0);
                }
            } else {
                assert(spans[0] == spans_of(before)[0]);
                assert(first.0 == mid.watermark);
            }
            assert forall|i: int| 0 <= i < spans.len() - 1 implies (#[trigger] spans[i]).1
                == spans[i + 1].0 by {
                let m = before.len() as int;
                if i + 1 < m {
                    assert(spans[i] == spans_of(before)[i]);
                    assert(spans[i + 1] == spans_of(before)[i + 1]);
                } else if i + 1 == m {
                    assert(spans[i] == spans_of(before)[i]);
                    assert(spans[i + 1] == spans_of(now)[0]);
                } else {
                    assert(spans[i] == spans_of(now)[i - m]);
                    assert(spans[i + 1] == spans_of(now)[i - m + 1]);
                }
            }
        } else {
            assert(spans =~= spans_of(before));
        }
    } else {
        assert(spans_of(init.run(arrivals).0) =~= Seq::<SpanKey>::empty());
    }
}

/// Contiguity after the first span: where every span ends after 0, each
/// emitted span but the first starts where the one before it ended, whatever
/// the order of the verdicts. The watermark stands at the end of the last
/// emitted span, or at 0 while none was emitted.
pub proof fn law_chained<A>(
    total_detectors: nat,
    input_token_count: u32,
    arrivals: Seq<VerdictModel<A>>,
)
    requires
        EngineModel::<A>::init(total_detectors, input_token_count).admits_all(arrivals),
        ends_after_zero(arrivals),
    ensures
        ({
            let (emitted, last) = EngineModel::<A>::init(total_detectors, input_token_count).run(
                arrivals,
            );
            let spans = spans_of(emitted);
            &&& chained(spans)
            &&& last.watermark == (if spans.len() == 0 {
                0
            } else {
                spans.last().1
            })
        }),
{
    lemma_run_contiguous(total_detectors, input_token_count, arrivals);
}

/// Contiguity: where the verdicts are guarded at the head and every span
/// ends after 0, the first span that is emitted starts at 0, and each
/// further one starts where the one before it ended.
pub proof fn law_contiguity<A>(
    total_detectors: nat,
    input_token_count: u32,
    arrivals: Seq<VerdictModel<A>>,
)
    requires
        EngineModel::<A>::init(total_detectors, input_token_count).admits_all(arrivals),
        ends_after_zero(arrivals),
        head_guarded(total_detectors, arrivals),
    ensures
        ({
            let spans = spans_of(
                EngineModel::<A>::init(total_detectors, input_token_count).run(arrivals).0,
            );
            &&& spans.len() > 0 ==> spans[0].0 == 0
            &&& chained(spans)
        }),
{
    lemma_run_contiguous(total_detectors, input_token_count, arrivals);
}

/// Number of verdicts of `arrivals` that are for the span `k`.
pub open spec fn count<A>(arrivals: Seq<VerdictModel<A>>, k: SpanKey) -> nat
    decreases arrivals.len(),
{
    if arrivals.len() == 0 {
        0
    } else {
        count(arrivals.drop_last(), k) + if arrivals.last().span == k {
            1nat
        } else {
            0nat
        }
    }
}

/// The spans as the chunker hands them out: the first starts at 0, none is
/// empty, and each starts where the one before it ended.
pub open spec fn contiguous_schedule(schedule: Seq<SpanKey>) -> bool {
    &&& schedule.len() > 0 ==> schedule[0].0 == 0
    &&& forall|i: int| 0 <= i < schedule.len() ==> (#[trigger] schedule[i]).0 < schedule[i].1
    &&& chained(schedule)
}

/// Every verdict is for a span of the schedule, and every span of the
/// schedule gets exactly one verdict from each detector.
pub open spec fn reports_all<A>(
    total_detectors: nat,
    schedule: Seq<SpanKey>,
    arrivals: Seq<VerdictModel<A>>,
) -> bool {
    &&& forall|i: int| 0 <= i < arrivals.len() ==> schedule.contains((#[trigger] arrivals[i]).span)
    &&& forall|j: int|
        0 <= j < schedule.len() ==> count(arrivals, #[trigger] schedule[j]) == total_detectors
}

/// In a contiguous schedule a later span starts at or after the end of an
/// earlier one.
pub proof fn lemma_schedule_sorted(schedule: Seq<SpanKey>, i: int, j: int)
    requires
        contiguous_schedule(schedule),
        0 <= i < j < schedule.len(),
    ensures
        schedule[i].1 <= schedule[j].0,
        schedule[i].0 < schedule[j].0,
        span_lt(schedule[i], schedule[j]),
    decreases j - i,
{
    if i + 1 < j {
        lemma_schedule_sorted(schedule, i, j - 1);
        assert(schedule[j - 1].1 == schedule[j - 1 + 1].0);
        assert(schedule[j - 1].0 < schedule[j - 1].1);
    } else {
        assert(schedule[i].1 == schedule[i + 1].0);
        assert(schedule[i].0 < schedule[i].1);
    }
}

/// In a contiguous schedule, the span that starts at 0 is the first, and the
/// span that starts where another ends is the one after it.
proof fn lemma_schedule_position(schedule: Seq<SpanKey>, j: int)
    requires
        contiguous_schedule(schedule),
        0 <= j < schedule.len(),
    ensures
        schedule[j].0 == 0 ==> j == 0,
        forall|i: int| 0 <= i < schedule.len() && schedule[j].0 == schedule[i].1 ==> j == i + 1,
{
    if j > 0 {
        lemma_schedule_sorted(schedule, 0, j);
    }
    assert forall|i: int| 0 <= i < schedule.len() && schedule[j].0 == schedule[i].1 implies j == i
        + 1 by {
        assert(schedule[i].0 < schedule[i].1);
        if j < i {
            lemma_schedule_sorted(schedule, j, i);
        } else if j == i {
        } else if j > i + 1 {
            lemma_schedule_sorted(schedule, i + 1, j);
            assert(schedule[i].1 == schedule[i + 1].0);
        }
    }
}

/// A span with a verdict in `arrivals` is the span of one of them.
pub proof fn lemma_count_witness<A>(arrivals: Seq<VerdictModel<A>>, k: SpanKey) -> (i: int)
    requires
        count(arrivals, k) > 0,
    ensures
        0 <= i < arrivals.len(),
        arrivals[i].span == k,
    decreases arrivals.len(),
{
    if arrivals.last().span == k {
        arrivals.len() - 1
    } else {
        lemma_count_witness(arrivals.drop_last(), k)
    }
}

/// A chain of spans of a contiguous schedule that begins where the first
/// `m` spans of the schedule end is the next stretch of the schedule.
proof fn lemma_chain_follows(schedule: Seq<SpanKey>, m: int, chain: Seq<SpanKey>)
    requires
        contiguous_schedule(schedule),
        0 <= m <= schedule.len(),
        chained(chain),
        forall|i: int| 0 <= i < chain.len() ==> schedule.contains(#[trigger] chain[i]),
        chain.len() > 0 ==> chain[0].0 == (if m == 0 {
            0
        } else {
            schedule[m - 1].1
        }),
    ensures
        m + chain.len() <= schedule.len(),
        forall|i: int| 0 <= i < chain.len() ==> #[trigger] chain[i] == schedule[m + i],
    decreases chain.len(),
{
    if chain.len() > 0 {
        let n = chain.len() - 1;
        let head = chain.drop_last();
        assert forall|i: int| 0 <= i < head.len() - 1 implies (#[trigger] head[i]).1 == head[i
            + 1].0 by {
            assert(head[i] == chain[i]);
            assert(head[i + 1] == chain[i + 1]);
        }
        assert forall|i: int| 0 <= i < head.len() implies schedule.contains(#[trigger] head[i]) by {
            assert(head[i] == chain[i]);
        }
        if head.len() > 0 {
            assert(head[0] == chain[0]);
        }
        lemma_chain_follows(schedule, m, head);
        let k = chain[n];
        assert(schedule.contains(k));
        let j = choose|j: int| 0 <= j < schedule.len() && schedule[j] == k;
        lemma_schedule_position(schedule, j);
        if n == 0 {
            if m > 0 {
                assert(schedule[j].0 == schedule[m - 1].1);
            }
        } else {
            assert(chain[n - 1].1 == chain[n - 1 + 1].0);
            assert(chain[n - 1] == head[n - 1]);
            assert(head[n - 1] == schedule[m + (n - 1)]);
            assert(schedule[j].0 == schedule[m + n - 1].1);
        }
        assert(j == m + n);
        assert forall|i: int| 0 <= i < chain.len() implies #[trigger] chain[i] == schedule[m
            + i] by {
            if i < n {
                assert(chain[i] == head[i]);
            }
        }
    }
}

/// Every verdict is for a span of the schedule.
pub open spec fn within_schedule<A>(schedule: Seq<SpanKey>, arrivals: Seq<VerdictModel<A>>) -> bool {
    forall|i: int| 0 <= i < arrivals.len() ==> schedule.contains((#[trigger] arrivals[i]).span)
}

/// No span gets more verdicts than there are detectors.
pub open spec fn at_most_once_each<A>(total_detectors: nat, arrivals: Seq<VerdictModel<A>>) -> bool {
    forall|k: SpanKey| #[trigger] count(arrivals, k) <= total_detectors
}

/// What a run from the start has done after any part of the verdicts for a
/// contiguous schedule has arrived: it has emitted the first spans of the
/// schedule, in order, each with all its reports; every other span that has
/// a verdict is tracked with the number of its reports; and nothing that is
/// ready was held back.
#[verifier::rlimit(60)]
pub proof fn lemma_run_follows_schedule<A>(
    total_detectors: nat,
    input_token_count: u32,
    schedule: Seq<SpanKey>,
    arrivals: Seq<VerdictModel<A>>,
)
    requires
        contiguous_schedule(schedule),
        within_schedule(schedule, arrivals),
        at_most_once_each(total_detectors, arrivals),
        head_guarded(total_detectors, arrivals),
    ensures
        ({
            let init = EngineModel::<A>::init(total_detectors, input_token_count);
            let (emitted, last) = init.run(arrivals);
            let spans = spans_of(emitted);
            &&& init.admits_all(arrivals)
            &&& last.wf()
            &&& last.tracker.total_detectors == total_detectors
            &&& emitted.len() <= schedule.len()
            &&& spans == schedule.take(emitted.len() as int)
            &&& last.watermark == (if emitted.len() == 0 {
                0
            } else {
                schedule[emitted.len() - 1].1
            })
            &&& emitted.len() == 0 ==> last.tracker == tally(total_detectors, arrivals)
            &&& forall|k: SpanKey| #[trigger]
                last.tracker.records.contains_key(k) ==> schedule.contains(k) && !spans.contains(k)
            &&& forall|k: SpanKey| #[trigger]
                spans.contains(k) ==> count(arrivals, k) == total_detectors
            &&& forall|k: SpanKey|
                !spans.contains(k) ==> #[trigger] last.tracker.reported(k) == count(arrivals, k)
            &&& arrivals.len() > 0 ==> last.tracker.next_ready(last.watermark) is None
        }),
    decreases arrivals.len(),
{
    let init = EngineModel::<A>::init(total_detectors, input_token_count);
    if arrivals.len() == 0 {
        assert(spans_of(init.run(arrivals).0) =~= schedule.take(0));
    } else {
        let prefix = arrivals.drop_last();
        let v = arrivals.last();
        let a = v.span;
        assert(within_schedule(schedule, prefix)) by {
            assert forall|i: int| 0 <= i < prefix.len() implies schedule.contains(
                (#[trigger] prefix[i]).span,
            ) by {
                assert(prefix[i] == arrivals[i]);
            }
        }
        assert(at_most_once_each(total_detectors, prefix)) by {
            assert forall|k: SpanKey| #[trigger] count(prefix, k) <= total_detectors by {
                assert(count(arrivals, k) <= total_detectors);
            }
        }
        assert(head_guarded(total_detectors, prefix)) by {
            assert forall|n: int, k: SpanKey|
                0 <= n <= prefix.len() && (#[trigger] tally(total_detectors, prefix.take(n))).is_earliest(
                    k,
                ) && #[trigger] tally(total_detectors, prefix.take(n)).is_complete(k) implies k.0
                == 0 by {
                assert(prefix.take(n) =~= arrivals.take(n));
            }
        }
        lemma_run_follows_schedule(total_detectors, input_token_count, schedule, prefix);
        let (before, mid) = init.run(prefix);
        let m = before.len() as int;
        let bspans = spans_of(before);

        // The verdict is admitted.
        assert(schedule.contains(arrivals[arrivals.len() - 1].span));
        let ja = choose|j: int| 0 <= j < schedule.len() && schedule[j] == a;
        assert(schedule[ja].0 < schedule[ja].1);
        assert(count(arrivals, a) <= total_detectors);
        assert(count(arrivals, a) == count(prefix, a) + 1);
        if bspans.contains(a) {
            assert(count(prefix, a) == total_detectors);
        }
        assert(mid.tracker.reported(a) == count(prefix, a));
        assert(mid.admits(a));

        mid.tracker.lemma_record(v);
        let recorded = mid.recorded(v);
        lemma_drain_emissions(recorded);
        recorded.lemma_drain();
        let (now, last) = recorded.drain();
        let nspans = spans_of(now);
        let emitted = before + now;
        let spans = spans_of(emitted);
        assert(init.run(arrivals) == (emitted, last));
        assert(spans =~= bspans + nspans);

        // What is tracked once the verdict is recorded.
        assert forall|k: SpanKey| #[trigger] recorded.tracker.records.contains_key(k) implies {
            &&& schedule.contains(k)
            &&& !bspans.contains(k)
            &&& k.1 > 0
        } by {
            if k != a {
                assert(mid.tracker.records.contains_key(k));
            }
            let j = choose|j: int| 0 <= j < schedule.len() && schedule[j] == k;
            assert(schedule[j].0 < schedule[j].1);
        }
        assert forall|k: SpanKey| !bspans.contains(k) implies #[trigger] recorded.tracker.reported(k)
            == count(arrivals, k) by {
            assert(mid.tracker.reported(k) == count(prefix, k));
        }

        // The spans that the verdict releases are the next of the schedule.
        assert forall|i: int| 0 <= i < nspans.len() implies schedule.contains(#[trigger] nspans[i]) by {
            assert(recorded.tracker.records.contains_key(now[i].span));
        }
        if now.len() > 0 {
            let first = now[0].span;
            assert(nspans[0] == first);
            recorded.tracker.lemma_next_ready(recorded.watermark);
            if m == 0 {
                assert(recorded.tracker == tally(total_detectors, arrivals));
                assert(arrivals.take(arrivals.len() as int) =~= arrivals);
                assert(tally(total_detectors, arrivals.take(arrivals.len() as int)).is_earliest(first));
                assert(first.0 == 0);
            } else {
                assert(schedule[m - 1].0 < schedule[m - 1].1);
                assert(first.0 == recorded.watermark);
            }
        }
        lemma_chain_follows(schedule, m, nspans);
        assert(spans =~= schedule.take(m + now.len())) by {
            assert forall|i: int| 0 <= i < spans.len() implies spans[i] == schedule[i] by {
                if i < m {
                    assert(spans[i] == bspans[i]);
                } else {
                    assert(spans[i] == nspans[i - m]);
                }
            }
        }
        if now.len() > 0 {
            assert(now.last().span == nspans[now.len() - 1]);
        }

        assert forall|k: SpanKey| #[trigger] last.tracker.records.contains_key(k) implies schedule.contains(
            k,
        ) && !spans.contains(k) by {
            assert(recorded.tracker.records.contains_key(k));
            if spans.contains(k) {
                let i = choose|i: int| 0 <= i < spans.len() && spans[i] == k;
                if i < m {
                    assert(bspans[i] == k);
                } else {
                    assert(nspans[i - m] == k);
                }
            }
        }
        assert forall|k: SpanKey| #[trigger] spans.contains(k) implies count(arrivals, k)
            == total_detectors by {
            let i = choose|i: int| 0 <= i < spans.len() && spans[i] == k;
            assert(count(arrivals, k) <= total_detectors);
            if i < m {
                assert(bspans[i] == k);
                assert(bspans.contains(k));
                assert(count(prefix, k) == total_detectors);
            } else {
                assert(nspans[i - m] == k);
                let e = now[i - m];
                assert(recorded.tracker.records.contains_key(e.span));
                assert(!bspans.contains(k));
                assert(recorded.tracker.reported(k) == count(arrivals, k));
            }
        }
        assert forall|k: SpanKey| !spans.contains(k) implies #[trigger] last.tracker.reported(k)
            == count(arrivals, k) by {
            if bspans.contains(k) {
                let i = choose|i: int| 0 <= i < bspans.len() && bspans[i] == k;
                assert(spans[i] == k);
            }
            if nspans.contains(k) {
                let i = choose|i: int| 0 <= i < nspans.len() && nspans[i] == k;
                assert(spans[m + i] == k);
            }
            assert(recorded.tracker.reported(k) == count(arrivals, k));
            assert(last.tracker.records.contains_key(k) <==> recorded.tracker.records.contains_key(k));
        }
    }
}

/// Where every verdict is for a span of the schedule and every span of the
/// schedule gets one verdict from each detector, no span gets more.
proof fn lemma_reports_all_bounds<A>(
    total_detectors: nat,
    schedule: Seq<SpanKey>,
    arrivals: Seq<VerdictModel<A>>,
)
    requires
        reports_all(total_detectors, schedule, arrivals),
    ensures
        within_schedule(schedule, arrivals),
        at_most_once_each(total_detectors, arrivals),
{
    assert forall|k: SpanKey| #[trigger] count(arrivals, k) <= total_detectors by {
        if count(arrivals, k) > 0 {
            let i = lemma_count_witness(arrivals, k);
            assert(schedule.contains(arrivals[i].span));
            let j = choose|j: int| 0 <= j < schedule.len() && schedule[j] == k;
            assert(count(arrivals, schedule[j]) == total_detectors);
        }
    }
}

/// The ordering property. Let the chunker hand out a contiguous schedule of
/// spans, and let every detector report once on every span of it. Then,
/// whatever the interleaving of the verdicts (as long as it is guarded at the
/// head), every verdict is admitted and the engine emits exactly the spans
/// of the schedule, in the order of the schedule: strictly increasing,
/// contiguous, none twice and none left out. Each is emitted with a report
/// from every detector, nothing stays in the tracker, and the watermark
/// stands at the end of the schedule.
#[verifier::rlimit(30)]
pub proof fn law_ordering<A>(
    total_detectors: nat,
    input_token_count: u32,
    schedule: Seq<SpanKey>,
    arrivals: Seq<VerdictModel<A>>,
)
    requires
        total_detectors >= 1,
        contiguous_schedule(schedule),
        reports_all(total_detectors, schedule, arrivals),
        head_guarded(total_detectors, arrivals),
    ensures
        ({
            let init = EngineModel::<A>::init(total_detectors, input_token_count);
            let (emitted, last) = init.run(arrivals);
            &&& init.admits_all(arrivals)
            &&& spans_of(emitted) == schedule
            &&& forall|i: int|
                0 <= i < emitted.len() ==> (#[trigger] emitted[i]).record.reported_count
                    == total_detectors
            &&& forall|i: int, j: int|
                0 <= i < j < schedule.len() ==> span_lt(#[trigger] schedule[i], #[trigger] schedule[j])
                    && schedule[i].1 <= schedule[j].0
            &&& forall|k: SpanKey| !last.tracker.records.contains_key(k)
            &&& last.watermark == (if schedule.len() == 0 {
                0
            } else {
                schedule.last().1
            })
        }),
{
    let init = EngineModel::<A>::init(total_detectors, input_token_count);
    lemma_reports_all_bounds(total_detectors, schedule, arrivals);
    lemma_run_follows_schedule(total_detectors, input_token_count, schedule, arrivals);
    law_completeness_gate(init, arrivals);
    let (emitted, last) = init.run(arrivals);
    let spans = spans_of(emitted);
    let m = emitted.len() as int;
    if m < schedule.len() {
        // The next span of the schedule has all its reports, so it is ready.
        let k = schedule[m];
        assert(count(arrivals, k) == total_detectors);
        let w = lemma_count_witness(arrivals, k);
        if spans.contains(k) {
            let i = choose|i: int| 0 <= i < spans.len() && spans[i] == k;
            assert(spans[i] == schedule[i]);
            lemma_schedule_sorted(schedule, i, m);
        }
        assert(last.tracker.reported(k) == count(arrivals, k));
        assert(last.tracker.is_complete(k));
        assert(schedule[m].0 < schedule[m].1);
        if m == 0 {
            assert forall|j: SpanKey| #[trigger]
                last.tracker.records.contains_key(j) implies span_le(k, j) by {
                let x = choose|x: int| 0 <= x < schedule.len() && schedule[x] == j;
                if x > 0 {
                    lemma_schedule_sorted(schedule, 0, x);
                }
            }
            assert(last.tracker.is_candidate(last.watermark, k));
        } else {
            assert(schedule[m - 1].1 == schedule[m - 1 + 1].0);
            assert(schedule[m - 1].0 < schedule[m - 1].1);
            assert forall|j: SpanKey| #[trigger]
                last.tracker.records.contains_key(j) && j.0 == last.watermark implies span_le(
                k,
                j,
            ) by {
                let x = choose|x: int| 0 <= x < schedule.len() && schedule[x] == j;
                lemma_schedule_position(schedule, x);
            }
            assert(last.tracker.is_candidate(last.watermark, k));
        }
        last.tracker.lemma_candidate_unique(last.watermark);
        assert(false);
    }
    assert(schedule.take(m) =~= schedule);
    assert forall|k: SpanKey| !last.tracker.records.contains_key(k) by {
        if last.tracker.records.contains_key(k) {
            assert(schedule.contains(k) && !spans.contains(k));
        }
    }
    assert forall|i: int, j: int| 0 <= i < j < schedule.len() implies span_lt(
        #[trigger] schedule[i],
        #[trigger] schedule[j],
    ) && schedule[i].1 <= schedule[j].0 by {
        lemma_schedule_sorted(schedule, i, j);
    }
}

/// The ordering property, of two interleavings: two arrival orders of the
/// verdicts for one schedule make the engine emit the same spans in the same
/// order.
pub proof fn law_ordering_of_interleavings<A>(
    total_detectors: nat,
    input_token_count: u32,
    schedule: Seq<SpanKey>,
    first: Seq<VerdictModel<A>>,
    second: Seq<VerdictModel<A>>,
)
    requires
        total_detectors >= 1,
        contiguous_schedule(schedule),
        reports_all(total_detectors, schedule, first),
        reports_all(total_detectors, schedule, second),
        head_guarded(total_detectors, first),
        head_guarded(total_detectors, second),
    ensures
        spans_of(EngineModel::<A>::init(total_detectors, input_token_count).run(first).0)
            == spans_of(EngineModel::<A>::init(total_detectors, input_token_count).run(second).0),
{
    law_ordering(total_detectors, input_token_count, schedule, first);
    law_ordering(total_detectors, input_token_count, schedule, second);
}

/// Every span with a verdict is in the tally.
proof fn lemma_tally_holds<A>(total_detectors: nat, arrivals: Seq<VerdictModel<A>>, i: int)
    requires
        0 <= i < arrivals.len(),
    ensures
        tally(total_detectors, arrivals).records.contains_key(arrivals[i].span),
    decreases arrivals.len(),
{
    if i < arrivals.len() - 1 {
        lemma_tally_holds(total_detectors, arrivals.drop_last(), i);
        assert(arrivals.drop_last()[i] == arrivals[i]);
    }
}

/// Where the first verdict to arrive is for a span that starts at 0, the
/// verdicts are guarded at the head. This is so wherever every detector
/// reports on the spans in their order, however the detectors interleave.
pub proof fn lemma_first_verdict_guards<A>(total_detectors: nat, arrivals: Seq<VerdictModel<A>>)
    requires
        arrivals.len() > 0 ==> arrivals[0].span.0 == 0,
    ensures
        head_guarded(total_detectors, arrivals),
{
    assert forall|n: int, k: SpanKey|
        0 <= n <= arrivals.len() && (#[trigger] tally(total_detectors, arrivals.take(n))).is_earliest(
            k,
        ) && #[trigger] tally(total_detectors, arrivals.take(n)).is_complete(k) implies k.0
        == 0 by {
        if n > 0 {
            lemma_tally_holds(total_detectors, arrivals.take(n), 0);
            assert(arrivals.take(n)[0] == arrivals[0]);
            assert(span_le(k, arrivals[0].span));
        }
    }
}

/// No verdict is for a span that ends before it starts.
pub open spec fn spans_ordered<A>(arrivals: Seq<VerdictModel<A>>) -> bool {
    forall|i: int| 0 <= i < arrivals.len() ==> (#[trigger] arrivals[i]).span.0 <= arrivals[i].span.1
}

/// Where no span gets more verdicts than there are detectors, every verdict
/// is admitted when its turn comes, and the tracker never counts more
/// reports on a span than verdicts have arrived for it.
#[verifier::rlimit(30)]
pub proof fn lemma_bounded_admits<A>(
    total_detectors: nat,
    input_token_count: u32,
    arrivals: Seq<VerdictModel<A>>,
)
    requires
        spans_ordered(arrivals),
        at_most_once_each(total_detectors, arrivals),
    ensures
        EngineModel::<A>::init(total_detectors, input_token_count).admits_all(arrivals),
        EngineModel::<A>::init(total_detectors, input_token_count).run(arrivals).1.wf(),
        forall|k: SpanKey| #[trigger]
            EngineModel::<A>::init(total_detectors, input_token_count).run(
                arrivals,
            ).1.tracker.reported(k) <= count(arrivals, k),
    decreases arrivals.len(),
{
    let init = EngineModel::<A>::init(total_detectors, input_token_count);
    if arrivals.len() > 0 {
        let prefix = arrivals.drop_last();
        let v = arrivals.last();
        assert(spans_ordered(prefix)) by {
            assert forall|i: int| 0 <= i < prefix.len() implies (#[trigger] prefix[i]).span.0
                <= prefix[i].span.1 by {
                assert(prefix[i] == arrivals[i]);
            }
        }
        assert(at_most_once_each(total_detectors, prefix)) by {
            assert forall|k: SpanKey| #[trigger] count(prefix, k) <= total_detectors by {
                assert(count(arrivals, k) <= total_detectors);
            }
        }
        lemma_bounded_admits(total_detectors, input_token_count, prefix);
        init.lemma_run(prefix);
        let mid = init.run(prefix).1;
        assert(arrivals[arrivals.len() - 1].span.0 <= v.span.1);
        assert(count(arrivals, v.span) <= total_detectors);
        assert(mid.tracker.reported(v.span) <= count(prefix, v.span));
        assert(mid.admits(v.span));
        mid.tracker.lemma_record(v);
        let recorded = mid.recorded(v);
        lemma_drain_emissions(recorded);
        recorded.lemma_drain();
        let last = recorded.drain().1;
        assert forall|k: SpanKey| #[trigger] last.tracker.reported(k) <= count(arrivals, k) by {
            assert(mid.tracker.reported(k) <= count(prefix, k));
            assert(last.tracker.records.contains_key(k) ==> last.tracker.records[k]
                == recorded.tracker.records[k]);
        }
    }
}

/// Emit once: where no span gets more verdicts than there are detectors,
/// no span is emitted twice, whatever the order of the verdicts. A span that
/// was emitted had a verdict from every detector and is tracked no longer.
#[verifier::rlimit(60)]
pub proof fn law_emit_once<A>(
    total_detectors: nat,
    input_token_count: u32,
    arrivals: Seq<VerdictModel<A>>,
)
    requires
        total_detectors >= 1,
        spans_ordered(arrivals),
        at_most_once_each(total_detectors, arrivals),
    ensures
        ({
            let (emitted, last) = EngineModel::<A>::init(total_detectors, input_token_count).run(
                arrivals,
            );
            let spans = spans_of(emitted);
            &&& spans.no_duplicates()
            &&& forall|k: SpanKey| #[trigger]
                spans.contains(k) ==> count(arrivals, k) == total_detectors
                    && !last.tracker.records.contains_key(k)
        }),
    decreases arrivals.len(),
{
    let init = EngineModel::<A>::init(total_detectors, input_token_count);
    if arrivals.len() == 0 {
        assert(spans_of(init.run(arrivals).0) =~= Seq::<SpanKey>::empty());
    } else {
        let prefix = arrivals.drop_last();
        let v = arrivals.last();
        let a = v.span;
        assert(spans_ordered(prefix)) by {
            assert forall|i: int| 0 <= i < prefix.len() implies (#[trigger] prefix[i]).span.0
                <= prefix[i].span.1 by {
                assert(prefix[i] == arrivals[i]);
            }
        }
        assert(at_most_once_each(total_detectors, prefix)) by {
            assert forall|k: SpanKey| #[trigger] count(prefix, k) <= total_detectors by {
                assert(count(arrivals, k) <= total_detectors);
            }
        }
        law_emit_once(total_detectors, input_token_count, prefix);
        lemma_bounded_admits(total_detectors, input_token_count, prefix);
        lemma_bounded_admits(total_detectors, input_token_count, arrivals);
        init.lemma_run(prefix);
        let (before, mid) = init.run(prefix);
        let bspans = spans_of(before);
        assert(count(arrivals, a) <= total_detectors);
        assert(mid.tracker.reported(a) <= count(prefix, a));
        assert(mid.admits(a));
        mid.tracker.lemma_record(v);
        let recorded = mid.recorded(v);
        lemma_drain_emissions(recorded);
        let (now, last) = recorded.drain();
        let nspans = spans_of(now);
        let spans = spans_of(before + now);
        assert(init.run(arrivals) == (before + now, last));
        assert(spans =~= bspans + nspans);

        assert forall|k: SpanKey| #[trigger] bspans.contains(k) implies !recorded.tracker.records.contains_key(
            k,
        ) by {
            assert(count(prefix, k) == total_detectors);
            assert(count(arrivals, k) <= total_detectors);
        }
        assert forall|i: int| 0 <= i < nspans.len() implies !bspans.contains(
            #[trigger] nspans[i],
        ) by {
            assert(recorded.tracker.records.contains_key(now[i].span));
        }
        assert forall|x: int, y: int| 0 <= x < spans.len() && 0 <= y < spans.len() && x
            != y implies spans[x] != spans[y] by {
            let m = bspans.len() as int;
            if x < m && y < m {
                assert(spans[x] == bspans[x] && spans[y] == bspans[y]);
            } else if x >= m && y >= m {
                assert(spans[x] == nspans[x - m] && spans[y] == nspans[y - m]);
            } else if x < m {
                assert(spans[x] == bspans[x] && spans[y] == nspans[y - m]);
                assert(bspans.contains(bspans[x]));
            } else {
                assert(spans[y] == bspans[y] && spans[x] == nspans[x - m]);
                assert(bspans.contains(bspans[y]));
            }
        }
        assert forall|k: SpanKey| #[trigger] spans.contains(k) implies count(arrivals, k)
            == total_detectors && !last.tracker.records.contains_key(k) by {
            let i = choose|i: int| 0 <= i < spans.len() && spans[i] == k;
            let m = bspans.len() as int;
            assert(count(arrivals, k) <= total_detectors);
            if i < m {
                assert(bspans[i] == k);
                assert(bspans.contains(k));
                assert(count(prefix, k) == total_detectors);
            } else {
                assert(nspans[i - m] == k);
                assert(nspans.contains(k));
                let e = now[i - m];
                assert(recorded.tracker.records.contains_key(e.span));
                assert(mid.tracker.reported(k) <= count(prefix, k));
                assert(recorded.tracker.reported(k) == total_detectors);
            }
        }
    }
}

/// With a single detector the engine only puts the spans in order: a
/// verdict for the span that starts at the watermark is emitted at once, and
/// first, as it arrived. This is so where no other tracked span starts
/// there.
pub proof fn law_single_detector_passes_through<A>(engine: EngineModel<A>, v: VerdictModel<A>)
    requires
        engine.wf(),
        engine.tracker.total_detectors == 1,
        engine.admits(v.span),
        v.span.0 == engine.watermark,
        forall|k: SpanKey| engine.tracker.records.contains_key(k) ==> k.0 != v.span.0,
    ensures
        engine.step(v).0.len() >= 1,
        engine.step(v).0[0].span == v.span,
        engine.step(v).0[0].record == (RecordModel {
            text: v.chunk_text,
            annotations: v.annotations,
            reported_count: 1,
        }),
{
    let recorded = engine.recorded(v);
    assert(recorded.tracker.records.contains_key(v.span));
    assert forall|j: SpanKey| #[trigger] recorded.tracker.records.contains_key(j) implies (j.0
        == v.span.0 ==> j == v.span) by {}
    assert(recorded.tracker.is_candidate(recorded.watermark, v.span)) by {
        assert forall|j: SpanKey| #[trigger]
            recorded.tracker.records.contains_key(j) implies (j.0 == v.span.0 ==> span_le(
            v.span,
            j,
        )) && (v.span.0 == 0 ==> span_le(v.span, j)) by {}
    }
    recorded.tracker.lemma_candidate_unique(recorded.watermark);
    assert(recorded.tracker.next_ready(recorded.watermark) == Some(v.span));
    let rest = recorded.advance(v.span).drain().0;
    assert(recorded.drain().0 == seq![recorded.emission(v.span)] + rest);
}

} // verus!
