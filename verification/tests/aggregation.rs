use guardrails_orchestrator::orchestrator::aggregators::engine::{ClassifiedChunk, Drained, Engine};
use guardrails_orchestrator::orchestrator::aggregators::max_processed_index::MaxProcessedIndexAggregator;
use guardrails_orchestrator::orchestrator::aggregators::model::Phase;
use guardrails_orchestrator::orchestrator::aggregators::span::Span;
use guardrails_orchestrator::orchestrator::aggregators::tracker::{Tracker, Verdict};

#[derive(Clone, Debug, PartialEq)]
struct Annotation {
    start: u32,
    end: u32,
    text: String,
    detection: String,
    detection_type: String,
    score: f64,
}

fn annotation(start: u32, end: u32, detection: &str, detection_type: &str, score: f64) -> Annotation {
    Annotation {
        start,
        end,
        text: "This is a dummy sentence".to_string(),
        detection: detection.to_string(),
        detection_type: detection_type.to_string(),
        score,
    }
}

fn span(start: u32, end: u32) -> Span {
    Span::new(start, end).unwrap()
}

fn verdict(start: u32, end: u32, text: &str, annotations: Vec<Annotation>) -> Verdict<Annotation> {
    Verdict { span: span(start, end), chunk_text: text.to_string(), annotations }
}

fn spans_of(chunks: &[ClassifiedChunk<Annotation>]) -> Vec<(u32, u32)> {
    chunks.iter().map(|c| (c.start_index, c.processed_index)).collect()
}

#[test]
fn test_aggregation_single_input() {
    let hap = annotation(0, 24, "has_HAP", "HAP", 0.99);
    let arrivals = vec![verdict(0, 4, "This is a dummy sentence", vec![hap.clone()])];
    let aggregator = MaxProcessedIndexAggregator::default();
    let result = aggregator.process(1, 5, arrivals);
    assert_eq!(result.len(), 1);
    assert_eq!(result[0].generated_text, "This is a dummy sentence");
    assert_eq!(result[0].input_token_count, 5);
    assert_eq!(result[0].start_index, 0);
    assert_eq!(result[0].processed_index, 4);
    assert_eq!(result[0].annotations, vec![hap]);
}

#[test]
fn single_detector_emits_at_once() {
    let pii = annotation(3, 9, "EmailAddress", "pii", 0.8);
    let mut engine: Engine<Annotation> = Engine::new(1, 11);
    assert!(engine.admits(span(0, 24)));
    let out = engine.on_verdict(verdict(0, 24, "chunk one", vec![pii.clone()]));
    assert_eq!(out.len(), 1);
    assert_eq!(out[0].start_index, 0);
    assert_eq!(out[0].processed_index, 24);
    assert_eq!(out[0].generated_text, "chunk one");
    assert_eq!(out[0].input_token_count, 11);
    assert_eq!(out[0].annotations, vec![pii]);
    assert_eq!(engine.watermark(), 24);
    assert_eq!(engine.pending(), 0);
}

#[test]
fn second_detector_completes_the_span() {
    let from_a = annotation(0, 5, "EmailAddress", "pii", 0.9);
    let from_b = annotation(7, 12, "has_HAP", "HAP", 0.75);
    let mut engine: Engine<Annotation> = Engine::new(2, 0);
    let first = engine.on_verdict(verdict(0, 24, "chunk one", vec![from_a.clone()]));
    assert!(first.is_empty());
    assert_eq!(engine.watermark(), 0);
    assert_eq!(engine.pending(), 1);
    let second = engine.on_verdict(verdict(0, 24, "chunk one", vec![from_b.clone()]));
    assert_eq!(second.len(), 1);
    assert_eq!((second[0].start_index, second[0].processed_index), (0, 24));
    assert_eq!(second[0].annotations, vec![from_a, from_b]);
    assert_eq!(engine.watermark(), 24);
}

#[test]
fn complete_span_waits_for_the_watermark() {
    let mut engine: Engine<Annotation> = Engine::new(2, 0);
    assert!(engine.on_verdict(verdict(0, 24, "one", vec![])).is_empty());
    assert!(engine.on_verdict(verdict(24, 50, "two", vec![])).is_empty());
    // The second span is complete now, but the first is not.
    assert!(engine.on_verdict(verdict(24, 50, "two", vec![])).is_empty());
    assert_eq!(engine.watermark(), 0);
    assert_eq!(engine.pending(), 2);
    // Completing the first releases both, in order.
    let out = engine.on_verdict(verdict(0, 24, "one", vec![]));
    assert_eq!(spans_of(&out), vec![(0, 24), (24, 50)]);
    assert_eq!(out[0].generated_text, "one");
    assert_eq!(out[1].generated_text, "two");
    assert_eq!(engine.watermark(), 50);
    assert_eq!(engine.pending(), 0);
}

#[test]
fn incomplete_span_is_dropped_at_the_end() {
    let mut engine: Engine<Annotation> = Engine::new(2, 0);
    let mut delivered = Vec::new();
    delivered.extend(engine.on_verdict(verdict(0, 24, "one", vec![])));
    delivered.extend(engine.on_verdict(verdict(0, 24, "one", vec![])));
    delivered.extend(engine.on_verdict(verdict(24, 50, "two", vec![])));
    assert_eq!(spans_of(&delivered), vec![(0, 24)]);
    let drained = engine.finish();
    assert_eq!(drained, Drained { processed_index: 24, dropped_spans: 1 });
}

#[test]
fn incomplete_span_is_dropped_by_the_aggregator() {
    let arrivals = vec![
        verdict(0, 24, "one", vec![]),
        verdict(0, 24, "one", vec![]),
        verdict(24, 50, "two", vec![]),
    ];
    let out = MaxProcessedIndexAggregator::default().process(2, 0, arrivals);
    assert_eq!(spans_of(&out), vec![(0, 24)]);
}

#[test]
fn clean_verdict_counts_and_completes() {
    let mut tracker: Tracker<Annotation> = Tracker::new(2);
    tracker.record_verdict(verdict(0, 24, "one", vec![annotation(1, 2, "x", "pii", 0.5)]));
    assert_eq!(tracker.reported_count(span(0, 24)), 1);
    assert!(!tracker.is_complete(span(0, 24)));
    tracker.record_verdict(verdict(0, 24, "one", vec![]));
    assert_eq!(tracker.reported_count(span(0, 24)), 2);
    assert!(tracker.is_complete(span(0, 24)));
    assert_eq!(tracker.next_ready(0), Some(span(0, 24)));
    let mut watermark = 0;
    let record = tracker.advance_and_evict(&mut watermark, span(0, 24)).unwrap();
    assert_eq!(record.annotations.len(), 1);
    assert_eq!(record.reported_count, 2);
    assert_eq!(record.text, "one");
    assert_eq!(watermark, 24);
    assert!(tracker.is_empty());
}

#[test]
fn clean_verdicts_alone_release_a_span() {
    let mut engine: Engine<Annotation> = Engine::new(3, 2);
    assert!(engine.on_verdict(verdict(0, 10, "t", vec![])).is_empty());
    assert!(engine.on_verdict(verdict(0, 10, "t", vec![])).is_empty());
    let out = engine.on_verdict(verdict(0, 10, "t", vec![]));
    assert_eq!(out.len(), 1);
    assert!(out[0].annotations.is_empty());
    assert_eq!(out[0].input_token_count, 2);
}

#[test]
fn ordering_is_the_same_for_every_interleaving() {
    let schedule = vec![(0, 24), (24, 50), (50, 51)];
    let a = |s: (u32, u32)| verdict(s.0, s.1, "t", vec![annotation(s.0, s.1, "a", "pii", 0.1)]);
    let b = |s: (u32, u32)| verdict(s.0, s.1, "t", vec![annotation(s.0, s.1, "b", "HAP", 0.2)]);
    let s = &schedule;
    let interleavings = vec![
        vec![a(s[0]), a(s[1]), a(s[2]), b(s[0]), b(s[1]), b(s[2])],
        vec![a(s[0]), b(s[0]), a(s[1]), b(s[1]), a(s[2]), b(s[2])],
        vec![b(s[0]), b(s[1]), b(s[2]), a(s[0]), a(s[1]), a(s[2])],
        vec![a(s[0]), a(s[1]), b(s[0]), a(s[2]), b(s[1]), b(s[2])],
        vec![b(s[0]), a(s[0]), b(s[1]), b(s[2]), a(s[1]), a(s[2])],
    ];
    for arrivals in interleavings {
        let out = MaxProcessedIndexAggregator::default().process(2, 0, arrivals);
        assert_eq!(spans_of(&out), schedule);
        for chunk in &out {
            assert_eq!(chunk.annotations.len(), 2);
        }
    }
}

#[test]
fn completeness_gate_holds_back_incomplete_spans() {
    let arrivals = vec![
        verdict(0, 24, "one", vec![]),
        verdict(24, 50, "two", vec![]),
        verdict(24, 50, "two", vec![]),
        verdict(24, 50, "two", vec![]),
        verdict(0, 24, "one", vec![]),
    ];
    // Three detectors: the first span has two reports only.
    let out = MaxProcessedIndexAggregator::default().process(3, 0, arrivals);
    assert!(out.is_empty());
}

#[test]
fn contiguity_of_emitted_spans() {
    let arrivals = vec![
        verdict(24, 50, "two", vec![]),
        verdict(0, 24, "one", vec![]),
        verdict(50, 80, "three", vec![]),
        verdict(0, 24, "one", vec![]),
        verdict(50, 80, "three", vec![]),
        verdict(24, 50, "two", vec![]),
    ];
    let out = MaxProcessedIndexAggregator::default().process(2, 0, arrivals);
    let spans = spans_of(&out);
    assert_eq!(spans, vec![(0, 24), (24, 50), (50, 80)]);
    assert_eq!(spans[0].0, 0);
    for pair in spans.windows(2) {
        assert_eq!(pair[1].0, pair[0].1);
    }
}

#[test]
fn one_verdict_releases_every_span_that_waited() {
    let mut engine: Engine<Annotation> = Engine::new(1, 0);
    let first = engine.on_verdict(verdict(0, 5, "a", vec![]));
    assert_eq!(spans_of(&first), vec![(0, 5)]);
    assert!(engine.on_verdict(verdict(20, 30, "d", vec![])).is_empty());
    assert!(engine.on_verdict(verdict(10, 20, "c", vec![])).is_empty());
    assert_eq!(engine.pending(), 2);
    let out = engine.on_verdict(verdict(5, 10, "b", vec![]));
    assert_eq!(spans_of(&out), vec![(5, 10), (10, 20), (20, 30)]);
    assert_eq!(engine.watermark(), 30);
    assert_eq!(engine.pending(), 0);
}

#[test]
fn before_the_first_emission_the_earliest_tracked_span_is_the_candidate() {
    // With one detector a span that does not start at 0 is released if it is
    // the earliest that has a verdict.
    let mut engine: Engine<Annotation> = Engine::new(1, 0);
    let out = engine.on_verdict(verdict(24, 50, "two", vec![]));
    assert_eq!(spans_of(&out), vec![(24, 50)]);
    assert_eq!(engine.watermark(), 50);
    // The span before it can no longer be released.
    assert!(engine.on_verdict(verdict(0, 24, "one", vec![])).is_empty());
    assert_eq!(engine.pending(), 1);
}

#[test]
fn phase_follows_the_watermark() {
    let mut engine: Engine<Annotation> = Engine::new(1, 0);
    assert_eq!(engine.phase(), Phase::AwaitingFirstSpan);
    assert_eq!(engine.total_detectors(), 1);
    assert_eq!(engine.input_token_count(), 0);
    engine.on_verdict(verdict(0, 3, "a", vec![]));
    assert_eq!(engine.phase(), Phase::Streaming);
    let drained = engine.finish();
    assert_eq!(drained.processed_index, 3);
    assert_eq!(drained.dropped_spans, 0);
}

#[test]
fn watermark_never_goes_back() {
    let mut engine: Engine<Annotation> = Engine::new(1, 0);
    let mut last = engine.watermark();
    for (start, end) in [(0, 4), (9, 12), (4, 9), (12, 12), (30, 31), (12, 30)] {
        engine.on_verdict(verdict(start, end, "t", vec![]));
        assert!(engine.watermark() >= last);
        last = engine.watermark();
    }
    assert_eq!(last, 31);
}

#[test]
fn admits_until_every_detector_has_reported() {
    let mut engine: Engine<Annotation> = Engine::new(2, 0);
    engine.on_verdict(verdict(0, 24, "one", vec![]));
    assert!(engine.admits(span(24, 50)));
    engine.on_verdict(verdict(24, 50, "two", vec![]));
    assert!(engine.admits(span(24, 50)));
    engine.on_verdict(verdict(24, 50, "two", vec![]));
    assert!(!engine.admits(span(24, 50)));
    assert!(engine.admits(span(0, 24)));
    // Once a span was emitted it is no longer tracked.
    let out = engine.on_verdict(verdict(0, 24, "one", vec![]));
    assert_eq!(out.len(), 2);
    assert!(engine.admits(span(24, 50)));
}

#[test]
fn no_detectors_admit_no_verdict() {
    let engine: Engine<Annotation> = Engine::new(0, 0);
    assert!(!engine.admits(span(0, 24)));
    let out = MaxProcessedIndexAggregator::default().process(0, 0, Vec::<Verdict<Annotation>>::new());
    assert!(out.is_empty());
}

#[test]
fn span_is_a_half_open_range() {
    assert!(Span::new(5, 4).is_none());
    let empty = Span::new(7, 7).unwrap();
    assert!(empty.is_empty());
    assert_eq!(empty.len(), 0);
    let s = span(3, 10);
    assert_eq!(s.start(), 3);
    assert_eq!(s.end(), 10);
    assert_eq!(s.len(), 7);
    assert!(!s.is_empty());
    assert_eq!(s, span(3, 10));
    assert_ne!(s, span(3, 11));
}

#[test]
fn find_first_takes_the_first_span_in_key_order() {
    let mut tracker: Tracker<Annotation> = Tracker::new(1);
    tracker.record_verdict(verdict(24, 60, "long", vec![]));
    tracker.record_verdict(verdict(24, 50, "short", vec![]));
    tracker.record_verdict(verdict(10, 24, "before", vec![]));
    assert_eq!(tracker.len(), 3);
    assert_eq!(tracker.total_detectors(), 1);
    assert_eq!(tracker.find_first(24), Some(span(24, 50)));
    assert_eq!(tracker.find_first(10), Some(span(10, 24)));
    assert_eq!(tracker.find_first(0), None);
    assert_eq!(tracker.earliest(), Some(span(10, 24)));
    assert_eq!(tracker.next_ready(0), Some(span(10, 24)));
    assert_eq!(tracker.next_ready(24), Some(span(24, 50)));
    assert_eq!(tracker.next_ready(50), None);
}

#[test]
fn next_ready_is_none_while_the_candidate_is_incomplete() {
    let mut tracker: Tracker<Annotation> = Tracker::new(2);
    assert_eq!(tracker.next_ready(0), None);
    assert_eq!(tracker.earliest(), None);
    tracker.record_verdict(verdict(0, 24, "one", vec![]));
    tracker.record_verdict(verdict(24, 50, "two", vec![]));
    tracker.record_verdict(verdict(24, 50, "two", vec![]));
    assert_eq!(tracker.next_ready(0), None);
    assert_eq!(tracker.next_ready(24), Some(span(24, 50)));
    assert_eq!(tracker.reported_count(span(0, 24)), 1);
    assert_eq!(tracker.reported_count(span(24, 50)), 2);
    assert_eq!(tracker.reported_count(span(50, 60)), 0);
}

#[test]
fn advance_and_evict_of_an_untracked_span_moves_the_watermark_only() {
    let mut tracker: Tracker<Annotation> = Tracker::new(1);
    tracker.record_verdict(verdict(0, 24, "one", vec![]));
    let mut watermark = 0;
    assert!(tracker.advance_and_evict(&mut watermark, span(24, 50)).is_none());
    assert_eq!(watermark, 50);
    assert_eq!(tracker.len(), 1);
}

#[test]
fn merged_annotations_keep_the_order_of_arrival() {
    let x = annotation(0, 1, "x", "pii", 0.25);
    let y = annotation(1, 2, "y", "pii", 0.5);
    let z = annotation(2, 3, "z", "HAP", 1.0);
    let mut engine: Engine<Annotation> = Engine::new(3, 0);
    engine.on_verdict(verdict(0, 3, "first text", vec![x.clone(), y.clone()]));
    engine.on_verdict(verdict(0, 3, "ignored", vec![]));
    let out = engine.on_verdict(verdict(0, 3, "ignored too", vec![z.clone()]));
    assert_eq!(out.len(), 1);
    assert_eq!(out[0].generated_text, "first text");
    assert_eq!(out[0].annotations, vec![x, y, z]);
}

/// Every order in which the verdicts of `detectors` detectors on `schedule`
/// can arrive.
fn arrival_orders(schedule: &[(u32, u32)], detectors: usize) -> Vec<Vec<(u32, u32)>> {
    fn extend(
        left: &mut Vec<((u32, u32), usize)>,
        order: &mut Vec<(u32, u32)>,
        orders: &mut Vec<Vec<(u32, u32)>>,
    ) {
        if left.iter().all(|(_, n)| *n == 0) {
            orders.push(order.clone());
            return;
        }
        for i in 0..left.len() {
            if left[i].1 > 0 {
                left[i].1 -= 1;
                order.push(left[i].0);
                extend(left, order, orders);
                order.pop();
                left[i].1 += 1;
            }
        }
    }
    let mut left: Vec<((u32, u32), usize)> = schedule.iter().map(|s| (*s, detectors)).collect();
    let mut orders = Vec::new();
    extend(&mut left, &mut Vec::new(), &mut orders);
    orders
}

/// Whether, at some moment, the earliest span that has a verdict starts
/// after 0 and has a verdict from every detector.
fn head_is_overtaken(order: &[(u32, u32)], detectors: usize) -> bool {
    for n in 1..=order.len() {
        let earliest = order[..n].iter().min().unwrap();
        let reports = order[..n].iter().filter(|s| *s == earliest).count();
        if earliest.0 != 0 && reports == detectors {
            return true;
        }
    }
    false
}

#[test]
fn every_guarded_arrival_order_emits_the_schedule() {
    let schedule = vec![(0, 24), (24, 50), (50, 51)];
    let orders = arrival_orders(&schedule, 2);
    assert_eq!(orders.len(), 90);
    let mut guarded = 0;
    for order in orders {
        let arrivals: Vec<Verdict<Annotation>> =
            order.iter().map(|s| verdict(s.0, s.1, "t", vec![])).collect();
        let out = MaxProcessedIndexAggregator::default().process(2, 0, arrivals);
        if head_is_overtaken(&order, 2) {
            // A span that starts after 0 went out first.
            assert_ne!(spans_of(&out), schedule);
            assert_ne!(out[0].start_index, 0);
        } else {
            guarded += 1;
            assert_eq!(spans_of(&out), schedule);
        }
    }
    assert_eq!(guarded, 70);
}

#[test]
fn every_arrival_order_of_one_detector_that_starts_at_zero_emits_the_schedule() {
    let schedule = vec![(0, 3), (3, 4), (4, 9), (9, 20)];
    let orders = arrival_orders(&schedule, 1);
    assert_eq!(orders.len(), 24);
    for order in orders {
        let arrivals: Vec<Verdict<Annotation>> =
            order.iter().map(|s| verdict(s.0, s.1, "t", vec![])).collect();
        let out = MaxProcessedIndexAggregator::default().process(1, 0, arrivals);
        if order[0] == (0, 3) {
            assert_eq!(spans_of(&out), schedule);
        } else {
            assert_eq!(out[0].start_index, order[0].0);
        }
    }
}

#[test]
fn try_on_verdict_hands_back_what_is_not_admitted() {
    let mut engine: Engine<Annotation> = Engine::new(1, 0);
    assert!(engine.try_on_verdict(verdict(5, 9, "later", vec![])).unwrap().len() == 1);
    // The watermark is at 9 now; a span that starts at 20 waits.
    assert!(engine.try_on_verdict(verdict(20, 30, "far", vec![])).unwrap().is_empty());
    let refused = engine.try_on_verdict(verdict(20, 30, "again", vec![])).unwrap_err();
    assert_eq!(refused.chunk_text, "again");
    assert_eq!(refused.span, span(20, 30));
    assert_eq!(engine.pending(), 1);
    assert_eq!(engine.watermark(), 9);
    assert_eq!(engine.tracker().reported_count(span(20, 30)), 1);
    assert_eq!(engine.tracker().get(span(20, 30)).unwrap().text, "far");
    assert!(engine.tracker().get(span(5, 9)).is_none());
}

#[test]
fn lookups_in_an_empty_tracker_find_nothing() {
    let tracker: Tracker<Annotation> = Tracker::new(2);
    assert_eq!(tracker.earliest(), None);
    assert_eq!(tracker.find_first(0), None);
    assert_eq!(tracker.find_first(24), None);
    assert_eq!(tracker.len(), 0);
}
