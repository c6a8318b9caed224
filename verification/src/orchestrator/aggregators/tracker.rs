//! The span tracker: per span, the verdicts merged so far and the number of
//! detectors that have reported.

use std::collections::BTreeMap;
use vstd::prelude::*;
use super::keys::{earliest_key, first_key_at};
use super::model::{RecordModel, TrackerModel, VerdictModel};
use super::span::{Span, SpanKey};

verus! {

/// One detector's report for one span: the chunk's text and the annotations
/// that the detector made on it. An empty list is a clean verdict, and counts
/// as a report like any other.
#[derive(Clone, Debug, PartialEq)]
pub struct Verdict<A> {
    pub span: Span,
    pub chunk_text: String,
    pub annotations: Vec<A>,
}

impl<A> View for Verdict<A> {
    type V = VerdictModel<A>;

    open spec fn view(&self) -> VerdictModel<A> {
        VerdictModel {
            span: self.span.key(),
            chunk_text: self.chunk_text@,
            annotations: self.annotations@,
        }
    }
}

/// The tracker's cell for one span.
#[derive(Clone, Debug, PartialEq)]
pub struct SpanRecord<A> {
    pub text: String,
    pub annotations: Vec<A>,
    pub reported_count: usize,
}

impl<A> View for SpanRecord<A> {
    type V = RecordModel<A>;

    open spec fn view(&self) -> RecordModel<A> {
        RecordModel {
            text: self.text@,
            annotations: self.annotations@,
            reported_count: self.reported_count as nat,
        }
    }
}

/// Every span that has a verdict and was not evicted, ordered by
/// `(start, end)`.
pub struct Tracker<A> {
    records: BTreeMap<SpanKey, SpanRecord<A>>,
    total_detectors: usize,
}

/// The records of an ordered map, each by its view.
pub open spec fn record_views<A>(m: Map<SpanKey, SpanRecord<A>>) -> Map<SpanKey, RecordModel<A>> {
    Map::new(|k: SpanKey| m.contains_key(k), |k: SpanKey| m[k]@)
}

impl<A> View for Tracker<A> {
    type V = TrackerModel<A>;

    closed spec fn view(&self) -> TrackerModel<A> {
        TrackerModel {
            records: record_views(self.records@),
            total_detectors: self.total_detectors as nat,
        }
    }
}

/// The views of the records are kept under the keys of the records.
proof fn lemma_record_views<A>(m: Map<SpanKey, SpanRecord<A>>)
    ensures
        record_views(m).dom() == m.dom(),
        forall|k: SpanKey| m.contains_key(k) ==> #[trigger] record_views(m)[k] == m[k]@,
{
    assert(record_views(m).dom() =~= m.dom());
}

impl<A> Tracker<A> {
    /// A tracker without records, for `total_detectors` detectors.
    pub fn new(total_detectors: usize) -> (r: Self)
        ensures
            r@ == TrackerModel::<A>::empty(total_detectors as nat),
            r@.wf(),
    {
        let r = Tracker { records: BTreeMap::new(), total_detectors };
        proof {
            assert(record_views(r.records@) =~= Map::<SpanKey, RecordModel<A>>::empty());
        }
        r
    }

    /// Number of detectors configured for the request.
    pub fn total_detectors(&self) -> (r: usize)
        ensures
            r == self@.total_detectors,
    {
        self.total_detectors
    }

    /// Number of spans that are tracked.
    pub fn len(&self) -> (r: usize)
        ensures
            r == self@.records.dom().len(),
    {
        broadcast use vstd::laws_cmp::group_laws_cmp;
        broadcast use vstd::std_specs::btree::group_btree_axioms;

        proof {
            lemma_record_views(self.records@);
        }
        self.records.len()
    }

    /// Whether no span is tracked.
    pub fn is_empty(&self) -> (r: bool)
        ensures
            r == (self@.records.dom().len() == 0),
    {
        self.len() == 0
    }

    /// Number of detectors that have reported on `span`; 0 for a span that is
    /// not tracked.
    pub fn reported_count(&self, span: Span) -> (r: usize)
        ensures
            r == self@.reported(span.key()),
    {
        broadcast use vstd::laws_cmp::group_laws_cmp;
        broadcast use vstd::std_specs::btree::group_btree_axioms;

        proof {
            lemma_record_views(self.records@);
        }
        let key: SpanKey = (span.start(), span.end());
        match self.records.get(&key) {
            Some(record) => record.reported_count,
            None => 0,
        }
    }

    /// The record of `span`, where `span` is tracked.
    pub fn get(&self, span: Span) -> (r: Option<&SpanRecord<A>>)
        ensures
            match r {
                Some(record) => self@.records.contains_key(span.key()) && record@
                    == self@.records[span.key()],
                None => !self@.records.contains_key(span.key()),
            },
    {
        broadcast use vstd::laws_cmp::group_laws_cmp;
        broadcast use vstd::std_specs::btree::group_btree_axioms;

        proof {
            lemma_record_views(self.records@);
        }
        let key: SpanKey = (span.start(), span.end());
        self.records.get(&key)
    }

    /// Whether every detector has reported on `span`.
    pub fn is_complete(&self, span: Span) -> (r: bool)
        requires
            self@.wf(),
        ensures
            r == self@.is_complete(span.key()),
    {
        let reported = self.reported_count(span);
        reported > 0 && reported == self.total_detectors
    }

    /// Merges `verdict` into the record of its span. An unseen span gets a
    /// record seeded from the verdict, with one report; a span that is
    /// tracked gets the verdict's annotations appended to its own and one
    /// more report. A verdict without annotations counts like any other.
    ///
    /// A detector reports once on a span: a verdict for a span on which
    /// every detector has reported already is the caller's error.
    pub fn record_verdict(&mut self, verdict: Verdict<A>)
        requires
            old(self)@.wf(),
            old(self)@.reported(verdict@.span) < old(self)@.total_detectors,
        ensures
            final(self)@ == old(self)@.record(verdict@),
            final(self)@.reported(verdict@.span) == old(self)@.reported(verdict@.span) + 1,
            final(self)@.wf(),
    {
        broadcast use vstd::laws_cmp::group_laws_cmp;
        broadcast use vstd::std_specs::btree::group_btree_axioms;

        proof {
            lemma_record_views(self.records@);
        }
        let ghost before = self.records@;
        let ghost model = self@;
        let ghost v = verdict@;
        let Verdict { span, chunk_text, annotations } = verdict;
        let key: SpanKey = (span.start(), span.end());
        let mut annotations = annotations;
        let record = match self.records.remove(&key) {
            Some(mut record) => {
                record.annotations.append(&mut annotations);
                record.reported_count = record.reported_count + 1;
                record
            },
            None => SpanRecord { text: chunk_text, annotations, reported_count: 1 },
        };
        assert(record@ == model.merged(v));
        proof {
            lemma_record_views(before.remove(key).insert(key, record));
            assert(record_views(before.remove(key).insert(key, record)) =~= model.record(
                v,
            ).records);
        }
        self.records.insert(key, record);
    }

    /// The first tracked span, in the order of `(start, end)`, that starts at
    /// `start`.
    pub fn find_first(&self, start: u32) -> (r: Option<Span>)
        requires
            self@.wf(),
        ensures
            match r {
                Some(span) => self@.is_first_at(start, span.key()),
                None => {
                    &&& forall|k: SpanKey| !self@.is_first_at(start, k)
                    &&& forall|k: SpanKey| self@.records.contains_key(k) ==> k.0 != start
                },
            },
    {
        proof {
            lemma_record_views(self.records@);
        }
        match first_key_at(&self.records, start) {
            Some(k) => Span::new(k.0, k.1),
            None => None,
        }
    }

    /// The tracked span that is lexicographically first.
    pub fn earliest(&self) -> (r: Option<Span>)
        requires
            self@.wf(),
        ensures
            match r {
                Some(span) => self@.is_earliest(span.key()),
                None => {
                    &&& forall|k: SpanKey| !self@.is_earliest(k)
                    &&& forall|k: SpanKey| !self@.records.contains_key(k)
                    &&& self@.records.dom().len() == 0
                },
            },
    {
        proof {
            lemma_record_views(self.records@);
        }
        match earliest_key(&self.records) {
            Some(k) => Span::new(k.0, k.1),
            None => {
                assert(self@.records.dom() =~= Set::<SpanKey>::empty());
                None
            },
        }
    }

    /// The span to emit next, if one is ready. With `watermark == 0` the
    /// candidate is the earliest tracked span; otherwise it is the tracked
    /// span that starts at `watermark`. The candidate is ready once every
    /// detector has reported on it: a span is never handed out ahead of its
    /// turn, and never before it is complete.
    pub fn next_ready(&self, watermark: u32) -> (r: Option<Span>)
        requires
            self@.wf(),
        ensures
            match r {
                Some(span) => self@.next_ready(watermark) == Some(span.key()),
                None => self@.next_ready(watermark) is None,
            },
            r matches Some(span) ==> {
                &&& self@.is_candidate(watermark, span.key())
                &&& self@.is_complete(span.key())
                &&& watermark != 0 ==> span.key().0 == watermark
            },
    {
        let candidate = if watermark == 0 {
            self.earliest()
        } else {
            self.find_first(watermark)
        };
        proof {
            self@.lemma_candidate_unique(watermark);
        }
        match candidate {
            Some(span) => {
                assert(self@.is_candidate(watermark, span.key()));
                if self.is_complete(span) {
                    Some(span)
                } else {
                    None
                }
            },
            None => {
                assert(forall|k: SpanKey| !self@.is_candidate(watermark, k));
                None
            },
        }
    }

    /// Sets the watermark to the end of `span` and removes the record of
    /// `span` from the tracker. Returns the record, or `None` where `span`
    /// was not tracked.
    pub fn advance_and_evict(&mut self, watermark: &mut u32, span: Span) -> (r: Option<
        SpanRecord<A>,
    >)
        requires
            old(self)@.wf(),
        ensures
            final(self)@ == old(self)@.evict(span.key()),
            final(self)@.wf(),
            *final(watermark) == span.key().1,
            match r {
                Some(record) => old(self)@.records.contains_key(span.key()) && record@ == old(
                    self,
                )@.records[span.key()],
                None => !old(self)@.records.contains_key(span.key()),
            },
    {
        broadcast use vstd::laws_cmp::group_laws_cmp;
        broadcast use vstd::std_specs::btree::group_btree_axioms;

        proof {
            lemma_record_views(self.records@);
        }
        let ghost before = self.records@;
        let key: SpanKey = (span.start(), span.end());
        *watermark = key.1;
        let r = self.records.remove(&key);
        proof {
            lemma_record_views(before.remove(key));
            assert(record_views(before.remove(key)) =~= old(self)@.evict(key).records);
        }
        r
    }
}

} // verus!
