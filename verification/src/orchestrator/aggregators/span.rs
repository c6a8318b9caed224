use vstd::prelude::*;

verus! {

/// Key under which a span is tracked: `(start, end)`.
pub type SpanKey = (u32, u32);

/// Strict lexicographic order on span keys: by start, then by end.
pub open spec fn span_lt(a: SpanKey, b: SpanKey) -> bool {
    a.0 < b.0 || (a.0 == b.0 && a.1 < b.1)
}

/// Lexicographic order on span keys.
pub open spec fn span_le(a: SpanKey, b: SpanKey) -> bool {
    a == b || span_lt(a, b)
}

/// Half-open range `[start, end)` of token indices. It identifies one unit of
/// generated text that is submitted to every detector.
///
/// A span never ends before it starts: `new` is the only way to make one.
#[derive(Clone, Copy, Debug, PartialEq, Eq, Structural)]
pub struct Span {
    start: u32,
    end: u32,
}

impl Span {
    #[verifier::type_invariant]
    closed spec fn ordered(self) -> bool {
        self.start <= self.end
    }

    /// The pair `(start, end)` that stands for this span in the model.
    pub closed spec fn key(self) -> SpanKey {
        (self.start, self.end)
    }

    /// The span `[start, end)`, or `None` where `end < start`.
    pub fn new(start: u32, end: u32) -> (r: Option<Span>)
        ensures
            match r {
                Some(s) => start <= end && s.key() == (start, end),
                None => start > end,
            },
    {
        if start <= end {
            Some(Span { start, end })
        } else {
            None
        }
    }

    /// First token index of the span.
    pub fn start(&self) -> (r: u32)
        ensures
            r == self.key().0,
            r <= self.key().1,
    {
        proof {
            use_type_invariant(self);
        }
        self.start
    }

    /// Token index one past the last token of the span.
    pub fn end(&self) -> (r: u32)
        ensures
            r == self.key().1,
            self.key().0 <= r,
    {
        proof {
            use_type_invariant(self);
        }
        self.end
    }

    /// Number of tokens in the span.
    pub fn len(&self) -> (r: u32)
        ensures
            r == self.key().1 - self.key().0,
    {
        proof {
            use_type_invariant(self);
        }
        self.end - self.start
    }

    /// Whether the span holds no token.
    pub fn is_empty(&self) -> (r: bool)
        ensures
            r == (self.key().0 == self.key().1),
    {
        self.start == self.end
    }
}

} // verus!
