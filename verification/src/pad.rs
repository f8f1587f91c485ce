//! Padding/window combinator.
//!
//! A [`Padding`] is a conceptually infinite sequence that yields one filler
//! value at every position of the index domain `0..`. Applying a window
//! ([`Padding::get`]) bounds the positions that are emitted; overlaying a
//! source ([`Padding::load`], [`PadBounded::load`]) makes source items take
//! precedence over the filler, one item per populated position.

use vstd::prelude::*;

verus! {

/// One edge of an index window over the domain `0..`: absent, inclusive or
/// exclusive.
#[derive(Clone, Copy, PartialEq, Eq, Structural, Debug)]
pub enum IdxBound {
    Unbounded,
    Included(usize),
    Excluded(usize),
}

/// An index window: the set of positions of the conceptual infinite padded
/// stream that are active. A window whose start lies after its end is not an
/// error; it is simply empty.
#[derive(Clone, Copy, PartialEq, Eq, Structural, Debug)]
pub struct IdxRange {
    pub start: IdxBound,
    pub end: IdxBound,
}

impl IdxRange {
    /// The first index of the window's domain; the cursor of a bounded
    /// sequence starts here, not at zero.
    pub open spec fn first(self) -> int {
        match self.start {
            IdxBound::Unbounded => 0,
            IdxBound::Included(s) => s as int,
            IdxBound::Excluded(s) => s as int + 1,
        }
    }

    /// Whether the window's end edge is bounded, so that a full drain
    /// terminates.
    pub open spec fn end_bounded(self) -> bool {
        !(self.end is Unbounded)
    }

    /// The first index past the window, meaningful when the end is bounded.
    pub open spec fn end_limit(self) -> int {
        match self.end {
            IdxBound::Unbounded => 0,
            IdxBound::Included(e) => e as int + 1,
            IdxBound::Excluded(e) => e as int,
        }
    }

    /// Whether index `i` lies inside the window.
    pub open spec fn contains_spec(self, i: int) -> bool {
        &&& match self.start {
            IdxBound::Unbounded => true,
            IdxBound::Included(s) => i >= s,
            IdxBound::Excluded(s) => i > s,
        }
        &&& match self.end {
            IdxBound::Unbounded => true,
            IdxBound::Included(e) => i <= e,
            IdxBound::Excluded(e) => i < e,
        }
    }

    /// How many positions a bounded window still holds from cursor `c` on.
    pub open spec fn count_from(self, c: int) -> nat
        recommends
            self.end_bounded(),
    {
        if self.contains_spec(c) {
            (self.end_limit() - c) as nat
        } else {
            0
        }
    }

    /// The total number of positions of a bounded window.
    pub open spec fn size(self) -> nat
        recommends
            self.end_bounded(),
    {
        self.count_from(self.first())
    }

    /// Builds a window from its two edges.
    pub fn new(start: IdxBound, end: IdxBound) -> (r: IdxRange)
        ensures
            r == (IdxRange { start, end }),
    {
        IdxRange { start, end }
    }

    /// The window `a..=b`: both edges inclusive.
    pub fn inclusive(a: usize, b: usize) -> (r: IdxRange)
        ensures
            r == (IdxRange { start: IdxBound::Included(a), end: IdxBound::Included(b) }),
    {
        IdxRange { start: IdxBound::Included(a), end: IdxBound::Included(b) }
    }

    /// Tests window membership of index `i`.
    pub fn contains(&self, i: usize) -> (r: bool)
        ensures
            r == self.contains_spec(i as int),
    {
        let start_ok = match self.start {
            IdxBound::Unbounded => true,
            IdxBound::Included(s) => i >= s,
            IdxBound::Excluded(s) => i > s,
        };
        let end_ok = match self.end {
            IdxBound::Unbounded => true,
            IdxBound::Included(e) => i <= e,
            IdxBound::Excluded(e) => i < e,
        };
        start_ok && end_ok
    }
}

/// The sequence a window emits when source `src` is overlaid on filler
/// `filler` for `n` populated positions: source items first, in order, then
/// filler for every remaining position.
pub open spec fn padded_seq<D>(filler: D, src: Seq<D>, n: nat) -> Seq<D> {
    Seq::new(n, |i: int| if i < src.len() { src[i] } else { filler })
}

/// A finite source sequence of payload values, consumed left to right,
/// at most once.
pub struct Source<D> {
    items: Vec<D>,
    pos: usize,
}

impl<D: Copy> View for Source<D> {
    type V = Seq<D>;

    /// The items the source still holds.
    closed spec fn view(&self) -> Seq<D> {
        self.items@.skip(self.pos as int)
    }
}

impl<D: Copy> Source<D> {
    /// The consumption position never runs past the underlying items.
    pub closed spec fn wf(self) -> bool {
        self.pos <= self.items.len()
    }

    /// Wraps a vector of payload values as a fresh source.
    pub fn new(items: Vec<D>) -> (r: Source<D>)
        ensures
            r.wf(),
            r@ == items@,
    {
        let r = Source { items, pos: 0 };
        proof {
            assert(r@ =~= r.items@);
        }
        r
    }

    /// Hands out the next payload value, if one is left.
    pub fn next(&mut self) -> (r: Option<D>)
        requires
            old(self).wf(),
        ensures
            final(self).wf(),
            old(self)@.len() == 0 ==> r is None && final(self)@ == old(self)@,
            old(self)@.len() > 0 ==> r == Some(old(self)@[0]) && final(self)@ == old(
                self,
            )@.drop_first(),
    {
        if self.pos < self.items.len() {
            let v = self.items[self.pos];
            self.pos = self.pos + 1;
            proof {
                assert(self@ =~= old(self)@.drop_first());
            }
            Some(v)
        } else {
            None
        }
    }
}

/// The unbounded filler sequence: every position of `0..` yields one
/// independent copy of the filler datum.
pub struct Padding<D> {
    data: D,
}

impl<D: Copy> Padding<D> {
    /// Builds the infinite filler sequence over datum `pad`.
    pub fn new(pad: D) -> (r: Padding<D>)
        ensures
            r.data() == pad,
    {
        Padding { data: pad }
    }

    /// The filler datum, for contracts.
    pub closed spec fn spec_data(&self) -> D {
        self.data
    }

    /// The filler datum.
    #[verifier::when_used_as_spec(spec_data)]
    pub fn data(&self) -> (r: D)
        ensures
            r == self.spec_data(),
    {
        self.data
    }

    /// Yields the next position's value: always the filler.
    pub fn next(&mut self) -> (r: Option<D>)
        ensures
            r == Some(old(self).data()),
            final(self).data() == old(self).data(),
    {
        Some(self.data)
    }

    /// Drains `n` positions: the filler, `n` times over.
    pub fn take(self, n: usize) -> (r: Vec<D>)
        ensures
            r@ == Seq::new(n as nat, |i: int| self.data()),
    {
        let mut out: Vec<D> = Vec::new();
        let mut k: usize = 0;
        while k < n
            invariant
                k <= n,
                out@ =~= Seq::new(k as nat, |i: int| self.data()),
            decreases n - k,
        {
            out.push(self.data);
            k = k + 1;
            proof {
                assert(out@ =~= Seq::new(k as nat, |i: int| self.data()));
            }
        }
        out
    }

    /// Bounds the filler sequence to window `range`.
    pub fn get(self, range: IdxRange) -> (r: PadBounded<D>)
        ensures
            r.data() == self.data(),
            r.range() == range,
    {
        PadBounded { range, data: self.data }
    }

    /// Overlays source `src` on the filler sequence: source items take
    /// precedence at each position until the source is exhausted.
    pub fn load(self, src: Source<D>) -> (r: PadLoaded<D>)
        requires
            src.wf(),
        ensures
            r.wf(),
            r.data() == self.data(),
            r.src() == src@,
    {
        PadLoaded { load: src, data: self.data }
    }
}

/// A filler sequence bounded to a window: in-range positions yield the
/// filler, and iteration terminates once the cursor leaves the window.
pub struct PadBounded<D> {
    range: IdxRange,
    data: D,
}

impl<D: Copy> PadBounded<D> {
    /// The filler datum.
    pub closed spec fn data(self) -> D {
        self.data
    }

    /// The window.
    pub closed spec fn range(self) -> IdxRange {
        self.range
    }

    /// Overlays source `src` on the bounded filler sequence.
    pub fn load(self, src: Source<D>) -> (r: PadBoundedLoad<D>)
        requires
            src.wf(),
        ensures
            r.wf(),
            r.data() == self.data(),
            r.range() == self.range(),
            r.src() == src@,
    {
        PadBoundedLoad { load: src, data: self.data, range: self.range }
    }

    /// Starts iteration: the cursor begins at the window's first index.
    pub fn into_iter(self) -> (r: PadBoundedIter<D>)
        ensures
            r.data() == self.data(),
            r.range() == self.range(),
            r.cur() == self.range().first(),
    {
        let (cursor, overflowed): (usize, bool) = match self.range.start {
            IdxBound::Unbounded => (0, false),
            IdxBound::Included(s) => (s, false),
            IdxBound::Excluded(s) => {
                if s == usize::MAX {
                    (usize::MAX, true)
                } else {
                    (s + 1, false)
                }
            },
        };
        PadBoundedIter { data: self.data, range: self.range, cursor, overflowed }
    }
}

/// Iterator over a bounded filler sequence.
pub struct PadBoundedIter<D> {
    data: D,
    range: IdxRange,
    cursor: usize,
    overflowed: bool,
}

impl<D: Copy> PadBoundedIter<D> {
    /// The filler datum.
    pub closed spec fn data(self) -> D {
        self.data
    }

    /// The window.
    pub closed spec fn range(self) -> IdxRange {
        self.range
    }

    /// The cursor: the next position to examine. It can stand one past
    /// `usize::MAX` after a drain that reached the top of the index domain.
    pub closed spec fn cur(self) -> int {
        if self.overflowed {
            usize::MAX as int + 1
        } else {
            self.cursor as int
        }
    }

    /// Yields the filler while the cursor is in the window; terminates
    /// definitively at the first out-of-window cursor.
    pub fn next(&mut self) -> (r: Option<D>)
        requires
            old(self).cur() <= usize::MAX || old(self).range().end_bounded(),
        ensures
            final(self).data() == old(self).data(),
            final(self).range() == old(self).range(),
            old(self).range().contains_spec(old(self).cur()) ==> r == Some(old(self).data())
                && final(self).cur() == old(self).cur() + 1,
            !old(self).range().contains_spec(old(self).cur()) ==> r is None && final(self).cur()
                == old(self).cur(),
    {
        if self.overflowed {
            // The cursor stands past every representable index; a bounded
            // end lies at or below usize::MAX, so the window is behind us.
            return None;
        }
        if self.range.contains(self.cursor) {
            let v = self.data;
            if self.cursor == usize::MAX {
                self.overflowed = true;
            } else {
                self.cursor = self.cursor + 1;
            }
            Some(v)
        } else {
            None
        }
    }

    /// Drains the iterator to the end of a bounded window: each remaining
    /// in-window position yields the filler, then iteration stops.
    pub fn collect(self) -> (r: Vec<D>)
        requires
            self.range().end_bounded(),
        ensures
            r@ == Seq::new(self.range().count_from(self.cur()), |i: int| self.data()),
    {
        let mut it = self;
        let mut out: Vec<D> = Vec::new();
        let ghost c0 = it.cur();
        loop
            invariant
                it.range().end_bounded(),
                it.range() == self.range(),
                it.data() == self.data(),
                c0 == self.cur(),
                it.cur() == c0 + out@.len(),
                out@ =~= Seq::new(out@.len() as nat, |i: int| self.data()),
                out@.len() <= self.range().count_from(c0),
                out@.len() < self.range().count_from(c0) ==> it.range().contains_spec(it.cur())
                    || !it.range().contains_spec(c0),
                !it.range().contains_spec(c0) ==> out@.len() == 0,
            ensures
                out@ =~= Seq::new(out@.len() as nat, |i: int| self.data()),
                out@.len() == self.range().count_from(c0),
            decreases self.range().end_limit() - it.cur() + 1,
        {
            match it.next() {
                Some(v) => {
                    out.push(v);
                },
                None => {
                    break;
                },
            }
        }
        out
    }
}

/// The unbounded merged sequence: at every position, the next source item if
/// one is left, else the filler. Infinite either way.
pub struct PadLoaded<D> {
    load: Source<D>,
    data: D,
}

impl<D: Copy> PadLoaded<D> {
    /// The filler datum.
    pub closed spec fn data(self) -> D {
        self.data
    }

    /// The payload values the source still holds.
    pub closed spec fn src(self) -> Seq<D> {
        self.load@
    }

    /// The source's consumption position stays in step.
    pub closed spec fn wf(self) -> bool {
        self.load.wf()
    }

    /// Yields the next position's value: the next source item if the source
    /// still has one, else the filler.
    pub fn next(&mut self) -> (r: Option<D>)
        requires
            old(self).wf(),
        ensures
            final(self).wf(),
            final(self).data() == old(self).data(),
            old(self).src().len() > 0 ==> r == Some(old(self).src()[0]) && final(self).src()
                == old(self).src().drop_first(),
            old(self).src().len() == 0 ==> r == Some(old(self).data()) && final(self).src() == old(
                self,
            ).src(),
    {
        let current_value = self.load.next();
        if current_value.is_none() {
            Some(self.data)
        } else {
            current_value
        }
    }

    /// Drains `n` positions: the source's items in order, then filler for
    /// every remaining position.
    pub fn take(self, n: usize) -> (r: Vec<D>)
        requires
            self.wf(),
        ensures
            r@ == padded_seq(self.data(), self.src(), n as nat),
    {
        let mut me = self;
        let mut out: Vec<D> = Vec::new();
        let mut k: usize = 0;
        while k < n
            invariant
                k <= n,
                me.wf(),
                me.data() == self.data(),
                out@ =~= padded_seq(self.data(), self.src(), k as nat),
                me.src() == if k <= self.src().len() {
                    self.src().skip(k as int)
                } else {
                    Seq::<D>::empty()
                },
            decreases n - k,
        {
            let v = match me.next() {
                Some(v) => v,
                None => me.data,
            };
            out.push(v);
            k = k + 1;
            proof {
                assert(out@ =~= padded_seq(self.data(), self.src(), k as nat));
                if k <= self.src().len() {
                    assert(me.src() =~= self.src().skip(k as int));
                } else {
                    assert(me.src() =~= Seq::<D>::empty());
                }
            }
        }
        out
    }

}

/// The bounded merged sequence: window membership is tested first at each
/// step; only an in-window position consumes from the source, and an
/// out-of-window cursor terminates the sequence without touching the source.
pub struct PadBoundedLoad<D> {
    data: D,
    range: IdxRange,
    load: Source<D>,
}

impl<D: Copy> PadBoundedLoad<D> {
    /// The filler datum.
    pub closed spec fn data(self) -> D {
        self.data
    }

    /// The window.
    pub closed spec fn range(self) -> IdxRange {
        self.range
    }

    /// The payload values the source still holds.
    pub closed spec fn src(self) -> Seq<D> {
        self.load@
    }

    /// The source's consumption position stays in step.
    pub closed spec fn wf(self) -> bool {
        self.load.wf()
    }

    /// Starts iteration: the cursor begins at the window's first index.
    pub fn into_iter(self) -> (r: PadBoundedLoadIter<D>)
        requires
            self.wf(),
        ensures
            r.wf(),
            r.data() == self.data(),
            r.range() == self.range(),
            r.src() == self.src(),
            r.cur() == self.range().first(),
    {
        let (cursor, overflowed): (usize, bool) = match self.range.start {
            IdxBound::Unbounded => (0, false),
            IdxBound::Included(s) => (s, false),
            IdxBound::Excluded(s) => {
                if s == usize::MAX {
                    (usize::MAX, true)
                } else {
                    (s + 1, false)
                }
            },
        };
        PadBoundedLoadIter { data: self.data, load: self.load, range: self.range, cursor, overflowed }
    }
}

/// Iterator over a bounded merged sequence.
pub struct PadBoundedLoadIter<D> {
    data: D,
    load: Source<D>,
    range: IdxRange,
    cursor: usize,
    overflowed: bool,
}

impl<D: Copy> PadBoundedLoadIter<D> {
    /// The filler datum.
    pub closed spec fn data(self) -> D {
        self.data
    }

    /// The window.
    pub closed spec fn range(self) -> IdxRange {
        self.range
    }

    /// The payload values the source still holds.
    pub closed spec fn src(self) -> Seq<D> {
        self.load@
    }

    /// The cursor: the next position to examine. It can stand one past
    /// `usize::MAX` after a drain that reached the top of the index domain.
    pub closed spec fn cur(self) -> int {
        if self.overflowed {
            usize::MAX as int + 1
        } else {
            self.cursor as int
        }
    }

    /// The source's consumption position stays in step.
    pub closed spec fn wf(self) -> bool {
        self.load.wf()
    }

    /// One step of the window's state machine: an out-of-window cursor
    /// terminates without consuming the source; an in-window position yields
    /// the next source item if one is left, else the filler.
    pub fn next(&mut self) -> (r: Option<D>)
        requires
            old(self).wf(),
            old(self).cur() <= usize::MAX || old(self).range().end_bounded(),
        ensures
            final(self).wf(),
            final(self).data() == old(self).data(),
            final(self).range() == old(self).range(),
            !old(self).range().contains_spec(old(self).cur()) ==> r is None && final(self).cur()
                == old(self).cur() && final(self).src() == old(self).src(),
            old(self).range().contains_spec(old(self).cur()) && old(self).src().len() > 0 ==> r
                == Some(old(self).src()[0]) && final(self).src() == old(self).src().drop_first()
                && final(self).cur() == old(self).cur() + 1,
            old(self).range().contains_spec(old(self).cur()) && old(self).src().len() == 0 ==> r
                == Some(old(self).data()) && final(self).src() == old(self).src()
                && final(self).cur() == old(self).cur() + 1,
    {
        if self.overflowed {
            // The cursor stands past every representable index; a bounded
            // end lies at or below usize::MAX, so the window is behind us.
            return None;
        }
        if !self.range.contains(self.cursor) {
            return None;
        }
        let current_value = self.load.next();
        if self.cursor == usize::MAX {
            self.overflowed = true;
        } else {
            self.cursor = self.cursor + 1;
        }
        match current_value {
            Some(v) => Some(v),
            None => Some(self.data),
        }
    }

    /// Drains the iterator to the end of a bounded window: remaining source
    /// items first, in order, then filler for every remaining in-window
    /// position, then nothing.
    pub fn collect(self) -> (r: Vec<D>)
        requires
            self.wf(),
            self.range().end_bounded(),
        ensures
            r@ == padded_seq(self.data(), self.src(), self.range().count_from(self.cur())),
    {
        let mut it = self;
        let mut out: Vec<D> = Vec::new();
        let ghost c0 = it.cur();
        let ghost s0 = it.src();
        loop
            invariant
                it.wf(),
                it.range().end_bounded(),
                it.range() == self.range(),
                it.data() == self.data(),
                c0 == self.cur(),
                s0 == self.src(),
                it.cur() == c0 + out@.len(),
                it.src() == if out@.len() <= s0.len() {
                    s0.skip(out@.len() as int)
                } else {
                    Seq::<D>::empty()
                },
                out@ =~= padded_seq(self.data(), s0, out@.len() as nat),
                out@.len() <= self.range().count_from(c0),
                out@.len() < self.range().count_from(c0) ==> it.range().contains_spec(it.cur())
                    || !it.range().contains_spec(c0),
                !it.range().contains_spec(c0) ==> out@.len() == 0,
            ensures
                out@ =~= padded_seq(self.data(), s0, out@.len() as nat),
                out@.len() == self.range().count_from(c0),
            decreases self.range().end_limit() - it.cur() + 1,
        {
            let ghost k = out@.len() as int;
            match it.next() {
                Some(v) => {
                    out.push(v);
                    proof {
                        assert(out@ =~= padded_seq(self.data(), s0, out@.len() as nat));
                        if out@.len() <= s0.len() {
                            assert(it.src() =~= s0.skip(out@.len() as int));
                        } else {
                            assert(it.src() =~= Seq::<D>::empty());
                        }
                    }
                },
                None => {
                    break;
                },
            }
        }
        out
    }
}

} // verus!
