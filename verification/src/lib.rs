//! A cursor (or highlight) over buffers of Unicode code points.
//!
//! The cursor views its buffer as a tape with two pointers on it, `head` and
//! `tail`, delimiting a current highlight `[tail, head)`.  The head may move
//! forward and back freely inside the uncommitted region; once the tail has
//! moved forward (a commit), it can never move back.

pub mod pattern;
pub mod spanner;

pub use spanner::Spanner;
pub use spanner::SpannerSpec;

use pattern::Pattern;
use spanner::{fwd_ok_seq, fwd_seq, lemma_fwd_ok_seq_concat, lemma_fwd_ok_seq_prefix,
    lemma_fwd_seq_concat};
use vstd::prelude::*;
use vstd::slice::slice_subrange;

verus! {

/// The mathematical state of a cursor: the uncommitted part of the buffer,
/// the length of the highlight (in code points), and the two tracker states.
#[verifier::ext_equal]
pub struct CursorModel<V> {
    pub base: Seq<char>,
    pub highlight_len: int,
    pub tail: V,
    pub head: V,
}

impl<V> CursorModel<V> {
    /// The highlight: what lies between `tail` and `head`.
    pub open spec fn highlight_seq(self) -> Seq<char> {
        self.base.subrange(0, self.highlight_len)
    }

    /// The post: the unscanned remainder after `head`.
    pub open spec fn post_seq(self) -> Seq<char> {
        self.base.subrange(self.highlight_len, self.base.len() as int)
    }
}

/// A cursor's state is well formed when the highlight lies inside the buffer
/// and the head tracker is exactly the tail tracker pushed forward over the
/// highlight, along a path that stays within machine bounds.
pub open spec fn model_wf<S: SpannerSpec>(m: CursorModel<S::V>) -> bool {
    &&& 0 <= m.highlight_len <= m.base.len()
    &&& fwd_ok_seq::<S>(m.tail, m.highlight_seq())
    &&& m.head == fwd_seq::<S>(m.tail, m.highlight_seq())
}

/// What one `step` does to a cursor state: consume the first code point of
/// the post, or nothing when the post is empty.
pub open spec fn model_step<S: SpannerSpec>(m: CursorModel<S::V>) -> CursorModel<S::V> {
    if m.highlight_len < m.base.len() {
        CursorModel {
            highlight_len: m.highlight_len + 1,
            head: S::fwd(m.head, m.base[m.highlight_len]),
            ..m
        }
    } else {
        m
    }
}

/// What one `unstep` does to a cursor state: un-consume the last code point
/// of the highlight, or nothing when the highlight is empty.
pub open spec fn model_unstep<S: SpannerSpec>(m: CursorModel<S::V>) -> CursorModel<S::V> {
    if m.highlight_len > 0 {
        CursorModel {
            highlight_len: m.highlight_len - 1,
            head: S::bwd(m.head, m.base[m.highlight_len - 1]),
            ..m
        }
    } else {
        m
    }
}

/// What `validate` does to a cursor state: the highlight is committed, the
/// buffer narrows to the post, and the tail catches up with the head.
pub open spec fn model_commit<S: SpannerSpec>(m: CursorModel<S::V>) -> CursorModel<S::V> {
    CursorModel {
        base: m.post_seq(),
        highlight_len: 0,
        tail: S::committed(m.head),
        head: S::committed(m.head),
    }
}

/// The cursor state after `n` consecutive `step`s.
pub open spec fn iter_step<S: SpannerSpec>(m: CursorModel<S::V>, n: nat) -> CursorModel<S::V>
    decreases n,
{
    if n == 0 {
        m
    } else {
        model_step::<S>(iter_step::<S>(m, (n - 1) as nat))
    }
}

/// The cursor state after `n` consecutive `unstep`s.
pub open spec fn iter_unstep<S: SpannerSpec>(m: CursorModel<S::V>, n: nat) -> CursorModel<S::V>
    decreases n,
{
    if n == 0 {
        m
    } else {
        iter_unstep::<S>(model_unstep::<S>(m), (n - 1) as nat)
    }
}

/// Law: stepping through the next `n` code points and then unstepping `n`
/// times returns the cursor — highlight and both trackers — to exactly the
/// state it started in.
pub proof fn lemma_step_unstep_round_trip<S: SpannerSpec>(m: CursorModel<S::V>, n: nat)
    requires
        model_wf::<S>(m),
        n <= m.post_seq().len(),
        fwd_ok_seq::<S>(m.head, m.post_seq().subrange(0, n as int)),
    ensures
        model_wf::<S>(iter_step::<S>(m, n)),
        iter_step::<S>(m, n).base == m.base,
        iter_step::<S>(m, n).tail == m.tail,
        iter_step::<S>(m, n).highlight_len == m.highlight_len + n,
        iter_step::<S>(m, n).head == fwd_seq::<S>(m.head, m.post_seq().subrange(0, n as int)),
        iter_unstep::<S>(iter_step::<S>(m, n), n) == m,
    decreases n,
{
    if n > 0 {
        let n1 = (n - 1) as nat;
        let p = m.post_seq().subrange(0, n as int);
        let p1 = m.post_seq().subrange(0, n1 as int);
        assert(p.drop_last() =~= p1);
        lemma_step_unstep_round_trip::<S>(m, n1);
        let m1 = iter_step::<S>(m, n1);
        let c = m.base[m.highlight_len + n - 1];
        assert(p.last() == c);
        let m2 = model_step::<S>(m1);
        assert(m2.highlight_seq() =~= m1.highlight_seq().push(c));
        assert(m2.highlight_seq().drop_last() =~= m1.highlight_seq());
        S::lemma_fwd_bwd(m1.head, c);
        assert(model_unstep::<S>(m2) =~= m1);
        assert(iter_step::<S>(m, n) == m2);
    }
}

/// Law: a second `validate` right after a first one changes nothing.
pub proof fn lemma_validate_idempotent<S: SpannerSpec>(m: CursorModel<S::V>)
    requires
        0 <= m.highlight_len <= m.base.len(),
    ensures
        model_commit::<S>(model_commit::<S>(m)) == model_commit::<S>(m),
{
    let m1 = model_commit::<S>(m);
    assert(m1.post_seq() =~= m1.base);
    S::lemma_committed_idempotent(m.head);
    assert(model_commit::<S>(m1) =~= m1);
}

/// A cursor on a buffer of code points.
///
/// It is parametred by a type that should implement the [`Spanner`] trait.  A
/// spanner is used to keep track of the position in the input; different
/// types of spanner count different positions, at different costs.
#[derive(Debug, Clone, Copy)]
pub struct StrCursor<'s, S> {
    base: &'s [char],
    highlight_length: usize,
    pub spanner_tail: S,
    pub spanner_head: S,
}

impl<'s, S: Spanner> View for StrCursor<'s, S> {
    type V = CursorModel<S::V>;

    closed spec fn view(&self) -> CursorModel<S::V> {
        CursorModel {
            base: self.base@,
            highlight_len: self.highlight_length as int,
            tail: self.spanner_tail@,
            head: self.spanner_head@,
        }
    }
}

impl<'s, S: Spanner + Default> StrCursor<'s, S> {
    /// Creates a new cursor with the default value of the spanner.
    pub fn new(s: &'s [char]) -> (r: Self)
        ensures
            r.wf(),
            r@.base == s@,
            r@.highlight_len == 0,
            r@.head == r@.tail,
            exists|d: S| #[trigger] call_ensures(S::default, (), d) && r@.tail == d@,
    {
        Self::with_spanner(s, S::default())
    }
}

impl<'s, S: Spanner> StrCursor<'s, S> {
    /// The highlight lies inside the buffer.
    pub open spec fn in_bounds(self) -> bool {
        0 <= self@.highlight_len <= self@.base.len()
    }

    /// The cursor is well formed; established by the constructors and kept by
    /// every operation.
    pub open spec fn wf(self) -> bool {
        model_wf::<S>(self@)
    }

    /// Creates a cursor with the provided spanner.
    pub fn with_spanner(s: &'s [char], spanner: S) -> (r: Self)
        ensures
            r.wf(),
            r@.base == s@,
            r@.highlight_len == 0,
            r@.tail == spanner@,
            r@.head == spanner@,
    {
        let head = spanner.duplicate();
        let r = StrCursor { base: s, highlight_length: 0, spanner_head: head, spanner_tail: spanner };
        proof {
            assert(r@.highlight_seq() =~= Seq::<char>::empty());
        }
        r
    }

    /// Indicates if the current highlight is empty.
    pub fn highlight_empty(&mut self) -> (r: bool)
        ensures
            *final(self) == *old(self),
            r == (old(self)@.highlight_len == 0),
    {
        self.highlight_length == 0
    }

    /// Indicates if the post slice is empty.
    pub fn post_empty(&mut self) -> (r: bool)
        ensures
            *final(self) == *old(self),
            r == (old(self)@.highlight_len == old(self)@.base.len()),
    {
        self.highlight_length == self.base.len()
    }

    /// Returns the current highlight.
    pub fn highlight(&self) -> (r: &'s [char])
        requires
            self.in_bounds(),
        ensures
            r@ == self@.highlight_seq(),
    {
        slice_subrange(self.base, 0, self.highlight_length)
    }

    /// Returns the post slice.
    pub fn post(&self) -> (r: &'s [char])
        requires
            self.in_bounds(),
        ensures
            r@ == self@.post_seq(),
    {
        slice_subrange(self.base, self.highlight_length, self.base.len())
    }

    /// Advances `head` by one code point.
    ///
    /// Returns `None`, and changes nothing, if `head` is already at the end
    /// of the buffer.
    pub fn step(&mut self) -> (r: Option<char>)
        requires
            old(self).wf(),
            old(self)@.highlight_len < old(self)@.base.len() ==> S::fwd_ok(
                old(self)@.head,
                old(self)@.base[old(self)@.highlight_len],
            ),
        ensures
            final(self).wf(),
            final(self)@ == model_step::<S>(old(self)@),
            match r {
                Some(c) => old(self)@.highlight_len < old(self)@.base.len() && c == old(
                    self,
                )@.base[old(self)@.highlight_len],
                None => old(self)@.highlight_len == old(self)@.base.len(),
            },
    {
        if self.highlight_length == self.base.len() {
            return None;
        }
        let c = self.base[self.highlight_length];
        self.highlight_length = self.highlight_length + 1;
        self.spanner_head.forward(c);
        proof {
            let m0 = old(self)@;
            let h0 = m0.highlight_seq();
            let h1 = self@.highlight_seq();
            assert(h1 =~= h0.push(c));
            assert(h1.drop_last() =~= h0);
            assert(self@ =~= model_step::<S>(m0));
        }
        Some(c)
    }

    /// Backtracks `head` by one code point.
    ///
    /// Returns `None`, and changes nothing, if `head` is already at `tail`.
    pub fn unstep(&mut self) -> (r: Option<char>)
        requires
            old(self).wf(),
        ensures
            final(self).wf(),
            final(self)@ == model_unstep::<S>(old(self)@),
            match r {
                Some(c) => old(self)@.highlight_len > 0 && c == old(self)@.base[old(
                    self,
                )@.highlight_len - 1],
                None => old(self)@.highlight_len == 0,
            },
    {
        if self.highlight_length == 0 {
            return None;
        }
        let c = self.base[self.highlight_length - 1];
        proof {
            let m0 = self@;
            let h0 = m0.highlight_seq();
            assert(h0.len() > 0);
            assert(h0.last() == c);
            S::lemma_fwd_bwd(fwd_seq::<S>(m0.tail, h0.drop_last()), c);
        }
        self.highlight_length = self.highlight_length - 1;
        self.spanner_head.backward(c);
        proof {
            let m0 = old(self)@;
            let h0 = m0.highlight_seq();
            assert(h0.drop_last() =~= self@.highlight_seq());
            assert(self@ =~= model_unstep::<S>(m0));
        }
        Some(c)
    }

    /// Advances `head` over exactly the next `n` code points of the post and
    /// returns them.
    pub fn advance(&mut self, n: usize) -> (res: &'s [char])
        requires
            old(self).wf(),
            n <= old(self)@.post_seq().len(),
            fwd_ok_seq::<S>(old(self)@.head, old(self)@.post_seq().subrange(0, n as int)),
        ensures
            final(self).wf(),
            final(self)@.base == old(self)@.base,
            final(self)@.tail == old(self)@.tail,
            final(self)@.highlight_len == old(self)@.highlight_len + n,
            res@ == old(self)@.post_seq().subrange(0, n as int),
            final(self)@.head == fwd_seq::<S>(old(self)@.head, res@),
    {
        let start = self.highlight_length;
        let blen = self.base.len();
        proof {
            assert(start + n <= blen);
        }
        let res = slice_subrange(self.base, start, start + n);
        self.highlight_length = start + n;
        proof {
            let m0 = old(self)@;
            let h0 = m0.highlight_seq();
            assert(res@ =~= m0.post_seq().subrange(0, n as int));
            assert(self@.highlight_seq() =~= h0 + res@);
            lemma_fwd_seq_concat::<S>(m0.tail, h0, res@);
            lemma_fwd_ok_seq_concat::<S>(m0.tail, h0, res@);
        }
        self.spanner_head.forward_str(res);
        res
    }

    /// Advances `head` until `pat` is found.
    ///
    /// The returned slice may be empty if the pattern matches at `head`.  If
    /// nothing matching the pattern is found, the returned slice contains all
    /// the post slice.
    pub fn step_until<P: Pattern>(&mut self, pat: P) -> (res: &'s [char])
        requires
            old(self).wf(),
            pat.find_requires(old(self)@.post_seq()),
            fwd_ok_seq::<S>(old(self)@.head, old(self)@.post_seq()),
        ensures
            final(self).wf(),
            final(self)@.base == old(self)@.base,
            final(self)@.tail == old(self)@.tail,
            final(self)@.highlight_len == old(self)@.highlight_len + res@.len(),
            final(self)@.highlight_len <= final(self)@.base.len(),
            res@ == old(self)@.post_seq().subrange(0, res@.len() as int),
            final(self)@.head == fwd_seq::<S>(old(self)@.head, res@),
            exists|fr: Option<usize>|
                #[trigger] pat.found(old(self)@.post_seq(), fr) && res@.len() == (match fr {
                    Some(i) => i as int,
                    None => old(self)@.post_seq().len() as int,
                }),
    {
        let rem = self.post();
        let fr = pat.find(rem);
        let offset = match fr {
            Some(i) => i,
            None => rem.len(),
        };
        proof {
            lemma_fwd_ok_seq_prefix::<S>(self@.head, self@.post_seq(), offset as int);
        }
        self.advance(offset)
    }

    /// Validates the current highlight: brings `tail` to `head` and discards
    /// the committed prefix from the cursor's view, irreversibly.
    pub fn validate(&mut self)
        requires
            old(self).wf(),
        ensures
            final(self).wf(),
            final(self)@ == model_commit::<S>(old(self)@),
    {
        self.base = slice_subrange(self.base, self.highlight_length, self.base.len());
        self.highlight_length = 0;
        self.spanner_head.validate();
        self.spanner_tail = self.spanner_head.duplicate();
        proof {
            assert(self@.highlight_seq() =~= Seq::<char>::empty());
            assert(self@ =~= model_commit::<S>(old(self)@));
        }
    }

    /// Runs the closure on the current highlight, validating the highlight if
    /// the result is ok; on an error the cursor is left exactly as it was.
    pub fn then_validate<T, E, F: FnOnce(&'s [char]) -> Result<T, E>>(&mut self, f: F) -> (res:
        Result<T, E>)
        requires
            old(self).wf(),
            forall|hs: &'s [char]|
                hs@ == old(self)@.highlight_seq() ==> call_requires(f, (hs,)),
        ensures
            final(self).wf(),
            exists|hs: &'s [char]|
                hs@ == old(self)@.highlight_seq() && call_ensures(f, (hs,), res),
            res is Ok ==> final(self)@ == model_commit::<S>(old(self)@),
            res is Err ==> *final(self) == *old(self),
    {
        let hl = self.highlight();
        let res = f(hl);
        if res.is_ok() {
            self.validate();
        }
        res
    }
}

} // verus!
