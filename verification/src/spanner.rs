//! Position trackers ("spanners") that follow a cursor through a buffer of
//! code points.
//!
//! A spanner is an accumulator that records some notion of "where am I" as
//! code points are consumed (`forward`), un-consumed (`backward`), or
//! committed (`validate`).  Each strategy gives its state a mathematical view
//! and proves that `backward` exactly undoes `forward`.

use vstd::prelude::*;

verus! {

/// The number of bytes the UTF-8 encoding of `c` occupies.
pub open spec fn utf8_width(c: char) -> int {
    if (c as u32) < 0x80 {
        1
    } else if (c as u32) < 0x800 {
        2
    } else if (c as u32) < 0x10000 {
        3
    } else {
        4
    }
}

/// Computes the UTF-8 encoded width of a code point.
pub fn char_utf8_width(c: char) -> (w: usize)
    ensures
        w == utf8_width(c),
        1 <= w <= 4,
{
    let u = c as u32;
    if u < 0x80 {
        1
    } else if u < 0x800 {
        2
    } else if u < 0x10000 {
        3
    } else {
        4
    }
}

/// Whether `c` is a control code point (Unicode general category Cc).
pub open spec fn is_ctrl(c: char) -> bool {
    (c as u32) < 0x20 || (0x7f <= (c as u32) && (c as u32) <= 0x9f)
}

/// Decides whether `c` is a control code point (Unicode general category Cc).
pub fn char_is_ctrl(c: char) -> (r: bool)
    ensures
        r == is_ctrl(c),
{
    let u = c as u32;
    u < 0x20 || (0x7f <= u && u <= 0x9f)
}

/// The mathematical face of a position tracker: what its state is (the view),
/// what one forward or backward update does to it, and the laws the updates
/// obey.
pub trait SpannerSpec: Sized + View {
    /// Whether a forward update from state `v` on `c` stays within machine
    /// bounds, so that the exec `forward` cannot overflow.
    spec fn fwd_ok(v: Self::V, c: char) -> bool;

    /// The tracker state after consuming `c` from state `v`.
    spec fn fwd(v: Self::V, c: char) -> Self::V;

    /// Whether a backward update from state `v` on `c` is meaningful: it is
    /// guaranteed to hold of any state reached by a matching `forward`.
    spec fn bwd_ok(v: Self::V, c: char) -> bool;

    /// The tracker state after un-consuming `c` from state `v`.
    spec fn bwd(v: Self::V, c: char) -> Self::V;

    /// The tracker state after a commit notification.
    spec fn committed(v: Self::V) -> Self::V;

    /// Law: a backward update exactly undoes the matching forward update.
    proof fn lemma_fwd_bwd(v: Self::V, c: char)
        requires
            Self::fwd_ok(v, c),
        ensures
            Self::bwd_ok(Self::fwd(v, c), c),
            Self::bwd(Self::fwd(v, c), c) == v,
    ;

    /// Law: committing twice is the same as committing once.
    proof fn lemma_committed_idempotent(v: Self::V)
        ensures
            Self::committed(Self::committed(v)) == Self::committed(v),
    ;
}

/// The tracker state after consuming every code point of `s`, in order.
pub open spec fn fwd_seq<S: SpannerSpec>(v: S::V, s: Seq<char>) -> S::V
    decreases s.len(),
{
    if s.len() == 0 {
        v
    } else {
        S::fwd(fwd_seq::<S>(v, s.drop_last()), s.last())
    }
}

/// Whether every forward update along `s`, starting from `v`, stays within
/// machine bounds.
pub open spec fn fwd_ok_seq<S: SpannerSpec>(v: S::V, s: Seq<char>) -> bool
    decreases s.len(),
{
    s.len() == 0 || (fwd_ok_seq::<S>(v, s.drop_last()) && S::fwd_ok(
        fwd_seq::<S>(v, s.drop_last()),
        s.last(),
    ))
}

/// A position tracker consumed by the cursor.
///
/// The exec methods update the tracker in lockstep with the cursor; the
/// contracts tie each of them exactly to the spec functions of
/// [`SpannerSpec`].
pub trait Spanner: SpannerSpec {
    /// An independent copy that evolves separately from the original.
    fn duplicate(&self) -> (r: Self)
        ensures
            r@ == self@,
    ;

    /// Consumes one code point.
    fn forward(&mut self, c: char)
        requires
            Self::fwd_ok(old(self)@, c),
        ensures
            final(self)@ == Self::fwd(old(self)@, c),
    ;

    /// Un-consumes one code point; only ever called right after a matching
    /// `forward` whose effect it exactly undoes.
    fn backward(&mut self, c: char)
        requires
            Self::bwd_ok(old(self)@, c),
        ensures
            final(self)@ == Self::bwd(old(self)@, c),
    ;

    /// Commit notification: the tracker may discard backtracking data.
    fn validate(&mut self)
        ensures
            final(self)@ == Self::committed(old(self)@),
    ;

    /// Consumes a contiguous run of code points; equivalent to repeated
    /// `forward` calls, front to back.
    fn forward_str(&mut self, s: &[char])
        requires
            fwd_ok_seq::<Self>(old(self)@, s@),
        ensures
            final(self)@ == fwd_seq::<Self>(old(self)@, s@),
    ;
}

/// Consuming `a + b` is consuming `a`, then consuming `b`.
pub proof fn lemma_fwd_seq_concat<S: SpannerSpec>(v: S::V, a: Seq<char>, b: Seq<char>)
    ensures
        fwd_seq::<S>(v, a + b) == fwd_seq::<S>(fwd_seq::<S>(v, a), b),
    decreases b.len(),
{
    if b.len() == 0 {
        assert(a + b =~= a);
    } else {
        assert((a + b).drop_last() =~= a + b.drop_last());
        assert((a + b).last() == b.last());
        lemma_fwd_seq_concat::<S>(v, a, b.drop_last());
    }
}

/// Bounds hold along `a + b` exactly when they hold along `a` and then along
/// `b` from the state `a` leads to.
pub proof fn lemma_fwd_ok_seq_concat<S: SpannerSpec>(v: S::V, a: Seq<char>, b: Seq<char>)
    ensures
        fwd_ok_seq::<S>(v, a + b) == (fwd_ok_seq::<S>(v, a) && fwd_ok_seq::<S>(
            fwd_seq::<S>(v, a),
            b,
        )),
    decreases b.len(),
{
    if b.len() == 0 {
        assert(a + b =~= a);
    } else {
        assert((a + b).drop_last() =~= a + b.drop_last());
        assert((a + b).last() == b.last());
        lemma_fwd_ok_seq_concat::<S>(v, a, b.drop_last());
        lemma_fwd_seq_concat::<S>(v, a, b.drop_last());
    }
}

/// Bounds that hold along `s` hold along any prefix of `s`.
pub proof fn lemma_fwd_ok_seq_prefix<S: SpannerSpec>(v: S::V, s: Seq<char>, k: int)
    requires
        fwd_ok_seq::<S>(v, s),
        0 <= k <= s.len(),
    ensures
        fwd_ok_seq::<S>(v, s.subrange(0, k)),
    decreases s.len(),
{
    if k == s.len() {
        assert(s.subrange(0, k) =~= s);
    } else {
        assert(s.drop_last().subrange(0, k) =~= s.subrange(0, k));
        lemma_fwd_ok_seq_prefix::<S>(v, s.drop_last(), k);
    }
}

/// A spanner that tracks nothing, at zero cost.
#[derive(Debug, Clone, Copy, PartialEq, Eq)]
pub struct NoOpSpanner;

impl View for NoOpSpanner {
    type V = ();

    open spec fn view(&self) -> () {
        ()
    }
}

impl SpannerSpec for NoOpSpanner {
    open spec fn fwd_ok(v: (), c: char) -> bool {
        true
    }

    open spec fn fwd(v: (), c: char) -> () {
        ()
    }

    open spec fn bwd_ok(v: (), c: char) -> bool {
        true
    }

    open spec fn bwd(v: (), c: char) -> () {
        ()
    }

    open spec fn committed(v: ()) -> () {
        ()
    }

    proof fn lemma_fwd_bwd(v: (), c: char) {
    }

    proof fn lemma_committed_idempotent(v: ()) {
    }
}

impl Spanner for NoOpSpanner {
    fn duplicate(&self) -> (r: Self) {
        NoOpSpanner
    }

    fn forward(&mut self, c: char) {
    }

    fn backward(&mut self, c: char) {
    }

    fn validate(&mut self) {
    }

    fn forward_str(&mut self, s: &[char]) {
    }
}

impl Default for NoOpSpanner {
    fn default() -> (r: Self)
        ensures
            r@ == (),
    {
        NoOpSpanner
    }
}

/// Law: the no-op spanner reports the same (unit) state no matter what run
/// of code points is consumed, and its updates are always within bounds.
pub proof fn lemma_noop_constant(v: (), s: Seq<char>)
    ensures
        fwd_seq::<NoOpSpanner>(v, s) == v,
        fwd_ok_seq::<NoOpSpanner>(v, s),
    decreases s.len(),
{
    if s.len() > 0 {
        lemma_noop_constant(v, s.drop_last());
    }
}

/// A spanner that counts how many bytes of encoded text have been passed.
#[derive(Debug, Clone, Copy, PartialEq, Eq)]
pub struct ByteSpanner {
    pub bytes: usize,
}

impl View for ByteSpanner {
    type V = int;

    open spec fn view(&self) -> int {
        self.bytes as int
    }
}

impl SpannerSpec for ByteSpanner {
    open spec fn fwd_ok(v: int, c: char) -> bool {
        0 <= v && v + utf8_width(c) <= usize::MAX
    }

    open spec fn fwd(v: int, c: char) -> int {
        v + utf8_width(c)
    }

    open spec fn bwd_ok(v: int, c: char) -> bool {
        utf8_width(c) <= v <= usize::MAX
    }

    open spec fn bwd(v: int, c: char) -> int {
        v - utf8_width(c)
    }

    open spec fn committed(v: int) -> int {
        v
    }

    proof fn lemma_fwd_bwd(v: int, c: char) {
    }

    proof fn lemma_committed_idempotent(v: int) {
    }
}

impl Spanner for ByteSpanner {
    fn duplicate(&self) -> (r: Self) {
        ByteSpanner { bytes: self.bytes }
    }

    fn forward(&mut self, c: char) {
        self.bytes = self.bytes + char_utf8_width(c);
    }

    fn backward(&mut self, c: char) {
        self.bytes = self.bytes - char_utf8_width(c);
    }

    fn validate(&mut self) {
    }

    fn forward_str(&mut self, s: &[char]) {
        let ghost v0 = self@;
        let mut i: usize = 0;
        while i < s.len()
            invariant
                0 <= i <= s@.len(),
                fwd_ok_seq::<ByteSpanner>(v0, s@),
                self@ == fwd_seq::<ByteSpanner>(v0, s@.subrange(0, i as int)),
            decreases s@.len() - i,
        {
            proof {
                lemma_fwd_ok_seq_prefix::<ByteSpanner>(v0, s@, i + 1);
                assert(s@.subrange(0, i + 1).drop_last() =~= s@.subrange(0, i as int));
                assert(s@.subrange(0, i + 1).last() == s@[i as int]);
            }
            let c = s[i];
            self.bytes = self.bytes + char_utf8_width(c);
            i = i + 1;
        }
        proof {
            assert(s@.subrange(0, s@.len() as int) =~= s@);
        }
    }
}

impl Default for ByteSpanner {
    fn default() -> (r: Self)
        ensures
            r@ == 0,
    {
        ByteSpanner { bytes: 0 }
    }
}

/// Consuming a run of code points adds its length to a code-point count.
pub proof fn lemma_char_fwd_seq(v: int, s: Seq<char>)
    ensures
        fwd_seq::<CharSpanner>(v, s) == v + s.len(),
    decreases s.len(),
{
    if s.len() > 0 {
        lemma_char_fwd_seq(v, s.drop_last());
    }
}

/// What staying in bounds means for a code-point count.
pub proof fn lemma_char_fwd_ok_seq(v: int, s: Seq<char>)
    requires
        fwd_ok_seq::<CharSpanner>(v, s),
    ensures
        s.len() > 0 ==> 0 <= v && v + s.len() <= usize::MAX,
    decreases s.len(),
{
    if s.len() > 0 {
        if s.len() > 1 {
            lemma_char_fwd_ok_seq(v, s.drop_last());
        }
        lemma_char_fwd_seq(v, s.drop_last());
    }
}

/// A spanner that counts how many code points have been passed.
#[derive(Debug, Clone, Copy, PartialEq, Eq)]
pub struct CharSpanner {
    kars: usize,
}

impl CharSpanner {
    /// The number of code points passed so far.
    pub fn count(&self) -> (r: usize)
        ensures
            r as int == self@,
    {
        self.kars
    }
}

impl View for CharSpanner {
    type V = int;

    closed spec fn view(&self) -> int {
        self.kars as int
    }
}

impl SpannerSpec for CharSpanner {
    open spec fn fwd_ok(v: int, c: char) -> bool {
        0 <= v && v + 1 <= usize::MAX
    }

    open spec fn fwd(v: int, c: char) -> int {
        v + 1
    }

    open spec fn bwd_ok(v: int, c: char) -> bool {
        1 <= v <= usize::MAX
    }

    open spec fn bwd(v: int, c: char) -> int {
        v - 1
    }

    open spec fn committed(v: int) -> int {
        v
    }

    proof fn lemma_fwd_bwd(v: int, c: char) {
    }

    proof fn lemma_committed_idempotent(v: int) {
    }
}

impl Spanner for CharSpanner {
    fn duplicate(&self) -> (r: Self) {
        CharSpanner { kars: self.kars }
    }

    fn forward(&mut self, c: char) {
        self.kars = self.kars + 1;
    }

    fn backward(&mut self, c: char) {
        self.kars = self.kars - 1;
    }

    fn validate(&mut self) {
    }

    fn forward_str(&mut self, s: &[char]) {
        proof {
            lemma_char_fwd_ok_seq(self@, s@);
            lemma_char_fwd_seq(self@, s@);
        }
        self.kars = self.kars + s.len();
    }
}

impl Default for CharSpanner {
    fn default() -> (r: Self)
        ensures
            r@ == 0,
    {
        CharSpanner { kars: 0 }
    }
}

/// The mathematical state of a row/column spanner: the current row and
/// column, and the columns saved at each uncommitted newline, oldest first.
#[verifier::ext_equal]
pub struct RowColState {
    pub row: int,
    pub col: int,
    pub saved: Seq<int>,
}

/// A spanner keeping track of rows and columns.
///
/// A newline moves to the start of the next row; the column it left is saved
/// so that backtracking across the newline can restore it exactly.  Control
/// code points other than newline move nothing, and every other code point
/// advances the column by one; the column is a code-point count, not a
/// rendering width.
#[derive(Debug, Clone, PartialEq, Eq)]
pub struct RowColSpanner {
    row: usize,
    col: usize,
    old_cols: Vec<usize>,
}

impl RowColSpanner {
    /// The current row, counted from zero.
    pub fn row(&self) -> (r: usize)
        ensures
            r as int == self@.row,
    {
        self.row
    }

    /// The current column, counted from zero.
    pub fn col(&self) -> (r: usize)
        ensures
            r as int == self@.col,
    {
        self.col
    }
}

impl View for RowColSpanner {
    type V = RowColState;

    closed spec fn view(&self) -> RowColState {
        RowColState {
            row: self.row as int,
            col: self.col as int,
            saved: self.old_cols@.map_values(|x: usize| x as int),
        }
    }
}

impl SpannerSpec for RowColSpanner {
    open spec fn fwd_ok(v: RowColState, c: char) -> bool {
        if c == '\n' {
            0 <= v.row && v.row + 1 <= usize::MAX
        } else if is_ctrl(c) {
            true
        } else {
            0 <= v.col && v.col + 1 <= usize::MAX
        }
    }

    open spec fn fwd(v: RowColState, c: char) -> RowColState {
        if c == '\n' {
            RowColState { row: v.row + 1, col: 0, saved: v.saved.push(v.col) }
        } else if is_ctrl(c) {
            v
        } else {
            RowColState { col: v.col + 1, ..v }
        }
    }

    open spec fn bwd_ok(v: RowColState, c: char) -> bool {
        if c == '\n' {
            1 <= v.row && v.saved.len() >= 1
        } else if is_ctrl(c) {
            true
        } else {
            1 <= v.col
        }
    }

    open spec fn bwd(v: RowColState, c: char) -> RowColState {
        if c == '\n' {
            RowColState { row: v.row - 1, col: v.saved.last(), saved: v.saved.drop_last() }
        } else if is_ctrl(c) {
            v
        } else {
            RowColState { col: v.col - 1, ..v }
        }
    }

    open spec fn committed(v: RowColState) -> RowColState {
        RowColState { saved: Seq::empty(), ..v }
    }

    proof fn lemma_fwd_bwd(v: RowColState, c: char) {
        if c == '\n' {
            assert(v.saved.push(v.col).drop_last() =~= v.saved);
            assert(Self::bwd(Self::fwd(v, c), c) =~= v);
        }
    }

    proof fn lemma_committed_idempotent(v: RowColState) {
    }
}

impl Spanner for RowColSpanner {
    fn duplicate(&self) -> (r: Self) {
        RowColSpanner { row: self.row, col: self.col, old_cols: self.old_cols.clone() }
    }

    fn forward(&mut self, c: char) {
        if c == '\n' {
            self.old_cols.push(self.col);
            self.row = self.row + 1;
            self.col = 0;
            proof {
                assert(self@.saved =~= old(self)@.saved.push(old(self)@.col));
            }
        } else if char_is_ctrl(c) {
        } else {
            self.col = self.col + 1;
        }
    }

    fn backward(&mut self, c: char) {
        if c == '\n' {
            self.row = self.row - 1;
            self.col = self.old_cols.pop().unwrap();
            proof {
                assert(self@.saved =~= old(self)@.saved.drop_last());
                assert(self@.col == old(self)@.saved.last());
            }
        } else if char_is_ctrl(c) {
        } else {
            self.col = self.col - 1;
        }
    }

    fn validate(&mut self) {
        self.old_cols = Vec::new();
        proof {
            assert(self@.saved =~= Seq::<int>::empty());
            assert(self@ =~= Self::committed(old(self)@));
        }
    }

    fn forward_str(&mut self, s: &[char]) {
        let ghost v0 = self@;
        let mut i: usize = 0;
        while i < s.len()
            invariant
                0 <= i <= s@.len(),
                fwd_ok_seq::<RowColSpanner>(v0, s@),
                self@ == fwd_seq::<RowColSpanner>(v0, s@.subrange(0, i as int)),
            decreases s@.len() - i,
        {
            proof {
                lemma_fwd_ok_seq_prefix::<RowColSpanner>(v0, s@, i + 1);
                assert(s@.subrange(0, i + 1).drop_last() =~= s@.subrange(0, i as int));
                assert(s@.subrange(0, i + 1).last() == s@[i as int]);
            }
            let c = s[i];
            self.forward(c);
            i = i + 1;
        }
        proof {
            assert(s@.subrange(0, s@.len() as int) =~= s@);
        }
    }
}

impl Default for RowColSpanner {
    fn default() -> (r: Self)
        ensures
            r@ == (RowColState { row: 0, col: 0, saved: Seq::<int>::empty() }),
    {
        let r = RowColSpanner { row: 0, col: 0, old_cols: Vec::new() };
        proof {
            assert(r@.saved =~= Seq::<int>::empty());
            assert(r@ =~= RowColState { row: 0, col: 0, saved: Seq::<int>::empty() });
        }
        r
    }
}

} // verus!
