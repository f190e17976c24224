//! Rolling median of the most recent levels.

use vstd::prelude::*;

use crate::binary32::F32;

verus! {

/// How many of `s` stand at or below `key` in the total order.
pub open spec fn count_le(s: Seq<F32>, key: int) -> nat
    decreases s.len(),
{
    if s.len() == 0 {
        0
    } else {
        count_le(s.drop_last(), key) + (if s.last().total_key() <= key {
            1nat
        } else {
            0nat
        })
    }
}

/// `v` is the element at position `rank` once `s` is sorted by the total order.
pub open spec fn at_rank(s: Seq<F32>, rank: int, v: F32) -> bool {
    &&& s.contains(v)
    &&& count_le(s, v.total_key() - 1) <= rank < count_le(s, v.total_key())
}

/// `v` stands in the middle of the sorted sequence: at position `len / 2`.
pub open spec fn is_median(s: Seq<F32>, v: F32) -> bool {
    at_rank(s, s.len() as int / 2, v)
}

/// The upper median.
#[verifier::opaque]
pub open spec fn median_of(s: Seq<F32>) -> Option<F32> {
    if s.len() == 0 {
        None
    } else {
        Some(choose|v: F32| is_median(s, v))
    }
}

/// The last `n` elements, or all of them.
pub open spec fn last_n<A>(s: Seq<A>, n: int) -> Seq<A> {
    if s.len() <= n {
        s
    } else {
        s.skip(s.len() - n)
    }
}

/// A sequence's count is the sum of its parts' counts.
pub proof fn lemma_count_le_add(a: Seq<F32>, b: Seq<F32>, key: int)
    ensures
        count_le(a + b, key) == count_le(a, key) + count_le(b, key),
    decreases b.len(),
{
    if b.len() == 0 {
        assert(a + b =~= a);
    } else {
        assert((a + b).drop_last() =~= a + b.drop_last());
        assert((a + b).last() == b.last());
        lemma_count_le_add(a, b.drop_last(), key);
    }
}

/// Counts grow with the key, up to the whole length.
pub proof fn lemma_count_le_bounds(s: Seq<F32>, low: int, high: int)
    requires
        low <= high,
    ensures
        count_le(s, low) <= count_le(s, high) <= s.len(),
    decreases s.len(),
{
    if s.len() > 0 {
        lemma_count_le_bounds(s.drop_last(), low, high);
    }
}

/// Below every key nothing is counted; above every key, everything.
proof fn lemma_count_le_extremes(s: Seq<F32>)
    ensures
        count_le(s, -0x8000_0001) == 0,
        count_le(s, 0x7fff_ffff) == s.len(),
    decreases s.len(),
{
    if s.len() > 0 {
        lemma_count_le_extremes(s.drop_last());
    }
}

/// Where the count jumps at `key`, some element stands exactly there.
proof fn lemma_count_le_jump(s: Seq<F32>, key: int) -> (i: int)
    requires
        count_le(s, key - 1) < count_le(s, key),
    ensures
        0 <= i < s.len(),
        s[i].total_key() == key,
    decreases s.len(),
{
    if s.last().total_key() == key {
        s.len() - 1
    } else {
        lemma_count_le_jump(s.drop_last(), key)
    }
}

/// Equal positions in the total order are equal patterns.
pub proof fn lemma_total_key_injective(a: F32, b: F32)
    requires
        a.total_key() == b.total_key(),
    ensures
        a == b,
{
}

/// The element at a given rank is unique.
pub proof fn lemma_at_rank_unique(s: Seq<F32>, rank: int, a: F32, b: F32)
    requires
        at_rank(s, rank, a),
        at_rank(s, rank, b),
    ensures
        a == b,
{
    if a.total_key() < b.total_key() {
        lemma_count_le_bounds(s, a.total_key(), b.total_key() - 1);
    } else if b.total_key() < a.total_key() {
        lemma_count_le_bounds(s, b.total_key(), a.total_key() - 1);
    } else {
        lemma_total_key_injective(a, b);
    }
}

/// What `median_of` is, once some element is known to stand at the middle rank.
pub proof fn lemma_median_of(s: Seq<F32>, v: F32)
    requires
        s.len() > 0,
        is_median(s, v),
    ensures
        median_of(s) == Some(v),
{
    reveal(median_of);
    let c = choose|c: F32| is_median(s, c);
    lemma_at_rank_unique(s, s.len() as int / 2, v, c);
}

/// How many of `s` are `v`.
pub open spec fn count_of(s: Seq<F32>, v: F32) -> nat
    decreases s.len(),
{
    if s.len() == 0 {
        0
    } else {
        count_of(s.drop_last(), v) + (if s.last() == v {
            1nat
        } else {
            0nat
        })
    }
}

proof fn lemma_count_split(s: Seq<F32>, v: F32)
    ensures
        count_le(s, v.total_key() - 1) + count_of(s, v) == count_le(s, v.total_key()),
        count_of(s, v) > 0 ==> s.contains(v),
    decreases s.len(),
{
    if s.len() > 0 {
        lemma_count_split(s.drop_last(), v);
        if s.last().total_key() == v.total_key() {
            lemma_total_key_injective(s.last(), v);
            assert(s[s.len() - 1] == v);
        }
        if s.drop_last().contains(v) {
            let i = choose|i: int| 0 <= i < s.drop_last().len() && s.drop_last()[i] == v;
            assert(s[i] == v);
        }
    }
}

/// Outliers do not move the median: a value that makes up more than half of
/// the window is its median, whatever the rest are.
pub proof fn law_median_ignores_a_minority(s: Seq<F32>, v: F32)
    requires
        2 * count_of(s, v) > s.len(),
    ensures
        median_of(s) == Some(v),
{
    lemma_count_split(s, v);
    lemma_count_le_bounds(s, v.total_key(), v.total_key());
    lemma_median_of(s, v);
}

/// How many of the first `n` values stand at or below `key`.
fn count_at_or_below(values: &Vec<F32>, n: usize, key: i64) -> (r: usize)
    requires
        n <= values@.len(),
    ensures
        r == count_le(values@.take(n as int), key as int),
        r <= n,
{
    let mut count: usize = 0;
    let mut i: usize = 0;
    while i < n
        invariant
            i <= n <= values@.len(),
            count == count_le(values@.take(i as int), key as int),
            count <= i,
        decreases n - i,
    {
        assert(values@.take(i + 1).drop_last() =~= values@.take(i as int));
        if values[i].order_key() <= key {
            count = count + 1;
        }
        i = i + 1;
    }
    count
}

/// The upper median of the first `n` values.
pub fn median_of_first(values: &Vec<F32>, n: usize) -> (r: F32)
    requires
        0 < n <= values@.len(),
    ensures
        median_of(values@.take(n as int)) == Some(r),
        is_median(values@.take(n as int), r),
{
    let ghost s = values@.take(n as int);
    let mid: usize = n / 2;
    let mut low: i64 = -0x8000_0001;
    let mut high: i64 = 0x7fff_ffff;
    proof {
        lemma_count_le_extremes(s);
    }
    // The count is at most `mid` at `low` and above it at `high`.
    while high - low > 1
        invariant
            0 < n <= values@.len(),
            mid == n / 2,
            s == values@.take(n as int),
            -0x8000_0001 <= low < high <= 0x7fff_ffff,
            count_le(s, low as int) <= mid < count_le(s, high as int),
        decreases high - low,
    {
        let probe: i64 = low + (high - low) / 2;
        if count_at_or_below(values, n, probe) <= mid {
            low = probe;
        } else {
            high = probe;
        }
    }
    let ghost at = lemma_count_le_jump(s, high as int);
    let mut i: usize = 0;
    while i < n
        invariant
            0 < n <= values@.len(),
            s == values@.take(n as int),
            i <= at < s.len(),
            s[at].total_key() == high,
            count_le(s, high - 1) <= mid < count_le(s, high as int),
            mid == n / 2,
        decreases n - i,
    {
        let v: F32 = values[i];
        if v.order_key() == high {
            proof {
                assert(s[i as int] == v);
                lemma_median_of(s, v);
            }
            return v;
        }
        i = i + 1;
    }
    assert(false);
    values[0]
}

/// Rolling median over the last `capacity` pushed values.
/// All storage preallocated; push() and median() never allocate.
pub struct RollingMedian {
    buf: Vec<F32>,
    pos: usize,
    filled: usize,
}

impl RollingMedian {
    /// How many values the window holds at most.
    pub closed spec fn capacity(self) -> nat {
        self.buf@.len()
    }

    /// The values in the window, oldest first.
    pub closed spec fn window(self) -> Seq<F32> {
        if self.filled < self.buf@.len() {
            self.buf@.take(self.filled as int)
        } else {
            self.buf@.skip(self.pos as int) + self.buf@.take(self.pos as int)
        }
    }

    pub closed spec fn wf(self) -> bool {
        &&& self.filled <= self.buf@.len()
        &&& self.filled < self.buf@.len() ==> self.pos == self.filled
        &&& self.filled == self.buf@.len() ==> (self.pos < self.buf@.len() || self.buf@.len() == 0
            && self.pos == 0)
    }

    pub fn new(capacity: usize) -> (r: RollingMedian)
        ensures
            r.wf(),
            r.capacity() == capacity,
            r.window() == Seq::<F32>::empty(),
    {
        let mut buf: Vec<F32> = Vec::with_capacity(capacity);
        let mut i: usize = 0;
        while i < capacity
            invariant
                i <= capacity,
                buf@.len() == i,
            decreases capacity - i,
        {
            buf.push(F32::from_bits(0));
            i = i + 1;
        }
        let r = RollingMedian { buf, pos: 0, filled: 0 };
        assert(r.window() =~= Seq::<F32>::empty());
        r
    }

    /// Adds a value; the oldest falls out once the window is full.
    pub fn push(&mut self, v: F32)
        requires
            old(self).wf(),
            old(self).capacity() > 0,
        ensures
            final(self).wf(),
            final(self).capacity() == old(self).capacity(),
            final(self).window() == last_n(
                old(self).window().push(v),
                old(self).capacity() as int,
            ),
    {
        let ghost before = *self;
        let pos: usize = self.pos;
        let cap: usize = self.buf.len();
        self.buf.set(pos, v);
        self.pos = (pos + 1) % cap;
        if self.filled < cap {
            self.filled = self.filled + 1;
        }
        proof {
            assert(self.buf@ == before.buf@.update(pos as int, v));
            if pos + 1 < cap {
                vstd::arithmetic::div_mod::lemma_small_mod((pos + 1) as nat, cap as nat);
            } else {
                assert(cap as int % cap as int == 0) by {
                    vstd::arithmetic::div_mod::lemma_mod_self_0(cap as int);
                }
            }
            assert(self.window() =~= last_n(before.window().push(v), cap as int));
        }
    }

    /// The upper median of the window.
    pub fn median(&mut self) -> (r: Option<F32>)
        requires
            old(self).wf(),
        ensures
            *final(self) == *old(self),
            r == median_of(old(self).window()),
            r is None <==> old(self).window().len() == 0,
    {
        if self.filled == 0 {
            proof {
                reveal(median_of);
                assert(self.window() =~= Seq::<F32>::empty());
            }
            return None;
        }
        let n: usize = self.filled;
        let m: F32 = median_of_first(&self.buf, n);
        proof {
            let s = self.buf@.take(n as int);
            let w = self.window();
            if self.filled == self.buf@.len() {
                let a = self.buf@.skip(self.pos as int);
                let b = self.buf@.take(self.pos as int);
                assert(s =~= b + a);
                lemma_count_le_add(a, b, m.total_key());
                lemma_count_le_add(b, a, m.total_key());
                lemma_count_le_add(a, b, m.total_key() - 1);
                lemma_count_le_add(b, a, m.total_key() - 1);
                let i = choose|i: int| 0 <= i < s.len() && s[i] == m;
                if i < self.pos {
                    assert(w[i + a.len()] == m);
                } else {
                    assert(w[i - self.pos] == m);
                }
            } else {
                assert(s == w);
            }
            assert(w.contains(m));
            assert(is_median(w, m));
            lemma_median_of(w, m);
        }
        Some(m)
    }
}

/// Reordering changes no count.
proof fn lemma_count_le_reordered(s: Seq<F32>, t: Seq<F32>, key: int)
    requires
        s.to_multiset() == t.to_multiset(),
    ensures
        count_le(s, key) == count_le(t, key),
        s.len() == t.len(),
    decreases t.len(),
{
    s.to_multiset_ensures();
    t.to_multiset_ensures();
    if t.len() > 0 {
        let x = t.last();
        assert(t.contains(x)) by {
            assert(t[t.len() - 1] == x);
        }
        assert(t.to_multiset().count(x) > 0);
        assert(s.to_multiset().count(x) > 0);
        assert(s.contains(x));
        let i = choose|i: int| 0 <= i < s.len() && s[i] == x;
        let rest = s.remove(i);
        assert(t.remove(t.len() - 1) =~= t.drop_last());
        assert(rest.to_multiset() == t.drop_last().to_multiset());
        lemma_count_le_reordered(rest, t.drop_last(), key);
        let a = s.take(i);
        let b = s.skip(i + 1);
        assert(rest =~= a + b);
        assert(s =~= a.push(x) + b);
        lemma_count_le_add(a, b, key);
        lemma_count_le_add(a.push(x), b, key);
        assert(a.push(x).drop_last() =~= a);
    }
}

/// Some element stands at every rank.
proof fn lemma_rank_is_taken(s: Seq<F32>, rank: int, low: int, high: int) -> (v: F32)
    requires
        low < high,
        count_le(s, low) <= rank < count_le(s, high),
    ensures
        at_rank(s, rank, v),
    decreases high - low,
{
    if high - low == 1 {
        let i = lemma_count_le_jump(s, high);
        s[i]
    } else if count_le(s, high - 1) <= rank {
        let i = lemma_count_le_jump(s, high);
        s[i]
    } else {
        lemma_rank_is_taken(s, rank, low, high - 1)
    }
}

proof fn lemma_all_counted(s: Seq<F32>, key: int)
    requires
        forall|i: int| 0 <= i < s.len() ==> (#[trigger] s[i]).total_key() <= key,
    ensures
        count_le(s, key) == s.len(),
    decreases s.len(),
{
    if s.len() > 0 {
        assert(s[s.len() - 1].total_key() <= key);
        assert forall|i: int| 0 <= i < s.drop_last().len() implies (
        #[trigger] s.drop_last()[i]).total_key() <= key by {
            assert(s[i].total_key() <= key);
        }
        lemma_all_counted(s.drop_last(), key);
    }
}

proof fn lemma_none_counted(s: Seq<F32>, key: int)
    requires
        forall|i: int| 0 <= i < s.len() ==> (#[trigger] s[i]).total_key() > key,
    ensures
        count_le(s, key) == 0,
    decreases s.len(),
{
    if s.len() > 0 {
        assert(s[s.len() - 1].total_key() > key);
        assert forall|i: int| 0 <= i < s.drop_last().len() implies (
        #[trigger] s.drop_last()[i]).total_key() > key by {
            assert(s[i].total_key() > key);
        }
        lemma_none_counted(s.drop_last(), key);
    }
}

/// A smaller number stands earlier in the total order.
proof fn lemma_smaller_is_earlier(a: F32, b: F32)
    requires
        a.lt_spec(b),
    ensures
        a.total_key() < b.total_key(),
{
    crate::binary32::lemma_scaled_order(a, b);
    crate::binary32::lemma_scaled_order(b, a);
    if a.total_key() == b.total_key() {
        lemma_total_key_injective(a, b);
    }
}

/// The median is the middle of the values once they are sorted: put the values
/// of a window in ascending order in any way, and the median is the one that
/// stands in the middle, the upper one of two.
pub proof fn law_median_is_the_middle_value(s: Seq<F32>, sorted: Seq<F32>)
    requires
        s.len() > 0,
        sorted.to_multiset() == s.to_multiset(),
        forall|i: int| 0 <= i < sorted.len() ==> !(#[trigger] sorted[i]).nan(),
        forall|i: int, j: int|
            0 <= i <= j < sorted.len() ==> (#[trigger] sorted[i]).le_spec(#[trigger] sorted[j]),
    ensures
        median_of(s) matches Some(v) && v.le_spec(sorted[s.len() as int / 2])
            && sorted[s.len() as int / 2].le_spec(v),
        s.contains(median_of(s)->0),
{
    let mid = s.len() as int / 2;
    lemma_count_le_extremes(s);
    let v = lemma_rank_is_taken(s, mid, -0x8000_0001, 0x7fff_ffff);
    lemma_median_of(s, v);
    let key = v.total_key();
    lemma_count_le_reordered(s, sorted, key);
    lemma_count_le_reordered(s, sorted, key - 1);
    let w = sorted[mid];
    s.to_multiset_ensures();
    sorted.to_multiset_ensures();
    assert(s.to_multiset().count(v) > 0);
    assert(sorted.contains(v));
    let at = choose|i: int| 0 <= i < sorted.len() && sorted[i] == v;
    assert(!sorted[at].nan());
    assert(!w.nan());
    if v.scaled() < w.scaled() {
        let a = sorted.take(mid);
        let b = sorted.skip(mid);
        assert(sorted =~= a + b);
        lemma_count_le_add(a, b, key);
        assert forall|i: int| 0 <= i < b.len() implies (#[trigger] b[i]).total_key() > key by {
            assert(sorted[mid].le_spec(sorted[mid + i]));
            lemma_smaller_is_earlier(v, b[i]);
        }
        lemma_none_counted(b, key);
        lemma_count_le_bounds(a, key, key);
    }
    if w.scaled() < v.scaled() {
        let a = sorted.take(mid + 1);
        let b = sorted.skip(mid + 1);
        assert(sorted =~= a + b);
        lemma_count_le_add(a, b, key - 1);
        assert forall|i: int| 0 <= i < a.len() implies (#[trigger] a[i]).total_key() <= key - 1 by {
            assert(sorted[i].le_spec(sorted[mid]));
            lemma_smaller_is_earlier(a[i], v);
        }
        lemma_all_counted(a, key - 1);
    }
}

/// Without values there is no median.
pub proof fn law_an_empty_window_has_no_median(s: Seq<F32>)
    ensures
        median_of(s) is None <==> s.len() == 0,
{
    reveal(median_of);
}

/// A window keeps the newest values, in order, as many as it has room for.
pub proof fn law_a_window_keeps_the_newest(s: Seq<F32>, room: int, i: int)
    requires
        room >= 0,
    ensures
        ({
            let kept = last_n(s, room);
            &&& kept.len() == (if s.len() <= room {
                s.len() as int
            } else {
                room
            })
            &&& 0 <= i < kept.len() ==> kept[kept.len() - 1 - i] == s[s.len() - 1 - i]
        }),
{
}

} // verus!
