use vstd::prelude::*;

verus! {

/// Units per whole: `ONE` stands for 1.0 and `ONE / 2` for 0.5.
pub const ONE: i64 = 65536;

/// Largest magnitude of a time or a value that the arithmetic accepts.
pub const LIMIT: i64 = 1099511627776;

/// Largest magnitude of a playback time or a clip start: the difference of
/// two such times stays within `LIMIT`.
pub const HALF_LIMIT: i64 = 549755813888;

/// A playback time or a clip start.
pub open spec fn in_time(v: int) -> bool {
    -HALF_LIMIT <= v <= HALF_LIMIT
}

/// A time or a value small enough for the fixed-point arithmetic.
pub open spec fn in_range(v: int) -> bool {
    -LIMIT <= v <= LIMIT
}

/// A fixed-point number in the unit interval `[0, 1]`.
pub open spec fn is_unit(t: int) -> bool {
    0 <= t <= ONE
}

/// `a + (b - a) * t`, rounded down to the nearest unit.
pub open spec fn lerp_spec(a: int, b: int, t: int) -> int {
    a + (b - a) * t / (ONE as int)
}

/// Where `x` stands between `first` and `second`, as a unit fraction rounded down.
pub open spec fn unit_interval_spec(x: int, first: int, second: int) -> int {
    (x - first) * (ONE as int) / (second - first)
}

/// `n / d` rounded toward negative infinity, for a positive `d`.
fn div_floor(n: i64, d: i64) -> (r: i64)
    requires
        d > 0,
        n > i64::MIN,
    ensures
        r as int == n as int / d as int,
{
    if n >= 0 {
        n / d
    } else {
        let m: i64 = -n - 1;
        let q: i64 = m / d;
        proof {
            let rem = (m as int) % (d as int);
            vstd::arithmetic::div_mod::lemma_fundamental_div_mod(m as int, d as int);
            vstd::arithmetic::div_mod::lemma_mod_pos_bound(m as int, d as int);
            assert((-(q as int) - 1) * d as int == -(q as int * d as int) - d as int)
                by (nonlinear_arith);
            assert(d as int * (m as int / d as int) == q as int * d as int) by (nonlinear_arith)
                requires q as int == m as int / d as int;
            // n == (-q - 1) * d + (d - 1 - rem)
            vstd::arithmetic::div_mod::lemma_fundamental_div_mod_converse(
                n as int,
                d as int,
                -(q as int) - 1,
                d as int - 1 - rem,
            );
        }
        -q - 1
    }
}

/// Blends from `a` to `b` by the unit fraction `t`.
pub fn lerp(a: i64, b: i64, t: i64) -> (r: i64)
    requires
        in_range(a as int),
        in_range(b as int),
        is_unit(t as int),
    ensures
        r as int == lerp_spec(a as int, b as int, t as int),
        t == 0 ==> r == a,
        t == ONE ==> r == b,
        a <= b ==> a <= r <= b,
        b <= a ==> b <= r <= a,
{
    let d: i64 = b - a;
    proof {
        assert(-144115188075855872 <= d * t <= 144115188075855872) by (nonlinear_arith)
            requires
                -2199023255552 <= d <= 2199023255552,
                0 <= t <= 65536,
        ;
    }
    let p: i64 = d * t;
    let q: i64 = div_floor(p, ONE);
    proof {
        lemma_lerp_between(a as int, b as int, t as int);
    }
    a + q
}

proof fn lemma_lerp_between(a: int, b: int, t: int)
    requires
        0 <= t <= ONE,
    ensures
        t == 0 ==> lerp_spec(a, b, t) == a,
        t == ONE ==> lerp_spec(a, b, t) == b,
        a <= b ==> a <= lerp_spec(a, b, t) <= b,
        b <= a ==> b <= lerp_spec(a, b, t) <= a,
{
    let d = b - a;
    let one = ONE as int;
    if a <= b {
        assert(0 <= d * t <= d * one) by (nonlinear_arith)
            requires
                d >= 0,
                0 <= t <= one,
        ;
        vstd::arithmetic::div_mod::lemma_div_is_ordered(0, d * t, one);
        vstd::arithmetic::div_mod::lemma_div_is_ordered(d * t, d * one, one);
        vstd::arithmetic::div_mod::lemma_div_multiples_vanish(d, one);
    } else {
        assert(d * one <= d * t <= 0) by (nonlinear_arith)
            requires
                d < 0,
                0 <= t <= one,
        ;
        vstd::arithmetic::div_mod::lemma_div_is_ordered(d * t, 0, one);
        vstd::arithmetic::div_mod::lemma_div_is_ordered(d * one, d * t, one);
        vstd::arithmetic::div_mod::lemma_div_multiples_vanish(d, one);
    }
    assert(d * 0 == 0);
    assert(d * one / one == d) by {
        vstd::arithmetic::div_mod::lemma_div_multiples_vanish(d, one);
    }
}


/// Where `x` stands between `first` and `second`, as a unit fraction.
pub fn unit_interval(x: i64, first: i64, second: i64) -> (r: i64)
    requires
        in_range(x as int),
        in_range(first as int),
        in_range(second as int),
        first <= x <= second,
        first < second,
    ensures
        r as int == unit_interval_spec(x as int, first as int, second as int),
        is_unit(r as int),
        x == first ==> r == 0,
        x == second ==> r == ONE,
{
    proof {
        let a = x as int - first as int;
        let w = second as int - first as int;
        assert(0 <= a * 65536 <= w * 65536 <= 144115188075855872) by (nonlinear_arith)
            requires
                0 <= a <= w <= 2199023255552,
        ;
        vstd::arithmetic::div_mod::lemma_div_is_ordered(0, a * 65536, w);
        vstd::arithmetic::div_mod::lemma_div_is_ordered(a * 65536, w * 65536, w);
        vstd::arithmetic::div_mod::lemma_div_multiples_vanish(65536, w);
        assert(w * 65536 == 65536 * w);
    }
    (x - first) * ONE / (second - first)
}

/// `x` moved down to the nearest point of the grid of step `period` through
/// `offset`; `x` itself for a zero period.
pub open spec fn quantized_floor_spec(x: int, period: int, offset: int) -> int {
    if period == 0 {
        x
    } else {
        (x - offset) / period * period + offset
    }
}

/// How far `x` lies past `offset`, modulo `period`, with the sign of `x - offset`;
/// `x` itself for a zero period.
pub open spec fn quantized_remainder_spec(x: int, period: int, offset: int) -> int {
    if period == 0 {
        x
    } else if x - offset >= 0 {
        (x - offset) % period
    } else {
        -((offset - x) % period)
    }
}

pub fn quantized_floor(x: i64, period: i64, offset: i64) -> (r: i64)
    requires
        in_range(x as int),
        in_range(offset as int),
        0 <= period <= LIMIT,
    ensures
        r as int == quantized_floor_spec(x as int, period as int, offset as int),
        period > 0 ==> r <= x < r + period,
{
    if period == 0 {
        return x;
    }
    let d: i64 = x - offset;
    let q: i64 = div_floor(d, period);
    proof {
        vstd::arithmetic::div_mod::lemma_fundamental_div_mod(d as int, period as int);
        vstd::arithmetic::div_mod::lemma_mod_bound(d as int, period as int);
        assert(period * q == q * period) by (nonlinear_arith);
    }
    q * period + offset
}

pub fn quantized_remainder(x: i64, period: i64, offset: i64) -> (r: i64)
    requires
        in_range(x as int),
        in_range(offset as int),
        0 <= period <= LIMIT,
    ensures
        r as int == quantized_remainder_spec(x as int, period as int, offset as int),
        period > 0 && x >= offset ==> 0 <= r < period,
{
    if period == 0 {
        return x;
    }
    proof {
        if x - offset >= 0 {
            vstd::arithmetic::div_mod::lemma_mod_pos_bound(x - offset, period as int);
        } else {
            vstd::arithmetic::div_mod::lemma_mod_pos_bound(offset - x, period as int);
        }
    }
    if x >= offset {
        (x - offset) % period
    } else {
        -((offset - x) % period)
    }
}

/// A value with a position on a timeline.
pub trait Quantify {
    /// The position, as a mathematical integer.
    spec fn quantity(&self) -> int;

    fn quantify(&self) -> (r: i64)
        ensures
            r as int == self.quantity(),
    ;
}

/// The positions of a table's entries, in table order.
pub open spec fn keys<T: Quantify>(s: Seq<T>) -> Seq<int> {
    s.map_values(|x: T| x.quantity())
}

/// Ascending, duplicates allowed.
pub open spec fn sorted(k: Seq<int>) -> bool {
    forall|i: int, j: int| 0 <= i <= j < k.len() ==> k[i] <= k[j]
}

/// The index of the last entry whose position is at or before `q`,
/// or 0 where every entry lies after `q`.
pub open spec fn seek_index(k: Seq<int>, q: int) -> int
    decreases k.len(),
{
    if k.len() <= 1 {
        0
    } else if k.last() <= q {
        k.len() - 1
    } else {
        seek_index(k.drop_last(), q)
    }
}

/// What the seek index is: an index at or before `q` (or the first),
/// with every later entry after `q`.
pub open spec fn is_seek_result(k: Seq<int>, q: int, r: int) -> bool {
    &&& 0 <= r < k.len()
    &&& (r == 0 || k[r] <= q)
    &&& forall|j: int| r < j < k.len() ==> q < #[trigger] k[j]
}

/// The seek index is the one index that answers the query, whatever search found it.
pub proof fn lemma_seek_index_unique(k: Seq<int>, q: int, r: int)
    requires
        k.len() > 0,
    ensures
        is_seek_result(k, q, seek_index(k, q)),
        is_seek_result(k, q, r) ==> r == seek_index(k, q),
    decreases k.len(),
{
    if k.len() > 1 && k.last() > q {
        let p = k.drop_last();
        lemma_seek_index_unique(p, q, r);
        let s = seek_index(p, q);
        assert forall|j: int| s < j < k.len() implies q < #[trigger] k[j] by {
            if j < k.len() - 1 {
                assert(k[j] == p[j]);
            }
        }
        if is_seek_result(k, q, r) {
            assert(r < k.len() - 1);
            assert(is_seek_result(p, q, r));
        }
    }
}

/// Among entries sharing a position, seeking that position lands on the last of them.
pub proof fn lemma_seek_last_wins(k: Seq<int>, i: int, j: int)
    requires
        sorted(k),
        0 <= i < j < k.len(),
        k[i] == k[j],
    ensures
        seek_index(k, k[j]) >= j,
        k[seek_index(k, k[j])] == k[j],
        (j + 1 == k.len() || k[j + 1] != k[j]) ==> seek_index(k, k[j]) == j,
{
    lemma_seek_index_unique(k, k[j], 0);
    let r = seek_index(k, k[j]);
    if r < j {
        assert(k[j] < k[j]);
    }
    if j + 1 < k.len() && k[j + 1] != k[j] && r > j {
        assert(k[j] <= k[j + 1] <= k[r]);
    }
}

/// Binary search: the index of the last entry at or before `to`, or 0 where none is.
pub fn seek<T: Quantify>(table: &[T], to: i64) -> (r: usize)
    requires
        table@.len() > 0,
        sorted(keys(table@)),
    ensures
        r as int == seek_index(keys(table@), to as int),
{
    let ghost k = keys(table@);
    let n = table.len();
    let mut lo: usize = 0;
    let mut hi: usize = n;
    while lo < hi
        invariant
            k == keys(table@),
            n == table@.len(),
            sorted(k),
            0 <= lo <= hi <= n,
            forall|j: int| 0 <= j < lo ==> #[trigger] k[j] <= to,
            forall|j: int| hi <= j < n ==> to < #[trigger] k[j],
        decreases hi - lo,
    {
        let mid = lo + (hi - lo) / 2;
        if table[mid].quantify() <= to {
            assert forall|j: int| 0 <= j <= mid implies #[trigger] k[j] <= to by {
                assert(k[j] <= k[mid as int]);
            }
            lo = mid + 1;
        } else {
            hi = mid;
        }
    }
    let r: usize = if lo == 0 { 0 } else { lo - 1 };
    proof {
        lemma_seek_index_unique(k, to as int, r as int);
    }
    r
}

/// How many distinct positions the forward scan may pass before it gives up.
pub const LOOKAHEAD: usize = 4;

/// Seeks `offset` starting from the cached index `old`: scans forward over at
/// most `LOOKAHEAD` distinct positions (a run of equal positions counts once)
/// and falls back to `seek` when the answer lies further on, or when the cache
/// lies past `offset`. The answer never depends on the cache.
pub fn find_index_through<T: Quantify>(table: &[T], offset: i64, old: usize) -> (r: usize)
    requires
        table@.len() > 0,
        sorted(keys(table@)),
    ensures
        r as int == seek_index(keys(table@), offset as int),
{
    let ghost k = keys(table@);
    let n = table.len();
    if old < n && (old == 0 || table[old].quantify() <= offset) {
        let mut i: usize = old;
        let mut passed: usize = 0;
        while i + 1 < n && passed < LOOKAHEAD
            invariant
                k == keys(table@),
                n == table@.len(),
                sorted(k),
                i < n,
                i == 0 || k[i as int] <= offset,
            decreases n - i,
        {
            let here = table[i].quantify();
            let next = table[i + 1].quantify();
            if offset < next {
                proof {
                    assert forall|j: int| i < j < n implies offset < #[trigger] k[j] by {
                        assert(k[i + 1] <= k[j]);
                    }
                    lemma_seek_index_unique(k, offset as int, i as int);
                }
                return i;
            }
            if next != here {
                passed = passed + 1;
            }
            i = i + 1;
        }
        if i + 1 == n {
            proof {
                lemma_seek_index_unique(k, offset as int, i as int);
            }
            return i;
        }
    }
    seek(table, offset)
}


impl Quantify for i64 {
    open spec fn quantity(&self) -> int {
        *self as int
    }

    fn quantify(&self) -> (r: i64) {
        *self
    }
}

/// How many leading entries lie at or before `offset`.
pub(crate) fn count_at_or_before<T: Quantify>(table: &[T], offset: i64) -> (n: usize)
    requires
        sorted(keys(table@)),
    ensures
        n <= table@.len(),
        forall|j: int| 0 <= j < n ==> #[trigger] keys(table@)[j] <= offset,
        forall|j: int| n <= j < table@.len() ==> offset < #[trigger] keys(table@)[j],
{
    if table.len() == 0 {
        return 0;
    }
    let ghost k = keys(table@);
    let i = seek(table, offset);
    proof {
        lemma_seek_index_unique(k, offset as int, i as int);
    }
    if table[i].quantify() <= offset {
        assert forall|j: int| 0 <= j <= i implies #[trigger] k[j] <= offset by {
            assert(k[j] <= k[i as int]);
        }
        i + 1
    } else {
        assert forall|j: int| 0 <= j < table@.len() implies offset < #[trigger] k[j] by {
            assert(k[0] <= k[j]);
        }
        0
    }
}

/// The leading entries that lie at or before `offset`.
pub fn before_or_at<T: Quantify>(table: &[T], offset: i64) -> (r: &[T])
    requires
        sorted(keys(table@)),
    ensures
        r@ == table@.subrange(0, r@.len() as int),
        forall|j: int| 0 <= j < r@.len() ==> #[trigger] keys(table@)[j] <= offset,
        forall|j: int| r@.len() <= j < table@.len() ==> offset < #[trigger] keys(table@)[j],
{
    let n = count_at_or_before(table, offset);
    vstd::slice::slice_subrange(table, 0, n)
}

/// The trailing entries that lie after `offset`.
pub fn after<T: Quantify>(table: &[T], offset: i64) -> (r: &[T])
    requires
        sorted(keys(table@)),
    ensures
        r@ == table@.subrange(table@.len() - r@.len(), table@.len() as int),
        forall|j: int| 0 <= j < table@.len() - r@.len() ==> #[trigger] keys(table@)[j] <= offset,
        forall|j: int| table@.len() - r@.len() <= j < table@.len() ==> offset < #[trigger] keys(
            table@,
        )[j],
{
    let n = count_at_or_before(table, offset);
    vstd::slice::slice_subrange(table, n, table.len())
}


/// Seeks each of `queries` in turn, the cursor carried from one answer to the
/// next query. The answers are those a fresh binary search gives for each
/// query on its own, for any starting cursor and any order of the queries.
pub fn seek_run<T: Quantify>(table: &[T], queries: &Vec<i64>, cursor: usize) -> (r: Vec<usize>)
    requires
        table@.len() > 0,
        sorted(keys(table@)),
    ensures
        r@.len() == queries@.len(),
        forall|i: int|
            0 <= i < queries@.len() ==> #[trigger] r@[i] as int == seek_index(
                keys(table@),
                queries@[i] as int,
            ),
{
    let mut out: Vec<usize> = Vec::new();
    let mut at: usize = cursor;
    let mut i: usize = 0;
    while i < queries.len()
        invariant
            table@.len() > 0,
            sorted(keys(table@)),
            i <= queries@.len(),
            out@.len() == i,
            forall|j: int|
                0 <= j < i ==> #[trigger] out@[j] as int == seek_index(
                    keys(table@),
                    queries@[j] as int,
                ),
        decreases queries@.len() - i,
    {
        at = find_index_through(table, queries[i], at);
        out.push(at);
        i = i + 1;
    }
    out
}

/// Whether a table is ascending.
pub fn is_sorted<T: Quantify>(table: &[T]) -> (r: bool)
    ensures
        r == sorted(keys(table@)),
{
    let ghost k = keys(table@);
    let n = table.len();
    if n == 0 {
        return true;
    }
    let mut i: usize = 1;
    while i < n
        invariant
            k == keys(table@),
            n == table@.len(),
            1 <= i <= n,
            forall|p: int, q: int| 0 <= p <= q < i ==> k[p] <= k[q],
        decreases n - i,
    {
        if table[i].quantify() < table[i - 1].quantify() {
            assert(!(k[i - 1] <= k[i as int]));
            return false;
        }
        assert forall|p: int, q: int| 0 <= p <= q < i + 1 implies k[p] <= k[q] by {
            if q == i && p < i {
                assert(k[p] <= k[i - 1]);
            }
        }
        i = i + 1;
    }
    true
}

/// Whether a time or a value is small enough for the arithmetic.
pub fn check_range(v: i64) -> (r: bool)
    ensures
        r == in_range(v as int),
{
    -LIMIT <= v && v <= LIMIT
}

/// Whether a playback time or a clip start is small enough for the arithmetic.
pub fn check_time(v: i64) -> (r: bool)
    ensures
        r == in_time(v as int),
{
    -HALF_LIMIT <= v && v <= HALF_LIMIT
}

/// Tells values of the unit interval `[0, 1]` apart from the rest.
pub struct UnitIntervalChecker;

impl UnitIntervalChecker {
    pub fn check(value: i64) -> (r: bool)
        ensures
            r == is_unit(value as int),
    {
        0 <= value && value <= ONE
    }
}

} // verus!
