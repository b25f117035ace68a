//! The cache of row totals, one entry per position, and the grand total.
use vstd::prelude::*;

verus! {

/// A row total in millionths, cached at its (row, column) position.
pub struct Total {
    pub value: i64,
    pub position: (usize, usize),
}

/// Position-indexed row totals; a position is held at most once.
pub struct TotalsCache {
    totals: Vec<Total>,
}

/// The position → value map that a sequence of entries describes.
pub open spec fn totals_map(ts: Seq<Total>) -> Map<(usize, usize), int>
    decreases ts.len(),
{
    if ts.len() == 0 {
        Map::empty()
    } else {
        totals_map(ts.drop_last()).insert(ts.last().position, ts.last().value as int)
    }
}

/// The sum of the entries' values.
pub open spec fn totals_sum(ts: Seq<Total>) -> int
    decreases ts.len(),
{
    if ts.len() == 0 {
        0
    } else {
        totals_sum(ts.drop_last()) + ts.last().value
    }
}

pub open spec fn distinct_positions(ts: Seq<Total>) -> bool {
    forall|i: int, j: int|
        0 <= i < j < ts.len() ==> #[trigger] ts[i].position != #[trigger] ts[j].position
}

/// The value cached at a position, or zero when there is none.
pub open spec fn value_at(m: Map<(usize, usize), int>, p: (usize, usize)) -> int {
    if m.contains_key(p) {
        m[p]
    } else {
        0
    }
}

/// Whether any entry sits at the position.
pub fn contains_field(totals: &Vec<Total>, position: &(usize, usize)) -> (r: bool)
    ensures
        r == exists|i: int| 0 <= i < totals@.len() && #[trigger] totals@[i].position == *position,
{
    let mut i: usize = 0;
    while i < totals.len()
        invariant
            i <= totals@.len(),
            forall|k: int| 0 <= k < i ==> #[trigger] totals@[k].position != *position,
        decreases totals@.len() - i,
    {
        if totals[i].position.0 == position.0 && totals[i].position.1 == position.1 {
            return true;
        }
        i += 1;
    }
    false
}

proof fn lemma_distinct_prefix(ts: Seq<Total>)
    requires
        distinct_positions(ts),
        ts.len() > 0,
    ensures
        distinct_positions(ts.drop_last()),
{
    let p = ts.drop_last();
    assert forall|i: int, j: int| 0 <= i < j < p.len() implies #[trigger] p[i].position
        != #[trigger] p[j].position by {
        assert(p[i] == ts[i] && p[j] == ts[j]);
    }
}

proof fn lemma_map_has(ts: Seq<Total>, i: int)
    requires
        distinct_positions(ts),
        0 <= i < ts.len(),
    ensures
        totals_map(ts).contains_key(ts[i].position),
        totals_map(ts)[ts[i].position] == ts[i].value,
    decreases ts.len(),
{
    if i < ts.len() - 1 {
        lemma_distinct_prefix(ts);
        assert(ts.drop_last()[i] == ts[i]);
        lemma_map_has(ts.drop_last(), i);
        assert(ts[i].position != ts[ts.len() - 1].position);
    }
}

proof fn lemma_map_lacks(ts: Seq<Total>, p: (usize, usize))
    requires
        forall|i: int| 0 <= i < ts.len() ==> #[trigger] ts[i].position != p,
    ensures
        !totals_map(ts).contains_key(p),
    decreases ts.len(),
{
    if ts.len() > 0 {
        let q = ts.drop_last();
        assert forall|i: int| 0 <= i < q.len() implies #[trigger] q[i].position != p by {
            assert(q[i] == ts[i]);
        }
        lemma_map_lacks(q, p);
        assert(ts[ts.len() - 1] == ts.last());
    }
}

proof fn lemma_map_keys(ts: Seq<Total>, p: (usize, usize))
    requires
        totals_map(ts).contains_key(p),
    ensures
        exists|i: int| 0 <= i < ts.len() && #[trigger] ts[i].position == p,
{
    if forall|i: int| 0 <= i < ts.len() ==> #[trigger] ts[i].position != p {
        lemma_map_lacks(ts, p);
    }
}

proof fn lemma_update(ts: Seq<Total>, i: int, t: Total)
    requires
        distinct_positions(ts),
        0 <= i < ts.len(),
        t.position == ts[i].position,
    ensures
        totals_map(ts.update(i, t)) == totals_map(ts).insert(t.position, t.value as int),
        totals_sum(ts.update(i, t)) == totals_sum(ts) - ts[i].value + t.value,
    decreases ts.len(),
{
    let u = ts.update(i, t);
    if i == ts.len() - 1 {
        assert(u.drop_last() == ts.drop_last());
        assert(totals_map(u) =~= totals_map(ts).insert(t.position, t.value as int));
    } else {
        lemma_distinct_prefix(ts);
        assert(u.drop_last() == ts.drop_last().update(i, t));
        lemma_update(ts.drop_last(), i, t);
        assert(t.position != ts[ts.len() - 1].position);
        assert(totals_map(u) =~= totals_map(ts).insert(t.position, t.value as int));
    }
}

proof fn lemma_remove(ts: Seq<Total>, j: int)
    requires
        distinct_positions(ts),
        0 <= j < ts.len(),
    ensures
        distinct_positions(ts.remove(j)),
        totals_map(ts.remove(j)) == totals_map(ts).remove(ts[j].position),
        totals_sum(ts.remove(j)) == totals_sum(ts) - ts[j].value,
    decreases ts.len(),
{
    let r = ts.remove(j);
    assert(distinct_positions(r)) by {
        assert forall|a: int, b: int| 0 <= a < b < r.len() implies #[trigger] r[a].position
            != #[trigger] r[b].position by {
            let a2 = if a < j {
                a
            } else {
                a + 1
            };
            let b2 = if b < j {
                b
            } else {
                b + 1
            };
            assert(r[a] == ts[a2] && r[b] == ts[b2]);
        }
    }
    if j == ts.len() - 1 {
        assert(r == ts.drop_last());
        lemma_map_lacks(r, ts[j].position);
        assert(totals_map(r) =~= totals_map(ts).remove(ts[j].position));
    } else {
        let p = ts.drop_last();
        lemma_distinct_prefix(ts);
        assert(r.drop_last() == p.remove(j));
        assert(r.last() == ts.last());
        lemma_remove(p, j);
        assert(p[j] == ts[j]);
        assert(ts[j].position != ts[ts.len() - 1].position);
        assert(totals_map(r) =~= totals_map(ts).remove(ts[j].position));
    }
}

/// Two caches that map the same positions to the same values have the same sum.
pub proof fn lemma_sum_by_map(a: Seq<Total>, b: Seq<Total>)
    requires
        distinct_positions(a),
        distinct_positions(b),
        totals_map(a) == totals_map(b),
    ensures
        totals_sum(a) == totals_sum(b),
    decreases a.len(),
{
    if a.len() == 0 {
        if b.len() > 0 {
            lemma_map_has(b, 0);
            assert(totals_map(b).contains_key(b[0].position));
        }
    } else {
        let x = a.last();
        lemma_map_has(a, a.len() - 1);
        assert(a[a.len() - 1] == x);
        lemma_map_keys(b, x.position);
        let j = choose|j: int| 0 <= j < b.len() && #[trigger] b[j].position == x.position;
        lemma_map_has(b, j);
        lemma_remove(b, j);
        lemma_remove(a, a.len() - 1);
        assert(a.remove(a.len() - 1) == a.drop_last());
        lemma_sum_by_map(a.drop_last(), b.remove(j));
    }
}

impl View for TotalsCache {
    type V = Map<(usize, usize), int>;

    closed spec fn view(&self) -> Map<(usize, usize), int> {
        totals_map(self.totals@)
    }
}

impl TotalsCache {
    /// No position is cached twice.
    pub closed spec fn wf(&self) -> bool {
        distinct_positions(self.totals@)
    }

    /// The sum of every cached value.
    pub closed spec fn sum(&self) -> int {
        totals_sum(self.totals@)
    }

    /// The sum is determined by the position → value map.
    pub proof fn lemma_sum_determined(a: &TotalsCache, b: &TotalsCache)
        requires
            a.wf(),
            b.wf(),
            a@ == b@,
        ensures
            a.sum() == b.sum(),
    {
        lemma_sum_by_map(a.totals@, b.totals@);
    }

    /// An empty cache.
    pub fn new() -> (r: TotalsCache)
        ensures
            r.wf(),
            r@ == Map::<(usize, usize), int>::empty(),
            r.sum() == 0,
    {
        TotalsCache { totals: Vec::new() }
    }

    /// The cached entries, in the order their positions were first cached.
    pub fn entries(&self) -> (r: &Vec<Total>)
        requires
            self.wf(),
        ensures
            distinct_positions(r@),
            totals_map(r@) == self@,
            totals_sum(r@) == self.sum(),
    {
        &self.totals
    }

    /// Caches a value at a position: a new entry when the position is not
    /// cached yet, otherwise the existing entry's value is overwritten.
    pub fn upsert(&mut self, position: (usize, usize), value: i64)
        requires
            old(self).wf(),
        ensures
            final(self).wf(),
            final(self)@ == old(self)@.insert(position, value as int),
            final(self).sum() == old(self).sum() - value_at(old(self)@, position) + value,
    {
        let ghost before = self.totals@;
        let t = Total { value, position };
        let mut i: usize = 0;
        while i < self.totals.len()
            invariant
                self.totals@ == before,
                before == old(self).totals@,
                distinct_positions(before),
                t.position == position,
                t.value == value,
                i <= before.len(),
                forall|k: int| 0 <= k < i ==> #[trigger] before[k].position != position,
            decreases before.len() - i,
        {
            if self.totals[i].position.0 == position.0 && self.totals[i].position.1
                == position.1 {
                assert(before[i as int].position == position);
                proof {
                    lemma_update(before, i as int, t);
                    lemma_map_has(before, i as int);
                }
                self.totals.set(i, t);
                assert(self.totals@ == before.update(i as int, t));
                assert(distinct_positions(self.totals@)) by {
                    assert forall|a: int, b: int| 0 <= a < b < self.totals@.len() implies
                        #[trigger] self.totals@[a].position
                        != #[trigger] self.totals@[b].position by {
                        assert(before[a].position == self.totals@[a].position);
                        assert(before[b].position == self.totals@[b].position);
                    }
                }
                return;
            }
            i += 1;
        }
        proof {
            lemma_map_lacks(before, position);
        }
        self.totals.push(t);
        assert(self.totals@.drop_last() == before);
        assert(distinct_positions(self.totals@)) by {
            assert forall|a: int, b: int| 0 <= a < b < self.totals@.len() implies
                #[trigger] self.totals@[a].position != #[trigger] self.totals@[b].position by {
                assert(self.totals@[a] == before[a]);
                if b < before.len() {
                    assert(self.totals@[b] == before[b]);
                }
            }
        }
    }

    /// The sum of every cached value, in millionths.
    pub fn grand_total(&self) -> (r: i128)
        ensures
            r == self.sum(),
    {
        let n = self.totals.len();
        let mut acc: i128 = 0;
        let mut i: usize = 0;
        while i < n
            invariant
                n == self.totals@.len(),
                i <= n,
                acc == totals_sum(self.totals@.take(i as int)),
                -(i as int) * 0x8000_0000_0000_0000 <= acc <= (i as int) * 0x7fff_ffff_ffff_ffff,
            decreases n - i,
        {
            let v = self.totals[i].value;
            assert(self.totals@.take(i as int + 1).drop_last() == self.totals@.take(i as int));
            proof {
                assert((i as int) < 0x1_0000_0000_0000_0000);
                assert((i as int + 1) * 0x7fff_ffff_ffff_ffff < 0x8000_0000_0000_0000_0000_0000_0000_0000)
                    by (nonlinear_arith)
                    requires
                        (i as int) < 0x1_0000_0000_0000_0000,
                ;
                assert((i as int + 1) * 0x8000_0000_0000_0000 <= 0x8000_0000_0000_0000_0000_0000_0000_0000)
                    by (nonlinear_arith)
                    requires
                        (i as int) < 0x1_0000_0000_0000_0000,
                ;
            }
            acc = acc + v as i128;
            i += 1;
        }
        assert(self.totals@.take(n as int) == self.totals@);
        acc
    }
}

/// One cache is another after caching `value` at `position`.
pub open spec fn upserted(
    before: TotalsCache,
    after: TotalsCache,
    position: (usize, usize),
    value: i64,
) -> bool {
    &&& after.wf()
    &&& after@ == before@.insert(position, value as int)
    &&& after.sum() == before.sum() - value_at(before@, position) + value
}

/// Caching values at two different positions yields the same cache, and
/// the same grand total, in either order.
pub proof fn lemma_upsert_order_independent(
    start: TotalsCache,
    p_first: TotalsCache,
    p_then_q: TotalsCache,
    q_first: TotalsCache,
    q_then_p: TotalsCache,
    p: (usize, usize),
    a: i64,
    q: (usize, usize),
    b: i64,
)
    requires
        start.wf(),
        p != q,
        upserted(start, p_first, p, a),
        upserted(p_first, p_then_q, q, b),
        upserted(start, q_first, q, b),
        upserted(q_first, q_then_p, p, a),
    ensures
        p_then_q@ == q_then_p@,
        p_then_q.sum() == q_then_p.sum(),
        p_then_q.sum() == start.sum() - value_at(start@, p) - value_at(start@, q) + a + b,
{
    assert(value_at(p_first@, q) == value_at(start@, q));
    assert(value_at(q_first@, p) == value_at(start@, p));
    assert(p_then_q@ =~= q_then_p@);
}

} // verus!
