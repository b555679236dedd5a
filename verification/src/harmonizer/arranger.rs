use itertools::Itertools;
use vstd::prelude::*;

verus! {

/// The smaller of two bytes.
pub open spec fn min_u8(a: u8, b: u8) -> u8 {
    if a <= b { a } else { b }
}

/// The larger of two bytes.
pub open spec fn max_u8(a: u8, b: u8) -> u8 {
    if a <= b { b } else { a }
}

/// Two spans (start, end) may be joined when the start of one lies within one
/// step of the end of the other.
pub open spec fn touching(a: (u8, u8), b: (u8, u8)) -> bool {
    ||| -1 <= a.0 - b.1 <= 1
    ||| -1 <= b.0 - a.1 <= 1
}

/// The span from the smaller start to the larger end.
pub open spec fn hull(a: (u8, u8), b: (u8, u8)) -> (u8, u8) {
    (min_u8(a.0, b.0), max_u8(a.1, b.1))
}

/// What `contiguous_union` gives for two spans.
pub open spec fn union_of(a: (u8, u8), b: (u8, u8)) -> Option<(u8, u8)> {
    if touching(a, b) { Some(hull(a, b)) } else { None }
}

/// An inclusive range of channel indices.
#[derive(Clone, Copy, Debug, PartialEq, Eq, Structural)]
pub struct CoverageRange(u8, u8);

impl View for CoverageRange {
    type V = (u8, u8);

    closed spec fn view(&self) -> (u8, u8) {
        (self.0, self.1)
    }
}

impl CoverageRange {
    #[verifier::type_invariant]
    spec fn ordered(self) -> bool {
        self.0 <= self.1
    }

    /// The range from `start` to `end`, both included.
    pub fn new(start: u8, end: u8) -> (range: Self)
        requires
            start <= end,
        ensures
            range@ == (start, end),
    {
        CoverageRange(start, end)
    }

    /// Whether `value` lies in the range.
    pub fn contains(&self, value: u8) -> (res: bool)
        ensures
            res == (self@.0 <= value <= self@.1),
    {
        self.0 <= value && value <= self.1
    }

    /// The hull of both ranges when the start of one lies within one index of
    /// the end of the other.
    pub fn contiguous_union(&self, other: Self) -> (res: Option<Self>)
        ensures
            match res {
                Some(joined) => union_of(self@, other@) == Some(joined@),
                None => union_of(self@, other@) is None,
            },
            (-1 <= self@.0 - other@.1 <= 1 || -1 <= other@.0 - self@.1 <= 1) ==> res is Some
                && res.unwrap()@.0 == (if self@.0 <= other@.0 { self@.0 } else { other@.0 })
                && res.unwrap()@.1 == (if self@.1 <= other@.1 { other@.1 } else { self@.1 }),
            !(-1 <= self@.0 - other@.1 <= 1 || -1 <= other@.0 - self@.1 <= 1) ==> res is None,
    {
        proof {
            use_type_invariant(self);
            use_type_invariant(&other);
        }
        let d1: i16 = self.0 as i16 - other.1 as i16;
        let d2: i16 = other.0 as i16 - self.1 as i16;
        if (-1 <= d1 && d1 <= 1) || (-1 <= d2 && d2 <= 1) {
            let start: u8 = if self.0 <= other.0 { self.0 } else { other.0 };
            let end: u8 = if self.1 <= other.1 { other.1 } else { self.1 };
            Some(CoverageRange(start, end))
        } else {
            None
        }
    }
}


/// The spans of a sequence of ranges.
pub open spec fn spans(s: Seq<CoverageRange>) -> Seq<(u8, u8)> {
    s.map_values(|r: CoverageRange| r@)
}

/// The sequence with every element that repeats its predecessor dropped.
pub open spec fn dedup_spans(s: Seq<(u8, u8)>) -> Seq<(u8, u8)>
    decreases s.len(),
{
    if s.len() <= 1 {
        s
    } else {
        let kept = dedup_spans(s.drop_last());
        if s.last() == s[s.len() - 2] {
            kept
        } else {
            kept.push(s.last())
        }
    }
}

/// `x` placed after the last element whose start is at most the start of `x`.
pub open spec fn insert_by_start(s: Seq<(u8, u8)>, x: (u8, u8)) -> Seq<(u8, u8)>
    decreases s.len(),
{
    if s.len() == 0 {
        seq![x]
    } else if s.last().0 <= x.0 {
        s.push(x)
    } else {
        insert_by_start(s.drop_last(), x).push(s.last())
    }
}

/// The sequence ordered by start; spans with equal starts keep their order.
pub open spec fn sort_by_start(s: Seq<(u8, u8)>) -> Seq<(u8, u8)>
    decreases s.len(),
{
    if s.len() == 0 {
        s
    } else {
        insert_by_start(sort_by_start(s.drop_last()), s.last())
    }
}

/// Coalescing of `rest` after `done` has been emitted and `last` is pending:
/// `last` absorbs the next span while the two join, and is emitted otherwise.
pub open spec fn coalesce_from(done: Seq<(u8, u8)>, last: (u8, u8), rest: Seq<(u8, u8)>) -> Seq<(u8, u8)>
    decreases rest.len(),
{
    if rest.len() == 0 {
        done.push(last)
    } else {
        match union_of(last, rest[0]) {
            Some(joined) => coalesce_from(done, joined, rest.drop_first()),
            None => coalesce_from(done.push(last), rest[0], rest.drop_first()),
        }
    }
}

/// Consecutive spans merged by `union_of`, from left to right.
pub open spec fn coalesce_spans(s: Seq<(u8, u8)>) -> Seq<(u8, u8)> {
    if s.len() == 0 {
        s
    } else {
        coalesce_from(Seq::empty(), s[0], s.drop_first())
    }
}

/// What `Condensed::ensure` makes of a sequence of spans.
pub open spec fn condensed(s: Seq<(u8, u8)>) -> Seq<(u8, u8)> {
    coalesce_spans(sort_by_start(dedup_spans(s)))
}

/// The pair handed to the coalescing iterator: the joined range, or both
/// ranges back when they do not join.
fn join_step(prev: CoverageRange, curr: CoverageRange) -> (res: Result<CoverageRange, (CoverageRange, CoverageRange)>)
    ensures
        match res {
            Ok(joined) => union_of(prev@, curr@) == Some(joined@),
            Err((p, c)) => union_of(prev@, curr@) is None && p == prev && c == curr,
        },
{
    match prev.contiguous_union(curr) {
        Some(joined) => Ok(joined),
        None => Err((prev, curr)),
    }
}

/// `Itertools::coalesce` over the ranges, with `join_step` as the merge
/// closure. As itertools documents it, the closure gets the pending element
/// and the next one; `Ok` makes the joined value pending, `Err((p, c))`
/// emits `p` and makes `c` pending, and the last pending value is emitted at
/// the end. The contract states that left-to-right scan as `coalesce_spans`.
#[verifier::external_body]
fn coalesce_ranges(ranges: Vec<CoverageRange>) -> (res: Vec<CoverageRange>)
    ensures
        spans(res@) == coalesce_spans(spans(ranges@)),
{
    ranges.into_iter().coalesce(|prev, curr| join_step(prev, curr)).collect()
}


proof fn lemma_dedup_step(s: Seq<(u8, u8)>, i: int)
    requires
        0 <= i < s.len(),
    ensures
        dedup_spans(s.take(i + 1)) == if i > 0 && s[i] == s[i - 1] {
            dedup_spans(s.take(i))
        } else {
            dedup_spans(s.take(i)).push(s[i])
        },
{
    if i == 0 {
        assert(s.take(1) =~= seq![s[0]]);
        assert(dedup_spans(s.take(0)) =~= Seq::<(u8, u8)>::empty());
        assert(Seq::<(u8, u8)>::empty().push(s[0]) =~= seq![s[0]]);
    } else {
        assert(s.take(i + 1).drop_last() =~= s.take(i));
    }
}

proof fn lemma_insert_at(t: Seq<(u8, u8)>, x: (u8, u8), j: int)
    requires
        0 <= j <= t.len(),
        j == 0 || t[j - 1].0 <= x.0,
        forall|k: int| j <= k < t.len() ==> t[k].0 > x.0,
    ensures
        insert_by_start(t, x) == t.insert(j, x),
    decreases t.len(),
{
    if t.len() == 0 {
        assert(t.insert(j, x) =~= seq![x]);
    } else if j == t.len() {
        assert(t.insert(j, x) =~= t.push(x));
    } else {
        lemma_insert_at(t.drop_last(), x, j);
        assert(t.drop_last().insert(j, x).push(t.last()) =~= t.insert(j, x));
    }
}

proof fn lemma_sort_step(s: Seq<(u8, u8)>, i: int)
    requires
        0 <= i < s.len(),
    ensures
        sort_by_start(s.take(i + 1)) == insert_by_start(sort_by_start(s.take(i)), s[i]),
{
    assert(s.take(i + 1).drop_last() =~= s.take(i));
}

/// The ranges with each repeat of its predecessor removed.
fn dedup_ranges(v: &Vec<CoverageRange>) -> (res: Vec<CoverageRange>)
    ensures
        spans(res@) == dedup_spans(spans(v@)),
        all_ordered(spans(v@)),
{
    let mut kept: Vec<CoverageRange> = Vec::new();
    let mut i: usize = 0;
    while i < v.len()
        invariant
            i <= v.len(),
            spans(kept@) == dedup_spans(spans(v@).take(i as int)),
            forall|k: int| 0 <= k < i ==> v@[k]@.0 <= v@[k]@.1,
        decreases v.len() - i,
    {
        let ghost before = kept@;
        let current = &v[i];
        proof {
            use_type_invariant(current);
        }
        proof {
            lemma_dedup_step(spans(v@), i as int);
        }
        if i == 0 || v[i] != v[i - 1] {
            kept.push(v[i]);
            assert(spans(kept@) =~= spans(before).push(v@[i as int]@));
        }
        i += 1;
    }
    assert(spans(v@).take(v.len() as int) =~= spans(v@));
    kept
}

/// The ranges ordered by start by insertion; equal starts keep their order.
fn sort_ranges(v: Vec<CoverageRange>) -> (res: Vec<CoverageRange>)
    ensures
        spans(res@) == sort_by_start(spans(v@)),
{
    let mut sorted: Vec<CoverageRange> = Vec::new();
    let mut i: usize = 0;
    assert(spans(v@).take(0) =~= Seq::<(u8, u8)>::empty());
    while i < v.len()
        invariant
            i <= v.len(),
            spans(sorted@) == sort_by_start(spans(v@).take(i as int)),
        decreases v.len() - i,
    {
        let x = v[i];
        let mut j: usize = sorted.len();
        while j > 0 && sorted[j - 1].0 > x.0
            invariant
                j <= sorted.len(),
                forall|k: int| j <= k < sorted.len() ==> sorted@[k]@.0 > x@.0,
            decreases j,
        {
            j -= 1;
        }
        let ghost before = spans(sorted@);
        sorted.insert(j, x);
        proof {
            lemma_insert_at(before, x@, j as int);
            lemma_sort_step(spans(v@), i as int);
            assert(spans(sorted@) =~= before.insert(j as int, x@));
        }
        i += 1;
    }
    assert(spans(v@).take(v.len() as int) =~= spans(v@));
    sorted
}


/// The indices that a span covers.
pub open spec fn span_set(a: (u8, u8)) -> Set<int> {
    Set::new(|i: int| a.0 <= i <= a.1)
}

/// The indices that some span of the sequence covers.
pub open spec fn covered(s: Seq<(u8, u8)>) -> Set<int> {
    Set::new(|i: int| exists|k: int| 0 <= k < s.len() && (#[trigger] s[k]).0 <= i <= s[k].1)
}

/// Every span starts no later than it ends.
pub open spec fn all_ordered(s: Seq<(u8, u8)>) -> bool {
    forall|k: int| 0 <= k < s.len() ==> s[k].0 <= s[k].1
}

/// Starts never decrease along the sequence.
pub open spec fn sorted_by_start(s: Seq<(u8, u8)>) -> bool {
    forall|i: int, j: int| 0 <= i <= j < s.len() ==> s[i].0 <= s[j].0
}

proof fn lemma_covered_empty(s: Seq<(u8, u8)>)
    requires
        s.len() == 0,
    ensures
        covered(s) == Set::<int>::empty(),
{
    assert(covered(s) =~= Set::<int>::empty());
}

proof fn lemma_covered_push(s: Seq<(u8, u8)>, x: (u8, u8))
    ensures
        covered(s.push(x)) == covered(s).union(span_set(x)),
{
    let t = s.push(x);
    assert forall|i: int| covered(t).contains(i) <==> covered(s).union(span_set(x)).contains(i) by {
        if covered(t).contains(i) {
            let k = choose|k: int| 0 <= k < t.len() && (#[trigger] t[k]).0 <= i <= t[k].1;
            if k < s.len() {
                assert(s[k] == t[k]);
            }
        }
        if covered(s).contains(i) {
            let k = choose|k: int| 0 <= k < s.len() && (#[trigger] s[k]).0 <= i <= s[k].1;
            assert(t[k] == s[k]);
        }
        if span_set(x).contains(i) {
            assert(t[s.len() as int] == x);
        }
    }
    assert(covered(t) =~= covered(s).union(span_set(x)));
}

proof fn lemma_covered_first(s: Seq<(u8, u8)>)
    requires
        s.len() > 0,
    ensures
        covered(s) == span_set(s[0]).union(covered(s.drop_first())),
{
    let r = s.drop_first();
    assert forall|i: int| covered(s).contains(i) <==> span_set(s[0]).union(covered(r)).contains(i) by {
        if covered(s).contains(i) {
            let k = choose|k: int| 0 <= k < s.len() && (#[trigger] s[k]).0 <= i <= s[k].1;
            if k > 0 {
                assert(r[k - 1] == s[k]);
            }
        }
        if covered(r).contains(i) {
            let k = choose|k: int| 0 <= k < r.len() && (#[trigger] r[k]).0 <= i <= r[k].1;
            assert(s[k + 1] == r[k]);
        }
    }
    assert(covered(s) =~= span_set(s[0]).union(covered(r)));
}

proof fn lemma_covered_insert(t: Seq<(u8, u8)>, j: int, x: (u8, u8))
    requires
        0 <= j <= t.len(),
    ensures
        covered(t.insert(j, x)) == covered(t).union(span_set(x)),
{
    let u = t.insert(j, x);
    assert forall|i: int| covered(u).contains(i) <==> covered(t).union(span_set(x)).contains(i) by {
        if covered(u).contains(i) {
            let k = choose|k: int| 0 <= k < u.len() && (#[trigger] u[k]).0 <= i <= u[k].1;
            if k < j {
                assert(u[k] == t[k]);
            } else if k > j {
                assert(u[k] == t[k - 1]);
            }
        }
        if covered(t).contains(i) {
            let k = choose|k: int| 0 <= k < t.len() && (#[trigger] t[k]).0 <= i <= t[k].1;
            if k < j {
                assert(u[k] == t[k]);
            } else {
                assert(u[k + 1] == t[k]);
            }
        }
        if span_set(x).contains(i) {
            assert(u[j] == x);
        }
    }
    assert(covered(u) =~= covered(t).union(span_set(x)));
}

proof fn lemma_hull_covers(a: (u8, u8), b: (u8, u8))
    requires
        a.0 <= a.1,
        b.0 <= b.1,
        touching(a, b),
    ensures
        span_set(hull(a, b)) == span_set(a).union(span_set(b)),
{
    assert(span_set(hull(a, b)) =~= span_set(a).union(span_set(b)));
}

proof fn lemma_dedup_props(s: Seq<(u8, u8)>)
    ensures
        covered(dedup_spans(s)) == covered(s),
        all_ordered(s) ==> all_ordered(dedup_spans(s)),
    decreases s.len(),
{
    if s.len() > 1 {
        let front = s.drop_last();
        lemma_dedup_props(front);
        assert(s =~= front.push(s.last()));
        lemma_covered_push(front, s.last());
        let kept = dedup_spans(front);
        if s.last() == s[s.len() - 2] {
            assert(span_set(s.last()).subset_of(covered(front))) by {
                assert forall|i: int| span_set(s.last()).contains(i) implies covered(front).contains(i) by {
                    assert(front[s.len() - 2] == s.last());
                }
            }
            assert(covered(s) =~= covered(front));
        } else {
            lemma_covered_push(kept, s.last());
        }
    }
}

/// The position at which `insert_by_start` places `x` in `t`.
spec fn insertion_point(t: Seq<(u8, u8)>, x: (u8, u8)) -> int
    decreases t.len(),
{
    if t.len() == 0 {
        0
    } else if t.last().0 <= x.0 {
        t.len() as int
    } else {
        insertion_point(t.drop_last(), x)
    }
}

proof fn lemma_insertion_point(t: Seq<(u8, u8)>, x: (u8, u8))
    requires
        sorted_by_start(t),
    ensures
        0 <= insertion_point(t, x) <= t.len(),
        forall|k: int| 0 <= k < insertion_point(t, x) ==> t[k].0 <= x.0,
        forall|k: int| insertion_point(t, x) <= k < t.len() ==> t[k].0 > x.0,
        insert_by_start(t, x) == t.insert(insertion_point(t, x), x),
    decreases t.len(),
{
    let j = insertion_point(t, x);
    if t.len() > 0 && t.last().0 > x.0 {
        let f = t.drop_last();
        assert forall|a: int, b: int| 0 <= a <= b < f.len() implies f[a].0 <= f[b].0 by {
            assert(f[a] == t[a] && f[b] == t[b]);
        }
        lemma_insertion_point(f, x);
        assert forall|k: int| j <= k < t.len() implies t[k].0 > x.0 by {
            if k < f.len() {
                assert(t[k] == f[k]);
            }
        }
        assert forall|k: int| 0 <= k < j implies t[k].0 <= x.0 by {
            assert(t[k] == f[k]);
        }
    } else if t.len() > 0 {
        assert forall|k: int| 0 <= k < j implies t[k].0 <= x.0 by {
            assert(t[k].0 <= t[t.len() - 1].0);
        }
    }
    lemma_insert_at(t, x, j);
}

proof fn lemma_sort_props(s: Seq<(u8, u8)>)
    ensures
        sorted_by_start(sort_by_start(s)),
        covered(sort_by_start(s)) == covered(s),
        all_ordered(s) ==> all_ordered(sort_by_start(s)),
        sort_by_start(s).len() == s.len(),
    decreases s.len(),
{
    if s.len() == 0 {
    } else {
        let front = s.drop_last();
        let t = sort_by_start(front);
        let x = s.last();
        lemma_sort_props(front);
        lemma_insertion_point(t, x);
        let j = insertion_point(t, x);
        let u = t.insert(j, x);
        assert(u.len() == t.len() + 1);
        assert forall|a: int, b: int| 0 <= a <= b < u.len() implies u[a].0 <= u[b].0 by {
            if a < j {
                if b < j {
                } else if b == j {
                } else {
                    assert(u[b] == t[b - 1]);
                }
            } else if a == j {
                if b > j {
                    assert(u[b] == t[b - 1]);
                }
            } else {
                assert(u[a] == t[a - 1]);
                assert(u[b] == t[b - 1]);
            }
        }
        lemma_covered_insert(t, j, x);
        assert(s =~= front.push(x));
        lemma_covered_push(front, x);
        if all_ordered(s) {
            assert(all_ordered(front));
            assert forall|k: int| 0 <= k < u.len() implies u[k].0 <= u[k].1 by {
                if k < j {
                } else if k == j {
                } else {
                    assert(u[k] == t[k - 1]);
                }
            }
        }
    }
}

proof fn lemma_coalesce_from(done: Seq<(u8, u8)>, last: (u8, u8), rest: Seq<(u8, u8)>)
    requires
        all_ordered(done),
        sorted_by_start(done),
        last.0 <= last.1,
        done.len() > 0 ==> done.last().0 <= last.0,
        all_ordered(rest),
        sorted_by_start(rest),
        rest.len() > 0 ==> last.0 <= rest[0].0,
    ensures
        covered(coalesce_from(done, last, rest)) == covered(done).union(span_set(last)).union(
            covered(rest),
        ),
        all_ordered(coalesce_from(done, last, rest)),
        sorted_by_start(coalesce_from(done, last, rest)),
    decreases rest.len(),
{
    let pushed = done.push(last);
    assert(sorted_by_start(pushed)) by {
        assert forall|a: int, b: int| 0 <= a <= b < pushed.len() implies pushed[a].0 <= pushed[b].0 by {
            if b == done.len() && a < b {
                assert(done[a].0 <= done.last().0);
            }
        }
    }
    assert(all_ordered(pushed));
    lemma_covered_push(done, last);
    if rest.len() == 0 {
        lemma_covered_empty(rest);
        assert(covered(done).union(span_set(last)).union(covered(rest)) =~= covered(done).union(
            span_set(last),
        ));
    } else {
        let next = rest[0];
        let tail = rest.drop_first();
        lemma_covered_first(rest);
        assert(all_ordered(tail));
        assert(sorted_by_start(tail));
        if tail.len() > 0 {
            assert(rest[1] == tail[0]);
        }
        match union_of(last, next) {
            Some(joined) => {
                lemma_hull_covers(last, next);
                lemma_coalesce_from(done, joined, tail);
                assert(covered(done).union(span_set(joined)).union(covered(tail)) =~= covered(
                    done,
                ).union(span_set(last)).union(covered(rest)));
            },
            None => {
                lemma_coalesce_from(pushed, next, tail);
                assert(covered(pushed).union(span_set(next)).union(covered(tail)) =~= covered(
                    done,
                ).union(span_set(last)).union(covered(rest)));
            },
        }
    }
}

/// Joining two ranges does not depend on their order.
pub proof fn lemma_contiguous_union_symmetric(a: (u8, u8), b: (u8, u8))
    ensures
        union_of(a, b) == union_of(b, a),
{
}

/// When two well-formed ranges join, the joined range covers exactly the
/// indices that one of the two covers: joining adds and loses nothing.
pub proof fn lemma_contiguous_union_covers(a: (u8, u8), b: (u8, u8))
    requires
        a.0 <= a.1,
        b.0 <= b.1,
    ensures
        union_of(a, b) matches Some(joined) ==> span_set(joined) == span_set(a).union(span_set(b))
            && joined.0 <= joined.1,
{
    if touching(a, b) {
        lemma_hull_covers(a, b);
    }
}

/// No range starts within one index of the end of the range before it.
pub open spec fn separated(s: Seq<(u8, u8)>) -> bool {
    forall|i: int, j: int| 0 <= i && j == i + 1 && j < s.len() ==> !(-1 <= #[trigger] s[j].0 - #[trigger] s[i].1 <= 1)
}

/// No element repeats the one before it.
pub open spec fn no_repeats(s: Seq<(u8, u8)>) -> bool {
    forall|i: int, j: int| 0 <= i && j == i + 1 && j < s.len() ==> #[trigger] s[i] != #[trigger] s[j]
}

proof fn lemma_coalesce_separated(done: Seq<(u8, u8)>, last: (u8, u8), rest: Seq<(u8, u8)>)
    requires
        separated(done),
        done.len() > 0 ==> !(-1 <= last.0 - done.last().1 <= 1),
        sorted_by_start(rest),
        rest.len() > 0 ==> last.0 <= rest[0].0,
    ensures
        separated(coalesce_from(done, last, rest)),
    decreases rest.len(),
{
    let pushed = done.push(last);
    assert(separated(pushed)) by {
        assert forall|i: int, j: int| 0 <= i && j == i + 1 && j < pushed.len() implies !(-1 <= #[trigger] pushed[j].0
            - #[trigger] pushed[i].1 <= 1) by {
            if j < done.len() {
                assert(pushed[j] == done[j] && pushed[i] == done[i]);
            }
        }
    }
    if rest.len() > 0 {
        let next = rest[0];
        let tail = rest.drop_first();
        assert(sorted_by_start(tail));
        if tail.len() > 0 {
            assert(rest[1] == tail[0]);
        }
        match union_of(last, next) {
            Some(joined) => {
                lemma_coalesce_separated(done, joined, tail);
            },
            None => {
                lemma_coalesce_separated(pushed, next, tail);
            },
        }
    }
}

proof fn lemma_dedup_last(s: Seq<(u8, u8)>)
    requires
        s.len() > 0,
    ensures
        dedup_spans(s).len() > 0,
        dedup_spans(s).last() == s.last(),
    decreases s.len(),
{
    if s.len() > 1 {
        lemma_dedup_last(s.drop_last());
    }
}

proof fn lemma_dedup_no_repeats(s: Seq<(u8, u8)>)
    ensures
        no_repeats(dedup_spans(s)),
    decreases s.len(),
{
    if s.len() > 1 {
        let front = s.drop_last();
        lemma_dedup_no_repeats(front);
        lemma_dedup_last(front);
        let kept = dedup_spans(front);
        if s.last() != s[s.len() - 2] {
            let d = kept.push(s.last());
            assert forall|i: int, j: int| 0 <= i && j == i + 1 && j < d.len() implies #[trigger] d[i] != #[trigger] d[j] by {
                if j < kept.len() {
                    assert(d[i] == kept[i] && d[j] == kept[j]);
                } else {
                    assert(d[i] == kept.last());
                }
            }
        }
    }
}

proof fn lemma_sort_permutes(s: Seq<(u8, u8)>)
    ensures
        sort_by_start(s).to_multiset() == s.to_multiset(),
    decreases s.len(),
{
    broadcast use vstd::seq_lib::group_to_multiset_ensures;

    if s.len() > 0 {
        let front = s.drop_last();
        lemma_sort_permutes(front);
        lemma_sort_props(front);
        let t = sort_by_start(front);
        lemma_insertion_point(t, s.last());
        assert(s =~= front.push(s.last()));
    }
}

/// The three steps of condensing each do their part: dropping repeats
/// leaves no element equal to the one before it and keeps the covered
/// indices; ordering by start keeps every range, as many times as it was
/// there, and leaves the starts in order.
pub proof fn lemma_condense_steps(s: Seq<(u8, u8)>)
    ensures
        no_repeats(dedup_spans(s)),
        covered(dedup_spans(s)) == covered(s),
        sort_by_start(s).to_multiset() == s.to_multiset(),
        sorted_by_start(sort_by_start(s)),
{
    lemma_dedup_no_repeats(s);
    lemma_dedup_props(s);
    lemma_sort_permutes(s);
    lemma_sort_props(s);
}

/// The indices of a range run one by one from its start to its end, and the
/// indices of two sequences of ranges are those of the first followed by
/// those of the second.
pub proof fn lemma_indices_structure(a: (u8, u8), s: Seq<(u8, u8)>, t: Seq<(u8, u8)>)
    ensures
        a.0 <= a.1 ==> indices_of(seq![a]).len() == a.1 - a.0 + 1,
        a.0 <= a.1 ==> forall|k: int| 0 <= k <= a.1 - a.0 ==> #[trigger] indices_of(seq![a])[k] == a.0 + k,
        a.0 > a.1 ==> indices_of(seq![a]).len() == 0,
        indices_of(s + t) == indices_of(s) + indices_of(t),
    decreases t.len(),
{
    let one = seq![a];
    assert(one.drop_last() =~= Seq::<(u8, u8)>::empty());
    assert(one.last() == a);
    assert(indices_of(one.drop_last()) =~= Seq::<usize>::empty());
    assert(Seq::<usize>::empty() + span_indices(a) =~= span_indices(a));
    assert(indices_of(one) =~= span_indices(a));
    if t.len() == 0 {
        assert(s + t =~= s);
        assert(indices_of(s) + indices_of(t) =~= indices_of(s));
    } else {
        lemma_indices_structure(a, s, t.drop_last());
        assert((s + t).drop_last() =~= s + t.drop_last());
        assert((s + t).last() == t.last());
        assert(indices_of(s + t.drop_last()) + span_indices(t.last()) =~= indices_of(s) + (indices_of(
            t.drop_last(),
        ) + span_indices(t.last())));
    }
}

/// Two ranges join exactly when the start of one lies within one index of
/// the end of the other, on either side and including the start being one
/// before that end; the joined range runs from the smaller start to the
/// larger end.
pub proof fn lemma_join_when_touching(a: (u8, u8), b: (u8, u8))
    ensures
        (-1 <= a.0 - b.1 <= 1 || -1 <= b.0 - a.1 <= 1) ==> union_of(a, b) == Some(
            ((if a.0 <= b.0 { a.0 } else { b.0 }), (if a.1 <= b.1 { b.1 } else { a.1 })),
        ),
        !(-1 <= a.0 - b.1 <= 1 || -1 <= b.0 - a.1 <= 1) ==> union_of(a, b) is None,
        union_of((0u8, 5u8), (4u8, 9u8)) == Some((0u8, 9u8)),
{
}

/// Condensing well-formed ranges keeps the set of covered indices, leaves
/// every range well-formed, and orders the ranges by start.
pub proof fn lemma_condensed_coverage(s: Seq<(u8, u8)>)
    requires
        all_ordered(s),
    ensures
        covered(condensed(s)) == covered(s),
        all_ordered(condensed(s)),
        sorted_by_start(condensed(s)),
        separated(condensed(s)),
{
    let d = dedup_spans(s);
    lemma_dedup_props(s);
    let t = sort_by_start(d);
    lemma_sort_props(d);
    if t.len() == 0 {
        lemma_covered_empty(t);
        assert(condensed(s) == t);
    } else {
        let e = Seq::<(u8, u8)>::empty();
        lemma_covered_empty(e);
        lemma_covered_first(t);
        assert(t.drop_first().len() > 0 ==> t.drop_first()[0] == t[1]);
        lemma_coalesce_from(e, t[0], t.drop_first());
        lemma_coalesce_separated(e, t[0], t.drop_first());
        assert(Set::<int>::empty().union(span_set(t[0])).union(covered(t.drop_first())) =~= covered(
            t,
        ));
    }
}


/// The indices of a span, in increasing order.
pub open spec fn span_indices(a: (u8, u8)) -> Seq<usize> {
    Seq::new(
        if a.0 <= a.1 {
            (a.1 - a.0 + 1) as nat
        } else {
            0
        },
        |k: int| (a.0 + k) as usize,
    )
}

/// The indices of each span in turn.
pub open spec fn indices_of(s: Seq<(u8, u8)>) -> Seq<usize>
    decreases s.len(),
{
    if s.len() == 0 {
        Seq::empty()
    } else {
        indices_of(s.drop_last()) + span_indices(s.last())
    }
}

/// An index occurs in `indices_of(s)` exactly when some span of `s` covers it.
pub proof fn lemma_indices_cover(s: Seq<(u8, u8)>)
    ensures
        forall|i: usize| indices_of(s).contains(i) <==> covered(s).contains(i as int),
    decreases s.len(),
{
    if s.len() == 0 {
        lemma_covered_empty(s);
    } else {
        let front = s.drop_last();
        lemma_indices_cover(front);
        assert(s =~= front.push(s.last()));
        lemma_covered_push(front, s.last());
        let a = s.last();
        let left = indices_of(front);
        let right = span_indices(a);
        assert forall|i: usize| indices_of(s).contains(i) <==> covered(s).contains(i as int) by {
            if indices_of(s).contains(i) {
                let k = choose|k: int| 0 <= k < indices_of(s).len() && indices_of(s)[k] == i;
                if k >= left.len() {
                    assert(right[k - left.len()] == i);
                } else {
                    assert(left[k] == i);
                }
            }
            if covered(s).contains(i as int) {
                if covered(front).contains(i as int) {
                    let k = choose|k: int| 0 <= k < left.len() && left[k] == i;
                    assert(indices_of(s)[k] == i);
                } else {
                    let k = i - a.0;
                    assert(right[k] == i);
                    assert(indices_of(s)[left.len() + k] == i);
                }
            }
        }
    }
}

/// The property that `ChannelCoverage` keeps: ranges deduplicated, sorted by
/// start and coalesced where one starts next to where another ends.
#[derive(Clone, Copy)]
pub struct Condensed;

impl Condensed {
    /// Brings the ranges into condensed form: consecutive repeats dropped,
    /// ranges ordered by start (equal starts keep their order), and each
    /// range joined with the next while `contiguous_union` joins them.
    pub fn ensure(target: &mut Vec<CoverageRange>)
        ensures
            spans(final(target)@) == condensed(spans(old(target)@)),
            covered(spans(final(target)@)) == covered(spans(old(target)@)),
            sorted_by_start(spans(final(target)@)),
            separated(spans(final(target)@)),
    {
        let deduped = dedup_ranges(target);
        let sorted = sort_ranges(deduped);
        let joined = coalesce_ranges(sorted);
        proof {
            lemma_condensed_coverage(spans(old(target)@));
        }
        *target = joined;
    }
}

/// The channels that an item covers, kept condensed.
#[derive(Clone)]
pub struct ChannelCoverage(Vec<CoverageRange>);

impl View for ChannelCoverage {
    type V = Seq<(u8, u8)>;

    closed spec fn view(&self) -> Seq<(u8, u8)> {
        spans(self.0@)
    }
}

impl ChannelCoverage {
    /// The coverage of the given ranges, condensed.
    pub fn new(ranges: Vec<CoverageRange>) -> (coverage: Self)
        ensures
            coverage@ == condensed(spans(ranges@)),
            covered(coverage@) == covered(spans(ranges@)),
    {
        let mut ranges = ranges;
        Condensed::ensure(&mut ranges);
        ChannelCoverage(ranges)
    }

    /// The condensed ranges.
    pub fn ranges(&self) -> (res: &Vec<CoverageRange>)
        ensures
            spans(res@) == self@,
    {
        &self.0
    }

    /// Every covered channel index, range by range in increasing order within
    /// each range.
    pub fn iter(&self) -> (res: Vec<usize>)
        ensures
            res@ == indices_of(self@),
            forall|i: usize| res@.contains(i) <==> covered(self@).contains(i as int),
    {
        let mut out: Vec<usize> = Vec::new();
        let mut i: usize = 0;
        let ghost s = spans(self.0@);
        assert(s.take(0) =~= Seq::<(u8, u8)>::empty());
        while i < self.0.len()
            invariant
                s == spans(self.0@),
                i <= self.0.len(),
                out@ == indices_of(s.take(i as int)),
            decreases self.0.len() - i,
        {
            let range = &self.0[i];
            proof {
                use_type_invariant(range);
            }
            let start: usize = range.0 as usize;
            let end: usize = range.1 as usize;
            let ghost base = out@;
            let mut x: usize = start;
            while x <= end
                invariant
                    start <= x <= end + 1,
                    end < 256,
                    out@ == base + Seq::new((x - start) as nat, |k: int| (start + k) as usize),
                decreases end + 1 - x,
            {
                out.push(x);
                x += 1;
                assert(out@ =~= base + Seq::new((x - start) as nat, |k: int| (start + k) as usize));
            }
            proof {
                assert(s.take(i + 1).drop_last() =~= s.take(i as int));
                assert(Seq::new((x - start) as nat, |k: int| (start + k) as usize) =~= span_indices(s[i as int]));
            }
            i += 1;
        }
        assert(s.take(self.0.len() as int) =~= s);
        proof {
            lemma_indices_cover(s);
        }
        out
    }
}

/// The main source of a channel and the delegate that a hit may switch to.
#[derive(Clone, Copy)]
pub struct Sources<Id> {
    pub main: Id,
    pub delegation: Option<Id>,
}

impl<Id: Copy> Sources<Id> {
    /// The delegate when the channel is delegated and has one, else the main
    /// source.
    pub fn pick(&self, delegated: bool) -> (id: Id)
        ensures
            id == match self.delegation {
                Some(delegation) if delegated => delegation,
                _ => self.main,
            },
    {
        match self.delegation {
            Some(delegation) if delegated => delegation,
            _ => self.main,
        }
    }
}

} // verus!
