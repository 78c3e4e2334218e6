//! Ranking: from stored chunks that have been scored against a query to
//! the nearest few of them.

use crate::score::Score;
use vstd::prelude::*;

verus! {

/// A stored chunk scored against a query.
#[derive(Debug, PartialEq, Eq)]
pub struct Candidate {
    /// The text of the chunk.
    pub text: String,
    /// The distance from the chunk's embedding to the query.
    pub distance: Score,
    /// The distance from the embedding of the chunk's document name to the
    /// query, where the chunk was stored with one.
    pub name_distance: Option<Score>,
}

/// What a [`Candidate`] is to the specifications.
pub struct CandidateView {
    pub text: Seq<char>,
    pub distance: Score,
    pub name_distance: Option<Score>,
}

impl View for Candidate {
    type V = CandidateView;

    open spec fn view(&self) -> CandidateView {
        CandidateView {
            text: self.text@,
            distance: self.distance,
            name_distance: self.name_distance,
        }
    }
}

/// A chunk that a query returns, with its distance to the query.
#[derive(Debug, PartialEq, Eq)]
pub struct Hit {
    pub text: String,
    pub distance: Score,
}

/// What a [`Hit`] is to the specifications.
pub struct HitView {
    pub text: Seq<char>,
    pub distance: Score,
}

impl View for Hit {
    type V = HitView;

    open spec fn view(&self) -> HitView {
        HitView { text: self.text@, distance: self.distance }
    }
}

/// A filter on the name of a chunk's document: the chunk is eligible only if
/// the distance from the embedding of that name to the query is above the
/// threshold.
#[derive(Clone, Copy, Debug, PartialEq, Eq, Structural)]
pub struct NameFilter {
    pub threshold: Score,
}

/// The views of scored chunks.
pub open spec fn candidate_views(v: Seq<Candidate>) -> Seq<CandidateView> {
    Seq::new(v.len(), |i: int| v[i]@)
}

/// The views of hits.
pub open spec fn hit_views(v: Seq<Hit>) -> Seq<HitView> {
    Seq::new(v.len(), |i: int| v[i]@)
}

/// Whether a chunk passes the filter.  Without a filter every chunk passes.
/// With one, a chunk passes if it has a name distance and that distance is
/// above the threshold.
pub open spec fn admits(filter: Option<NameFilter>, name_distance: Option<Score>) -> bool {
    match filter {
        None => true,
        Some(g) => match name_distance {
            Some(d) => d.exceeds(g.threshold),
            None => false,
        },
    }
}

/// The hit that a candidate makes.
pub open spec fn hit_of(c: CandidateView) -> HitView {
    HitView { text: c.text, distance: c.distance }
}

/// The candidates that pass the filter, as hits, in their order.
pub open spec fn eligible(cands: Seq<CandidateView>, filter: Option<NameFilter>) -> Seq<HitView>
    decreases cands.len(),
{
    if cands.len() == 0 {
        Seq::empty()
    } else {
        let before = eligible(cands.drop_last(), filter);
        if admits(filter, cands.last().name_distance) {
            before.push(hit_of(cands.last()))
        } else {
            before
        }
    }
}

/// Whether hit `a` is strictly nearer than hit `b`.
pub open spec fn nearer(a: HitView, b: HitView) -> bool {
    a.distance.rank() < b.distance.rank()
}

/// `h` put into `hits` behind every hit that is not farther than it.
pub open spec fn placed(hits: Seq<HitView>, h: HitView) -> Seq<HitView>
    decreases hits.len(),
{
    if hits.len() > 0 && nearer(h, hits.last()) {
        placed(hits.drop_last(), h).push(hits.last())
    } else {
        hits.push(h)
    }
}

/// The hits from nearest to farthest; hits at the same distance keep their
/// order.
pub open spec fn by_distance(hits: Seq<HitView>) -> Seq<HitView>
    decreases hits.len(),
{
    if hits.len() == 0 {
        Seq::empty()
    } else {
        placed(by_distance(hits.drop_last()), hits.last())
    }
}

/// The first `k` of `hits`, or all of them if they are fewer.
pub open spec fn first(hits: Seq<HitView>, k: int) -> Seq<HitView> {
    if k <= 0 {
        Seq::empty()
    } else if k < hits.len() {
        hits.take(k)
    } else {
        hits
    }
}

/// The answer to a query: of the candidates that pass the filter, the `k`
/// nearest, nearest first.  The filter is applied before the ranking, so a
/// chunk that fails it takes no place among the `k`.
pub open spec fn nearest(cands: Seq<CandidateView>, k: int, filter: Option<NameFilter>) -> Seq<
    HitView,
> {
    first(by_distance(eligible(cands, filter)), k)
}

/// Whether hits stand from nearest to farthest.
pub open spec fn ascending(hits: Seq<HitView>) -> bool {
    forall|i: int, j: int|
        0 <= i <= j < hits.len() ==> (#[trigger] hits[i]).distance.rank() <= (
        #[trigger] hits[j]).distance.rank()
}

/// Decides [`admits`].
pub fn passes(filter: &Option<NameFilter>, name_distance: &Option<Score>) -> (r: bool)
    ensures
        r == admits(*filter, *name_distance),
{
    match filter {
        None => true,
        Some(g) => match name_distance {
            Some(d) => d.gt(&g.threshold),
            None => false,
        },
    }
}

/// Where `placed` puts a hit: at the position that has every farther hit
/// of the tail behind it and a hit that is not farther just before it.
proof fn lemma_placed_is_insert(hits: Seq<HitView>, h: HitView, pos: int)
    requires
        0 <= pos <= hits.len(),
        forall|j: int| pos <= j < hits.len() ==> nearer(h, #[trigger] hits[j]),
        pos > 0 ==> !nearer(h, hits[pos - 1]),
    ensures
        placed(hits, h) == hits.insert(pos, h),
    decreases hits.len(),
{
    if pos == hits.len() {
        assert(hits.insert(pos, h) == hits.push(h));
    } else {
        assert(nearer(h, hits[hits.len() - 1]));
        let init = hits.drop_last();
        assert forall|j: int| pos <= j < init.len() implies nearer(h, #[trigger] init[j]) by {
            assert(init[j] == hits[j]);
        }
        lemma_placed_is_insert(init, h, pos);
        assert(init.insert(pos, h).push(hits.last()) == hits.insert(pos, h));
    }
}

/// Ranks scored chunks: drops those that fail the filter, orders the rest
/// from nearest to farthest, and keeps the first `k`.
pub fn rank_nearest(cands: &Vec<Candidate>, k: usize, filter: &Option<NameFilter>) -> (out: Vec<
    Hit,
>)
    ensures
        hit_views(out@) == nearest(candidate_views(cands@), k as int, *filter),
{
    let mut out: Vec<Hit> = Vec::new();
    let ghost all = candidate_views(cands@);
    let mut i: usize = 0;
    assert(all.take(0) =~= Seq::<CandidateView>::empty());
    while i < cands.len()
        invariant
            i <= cands.len(),
            all == candidate_views(cands@),
            hit_views(out@) == by_distance(eligible(all.take(i as int), *filter)),
        decreases cands.len() - i,
    {
        let c = &cands[i];
        proof {
            let next = all.take(i + 1);
            assert(next.drop_last() == all.take(i as int));
            assert(next.last() == c@);
        }
        if passes(filter, &c.name_distance) {
            let hit = Hit { text: c.text.clone(), distance: c.distance };
            let ghost before = hit_views(out@);
            let ghost added = eligible(all.take(i as int), *filter).push(hit@);
            assert(added.drop_last() == eligible(all.take(i as int), *filter));
            let mut pos: usize = out.len();
            while pos > 0 && hit.distance.ranks_before(&out[pos - 1].distance)
                invariant
                    pos <= out.len(),
                    before == hit_views(out@),
                    forall|j: int| pos <= j < out.len() ==> nearer(hit@, #[trigger] before[j]),
                decreases pos,
            {
                pos -= 1;
            }
            proof {
                lemma_placed_is_insert(before, hit@, pos as int);
            }
            out.insert(pos, hit);
            assert(hit_views(out@) == before.insert(pos as int, hit@));
        }
        i += 1;
    }
    assert(all.take(cands.len() as int) == all);
    let ghost sorted = hit_views(out@);
    if k < out.len() {
        out.truncate(k);
        assert(hit_views(out@) == sorted.take(k as int));
    }
    assert(hit_views(out@) == first(sorted, k as int));
    out
}


proof fn lemma_push_contains(s: Seq<HitView>, v: HitView, x: HitView)
    ensures
        s.push(v).contains(x) <==> (s.contains(x) || x == v),
{
    let t = s.push(v);
    if s.contains(x) {
        let i = choose|i: int| 0 <= i < s.len() && s[i] == x;
        assert(t[i] == x);
    }
    if x == v {
        assert(t[s.len() as int] == x);
    }
    if t.contains(x) {
        let i = choose|i: int| 0 <= i < t.len() && t[i] == x;
        if i < s.len() {
            assert(s[i] == x);
        }
    }
}

proof fn lemma_placed_members(hits: Seq<HitView>, h: HitView)
    ensures
        placed(hits, h).len() == hits.len() + 1,
        forall|x: HitView| #[trigger] placed(hits, h).contains(x) <==> (hits.contains(x) || x == h),
    decreases hits.len(),
{
    if hits.len() > 0 && nearer(h, hits.last()) {
        let init = hits.drop_last();
        lemma_placed_members(init, h);
        assert forall|x: HitView| #[trigger]
            placed(hits, h).contains(x) <==> (hits.contains(x) || x == h) by {
            lemma_push_contains(placed(init, h), hits.last(), x);
            lemma_push_contains(init, hits.last(), x);
            assert(init.push(hits.last()) == hits);
        }
    } else {
        assert forall|x: HitView| #[trigger]
            placed(hits, h).contains(x) <==> (hits.contains(x) || x == h) by {
            lemma_push_contains(hits, h, x);
        }
    }
}

proof fn lemma_placed_ascending(hits: Seq<HitView>, h: HitView)
    requires
        ascending(hits),
    ensures
        ascending(placed(hits, h)),
    decreases hits.len(),
{
    if hits.len() > 0 && nearer(h, hits.last()) {
        let init = hits.drop_last();
        assert(ascending(init)) by {
            assert forall|i: int, j: int| 0 <= i <= j < init.len() implies (
            #[trigger] init[i]).distance.rank() <= (#[trigger] init[j]).distance.rank() by {
                assert(init[i] == hits[i] && init[j] == hits[j]);
            }
        }
        lemma_placed_ascending(init, h);
        lemma_placed_members(init, h);
        let p = placed(init, h);
        let out = p.push(hits.last());
        assert forall|i: int, j: int| 0 <= i <= j < out.len() implies (
        #[trigger] out[i]).distance.rank() <= (#[trigger] out[j]).distance.rank() by {
            if j < p.len() {
                assert(out[i] == p[i] && out[j] == p[j]);
            } else if i < p.len() {
                assert(out[i] == p[i]);
                assert(p.contains(p[i]));
                if p[i] != h {
                    let m = choose|m: int| 0 <= m < init.len() && init[m] == p[i];
                    assert(init[m] == hits[m]);
                    assert(hits[m].distance.rank() <= hits[hits.len() - 1].distance.rank());
                }
            }
        }
    } else {
        let out = hits.push(h);
        assert forall|i: int, j: int| 0 <= i <= j < out.len() implies (
        #[trigger] out[i]).distance.rank() <= (#[trigger] out[j]).distance.rank() by {
            if j < hits.len() {
                assert(out[i] == hits[i] && out[j] == hits[j]);
            } else if i < hits.len() {
                assert(out[i] == hits[i]);
                assert(hits[i].distance.rank() <= hits[hits.len() - 1].distance.rank());
            }
        }
    }
}

/// Ordering by distance keeps every hit, adds none, and puts them from
/// nearest to farthest.
pub proof fn lemma_by_distance(hits: Seq<HitView>)
    ensures
        by_distance(hits).len() == hits.len(),
        forall|x: HitView| #[trigger] by_distance(hits).contains(x) <==> hits.contains(x),
        ascending(by_distance(hits)),
    decreases hits.len(),
{
    if hits.len() > 0 {
        let init = hits.drop_last();
        lemma_by_distance(init);
        lemma_placed_members(by_distance(init), hits.last());
        lemma_placed_ascending(by_distance(init), hits.last());
        assert forall|x: HitView| #[trigger]
            by_distance(hits).contains(x) <==> hits.contains(x) by {
            lemma_push_contains(init, hits.last(), x);
            assert(init.push(hits.last()) == hits);
        }
    }
}

/// The hits that pass the filter are the hits of the candidates that pass it.
pub proof fn lemma_eligible_members(cands: Seq<CandidateView>, filter: Option<NameFilter>)
    ensures
        eligible(cands, filter).len() <= cands.len(),
        forall|j: int|
            0 <= j < cands.len() && admits(filter, (#[trigger] cands[j]).name_distance)
                ==> eligible(cands, filter).contains(hit_of(cands[j])),
        forall|x: HitView| #[trigger]
            eligible(cands, filter).contains(x) ==> exists|j: int|
                0 <= j < cands.len() && admits(filter, (#[trigger] cands[j]).name_distance) && x
                    == hit_of(cands[j]),
    decreases cands.len(),
{
    if cands.len() > 0 {
        let init = cands.drop_last();
        let last = cands.last();
        lemma_eligible_members(init, filter);
        let e = eligible(cands, filter);
        assert forall|j: int|
            0 <= j < cands.len() && admits(
                filter,
                (#[trigger] cands[j]).name_distance,
            ) implies e.contains(hit_of(cands[j])) by {
            if j < init.len() {
                assert(init[j] == cands[j]);
                assert(eligible(init, filter).contains(hit_of(init[j])));
            }
            if admits(filter, last.name_distance) {
                lemma_push_contains(eligible(init, filter), hit_of(last), hit_of(cands[j]));
            }
        }
        assert forall|x: HitView| #[trigger] e.contains(x) implies exists|j: int|
            0 <= j < cands.len() && admits(filter, (#[trigger] cands[j]).name_distance) && x
                == hit_of(cands[j]) by {
            if admits(filter, last.name_distance) {
                lemma_push_contains(eligible(init, filter), hit_of(last), x);
            }
            if eligible(init, filter).contains(x) {
                let j = choose|j: int|
                    0 <= j < init.len() && admits(filter, (#[trigger] init[j]).name_distance) && x
                        == hit_of(init[j]);
                assert(cands[j] == init[j]);
            } else {
                assert(x == hit_of(cands[cands.len() - 1]));
            }
        }
    }
}

/// Hits of a query stand from nearest to farthest, are at most `k`, and
/// are as many as `k` and the candidates that pass the filter allow.
pub proof fn lemma_nearest_is_ranked(cands: Seq<CandidateView>, k: int, filter: Option<NameFilter>)
    ensures
        ascending(nearest(cands, k, filter)),
        nearest(cands, k, filter).len() == if k <= 0 {
            0
        } else if k < eligible(cands, filter).len() {
            k
        } else {
            eligible(cands, filter).len() as int
        },
{
    let sorted = by_distance(eligible(cands, filter));
    lemma_by_distance(eligible(cands, filter));
    let out = nearest(cands, k, filter);
    assert forall|i: int, j: int| 0 <= i <= j < out.len() implies (
    #[trigger] out[i]).distance.rank() <= (#[trigger] out[j]).distance.rank() by {
        assert(out[i] == sorted[i] && out[j] == sorted[j]);
    }
}

/// Every hit of a query is the hit of a candidate that passes the filter.
pub proof fn lemma_nearest_are_eligible(
    cands: Seq<CandidateView>,
    k: int,
    filter: Option<NameFilter>,
    p: int,
)
    requires
        0 <= p < nearest(cands, k, filter).len(),
    ensures
        exists|j: int|
            0 <= j < cands.len() && admits(filter, (#[trigger] cands[j]).name_distance) && nearest(
                cands,
                k,
                filter,
            )[p] == hit_of(cands[j]),
{
    let e = eligible(cands, filter);
    let sorted = by_distance(e);
    lemma_by_distance(e);
    lemma_eligible_members(cands, filter);
    assert(nearest(cands, k, filter)[p] == sorted[p]);
    assert(sorted.contains(sorted[p]));
    assert(e.contains(sorted[p]));
}

/// Where at least one hit is asked for and a candidate passes the filter,
/// there is a first hit, and no candidate that passes the filter is nearer
/// than it.
pub proof fn lemma_first_hit_is_nearest(
    cands: Seq<CandidateView>,
    k: int,
    filter: Option<NameFilter>,
    j: int,
)
    requires
        k >= 1,
        0 <= j < cands.len(),
        admits(filter, cands[j].name_distance),
    ensures
        nearest(cands, k, filter).len() >= 1,
        nearest(cands, k, filter)[0].distance.rank() <= cands[j].distance.rank(),
{
    let e = eligible(cands, filter);
    let sorted = by_distance(e);
    lemma_by_distance(e);
    lemma_eligible_members(cands, filter);
    let h = hit_of(cands[j]);
    assert(e.contains(h));
    assert(sorted.contains(h));
    let p = choose|p: int| 0 <= p < sorted.len() && sorted[p] == h;
    assert(sorted[0].distance.rank() <= sorted[p].distance.rank());
    assert(nearest(cands, k, filter)[0] == sorted[0]);
}

/// A candidate that passes the filter and is strictly nearer than every
/// other candidate that passes it is the first hit.
pub proof fn lemma_strictly_nearest_is_first(
    cands: Seq<CandidateView>,
    k: int,
    filter: Option<NameFilter>,
    j: int,
)
    requires
        k >= 1,
        0 <= j < cands.len(),
        admits(filter, cands[j].name_distance),
        forall|m: int|
            0 <= m < cands.len() && m != j && admits(filter, (#[trigger] cands[m]).name_distance)
                ==> cands[j].distance.rank() < cands[m].distance.rank(),
    ensures
        nearest(cands, k, filter).len() >= 1,
        nearest(cands, k, filter)[0] == hit_of(cands[j]),
{
    lemma_first_hit_is_nearest(cands, k, filter, j);
    lemma_nearest_are_eligible(cands, k, filter, 0);
    let m = choose|m: int|
        0 <= m < cands.len() && admits(filter, (#[trigger] cands[m]).name_distance) && nearest(
            cands,
            k,
            filter,
        )[0] == hit_of(cands[m]);
    assert(m == j);
}

/// A candidate that fails the filter changes no answer: the hits are those
/// of the query without it, however near it is.
pub proof fn lemma_filter_excludes(
    cands: Seq<CandidateView>,
    k: int,
    filter: Option<NameFilter>,
    j: int,
)
    requires
        0 <= j < cands.len(),
        !admits(filter, cands[j].name_distance),
    ensures
        nearest(cands, k, filter) == nearest(cands.remove(j), k, filter),
{
    lemma_eligible_skips(cands, filter, j);
}

proof fn lemma_eligible_skips(cands: Seq<CandidateView>, filter: Option<NameFilter>, j: int)
    requires
        0 <= j < cands.len(),
        !admits(filter, cands[j].name_distance),
    ensures
        eligible(cands, filter) == eligible(cands.remove(j), filter),
    decreases cands.len(),
{
    if j == cands.len() - 1 {
        assert(cands.remove(j) == cands.drop_last());
    } else {
        let init = cands.drop_last();
        lemma_eligible_skips(init, filter, j);
        assert(cands.remove(j).drop_last() == init.remove(j));
        assert(cands.remove(j).last() == cands.last());
    }
}

} // verus!
