//! Contour rows of a cache database turned into drawable contour lines: the
//! lines of one row kept and thinned, the per-tile feature budget, the
//! longest-first selection of the global layers, the bathymetry depth
//! budgets and topography stride, and the outcome of a batch read.
use crate::polyline::{simplified, simplify_line, PointBits};
use vstd::prelude::*;

verus! {

/// One contour line: its elevation (carried as given) and its points.
#[derive(Debug)]
pub struct ContourLine<E> {
    pub elevation: E,
    pub points: Vec<PointBits>,
}

impl<E: Copy> Clone for ContourLine<E> {
    /// A copy with the same elevation and points.
    fn clone(&self) -> (r: Self)
        ensures
            r@ == self@,
    {
        let points: Vec<PointBits> = self.points.clone();
        assert(points@ =~= self.points@);
        ContourLine { elevation: self.elevation, points }
    }
}

impl<E> View for ContourLine<E> {
    type V = (E, Seq<PointBits>);

    open spec fn view(&self) -> (E, Seq<PointBits>) {
        (self.elevation, self.points@)
    }
}

/// The values of a list of contour lines.
pub open spec fn line_views<E>(s: Seq<ContourLine<E>>) -> Seq<(E, Seq<PointBits>)> {
    Seq::new(s.len(), |i: int| s[i]@)
}

/// The points of a list of decoded lines.
pub open spec fn point_lists(s: Seq<Vec<PointBits>>) -> Seq<Seq<PointBits>> {
    Seq::new(s.len(), |i: int| s[i]@)
}

/// The lines of one row that are kept: each line of at least two points,
/// thinned by `step`, when it still has at least `min_points` points; all
/// with the row's elevation.
pub open spec fn row_lines<E>(elevation: E, lines: Seq<Seq<PointBits>>, step: int, min_points: int) -> Seq<
    (E, Seq<PointBits>),
>
    decreases lines.len(),
{
    if lines.len() == 0 {
        Seq::empty()
    } else {
        let r = row_lines(elevation, lines.drop_last(), step, min_points);
        let l = lines.last();
        if l.len() >= 2 && simplified(l, step).len() >= min_points {
            r.push((elevation, simplified(l, step)))
        } else {
            r
        }
    }
}

/// Append the kept lines of one row (see [`row_lines`]).
pub fn push_row_lines<E: Copy>(
    out: &mut Vec<ContourLine<E>>,
    elevation: E,
    lines: Vec<Vec<PointBits>>,
    step: usize,
    min_points: usize,
)
    ensures
        line_views(final(out)@) == line_views(old(out)@) + row_lines(
            elevation,
            point_lists(lines@),
            step as int,
            min_points as int,
        ),
{
    broadcast use vstd::std_specs::vec::axiom_spec_into_iter;

    let ghost s = point_lists(lines@);
    let ghost start = line_views(out@);
    let n: usize = lines.len();
    let mut idx: usize = 0;
    for line in it: lines
        invariant
            n == s.len(),
            it.seq() == lines@,
            s == point_lists(it.seq()),
            idx == it.index(),
            line_views(out@) == start + row_lines(elevation, s.take(idx as int), step as int, min_points as int),
    {
        assert(s.take(idx + 1).drop_last() =~= s.take(idx as int));
        assert(s[idx as int] == line@);
        if line.len() >= 2 {
            let thinned: Vec<PointBits> = simplify_line(line, step);
            if thinned.len() >= min_points {
                let ghost before = out@;
                out.push(ContourLine { elevation, points: thinned });
                assert(line_views(out@) =~= line_views(before).push(out@.last()@));
            }
        }
        idx = idx + 1;
    }
    assert(s.take(n as int) =~= s);
}

/// `r` is the subsequence of `s` at the strictly increasing positions `idx`.
pub open spec fn picks<T>(s: Seq<T>, r: Seq<T>, idx: Seq<int>) -> bool {
    &&& r.len() == idx.len()
    &&& forall|j: int| 0 <= j < idx.len() ==> 0 <= #[trigger] idx[j] < s.len() && r[j] == s[idx[j]]
    &&& forall|j1: int, j2: int| 0 <= j1 < j2 < idx.len() ==> idx[j1] < idx[j2]
}

/// Every line of `s` left out of the positions `idx` has fewer points than
/// each line of `r`, or as many and a later position.
pub open spec fn drops_no_longer<E>(s: Seq<ContourLine<E>>, r: Seq<ContourLine<E>>, idx: Seq<int>) -> bool {
    forall|i: int, j: int|
        0 <= i < s.len() && !idx.contains(i) && 0 <= j < r.len() ==> #[trigger] s[i].points@.len()
            < #[trigger] r[j].points@.len() || (s[i].points@.len() == r[j].points@.len() && idx[j] < i)
}

/// `r` keeps `k` lines of `s`, in their order, and every line of `s` it
/// leaves out has fewer points than any line it keeps, or as many and comes
/// after it.
pub open spec fn keeps_longest<E>(s: Seq<ContourLine<E>>, r: Seq<ContourLine<E>>, k: int) -> bool {
    exists|idx: Seq<int>| #[trigger] picks(s, r, idx) && idx.len() == k && drops_no_longer(s, r, idx)
}

/// Thin a tile's contours to its feature budget: within budget all stay;
/// over it, the `max(budget, 1)` lines with the most points stay (among
/// lines of equal length, the earlier ones), in their order.
pub fn thin_to_budget<E>(lines: Vec<ContourLine<E>>, budget: usize) -> (r: Vec<ContourLine<E>>)
    ensures
        lines@.len() <= budget ==> r@ == lines@,
        lines@.len() > budget ==> keeps_longest(lines@, r@, if budget < 1 { 1 } else { budget as int }),
{
    let n: usize = lines.len();
    if n <= budget {
        return lines;
    }
    let k: usize = if budget < 1 { 1 } else { budget };
    let ghost s = lines@;
    let mut cur: Vec<ContourLine<E>> = lines;
    let ghost mut idx: Seq<int> = Seq::new(n as nat, |i: int| i);
    assert(picks(s, cur@, idx));
    assert(drops_no_longer(s, cur@, idx)) by {
        assert forall|i: int| 0 <= i < s.len() implies idx.contains(i) by {
            assert(idx[i] == i);
        }
    }
    while cur.len() > k
        invariant
            k >= 1,
            k <= n == s.len(),
            k <= cur@.len() <= n,
            picks(s, cur@, idx),
            drops_no_longer(s, cur@, idx),
        decreases cur@.len(),
    {
        // The last line with the fewest points goes.
        let mut m: usize = 0;
        let mut j: usize = 1;
        while j < cur.len()
            invariant
                1 <= j <= cur@.len(),
                m < j,
                forall|q: int| 0 <= q < j ==> cur@[m as int].points@.len() <= (#[trigger] cur@[q]).points@.len(),
                forall|q: int| m < q < j ==> cur@[m as int].points@.len() < (#[trigger] cur@[q]).points@.len(),
            decreases cur@.len() - j,
        {
            if cur[j].points.len() <= cur[m].points.len() {
                m = j;
            }
            j = j + 1;
        }
        let ghost before = cur@;
        let ghost idx0 = idx;
        let gone: ContourLine<E> = cur.remove(m);
        proof {
            idx = idx0.remove(m as int);
            assert(cur@ =~= before.remove(m as int));
            assert forall|j1: int, j2: int| 0 <= j1 < j2 < idx.len() implies idx[j1] < idx[j2] by {
                let a = if j1 < m { j1 } else { j1 + 1 };
                let b = if j2 < m { j2 } else { j2 + 1 };
                assert(idx[j1] == idx0[a] && idx[j2] == idx0[b]);
            }
            assert forall|q: int| 0 <= q < idx.len() implies 0 <= #[trigger] idx[q] < s.len() && cur@[q] == s[idx[q]] by {
                let a = if q < m { q } else { q + 1 };
                assert(idx[q] == idx0[a]);
            }
            assert forall|i: int, q: int|
                0 <= i < s.len() && !idx.contains(i) && 0 <= q < cur@.len() implies #[trigger] s[i].points@.len()
                    < #[trigger] cur@[q].points@.len() || (s[i].points@.len() == cur@[q].points@.len()
                    && idx[q] < i) by {
                let a = if q < m { q } else { q + 1 };
                assert(cur@[q] == before[a]);
                assert(idx[q] == idx0[a]);
                if idx0.contains(i) {
                    let w = choose|w: int| 0 <= w < idx0.len() && idx0[w] == i;
                    if w != m {
                        let w2 = if w < m { w } else { w - 1 };
                        assert(idx[w2] == i);
                        assert(false);
                    }
                    assert(s[i] == before[m as int]);
                }
            }
        }
    }
    cur
}

/// `x` inserted into `s` after every line with at least as many points.
pub open spec fn insert_by_length<E>(s: Seq<(E, Seq<PointBits>)>, x: (E, Seq<PointBits>)) -> Seq<(E, Seq<PointBits>)>
    decreases s.len(),
{
    if s.len() == 0 {
        seq![x]
    } else if s.last().1.len() >= x.1.len() {
        s.push(x)
    } else {
        insert_by_length(s.drop_last(), x).push(s.last())
    }
}

/// The lines ordered by point count, most first; ties keep their order.
pub open spec fn longest_first<E>(s: Seq<(E, Seq<PointBits>)>) -> Seq<(E, Seq<PointBits>)>
    decreases s.len(),
{
    if s.len() == 0 {
        Seq::empty()
    } else {
        insert_by_length(longest_first(s.drop_last()), s.last())
    }
}

proof fn lemma_insert_by_length_at<E>(s: Seq<(E, Seq<PointBits>)>, x: (E, Seq<PointBits>), j: int)
    requires
        0 <= j <= s.len(),
        forall|k: int| j <= k < s.len() ==> (#[trigger] s[k]).1.len() < x.1.len(),
        j == 0 || s[j - 1].1.len() >= x.1.len(),
    ensures
        insert_by_length(s, x) == s.insert(j, x),
    decreases s.len(),
{
    if s.len() == 0 {
        assert(s.insert(j, x) =~= seq![x]);
    } else if j == s.len() {
        assert(s.insert(j, x) =~= s.push(x));
    } else {
        let t = s.drop_last();
        lemma_insert_by_length_at(t, x, j);
        assert(t.insert(j, x).push(s.last()) =~= s.insert(j, x));
    }
}

/// Order lines by point count, most first (stable).
pub fn sort_longest_first<E>(lines: Vec<ContourLine<E>>) -> (r: Vec<ContourLine<E>>)
    ensures
        line_views(r@) == longest_first(line_views(lines@)),
{
    broadcast use vstd::std_specs::vec::axiom_spec_into_iter;

    let ghost s = line_views(lines@);
    let n: usize = lines.len();
    let mut out: Vec<ContourLine<E>> = Vec::new();
    let mut idx: usize = 0;
    for line in it: lines
        invariant
            n == s.len(),
            it.seq() == lines@,
            s == line_views(it.seq()),
            idx == it.index(),
            line_views(out@) == longest_first(s.take(idx as int)),
    {
        assert(s.take(idx + 1).drop_last() =~= s.take(idx as int));
        assert(s[idx as int] == line@);
        let len: usize = line.points.len();
        let mut j: usize = out.len();
        while j > 0 && out[j - 1].points.len() < len
            invariant
                j <= out@.len(),
                len == line.points@.len(),
                forall|k: int| j <= k < out@.len() ==> (#[trigger] out@[k]).points@.len() < len,
            decreases j,
        {
            j = j - 1;
        }
        let ghost before = line_views(out@);
        proof {
            lemma_insert_by_length_at(before, line@, j as int);
        }
        out.insert(j, line);
        assert(line_views(out@) =~= before.insert(j as int, s[idx as int]));
        idx = idx + 1;
    }
    assert(s.take(n as int) =~= s);
    out
}

/// The global topography selection: the lines longest first, at most
/// `budget` of them.
pub fn select_topo_lines<E>(lines: Vec<ContourLine<E>>, budget: usize) -> (r: Vec<ContourLine<E>>)
    ensures
        line_views(r@) == ({
            let sorted = longest_first(line_views(lines@));
            if sorted.len() > budget { sorted.take(budget as int) } else { sorted }
        }),
{
    let mut sorted = sort_longest_first(lines);
    let ghost full = line_views(sorted@);
    sorted.truncate(budget);
    assert(line_views(sorted@) =~= (if full.len() > budget { full.take(budget as int) } else { full }));
    sorted
}

/// The global coastline selection: within budget the lines stay as they
/// are; over it, the `budget` longest, longest first.
pub fn select_coastline_lines<E>(lines: Vec<ContourLine<E>>, budget: usize) -> (r: Vec<ContourLine<E>>)
    ensures
        lines@.len() <= budget ==> line_views(r@) == line_views(lines@),
        lines@.len() > budget ==> line_views(r@) == longest_first(line_views(lines@)).take(budget as int),
{
    if lines.len() <= budget {
        return lines;
    }
    proof {
        lemma_longest_first_len(line_views(lines@));
    }
    select_topo_lines(lines, budget)
}

proof fn lemma_insert_by_length_len<E>(s: Seq<(E, Seq<PointBits>)>, x: (E, Seq<PointBits>))
    ensures
        insert_by_length(s, x).len() == s.len() + 1,
    decreases s.len(),
{
    if s.len() > 0 {
        lemma_insert_by_length_len(s.drop_last(), x);
    }
}

proof fn lemma_longest_first_len<E>(s: Seq<(E, Seq<PointBits>)>)
    ensures
        longest_first(s).len() == s.len(),
    decreases s.len(),
{
    if s.len() > 0 {
        lemma_longest_first_len(s.drop_last());
        lemma_insert_by_length_len(longest_first(s.drop_last()), s.last());
    }
}

/// Per-level budgets of the bathymetry layer, shelf edge first: 22, 12, 12,
/// 16, 14, 12, 8 and 4 percent of the feature budget (rounded down), for the
/// -200, -500, -1000, -2000, -3000, -4000, -5000 and -6000 m levels.
pub fn depth_level_budgets(feature_budget: usize) -> (r: Vec<usize>)
    requires
        feature_budget * 22 <= usize::MAX,
    ensures
        r@ == seq![
            (feature_budget * 22 / 100) as usize,
            (feature_budget * 12 / 100) as usize,
            (feature_budget * 12 / 100) as usize,
            (feature_budget * 16 / 100) as usize,
            (feature_budget * 14 / 100) as usize,
            (feature_budget * 12 / 100) as usize,
            (feature_budget * 8 / 100) as usize,
            (feature_budget * 4 / 100) as usize,
        ],
{
    let mut r: Vec<usize> = Vec::new();
    r.push(feature_budget * 22 / 100);
    r.push(feature_budget * 12 / 100);
    r.push(feature_budget * 12 / 100);
    r.push(feature_budget * 16 / 100);
    r.push(feature_budget * 14 / 100);
    r.push(feature_budget * 12 / 100);
    r.push(feature_budget * 8 / 100);
    r.push(feature_budget * 4 / 100);
    assert(r@ =~= seq![
        (feature_budget * 22 / 100) as usize,
        (feature_budget * 12 / 100) as usize,
        (feature_budget * 12 / 100) as usize,
        (feature_budget * 16 / 100) as usize,
        (feature_budget * 14 / 100) as usize,
        (feature_budget * 12 / 100) as usize,
        (feature_budget * 8 / 100) as usize,
        (feature_budget * 4 / 100) as usize,
    ]);
    r
}

/// The FID stride of the topography sample: `total` rows over a fetch
/// target of eight times the budget (at least 3000), at least one.
pub fn topo_fetch_stride(total: i64, feature_budget: usize) -> (r: i64)
    requires
        total >= 0,
        feature_budget * 8 <= usize::MAX,
        feature_budget * 8 <= i64::MAX,
    ensures
        ({
            let target: int = if feature_budget * 8 > 3000 { feature_budget * 8 } else { 3000 };
            let q: int = total as int / target;
            r == (if q < 1 { 1 } else { q })
        }),
{
    let eight: usize = feature_budget * 8;
    let target: usize = if eight > 3000 { eight } else { 3000 };
    let t: i64 = target as i64;
    let q: i64 = total / t;
    if q < 1 { 1 } else { q }
}

/// The outcome of a batch read: the tiles read, unless none was and a query
/// failed, in which case the first error.
pub fn batch_outcome<T, Er>(results: Vec<T>, first_error: Option<Er>) -> (r: Result<Vec<T>, Er>)
    ensures
        results@.len() == 0 && first_error is Some ==> r == Err::<Vec<T>, Er>(first_error->0),
        !(results@.len() == 0 && first_error is Some) ==> (r matches Ok(v) && v@ == results@),
{
    if results.len() == 0 {
        if let Some(e) = first_error {
            return Err(e);
        }
    }
    Ok(results)
}

} // verus!
