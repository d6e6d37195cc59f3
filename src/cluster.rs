//! Arithmetic centroids of tracks, and selection of the dominant cluster
//! among density-clustering labels.
use vstd::arithmetic::div_mod::{lemma_fundamental_div_mod, lemma_fundamental_div_mod_converse};
use vstd::prelude::*;

use crate::codec::Coordinate;

verus! {

/// The label that density-based clustering gives a point.
#[derive(Clone, Copy, Debug, PartialEq, Eq, Structural)]
pub enum ClusterLabel {
    /// Neither dense itself nor near a dense point.
    Noise,
    /// Near a core point of the given cluster, without being dense itself.
    Border(usize),
    /// Dense: enough points lie near it.
    Core(usize),
}

/// Sum of the longitudes of `t`.
pub open spec fn sum_lon(t: Seq<Coordinate>) -> int
    decreases t.len(),
{
    if t.len() == 0 {
        0
    } else {
        sum_lon(t.drop_last()) + t.last().lon
    }
}

/// Sum of the latitudes of `t`.
pub open spec fn sum_lat(t: Seq<Coordinate>) -> int
    decreases t.len(),
{
    if t.len() == 0 {
        0
    } else {
        sum_lat(t.drop_last()) + t.last().lat
    }
}

/// The arithmetic mean of the points of `t`, each component rounded down to
/// a whole unit; `None` for an empty sequence.
pub open spec fn mean_of(t: Seq<Coordinate>) -> Option<Coordinate> {
    if t.len() == 0 {
        None
    } else {
        Some(
            Coordinate {
                lon: (sum_lon(t) / t.len() as int) as i32,
                lat: (sum_lat(t) / t.len() as int) as i32,
            },
        )
    }
}

/// The sums of `t` lie between `t.len()` times the least and the greatest `i32`.
pub proof fn lemma_sum_bounds(t: Seq<Coordinate>)
    ensures
        t.len() * (i32::MIN as int) <= sum_lon(t) <= t.len() * (i32::MAX as int),
        t.len() * (i32::MIN as int) <= sum_lat(t) <= t.len() * (i32::MAX as int),
    decreases t.len(),
{
    if t.len() > 0 {
        lemma_sum_bounds(t.drop_last());
    }
}

/// `sum / n` rounded down, for a sum of `n` values of type `i32`.
fn mean_component(sum: i128, n: usize) -> (r: i32)
    requires
        n > 0,
        n * (i32::MIN as int) <= sum <= n * (i32::MAX as int),
    ensures
        r as int == sum as int / n as int,
{
    let shifted: u128 = (sum + (n as i128) * 0x8000_0000) as u128;
    let q: u128 = shifted / (n as u128);
    proof {
        let x = shifted as int;
        let d = n as int;
        lemma_fundamental_div_mod(x, d);
        let rem = x % d;
        assert(0 <= rem < d);
        assert(x == d * q + rem);
        assert(q < 0x1_0000_0000) by (nonlinear_arith)
            requires
                x == d * q + rem,
                0 <= rem,
                d > 0,
                x <= d * 0xFFFF_FFFF,
                q >= 0,
        ;
        assert(sum as int == (q - 0x8000_0000) * d + rem) by (nonlinear_arith)
            requires
                x == d * q + rem,
                x == sum + d * 0x8000_0000,
        ;
        lemma_fundamental_div_mod_converse(sum as int, d, q - 0x8000_0000, rem);
    }
    (q as i64 - 0x8000_0000) as i32
}

/// The arithmetic mean of the points of `track`, rounded down to whole units.
pub fn track_centroid(track: &[Coordinate]) -> (r: Option<Coordinate>)
    ensures
        r == mean_of(track@),
{
    let n = track.len();
    if n == 0 {
        return None;
    }
    let mut slon: i128 = 0;
    let mut slat: i128 = 0;
    let mut i: usize = 0;
    while i < n
        invariant
            n == track@.len(),
            i <= n,
            slon == sum_lon(track@.take(i as int)),
            slat == sum_lat(track@.take(i as int)),
        decreases n - i,
    {
        proof {
            lemma_sum_bounds(track@.take(i as int));
            assert(track@.take(i + 1).drop_last() =~= track@.take(i as int));
        }
        slon = slon + track[i].lon as i128;
        slat = slat + track[i].lat as i128;
        i = i + 1;
    }
    proof {
        assert(track@.take(n as int) =~= track@);
        lemma_sum_bounds(track@);
    }
    Some(Coordinate { lon: mean_component(slon, n), lat: mean_component(slat, n) })
}

/// How many points `labels` marks as core points of cluster `c`.
pub open spec fn core_count(labels: Seq<ClusterLabel>, c: usize) -> nat
    decreases labels.len(),
{
    if labels.len() == 0 {
        0
    } else {
        core_count(labels.drop_last(), c) + if labels.last() == ClusterLabel::Core(c) {
            1nat
        } else {
            0nat
        }
    }
}

/// Cluster `c` has the most core points, and no cluster with a smaller id
/// has as many.
pub open spec fn is_winner(labels: Seq<ClusterLabel>, c: usize) -> bool {
    &&& core_count(labels, c) > 0
    &&& forall|d: usize| #[trigger] core_count(labels, d) <= core_count(labels, c)
    &&& forall|d: usize| d < c ==> #[trigger] core_count(labels, d) < core_count(labels, c)
}

/// The dominant cluster of `labels`, if any point is a core point.
pub open spec fn winning_cluster(labels: Seq<ClusterLabel>) -> Option<usize> {
    if exists|c: usize| is_winner(labels, c) {
        Some(choose|c: usize| is_winner(labels, c))
    } else {
        None
    }
}

/// The points that `labels` marks as core points of cluster `c`, in order.
pub open spec fn core_points(points: Seq<Coordinate>, labels: Seq<ClusterLabel>, c: usize) -> Seq<
    Coordinate,
>
    decreases labels.len(),
{
    if labels.len() == 0 || points.len() == 0 {
        Seq::empty()
    } else {
        let k = core_points(points.drop_last(), labels.drop_last(), c);
        if labels.last() == ClusterLabel::Core(c) {
            k.push(points.last())
        } else {
            k
        }
    }
}

/// The mean of the core points of the dominant cluster, or `None` where no
/// point is a core point.
pub open spec fn dominant_spec(points: Seq<Coordinate>, labels: Seq<ClusterLabel>) -> Option<
    Coordinate,
> {
    match winning_cluster(labels) {
        None => None,
        Some(c) => mean_of(core_points(points, labels, c)),
    }
}

/// No cluster has more core points than there are labels.
pub proof fn lemma_core_count_le_len(labels: Seq<ClusterLabel>, c: usize)
    ensures
        core_count(labels, c) <= labels.len(),
    decreases labels.len(),
{
    if labels.len() > 0 {
        lemma_core_count_le_len(labels.drop_last(), c);
    }
}

/// A cluster with a core point has a label that says so.
pub proof fn lemma_core_count_witness(labels: Seq<ClusterLabel>, c: usize)
    requires
        core_count(labels, c) > 0,
    ensures
        exists|k: int| 0 <= k < labels.len() && labels[k] == ClusterLabel::Core(c),
    decreases labels.len(),
{
    if labels.last() != ClusterLabel::Core(c) {
        lemma_core_count_witness(labels.drop_last(), c);
        let k = choose|k: int| 0 <= k < labels.drop_last().len() && labels.drop_last()[k] == ClusterLabel::Core(c);
        assert(labels[k] == ClusterLabel::Core(c));
    }
}

/// Labels without core points give every cluster a core count of zero.
pub proof fn lemma_no_core_no_count(labels: Seq<ClusterLabel>, c: usize)
    requires
        forall|k: int| 0 <= k < labels.len() ==> !(labels[k] is Core),
    ensures
        core_count(labels, c) == 0,
{
    if core_count(labels, c) > 0 {
        lemma_core_count_witness(labels, c);
    }
}

/// The dominant cluster is unique.
pub proof fn lemma_winner_unique(labels: Seq<ClusterLabel>, c: usize, d: usize)
    requires
        is_winner(labels, c),
        is_winner(labels, d),
    ensures
        c == d,
{
    assert(core_count(labels, c) <= core_count(labels, d));
    assert(core_count(labels, d) <= core_count(labels, c));
}

/// The core points of a cluster are as many as its core count.
pub proof fn lemma_core_points_len(points: Seq<Coordinate>, labels: Seq<ClusterLabel>, c: usize)
    requires
        points.len() == labels.len(),
    ensures
        core_points(points, labels, c).len() == core_count(labels, c),
    decreases labels.len(),
{
    if labels.len() > 0 {
        lemma_core_points_len(points.drop_last(), labels.drop_last(), c);
    }
}

/// How many points `labels` marks as core points of cluster `c`.
fn count_core(labels: &[ClusterLabel], c: usize) -> (r: usize)
    ensures
        r == core_count(labels@, c),
{
    let mut n: usize = 0;
    let mut i: usize = 0;
    while i < labels.len()
        invariant
            i <= labels@.len(),
            n == core_count(labels@.take(i as int), c),
        decreases labels@.len() - i,
    {
        proof {
            lemma_core_count_le_len(labels@.take(i as int), c);
            assert(labels@.take(i + 1).drop_last() =~= labels@.take(i as int));
        }
        if labels[i] == ClusterLabel::Core(c) {
            n = n + 1;
        }
        i = i + 1;
    }
    assert(labels@.take(i as int) =~= labels@);
    n
}

/// The points of `points` that `labels` marks as core points of cluster `c`.
fn collect_core_points(points: &[Coordinate], labels: &[ClusterLabel], c: usize) -> (r: Vec<
    Coordinate,
>)
    requires
        points@.len() == labels@.len(),
    ensures
        r@ == core_points(points@, labels@, c),
{
    let mut out: Vec<Coordinate> = Vec::new();
    let mut i: usize = 0;
    while i < labels.len()
        invariant
            points@.len() == labels@.len(),
            i <= labels@.len(),
            out@ == core_points(points@.take(i as int), labels@.take(i as int), c),
        decreases labels@.len() - i,
    {
        proof {
            assert(labels@.take(i + 1).drop_last() =~= labels@.take(i as int));
            assert(points@.take(i + 1).drop_last() =~= points@.take(i as int));
        }
        if labels[i] == ClusterLabel::Core(c) {
            out.push(points[i]);
        }
        i = i + 1;
    }
    assert(labels@.take(i as int) =~= labels@);
    assert(points@.take(i as int) =~= points@);
    out
}

/// The centroid of the dominant cluster: among the clusters of `labels`, the
/// one with the most core points (the smallest id on a tie), and the mean of
/// its core points alone. `None` where no point is a core point.
pub fn dominant_centroid(points: &[Coordinate], labels: &[ClusterLabel]) -> (r: Option<Coordinate>)
    requires
        points@.len() == labels@.len(),
    ensures
        r == dominant_spec(points@, labels@),
        r is None <==> forall|k: int| 0 <= k < labels@.len() ==> !(#[trigger] labels@[k] is Core),
{
    let mut best: Option<(usize, usize)> = None;
    let mut i: usize = 0;
    while i < labels.len()
        invariant
            i <= labels@.len(),
            match best {
                None => forall|k: int| 0 <= k < i ==> !(#[trigger] labels@[k] is Core),
                Some((c, n)) => {
                    &&& n == core_count(labels@, c)
                    &&& n > 0
                    &&& forall|k: int|
                        0 <= k < i && #[trigger] labels@[k] is Core ==> core_count(
                            labels@,
                            labels@[k]->Core_0,
                        ) < n || (core_count(labels@, labels@[k]->Core_0) == n && c
                            <= labels@[k]->Core_0)
                },
            },
        decreases labels@.len() - i,
    {
        if let ClusterLabel::Core(c) = labels[i] {
            let n = count_core(labels, c);
            proof {
                lemma_core_count_witness_at(labels@, i as int);
            }
            match best {
                None => {
                    best = Some((c, n));
                },
                Some((bc, bn)) => {
                    if n > bn || (n == bn && c < bc) {
                        best = Some((c, n));
                    }
                },
            }
        }
        i = i + 1;
    }
    match best {
        None => {
            proof {
                assert forall|c: usize| !is_winner(labels@, c) by {
                    lemma_no_core_no_count(labels@, c);
                }
            }
            None
        },
        Some((c, n)) => {
            proof {
                assert forall|d: usize| #[trigger] core_count(labels@, d) <= n && (d < c ==> core_count(labels@, d) < n) by {
                    if core_count(labels@, d) > 0 {
                        lemma_core_count_witness(labels@, d);
                    }
                }
                assert(is_winner(labels@, c));
                let w = choose|w: usize| is_winner(labels@, w);
                lemma_winner_unique(labels@, c, w);
                lemma_core_points_len(points@, labels@, c);
                lemma_core_count_witness(labels@, c);
            }
            let group = collect_core_points(points, labels, c);
            track_centroid(group.as_slice())
        },
    }
}

proof fn lemma_core_count_witness_at(labels: Seq<ClusterLabel>, k: int)
    requires
        0 <= k < labels.len(),
        labels[k] is Core,
    ensures
        core_count(labels, labels[k]->Core_0) > 0,
    decreases labels.len(),
{
    if k < labels.len() - 1 {
        lemma_core_count_witness_at(labels.drop_last(), k);
    }
}

} // verus!
