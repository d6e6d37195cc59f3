//! Canonical sets of hexagonal spatial-index cells.
//!
//! Cells are the 64-bit identifiers of the hexagonal grid at one fixed
//! resolution. The cells covering each track are merged into a single list
//! without duplicates, sorted by identifier, so that the result does not
//! depend on the order of the tracks.
use vstd::prelude::*;
use vstd::seq_lib::group_to_multiset_ensures;

verus! {

/// Every element of `s` is at most the next one.
pub open spec fn sorted(s: Seq<u64>) -> bool {
    forall|i: int, j: int| 0 <= i < j < s.len() ==> s[i] <= s[j]
}

/// Every element of `s` is less than the next one.
pub open spec fn strictly_sorted(s: Seq<u64>) -> bool {
    forall|i: int, j: int| 0 <= i < j < s.len() ==> s[i] < s[j]
}

/// Cell `x` covers part of some track of `tracks`.
pub open spec fn covered(tracks: Seq<Seq<u64>>, x: u64) -> bool {
    exists|i: int| 0 <= i < tracks.len() && #[trigger] tracks[i].contains(x)
}

/// `r` is the canonical cell list of `tracks`: sorted without duplicates,
/// holding exactly the cells of the tracks.
pub open spec fn is_cell_cover(tracks: Seq<Seq<u64>>, r: Seq<u64>) -> bool {
    &&& strictly_sorted(r)
    &&& forall|x: u64| r.contains(x) <==> covered(tracks, x)
}

proof fn lemma_concat_contains(a: Seq<u64>, b: Seq<u64>, x: u64)
    ensures
        (a + b).contains(x) <==> a.contains(x) || b.contains(x),
{
    if (a + b).contains(x) {
        let k = choose|k: int| 0 <= k < (a + b).len() && #[trigger] (a + b)[k] == x;
        if k < a.len() {
            assert(a[k] == x);
        } else {
            assert(b[k - a.len()] == x);
        }
    }
    if a.contains(x) {
        let k = choose|k: int| 0 <= k < a.len() && #[trigger] a[k] == x;
        assert((a + b)[k] == x);
    }
    if b.contains(x) {
        let k = choose|k: int| 0 <= k < b.len() && #[trigger] b[k] == x;
        assert((a + b)[a.len() + k] == x);
    }
}

proof fn lemma_covered_push(tracks: Seq<Seq<u64>>, i: int, x: u64)
    requires
        0 <= i < tracks.len(),
    ensures
        covered(tracks.take(i + 1), x) <==> covered(tracks.take(i), x) || tracks[i].contains(x),
{
    if covered(tracks.take(i + 1), x) {
        let t = choose|t: int| 0 <= t < i + 1 && #[trigger] tracks.take(i + 1)[t].contains(x);
        if t < i {
            assert(tracks.take(i)[t] == tracks.take(i + 1)[t]);
        }
    }
    if covered(tracks.take(i), x) {
        let t = choose|t: int| 0 <= t < i && #[trigger] tracks.take(i)[t].contains(x);
        assert(tracks.take(i + 1)[t] == tracks.take(i)[t]);
    }
    if tracks[i].contains(x) {
        assert(tracks.take(i + 1)[i] == tracks[i]);
    }
}

/// Relies on slice::sort: sorts in ascending order, keeping the elements.
#[verifier::external_body]
fn sort_cells(v: &mut Vec<u64>)
    ensures
        final(v)@.to_multiset() == old(v)@.to_multiset(),
        sorted(final(v)@),
{
    v.sort();
}

/// Sorts `cells` and removes duplicates.
pub fn canonical_cells(cells: Vec<u64>) -> (r: Vec<u64>)
    ensures
        strictly_sorted(r@),
        forall|x: u64| r@.contains(x) <==> cells@.contains(x),
{
    broadcast use group_to_multiset_ensures;

    let mut v = cells;
    sort_cells(&mut v);
    assert forall|x: u64| v@.contains(x) <==> cells@.contains(x) by {
        assert(v@.contains(x) <==> v@.to_multiset().count(x) > 0);
        assert(cells@.contains(x) <==> cells@.to_multiset().count(x) > 0);
    }
    let mut out: Vec<u64> = Vec::new();
    let mut i: usize = 0;
    while i < v.len()
        invariant
            i <= v@.len(),
            sorted(v@),
            strictly_sorted(out@),
            out@.len() == 0 <==> i == 0,
            i > 0 ==> out@.last() == v@[i - 1],
            forall|x: u64| out@.contains(x) <==> v@.take(i as int).contains(x),
        decreases v@.len() - i,
    {
        let x = v[i];
        let ghost old_out = out@;
        if out.len() == 0 || out[out.len() - 1] != x {
            out.push(x);
        }
        proof {
            assert(v@.take(i + 1) =~= v@.take(i as int).push(x));
            assert forall|y: u64| out@.contains(y) <==> v@.take(i + 1).contains(y) by {
                lemma_concat_contains(v@.take(i as int), seq![x], y);
                lemma_concat_contains(old_out, seq![x], y);
                assert(v@.take(i as int).push(x) =~= v@.take(i as int) + seq![x]);
                assert(old_out.push(x) =~= old_out + seq![x]);
                if out@ == old_out && y == x {
                    assert(old_out[old_out.len() - 1] == y);
                }
            }
        }
        i = i + 1;
    }
    assert(v@.take(i as int) =~= v@);
    out
}

/// The canonical cell list of the tracks whose cell lists are `track_cells`:
/// every cell of every track, once, in ascending order. A track without
/// cells contributes nothing.
pub fn polyfill_all(track_cells: &Vec<Vec<u64>>) -> (r: Vec<u64>)
    ensures
        is_cell_cover(track_cells.deep_view(), r@),
{
    let ghost tracks = track_cells.deep_view();
    let mut all: Vec<u64> = Vec::new();
    let mut i: usize = 0;
    while i < track_cells.len()
        invariant
            i <= track_cells@.len(),
            tracks == track_cells.deep_view(),
            forall|x: u64| all@.contains(x) <==> covered(tracks.take(i as int), x),
        decreases track_cells@.len() - i,
    {
        let cells = &track_cells[i];
        let ghost before = all@;
        let mut j: usize = 0;
        while j < cells.len()
            invariant
                j <= cells@.len(),
                all@ == before + cells@.take(j as int),
            decreases cells@.len() - j,
        {
            all.push(cells[j]);
            assert(before + cells@.take(j + 1) =~= (before + cells@.take(j as int)).push(cells@[j as int]));
            j = j + 1;
        }
        assert(cells@.take(j as int) =~= cells@);
        assert(tracks[i as int] == cells@);
        assert forall|x: u64| all@.contains(x) <==> covered(tracks.take(i + 1), x) by {
            lemma_concat_contains(before, cells@, x);
            lemma_covered_push(tracks, i as int, x);
        }
        i = i + 1;
    }
    assert(tracks.take(i as int) =~= tracks);
    canonical_cells(all)
}

proof fn lemma_strictly_sorted_unique(x: Seq<u64>, y: Seq<u64>)
    requires
        strictly_sorted(x),
        strictly_sorted(y),
        forall|v: u64| x.contains(v) <==> y.contains(v),
    ensures
        x == y,
    decreases x.len() + y.len(),
{
    if x.len() == 0 || y.len() == 0 {
        if x.len() > 0 {
            assert(x.contains(x[0]));
        }
        if y.len() > 0 {
            assert(y.contains(y[0]));
        }
        assert(x =~= y);
    } else {
        assert(x.contains(x[0]) && y.contains(y[0]));
        let i = choose|i: int| 0 <= i < y.len() && #[trigger] y[i] == x[0];
        let j = choose|j: int| 0 <= j < x.len() && #[trigger] x[j] == y[0];
        assert(x[0] == y[0]) by {
            if i > 0 {
                assert(y[0] < y[i]);
            }
            if j > 0 {
                assert(x[0] < x[j]);
            }
        }
        let xt = x.drop_first();
        let yt = y.drop_first();
        assert forall|v: u64| xt.contains(v) <==> yt.contains(v) by {
            if xt.contains(v) {
                let k = choose|k: int| 0 <= k < xt.len() && #[trigger] xt[k] == v;
                assert(x[k + 1] == v && x[0] < v);
                assert(y.contains(v));
                let m = choose|m: int| 0 <= m < y.len() && #[trigger] y[m] == v;
                assert(m != 0);
                assert(yt[m - 1] == v);
            }
            if yt.contains(v) {
                let k = choose|k: int| 0 <= k < yt.len() && #[trigger] yt[k] == v;
                assert(y[k + 1] == v && y[0] < v);
                assert(x.contains(v));
                let m = choose|m: int| 0 <= m < x.len() && #[trigger] x[m] == v;
                assert(m != 0);
                assert(xt[m - 1] == v);
            }
        }
        lemma_strictly_sorted_unique(xt, yt);
        assert(x =~= seq![x[0]] + xt);
        assert(y =~= seq![y[0]] + yt);
    }
}

proof fn lemma_permutation_covers(a: Seq<Seq<u64>>, b: Seq<Seq<u64>>, x: u64)
    requires
        a.to_multiset() == b.to_multiset(),
        covered(a, x),
    ensures
        covered(b, x),
{
    broadcast use group_to_multiset_ensures;

    let i = choose|i: int| 0 <= i < a.len() && #[trigger] a[i].contains(x);
    assert(a.contains(a[i]));
    assert(b.to_multiset().count(a[i]) > 0);
    assert(b.contains(a[i]));
    let j = choose|j: int| 0 <= j < b.len() && #[trigger] b[j] == a[i];
    assert(b[j].contains(x));
}

/// The canonical cell list does not depend on the order of the tracks and
/// holds no cell twice: tracks that are a permutation of one another have
/// the same canonical cell list.
pub proof fn lemma_cover_order_independent(
    a: Seq<Seq<u64>>,
    b: Seq<Seq<u64>>,
    ra: Seq<u64>,
    rb: Seq<u64>,
)
    requires
        a.to_multiset() == b.to_multiset(),
        is_cell_cover(a, ra),
        is_cell_cover(b, rb),
    ensures
        ra == rb,
        ra.no_duplicates(),
{
    assert forall|v: u64| ra.contains(v) <==> rb.contains(v) by {
        if covered(a, v) {
            lemma_permutation_covers(a, b, v);
        }
        if covered(b, v) {
            lemma_permutation_covers(b, a, v);
        }
    }
    lemma_strictly_sorted_unique(ra, rb);
    assert forall|i: int, j: int| 0 <= i < ra.len() && 0 <= j < ra.len() && i != j implies ra[i]
        != ra[j] by {
        if i < j {
            assert(ra[i] < ra[j]);
        } else {
            assert(ra[j] < ra[i]);
        }
    }
}

/// The lowercase hexadecimal digit of `d`, for `d < 16`.
pub open spec fn hex_digit(d: nat) -> char {
    seq!['0', '1', '2', '3', '4', '5', '6', '7', '8', '9', 'a', 'b', 'c', 'd', 'e', 'f'][d as int]
}

/// The lowercase hexadecimal numeral of `v`, without leading zeros.
pub open spec fn lower_hex(v: nat) -> Seq<char>
    decreases v,
{
    if v < 16 {
        seq![hex_digit(v)]
    } else {
        lower_hex(v / 16).push(hex_digit(v % 16))
    }
}

/// Relies on the `{:x}` format of `u64`: lowercase hexadecimal digits
/// without prefix or leading zeros.
#[verifier::external_body]
fn format_hex(cell: u64) -> (r: String)
    ensures
        r@ == lower_hex(cell as nat),
{
    format!("{:x}", cell)
}

/// Each cell identifier of `cells` as a lowercase hexadecimal string, in order.
pub fn cells_to_hex(cells: &Vec<u64>) -> (r: Vec<String>)
    ensures
        r@.len() == cells@.len(),
        forall|i: int| 0 <= i < r@.len() ==> (#[trigger] r@[i])@ == lower_hex(cells@[i] as nat),
{
    let mut out: Vec<String> = Vec::new();
    let mut i: usize = 0;
    while i < cells.len()
        invariant
            i <= cells@.len(),
            out@.len() == i,
            forall|k: int| 0 <= k < i ==> (#[trigger] out@[k])@ == lower_hex(cells@[k] as nat),
        decreases cells@.len() - i,
    {
        out.push(format_hex(cells[i]));
        i = i + 1;
    }
    out
}

} // verus!
