//! Renderer diagnostics: histograms of tile textures and ground-type votes,
//! ranked and summarised into one report line.
use vstd::prelude::*;
use crate::text::{decimal, owned, push_str, push_u64};
use crate::map_model::{MapData, MapTile, TerrainType, TerrainTypeData};

verus! {

/// Rows listed before the tail is summarised.
pub const MAX_ROWS: usize = 8;

/// One report line and whether it describes a problem.
#[derive(Debug)]
pub struct Line {
    pub warn: bool,
    pub text: String,
}

/// An informational line.
pub fn info(text: String) -> (r: Line)
    ensures
        !r.warn,
        r.text == text,
{
    Line { warn: false, text }
}

/// A warning line.
pub fn warn(text: String) -> (r: Line)
    ensures
        r.warn,
        r.text == text,
{
    Line { warn: true, text }
}

/// `a` is listed no later than `b`: larger counts first, equal counts by
/// index.
pub open spec fn row_before(a: (usize, u32), b: (usize, u32)) -> bool {
    a.1 > b.1 || (a.1 == b.1 && a.0 <= b.0)
}

pub open spec fn rows_ranked(rows: Seq<(usize, u32)>) -> bool {
    forall|i: int, j: int| 0 <= i < j < rows.len() ==> row_before(#[trigger] rows[i], #[trigger] rows[j])
}

pub open spec fn nonzero_rows(counts: Seq<(usize, u32)>) -> Seq<(usize, u32)> {
    counts.filter(|p: (usize, u32)| p.1 > 0)
}

fn insert_row(v: &mut Vec<(usize, u32)>, x: (usize, u32))
    requires
        rows_ranked(old(v)@),
    ensures
        rows_ranked(final(v)@),
        final(v)@.to_multiset() == old(v)@.to_multiset().insert(x),
{
    let mut j: usize = 0;
    while j < v.len() && (v[j].1 > x.1 || (v[j].1 == x.1 && v[j].0 <= x.0))
        invariant
            j <= v@.len(),
            forall|k: int| 0 <= k < j ==> row_before(#[trigger] v@[k], x),
        decreases v@.len() - j,
    {
        j = j + 1;
    }
    let ghost ov = v@;
    v.insert(j, x);
    proof {
        vstd::seq_lib::to_multiset_insert(ov, j as int, x);
        let nv = v@;
        assert forall|a: int, b: int| 0 <= a < b < nv.len() implies row_before(#[trigger] nv[a], #[trigger] nv[b]) by {
            if b < j {
                assert(nv[a] == ov[a] && nv[b] == ov[b]);
            } else if b == j {
                assert(nv[a] == ov[a]);
            } else if a == j {
                assert(nv[b] == ov[b - 1]);
                if b - 1 > j {
                    assert(row_before(ov[j as int], ov[b - 1]));
                }
            } else if a < j {
                assert(nv[a] == ov[a] && nv[b] == ov[b - 1]);
                if a < b - 1 {
                    assert(row_before(ov[a], ov[b - 1]));
                }
            } else {
                assert(nv[a] == ov[a - 1] && nv[b] == ov[b - 1]);
            }
        }
    }
}

/// Drop empty entries and order the rest by descending count, then by
/// index, so equal counts list in a stable order.
pub fn ranked_rows(counts: Vec<(usize, u32)>) -> (r: Vec<(usize, u32)>)
    ensures
        rows_ranked(r@),
        r@.to_multiset() == nonzero_rows(counts@).to_multiset(),
{
    let ghost pred = |p: (usize, u32)| p.1 > 0;
    let mut rows: Vec<(usize, u32)> = Vec::new();
    let mut i: usize = 0;
    proof {
        assert(counts@.take(0).filter(pred) =~= Seq::<(usize, u32)>::empty());
        assert(rows@ =~= Seq::<(usize, u32)>::empty());
    }
    while i < counts.len()
        invariant
            i <= counts@.len(),
            pred == (|p: (usize, u32)| p.1 > 0),
            rows_ranked(rows@),
            rows@.to_multiset() == counts@.take(i as int).filter(pred).to_multiset(),
        decreases counts@.len() - i,
    {
        let x = counts[i];
        proof {
            assert(counts@.take(i as int + 1) =~= counts@.take(i as int).push(x));
            counts@.take(i as int).lemma_filter_push(x, pred);
            vstd::seq_lib::to_multiset_build(counts@.take(i as int).filter(pred), x);
        }
        if x.1 > 0 {
            insert_row(&mut rows, x);
        }
        i = i + 1;
    }
    proof {
        assert(counts@.take(counts@.len() as int) =~= counts@);
    }
    rows
}

/// Share of `n` in `total`, in whole percent; 0 for an empty total.
pub open spec fn pct(n: u32, total: usize) -> nat {
    if total == 0 {
        0
    } else {
        ((n as nat) * 100) / (total as nat)
    }
}

fn pct_exec(n: u32, total: usize) -> (r: u64)
    ensures
        r == pct(n, total),
{
    let t = total as u64;
    if t == 0 {
        0
    } else {
        (n as u64 * 100) / t
    }
}

/// `label count (pct%)`.
pub open spec fn row_text(label: Seq<char>, n: u32, total: usize) -> Seq<char> {
    label + " "@ + decimal(n as nat) + " ("@ + decimal(pct(n, total)) + "%)"@
}

/// Sum of the counts from row `from` on.
pub open spec fn tail_sum(rows: Seq<(usize, u32)>, from: int) -> nat
    decreases rows.len() - from,
{
    if from < 0 || from >= rows.len() {
        0
    } else {
        rows[from].1 as nat + tail_sum(rows, from + 1)
    }
}

/// The parts of a summary: up to [`MAX_ROWS`] rows, then the remainder.
pub open spec fn summary_parts(rows: Seq<(usize, u32)>, total: usize, labels: Seq<Seq<char>>) -> Seq<Seq<char>> {
    let shown = if rows.len() < 8 { rows.len() as int } else { 8 };
    let head = Seq::new(shown as nat, |k: int| row_text(labels[k], rows[k].1, total));
    if rows.len() > 8 {
        head.push(decimal((rows.len() - 8) as nat) + " more "@ + decimal(tail_sum(rows, 8)) + " ("@ + decimal(
            pct(tail_sum(rows, 8) as u32, total),
        ) + "%)"@)
    } else {
        head
    }
}

/// Parts separated by `, `.
pub open spec fn join_comma(parts: Seq<Seq<char>>) -> Seq<char>
    decreases parts.len(),
{
    if parts.len() == 0 {
        Seq::empty()
    } else if parts.len() == 1 {
        parts[0]
    } else {
        join_comma(parts.drop_last()) + ", "@ + parts.last()
    }
}

/// Summary line of a ranked histogram: `none` when empty, else up to
/// [`MAX_ROWS`] rows as `label count (pct%)` and the remainder as
/// `N more count (pct%)`, separated by commas.
pub open spec fn spec_histogram_summary(rows: Seq<(usize, u32)>, total: usize, labels: Seq<Seq<char>>) -> Seq<char> {
    if rows.len() == 0 {
        "none"@
    } else {
        join_comma(summary_parts(rows, total, labels))
    }
}

pub open spec fn label_views(v: Seq<String>) -> Seq<Seq<char>> {
    v.map_values(|s: String| s@)
}

/// Render up to [`MAX_ROWS`] rows as `label count (pct%)`, noting any
/// remainder; `labels[k]` names row `k`.
pub fn histogram_summary(rows: &[(usize, u32)], total: usize, labels: &[String]) -> (r: String)
    requires
        labels@.len() >= if rows@.len() < 8 { rows@.len() as int } else { 8 },
        tail_sum(rows@, 8) <= u32::MAX,
    ensures
        r@ == spec_histogram_summary(rows@, total, label_views(labels@)),
{
    if rows.len() == 0 {
        return owned("none");
    }
    let ghost lv = label_views(labels@);
    let ghost parts = summary_parts(rows@, total, lv);
    let shown: usize = if rows.len() < MAX_ROWS { rows.len() } else { MAX_ROWS };
    let mut out = String::new();
    let mut k: usize = 0;
    while k < shown
        invariant
            shown == (if rows@.len() < 8 { rows@.len() as int } else { 8 }),
            rows@.len() > 0,
            labels@.len() >= shown,
            lv == label_views(labels@),
            parts == summary_parts(rows@, total, lv),
            k <= shown,
            k > 0 ==> out@ == join_comma(parts.take(k as int)),
            k == 0 ==> out@.len() == 0,
        decreases shown - k,
    {
        let ghost before = out@;
        if k > 0 {
            push_str(&mut out, ", ");
        }
        push_str(&mut out, labels[k].as_str());
        push_str(&mut out, " ");
        push_u64(&mut out, rows[k].1 as u64);
        push_str(&mut out, " (");
        let p = pct_exec(rows[k].1, total);
        push_u64(&mut out, p);
        push_str(&mut out, "%)");
        proof {
            let part = row_text(lv[k as int], rows@[k as int].1, total);
            assert(parts[k as int] == part);
            assert(parts.take(k as int + 1).drop_last() =~= parts.take(k as int));
            if k == 0 {
                assert(out@ =~= part);
                assert(parts.take(1) =~= seq![part]);
            } else {
                assert(out@ =~= before + ", "@ + part);
            }
        }
        k = k + 1;
    }
    if rows.len() > MAX_ROWS {
        let mut rest: u32 = 0;
        let mut j: usize = rows.len();
        while j > MAX_ROWS
            invariant
                MAX_ROWS <= j <= rows@.len(),
                rest == tail_sum(rows@, j as int),
                tail_sum(rows@, 8) <= u32::MAX,
            decreases j,
        {
            j = j - 1;
            proof {
                lemma_tail_sum_mono(rows@, 8, j as int);
            }
            rest = rest + rows[j].1;
        }
        let ghost before = out@;
        push_str(&mut out, ", ");
        push_u64(&mut out, (rows.len() - MAX_ROWS) as u64);
        push_str(&mut out, " more ");
        push_u64(&mut out, rest as u64);
        push_str(&mut out, " (");
        let p = pct_exec(rest, total);
        push_u64(&mut out, p);
        push_str(&mut out, "%)");
        proof {
            assert(parts.take(8) =~= parts.drop_last());
            assert(out@ =~= before + ", "@ + parts.last());
            assert(parts.take(parts.len() as int) =~= parts);
        }
    } else {
        proof {
            assert(parts.take(shown as int) =~= parts);
        }
    }
    out
}

proof fn lemma_tail_sum_mono(rows: Seq<(usize, u32)>, a: int, b: int)
    requires
        0 <= a <= b,
    ensures
        tail_sum(rows, b) <= tail_sum(rows, a),
    decreases b - a,
{
    if a < b && a < rows.len() {
        lemma_tail_sum_mono(rows, a + 1, b);
    }
}

/// Tile-number field of a packed texture word.
pub open spec fn texture_number(texture: u16) -> usize {
    (texture & 0x01FF) as usize
}

/// Tiles among the first `n` whose texture number is `id`.
pub open spec fn count_id(tiles: Seq<crate::map_model::MapTile>, id: usize, n: int) -> nat
    decreases n,
{
    if n <= 0 {
        0
    } else {
        count_id(tiles, id, n - 1) + if texture_number(tiles[n - 1].texture) == id {
            1nat
        } else {
            0nat
        }
    }
}

/// How many tiles use each texture number, ranked like [`ranked_rows`]:
/// one row per texture number in use, with its tile count.
pub fn tile_texture_histogram(map: &MapData) -> (r: Vec<(usize, u32)>)
    requires
        map.tiles@.len() <= u32::MAX,
    ensures
        rows_ranked(r@),
        forall|p: (usize, u32)|
            r@.to_multiset().count(p) == (if p.1 > 0 && p.1 == count_id(map.tiles@, p.0, map.tiles@.len() as int) {
                1nat
            } else {
                0nat
            }),
        r@ == texture_rows(map.tiles@),
{
    let n = map.tiles.len();
    let mut counts: Vec<(usize, u32)> = Vec::new();
    let mut i: usize = 0;
    while i < n
        invariant
            n == map.tiles@.len(),
            n <= u32::MAX,
            i <= n,
            forall|a: int, b: int| 0 <= a < b < counts@.len() ==> (#[trigger] counts@[a]).0 != (#[trigger] counts@[b]).0,
            forall|a: int| 0 <= a < counts@.len() ==> #[trigger] counts@[a].1 == count_id(map.tiles@, counts@[a].0, i as int)
                && counts@[a].1 > 0,
            forall|id: usize| #[trigger] count_id(map.tiles@, id, i as int) > 0 ==> exists|a: int| 0 <= a < counts@.len() && #[trigger] counts@[a].0 == id,
            forall|id: usize| #[trigger] count_id(map.tiles@, id, i as int) <= i,
        decreases n - i,
    {
        let id = (map.tiles[i].texture & 0x01FF) as usize;
        let mut j: usize = 0;
        while j < counts.len() && counts[j].0 != id
            invariant
                j <= counts@.len(),
                forall|a: int| 0 <= a < j ==> (#[trigger] counts@[a]).0 != id,
            decreases counts@.len() - j,
        {
            j = j + 1;
        }
        let ghost old_counts = counts@;
        proof {
            assert forall|x: usize| #[trigger] count_id(map.tiles@, x, i as int + 1) <= i + 1 by {
                assert(count_id(map.tiles@, x, i as int) <= i);
            }
        }
        if j < counts.len() {
            let c = counts[j].1;
            proof {
                assert(count_id(map.tiles@, id, i as int) <= i);
            }
            counts.set(j, (id, c + 1));
            proof {
                assert forall|a: int| 0 <= a < counts@.len() implies #[trigger] counts@[a].1 == count_id(
                    map.tiles@,
                    counts@[a].0,
                    i as int + 1,
                ) && counts@[a].1 > 0 by {
                    if a != j {
                        assert(counts@[a] == old_counts[a]);
                    }
                }
                assert forall|x: usize| #[trigger] count_id(map.tiles@, x, i as int + 1) > 0 implies exists|a: int|
                    0 <= a < counts@.len() && #[trigger] counts@[a].0 == x by {
                    if count_id(map.tiles@, x, i as int) > 0 {
                        let a = choose|a: int| 0 <= a < old_counts.len() && #[trigger] old_counts[a].0 == x;
                        assert(counts@[a].0 == x);
                    } else {
                        assert(counts@[j as int].0 == x);
                    }
                }
            }
        } else {
            counts.push((id, 1));
            proof {
                assert(count_id(map.tiles@, id, i as int) == 0) by {
                    if count_id(map.tiles@, id, i as int) > 0 {
                        let a = choose|a: int| 0 <= a < old_counts.len() && #[trigger] old_counts[a].0 == id;
                    }
                }
                assert forall|a: int| 0 <= a < counts@.len() implies #[trigger] counts@[a].1 == count_id(
                    map.tiles@,
                    counts@[a].0,
                    i as int + 1,
                ) && counts@[a].1 > 0 by {
                    if a < old_counts.len() {
                        assert(counts@[a] == old_counts[a]);
                    }
                }
                assert forall|x: usize| #[trigger] count_id(map.tiles@, x, i as int + 1) > 0 implies exists|a: int|
                    0 <= a < counts@.len() && #[trigger] counts@[a].0 == x by {
                    if count_id(map.tiles@, x, i as int) > 0 {
                        let a = choose|a: int| 0 <= a < old_counts.len() && #[trigger] old_counts[a].0 == x;
                        assert(counts@[a].0 == x);
                    } else {
                        assert(counts@[old_counts.len() as int].0 == x);
                    }
                }
            }
        }
        i = i + 1;
    }
    let ghost cs = counts@;
    let r = ranked_rows(counts);
    proof {
        assert(nonzero_rows(cs) =~= cs) by {
            let pred = |p: (usize, u32)| p.1 > 0;
            lemma_filter_all(cs, pred);
        }
        assert forall|p: (usize, u32)|
            r@.to_multiset().count(p) == (if p.1 > 0 && p.1 == count_id(map.tiles@, p.0, n as int) {
                1nat
            } else {
                0nat
            }) by {
            lemma_count_unique_ids(cs, p);
            if p.1 > 0 && p.1 == count_id(map.tiles@, p.0, n as int) {
                let a = choose|a: int| 0 <= a < cs.len() && #[trigger] cs[a].0 == p.0;
                assert(cs[a] == p);
            }
        }
        lemma_texture_rows_unique(r@, map.tiles@);
    }
    r
}

proof fn lemma_filter_all(s: Seq<(usize, u32)>, pred: spec_fn((usize, u32)) -> bool)
    requires
        forall|a: int| 0 <= a < s.len() ==> pred(#[trigger] s[a]),
    ensures
        s.filter(pred) == s,
    decreases s.len(),
{
    reveal(Seq::filter);
    if s.len() > 0 {
        lemma_filter_all(s.drop_last(), pred);
        assert(s.drop_last().push(s.last()) =~= s);
    }
}

/// With distinct indices, a pair occurs once when it is an entry and not
/// at all otherwise.
proof fn lemma_count_unique_ids(s: Seq<(usize, u32)>, p: (usize, u32))
    requires
        forall|a: int, b: int| 0 <= a < b < s.len() ==> (#[trigger] s[a]).0 != (#[trigger] s[b]).0,
    ensures
        s.to_multiset().count(p) == (if s.contains(p) { 1nat } else { 0nat }),
    decreases s.len(),
{
    broadcast use vstd::multiset::group_multiset_axioms;
    if s.len() > 0 {
        let t = s.drop_last();
        lemma_count_unique_ids(t, p);
        vstd::seq_lib::to_multiset_build(t, s.last());
        assert(t.push(s.last()) =~= s);
        if t.contains(p) {
            let a = choose|a: int| 0 <= a < t.len() && t[a] == p;
            assert(s[a] == p);
            if s.last() == p {
                assert(s[a].0 == s[s.len() - 1].0);
            }
        }
        if s.contains(p) && !t.contains(p) {
            let a = choose|a: int| 0 <= a < s.len() && s[a] == p;
            if a < s.len() - 1 {
                assert(t[a] == p);
            }
        }
        if !s.contains(p) && s.last() == p {
            assert(s[s.len() - 1] == p);
        }
    } else {
        s.to_multiset_ensures();
    }
}


/// Tiles among the first `n` counted under the ids of rows `from` on.
pub open spec fn rows_count_sum(rows: Seq<(usize, u32)>, tiles: Seq<MapTile>, n: int, from: int) -> nat
    decreases rows.len() - from,
{
    if from < 0 || from >= rows.len() {
        0
    } else {
        count_id(tiles, rows[from].0, n) + rows_count_sum(rows, tiles, n, from + 1)
    }
}

/// No two rows share an id.
pub open spec fn ids_distinct(rows: Seq<(usize, u32)>) -> bool {
    forall|i: int, j: int| 0 <= i < j < rows.len() ==> (#[trigger] rows[i]).0 != (#[trigger] rows[j]).0
}

proof fn lemma_rows_count_step(rows: Seq<(usize, u32)>, tiles: Seq<MapTile>, n: int, from: int)
    requires
        n >= 1,
        0 <= from,
        ids_distinct(rows),
    ensures
        rows_count_sum(rows, tiles, n, from) <= rows_count_sum(rows, tiles, n - 1, from) + 1,
        (forall|k: int| from <= k < rows.len() ==> (#[trigger] rows[k]).0 != texture_number(tiles[n - 1].texture))
            ==> rows_count_sum(rows, tiles, n, from) == rows_count_sum(rows, tiles, n - 1, from),
    decreases rows.len() - from,
{
    if from < rows.len() {
        lemma_rows_count_step(rows, tiles, n, from + 1);
        if rows[from].0 == texture_number(tiles[n - 1].texture) {
            assert forall|k: int| from + 1 <= k < rows.len() implies (#[trigger] rows[k]).0 != texture_number(
                tiles[n - 1].texture,
            ) by {
                assert(rows[from].0 != rows[k].0);
            }
        }
    }
}

proof fn lemma_rows_count_bound(rows: Seq<(usize, u32)>, tiles: Seq<MapTile>, n: int)
    requires
        n >= 0,
        ids_distinct(rows),
    ensures
        rows_count_sum(rows, tiles, n, 0) <= n,
    decreases n,
{
    if n == 0 {
        lemma_rows_count_zero(rows, tiles, 0);
    } else {
        lemma_rows_count_bound(rows, tiles, n - 1);
        lemma_rows_count_step(rows, tiles, n, 0);
    }
}

proof fn lemma_rows_count_zero(rows: Seq<(usize, u32)>, tiles: Seq<MapTile>, from: int)
    requires
        0 <= from,
    ensures
        rows_count_sum(rows, tiles, 0, from) == 0,
    decreases rows.len() - from,
{
    if from < rows.len() {
        lemma_rows_count_zero(rows, tiles, from + 1);
    }
}

proof fn lemma_tail_sum_is_count(rows: Seq<(usize, u32)>, tiles: Seq<MapTile>, n: int, from: int)
    requires
        0 <= from,
        forall|k: int| 0 <= k < rows.len() ==> (#[trigger] rows[k]).1 == count_id(tiles, rows[k].0, n),
    ensures
        tail_sum(rows, from) == rows_count_sum(rows, tiles, n, from),
    decreases rows.len() - from,
{
    if from < rows.len() {
        lemma_tail_sum_is_count(rows, tiles, n, from + 1);
    }
}

/// The rows of a tile-texture histogram count at most the map's tiles.
proof fn lemma_histogram_sum(rows: Seq<(usize, u32)>, tiles: Seq<MapTile>)
    requires
        forall|p: (usize, u32)|
            rows.to_multiset().count(p) == (if p.1 > 0 && p.1 == count_id(tiles, p.0, tiles.len() as int) {
                1nat
            } else {
                0nat
            }),
    ensures
        tail_sum(rows, 8) <= tiles.len(),
        ids_distinct(rows),
{
    let n = tiles.len() as int;
    broadcast use vstd::seq_lib::group_to_multiset_ensures;
    assert forall|x: (usize, u32)| rows.to_multiset().contains(x) implies rows.to_multiset().count(x) == 1 by {
        broadcast use vstd::multiset::group_multiset_axioms;
    }
    rows.lemma_multiset_has_no_duplicates_conv();
    assert forall|k: int| 0 <= k < rows.len() implies (#[trigger] rows[k]).1 == count_id(tiles, rows[k].0, n) by {
        let p = rows[k];
        assert(rows.contains(p));
        assert(rows.to_multiset().count(p) > 0);
        assert(rows.to_multiset().count(p) == (if p.1 > 0 && p.1 == count_id(tiles, p.0, n) { 1nat } else { 0nat }));
    }
    assert forall|i: int, j: int| 0 <= i < j < rows.len() implies (#[trigger] rows[i]).0 != (#[trigger] rows[j]).0 by {
        if rows[i].0 == rows[j].0 {
            assert(rows[i] == rows[j]);
        }
    }
    lemma_tail_sum_is_count(rows, tiles, n, 0);
    lemma_rows_count_bound(rows, tiles, n);
    lemma_tail_sum_mono(rows, 0, 8);
}

/// Every texture number in use gets exactly one row, holding its tile count.
pub open spec fn texture_counts(rows: Seq<(usize, u32)>, tiles: Seq<MapTile>) -> bool {
    forall|p: (usize, u32)|
        rows.to_multiset().count(p) == (if p.1 > 0 && p.1 == count_id(tiles, p.0, tiles.len() as int) {
            1nat
        } else {
            0nat
        })
}

/// The ranked tile-texture histogram of `tiles`.
pub open spec fn texture_rows(tiles: Seq<MapTile>) -> Seq<(usize, u32)> {
    choose|rows: Seq<(usize, u32)>| rows_ranked(rows) && texture_counts(rows, tiles)
}

/// Ranking fixes the order, so ranked rows with the histogram's counts are
/// the histogram.
pub proof fn lemma_texture_rows_unique(rows: Seq<(usize, u32)>, tiles: Seq<MapTile>)
    requires
        rows_ranked(rows),
        texture_counts(rows, tiles),
    ensures
        rows == texture_rows(tiles),
{
    let other = texture_rows(tiles);
    let leq = |a: (usize, u32), b: (usize, u32)| row_before(a, b);
    assert(rows_ranked(other) && texture_counts(other, tiles));
    assert(rows.to_multiset() =~= other.to_multiset());
    assert(vstd::relations::sorted_by(rows, leq)) by {
        assert forall|i: int, j: int| 0 <= i < j < rows.len() implies #[trigger] leq(rows[i], rows[j]) by {
            assert(row_before(rows[i], rows[j]));
        }
    }
    assert(vstd::relations::sorted_by(other, leq)) by {
        assert forall|i: int, j: int| 0 <= i < j < other.len() implies #[trigger] leq(other[i], other[j]) by {
            assert(row_before(other[i], other[j]));
        }
    }
    assert(vstd::relations::total_ordering(leq));
    vstd::seq_lib::lemma_sorted_unique(rows, other, leq);
}

/// Row labels of the tile-texture summary.
pub open spec fn tile_labels(rows: Seq<(usize, u32)>) -> Seq<Seq<char>> {
    Seq::new(rows.len(), |k: int| "tile "@ + decimal(rows[k].0 as nat))
}

/// The map line: size, distinct texture count and the ranked summary.
pub open spec fn map_line(map: MapData) -> Seq<char> {
    let rows = texture_rows(map.tiles@);
    "Map "@ + decimal(map.width as nat) + "x"@ + decimal(map.height as nat) + ", "@ + decimal(rows.len())
        + " distinct tile textures: "@ + spec_histogram_summary(rows, map.tiles@.len() as usize, tile_labels(rows))
}

/// Positions below `n` where the two tables disagree.
pub open spec fn differing(a: Seq<TerrainType>, b: Seq<TerrainType>, n: int) -> nat
    decreases n,
{
    if n <= 0 {
        0
    } else {
        differing(a, b, n - 1) + if a[n - 1] != b[n - 1] {
            1nat
        } else {
            0nat
        }
    }
}

/// The terrain-type line: which table the vote reads, and how far a map's
/// own table strays from the built-in one over the entries both have.
pub open spec fn terrain_line(own: Option<Seq<TerrainType>>, builtin: Seq<TerrainType>) -> Seq<char> {
    match own {
        None => "Terrain types: map has no .ttp; using the built-in "@ + decimal(builtin.len()) + "-entry table"@,
        Some(t) => {
            let both = if t.len() < builtin.len() { t.len() } else { builtin.len() };
            "Terrain types: map .ttp has "@ + decimal(t.len()) + " entries vs built-in "@ + decimal(builtin.len())
                + ", "@ + decimal(differing(t, builtin, both as int)) + " differ"@
        },
    }
}

/// The map part of the report: one line when no map is open, else the map
/// line and the terrain-type line.
pub open spec fn map_report(map: Option<MapData>, own: Option<Seq<TerrainType>>, builtin: Seq<TerrainType>) -> Seq<Seq<char>> {
    match map {
        None => seq!["Map: none open"@],
        Some(m) => seq![map_line(m), terrain_line(own, builtin)],
    }
}

fn tile_label_strings(rows: &[(usize, u32)]) -> (r: Vec<String>)
    ensures
        r@.len() == rows@.len(),
        label_views(r@) == tile_labels(rows@),
{
    let mut labels: Vec<String> = Vec::new();
    let mut k: usize = 0;
    while k < rows.len()
        invariant
            k <= rows@.len(),
            labels@.len() == k,
            forall|j: int| 0 <= j < k ==> (#[trigger] labels@[j])@ == "tile "@ + decimal(rows@[j].0 as nat),
        decreases rows@.len() - k,
    {
        let mut s = owned("tile ");
        push_u64(&mut s, rows[k].0 as u64);
        labels.push(s);
        k = k + 1;
    }
    assert(label_views(labels@) =~= tile_labels(rows@));
    labels
}

fn count_differing(a: &[TerrainType], b: &[TerrainType]) -> (r: usize)
    ensures
        r == differing(a@, b@, if a@.len() < b@.len() { a@.len() as int } else { b@.len() as int }),
{
    let both: usize = if a.len() < b.len() { a.len() } else { b.len() };
    let mut n: usize = 0;
    let mut k: usize = 0;
    while k < both
        invariant
            both == (if a@.len() < b@.len() { a@.len() as int } else { b@.len() as int }),
            k <= both,
            n == differing(a@, b@, k as int),
            n <= k,
        decreases both - k,
    {
        if a[k] != b[k] {
            n = n + 1;
        }
        k = k + 1;
    }
    n
}

/// Append the map part of the renderer report to `lines`: the open map's
/// size and tile-texture histogram, and whether the ground vote reads the
/// map's own terrain-type table or the built-in one.
pub fn collect_map(
    lines: &mut Vec<Line>,
    map: Option<&MapData>,
    terrain_types: Option<&TerrainTypeData>,
    builtin: &[TerrainType],
)
    requires
        map matches Some(m) ==> m.tiles@.len() <= u32::MAX,
    ensures
        ({
            let report = map_report(
                match map { Some(m) => Some(*m), None => None },
                match terrain_types { Some(t) => Some(t.terrain_types@), None => None },
                builtin@,
            );
            &&& final(lines)@.len() == old(lines)@.len() + report.len()
            &&& forall|i: int| 0 <= i < old(lines)@.len() ==> final(lines)@[i] == old(lines)@[i]
            &&& forall|j: int| 0 <= j < report.len() ==> !(#[trigger] final(lines)@[old(lines)@.len() + j]).warn
                && final(lines)@[old(lines)@.len() + j].text@ == report[j]
        }),
{
    let ghost before = lines@;
    let ghost own = match terrain_types { Some(t) => Some(t.terrain_types@), None => None };
    let m = match map {
        None => {
            let l = info(owned("Map: none open"));
            lines.push(l);
            assert(map_report(None, own, builtin@) =~= seq![l.text@]);
            return;
        },
        Some(m) => m,
    };
    let rows = tile_texture_histogram(m);
    proof {
        lemma_histogram_sum(rows@, m.tiles@);
    }
    let labels = tile_label_strings(rows.as_slice());
    let summary = histogram_summary(rows.as_slice(), m.tiles.len(), labels.as_slice());
    let mut text = owned("Map ");
    push_u64(&mut text, m.width as u64);
    push_str(&mut text, "x");
    push_u64(&mut text, m.height as u64);
    push_str(&mut text, ", ");
    push_u64(&mut text, rows.len() as u64);
    push_str(&mut text, " distinct tile textures: ");
    push_str(&mut text, summary.as_str());
    proof {
        assert(text@ =~= map_line(*m));
    }
    let first = info(text);
    lines.push(first);
    let mut t = String::new();
    match terrain_types {
        None => {
            push_str(&mut t, "Terrain types: map has no .ttp; using the built-in ");
            push_u64(&mut t, builtin.len() as u64);
            push_str(&mut t, "-entry table");
        },
        Some(own) => {
            let d = count_differing(own.terrain_types.as_slice(), builtin);
            push_str(&mut t, "Terrain types: map .ttp has ");
            push_u64(&mut t, own.terrain_types.len() as u64);
            push_str(&mut t, " entries vs built-in ");
            push_u64(&mut t, builtin.len() as u64);
            push_str(&mut t, ", ");
            push_u64(&mut t, d as u64);
            push_str(&mut t, " differ");
        },
    }
    proof {
        assert(t@ =~= terrain_line(own, builtin@));
    }
    let second = info(t);
    lines.push(second);
    proof {
        assert(map_report(Some(*m), own, builtin@) =~= seq![first.text@, second.text@]);
        assert(lines@ =~= before.push(first).push(second));
    }
}

} // verus!
