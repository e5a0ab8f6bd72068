//! Starting-economy balance: per-player structure, droid and oil counts,
//! oil resources shared out to the nearest player start, and whether every
//! player is equipped alike.
use vstd::prelude::*;
use crate::map_model::{Structure, Droid, Feature, WorldPos, WzMap, MapModel};
use crate::text::{has_prefix, eq_ignore_case, lex_lt, str_lt, str_eq, str_starts_with, str_eq_ignore_case,
    lemma_lex_asym, lemma_lex_total, lemma_lex_trans};

verus! {

/// Tile coordinate of a world coordinate, read as a signed 32-bit value
/// (negative values clamp to 0).
pub open spec fn world_to_tile_coord(x: u32) -> u32 {
    if x < 0x8000_0000 {
        x >> 7u32
    } else {
        0
    }
}

fn world_to_tile_coord_exec(x: u32) -> (r: u32)
    ensures
        r == world_to_tile_coord(x),
        r < 0x100_0000,
{
    if x < 0x8000_0000 {
        let r = x >> 7;
        assert(r < 0x100_0000) by (bit_vector)
            requires
                x < 0x8000_0000u32,
                r == x >> 7u32,
        ;
        r
    } else {
        0
    }
}

pub open spec fn pos_tile(p: WorldPos) -> (u32, u32) {
    (world_to_tile_coord(p.x), world_to_tile_coord(p.y))
}

/// Player HQ structures: `A0CommandCentre` and its variants.
pub open spec fn is_hq(name: Seq<char>) -> bool {
    has_prefix(name, "A0CommandCentre"@)
}

/// Start of player `p` over the first `n` structures: the first HQ's tile
/// if it has one, else its first structure's tile, with whether an HQ was
/// found; `None` while the player owns none of them.
pub open spec fn start_of(s: Seq<Structure>, p: i8, n: int) -> Option<((u32, u32), bool)>
    decreases n,
{
    if n <= 0 {
        None
    } else {
        let prev = start_of(s, p, n - 1);
        let x = s[n - 1];
        if x.player != p || p < 0 {
            prev
        } else {
            match prev {
                None => Some((pos_tile(x.position), is_hq(x.name@))),
                Some((t, h)) => if !h && is_hq(x.name@) {
                    Some((pos_tile(x.position), true))
                } else {
                    prev
                },
            }
        }
    }
}

/// Structures of player `p` among the first `n`.
pub open spec fn count_structures(s: Seq<Structure>, p: i8, n: int) -> nat
    decreases n,
{
    if n <= 0 {
        0
    } else {
        count_structures(s, p, n - 1) + if s[n - 1].player == p {
            1nat
        } else {
            0nat
        }
    }
}

/// Structures of player `p` named `name` among the first `n`.
pub open spec fn count_named(s: Seq<Structure>, p: i8, name: Seq<char>, n: int) -> nat
    decreases n,
{
    if n <= 0 {
        0
    } else {
        count_named(s, p, name, n - 1) + if s[n - 1].player == p && s[n - 1].name@ == name {
            1nat
        } else {
            0nat
        }
    }
}

/// Droids of player `p` among the first `n`.
pub open spec fn count_droids(d: Seq<Droid>, p: i8, n: int) -> nat
    decreases n,
{
    if n <= 0 {
        0
    } else {
        count_droids(d, p, n - 1) + if d[n - 1].player == p {
            1nat
        } else {
            0nat
        }
    }
}

/// Oil resources (compared case-insensitively).
pub open spec fn is_oil(f: Feature) -> bool {
    eq_ignore_case(f.name@, "OilResource"@)
}

/// Tiles of the oil resources among the first `n` features, in order.
pub open spec fn oil_tiles(f: Seq<Feature>, n: int) -> Seq<(u32, u32)>
    decreases n,
{
    if n <= 0 {
        Seq::empty()
    } else if is_oil(f[n - 1]) {
        oil_tiles(f, n - 1).push(pos_tile(f[n - 1].position))
    } else {
        oil_tiles(f, n - 1)
    }
}

/// Squared distance between two tiles.
pub open spec fn dist2(a: (u32, u32), b: (u32, u32)) -> int {
    (a.0 - b.0) * (a.0 - b.0) + (a.1 - b.1) * (a.1 - b.1)
}

/// `k` is the first of `starts` at the least distance from `oil`.
pub open spec fn is_first_nearest(starts: Seq<(u32, u32)>, oil: (u32, u32), k: int) -> bool {
    &&& 0 <= k < starts.len()
    &&& forall|j: int| 0 <= j < k ==> dist2(oil, #[trigger] starts[j]) > dist2(oil, starts[k])
    &&& forall|j: int| k < j < starts.len() ==> dist2(oil, #[trigger] starts[j]) >= dist2(oil, starts[k])
}

/// Players with at least one structure, ascending.
pub open spec fn players_ok(s: Seq<Structure>, ids: Seq<i8>) -> bool {
    &&& forall|i: int, j: int| 0 <= i < j < ids.len() ==> #[trigger] ids[i] < #[trigger] ids[j]
    &&& forall|p: i8| ids.contains(p) <==> start_of(s, p, s.len() as int) is Some
}

/// One player's balance figures.
#[derive(Debug)]
pub struct PlayerBalance {
    pub player: i8,
    /// The HQ's tile if there is one, else the player's first structure's.
    pub start_tile: (u32, u32),
    pub has_hq: bool,
    pub oil_count: u32,
    pub structure_count: u32,
    pub droid_count: u32,
    /// Structure name and count, sorted by name.
    pub structures: Vec<(String, u32)>,
}

/// Result of [`run_balance_analysis`].
#[derive(Debug)]
pub struct BalanceReport {
    pub players: Vec<PlayerBalance>,
    pub total_oil: u32,
    /// Oil resources assigned to no player: all of them when the map has no
    /// player, none otherwise.
    pub neutral_oil: u32,
    /// Each oil resource's tile and the player it went to, in map order.
    pub oil_assignment: Vec<((u32, u32), i8)>,
    pub oil_balanced: bool,
    pub structures_balanced: bool,
    pub droids_balanced: bool,
}

impl BalanceReport {
    /// Balanced in every category.
    pub fn fully_balanced(&self) -> (r: bool)
        ensures
            r == (self.oil_balanced && self.structures_balanced && self.droids_balanced),
    {
        self.oil_balanced && self.structures_balanced && self.droids_balanced
    }
}

pub open spec fn breakdown_view(v: Seq<(String, u32)>) -> Seq<(Seq<char>, u32)> {
    v.map_values(|e: (String, u32)| (e.0@, e.1))
}

/// The name breakdown of player `p`: every structure name the player owns
/// once, with its count, sorted by name.
pub open spec fn breakdown_ok(s: Seq<Structure>, p: i8, b: Seq<(Seq<char>, u32)>) -> bool {
    breakdown_ok_upto(s, p, b, s.len() as int)
}

/// [`breakdown_ok`] over the first `n` structures.
pub open spec fn breakdown_ok_upto(s: Seq<Structure>, p: i8, b: Seq<(Seq<char>, u32)>, n: int) -> bool {
    &&& forall|i: int, j: int| 0 <= i < j < b.len() ==> lex_lt((#[trigger] b[i]).0, (#[trigger] b[j]).0)
    &&& forall|i: int| 0 <= i < b.len() ==> (#[trigger] b[i]).1 == count_named(s, p, b[i].0, n) && b[i].1 > 0
    &&& forall|name: Seq<char>| #[trigger] count_named(s, p, name, n) > 0 ==> exists|i: int|
        0 <= i < b.len() && (#[trigger] b[i]).0 == name
}

/// Oil resources assigned to player `p`.
pub open spec fn assigned_to(a: Seq<((u32, u32), i8)>, p: i8, n: int) -> nat
    decreases n,
{
    if n <= 0 {
        0
    } else {
        assigned_to(a, p, n - 1) + if a[n - 1].1 == p {
            1nat
        } else {
            0nat
        }
    }
}

/// Every element equal.
pub open spec fn all_same(v: Seq<u32>) -> bool {
    forall|i: int| 0 <= i < v.len() ==> #[trigger] v[i] == v[0]
}

/// Every element equal to the first; true when empty.
pub fn all_equal(v: &[u32]) -> (r: bool)
    ensures
        r == all_same(v@),
{
    if v.len() == 0 {
        return true;
    }
    let first = v[0];
    let mut i: usize = 1;
    while i < v.len()
        invariant
            1 <= i <= v@.len(),
            first == v@[0],
            forall|k: int| 0 <= k < i ==> v@[k] == first,
        decreases v@.len() - i,
    {
        if v[i] != first {
            return false;
        }
        i = i + 1;
    }
    true
}

pub open spec fn oil_counts(players: Seq<PlayerBalance>) -> Seq<u32> {
    players.map_values(|p: PlayerBalance| p.oil_count)
}

pub open spec fn droid_counts(players: Seq<PlayerBalance>) -> Seq<u32> {
    players.map_values(|p: PlayerBalance| p.droid_count)
}

/// The whole report for a map.
pub open spec fn report_ok(m: MapModel, r: BalanceReport) -> bool {
    let s = m.structures;
    let oils = oil_tiles(m.features, m.features.len() as int);
    let ids = r.players@.map_values(|p: PlayerBalance| p.player);
    &&& players_ok(s, ids)
    &&& r.total_oil == oils.len() as u32
    &&& r.neutral_oil == oils.len() - r.oil_assignment@.len()
    &&& r.oil_assignment@.len() == (if ids.len() == 0 { 0 } else { oils.len() })
    &&& forall|k: int| 0 <= k < r.oil_assignment@.len() ==> {
        let starts = r.players@.map_values(|p: PlayerBalance| p.start_tile);
        (#[trigger] r.oil_assignment@[k]).0 == oils[k] && exists|j: int| is_first_nearest(starts, oils[k], j)
            && r.oil_assignment@[k].1 == ids[j]
    }
    &&& forall|i: int| 0 <= i < r.players@.len() ==> {
        let pb = #[trigger] r.players@[i];
        let p = pb.player;
        &&& start_of(s, p, s.len() as int) == Some((pb.start_tile, pb.has_hq))
        &&& pb.structure_count == count_structures(s, p, s.len() as int)
        &&& pb.droid_count == count_droids(m.droids, p, m.droids.len() as int)
        &&& pb.oil_count == assigned_to(r.oil_assignment@, p, r.oil_assignment@.len() as int)
        &&& breakdown_ok(s, p, breakdown_view(pb.structures@))
    }
    &&& r.oil_balanced == all_same(oil_counts(r.players@))
    &&& r.droids_balanced == all_same(droid_counts(r.players@))
    &&& r.structures_balanced == forall|i: int| 0 <= i < r.players@.len() ==> breakdown_view(
        (#[trigger] r.players@[i]).structures@,
    ) == breakdown_view(r.players@[0].structures@)
}



fn pos_tile_exec(p: WorldPos) -> (r: (u32, u32))
    ensures
        r == pos_tile(p),
        r.0 < 0x100_0000 && r.1 < 0x100_0000,
{
    (world_to_tile_coord_exec(p.x), world_to_tile_coord_exec(p.y))
}

/// `starts` records, for each player owning one of the first `n`
/// structures, that player's start, each player once.
pub open spec fn starts_ok(s: Seq<Structure>, starts: Seq<(i8, (u32, u32), bool)>, n: int) -> bool {
    &&& forall|a: int, b: int| 0 <= a < b < starts.len() ==> (#[trigger] starts[a]).0 != (#[trigger] starts[b]).0
    &&& forall|a: int| 0 <= a < starts.len() ==> start_of(s, (#[trigger] starts[a]).0, n) == Some((starts[a].1, starts[a].2))
    &&& forall|p: i8| #[trigger] start_of(s, p, n) is Some ==> exists|a: int| 0 <= a < starts.len() && (#[trigger] starts[a]).0 == p
}

proof fn lemma_start_of_negative(s: Seq<Structure>, p: i8, n: int)
    requires
        p < 0,
    ensures
        start_of(s, p, n) is None,
    decreases n,
{
    if n > 0 {
        lemma_start_of_negative(s, p, n - 1);
    }
}

/// Each player's start: the first HQ's tile if any, else the first
/// structure's; players in order of first appearance.
fn collect_player_starts(s: &Vec<Structure>) -> (r: Vec<(i8, (u32, u32), bool)>)
    ensures
        starts_ok(s@, r@, s@.len() as int),
        forall|a: int| 0 <= a < r@.len() ==> (#[trigger] r@[a]).1.0 < 0x100_0000 && r@[a].1.1 < 0x100_0000,
{
    let mut by_player: Vec<(i8, (u32, u32), bool)> = Vec::new();
    let mut i: usize = 0;
    while i < s.len()
        invariant
            i <= s@.len(),
            starts_ok(s@, by_player@, i as int),
            forall|a: int| 0 <= a < by_player@.len() ==> (#[trigger] by_player@[a]).1.0 < 0x100_0000 && by_player@[a].1.1
                < 0x100_0000,
        decreases s@.len() - i,
    {
        let st = &s[i];
        let ghost old_starts = by_player@;
        if st.player < 0 {
            proof {
                assert forall|p: i8| #[trigger] start_of(s@, p, i as int + 1) is Some implies exists|a: int|
                    0 <= a < by_player@.len() && (#[trigger] by_player@[a]).0 == p by {
                    assert(start_of(s@, p, i as int) is Some);
                }
            }
            i = i + 1;
            continue;
        }
        let tile = pos_tile_exec(st.position);
        let is_hq_here = str_starts_with(st.name.as_str(), "A0CommandCentre");
        let mut j: usize = 0;
        while j < by_player.len() && by_player[j].0 != st.player
            invariant
                j <= by_player@.len(),
                forall|a: int| 0 <= a < j ==> (#[trigger] by_player@[a]).0 != st.player,
            decreases by_player@.len() - j,
        {
            j = j + 1;
        }
        if j < by_player.len() {
            let (pl, _, has_hq) = by_player[j];
            if !has_hq && is_hq_here {
                by_player.set(j, (pl, tile, true));
            }
            proof {
                assert forall|a: int| 0 <= a < by_player@.len() implies start_of(s@, (#[trigger] by_player@[a]).0, i as int + 1)
                    == Some((by_player@[a].1, by_player@[a].2)) by {
                    if a != j {
                        assert(by_player@[a] == old_starts[a]);
                        assert(old_starts[a].0 != old_starts[j as int].0);
                    }
                }
                assert forall|p: i8| #[trigger] start_of(s@, p, i as int + 1) is Some implies exists|a: int|
                    0 <= a < by_player@.len() && (#[trigger] by_player@[a]).0 == p by {
                    if p != st.player {
                        assert(start_of(s@, p, i as int) is Some);
                        let a = choose|a: int| 0 <= a < old_starts.len() && (#[trigger] old_starts[a]).0 == p;
                        assert(by_player@[a].0 == p);
                    } else {
                        assert(by_player@[j as int].0 == p);
                    }
                }
                assert forall|a: int, b: int| 0 <= a < b < by_player@.len() implies (#[trigger] by_player@[a]).0
                    != (#[trigger] by_player@[b]).0 by {
                    assert(old_starts[a].0 != old_starts[b].0);
                }
            }
        } else {
            by_player.push((st.player, tile, is_hq_here));
            proof {
                assert(start_of(s@, st.player, i as int) is None) by {
                    if start_of(s@, st.player, i as int) is Some {
                        let a = choose|a: int| 0 <= a < old_starts.len() && (#[trigger] old_starts[a]).0 == st.player;
                    }
                }
                assert forall|a: int| 0 <= a < by_player@.len() implies start_of(s@, (#[trigger] by_player@[a]).0, i as int + 1)
                    == Some((by_player@[a].1, by_player@[a].2)) by {
                    if a < old_starts.len() {
                        assert(by_player@[a] == old_starts[a]);
                    }
                }
                assert forall|p: i8| #[trigger] start_of(s@, p, i as int + 1) is Some implies exists|a: int|
                    0 <= a < by_player@.len() && (#[trigger] by_player@[a]).0 == p by {
                    if p != st.player {
                        assert(start_of(s@, p, i as int) is Some);
                        let a = choose|a: int| 0 <= a < old_starts.len() && (#[trigger] old_starts[a]).0 == p;
                        assert(by_player@[a].0 == p);
                    } else {
                        assert(by_player@[old_starts.len() as int].0 == p);
                    }
                }
                assert forall|a: int, b: int| 0 <= a < b < by_player@.len() implies (#[trigger] by_player@[a]).0
                    != (#[trigger] by_player@[b]).0 by {
                    if b < old_starts.len() {
                        assert(old_starts[a].0 != old_starts[b].0);
                    }
                }
            }
        }
        i = i + 1;
    }
    by_player
}


proof fn lemma_counts_bounded(s: Seq<Structure>, p: i8, name: Seq<char>, n: int)
    requires
        0 <= n,
    ensures
        count_named(s, p, name, n) <= count_structures(s, p, n),
        count_structures(s, p, n) <= n,
    decreases n,
{
    if n > 0 {
        lemma_counts_bounded(s, p, name, n - 1);
    }
}

/// Structure count and name breakdown of player `p`.
fn player_structures(s: &Vec<Structure>, p: i8) -> (r: (u32, Vec<(String, u32)>))
    requires
        s@.len() <= u32::MAX,
    ensures
        r.0 == count_structures(s@, p, s@.len() as int),
        breakdown_ok(s@, p, breakdown_view(r.1@)),
{
    let mut count: u32 = 0;
    let mut b: Vec<(String, u32)> = Vec::new();
    let mut i: usize = 0;
    while i < s.len()
        invariant
            i <= s@.len(),
            s@.len() <= u32::MAX,
            count == count_structures(s@, p, i as int),
            breakdown_ok_upto(s@, p, breakdown_view(b@), i as int),
        decreases s@.len() - i,
    {
        let st = &s[i];
        let ghost bv0 = breakdown_view(b@);
        proof {
            lemma_counts_bounded(s@, p, st.name@, i as int);
        }
        if st.player == p {
            count = count + 1;
            let name = st.name.as_str();
            let mut j: usize = 0;
            while j < b.len() && !str_eq(b[j].0.as_str(), name)
                invariant
                    j <= b@.len(),
                    forall|k: int| 0 <= k < j ==> (#[trigger] b@[k]).0@ != name@,
                decreases b@.len() - j,
            {
                j = j + 1;
            }
            if j < b.len() {
                let c = b[j].1;
                proof {
                    assert(bv0[j as int].0 == name@);
                    assert(c == count_named(s@, p, name@, i as int));
                    assert(count_named(s@, p, name@, i as int + 1) == c + 1);
                }
                let entry = (b[j].0.clone(), c + 1);
                b.set(j, entry);
                proof {
                    let bv = breakdown_view(b@);
                    assert(bv =~= bv0.update(j as int, (name@, (c + 1) as u32)));
                    assert forall|x: int| 0 <= x < bv.len() implies (#[trigger] bv[x]).1 == count_named(
                        s@,
                        p,
                        bv[x].0,
                        i as int + 1,
                    ) && bv[x].1 > 0 by {
                        if x != j {
                            assert(bv[x] == bv0[x]);
                            lemma_lex_asym(bv0[x].0, bv0[x].0);
                            if x < j {
                                assert(lex_lt(bv0[x].0, bv0[j as int].0));
                            } else {
                                assert(lex_lt(bv0[j as int].0, bv0[x].0));
                            }
                            assert(bv0[x].0 != name@);
                        }
                    }
                    assert forall|nm: Seq<char>| #[trigger] count_named(s@, p, nm, i as int + 1) > 0 implies exists|x: int|
                        0 <= x < bv.len() && (#[trigger] bv[x]).0 == nm by {
                        if nm != name@ {
                            assert(count_named(s@, p, nm, i as int) > 0);
                            let x = choose|x: int| 0 <= x < bv0.len() && (#[trigger] bv0[x]).0 == nm;
                            assert(bv[x].0 == nm);
                        } else {
                            assert(bv[j as int].0 == nm);
                        }
                    }
                    assert forall|x: int, y: int| 0 <= x < y < bv.len() implies lex_lt((#[trigger] bv[x]).0, (#[trigger] bv[y]).0) by {
                        assert(lex_lt(bv0[x].0, bv0[y].0));
                    }
                }
            } else {
                let mut k: usize = 0;
                while k < b.len() && !str_lt(name, b[k].0.as_str())
                    invariant
                        k <= b@.len(),
                        forall|q: int| 0 <= q < b@.len() ==> (#[trigger] b@[q]).0@ != name@,
                        forall|q: int| 0 <= q < k ==> lex_lt((#[trigger] b@[q]).0@, name@),
                    decreases b@.len() - k,
                {
                    proof {
                        lemma_lex_total(b@[k as int].0@, name@);
                    }
                    k = k + 1;
                }
                proof {
                    assert(count_named(s@, p, name@, i as int) == 0) by {
                        if count_named(s@, p, name@, i as int) > 0 {
                            let x = choose|x: int| 0 <= x < bv0.len() && (#[trigger] bv0[x]).0 == name@;
                            assert(b@[x].0@ == name@);
                        }
                    }
                }
                b.insert(k, (st.name.clone(), 1));
                proof {
                    let bv = breakdown_view(b@);
                    assert(bv =~= bv0.insert(k as int, (name@, 1u32)));
                    assert forall|x: int| 0 <= x < bv.len() implies (#[trigger] bv[x]).1 == count_named(
                        s@,
                        p,
                        bv[x].0,
                        i as int + 1,
                    ) && bv[x].1 > 0 by {
                        if x < k {
                            assert(bv[x] == bv0[x]);
                        } else if x > k {
                            assert(bv[x] == bv0[x - 1]);
                        }
                    }
                    assert forall|nm: Seq<char>| #[trigger] count_named(s@, p, nm, i as int + 1) > 0 implies exists|x: int|
                        0 <= x < bv.len() && (#[trigger] bv[x]).0 == nm by {
                        if nm != name@ {
                            assert(count_named(s@, p, nm, i as int) > 0);
                            let x = choose|x: int| 0 <= x < bv0.len() && (#[trigger] bv0[x]).0 == nm;
                            if x < k {
                                assert(bv[x].0 == nm);
                            } else {
                                assert(bv[x + 1].0 == nm);
                            }
                        } else {
                            assert(bv[k as int].0 == nm);
                        }
                    }
                    assert forall|x: int, y: int| 0 <= x < y < bv.len() implies lex_lt((#[trigger] bv[x]).0, (#[trigger] bv[y]).0) by {
                        if y < k {
                            assert(bv[x] == bv0[x] && bv[y] == bv0[y]);
                        } else if y == k {
                            assert(bv[x] == bv0[x]);
                        } else if x == k {
                            assert(bv[y] == bv0[y - 1]);
                            if y - 1 > k {
                                assert(lex_lt(bv0[k as int].0, bv0[y - 1].0));
                                lemma_lex_trans(name@, bv0[k as int].0, bv0[y - 1].0);
                            }
                        } else if x < k {
                            assert(bv[x] == bv0[x] && bv[y] == bv0[y - 1]);
                            if x < y - 1 {
                                assert(lex_lt(bv0[x].0, bv0[y - 1].0));
                            }
                        } else {
                            assert(bv[x] == bv0[x - 1] && bv[y] == bv0[y - 1]);
                        }
                    }
                }
            }
        } else {
            proof {
                let bv = breakdown_view(b@);
                assert forall|nm: Seq<char>| #[trigger] count_named(s@, p, nm, i as int + 1) > 0 implies exists|x: int|
                    0 <= x < bv.len() && (#[trigger] bv[x]).0 == nm by {
                    assert(count_named(s@, p, nm, i as int) > 0);
                }
            }
        }
        i = i + 1;
    }
    (count, b)
}


fn count_player_droids(d: &Vec<Droid>, p: i8) -> (r: u32)
    requires
        d@.len() <= u32::MAX,
    ensures
        r == count_droids(d@, p, d@.len() as int),
{
    let mut count: u32 = 0;
    let mut i: usize = 0;
    while i < d.len()
        invariant
            i <= d@.len(),
            d@.len() <= u32::MAX,
            count == count_droids(d@, p, i as int),
            count <= i,
        decreases d@.len() - i,
    {
        if d[i].player == p {
            count = count + 1;
        }
        i = i + 1;
    }
    count
}

/// Oil resources among the first `n` features.
pub open spec fn oil_count(f: Seq<Feature>, n: int) -> nat
    decreases n,
{
    if n <= 0 {
        0
    } else {
        oil_count(f, n - 1) + if is_oil(f[n - 1]) {
            1nat
        } else {
            0nat
        }
    }
}

/// The report's oil total is the number of oil resources: one tile is
/// listed per oil resource.
pub proof fn lemma_oil_tiles_count(f: Seq<Feature>, n: int)
    requires
        0 <= n,
    ensures
        oil_tiles(f, n).len() == oil_count(f, n),
    decreases n,
{
    if n > 0 {
        lemma_oil_tiles_count(f, n - 1);
    }
}

/// Number of oil resources on the map.
pub fn count_oil(map: &WzMap) -> (r: u32)
    requires
        map.features@.len() <= u32::MAX,
    ensures
        r == oil_count(map@.features, map@.features.len() as int),
{
    let mut n: u32 = 0;
    let mut i: usize = 0;
    while i < map.features.len()
        invariant
            i <= map.features@.len(),
            map.features@.len() <= u32::MAX,
            n == oil_count(map.features@, i as int),
            n <= i,
        decreases map.features@.len() - i,
    {
        if str_eq_ignore_case(map.features[i].name.as_str(), "OilResource") {
            n = n + 1;
        }
        i = i + 1;
    }
    n
}

/// Tiles of the oil resources, in map order.
fn collect_oil_tiles(f: &Vec<Feature>) -> (r: Vec<(u32, u32)>)
    ensures
        r@ == oil_tiles(f@, f@.len() as int),
        forall|k: int| 0 <= k < r@.len() ==> (#[trigger] r@[k]).0 < 0x100_0000 && r@[k].1 < 0x100_0000,
{
    let mut out: Vec<(u32, u32)> = Vec::new();
    let mut i: usize = 0;
    while i < f.len()
        invariant
            i <= f@.len(),
            out@ == oil_tiles(f@, i as int),
            forall|k: int| 0 <= k < out@.len() ==> (#[trigger] out@[k]).0 < 0x100_0000 && out@[k].1 < 0x100_0000,
        decreases f@.len() - i,
    {
        if str_eq_ignore_case(f[i].name.as_str(), "OilResource") {
            let t = pos_tile_exec(f[i].position);
            out.push(t);
        }
        i = i + 1;
    }
    out
}

/// The starts ordered by player.
fn sort_starts(v: Vec<(i8, (u32, u32), bool)>) -> (r: Vec<(i8, (u32, u32), bool)>)
    requires
        forall|a: int, b: int| 0 <= a < b < v@.len() ==> (#[trigger] v@[a]).0 != (#[trigger] v@[b]).0,
    ensures
        r@.len() == v@.len(),
        forall|a: int, b: int| 0 <= a < b < r@.len() ==> (#[trigger] r@[a]).0 < (#[trigger] r@[b]).0,
        forall|x: (i8, (u32, u32), bool)| r@.contains(x) <==> v@.contains(x),
{
    let mut out: Vec<(i8, (u32, u32), bool)> = Vec::new();
    let mut i: usize = 0;
    while i < v.len()
        invariant
            i <= v@.len(),
            forall|a: int, b: int| 0 <= a < b < v@.len() ==> (#[trigger] v@[a]).0 != (#[trigger] v@[b]).0,
            out@.len() == i,
            forall|a: int, b: int| 0 <= a < b < out@.len() ==> (#[trigger] out@[a]).0 < (#[trigger] out@[b]).0,
            forall|x: (i8, (u32, u32), bool)| out@.contains(x) <==> v@.take(i as int).contains(x),
        decreases v@.len() - i,
    {
        let x = v[i];
        let mut j: usize = 0;
        while j < out.len() && out[j].0 < x.0
            invariant
                j <= out@.len(),
                forall|q: int| 0 <= q < j ==> (#[trigger] out@[q]).0 < x.0,
            decreases out@.len() - j,
        {
            j = j + 1;
        }
        let ghost ov = out@;
        proof {
            if j < ov.len() {
                assert(ov.contains(ov[j as int]));
                assert(v@.take(i as int).contains(ov[j as int]));
                let q = choose|q: int| 0 <= q < v@.take(i as int).len() && v@.take(i as int)[q] == ov[j as int];
                assert(v@[q] == ov[j as int]);
                assert(v@[q].0 != v@[i as int].0);
            }
        }
        out.insert(j, x);
        proof {
            let nv = out@;
            assert(nv =~= ov.insert(j as int, x));
            assert forall|a: int, b: int| 0 <= a < b < nv.len() implies (#[trigger] nv[a]).0 < (#[trigger] nv[b]).0 by {
                if b < j {
                    assert(nv[a] == ov[a] && nv[b] == ov[b]);
                } else if b == j {
                    assert(nv[a] == ov[a]);
                } else if a == j {
                    assert(nv[b] == ov[b - 1]);
                    if b - 1 > j {
                        assert(ov[j as int].0 < ov[b - 1].0);
                    }
                } else if a < j {
                    assert(nv[a] == ov[a] && nv[b] == ov[b - 1]);
                    if a < b - 1 {
                        assert(ov[a].0 < ov[b - 1].0);
                    }
                } else {
                    assert(nv[a] == ov[a - 1] && nv[b] == ov[b - 1]);
                }
            }
            assert(v@.take(i as int + 1) =~= v@.take(i as int).push(x));
            assert forall|y: (i8, (u32, u32), bool)| nv.contains(y) <==> v@.take(i as int + 1).contains(y) by {
                let t = v@.take(i as int);
                let t1 = v@.take(i as int + 1);
                if nv.contains(y) {
                    let q = choose|q: int| 0 <= q < nv.len() && nv[q] == y;
                    if q < j {
                        assert(ov.contains(y) && ov[q] == y);
                        assert(t.contains(y));
                        let w = choose|w: int| 0 <= w < t.len() && t[w] == y;
                        assert(t1[w] == y);
                    } else if q > j {
                        assert(ov[q - 1] == y);
                        assert(ov.contains(y));
                        assert(t.contains(y));
                        let w = choose|w: int| 0 <= w < t.len() && t[w] == y;
                        assert(t1[w] == y);
                    } else {
                        assert(t1[i as int] == y);
                    }
                }
                if t1.contains(y) {
                    let w = choose|w: int| 0 <= w < t1.len() && t1[w] == y;
                    if w < i {
                        assert(t[w] == y);
                        assert(t.contains(y));
                        assert(ov.contains(y));
                        let q = choose|q: int| 0 <= q < ov.len() && ov[q] == y;
                        if q < j {
                            assert(nv[q] == y);
                        } else {
                            assert(nv[q + 1] == y);
                        }
                    } else {
                        assert(nv[j as int] == y);
                    }
                }
            }
        }
        i = i + 1;
    }
    proof {
        assert(v@.take(v@.len() as int) =~= v@);
    }
    out
}

fn dist2_exec(a: (u32, u32), b: (u32, u32)) -> (r: u64)
    requires
        a.0 < 0x100_0000 && a.1 < 0x100_0000,
        b.0 < 0x100_0000 && b.1 < 0x100_0000,
    ensures
        r == dist2(a, b),
{
    let dx: u64 = if a.0 >= b.0 { (a.0 - b.0) as u64 } else { (b.0 - a.0) as u64 };
    let dy: u64 = if a.1 >= b.1 { (a.1 - b.1) as u64 } else { (b.1 - a.1) as u64 };
    assert(dx * dx <= 0x100_0000 * 0x100_0000) by (nonlinear_arith)
        requires
            dx <= 0x100_0000,
    ;
    assert(dy * dy <= 0x100_0000 * 0x100_0000) by (nonlinear_arith)
        requires
            dy <= 0x100_0000,
    ;
    assert(dx * dx == (a.0 - b.0) * (a.0 - b.0)) by (nonlinear_arith)
        requires
            dx == a.0 - b.0 || dx == b.0 - a.0,
    ;
    assert(dy * dy == (a.1 - b.1) * (a.1 - b.1)) by (nonlinear_arith)
        requires
            dy == a.1 - b.1 || dy == b.1 - a.1,
    ;
    dx * dx + dy * dy
}

pub open spec fn start_tiles(players: Seq<PlayerBalance>) -> Seq<(u32, u32)> {
    players.map_values(|p: PlayerBalance| p.start_tile)
}

/// The first player whose start is nearest `oil`.
fn nearest_player(players: &Vec<PlayerBalance>, oil: (u32, u32)) -> (k: usize)
    requires
        players@.len() > 0,
        oil.0 < 0x100_0000 && oil.1 < 0x100_0000,
        forall|q: int| 0 <= q < players@.len() ==> (#[trigger] players@[q]).start_tile.0 < 0x100_0000
            && players@[q].start_tile.1 < 0x100_0000,
    ensures
        is_first_nearest(start_tiles(players@), oil, k as int),
{
    let ghost st = start_tiles(players@);
    let mut best: usize = 0;
    let mut best_d = dist2_exec(oil, players[0].start_tile);
    let mut k: usize = 1;
    while k < players.len()
        invariant
            st == start_tiles(players@),
            1 <= k <= players@.len(),
            best < k,
            best_d == dist2(oil, st[best as int]),
            forall|q: int| 0 <= q < players@.len() ==> (#[trigger] players@[q]).start_tile.0 < 0x100_0000
                && players@[q].start_tile.1 < 0x100_0000,
            oil.0 < 0x100_0000 && oil.1 < 0x100_0000,
            forall|j: int| 0 <= j < best ==> dist2(oil, #[trigger] st[j]) > dist2(oil, st[best as int]),
            forall|j: int| best < j < k ==> dist2(oil, #[trigger] st[j]) >= dist2(oil, st[best as int]),
        decreases players@.len() - k,
    {
        let d = dist2_exec(oil, players[k].start_tile);
        assert(st[k as int] == players@[k as int].start_tile);
        if !(best_d <= d) {
            best = k;
            best_d = d;
        }
        k = k + 1;
    }
    best
}

proof fn lemma_assigned_bound(a: Seq<((u32, u32), i8)>, p: i8, n: int)
    requires
        0 <= n,
    ensures
        assigned_to(a, p, n) <= n,
    decreases n,
{
    if n > 0 {
        lemma_assigned_bound(a, p, n - 1);
    }
}

fn breakdown_eq(a: &Vec<(String, u32)>, b: &Vec<(String, u32)>) -> (r: bool)
    ensures
        r == (breakdown_view(a@) == breakdown_view(b@)),
{
    if a.len() != b.len() {
        proof {
            assert(breakdown_view(a@).len() != breakdown_view(b@).len());
        }
        return false;
    }
    let mut i: usize = 0;
    while i < a.len()
        invariant
            a@.len() == b@.len(),
            i <= a@.len(),
            forall|k: int| 0 <= k < i ==> breakdown_view(a@)[k] == breakdown_view(b@)[k],
        decreases a@.len() - i,
    {
        if !str_eq(a[i].0.as_str(), b[i].0.as_str()) || a[i].1 != b[i].1 {
            proof {
                assert(breakdown_view(a@)[i as int] != breakdown_view(b@)[i as int]);
            }
            return false;
        }
        i = i + 1;
    }
    proof {
        assert(breakdown_view(a@) =~= breakdown_view(b@));
    }
    true
}

/// Balance figures of a map: one entry per player owning a structure, in
/// player order, with structure and droid counts, the structure names, and
/// the oil resources nearest its start (HQ, else first structure), ties
/// going to the lower player; plus whether all players match per category.
pub fn run_balance_analysis(map: &WzMap) -> (r: BalanceReport)
    requires
        map.structures@.len() <= u32::MAX,
        map.droids@.len() <= u32::MAX,
        map.features@.len() <= u32::MAX,
    ensures
        report_ok(map@, r),
{
    let starts0 = collect_player_starts(&map.structures);
    let oils = collect_oil_tiles(&map.features);
    proof {
        lemma_oil_tiles_len(map.features@, map.features@.len() as int);
    }
    if starts0.len() == 0 {
        let r = BalanceReport {
            players: Vec::new(),
            total_oil: oils.len() as u32,
            neutral_oil: oils.len() as u32,
            oil_assignment: Vec::new(),
            oil_balanced: true,
            structures_balanced: true,
            droids_balanced: true,
        };
        proof {
            let ids = r.players@.map_values(|p: PlayerBalance| p.player);
            assert(ids =~= Seq::<i8>::empty());
            assert forall|p: i8| ids.contains(p) <==> start_of(map@.structures, p, map@.structures.len() as int) is Some by {
                if start_of(map@.structures, p, map@.structures.len() as int) is Some {
                    let a = choose|a: int| 0 <= a < starts0@.len() && (#[trigger] starts0@[a]).0 == p;
                }
            }
        }
        return r;
    }
    let ghost s0 = starts0@;
    let starts = sort_starts(starts0);
    let ghost sv = starts@;
    proof {
        assert forall|a: int| 0 <= a < sv.len() implies start_of(map@.structures, (#[trigger] sv[a]).0,
            map@.structures.len() as int) == Some((sv[a].1, sv[a].2)) && sv[a].1.0 < 0x100_0000 && sv[a].1.1 < 0x100_0000 by {
            assert(sv.contains(sv[a]));
            assert(s0.contains(sv[a]));
            let w = choose|w: int| 0 <= w < s0.len() && s0[w] == sv[a];
            assert(s0[w] == sv[a]);
        }
    }
    let mut players: Vec<PlayerBalance> = Vec::new();
    let mut i: usize = 0;
    while i < starts.len()
        invariant
            sv == starts@,
            i <= starts@.len(),
            map.structures@.len() <= u32::MAX,
            map.droids@.len() <= u32::MAX,
            forall|a: int| 0 <= a < sv.len() ==> start_of(map@.structures, (#[trigger] sv[a]).0, map@.structures.len() as int)
                == Some((sv[a].1, sv[a].2)),
            forall|a: int| 0 <= a < sv.len() ==> (#[trigger] sv[a]).1.0 < 0x100_0000 && sv[a].1.1 < 0x100_0000,
            players@.len() == i,
            forall|q: int| 0 <= q < i ==> {
                let pb = #[trigger] players@[q];
                &&& pb.player == sv[q].0
                &&& pb.start_tile == sv[q].1
                &&& pb.has_hq == sv[q].2
                &&& pb.oil_count == 0
                &&& pb.structure_count == count_structures(map@.structures, pb.player, map@.structures.len() as int)
                &&& pb.droid_count == count_droids(map@.droids, pb.player, map@.droids.len() as int)
                &&& breakdown_ok(map@.structures, pb.player, breakdown_view(pb.structures@))
            },
        decreases starts@.len() - i,
    {
        let (p, tile, hq) = starts[i];
        let (count, breakdown) = player_structures(&map.structures, p);
        let droids = count_player_droids(&map.droids, p);
        players.push(PlayerBalance {
            player: p,
            start_tile: tile,
            has_hq: hq,
            oil_count: 0,
            structure_count: count,
            droid_count: droids,
            structures: breakdown,
        });
        i = i + 1;
    }
    proof {
        assert forall|a: int| 0 <= a < sv.len() implies start_of(map@.structures, (#[trigger] sv[a]).0, map@.structures.len() as int)
            == Some((sv[a].1, sv[a].2)) by {
            assert(starts0@.contains(sv[a]));
        }
    }
    let mut assignment: Vec<((u32, u32), i8)> = Vec::new();
    let mut k: usize = 0;
    while k < oils.len()
        invariant
            k <= oils@.len(),
            oils@.len() <= map.features@.len(),
            map.features@.len() <= u32::MAX,
            players@.len() == sv.len(),
            sv.len() > 0,
            forall|a: int, b: int| 0 <= a < b < sv.len() ==> (#[trigger] sv[a]).0 < (#[trigger] sv[b]).0,
            forall|q: int| 0 <= q < oils@.len() ==> (#[trigger] oils@[q]).0 < 0x100_0000 && oils@[q].1 < 0x100_0000,
            assignment@.len() == k,
            forall|q: int| 0 <= q < players@.len() ==> {
                let pb = #[trigger] players@[q];
                &&& pb.player == sv[q].0
                &&& pb.start_tile == sv[q].1
                &&& pb.has_hq == sv[q].2
                &&& pb.start_tile.0 < 0x100_0000 && pb.start_tile.1 < 0x100_0000
                &&& pb.oil_count == assigned_to(assignment@, pb.player, k as int)
                &&& pb.structure_count == count_structures(map@.structures, pb.player, map@.structures.len() as int)
                &&& pb.droid_count == count_droids(map@.droids, pb.player, map@.droids.len() as int)
                &&& breakdown_ok(map@.structures, pb.player, breakdown_view(pb.structures@))
            },
            forall|q: int| 0 <= q < k ==> (#[trigger] assignment@[q]).0 == oils@[q] && exists|j: int|
                is_first_nearest(start_tiles(players@), oils@[q], j) && assignment@[q].1 == players@[j].player,
        decreases oils@.len() - k,
    {
        let oil = oils[k];
        let best = nearest_player(&players, oil);
        let ghost old_players = players@;
        let ghost old_assign = assignment@;
        proof {
            lemma_assigned_bound(assignment@, players@[best as int].player, k as int);
        }
        let pid = players[best].player;
        let c = players[best].oil_count;
        players[best].oil_count = c + 1;
        assignment.push((oil, pid));
        proof {
            assert(start_tiles(players@) =~= start_tiles(old_players));
            assert forall|q: int| 0 <= q < players@.len() implies {
                let pb = #[trigger] players@[q];
                pb.oil_count == assigned_to(assignment@, pb.player, k as int + 1)
            } by {
                assert(assignment@.take(k as int) =~= old_assign);
                assert(assignment@[k as int].1 == pid);
                lemma_assigned_prefix(old_assign, assignment@, players@[q].player, k as int);
                if q != best {
                    assert(sv[q].0 != sv[best as int].0);
                }
            }
            assert forall|q: int| 0 <= q < k + 1 implies (#[trigger] assignment@[q]).0 == oils@[q] && exists|j: int|
                is_first_nearest(start_tiles(players@), oils@[q], j) && assignment@[q].1 == players@[j].player by {
                if q < k {
                    assert(assignment@[q] == old_assign[q]);
                    let j = choose|j: int| is_first_nearest(start_tiles(old_players), oils@[q], j) && old_assign[q].1 == old_players[j].player;
                    assert(players@[j].player == old_players[j].player);
                } else {
                    assert(players@[best as int].player == pid);
                }
            }
        }
        k = k + 1;
    }
    let mut oil_counts_v: Vec<u32> = Vec::new();
    let mut droid_counts_v: Vec<u32> = Vec::new();
    let mut structures_balanced = true;
    let mut q: usize = 0;
    while q < players.len()
        invariant
            q <= players@.len(),
            players@.len() > 0,
            oil_counts_v@ == oil_counts(players@).take(q as int),
            droid_counts_v@ == droid_counts(players@).take(q as int),
            structures_balanced == forall|x: int| 0 <= x < q ==> breakdown_view((#[trigger] players@[x]).structures@)
                == breakdown_view(players@[0].structures@),
        decreases players@.len() - q,
    {
        oil_counts_v.push(players[q].oil_count);
        droid_counts_v.push(players[q].droid_count);
        proof {
            assert(oil_counts_v@ =~= oil_counts(players@).take(q as int + 1));
            assert(droid_counts_v@ =~= droid_counts(players@).take(q as int + 1));
        }
        if !breakdown_eq(&players[q].structures, &players[0].structures) {
            structures_balanced = false;
        }
        q = q + 1;
    }
    proof {
        assert(oil_counts(players@).take(players@.len() as int) =~= oil_counts(players@));
        assert(droid_counts(players@).take(players@.len() as int) =~= droid_counts(players@));
    }
    let oil_balanced = all_equal(oil_counts_v.as_slice());
    let droids_balanced = all_equal(droid_counts_v.as_slice());
    let r = BalanceReport {
        players,
        total_oil: oils.len() as u32,
        neutral_oil: 0,
        oil_assignment: assignment,
        oil_balanced,
        structures_balanced,
        droids_balanced,
    };
    proof {
        let ids = r.players@.map_values(|p: PlayerBalance| p.player);
        assert forall|a: int, b: int| 0 <= a < b < ids.len() implies #[trigger] ids[a] < #[trigger] ids[b] by {
            assert(sv[a].0 < sv[b].0);
        }
        assert forall|p: i8| ids.contains(p) <==> start_of(map@.structures, p, map@.structures.len() as int) is Some by {
            if ids.contains(p) {
                let a = choose|a: int| 0 <= a < ids.len() && ids[a] == p;
                assert(sv[a].0 == p);
            }
            if start_of(map@.structures, p, map@.structures.len() as int) is Some {
                let a = choose|a: int| 0 <= a < starts0@.len() && (#[trigger] starts0@[a]).0 == p;
                assert(starts0@.contains(starts0@[a]));
                assert(sv.contains(starts0@[a]));
                let b = choose|b: int| 0 <= b < sv.len() && sv[b] == starts0@[a];
                assert(ids[b] == p);
            }
        }
        let sm = map@.structures;
        let oilsv = oil_tiles(map@.features, map@.features.len() as int);
        assert(players_ok(sm, ids));
        assert(r.total_oil == oilsv.len() as u32);
        assert(r.oil_assignment@.len() == oilsv.len());
        let stt = r.players@.map_values(|p: PlayerBalance| p.start_tile);
        assert(stt =~= start_tiles(r.players@));
        assert forall|k: int| 0 <= k < r.oil_assignment@.len() implies (#[trigger] r.oil_assignment@[k]).0 == oilsv[k] && exists|j: int| is_first_nearest(stt, oilsv[k], j)
            && r.oil_assignment@[k].1 == ids[j] by {
            let j = choose|j: int| is_first_nearest(start_tiles(r.players@), oils@[k], j) && r.oil_assignment@[k].1 == r.players@[j].player;
            assert(is_first_nearest(stt, oilsv[k], j));
            assert(ids[j] == r.players@[j].player);
        }
        assert(forall|i: int| 0 <= i < r.players@.len() ==> {
            let pb = #[trigger] r.players@[i];
            let p = pb.player;
            &&& start_of(sm, p, sm.len() as int) == Some((pb.start_tile, pb.has_hq))
            &&& pb.structure_count == count_structures(sm, p, sm.len() as int)
            &&& pb.droid_count == count_droids(map@.droids, p, map@.droids.len() as int)
            &&& pb.oil_count == assigned_to(r.oil_assignment@, p, r.oil_assignment@.len() as int)
            &&& breakdown_ok(sm, p, breakdown_view(pb.structures@))
        });
        assert(r.oil_balanced == all_same(oil_counts(r.players@)));
        assert(r.droids_balanced == all_same(droid_counts(r.players@)));
        assert(report_ok(map@, r));
    }
    r
}

proof fn lemma_oil_tiles_len(f: Seq<Feature>, n: int)
    requires
        0 <= n,
    ensures
        oil_tiles(f, n).len() <= n,
    decreases n,
{
    if n > 0 {
        lemma_oil_tiles_len(f, n - 1);
    }
}

proof fn lemma_assigned_prefix(a: Seq<((u32, u32), i8)>, b: Seq<((u32, u32), i8)>, p: i8, n: int)
    requires
        0 <= n < b.len(),
        b.take(n) == a,
    ensures
        assigned_to(b, p, n) == assigned_to(a, p, n),
        assigned_to(b, p, n + 1) == assigned_to(a, p, n) + if b[n].1 == p { 1nat } else { 0nat },
    decreases n,
{
    lemma_assigned_prefix_gen(a, b, p, n);
    assert(assigned_to(b, p, n + 1) == assigned_to(b, p, n) + if b[n].1 == p { 1nat } else { 0nat });
}

proof fn lemma_assigned_prefix_gen(a: Seq<((u32, u32), i8)>, b: Seq<((u32, u32), i8)>, p: i8, n: int)
    requires
        0 <= n <= a.len(),
        n <= b.len(),
        forall|i: int| 0 <= i < n ==> a[i] == b[i],
    ensures
        assigned_to(b, p, n) == assigned_to(a, p, n),
    decreases n,
{
    if n > 0 {
        lemma_assigned_prefix_gen(a, b, p, n - 1);
    }
}

/// Editor-side cache of the balance report and the panel's options.
#[derive(Debug)]
pub struct BalanceState {
    pub report: Option<BalanceReport>,
    /// Players ticked in the panel; their objects are ringed in the viewport.
    pub highlighted_players: Vec<i8>,
    pub show_voronoi: bool,
    pub show_voronoi_tint: bool,
    /// Cycle position per (player, structure name) for repeat clicks.
    pub breakdown_cycle: Vec<((i8, String), usize)>,
    pub breakdown_diff_only: bool,
}

impl BalanceState {
    /// No report, nothing highlighted, all options off.
    pub fn new() -> (r: Self)
        ensures
            r.report is None,
            r.highlighted_players@.len() == 0,
            !r.show_voronoi,
            !r.show_voronoi_tint,
            r.breakdown_cycle@.len() == 0,
            !r.breakdown_diff_only,
    {
        BalanceState {
            report: None,
            highlighted_players: Vec::new(),
            show_voronoi: false,
            show_voronoi_tint: false,
            breakdown_cycle: Vec::new(),
            breakdown_diff_only: false,
        }
    }

    /// Drop the report, the highlights and the cycle positions; the display
    /// options stay.
    pub fn clear(&mut self)
        ensures
            final(self).report is None,
            final(self).highlighted_players@.len() == 0,
            final(self).breakdown_cycle@.len() == 0,
            final(self).show_voronoi == old(self).show_voronoi,
            final(self).show_voronoi_tint == old(self).show_voronoi_tint,
            final(self).breakdown_diff_only == old(self).breakdown_diff_only,
    {
        self.report = None;
        self.highlighted_players = Vec::new();
        self.breakdown_cycle = Vec::new();
    }

    /// Recompute the report for the map.
    pub fn refresh(&mut self, map: &WzMap)
        requires
            map.structures@.len() <= u32::MAX,
            map.droids@.len() <= u32::MAX,
            map.features@.len() <= u32::MAX,
        ensures
            final(self).report matches Some(r) && report_ok(map@, r),
            final(self).highlighted_players == old(self).highlighted_players,
            final(self).breakdown_cycle == old(self).breakdown_cycle,
    {
        self.report = Some(run_balance_analysis(map));
    }

    /// Compute the report unless one is cached.
    pub fn ensure(&mut self, map: &WzMap)
        requires
            map.structures@.len() <= u32::MAX,
            map.droids@.len() <= u32::MAX,
            map.features@.len() <= u32::MAX,
        ensures
            old(self).report is Some ==> final(self).report == old(self).report,
            old(self).report is None ==> (final(self).report matches Some(r) && report_ok(map@, r)),
    {
        if self.report.is_none() {
            self.refresh(map);
        }
    }
}

} // verus!
