//! Logic behind the balance panel: the median of a column, how a cell is
//! tinted against it, and cycling the camera through a player's structures
//! of one kind.
use vstd::prelude::*;
use vstd::relations::{sorted_by, total_ordering};

use crate::balance::BalanceState;
use crate::map_model::{Structure, WorldPos, WzMap};
use crate::text::{owned, str_eq};

verus! {

/// The order of `u32` values.
pub open spec fn u32_leq() -> spec_fn(u32, u32) -> bool {
    |a: u32, b: u32| a <= b
}

proof fn lemma_u32_leq_total()
    ensures
        total_ordering(u32_leq()),
{
}

/// Median of a column: the middle element of the sorted values (the upper
/// one of the two middles for an even count); `None` when empty.
pub open spec fn spec_median(v: Seq<u32>) -> Option<u32> {
    if v.len() == 0 {
        None
    } else {
        Some(v.sort_by(u32_leq())[(v.len() / 2) as int])
    }
}

/// Insert `x` into the sorted vector at its place.
fn insert_sorted(out: &mut Vec<u32>, x: u32)
    requires
        sorted_by(old(out)@, u32_leq()),
    ensures
        sorted_by(final(out)@, u32_leq()),
        final(out)@.to_multiset() == old(out)@.to_multiset().insert(x),
{
    let mut j: usize = 0;
    while j < out.len() && out[j] <= x
        invariant
            j <= out@.len(),
            forall|q: int| 0 <= q < j ==> out@[q] <= x,
        decreases out@.len() - j,
    {
        j = j + 1;
    }
    let ghost ov = out@;
    proof {
        vstd::seq_lib::to_multiset_insert(ov, j as int, x);
    }
    out.insert(j, x);
    proof {
        let nv = out@;
        assert(nv =~= ov.insert(j as int, x));
        assert forall|a: int, b: int| 0 <= a < b < nv.len() implies #[trigger] (u32_leq())(nv[a], nv[b]) by {
            assert((u32_leq())(ov[0], ov[0]) || true);
            if b < j {
                assert((u32_leq())(ov[a], ov[b]));
            } else if b == j {
                assert(nv[a] == ov[a]);
            } else if a == j {
                assert(nv[b] == ov[b - 1]);
                if j < ov.len() {
                    assert(!(ov[j as int] <= x));
                    if b - 1 > j {
                        assert((u32_leq())(ov[j as int], ov[b - 1]));
                    }
                }
            } else if a < j {
                assert(nv[a] == ov[a] && nv[b] == ov[b - 1]);
                assert((u32_leq())(ov[a], ov[b - 1]));
            } else {
                assert(nv[a] == ov[a - 1] && nv[b] == ov[b - 1]);
                assert((u32_leq())(ov[a - 1], ov[b - 1]));
            }
        }
    }
}

/// The middle value of a column, for tinting cells that differ from it.
pub fn median(values: &[u32]) -> (r: Option<u32>)
    ensures
        r == spec_median(values@),
{
    let mut sorted: Vec<u32> = Vec::new();
    let mut i: usize = 0;
    proof {
        assert(values@.take(0) =~= Seq::<u32>::empty());
        assert(sorted@ =~= Seq::<u32>::empty());
    }
    while i < values.len()
        invariant
            i <= values@.len(),
            sorted_by(sorted@, u32_leq()),
            sorted@.to_multiset() == values@.take(i as int).to_multiset(),
        decreases values@.len() - i,
    {
        proof {
            assert(values@.take(i as int + 1) =~= values@.take(i as int).push(values@[i as int]));
            vstd::seq_lib::to_multiset_build(values@.take(i as int), values@[i as int]);
        }
        insert_sorted(&mut sorted, values[i]);
        i = i + 1;
    }
    proof {
        assert(values@.take(values@.len() as int) =~= values@);
        lemma_u32_leq_total();
        values@.lemma_sort_by_ensures(u32_leq());
        vstd::seq_lib::lemma_sorted_unique(sorted@, values@.sort_by(u32_leq()), u32_leq());
        vstd::seq_lib::to_multiset_len(sorted@);
        vstd::seq_lib::to_multiset_len(values@);
    }
    if sorted.len() == 0 {
        None
    } else {
        Some(sorted[sorted.len() / 2])
    }
}

/// How a summary-table cell is tinted.
#[derive(Debug, Clone, Copy, PartialEq, Eq)]
pub enum CellTone {
    /// The column is balanced: the default text colour.
    Default,
    /// The value matches the column's median (or there is none).
    Muted,
    /// The value differs from the column's median.
    Imbalanced,
}

/// Tint of a cell: default in a balanced column, muted at the median,
/// highlighted anywhere else.
pub fn cell_tone(value: u32, median: Option<u32>, category_balanced: bool) -> (r: CellTone)
    ensures
        r == (if category_balanced {
            CellTone::Default
        } else {
            match median {
                Some(m) => if value == m {
                    CellTone::Muted
                } else {
                    CellTone::Imbalanced
                },
                None => CellTone::Muted,
            }
        }),
{
    if category_balanced {
        return CellTone::Default;
    }
    match median {
        Some(m) => if value == m {
            CellTone::Muted
        } else {
            CellTone::Imbalanced
        },
        None => CellTone::Muted,
    }
}

/// Positions of `player`'s structures named `name`, in map order.
pub open spec fn named_positions(s: Seq<Structure>, player: i8, name: Seq<char>) -> Seq<WorldPos>
    decreases s.len(),
{
    if s.len() == 0 {
        Seq::empty()
    } else {
        let rest = named_positions(s.drop_last(), player, name);
        if s.last().player == player && s.last().name@ == name {
            rest.push(s.last().position)
        } else {
            rest
        }
    }
}

/// The entry of the cycle table kept for `(player, name)`.
pub open spec fn cycle_slot(cycle: Seq<((i8, String), usize)>, player: i8, name: Seq<char>, k: int) -> bool {
    &&& 0 <= k < cycle.len()
    &&& cycle[k].0.0 == player && cycle[k].0.1@ == name
    &&& forall|j: int| 0 <= j < k ==> !((#[trigger] cycle[j]).0.0 == player && cycle[j].0.1@ == name)
}

/// Where the cycle for `(player, name)` stands: its first entry's count, or
/// 0 when it has none.
pub open spec fn cycle_position(cycle: Seq<((i8, String), usize)>, player: i8, name: Seq<char>) -> usize {
    if exists|k: int| cycle_slot(cycle, player, name, k) {
        cycle[choose|k: int| cycle_slot(cycle, player, name, k)].1
    } else {
        0
    }
}

/// The cycle table after advancing `(player, name)` to `next`: its first
/// entry is rewritten under `key`, or a new entry is appended.
pub open spec fn cycle_after(cycle: Seq<((i8, String), usize)>, player: i8, name: Seq<char>, key: (i8, String), next: usize) -> Seq<
    ((i8, String), usize),
> {
    if exists|k: int| cycle_slot(cycle, player, name, k) {
        let k = choose|k: int| cycle_slot(cycle, player, name, k);
        cycle.update(k, (key, next))
    } else {
        cycle.push((key, next))
    }
}

proof fn lemma_cycle_slot_unique(cycle: Seq<((i8, String), usize)>, player: i8, name: Seq<char>, k: int, k2: int)
    requires
        cycle_slot(cycle, player, name, k),
        cycle_slot(cycle, player, name, k2),
    ensures
        k == k2,
{
    if k < k2 {
        assert(!((cycle[k]).0.0 == player && cycle[k].0.1@ == name));
    } else if k2 < k {
        assert(!((cycle[k2]).0.0 == player && cycle[k2].0.1@ == name));
    }
}

fn collect_named_positions(s: &Vec<Structure>, player: i8, name: &str) -> (r: Vec<WorldPos>)
    ensures
        r@ == named_positions(s@, player, name@),
{
    let mut out: Vec<WorldPos> = Vec::new();
    let mut i: usize = 0;
    while i < s.len()
        invariant
            i <= s@.len(),
            out@ == named_positions(s@.take(i as int), player, name@),
        decreases s@.len() - i,
    {
        proof {
            assert(s@.take(i as int + 1).drop_last() =~= s@.take(i as int));
        }
        if s[i].player == player && str_eq(s[i].name.as_str(), name) {
            out.push(s[i].position);
        }
        i = i + 1;
    }
    proof {
        assert(s@.take(s@.len() as int) =~= s@);
    }
    out
}

/// Next position to focus when the user clicks `player`'s count of `name`
/// structures again: repeated clicks walk through them in map order and
/// wrap around. `None` (and nothing changes) when the player has none.
pub fn focus_next_structure(state: &mut BalanceState, map: &WzMap, player: i8, name: &str) -> (r: Option<WorldPos>)
    ensures
        ({
            let ps = named_positions(map@.structures, player, name@);
            let pos = cycle_position(old(state).breakdown_cycle@, player, name@);
            &&& ps.len() == 0 ==> r is None && *final(state) == *old(state)
            &&& ps.len() > 0 ==> {
                &&& r == Some(ps[pos as int % ps.len() as int])
                &&& exists|key: (i8, String)|
                    key.0 == player && key.1@ == name@ && final(state).breakdown_cycle@ == cycle_after(
                        old(state).breakdown_cycle@,
                        player,
                        name@,
                        key,
                        ((pos as int + 1) % ps.len() as int) as usize,
                    )
                &&& final(state).report == old(state).report
                &&& final(state).highlighted_players == old(state).highlighted_players
                &&& final(state).show_voronoi == old(state).show_voronoi
                &&& final(state).show_voronoi_tint == old(state).show_voronoi_tint
                &&& final(state).breakdown_diff_only == old(state).breakdown_diff_only
            }
        }),
{
    let positions = collect_named_positions(&map.structures, player, name);
    if positions.len() == 0 {
        return None;
    }
    let n = positions.len();
    let ghost c0 = state.breakdown_cycle@;
    let mut k: usize = 0;
    while k < state.breakdown_cycle.len()
        invariant
            k <= c0.len(),
            state.breakdown_cycle@ == c0,
            forall|j: int| 0 <= j < k ==> !((#[trigger] c0[j]).0.0 == player && c0[j].0.1@ == name@),
        ensures
            k <= c0.len(),
            state.breakdown_cycle@ == c0,
            forall|j: int| 0 <= j < k ==> !((#[trigger] c0[j]).0.0 == player && c0[j].0.1@ == name@),
            k < c0.len() ==> c0[k as int].0.0 == player && c0[k as int].0.1@ == name@,
        decreases c0.len() - k,
    {
        if state.breakdown_cycle[k].0.0 == player && str_eq(state.breakdown_cycle[k].0.1.as_str(), name) {
            break;
        }
        k = k + 1;
    }
    if k < state.breakdown_cycle.len() {
        proof {
            assert(cycle_slot(c0, player, name@, k as int));
            let k2 = choose|k2: int| cycle_slot(c0, player, name@, k2);
            lemma_cycle_slot_unique(c0, player, name@, k as int, k2);
        }
        let idx = state.breakdown_cycle[k].1;
        let pos = positions[idx % n];
        let key = (player, owned(name));
        let ghost key0 = key;
        state.breakdown_cycle.set(k, (key, (idx % n + 1) % n));
        proof {
            assert((idx as int % n as int + 1) % (n as int) == (idx as int + 1) % (n as int)) by (nonlinear_arith)
                requires n > 0;
            assert(state.breakdown_cycle@ =~= cycle_after(c0, player, name@, key0, ((idx as int + 1) % n as int) as usize));
            assert(key0.0 == player && key0.1@ == name@);
            assert(cycle_position(c0, player, name@) == idx);
        }
        Some(pos)
    } else {
        proof {
            assert(!exists|k2: int| cycle_slot(c0, player, name@, k2));
        }
        let pos = positions[0];
        let key = (player, owned(name));
        let ghost keyg = key;
        proof {
            assert(keyg.1@ == name@);
        }
        state.breakdown_cycle.push((key, 1 % n));
        proof {
            assert(state.breakdown_cycle@ =~= cycle_after(c0, player, name@, keyg, ((0int + 1) % (n as int)) as usize));
            assert(cycle_position(c0, player, name@) == 0);
            assert(0int % (n as int) == 0);
        }
        Some(pos)
    }
}

} // verus!
