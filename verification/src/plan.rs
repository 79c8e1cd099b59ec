//! Where the bot's planned placements are drawn: each planned lock may clear
//! rows, and the rows above a cleared row then sit lower on the board, so
//! each step of the plan is drawn through a map from planned row to shown
//! row.

use vstd::prelude::*;
use crate::model::{CellColor, LockResult, LockView};

verus! {

/// Rows of the board that the row maps cover.
pub const MAP_ROWS: usize = 40;

/// The row map before any planned lock: every row is shown where it is.
pub open spec fn identity_rows() -> Seq<i32> {
    Seq::new(MAP_ROWS as nat, |i: int| i as i32)
}

/// The entries of `map` among its first `n` rows whose row index is not in
/// `cleared`, in order.
pub open spec fn kept_rows(map: Seq<i32>, cleared: Seq<i32>, n: int) -> Seq<i32>
    decreases n,
{
    if n <= 0 {
        Seq::empty()
    } else if cleared.contains((n - 1) as i32) {
        kept_rows(map, cleared, n - 1)
    } else {
        kept_rows(map, cleared, n - 1).push(map[n - 1])
    }
}

/// The row map after a lock that clears the rows `cleared`: the rows that
/// stay move down over the cleared ones, keeping their order, and the rows
/// freed at the top map to row 0.
pub open spec fn remap_rows(map: Seq<i32>, cleared: Seq<i32>) -> Seq<i32> {
    let kept = kept_rows(map, cleared, MAP_ROWS as int);
    kept + Seq::new((MAP_ROWS - kept.len()) as nat, |i: int| 0i32)
}

/// Whether drawing the plan stops after step `k`: a hard clear ends it when
/// the plan holds no perfect clear, and a perfect clear always ends it.
pub open spec fn stops_after(plan: Seq<LockView>, k: int) -> bool {
    let has_pc = exists|j: int| 0 <= j < plan.len() && #[trigger] plan[j].perfect_clear;
    (!has_pc && plan[k].is_hard && plan[k].is_clear) || plan[k].perfect_clear
}

/// How many steps of the plan are drawn: up to and including the first
/// step after which drawing stops, or all of them.
pub open spec fn shown_steps(plan: Seq<LockView>) -> nat
    decreases plan.len(),
{
    shown_steps_from(plan, 0)
}

/// How many steps from step `k` on are drawn.
pub open spec fn shown_steps_from(plan: Seq<LockView>, k: int) -> nat
    decreases plan.len() - k,
{
    if k >= plan.len() || k < 0 {
        0
    } else if stops_after(plan, k) {
        1
    } else {
        1 + shown_steps_from(plan, k + 1)
    }
}

/// The row map used for step `k` of the plan.
pub open spec fn row_map_at(plan: Seq<LockView>, k: nat) -> Seq<i32>
    decreases k,
{
    if k == 0 {
        identity_rows()
    } else {
        remap_rows(row_map_at(plan, (k - 1) as nat), plan[k - 1].cleared_lines)
    }
}

/// The board rows, bottom to top, that a lock clearing `cleared` leaves.
pub open spec fn rows_left(cleared: Seq<i32>) -> Seq<int> {
    Seq::new(MAP_ROWS as nat, |i: int| i).filter(|i: int| !cleared.contains(i as i32))
}

proof fn lemma_kept_rows_filter(map: Seq<i32>, cleared: Seq<i32>, n: int)
    requires
        0 <= n <= MAP_ROWS,
        map.len() == MAP_ROWS,
    ensures
        kept_rows(map, cleared, n) == Seq::new(n as nat, |i: int| i).filter(|i: int| !cleared.contains(i as i32)).map_values(
            |i: int| map[i],
        ),
    decreases n,
{
    reveal(Seq::filter);
    let p = |i: int| !cleared.contains(i as i32);
    if n > 0 {
        lemma_kept_rows_filter(map, cleared, n - 1);
        let s = Seq::new(n as nat, |i: int| i);
        assert(s.drop_last() =~= Seq::new((n - 1) as nat, |i: int| i));
        assert(s.last() == n - 1);
        let f = s.drop_last().filter(p);
        if p(n - 1) {
            assert(f.push(n - 1).map_values(|i: int| map[i]) =~= f.map_values(|i: int| map[i]).push(map[n - 1]));
        }
    } else {
        assert(Seq::new(0, |i: int| i) =~= Seq::<int>::empty());
        assert(Seq::<int>::empty().filter(p).map_values(|i: int| map[i]) =~= Seq::<i32>::empty());
    }
}

/// A lock clearing the rows `cleared` keeps, in order, exactly the map's
/// entries at the rows it does not clear (every cleared row is dropped,
/// wherever it stands among the cleared ones), and fills the rows freed at
/// the top with 0.
pub proof fn lemma_remap_keeps_rows_left(map: Seq<i32>, cleared: Seq<i32>)
    requires
        map.len() == MAP_ROWS,
    ensures
        remap_rows(map, cleared).len() == MAP_ROWS,
        rows_left(cleared).len() <= MAP_ROWS,
        forall|j: int| 0 <= j < rows_left(cleared).len() ==> #[trigger] remap_rows(map, cleared)[j] == map[rows_left(cleared)[j]],
        forall|j: int| rows_left(cleared).len() <= j < MAP_ROWS ==> #[trigger] remap_rows(map, cleared)[j] == 0,
        forall|j: int| 0 <= j < rows_left(cleared).len() ==> 0 <= #[trigger] rows_left(cleared)[j] < MAP_ROWS
            && !cleared.contains(rows_left(cleared)[j] as i32),
        forall|i: int| 0 <= i < MAP_ROWS && !cleared.contains(i as i32) ==> rows_left(cleared).contains(i),
        forall|j: int, k: int| 0 <= j < k < rows_left(cleared).len() ==> #[trigger] rows_left(cleared)[j] < #[trigger] rows_left(cleared)[k],
{
    let p = |i: int| !cleared.contains(i as i32);
    let all = Seq::new(MAP_ROWS as nat, |i: int| i);
    lemma_kept_rows_filter(map, cleared, MAP_ROWS as int);
    all.lemma_filter_len(p);
    let left = all.filter(p);
    lemma_filter_increasing(all, p, 0, MAP_ROWS as int);
    assert forall|j: int| 0 <= j < left.len() implies 0 <= #[trigger] left[j] < MAP_ROWS && p(left[j]) by {
        all.lemma_filter_pred(p, j);
    }
    assert forall|i: int| 0 <= i < MAP_ROWS && p(i) implies left.contains(i) by {
        assert(all[i] == i);
        all.lemma_filter_contains(p, i);
    }
}

/// Remapping the unmoved board: the entries before the freed top rows are
/// the rows left, in increasing order, none of them a cleared row, and every
/// row not cleared is among them.
pub proof fn lemma_remap_identity(cleared: Seq<i32>)
    ensures
        ({
            let m = remap_rows(identity_rows(), cleared);
            let n = rows_left(cleared).len();
            &&& forall|j: int| 0 <= j < n ==> !cleared.contains(#[trigger] m[j])
            &&& forall|j: int, k: int| 0 <= j < k < n ==> #[trigger] m[j] < #[trigger] m[k]
            &&& forall|j: int| n <= j < MAP_ROWS ==> #[trigger] m[j] == 0
            &&& forall|i: int| 0 <= i < MAP_ROWS && !#[trigger] cleared.contains(i as i32) ==> exists|j: int|
                0 <= j < n && #[trigger] m[j] == i
        }),
{
    lemma_remap_keeps_rows_left(identity_rows(), cleared);
    let m = remap_rows(identity_rows(), cleared);
    let left = rows_left(cleared);
    assert forall|j: int| 0 <= j < left.len() implies #[trigger] m[j] == left[j] by {
        assert(identity_rows()[left[j]] == left[j] as i32);
    }
    assert forall|i: int| 0 <= i < MAP_ROWS && !#[trigger] cleared.contains(i as i32) implies exists|j: int|
        0 <= j < left.len() && #[trigger] m[j] == i by {
        assert(left.contains(i));
        let j = choose|j: int| 0 <= j < left.len() && left[j] == i;
        assert(m[j] == i);
    }
}

/// Keeping some entries of an increasing sequence gives an increasing one.
proof fn lemma_filter_increasing(s: Seq<int>, p: spec_fn(int) -> bool, lo: int, hi: int)
    requires
        forall|j: int, k: int| 0 <= j < k < s.len() ==> #[trigger] s[j] < #[trigger] s[k],
        forall|j: int| 0 <= j < s.len() ==> lo <= #[trigger] s[j] < hi,
    ensures
        forall|j: int| 0 <= j < s.filter(p).len() ==> lo <= #[trigger] s.filter(p)[j] < hi,
        forall|j: int, k: int| 0 <= j < k < s.filter(p).len() ==> #[trigger] s.filter(p)[j] < #[trigger] s.filter(p)[k],
        forall|j: int| 0 <= j < s.filter(p).len() ==> s.len() > 0 && #[trigger] s.filter(p)[j] <= s.last(),
    decreases s.len(),
{
    reveal(Seq::filter);
    if s.len() > 0 {
        let t = s.drop_last();
        assert forall|j: int, k: int| 0 <= j < k < t.len() implies #[trigger] t[j] < #[trigger] t[k] by {
            assert(t[j] == s[j] && t[k] == s[k]);
        }
        assert forall|j: int| 0 <= j < t.len() implies lo <= #[trigger] t[j] < hi by {
            assert(t[j] == s[j]);
        }
        lemma_filter_increasing(t, p, lo, hi);
        let f = t.filter(p);
        assert forall|j: int| 0 <= j < f.len() implies #[trigger] f[j] < s.last() by {
            assert(t.len() > 0 && f[j] <= t.last());
            assert(t.last() == s[s.len() - 2]);
        }
    }
}

/// Clearing one row `r` of the unmoved board shows every row below `r` where
/// it was, every row above it one lower, and maps the freed top row to 0.
pub proof fn lemma_single_clear_moves_rows_down(r: i32)
    requires
        0 <= r < MAP_ROWS,
    ensures
        ({
            let m = remap_rows(identity_rows(), seq![r]);
            &&& m.len() == MAP_ROWS
            &&& forall|i: int| 0 <= i < r ==> #[trigger] m[i] == i
            &&& forall|i: int| r <= i < MAP_ROWS - 1 ==> #[trigger] m[i] == i + 1
            &&& m[MAP_ROWS - 1] == 0
        }),
{
    let cleared = seq![r];
    assert forall|n: int| 0 <= n <= MAP_ROWS implies #[trigger] kept_rows(identity_rows(), cleared, n) == (if n <= r {
        Seq::new(n as nat, |i: int| i as i32)
    } else {
        Seq::new((n - 1) as nat, |i: int| if i < r { i as i32 } else { (i + 1) as i32 })
    }) by {
        lemma_kept_single(r, n);
    }
    let kept = kept_rows(identity_rows(), cleared, MAP_ROWS as int);
    assert(kept.len() == MAP_ROWS - 1);
}

proof fn lemma_kept_single(r: i32, n: int)
    requires
        0 <= r < MAP_ROWS,
        0 <= n <= MAP_ROWS,
    ensures
        kept_rows(identity_rows(), seq![r], n) == (if n <= r {
            Seq::new(n as nat, |i: int| i as i32)
        } else {
            Seq::new((n - 1) as nat, |i: int| if i < r { i as i32 } else { (i + 1) as i32 })
        }),
    decreases n,
{
    let cleared = seq![r];
    if n > 0 {
        lemma_kept_single(r, n - 1);
        if (n - 1) as i32 == r {
            assert(cleared[0] == (n - 1) as i32);
            assert(cleared.contains((n - 1) as i32));
        } else {
            assert(!cleared.contains((n - 1) as i32)) by {
                if cleared.contains((n - 1) as i32) {
                    assert(cleared[0] == (n - 1) as i32);
                }
            }
        }
        assert(kept_rows(identity_rows(), cleared, n) =~= (if n <= r {
            Seq::new(n as nat, |i: int| i as i32)
        } else {
            Seq::new((n - 1) as nat, |i: int| if i < r { i as i32 } else { (i + 1) as i32 })
        }));
    }
}

/// A lock that clears no row leaves the row map as it was.
pub proof fn lemma_no_clear_keeps_map(map: Seq<i32>)
    requires
        map.len() == MAP_ROWS,
    ensures
        remap_rows(map, Seq::empty()) == map,
{
    assert forall|n: int| 0 <= n <= MAP_ROWS implies #[trigger] kept_rows(map, Seq::empty(), n) == map.take(n) by {
        lemma_kept_none(map, n);
    }
    assert(remap_rows(map, Seq::empty()) =~= map);
}

proof fn lemma_kept_none(map: Seq<i32>, n: int)
    requires
        map.len() == MAP_ROWS,
        0 <= n <= MAP_ROWS,
    ensures
        kept_rows(map, Seq::empty(), n) == map.take(n),
    decreases n,
{
    if n > 0 {
        lemma_kept_none(map, n - 1);
        assert(map.take(n) =~= map.take(n - 1).push(map[n - 1]));
    }
}

/// Drawing stops right after the first step that ends it: the steps shown
/// are those up to and including it.
pub proof fn lemma_shown_up_to_first_stop(plan: Seq<LockView>, k: int)
    requires
        0 <= k < plan.len(),
        stops_after(plan, k),
        forall|j: int| 0 <= j < k ==> !#[trigger] stops_after(plan, j),
    ensures
        shown_steps(plan) == k + 1,
{
    assert forall|j: int| 0 <= j <= k implies #[trigger] shown_steps_from(plan, j) == k + 1 - j by {
        lemma_shown_from(plan, k, j);
    }
}

proof fn lemma_shown_from(plan: Seq<LockView>, k: int, j: int)
    requires
        0 <= j <= k < plan.len(),
        stops_after(plan, k),
        forall|i: int| 0 <= i < k ==> !#[trigger] stops_after(plan, i),
    ensures
        shown_steps_from(plan, j) == k + 1 - j,
    decreases k - j,
{
    if j < k {
        lemma_shown_from(plan, k, j + 1);
    }
}

/// A plan in which no step ends the drawing is shown whole.
pub proof fn lemma_shown_whole(plan: Seq<LockView>)
    requires
        forall|j: int| 0 <= j < plan.len() ==> !#[trigger] stops_after(plan, j),
    ensures
        shown_steps(plan) == plan.len(),
{
    assert forall|j: int| 0 <= j <= plan.len() implies #[trigger] shown_steps_from(plan, j) == plan.len() - j by {
        lemma_shown_whole_from(plan, j);
    }
}

proof fn lemma_shown_whole_from(plan: Seq<LockView>, j: int)
    requires
        0 <= j <= plan.len(),
        forall|i: int| 0 <= i < plan.len() ==> !#[trigger] stops_after(plan, i),
    ensures
        shown_steps_from(plan, j) == plan.len() - j,
    decreases plan.len() - j,
{
    if j < plan.len() {
        lemma_shown_whole_from(plan, j + 1);
    }
}

/// The CSS colour in which planned cells of a piece colour are outlined;
/// other colours give the empty string.
pub open spec fn plan_color_spec(color: CellColor) -> Seq<char> {
    match color {
        CellColor::Z => "rgb(255, 32, 32)"@,
        CellColor::S => "rgb(32, 255, 32)"@,
        CellColor::O => "rgb(255, 255, 32)"@,
        CellColor::L => "rgb(255, 143, 32)"@,
        CellColor::J => "rgb(96, 96, 255)"@,
        CellColor::I => "rgb(32, 255, 255)"@,
        CellColor::T => "rgb(143, 32, 255)"@,
        _ => ""@,
    }
}

/// The CSS colour in which planned cells of a piece colour are outlined.
pub fn plan_color(color: CellColor) -> (res: &'static str)
    ensures
        res@ == plan_color_spec(color),
{
    match color {
        CellColor::Z => "rgb(255, 32, 32)",
        CellColor::S => "rgb(32, 255, 32)",
        CellColor::O => "rgb(255, 255, 32)",
        CellColor::L => "rgb(255, 143, 32)",
        CellColor::J => "rgb(96, 96, 255)",
        CellColor::I => "rgb(32, 255, 255)",
        CellColor::T => "rgb(143, 32, 255)",
        _ => "",
    }
}

/// The plain values of a plan's lock results.
pub open spec fn plan_view(plan: Seq<LockResult>) -> Seq<LockView> {
    plan.map_values(|l: LockResult| l@)
}

/// The row map after a lock that clears `lines`.
pub fn remap(map: &Vec<i32>, lines: &LockResult) -> (res: Vec<i32>)
    requires
        map@.len() == MAP_ROWS,
    ensures
        res@ == remap_rows(map@, lines@.cleared_lines),
        res@.len() == MAP_ROWS,
{
    let mut new_map: Vec<i32> = Vec::new();
    let mut i: usize = 0;
    while i < MAP_ROWS
        invariant
            i <= MAP_ROWS,
            map@.len() == MAP_ROWS,
            new_map@ == kept_rows(map@, lines@.cleared_lines, i as int),
            new_map@.len() <= i,
        decreases MAP_ROWS - i,
    {
        if !lines.cleared_lines.contains(i as i32) {
            new_map.push(map[i]);
        }
        i = i + 1;
    }
    let ghost kept = new_map@;
    while new_map.len() < MAP_ROWS
        invariant
            new_map@.len() <= MAP_ROWS,
            kept.len() <= new_map@.len(),
            new_map@ == kept + Seq::new((new_map@.len() - kept.len()) as nat, |j: int| 0i32),
        decreases MAP_ROWS - new_map.len(),
    {
        new_map.push(0);
        assert(new_map@ =~= kept + Seq::new((new_map@.len() - kept.len()) as nat, |j: int| 0i32));
    }
    assert(new_map@ =~= remap_rows(map@, lines@.cleared_lines));
    new_map
}

/// The row maps through which the shown steps of a plan are drawn, one per
/// shown step: the first is the identity, and each next one follows the rows
/// that the step before it clears.
pub fn plan_row_maps(plan: &Vec<LockResult>) -> (maps: Vec<Vec<i32>>)
    ensures
        maps@.len() == shown_steps(plan_view(plan@)),
        forall|k: int| 0 <= k < maps@.len() ==> #[trigger] maps@[k]@ == row_map_at(plan_view(plan@), k as nat),
        forall|k: int| 0 <= k < maps@.len() ==> (#[trigger] maps@[k])@.len() == MAP_ROWS,
{
    let ghost views = plan_view(plan@);
    let has_pc = has_perfect_clear(plan);
    let mut map: Vec<i32> = Vec::new();
    let mut i: usize = 0;
    while i < MAP_ROWS
        invariant
            i <= MAP_ROWS,
            map@ =~= Seq::new(i as nat, |j: int| j as i32),
        decreases MAP_ROWS - i,
    {
        map.push(i as i32);
        i = i + 1;
    }
    let mut maps: Vec<Vec<i32>> = Vec::new();
    let mut k: usize = 0;
    let mut stopped = false;
    while !stopped && k < plan.len()
        invariant
            views == plan_view(plan@),
            views.len() == plan@.len(),
            has_pc == exists|j: int| 0 <= j < views.len() && #[trigger] views[j].perfect_clear,
            k <= plan.len(),
            map@.len() == MAP_ROWS,
            !stopped ==> map@ == row_map_at(views, k as nat),
            forall|j: int| 0 <= j < maps@.len() ==> #[trigger] maps@[j]@ == row_map_at(views, j as nat),
            forall|j: int| 0 <= j < maps@.len() ==> (#[trigger] maps@[j])@.len() == MAP_ROWS,
            !stopped ==> maps@.len() == k && shown_steps(views) == k + shown_steps_from(views, k as int),
            stopped ==> maps@.len() == shown_steps(views),
        decreases plan.len() - k, if stopped { 0int } else { 1int },
    {
        assert(views[k as int] == plan@[k as int]@);
        let next = remap(&map, &plan[k]);
        let stop = (!has_pc && plan[k].is_hard && plan[k].is_clear) || plan[k].perfect_clear;
        assert(stop == stops_after(views, k as int));
        maps.push(map);
        map = next;
        if stop {
            stopped = true;
        } else {
            k = k + 1;
        }
    }
    maps
}

/// Whether the plan holds a perfect clear.
fn has_perfect_clear(plan: &Vec<LockResult>) -> (res: bool)
    ensures
        res == exists|j: int| 0 <= j < plan@.len() && #[trigger] plan_view(plan@)[j].perfect_clear,
{
    let mut i: usize = 0;
    while i < plan.len()
        invariant
            i <= plan.len(),
            forall|j: int| 0 <= j < i ==> !(#[trigger] plan_view(plan@)[j].perfect_clear),
        decreases plan.len() - i,
    {
        if plan[i].perfect_clear {
            assert(plan_view(plan@)[i as int].perfect_clear);
            return true;
        }
        i = i + 1;
    }
    false
}

} // verus!
