use vstd::prelude::*;
use crate::world::fluids::{
    dir, lemma_downwards_flow_is_conserved, lemma_sideways_flow_is_conserved,
    lemma_upwards_flow_is_conserved, spec_advance_fluid, spec_advance_fluid_safe, spec_inflow,
    spec_maybe_inflow, spec_outflow, spec_stage_map, spec_stage_safe, spec_takes_part, FluidStage,
    VERTICAL_PRESSURE_DIFFERENCE,
};
use crate::world::world_map::cell::Cell;
use crate::world::world_map::cell_index::CellIndex;

verus! {

/// The cells with coordinates `x` and `y`.
spec fn column(x: i32, y: i32) -> Set<CellIndex> {
    Set::<i32>::full().map(|z: i32| CellIndex { x, y, z })
}

/// The cells with coordinate `x`.
spec fn plane(x: i32) -> Set<CellIndex> {
    Set::<i32>::full().map(|y: i32| column(x, y)).flatten()
}

/// Every cell.
spec fn all_cells() -> Set<CellIndex> {
    Set::<i32>::full().map(|x: i32| plane(x)).flatten()
}

/// There are finitely many cells, so every set of cells is finite.
pub proof fn lemma_cell_sets_finite(s: Set<CellIndex>)
    ensures
        s.finite(),
{
    let ints = Set::<i32>::full();
    <i32 as vstd::set_lib::FiniteFull>::full_properties();
    assert forall|x: i32| #[trigger] plane(x).finite() by {
        let columns = ints.map(|y: i32| column(x, y));
        ints.lemma_map_finite(|y: i32| column(x, y));
        assert forall|c: Set<CellIndex>| columns.contains(c) implies #[trigger] c.finite() by {
            let y = choose|y: i32| ints.contains(y) && column(x, y) == c;
            ints.lemma_map_finite(|z: i32| CellIndex { x, y, z });
        }
        columns.lemma_flatten_finite();
    }
    let planes = ints.map(|x: i32| plane(x));
    ints.lemma_map_finite(|x: i32| plane(x));
    assert forall|p: Set<CellIndex>| planes.contains(p) implies #[trigger] p.finite() by {
        let x = choose|x: i32| ints.contains(x) && plane(x) == p;
    }
    planes.lemma_flatten_finite();
    assert forall|c: CellIndex| s.contains(c) implies all_cells().contains(c) by {
        let col = column(c.x, c.y);
        assert(ints.contains(c.z));
        assert(col.contains(c));
        assert(ints.map(|y: i32| column(c.x, y)).contains(col)) by {
            assert(ints.contains(c.y));
        }
        assert(plane(c.x).contains(c));
        assert(planes.contains(plane(c.x))) by {
            assert(ints.contains(c.x));
        }
    }
    vstd::set_lib::lemma_set_subset_finite(all_cells(), s);
}

/// The sum of `f` over a finite set of cells.
pub open spec fn sum_over(s: Set<CellIndex>, f: spec_fn(CellIndex) -> int) -> int
    decreases s.len(),
    when s.finite()
{
    if s.len() == 0 {
        0
    } else {
        let a = s.choose();
        f(a) + sum_over(s.remove(a), f)
    }
}

/// Any cell of the set can be taken out of the sum first.
pub proof fn lemma_sum_remove(s: Set<CellIndex>, f: spec_fn(CellIndex) -> int, a: CellIndex)
    requires
        s.finite(),
        s.contains(a),
    ensures
        sum_over(s, f) == f(a) + sum_over(s.remove(a), f),
    decreases s.len(),
{
    let b = s.choose();
    if b != a {
        lemma_sum_remove(s.remove(b), f, a);
        lemma_sum_remove(s.remove(a), f, b);
        assert(s.remove(b).remove(a) =~= s.remove(a).remove(b));
    }
}

/// Sums of functions that agree on the set are equal.
pub proof fn lemma_sum_congruent(s: Set<CellIndex>, f: spec_fn(CellIndex) -> int, g: spec_fn(CellIndex) -> int)
    requires
        s.finite(),
        forall|x: CellIndex| s.contains(x) ==> f(x) == g(x),
    ensures
        sum_over(s, f) == sum_over(s, g),
    decreases s.len(),
{
    if s.len() > 0 {
        let a = s.choose();
        lemma_sum_congruent(s.remove(a), f, g);
    }
}

/// The sum of a sum is the sum of the sums.
pub proof fn lemma_sum_add(
    s: Set<CellIndex>,
    f: spec_fn(CellIndex) -> int,
    g: spec_fn(CellIndex) -> int,
    h: spec_fn(CellIndex) -> int,
)
    requires
        s.finite(),
        forall|x: CellIndex| s.contains(x) ==> h(x) == f(x) + g(x),
    ensures
        sum_over(s, h) == sum_over(s, f) + sum_over(s, g),
    decreases s.len(),
{
    if s.len() > 0 {
        let a = s.choose();
        lemma_sum_add(s.remove(a), f, g, h);
    }
}

/// Negating every term negates the sum.
pub proof fn lemma_sum_neg(s: Set<CellIndex>, f: spec_fn(CellIndex) -> int, g: spec_fn(CellIndex) -> int)
    requires
        s.finite(),
        forall|x: CellIndex| s.contains(x) ==> g(x) == -f(x),
    ensures
        sum_over(s, g) == -sum_over(s, f),
    decreases s.len(),
{
    if s.len() > 0 {
        let a = s.choose();
        lemma_sum_neg(s.remove(a), f, g);
    }
}

/// Terms that are nothing outside a part of the set add nothing to its sum.
pub proof fn lemma_sum_subset(s: Set<CellIndex>, t: Set<CellIndex>, f: spec_fn(CellIndex) -> int)
    requires
        s.finite(),
        t.subset_of(s),
        forall|x: CellIndex| s.contains(x) && !t.contains(x) ==> f(x) == 0,
    ensures
        sum_over(s, f) == sum_over(t, f),
    decreases s.len(),
{
    vstd::set_lib::lemma_len_subset(t, s);
    if s.len() > 0 {
        let a = s.choose();
        lemma_sum_remove(s, f, a);
        if t.contains(a) {
            lemma_sum_remove(t, f, a);
            lemma_sum_subset(s.remove(a), t.remove(a), f);
        } else {
            lemma_sum_subset(s.remove(a), t, f);
        }
    } else {
        assert(t =~= s);
    }
}

/// Moving each cell of a set by a one-to-one step moves the sum along: the sum of `f` over the
/// cells reached is the sum over the cells left of `f` at the cell reached.
pub proof fn lemma_sum_reindex(
    s: Set<CellIndex>,
    t: Set<CellIndex>,
    step: spec_fn(CellIndex) -> CellIndex,
    f: spec_fn(CellIndex) -> int,
    g: spec_fn(CellIndex) -> int,
)
    requires
        s.finite(),
        forall|x: CellIndex, y: CellIndex| s.contains(x) && s.contains(y) && step(x) == step(y) ==> x == y,
        forall|y: CellIndex| t.contains(y) <==> exists|x: CellIndex| s.contains(x) && step(x) == y,
        forall|x: CellIndex| s.contains(x) ==> g(x) == f(step(x)),
    ensures
        t.finite(),
        sum_over(t, f) == sum_over(s, g),
    decreases s.len(),
{
    if s.len() == 0 {
        assert(t =~= Set::empty()) by {
            assert forall|y: CellIndex| !t.contains(y) by {
                if t.contains(y) {
                    let x = choose|x: CellIndex| s.contains(x) && step(x) == y;
                }
            }
        }
    } else {
        let a = s.choose();
        let s2 = s.remove(a);
        let t2 = t.remove(step(a));
        assert forall|y: CellIndex| t2.contains(y) <==> exists|x: CellIndex| s2.contains(x) && step(x) == y by {
            if t2.contains(y) {
                let x = choose|x: CellIndex| s.contains(x) && step(x) == y;
                assert(s2.contains(x));
            }
            if exists|x: CellIndex| s2.contains(x) && step(x) == y {
                let x = choose|x: CellIndex| s2.contains(x) && step(x) == y;
                assert(t.contains(y));
            }
        }
        lemma_sum_reindex(s2, t2, step, f, g);
        assert(t.contains(step(a)));
        assert(t =~= t2.insert(step(a)));
        lemma_sum_remove(t, f, step(a));
        lemma_sum_remove(s, g, a);
    }
}

/// Flows that pair up cancel out. Each unit that leaves a cell (`out` is -1 there) enters the
/// cell one `step` away (`inn` is 1 there), and each unit that enters a cell left the cell one
/// step `back`: over the whole set, what leaves and what enters add up to nothing.
pub proof fn lemma_paired_flows_cancel(
    d: Set<CellIndex>,
    out: spec_fn(CellIndex) -> int,
    inn: spec_fn(CellIndex) -> int,
    step: spec_fn(CellIndex) -> CellIndex,
    back: spec_fn(CellIndex) -> CellIndex,
)
    requires
        d.finite(),
        forall|x: CellIndex| d.contains(x) ==> out(x) == 0 || out(x) == -1,
        forall|x: CellIndex| d.contains(x) ==> inn(x) == 0 || inn(x) == 1,
        forall|x: CellIndex|
            d.contains(x) && #[trigger] out(x) == -1 ==> d.contains(step(x)) && inn(step(x)) == 1
                && back(step(x)) == x,
        forall|y: CellIndex|
            d.contains(y) && #[trigger] inn(y) == 1 ==> d.contains(back(y)) && out(back(y)) == -1
                && step(back(y)) == y,
    ensures
        sum_over(d, out) + sum_over(d, inn) == 0,
{
    let leaving = d.filter(|x: CellIndex| out(x) == -1);
    let entering = d.filter(|y: CellIndex| inn(y) == 1);
    vstd::set_lib::lemma_len_subset(leaving, d);
    vstd::set_lib::lemma_len_subset(entering, d);
    lemma_sum_subset(d, leaving, out);
    lemma_sum_subset(d, entering, inn);
    let gained = |x: CellIndex| -out(x);
    assert forall|y: CellIndex| entering.contains(y) <==> exists|x: CellIndex|
        leaving.contains(x) && step(x) == y by {
        if entering.contains(y) {
            assert(leaving.contains(back(y)) && step(back(y)) == y);
        }
        if exists|x: CellIndex| leaving.contains(x) && step(x) == y {
            let x = choose|x: CellIndex| leaving.contains(x) && step(x) == y;
            assert(entering.contains(step(x)));
        }
    }
    assert forall|x1: CellIndex, x2: CellIndex|
        leaving.contains(x1) && leaving.contains(x2) && step(x1) == step(x2) implies x1 == x2 by {
        assert(back(step(x1)) == x1);
        assert(back(step(x2)) == x2);
    }
    lemma_sum_reindex(leaving, entering, step, inn, gained);
    lemma_sum_neg(leaving, out, gained);
}

/// All the fluid of a map: the sum of the pressures of its cells.
pub open spec fn total_pressure(m: Map<CellIndex, Cell>) -> int {
    sum_over(m.dom(), |i: CellIndex| m[i].pressure as int)
}

/// Whether no cell of the map has a negative pressure.
pub open spec fn pressures_not_negative(m: Map<CellIndex, Cell>) -> bool {
    forall|i: CellIndex| #[trigger] m.dom().contains(i) ==> m[i].pressure >= 0
}

/// The cell one step along (`dx`, `dy`, `dz`), where its coordinates fit.
pub open spec fn moved(i: CellIndex, dx: int, dy: int, dz: int) -> CellIndex {
    CellIndex { x: (i.x + dx) as i32, y: (i.y + dy) as i32, z: (i.z + dz) as i32 }
}

/// What leaves a cell downwards in the downwards stage.
pub open spec fn down_out(m: Map<CellIndex, Cell>, i: CellIndex) -> int {
    if spec_takes_part(FluidStage::Downwards, m[i].tile_type) {
        spec_outflow(m, i, dir(0, -1, 0), m[i].pressure as int, -VERTICAL_PRESSURE_DIFFERENCE)
    } else {
        0
    }
}

/// What enters a cell from above in the downwards stage.
pub open spec fn down_in(m: Map<CellIndex, Cell>, i: CellIndex) -> int {
    if spec_takes_part(FluidStage::Downwards, m[i].tile_type) {
        spec_inflow(m, i, dir(0, 1, 0), m[i].pressure as int, -VERTICAL_PRESSURE_DIFFERENCE)
    } else {
        0
    }
}

/// The downwards stage neither loses nor makes fluid, and leaves no pressure negative.
pub proof fn lemma_downwards_stage_conserves(m: Map<CellIndex, Cell>)
    requires
        pressures_not_negative(m),
        spec_stage_safe(m, FluidStage::Downwards),
    ensures
        total_pressure(spec_stage_map(m, FluidStage::Downwards)) == total_pressure(m),
        pressures_not_negative(spec_stage_map(m, FluidStage::Downwards)),
{
    lemma_cell_sets_finite(m.dom());
    let m1 = spec_stage_map(m, FluidStage::Downwards);
    let d = m.dom();
    assert(m1.dom() =~= d);
    let out = |i: CellIndex| down_out(m, i);
    let inn = |i: CellIndex| down_in(m, i);
    let step = |i: CellIndex| moved(i, 0, -1, 0);
    let back = |i: CellIndex| moved(i, 0, 1, 0);
    assert forall|x: CellIndex| d.contains(x) && #[trigger] out(x) == -1 implies d.contains(step(x))
        && inn(step(x)) == 1 && back(step(x)) == x by {
        let n = x.offset_spec(0, -1, 0)->0;
        assert(n == step(x));
        lemma_downwards_flow_is_conserved(m, x, n);
    }
    assert forall|y: CellIndex| d.contains(y) && #[trigger] inn(y) == 1 implies d.contains(back(y))
        && out(back(y)) == -1 && step(back(y)) == y by {
        let u = y.offset_spec(0, 1, 0)->0;
        assert(u == back(y));
        assert(u.offset_spec(0, -1, 0) == Some(y));
        lemma_downwards_flow_is_conserved(m, u, y);
    }
    lemma_paired_flows_cancel(d, out, inn, step, back);
    let delta = |i: CellIndex| out(i) + inn(i);
    lemma_sum_add(d, out, inn, delta);
    lemma_sum_add(d, |i: CellIndex| m[i].pressure as int, delta, |i: CellIndex| m1[i].pressure as int);
}

/// What leaves a cell upwards in the upwards stage.
pub open spec fn up_out(m: Map<CellIndex, Cell>, i: CellIndex) -> int {
    if spec_takes_part(FluidStage::Upwards, m[i].tile_type) {
        spec_outflow(m, i, dir(0, 1, 0), m[i].pressure as int, VERTICAL_PRESSURE_DIFFERENCE + 1)
    } else {
        0
    }
}

/// What enters a cell from below in the upwards stage.
pub open spec fn up_in(m: Map<CellIndex, Cell>, i: CellIndex) -> int {
    if spec_takes_part(FluidStage::Upwards, m[i].tile_type) {
        spec_inflow(m, i, dir(0, -1, 0), m[i].pressure as int, VERTICAL_PRESSURE_DIFFERENCE + 1)
    } else {
        0
    }
}

/// The upwards stage neither loses nor makes fluid, and leaves no pressure negative.
pub proof fn lemma_upwards_stage_conserves(m: Map<CellIndex, Cell>)
    requires
        pressures_not_negative(m),
        spec_stage_safe(m, FluidStage::Upwards),
    ensures
        total_pressure(spec_stage_map(m, FluidStage::Upwards)) == total_pressure(m),
        pressures_not_negative(spec_stage_map(m, FluidStage::Upwards)),
{
    lemma_cell_sets_finite(m.dom());
    let m1 = spec_stage_map(m, FluidStage::Upwards);
    let d = m.dom();
    assert(m1.dom() =~= d);
    let out = |i: CellIndex| up_out(m, i);
    let inn = |i: CellIndex| up_in(m, i);
    let step = |i: CellIndex| moved(i, 0, 1, 0);
    let back = |i: CellIndex| moved(i, 0, -1, 0);
    assert forall|x: CellIndex| d.contains(x) && #[trigger] out(x) == -1 implies d.contains(step(x))
        && inn(step(x)) == 1 && back(step(x)) == x by {
        let n = x.offset_spec(0, 1, 0)->0;
        assert(n == step(x));
        lemma_upwards_flow_is_conserved(m, x, n);
    }
    assert forall|y: CellIndex| d.contains(y) && #[trigger] inn(y) == 1 implies d.contains(back(y))
        && out(back(y)) == -1 && step(back(y)) == y by {
        let l = y.offset_spec(0, -1, 0)->0;
        assert(l == back(y));
        assert(l.offset_spec(0, 1, 0) == Some(y));
        lemma_upwards_flow_is_conserved(m, l, y);
    }
    lemma_paired_flows_cancel(d, out, inn, step, back);
    let delta = |i: CellIndex| out(i) + inn(i);
    lemma_sum_add(d, out, inn, delta);
    lemma_sum_add(d, |i: CellIndex| m[i].pressure as int, delta, |i: CellIndex| m1[i].pressure as int);
}

/// The map after both sideways stages.
pub open spec fn sideways(m: Map<CellIndex, Cell>) -> Map<CellIndex, Cell> {
    spec_stage_map(spec_stage_map(m, FluidStage::SidewaysPrepare), FluidStage::SidewaysApply)
}

/// What leaves a cell sideways along `dir(dx, 0, dz)` over the sideways stages: it counts out
/// while preparing, and the loss holds if the cell can lose all it counted.
pub open spec fn side_out(m: Map<CellIndex, Cell>, i: CellIndex, dx: int, dz: int) -> int {
    let prepared = spec_stage_map(m, FluidStage::SidewaysPrepare);
    if spec_takes_part(FluidStage::SidewaysPrepare, m[i].tile_type) && prepared[i].can_flow_out {
        spec_outflow(m, i, dir(dx, 0, dz), m[i].pressure as int, 0)
    } else {
        0
    }
}

/// What enters a cell sideways from `dir(dx, 0, dz)` over the sideways stages.
pub open spec fn side_in(m: Map<CellIndex, Cell>, i: CellIndex, dx: int, dz: int) -> int {
    let prepared = spec_stage_map(m, FluidStage::SidewaysPrepare);
    if spec_takes_part(FluidStage::SidewaysApply, prepared[i].tile_type) {
        spec_maybe_inflow(prepared, i, dir(dx, 0, dz), prepared[i].pressure as int, 0)
    } else {
        0
    }
}

/// The directions of the sideways stages.
pub open spec fn sideways_direction(dx: int, dz: int) -> bool {
    (dx == 1 || dx == -1) && dz == 0 || dx == 0 && (dz == 1 || dz == -1)
}

/// A unit that leaves a cell sideways enters the next cell along.
proof fn lemma_side_out_enters(m: Map<CellIndex, Cell>, dx: int, dz: int, x: CellIndex)
    requires
        pressures_not_negative(m),
        sideways_direction(dx, dz),
        m.dom().contains(x),
        side_out(m, x, dx, dz) == -1,
    ensures
        m.dom().contains(moved(x, dx, 0, dz)),
        side_in(m, moved(x, dx, 0, dz), -dx, -dz) == 1,
        moved(moved(x, dx, 0, dz), -dx, 0, -dz) == x,
{
    let dd = dir(dx, 0, dz);
    assert(dir(-dd.x, -dd.y, -dd.z) == dir(-dx, 0, -dz));
    let n = x.offset_spec(dx, 0, dz)->0;
    assert(n == moved(x, dx, 0, dz));
    lemma_sideways_flow_is_conserved(m, x, n, dd);
}

/// A unit that enters a cell sideways left the previous cell along.
proof fn lemma_side_in_left(m: Map<CellIndex, Cell>, dx: int, dz: int, y: CellIndex)
    requires
        pressures_not_negative(m),
        sideways_direction(dx, dz),
        m.dom().contains(y),
        side_in(m, y, -dx, -dz) == 1,
    ensures
        m.dom().contains(moved(y, -dx, 0, -dz)),
        side_out(m, moved(y, -dx, 0, -dz), dx, dz) == -1,
        moved(moved(y, -dx, 0, -dz), dx, 0, dz) == y,
{
    let dd = dir(dx, 0, dz);
    assert(dir(-dd.x, -dd.y, -dd.z) == dir(-dx, 0, -dz));
    let prepared = spec_stage_map(m, FluidStage::SidewaysPrepare);
    assert(prepared.dom().contains(y));
    let u = y.offset_spec(-dx, 0, -dz)->0;
    assert(u == moved(y, -dx, 0, -dz));
    assert(u.offset_spec(dx, 0, dz) == Some(y));
    lemma_sideways_flow_is_conserved(m, u, y, dd);
}

/// Over the sideways stages, what leaves cells along one direction enters the cells next to
/// them from the opposite one.
proof fn lemma_side_pair_cancels(m: Map<CellIndex, Cell>, dx: int, dz: int)
    requires
        pressures_not_negative(m),
        sideways_direction(dx, dz),
    ensures
        sum_over(m.dom(), |i: CellIndex| side_out(m, i, dx, dz)) + sum_over(
            m.dom(),
            |i: CellIndex| side_in(m, i, -dx, -dz),
        ) == 0,
{
    lemma_cell_sets_finite(m.dom());
    let d = m.dom();
    let out = |i: CellIndex| side_out(m, i, dx, dz);
    let inn = |i: CellIndex| side_in(m, i, -dx, -dz);
    let step = |i: CellIndex| moved(i, dx, 0, dz);
    let back = |i: CellIndex| moved(i, -dx, 0, -dz);
    assert forall|x: CellIndex| d.contains(x) && #[trigger] out(x) == -1 implies d.contains(step(x))
        && inn(step(x)) == 1 && back(step(x)) == x by {
        lemma_side_out_enters(m, dx, dz, x);
    }
    assert forall|y: CellIndex| d.contains(y) && #[trigger] inn(y) == 1 implies d.contains(back(y))
        && out(back(y)) == -1 && step(back(y)) == y by {
        lemma_side_in_left(m, dx, dz, y);
    }
    lemma_paired_flows_cancel(d, out, inn, step, back);
}

/// What the sideways stages make of one cell's pressure: what it had, less what leaves it along
/// each direction, plus what enters it from each.
proof fn lemma_sideways_cell(m: Map<CellIndex, Cell>, i: CellIndex)
    requires
        pressures_not_negative(m),
        spec_stage_safe(spec_stage_map(m, FluidStage::SidewaysPrepare), FluidStage::SidewaysApply),
        m.dom().contains(i),
    ensures
        sideways(m).dom().contains(i),
        sideways(m)[i].pressure == m[i].pressure + side_out(m, i, 1, 0) + side_out(m, i, -1, 0)
            + side_out(m, i, 0, 1) + side_out(m, i, 0, -1) + side_in(m, i, 1, 0) + side_in(
            m,
            i,
            -1,
            0,
        ) + side_in(m, i, 0, 1) + side_in(m, i, 0, -1),
        sideways(m)[i].pressure >= 0,
{
    let prepared = spec_stage_map(m, FluidStage::SidewaysPrepare);
    assert(prepared.dom().contains(i));
    assert(spec_stage_map(prepared, FluidStage::SidewaysApply).dom().contains(i));
}

/// The sideways stages neither lose nor make fluid, and leave no pressure negative.
pub proof fn lemma_sideways_stages_conserve(m: Map<CellIndex, Cell>)
    requires
        pressures_not_negative(m),
        spec_stage_safe(spec_stage_map(m, FluidStage::SidewaysPrepare), FluidStage::SidewaysApply),
    ensures
        total_pressure(sideways(m)) == total_pressure(m),
        pressures_not_negative(sideways(m)),
{
    lemma_cell_sets_finite(m.dom());
    let d = m.dom();
    let after = sideways(m);
    assert(after.dom() =~= d);
    let o1 = |i: CellIndex| side_out(m, i, 1, 0);
    let o2 = |i: CellIndex| side_out(m, i, -1, 0);
    let o3 = |i: CellIndex| side_out(m, i, 0, 1);
    let o4 = |i: CellIndex| side_out(m, i, 0, -1);
    let i1 = |i: CellIndex| side_in(m, i, -1, 0);
    let i2 = |i: CellIndex| side_in(m, i, 1, 0);
    let i3 = |i: CellIndex| side_in(m, i, 0, -1);
    let i4 = |i: CellIndex| side_in(m, i, 0, 1);
    lemma_side_pair_cancels(m, 1, 0);
    lemma_side_pair_cancels(m, -1, 0);
    lemma_side_pair_cancels(m, 0, 1);
    lemma_side_pair_cancels(m, 0, -1);
    let p1 = |i: CellIndex| o1(i) + i1(i);
    let p2 = |i: CellIndex| o2(i) + i2(i);
    let p3 = |i: CellIndex| o3(i) + i3(i);
    let p4 = |i: CellIndex| o4(i) + i4(i);
    lemma_sum_add(d, o1, i1, p1);
    lemma_sum_add(d, o2, i2, p2);
    lemma_sum_add(d, o3, i3, p3);
    lemma_sum_add(d, o4, i4, p4);
    let q12 = |i: CellIndex| p1(i) + p2(i);
    let q34 = |i: CellIndex| p3(i) + p4(i);
    let delta = |i: CellIndex| q12(i) + q34(i);
    lemma_sum_add(d, p1, p2, q12);
    lemma_sum_add(d, p3, p4, q34);
    lemma_sum_add(d, q12, q34, delta);
    assert forall|i: CellIndex| d.contains(i) implies after[i].pressure as int == m[i].pressure as int
        + delta(i) && after[i].pressure >= 0 by {
        lemma_sideways_cell(m, i);
    }
    lemma_sum_add(d, |i: CellIndex| m[i].pressure as int, delta, |i: CellIndex| after[i].pressure as int);
}

/// A stage keeps the cells of the map.
proof fn lemma_stage_domain(m: Map<CellIndex, Cell>, stage: FluidStage)
    ensures
        spec_stage_map(m, stage).dom() == m.dom(),
{
    assert(spec_stage_map(m, stage).dom() =~= m.dom());
}

/// The tile update changes no pressure.
proof fn lemma_tile_update_conserves(m: Map<CellIndex, Cell>)
    requires
        pressures_not_negative(m),
    ensures
        total_pressure(spec_stage_map(m, FluidStage::TileUpdate)) == total_pressure(m),
        pressures_not_negative(spec_stage_map(m, FluidStage::TileUpdate)),
{
    lemma_cell_sets_finite(m.dom());
    let m5 = spec_stage_map(m, FluidStage::TileUpdate);
    lemma_stage_domain(m, FluidStage::TileUpdate);
    lemma_sum_congruent(m.dom(), |i: CellIndex| m[i].pressure as int, |i: CellIndex| m5[i].pressure as int);
}

/// A whole step of the simulation neither loses nor makes fluid: on a map with no negative
/// pressure, where the step can run, the pressures after the step add up to what they added up
/// to before, and none of them is negative.
pub proof fn lemma_advance_fluid_conserves(m: Map<CellIndex, Cell>)
    requires
        pressures_not_negative(m),
        spec_advance_fluid_safe(m),
    ensures
        total_pressure(spec_advance_fluid(m)) == total_pressure(m),
        pressures_not_negative(spec_advance_fluid(m)),
{
    lemma_cell_sets_finite(m.dom());
    let m1 = spec_stage_map(m, FluidStage::Downwards);
    let m2 = spec_stage_map(m1, FluidStage::SidewaysPrepare);
    let m3 = spec_stage_map(m2, FluidStage::SidewaysApply);
    let m4 = spec_stage_map(m3, FluidStage::Upwards);
    lemma_stage_domain(m, FluidStage::Downwards);
    lemma_stage_domain(m1, FluidStage::SidewaysPrepare);
    lemma_stage_domain(m2, FluidStage::SidewaysApply);
    lemma_stage_domain(m3, FluidStage::Upwards);
    lemma_downwards_stage_conserves(m);
    lemma_sideways_stages_conserve(m1);
    lemma_upwards_stage_conserves(m3);
    lemma_tile_update_conserves(m4);
}

} // verus!
