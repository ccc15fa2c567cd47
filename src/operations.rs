use vstd::prelude::*;
use crate::coordinates::Coordinate;
use crate::functions::Function;
use crate::selections::Select;
use crate::tables::{CellMap, CellValue, OpID, Pos, Region, Table, has_key, keys_unique, lemma_map_of_index};

verus! {

/// `b` is the least axis-aligned box holding every position of `keys`.
pub open spec fn is_bbox(keys: Set<Pos>, b: Region) -> bool {
    &&& forall|k: Pos| #[trigger] keys.contains(k) ==> b.0.0 <= k.0 <= b.1.0 && b.0.1 <= k.1 <= b.1.1
    &&& exists|k: Pos| #[trigger] keys.contains(k) && k.0 == b.0.0
    &&& exists|k: Pos| #[trigger] keys.contains(k) && k.1 == b.0.1
    &&& exists|k: Pos| #[trigger] keys.contains(k) && k.0 == b.1.0
    &&& exists|k: Pos| #[trigger] keys.contains(k) && k.1 == b.1.1
}

/// The least box holding every position of `keys` (meaningful when `keys`
/// is non-empty).
pub open spec fn bounding_box(keys: Set<Pos>) -> Region {
    choose|b: Region| is_bbox(keys, b)
}

/// A set of positions has at most one least box.
pub proof fn lemma_bbox_unique(keys: Set<Pos>, a: Region, b: Region)
    requires
        is_bbox(keys, a),
        is_bbox(keys, b),
    ensures
        a == b,
{
    let k1 = choose|k: Pos| #[trigger] keys.contains(k) && k.0 == a.0.0;
    let k2 = choose|k: Pos| #[trigger] keys.contains(k) && k.0 == b.0.0;
    let k3 = choose|k: Pos| #[trigger] keys.contains(k) && k.1 == a.0.1;
    let k4 = choose|k: Pos| #[trigger] keys.contains(k) && k.1 == b.0.1;
    let k5 = choose|k: Pos| #[trigger] keys.contains(k) && k.0 == a.1.0;
    let k6 = choose|k: Pos| #[trigger] keys.contains(k) && k.0 == b.1.0;
    let k7 = choose|k: Pos| #[trigger] keys.contains(k) && k.1 == a.1.1;
    let k8 = choose|k: Pos| #[trigger] keys.contains(k) && k.1 == b.1.1;
}

/// Position `p` moved by the anchor `a` (meaningful where no component leaves
/// the `u64` range).
pub open spec fn shifted(p: Pos, a: Pos) -> Pos {
    ((p.0 + a.0) as u64, (p.1 + a.1) as u64)
}

/// The local output map `out` placed with its origin at `a`.
pub open spec fn translate(out: Map<Pos, CellValue>, a: Pos) -> Map<Pos, CellValue> {
    Map::new(
        |k: Pos| k.0 >= a.0 && k.1 >= a.1 && out.contains_key(((k.0 - a.0) as u64, (k.1 - a.1) as u64)),
        |k: Pos| out[((k.0 - a.0) as u64, (k.1 - a.1) as u64)],
    )
}

/// The stage of an operation that failed.
#[derive(Clone, Copy, Debug, PartialEq, Eq, Structural)]
pub enum Stage {
    /// The input selection did not resolve.
    Selection,
    /// The function produced nothing, or an empty output.
    Function,
    /// The output anchor did not resolve, or placed the output outside the
    /// coordinate space.
    Anchor,
}

/// Why a run stopped: which operation, at which stage.
#[derive(Clone, Copy, Debug, PartialEq, Eq, Structural)]
pub struct ApplyError {
    pub op_id: OpID,
    pub stage: Stage,
}

/// One operation: read a selection, transform it, write the output at an
/// anchor, and record the region written under `id`.
#[derive(Debug)]
pub struct OpSpec {
    pub id: u64,
    pub input_selection: Select,
    pub output_anchor: Coordinate,
    pub function: Function,
}

/// The outcome of applying `op` to a table with cell map `vals` and region
/// registry `ops`: the new cell map and registry, or the failing stage.
///
/// Regions are recorded in absolute coordinates, after translation by the
/// anchor. The anchor is resolved against the registry as it stood before the
/// operation, so an operation cannot address its own output.
pub open spec fn spec_apply(op: OpSpec, vals: Map<Pos, CellValue>, ops: Map<OpID, Region>) -> Result<
    (Map<Pos, CellValue>, Map<OpID, Region>),
    Stage,
> {
    match op.input_selection.spec_select(ops) {
        None => Err(Stage::Selection),
        Some(coords) => match op.function.spec_call(vals, coords) {
            None => Err(Stage::Function),
            Some(out) => if out == Map::<Pos, CellValue>::empty() {
                Err(Stage::Function)
            } else {
                match op.output_anchor.spec_resolve(ops) {
                    None => Err(Stage::Anchor),
                    Some(a) => {
                        let b = bounding_box(out.dom());
                        if b.1.0 + a.0 > u64::MAX || b.1.1 + a.1 > u64::MAX {
                            Err(Stage::Anchor)
                        } else {
                            Ok(
                                (
                                    vals.union_prefer_right(translate(out, a)),
                                    ops.insert(op.id, (shifted(b.0, a), shifted(b.1, a))),
                                ),
                            )
                        }
                    },
                }
            },
        },
    }
}

/// The least box over the positions of a non-empty output map.
pub fn get_corners(results: &CellMap) -> (r: Region)
    requires
        results.wf(),
        results.entries@.len() > 0,
    ensures
        is_bbox(results@.dom(), r),
        r == bounding_box(results@.dom()),
{
    let ghost es = results.entries@;
    let mut first_row: u64 = results.entries[0].0.0;
    let mut first_col: u64 = results.entries[0].0.1;
    let mut last_row: u64 = first_row;
    let mut last_col: u64 = first_col;
    let mut i: usize = 1;
    while i < results.entries.len()
        invariant
            1 <= i <= es.len(),
            es == results.entries@,
            forall|j: int| 0 <= j < i ==> first_row <= (#[trigger] es[j]).0.0 <= last_row
                && first_col <= es[j].0.1 <= last_col,
            exists|j: int| 0 <= j < i && (#[trigger] es[j]).0.0 == first_row,
            exists|j: int| 0 <= j < i && (#[trigger] es[j]).0.1 == first_col,
            exists|j: int| 0 <= j < i && (#[trigger] es[j]).0.0 == last_row,
            exists|j: int| 0 <= j < i && (#[trigger] es[j]).0.1 == last_col,
        decreases es.len() - i,
    {
        let (row, col) = results.entries[i].0;
        if row < first_row {
            first_row = row;
        }
        if col < first_col {
            first_col = col;
        }
        if row > last_row {
            last_row = row;
        }
        if col > last_col {
            last_col = col;
        }
        assert(es[i as int].0 == (row, col));
        i = i + 1;
    }
    let r = ((first_row, first_col), (last_row, last_col));
    let ghost keys = results@.dom();
    proof {
        assert forall|k: Pos| #[trigger] keys.contains(k) implies r.0.0 <= k.0 <= r.1.0 && r.0.1 <= k.1 <= r.1.1 by {
            assert(has_key(es, k));
            let j = choose|j: int| 0 <= j < es.len() && (#[trigger] es[j]).0 == k;
        }
        let j1 = choose|j: int| 0 <= j < i && (#[trigger] es[j]).0.0 == first_row;
        let j2 = choose|j: int| 0 <= j < i && (#[trigger] es[j]).0.1 == first_col;
        let j3 = choose|j: int| 0 <= j < i && (#[trigger] es[j]).0.0 == last_row;
        let j4 = choose|j: int| 0 <= j < i && (#[trigger] es[j]).0.1 == last_col;
        assert(has_key(es, es[j1].0));
        assert(has_key(es, es[j2].0));
        assert(has_key(es, es[j3].0));
        assert(has_key(es, es[j4].0));
        assert(keys.contains(es[j1].0));
        assert(keys.contains(es[j2].0));
        assert(keys.contains(es[j3].0));
        assert(keys.contains(es[j4].0));
        assert(is_bbox(keys, r));
        lemma_bbox_unique(keys, r, bounding_box(keys));
    }
    r
}

/// Writes the output `results`, placed at `anchor`, into the cell map.
fn write_back(values: &mut CellMap, results: &CellMap, anchor: Pos, b: Region)
    requires
        old(values).wf(),
        old(values).values_wf(),
        results.wf(),
        results.values_wf(),
        is_bbox(results@.dom(), b),
        b.1.0 + anchor.0 <= u64::MAX,
        b.1.1 + anchor.1 <= u64::MAX,
    ensures
        final(values).wf(),
        final(values).values_wf(),
        final(values)@ == old(values)@.union_prefer_right(translate(results@, anchor)),
{
    let ghost old_vals = values@;
    let ghost es = results.entries@;
    proof {
        assert forall|j: int| 0 <= j < es.len() implies (#[trigger] es[j]).0.0 + anchor.0 <= u64::MAX
            && es[j].0.1 + anchor.1 <= u64::MAX && results@.contains_key(es[j].0) by {
            lemma_map_of_index(es, j);
        }
    }
    let mut i: usize = 0;
    while i < results.entries.len()
        invariant
            i <= es.len(),
            es == results.entries@,
            keys_unique(es),
            forall|j: int| 0 <= j < es.len() ==> (#[trigger] es[j]).0.0 + anchor.0 <= u64::MAX
                && es[j].0.1 + anchor.1 <= u64::MAX && results@.contains_key(es[j].0),
            results.values_wf(),
            values.wf(),
            values.values_wf(),
            forall|k: Pos| #[trigger] values@.contains_key(k) == (old_vals.contains_key(k)
                || exists|j: int| 0 <= j < i && shifted((#[trigger] es[j]).0, anchor) == k),
            forall|j: int| 0 <= j < i ==> values@[shifted((#[trigger] es[j]).0, anchor)] == es[j].1,
            forall|k: Pos| #[trigger] old_vals.contains_key(k)
                && !(exists|j: int| 0 <= j < i && shifted((#[trigger] es[j]).0, anchor) == k)
                ==> values@[k] == old_vals[k],
        decreases es.len() - i,
    {
        let e = &results.entries[i];
        let new_row = e.0.0 + anchor.0;
        let new_col = e.0.1 + anchor.1;
        proof {
            lemma_map_of_index(es, i as int);
        }
        values.insert((new_row, new_col), e.1.duplicate());
        proof {
            assert(shifted(es[i as int].0, anchor) == (new_row, new_col));
            assert forall|j: int| 0 <= j < i + 1 implies values@[shifted((#[trigger] es[j]).0, anchor)] == es[j].1 by {
                if j < i {
                    assert(es[j].0 != es[i as int].0);
                }
            }
            assert forall|k: Pos| #[trigger] values@.contains_key(k) == (old_vals.contains_key(k)
                || exists|j: int| 0 <= j < i + 1 && shifted((#[trigger] es[j]).0, anchor) == k) by {
                if k == (new_row, new_col) {
                    assert(shifted(es[i as int].0, anchor) == k);
                }
            }
        }
        i = i + 1;
    }
    proof {
        let t = translate(results@, anchor);
        let target = old_vals.union_prefer_right(t);
        assert forall|k: Pos| #[trigger] t.contains_key(k) implies exists|j: int| 0 <= j < es.len()
            && shifted((#[trigger] es[j]).0, anchor) == k && t[k] == es[j].1 by {
            let q: Pos = ((k.0 - anchor.0) as u64, (k.1 - anchor.1) as u64);
            assert(has_key(es, q));
            let j = choose|j: int| 0 <= j < es.len() && (#[trigger] es[j]).0 == q;
            lemma_map_of_index(es, j);
            assert(shifted(es[j].0, anchor) == k);
        }
        assert forall|j: int| 0 <= j < es.len() implies #[trigger] t.contains_key(shifted(es[j].0, anchor)) by {
            let q = es[j].0;
            assert(((shifted(q, anchor).0 - anchor.0) as u64, (shifted(q, anchor).1 - anchor.1) as u64) == q);
        }
        assert(values@ =~= target);
    }
}

/// Applies one operation to the table.
///
/// Selection, function, then anchor; the first of them that fails stops the
/// operation with the table unchanged. On success the output is written at
/// the anchor, replacing earlier values, and the region it covers is recorded
/// under the operation's id in absolute coordinates.
pub fn apply_operation(table: &mut Table, spec: &OpSpec) -> (r: Result<(), ApplyError>)
    requires
        old(table).wf(),
        spec.function.wf(),
    ensures
        final(table).wf(),
        match spec_apply(*spec, old(table).values@, old(table).op_map@) {
            Ok((vals, ops)) => r is Ok && final(table).values@ == vals && final(table).op_map@ == ops,
            Err(stage) => r == Err::<(), ApplyError>(ApplyError { op_id: spec.id, stage })
                && final(table).values@ == old(table).values@
                && final(table).op_map@ == old(table).op_map@,
        },
{
    let inputs = match spec.input_selection.select(table) {
        Some(v) => v,
        None => {
            return Err(ApplyError { op_id: spec.id, stage: Stage::Selection });
        },
    };
    let results = match spec.function.call(table, &inputs) {
        Some(m) => m,
        None => {
            return Err(ApplyError { op_id: spec.id, stage: Stage::Function });
        },
    };
    if results.len() == 0 {
        assert(results@ =~= Map::<Pos, CellValue>::empty());
        return Err(ApplyError { op_id: spec.id, stage: Stage::Function });
    }
    proof {
        lemma_map_of_index(results.entries@, 0);
        assert(results@ != Map::<Pos, CellValue>::empty());
    }
    let b = get_corners(&results);
    let anchor = match spec.output_anchor.resolve(table) {
        Some(a) => a,
        None => {
            return Err(ApplyError { op_id: spec.id, stage: Stage::Anchor });
        },
    };
    if b.1.0 > u64::MAX - anchor.0 || b.1.1 > u64::MAX - anchor.1 {
        return Err(ApplyError { op_id: spec.id, stage: Stage::Anchor });
    }
    proof {
        assert(b.0.0 <= b.1.0 && b.0.1 <= b.1.1) by {
            let k = choose|k: Pos| #[trigger] results@.dom().contains(k) && k.0 == b.0.0;
            let k2 = choose|k: Pos| #[trigger] results@.dom().contains(k) && k.1 == b.0.1;
        }
    }
    let region = ((b.0.0 + anchor.0, b.0.1 + anchor.1), (b.1.0 + anchor.0, b.1.1 + anchor.1));
    write_back(&mut table.values, &results, anchor, b);
    table.op_map.insert(spec.id, region);
    Ok(())
}

/// The outcome of applying the operations `ops` in order, starting from cell
/// map `vals` and registry `regs`: the final cell map and registry, and the
/// first failure, if any. Writes made before a failure stay.
pub open spec fn spec_run(ops: Seq<OpSpec>, vals: Map<Pos, CellValue>, regs: Map<OpID, Region>) -> (
    Map<Pos, CellValue>,
    Map<OpID, Region>,
    Result<(), ApplyError>,
)
    decreases ops.len(),
{
    if ops.len() == 0 {
        (vals, regs, Ok(()))
    } else {
        match spec_apply(ops[0], vals, regs) {
            Err(stage) => (vals, regs, Err(ApplyError { op_id: ops[0].id, stage })),
            Ok((v, r)) => spec_run(ops.drop_first(), v, r),
        }
    }
}

/// Applies the operations in order, stopping at the first that fails.
pub fn apply_operations(table: &mut Table, ops: &Vec<OpSpec>) -> (r: Result<(), ApplyError>)
    requires
        old(table).wf(),
        forall|i: int| 0 <= i < ops@.len() ==> (#[trigger] ops@[i]).function.wf(),
    ensures
        final(table).wf(),
        spec_run(ops@, old(table).values@, old(table).op_map@) == (
            final(table).values@,
            final(table).op_map@,
            r,
        ),
{
    let ghost goal = spec_run(ops@, table.values@, table.op_map@);
    let mut i: usize = 0;
    assert(ops@.subrange(0, ops@.len() as int) =~= ops@);
    while i < ops.len()
        invariant
            i <= ops@.len(),
            table.wf(),
            forall|i: int| 0 <= i < ops@.len() ==> (#[trigger] ops@[i]).function.wf(),
            goal == spec_run(ops@, old(table).values@, old(table).op_map@),
            goal == spec_run(ops@.subrange(i as int, ops@.len() as int), table.values@, table.op_map@),
        decreases ops@.len() - i,
    {
        let ghost rest = ops@.subrange(i as int, ops@.len() as int);
        assert(rest[0] == ops@[i as int]);
        assert(rest.drop_first() =~= ops@.subrange(i + 1, ops@.len() as int));
        let ghost before_vals = table.values@;
        let ghost before_regs = table.op_map@;
        let step = apply_operation(table, &ops[i]);
        if step.is_err() {
            assert(spec_apply(rest[0], before_vals, before_regs) is Err);
            assert(spec_run(rest, before_vals, before_regs) == (before_vals, before_regs, step));
            assert(goal == (table.values@, table.op_map@, step));
            return step;
        }
        i = i + 1;
    }
    Ok(())
}

/// Determinism: the same operation list applied to two fresh, empty tables
/// leaves them with the same cells, the same registry and the same outcome.
pub proof fn law_run_deterministic(
    ops: Seq<OpSpec>,
    vals1: Map<Pos, CellValue>,
    regs1: Map<OpID, Region>,
    vals2: Map<Pos, CellValue>,
    regs2: Map<OpID, Region>,
)
    requires
        vals1 == Map::<Pos, CellValue>::empty(),
        regs1 == Map::<OpID, Region>::empty(),
        vals2 == Map::<Pos, CellValue>::empty(),
        regs2 == Map::<OpID, Region>::empty(),
    ensures
        spec_run(ops, vals1, regs1) == spec_run(ops, vals2, regs2),
{
}

/// Determinism of one step: the same operation applied to two tables with
/// the same cells and registry (two fresh tables, say) leaves them with the
/// same cells and registry, or fails on both at the same stage.
pub proof fn law_apply_deterministic(
    op: OpSpec,
    vals1: Map<Pos, CellValue>,
    regs1: Map<OpID, Region>,
    vals2: Map<Pos, CellValue>,
    regs2: Map<OpID, Region>,
)
    requires
        vals1 == vals2,
        regs1 == regs2,
    ensures
        spec_apply(op, vals1, regs1) == spec_apply(op, vals2, regs2),
{
}

} // verus!
