use vstd::prelude::*;

use crate::tables::{CellMap, CellValue, Fixed, Pos, Table, raw_bound, scale};

verus! {

/// The cell map of a literal grid: (row index, column index) to the value
/// written there.
pub open spec fn grid_map(rows: Seq<Seq<CellValue>>) -> Map<Pos, CellValue> {
    Map::new(
        |k: Pos| k.0 < rows.len() && k.1 < rows[k.0 as int].len(),
        |k: Pos| rows[k.0 as int][k.1 as int],
    )
}

/// The first `i` rows of the grid and the first `j` cells of row `i`.
pub open spec fn grid_prefix(rows: Seq<Seq<CellValue>>, i: int, j: int) -> Map<Pos, CellValue> {
    Map::new(
        |k: Pos| (k.0 < i && k.1 < rows[k.0 as int].len()) || (k.0 == i && k.1 < j),
        |k: Pos| rows[k.0 as int][k.1 as int],
    )
}

/// Hands out a fixed grid of literal values, whatever it is given.
#[derive(Debug)]
pub struct RawInput {
    pub values: CellMap,
}

impl RawInput {
    pub open spec fn wf(&self) -> bool {
        self.values.wf() && self.values.values_wf()
    }

    /// The grid given as rows of values, keyed by (row index, column index).
    pub fn from_rows(rows: &Vec<Vec<CellValue>>) -> (r: RawInput)
        requires
            forall|i: int, j: int|
                0 <= i < rows@.len() && 0 <= j < rows@[i]@.len() ==> (#[trigger] rows@[i]@[j]).wf(),
        ensures
            r.wf(),
            r.values@ == grid_map(rows@.map_values(|row: Vec<CellValue>| row@)),
    {
        let ghost g = rows@.map_values(|row: Vec<CellValue>| row@);
        let mut values = CellMap::new();
        let mut i: usize = 0;
        assert(values@ =~= grid_prefix(g, 0, 0));
        while i < rows.len()
            invariant
                i <= rows@.len(),
                g == rows@.map_values(|row: Vec<CellValue>| row@),
                values.wf(),
                values@ == grid_prefix(g, i as int, 0),
            decreases rows@.len() - i,
        {
            let row = &rows[i];
            let mut j: usize = 0;
            while j < row.len()
                invariant
                    i < rows@.len(),
                    j <= row@.len(),
                    *row == rows@[i as int],
                    g == rows@.map_values(|row: Vec<CellValue>| row@),
                    values.wf(),
                    values@ == grid_prefix(g, i as int, j as int),
                decreases row@.len() - j,
            {
                values.insert((i as u64, j as u64), row[j].duplicate());
                assert(values@ =~= grid_prefix(g, i as int, j + 1));
                j = j + 1;
            }
            assert(values@ =~= grid_prefix(g, i + 1, 0));
            i = i + 1;
        }
        assert(values@ =~= grid_map(g));
        RawInput { values }
    }

    /// The literal grid, whatever the table and the inputs.
    pub fn call(&self, _table: &Table, _input_selection: &Vec<Pos>) -> (r: Option<CellMap>)
        requires
            self.wf(),
        ensures
            r.is_some(),
            r.unwrap().wf(),
            r.unwrap().values_wf(),
            r.unwrap()@ == self.values@,
    {
        Some(self.values.duplicate())
    }
}

/// The number in a cell in units of 2^-62; absent for text.
pub open spec fn scaled(v: CellValue) -> Option<int> {
    match v {
        CellValue::Int(i) => Some(i * scale()),
        CellValue::Float(f) => Some(f.raw as int),
        CellValue::Str(_) => None,
    }
}

/// Some input cell is missing or holds text.
pub open spec fn has_bad_input(vals: Map<Pos, CellValue>, coords: Seq<Pos>) -> bool {
    exists|i: int|
        0 <= i < coords.len() && (!vals.contains_key(#[trigger] coords[i]) || vals[coords[i]] is Str)
}

/// The exact sum of the first `k` input numbers, in units of 2^-62.
pub open spec fn exact_sum(vals: Map<Pos, CellValue>, coords: Seq<Pos>, k: nat) -> int
    decreases k,
{
    if k == 0 {
        0
    } else {
        exact_sum(vals, coords, (k - 1) as nat) + scaled(vals[coords[k - 1]]).unwrap()
    }
}

/// The arithmetic mean of the input cells, rounded down to a multiple of
/// 2^-62; absent on no input, or where an input cell is missing or holds text.
pub open spec fn spec_average(vals: Map<Pos, CellValue>, coords: Seq<Pos>) -> Option<Fixed> {
    if coords.len() > 0 && !has_bad_input(vals, coords) {
        Some(Fixed { raw: (exact_sum(vals, coords, coords.len()) / (coords.len() as int)) as i128 })
    } else {
        None
    }
}

/// The arithmetic mean of the input cells.
#[derive(Clone, Copy, Debug, PartialEq, Eq, Structural)]
pub struct Average {}

impl Average {
    /// One output cell at (0, 0) holding the mean of the inputs; nothing on
    /// no input, or where an input cell is missing or holds text.
    pub fn call(&self, table: &Table, input_selection: &Vec<Pos>) -> (r: Option<CellMap>)
        requires
            table.wf(),
        ensures
            match r {
                Some(m) => m.wf() && m.values_wf() && exists|f: Fixed|
                    spec_average(table.values@, input_selection@) == Some(f)
                        && f.wf()
                        && m@ == map![(0u64, 0u64) => CellValue::Float(f)],
                None => spec_average(table.values@, input_selection@).is_none(),
            },
            input_selection@.len() == 0 ==> r.is_none(),
            has_bad_input(table.values@, input_selection@) ==> r.is_none(),
            input_selection@.len() > 0 && !has_bad_input(table.values@, input_selection@) ==> r.is_some(),
    {
        let ghost vals = table.values@;
        let ghost coords = input_selection@;
        let len = input_selection.len();
        if len == 0 {
            return None;
        }
        let n: i128 = len as i128;
        // The running sum is kept as `q * n + r` with `0 <= r < n`.
        let mut q: i128 = 0;
        let mut r: i128 = 0;
        let mut i: usize = 0;
        while i < len
            invariant
                i <= len,
                len == coords.len(),
                n == len,
                0 < n <= usize::MAX,
                coords == input_selection@,
                vals == table.values@,
                table.wf(),
                forall|j: int| 0 <= j < i ==> vals.contains_key(#[trigger] coords[j]) && !(vals[coords[j]] is Str),
                q * n + r == exact_sum(vals, coords, i as nat),
                0 <= r < n,
                -(i * raw_bound()) <= exact_sum(vals, coords, i as nat) <= i * raw_bound(),
                -raw_bound() <= q <= raw_bound(),
            decreases len - i,
        {
            let key = input_selection[i];
            let v: i128 = match table.get(key.0, key.1) {
                Some(CellValue::Float(x)) => x.raw,
                Some(CellValue::Int(x)) => {
                    assert(-0x2000_0000_0000_0000_0000_0000_0000_0000 <= *x * scale() <= 0x2000_0000_0000_0000_0000_0000_0000_0000) by (nonlinear_arith)
                        requires
                            -0x8000_0000_0000_0000 <= *x <= 0x7FFF_FFFF_FFFF_FFFF,
                            scale() == 0x4000_0000_0000_0000,
                    ;
                    (*x as i128) * 0x4000_0000_0000_0000i128
                },
                _ => {
                    assert(!vals.contains_key(coords[i as int]) || vals[coords[i as int]] is Str);
                    assert(has_bad_input(vals, coords));
                    return None;
                },
            };
            let ghost s = exact_sum(vals, coords, i as nat);
            assert(scaled(vals[coords[i as int]]) == Some(v as int));
            assert(exact_sum(vals, coords, (i + 1) as nat) == s + v);
            assert(-raw_bound() <= v <= raw_bound());
            let t: i128 = r + v;
            let (k, r2): (i128, i128) = if t >= 0 {
                let kk = t / n;
                let rr = t % n;
                proof {
                    vstd::arithmetic::div_mod::lemma_fundamental_div_mod(t as int, n as int);
                }
                assert(t == kk * n + rr) by (nonlinear_arith)
                    requires
                        t == n * kk + rr,
                ;
                (kk, rr)
            } else {
                let m = -t;
                let kk = m / n;
                let rr = m % n;
                proof {
                    vstd::arithmetic::div_mod::lemma_fundamental_div_mod(m as int, n as int);
                }
                if rr == 0 {
                    assert(t == (-kk) * n + 0) by (nonlinear_arith)
                        requires
                            m == n * kk + rr,
                            rr == 0,
                            m == -t,
                    ;
                    (-kk, 0)
                } else {
                    assert(t == (-kk - 1) * n + (n - rr)) by (nonlinear_arith)
                        requires
                            m == n * kk + rr,
                            m == -t,
                    ;
                    (-kk - 1, n - rr)
                }
            };
            assert(t == k * n + r2 && 0 <= r2 < n);
            let ghost s2 = s + v;
            let ghost q2 = q + k;
            assert(q2 * n + r2 == s2) by (nonlinear_arith)
                requires
                    q * n + r == s,
                    t == r + v,
                    t == k * n + r2,
                    q2 == q + k,
                    s2 == s + v,
            ;
            assert(-((i + 1) * raw_bound()) <= s2 <= (i + 1) * raw_bound()) by (nonlinear_arith)
                requires
                    -(i * raw_bound()) <= s <= i * raw_bound(),
                    -raw_bound() <= v <= raw_bound(),
                    s2 == s + v,
            ;
            assert(-raw_bound() <= q2 <= raw_bound()) by (nonlinear_arith)
                requires
                    q2 * n + r2 == s2,
                    0 <= r2 < n,
                    -((i + 1) * raw_bound()) <= s2 <= (i + 1) * raw_bound(),
                    i + 1 <= n,
                    raw_bound() > 0,
            ;
            q = q + k;
            r = r2;
            i = i + 1;
        }
        proof {
            vstd::arithmetic::div_mod::lemma_fundamental_div_mod_converse(
                exact_sum(vals, coords, coords.len()),
                n as int,
                q as int,
                r as int,
            );
            assert(!has_bad_input(vals, coords));
        }
        let f = Fixed { raw: q };
        let mut result = CellMap::new();
        result.insert((0, 0), CellValue::Float(f));
        assert(result@ =~= map![(0u64, 0u64) => CellValue::Float(f)]);
        assert(f.wf());
        assert(result.values_wf());
        Some(result)
    }
}

/// A transform from the table and an ordered list of input cells to a map
/// of output cells in local coordinates.
#[derive(Debug)]
pub enum Function {
    Raw(RawInput),
    Average(Average),
}

impl Function {
    pub open spec fn wf(&self) -> bool {
        match self {
            Function::Raw(f) => f.wf(),
            Function::Average(_) => true,
        }
    }

    pub open spec fn spec_call(&self, vals: Map<Pos, CellValue>, coords: Seq<Pos>) -> Option<Map<Pos, CellValue>> {
        match self {
            Function::Raw(f) => Some(f.values@),
            Function::Average(_) => match spec_average(vals, coords) {
                Some(f) => Some(map![(0u64, 0u64) => CellValue::Float(f)]),
                None => None,
            },
        }
    }

    pub fn call(&self, table: &Table, input_selection: &Vec<Pos>) -> (r: Option<CellMap>)
        requires
            self.wf(),
            table.wf(),
        ensures
            match r {
                Some(m) => m.wf() && m.values_wf() && self.spec_call(table.values@, input_selection@) == Some(m@),
                None => self.spec_call(table.values@, input_selection@).is_none(),
            },
    {
        match self {
            Function::Raw(f) => f.call(table, input_selection),
            Function::Average(f) => f.call(table, input_selection),
        }
    }
}

} // verus!
