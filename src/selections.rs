use vstd::prelude::*;
use crate::coordinates::Coordinate;
use crate::tables::{OpID, Pos, Region, Table};

verus! {

/// The cells (`row`, `c1`), (`row`, `c1 + 1`), ..., `w` of them.
pub open spec fn row_cells(row: u64, c1: u64, w: nat) -> Seq<Pos> {
    Seq::new(w, |j: int| (row, (c1 + j) as u64))
}

/// `k` rows of `w` cells each, starting at (`r1`, `c1`), in row-major order.
pub open spec fn box_rows(r1: u64, k: nat, c1: u64, w: nat) -> Seq<Pos>
    decreases k,
{
    if k == 0 {
        Seq::empty()
    } else {
        box_rows(r1, (k - 1) as nat, c1, w) + row_cells((r1 + k - 1) as u64, c1, w)
    }
}

/// The cells of the box from `ul` to `lr`, both included, rows ascending and
/// columns ascending within a row; empty where `lr` lies above or left of `ul`.
pub open spec fn box_cells(ul: Pos, lr: Pos) -> Seq<Pos> {
    if ul.0 > lr.0 || ul.1 > lr.1 {
        Seq::empty()
    } else {
        box_rows(ul.0, (lr.0 - ul.0 + 1) as nat, ul.1, (lr.1 - ul.1 + 1) as nat)
    }
}

/// Selects nothing.
#[derive(Clone, Copy, Debug, PartialEq, Eq, Structural)]
pub struct EmptySelection {}

impl EmptySelection {
    pub fn select(&self, _table: &Table) -> (r: Option<Vec<Pos>>)
        ensures
            r.is_some() && r.unwrap()@ == Seq::<Pos>::empty(),
    {
        Some(Vec::new())
    }
}

/// Selects every cell of the box spanned by two coordinates.
#[derive(Debug)]
pub struct BoxSelection {
    pub upper_left: Coordinate,
    pub bottom_right: Coordinate,
}

/// Lists the cells of the box from `ul` to `lr`.
pub fn box_positions(ul: Pos, lr: Pos) -> (r: Vec<Pos>)
    ensures
        r@ == box_cells(ul, lr),
{
    let mut result: Vec<Pos> = Vec::new();
    if ul.0 > lr.0 || ul.1 > lr.1 {
        return result;
    }
    let ghost w = (lr.1 - ul.1 + 1) as nat;
    let mut row: u64 = ul.0;
    loop
        invariant_except_break
            result@ == box_rows(ul.0, (row - ul.0) as nat, ul.1, w),
        invariant
            ul.0 <= row <= lr.0,
            ul.1 <= lr.1,
            w == (lr.1 - ul.1 + 1) as nat,
        ensures
            result@ == box_rows(ul.0, (lr.0 - ul.0 + 1) as nat, ul.1, w),
        decreases lr.0 - row,
    {
        let ghost before = result@;
        let mut col: u64 = ul.1;
        loop
            invariant_except_break
                result@ == before + Seq::new((col - ul.1) as nat, |j: int| (row, (ul.1 + j) as u64)),
            invariant
                ul.1 <= col <= lr.1,
                ul.0 <= row <= lr.0,
                w == (lr.1 - ul.1 + 1) as nat,
            ensures
                result@ == before + row_cells(row, ul.1, w),
            decreases lr.1 - col,
        {
            result.push((row, col));
            assert(result@ =~= before + Seq::new((col + 1 - ul.1) as nat, |j: int| (row, (ul.1 + j) as u64)));
            if col == lr.1 {
                assert(result@ =~= before + row_cells(row, ul.1, w));
                break;
            }
            col = col + 1;
        }
        assert(result@ =~= box_rows(ul.0, (row + 1 - ul.0) as nat, ul.1, w));
        if row == lr.0 {
            break;
        }
        row = row + 1;
    }
    result
}

impl BoxSelection {
    pub open spec fn spec_select(self, ops: Map<OpID, Region>) -> Option<Seq<Pos>> {
        match (self.upper_left.spec_resolve(ops), self.bottom_right.spec_resolve(ops)) {
            (Some(ul), Some(lr)) => Some(box_cells(ul, lr)),
            _ => None,
        }
    }

    /// Absent where either corner is; else the cells of the box in row-major
    /// order, none where the box is degenerate.
    pub fn select(&self, table: &Table) -> (r: Option<Vec<Pos>>)
        ensures
            match r {
                Some(v) => self.spec_select(table.op_map@) == Some(v@),
                None => self.spec_select(table.op_map@).is_none(),
            },
    {
        let upper_left = self.upper_left.resolve(table);
        let lower_right = self.bottom_right.resolve(table);
        match (upper_left, lower_right) {
            (Some(ul), Some(lr)) => Some(box_positions(ul, lr)),
            _ => None,
        }
    }
}

/// Resolver of the ordered list of cells an operation reads.
#[derive(Debug)]
pub enum Select {
    Empty(EmptySelection),
    Box(BoxSelection),
}

impl Select {
    pub open spec fn spec_select(self, ops: Map<OpID, Region>) -> Option<Seq<Pos>> {
        match self {
            Select::Empty(_) => Some(Seq::empty()),
            Select::Box(b) => b.spec_select(ops),
        }
    }

    pub fn select(&self, table: &Table) -> (r: Option<Vec<Pos>>)
        ensures
            match r {
                Some(v) => self.spec_select(table.op_map@) == Some(v@),
                None => self.spec_select(table.op_map@).is_none(),
            },
    {
        match self {
            Select::Empty(e) => e.select(table),
            Select::Box(b) => b.select(table),
        }
    }
}

} // verus!
