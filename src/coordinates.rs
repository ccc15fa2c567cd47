use vstd::prelude::*;
use crate::tables::{OpID, Pos, Region, Table};

verus! {

/// Which axis an ordinate addresses.
#[derive(Clone, Copy, Debug, PartialEq, Eq, Structural)]
pub enum OrdType {
    Row,
    Col,
}

/// The first or last line of a region along one axis.
#[derive(Clone, Copy, Debug, PartialEq, Eq, Structural)]
pub enum Edge {
    First,
    Last,
}

/// An ordinate fixed at construction.
#[derive(Clone, Copy, Debug, PartialEq, Eq, Structural)]
pub struct AbsOrdinate {
    pub val: u64,
}

impl AbsOrdinate {
    pub fn new(val: u64) -> (r: AbsOrdinate)
        ensures
            r.val == val,
    {
        AbsOrdinate { val }
    }

    /// The configured value, whatever the table holds.
    pub fn resolve(&self, _table: &Table) -> (r: u64)
        ensures
            r == self.val,
    {
        self.val
    }
}

/// Resolver of one row or column index.
#[derive(Clone, Copy, Debug, PartialEq, Eq, Structural)]
pub enum Ordinate {
    Abs(AbsOrdinate),
}

impl Ordinate {
    pub open spec fn spec_resolve(self) -> u64 {
        match self {
            Ordinate::Abs(a) => a.val,
        }
    }

    pub fn resolve(&self, table: &Table) -> (r: u64)
        ensures
            r == self.spec_resolve(),
    {
        match self {
            Ordinate::Abs(a) => a.resolve(table),
        }
    }
}

/// One of the four extremal points of a region.
#[derive(Clone, Copy, Debug, PartialEq, Eq, Structural)]
pub enum Corner {
    TopLeft,
    TopRight,
    BotLeft,
    BotRight,
}

/// The corner `c` of region `b`.
pub open spec fn corner_of(b: Region, c: Corner) -> Pos {
    let ((first_row, first_col), (last_row, last_col)) = b;
    match c {
        Corner::TopLeft => (first_row, first_col),
        Corner::TopRight => (first_row, last_col),
        Corner::BotLeft => (last_row, first_col),
        Corner::BotRight => (last_row, last_col),
    }
}

/// A coordinate built from a row ordinate and a column ordinate.
#[derive(Clone, Copy, Debug, PartialEq, Eq, Structural)]
pub struct BaseCoordinate {
    pub row: Ordinate,
    pub col: Ordinate,
}

impl BaseCoordinate {
    /// Both ordinates resolved, whatever the operation registry holds.
    pub fn resolve(&self, table: &Table) -> (r: Option<Pos>)
        ensures
            r == Some((self.row.spec_resolve(), self.col.spec_resolve())),
    {
        Some((self.row.resolve(table), self.col.resolve(table)))
    }
}

/// A corner of the region that an earlier operation wrote to.
#[derive(Clone, Copy, Debug, PartialEq, Eq, Structural)]
pub struct OpCorner {
    pub op_id: OpID,
    pub corner: Corner,
}

impl OpCorner {
    pub open spec fn spec_resolve(self, ops: Map<OpID, Region>) -> Option<Pos> {
        if ops.contains_key(self.op_id) {
            Some(corner_of(ops[self.op_id], self.corner))
        } else {
            None
        }
    }

    /// Absent while `op_id` has no region; else the chosen corner of it.
    pub fn resolve(&self, table: &Table) -> (r: Option<Pos>)
        ensures
            r == self.spec_resolve(table.op_map@),
    {
        match table.region(self.op_id) {
            Some(b) => {
                let ((first_row, first_col), (last_row, last_col)) = b;
                match self.corner {
                    Corner::TopLeft => Some((first_row, first_col)),
                    Corner::TopRight => Some((first_row, last_col)),
                    Corner::BotLeft => Some((last_row, first_col)),
                    Corner::BotRight => Some((last_row, last_col)),
                }
            },
            None => None,
        }
    }
}

/// Another coordinate moved down and right by fixed amounts.
#[derive(Debug)]
pub struct OffsetCoordinate {
    pub internal_coordinate: Box<Coordinate>,
    pub row_offset: u64,
    pub col_offset: u64,
}

/// Resolver of a (row, column) pair, absent while it cannot be resolved.
#[derive(Debug)]
pub enum Coordinate {
    Base(BaseCoordinate),
    Corner(OpCorner),
    Offset(OffsetCoordinate),
}

/// `p` moved by (`dr`, `dc`), absent where a component leaves the `u64` range.
pub open spec fn shift(p: Pos, dr: u64, dc: u64) -> Option<Pos> {
    if p.0 + dr <= u64::MAX && p.1 + dc <= u64::MAX {
        Some(((p.0 + dr) as u64, (p.1 + dc) as u64))
    } else {
        None
    }
}

impl Coordinate {
    pub open spec fn spec_resolve(self, ops: Map<OpID, Region>) -> Option<Pos>
        decreases self,
    {
        match self {
            Coordinate::Base(b) => Some((b.row.spec_resolve(), b.col.spec_resolve())),
            Coordinate::Corner(c) => c.spec_resolve(ops),
            Coordinate::Offset(o) => match o.internal_coordinate.spec_resolve(ops) {
                Some(p) => shift(p, o.row_offset, o.col_offset),
                None => None,
            },
        }
    }

    pub fn resolve(&self, table: &Table) -> (r: Option<Pos>)
        ensures
            r == self.spec_resolve(table.op_map@),
        decreases self,
    {
        match self {
            Coordinate::Base(b) => b.resolve(table),
            Coordinate::Corner(c) => c.resolve(table),
            Coordinate::Offset(o) => o.resolve(table),
        }
    }
}

impl OffsetCoordinate {
    pub open spec fn spec_resolve(self, ops: Map<OpID, Region>) -> Option<Pos> {
        match self.internal_coordinate.spec_resolve(ops) {
            Some(p) => shift(p, self.row_offset, self.col_offset),
            None => None,
        }
    }

    /// The inner coordinate moved by the offsets; absent where the inner one
    /// is, or where a moved component would leave the `u64` range.
    pub fn resolve(&self, table: &Table) -> (r: Option<Pos>)
        ensures
            r == self.spec_resolve(table.op_map@),
        decreases self,
    {
        match self.internal_coordinate.resolve(table) {
            Some((base_x, base_y)) => {
                if base_x <= u64::MAX - self.row_offset && base_y <= u64::MAX - self.col_offset {
                    Some((base_x + self.row_offset, base_y + self.col_offset))
                } else {
                    None
                }
            },
            None => None,
        }
    }
}

} // verus!
