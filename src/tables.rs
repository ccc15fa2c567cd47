use std::collections::HashMap;
use vstd::prelude::*;

verus! {

broadcast use vstd::std_specs::hash::group_hash_axioms;

/// An absolute (row, column) position in the table.
pub type Pos = (u64, u64);

/// A bounding box: top-left corner, then bottom-right corner.
pub type Region = (Pos, Pos);

/// Identifier of an operation.
pub type OpID = u64;

/// Number of fractional binary digits of a `Fixed` value.
pub const FRACTION_BITS: u32 = 62;

/// A real number in binary fixed point: `raw / 2^62`. Well formed values lie
/// within ±2^64, that is `|raw| <= 2^126`. Each value has one representation,
/// so equal numbers compare equal.
#[derive(Clone, Copy, Debug, PartialEq, Eq, Structural)]
pub struct Fixed {
    pub raw: i128,
}

/// `2^62`, the scale of `Fixed`.
pub open spec fn scale() -> int {
    0x4000_0000_0000_0000
}

/// `2^126`, the largest magnitude of a well formed `Fixed::raw`.
pub open spec fn raw_bound() -> int {
    0x4000_0000_0000_0000_0000_0000_0000_0000
}

impl Fixed {
    pub open spec fn wf(self) -> bool {
        -raw_bound() <= self.raw <= raw_bound()
    }
}

/// A typed scalar held by one cell.
#[derive(Debug, PartialEq)]
pub enum CellValue {
    Int(i64),
    Float(Fixed),
    Str(String),
}

impl CellValue {
    pub open spec fn wf(self) -> bool {
        match self {
            CellValue::Float(f) => f.wf(),
            _ => true,
        }
    }

    /// A copy of this value, equal to it.
    pub fn duplicate(&self) -> (r: CellValue)
        ensures
            r == *self,
    {
        match self {
            CellValue::Int(i) => CellValue::Int(*i),
            CellValue::Float(f) => CellValue::Float(*f),
            CellValue::Str(s) => CellValue::Str(s.clone()),
        }
    }
}

/// Does `s` hold an entry for position `k`?
pub open spec fn has_key(s: Seq<(Pos, CellValue)>, k: Pos) -> bool {
    exists|i: int| 0 <= i < s.len() && (#[trigger] s[i]).0 == k
}

/// No position appears twice among the entries.
pub open spec fn keys_unique(s: Seq<(Pos, CellValue)>) -> bool {
    forall|i: int, j: int|
        0 <= i < s.len() && 0 <= j < s.len() && i != j ==> (#[trigger] s[i]).0 != (#[trigger] s[j]).0
}

/// The mapping that a list of entries with distinct positions stands for.
pub open spec fn map_of(s: Seq<(Pos, CellValue)>) -> Map<Pos, CellValue> {
    Map::new(
        |k: Pos| has_key(s, k),
        |k: Pos| s[choose|i: int| 0 <= i < s.len() && (#[trigger] s[i]).0 == k].1,
    )
}

/// A finite mapping from positions to cell values, kept as a list of entries
/// with distinct positions. (vstd models `HashMap` lookups for integer keys
/// only, not for pairs of them, so positions are not hashed.)
#[derive(Debug)]
pub struct CellMap {
    pub entries: Vec<(Pos, CellValue)>,
}

impl View for CellMap {
    type V = Map<Pos, CellValue>;

    open spec fn view(&self) -> Map<Pos, CellValue> {
        map_of(self.entries@)
    }
}

/// The value at `s[i].0` is `s[i].1`.
pub proof fn lemma_map_of_index(s: Seq<(Pos, CellValue)>, i: int)
    requires
        keys_unique(s),
        0 <= i < s.len(),
    ensures
        map_of(s).contains_key(s[i].0),
        map_of(s)[s[i].0] == s[i].1,
{
    assert(has_key(s, s[i].0));
}

impl CellMap {
    pub open spec fn wf(&self) -> bool {
        keys_unique(self.entries@)
    }

    /// Every value held is well formed.
    pub open spec fn values_wf(&self) -> bool {
        forall|k: Pos| #[trigger] self@.contains_key(k) ==> self@[k].wf()
    }

    /// An empty mapping.
    pub fn new() -> (r: CellMap)
        ensures
            r.wf(),
            r@ == Map::<Pos, CellValue>::empty(),
    {
        let r = CellMap { entries: Vec::new() };
        assert(r@ =~= Map::<Pos, CellValue>::empty());
        r
    }

    /// Number of positions held.
    pub fn len(&self) -> (r: usize)
        requires
            self.wf(),
        ensures
            r == self.entries@.len(),
    {
        self.entries.len()
    }

    /// Index of the entry for `k`, if there is one.
    fn find(&self, k: Pos) -> (r: Option<usize>)
        requires
            self.wf(),
        ensures
            match r {
                Some(i) => i < self.entries@.len() && self.entries@[i as int].0 == k,
                None => !has_key(self.entries@, k),
            },
    {
        let mut i: usize = 0;
        while i < self.entries.len()
            invariant
                i <= self.entries@.len(),
                forall|j: int| 0 <= j < i ==> (#[trigger] self.entries@[j]).0 != k,
            decreases self.entries@.len() - i,
        {
            let e = self.entries[i].0;
            if e.0 == k.0 && e.1 == k.1 {
                return Some(i);
            }
            i = i + 1;
        }
        None
    }

    /// The value at `k`.
    pub fn get(&self, k: Pos) -> (r: Option<&CellValue>)
        requires
            self.wf(),
        ensures
            match r {
                Some(v) => self@.contains_key(k) && *v == self@[k],
                None => !self@.contains_key(k),
            },
    {
        match self.find(k) {
            Some(i) => {
                proof {
                    lemma_map_of_index(self.entries@, i as int);
                }
                Some(&self.entries[i].1)
            },
            None => None,
        }
    }

    /// A copy holding the same entries.
    pub fn duplicate(&self) -> (r: CellMap)
        requires
            self.wf(),
        ensures
            r.wf(),
            r.entries@ == self.entries@,
            r@ == self@,
    {
        let mut entries: Vec<(Pos, CellValue)> = Vec::new();
        let mut i: usize = 0;
        while i < self.entries.len()
            invariant
                i <= self.entries@.len(),
                entries@ == self.entries@.subrange(0, i as int),
            decreases self.entries@.len() - i,
        {
            let e = &self.entries[i];
            entries.push((e.0, e.1.duplicate()));
            assert(entries@ =~= self.entries@.subrange(0, i + 1));
            i = i + 1;
        }
        assert(entries@ =~= self.entries@);
        CellMap { entries }
    }

    /// Sets the value at `k`, replacing any earlier one.
    pub fn insert(&mut self, k: Pos, v: CellValue)
        requires
            old(self).wf(),
        ensures
            final(self).wf(),
            final(self)@ == old(self)@.insert(k, v),
    {
        let ghost s0 = self.entries@;
        match self.find(k) {
            Some(i) => {
                self.entries.set(i, (k, v));
                let ghost s1 = self.entries@;
                assert(s1 == s0.update(i as int, (k, v)));
                assert(keys_unique(s1));
                assert forall|q: Pos| #[trigger] has_key(s1, q) == has_key(s0, q) by {
                    if has_key(s0, q) {
                        let j = choose|j: int| 0 <= j < s0.len() && (#[trigger] s0[j]).0 == q;
                        assert(s1[j].0 == q);
                    }
                    if has_key(s1, q) {
                        let j = choose|j: int| 0 <= j < s1.len() && (#[trigger] s1[j]).0 == q;
                        assert(s0[j].0 == q);
                    }
                }
                assert forall|q: Pos| has_key(s1, q) implies map_of(s1)[q] == map_of(s0).insert(k, v)[q] by {
                    let j = choose|j: int| 0 <= j < s1.len() && (#[trigger] s1[j]).0 == q;
                    lemma_map_of_index(s1, j);
                    lemma_map_of_index(s0, j);
                }
                assert(map_of(s1) =~= map_of(s0).insert(k, v));
            },
            None => {
                self.entries.push((k, v));
                let ghost s1 = self.entries@;
                assert(s1 == s0.push((k, v)));
                assert(keys_unique(s1));
                assert forall|q: Pos| #[trigger] has_key(s1, q) == (has_key(s0, q) || q == k) by {
                    if has_key(s0, q) {
                        let j = choose|j: int| 0 <= j < s0.len() && (#[trigger] s0[j]).0 == q;
                        assert(s1[j].0 == q);
                    }
                    if has_key(s1, q) {
                        let j = choose|j: int| 0 <= j < s1.len() && (#[trigger] s1[j]).0 == q;
                        if j < s0.len() {
                            assert(s0[j].0 == q);
                        }
                    }
                    if q == k {
                        assert(s1[s0.len() as int].0 == q);
                    }
                }
                assert forall|q: Pos| has_key(s1, q) implies map_of(s1)[q] == map_of(s0).insert(k, v)[q] by {
                    let j = choose|j: int| 0 <= j < s1.len() && (#[trigger] s1[j]).0 == q;
                    lemma_map_of_index(s1, j);
                    if j < s0.len() {
                        lemma_map_of_index(s0, j);
                    }
                }
                assert(map_of(s1) =~= map_of(s0).insert(k, v));
            },
        }
    }
}

/// The shared state of a run: cell values, and the region that each applied
/// operation wrote to.
#[derive(Debug)]
pub struct Table {
    pub values: CellMap,
    pub op_map: HashMap<OpID, Region>,
}

impl Table {
    pub open spec fn wf(&self) -> bool {
        self.values.wf() && self.values.values_wf()
    }

    /// An empty table with no registered operations.
    pub fn new() -> (r: Table)
        ensures
            r.wf(),
            r.values@ == Map::<Pos, CellValue>::empty(),
            r.op_map@ == Map::<OpID, Region>::empty(),
    {
        Table { values: CellMap::new(), op_map: HashMap::new() }
    }

    /// The value at (`row`, `col`), if the cell is set.
    pub fn get(&self, row: u64, col: u64) -> (r: Option<&CellValue>)
        requires
            self.wf(),
        ensures
            match r {
                Some(v) => self.values@.contains_key((row, col)) && *v == self.values@[(row, col)],
                None => !self.values@.contains_key((row, col)),
            },
    {
        self.values.get((row, col))
    }

    /// The region registered for operation `id`, if any.
    pub fn region(&self, id: OpID) -> (r: Option<Region>)
        ensures
            match r {
                Some(b) => self.op_map@.contains_key(id) && b == self.op_map@[id],
                None => !self.op_map@.contains_key(id),
            },
    {
        match self.op_map.get(&id) {
            Some(b) => Some(*b),
            None => None,
        }
    }
}

} // verus!
