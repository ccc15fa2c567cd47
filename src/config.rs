use vstd::prelude::*;
use crate::coordinates::{AbsOrdinate, BaseCoordinate, Coordinate, Corner, OffsetCoordinate, OpCorner, Ordinate};
use crate::functions::{Average, Function, RawInput, grid_map};
use crate::operations::OpSpec;
use crate::selections::{BoxSelection, EmptySelection, Select};
use crate::tables::{CellValue, Fixed, scale};

verus! {

/// A generic configuration value: what a parsed configuration document
/// consists of.
#[derive(Debug)]
pub enum Node {
    Null,
    Bool(bool),
    /// A non-negative integer.
    PosInt(u64),
    /// A negative integer.
    NegInt(i64),
    /// A number with a fractional part, in fixed point.
    Real(Fixed),
    Text(String),
    List(Vec<Node>),
    Dict(Vec<(String, Node)>),
}

/// A descriptor is missing a field, holds a field of the wrong kind, or names
/// an unknown variant.
#[derive(Clone, Copy, Debug, PartialEq, Eq, Structural)]
pub enum ConfigError {
    Invalid,
}

/// The value of the first entry named `key`.
pub open spec fn entry_of(entries: Seq<(String, Node)>, key: Seq<char>) -> Option<Node>
    decreases entries.len(),
{
    if entries.len() == 0 {
        None
    } else if entries[0].0@ == key {
        Some(entries[0].1)
    } else {
        entry_of(entries.drop_first(), key)
    }
}

/// The field `key` of a mapping node; absent for other nodes.
pub open spec fn field(n: Node, key: Seq<char>) -> Option<Node> {
    match n {
        Node::Dict(v) => entry_of(v@, key),
        _ => None,
    }
}

/// The field `key` as a non-negative integer.
pub open spec fn u64_field(n: Node, key: Seq<char>) -> Option<u64> {
    match field(n, key) {
        Some(Node::PosInt(u)) => Some(u),
        _ => None,
    }
}

/// The field `key` as text.
pub open spec fn text_field(n: Node, key: Seq<char>) -> Option<Seq<char>> {
    match field(n, key) {
        Some(Node::Text(s)) => Some(s@),
        _ => None,
    }
}

/// The entry named `key` in a mapping node.
pub fn lookup<'a>(n: &'a Node, key: &str) -> (r: Option<&'a Node>)
    ensures
        match r {
            Some(x) => field(*n, key@) == Some(*x),
            None => field(*n, key@).is_none(),
        },
{
    match n {
        Node::Dict(v) => {
            let mut i: usize = 0;
            assert(v@.subrange(0, v@.len() as int) =~= v@);
            while i < v.len()
                invariant
                    i <= v@.len(),
                    *n == Node::Dict(*v),
                    entry_of(v@, key@) == entry_of(v@.subrange(i as int, v@.len() as int), key@),
                decreases v@.len() - i,
            {
                let ghost rest = v@.subrange(i as int, v@.len() as int);
                assert(rest[0] == v@[i as int]);
                assert(rest.drop_first() =~= v@.subrange(i + 1, v@.len() as int));
                let k = key.to_owned();
                if v[i].0 == k {
                    assert(v@[i as int].0@ == key@);
                    assert(entry_of(rest, key@) == Some(rest[0].1));
                    return Some(&v[i].1);
                }
                i = i + 1;
            }
            None
        },
        _ => None,
    }
}

/// The field `key` as a non-negative integer.
pub fn get_u64(n: &Node, key: &str) -> (r: Option<u64>)
    ensures
        r == u64_field(*n, key@),
{
    match lookup(n, key) {
        Some(Node::PosInt(u)) => Some(*u),
        _ => None,
    }
}

/// The field `key` as text.
pub fn get_text<'a>(n: &'a Node, key: &str) -> (r: Option<&'a String>)
    ensures
        match r {
            Some(s) => text_field(*n, key@) == Some(s@),
            None => text_field(*n, key@).is_none(),
        },
{
    match lookup(n, key) {
        Some(Node::Text(s)) => Some(s),
        _ => None,
    }
}

/// `s` reads exactly `lit`.
pub fn text_is(s: &String, lit: &str) -> (r: bool)
    ensures
        r == (s@ == lit@),
{
    let l = lit.to_owned();
    *s == l
}

/// The type tags of the variant families are distinct.
pub proof fn lemma_tags_distinct()
    ensures
        "BaseCoordinate"@ != "OffsetCoordinate"@,
        "BaseCoordinate"@ != "OpCorner"@,
        "OffsetCoordinate"@ != "OpCorner"@,
        "RawInput"@ != "Average"@,
{
    reveal_strlit("BaseCoordinate");
    reveal_strlit("OffsetCoordinate");
    reveal_strlit("OpCorner");
    reveal_strlit("RawInput");
    reveal_strlit("Average");
    assert("BaseCoordinate"@.len() == 14);
    assert("OffsetCoordinate"@.len() == 16);
    assert("OpCorner"@.len() == 8);
    assert("RawInput"@.len() == 8);
    assert("Average"@.len() == 7);
}

/// `n` describes the ordinate `o`.
pub open spec fn ordinate_of(n: Node, o: Ordinate) -> bool {
    match o {
        Ordinate::Abs(a) => text_field(n, "type"@) == Some("AbsOrdinate"@) && u64_field(n, "val"@) == Some(a.val),
    }
}

/// Builds the ordinate that `config` describes.
pub fn ordinate_factory(config: &Node) -> (r: Result<Ordinate, ConfigError>)
    ensures
        match r {
            Ok(o) => ordinate_of(*config, o),
            Err(_) => forall|o: Ordinate| !ordinate_of(*config, o),
        },
{
    let is_abs = match get_text(config, "type") {
        Some(t) => text_is(t, "AbsOrdinate"),
        None => false,
    };
    if !is_abs {
        return Err(ConfigError::Invalid);
    }
    match get_u64(config, "val") {
        Some(val) => Ok(Ordinate::Abs(AbsOrdinate::new(val))),
        None => Err(ConfigError::Invalid),
    }
}

/// The corner that `name` stands for.
pub open spec fn corner_named(name: Seq<char>) -> Option<Corner> {
    if name == "TopRight"@ {
        Some(Corner::TopRight)
    } else if name == "TopLeft"@ {
        Some(Corner::TopLeft)
    } else if name == "BotRight"@ {
        Some(Corner::BotRight)
    } else if name == "BotLeft"@ {
        Some(Corner::BotLeft)
    } else {
        None
    }
}

/// `n` gives the fields of the operation corner `c`.
pub open spec fn op_corner_of(n: Node, c: OpCorner) -> bool {
    &&& u64_field(n, "op_id"@) == Some(c.op_id)
    &&& text_field(n, "corner"@) matches Some(t)
    &&& corner_named(t) == Some(c.corner)
}

impl OpCorner {
    /// Builds the operation corner whose fields `config` gives.
    pub fn from_config(config: &Node) -> (r: Result<OpCorner, ConfigError>)
        ensures
            match r {
                Ok(c) => op_corner_of(*config, c),
                Err(_) => forall|c: OpCorner| !op_corner_of(*config, c),
            },
    {
        let op_id = match get_u64(config, "op_id") {
            Some(v) => v,
            None => {
                return Err(ConfigError::Invalid);
            },
        };
        let name = match get_text(config, "corner") {
            Some(t) => t,
            None => {
                return Err(ConfigError::Invalid);
            },
        };
        let corner = if text_is(name, "TopRight") {
            Corner::TopRight
        } else if text_is(name, "TopLeft") {
            Corner::TopLeft
        } else if text_is(name, "BotRight") {
            Corner::BotRight
        } else if text_is(name, "BotLeft") {
            Corner::BotLeft
        } else {
            return Err(ConfigError::Invalid);
        };
        Ok(OpCorner { op_id, corner })
    }
}

/// `n` describes the coordinate `c`.
pub open spec fn coordinate_of(n: Node, c: Coordinate) -> bool
    decreases c,
{
    match c {
        Coordinate::Base(b) => {
            &&& text_field(n, "type"@) == Some("BaseCoordinate"@)
            &&& field(n, "row"@) matches Some(r)
            &&& ordinate_of(r, b.row)
            &&& field(n, "col"@) matches Some(k)
            &&& ordinate_of(k, b.col)
        },
        Coordinate::Corner(oc) => text_field(n, "type"@) == Some("OpCorner"@) && op_corner_of(n, oc),
        Coordinate::Offset(o) => {
            &&& text_field(n, "type"@) == Some("OffsetCoordinate"@)
            &&& u64_field(n, "row_offset"@) == Some(o.row_offset)
            &&& u64_field(n, "col_offset"@) == Some(o.col_offset)
            &&& field(n, "internal_coordinate"@) matches Some(i)
            &&& coordinate_of(i, *o.internal_coordinate)
        },
    }
}

/// `n` gives the fields of the offset coordinate `o`.
pub open spec fn offset_of(n: Node, o: OffsetCoordinate) -> bool {
    &&& u64_field(n, "row_offset"@) == Some(o.row_offset)
    &&& u64_field(n, "col_offset"@) == Some(o.col_offset)
    &&& field(n, "internal_coordinate"@) matches Some(i)
    &&& coordinate_of(i, *o.internal_coordinate)
}

impl OffsetCoordinate {
    /// Builds the offset coordinate whose fields `config` gives.
    pub fn from_config(config: &Node) -> (r: Result<OffsetCoordinate, ConfigError>)
        ensures
            match r {
                Ok(o) => offset_of(*config, o),
                Err(_) => forall|o: OffsetCoordinate| !offset_of(*config, o),
            },
        decreases config, 0int,
    {
        let row_offset = match get_u64(config, "row_offset") {
            Some(v) => v,
            None => {
                return Err(ConfigError::Invalid);
            },
        };
        let col_offset = match get_u64(config, "col_offset") {
            Some(v) => v,
            None => {
                return Err(ConfigError::Invalid);
            },
        };
        let inner = match lookup(config, "internal_coordinate") {
            Some(i) => i,
            None => {
                return Err(ConfigError::Invalid);
            },
        };
        proof {
            lemma_field_decreases(*config, "internal_coordinate"@);
        }
        match coordinate_factory(inner) {
            Ok(c) => Ok(OffsetCoordinate { internal_coordinate: Box::new(c), row_offset, col_offset }),
            Err(e) => Err(e),
        }
    }
}

/// A field of a node is smaller than the node.
pub proof fn lemma_field_decreases(n: Node, key: Seq<char>)
    ensures
        field(n, key) matches Some(x) ==> decreases_to!(n => x),
{
    if let Node::Dict(v) = n {
        lemma_entry_decreases(v@, key);
        if let Some(x) = entry_of(v@, key) {
            let i = choose|i: int| 0 <= i < v@.len() && v@[i].1 == x;
            vstd::std_specs::vec::axiom_vec_index_decreases(v, i);
        }
    }
}

/// The entry found is one of the entries.
pub proof fn lemma_entry_decreases(entries: Seq<(String, Node)>, key: Seq<char>)
    ensures
        entry_of(entries, key) matches Some(x) ==> exists|i: int| 0 <= i < entries.len() && entries[i].1 == x,
    decreases entries.len(),
{
    if entries.len() > 0 && entries[0].0@ != key {
        lemma_entry_decreases(entries.drop_first(), key);
        if let Some(x) = entry_of(entries, key) {
            let i = choose|i: int| 0 <= i < entries.drop_first().len() && entries.drop_first()[i].1 == x;
            assert(entries[i + 1].1 == x);
        }
    }
}

/// Builds the coordinate that `config` describes.
pub fn coordinate_factory(config: &Node) -> (r: Result<Coordinate, ConfigError>)
    ensures
        match r {
            Ok(c) => coordinate_of(*config, c),
            Err(_) => forall|c: Coordinate| !coordinate_of(*config, c),
        },
    decreases config, 1int,
{
    proof {
        lemma_tags_distinct();
    }
    let kind = match get_text(config, "type") {
        Some(t) => t,
        None => {
            return Err(ConfigError::Invalid);
        },
    };
    if text_is(kind, "BaseCoordinate") {
        let row = match lookup(config, "row") {
            Some(n) => ordinate_factory(n),
            None => Err(ConfigError::Invalid),
        };
        let col = match lookup(config, "col") {
            Some(n) => ordinate_factory(n),
            None => Err(ConfigError::Invalid),
        };
        match (row, col) {
            (Ok(row), Ok(col)) => Ok(Coordinate::Base(BaseCoordinate { row, col })),
            _ => Err(ConfigError::Invalid),
        }
    } else if text_is(kind, "OffsetCoordinate") {
        match OffsetCoordinate::from_config(config) {
            Ok(o) => {
                assert(text_field(*config, "type"@) == Some("OffsetCoordinate"@));
                assert(offset_of(*config, o));
                let c = Coordinate::Offset(o);
                assert(coordinate_of(*config, c));
                Ok(c)
            },
            Err(e) => {
                assert(text_field(*config, "type"@) == Some("OffsetCoordinate"@));
                assert forall|c: Coordinate| !coordinate_of(*config, c) by {
                    if let Coordinate::Offset(o) = c {
                        assert(!offset_of(*config, o));
                    }
                }
                Err(e)
            },
        }
    } else if text_is(kind, "OpCorner") {
        match OpCorner::from_config(config) {
            Ok(c) => Ok(Coordinate::Corner(c)),
            Err(e) => Err(e),
        }
    } else {
        Err(ConfigError::Invalid)
    }
}

/// `n` describes the selection `s`.
pub open spec fn selection_of(n: Node, s: Select) -> bool {
    match s {
        Select::Box(b) => {
            &&& text_field(n, "type"@) == Some("BoxSelection"@)
            &&& field(n, "upper_left"@) matches Some(u)
            &&& coordinate_of(u, b.upper_left)
            &&& field(n, "lower_right"@) matches Some(l)
            &&& coordinate_of(l, b.bottom_right)
        },
        Select::Empty(_) => false,
    }
}

/// Builds the selection that `config` describes.
pub fn selection_factory(config: &Node) -> (r: Result<Select, ConfigError>)
    ensures
        match r {
            Ok(s) => selection_of(*config, s),
            Err(_) => forall|s: Select| !selection_of(*config, s),
        },
{
    let is_box = match get_text(config, "type") {
        Some(t) => text_is(t, "BoxSelection"),
        None => false,
    };
    if !is_box {
        return Err(ConfigError::Invalid);
    }
    let upper_left = match lookup(config, "upper_left") {
        Some(n) => coordinate_factory(n),
        None => Err(ConfigError::Invalid),
    };
    let lower_right = match lookup(config, "lower_right") {
        Some(n) => coordinate_factory(n),
        None => Err(ConfigError::Invalid),
    };
    match (upper_left, lower_right) {
        (Ok(upper_left), Ok(bottom_right)) => Ok(Select::Box(BoxSelection { upper_left, bottom_right })),
        _ => Err(ConfigError::Invalid),
    }
}

/// The items of a list node; none for other nodes.
pub open spec fn items(n: Node) -> Seq<Node> {
    match n {
        Node::List(v) => v@,
        _ => Seq::empty(),
    }
}

/// The cell value that a literal node stands for: text as text, an integer
/// as an integer where it fits an `i64` and in fixed point otherwise, a
/// well formed fixed-point real as itself.
pub open spec fn cell_of(n: Node) -> Option<CellValue> {
    match n {
        Node::Text(s) => Some(CellValue::Str(s)),
        Node::PosInt(u) => if u <= i64::MAX {
            Some(CellValue::Int(u as i64))
        } else {
            Some(CellValue::Float(Fixed { raw: (u * scale()) as i128 }))
        },
        Node::NegInt(i) => Some(CellValue::Int(i)),
        Node::Real(f) => if f.wf() {
            Some(CellValue::Float(f))
        } else {
            None
        },
        _ => None,
    }
}

/// `n` is a list of lists of literal values.
pub open spec fn grid_ok(n: Node) -> bool {
    &&& n is List
    &&& forall|i: int| 0 <= i < items(n).len() ==> (#[trigger] items(n)[i]) is List
    &&& forall|i: int, j: int|
        0 <= i < items(n).len() && 0 <= j < items(items(n)[i]).len() ==> (#[trigger] cell_of(items(items(n)[i])[j])) is Some
}

/// The values of one row of literals.
pub open spec fn row_values(r: Node) -> Seq<CellValue> {
    items(r).map_values(|c: Node| cell_of(c).unwrap())
}

/// The rows of values that a list of lists of literals stands for.
pub open spec fn grid_of(n: Node) -> Seq<Seq<CellValue>> {
    items(n).map_values(|r: Node| row_values(r))
}

/// The cell value of a literal node.
fn cell_from(n: &Node) -> (r: Option<CellValue>)
    ensures
        r == cell_of(*n),
{
    match n {
        Node::Text(s) => Some(CellValue::Str(s.clone())),
        Node::PosInt(u) => if *u <= i64::MAX as u64 {
            Some(CellValue::Int(*u as i64))
        } else {
            assert(*u * scale() <= 0xFFFF_FFFF_FFFF_FFFF * 0x4000_0000_0000_0000) by (nonlinear_arith)
                requires
                    *u <= 0xFFFF_FFFF_FFFF_FFFF,
                    scale() == 0x4000_0000_0000_0000,
            ;
            Some(CellValue::Float(Fixed { raw: (*u as i128) * 0x4000_0000_0000_0000i128 }))
        },
        Node::NegInt(i) => Some(CellValue::Int(*i)),
        Node::Real(f) => if -0x4000_0000_0000_0000_0000_0000_0000_0000i128 <= f.raw && f.raw <= 0x4000_0000_0000_0000_0000_0000_0000_0000i128 {
            Some(CellValue::Float(*f))
        } else {
            None
        },
        _ => None,
    }
}

/// The values of one row node, if it is a list of literals.
fn row_from(r: &Node) -> (res: Option<Vec<CellValue>>)
    ensures
        match res {
            Some(v) => r is List && (forall|j: int| 0 <= j < items(*r).len() ==> (#[trigger] cell_of(items(*r)[j])) is Some)
                && v@ == row_values(*r)
                && forall|j: int| 0 <= j < v@.len() ==> (#[trigger] v@[j]).wf(),
            None => !(r is List) || exists|j: int| 0 <= j < items(*r).len() && (#[trigger] cell_of(items(*r)[j])) is None,
        },
{
    match r {
        Node::List(cells) => {
            let mut out: Vec<CellValue> = Vec::new();
            let mut j: usize = 0;
            while j < cells.len()
                invariant
                    j <= cells@.len(),
                    *r == Node::List(*cells),
                    out@ == row_values(*r).take(j as int),
                    forall|q: int| 0 <= q < j ==> (#[trigger] cell_of(cells@[q])) is Some,
                    forall|q: int| 0 <= q < out@.len() ==> (#[trigger] out@[q]).wf(),
                decreases cells@.len() - j,
            {
                match cell_from(&cells[j]) {
                    Some(c) => {
                        out.push(c);
                        assert(out@ =~= row_values(*r).take(j + 1));
                    },
                    None => {
                        assert(cell_of(items(*r)[j as int]) is None);
                        return None;
                    },
                }
                j = j + 1;
            }
            assert(out@ =~= row_values(*r));
            Some(out)
        },
        _ => None,
    }
}

impl RawInput {
    /// The literal grid that `data`, a list of rows of literals, gives.
    pub fn from_mapping(data: &Node) -> (r: Result<RawInput, ConfigError>)
        ensures
            match r {
                Ok(f) => grid_ok(*data) && f.wf() && f.values@ == grid_map(grid_of(*data)),
                Err(_) => !grid_ok(*data),
            },
    {
        let rows_in = match data {
            Node::List(v) => v,
            _ => {
                return Err(ConfigError::Invalid);
            },
        };
        let mut rows: Vec<Vec<CellValue>> = Vec::new();
        let mut i: usize = 0;
        while i < rows_in.len()
            invariant
                i <= rows_in@.len(),
                *data == Node::List(*rows_in),
                rows@.len() == i,
                forall|q: int| 0 <= q < i ==> (#[trigger] rows@[q])@ == grid_of(*data)[q],
                forall|q: int| 0 <= q < i ==> (#[trigger] items(*data)[q]) is List,
                forall|q: int, j: int|
                    0 <= q < i && 0 <= j < items(items(*data)[q]).len() ==> (#[trigger] cell_of(items(items(*data)[q])[j])) is Some,
                forall|q: int, j: int| 0 <= q < i && 0 <= j < rows@[q]@.len() ==> (#[trigger] rows@[q]@[j]).wf(),
            decreases rows_in@.len() - i,
        {
            match row_from(&rows_in[i]) {
                Some(row) => {
                    rows.push(row);
                },
                None => {
                    assert(!grid_ok(*data));
                    return Err(ConfigError::Invalid);
                },
            }
            i = i + 1;
        }
        let f = RawInput::from_rows(&rows);
        assert(rows@.map_values(|row: Vec<CellValue>| row@) =~= grid_of(*data));
        Ok(f)
    }
}

/// `n` describes the function `f`.
pub open spec fn function_of(n: Node, f: Function) -> bool {
    match f {
        Function::Raw(raw) => {
            &&& text_field(n, "type"@) == Some("RawInput"@)
            &&& field(n, "values"@) matches Some(v)
            &&& grid_ok(v)
            &&& raw.wf()
            &&& raw.values@ == grid_map(grid_of(v))
        },
        Function::Average(_) => text_field(n, "type"@) == Some("Average"@),
    }
}

/// Builds the function that `config` describes.
pub fn function_factory(config: &Node) -> (r: Result<Function, ConfigError>)
    ensures
        match r {
            Ok(f) => function_of(*config, f) && f.wf(),
            Err(_) => forall|f: Function| !function_of(*config, f),
        },
{
    proof {
        lemma_tags_distinct();
    }
    let kind = match get_text(config, "type") {
        Some(t) => t,
        None => {
            return Err(ConfigError::Invalid);
        },
    };
    if text_is(kind, "RawInput") {
        match lookup(config, "values") {
            Some(v) => match RawInput::from_mapping(v) {
                Ok(raw) => Ok(Function::Raw(raw)),
                Err(e) => Err(e),
            },
            None => Err(ConfigError::Invalid),
        }
    } else if text_is(kind, "Average") {
        Ok(Function::Average(Average {}))
    } else {
        Err(ConfigError::Invalid)
    }
}

/// `n` describes the operation `op`; a missing input selection stands for
/// the empty one.
pub open spec fn operation_of(n: Node, op: OpSpec) -> bool {
    &&& u64_field(n, "id"@) == Some(op.id)
    &&& match field(n, "input_selection"@) {
        None => op.input_selection is Empty,
        Some(s) => selection_of(s, op.input_selection),
    }
    &&& field(n, "function"@) matches Some(f)
    &&& function_of(f, op.function)
    &&& field(n, "output_anchor"@) matches Some(a)
    &&& coordinate_of(a, op.output_anchor)
}

/// Builds the operation that `config` describes.
pub fn operation_factory(config: &Node) -> (r: Result<OpSpec, ConfigError>)
    ensures
        match r {
            Ok(op) => operation_of(*config, op) && op.function.wf(),
            Err(_) => forall|op: OpSpec| !operation_of(*config, op),
        },
{
    let input_selection = match lookup(config, "input_selection") {
        Some(n) => match selection_factory(n) {
            Ok(s) => s,
            Err(e) => {
                return Err(e);
            },
        },
        None => Select::Empty(EmptySelection {}),
    };
    let function = match lookup(config, "function") {
        Some(n) => match function_factory(n) {
            Ok(f) => f,
            Err(e) => {
                return Err(e);
            },
        },
        None => {
            return Err(ConfigError::Invalid);
        },
    };
    let output_anchor = match lookup(config, "output_anchor") {
        Some(n) => match coordinate_factory(n) {
            Ok(c) => c,
            Err(e) => {
                return Err(e);
            },
        },
        None => {
            return Err(ConfigError::Invalid);
        },
    };
    let id = match get_u64(config, "id") {
        Some(id) => id,
        None => {
            return Err(ConfigError::Invalid);
        },
    };
    Ok(OpSpec { id, input_selection, output_anchor, function })
}

/// The operations that a configuration document lists under `operations`,
/// in document order; an error where the list is missing, an entry is
/// malformed, or two entries share an id.
pub fn operations_from_document(doc: &Node) -> (r: Result<Vec<OpSpec>, ConfigError>)
    ensures
        match r {
            Ok(ops) => field(*doc, "operations"@) matches Some(l) && l is List && ops@.len() == items(l).len()
                && (forall|i: int| 0 <= i < ops@.len() ==> operation_of(items(l)[i], #[trigger] ops@[i])
                    && ops@[i].function.wf())
                && forall|i: int, j: int| 0 <= i < j < ops@.len() ==> (#[trigger] ops@[i]).id != (#[trigger] ops@[j]).id,
            Err(_) => !(field(*doc, "operations"@) matches Some(l) && l is List)
                || (exists|i: int| 0 <= i < items(field(*doc, "operations"@).unwrap()).len()
                    && forall|op: OpSpec| !operation_of(#[trigger] items(field(*doc, "operations"@).unwrap())[i], op))
                || exists|i: int, j: int| 0 <= i < j < items(field(*doc, "operations"@).unwrap()).len()
                    && u64_field(#[trigger] items(field(*doc, "operations"@).unwrap())[i], "id"@) is Some
                    && u64_field(items(field(*doc, "operations"@).unwrap())[i], "id"@)
                        == u64_field(#[trigger] items(field(*doc, "operations"@).unwrap())[j], "id"@),
        },
{
    let list = match lookup(doc, "operations") {
        Some(Node::List(v)) => v,
        _ => {
            return Err(ConfigError::Invalid);
        },
    };
    let ghost l = field(*doc, "operations"@).unwrap();
    let mut result: Vec<OpSpec> = Vec::new();
    let mut i: usize = 0;
    while i < list.len()
        invariant
            i <= list@.len(),
            l == Node::List(*list),
            field(*doc, "operations"@) == Some(l),
            result@.len() == i,
            forall|q: int| 0 <= q < i ==> operation_of(items(l)[q], #[trigger] result@[q])
                && result@[q].function.wf(),
            forall|p: int, q: int| 0 <= p < q < i ==> (#[trigger] result@[p]).id != (#[trigger] result@[q]).id,
        decreases list@.len() - i,
    {
        match operation_factory(&list[i]) {
            Ok(op) => {
                let mut j: usize = 0;
                while j < result.len()
                    invariant
                        j <= result@.len(),
                        i < list@.len(),
                        l == Node::List(*list),
                        field(*doc, "operations"@) == Some(l),
                        result@.len() == i,
                        operation_of(items(l)[i as int], op),
                        forall|q: int| 0 <= q < i ==> operation_of(items(l)[q], #[trigger] result@[q])
                            && result@[q].function.wf(),
                        forall|p: int| 0 <= p < j ==> (#[trigger] result@[p]).id != op.id,
                    decreases result@.len() - j,
                {
                    if result[j].id == op.id {
                        assert(operation_of(items(l)[j as int], result@[j as int]));
                        assert(u64_field(items(l)[j as int], "id"@) == u64_field(items(l)[i as int], "id"@));
                        return Err(ConfigError::Invalid);
                    }
                    j = j + 1;
                }
                result.push(op);
            },
            Err(e) => {
                assert(forall|op: OpSpec| !operation_of(items(l)[i as int], op));
                return Err(e);
            },
        }
        i = i + 1;
    }
    Ok(result)
}

} // verus!
