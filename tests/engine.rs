use gridops::coordinates::{
    AbsOrdinate, BaseCoordinate, Coordinate, Corner, OffsetCoordinate, OpCorner, Ordinate,
};
use gridops::functions::{Average, Function, RawInput};
use gridops::operations::{apply_operation, apply_operations, ApplyError, OpSpec, Stage};
use gridops::selections::{box_positions, BoxSelection, EmptySelection, Select};
use gridops::tables::{CellMap, CellValue, Fixed, Table};

fn abs(row: u64, col: u64) -> Coordinate {
    Coordinate::Base(BaseCoordinate {
        row: Ordinate::Abs(AbsOrdinate::new(row)),
        col: Ordinate::Abs(AbsOrdinate::new(col)),
    })
}

fn corner(op_id: u64, corner: Corner) -> Coordinate {
    Coordinate::Corner(OpCorner { op_id, corner })
}

fn raw(rows: Vec<Vec<CellValue>>) -> Function {
    Function::Raw(RawInput::from_rows(&rows))
}

fn as_f64(v: &CellValue) -> f64 {
    match v {
        CellValue::Float(f) => f.raw as f64 / (1u64 << 62) as f64,
        CellValue::Int(i) => *i as f64,
        CellValue::Str(_) => panic!("text cell"),
    }
}

fn end_to_end_ops() -> Vec<OpSpec> {
    let op1 = OpSpec {
        id: 1,
        input_selection: Select::Empty(EmptySelection {}),
        output_anchor: abs(0, 0),
        function: raw(vec![
            vec![CellValue::Int(1), CellValue::Int(2)],
            vec![CellValue::Int(3), CellValue::Int(4)],
        ]),
    };
    let op2 = OpSpec {
        id: 2,
        input_selection: Select::Box(BoxSelection {
            upper_left: corner(1, Corner::TopLeft),
            bottom_right: corner(1, Corner::BotRight),
        }),
        output_anchor: Coordinate::Offset(OffsetCoordinate {
            internal_coordinate: Box::new(corner(1, Corner::BotRight)),
            row_offset: 1,
            col_offset: 0,
        }),
        function: Function::Average(Average {}),
    };
    vec![op1, op2]
}

#[test]
fn literal_ordinate_ignores_table() {
    let mut t = Table::new();
    let o = AbsOrdinate::new(7);
    assert_eq!(o.resolve(&t), 7);
    t.values.insert((3, 3), CellValue::Int(1));
    t.op_map.insert(5, ((0, 0), (9, 9)));
    assert_eq!(o.resolve(&t), 7);
    assert_eq!(Ordinate::Abs(o).resolve(&t), 7);
}

#[test]
fn base_coordinate_ignores_registry() {
    let mut t = Table::new();
    let c = abs(4, 9);
    assert_eq!(c.resolve(&t), Some((4, 9)));
    t.op_map.insert(1, ((1, 1), (2, 2)));
    assert_eq!(c.resolve(&t), Some((4, 9)));
}

#[test]
fn op_corner_resolution() {
    let mut t = Table::new();
    assert_eq!(corner(3, Corner::TopLeft).resolve(&t), None);
    t.op_map.insert(3, ((1, 2), (5, 7)));
    assert_eq!(corner(3, Corner::TopLeft).resolve(&t), Some((1, 2)));
    assert_eq!(corner(3, Corner::TopRight).resolve(&t), Some((1, 7)));
    assert_eq!(corner(3, Corner::BotLeft).resolve(&t), Some((5, 2)));
    assert_eq!(corner(3, Corner::BotRight).resolve(&t), Some((5, 7)));
    assert_eq!(corner(4, Corner::BotRight).resolve(&t), None);
}

#[test]
fn offset_coordinate_resolution() {
    let mut t = Table::new();
    let off = OffsetCoordinate {
        internal_coordinate: Box::new(corner(1, Corner::BotRight)),
        row_offset: 2,
        col_offset: 3,
    };
    assert_eq!(off.resolve(&t), None);
    t.op_map.insert(1, ((0, 0), (4, 5)));
    assert_eq!(off.resolve(&t), Some((6, 8)));
    let plain = OffsetCoordinate {
        internal_coordinate: Box::new(abs(10, 20)),
        row_offset: 1,
        col_offset: 0,
    };
    assert_eq!(plain.resolve(&t), Some((11, 20)));
}

#[test]
fn offset_coordinate_overflow_is_absent() {
    let t = Table::new();
    let off = OffsetCoordinate {
        internal_coordinate: Box::new(abs(u64::MAX, 0)),
        row_offset: 1,
        col_offset: 0,
    };
    assert_eq!(off.resolve(&t), None);
}

#[test]
fn box_selection_row_major() {
    let t = Table::new();
    let sel = BoxSelection { upper_left: abs(0, 0), bottom_right: abs(1, 1) };
    assert_eq!(sel.select(&t), Some(vec![(0, 0), (0, 1), (1, 0), (1, 1)]));
}

#[test]
fn box_selection_degenerate_is_empty() {
    let t = Table::new();
    let sel = BoxSelection { upper_left: abs(2, 2), bottom_right: abs(0, 0) };
    assert_eq!(sel.select(&t), Some(vec![]));
    assert_eq!(box_positions((0, 3), (2, 1)), vec![]);
}

#[test]
fn box_selection_unresolved_corner_fails() {
    let t = Table::new();
    let sel = Select::Box(BoxSelection { upper_left: corner(9, Corner::TopLeft), bottom_right: abs(1, 1) });
    assert_eq!(sel.select(&t), None);
}

#[test]
fn box_selection_at_upper_edge() {
    let m = u64::MAX;
    assert_eq!(box_positions((m - 1, m), (m, m)), vec![(m - 1, m), (m, m)]);
}

#[test]
fn empty_selection_selects_nothing() {
    let t = Table::new();
    assert_eq!(Select::Empty(EmptySelection {}).select(&t), Some(vec![]));
}

#[test]
fn average_of_integers() {
    let mut t = Table::new();
    t.values.insert((0, 0), CellValue::Int(2));
    t.values.insert((0, 1), CellValue::Int(4));
    t.values.insert((0, 2), CellValue::Int(6));
    let out = Average {}.call(&t, &vec![(0, 0), (0, 1), (0, 2)]).unwrap();
    assert_eq!(out.len(), 1);
    assert_eq!(out.get((0, 0)), Some(&CellValue::Float(Fixed { raw: 4 << 62 })));
    assert_eq!(as_f64(out.get((0, 0)).unwrap()), 4.0);
}

#[test]
fn average_mixes_fractions_and_integers() {
    let mut t = Table::new();
    t.values.insert((0, 0), CellValue::Float(Fixed { raw: 5 << 61 }));
    t.values.insert((0, 1), CellValue::Int(1));
    let out = Average {}.call(&t, &vec![(0, 0), (0, 1)]).unwrap();
    assert_eq!(as_f64(out.get((0, 0)).unwrap()), 1.75);
}

#[test]
fn average_of_binary_decimals() {
    // 0.1, 0.2 and 0.3 as the nearest binary fractions
    let mut t = Table::new();
    t.values.insert((0, 0), CellValue::Float(Fixed { raw: 3602879701896397 << 7 }));
    t.values.insert((1, 0), CellValue::Float(Fixed { raw: 3602879701896397 << 8 }));
    t.values.insert((2, 0), CellValue::Float(Fixed { raw: 5404319552844595 << 8 }));
    let out = Average {}.call(&t, &vec![(0, 0), (1, 0), (2, 0)]).unwrap();
    let v = as_f64(out.get((0, 0)).unwrap());
    assert!((v - 0.2).abs() < 1e-15);
    assert_eq!(
        out.get((0, 0)),
        Some(&CellValue::Float(Fixed { raw: (21617278211378381i128 << 7) / 3 }))
    );
}

#[test]
fn average_rounds_down() {
    let mut t = Table::new();
    t.values.insert((0, 0), CellValue::Int(1));
    t.values.insert((0, 1), CellValue::Int(1));
    t.values.insert((0, 2), CellValue::Int(2));
    let out = Average {}.call(&t, &vec![(0, 0), (0, 1), (0, 2)]).unwrap();
    assert_eq!(out.get((0, 0)), Some(&CellValue::Float(Fixed { raw: (4i128 << 62) / 3 })));
    t.values.insert((0, 0), CellValue::Int(-1));
    t.values.insert((0, 1), CellValue::Int(-1));
    t.values.insert((0, 2), CellValue::Int(-2));
    let out = Average {}.call(&t, &vec![(0, 0), (0, 1), (0, 2)]).unwrap();
    assert_eq!(out.get((0, 0)), Some(&CellValue::Float(Fixed { raw: (-(4i128 << 62)).div_euclid(3) })));
}

#[test]
fn average_of_largest_integers() {
    let mut t = Table::new();
    t.values.insert((0, 0), CellValue::Int(i64::MAX));
    t.values.insert((0, 1), CellValue::Int(i64::MAX));
    let out = Average {}.call(&t, &vec![(0, 0), (0, 1)]).unwrap();
    assert_eq!(out.get((0, 0)), Some(&CellValue::Float(Fixed { raw: (i64::MAX as i128) << 62 })));
    t.values.insert((0, 1), CellValue::Int(i64::MIN));
    let out = Average {}.call(&t, &vec![(0, 0), (0, 1)]).unwrap();
    assert_eq!(out.get((0, 0)), Some(&CellValue::Float(Fixed { raw: -(1i128 << 61) })));
}

#[test]
fn average_of_tiny_and_large_reals() {
    let mut t = Table::new();
    t.values.insert((0, 0), CellValue::Float(Fixed { raw: 1 }));
    t.values.insert((0, 1), CellValue::Float(Fixed { raw: 1i128 << 126 }));
    let out = Average {}.call(&t, &vec![(0, 0), (0, 1)]).unwrap();
    assert_eq!(out.get((0, 0)), Some(&CellValue::Float(Fixed { raw: 1i128 << 125 })));
}

#[test]
fn average_of_nothing_fails() {
    let t = Table::new();
    assert!(Average {}.call(&t, &vec![]).is_none());
}

#[test]
fn average_of_text_fails() {
    let mut t = Table::new();
    t.values.insert((0, 0), CellValue::Int(2));
    t.values.insert((0, 1), CellValue::Str("x".to_string()));
    assert!(Average {}.call(&t, &vec![(0, 0), (0, 1)]).is_none());
}

#[test]
fn average_of_missing_cell_fails() {
    let mut t = Table::new();
    t.values.insert((0, 0), CellValue::Int(2));
    assert!(Average {}.call(&t, &vec![(0, 0), (5, 5)]).is_none());
}

#[test]
fn raw_input_ignores_table() {
    let f = RawInput::from_rows(&vec![
        vec![CellValue::Int(1), CellValue::Str("a".to_string())],
        vec![CellValue::Float(Fixed { raw: 5 << 61 }), CellValue::Int(3)],
    ]);
    let mut t = Table::new();
    for _ in 0..2 {
        let out = f.call(&t, &vec![(7, 7)]).unwrap();
        assert_eq!(out.len(), 4);
        assert_eq!(out.get((0, 0)), Some(&CellValue::Int(1)));
        assert_eq!(out.get((0, 1)), Some(&CellValue::Str("a".to_string())));
        assert_eq!(out.get((1, 0)), Some(&CellValue::Float(Fixed { raw: 5 << 61 })));
        assert_eq!(out.get((1, 1)), Some(&CellValue::Int(3)));
        t.values.insert((0, 0), CellValue::Int(99));
    }
}

#[test]
fn cell_map_insert_overwrites() {
    let mut m = CellMap::new();
    m.insert((1, 1), CellValue::Int(1));
    m.insert((1, 1), CellValue::Int(2));
    m.insert((0, 1), CellValue::Int(3));
    assert_eq!(m.len(), 2);
    assert_eq!(m.get((1, 1)), Some(&CellValue::Int(2)));
    assert_eq!(m.get((2, 2)), None);
}

#[test]
fn end_to_end_two_operations() {
    let mut t = Table::new();
    let ops = end_to_end_ops();
    assert_eq!(apply_operation(&mut t, &ops[0]), Ok(()));
    assert_eq!(t.get(0, 0), Some(&CellValue::Int(1)));
    assert_eq!(t.get(0, 1), Some(&CellValue::Int(2)));
    assert_eq!(t.get(1, 0), Some(&CellValue::Int(3)));
    assert_eq!(t.get(1, 1), Some(&CellValue::Int(4)));
    assert_eq!(t.region(1), Some(((0, 0), (1, 1))));
    assert_eq!(apply_operation(&mut t, &ops[1]), Ok(()));
    assert_eq!(t.get(2, 1), Some(&CellValue::Float(Fixed { raw: 5 << 61 })));
    assert_eq!(t.region(2), Some(((2, 1), (2, 1))));
    assert_eq!(t.values.len(), 5);
}

#[test]
fn regions_are_recorded_after_anchoring() {
    let mut t = Table::new();
    let op = OpSpec {
        id: 4,
        input_selection: Select::Empty(EmptySelection {}),
        output_anchor: abs(3, 5),
        function: raw(vec![vec![CellValue::Int(1), CellValue::Int(2), CellValue::Int(3)]]),
    };
    assert_eq!(apply_operation(&mut t, &op), Ok(()));
    assert_eq!(t.region(4), Some(((3, 5), (3, 7))));
    assert_eq!(t.get(3, 7), Some(&CellValue::Int(3)));
    assert_eq!(t.get(0, 0), None);
}

#[test]
fn later_writes_win() {
    let mut t = Table::new();
    let first = OpSpec {
        id: 1,
        input_selection: Select::Empty(EmptySelection {}),
        output_anchor: abs(0, 0),
        function: raw(vec![vec![CellValue::Int(1)]]),
    };
    let second = OpSpec {
        id: 2,
        input_selection: Select::Empty(EmptySelection {}),
        output_anchor: abs(0, 0),
        function: raw(vec![vec![CellValue::Str("b".to_string())]]),
    };
    assert_eq!(apply_operations(&mut t, &vec![first, second]), Ok(()));
    assert_eq!(t.get(0, 0), Some(&CellValue::Str("b".to_string())));
}

#[test]
fn selection_failure_names_stage() {
    let mut t = Table::new();
    let op = OpSpec {
        id: 6,
        input_selection: Select::Box(BoxSelection { upper_left: corner(1, Corner::TopLeft), bottom_right: abs(0, 0) }),
        output_anchor: abs(0, 0),
        function: Function::Average(Average {}),
    };
    assert_eq!(apply_operation(&mut t, &op), Err(ApplyError { op_id: 6, stage: Stage::Selection }));
    assert_eq!(t.values.len(), 0);
    assert_eq!(t.region(6), None);
}

#[test]
fn function_failure_names_stage() {
    let mut t = Table::new();
    let op = OpSpec {
        id: 7,
        input_selection: Select::Empty(EmptySelection {}),
        output_anchor: abs(0, 0),
        function: Function::Average(Average {}),
    };
    assert_eq!(apply_operation(&mut t, &op), Err(ApplyError { op_id: 7, stage: Stage::Function }));
    let empty = OpSpec {
        id: 8,
        input_selection: Select::Empty(EmptySelection {}),
        output_anchor: abs(0, 0),
        function: raw(vec![]),
    };
    assert_eq!(apply_operation(&mut t, &empty), Err(ApplyError { op_id: 8, stage: Stage::Function }));
}

#[test]
fn anchor_failure_names_stage() {
    let mut t = Table::new();
    let self_ref = OpSpec {
        id: 1,
        input_selection: Select::Empty(EmptySelection {}),
        output_anchor: corner(1, Corner::TopLeft),
        function: raw(vec![vec![CellValue::Int(1)]]),
    };
    assert_eq!(apply_operation(&mut t, &self_ref), Err(ApplyError { op_id: 1, stage: Stage::Anchor }));
    assert_eq!(t.region(1), None);
    let too_far = OpSpec {
        id: 2,
        input_selection: Select::Empty(EmptySelection {}),
        output_anchor: abs(u64::MAX, 0),
        function: raw(vec![vec![CellValue::Int(1)], vec![CellValue::Int(2)]]),
    };
    assert_eq!(apply_operation(&mut t, &too_far), Err(ApplyError { op_id: 2, stage: Stage::Anchor }));
    assert_eq!(t.values.len(), 0);
}

#[test]
fn run_stops_at_first_failure_and_keeps_writes() {
    let mut t = Table::new();
    let mut ops = end_to_end_ops();
    ops.insert(1, OpSpec {
        id: 3,
        input_selection: Select::Empty(EmptySelection {}),
        output_anchor: corner(42, Corner::TopLeft),
        function: raw(vec![vec![CellValue::Int(5)]]),
    });
    assert_eq!(apply_operations(&mut t, &ops), Err(ApplyError { op_id: 3, stage: Stage::Anchor }));
    assert_eq!(t.values.len(), 4);
    assert_eq!(t.region(2), None);
}

#[test]
fn identical_runs_give_identical_tables() {
    let mut a = Table::new();
    let mut b = Table::new();
    let ops = end_to_end_ops();
    assert_eq!(apply_operations(&mut a, &ops), apply_operations(&mut b, &ops));
    assert_eq!(a.values.entries, b.values.entries);
    assert_eq!(a.op_map, b.op_map);
}
