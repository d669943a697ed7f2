use db721::{read_val, Cell, ColumnType, CustomQual, HostValue, Op};

fn sample_floats() -> Vec<f32> {
    vec![
        0.0,
        -0.0,
        1.0,
        -1.0,
        1.5,
        -1.5,
        f32::MIN_POSITIVE,
        -f32::MIN_POSITIVE,
        f32::from_bits(1),
        f32::from_bits(0x8000_0001),
        f32::MAX,
        f32::MIN,
        f32::INFINITY,
        f32::NEG_INFINITY,
        f32::NAN,
        f32::from_bits(0xffc0_0001),
        f32::from_bits(0x7f80_0001),
        3.4e20,
        -7.25e-12,
    ]
}

#[test]
fn float_patterns_compare_as_the_numbers_do() {
    let ops = [Op::Eq, Op::Lt, Op::Lte, Op::Gt, Op::Gte];
    for a in sample_floats() {
        for b in sample_floats() {
            let ca = Cell::Float(a.to_bits());
            let cb = Cell::Float(b.to_bits());
            assert_eq!(ca.lt(&cb), a < b, "{a} < {b}");
            assert_eq!(ca.same(&cb), a == b, "{a} == {b}");
            for op in ops {
                let expected = match op {
                    Op::Eq => a == b,
                    Op::Lt => a < b,
                    Op::Lte => a <= b,
                    Op::Gt => a > b,
                    Op::Gte => a >= b,
                };
                assert_eq!(op.eval(&ca, &cb), expected, "{a} {op:?} {b}");
            }
        }
    }
}

#[test]
fn nan_patterns_are_recognised() {
    for a in sample_floats() {
        assert_eq!(db721::value::is_nan_bits(a.to_bits()), a.is_nan());
    }
}

#[test]
fn byte_strings_compare_lexicographically() {
    let samples: [&[u8]; 9] =
        [b"", b"a", b"ab", b"abc", b"abd", b"b", b"\xff", b"a\x00", b"beta"];
    let ops = [Op::Eq, Op::Lt, Op::Lte, Op::Gt, Op::Gte];
    for a in samples {
        for b in samples {
            let ca = Cell::Str(a.to_vec());
            let cb = Cell::Str(b.to_vec());
            assert_eq!(ca.lt(&cb), a < b);
            assert_eq!(ca.same(&cb), a == b);
            for op in ops {
                let expected = match op {
                    Op::Eq => a == b,
                    Op::Lt => a < b,
                    Op::Lte => a <= b,
                    Op::Gt => a > b,
                    Op::Gte => a >= b,
                };
                assert_eq!(op.eval(&ca, &cb), expected);
            }
        }
    }
}

#[test]
fn integers_compare_as_integers() {
    let samples = [i32::MIN, -5, -1, 0, 1, 42, i32::MAX];
    for a in samples {
        for b in samples {
            let ca = Cell::Int(a);
            let cb = Cell::Int(b);
            assert_eq!(Op::Eq.eval(&ca, &cb), a == b);
            assert_eq!(Op::Lt.eval(&ca, &cb), a < b);
            assert_eq!(Op::Lte.eval(&ca, &cb), a <= b);
            assert_eq!(Op::Gt.eval(&ca, &cb), a > b);
            assert_eq!(Op::Gte.eval(&ca, &cb), a >= b);
        }
    }
}

#[test]
fn values_of_different_types_never_compare_true() {
    let cells = [Cell::Int(0), Cell::Float(0), Cell::Str(Vec::new())];
    for (i, a) in cells.iter().enumerate() {
        for (j, b) in cells.iter().enumerate() {
            if i != j {
                for op in [Op::Eq, Op::Lt, Op::Lte, Op::Gt, Op::Gte] {
                    assert!(!op.eval(a, b));
                }
            }
        }
    }
}

#[test]
fn operators_are_read_from_their_spelling() {
    assert_eq!(Op::from_str("="), Ok(Op::Eq));
    assert_eq!(Op::from_str("<"), Ok(Op::Lt));
    assert_eq!(Op::from_str("<="), Ok(Op::Lte));
    assert_eq!(Op::from_str(">"), Ok(Op::Gt));
    assert_eq!(Op::from_str(">="), Ok(Op::Gte));
    for bad in ["", "==", "<>", "!=", "=<", "=>", " =", "= ", "like", "<==", "\u{2264}", "in"] {
        assert_eq!(Op::from_str(bad), Err(()), "{bad:?}");
    }
}

#[test]
fn predicate_evaluates_against_its_right_hand_side() {
    let q = CustomQual { op: Op::Gte, rhs: Cell::Int(80) };
    assert!(!q.eval(&Cell::Int(79)));
    assert!(q.eval(&Cell::Int(80)));
    assert!(q.eval(&Cell::Int(81)));
    let q = CustomQual { op: Op::Lt, rhs: Cell::Str(b"beta".to_vec()) };
    assert!(q.eval(&Cell::Str(b"alpha".to_vec())));
    assert!(!q.eval(&Cell::Str(b"beta".to_vec())));
    assert!(!q.eval(&Cell::Int(0)));
}

#[test]
fn host_values_convert_to_cells() {
    assert_eq!(Cell::try_from(&HostValue::Int(-3)), Ok(Cell::Int(-3)));
    assert_eq!(Cell::try_from(&HostValue::Float(0x3fc0_0000)), Ok(Cell::Float(0x3fc0_0000)));
    assert_eq!(Cell::try_from(&HostValue::Str(b"ab".to_vec())), Ok(Cell::Str(b"ab".to_vec())));
    assert_eq!(Cell::try_from(&HostValue::Other), Err(()));
}

#[test]
fn column_types_have_their_widths() {
    assert_eq!(ColumnType::Int.field_size(), 4);
    assert_eq!(ColumnType::Float.field_size(), 4);
    assert_eq!(ColumnType::Str.field_size(), 32);
    assert_eq!(Cell::Int(1).column_type(), ColumnType::Int);
    assert_eq!(Cell::Float(1).column_type(), ColumnType::Float);
    assert_eq!(Cell::Str(vec![1]).column_type(), ColumnType::Str);
}

#[test]
fn integers_decode_little_endian() {
    for v in [0i32, 1, -1, 42, 256, -256, 0x0102_0304, i32::MAX, i32::MIN, -2_000_000_000] {
        let mut data = vec![9u8; 3];
        data.extend_from_slice(&v.to_le_bytes());
        assert_eq!(read_val(&data, 3, ColumnType::Int), Some(Cell::Int(v)));
    }
    assert_eq!(read_val(&[1, 2, 3, 4], 0, ColumnType::Int), Some(Cell::Int(0x0403_0201)));
}

#[test]
fn floats_decode_to_their_bit_pattern() {
    for v in sample_floats() {
        let data = v.to_le_bytes();
        assert_eq!(read_val(&data, 0, ColumnType::Float), Some(Cell::Float(v.to_bits())));
    }
    assert_eq!(read_val(&[0, 0, 0xc0, 0x3f], 0, ColumnType::Float), Some(Cell::Float(1.5f32.to_bits())));
}

#[test]
fn strings_decode_to_the_bytes_before_the_first_zero() {
    let mut slot = [0u8; 32];
    slot[..4].copy_from_slice(b"beta");
    // what follows the first zero does not matter
    slot[5..9].copy_from_slice(b"junk");
    assert_eq!(read_val(&slot, 0, ColumnType::Str), Some(Cell::Str(b"beta".to_vec())));
    // the empty string
    assert_eq!(read_val(&[0u8; 32], 0, ColumnType::Str), Some(Cell::Str(Vec::new())));
    // 31 bytes and the terminator
    let mut slot = [b'x'; 32];
    slot[31] = 0;
    assert_eq!(read_val(&slot, 0, ColumnType::Str), Some(Cell::Str(vec![b'x'; 31])));
    // no terminator
    assert_eq!(read_val(&[b'x'; 32], 0, ColumnType::Str), None);
    // a zero just behind the slot does not count
    let mut data = vec![b'x'; 33];
    data[32] = 0;
    assert_eq!(read_val(&data, 0, ColumnType::Str), None);
    assert_eq!(read_val(&data, 1, ColumnType::Str), Some(Cell::Str(vec![b'x'; 31])));
}

#[test]
fn fields_outside_the_data_do_not_decode() {
    let data = [0u8; 40];
    assert_eq!(read_val(&data, 36, ColumnType::Int), Some(Cell::Int(0)));
    assert_eq!(read_val(&data, 37, ColumnType::Int), None);
    assert_eq!(read_val(&data, 40, ColumnType::Float), None);
    assert_eq!(read_val(&data, 8, ColumnType::Str), Some(Cell::Str(Vec::new())));
    assert_eq!(read_val(&data, 9, ColumnType::Str), None);
    assert_eq!(read_val(&data, u128::MAX, ColumnType::Int), None);
    assert_eq!(read_val(&data, 1 << 64, ColumnType::Int), None);
    assert_eq!(read_val(&[], 0, ColumnType::Int), None);
    assert_eq!(read_val(&[0, 0, 0], 0, ColumnType::Float), None);
}
