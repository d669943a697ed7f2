use std::collections::HashMap;

use db721::{
    BlockStats, Cell, Column, Db721Fdw, Db721Reader, HostValue, Limit, Metadata, Qual, ScanError,
    Stats,
};

/// The sample file: one int column `age`, ten blocks of ten rows,
/// `age = 10 * block + row`.
fn age_file() -> Vec<u8> {
    let mut data = Vec::new();
    for age in 0..100i32 {
        data.extend_from_slice(&age.to_le_bytes());
    }
    data
}

fn age_metadata() -> Metadata {
    let mut stats = HashMap::new();
    for b in 0..10u32 {
        let lo = 10 * b as i32;
        stats.insert(b, BlockStats { num: 10, min: lo, max: lo + 9, min_len: 0, max_len: 0 });
    }
    let column = Column {
        name: String::from("age"),
        block_stats: Stats::Int(stats),
        num_blocks: 10,
        start_offset: 0,
    };
    Metadata::new(String::from("F"), vec![column], 10).unwrap()
}

fn qual(field: &str, operator: &str, value: HostValue) -> Qual {
    Qual { field: String::from(field), operator: String::from(operator), value, use_or: false }
}

/// Runs a scan to its end; returns the rows and the cursor blocks seen after
/// each row.
fn run(metadata: Metadata, cols: &[&str], quals: &[Qual], limit: Option<Limit>, data: &[u8])
    -> Result<Vec<Vec<Cell>>, ScanError> {
    let cols: Vec<String> = cols.iter().map(|c| String::from(*c)).collect();
    let mut reader = Db721Reader::new(metadata, &cols, quals, &limit)?;
    let mut rows = Vec::new();
    let mut row = Vec::new();
    while let Some(()) = reader.next(data, &mut row)? {
        rows.push(row.clone());
    }
    Ok(rows)
}

fn ints(rows: &[Vec<Cell>]) -> Vec<i32> {
    rows.iter()
        .map(|r| {
            assert_eq!(r.len(), 1);
            match &r[0] {
                Cell::Int(v) => *v,
                other => panic!("not an int: {:?}", other),
            }
        })
        .collect()
}

#[test]
fn select_all_yields_every_row_in_order() {
    let rows = run(age_metadata(), &["age"], &[], None, &age_file()).unwrap();
    let expected: Vec<i32> = (0..100).collect();
    assert_eq!(ints(&rows), expected);
}

#[test]
fn equality_yields_the_one_row_and_visits_one_block() {
    let data = age_file();
    let quals = [qual("age", "=", HostValue::Int(42))];
    let cols = [String::from("age")];
    let mut reader = Db721Reader::new(age_metadata(), &cols, &quals, &None).unwrap();
    // blocks 0 to 3 are pruned before the first row is looked at
    assert_eq!(reader.block_num, 4);
    for b in 0..10u32 {
        assert_eq!(reader.skip_block(b), b != 4);
    }
    let mut row = Vec::new();
    assert_eq!(reader.next(&data, &mut row), Ok(Some(())));
    assert_eq!(row, vec![Cell::Int(42)]);
    assert_eq!((reader.block_num, reader.block_row_num, reader.row_cnt), (4, 3, 1));
    assert_eq!(reader.next(&data, &mut row), Ok(None));
    // blocks 5 to 9 were pruned: the cursor is past the last block
    assert_eq!((reader.block_num, reader.block_row_num, reader.row_cnt), (10, 0, 1));
    assert_eq!(reader.next(&data, &mut row), Ok(None));
}

#[test]
fn range_yields_its_rows_from_one_block() {
    let data = age_file();
    let quals = [qual("age", ">=", HostValue::Int(80)), qual("age", "<", HostValue::Int(85))];
    let cols = [String::from("age")];
    let mut reader = Db721Reader::new(age_metadata(), &cols, &quals, &None).unwrap();
    assert_eq!(reader.block_num, 8);
    for b in 0..10u32 {
        assert_eq!(reader.skip_block(b), b != 8);
    }
    let mut got = Vec::new();
    let mut row = Vec::new();
    while let Some(()) = reader.next(&data, &mut row).unwrap() {
        assert_eq!(reader.block_num, 8);
        got.push(row.clone());
    }
    assert_eq!(ints(&got), vec![80, 81, 82, 83, 84]);
}

#[test]
fn limit_three_yields_the_first_three_rows() {
    let limit = Some(Limit { count: 3, offset: 0 });
    let rows = run(age_metadata(), &["age"], &[], limit, &age_file()).unwrap();
    assert_eq!(ints(&rows), vec![0, 1, 2]);
}

#[test]
fn predicate_above_every_value_prunes_all_blocks() {
    let quals = [qual("age", ">", HostValue::Int(1000))];
    let cols = [String::from("age")];
    let r = Db721Reader::new(age_metadata(), &cols, &quals, &None);
    assert_eq!(r.err(), Some(ScanError::EmptyScan));

    // through the host interface: no rows, and the data is never looked at
    let mut fdw = Db721Fdw::new();
    assert_eq!(fdw.begin_scan(age_metadata(), &quals, &cols, &None), Err(ScanError::EmptyScan));
    assert!(fdw.reader.is_none());
    let mut row = vec![Cell::Int(7)];
    assert_eq!(fdw.iter_scan(&[], &mut row), Ok(None));
    assert_eq!(row, vec![Cell::Int(7)]);
}

fn name_slot(s: &str) -> [u8; 32] {
    let mut slot = [0u8; 32];
    slot[..s.len()].copy_from_slice(s.as_bytes());
    slot
}

/// Column `name`, fixed 32 bytes, three blocks of two rows, and column `id`.
fn names_file() -> (Vec<u8>, Metadata) {
    let names = ["alpha", "beta", "gamma", "delta", "epsilon", "zeta"];
    let mut data = Vec::new();
    for n in names {
        data.extend_from_slice(&name_slot(n));
    }
    let id_start = data.len() as u32;
    for id in 0..6i32 {
        data.extend_from_slice(&(100 + id).to_le_bytes());
    }
    let mut name_stats = HashMap::new();
    let mut id_stats = HashMap::new();
    for b in 0..3usize {
        let pair = [names[2 * b], names[2 * b + 1]];
        let min = *pair.iter().min().unwrap();
        let max = *pair.iter().max().unwrap();
        name_stats.insert(
            b as u32,
            BlockStats {
                num: 2,
                min: min.as_bytes().to_vec(),
                max: max.as_bytes().to_vec(),
                min_len: pair.iter().map(|s| s.len()).min().unwrap() as u32,
                max_len: pair.iter().map(|s| s.len()).max().unwrap() as u32,
            },
        );
        let lo = 100 + 2 * b as i32;
        id_stats.insert(b as u32, BlockStats { num: 2, min: lo, max: lo + 1, min_len: 0, max_len: 0 });
    }
    let columns = vec![
        Column {
            name: String::from("name"),
            block_stats: Stats::Str(name_stats),
            num_blocks: 3,
            start_offset: 0,
        },
        Column {
            name: String::from("id"),
            block_stats: Stats::Int(id_stats),
            num_blocks: 3,
            start_offset: id_start,
        },
    ];
    (data, Metadata::new(String::from("names"), columns, 2).unwrap())
}

#[test]
fn string_equality_yields_the_row_and_prunes_by_bounds_and_length() {
    let (data, metadata) = names_file();
    let quals = [qual("name", "=", HostValue::Str(b"beta".to_vec()))];
    let cols = [String::from("id"), String::from("name")];
    let mut reader = Db721Reader::new(metadata, &cols, &quals, &None).unwrap();
    // block 0 = [alpha, beta] is kept; block 1 = [gamma, delta] has min
    // "delta" > "beta"; block 2 = [epsilon, zeta] has min "epsilon" > "beta"
    assert!(!reader.skip_block(0));
    assert!(reader.skip_block(1));
    assert!(reader.skip_block(2));
    let mut row = Vec::new();
    assert_eq!(reader.next(&data, &mut row), Ok(Some(())));
    assert_eq!(row, vec![Cell::Int(101), Cell::Str(b"beta".to_vec())]);
    assert_eq!(reader.next(&data, &mut row), Ok(None));
}

#[test]
fn string_equality_prunes_by_length_alone() {
    let (_, metadata) = names_file();
    // "dz" lies between "delta" and "gamma", but block 1 holds only strings
    // of length 5
    let quals = [qual("name", "=", HostValue::Str(b"dz".to_vec()))];
    let cols = [String::from("name")];
    let r = Db721Reader::new(metadata, &cols, &quals, &None);
    assert_eq!(r.err(), Some(ScanError::EmptyScan));

    let (data, metadata) = names_file();
    // same bounds, a length that the block admits: the block is read
    let quals = [qual("name", "=", HostValue::Str(b"dzzzz".to_vec()))];
    let mut reader = Db721Reader::new(metadata, &cols, &quals, &None).unwrap();
    assert_eq!(reader.block_num, 1);
    let mut row = Vec::new();
    assert_eq!(reader.next(&data, &mut row), Ok(None));
}

#[test]
fn short_final_block_yields_its_count() {
    // 3 blocks with capacity 4, the last holding 2 rows
    let mut data = Vec::new();
    for v in 0..10i32 {
        data.extend_from_slice(&v.to_le_bytes());
    }
    // bytes past the last row must never be read as rows
    data.extend_from_slice(&[0xff; 8]);
    let mut stats = HashMap::new();
    stats.insert(0, BlockStats { num: 4, min: 0, max: 3, min_len: 0, max_len: 0 });
    stats.insert(1, BlockStats { num: 4, min: 4, max: 7, min_len: 0, max_len: 0 });
    stats.insert(2, BlockStats { num: 2, min: 8, max: 9, min_len: 0, max_len: 0 });
    let column = Column {
        name: String::from("v"),
        block_stats: Stats::Int(stats),
        num_blocks: 3,
        start_offset: 0,
    };
    let metadata = Metadata::new(String::from("t"), vec![column], 4).unwrap();
    assert_eq!(metadata.num_rows(), 10);
    assert_eq!(metadata.num_rows_in_block(0), 4);
    assert_eq!(metadata.num_rows_in_block(1), 4);
    assert_eq!(metadata.num_rows_in_block(2), 2);
    assert_eq!(metadata.num_rows_in_block(3), 0);
    let rows = run(metadata, &["v"], &[], None, &data).unwrap();
    assert_eq!(ints(&rows), (0..10).collect::<Vec<i32>>());
}

#[test]
fn limit_zero_yields_nothing() {
    let limit = Some(Limit { count: 0, offset: 0 });
    let rows = run(age_metadata(), &["age"], &[], limit, &age_file()).unwrap();
    assert!(rows.is_empty());
}

#[test]
fn limit_is_cut_to_the_rows_behind_the_offset() {
    let cols = [String::from("age")];
    let limit = Some(Limit { count: 50, offset: 70 });
    let reader = Db721Reader::new(age_metadata(), &cols, &[], &limit).unwrap();
    assert_eq!(reader.plan.limit, Limit { count: 30, offset: 70 });

    let limit = Some(Limit { count: 30, offset: 70 });
    let reader = Db721Reader::new(age_metadata(), &cols, &[], &limit).unwrap();
    assert_eq!(reader.plan.limit, Limit { count: 30, offset: 70 });

    let limit = Some(Limit { count: 5, offset: 200 });
    let reader = Db721Reader::new(age_metadata(), &cols, &[], &limit).unwrap();
    assert_eq!(reader.plan.limit, Limit { count: -100, offset: 200 });

    let reader = Db721Reader::new(age_metadata(), &cols, &[], &None).unwrap();
    assert_eq!(reader.plan.limit, Limit { count: 100, offset: 0 });

    // the count is cut; the offset itself is not skipped
    let limit = Some(Limit { count: 50, offset: 97 });
    let rows = run(age_metadata(), &["age"], &[], limit, &age_file()).unwrap();
    assert_eq!(ints(&rows), vec![0, 1, 2]);

    // extreme values do not overflow
    let limit = Some(Limit { count: i64::MAX, offset: i64::MAX });
    let reader = Db721Reader::new(age_metadata(), &cols, &[], &limit).unwrap();
    assert_eq!(reader.plan.limit, Limit { count: 100 - i64::MAX, offset: i64::MAX });
}

#[test]
fn without_predicates_no_block_is_skipped() {
    let cols = [String::from("age")];
    let reader = Db721Reader::new(age_metadata(), &cols, &[], &None).unwrap();
    assert_eq!(reader.block_num, 0);
    for b in 0..12u32 {
        assert!(!reader.skip_block(b));
    }
}

#[test]
fn rows_come_in_strictly_increasing_positions() {
    let data = age_file();
    let quals = [qual("age", ">", HostValue::Int(17)), qual("age", "<=", HostValue::Int(63))];
    let cols = [String::from("age")];
    let mut reader = Db721Reader::new(age_metadata(), &cols, &quals, &None).unwrap();
    let mut row = Vec::new();
    let mut last: Option<(u32, u32)> = None;
    let mut n = 0;
    while let Some(()) = reader.next(&data, &mut row).unwrap() {
        let at = (reader.block_num, reader.block_row_num - 1);
        if let Some(prev) = last {
            assert!(prev < at);
        }
        assert_eq!(row, vec![Cell::Int(10 * at.0 as i32 + at.1 as i32)]);
        last = Some(at);
        n += 1;
    }
    assert_eq!(n, 63 - 17);
}

#[test]
fn every_row_satisfies_the_predicates_and_none_is_missing() {
    let (data, metadata) = names_file();
    let quals = [qual("name", ">=", HostValue::Str(b"delta".to_vec())), qual("id", "<", HostValue::Int(105))];
    let rows = run(metadata, &["name", "id"], &quals, None, &data).unwrap();
    // names by id: 100 alpha, 101 beta, 102 gamma, 103 delta, 104 epsilon, 105 zeta
    let expected = vec![
        vec![Cell::Str(b"gamma".to_vec()), Cell::Int(102)],
        vec![Cell::Str(b"delta".to_vec()), Cell::Int(103)],
        vec![Cell::Str(b"epsilon".to_vec()), Cell::Int(104)],
    ];
    assert_eq!(rows, expected);
}

#[test]
fn row_has_the_width_and_types_of_the_projection() {
    let (data, metadata) = names_file();
    let rows = run(metadata, &["id", "name", "id"], &[], None, &data).unwrap();
    assert_eq!(rows.len(), 6);
    for r in &rows {
        assert_eq!(r.len(), 3);
        assert!(matches!(r[0], Cell::Int(_)));
        assert!(matches!(r[1], Cell::Str(_)));
        assert_eq!(r[0], r[2]);
    }
    // a projected column that occurs twice and carries a predicate
    let (data, metadata) = names_file();
    let quals = [qual("id", "=", HostValue::Int(104))];
    let rows = run(metadata, &["id", "name", "id"], &quals, None, &data).unwrap();
    assert_eq!(rows, vec![vec![Cell::Int(104), Cell::Str(b"epsilon".to_vec()), Cell::Int(104)]]);
    // an empty projection still counts the rows
    let (data, metadata) = names_file();
    let rows = run(metadata, &[], &[], None, &data).unwrap();
    assert_eq!(rows, vec![Vec::<Cell>::new(); 6]);
}

#[test]
fn predicate_on_a_column_that_is_not_projected_is_honoured() {
    let (data, metadata) = names_file();
    let quals = [qual("id", ">", HostValue::Int(103))];
    let rows = run(metadata, &["name"], &quals, None, &data).unwrap();
    assert_eq!(rows, vec![vec![Cell::Str(b"epsilon".to_vec())], vec![Cell::Str(b"zeta".to_vec())]]);
}

#[test]
fn row_buffer_is_brought_to_the_width_of_the_projection() {
    let data = age_file();
    let cols = [String::from("age")];
    let mut reader = Db721Reader::new(age_metadata(), &cols, &[], &None).unwrap();
    let mut row = vec![Cell::Str(b"x".to_vec()), Cell::Int(9), Cell::Float(0)];
    assert_eq!(reader.next(&data, &mut row), Ok(Some(())));
    assert_eq!(row, vec![Cell::Int(0)]);
}

#[test]
fn unknown_projected_column_is_reported_first() {
    let cols = [String::from("age"), String::from("height"), String::from("width")];
    let quals = [qual("weight", "=", HostValue::Int(1))];
    let r = Db721Reader::new(age_metadata(), &cols, &quals, &None);
    assert_eq!(r.err(), Some(ScanError::UnknownColumn(String::from("height"))));
}

#[test]
fn unknown_predicate_field_is_reported() {
    let cols = [String::from("age")];
    let quals = [qual("age", "=", HostValue::Int(1)), qual("weight", "~", HostValue::Other)];
    let r = Db721Reader::new(age_metadata(), &cols, &quals, &None);
    assert_eq!(r.err(), Some(ScanError::UnknownColumn(String::from("weight"))));
}

#[test]
fn unsupported_predicates_are_reported_by_position() {
    let cols = [String::from("age")];
    let ok = qual("age", "<", HostValue::Int(50));

    let mut or = qual("age", "=", HostValue::Int(1));
    or.use_or = true;
    let r = Db721Reader::new(age_metadata(), &cols, &[ok.clone(), or], &None);
    assert_eq!(r.err(), Some(ScanError::UnsupportedPredicate(1)));

    let r = Db721Reader::new(age_metadata(), &cols, &[qual("age", "<>", HostValue::Int(1))], &None);
    assert_eq!(r.err(), Some(ScanError::UnsupportedPredicate(0)));

    let quals = [ok.clone(), ok.clone(), qual("age", "=", HostValue::Other)];
    let r = Db721Reader::new(age_metadata(), &cols, &quals, &None);
    assert_eq!(r.err(), Some(ScanError::UnsupportedPredicate(2)));

    // right-hand side of another type than the column
    let r = Db721Reader::new(age_metadata(), &cols, &[qual("age", "=", HostValue::Float(0))], &None);
    assert_eq!(r.err(), Some(ScanError::UnsupportedPredicate(0)));
    let quals = [qual("age", "=", HostValue::Str(b"42".to_vec()))];
    let r = Db721Reader::new(age_metadata(), &cols, &quals, &None);
    assert_eq!(r.err(), Some(ScanError::UnsupportedPredicate(0)));
}

#[test]
fn file_shorter_than_the_metadata_says_is_corrupt() {
    let mut data = age_file();
    data.truncate(4 * 57 + 3);
    let cols = [String::from("age")];
    let mut reader = Db721Reader::new(age_metadata(), &cols, &[], &None).unwrap();
    let mut row = Vec::new();
    for age in 0..57 {
        assert_eq!(reader.next(&data, &mut row), Ok(Some(())));
        assert_eq!(row, vec![Cell::Int(age)]);
    }
    assert_eq!(reader.next(&data, &mut row), Err(ScanError::CorruptRow { block: 5, row: 7 }));
    // the scan yields no more rows
    assert_eq!(reader.next(&data, &mut row), Ok(None));
    assert_eq!(reader.row_cnt, 57);
}

#[test]
fn string_slot_without_terminator_is_corrupt() {
    let (mut data, metadata) = names_file();
    for b in &mut data[32 * 3..32 * 4] {
        *b = b'd';
    }
    let cols = [String::from("name")];
    let mut reader = Db721Reader::new(metadata, &cols, &[], &None).unwrap();
    let mut row = Vec::new();
    for _ in 0..3 {
        assert_eq!(reader.next(&data, &mut row), Ok(Some(())));
    }
    assert_eq!(reader.next(&data, &mut row), Err(ScanError::CorruptRow { block: 1, row: 1 }));
    assert_eq!(reader.next(&data, &mut row), Ok(None));
}

#[test]
fn corrupt_cell_behind_a_failing_predicate_is_not_read() {
    let (mut data, metadata) = names_file();
    // the slot of row 3 (id 103) loses its terminator
    for b in &mut data[32 * 3..32 * 4] {
        *b = b'd';
    }
    // the predicate on id fails on row 3 before the name is decoded
    let quals = [qual("id", ">", HostValue::Int(103))];
    let rows = run(metadata, &["name", "id"], &quals, None, &data).unwrap();
    assert_eq!(
        rows,
        vec![
            vec![Cell::Str(b"epsilon".to_vec()), Cell::Int(104)],
            vec![Cell::Str(b"zeta".to_vec()), Cell::Int(105)],
        ]
    );
}

#[test]
fn block_without_statistics_is_not_skipped() {
    let mut stats = HashMap::new();
    stats.insert(0, BlockStats { num: 2, min: 0, max: 1, min_len: 0, max_len: 0 });
    stats.insert(2, BlockStats { num: 2, min: 4, max: 5, min_len: 0, max_len: 0 });
    let column = Column {
        name: String::from("v"),
        block_stats: Stats::Int(stats),
        num_blocks: 3,
        start_offset: 0,
    };
    let metadata = Metadata::new(String::from("t"), vec![column], 2).unwrap();
    let cols = [String::from("v")];
    let quals = [qual("v", ">", HostValue::Int(100))];
    let reader = Db721Reader::new(metadata, &cols, &quals, &None).unwrap();
    assert!(reader.skip_block(0));
    assert!(!reader.skip_block(1));
    assert!(reader.skip_block(2));
    assert_eq!(reader.block_num, 1);
}

#[test]
fn ending_a_scan_twice_changes_nothing_more() {
    let data = age_file();
    let cols = [String::from("age")];
    let mut fdw = Db721Fdw::new();
    assert_eq!(fdw.begin_scan(age_metadata(), &[], &cols, &None), Ok(()));
    let mut row = Vec::new();
    assert_eq!(fdw.iter_scan(&data, &mut row), Ok(Some(())));
    assert_eq!(row, vec![Cell::Int(0)]);
    fdw.end_scan();
    assert!(fdw.reader.is_none());
    fdw.end_scan();
    assert!(fdw.reader.is_none());
    assert_eq!(fdw.iter_scan(&data, &mut row), Ok(None));
    assert_eq!(row, vec![Cell::Int(0)]);
    // a fresh scan starts from the first row again
    assert_eq!(fdw.begin_scan(age_metadata(), &[], &cols, &None), Ok(()));
    assert_eq!(fdw.iter_scan(&data, &mut row), Ok(Some(())));
    assert_eq!(row, vec![Cell::Int(0)]);
}

#[test]
fn float_column_is_filtered_and_pruned_as_numbers() {
    let values: [f32; 6] = [-2.5, -0.0, 0.0, 1.25, f32::NAN, 7.0];
    let mut data = Vec::new();
    for v in values {
        data.extend_from_slice(&v.to_le_bytes());
    }
    let mut stats = HashMap::new();
    let bounds: [(f32, f32); 3] = [(-2.5, -0.0), (0.0, 1.25), (7.0, 7.0)];
    for (b, (lo, hi)) in bounds.iter().enumerate() {
        stats.insert(
            b as u32,
            BlockStats { num: 2, min: lo.to_bits(), max: hi.to_bits(), min_len: 0, max_len: 0 },
        );
    }
    let metadata = || {
        let mut s = HashMap::new();
        for (k, v) in &stats {
            s.insert(*k, BlockStats { num: v.num, min: v.min, max: v.max, min_len: 0, max_len: 0 });
        }
        let column = Column {
            name: String::from("x"),
            block_stats: Stats::Float(s),
            num_blocks: 3,
            start_offset: 0,
        };
        Metadata::new(String::from("t"), vec![column], 2).unwrap()
    };
    let floats = |rows: Vec<Vec<Cell>>| -> Vec<u32> {
        rows.into_iter()
            .map(|r| match r[0] {
                Cell::Float(bits) => bits,
                _ => panic!("not a float"),
            })
            .collect()
    };
    // x >= 0 holds of both zeros and of no NaN
    let quals = [qual("x", ">=", HostValue::Float(0.0f32.to_bits()))];
    let rows = run(metadata(), &["x"], &quals, None, &data).unwrap();
    assert_eq!(
        floats(rows),
        vec![(-0.0f32).to_bits(), 0.0f32.to_bits(), 1.25f32.to_bits(), 7.0f32.to_bits()]
    );
    // x < 0: blocks 1 and 2 are pruned
    let quals = [qual("x", "<", HostValue::Float(0.0f32.to_bits()))];
    let cols = [String::from("x")];
    let reader = Db721Reader::new(metadata(), &cols, &quals, &None).unwrap();
    assert!(!reader.skip_block(0));
    assert!(reader.skip_block(1));
    assert!(reader.skip_block(2));
    let rows = run(metadata(), &["x"], &quals, None, &data).unwrap();
    assert_eq!(floats(rows), vec![(-2.5f32).to_bits()]);
    // a NaN on the right-hand side holds of nothing and prunes nothing
    let quals = [qual("x", "=", HostValue::Float(f32::NAN.to_bits()))];
    let reader = Db721Reader::new(metadata(), &cols, &quals, &None).unwrap();
    assert_eq!(reader.block_num, 0);
    let rows = run(metadata(), &["x"], &quals, None, &data).unwrap();
    assert!(rows.is_empty());
}

#[test]
fn cell_offset_follows_start_block_and_row() {
    // two int columns behind one another, 3 blocks of 2
    let mut data = vec![0xaau8; 5];
    for v in 0..6i32 {
        data.extend_from_slice(&(v * 3).to_le_bytes());
    }
    let mut stats = HashMap::new();
    for b in 0..3u32 {
        stats.insert(b, BlockStats { num: 2, min: 0, max: 15, min_len: 0, max_len: 0 });
    }
    let column = Column {
        name: String::from("v"),
        block_stats: Stats::Int(stats),
        num_blocks: 3,
        start_offset: 5,
    };
    let metadata = Metadata::new(String::from("t"), vec![column], 2).unwrap();
    let cols = [String::from("v")];
    let mut reader = Db721Reader::new(metadata, &cols, &[], &None).unwrap();
    reader.block_num = 2;
    reader.block_row_num = 1;
    // 5 + (2 * 2 + 1) * 4 = 25
    assert_eq!(reader.read_cur_val(&data, 0), Some(Cell::Int(15)));
    assert_eq!(&data[25..29], &15i32.to_le_bytes());
    assert_eq!(reader.plan.read_cell(&data, 0, 1, 0), Some(Cell::Int(6)));
    assert_eq!(reader.plan.read_cell(&data, 0, 3, 0), None);
}
