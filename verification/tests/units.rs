//! Unit checks of the level tracker, the wire readers and the per-type
//! conversions, each through the public API.

use pg2parquet::appenders::records::ChunkValues;
use pg2parquet::datatypes::interval::{interval_to_fixed, parse_interval, PgInterval};
use pg2parquet::datatypes::numeric::{numeric_to_text, parse_numeric};
use pg2parquet::datatypes::utils::{read_i32, read_i64};
use pg2parquet::level_index::{LevelIndexList, LevelIndexState};
use pg2parquet::parquet_writer::{ParquetRowWriter, WriterSettings};
use pg2parquet::postgres_cloner::{
    default_settings, format_schema, map_schema_root, PgColumn, PgType, PgTypeKind,
    SchemaSettingsArrayHandling, SchemaSettingsFloat16Handling, SchemaSettingsMacaddrHandling,
};
use pg2parquet::postgresutils::identify_row;
use pg2parquet::myfrom::MyFrom;
use pg2parquet::myfrom::Nullable;
use pg2parquet::appenders::real_memory_size::RealMemorySize;
use pg2parquet::appenders::fixed_byte_array::FixedByteArrayColumnAppender;
use pg2parquet::appenders::fixed_byte_array::FixedConv;
use pg2parquet::appenders::records::PgValue;

fn simple(name: &str) -> PgType {
    PgType { name: name.to_string(), kind: PgTypeKind::Simple }
}

fn one_column(name: &str, ty: PgType) -> Vec<PgColumn> {
    vec![PgColumn { name: name.to_string(), ty }]
}

fn run_one(
    columns: &Vec<PgColumn>,
    settings: &pg2parquet::postgres_cloner::SchemaSettings,
    rows: Vec<Vec<Option<Vec<u8>>>>,
) -> pg2parquet::parquet_writer::RowGroupData {
    let (appender, _schema) = map_schema_root(columns, settings).expect("schema should plan");
    let mut w = ParquetRowWriter::new(
        appender,
        WriterSettings { row_group_byte_limit: 1 << 30, row_group_row_limit: 1 << 20 },
    );
    for row in rows {
        let (w2, res) = w.write_row(row);
        w = w2;
        res.expect("row should append");
    }
    let (_stats, group) = w.close();
    group
}

#[test]
fn tracker_first_record_is_level_zero() {
    let mut state = LevelIndexState::new(1);
    let path = LevelIndexList::new_i(0).new_child();
    assert_eq!(state.copy_and_diff(&path), 0);
}

#[test]
fn tracker_sibling_differs_at_leaf_level() {
    let mut state = LevelIndexState::new(1);
    let mut path = LevelIndexList::new_i(0).new_child();
    assert_eq!(state.copy_and_diff(&path), 0);
    path.inc();
    assert_eq!(state.copy_and_diff(&path), 1);
}

#[test]
fn tracker_new_row_differs_at_root() {
    let mut state = LevelIndexState::new(1);
    let mut path = LevelIndexList::new_i(0).new_child();
    assert_eq!(state.copy_and_diff(&path), 0);
    path.inc();
    assert_eq!(state.copy_and_diff(&path), 1);
    let path2 = LevelIndexList::new_i(1).new_child();
    assert_eq!(state.copy_and_diff(&path2), 0);
}

#[test]
fn tracker_state_difference() {
    let mut a = LevelIndexState::new(2);
    let b = LevelIndexState::new(2);
    assert_eq!(a.get_level_difference(&b), 3);
    let path = LevelIndexList::new_i(5).new_child().new_child();
    a.copy_and_diff(&path);
    assert_eq!(a.get_level_difference(&b), 0);
    let mut c = LevelIndexState::new(2);
    c.copy_from(&a);
    assert_eq!(c.get_level_difference(&a), 3);
}

#[test]
fn big_endian_readers() {
    assert_eq!(read_i32(&[0xff, 0xff, 0xff, 0xfe]), -2);
    assert_eq!(read_i32(&[0x00, 0x00, 0x00, 0x2a]), 42);
    assert_eq!(read_i64(&[0x80, 0, 0, 0, 0, 0, 0, 0]), i64::MIN);
    assert_eq!(read_i64(&[0, 0, 0, 0, 0, 0, 0, 9]), 9);
}

#[test]
fn interval_parse_and_fixed_bytes() {
    let mut wire = 14706789012i64.to_be_bytes().to_vec();
    wire.extend_from_slice(&3i32.to_be_bytes());
    wire.extend_from_slice(&14i32.to_be_bytes());
    let iv = parse_interval(&wire).unwrap();
    assert_eq!(iv.microseconds, 14706789012);
    assert_eq!(iv.days, 3);
    assert_eq!(iv.months, 14);
    let mut out = Vec::new();
    interval_to_fixed(&iv, &mut out).unwrap();
    assert_eq!(&out[0..4], &14i32.to_le_bytes());
    assert_eq!(&out[4..8], &3i32.to_le_bytes());
    assert_eq!(&out[8..12], &14706789i32.to_le_bytes());
}

#[test]
fn negative_interval_borrows_a_day() {
    // A negative time field floor-divides: one day is borrowed and the
    // remaining nonnegative microseconds truncate to milliseconds.
    let iv = PgInterval { microseconds: -500, days: 0, months: 0 };
    let mut out = Vec::new();
    interval_to_fixed(&iv, &mut out).unwrap();
    assert_eq!(&out[4..8], &(-1i32).to_le_bytes());
    assert_eq!(&out[8..12], &86_399_999i32.to_le_bytes());
    let iv2 = PgInterval { microseconds: -1500, days: 2, months: 0 };
    let mut out2 = Vec::new();
    interval_to_fixed(&iv2, &mut out2).unwrap();
    assert_eq!(&out2[4..8], &1i32.to_le_bytes());
    assert_eq!(&out2[8..12], &86_399_998i32.to_le_bytes());
}

fn numeric_wire_u(neg: bool, weight: i16, dscale: u16, digits: &[u16]) -> Vec<u8> {
    let mut b = (digits.len() as u16).to_be_bytes().to_vec();
    b.extend_from_slice(&weight.to_be_bytes());
    b.extend_from_slice(&(if neg { 0x4000u16 } else { 0u16 }).to_be_bytes());
    b.extend_from_slice(&dscale.to_be_bytes());
    for d in digits {
        b.extend_from_slice(&d.to_be_bytes());
    }
    b
}

#[test]
fn numeric_text_forms() {
    let v = parse_numeric(&numeric_wire_u(false, 0, 3, &[123, 4560])).unwrap();
    assert_eq!(numeric_to_text(&v), b"123.456".to_vec());
    let v2 = parse_numeric(&numeric_wire_u(true, -1, 4, &[1200])).unwrap();
    assert_eq!(numeric_to_text(&v2), b"-0.1200".to_vec());
    let v3 = parse_numeric(&numeric_wire_u(false, 1, 0, &[1])).unwrap();
    assert_eq!(numeric_to_text(&v3), b"10000".to_vec());
    let nan_wire: Vec<u8> = vec![0, 0, 0, 0, 0xc0, 0, 0, 0];
    let nan = parse_numeric(&nan_wire).unwrap();
    assert!(nan.nan);
    assert_eq!(numeric_to_text(&nan), b"NaN".to_vec());
}

#[test]
fn money_is_cents() {
    let cols = one_column("m", simple("money"));
    let rows = vec![vec![Some(12345i64.to_be_bytes().to_vec())]];
    let group = run_one(&cols, &default_settings(), rows);
    match &group.chunks[0].values {
        ChunkValues::I64(v) => assert_eq!(v, &vec![12345]),
        _ => panic!("expected a 64-bit chunk"),
    }
}

#[test]
fn uuid_passes_sixteen_bytes() {
    let cols = one_column("u", simple("uuid"));
    let bytes: Vec<u8> = (0u8..16).collect();
    let rows = vec![vec![Some(bytes.clone())]];
    let group = run_one(&cols, &default_settings(), rows);
    match &group.chunks[0].values {
        ChunkValues::Fixed(16, v) => assert_eq!(v[0], bytes),
        _ => panic!("expected a sixteen-byte chunk"),
    }
}

#[test]
fn macaddr_text_form() {
    let cols = one_column("m", simple("macaddr"));
    let rows = vec![vec![Some(vec![0x01, 0x2a, 0xff, 0x00, 0x10, 0x9f])]];
    let group = run_one(&cols, &default_settings(), rows);
    match &group.chunks[0].values {
        ChunkValues::Bytes(v) => assert_eq!(v[0], b"01:2a:ff:00:10:9f".to_vec()),
        _ => panic!("expected a text chunk"),
    }
}

#[test]
fn macaddr_int64_form() {
    let mut settings = default_settings();
    settings.macaddr_handling = SchemaSettingsMacaddrHandling::Int64;
    let cols = one_column("m", simple("macaddr"));
    let rows = vec![vec![Some(vec![0x01, 0x02, 0x03, 0x04, 0x05, 0x06])]];
    let group = run_one(&cols, &settings, rows);
    match &group.chunks[0].values {
        ChunkValues::I64(v) => assert_eq!(v[0], 0x010203040506),
        _ => panic!("expected a 64-bit chunk"),
    }
}

#[test]
fn varbit_text_form() {
    let cols = one_column("b", simple("varbit"));
    let mut wire = 10i32.to_be_bytes().to_vec();
    wire.push(0b1010_0000);
    wire.push(0b0100_0000);
    let rows = vec![vec![Some(wire)]];
    let group = run_one(&cols, &default_settings(), rows);
    match &group.chunks[0].values {
        ChunkValues::Bytes(v) => assert_eq!(v[0], b"1010000001".to_vec()),
        _ => panic!("expected a text chunk"),
    }
}

#[test]
fn inet_text_forms() {
    let cols = one_column("i", simple("inet"));
    let v4 = vec![2u8, 32, 0, 4, 192, 168, 0, 1];
    let mut v6 = vec![3u8, 128, 0, 16];
    v6.extend_from_slice(&[
        0x20, 0x01, 0x0d, 0xb8, 0, 0, 0, 0, 0, 0, 0, 0, 0, 0, 0, 0x42,
    ]);
    let rows = vec![vec![Some(v4)], vec![Some(v6)]];
    let group = run_one(&cols, &default_settings(), rows);
    match &group.chunks[0].values {
        ChunkValues::Bytes(v) => {
            assert_eq!(v[0], b"192.168.0.1".to_vec());
            assert_eq!(v[1], b"2001:db8::42".to_vec());
        },
        _ => panic!("expected a text chunk"),
    }
}

#[test]
fn jsonb_version_stripped() {
    let cols = one_column("j", simple("jsonb"));
    let mut wire = vec![1u8];
    wire.extend_from_slice(b"{\"a\":1}");
    let rows = vec![vec![Some(wire)]];
    let group = run_one(&cols, &default_settings(), rows);
    match &group.chunks[0].values {
        ChunkValues::Bytes(v) => assert_eq!(v[0], b"{\"a\":1}".to_vec()),
        _ => panic!("expected a text chunk"),
    }
}

#[test]
fn jsonb_unknown_version_fails() {
    let cols = one_column("j", simple("jsonb"));
    let (appender, _schema) = map_schema_root(&cols, &default_settings()).unwrap();
    let w = ParquetRowWriter::new(
        appender,
        WriterSettings { row_group_byte_limit: 1 << 30, row_group_row_limit: 1 << 20 },
    );
    let (_w2, res) = w.write_row(vec![Some(vec![2u8, b'x'])]);
    assert!(res.is_err());
}

#[test]
fn timestamp_shifts_epoch() {
    let cols = one_column("t", simple("timestamp"));
    let rows = vec![vec![Some(0i64.to_be_bytes().to_vec())]];
    let group = run_one(&cols, &default_settings(), rows);
    match &group.chunks[0].values {
        ChunkValues::I64(v) => assert_eq!(v[0], 946_684_800_000_000),
        _ => panic!("expected a 64-bit chunk"),
    }
}

#[test]
fn date_shifts_epoch() {
    let cols = one_column("d", simple("date"));
    let rows = vec![vec![Some(0i32.to_be_bytes().to_vec())]];
    let group = run_one(&cols, &default_settings(), rows);
    match &group.chunks[0].values {
        ChunkValues::I32(v) => assert_eq!(v[0], 10957),
        _ => panic!("expected a 32-bit chunk"),
    }
}

fn f32vec_wire(vals: &[f32]) -> Vec<u8> {
    let mut b = (vals.len() as u16).to_be_bytes().to_vec();
    b.extend_from_slice(&0u16.to_be_bytes());
    for v in vals {
        b.extend_from_slice(&v.to_bits().to_be_bytes());
    }
    b
}

#[test]
fn vector_elements_are_float_bits() {
    let cols = one_column("v", simple("vector"));
    let rows = vec![vec![Some(f32vec_wire(&[1.5, -2.0]))]];
    let group = run_one(&cols, &default_settings(), rows);
    let c = &group.chunks[0];
    match &c.values {
        ChunkValues::F32Bits(v) => {
            assert_eq!(v[0], 1.5f32.to_bits());
            assert_eq!(v[1], (-2.0f32).to_bits());
        },
        _ => panic!("expected float bit patterns"),
    }
    assert_eq!(c.rls.as_ref().unwrap(), &vec![0, 1]);
}

#[test]
fn halfvec_widens_to_float32() {
    let cols = one_column("v", simple("halfvec"));
    let mut wire = 2u16.to_be_bytes().to_vec();
    wire.extend_from_slice(&0u16.to_be_bytes());
    wire.extend_from_slice(&0x3c00u16.to_be_bytes()); // 1.0
    wire.extend_from_slice(&0xc000u16.to_be_bytes()); // -2.0
    let rows = vec![vec![Some(wire)]];
    let group = run_one(&cols, &default_settings(), rows);
    match &group.chunks[0].values {
        ChunkValues::F32Bits(v) => {
            assert_eq!(f32::from_bits(v[0]), 1.0);
            assert_eq!(f32::from_bits(v[1]), -2.0);
        },
        _ => panic!("expected float bit patterns"),
    }
}

#[test]
fn halfvec_subnormal_widens_exactly() {
    let mut settings = default_settings();
    settings.float16_handling = SchemaSettingsFloat16Handling::Float32;
    let cols = one_column("v", simple("halfvec"));
    let mut wire = 1u16.to_be_bytes().to_vec();
    wire.extend_from_slice(&0u16.to_be_bytes());
    wire.extend_from_slice(&0x0001u16.to_be_bytes()); // smallest subnormal
    let rows = vec![vec![Some(wire)]];
    let group = run_one(&cols, &settings, rows);
    match &group.chunks[0].values {
        ChunkValues::F32Bits(v) => assert_eq!(f32::from_bits(v[0]), 5.960464477539063e-8),
        _ => panic!("expected float bit patterns"),
    }
}

fn sparsevec_wire(dim: i32, entries: &[(i32, f32)]) -> Vec<u8> {
    let mut b = dim.to_be_bytes().to_vec();
    b.extend_from_slice(&(entries.len() as i32).to_be_bytes());
    b.extend_from_slice(&0i32.to_be_bytes());
    for (i, _) in entries {
        b.extend_from_slice(&i.to_be_bytes());
    }
    for (_, v) in entries {
        b.extend_from_slice(&v.to_bits().to_be_bytes());
    }
    b
}

#[test]
fn sparsevec_keys_are_one_based() {
    let cols = one_column("s", simple("sparsevec"));
    let rows = vec![vec![Some(sparsevec_wire(5, &[(0, 1.5), (3, 2.5)]))]];
    let group = run_one(&cols, &default_settings(), rows);
    assert_eq!(group.chunks.len(), 2);
    match &group.chunks[0].values {
        ChunkValues::I32(v) => assert_eq!(v, &vec![1, 4]),
        _ => panic!("expected key chunk"),
    }
    match &group.chunks[1].values {
        ChunkValues::F32Bits(v) => {
            assert_eq!(f32::from_bits(v[0]), 1.5);
            assert_eq!(f32::from_bits(v[1]), 2.5);
        },
        _ => panic!("expected value chunk"),
    }
}

fn int4_array_wire_nd(dims: &[(i32, i32)], elems: &[Option<i32>]) -> Vec<u8> {
    let mut b = (dims.len() as i32).to_be_bytes().to_vec();
    b.extend_from_slice(&1i32.to_be_bytes());
    b.extend_from_slice(&23i32.to_be_bytes());
    for (len, lb) in dims {
        b.extend_from_slice(&len.to_be_bytes());
        b.extend_from_slice(&lb.to_be_bytes());
    }
    for e in elems {
        match e {
            Some(v) => {
                b.extend_from_slice(&4i32.to_be_bytes());
                b.extend_from_slice(&v.to_be_bytes());
            },
            None => b.extend_from_slice(&(-1i32).to_be_bytes()),
        }
    }
    b
}

#[test]
fn array_dimensions_sidecar() {
    let mut settings = default_settings();
    settings.array_handling = SchemaSettingsArrayHandling::DimensionsAndLowerBound;
    let elem = simple("int4");
    let cols = one_column(
        "a",
        PgType { name: "_int4".to_string(), kind: PgTypeKind::Array(Box::new(elem)) },
    );
    let rows = vec![vec![Some(int4_array_wire_nd(
        &[(2, 1), (3, 0)],
        &[Some(1), Some(2), Some(3), Some(4), Some(5), Some(6)],
    ))]];
    let group = run_one(&cols, &settings, rows);
    assert_eq!(group.chunks.len(), 3);
    match &group.chunks[0].values {
        ChunkValues::I32(v) => assert_eq!(v, &vec![1, 2, 3, 4, 5, 6]),
        _ => panic!("expected data chunk"),
    }
    match &group.chunks[1].values {
        ChunkValues::I32(v) => assert_eq!(v, &vec![2, 3]),
        _ => panic!("expected dims chunk"),
    }
    match &group.chunks[2].values {
        ChunkValues::I32(v) => assert_eq!(v, &vec![1, 0]),
        _ => panic!("expected lower-bound chunk"),
    }
}

#[test]
fn identify_row_prefers_first_printable() {
    let columns = vec![
        PgColumn { name: "t".to_string(), ty: simple("text") },
        PgColumn { name: "n".to_string(), ty: simple("int8") },
    ];
    let row = vec![None, Some((-7i64).to_be_bytes().to_vec())];
    let id = identify_row(&columns, &row);
    assert_eq!(id, "n=-7");
}

#[test]
fn identify_row_prints_text_value() {
    let columns = vec![PgColumn { name: "t".to_string(), ty: simple("text") }];
    let row = vec![Some(b"alice".to_vec())];
    let id = identify_row(&columns, &row);
    assert_eq!(id, "t=\"alice\"");
    // An invalid UTF-8 cell still identifies the row by name alone.
    let bad = vec![Some(vec![0xc0u8, 0x20])];
    assert_eq!(identify_row(&columns, &bad), "t");
}

#[test]
fn format_schema_names_the_tree() {
    let cols = one_column("a", simple("int4"));
    let (_appender, schema) = map_schema_root(&cols, &default_settings()).unwrap();
    let text = format_schema(&schema, 0);
    assert!(text.contains("root"));
    assert!(text.contains("optional a: int32"));
}

#[test]
fn widening_conversions() {
    let a: i64 = i64::my_from(-5i32);
    assert_eq!(a, -5);
    let b: i32 = i32::my_from(-7i16);
    assert_eq!(b, -7);
    let c: u64 = u64::my_from(9u32);
    assert_eq!(c, 9);
}

#[test]
fn nullable_wrapping() {
    let v: Option<i32> = Some(3).as_option();
    assert_eq!(v, Some(3));
}

#[test]
fn memory_sizes() {
    assert_eq!(true.real_memory_size(), 1);
    assert_eq!(7i32.real_memory_size(), 4);
    assert_eq!(7i64.real_memory_size(), 8);
    assert_eq!(vec![1u8, 2, 3].real_memory_size(), 3);
}

#[test]
fn malformed_array_fails() {
    let elem = simple("int4");
    let cols = one_column(
        "a",
        PgType { name: "_int4".to_string(), kind: PgTypeKind::Array(Box::new(elem)) },
    );
    let (appender, _schema) = map_schema_root(&cols, &default_settings()).unwrap();
    let w = ParquetRowWriter::new(
        appender,
        WriterSettings { row_group_byte_limit: 1 << 30, row_group_row_limit: 1 << 20 },
    );
    let (_w2, res) = w.write_row(vec![Some(vec![0, 1, 2])]);
    assert!(res.is_err());
}

#[test]
fn masked_inet_keeps_address() {
    let cols = one_column("i", simple("inet"));
    // A /24 network exports the bare address; the mask width is dropped.
    let rows = vec![vec![Some(vec![2u8, 24, 0, 4, 10, 0, 0, 1])]];
    let group = run_one(&cols, &default_settings(), rows);
    match &group.chunks[0].values {
        ChunkValues::Bytes(v) => assert_eq!(v[0], b"10.0.0.1".to_vec()),
        _ => panic!("expected a text chunk"),
    }
}

#[test]
fn ipv6_text_is_canonical() {
    let cols = one_column("i", simple("inet"));
    let header = [3u8, 128, 0, 16];
    let mut full = header.to_vec();
    full.extend_from_slice(&[0, 1, 0, 2, 0, 3, 0, 4, 0, 5, 0, 6, 0, 7, 0, 8]);
    let mut loopback = header.to_vec();
    loopback.extend_from_slice(&[0, 0, 0, 0, 0, 0, 0, 0, 0, 0, 0, 0, 0, 0, 0, 1]);
    let mut mapped = header.to_vec();
    mapped.extend_from_slice(&[0, 0, 0, 0, 0, 0, 0, 0, 0, 0, 0xff, 0xff, 1, 2, 3, 4]);
    let mut tie = header.to_vec();
    // Two equal runs of two zero groups: the leftmost one compresses.
    tie.extend_from_slice(&[0, 1, 0, 0, 0, 0, 0, 2, 0, 0, 0, 0, 0, 3, 0, 4]);
    let rows = vec![
        vec![Some(full)],
        vec![Some(loopback)],
        vec![Some(mapped)],
        vec![Some(tie)],
    ];
    let group = run_one(&cols, &default_settings(), rows);
    match &group.chunks[0].values {
        ChunkValues::Bytes(v) => {
            assert_eq!(v[0], b"1:2:3:4:5:6:7:8".to_vec());
            assert_eq!(v[1], b"::1".to_vec());
            assert_eq!(v[2], b"::ffff:1.2.3.4".to_vec());
            assert_eq!(v[3], b"1::2:0:0:3:4".to_vec());
        },
        _ => panic!("expected a text chunk"),
    }
}

#[test]
fn text_and_bytea_pass_through() {
    let cols = vec![
        PgColumn { name: "t".to_string(), ty: simple("text") },
        PgColumn { name: "b".to_string(), ty: simple("bytea") },
    ];
    let rows = vec![vec![Some(b"hello".to_vec()), Some(vec![0u8, 255])]];
    let group = run_one(&cols, &default_settings(), rows);
    match &group.chunks[0].values {
        ChunkValues::Bytes(v) => assert_eq!(v[0], b"hello".to_vec()),
        _ => panic!("expected text bytes"),
    }
    match &group.chunks[1].values {
        ChunkValues::Bytes(v) => assert_eq!(v[0], vec![0u8, 255]),
        _ => panic!("expected raw bytes"),
    }
}

#[test]
fn interval_struct_policy() {
    let mut settings = default_settings();
    settings.interval_handling = pg2parquet::postgres_cloner::SchemaSettingsIntervalHandling::Struct;
    let cols = one_column("iv", simple("interval"));
    let mut wire = 123456i64.to_be_bytes().to_vec();
    wire.extend_from_slice(&7i32.to_be_bytes());
    wire.extend_from_slice(&2i32.to_be_bytes());
    let rows = vec![vec![Some(wire)]];
    let group = run_one(&cols, &settings, rows);
    assert_eq!(group.chunks.len(), 3);
    match &group.chunks[0].values {
        ChunkValues::I32(v) => assert_eq!(v, &vec![2]),
        _ => panic!("expected months"),
    }
    match &group.chunks[1].values {
        ChunkValues::I32(v) => assert_eq!(v, &vec![7]),
        _ => panic!("expected days"),
    }
    match &group.chunks[2].values {
        ChunkValues::I64(v) => assert_eq!(v, &vec![123456]),
        _ => panic!("expected microseconds"),
    }
}

#[test]
fn decimal_byte_array_two_complement() {
    let mut settings = default_settings();
    settings.numeric_handling = pg2parquet::postgres_cloner::SchemaSettingsNumericHandling::Decimal;
    settings.decimal_precision = 38;
    settings.decimal_scale = 2;
    let cols = one_column("n", simple("numeric"));
    let rows = vec![
        vec![Some(numeric_wire_u(false, 0, 2, &[1, 2300]))], // 1.23
        vec![Some(numeric_wire_u(true, 0, 2, &[1, 2300]))], // -1.23
    ];
    let group = run_one(&cols, &settings, rows);
    match &group.chunks[0].values {
        ChunkValues::Bytes(v) => {
            assert_eq!(v[0], vec![0x7b]); // 123
            assert_eq!(v[1], vec![0x85]); // -123
        },
        _ => panic!("expected two's-complement bytes"),
    }
}

#[test]
fn fixed_append_array_batches() {
    let a = FixedByteArrayColumnAppender::new(1, 0, 2, true, FixedConv::Pass);
    let path = LevelIndexList::new_i(0);
    let vals = vec![PgValue::Raw(vec![1, 2]), PgValue::Raw(vec![3, 4])];
    let (a2, res) = a.append_array(&path, &vals);
    assert!(res.is_ok());
    let (_a3, chunk) = a2.write_column();
    match chunk.values {
        pg2parquet::appenders::records::ChunkValues::Fixed(2, v) => {
            assert_eq!(v, vec![vec![1, 2], vec![3, 4]]);
        },
        _ => panic!("expected fixed values"),
    }
}

#[test]
fn money_and_jsonb_and_enum_decoders() {
    let m = pg2parquet::datatypes::money::parse_money(&12345i64.to_be_bytes()).unwrap();
    assert_eq!(m.amount, 12345);
    let j = pg2parquet::datatypes::jsonb::parse_jsonb(&[1, b'{', b'}']).unwrap();
    assert_eq!(j.data, b"{}".to_vec());
    assert!(pg2parquet::datatypes::jsonb::parse_jsonb(&[9, b'x']).is_err());
    let e = pg2parquet::pg_custom_types::parse_enum_label(b"happy").unwrap();
    assert_eq!(e.name, b"happy".to_vec());
    assert!(pg2parquet::pg_custom_types::parse_enum_label(&[0xc0, 0x20]).is_err());
}

#[test]
fn float_columns_pass_bit_patterns() {
    let cols = vec![
        PgColumn { name: "f".to_string(), ty: simple("float4") },
        PgColumn { name: "d".to_string(), ty: simple("float8") },
    ];
    let rows = vec![vec![
        Some(1.25f32.to_bits().to_be_bytes().to_vec()),
        Some((-0.5f64).to_bits().to_be_bytes().to_vec()),
    ]];
    let group = run_one(&cols, &default_settings(), rows);
    match &group.chunks[0].values {
        ChunkValues::F32Bits(v) => assert_eq!(f32::from_bits(v[0]), 1.25),
        _ => panic!("expected 32-bit float bits"),
    }
    match &group.chunks[1].values {
        ChunkValues::F64Bits(v) => assert_eq!(f64::from_bits(v[0]), -0.5),
        _ => panic!("expected 64-bit float bits"),
    }
}

#[test]
fn numeric_as_float32_text() {
    let mut settings = default_settings();
    settings.numeric_handling = pg2parquet::postgres_cloner::SchemaSettingsNumericHandling::Float32;
    let cols = one_column("n", simple("numeric"));
    let rows = vec![vec![Some(numeric_wire_u(false, 0, 2, &[2, 2500]))]];
    let group = run_one(&cols, &settings, rows);
    match &group.chunks[0].values {
        ChunkValues::F32Dec(v) => {
            let s = String::from_utf8(v[0].clone()).unwrap();
            assert_eq!(s.parse::<f32>().unwrap(), 2.25);
        },
        _ => panic!("expected decimal text destined for a float column"),
    }
}

#[test]
fn small_integer_widenings() {
    let cols = vec![
        PgColumn { name: "s".to_string(), ty: simple("int2") },
        PgColumn { name: "o".to_string(), ty: simple("oid") },
        PgColumn { name: "c".to_string(), ty: simple("char") },
        PgColumn { name: "b".to_string(), ty: simple("bool") },
    ];
    let rows = vec![vec![
        Some((-3i16).to_be_bytes().to_vec()),
        Some(4000000000u32.to_be_bytes().to_vec()),
        Some(vec![0x80]),
        Some(vec![1]),
    ]];
    let group = run_one(&cols, &default_settings(), rows);
    match &group.chunks[0].values {
        ChunkValues::I32(v) => assert_eq!(v[0], -3),
        _ => panic!("expected int2 widened"),
    }
    match &group.chunks[1].values {
        // The unsigned value is carried in the signed column's bits.
        ChunkValues::I32(v) => assert_eq!(v[0] as u32, 4000000000),
        _ => panic!("expected oid bits"),
    }
    match &group.chunks[2].values {
        ChunkValues::I32(v) => assert_eq!(v[0], -128),
        _ => panic!("expected char value"),
    }
    match &group.chunks[3].values {
        ChunkValues::Bool(v) => assert_eq!(v[0], true),
        _ => panic!("expected bool"),
    }
}

#[test]
fn invalid_utf8_text_fails() {
    let cols = one_column("t", simple("text"));
    let (appender, _schema) = map_schema_root(&cols, &default_settings()).unwrap();
    let w = ParquetRowWriter::new(
        appender,
        WriterSettings { row_group_byte_limit: 1 << 30, row_group_row_limit: 1 << 20 },
    );
    let (_w2, res) = w.write_row(vec![Some(vec![0xff, 0xfe])]);
    assert!(res.is_err());
}

#[test]
fn invalid_utf8_jsonb_fails() {
    let cols = one_column("j", simple("jsonb"));
    let (appender, _schema) = map_schema_root(&cols, &default_settings()).unwrap();
    let w = ParquetRowWriter::new(
        appender,
        WriterSettings { row_group_byte_limit: 1 << 30, row_group_row_limit: 1 << 20 },
    );
    // Version byte is right, the text is not UTF-8.
    let (_w2, res) = w.write_row(vec![Some(vec![1u8, 0xff])]);
    assert!(res.is_err());
}

#[test]
fn utf8_multibyte_text_passes() {
    let cols = one_column("t", simple("text"));
    let text = "héllo ✓".as_bytes().to_vec();
    let rows = vec![vec![Some(text.clone())]];
    let group = run_one(&cols, &default_settings(), rows);
    match &group.chunks[0].values {
        ChunkValues::Bytes(v) => assert_eq!(v[0], text),
        _ => panic!("expected text bytes"),
    }
}
