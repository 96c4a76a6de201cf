//! End-to-end scenarios: plan a schema, feed wire-format rows, and check
//! the Dremel-encoded chunks that come out.

use pg2parquet::appenders::records::{ChunkValues, ColumnChunkData};
use pg2parquet::parquet_writer::{ParquetRowWriter, RowGroupData, WriterSettings};
use pg2parquet::postgres_cloner::default_settings;
use pg2parquet::postgres_cloner::map_schema_root;
use pg2parquet::postgres_cloner::PgColumn;
use pg2parquet::postgres_cloner::PgType;
use pg2parquet::postgres_cloner::PgTypeKind;
use pg2parquet::postgres_cloner::SchemaSettings;
use pg2parquet::postgres_cloner::SchemaSettingsNumericHandling;

fn simple(name: &str) -> PgType {
    PgType { name: name.to_string(), kind: PgTypeKind::Simple }
}

fn one_column(name: &str, ty: PgType) -> Vec<PgColumn> {
    vec![PgColumn { name: name.to_string(), ty }]
}

fn be32(v: i32) -> Vec<u8> {
    v.to_be_bytes().to_vec()
}

fn be64(v: i64) -> Vec<u8> {
    v.to_be_bytes().to_vec()
}

fn driver(columns: &Vec<PgColumn>, settings: &SchemaSettings) -> ParquetRowWriter {
    let (appender, _schema) = map_schema_root(columns, settings).expect("schema should plan");
    ParquetRowWriter::new(
        appender,
        WriterSettings { row_group_byte_limit: 1 << 30, row_group_row_limit: 1 << 20 },
    )
}

fn run_rows(
    columns: &Vec<PgColumn>,
    settings: &SchemaSettings,
    rows: Vec<Vec<Option<Vec<u8>>>>,
) -> (RowGroupData, Vec<String>) {
    let mut w = driver(columns, settings);
    let mut warnings: Vec<String> = Vec::new();
    for row in rows {
        let (w2, res) = w.write_row(row);
        w = w2;
        let mut outcome = res.expect("row should append");
        assert!(outcome.flushed.is_none());
        warnings.append(&mut outcome.warnings);
    }
    let (_stats, group) = w.close();
    (group, warnings)
}

fn chunk_i32(c: &ColumnChunkData) -> Vec<i32> {
    match &c.values {
        ChunkValues::I32(v) => v.clone(),
        _ => panic!("expected a 32-bit chunk"),
    }
}

fn chunk_i64(c: &ColumnChunkData) -> Vec<i64> {
    match &c.values {
        ChunkValues::I64(v) => v.clone(),
        _ => panic!("expected a 64-bit chunk"),
    }
}

fn chunk_bool(c: &ColumnChunkData) -> Vec<bool> {
    match &c.values {
        ChunkValues::Bool(v) => v.clone(),
        _ => panic!("expected a boolean chunk"),
    }
}

fn chunk_bytes(c: &ColumnChunkData) -> Vec<Vec<u8>> {
    match &c.values {
        ChunkValues::Bytes(v) => v.clone(),
        _ => panic!("expected a byte-array chunk"),
    }
}

fn chunk_fixed(c: &ColumnChunkData) -> (usize, Vec<Vec<u8>>) {
    match &c.values {
        ChunkValues::Fixed(n, v) => (*n, v.clone()),
        _ => panic!("expected a fixed-width chunk"),
    }
}

fn dls(c: &ColumnChunkData) -> Vec<i16> {
    c.dls.clone().expect("column should carry definition levels")
}

fn rls(c: &ColumnChunkData) -> Vec<i16> {
    c.rls.clone().expect("column should carry repetition levels")
}

#[test]
fn nullable_int_column() {
    let cols = one_column("a", simple("int4"));
    let rows = vec![
        vec![Some(be32(42))],
        vec![None],
        vec![Some(be32(-1))],
    ];
    let (group, warnings) = run_rows(&cols, &default_settings(), rows);
    assert_eq!(group.rows, 3);
    assert_eq!(group.chunks.len(), 1);
    let c = &group.chunks[0];
    assert_eq!(chunk_i32(c), vec![42, -1]);
    assert_eq!(dls(c), vec![1, 0, 1]);
    assert!(c.rls.is_none());
    assert!(warnings.is_empty());
}

fn int4_array_wire(elems: &[Option<i32>]) -> Vec<u8> {
    let mut b = Vec::new();
    b.extend_from_slice(&be32(1)); // one dimension
    b.extend_from_slice(&be32(1)); // may contain nulls
    b.extend_from_slice(&be32(23)); // element type object id
    b.extend_from_slice(&be32(elems.len() as i32));
    b.extend_from_slice(&be32(1)); // lower bound
    for e in elems {
        match e {
            Some(v) => {
                b.extend_from_slice(&be32(4));
                b.extend_from_slice(&be32(*v));
            },
            None => b.extend_from_slice(&be32(-1)),
        }
    }
    b
}

#[test]
fn int_array_column() {
    let elem = simple("int4");
    let cols = one_column(
        "a",
        PgType { name: "_int4".to_string(), kind: PgTypeKind::Array(Box::new(elem)) },
    );
    let rows = vec![
        vec![Some(int4_array_wire(&[Some(1), Some(2), Some(3)]))],
        vec![None],
        vec![Some(int4_array_wire(&[]))],
        vec![Some(int4_array_wire(&[None, Some(7)]))],
    ];
    let (group, _w) = run_rows(&cols, &default_settings(), rows);
    assert_eq!(group.chunks.len(), 1);
    let c = &group.chunks[0];
    assert_eq!(chunk_i32(c), vec![1, 2, 3, 7]);
    assert_eq!(dls(c), vec![3, 3, 3, 0, 1, 2, 3]);
    assert_eq!(rls(c), vec![0, 1, 1, 0, 0, 0, 1]);
}

fn int4_2x2_wire() -> Vec<u8> {
    let mut b = Vec::new();
    b.extend_from_slice(&be32(2)); // two dimensions
    b.extend_from_slice(&be32(0));
    b.extend_from_slice(&be32(23));
    for _ in 0..2 {
        b.extend_from_slice(&be32(2)); // dimension length
        b.extend_from_slice(&be32(1)); // lower bound
    }
    for v in [1, 2, 3, 4] {
        b.extend_from_slice(&be32(4));
        b.extend_from_slice(&be32(v));
    }
    b
}

#[test]
fn multidim_array_flatten_warns_once() {
    let elem = simple("int4");
    let cols = one_column(
        "a",
        PgType { name: "_int4".to_string(), kind: PgTypeKind::Array(Box::new(elem)) },
    );
    let rows = vec![
        vec![Some(int4_2x2_wire())],
        vec![Some(int4_2x2_wire())],
    ];
    let (group, warnings) = run_rows(&cols, &default_settings(), rows);
    let c = &group.chunks[0];
    assert_eq!(chunk_i32(c), vec![1, 2, 3, 4, 1, 2, 3, 4]);
    assert_eq!(rls(c), vec![0, 1, 1, 1, 0, 1, 1, 1]);
    assert_eq!(warnings.len(), 1);
    assert!(warnings[0].contains("a"));
    assert!(warnings[0].contains("2x2"));
    assert!(warnings[0].contains("flattened"));
}

fn int4range_wire(lower: Option<i32>, upper: Option<i32>, flags: u8) -> Vec<u8> {
    let mut b = vec![flags];
    if let Some(l) = lower {
        b.extend_from_slice(&be32(4));
        b.extend_from_slice(&be32(l));
    }
    if let Some(u) = upper {
        b.extend_from_slice(&be32(4));
        b.extend_from_slice(&be32(u));
    }
    b
}

#[test]
fn int4range_column() {
    let cols = one_column(
        "r",
        PgType {
            name: "int4range".to_string(),
            kind: PgTypeKind::Range(Box::new(simple("int4"))),
        },
    );
    let rows = vec![
        vec![Some(int4range_wire(Some(1), Some(5), 0x02))], // [1,5)
        vec![Some(int4range_wire(None, None, 0x01))], // empty
        vec![None],
    ];
    let (group, _w) = run_rows(&cols, &default_settings(), rows);
    assert_eq!(group.chunks.len(), 5);
    let lower = &group.chunks[0];
    assert_eq!(chunk_i32(lower), vec![1]);
    assert_eq!(dls(lower), vec![2, 1, 0]);
    let upper = &group.chunks[1];
    assert_eq!(chunk_i32(upper), vec![5]);
    assert_eq!(dls(upper), vec![2, 1, 0]);
    let lower_inc = &group.chunks[2];
    assert_eq!(chunk_bool(lower_inc), vec![true, false]);
    assert_eq!(dls(lower_inc), vec![2, 2, 0]);
    let upper_inc = &group.chunks[3];
    assert_eq!(chunk_bool(upper_inc), vec![false, false]);
    assert_eq!(dls(upper_inc), vec![2, 2, 0]);
    let is_empty = &group.chunks[4];
    assert_eq!(chunk_bool(is_empty), vec![false, true]);
    assert_eq!(dls(is_empty), vec![2, 2, 0]);
}

fn record_wire(cells: &[Option<(i32, Vec<u8>)>]) -> Vec<u8> {
    let mut b = be32(cells.len() as i32);
    for c in cells {
        match c {
            Some((oid, bytes)) => {
                b.extend_from_slice(&be32(*oid));
                b.extend_from_slice(&be32(bytes.len() as i32));
                b.extend_from_slice(bytes);
            },
            None => {
                b.extend_from_slice(&be32(0));
                b.extend_from_slice(&be32(-1));
            },
        }
    }
    b
}

#[test]
fn composite_column() {
    let fields = vec![
        pg2parquet::postgres_cloner::PgField { name: "street".to_string(), ty: simple("text") },
        pg2parquet::postgres_cloner::PgField { name: "zip".to_string(), ty: simple("int4") },
    ];
    let cols = one_column(
        "addr",
        PgType { name: "addr".to_string(), kind: PgTypeKind::Composite(fields) },
    );
    let rows = vec![
        vec![Some(record_wire(&[
            Some((25, b"Main".to_vec())),
            Some((23, be32(12345))),
        ]))],
        vec![Some(record_wire(&[None, Some((23, be32(0)))]))],
        vec![None],
    ];
    let (group, _w) = run_rows(&cols, &default_settings(), rows);
    assert_eq!(group.chunks.len(), 2);
    let street = &group.chunks[0];
    assert_eq!(chunk_bytes(street), vec![b"Main".to_vec()]);
    assert_eq!(dls(street), vec![2, 1, 0]);
    let zip = &group.chunks[1];
    assert_eq!(chunk_i32(zip), vec![12345, 0]);
    assert_eq!(dls(zip), vec![2, 2, 0]);
}

/// A composite whose wire value carries fewer fields than declared:
/// missing trailing fields decode as NULL.
#[test]
fn composite_short_record() {
    let fields = vec![
        pg2parquet::postgres_cloner::PgField { name: "street".to_string(), ty: simple("text") },
        pg2parquet::postgres_cloner::PgField { name: "zip".to_string(), ty: simple("int4") },
    ];
    let cols = one_column(
        "addr",
        PgType { name: "addr".to_string(), kind: PgTypeKind::Composite(fields) },
    );
    let rows = vec![vec![Some(record_wire(&[Some((25, b"A".to_vec()))]))]];
    let (group, _w) = run_rows(&cols, &default_settings(), rows);
    let street = &group.chunks[0];
    assert_eq!(dls(street), vec![2]);
    let zip = &group.chunks[1];
    assert_eq!(chunk_i32(zip), Vec::<i32>::new());
    assert_eq!(dls(zip), vec![1]);
}

fn interval_wire(us: i64, days: i32, months: i32) -> Vec<u8> {
    let mut b = be64(us);
    b.extend_from_slice(&be32(days));
    b.extend_from_slice(&be32(months));
    b
}

#[test]
fn interval_fixed_carry() {
    let cols = one_column("iv", simple("interval"));
    let rows = vec![vec![Some(interval_wire(14706789012, 3, 14))]];
    let (group, _w) = run_rows(&cols, &default_settings(), rows);
    let c = &group.chunks[0];
    let (len, vals) = chunk_fixed(c);
    assert_eq!(len, 12);
    assert_eq!(vals.len(), 1);
    let mut expect = 14i32.to_le_bytes().to_vec();
    expect.extend_from_slice(&3i32.to_le_bytes());
    expect.extend_from_slice(&14706789i32.to_le_bytes());
    assert_eq!(vals[0], expect);
}

/// An interval whose time field holds more than a day carries whole days
/// into the day field.
#[test]
fn interval_day_overflow_carry() {
    let cols = one_column("iv", simple("interval"));
    // 26 hours: one day carried, two hours of milliseconds left.
    let rows = vec![vec![Some(interval_wire(26 * 3600 * 1_000_000, 1, 0))]];
    let (group, _w) = run_rows(&cols, &default_settings(), rows);
    let (_, vals) = chunk_fixed(&group.chunks[0]);
    let mut expect = 0i32.to_le_bytes().to_vec();
    expect.extend_from_slice(&2i32.to_le_bytes());
    expect.extend_from_slice(&(2 * 3600 * 1000i32).to_le_bytes());
    assert_eq!(vals[0], expect);
}

fn numeric_wire(neg: bool, weight: i16, dscale: u16, digits: &[u16]) -> Vec<u8> {
    let mut b = (digits.len() as u16).to_be_bytes().to_vec();
    b.extend_from_slice(&weight.to_be_bytes());
    b.extend_from_slice(&(if neg { 0x4000u16 } else { 0u16 }).to_be_bytes());
    b.extend_from_slice(&dscale.to_be_bytes());
    for d in digits {
        b.extend_from_slice(&d.to_be_bytes());
    }
    b
}

#[test]
fn decimal_int32_half_even() {
    let mut settings = default_settings();
    settings.numeric_handling = SchemaSettingsNumericHandling::Decimal;
    settings.decimal_precision = 5;
    settings.decimal_scale = 2;
    let cols = one_column("n", simple("numeric"));
    // 123.456 is digits [123, 4560] at weight 0.
    let rows = vec![vec![Some(numeric_wire(false, 0, 3, &[123, 4560]))]];
    let (group, warnings) = run_rows(&cols, &settings, rows);
    let c = &group.chunks[0];
    assert_eq!(chunk_i32(c), vec![12346]);
    assert_eq!(dls(c), vec![1]);
    assert!(warnings.is_empty());
}

#[test]
fn decimal_overflow_soft_null() {
    let mut settings = default_settings();
    settings.numeric_handling = SchemaSettingsNumericHandling::Decimal;
    settings.decimal_precision = 5;
    settings.decimal_scale = 2;
    let cols = one_column("n", simple("numeric"));
    // 999999.99 is digits [99, 9999, 9900] at weight 1.
    let rows = vec![
        vec![Some(numeric_wire(false, 1, 2, &[99, 9999, 9900]))],
        vec![Some(numeric_wire(false, 1, 2, &[99, 9999, 9900]))],
    ];
    let (group, warnings) = run_rows(&cols, &settings, rows);
    let c = &group.chunks[0];
    assert_eq!(chunk_i32(c), Vec::<i32>::new());
    assert_eq!(dls(c), vec![0, 0]);
    // The warning is given once, not per row, and names the value.
    assert_eq!(warnings.len(), 1);
    assert!(warnings[0].contains("999999.99"));
}

#[test]
fn decimal_negative_rounds_half_even() {
    let mut settings = default_settings();
    settings.numeric_handling = SchemaSettingsNumericHandling::Decimal;
    settings.decimal_precision = 9;
    settings.decimal_scale = 2;
    let cols = one_column("n", simple("numeric"));
    // -2.005 rounds half to even: -2.00.
    let rows = vec![vec![Some(numeric_wire(true, 0, 3, &[2, 50]))]];
    let (group, _w) = run_rows(&cols, &settings, rows);
    assert_eq!(chunk_i32(&group.chunks[0]), vec![-200]);
}

#[test]
fn numeric_as_text() {
    let mut settings = default_settings();
    settings.numeric_handling = SchemaSettingsNumericHandling::Text;
    let cols = one_column("n", simple("numeric"));
    let rows = vec![
        vec![Some(numeric_wire(true, 0, 3, &[123, 4560]))],
        vec![Some(numeric_wire(false, 0, 0, &[]))],
    ];
    let (group, _w) = run_rows(&cols, &settings, rows);
    let texts = chunk_bytes(&group.chunks[0]);
    assert_eq!(texts[0], b"-123.456".to_vec());
    assert_eq!(texts[1], b"0".to_vec());
}

#[test]
fn numeric_as_double_text() {
    let cols = one_column("n", simple("numeric"));
    let rows = vec![vec![Some(numeric_wire(false, 0, 1, &[41, 5000]))]];
    let (group, _w) = run_rows(&cols, &default_settings(), rows);
    match &group.chunks[0].values {
        ChunkValues::F64Dec(v) => {
            assert_eq!(v.len(), 1);
            let s = String::from_utf8(v[0].clone()).unwrap();
            assert_eq!(s.parse::<f64>().unwrap(), 41.5);
        },
        _ => panic!("expected decimal text destined for a double column"),
    }
}

#[test]
fn zero_row_result_set() {
    let cols = one_column("a", simple("int4"));
    let (group, _w) = run_rows(&cols, &default_settings(), vec![]);
    assert_eq!(group.rows, 0);
    assert_eq!(group.chunks.len(), 1);
    let c = &group.chunks[0];
    assert_eq!(chunk_i32(c), Vec::<i32>::new());
    assert_eq!(dls(c), Vec::<i16>::new());
}

#[test]
fn row_group_threshold_exact() {
    let cols = one_column("a", simple("int4"));
    let (appender, _schema) = map_schema_root(&cols, &default_settings()).unwrap();
    let mut w = ParquetRowWriter::new(
        appender,
        WriterSettings { row_group_byte_limit: 1 << 30, row_group_row_limit: 2 },
    );
    let (w2, r1) = w.write_row(vec![Some(be32(1))]);
    w = w2;
    assert!(r1.unwrap().flushed.is_none());
    let (w3, r2) = w.write_row(vec![Some(be32(2))]);
    w = w3;
    let flushed = r2.unwrap().flushed.expect("the second row reaches the limit");
    assert_eq!(flushed.rows, 2);
    assert_eq!(chunk_i32(&flushed.chunks[0]), vec![1, 2]);
    // The next row belongs to the new group.
    let (w4, r3) = w.write_row(vec![Some(be32(3))]);
    assert!(r3.unwrap().flushed.is_none());
    let (_stats, last) = w4.close();
    assert_eq!(last.rows, 1);
    assert_eq!(chunk_i32(&last.chunks[0]), vec![3]);
}

#[test]
fn byte_threshold_flushes_and_resets() {
    let cols = one_column("a", simple("int4"));
    let (appender, _schema) = map_schema_root(&cols, &default_settings()).unwrap();
    let mut w = ParquetRowWriter::new(
        appender,
        WriterSettings { row_group_byte_limit: 1, row_group_row_limit: 1 << 20 },
    );
    let (w2, r1) = w.write_row(vec![Some(be32(5))]);
    w = w2;
    let o1 = r1.unwrap();
    assert!(o1.bytes >= 1);
    let first = o1.flushed.expect("any row crosses a one-byte limit");
    assert_eq!(first.rows, 1);
    assert_eq!(chunk_i32(&first.chunks[0]), vec![5]);
    let (w3, r2) = w.write_row(vec![Some(be32(6))]);
    let second = r2.unwrap().flushed.expect("the counter was reset, so the next row flushes again");
    assert_eq!(second.rows, 1);
    assert_eq!(chunk_i32(&second.chunks[0]), vec![6]);
    let (stats, last) = w3.close();
    assert_eq!(last.rows, 0);
    assert_eq!(stats.rows, 2);
    assert_eq!(stats.groups, 3);
}

#[test]
fn zero_rows_still_close_as_one_group() {
    let cols = one_column("a", simple("int4"));
    let (appender, _schema) = map_schema_root(&cols, &default_settings()).unwrap();
    let w = ParquetRowWriter::new(
        appender,
        WriterSettings { row_group_byte_limit: 1 << 30, row_group_row_limit: 1 << 20 },
    );
    let (stats, group) = w.close();
    assert_eq!(stats.rows, 0);
    assert_eq!(stats.groups, 1);
    assert_eq!(group.rows, 0);
}

#[test]
fn flush_with_empty_buffers_is_idempotent() {
    let cols = one_column("a", simple("int4"));
    let mut w = driver(&cols, &default_settings());
    let (w2, res) = w.write_row(vec![Some(be32(9))]);
    w = w2;
    assert!(res.unwrap().flushed.is_none());
    let (w3, first) = w.flush_group();
    assert_eq!(chunk_i32(&first.chunks[0]), vec![9]);
    let (w4, second) = w3.flush_group();
    assert_eq!(chunk_i32(&second.chunks[0]), Vec::<i32>::new());
    assert_eq!(dls(&second.chunks[0]), Vec::<i16>::new());
    let (_stats, third) = w4.close();
    assert_eq!(chunk_i32(&third.chunks[0]), Vec::<i32>::new());
}

#[test]
fn enum_int_one_based() {
    let mut settings = default_settings();
    settings.enum_handling = pg2parquet::postgres_cloner::SchemaSettingsEnumHandling::Int;
    let cols = one_column(
        "e",
        PgType {
            name: "mood".to_string(),
            kind: PgTypeKind::Enum(vec!["sad".to_string(), "ok".to_string(), "happy".to_string()]),
        },
    );
    let rows = vec![
        vec![Some(b"ok".to_vec())],
        vec![Some(b"sad".to_vec())],
        vec![Some(b"happy".to_vec())],
    ];
    let (group, _w) = run_rows(&cols, &settings, rows);
    assert_eq!(chunk_i32(&group.chunks[0]), vec![2, 1, 3]);
}

#[test]
fn enum_unknown_label_fails() {
    let mut settings = default_settings();
    settings.enum_handling = pg2parquet::postgres_cloner::SchemaSettingsEnumHandling::Int;
    let cols = one_column(
        "e",
        PgType { name: "mood".to_string(), kind: PgTypeKind::Enum(vec!["sad".to_string()]) },
    );
    let w = driver(&cols, &settings);
    let (_w2, res) = w.write_row(vec![Some(b"confused".to_vec())]);
    assert!(res.is_err());
}

#[test]
fn unsupported_type_is_reported_with_path() {
    let cols = one_column("p", simple("point"));
    match map_schema_root(&cols, &default_settings()) {
        Ok(_) => panic!("an unsupported type must not plan"),
        Err(err) => {
            assert!(err.contains("p"));
            assert!(err.contains("point"));
        },
    }
}
