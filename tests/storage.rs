use warenhaus::auto_index::AutoIndex;
use warenhaus::cell::{Cell, TAG_BOOL, TAG_F64, TAG_I64, TAG_STR};
use warenhaus::column::{check_log, encode_record, Column, CorruptionError};
use warenhaus::column_frame::ColumnFrame;
use warenhaus::config::{ColumnConfig, Configurator, DataTypeConfig, SchemaConfig};
use warenhaus::container::{Container, ContainerError, IndexParams};
use warenhaus::data_type::DataType;
use warenhaus::layout::ColumnLayout;
use warenhaus::query::{compiled_map_fn_path, filter_argument, select_rows, FilterError};
use warenhaus::value::{Number, Value};

fn open_with(config: SchemaConfig, counter: Option<i64>, logs: Vec<Vec<u8>>) -> Container {
    assert!(ColumnLayout::check_logs(&logs).is_ok());
    Container::open(config, counter, None, &logs).unwrap()
}

fn open_fresh(config: SchemaConfig) -> Container {
    let n = ColumnLayout::schema_layout(&config).len();
    open_with(config, None, vec![Vec::new(); n])
}

fn url_schema() -> SchemaConfig {
    SchemaConfig {
        columns: vec![ColumnConfig { name: "url".into(), data_type: DataTypeConfig::String }],
        add_timestamp_column: true,
    }
}

fn url_points_schema() -> SchemaConfig {
    SchemaConfig {
        columns: vec![
            ColumnConfig { name: "url".into(), data_type: DataTypeConfig::String },
            ColumnConfig { name: "points".into(), data_type: DataTypeConfig::Int },
        ],
        add_timestamp_column: true,
    }
}

fn text(s: &str) -> Value {
    Value::String(s.to_string())
}

fn params(fields: &[&str], values: Vec<Value>) -> IndexParams {
    IndexParams { fields: fields.iter().map(|f| f.to_string()).collect(), values }
}

fn column_len(c: &Container, name: &str) -> usize {
    c.find_column(name).unwrap().entries().len()
}

fn round_trip(cell: Cell) {
    let (_, tag, payload) = cell.to_bytes();
    assert_eq!(Cell::from_bytes(tag, payload), Some(cell));
}

/// CRC-32/CKSUM of a payload, as the codec computes it for a string cell.
fn crc_of(payload: &[u8]) -> u32 {
    Cell::String(String::from_utf8(payload.to_vec()).unwrap()).to_bytes().0
}

#[test]
fn cells_round_trip_bit_for_bit() {
    round_trip(Cell::Int(0));
    round_trip(Cell::Int(-1));
    round_trip(Cell::Int(i64::MIN));
    round_trip(Cell::Int(i64::MAX));
    round_trip(Cell::Float(2.5f64.to_bits()));
    round_trip(Cell::Float(f64::NAN.to_bits() | 7));
    round_trip(Cell::Float(f64::NEG_INFINITY.to_bits()));
    round_trip(Cell::Float((-0.0f64).to_bits()));
    round_trip(Cell::String(String::new()));
    round_trip(Cell::String("grüße, 世界 🦀".into()));
    round_trip(Cell::Boolean(true));
    round_trip(Cell::Boolean(false));
}

#[test]
fn payloads_are_little_endian() {
    assert_eq!(Cell::Int(1).to_bytes().2, vec![1, 0, 0, 0, 0, 0, 0, 0]);
    assert_eq!(Cell::Int(-2).to_bytes().2, vec![0xfe, 0xff, 0xff, 0xff, 0xff, 0xff, 0xff, 0xff]);
    let (crc, tag, payload) = Cell::Boolean(true).to_bytes();
    assert_eq!((crc, tag, payload), (crc_of(&[1, 0, 0, 0, 0, 0, 0, 0]), TAG_BOOL, vec![1, 0, 0, 0, 0, 0, 0, 0]));
    assert_eq!(Cell::Float(1.0f64.to_bits()).to_bytes().2, 1.0f64.to_le_bytes().to_vec());
    assert_eq!(Cell::Float(0).to_bytes().1, TAG_F64);
    assert_eq!(Cell::String("é".into()).to_bytes().2, vec![0xc3, 0xa9]);
}

#[test]
fn checksum_is_crc32_cksum() {
    assert_eq!(Cell::String("123456789".into()).to_bytes().0, 0x765e_7680);
    let record = encode_record(&Cell::String("123456789".into()));
    assert_eq!(&record[0..4], &[0x80, 0x76, 0x5e, 0x76]);
}

#[test]
fn little_endian_fields() {
    assert_eq!(Cell::Int(0x0102_0304_0506_0708).to_bytes().2, vec![8, 7, 6, 5, 4, 3, 2, 1]);
    assert_eq!(
        Cell::from_bytes(TAG_I64, vec![8, 7, 6, 5, 4, 3, 2, 1]),
        Some(Cell::Int(0x0102_0304_0506_0708))
    );
    let record = encode_record(&Cell::String("x".repeat(0x0102)));
    assert_eq!(&record[5..9], &[2, 1, 0, 0]);
    let mut column = Column::new("s".into(), DataType::String);
    column.load(&record);
    assert_eq!(column.entries(), &[Cell::String("x".repeat(0x0102))]);
}

#[test]
fn decoding_rejects_bad_payloads() {
    assert_eq!(Cell::from_bytes(TAG_I64, vec![1, 2, 3]), None);
    assert_eq!(Cell::from_bytes(TAG_I64, vec![0; 9]), None);
    assert_eq!(Cell::from_bytes(TAG_STR, vec![0xff, 0xfe]), None);
    assert_eq!(Cell::from_bytes(9, vec![0; 8]), None);
    assert_eq!(Cell::from_bytes(TAG_BOOL, vec![2, 0, 0, 0, 0, 0, 0, 0]), Some(Cell::Boolean(false)));
    assert_eq!(Cell::from_bytes(TAG_BOOL, vec![1, 0, 0, 0, 0, 0, 0, 0]), Some(Cell::Boolean(true)));
}

#[test]
fn record_framing() {
    let cell = Cell::String("https://example.com".into());
    let record = encode_record(&cell);
    let payload = b"https://example.com".to_vec();
    assert_eq!(&record[0..4], &crc_of(&payload).to_le_bytes());
    assert_eq!(record[4], TAG_STR);
    assert_eq!(&record[5..9], &(payload.len() as u32).to_le_bytes());
    assert_eq!(&record[9..], &payload[..]);
}

#[test]
fn column_log_loads_what_insert_wrote() {
    let mut column = Column::new("points".into(), DataType::Int);
    let mut log = Vec::new();
    for v in [3i64, -7, 1 << 40] {
        log.extend(column.insert(Cell::Int(v)));
    }
    let mut reloaded = Column::new("points".into(), DataType::Int);
    reloaded.load(&log);
    assert_eq!(reloaded.entries(), &[Cell::Int(3), Cell::Int(-7), Cell::Int(1 << 40)]);
    assert_eq!(reloaded.name(), "points");
    assert_eq!(reloaded.data_type(), &DataType::Int);
}

#[test]
fn column_log_stops_at_a_cut_record() {
    let mut log = encode_record(&Cell::Int(5));
    let second = encode_record(&Cell::String("abc".into()));
    log.extend_from_slice(&second[..second.len() - 1]);
    let mut column = Column::new("x".into(), DataType::Int);
    column.load(&log);
    assert_eq!(column.entries(), &[Cell::Int(5)]);

    let mut header_only = Column::new("x".into(), DataType::Int);
    header_only.load(&second[..5]);
    assert!(header_only.entries().is_empty());
}

#[test]
fn column_log_reports_corruption() {
    let mut log = encode_record(&Cell::Int(5));
    log[9] ^= 1;
    let stored = u32::from_le_bytes([log[0], log[1], log[2], log[3]]);
    let computed = Cell::Int(4).to_bytes().0;
    assert_ne!(stored, computed);
    assert_eq!(check_log(&log), Err(CorruptionError::ChecksumMismatch { stored, computed }));
    assert_eq!(
        ColumnLayout::check_logs(&[Vec::new(), log.clone()]),
        Err(CorruptionError::ChecksumMismatch { stored, computed })
    );

    let payload = vec![0u8; 3];
    let mut bad = crc_of(&payload).to_le_bytes().to_vec();
    bad.push(TAG_I64);
    bad.extend_from_slice(&3u32.to_le_bytes());
    bad.extend_from_slice(&payload);
    assert_eq!(check_log(&bad), Err(CorruptionError::Undecodable { tag: TAG_I64 }));
    let mut good = encode_record(&Cell::Int(5));
    good.extend_from_slice(&[1, 2, 3]);
    assert_eq!(check_log(&good), Ok(()));
}

#[test]
fn values_become_cells() {
    assert_eq!(Cell::from_json_value(&Value::Null), None);
    assert_eq!(Cell::from_json_value(&Value::Array("[1]".into())), None);
    assert_eq!(Cell::from_json_value(&Value::Object("{}".into())), None);
    assert_eq!(Cell::from_json_value(&Value::Bool(true)), Some(Cell::Boolean(true)));
    assert_eq!(Cell::from_json_value(&text("a")), Some(Cell::String("a".into())));
    assert_eq!(Cell::from_json_value(&Value::Number(Number::NegInt(-4))), Some(Cell::Int(-4)));
    assert_eq!(
        Cell::from_json_value(&Value::Number(Number::PosInt(i64::MAX as u64))),
        Some(Cell::Int(i64::MAX))
    );
    assert_eq!(
        Cell::from_json_value(&Value::Number(Number::Float(0.5f64.to_bits()))),
        Some(Cell::Float(0.5f64.to_bits()))
    );
}

#[test]
fn integers_beyond_i64_become_the_nearest_float() {
    for u in [
        1u64 << 63,
        (1 << 63) + 1024,
        (1 << 63) + 3072,
        (1 << 63) + 1025,
        (1 << 63) + 2047,
        u64::MAX,
        u64::MAX - 1024,
        u64::MAX - 1023,
        0xdead_beef_cafe_f00d,
    ] {
        assert_eq!(
            Cell::from_json_value(&Value::Number(Number::PosInt(u))),
            Some(Cell::Float((u as f64).to_bits())),
            "{}",
            u
        );
    }
}

#[test]
fn data_type_compatibility_table() {
    let int = Value::Number(Number::NegInt(-3));
    let big = Value::Number(Number::PosInt(u64::MAX));
    let float = Value::Number(Number::Float(1.5f64.to_bits()));
    assert!(DataType::Int.is_compatible(&int));
    assert!(DataType::Int.is_compatible(&Value::Number(Number::PosInt(7))));
    assert!(!DataType::Int.is_compatible(&big));
    assert!(!DataType::Int.is_compatible(&float));
    assert!(DataType::Float.is_compatible(&float));
    assert!(!DataType::Float.is_compatible(&int));
    assert!(!DataType::Float.is_compatible(&big));
    assert!(DataType::String.is_compatible(&text("x")));
    assert!(!DataType::String.is_compatible(&Value::Null));
    assert!(DataType::Boolean.is_compatible(&Value::Bool(false)));
    assert!(!DataType::Boolean.is_compatible(&Value::Array("[]".into())));
    assert_eq!(DataType::from(DataTypeConfig::Float), DataType::Float);
    assert_eq!(DataType::Boolean.name(), "bool");
}

#[test]
fn auto_index_counts_and_rolls_back() {
    let mut counter = AutoIndex::new();
    assert_eq!(counter.next(), 1);
    assert_eq!(counter.next(), 2);
    counter.rollback();
    assert_eq!(counter.counter(), 1);
    assert_eq!(AutoIndex::from_persisted(Some(41)).counter(), 41);
    assert_eq!(AutoIndex::from_persisted(Some(-3)).counter(), 0);
    assert_eq!(AutoIndex::from_persisted(None).counter(), 0);
}

#[test]
fn configurator_keeps_its_root() {
    assert_eq!(Configurator::new("/etc/store").root_path(), "/etc/store");
    assert_eq!(compiled_map_fn_path(), "queries");
}

#[test]
fn fresh_layout_order() {
    let pairs = ColumnLayout::schema_layout(&url_points_schema());
    let names: Vec<&str> = pairs.iter().map(|p| p.0.as_str()).collect();
    assert_eq!(names, vec!["id", "url", "points", "timestamp"]);
    assert_eq!(pairs[2].1, DataType::Int);
    let plain = SchemaConfig { columns: vec![], add_timestamp_column: false };
    assert_eq!(ColumnLayout::schema_layout(&plain), vec![("id".to_string(), DataType::Int)]);
}

#[test]
fn scenario_insert_one_url() {
    let mut c = open_fresh(url_schema());
    let records = c.index(params(&["url"], vec![text("https://example.com")]), 1234).unwrap();
    assert_eq!(c.find_column("id").unwrap().entries(), &[Cell::Int(1)]);
    assert_eq!(c.find_column("url").unwrap().entries(), &[Cell::String("https://example.com".into())]);
    assert_eq!(c.find_column("timestamp").unwrap().entries(), &[Cell::Int(1234)]);
    assert_eq!(c.counter(), 1);
    let names: Vec<&str> = records.iter().map(|r| r.0.as_str()).collect();
    assert_eq!(names, vec!["id", "timestamp", "url"]);
    assert_eq!(records[0].1, encode_record(&Cell::Int(1)));
}

#[test]
fn scenario_null_url_is_rejected() {
    let mut c = open_fresh(url_schema());
    match c.index(params(&["url"], vec![Value::Null]), 1234) {
        Err(ContainerError::InvalidDataType(Value::Null, DataType::String)) => {}
        other => panic!("unexpected {:?}", other),
    }
    for name in ["id", "url", "timestamp"] {
        assert_eq!(column_len(&c, name), 0);
    }
    assert_eq!(c.counter(), 0);
}

#[test]
fn scenario_null_points_rolls_back() {
    let mut c = open_fresh(url_points_schema());
    match c.index(params(&["url", "points"], vec![text("https://example.com"), Value::Null]), 9) {
        Err(ContainerError::InvalidDataType(Value::Null, DataType::Int)) => {}
        other => panic!("unexpected {:?}", other),
    }
    for name in ["id", "url", "points", "timestamp"] {
        assert_eq!(column_len(&c, name), 0);
    }
    assert_eq!(c.counter(), 0);
}

#[test]
fn scenario_url_and_points() {
    let mut c = open_fresh(url_points_schema());
    c.index(params(&["url", "points"], vec![text("https://example.com"), Value::Number(Number::PosInt(54))]), 9)
        .unwrap();
    assert_eq!(c.find_column("id").unwrap().entries(), &[Cell::Int(1)]);
    assert_eq!(c.find_column("url").unwrap().entries(), &[Cell::String("https://example.com".into())]);
    assert_eq!(c.find_column("points").unwrap().entries(), &[Cell::Int(54)]);
    assert_eq!(column_len(&c, "timestamp"), 1);
    assert_eq!(c.counter(), 1);
}

#[test]
fn scenario_timestamp_field_is_reserved() {
    let mut c = open_fresh(url_points_schema());
    match c.index(params(&["url", "timestamp"], vec![text("https://example.com"), Value::Number(Number::PosInt(54))]), 9) {
        Err(ContainerError::InvalidFields(names)) => assert_eq!(names, vec!["timestamp".to_string()]),
        other => panic!("unexpected {:?}", other),
    }
    assert_eq!(c.counter(), 0);
}

#[test]
fn timestamp_is_an_ordinary_name_without_the_column() {
    let schema = SchemaConfig {
        columns: vec![ColumnConfig { name: "url".into(), data_type: DataTypeConfig::String }],
        add_timestamp_column: false,
    };
    let mut c = open_fresh(schema);
    match c.index(params(&["timestamp"], vec![Value::Number(Number::PosInt(1))]), 9) {
        Err(ContainerError::InvalidFields(names)) => assert_eq!(names, vec!["timestamp".to_string()]),
        other => panic!("unexpected {:?}", other),
    }
}

#[test]
fn field_count_errors() {
    let mut c = open_fresh(url_points_schema());
    match c.index(params(&["url"], vec![text("a")]), 9) {
        Err(ContainerError::FieldCountMismatch(2, 1)) => {}
        other => panic!("unexpected {:?}", other),
    }
    match c.index(params(&["url", "points"], vec![text("a")]), 9) {
        Err(ContainerError::FieldCountMismatch(2, 1)) => {}
        other => panic!("unexpected {:?}", other),
    }
    match c.index(params(&["url", "nope"], vec![text("a"), Value::Bool(true)]), 9) {
        Err(ContainerError::InvalidFields(names)) => assert_eq!(names, vec!["nope".to_string()]),
        other => panic!("unexpected {:?}", other),
    }
    assert_eq!(c.counter(), 0);
}

#[test]
fn missing_timestamp_column_rolls_back() {
    let pairs = vec![("id".to_string(), DataType::Int), ("url".to_string(), DataType::String)];
    let mut layout = ColumnLayout::new();
    layout.load(&pairs, &[Vec::new(), Vec::new()]);
    let schema = SchemaConfig { columns: vec![], add_timestamp_column: true };
    let mut c = Container::new(schema, AutoIndex::from_persisted(Some(3)), layout).unwrap();
    match c.index(params(&[], vec![]), 9) {
        Err(ContainerError::MissingTimestampColumn) => {}
        other => panic!("unexpected {:?}", other),
    }
    assert_eq!(c.counter(), 3);
}

#[test]
fn corrupt_layouts_are_refused() {
    let schema = || SchemaConfig { columns: vec![], add_timestamp_column: false };
    let mut no_id = ColumnLayout::new();
    no_id.insert_column(Column::new("url".into(), DataType::String));
    assert!(matches!(Container::new(schema(), AutoIndex::new(), no_id), Err(ContainerError::CorruptLayout)));
    let mut twice = ColumnLayout::new();
    twice.insert_column(Column::new("id".into(), DataType::Int));
    twice.insert_column(Column::new("id".into(), DataType::Int));
    assert!(matches!(Container::new(schema(), AutoIndex::new(), twice), Err(ContainerError::CorruptLayout)));
}

fn insert_three(c: &mut Container) {
    for (i, ts) in [(1u64, 10u64), (2, 11), (3, 13)] {
        let url = format!("https://example.com/{}", i);
        c.index(params(&["url"], vec![text(&url)]), ts).unwrap();
    }
}

#[test]
fn rows_come_back_in_insertion_order() {
    let mut c = open_fresh(url_schema());
    insert_three(&mut c);
    let rows = c.query();
    assert_eq!(rows.len(), 3);
    for (n, row) in rows.iter().enumerate() {
        assert_eq!(row.get("id"), Some(&Cell::Int(n as i64 + 1)));
        assert_eq!(row.entry(1).0, "url");
    }
    assert_eq!(rows[2].get("timestamp"), Some(&Cell::Int(13)));
    assert_eq!(rows[0].get("nope"), None);
}

#[test]
fn reopening_gives_the_same_rows() {
    let mut c = open_fresh(url_schema());
    let mut logs: Vec<Vec<u8>> = vec![Vec::new(); 3];
    let names = ["id", "url", "timestamp"];
    for (i, ts) in [(1u64, 10u64), (2, 11)] {
        let url = format!("https://example.com/{}", i);
        for (column, record) in c.index(params(&["url"], vec![text(&url)]), ts).unwrap() {
            let k = names.iter().position(|n| *n == column).unwrap();
            logs[k].extend(record);
        }
    }
    let first = open_with(url_schema(), Some(c.counter()), logs.clone());
    let second = open_with(url_schema(), Some(c.counter()), logs);
    let before = c.query();
    let (a, b) = (first.query(), second.query());
    assert_eq!(a.len(), 2);
    for n in 0..2 {
        for k in 0..3 {
            assert_eq!(a[n].entry(k), before[n].entry(k));
            assert_eq!(b[n].entry(k), before[n].entry(k));
        }
    }
    assert_eq!(first.counter(), 2);
}

#[test]
fn unequal_columns_are_reported_by_query() {
    let pairs = vec![("id".to_string(), DataType::Int), ("url".to_string(), DataType::String)];
    let mut layout = ColumnLayout::new();
    layout.load(&pairs, &[encode_record(&Cell::Int(1)), Vec::new()]);
    let schema = SchemaConfig { columns: vec![], add_timestamp_column: false };
    let c = Container::new(schema, AutoIndex::new(), layout).unwrap();
    assert!(!c.is_aligned());
    assert!(!c.layout().is_aligned());
}

#[test]
fn filter_argument_is_the_low_half_of_the_timestamp() {
    let mut row = ColumnFrame::new();
    row.insert("id", Cell::Int(1));
    assert_eq!(filter_argument(&row), Err(FilterError::MissingTimestamp));
    row.insert("timestamp", Cell::Int((1i64 << 32) + 5));
    assert_eq!(filter_argument(&row), Ok(5));
    let mut neg = ColumnFrame::new();
    neg.insert("timestamp", Cell::Int(0xffff_ffff));
    assert_eq!(filter_argument(&neg), Ok(-1));
    let mut text_ts = ColumnFrame::new();
    text_ts.insert("timestamp", Cell::String("now".into()));
    assert_eq!(filter_argument(&text_ts), Err(FilterError::TimestampNotInt));
}

fn outcomes(rows: &[ColumnFrame], run: impl Fn(i32) -> i32) -> Vec<Option<i32>> {
    rows.iter().map(|r| filter_argument(r).ok().map(&run)).collect()
}

#[test]
fn scenario_filters_over_three_rows() {
    let mut c = open_fresh(url_schema());
    insert_three(&mut c);

    let rows = c.query();
    let answers = outcomes(&rows, |_| 1);
    let all = select_rows(rows, &answers);
    assert_eq!(all.len(), 3);
    for (n, row) in all.iter().enumerate() {
        assert_eq!(row.get("id"), Some(&Cell::Int(n as i64 + 1)));
    }

    let rows = c.query();
    let answers = outcomes(&rows, |_| 0);
    assert_eq!(select_rows(rows, &answers).len(), 0);

    let rows = c.query();
    let answers = outcomes(&rows, |ts| ts & 1);
    let odd = select_rows(rows, &answers);
    let ids: Vec<Option<&Cell>> = odd.iter().map(|r| r.get("id")).collect();
    assert_eq!(ids, vec![Some(&Cell::Int(2)), Some(&Cell::Int(3))]);
}

#[test]
fn failed_filter_calls_drop_their_rows() {
    let mut c = open_fresh(url_schema());
    insert_three(&mut c);
    let rows = c.query();
    let kept = select_rows(rows, &[Some(1), None, Some(-7)]);
    let ids: Vec<Option<&Cell>> = kept.iter().map(|r| r.get("id")).collect();
    assert_eq!(ids, vec![Some(&Cell::Int(1)), Some(&Cell::Int(3))]);
}

#[test]
fn repeated_or_id_fields_are_rejected() {
    let schema = SchemaConfig {
        columns: vec![
            ColumnConfig { name: "url".into(), data_type: DataTypeConfig::String },
            ColumnConfig { name: "title".into(), data_type: DataTypeConfig::String },
        ],
        add_timestamp_column: false,
    };
    let mut c = open_fresh(schema);
    match c.index(params(&["url", "url"], vec![text("a"), text("b")]), 9) {
        Err(ContainerError::InvalidFields(names)) => assert_eq!(names, vec!["url".to_string()]),
        other => panic!("unexpected {:?}", other),
    }
    match c.index(params(&["id", "url"], vec![Value::Number(Number::PosInt(5)), text("b")]), 9) {
        Err(ContainerError::InvalidFields(names)) => assert_eq!(names, vec!["id".to_string()]),
        other => panic!("unexpected {:?}", other),
    }
    for name in ["id", "url", "title"] {
        assert_eq!(column_len(&c, name), 0);
    }
    assert_eq!(c.counter(), 0);
    c.index(params(&["title", "url"], vec![text("t"), text("u")]), 9).unwrap();
    assert!(c.is_aligned());
    assert_eq!(c.query().len(), 1);
}

#[test]
fn id_alone_is_rejected() {
    let schema = SchemaConfig {
        columns: vec![ColumnConfig { name: "url".into(), data_type: DataTypeConfig::String }],
        add_timestamp_column: false,
    };
    let mut c = open_fresh(schema);
    match c.index(params(&["id"], vec![Value::Number(Number::PosInt(5))]), 9) {
        Err(ContainerError::InvalidFields(names)) => assert_eq!(names, vec!["id".to_string()]),
        other => panic!("unexpected {:?}", other),
    }
    assert_eq!(column_len(&c, "id"), 0);
}

#[test]
fn persisted_layout_is_kept_and_fresh_one_follows_the_schema() {
    let kept = vec![("id".to_string(), DataType::Int), ("old".to_string(), DataType::Float)];
    assert_eq!(ColumnLayout::layout_for(&url_schema(), Some(kept.clone())), (kept, false));
    let (fresh, persist) = ColumnLayout::layout_for(&url_schema(), None);
    assert!(persist);
    let names: Vec<&str> = fresh.iter().map(|p| p.0.as_str()).collect();
    assert_eq!(names, vec!["id", "url", "timestamp"]);
}

#[test]
fn open_trusts_a_persisted_layout() {
    let persisted = vec![
        ("url".to_string(), DataType::String),
        ("id".to_string(), DataType::Int),
    ];
    let logs = vec![encode_record(&Cell::String("a".into())), encode_record(&Cell::Int(1))];
    let c = Container::open(url_schema(), Some(1), Some(persisted), &logs).unwrap();
    assert_eq!(c.layout().column_names(), vec!["url".to_string(), "id".to_string()]);
    assert_eq!(c.counter(), 1);
    assert!(c.is_aligned());
    assert_eq!(c.query()[0].entry(0), ("url", &Cell::String("a".into())));
    let no_id = vec![("url".to_string(), DataType::String)];
    assert!(matches!(
        Container::open(url_schema(), None, Some(no_id), &[Vec::new()]),
        Err(ContainerError::CorruptLayout)
    ));
}
