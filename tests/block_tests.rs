use std::rc::Rc;

use chrono_tz::Tz;

use clickhouse_block::binary::{Encoder, Error, Reader};
use clickhouse_block::block::Block;
use clickhouse_block::column::{new_column, ColumnData, ColumnFrom, GenericColumn};
use clickhouse_block::fixed_string::{
    FixedStringAdapter, FixedStringColumnData, NullableFixedStringAdapter,
};
use clickhouse_block::value::{FromSqlError, SqlType, Value};

fn text(s: &str) -> Value {
    Value::String(s.as_bytes().to_vec())
}

#[test]
fn test_write_default() {
    let expected = [1, 0, 2, 255, 255, 255, 255, 0, 0, 0];
    let mut encoder = Encoder::new();
    Block::default().write(&mut encoder);
    assert_eq!(encoder.get_buffer_ref(), &expected)
}

#[test]
fn test_read_empty_block() {
    let source = [1, 0, 2, 255, 255, 255, 255, 0, 0, 0];
    let mut cursor = Reader::new(source.to_vec());
    match Block::load(&mut cursor, Tz::Zulu) {
        Ok(block) => assert!(block.is_empty()),
        Err(_) => panic!("test_read_empty_block"),
    }
}

#[test]
fn test_empty() {
    assert!(Block::default().is_empty())
}

#[test]
fn test_column_and_rows() {
    let block = Block::new()
        .add_column("hello_id", vec![5_u32, 6_u32])
        .add_column("value", vec!["lol", "zuz"]);

    assert_eq!(block.column_count(), 2);
    assert_eq!(block.row_count(), 2);
}

fn make_block() -> Block {
    Block::new().add_column(
        "9b96ad8b-488a-4fef-8087-8a9ae4800f00",
        vec![
            "5446d186-4e90-4dd8-8ec1-f9a436834613".to_string(),
            "f7cf31f4-7f37-4e27-91c0-5ac0ad0b145b".to_string(),
        ],
    )
}

#[test]
fn test_concat() {
    let block_a = make_block();
    let block_b = make_block();

    let actual = Block::concat(&vec![block_a, block_b]);
    assert_eq!(actual.row_count(), 4);
    assert_eq!(actual.column_count(), 1);

    assert_eq!(
        "5446d186-4e90-4dd8-8ec1-f9a436834613".to_string(),
        actual.get::<String, _>(0, 0).unwrap()
    );
    assert_eq!(
        "f7cf31f4-7f37-4e27-91c0-5ac0ad0b145b".to_string(),
        actual.get::<String, _>(1, 0).unwrap()
    );
    assert_eq!(
        "5446d186-4e90-4dd8-8ec1-f9a436834613".to_string(),
        actual.get::<String, _>(2, 0).unwrap()
    );
    assert_eq!(
        "f7cf31f4-7f37-4e27-91c0-5ac0ad0b145b".to_string(),
        actual.get::<String, _>(3, 0).unwrap()
    );
}

#[test]
fn test_chunks() {
    let first = Block::new().add_column("A", vec![1, 2]);
    let second = Block::new().add_column("A", vec![3, 4]);
    let third = Block::new().add_column("A", vec![5]);

    let block = Block::new().add_column("A", vec![1, 2, 3, 4, 5]);
    let mut iter = block.chunks(2);

    assert_eq!(Some(first), iter.next());
    assert_eq!(Some(second), iter.next());
    assert_eq!(Some(third), iter.next());
    assert_eq!(None, iter.next());
}

#[test]
fn test_chunks_of_empty_block() {
    let block = Block::default();
    let mut count = 0;
    let mut iter = block.chunks(100500);
    while iter.next().is_some() {
        count += 1;
    }
    assert_eq!(1, count);
    assert_eq!(Some(block.clone()), block.chunks(100500).next());
}

#[test]
fn round_trip_of_mixed_columns() {
    let mut fixed = ColumnData::empty(SqlType::FixedString(3));
    fixed.push(text("abc"));
    fixed.push(text("de\0"));
    let mut nullable = GenericColumn::new(SqlType::NullableString);
    nullable.push(Value::Nullable(Some(b"x".to_vec())));
    nullable.push(Value::Nullable(None));
    let block = Block::new()
        .add_column("id", vec![7_u64, 1 << 40])
        .add_column("delta", vec![-3_i32, 40000])
        .add_column("small", vec![-1_i8, 127])
        .add_column("name", vec!["α", ""]);
    let block = block.with_column("code", fixed);
    let block = block.with_column("note", ColumnData::Generic(nullable));
    let mut encoder = Encoder::new();
    block.write(&mut encoder);
    let mut reader = Reader::new(encoder.get_buffer());
    let back = Block::load(&mut reader, Tz::UTC).unwrap();
    assert_eq!(back.column_count(), 6);
    assert_eq!(back.row_count(), 2);
    assert_eq!(back.get::<Value, _>(1, 0_usize).unwrap(), Value::UInt64(1 << 40));
    assert_eq!(back.get::<Value, _>(0, "delta").unwrap(), Value::Int32(-3));
    assert_eq!(back.get::<Value, _>(0, "small").unwrap(), Value::Int8(-1));
    assert_eq!(back.get::<Value, _>(0, "name").unwrap(), text("α"));
    assert_eq!(back.get::<Value, _>(1, "code").unwrap(), text("de\0"));
    assert_eq!(back.get::<Value, _>(0, "note").unwrap(), Value::Nullable(Some(b"x".to_vec())));
    assert_eq!(back.get::<Value, _>(1, "note").unwrap(), Value::Nullable(None));
    assert_eq!(back, block);
}

#[test]
fn empty_block_bytes_decode_to_empty_block() {
    let mut encoder = Encoder::new();
    Block::new().write(&mut encoder);
    let bytes = encoder.get_buffer();
    assert_eq!(bytes, vec![1, 0, 2, 255, 255, 255, 255, 0, 0, 0]);
    let back = Block::load(&mut Reader::new(bytes), Tz::UTC).unwrap();
    assert_eq!(back.row_count(), 0);
    assert_eq!(back.column_count(), 0);
}

#[test]
fn integers_are_little_endian() {
    let block = Block::new().add_column("v", vec![0x01020304_u32]);
    let mut encoder = Encoder::new();
    block.write(&mut encoder);
    let bytes = encoder.get_buffer();
    // header, one column, one row, name "v", type code of UInt32, then the value
    assert_eq!(
        bytes,
        vec![1, 0, 2, 255, 255, 255, 255, 0, 1, 1, 1, b'v', 2, 4, 3, 2, 1]
    );
}

#[test]
fn truncated_input_is_an_error() {
    let block = Block::new().add_column("v", vec![1_u16, 2]);
    let mut encoder = Encoder::new();
    block.write(&mut encoder);
    let mut bytes = encoder.get_buffer();
    bytes.pop();
    assert_eq!(
        Block::load(&mut Reader::new(bytes), Tz::UTC).unwrap_err(),
        Error::UnexpectedEof
    );
}

#[test]
fn bad_header_and_unknown_type() {
    let source = vec![1, 0, 3, 255, 255, 255, 255, 0, 0, 0];
    assert_eq!(
        Block::load(&mut Reader::new(source), Tz::UTC).unwrap_err(),
        Error::InvalidHeader
    );
    let source = vec![1, 0, 2, 255, 255, 255, 255, 0, 1, 0, 0, 99];
    assert_eq!(
        Block::load(&mut Reader::new(source), Tz::UTC).unwrap_err(),
        Error::UnknownType
    );
}

#[test]
fn bad_name_and_overlong_count() {
    let source = vec![1, 0, 2, 255, 255, 255, 255, 0, 1, 0, 1, 0xff, 8];
    assert_eq!(
        Block::load(&mut Reader::new(source), Tz::UTC).unwrap_err(),
        Error::InvalidName
    );
    let mut source = vec![1, 0, 2, 255, 255, 255, 255, 0];
    source.extend(vec![0x80; 10]);
    source.push(0);
    assert_eq!(
        Block::load(&mut Reader::new(source), Tz::UTC).unwrap_err(),
        Error::Overflow
    );
}

#[test]
fn uvarint_encoding() {
    let mut encoder = Encoder::new();
    encoder.uvarint(300);
    encoder.uvarint(0);
    assert_eq!(encoder.get_buffer(), vec![0xac, 0x02, 0]);
    let mut reader = Reader::new(vec![0xac, 0x02, 0x7f]);
    assert_eq!(reader.read_uvarint(), Ok(300));
    assert_eq!(reader.read_uvarint(), Ok(127));
    assert_eq!(reader.read_uvarint(), Err(Error::UnexpectedEof));
}

#[test]
fn fixed_string_push_cuts_and_pads() {
    let mut data = FixedStringColumnData::with_capacity(2, 4);
    data.push(text("abcdef"));
    data.push(text("xy"));
    assert_eq!(data.len(), 2);
    assert_eq!(data.at(0), text("abcd"));
    assert_eq!(data.at(1), Value::String(vec![b'x', b'y', 0, 0]));
}

#[test]
fn fixed_string_load_reads_whole_elements() {
    let mut reader = Reader::new(b"abcdefg".to_vec());
    let data = FixedStringColumnData::load(&mut reader, 2, 3).unwrap();
    assert_eq!(data.at(1), text("def"));
    assert_eq!(reader.position(), 6);
    let mut short = Reader::new(b"abcde".to_vec());
    assert!(FixedStringColumnData::load(&mut short, 2, 3).is_err());
}

#[test]
fn get_by_name_takes_first_match() {
    let block = Block::new()
        .add_column("a", vec![1_u8, 2])
        .add_column("b", vec![3_u8, 4])
        .add_column("a", vec![5_u8, 6]);
    assert_eq!(block.get::<Value, _>(1, "a"), Ok(Value::UInt8(2)));
    assert_eq!(block.get::<Value, _>(0, "b"), Ok(Value::UInt8(3)));
    assert_eq!(block.get::<Value, _>(0, "c"), Err(FromSqlError::OutOfRange));
    assert_eq!(block.get::<Value, _>(0, 2_usize), Ok(Value::UInt8(5)));
    assert_eq!(block.get::<Value, _>(0, 3_usize), Err(FromSqlError::OutOfRange));
    assert_eq!(block.get::<Value, _>(2, 0_usize), Err(FromSqlError::OutOfRange));
}

#[test]
fn adapters_write_fixed_width() {
    let mut strings = GenericColumn::new(SqlType::String);
    strings.push(text("hello"));
    strings.push(text("hi"));
    let adapter = FixedStringAdapter::new(Rc::new(strings), 3);
    let block = Block::new().with_column("s", ColumnData::FixedStringAdapter(adapter));
    let mut encoder = Encoder::new();
    block.write(&mut encoder);
    let bytes = encoder.get_buffer();
    assert_eq!(&bytes[bytes.len() - 6..], b"helhi\0");
    let back = Block::load(&mut Reader::new(bytes), Tz::UTC).unwrap();
    assert_eq!(back.get::<Value, _>(0, 0_usize), Ok(text("hel")));

    let mut maybe = GenericColumn::new(SqlType::NullableString);
    maybe.push(Value::Nullable(None));
    maybe.push(Value::Nullable(Some(b"abc".to_vec())));
    let adapter = NullableFixedStringAdapter::new(Rc::new(maybe), 2);
    let block = Block::new().with_column("n", ColumnData::NullableFixedStringAdapter(adapter));
    let mut encoder = Encoder::new();
    block.write(&mut encoder);
    let bytes = encoder.get_buffer();
    assert_eq!(&bytes[bytes.len() - 6..], &[1, 0, 0, 0, b'a', b'b']);
    let back = Block::load(&mut Reader::new(bytes), Tz::UTC).unwrap();
    assert_eq!(back.get::<Value, _>(0, 0_usize), Ok(Value::Nullable(None)));
    assert_eq!(back.get::<Value, _>(1, 0_usize), Ok(Value::Nullable(Some(b"ab".to_vec()))));
}

#[test]
fn send_data_frames_chunks() {
    let block = Block::new().add_column("A", vec![9_u8]);
    let mut encoder = Encoder::new();
    block.send_data(&mut encoder);
    let mut expected = vec![2, 0];
    let mut plain = Encoder::new();
    block.write(&mut plain);
    expected.extend(plain.get_buffer());
    assert_eq!(encoder.get_buffer(), expected);

    let mut empty = Encoder::new();
    Block::new().send_data(&mut empty);
    assert_eq!(empty.get_buffer(), vec![2, 0, 1, 0, 2, 255, 255, 255, 255, 0, 0, 0]);
}

#[test]
fn concat_keeps_block_order() {
    let a = Block::new().add_column("x", vec![1_i64, 2]);
    let b = Block::new().add_column("x", vec![3_i64, 4]);
    let joined = Block::concat(&[a, b]);
    assert_eq!(joined.row_count(), 4);
    for (row, v) in [1_i64, 2, 3, 4].iter().enumerate() {
        assert_eq!(joined.get::<Value, _>(row, 0_usize), Ok(Value::Int64(*v)));
    }
}

#[test]
fn column_from_builds_typed_storage() {
    let data = vec![1_u16, 2].column_from();
    assert_eq!(data.sql_type_of(), SqlType::UInt16);
    assert_eq!(data.at(1), Value::UInt16(2));
    let column = new_column("c", vec![-5_i16].column_from());
    assert_eq!(column.at(0), Value::Int16(-5));
    assert_eq!(column.name(), "c");
}

#[test]
fn get_reads_typed_values() {
    let block = Block::new()
        .add_column("n", vec![42_u32, 7])
        .add_column("s", vec!["ok", "fine"]);
    assert_eq!(block.get::<u32, _>(0, "n"), Ok(42));
    assert_eq!(block.get::<String, _>(1, 1_usize), Ok("fine".to_string()));
    assert_eq!(block.get::<i64, _>(0, "n"), Err(FromSqlError::InvalidType));
    assert_eq!(block.get::<String, _>(0, "n"), Err(FromSqlError::InvalidType));
    assert_eq!(block.get::<u32, _>(0, "missing"), Err(FromSqlError::OutOfRange));
    let mut raw = GenericColumn::new(SqlType::String);
    raw.push(Value::String(vec![0xff, 0xfe]));
    let bad = Block::new().with_column("b", ColumnData::Generic(raw));
    assert_eq!(bad.get::<String, _>(0, 0_usize), Err(FromSqlError::InvalidType));
}

#[test]
fn empty_block_gives_one_chunk_for_any_size() {
    let block = Block::new();
    for n in [0_usize, 1, 7] {
        let mut iter = block.chunks(n);
        assert_eq!(iter.next(), Some(Block::new()));
        assert_eq!(iter.next(), None);
        assert_eq!(iter.next(), None);
    }
}

#[test]
fn chunks_keep_names_and_types() {
    let block = Block::new()
        .add_column("a", vec![1_u64, 2, 3])
        .add_column("b", vec!["x", "y", "z"]);
    let mut iter = block.chunks(2);
    let first = iter.next().unwrap();
    assert_eq!(first.row_count(), 2);
    assert_eq!(first.columns()[1].name(), "b");
    assert_eq!(first.columns()[1].sql_type(), SqlType::String);
    let second = iter.next().unwrap();
    assert_eq!(second.row_count(), 1);
    assert_eq!(second.get::<String, _>(0, "b"), Ok("z".to_string()));
    assert!(iter.next().is_none());
}

#[test]
fn same_columns_compares_types_and_cells() {
    let a = Block::new().add_column("x", vec![1_u32, 2]);
    let b = Block::new().add_column("y", vec![1_u32, 2]);
    let c = Block::new().add_column("x", vec![1_u32, 3]);
    let d = Block::new().add_column("x", vec![1_u64, 2]);
    assert!(a.same_columns(&b));
    assert!(!a.same_columns(&c));
    assert!(!a.same_columns(&d));
    assert!(!a.same_columns(&Block::new()));
    assert!(Block::new().same_columns(&Block::default()));
}
