use tds_client::codec::{
    Column, SqlType, Token, Value, decode_message, decode_token, encode_token,
    TOKEN_ROW, DONE_COUNT,
};
use tds_client::TdsError;

fn col(name: &[u8], ty: SqlType, nullable: bool) -> Column {
    Column { name: name.to_vec(), ty, nullable }
}

fn columns_for_all_types() -> Vec<Column> {
    vec![
        col(b"flag", SqlType::Bit, true),
        col(b"small", SqlType::Int4, true),
        col(b"big", SqlType::Int8, true),
        col(b"name", SqlType::VarChar, true),
    ]
}

fn encode_stream(tokens: &[Token], ctx: &Vec<Column>) -> Vec<u8> {
    let mut out = Vec::new();
    for t in tokens {
        encode_token(&mut out, t, ctx);
    }
    out
}

#[test]
fn row_round_trip_all_types() {
    let cols = columns_for_all_types();
    let row = vec![
        Value::Bit(true),
        Value::Int4(0xDEADBEEF),
        Value::Int8(0x0123456789ABCDEF),
        Value::VarChar(b"hello".to_vec()),
    ];
    let tokens = vec![
        Token::ColumnMetadata(cols.clone()),
        Token::Row(row.clone()),
        Token::Done { status: DONE_COUNT, row_count: 1 },
    ];
    let bytes = encode_stream(&tokens, &cols);
    let decoded = decode_message(&bytes).unwrap();
    assert_eq!(decoded.len(), 3);
    assert_eq!(decoded[1], Token::Row(row));
}

#[test]
fn row_round_trip_null_values() {
    let cols = columns_for_all_types();
    let row = vec![Value::Null, Value::Null, Value::Null, Value::Null];
    let tokens = vec![Token::ColumnMetadata(cols.clone()), Token::Row(row.clone())];
    let bytes = encode_stream(&tokens, &cols);
    let decoded = decode_message(&bytes).unwrap();
    assert_eq!(decoded[1], Token::Row(row));
}

#[test]
fn row_round_trip_empty_string_and_extremes() {
    let cols = vec![
        col(b"s", SqlType::VarChar, false),
        col(b"lo", SqlType::Int4, false),
        col(b"hi", SqlType::Int8, false),
        col(b"b", SqlType::Bit, false),
    ];
    let row = vec![
        Value::VarChar(Vec::new()),
        Value::Int4(0),
        Value::Int8(u64::MAX),
        Value::Bit(false),
    ];
    let tokens = vec![Token::ColumnMetadata(cols.clone()), Token::Row(row.clone())];
    let bytes = encode_stream(&tokens, &cols);
    let decoded = decode_message(&bytes).unwrap();
    assert_eq!(decoded[1], Token::Row(row));
}

#[test]
fn metadata_round_trip_preserves_descriptors() {
    let cols = vec![
        col(b"id", SqlType::Int4, false),
        col(b"", SqlType::VarChar, true),
    ];
    let bytes = encode_stream(&[Token::ColumnMetadata(cols.clone())], &Vec::new());
    let decoded = decode_message(&bytes).unwrap();
    assert_eq!(decoded, vec![Token::ColumnMetadata(cols)]);
}

#[test]
fn zero_column_metadata_round_trip() {
    let cols: Vec<Column> = Vec::new();
    let bytes = encode_stream(&[Token::ColumnMetadata(cols.clone())], &Vec::new());
    let decoded = decode_message(&bytes).unwrap();
    assert_eq!(decoded, vec![Token::ColumnMetadata(cols)]);
}

#[test]
fn done_error_info_return_status_login_ack_round_trip() {
    let ctx: Vec<Column> = Vec::new();
    let tokens = vec![
        Token::Done { status: DONE_COUNT | 0x1, row_count: 42 },
        Token::Error {
            code: 547,
            state: 1,
            severity: 16,
            message: b"constraint violation".to_vec(),
            source: b"srv".to_vec(),
        },
        Token::Info {
            code: 5701,
            state: 2,
            severity: 0,
            message: b"changed database context".to_vec(),
            source: b"srv".to_vec(),
        },
        Token::ReturnStatus(0),
        Token::LoginAck { version: 0x74000004, server: b"mock".to_vec() },
    ];
    let bytes = encode_stream(&tokens, &ctx);
    let decoded = decode_message(&bytes).unwrap();
    assert_eq!(decoded, tokens);
}

#[test]
fn row_without_metadata_is_protocol_error() {
    // A row token opens the stream: no column metadata precedes it.
    let cols = vec![col(b"id", SqlType::Int4, false)];
    let mut bytes = Vec::new();
    encode_token(&mut bytes, &Token::Row(vec![Value::Int4(1)]), &cols);
    assert_eq!(bytes[0], TOKEN_ROW);
    assert_eq!(decode_message(&bytes), Err(TdsError::ProtocolError));
    assert!(decode_token(&bytes, 0, None).is_err());
}

#[test]
fn truncated_token_is_protocol_error() {
    let cols = vec![col(b"id", SqlType::Int4, false)];
    let tokens = vec![
        Token::ColumnMetadata(cols.clone()),
        Token::Row(vec![Value::Int4(7)]),
    ];
    let mut bytes = encode_stream(&tokens, &cols);
    bytes.pop();
    assert_eq!(decode_message(&bytes), Err(TdsError::ProtocolError));
}

#[test]
fn unknown_token_tag_is_protocol_error() {
    let bytes = vec![0xEEu8, 0x00, 0x00];
    assert_eq!(decode_message(&bytes), Err(TdsError::ProtocolError));
}

#[test]
fn cell_layouts_are_exact() {
    let cols = vec![
        col(b"n", SqlType::Int4, true),
        col(b"s", SqlType::VarChar, true),
    ];
    let row = vec![Value::Int4(0x01020304), Value::VarChar(b"ab".to_vec())];
    let mut bytes = Vec::new();
    encode_token(&mut bytes, &Token::Row(row), &cols);
    assert_eq!(
        bytes,
        vec![
            0xD1, // row token tag
            0x04, 0x04, 0x03, 0x02, 0x01, // int4: length byte, little-endian value
            0x02, 0x00, 0x61, 0x62, // varchar: little-endian length, bytes
        ]
    );
    // null encodings: zero length byte for fixed-width, sentinel for varchar
    let nulls = vec![Value::Null, Value::Null];
    let mut nb = Vec::new();
    encode_token(&mut nb, &Token::Row(nulls), &cols);
    assert_eq!(nb, vec![0xD1, 0x00, 0xFF, 0xFF]);
}

#[test]
fn metadata_layout_is_exact() {
    let cols = vec![col(b"id", SqlType::Int4, true)];
    let mut bytes = Vec::new();
    encode_token(&mut bytes, &Token::ColumnMetadata(cols), &Vec::new());
    assert_eq!(
        bytes,
        vec![
            0x81, // column metadata tag
            0x01, 0x00, // little-endian column count
            0x38, // int4 type tag
            0x01, // nullable
            0x02, 0x69, 0x64, // name length, "id"
        ]
    );
}
