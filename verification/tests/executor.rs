use tds_client::codec::{Column, SqlType, Token, Value, encode_token, DONE_COUNT};
use tds_client::client::{Client, SessionPhase};
use tds_client::session::NegotiationState;
use tds_client::TdsError;

fn ready_client() -> Client {
    Client { phase: SessionPhase::Ready, packet_size: 4096 }
}

fn encode_stream(tokens: &[Token], ctx: &Vec<Column>) -> Vec<u8> {
    let mut out = Vec::new();
    for t in tokens {
        encode_token(&mut out, t, ctx);
    }
    out
}

fn int_column(name: &[u8]) -> Column {
    Column { name: name.to_vec(), ty: SqlType::Int4, nullable: false }
}

#[test]
fn execute_insert_reports_two_rows_affected() {
    // The scenario: INSERT with two bound parameters, a mock server reply
    // holding one counted completion token with row count 2.
    let mut client = ready_client();
    let request = client
        .request(
            &b"INSERT INTO T VALUES (@P1),(@P2)".to_vec(),
            &vec![Value::Int4(1), Value::Int4(2)],
        )
        .unwrap();
    assert!(!request.is_empty());
    assert_eq!(client.phase, SessionPhase::Pending);

    let reply = encode_stream(
        &[Token::Done { status: DONE_COUNT, row_count: 2 }],
        &Vec::new(),
    );
    let result = client.execute(&reply).unwrap();
    assert_eq!(result.rows_affected, 2);
    assert_eq!(client.phase, SessionPhase::Ready);
}

#[test]
fn query_select_returns_single_row_forty_two() {
    // The scenario: SELECT @P1 with the parameter 42, a mock server reply
    // holding one int column's metadata, one row, and a completion token.
    let mut client = ready_client();
    client
        .request(&b"SELECT @P1".to_vec(), &vec![Value::Int4(42)])
        .unwrap();

    let cols = vec![int_column(b"answer")];
    let reply = encode_stream(
        &[
            Token::ColumnMetadata(cols.clone()),
            Token::Row(vec![Value::Int4(42)]),
            Token::Done { status: DONE_COUNT, row_count: 1 },
        ],
        &cols,
    );
    let result = client.query(&reply).unwrap();
    assert_eq!(result.sets.len(), 1);
    assert_eq!(result.sets[0].columns, cols);
    assert_eq!(result.sets[0].rows, vec![vec![Value::Int4(42)]]);
}

#[test]
fn fatal_error_token_terminates_stream_with_server_error() {
    // The scenario: a mock server reply carrying an error token above the
    // fatal severity threshold mid-stream.
    let cols = vec![int_column(b"n")];
    let reply = encode_stream(
        &[
            Token::ColumnMetadata(cols.clone()),
            Token::Row(vec![Value::Int4(1)]),
            Token::Error {
                code: 50000,
                state: 1,
                severity: 16,
                message: b"deliberate failure".to_vec(),
                source: b"mock".to_vec(),
            },
            Token::Done { status: DONE_COUNT, row_count: 1 },
        ],
        &cols,
    );

    let mut client = ready_client();
    client.request(&b"SELECT 1".to_vec(), &Vec::new()).unwrap();
    let err = client.query(&reply).unwrap_err();
    assert_eq!(
        err,
        TdsError::ServerError {
            code: 50000,
            severity: 16,
            message: b"deliberate failure".to_vec(),
        }
    );
    // The reply was consumed whole: the session can take the next request.
    assert_eq!(client.phase, SessionPhase::Ready);

    // The pull-based stream reports the same terminal failure.
    let mut client2 = ready_client();
    client2.request(&b"SELECT 1".to_vec(), &Vec::new()).unwrap();
    let mut stream = client2.query_stream(&reply).unwrap();
    assert!(matches!(stream.next_token(), Ok(Some(Token::ColumnMetadata(_)))));
    assert!(matches!(stream.next_token(), Ok(Some(Token::Row(_)))));
    let serr = stream.next_token().unwrap_err();
    assert!(matches!(serr, TdsError::ServerError { code: 50000, severity: 16, .. }));
    assert!(matches!(stream.next_token(), Ok(None)));
}

#[test]
fn nonfatal_error_token_does_not_terminate_execute() {
    let reply = encode_stream(
        &[
            Token::Error {
                code: 2528,
                state: 1,
                severity: 10,
                message: b"dbcc note".to_vec(),
                source: b"mock".to_vec(),
            },
            Token::Done { status: DONE_COUNT, row_count: 3 },
        ],
        &Vec::new(),
    );
    let mut client = ready_client();
    client.request(&b"UPDATE T SET x = 0".to_vec(), &Vec::new()).unwrap();
    assert_eq!(client.execute(&reply).unwrap().rows_affected, 3);
}

#[test]
fn execute_sums_only_counted_done_tokens() {
    let reply = encode_stream(
        &[
            Token::Done { status: DONE_COUNT, row_count: 2 },
            Token::Done { status: 0, row_count: 99 },
            Token::Done { status: DONE_COUNT | 0x1, row_count: 5 },
        ],
        &Vec::new(),
    );
    let mut client = ready_client();
    client.request(&b"UPDATE A; UPDATE B".to_vec(), &Vec::new()).unwrap();
    assert_eq!(client.execute(&reply).unwrap().rows_affected, 7);
}

#[test]
fn execute_row_count_aggregation_saturates() {
    let reply = encode_stream(
        &[
            Token::Done { status: DONE_COUNT, row_count: u64::MAX },
            Token::Done { status: DONE_COUNT, row_count: 1 },
        ],
        &Vec::new(),
    );
    let mut client = ready_client();
    client.request(&b"UPDATE T SET x = 0".to_vec(), &Vec::new()).unwrap();
    assert_eq!(client.execute(&reply).unwrap().rows_affected, u64::MAX);
}

#[test]
fn abandoned_stream_never_leaks_rows_into_next_query() {
    // First query: its stream is dropped after a single pull.
    let cols = vec![int_column(b"n")];
    let first_reply = encode_stream(
        &[
            Token::ColumnMetadata(cols.clone()),
            Token::Row(vec![Value::Int4(111)]),
            Token::Row(vec![Value::Int4(222)]),
            Token::Done { status: DONE_COUNT, row_count: 2 },
        ],
        &cols,
    );
    let mut client = ready_client();
    client.request(&b"SELECT n FROM a".to_vec(), &Vec::new()).unwrap();
    let mut stream = client.query_stream(&first_reply).unwrap();
    let _ = stream.next_token().unwrap();
    drop(stream);

    // Second query on the same session: only its own rows come back.
    let second_reply = encode_stream(
        &[
            Token::ColumnMetadata(cols.clone()),
            Token::Row(vec![Value::Int4(999)]),
            Token::Done { status: DONE_COUNT, row_count: 1 },
        ],
        &cols,
    );
    client.request(&b"SELECT n FROM b".to_vec(), &Vec::new()).unwrap();
    let result = client.query(&second_reply).unwrap();
    assert_eq!(result.sets.len(), 1);
    assert_eq!(result.sets[0].rows, vec![vec![Value::Int4(999)]]);
}

#[test]
fn second_request_while_pending_fails_fast() {
    let mut client = ready_client();
    client.request(&b"SELECT 1".to_vec(), &Vec::new()).unwrap();
    assert_eq!(
        client.request(&b"SELECT 2".to_vec(), &Vec::new()),
        Err(TdsError::SessionStateError)
    );
    assert_eq!(client.phase, SessionPhase::Pending);
}

#[test]
fn malformed_reply_fails_the_session() {
    let mut client = ready_client();
    client.request(&b"SELECT 1".to_vec(), &Vec::new()).unwrap();
    let garbage = vec![0xEE, 0x00];
    assert_eq!(client.query(&garbage), Err(TdsError::ProtocolError));
    assert_eq!(client.phase, SessionPhase::Failed);
    assert_eq!(
        client.request(&b"SELECT 2".to_vec(), &Vec::new()),
        Err(TdsError::SessionStateError)
    );
}

#[test]
fn placeholder_out_of_range_is_binding_error() {
    let mut client = ready_client();
    assert_eq!(
        client.request(&b"SELECT @P3".to_vec(), &vec![Value::Int4(1), Value::Int4(2)]),
        Err(TdsError::ParameterBindingError)
    );
    // Nothing was sent: the session still accepts a request.
    assert_eq!(client.phase, SessionPhase::Ready);
    assert_eq!(
        client.request(&b"SELECT @P0".to_vec(), &vec![Value::Int4(1)]),
        Err(TdsError::ParameterBindingError)
    );
    assert_eq!(
        client.request(&b"SELECT @P".to_vec(), &vec![Value::Int4(1)]),
        Err(TdsError::ParameterBindingError)
    );
    assert!(client.request(&b"SELECT @P1, @P2".to_vec(), &vec![
        Value::Int4(1),
        Value::VarChar(b"x".to_vec()),
    ]).is_ok());
}

#[test]
fn six_digit_placeholder_is_binding_error() {
    let mut client = ready_client();
    assert_eq!(
        client.request(&b"SELECT @P100000".to_vec(), &vec![Value::Int4(1)]),
        Err(TdsError::ParameterBindingError)
    );
}

#[test]
fn oversized_string_parameter_is_binding_error() {
    let mut client = ready_client();
    let big = Value::VarChar(vec![0x61; 0xFFFF]);
    assert_eq!(
        client.request(&b"SELECT @P1".to_vec(), &vec![big]),
        Err(TdsError::ParameterBindingError)
    );
    assert_eq!(client.phase, SessionPhase::Ready);
}

#[test]
fn unused_parameters_are_accepted() {
    let mut client = ready_client();
    assert!(client
        .request(&b"SELECT @P1".to_vec(), &vec![Value::Int4(1), Value::Int4(2)])
        .is_ok());
}

#[test]
fn request_payload_layout_is_exact() {
    let mut client = ready_client();
    let request = client
        .request(&b"SELECT @P1".to_vec(), &vec![Value::Int4(42)])
        .unwrap();
    let mut expected = vec![10u8, 0]; // little-endian text length
    expected.extend_from_slice(b"SELECT @P1");
    expected.extend_from_slice(&[1, 0]); // little-endian parameter count
    expected.extend_from_slice(&[0x38, 0x04, 42, 0, 0, 0]); // int4 tag, cell
    assert_eq!(request, expected);
}

#[test]
fn client_open_requires_ready_negotiation() {
    let mut builder = Client::builder();
    builder.database(b"master".to_vec());
    let neg = builder.build();
    assert_eq!(neg.state, NegotiationState::Disconnected);
    assert!(matches!(Client::open(&neg, 4096), Err(TdsError::SessionStateError)));
}

#[test]
fn multiple_result_sets_group_rows_by_metadata() {
    let cols_a = vec![int_column(b"a")];
    let cols_b = vec![
        Column { name: b"b".to_vec(), ty: SqlType::VarChar, nullable: true },
    ];
    let mut reply = Vec::new();
    encode_token(&mut reply, &Token::ColumnMetadata(cols_a.clone()), &Vec::new());
    encode_token(&mut reply, &Token::Row(vec![Value::Int4(1)]), &cols_a);
    encode_token(&mut reply, &Token::Done { status: DONE_COUNT | 0x1, row_count: 1 }, &cols_a);
    encode_token(&mut reply, &Token::ColumnMetadata(cols_b.clone()), &Vec::new());
    encode_token(&mut reply, &Token::Row(vec![Value::VarChar(b"x".to_vec())]), &cols_b);
    encode_token(&mut reply, &Token::Row(vec![Value::Null]), &cols_b);
    encode_token(&mut reply, &Token::Done { status: DONE_COUNT, row_count: 2 }, &cols_b);

    let mut client = ready_client();
    client.request(&b"SELECT a FROM t1; SELECT b FROM t2".to_vec(), &Vec::new()).unwrap();
    let result = client.query(&reply).unwrap();
    assert_eq!(result.sets.len(), 2);
    assert_eq!(result.sets[0].rows, vec![vec![Value::Int4(1)]]);
    assert_eq!(
        result.sets[1].rows,
        vec![vec![Value::VarChar(b"x".to_vec())], vec![Value::Null]]
    );
}
