use tds_client::codec::{Token, encode_token};
use tds_client::session::{
    AuthMethod, EncryptionLevel, NegotiationState, ServerEncryption, negotiate_encryption,
    parse_prelogin_reply,
};
use tds_client::client::Client;
use tds_client::TdsError;

fn prelogin_reply(encryption_byte: u8) -> Vec<u8> {
    // little-endian server version, then the encryption advertisement
    vec![0x04, 0x00, 0x00, 0x74, encryption_byte]
}

fn login_ack_reply() -> Vec<u8> {
    let mut out = Vec::new();
    encode_token(
        &mut out,
        &Token::LoginAck { version: 0x74000004, server: b"mock".to_vec() },
        &Vec::new(),
    );
    out
}

#[test]
fn required_encryption_against_unsupporting_server_is_mismatch() {
    // The scenario: encryption=required, server advertises "no encryption".
    let mut builder = Client::builder();
    builder.encryption(EncryptionLevel::Required);
    builder.authentication(AuthMethod::SqlServer {
        user: b"sa".to_vec(),
        password: b"SECRET-REDACTED".to_vec(),
    });
    let mut neg = builder.build();
    let _prelogin = neg.prelogin_request().unwrap();
    let err = neg.on_prelogin_reply(&prelogin_reply(0x02)).unwrap_err();
    assert_eq!(err, TdsError::EncryptionPolicyMismatch);
    assert_eq!(neg.state, NegotiationState::Failed);
    // No login bytes can be produced after the mismatch.
    assert_eq!(neg.login_request(), Err(TdsError::SessionStateError));
}

#[test]
fn encryption_off_against_mandating_server_is_mismatch() {
    assert_eq!(
        negotiate_encryption(EncryptionLevel::Off, ServerEncryption::Required),
        Err(TdsError::EncryptionPolicyMismatch)
    );
}

#[test]
fn compatible_encryption_pairs_settle_tls() {
    assert_eq!(
        negotiate_encryption(EncryptionLevel::Off, ServerEncryption::NotSupported),
        Ok(false)
    );
    assert_eq!(negotiate_encryption(EncryptionLevel::Off, ServerEncryption::On), Ok(false));
    assert_eq!(
        negotiate_encryption(EncryptionLevel::Required, ServerEncryption::On),
        Ok(true)
    );
    assert_eq!(
        negotiate_encryption(EncryptionLevel::LoginOnly, ServerEncryption::Off),
        Ok(true)
    );
    assert_eq!(
        negotiate_encryption(EncryptionLevel::LoginOnly, ServerEncryption::NotSupported),
        Ok(false)
    );
}

#[test]
fn full_handshake_reaches_ready() {
    let mut builder = Client::builder();
    builder.host(b"db.example".to_vec());
    builder.port(1433);
    builder.database(b"orders".to_vec());
    builder.authentication(AuthMethod::SqlServer {
        user: b"sa".to_vec(),
        password: b"SECRET-REDACTED".to_vec(),
    });
    let mut neg = builder.build();
    assert_eq!(neg.state, NegotiationState::Disconnected);

    let prelogin = neg.prelogin_request().unwrap();
    assert_eq!(prelogin, vec![0x04, 0x00, 0x00, 0x74, 0x00]);
    assert_eq!(neg.state, NegotiationState::PreLoginSent);

    let tls = neg.on_prelogin_reply(&prelogin_reply(0x00)).unwrap();
    assert!(!tls);
    assert_eq!(neg.state, NegotiationState::PreLoginAckReceived);

    let login = neg.login_request().unwrap();
    // database, then the credential fields, each length-prefixed
    let mut expected = vec![6u8];
    expected.extend_from_slice(b"orders");
    expected.push(0x01);
    expected.push(2);
    expected.extend_from_slice(b"sa");
    expected.push(15);
    expected.extend_from_slice(b"SECRET-REDACTED");
    assert_eq!(login, expected);
    assert_eq!(neg.state, NegotiationState::LoginSent);

    neg.on_login_reply(&login_ack_reply()).unwrap();
    assert_eq!(neg.state, NegotiationState::Ready);

    let client = Client::open(&neg, 4096).unwrap();
    assert_eq!(client.packet_size, 4096);
}

#[test]
fn login_reply_without_ack_is_authentication_error() {
    let mut builder = Client::builder();
    builder.authentication(AuthMethod::Integrated);
    let mut neg = builder.build();
    neg.prelogin_request().unwrap();
    neg.on_prelogin_reply(&prelogin_reply(0x00)).unwrap();
    neg.login_request().unwrap();

    let mut reply = Vec::new();
    encode_token(
        &mut reply,
        &Token::Error {
            code: 18456,
            state: 1,
            severity: 14,
            message: b"login failed".to_vec(),
            source: b"srv".to_vec(),
        },
        &Vec::new(),
    );
    assert_eq!(neg.on_login_reply(&reply), Err(TdsError::AuthenticationError));
    assert_eq!(neg.state, NegotiationState::Failed);
    assert!(Client::open(&neg, 4096).is_err());
}

#[test]
fn malformed_prelogin_reply_is_protocol_error() {
    let mut builder = Client::builder();
    builder.authentication(AuthMethod::Integrated);
    let mut neg = builder.build();
    neg.prelogin_request().unwrap();
    assert_eq!(
        neg.on_prelogin_reply(&vec![0x01, 0x02]),
        Err(TdsError::ProtocolError)
    );
    assert_eq!(neg.state, NegotiationState::Failed);
}

#[test]
fn parse_prelogin_reply_reads_advertisement() {
    assert_eq!(
        parse_prelogin_reply(&prelogin_reply(0x03)).unwrap().1,
        ServerEncryption::Required
    );
    assert_eq!(
        parse_prelogin_reply(&prelogin_reply(0x01)).unwrap().1,
        ServerEncryption::On
    );
    assert!(parse_prelogin_reply(&prelogin_reply(0x07)).is_err());
}

#[test]
fn builder_defaults_and_knobs() {
    let mut builder = Client::builder();
    assert_eq!(builder.config.host, b"localhost".to_vec());
    assert_eq!(builder.config.port, 1433);
    assert_eq!(builder.config.database, b"master".to_vec());
    assert_eq!(builder.config.instance_name, None);
    assert_eq!(builder.config.encryption, EncryptionLevel::Off);
    assert!(!builder.config.trust_cert);
    assert_eq!(builder.config.auth, AuthMethod::Integrated);

    builder.instance_name(b"SQLEXPRESS".to_vec());
    builder.trust_cert();
    assert_eq!(builder.config.instance_name, Some(b"SQLEXPRESS".to_vec()));
    assert!(builder.config.trust_cert);
}
