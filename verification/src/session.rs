//! Session negotiation: connection configuration, the pre-login encryption
//! capability exchange, and the login handshake, as a pure state machine.
//!
//! The negotiator never touches a transport. It hands the host the exact
//! bytes to send at each step and consumes the reply payloads the host read
//! back, moving `Disconnected → PreLoginSent → PreLoginAckReceived →
//! LoginSent → Ready`, or into the terminal `Failed` state. An encryption
//! policy conflict is detected on the pre-login reply, before any login
//! bytes can be produced.

use vstd::prelude::*;
use crate::wire::{u32_le, u32_of_le, put_u32_le, get_u32_le};
use crate::codec::{
    Token, TokenModel, spec_decode_tokens, decode_message, token_views, put_bytes,
};
use crate::TdsError;

verus! {

/// The client's configured encryption level.
#[derive(Clone, Copy, PartialEq, Eq, Structural, Debug)]
pub enum EncryptionLevel {
    /// No encryption at any point.
    Off,
    /// Encrypt only the login exchange.
    LoginOnly,
    /// Encrypt the whole session; refuse servers that cannot.
    Required,
}

/// What the server's pre-login reply advertises about encryption.
#[derive(Clone, Copy, PartialEq, Eq, Structural, Debug)]
pub enum ServerEncryption {
    /// The server cannot encrypt at all.
    NotSupported,
    /// The server can encrypt but does not ask for it.
    Off,
    /// The server offers encryption.
    On,
    /// The server mandates encryption.
    Required,
}

/// The authentication method carried in the login message.
#[derive(Clone, PartialEq, Eq, Debug)]
pub enum AuthMethod {
    /// Database-account credentials: user name and password.
    SqlServer { user: Vec<u8>, password: Vec<u8> },
    /// Authentication of the ambient process identity.
    Integrated,
    /// A bearer token obtained out of band.
    AadToken(Vec<u8>),
}

/// Connection configuration, immutable once a session begins.
#[derive(Clone, PartialEq, Eq, Debug)]
pub struct Config {
    /// Server host name or address text.
    pub host: Vec<u8>,
    /// Server TCP port.
    pub port: u16,
    /// Database to open.
    pub database: Vec<u8>,
    /// Named instance whose port the discovery service resolves.
    pub instance_name: Option<Vec<u8>>,
    /// Preferred encryption level.
    pub encryption: EncryptionLevel,
    /// Accept the server certificate without validation.
    pub trust_cert: bool,
    /// How to authenticate.
    pub auth: AuthMethod,
}

/// States of the session negotiation machine.
#[derive(Clone, Copy, PartialEq, Eq, Structural, Debug)]
pub enum NegotiationState {
    /// Nothing sent yet.
    Disconnected,
    /// The pre-login message was produced; awaiting the server's reply.
    PreLoginSent,
    /// The pre-login reply was accepted; encryption policy is settled.
    PreLoginAckReceived,
    /// The login message was produced; awaiting the server's reply.
    LoginSent,
    /// Login was acknowledged: the session is usable.
    Ready,
    /// Negotiation failed; the session is unusable.
    Failed,
}

/// Whether the client and server encryption positions can be reconciled:
/// a client that requires encryption cannot accept a server without it, and
/// a client with encryption off cannot accept a server that mandates it.
pub open spec fn encryption_compatible(client: EncryptionLevel, server: ServerEncryption) -> bool {
    &&& !(client == EncryptionLevel::Required && server == ServerEncryption::NotSupported)
    &&& !(client == EncryptionLevel::Off && server == ServerEncryption::Required)
}

/// Whether a compatible pair actually turns encryption on for the login
/// exchange: it stays off only when both sides allow that.
pub open spec fn encryption_active(client: EncryptionLevel, server: ServerEncryption) -> bool {
    client != EncryptionLevel::Off && server != ServerEncryption::NotSupported
        || server == ServerEncryption::Required
}

/// Decides the encryption policy from the configured level and the server's
/// advertisement: `Ok(true)` means a TLS handshake must be layered over the
/// transport before login, and `EncryptionPolicyMismatch` is returned if and
/// only if the two positions cannot be reconciled.
pub fn negotiate_encryption(client: EncryptionLevel, server: ServerEncryption) -> (r: Result<
    bool,
    TdsError,
>)
    ensures
        match r {
            Ok(tls) => {
                &&& encryption_compatible(client, server)
                &&& tls == encryption_active(client, server)
            },
            Err(e) => {
                &&& !encryption_compatible(client, server)
                &&& e == TdsError::EncryptionPolicyMismatch
            },
        },
{
    match (client, server) {
        (EncryptionLevel::Required, ServerEncryption::NotSupported) =>
            Err(TdsError::EncryptionPolicyMismatch),
        (EncryptionLevel::Off, ServerEncryption::Required) =>
            Err(TdsError::EncryptionPolicyMismatch),
        (EncryptionLevel::Off, _) => Ok(false),
        (_, ServerEncryption::NotSupported) => Ok(false),
        (_, _) => Ok(true),
    }
}

/// The wire byte advertising an encryption position in a pre-login message.
pub open spec fn encryption_byte(level: EncryptionLevel) -> u8 {
    match level {
        EncryptionLevel::Off => 0x00,
        EncryptionLevel::LoginOnly => 0x01,
        EncryptionLevel::Required => 0x03,
    }
}

/// The protocol version this engine advertises in its pre-login message.
pub const PROTOCOL_VERSION: u32 = 0x74000004;

/// The exact bytes of the client's pre-login message: protocol version and
/// the advertised encryption level.
pub open spec fn prelogin_bytes(level: EncryptionLevel) -> Seq<u8> {
    u32_le(PROTOCOL_VERSION) + seq![encryption_byte(level)]
}

/// Parses the server's pre-login reply: its protocol version and its
/// encryption advertisement, or `ProtocolError` for any other shape.
pub fn parse_prelogin_reply(buf: &Vec<u8>) -> (r: Result<(u32, ServerEncryption), TdsError>)
    ensures
        match r {
            Ok((version, server)) => {
                &&& buf@.len() == 5
                &&& version == u32_of_le(buf@[0], buf@[1], buf@[2], buf@[3])
                &&& match buf@[4] {
                    0x00u8 => server == ServerEncryption::Off,
                    0x01u8 => server == ServerEncryption::On,
                    0x02u8 => server == ServerEncryption::NotSupported,
                    0x03u8 => server == ServerEncryption::Required,
                    _ => false,
                }
            },
            Err(e) => {
                &&& e == TdsError::ProtocolError
                &&& (buf@.len() != 5 || buf@[4] > 3)
            },
        },
{
    if buf.len() != 5 {
        return Err(TdsError::ProtocolError);
    }
    let version = get_u32_le(buf, 0);
    let b = buf[4];
    let server = if b == 0x00 {
        ServerEncryption::Off
    } else if b == 0x01 {
        ServerEncryption::On
    } else if b == 0x02 {
        ServerEncryption::NotSupported
    } else if b == 0x03 {
        ServerEncryption::Required
    } else {
        return Err(TdsError::ProtocolError);
    };
    Ok((version, server))
}

/// The wire tag of an authentication method in the login message.
pub open spec fn auth_tag(auth: AuthMethod) -> u8 {
    match auth {
        AuthMethod::SqlServer { .. } => 0x01,
        AuthMethod::Integrated => 0x02,
        AuthMethod::AadToken(_) => 0x03,
    }
}

/// A configuration whose variable-length fields fit their one-byte length
/// prefixes in the login message.
pub open spec fn config_wf(c: Config) -> bool {
    &&& c.database@.len() <= 255
    &&& match c.auth {
        AuthMethod::SqlServer { user, password } =>
            user@.len() <= 255 && password@.len() <= 255,
        AuthMethod::Integrated => true,
        AuthMethod::AadToken(tok) => tok@.len() <= 255,
    }
}

/// The exact bytes of the login message: database name, then the
/// authentication method with its credential fields, every field carrying a
/// one-byte length prefix.
pub open spec fn login_bytes(c: Config) -> Seq<u8> {
    seq![c.database@.len() as u8] + c.database@ + seq![auth_tag(c.auth)] + (match c.auth {
        AuthMethod::SqlServer { user, password } =>
            seq![user@.len() as u8] + user@ + seq![password@.len() as u8] + password@,
        AuthMethod::Integrated => Seq::<u8>::empty(),
        AuthMethod::AadToken(tok) => seq![tok@.len() as u8] + tok@,
    })
}

/// Drives the pre-login and login handshake as a pure state machine over
/// message payloads.
pub struct Negotiator {
    /// The connection configuration being negotiated.
    pub config: Config,
    /// Where the handshake stands.
    pub state: NegotiationState,
    /// Whether the transport must carry TLS from login onwards; settled by
    /// the pre-login reply.
    pub tls_active: bool,
}

impl Negotiator {
    /// Starts a handshake for `config`.
    pub fn new(config: Config) -> (r: Negotiator)
        ensures
            r.config == config,
            r.state == NegotiationState::Disconnected,
            r.tls_active == false,
    {
        Negotiator { config, state: NegotiationState::Disconnected, tls_active: false }
    }

    /// Produces the pre-login message to send, moving to `PreLoginSent`.
    pub fn prelogin_request(&mut self) -> (r: Result<Vec<u8>, TdsError>)
        ensures
            match r {
                Ok(out) => {
                    &&& old(self).state == NegotiationState::Disconnected
                    &&& out@ == prelogin_bytes(old(self).config.encryption)
                    &&& final(self).state == NegotiationState::PreLoginSent
                },
                Err(e) => {
                    &&& old(self).state != NegotiationState::Disconnected
                    &&& e == TdsError::SessionStateError
                    &&& *final(self) == *old(self)
                },
            },
            final(self).config == old(self).config,
            final(self).tls_active == old(self).tls_active,
    {
        if !matches!(self.state, NegotiationState::Disconnected) {
            return Err(TdsError::SessionStateError);
        }
        let mut out: Vec<u8> = Vec::new();
        put_u32_le(&mut out, PROTOCOL_VERSION);
        out.push(encryption_byte_of(self.config.encryption));
        self.state = NegotiationState::PreLoginSent;
        Ok(out)
    }

    /// Consumes the server's pre-login reply: settles the encryption policy
    /// and moves to `PreLoginAckReceived`, or fails the whole negotiation.
    /// A policy conflict surfaces as `EncryptionPolicyMismatch` here, in the
    /// `Failed` state — no login bytes can be produced after it.
    pub fn on_prelogin_reply(&mut self, reply: &Vec<u8>) -> (r: Result<bool, TdsError>)
        ensures
            final(self).config == old(self).config,
            match r {
                Ok(tls) => {
                    &&& old(self).state == NegotiationState::PreLoginSent
                    &&& final(self).state == NegotiationState::PreLoginAckReceived
                    &&& final(self).tls_active == tls
                    &&& reply@.len() == 5
                    &&& encryption_compatible(
                        old(self).config.encryption,
                        spec_server_encryption(reply@),
                    )
                    &&& tls == encryption_active(
                        old(self).config.encryption,
                        spec_server_encryption(reply@),
                    )
                },
                Err(e) => {
                    &&& (old(self).state != NegotiationState::PreLoginSent
                        ==> e == TdsError::SessionStateError && *final(self) == *old(self))
                    &&& (old(self).state == NegotiationState::PreLoginSent
                        ==> final(self).state == NegotiationState::Failed
                            && (e == TdsError::ProtocolError
                                || e == TdsError::EncryptionPolicyMismatch))
                    &&& (e == TdsError::ProtocolError
                        ==> reply@.len() != 5 || reply@[4] > 3)
                    &&& (e == TdsError::EncryptionPolicyMismatch
                        ==> !encryption_compatible(
                            old(self).config.encryption,
                            spec_server_encryption(reply@),
                        ))
                },
            },
    {
        if !matches!(self.state, NegotiationState::PreLoginSent) {
            return Err(TdsError::SessionStateError);
        }
        let (_version, server) = match parse_prelogin_reply(reply) {
            Ok(p) => p,
            Err(e) => {
                self.state = NegotiationState::Failed;
                return Err(e);
            }
        };
        match negotiate_encryption(self.config.encryption, server) {
            Ok(tls) => {
                self.tls_active = tls;
                self.state = NegotiationState::PreLoginAckReceived;
                Ok(tls)
            }
            Err(e) => {
                self.state = NegotiationState::Failed;
                Err(e)
            }
        }
    }

    /// Produces the login message to send, moving to `LoginSent`.
    pub fn login_request(&mut self) -> (r: Result<Vec<u8>, TdsError>)
        requires
            config_wf(old(self).config),
        ensures
            final(self).config == old(self).config,
            final(self).tls_active == old(self).tls_active,
            match r {
                Ok(out) => {
                    &&& old(self).state == NegotiationState::PreLoginAckReceived
                    &&& out@ == login_bytes(old(self).config)
                    &&& final(self).state == NegotiationState::LoginSent
                },
                Err(e) => {
                    &&& old(self).state != NegotiationState::PreLoginAckReceived
                    &&& e == TdsError::SessionStateError
                    &&& *final(self) == *old(self)
                },
            },
    {
        if !matches!(self.state, NegotiationState::PreLoginAckReceived) {
            return Err(TdsError::SessionStateError);
        }
        let mut out: Vec<u8> = Vec::new();
        out.push(self.config.database.len() as u8);
        put_bytes(&mut out, &self.config.database);
        match &self.config.auth {
            AuthMethod::SqlServer { user, password } => {
                out.push(0x01u8);
                out.push(user.len() as u8);
                put_bytes(&mut out, user);
                out.push(password.len() as u8);
                put_bytes(&mut out, password);
            }
            AuthMethod::Integrated => {
                out.push(0x02u8);
            }
            AuthMethod::AadToken(tok) => {
                out.push(0x03u8);
                out.push(tok.len() as u8);
                put_bytes(&mut out, tok);
            }
        }
        assert(out@ =~= login_bytes(self.config));
        self.state = NegotiationState::LoginSent;
        Ok(out)
    }

    /// Consumes the server's login reply payload: a login acknowledgement
    /// token moves the session to `Ready`; a server error token means the
    /// credentials were rejected and the negotiation is `Failed`.
    pub fn on_login_reply(&mut self, reply: &Vec<u8>) -> (r: Result<(), TdsError>)
        ensures
            final(self).config == old(self).config,
            final(self).tls_active == old(self).tls_active,
            match r {
                Ok(()) => {
                    &&& old(self).state == NegotiationState::LoginSent
                    &&& final(self).state == NegotiationState::Ready
                    &&& (spec_decode_tokens(reply@, None) matches Some(ts)
                        && spec_has_login_ack(ts))
                },
                Err(e) => {
                    &&& (old(self).state != NegotiationState::LoginSent
                        ==> e == TdsError::SessionStateError && *final(self) == *old(self))
                    &&& (old(self).state == NegotiationState::LoginSent
                        ==> final(self).state == NegotiationState::Failed
                            && (e == TdsError::ProtocolError
                                || e == TdsError::AuthenticationError))
                    &&& (old(self).state == NegotiationState::LoginSent
                        && e == TdsError::ProtocolError
                        ==> (spec_decode_tokens(reply@, None) is None))
                    &&& (e == TdsError::AuthenticationError
                        ==> (spec_decode_tokens(reply@, None) matches Some(ts)
                            && !spec_has_login_ack(ts)))
                },
            },
    {
        if !matches!(self.state, NegotiationState::LoginSent) {
            return Err(TdsError::SessionStateError);
        }
        let tokens = match decode_message(reply) {
            Ok(ts) => ts,
            Err(e) => {
                self.state = NegotiationState::Failed;
                return Err(e);
            }
        };
        let m: usize = tokens.len();
        let mut i: usize = 0;
        while i < m
            invariant
                i <= m,
                m == tokens@.len(),
                self.config == old(self).config,
                self.tls_active == old(self).tls_active,
                self.state == old(self).state,
                old(self).state == NegotiationState::LoginSent,
                spec_decode_tokens(reply@, None) == Some(token_views(tokens@)),
                forall|j: int| 0 <= j < i
                    ==> !(#[trigger] tokens@[j]@ matches TokenModel::LoginAck { .. }),
            decreases m - i,
        {
            if matches!(&tokens[i], Token::LoginAck { .. }) {
                proof {
                    assert(token_views(tokens@)[i as int]
                        matches TokenModel::LoginAck { .. });
                }
                self.state = NegotiationState::Ready;
                return Ok(());
            }
            i += 1;
        }
        self.state = NegotiationState::Failed;
        Err(TdsError::AuthenticationError)
    }
}

/// Whether a token sequence contains a login acknowledgement.
pub open spec fn spec_has_login_ack(ts: Seq<TokenModel>) -> bool {
    exists|i: int| 0 <= i < ts.len() && (#[trigger] ts[i] matches TokenModel::LoginAck { .. })
}

/// The server encryption position a pre-login reply advertises, or
/// `NotSupported` when the reply is malformed (a malformed reply never
/// reaches the policy decision).
pub open spec fn spec_server_encryption(b: Seq<u8>) -> ServerEncryption {
    if b.len() == 5 && b[4] == 0x01 {
        ServerEncryption::On
    } else if b.len() == 5 && b[4] == 0x00 {
        ServerEncryption::Off
    } else if b.len() == 5 && b[4] == 0x03 {
        ServerEncryption::Required
    } else {
        ServerEncryption::NotSupported
    }
}

/// The wire byte of an encryption level, as an executable value.
pub fn encryption_byte_of(level: EncryptionLevel) -> (r: u8)
    ensures
        r == encryption_byte(level),
{
    match level {
        EncryptionLevel::Off => 0x00,
        EncryptionLevel::LoginOnly => 0x01,
        EncryptionLevel::Required => 0x03,
    }
}

} // verus!
