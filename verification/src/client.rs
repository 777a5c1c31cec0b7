//! The query executor and result stream.
//!
//! A `Client` is the post-negotiation face of one session. It is strictly
//! sans-I/O: `request` validates the SQL text and parameters and produces
//! the exact request payload to frame and send, and `execute` / `query` /
//! `query_stream` consume the server's logical reply payload. The session
//! accepts at most one in-flight request: `request` moves it from `Ready`
//! to `Pending`, consuming a reply moves it back. Because a reply is
//! consumed whole, an abandoned result stream can never leak bytes or rows
//! into a later operation — each stream owns exactly the tokens of its own
//! reply, and this is stated in the contracts.

use vstd::prelude::*;
use crate::wire::{u16_le, put_u16_le};
use crate::packet::HEADER_LEN;
use crate::session::{
    Config, AuthMethod, EncryptionLevel, Negotiator, NegotiationState,
};
use crate::codec::{
    SqlType, Value, ValueModel, Column, ColumnModel, Token, TokenModel,
    value_views, column_views, token_views, cell_bytes, type_tag, type_tag_of,
    spec_decode_tokens, decode_message, encode_cell, put_bytes,
    VARCHAR_NULL_LEN, DONE_COUNT,
};
use crate::{TdsError, FATAL_SEVERITY};

verus! {

/// An ASCII decimal digit.
pub open spec fn is_digit(b: u8) -> bool {
    0x30 <= b <= 0x39
}

/// A parameter placeholder (`@P`) starts at position `p` of the SQL text.
pub open spec fn placeholder_at(s: Seq<u8>, p: int) -> bool {
    0 <= p && p + 1 < s.len() && s[p] == 0x40u8 && s[p + 1] == 0x50u8
}

/// Ten to the power `k`.
pub open spec fn pow10(k: int) -> int
    decreases k,
{
    if k <= 0 {
        1
    } else {
        10 * pow10(k - 1)
    }
}

/// The end of a digit run never lies before its start.
pub proof fn lemma_digit_run_end_ge(s: Seq<u8>, i: int)
    requires
        0 <= i <= s.len(),
    ensures
        digit_run_end(s, i) >= i,
    decreases s.len() - i,
{
    if i < s.len() && is_digit(s[i]) {
        lemma_digit_run_end_ge(s, i + 1);
    }
}

/// The end of the run of digits starting at `i`.
pub open spec fn digit_run_end(s: Seq<u8>, i: int) -> int
    decreases s.len() - i,
    when 0 <= i <= s.len()
{
    if i == s.len() {
        i
    } else if is_digit(s[i]) {
        digit_run_end(s, i + 1)
    } else {
        i
    }
}

/// The decimal value of the digits of `s` from `i` up to `j`.
pub open spec fn digits_val(s: Seq<u8>, i: int, j: int) -> int
    decreases j - i,
{
    if i >= j {
        0
    } else {
        digits_val(s, i, j - 1) * 10 + (s[j - 1] - 0x30)
    }
}

/// The placeholder starting at `p` is well bound under `np` parameters: it
/// has one to five digits and names a parameter from 1 to `np`.
pub open spec fn placeholder_ok(s: Seq<u8>, p: int, np: int) -> bool {
    let e = digit_run_end(s, p + 2);
    &&& e > p + 2
    &&& e - (p + 2) <= 5
    &&& 1 <= digits_val(s, p + 2, e) <= np
}

/// Every placeholder of the SQL text is well bound under `np` parameters.
pub open spec fn placeholders_ok(s: Seq<u8>, np: int) -> bool {
    forall|p: int| #[trigger] placeholder_at(s, p) ==> placeholder_ok(s, p, np)
}

/// Checks every placeholder of the SQL text against the parameter count.
pub fn check_placeholders(sql: &Vec<u8>, np: usize) -> (ok: bool)
    ensures
        ok == placeholders_ok(sql@, np as int),
{
    let n: usize = sql.len();
    let mut i: usize = 0;
    while i < n
        invariant
            i <= n,
            n == sql@.len(),
            forall|p: int| p < i && #[trigger] placeholder_at(sql@, p)
                ==> placeholder_ok(sql@, p, np as int),
        decreases n - i,
    {
        if sql[i] == 0x40 && i + 1 < n && sql[i + 1] == 0x50 {
            let start: usize = i + 2;
            let mut j: usize = start;
            let mut v: u32 = 0;
            let mut digits: usize = 0;
            while j < n && digits < 6 && sql[j] >= 0x30 && sql[j] <= 0x39
                invariant
                    start <= j <= n,
                    n == sql@.len(),
                    digits == j - start,
                    digits <= 6,
                    v == (if digits <= 5 { digits_val(sql@, start as int, j as int) } else { 0 }),
                    digits <= 5 ==> v < pow10(digits as int),
                    v <= 99999,
                    digit_run_end(sql@, start as int) == digit_run_end(sql@, j as int),
                decreases n - j,
            {
                proof {
                    assert(is_digit(sql@[j as int]));
                    assert(digit_run_end(sql@, j as int)
                        == digit_run_end(sql@, j as int + 1));
                    assert(pow10(0) == 1);
                    assert(pow10(1) == 10);
                    assert(pow10(2) == 100);
                    assert(pow10(3) == 1000);
                    assert(pow10(4) == 10000);
                    assert(pow10(5) == 100000);
                }
                if digits < 5 {
                    v = v * 10 + (sql[j] - 0x30) as u32;
                } else {
                    v = 0;
                }
                j += 1;
                digits += 1;
            }
            proof {
                if j == n || !is_digit(sql@[j as int]) {
                    assert(digit_run_end(sql@, j as int) == j);
                }
            }
            if digits == 0 || digits > 5 {
                proof {
                    assert(placeholder_at(sql@, i as int));
                    if digits > 5 {
                        lemma_digit_run_end_ge(sql@, j as int);
                        assert(digit_run_end(sql@, start as int) >= j);
                    }
                    assert(!placeholder_ok(sql@, i as int, np as int));
                }
                return false;
            }
            if v == 0 || (v as usize) > np {
                proof {
                    assert(placeholder_at(sql@, i as int));
                    assert(!placeholder_ok(sql@, i as int, np as int));
                }
                return false;
            }
            proof {
                assert(placeholder_ok(sql@, i as int, np as int));
                assert(forall|p: int| p < i + 1 && #[trigger] placeholder_at(sql@, p)
                    ==> placeholder_ok(sql@, p, np as int));
            }
            i += 1;
        } else {
            proof {
                if placeholder_at(sql@, i as int) {
                    assert(sql@[i as int] == 0x40 && sql@[i as int + 1] == 0x50);
                }
            }
            i += 1;
        }
    }
    proof {
        assert forall|p: int| #[trigger] placeholder_at(sql@, p)
            implies placeholder_ok(sql@, p, np as int) by {
            assert(p < n);
        };
    }
    true
}

/// The column type a parameter value is sent as; a null parameter travels
/// as a null byte string.
pub open spec fn param_type(v: ValueModel) -> SqlType {
    match v {
        ValueModel::Null => SqlType::VarChar,
        ValueModel::Bit(_) => SqlType::Bit,
        ValueModel::Int4(_) => SqlType::Int4,
        ValueModel::Int8(_) => SqlType::Int8,
        ValueModel::VarChar(_) => SqlType::VarChar,
    }
}

/// Every parameter value fits its wire encoding.
pub open spec fn params_encodable(vs: Seq<ValueModel>) -> bool {
    forall|i: int| 0 <= i < vs.len() ==> (match #[trigger] vs[i] {
        ValueModel::VarChar(s) => s.len() < VARCHAR_NULL_LEN,
        _ => true,
    })
}

/// The wire bytes of one parameter: its type tag and its cell encoding.
pub open spec fn param_bytes(v: ValueModel) -> Seq<u8> {
    seq![type_tag(param_type(v))] + cell_bytes(param_type(v), v)
}

/// The concatenated wire bytes of a parameter list.
pub open spec fn params_bytes(vs: Seq<ValueModel>) -> Seq<u8>
    decreases vs.len(),
{
    if vs.len() == 0 {
        Seq::empty()
    } else {
        param_bytes(vs[0]) + params_bytes(vs.skip(1))
    }
}

/// The exact request payload of a parameterized statement: length-prefixed
/// SQL text, parameter count, and the encoded parameters in order.
pub open spec fn rpc_bytes(sql: Seq<u8>, vs: Seq<ValueModel>) -> Seq<u8> {
    u16_le(sql.len() as u16) + sql + u16_le(vs.len() as u16) + params_bytes(vs)
}

/// A statement and parameter list the executor accepts: both fit their
/// length prefixes, every placeholder is bound, every parameter encodable.
pub open spec fn binding_ok(sql: Seq<u8>, vs: Seq<ValueModel>) -> bool {
    &&& sql.len() <= 0xFFFF
    &&& vs.len() <= 0xFFFF
    &&& placeholders_ok(sql, vs.len() as int)
    &&& params_encodable(vs)
}

/// Saturating 64-bit addition, used to aggregate affected-row counts.
pub open spec fn sat_add(a: u64, b: u64) -> u64 {
    if a + b > u64::MAX {
        u64::MAX
    } else {
        (a + b) as u64
    }
}

/// What draining a reply's token stream for an execute amounts to.
pub ghost enum ExecOutcome {
    /// The aggregated affected-row count of all counted completion tokens.
    Count(u64),
    /// A server error above the fatal threshold: code, severity, message.
    Fatal(u32, u8, Seq<u8>),
}

/// Drains a token stream, aggregating counted completion tokens into `acc`,
/// until a fatal server error or the end of the stream.
pub open spec fn spec_execute_outcome(ts: Seq<TokenModel>, acc: u64) -> ExecOutcome
    decreases ts.len(),
{
    if ts.len() == 0 {
        ExecOutcome::Count(acc)
    } else {
        match ts[0] {
            TokenModel::Done { status, row_count } => spec_execute_outcome(
                ts.skip(1),
                if status & DONE_COUNT == DONE_COUNT { sat_add(acc, row_count) } else { acc },
            ),
            TokenModel::Error { code, severity, message, .. } => {
                if severity > FATAL_SEVERITY {
                    ExecOutcome::Fatal(code, severity, message)
                } else {
                    spec_execute_outcome(ts.skip(1), acc)
                }
            }
            _ => spec_execute_outcome(ts.skip(1), acc),
        }
    }
}

/// One result set: its column metadata and its rows.
#[derive(Clone, PartialEq, Eq, Debug)]
pub struct ResultSet {
    /// The column descriptors this set's rows follow.
    pub columns: Vec<Column>,
    /// The decoded rows, in arrival order.
    pub rows: Vec<Vec<Value>>,
}

/// Mathematical model of a result set.
pub ghost struct SetModel {
    pub columns: Seq<ColumnModel>,
    pub rows: Seq<Seq<ValueModel>>,
}

/// The models of a sequence of rows.
pub open spec fn rows_views(s: Seq<Vec<Value>>) -> Seq<Seq<ValueModel>> {
    s.map_values(|r: Vec<Value>| value_views(r@))
}

impl View for ResultSet {
    type V = SetModel;

    open spec fn view(&self) -> SetModel {
        SetModel { columns: column_views(self.columns@), rows: rows_views(self.rows@) }
    }
}

/// The models of a sequence of result sets.
pub open spec fn set_views(s: Seq<ResultSet>) -> Seq<SetModel> {
    s.map_values(|rs: ResultSet| rs@)
}

/// What grouping a reply's token stream into result sets amounts to.
pub ghost enum CollectOutcome {
    /// The grouped result sets, in arrival order.
    Sets(Seq<SetModel>),
    /// A server error above the fatal threshold: code, severity, message.
    Fatal(u32, u8, Seq<u8>),
    /// A row appeared with no governing column metadata.
    Malformed,
}

/// Groups a token stream into result sets: column metadata opens a new set,
/// each row joins the latest set, a fatal server error aborts, and
/// completion and diagnostic tokens carry no rows.
pub open spec fn spec_collect(ts: Seq<TokenModel>, acc: Seq<SetModel>) -> CollectOutcome
    decreases ts.len(),
{
    if ts.len() == 0 {
        CollectOutcome::Sets(acc)
    } else {
        match ts[0] {
            TokenModel::ColumnMetadata(cols) => spec_collect(
                ts.skip(1),
                acc + seq![SetModel { columns: cols, rows: Seq::empty() }],
            ),
            TokenModel::Row(vals) => {
                if acc.len() == 0 {
                    CollectOutcome::Malformed
                } else {
                    let last = acc[acc.len() - 1];
                    spec_collect(
                        ts.skip(1),
                        acc.update(
                            acc.len() - 1,
                            SetModel { columns: last.columns, rows: last.rows + seq![vals] },
                        ),
                    )
                }
            }
            TokenModel::Error { code, severity, message, .. } => {
                if severity > FATAL_SEVERITY {
                    CollectOutcome::Fatal(code, severity, message)
                } else {
                    spec_collect(ts.skip(1), acc)
                }
            }
            _ => spec_collect(ts.skip(1), acc),
        }
    }
}

/// The aggregate outcome of an execute: affected-row counts summed over all
/// counted completion tokens.
#[derive(Clone, Copy, PartialEq, Eq, Structural, Debug)]
pub struct ExecuteResult {
    /// Total rows affected, saturating at the 64-bit maximum.
    pub rows_affected: u64,
}

/// The collected outcome of a query: its result sets in arrival order.
#[derive(Clone, PartialEq, Eq, Debug)]
pub struct QueryResult {
    /// The result sets, each with metadata and rows.
    pub sets: Vec<ResultSet>,
}

/// Where one session stands between operations.
#[derive(Clone, Copy, PartialEq, Eq, Structural, Debug)]
pub enum SessionPhase {
    /// No request in flight: a new request may be issued.
    Ready,
    /// A request was issued and its reply not yet consumed.
    Pending,
    /// The session is unusable; every operation fails fast.
    Failed,
}

/// A pull-based, single-pass view over one reply's decoded tokens. The
/// stream owns its tokens outright: dropping it affects nothing else.
#[derive(Debug)]
pub struct ResultStream {
    /// The tokens not yet consumed, front first.
    pub tokens: Vec<Token>,
}

impl ResultStream {
    /// Pulls the next token: `Ok(None)` at the clean end of the stream, and
    /// a fatal server error token converts the terminal event into a
    /// `ServerError` that empties the stream.
    pub fn next_token(&mut self) -> (r: Result<Option<Token>, TdsError>)
        ensures
            match r {
                Ok(None) => {
                    &&& old(self).tokens@.len() == 0
                    &&& final(self).tokens@ == old(self).tokens@
                },
                Ok(Some(t)) => {
                    &&& old(self).tokens@.len() > 0
                    &&& t == old(self).tokens@[0]
                    &&& !(t@ matches TokenModel::Error { severity, .. }
                        && severity > FATAL_SEVERITY)
                    &&& final(self).tokens@ == old(self).tokens@.skip(1)
                },
                Err(e) => {
                    &&& old(self).tokens@.len() > 0
                    &&& (old(self).tokens@[0]@ matches TokenModel::Error {
                        code,
                        severity,
                        message,
                        ..
                    } && severity > FATAL_SEVERITY
                        && (e matches TdsError::ServerError {
                            code: ec,
                            severity: es,
                            message: em,
                        } && ec == code && es == severity && em@ == message))
                    &&& final(self).tokens@.len() == 0
                },
            },
    {
        if self.tokens.len() == 0 {
            return Ok(None);
        }
        let t = self.tokens.remove(0);
        if let Token::Error { code, severity, message, state: _, source: _ } = &t {
            if *severity > FATAL_SEVERITY {
                let code = *code;
                let severity = *severity;
                let mut msg: Vec<u8> = Vec::new();
                put_bytes(&mut msg, message);
                proof {
                    assert(msg@ =~= Seq::<u8>::empty() + message@);
                }
                self.tokens = Vec::new();
                return Err(TdsError::ServerError { code, severity, message: msg });
            }
        }
        Ok(Some(t))
    }
}


/// The executable column type of a parameter value.
pub fn param_type_of(v: &Value) -> (r: SqlType)
    ensures
        r == param_type(v@),
{
    match v {
        Value::Null => SqlType::VarChar,
        Value::Bit(_) => SqlType::Bit,
        Value::Int4(_) => SqlType::Int4,
        Value::Int8(_) => SqlType::Int8,
        Value::VarChar(_) => SqlType::VarChar,
    }
}

/// Checks that every parameter value fits its wire encoding.
pub fn check_params_encodable(params: &Vec<Value>) -> (ok: bool)
    ensures
        ok == params_encodable(value_views(params@)),
{
    let m: usize = params.len();
    let mut i: usize = 0;
    while i < m
        invariant
            i <= m,
            m == params@.len(),
            forall|k: int| 0 <= k < i ==> (match #[trigger] value_views(params@)[k] {
                ValueModel::VarChar(s) => s.len() < VARCHAR_NULL_LEN,
                _ => true,
            }),
        decreases m - i,
    {
        if let Value::VarChar(bytes) = &params[i] {
            if bytes.len() >= VARCHAR_NULL_LEN as usize {
                proof {
                    assert(value_views(params@)[i as int] == params@[i as int]@);
                    assert(!params_encodable(value_views(params@)));
                }
                return false;
            }
        }
        proof {
            assert(value_views(params@)[i as int] == params@[i as int]@);
        }
        i += 1;
    }
    true
}

/// Encodes the request payload of a parameterized statement, exactly as
/// `rpc_bytes` describes.
pub fn encode_request(sql: &Vec<u8>, params: &Vec<Value>) -> (out: Vec<u8>)
    requires
        sql@.len() <= 0xFFFF,
        params@.len() <= 0xFFFF,
        params_encodable(value_views(params@)),
    ensures
        out@ == rpc_bytes(sql@, value_views(params@)),
{
    let mut out: Vec<u8> = Vec::new();
    put_u16_le(&mut out, sql.len() as u16);
    put_bytes(&mut out, sql);
    put_u16_le(&mut out, params.len() as u16);
    let ghost valsv = value_views(params@);
    let ghost total = rpc_bytes(sql@, valsv);
    let m: usize = params.len();
    let mut i: usize = 0;
    proof {
        assert(valsv.skip(0) =~= valsv);
        assert(total =~= out@ + params_bytes(valsv.skip(0)));
    }
    while i < m
        invariant
            i <= m,
            m == params@.len(),
            valsv == value_views(params@),
            params_encodable(valsv),
            total =~= out@ + params_bytes(valsv.skip(i as int)),
        decreases m - i,
    {
        let v = &params[i];
        proof {
            assert(valsv[i as int] == v@);
        }
        let ty = param_type_of(v);
        let tag = type_tag_of(ty);
        out.push(tag);
        encode_cell(&mut out, ty, v);
        proof {
            assert(valsv.skip(i as int)[0] == valsv[i as int]);
            assert(valsv.skip(i as int).skip(1) =~= valsv.skip(i as int + 1));
            assert(params_bytes(valsv.skip(i as int))
                =~= param_bytes(valsv[i as int]) + params_bytes(valsv.skip(i as int + 1)));
        }
        i += 1;
    }
    proof {
        assert(params_bytes(valsv.skip(m as int)) =~= Seq::<u8>::empty());
        assert(out@ =~= total);
    }
    out
}

/// One authenticated session's query interface. Strictly sans-I/O: it
/// produces request payloads and consumes reply payloads, and enforces at
/// most one request in flight.
#[derive(Debug)]
pub struct Client {
    /// Where the session stands between operations.
    pub phase: SessionPhase,
    /// The negotiated wire size of one packet, used to frame requests.
    pub packet_size: usize,
}

impl Client {
    /// Starts configuring a new connection.
    pub fn builder() -> (r: ClientBuilder)
        ensures
            r.config.host@ == default_host(),
            r.config.port == 1433,
            r.config.database@ == default_database(),
            (r.config.instance_name is None),
            r.config.encryption == EncryptionLevel::Off,
            r.config.trust_cert == false,
            r.config.auth == AuthMethod::Integrated,
    {
        ClientBuilder::new()
    }

    /// A client over a session whose negotiation reached `Ready`.
    pub fn open(negotiator: &Negotiator, packet_size: usize) -> (r: Result<Client, TdsError>)
        requires
            HEADER_LEN < packet_size <= 0xFFFF,
        ensures
            match r {
                Ok(c) => {
                    &&& negotiator.state == NegotiationState::Ready
                    &&& c.phase == SessionPhase::Ready
                    &&& c.packet_size == packet_size
                },
                Err(e) => {
                    &&& negotiator.state != NegotiationState::Ready
                    &&& e == TdsError::SessionStateError
                },
            },
    {
        if matches!(negotiator.state, NegotiationState::Ready) {
            Ok(Client { phase: SessionPhase::Ready, packet_size })
        } else {
            Err(TdsError::SessionStateError)
        }
    }

    /// Validates a statement and its positional parameters and produces the
    /// exact request payload to frame and send; the session moves to
    /// `Pending` until the reply is consumed. A placeholder out of range or
    /// an oversized field is a `ParameterBindingError` and nothing is
    /// produced; a session that is not `Ready` fails fast unchanged.
    pub fn request(&mut self, sql: &Vec<u8>, params: &Vec<Value>) -> (r: Result<
        Vec<u8>,
        TdsError,
    >)
        ensures
            final(self).packet_size == old(self).packet_size,
            match r {
                Ok(out) => {
                    &&& old(self).phase == SessionPhase::Ready
                    &&& binding_ok(sql@, value_views(params@))
                    &&& out@ == rpc_bytes(sql@, value_views(params@))
                    &&& final(self).phase == SessionPhase::Pending
                },
                Err(e) => {
                    &&& final(self).phase == old(self).phase
                    &&& (old(self).phase != SessionPhase::Ready
                        ==> e == TdsError::SessionStateError)
                    &&& (old(self).phase == SessionPhase::Ready
                        ==> e == TdsError::ParameterBindingError
                            && !binding_ok(sql@, value_views(params@)))
                },
            },
    {
        if !matches!(self.phase, SessionPhase::Ready) {
            return Err(TdsError::SessionStateError);
        }
        if sql.len() > 0xFFFF || params.len() > 0xFFFF {
            return Err(TdsError::ParameterBindingError);
        }
        if !check_params_encodable(params) {
            return Err(TdsError::ParameterBindingError);
        }
        if !check_placeholders(sql, params.len()) {
            return Err(TdsError::ParameterBindingError);
        }
        let out = encode_request(sql, params);
        self.phase = SessionPhase::Pending;
        Ok(out)
    }

    /// Consumes the reply of an execute: decodes the whole payload, drains
    /// every token, and aggregates the affected-row counts of all counted
    /// completion tokens. A fatal server error surfaces as `ServerError`
    /// with the token's code, severity and message, and — the payload
    /// having been consumed whole — leaves the session `Ready`; a malformed
    /// payload fails the session.
    pub fn execute(&mut self, reply: &Vec<u8>) -> (r: Result<ExecuteResult, TdsError>)
        ensures
            final(self).packet_size == old(self).packet_size,
            match r {
                Ok(res) => {
                    &&& old(self).phase == SessionPhase::Pending
                    &&& final(self).phase == SessionPhase::Ready
                    &&& (spec_decode_tokens(reply@, None) matches Some(ts)
                        && spec_execute_outcome(ts, 0)
                            == ExecOutcome::Count(res.rows_affected))
                },
                Err(e) => {
                    &&& (old(self).phase != SessionPhase::Pending
                        ==> e == TdsError::SessionStateError
                            && final(self).phase == old(self).phase)
                    &&& (old(self).phase == SessionPhase::Pending
                        && (spec_decode_tokens(reply@, None) is None)
                        ==> e == TdsError::ProtocolError
                            && final(self).phase == SessionPhase::Failed)
                    &&& (old(self).phase == SessionPhase::Pending
                        ==> (spec_decode_tokens(reply@, None) matches Some(ts)
                            ==> spec_execute_outcome(ts, 0)
                                matches ExecOutcome::Fatal(c, sv, m)
                                && (e matches TdsError::ServerError {
                                    code: ec,
                                    severity: es,
                                    message: em,
                                } && ec == c && es == sv && em@ == m)
                                && final(self).phase == SessionPhase::Ready))
                },
            },
    {
        if !matches!(self.phase, SessionPhase::Pending) {
            return Err(TdsError::SessionStateError);
        }
        let tokens = match decode_message(reply) {
            Ok(ts) => ts,
            Err(e) => {
                self.phase = SessionPhase::Failed;
                return Err(e);
            }
        };
        let ghost tsv = token_views(tokens@);
        let m: usize = tokens.len();
        let mut acc: u64 = 0;
        let mut i: usize = 0;
        proof {
            assert(tsv.skip(0) =~= tsv);
        }
        while i < m
            invariant
                i <= m,
                m == tokens@.len(),
                tsv == token_views(tokens@),
                self.phase == SessionPhase::Pending,
                self.packet_size == old(self).packet_size,
                old(self).phase == SessionPhase::Pending,
                spec_decode_tokens(reply@, None) == Some(tsv),
                spec_execute_outcome(tsv, 0)
                    == spec_execute_outcome(tsv.skip(i as int), acc),
            decreases m - i,
        {
            proof {
                assert(tsv.skip(i as int)[0] == tsv[i as int]);
                assert(tsv.skip(i as int).skip(1) =~= tsv.skip(i as int + 1));
            }
            match &tokens[i] {
                Token::Done { status, row_count } => {
                    if *status & DONE_COUNT == DONE_COUNT {
                        if *row_count > u64::MAX - acc {
                            acc = u64::MAX;
                        } else {
                            acc = acc + *row_count;
                        }
                    }
                }
                Token::Error { code, severity, message, state: _, source: _ } => {
                    if *severity > FATAL_SEVERITY {
                        let code = *code;
                        let severity = *severity;
                        let mut msg: Vec<u8> = Vec::new();
                        put_bytes(&mut msg, message);
                        proof {
                            assert(msg@ =~= Seq::<u8>::empty() + message@);
                        }
                        self.phase = SessionPhase::Ready;
                        return Err(TdsError::ServerError { code, severity, message: msg });
                    }
                }
                _ => {}
            }
            i += 1;
        }
        proof {
            assert(tsv.skip(m as int).len() == 0);
        }
        self.phase = SessionPhase::Ready;
        Ok(ExecuteResult { rows_affected: acc })
    }

    /// Consumes the reply of a query as a pull-based result stream. The
    /// stream owns exactly the decoded tokens of this reply — never a byte
    /// of an earlier, abandoned one — and the session, its reply consumed
    /// whole, is `Ready` for the next request no matter what the caller
    /// does with the stream.
    pub fn query_stream(&mut self, reply: &Vec<u8>) -> (r: Result<ResultStream, TdsError>)
        ensures
            final(self).packet_size == old(self).packet_size,
            match r {
                Ok(stream) => {
                    &&& old(self).phase == SessionPhase::Pending
                    &&& final(self).phase == SessionPhase::Ready
                    &&& spec_decode_tokens(reply@, None) == Some(token_views(stream.tokens@))
                },
                Err(e) => {
                    &&& (old(self).phase != SessionPhase::Pending
                        ==> e == TdsError::SessionStateError
                            && final(self).phase == old(self).phase)
                    &&& (old(self).phase == SessionPhase::Pending
                        ==> e == TdsError::ProtocolError
                            && (spec_decode_tokens(reply@, None) is None)
                            && final(self).phase == SessionPhase::Failed)
                },
            },
    {
        if !matches!(self.phase, SessionPhase::Pending) {
            return Err(TdsError::SessionStateError);
        }
        match decode_message(reply) {
            Ok(tokens) => {
                self.phase = SessionPhase::Ready;
                Ok(ResultStream { tokens })
            }
            Err(e) => {
                self.phase = SessionPhase::Failed;
                Err(e)
            }
        }
    }

    /// Consumes the reply of a query, collecting its result sets: column
    /// metadata opens a set, each row joins the latest set, and a fatal
    /// server error surfaces as `ServerError` with the session left
    /// `Ready`, the payload having been consumed whole.
    pub fn query(&mut self, reply: &Vec<u8>) -> (r: Result<QueryResult, TdsError>)
        ensures
            final(self).packet_size == old(self).packet_size,
            match r {
                Ok(qr) => {
                    &&& old(self).phase == SessionPhase::Pending
                    &&& final(self).phase == SessionPhase::Ready
                    &&& (spec_decode_tokens(reply@, None) matches Some(ts)
                        && spec_collect(ts, Seq::empty())
                            == CollectOutcome::Sets(set_views(qr.sets@)))
                },
                Err(e) => {
                    &&& (old(self).phase != SessionPhase::Pending
                        ==> e == TdsError::SessionStateError
                            && final(self).phase == old(self).phase)
                    &&& (old(self).phase == SessionPhase::Pending
                        && (spec_decode_tokens(reply@, None) is None)
                        ==> e == TdsError::ProtocolError
                            && final(self).phase == SessionPhase::Failed)
                    &&& (old(self).phase == SessionPhase::Pending
                        ==> (spec_decode_tokens(reply@, None) matches Some(ts)
                            ==> (spec_collect(ts, Seq::empty())
                                    matches CollectOutcome::Fatal(c, sv, m)
                                && (e matches TdsError::ServerError {
                                    code: ec,
                                    severity: es,
                                    message: em,
                                } && ec == c && es == sv && em@ == m)
                                && final(self).phase == SessionPhase::Ready)
                                || (spec_collect(ts, Seq::empty())
                                    == CollectOutcome::Malformed
                                    && e == TdsError::ProtocolError
                                    && final(self).phase == SessionPhase::Failed)))
                },
            },
    {
        if !matches!(self.phase, SessionPhase::Pending) {
            return Err(TdsError::SessionStateError);
        }
        let mut tokens = match decode_message(reply) {
            Ok(ts) => ts,
            Err(e) => {
                self.phase = SessionPhase::Failed;
                return Err(e);
            }
        };
        let ghost tsv = token_views(tokens@);
        let mut sets: Vec<ResultSet> = Vec::new();
        proof {
            assert(set_views(sets@) =~= Seq::<SetModel>::empty());
        }
        while tokens.len() > 0
            invariant
                self.phase == SessionPhase::Pending,
                self.packet_size == old(self).packet_size,
                old(self).phase == SessionPhase::Pending,
                spec_decode_tokens(reply@, None) == Some(tsv),
                spec_collect(tsv, Seq::empty())
                    == spec_collect(token_views(tokens@), set_views(sets@)),
            decreases tokens@.len(),
        {
            let ghost cur = token_views(tokens@);
            let ghost acc0 = set_views(sets@);
            let t = tokens.remove(0);
            proof {
                assert(cur[0] == t@);
                assert(token_views(tokens@) =~= cur.skip(1));
            }
            match t {
                Token::ColumnMetadata(cols) => {
                    sets.push(ResultSet { columns: cols, rows: Vec::new() });
                    proof {
                        assert(sets@.last()@.rows =~= Seq::<Seq<ValueModel>>::empty());
                        assert(sets@.last()@ == (SetModel {
                            columns: sets@.last()@.columns,
                            rows: Seq::empty(),
                        }));
                        assert(set_views(sets@) =~= acc0 + seq![sets@.last()@]);
                    }
                }
                Token::Row(vals) => {
                    if sets.len() == 0 {
                        self.phase = SessionPhase::Failed;
                        return Err(TdsError::ProtocolError);
                    }
                    let mut last = match sets.pop() {
                        Some(s) => s,
                        None => {
                            return Err(TdsError::ProtocolError);
                        }
                    };
                    let ghost prev = last@;
                    proof {
                        assert(acc0 =~= set_views(sets@) + seq![prev]);
                        assert(prev == acc0[acc0.len() - 1]);
                    }
                    last.rows.push(vals);
                    proof {
                        assert(rows_views(last.rows@)
                            =~= prev.rows + seq![value_views(last.rows@.last()@)]);
                        assert(last@ == (SetModel {
                            columns: prev.columns,
                            rows: prev.rows + seq![value_views(last.rows@.last()@)],
                        }));
                    }
                    sets.push(last);
                    proof {
                        assert(set_views(sets@)
                            =~= acc0.update(acc0.len() - 1, sets@.last()@));
                    }
                }
                Token::Error { code, severity, message, state: _, source: _ } => {
                    if severity > FATAL_SEVERITY {
                        self.phase = SessionPhase::Ready;
                        return Err(TdsError::ServerError { code, severity, message });
                    }
                }
                _ => {}
            }
        }
        self.phase = SessionPhase::Ready;
        Ok(QueryResult { sets })
    }
}

/// The default host name, `localhost`.
pub open spec fn default_host() -> Seq<u8> {
    seq![0x6cu8, 0x6f, 0x63, 0x61, 0x6c, 0x68, 0x6f, 0x73, 0x74]
}

/// The default database name, `master`.
pub open spec fn default_database() -> Seq<u8> {
    seq![0x6du8, 0x61, 0x73, 0x74, 0x65, 0x72]
}

/// Configures a connection before negotiation: each knob overwrites one
/// field and leaves the rest alone, and `build` hands the finished
/// configuration to a fresh negotiator.
#[derive(Debug)]
pub struct ClientBuilder {
    /// The configuration under construction.
    pub config: Config,
}

impl ClientBuilder {
    /// A builder with the default configuration: `localhost:1433`, database
    /// `master`, no named instance, encryption off, certificates validated,
    /// integrated authentication.
    pub fn new() -> (r: ClientBuilder)
        ensures
            r.config.host@ == default_host(),
            r.config.port == 1433,
            r.config.database@ == default_database(),
            (r.config.instance_name is None),
            r.config.encryption == EncryptionLevel::Off,
            r.config.trust_cert == false,
            r.config.auth == AuthMethod::Integrated,
    {
        let mut host: Vec<u8> = Vec::new();
        host.push(0x6c);
        host.push(0x6f);
        host.push(0x63);
        host.push(0x61);
        host.push(0x6c);
        host.push(0x68);
        host.push(0x6f);
        host.push(0x73);
        host.push(0x74);
        assert(host@ =~= default_host());
        let mut database: Vec<u8> = Vec::new();
        database.push(0x6d);
        database.push(0x61);
        database.push(0x73);
        database.push(0x74);
        database.push(0x65);
        database.push(0x72);
        assert(database@ =~= default_database());
        ClientBuilder {
            config: Config {
                host,
                port: 1433,
                database,
                instance_name: None,
                encryption: EncryptionLevel::Off,
                trust_cert: false,
                auth: AuthMethod::Integrated,
            },
        }
    }

    /// Sets the host to connect to.
    pub fn host(&mut self, host: Vec<u8>)
        ensures
            final(self).config.host == host,
            final(self).config.port == old(self).config.port,
            final(self).config.database == old(self).config.database,
            final(self).config.instance_name == old(self).config.instance_name,
            final(self).config.encryption == old(self).config.encryption,
            final(self).config.trust_cert == old(self).config.trust_cert,
            final(self).config.auth == old(self).config.auth,
    {
        self.config.host = host;
    }

    /// Sets the server port.
    pub fn port(&mut self, port: u16)
        ensures
            final(self).config.port == port,
            final(self).config.host == old(self).config.host,
            final(self).config.database == old(self).config.database,
            final(self).config.instance_name == old(self).config.instance_name,
            final(self).config.encryption == old(self).config.encryption,
            final(self).config.trust_cert == old(self).config.trust_cert,
            final(self).config.auth == old(self).config.auth,
    {
        self.config.port = port;
    }

    /// Sets the database to open.
    pub fn database(&mut self, database: Vec<u8>)
        ensures
            final(self).config.database == database,
            final(self).config.host == old(self).config.host,
            final(self).config.port == old(self).config.port,
            final(self).config.instance_name == old(self).config.instance_name,
            final(self).config.encryption == old(self).config.encryption,
            final(self).config.trust_cert == old(self).config.trust_cert,
            final(self).config.auth == old(self).config.auth,
    {
        self.config.database = database;
    }

    /// Names the instance whose port the discovery service resolves; the
    /// resolved port then replaces the configured one.
    pub fn instance_name(&mut self, name: Vec<u8>)
        ensures
            final(self).config.instance_name == Some(name),
            final(self).config.host == old(self).config.host,
            final(self).config.port == old(self).config.port,
            final(self).config.database == old(self).config.database,
            final(self).config.encryption == old(self).config.encryption,
            final(self).config.trust_cert == old(self).config.trust_cert,
            final(self).config.auth == old(self).config.auth,
    {
        self.config.instance_name = Some(name);
    }

    /// Sets the preferred encryption level.
    pub fn encryption(&mut self, encryption: EncryptionLevel)
        ensures
            final(self).config.encryption == encryption,
            final(self).config.host == old(self).config.host,
            final(self).config.port == old(self).config.port,
            final(self).config.database == old(self).config.database,
            final(self).config.instance_name == old(self).config.instance_name,
            final(self).config.trust_cert == old(self).config.trust_cert,
            final(self).config.auth == old(self).config.auth,
    {
        self.config.encryption = encryption;
    }

    /// Accepts the server certificate without validation.
    pub fn trust_cert(&mut self)
        ensures
            final(self).config.trust_cert == true,
            final(self).config.host == old(self).config.host,
            final(self).config.port == old(self).config.port,
            final(self).config.database == old(self).config.database,
            final(self).config.instance_name == old(self).config.instance_name,
            final(self).config.encryption == old(self).config.encryption,
            final(self).config.auth == old(self).config.auth,
    {
        self.config.trust_cert = true;
    }

    /// Sets the authentication method.
    pub fn authentication(&mut self, auth: AuthMethod)
        ensures
            final(self).config.auth == auth,
            final(self).config.host == old(self).config.host,
            final(self).config.port == old(self).config.port,
            final(self).config.database == old(self).config.database,
            final(self).config.instance_name == old(self).config.instance_name,
            final(self).config.encryption == old(self).config.encryption,
            final(self).config.trust_cert == old(self).config.trust_cert,
    {
        self.config.auth = auth;
    }

    /// Finishes configuration: a negotiator ready to drive the handshake
    /// over whatever transport the host connects.
    pub fn build(self) -> (r: Negotiator)
        ensures
            r.config == self.config,
            r.state == NegotiationState::Disconnected,
            r.tls_active == false,
    {
        Negotiator::new(self.config)
    }
}

} // verus!
