//! The token-stream codec.
//!
//! A logical TDS response payload is a sequence of self-identifying tokens:
//! column metadata, rows, completion markers, server errors and diagnostics.
//! Row cells are not self-describing — their layout is driven by the most
//! recently decoded column metadata — so decoding is stateful in exactly one
//! way: the current column set. Every encoder's output and every decoder's
//! result is pinned to spec-level byte functions, and the row round trip is
//! proved: encoding conforming values under a column set and decoding them
//! back yields the same values.

use vstd::prelude::*;
use crate::wire::{
    u16_le, u16_of_le, u32_le, u32_of_le, u64_le, u64_of_le,
    put_u16_le, put_u32_le, put_u64_le, get_u16_le, get_u32_le, get_u64_le,
    lemma_u16_le_round_trip, lemma_u32_le_round_trip, lemma_u64_le_round_trip,
};
use crate::TdsError;

verus! {

/// SQL type tag of a column, as carried in column metadata.
#[derive(Clone, Copy, PartialEq, Eq, Structural, Debug)]
pub enum SqlType {
    /// Single-bit boolean.
    Bit,
    /// 32-bit integer; cells carry its raw bit pattern.
    Int4,
    /// 64-bit integer; cells carry its raw bit pattern.
    Int8,
    /// Variable-length byte string with an explicit length prefix.
    VarChar,
}

/// One decoded cell value.
#[derive(Clone, PartialEq, Eq, Debug)]
pub enum Value {
    /// The column's null sentinel.
    Null,
    /// A boolean cell.
    Bit(bool),
    /// A 32-bit integer cell, as its raw bit pattern.
    Int4(u32),
    /// A 64-bit integer cell, as its raw bit pattern.
    Int8(u64),
    /// A variable-length byte-string cell.
    VarChar(Vec<u8>),
}

/// Mathematical model of a cell value.
pub ghost enum ValueModel {
    Null,
    Bit(bool),
    Int4(u32),
    Int8(u64),
    VarChar(Seq<u8>),
}

impl View for Value {
    type V = ValueModel;

    open spec fn view(&self) -> ValueModel {
        match self {
            Value::Null => ValueModel::Null,
            Value::Bit(b) => ValueModel::Bit(*b),
            Value::Int4(x) => ValueModel::Int4(*x),
            Value::Int8(x) => ValueModel::Int8(*x),
            Value::VarChar(s) => ValueModel::VarChar(s@),
        }
    }
}

/// One column descriptor from a column-metadata token.
#[derive(Clone, PartialEq, Eq, Debug)]
pub struct Column {
    /// Column name, at most 255 bytes.
    pub name: Vec<u8>,
    /// The cell type of this column.
    pub ty: SqlType,
    /// Whether cells of this column may be null.
    pub nullable: bool,
}

/// Mathematical model of a column descriptor.
pub ghost struct ColumnModel {
    pub name: Seq<u8>,
    pub ty: SqlType,
    pub nullable: bool,
}

impl View for Column {
    type V = ColumnModel;

    open spec fn view(&self) -> ColumnModel {
        ColumnModel { name: self.name@, ty: self.ty, nullable: self.nullable }
    }
}

/// The models of a sequence of columns.
pub open spec fn column_views(s: Seq<Column>) -> Seq<ColumnModel> {
    s.map_values(|c: Column| c@)
}

/// The models of a sequence of values.
pub open spec fn value_views(s: Seq<Value>) -> Seq<ValueModel> {
    s.map_values(|v: Value| v@)
}

/// Null sentinel in the length prefix of a variable-length cell.
pub const VARCHAR_NULL_LEN: u16 = 0xFFFF;

/// A value that may legally appear in a cell of column `c`: the variant
/// matches the column type, null appears only in nullable columns, and a
/// byte string leaves room for its length prefix below the null sentinel.
pub open spec fn cell_conforms(c: ColumnModel, v: ValueModel) -> bool {
    match v {
        ValueModel::Null => c.nullable,
        ValueModel::Bit(_) => c.ty == SqlType::Bit,
        ValueModel::Int4(_) => c.ty == SqlType::Int4,
        ValueModel::Int8(_) => c.ty == SqlType::Int8,
        ValueModel::VarChar(s) => c.ty == SqlType::VarChar && s.len() < VARCHAR_NULL_LEN,
    }
}

/// A row that conforms to a column set: one value per column, each legal in
/// its column.
pub open spec fn row_conforms(cols: Seq<ColumnModel>, vals: Seq<ValueModel>) -> bool {
    &&& vals.len() == cols.len()
    &&& forall|i: int| 0 <= i < vals.len() ==> cell_conforms(cols[i], #[trigger] vals[i])
}

/// The wire bytes of one cell of type `ty` holding `v`: fixed-width cells
/// carry a one-byte length (zero for null) and then the value; byte-string
/// cells carry a two-byte length (the null sentinel for null) and then the
/// bytes.
pub open spec fn cell_bytes(ty: SqlType, v: ValueModel) -> Seq<u8> {
    match v {
        ValueModel::Null =>
            if ty == SqlType::VarChar { u16_le(VARCHAR_NULL_LEN) } else { seq![0u8] },
        ValueModel::Bit(b) => seq![1u8, if b { 1u8 } else { 0u8 }],
        ValueModel::Int4(x) => seq![4u8] + u32_le(x),
        ValueModel::Int8(x) => seq![8u8] + u64_le(x),
        ValueModel::VarChar(s) => u16_le(s.len() as u16) + s,
    }
}

/// The concatenated cell bytes of a whole row, column by column.
pub open spec fn row_cells_bytes(cols: Seq<ColumnModel>, vals: Seq<ValueModel>) -> Seq<u8>
    decreases vals.len(),
{
    if vals.len() == 0 || cols.len() == 0 {
        Seq::empty()
    } else {
        cell_bytes(cols[0].ty, vals[0]) + row_cells_bytes(cols.skip(1), vals.skip(1))
    }
}

/// Decodes one cell of type `ty` from the front of `b`: the value and the
/// number of bytes consumed, or `None` when the bytes are malformed or
/// truncated.
pub open spec fn spec_decode_cell(ty: SqlType, b: Seq<u8>) -> Option<(ValueModel, int)> {
    match ty {
        SqlType::Bit => {
            if b.len() < 1 {
                None
            } else if b[0] == 0 {
                Some((ValueModel::Null, 1))
            } else if b[0] == 1 && b.len() >= 2 && b[1] == 0 {
                Some((ValueModel::Bit(false), 2))
            } else if b[0] == 1 && b.len() >= 2 && b[1] == 1 {
                Some((ValueModel::Bit(true), 2))
            } else {
                None
            }
        }
        SqlType::Int4 => {
            if b.len() < 1 {
                None
            } else if b[0] == 0 {
                Some((ValueModel::Null, 1))
            } else if b[0] == 4 && b.len() >= 5 {
                Some((ValueModel::Int4(u32_of_le(b[1], b[2], b[3], b[4])), 5))
            } else {
                None
            }
        }
        SqlType::Int8 => {
            if b.len() < 1 {
                None
            } else if b[0] == 0 {
                Some((ValueModel::Null, 1))
            } else if b[0] == 8 && b.len() >= 9 {
                Some((
                    ValueModel::Int8(
                        u64_of_le(b[1], b[2], b[3], b[4], b[5], b[6], b[7], b[8]),
                    ),
                    9,
                ))
            } else {
                None
            }
        }
        SqlType::VarChar => {
            if b.len() < 2 {
                None
            } else {
                let len = u16_of_le(b[0], b[1]) as int;
                if len == VARCHAR_NULL_LEN {
                    Some((ValueModel::Null, 2))
                } else if b.len() >= 2 + len {
                    Some((ValueModel::VarChar(b.subrange(2, 2 + len)), 2 + len))
                } else {
                    None
                }
            }
        }
    }
}

/// Decodes one cell per column from the front of `b`: the row's values and
/// the bytes consumed.
pub open spec fn spec_decode_cells(cols: Seq<ColumnModel>, b: Seq<u8>) -> Option<
    (Seq<ValueModel>, int),
>
    decreases cols.len(),
{
    if cols.len() == 0 {
        Some((Seq::empty(), 0))
    } else {
        match spec_decode_cell(cols[0].ty, b) {
            None => None,
            Some((v, n)) => match spec_decode_cells(cols.skip(1), b.skip(n)) {
                None => None,
                Some((vs, m)) => Some((seq![v] + vs, n + m)),
            },
        }
    }
}

/// Decoding the encoding of one conforming cell, with anything at all
/// following it, yields the cell back and consumes exactly its bytes.
pub proof fn lemma_cell_round_trip(c: ColumnModel, v: ValueModel, rest: Seq<u8>)
    requires
        cell_conforms(c, v),
    ensures
        spec_decode_cell(c.ty, cell_bytes(c.ty, v) + rest)
            == Some((v, cell_bytes(c.ty, v).len() as int)),
{
    let enc = cell_bytes(c.ty, v);
    let b = enc + rest;
    match v {
        ValueModel::Null => {
            if c.ty == SqlType::VarChar {
                lemma_u16_le_round_trip(VARCHAR_NULL_LEN);
                assert(b[0] == u16_le(VARCHAR_NULL_LEN)[0]);
                assert(b[1] == u16_le(VARCHAR_NULL_LEN)[1]);
            } else {
                assert(b[0] == 0);
            }
        }
        ValueModel::Bit(x) => {
            assert(b[0] == 1);
            assert(b[1] == (if x { 1u8 } else { 0u8 }));
        }
        ValueModel::Int4(x) => {
            lemma_u32_le_round_trip(x);
            assert(b[0] == 4);
            assert(b[1] == u32_le(x)[0]);
            assert(b[2] == u32_le(x)[1]);
            assert(b[3] == u32_le(x)[2]);
            assert(b[4] == u32_le(x)[3]);
        }
        ValueModel::Int8(x) => {
            lemma_u64_le_round_trip(x);
            assert(b[0] == 8);
            assert(b[1] == u64_le(x)[0]);
            assert(b[2] == u64_le(x)[1]);
            assert(b[3] == u64_le(x)[2]);
            assert(b[4] == u64_le(x)[3]);
            assert(b[5] == u64_le(x)[4]);
            assert(b[6] == u64_le(x)[5]);
            assert(b[7] == u64_le(x)[6]);
            assert(b[8] == u64_le(x)[7]);
        }
        ValueModel::VarChar(s) => {
            let len = s.len() as u16;
            lemma_u16_le_round_trip(len);
            assert(b[0] == u16_le(len)[0]);
            assert(b[1] == u16_le(len)[1]);
            assert(u16_of_le(b[0], b[1]) == len);
            assert(len != VARCHAR_NULL_LEN);
            assert(b.subrange(2, 2 + s.len() as int) =~= s);
        }
    }
}

/// Row round trip: decoding the encoding of a conforming row, with anything
/// at all following it, yields exactly the original values and consumes
/// exactly the row's bytes. This is the per-row heart of the codec's
/// round-trip guarantee, covering fixed-width, variable-length and null
/// representations alike.
pub proof fn lemma_row_round_trip(cols: Seq<ColumnModel>, vals: Seq<ValueModel>, rest: Seq<u8>)
    requires
        row_conforms(cols, vals),
    ensures
        spec_decode_cells(cols, row_cells_bytes(cols, vals) + rest)
            == Some((vals, row_cells_bytes(cols, vals).len() as int)),
    decreases cols.len(),
{
    let enc = row_cells_bytes(cols, vals);
    let b = enc + rest;
    if cols.len() == 0 {
        assert(vals =~= Seq::<ValueModel>::empty());
        assert(enc =~= Seq::<u8>::empty());
    } else {
        let c0 = cols[0];
        let v0 = vals[0];
        let enc0 = cell_bytes(c0.ty, v0);
        let tail_enc = row_cells_bytes(cols.skip(1), vals.skip(1));
        assert(cell_conforms(c0, v0));
        assert(enc == enc0 + tail_enc);
        assert(b =~= enc0 + (tail_enc + rest));
        lemma_cell_round_trip(c0, v0, tail_enc + rest);
        assert(spec_decode_cell(c0.ty, b) == Some((v0, enc0.len() as int)));
        assert(forall|i: int| 0 <= i < vals.skip(1).len()
            ==> cell_conforms(cols.skip(1)[i], #[trigger] vals.skip(1)[i]));
        lemma_row_round_trip(cols.skip(1), vals.skip(1), rest);
        assert(b.skip(enc0.len() as int) =~= tail_enc + rest);
        assert(seq![v0] + vals.skip(1) =~= vals);
    }
}

/// Encodes one cell of column type `ty` to its exact wire bytes, appending
/// to `out`.
pub fn encode_cell(out: &mut Vec<u8>, ty: SqlType, v: &Value)
    requires
        (match v@ {
            ValueModel::VarChar(s) => s.len() < VARCHAR_NULL_LEN,
            _ => true,
        }),
    ensures
        final(out)@ == old(out)@ + cell_bytes(ty, v@),
{
    match v {
        Value::Null => {
            if let SqlType::VarChar = ty {
                put_u16_le(out, VARCHAR_NULL_LEN);
            } else {
                out.push(0u8);
                assert(out@ =~= old(out)@ + cell_bytes(ty, v@));
            }
        }
        Value::Bit(x) => {
            out.push(1u8);
            out.push(if *x { 1u8 } else { 0u8 });
            assert(out@ =~= old(out)@ + cell_bytes(ty, v@));
        }
        Value::Int4(x) => {
            out.push(4u8);
            put_u32_le(out, *x);
            assert(out@ =~= old(out)@ + cell_bytes(ty, v@));
        }
        Value::Int8(x) => {
            out.push(8u8);
            put_u64_le(out, *x);
            assert(out@ =~= old(out)@ + cell_bytes(ty, v@));
        }
        Value::VarChar(s) => {
            let len: u16 = s.len() as u16;
            put_u16_le(out, len);
            let ghost mid = out@;
            let mut j: usize = 0;
            let m: usize = s.len();
            while j < m
                invariant
                    j <= m,
                    m == s@.len(),
                    out@ =~= mid + s@.subrange(0, j as int),
                decreases m - j,
            {
                let bb = s[j];
                out.push(bb);
                j += 1;
            }
            assert(s@.subrange(0, m as int) =~= s@);
            assert(out@ =~= old(out)@ + cell_bytes(ty, v@));
        }
    }
}

/// Decodes one cell of column type `ty` at position `pos` of `buf`, exactly
/// as `spec_decode_cell` describes on the remaining bytes; a malformed or
/// truncated cell is a `ProtocolError`.
pub fn decode_cell(ty: SqlType, buf: &Vec<u8>, pos: usize) -> (r: Result<
    (Value, usize),
    TdsError,
>)
    requires
        pos <= buf@.len(),
    ensures
        match r {
            Ok((v, n)) => {
                &&& spec_decode_cell(ty, buf@.skip(pos as int)) == Some((v@, n as int))
                &&& 1 <= n
                &&& pos + n <= buf@.len()
            },
            Err(e) => {
                &&& spec_decode_cell(ty, buf@.skip(pos as int)) is None
                &&& e == TdsError::ProtocolError
            },
        },
{
    let n: usize = buf.len();
    let ghost b = buf@.skip(pos as int);
    proof {
        assert(b.len() == n - pos);
        assert(forall|k: int| 0 <= k < b.len() ==> b[k] == buf@[pos + k]);
    }
    match ty {
        SqlType::Bit => {
            if pos >= n {
                return Err(TdsError::ProtocolError);
            }
            let tag = buf[pos];
            if tag == 0 {
                Ok((Value::Null, 1))
            } else if tag == 1 && n - pos >= 2 {
                let x = buf[pos + 1];
                if x == 0 {
                    Ok((Value::Bit(false), 2))
                } else if x == 1 {
                    Ok((Value::Bit(true), 2))
                } else {
                    Err(TdsError::ProtocolError)
                }
            } else {
                Err(TdsError::ProtocolError)
            }
        }
        SqlType::Int4 => {
            if pos >= n {
                return Err(TdsError::ProtocolError);
            }
            let tag = buf[pos];
            if tag == 0 {
                Ok((Value::Null, 1))
            } else if tag == 4 && n - pos >= 5 {
                let x = get_u32_le(buf, pos + 1);
                Ok((Value::Int4(x), 5))
            } else {
                Err(TdsError::ProtocolError)
            }
        }
        SqlType::Int8 => {
            if pos >= n {
                return Err(TdsError::ProtocolError);
            }
            let tag = buf[pos];
            if tag == 0 {
                Ok((Value::Null, 1))
            } else if tag == 8 && n - pos >= 9 {
                let x = get_u64_le(buf, pos + 1);
                Ok((Value::Int8(x), 9))
            } else {
                Err(TdsError::ProtocolError)
            }
        }
        SqlType::VarChar => {
            if n - pos < 2 || pos >= n {
                return Err(TdsError::ProtocolError);
            }
            let len = get_u16_le(buf, pos);
            if len == VARCHAR_NULL_LEN {
                Ok((Value::Null, 2))
            } else if n - pos - 2 >= len as usize {
                let mut s: Vec<u8> = Vec::new();
                let mut j: usize = 0;
                while j < len as usize
                    invariant
                        j <= len as usize,
                        n == buf@.len(),
                        pos + 2 + len as usize <= n,
                        s@ =~= buf@.subrange(pos + 2, pos + 2 + j as int),
                    decreases len as usize - j,
                {
                    let bb = buf[pos + 2 + j];
                    s.push(bb);
                    j += 1;
                }
                proof {
                    assert(s@ =~= b.subrange(2, 2 + len as int));
                }
                Ok((Value::VarChar(s), 2 + len as usize))
            } else {
                Err(TdsError::ProtocolError)
            }
        }
    }
}


/// Token tag byte: column metadata.
pub const TOKEN_COLMETADATA: u8 = 0x81;

/// Token tag byte: one row of cells.
pub const TOKEN_ROW: u8 = 0xD1;

/// Token tag byte: completion of a batch or result set.
pub const TOKEN_DONE: u8 = 0xFD;

/// Token tag byte: server-sent error.
pub const TOKEN_ERROR: u8 = 0xAA;

/// Token tag byte: server-sent informational message.
pub const TOKEN_INFO: u8 = 0xAB;

/// Token tag byte: return status of a remote procedure call.
pub const TOKEN_RETURN_STATUS: u8 = 0x79;

/// Token tag byte: login acknowledgement.
pub const TOKEN_LOGIN_ACK: u8 = 0xAD;

/// Done-token status bit: another result set follows.
pub const DONE_MORE: u16 = 0x1;

/// Done-token status bit: the row count field is valid.
pub const DONE_COUNT: u16 = 0x10;

/// One decoded unit of a response payload.
#[derive(Clone, PartialEq, Eq, Debug)]
pub enum Token {
    /// Column descriptors governing the rows that follow.
    ColumnMetadata(Vec<Column>),
    /// One row of cells, aligned to the last column metadata.
    Row(Vec<Value>),
    /// Completion marker with status bits and a row count.
    Done { status: u16, row_count: u64 },
    /// Server-sent error with diagnostic code, severity, message and source.
    Error { code: u32, state: u8, severity: u8, message: Vec<u8>, source: Vec<u8> },
    /// Non-fatal server diagnostic with the same shape as an error.
    Info { code: u32, state: u8, severity: u8, message: Vec<u8>, source: Vec<u8> },
    /// Integer return status of a remote procedure call.
    ReturnStatus(u32),
    /// Login acknowledgement carrying protocol version and server name.
    LoginAck { version: u32, server: Vec<u8> },
}

/// Mathematical model of a token.
pub ghost enum TokenModel {
    ColumnMetadata(Seq<ColumnModel>),
    Row(Seq<ValueModel>),
    Done { status: u16, row_count: u64 },
    Error { code: u32, state: u8, severity: u8, message: Seq<u8>, source: Seq<u8> },
    Info { code: u32, state: u8, severity: u8, message: Seq<u8>, source: Seq<u8> },
    ReturnStatus(u32),
    LoginAck { version: u32, server: Seq<u8> },
}

impl View for Token {
    type V = TokenModel;

    open spec fn view(&self) -> TokenModel {
        match self {
            Token::ColumnMetadata(cols) => TokenModel::ColumnMetadata(column_views(cols@)),
            Token::Row(vals) => TokenModel::Row(value_views(vals@)),
            Token::Done { status, row_count } =>
                TokenModel::Done { status: *status, row_count: *row_count },
            Token::Error { code, state, severity, message, source } => TokenModel::Error {
                code: *code,
                state: *state,
                severity: *severity,
                message: message@,
                source: source@,
            },
            Token::Info { code, state, severity, message, source } => TokenModel::Info {
                code: *code,
                state: *state,
                severity: *severity,
                message: message@,
                source: source@,
            },
            Token::ReturnStatus(x) => TokenModel::ReturnStatus(*x),
            Token::LoginAck { version, server } =>
                TokenModel::LoginAck { version: *version, server: server@ },
        }
    }
}

/// The models of a sequence of tokens.
pub open spec fn token_views(s: Seq<Token>) -> Seq<TokenModel> {
    s.map_values(|t: Token| t@)
}

/// The wire type tag of a column type.
pub open spec fn type_tag(ty: SqlType) -> u8 {
    match ty {
        SqlType::Bit => 0x32,
        SqlType::Int4 => 0x38,
        SqlType::Int8 => 0x7F,
        SqlType::VarChar => 0xA7,
    }
}

/// A column descriptor whose name fits its one-byte length prefix.
pub open spec fn column_wf(c: ColumnModel) -> bool {
    c.name.len() <= 255
}

/// The wire bytes of one column descriptor: type tag, nullability flag,
/// name length and name.
pub open spec fn column_bytes(c: ColumnModel) -> Seq<u8> {
    seq![type_tag(c.ty), if c.nullable { 1u8 } else { 0u8 }, c.name.len() as u8] + c.name
}

/// The concatenated wire bytes of a column list.
pub open spec fn columns_bytes(cols: Seq<ColumnModel>) -> Seq<u8>
    decreases cols.len(),
{
    if cols.len() == 0 {
        Seq::empty()
    } else {
        column_bytes(cols[0]) + columns_bytes(cols.skip(1))
    }
}

/// A token that can be encoded: lengths fit their prefixes, and a row
/// conforms to the column context `ctx` it will be encoded under.
pub open spec fn token_wf(t: TokenModel, ctx: Seq<ColumnModel>) -> bool {
    match t {
        TokenModel::ColumnMetadata(cols) => {
            &&& cols.len() <= 0xFFFF
            &&& forall|i: int| 0 <= i < cols.len() ==> column_wf(#[trigger] cols[i])
        }
        TokenModel::Row(vals) => row_conforms(ctx, vals),
        TokenModel::Done { .. } => true,
        TokenModel::Error { message, source, .. } =>
            message.len() <= 0xFFFF && source.len() <= 255,
        TokenModel::Info { message, source, .. } =>
            message.len() <= 0xFFFF && source.len() <= 255,
        TokenModel::ReturnStatus(_) => true,
        TokenModel::LoginAck { server, .. } => server.len() <= 255,
    }
}

/// The exact wire bytes of a token, a row being encoded under the column
/// context `ctx`.
pub open spec fn token_bytes(t: TokenModel, ctx: Seq<ColumnModel>) -> Seq<u8> {
    match t {
        TokenModel::ColumnMetadata(cols) =>
            seq![TOKEN_COLMETADATA] + u16_le(cols.len() as u16) + columns_bytes(cols),
        TokenModel::Row(vals) => seq![TOKEN_ROW] + row_cells_bytes(ctx, vals),
        TokenModel::Done { status, row_count } =>
            seq![TOKEN_DONE] + u16_le(status) + u64_le(row_count),
        TokenModel::Error { code, state, severity, message, source } =>
            seq![TOKEN_ERROR] + u32_le(code) + seq![state, severity]
                + u16_le(message.len() as u16) + message
                + seq![source.len() as u8] + source,
        TokenModel::Info { code, state, severity, message, source } =>
            seq![TOKEN_INFO] + u32_le(code) + seq![state, severity]
                + u16_le(message.len() as u16) + message
                + seq![source.len() as u8] + source,
        TokenModel::ReturnStatus(x) => seq![TOKEN_RETURN_STATUS] + u32_le(x),
        TokenModel::LoginAck { version, server } =>
            seq![TOKEN_LOGIN_ACK] + u32_le(version) + seq![server.len() as u8] + server,
    }
}

/// Decodes `k` column descriptors from the front of `b`.
pub open spec fn spec_decode_columns(k: int, b: Seq<u8>) -> Option<(Seq<ColumnModel>, int)>
    decreases k,
{
    if k <= 0 {
        Some((Seq::empty(), 0))
    } else if b.len() < 3 {
        None
    } else {
        let tag = b[0];
        let nul = b[1];
        let nl = b[2] as int;
        let ty = if tag == 0x32 { Some(SqlType::Bit) }
            else if tag == 0x38 { Some(SqlType::Int4) }
            else if tag == 0x7F { Some(SqlType::Int8) }
            else if tag == 0xA7 { Some(SqlType::VarChar) }
            else { None };
        if ty is None || nul > 1 || b.len() < 3 + nl {
            None
        } else {
            let c = ColumnModel {
                name: b.subrange(3, 3 + nl),
                ty: ty->0,
                nullable: nul == 1,
            };
            match spec_decode_columns(k - 1, b.skip(3 + nl)) {
                None => None,
                Some((cs, m)) => Some((seq![c] + cs, 3 + nl + m)),
            }
        }
    }
}

/// Decodes one token from the front of `b` under the column context `ctx`:
/// the token and the bytes consumed. A row tag with no preceding column
/// metadata in the same stream decodes to `None` — never to silently
/// defaulted types.
pub open spec fn spec_decode_token(b: Seq<u8>, ctx: Option<Seq<ColumnModel>>) -> Option<
    (TokenModel, int),
> {
    if b.len() < 1 {
        None
    } else if b[0] == TOKEN_COLMETADATA {
        if b.len() < 3 {
            None
        } else {
            let count = u16_of_le(b[1], b[2]) as int;
            match spec_decode_columns(count, b.skip(3)) {
                None => None,
                Some((cols, n)) => Some((TokenModel::ColumnMetadata(cols), 3 + n)),
            }
        }
    } else if b[0] == TOKEN_ROW {
        match ctx {
            None => None,
            Some(cols) => match spec_decode_cells(cols, b.skip(1)) {
                None => None,
                Some((vals, n)) => Some((TokenModel::Row(vals), 1 + n)),
            },
        }
    } else if b[0] == TOKEN_DONE {
        if b.len() < 11 {
            None
        } else {
            Some((
                TokenModel::Done {
                    status: u16_of_le(b[1], b[2]),
                    row_count: u64_of_le(b[3], b[4], b[5], b[6], b[7], b[8], b[9], b[10]),
                },
                11,
            ))
        }
    } else if b[0] == TOKEN_ERROR || b[0] == TOKEN_INFO {
        if b.len() < 9 {
            None
        } else {
            let code = u32_of_le(b[1], b[2], b[3], b[4]);
            let state = b[5];
            let severity = b[6];
            let ml = u16_of_le(b[7], b[8]) as int;
            if b.len() < 9 + ml + 1 {
                None
            } else {
                let message = b.subrange(9, 9 + ml);
                let sl = b[9 + ml] as int;
                if b.len() < 10 + ml + sl {
                    None
                } else {
                    let source = b.subrange(10 + ml, 10 + ml + sl);
                    if b[0] == TOKEN_ERROR {
                        Some((
                            TokenModel::Error { code, state, severity, message, source },
                            10 + ml + sl,
                        ))
                    } else {
                        Some((
                            TokenModel::Info { code, state, severity, message, source },
                            10 + ml + sl,
                        ))
                    }
                }
            }
        }
    } else if b[0] == TOKEN_RETURN_STATUS {
        if b.len() < 5 {
            None
        } else {
            Some((TokenModel::ReturnStatus(u32_of_le(b[1], b[2], b[3], b[4])), 5))
        }
    } else if b[0] == TOKEN_LOGIN_ACK {
        if b.len() < 6 {
            None
        } else {
            let version = u32_of_le(b[1], b[2], b[3], b[4]);
            let sl = b[5] as int;
            if b.len() < 6 + sl {
                None
            } else {
                Some((TokenModel::LoginAck { version, server: b.subrange(6, 6 + sl) }, 6 + sl))
            }
        }
    } else {
        None
    }
}

/// The column context after seeing token `t`: column metadata resets it,
/// every other token leaves it alone.
pub open spec fn next_ctx(t: TokenModel, ctx: Option<Seq<ColumnModel>>) -> Option<
    Seq<ColumnModel>,
> {
    match t {
        TokenModel::ColumnMetadata(cols) => Some(cols),
        _ => ctx,
    }
}

/// Decodes a whole payload into its token sequence, threading the column
/// context from each column-metadata token to the rows after it: `None`
/// when any token is malformed, truncated, or a row arrives before any
/// column metadata.
pub open spec fn spec_decode_tokens(b: Seq<u8>, ctx: Option<Seq<ColumnModel>>) -> Option<
    Seq<TokenModel>,
>
    decreases b.len(),
{
    if b.len() == 0 {
        Some(Seq::empty())
    } else {
        match spec_decode_token(b, ctx) {
            None => None,
            Some((t, n)) => {
                if n < 1 || n > b.len() {
                    None
                } else {
                    match spec_decode_tokens(b.skip(n), next_ctx(t, ctx)) {
                        None => None,
                        Some(ts) => Some(seq![t] + ts),
                    }
                }
            }
        }
    }
}

/// Sequencing invariant: a row token at the front of a stream with no
/// preceding column metadata never decodes — the codec reports a protocol
/// error rather than defaulting types.
pub proof fn lemma_row_needs_metadata(b: Seq<u8>)
    requires
        b.len() >= 1,
        b[0] == TOKEN_ROW,
    ensures
        (spec_decode_token(b, None) is None),
        (spec_decode_tokens(b, None) is None),
{
}


/// Decoding the encoding of a well-formed column list, with anything at all
/// following it, yields the columns back and consumes exactly their bytes.
pub proof fn lemma_columns_round_trip(cols: Seq<ColumnModel>, rest: Seq<u8>)
    requires
        forall|i: int| 0 <= i < cols.len() ==> column_wf(#[trigger] cols[i]),
    ensures
        spec_decode_columns(cols.len() as int, columns_bytes(cols) + rest)
            == Some((cols, columns_bytes(cols).len() as int)),
    decreases cols.len(),
{
    let enc = columns_bytes(cols);
    let b = enc + rest;
    if cols.len() == 0 {
        assert(enc =~= Seq::<u8>::empty());
    } else {
        let c0 = cols[0];
        let enc0 = column_bytes(c0);
        let tail_enc = columns_bytes(cols.skip(1));
        assert(enc == enc0 + tail_enc);
        assert(b =~= enc0 + (tail_enc + rest));
        let nl = c0.name.len() as int;
        assert(b[0] == type_tag(c0.ty));
        assert(b[1] == (if c0.nullable { 1u8 } else { 0u8 }));
        assert(b[2] == c0.name.len() as u8);
        assert(b.len() >= 3 + nl);
        assert(b.subrange(3, 3 + nl) =~= c0.name);
        lemma_columns_round_trip(cols.skip(1), rest);
        assert(b.skip(3 + nl) =~= tail_enc + rest);
        assert(seq![c0] + cols.skip(1) =~= cols);
    }
}

/// Token round trip: decoding the encoding of any well-formed token, with
/// anything at all following it and under the column context it was encoded
/// for, yields the token back and consumes exactly its bytes.
#[verifier::rlimit(60)]
#[verifier::spinoff_prover]
pub proof fn lemma_token_round_trip(t: TokenModel, cols: Seq<ColumnModel>, rest: Seq<u8>)
    requires
        token_wf(t, cols),
    ensures
        spec_decode_token(token_bytes(t, cols) + rest, Some(cols))
            == Some((t, token_bytes(t, cols).len() as int)),
{
    let enc = token_bytes(t, cols);
    let b = enc + rest;
    match t {
        TokenModel::ColumnMetadata(tcols) => {
            let count = tcols.len() as u16;
            lemma_u16_le_round_trip(count);
            assert(b[0] == TOKEN_COLMETADATA);
            assert(b[1] == u16_le(count)[0]);
            assert(b[2] == u16_le(count)[1]);
            lemma_columns_round_trip(tcols, rest);
            assert(b.skip(3) =~= columns_bytes(tcols) + rest);
        }
        TokenModel::Row(vals) => {
            assert(b[0] == TOKEN_ROW);
            lemma_row_round_trip(cols, vals, rest);
            assert(b.skip(1) =~= row_cells_bytes(cols, vals) + rest);
        }
        TokenModel::Done { status, row_count } => {
            lemma_u16_le_round_trip(status);
            lemma_u64_le_round_trip(row_count);
            assert(b[0] == TOKEN_DONE);
            assert(b[1] == u16_le(status)[0]);
            assert(b[2] == u16_le(status)[1]);
            assert(b[3] == u64_le(row_count)[0]);
            assert(b[4] == u64_le(row_count)[1]);
            assert(b[5] == u64_le(row_count)[2]);
            assert(b[6] == u64_le(row_count)[3]);
            assert(b[7] == u64_le(row_count)[4]);
            assert(b[8] == u64_le(row_count)[5]);
            assert(b[9] == u64_le(row_count)[6]);
            assert(b[10] == u64_le(row_count)[7]);
        }
        TokenModel::Error { code, state, severity, message, source } => {
            lemma_error_like_round_trip(
                TOKEN_ERROR, code, state, severity, message, source, rest,
            );
        }
        TokenModel::Info { code, state, severity, message, source } => {
            lemma_error_like_round_trip(
                TOKEN_INFO, code, state, severity, message, source, rest,
            );
        }
        TokenModel::ReturnStatus(x) => {
            lemma_u32_le_round_trip(x);
            assert(b[0] == TOKEN_RETURN_STATUS);
            assert(b[1] == u32_le(x)[0]);
            assert(b[2] == u32_le(x)[1]);
            assert(b[3] == u32_le(x)[2]);
            assert(b[4] == u32_le(x)[3]);
        }
        TokenModel::LoginAck { version, server } => {
            lemma_u32_le_round_trip(version);
            assert(b[0] == TOKEN_LOGIN_ACK);
            assert(b[1] == u32_le(version)[0]);
            assert(b[2] == u32_le(version)[1]);
            assert(b[3] == u32_le(version)[2]);
            assert(b[4] == u32_le(version)[3]);
            assert(b[5] == server.len() as u8);
            let sl = server.len() as int;
            assert(b.len() >= 6 + sl);
            assert(b.subrange(6, 6 + sl) =~= server);
        }
    }
}

/// Shared round-trip argument for the error and info tokens, which differ
/// only in their tag byte.
proof fn lemma_error_like_round_trip(
    tag: u8,
    code: u32,
    state: u8,
    severity: u8,
    message: Seq<u8>,
    source: Seq<u8>,
    rest: Seq<u8>,
)
    requires
        tag == TOKEN_ERROR || tag == TOKEN_INFO,
        message.len() <= 0xFFFF,
        source.len() <= 255,
    ensures
        spec_decode_token(
            seq![tag] + u32_le(code) + seq![state, severity]
                + u16_le(message.len() as u16) + message
                + seq![source.len() as u8] + source + rest,
            Some(Seq::empty()),
        ) == Some((
            if tag == TOKEN_ERROR {
                TokenModel::Error { code, state, severity, message, source }
            } else {
                TokenModel::Info { code, state, severity, message, source }
            },
            (10 + message.len() + source.len()) as int,
        )),
        spec_decode_token(
            seq![tag] + u32_le(code) + seq![state, severity]
                + u16_le(message.len() as u16) + message
                + seq![source.len() as u8] + source + rest,
            Some(Seq::empty()),
        ) == spec_decode_token(
            seq![tag] + u32_le(code) + seq![state, severity]
                + u16_le(message.len() as u16) + message
                + seq![source.len() as u8] + source + rest,
            None,
        ),
{
    let b = seq![tag] + u32_le(code) + seq![state, severity]
        + u16_le(message.len() as u16) + message
        + seq![source.len() as u8] + source + rest;
    let ml = message.len() as int;
    let sl = source.len() as int;
    lemma_u32_le_round_trip(code);
    lemma_u16_le_round_trip(message.len() as u16);
    assert(b[0] == tag);
    assert(b[1] == u32_le(code)[0]);
    assert(b[2] == u32_le(code)[1]);
    assert(b[3] == u32_le(code)[2]);
    assert(b[4] == u32_le(code)[3]);
    assert(b[5] == state);
    assert(b[6] == severity);
    assert(b[7] == u16_le(message.len() as u16)[0]);
    assert(b[8] == u16_le(message.len() as u16)[1]);
    assert(b.len() >= 10 + ml + sl);
    assert(b.subrange(9, 9 + ml) =~= message);
    assert(b[9 + ml] == source.len() as u8);
    assert(b.subrange(10 + ml, 10 + ml + sl) =~= source);
}


/// Appends all of `s` to `out`.
pub fn put_bytes(out: &mut Vec<u8>, s: &Vec<u8>)
    ensures
        final(out)@ == old(out)@ + s@,
{
    let m: usize = s.len();
    let ghost base = out@;
    let mut j: usize = 0;
    while j < m
        invariant
            j <= m,
            m == s@.len(),
            out@ =~= base + s@.subrange(0, j as int),
        decreases m - j,
    {
        let b = s[j];
        out.push(b);
        j += 1;
    }
    assert(s@.subrange(0, m as int) =~= s@);
}

/// Copies `len` bytes of `buf` starting at `start` into a fresh vector.
pub fn read_bytes(buf: &Vec<u8>, start: usize, len: usize) -> (r: Vec<u8>)
    requires
        start + len <= buf@.len(),
    ensures
        r@ == buf@.subrange(start as int, start + len),
{
    let mut r: Vec<u8> = Vec::new();
    let n: usize = buf.len();
    let mut j: usize = 0;
    while j < len
        invariant
            j <= len,
            n == buf@.len(),
            start + len <= n,
            r@ =~= buf@.subrange(start as int, start + j),
        decreases len - j,
    {
        let b = buf[start + j];
        r.push(b);
        j += 1;
    }
    r
}

/// The wire type tag of `ty`, as an executable value.
pub fn type_tag_of(ty: SqlType) -> (r: u8)
    ensures
        r == type_tag(ty),
{
    match ty {
        SqlType::Bit => 0x32,
        SqlType::Int4 => 0x38,
        SqlType::Int8 => 0x7F,
        SqlType::VarChar => 0xA7,
    }
}

/// Encodes one token to its exact wire bytes, appending to `out`; a row is
/// encoded under the column context `ctx`.
pub fn encode_token(out: &mut Vec<u8>, t: &Token, ctx: &Vec<Column>)
    requires
        token_wf(t@, column_views(ctx@)),
    ensures
        final(out)@ == old(out)@ + token_bytes(t@, column_views(ctx@)),
{
    let ghost total = old(out)@ + token_bytes(t@, column_views(ctx@));
    match t {
        Token::ColumnMetadata(cols) => {
            out.push(TOKEN_COLMETADATA);
            let count: u16 = cols.len() as u16;
            put_u16_le(out, count);
            let ghost colsv = column_views(cols@);
            let m: usize = cols.len();
            let mut i: usize = 0;
            proof {
                assert(colsv.skip(0) =~= colsv);
                assert(total =~= out@ + columns_bytes(colsv.skip(0)));
            }
            while i < m
                invariant
                    i <= m,
                    m == cols@.len(),
                    colsv == column_views(cols@),
                    forall|k: int| 0 <= k < colsv.len() ==> column_wf(#[trigger] colsv[k]),
                    total =~= out@ + columns_bytes(colsv.skip(i as int)),
                decreases m - i,
            {
                let c = &cols[i];
                let tag = type_tag_of(c.ty);
                out.push(tag);
                out.push(if c.nullable { 1u8 } else { 0u8 });
                out.push(c.name.len() as u8);
                put_bytes(out, &c.name);
                proof {
                    assert(colsv.skip(i as int)[0] == colsv[i as int]);
                    assert(colsv.skip(i as int).skip(1) =~= colsv.skip(i as int + 1));
                    assert(columns_bytes(colsv.skip(i as int))
                        =~= column_bytes(colsv[i as int])
                            + columns_bytes(colsv.skip(i as int + 1)));
                }
                i += 1;
            }
            proof {
                assert(columns_bytes(colsv.skip(m as int)) =~= Seq::<u8>::empty());
                assert(out@ =~= total);
            }
        }
        Token::Row(vals) => {
            out.push(TOKEN_ROW);
            let ghost colsv = column_views(ctx@);
            let ghost valsv = value_views(vals@);
            let m: usize = vals.len();
            let mut i: usize = 0;
            proof {
                assert(colsv.skip(0) =~= colsv);
                assert(valsv.skip(0) =~= valsv);
                assert(total =~= out@ + row_cells_bytes(colsv.skip(0), valsv.skip(0)));
            }
            while i < m
                invariant
                    i <= m,
                    m == vals@.len(),
                    m == ctx@.len(),
                    colsv == column_views(ctx@),
                    valsv == value_views(vals@),
                    row_conforms(colsv, valsv),
                    total =~= out@
                        + row_cells_bytes(colsv.skip(i as int), valsv.skip(i as int)),
                decreases m - i,
            {
                let v = &vals[i];
                let ty = ctx[i].ty;
                proof {
                    assert(cell_conforms(colsv[i as int], valsv[i as int]));
                    assert(valsv[i as int] == v@);
                    assert(colsv[i as int].ty == ty);
                }
                encode_cell(out, ty, v);
                proof {
                    assert(colsv.skip(i as int)[0] == colsv[i as int]);
                    assert(valsv.skip(i as int)[0] == valsv[i as int]);
                    assert(colsv.skip(i as int).skip(1) =~= colsv.skip(i as int + 1));
                    assert(valsv.skip(i as int).skip(1) =~= valsv.skip(i as int + 1));
                    assert(row_cells_bytes(colsv.skip(i as int), valsv.skip(i as int))
                        =~= cell_bytes(colsv[i as int].ty, valsv[i as int])
                            + row_cells_bytes(
                                colsv.skip(i as int + 1),
                                valsv.skip(i as int + 1),
                            ));
                }
                i += 1;
            }
            proof {
                assert(row_cells_bytes(colsv.skip(m as int), valsv.skip(m as int))
                    =~= Seq::<u8>::empty());
                assert(out@ =~= total);
            }
        }
        Token::Done { status, row_count } => {
            out.push(TOKEN_DONE);
            put_u16_le(out, *status);
            put_u64_le(out, *row_count);
            assert(out@ =~= total);
        }
        Token::Error { code, state, severity, message, source } => {
            out.push(TOKEN_ERROR);
            put_u32_le(out, *code);
            out.push(*state);
            out.push(*severity);
            put_u16_le(out, message.len() as u16);
            put_bytes(out, message);
            out.push(source.len() as u8);
            put_bytes(out, source);
            assert(out@ =~= total);
        }
        Token::Info { code, state, severity, message, source } => {
            out.push(TOKEN_INFO);
            put_u32_le(out, *code);
            out.push(*state);
            out.push(*severity);
            put_u16_le(out, message.len() as u16);
            put_bytes(out, message);
            out.push(source.len() as u8);
            put_bytes(out, source);
            assert(out@ =~= total);
        }
        Token::ReturnStatus(x) => {
            out.push(TOKEN_RETURN_STATUS);
            put_u32_le(out, *x);
            assert(out@ =~= total);
        }
        Token::LoginAck { version, server } => {
            out.push(TOKEN_LOGIN_ACK);
            put_u32_le(out, *version);
            out.push(server.len() as u8);
            put_bytes(out, server);
            assert(out@ =~= total);
        }
    }
}


/// The model of an optional column context.
pub open spec fn ctx_view(ctx: Option<&Vec<Column>>) -> Option<Seq<ColumnModel>> {
    match ctx {
        Some(cols) => Some(column_views(cols@)),
        None => None,
    }
}

/// Prefixes a column-list decode result with already-decoded columns and
/// already-consumed bytes.
pub open spec fn cols_cont(
    acc: Seq<ColumnModel>,
    off: int,
    r: Option<(Seq<ColumnModel>, int)>,
) -> Option<(Seq<ColumnModel>, int)> {
    match r {
        None => None,
        Some((cs, m)) => Some((acc + cs, off + m)),
    }
}

/// Prefixes a row-cell decode result with already-decoded values and
/// already-consumed bytes.
pub open spec fn cells_cont(
    acc: Seq<ValueModel>,
    off: int,
    r: Option<(Seq<ValueModel>, int)>,
) -> Option<(Seq<ValueModel>, int)> {
    match r {
        None => None,
        Some((vs, q)) => Some((acc + vs, off + q)),
    }
}

/// Decodes one token at position `pos` of `buf` under the column context
/// `ctx`, exactly as `spec_decode_token` describes on the remaining bytes:
/// the token and the bytes consumed, or `ProtocolError` when the bytes are
/// malformed, truncated, or a row arrives with no column context.
#[verifier::rlimit(100)]
pub fn decode_token(buf: &Vec<u8>, pos: usize, ctx: Option<&Vec<Column>>) -> (r: Result<
    (Token, usize),
    TdsError,
>)
    requires
        pos <= buf@.len(),
    ensures
        match r {
            Ok((t, n)) => {
                &&& spec_decode_token(buf@.skip(pos as int), ctx_view(ctx))
                    == Some((t@, n as int))
                &&& 1 <= n
                &&& pos + n <= buf@.len()
            },
            Err(e) => {
                &&& (spec_decode_token(buf@.skip(pos as int), ctx_view(ctx)) is None)
                &&& e == TdsError::ProtocolError
            },
        },
{
    let n: usize = buf.len();
    let ghost b = buf@.skip(pos as int);
    proof {
        assert(b.len() == n - pos);
        assert(forall|k: int| 0 <= k < b.len() ==> b[k] == buf@[pos + k]);
    }
    if pos >= n {
        return Err(TdsError::ProtocolError);
    }
    let tag = buf[pos];
    if tag == TOKEN_COLMETADATA {
        if n - pos < 3 {
            return Err(TdsError::ProtocolError);
        }
        let count = get_u16_le(buf, pos + 1);
        let mut cols: Vec<Column> = Vec::new();
        let mut cur: usize = pos + 3;
        let mut k: usize = 0;
        proof {
            assert(buf@.skip(pos + 3) =~= b.skip(3));
            let r0 = spec_decode_columns(count as int, buf@.skip(pos + 3));
            if r0 is Some {
                assert(Seq::<ColumnModel>::empty() + (r0->0).0 =~= (r0->0).0);
            }
            assert(column_views(cols@) =~= Seq::<ColumnModel>::empty());
        }
        while k < count as usize
            invariant
                k <= count as usize,
                n == buf@.len(),
                pos + 3 <= cur <= n,
                k == cols@.len(),
                b == buf@.skip(pos as int),
                b.len() >= 3,
                b[0] == TOKEN_COLMETADATA,
                count == u16_of_le(b[1], b[2]),
                b.skip(3) == buf@.skip(pos + 3),
                spec_decode_columns(count as int, buf@.skip(pos + 3))
                    == cols_cont(
                        column_views(cols@),
                        cur - (pos + 3),
                        spec_decode_columns(count as int - k, buf@.skip(cur as int)),
                    ),
            decreases count as usize - k,
        {
            let ghost s = buf@.skip(cur as int);
            proof {
                assert(forall|j: int| 0 <= j < s.len() ==> s[j] == buf@[cur + j]);
            }
            if n - cur < 3 {
                return Err(TdsError::ProtocolError);
            }
            let ctag = buf[cur];
            let nul = buf[cur + 1];
            let nl = buf[cur + 2];
            let ty: SqlType;
            if ctag == 0x32 {
                ty = SqlType::Bit;
            } else if ctag == 0x38 {
                ty = SqlType::Int4;
            } else if ctag == 0x7F {
                ty = SqlType::Int8;
            } else if ctag == 0xA7 {
                ty = SqlType::VarChar;
            } else {
                return Err(TdsError::ProtocolError);
            }
            if nul > 1 {
                return Err(TdsError::ProtocolError);
            }
            if n - cur - 3 < (nl as usize) {
                return Err(TdsError::ProtocolError);
            }
            let name = read_bytes(buf, cur + 3, nl as usize);
            let c = Column { name, ty, nullable: nul == 1 };
            proof {
                assert(c@.name =~= s.subrange(3, 3 + nl as int));
                assert(c@ == ColumnModel {
                    name: s.subrange(3, 3 + nl as int),
                    ty: ty,
                    nullable: nul == 1,
                });
            }
            cols.push(c);
            proof {
                let acc_old = column_views(cols@.drop_last());
                let acc_new = column_views(cols@);
                assert(acc_new =~= acc_old + seq![cols@.last()@]);
                assert(buf@.skip(cur + 3 + nl as int) =~= s.skip(3 + nl as int));
                let r2 = spec_decode_columns(
                    count as int - (k + 1),
                    buf@.skip(cur + 3 + nl as int),
                );
                if r2 is Some {
                    let cs = (r2->0).0;
                    let m = (r2->0).1;
                    assert(spec_decode_columns(count as int - k, s)
                        == Some((seq![cols@.last()@] + cs, 3 + nl as int + m)));
                    assert(acc_old + (seq![cols@.last()@] + cs) =~= acc_new + cs);
                } else {
                    assert(spec_decode_columns(count as int - k, s) is None);
                }
            }
            cur = cur + 3 + nl as usize;
            k += 1;
        }
        proof {
            assert(spec_decode_columns(0, buf@.skip(cur as int))
                == Some((Seq::<ColumnModel>::empty(), 0int)));
            assert(column_views(cols@) + Seq::<ColumnModel>::empty()
                =~= column_views(cols@));
            assert(b[1] == buf@[pos + 1] && b[2] == buf@[pos + 2]);
            assert(b.skip(3) =~= buf@.skip(pos + 3));
        }
        Ok((Token::ColumnMetadata(cols), cur - pos))
    } else if tag == TOKEN_ROW {
        match ctx {
            None => Err(TdsError::ProtocolError),
            Some(cols) => {
                let ghost colsv = column_views(cols@);
                let m: usize = cols.len();
                let mut vals: Vec<Value> = Vec::new();
                let mut cur: usize = pos + 1;
                let mut i: usize = 0;
                proof {
                    assert(buf@.skip(pos + 1) =~= b.skip(1));
                    assert(colsv.skip(0) =~= colsv);
                    let r0 = spec_decode_cells(colsv, buf@.skip(pos + 1));
                    if r0 is Some {
                        assert(Seq::<ValueModel>::empty() + (r0->0).0 =~= (r0->0).0);
                    }
                    assert(value_views(vals@) =~= Seq::<ValueModel>::empty());
                }
                while i < m
                    invariant
                        i <= m,
                        m == cols@.len(),
                        colsv == column_views(cols@),
                        n == buf@.len(),
                        pos + 1 <= cur <= n,
                        i == vals@.len(),
                        b == buf@.skip(pos as int),
                        b.len() >= 1,
                        b[0] == TOKEN_ROW,
                        ctx_view(ctx) == Some(colsv),
                        b.skip(1) == buf@.skip(pos + 1),
                        spec_decode_cells(colsv, buf@.skip(pos + 1))
                            == cells_cont(
                                value_views(vals@),
                                cur - (pos + 1),
                                spec_decode_cells(
                                    colsv.skip(i as int),
                                    buf@.skip(cur as int),
                                ),
                            ),
                    decreases m - i,
                {
                    let ty = cols[i].ty;
                    proof {
                        assert(colsv.skip(i as int)[0] == colsv[i as int]);
                        assert(colsv[i as int].ty == ty);
                    }
                    match decode_cell(ty, buf, cur) {
                        Err(e) => {
                            proof {
                                assert(spec_decode_cells(
                                    colsv.skip(i as int),
                                    buf@.skip(cur as int),
                                ) is None);
                            }
                            return Err(e);
                        }
                        Ok((v, c)) => {
                            vals.push(v);
                            proof {
                                let acc_old = value_views(vals@.drop_last());
                                let acc_new = value_views(vals@);
                                assert(acc_new =~= acc_old + seq![vals@.last()@]);
                                assert(buf@.skip(cur + c as int)
                                    =~= buf@.skip(cur as int).skip(c as int));
                                assert(colsv.skip(i as int).skip(1)
                                    =~= colsv.skip(i as int + 1));
                                let r2 = spec_decode_cells(
                                    colsv.skip(i as int + 1),
                                    buf@.skip(cur + c as int),
                                );
                                if r2 is Some {
                                    let vs = (r2->0).0;
                                    let q = (r2->0).1;
                                    assert(spec_decode_cells(
                                        colsv.skip(i as int),
                                        buf@.skip(cur as int),
                                    ) == Some((seq![vals@.last()@] + vs, c as int + q)));
                                    assert(acc_old + (seq![vals@.last()@] + vs)
                                        =~= acc_new + vs);
                                } else {
                                    assert(spec_decode_cells(
                                        colsv.skip(i as int),
                                        buf@.skip(cur as int),
                                    ) is None);
                                }
                            }
                            cur = cur + c;
                            i += 1;
                        }
                    }
                }
                proof {
                    assert(colsv.skip(m as int).len() == 0);
                    assert(spec_decode_cells(colsv.skip(m as int), buf@.skip(cur as int))
                        == Some((Seq::<ValueModel>::empty(), 0int)));
                    assert(value_views(vals@) + Seq::<ValueModel>::empty()
                        =~= value_views(vals@));
                    assert(b.skip(1) =~= buf@.skip(pos + 1));
                }
                Ok((Token::Row(vals), cur - pos))
            }
        }
    } else if tag == TOKEN_DONE {
        if n - pos < 11 {
            return Err(TdsError::ProtocolError);
        }
        let status = get_u16_le(buf, pos + 1);
        let row_count = get_u64_le(buf, pos + 3);
        Ok((Token::Done { status, row_count }, 11))
    } else if tag == TOKEN_ERROR || tag == TOKEN_INFO {
        if n - pos < 9 {
            return Err(TdsError::ProtocolError);
        }
        let code = get_u32_le(buf, pos + 1);
        let state = buf[pos + 5];
        let severity = buf[pos + 6];
        let ml = get_u16_le(buf, pos + 7);
        if n - pos - 9 < (ml as usize) + 1 {
            return Err(TdsError::ProtocolError);
        }
        let message = read_bytes(buf, pos + 9, ml as usize);
        let sl = buf[pos + 9 + ml as usize];
        if n - pos - 10 - (ml as usize) < (sl as usize) {
            return Err(TdsError::ProtocolError);
        }
        let source = read_bytes(buf, pos + 10 + ml as usize, sl as usize);
        proof {
            assert(b.subrange(9, 9 + ml as int)
                =~= buf@.subrange(pos + 9, pos + 9 + ml as int));
            assert(b.subrange(10 + ml as int, 10 + ml as int + sl as int)
                =~= buf@.subrange(
                    pos + 10 + ml as int,
                    pos + 10 + ml as int + sl as int,
                ));
        }
        if tag == TOKEN_ERROR {
            Ok((
                Token::Error { code, state, severity, message, source },
                10 + ml as usize + sl as usize,
            ))
        } else {
            Ok((
                Token::Info { code, state, severity, message, source },
                10 + ml as usize + sl as usize,
            ))
        }
    } else if tag == TOKEN_RETURN_STATUS {
        if n - pos < 5 {
            return Err(TdsError::ProtocolError);
        }
        let x = get_u32_le(buf, pos + 1);
        Ok((Token::ReturnStatus(x), 5))
    } else if tag == TOKEN_LOGIN_ACK {
        if n - pos < 6 {
            return Err(TdsError::ProtocolError);
        }
        let version = get_u32_le(buf, pos + 1);
        let sl = buf[pos + 5];
        if n - pos - 6 < (sl as usize) {
            return Err(TdsError::ProtocolError);
        }
        let server = read_bytes(buf, pos + 6, sl as usize);
        proof {
            assert(b.subrange(6, 6 + sl as int)
                =~= buf@.subrange(pos + 6, pos + 6 + sl as int));
        }
        Ok((Token::LoginAck { version, server }, 6 + sl as usize))
    } else {
        Err(TdsError::ProtocolError)
    }
}


/// Prefixes a token-stream decode result with already-decoded tokens.
pub open spec fn tokens_cont(acc: Seq<TokenModel>, r: Option<Seq<TokenModel>>) -> Option<
    Seq<TokenModel>,
> {
    match r {
        None => None,
        Some(ts) => Some(acc + ts),
    }
}

/// The model of an owned optional column context.
pub open spec fn opt_column_views(ctx: Option<Vec<Column>>) -> Option<Seq<ColumnModel>> {
    match ctx {
        Some(cols) => Some(column_views(cols@)),
        None => None,
    }
}

/// Copies a column list, preserving its model.
pub fn clone_columns(cols: &Vec<Column>) -> (r: Vec<Column>)
    ensures
        column_views(r@) == column_views(cols@),
{
    let m: usize = cols.len();
    let mut r: Vec<Column> = Vec::new();
    let mut i: usize = 0;
    while i < m
        invariant
            i <= m,
            m == cols@.len(),
            i == r@.len(),
            column_views(r@) =~= column_views(cols@).subrange(0, i as int),
        decreases m - i,
    {
        let c = &cols[i];
        let name = read_bytes(&c.name, 0, c.name.len());
        proof {
            assert(name@ =~= c.name@);
        }
        r.push(Column { name, ty: c.ty, nullable: c.nullable });
        proof {
            assert(column_views(r@)
                =~= column_views(r@.drop_last()) + seq![r@.last()@]);
            assert(r@.last()@ == cols@[i as int]@);
            assert(column_views(r@)
                =~= column_views(cols@).subrange(0, i + 1));
        }
        i += 1;
    }
    proof {
        assert(column_views(cols@).subrange(0, m as int) =~= column_views(cols@));
    }
    r
}

/// Decodes a whole logical payload into its token sequence, exactly as
/// `spec_decode_tokens` describes starting from an empty column context: a
/// malformed or truncated token, or a row with no preceding column
/// metadata, is a `ProtocolError`.
#[verifier::rlimit(100)]
#[verifier::spinoff_prover]
pub fn decode_message(buf: &Vec<u8>) -> (r: Result<Vec<Token>, TdsError>)
    ensures
        match r {
            Ok(ts) => spec_decode_tokens(buf@, None) == Some(token_views(ts@)),
            Err(e) => {
                &&& (spec_decode_tokens(buf@, None) is None)
                &&& e == TdsError::ProtocolError
            },
        },
{
    let n: usize = buf.len();
    let mut out: Vec<Token> = Vec::new();
    let mut ctx: Option<Vec<Column>> = None;
    let mut pos: usize = 0;
    proof {
        assert(buf@.skip(0) =~= buf@);
        let r0 = spec_decode_tokens(buf@, None);
        if r0 is Some {
            assert(Seq::<TokenModel>::empty() + r0->0 =~= r0->0);
        }
        assert(token_views(out@) =~= Seq::<TokenModel>::empty());
    }
    while pos < n
        invariant
            pos <= n,
            n == buf@.len(),
            spec_decode_tokens(buf@, None)
                == tokens_cont(
                    token_views(out@),
                    spec_decode_tokens(buf@.skip(pos as int), opt_column_views(ctx)),
                ),
        decreases n - pos,
    {
        let cref: Option<&Vec<Column>> = match &ctx {
            Some(c) => Some(c),
            None => None,
        };
        proof {
            assert(ctx_view(cref) == opt_column_views(ctx));
        }
        match decode_token(buf, pos, cref) {
            Err(e) => {
                return Err(e);
            }
            Ok((t, used)) => {
                let ghost cv = opt_column_views(ctx);
                match &t {
                    Token::ColumnMetadata(cols) => {
                        let copy = clone_columns(cols);
                        ctx = Some(copy);
                    }
                    _ => {}
                }
                proof {
                    assert(opt_column_views(ctx) == next_ctx(t@, cv));
                }
                out.push(t);
                proof {
                    let acc_old = token_views(out@.drop_last());
                    let acc_new = token_views(out@);
                    assert(acc_new =~= acc_old + seq![out@.last()@]);
                    assert(buf@.skip(pos + used as int)
                        =~= buf@.skip(pos as int).skip(used as int));
                    let r2 = spec_decode_tokens(
                        buf@.skip(pos + used as int),
                        opt_column_views(ctx),
                    );
                    if r2 is Some {
                        let ts = r2->0;
                        assert(spec_decode_tokens(buf@.skip(pos as int), cv)
                            == Some(seq![out@.last()@] + ts));
                        assert(acc_old + (seq![out@.last()@] + ts) =~= acc_new + ts);
                    } else {
                        assert(spec_decode_tokens(buf@.skip(pos as int), cv) is None);
                    }
                }
                pos = pos + used;
            }
        }
    }
    proof {
        assert(buf@.skip(pos as int).len() == 0);
        assert(spec_decode_tokens(buf@.skip(pos as int), opt_column_views(ctx))
            == Some(Seq::<TokenModel>::empty()));
        assert(token_views(out@) + Seq::<TokenModel>::empty() =~= token_views(out@));
    }
    Ok(out)
}


/// The column list of an optional context; empty when there is none.
pub open spec fn ctx_cols(ctx: Option<Seq<ColumnModel>>) -> Seq<ColumnModel> {
    match ctx {
        Some(cols) => cols,
        None => Seq::empty(),
    }
}

/// A token stream that can be encoded under the context `ctx`: every token
/// is well formed, every row has a governing column context, and each
/// column-metadata token governs the rows after it.
pub open spec fn stream_wf(ts: Seq<TokenModel>, ctx: Option<Seq<ColumnModel>>) -> bool
    decreases ts.len(),
{
    ts.len() == 0 || {
        &&& ((ts[0] matches TokenModel::Row(_)) ==> ctx is Some)
        &&& token_wf(ts[0], ctx_cols(ctx))
        &&& stream_wf(ts.skip(1), next_ctx(ts[0], ctx))
    }
}

/// The wire bytes of a whole token stream, each row encoded under the
/// column metadata most recently seen before it.
pub open spec fn stream_bytes(ts: Seq<TokenModel>, ctx: Option<Seq<ColumnModel>>) -> Seq<u8>
    decreases ts.len(),
{
    if ts.len() == 0 {
        Seq::empty()
    } else {
        token_bytes(ts[0], ctx_cols(ctx)) + stream_bytes(ts.skip(1), next_ctx(ts[0], ctx))
    }
}

/// Token round trip under an optional context: a token that is not a row
/// decodes the same whether or not column metadata is in scope.
proof fn lemma_token_round_trip_ctx(
    t: TokenModel,
    ctx: Option<Seq<ColumnModel>>,
    rest: Seq<u8>,
)
    requires
        (t matches TokenModel::Row(_)) ==> (ctx is Some),
        token_wf(t, ctx_cols(ctx)),
    ensures
        spec_decode_token(token_bytes(t, ctx_cols(ctx)) + rest, ctx)
            == Some((t, token_bytes(t, ctx_cols(ctx)).len() as int)),
{
    lemma_token_round_trip(t, ctx_cols(ctx), rest);
    if ctx is None {
        let b = token_bytes(t, ctx_cols(ctx)) + rest;
        match t {
            TokenModel::ColumnMetadata(_) => {
                assert(b[0] == TOKEN_COLMETADATA);
            }
            TokenModel::Row(_) => {}
            TokenModel::Done { .. } => {
                assert(b[0] == TOKEN_DONE);
            }
            TokenModel::Error { .. } => {
                assert(b[0] == TOKEN_ERROR);
            }
            TokenModel::Info { .. } => {
                assert(b[0] == TOKEN_INFO);
            }
            TokenModel::ReturnStatus(_) => {
                assert(b[0] == TOKEN_RETURN_STATUS);
            }
            TokenModel::LoginAck { .. } => {
                assert(b[0] == TOKEN_LOGIN_ACK);
            }
        }
        assert(spec_decode_token(b, None) == spec_decode_token(b, Some(ctx_cols(ctx))));
    }
}

/// Stream round trip: decoding the encoding of any well-formed token stream
/// under the context it was encoded for yields exactly the original tokens.
/// With no starting context this is the full message-level guarantee:
/// column metadata, the rows encoded under it, completion markers and
/// diagnostics all survive the wire unchanged.
pub proof fn lemma_stream_round_trip(ts: Seq<TokenModel>, ctx: Option<Seq<ColumnModel>>)
    requires
        stream_wf(ts, ctx),
    ensures
        spec_decode_tokens(stream_bytes(ts, ctx), ctx) == Some(ts),
    decreases ts.len(),
{
    if ts.len() == 0 {
        assert(stream_bytes(ts, ctx) =~= Seq::<u8>::empty());
        assert(ts =~= Seq::<TokenModel>::empty());
    } else {
        let head = ts[0];
        let tail = ts.skip(1);
        let head_enc = token_bytes(head, ctx_cols(ctx));
        let tail_enc = stream_bytes(tail, next_ctx(head, ctx));
        let b = head_enc + tail_enc;
        match head {
            TokenModel::ColumnMetadata(_) => {
                assert(head_enc.len() >= 1);
            }
            TokenModel::Row(_) => {
                assert(head_enc.len() >= 1);
            }
            TokenModel::Done { .. } => {
                assert(head_enc.len() >= 1);
            }
            TokenModel::Error { .. } => {
                assert(head_enc.len() >= 1);
            }
            TokenModel::Info { .. } => {
                assert(head_enc.len() >= 1);
            }
            TokenModel::ReturnStatus(_) => {
                assert(head_enc.len() >= 1);
            }
            TokenModel::LoginAck { .. } => {
                assert(head_enc.len() >= 1);
            }
        }
        lemma_token_round_trip_ctx(head, ctx, tail_enc);
        lemma_stream_round_trip(tail, next_ctx(head, ctx));
        assert(b.skip(head_enc.len() as int) =~= tail_enc);
        assert(seq![head] + tail =~= ts);
    }
}

} // verus!
