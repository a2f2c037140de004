use vstd::prelude::*;

use crate::binary::{le_bytes, p256, string_bytes, uvarint_bytes};
use vstd::utf8::{decode_utf8, valid_utf8};

verus! {

/// The SQL types that a column can hold.
#[derive(Debug, Clone, Copy, PartialEq, Eq, Structural)]
pub enum SqlType {
    UInt8,
    UInt16,
    UInt32,
    UInt64,
    Int8,
    Int16,
    Int32,
    Int64,
    String,
    FixedString(usize),
    NullableString,
    NullableFixedString(usize),
}

/// An owned cell value.
#[derive(Debug, Clone, PartialEq, Eq)]
pub enum Value {
    UInt8(u8),
    UInt16(u16),
    UInt32(u32),
    UInt64(u64),
    Int8(i8),
    Int16(i16),
    Int32(i32),
    Int64(i64),
    String(Vec<u8>),
    Nullable(Option<Vec<u8>>),
}

/// What a cell holds, as a mathematical value.
pub enum ValueView {
    UInt8(u8),
    UInt16(u16),
    UInt32(u32),
    UInt64(u64),
    Int8(i8),
    Int16(i16),
    Int32(i32),
    Int64(i64),
    String(Seq<u8>),
    Nullable(Option<Seq<u8>>),
}

/// Errors of reading a cell as a given type.
#[derive(Debug, Clone, Copy, PartialEq, Eq, Structural)]
pub enum FromSqlError {
    /// No column or row answers the selector.
    OutOfRange,
    /// The cell holds a value that the requested type cannot take.
    InvalidType,
}

impl View for Value {
    type V = ValueView;

    open spec fn view(&self) -> ValueView {
        match self {
            Value::UInt8(x) => ValueView::UInt8(*x),
            Value::UInt16(x) => ValueView::UInt16(*x),
            Value::UInt32(x) => ValueView::UInt32(*x),
            Value::UInt64(x) => ValueView::UInt64(*x),
            Value::Int8(x) => ValueView::Int8(*x),
            Value::Int16(x) => ValueView::Int16(*x),
            Value::Int32(x) => ValueView::Int32(*x),
            Value::Int64(x) => ValueView::Int64(*x),
            Value::String(b) => ValueView::String(b@),
            Value::Nullable(Some(b)) => ValueView::Nullable(Some(b@)),
            Value::Nullable(None) => ValueView::Nullable(None),
        }
    }
}

/// Width in bytes of an integer type; zero for the others.
pub open spec fn int_width(t: SqlType) -> nat {
    match t {
        SqlType::UInt8 | SqlType::Int8 => 1,
        SqlType::UInt16 | SqlType::Int16 => 2,
        SqlType::UInt32 | SqlType::Int32 => 4,
        SqlType::UInt64 | SqlType::Int64 => 8,
        _ => 0,
    }
}

/// The unsigned bit pattern of an integer cell.
pub open spec fn int_bits(v: ValueView) -> nat {
    match v {
        ValueView::UInt8(x) => x as nat,
        ValueView::UInt16(x) => x as nat,
        ValueView::UInt32(x) => x as nat,
        ValueView::UInt64(x) => x as nat,
        ValueView::Int8(x) => (x as u8) as nat,
        ValueView::Int16(x) => (x as u16) as nat,
        ValueView::Int32(x) => (x as u32) as nat,
        ValueView::Int64(x) => (x as u64) as nat,
        _ => 0,
    }
}

/// The integer cell of type `t` whose bit pattern is `b`.
pub open spec fn int_from_bits(t: SqlType, b: nat) -> ValueView {
    match t {
        SqlType::UInt8 => ValueView::UInt8(b as u8),
        SqlType::UInt16 => ValueView::UInt16(b as u16),
        SqlType::UInt32 => ValueView::UInt32(b as u32),
        SqlType::UInt64 => ValueView::UInt64(b as u64),
        SqlType::Int8 => ValueView::Int8((b as u8) as i8),
        SqlType::Int16 => ValueView::Int16((b as u16) as i16),
        SqlType::Int32 => ValueView::Int32((b as u32) as i32),
        _ => ValueView::Int64((b as u64) as i64),
    }
}

/// `v` is a value of a column of type `t`.
pub open spec fn has_type(v: ValueView, t: SqlType) -> bool {
    match t {
        SqlType::UInt8 => v is UInt8,
        SqlType::UInt16 => v is UInt16,
        SqlType::UInt32 => v is UInt32,
        SqlType::UInt64 => v is UInt64,
        SqlType::Int8 => v is Int8,
        SqlType::Int16 => v is Int16,
        SqlType::Int32 => v is Int32,
        SqlType::Int64 => v is Int64,
        SqlType::String => v is String,
        SqlType::FixedString(n) => v is String && v->String_0.len() == n,
        SqlType::NullableString => v is Nullable,
        SqlType::NullableFixedString(n) => v is Nullable && (v->Nullable_0 is Some
            ==> v->Nullable_0->Some_0.len() == n),
    }
}

/// The bytes of a cell, if it holds some: a string, or a present nullable.
pub open spec fn cell_payload(v: ValueView) -> Seq<u8> {
    match v {
        ValueView::String(b) => b,
        ValueView::Nullable(Some(b)) => b,
        _ => Seq::empty(),
    }
}

/// `b` cut or padded with zero bytes to exactly `n` bytes.
pub open spec fn fit(b: Seq<u8>, n: nat) -> Seq<u8> {
    if b.len() >= n {
        b.subrange(0, n as int)
    } else {
        b + Seq::new((n - b.len()) as nat, |i: int| 0u8)
    }
}

/// The null-mask byte of a cell: one where the value is absent.
pub open spec fn null_flag(v: ValueView) -> u8 {
    if v == ValueView::Nullable(None) {
        1
    } else {
        0
    }
}

/// The bytes that encode one cell in a column of type `t`
/// (for nullable types, the part after the null mask).
pub open spec fn cell_bytes(t: SqlType, v: ValueView) -> Seq<u8> {
    match t {
        SqlType::String | SqlType::NullableString => string_bytes(cell_payload(v)),
        SqlType::FixedString(n) | SqlType::NullableFixedString(n) => fit(cell_payload(v), n as nat),
        _ => le_bytes(int_bits(v), int_width(t)),
    }
}

pub open spec fn is_nullable(t: SqlType) -> bool {
    t is NullableString || t is NullableFixedString
}

/// The bytes that name a column type on the wire.
pub open spec fn type_bytes(t: SqlType) -> Seq<u8> {
    match t {
        SqlType::UInt8 => uvarint_bytes(0),
        SqlType::UInt16 => uvarint_bytes(1),
        SqlType::UInt32 => uvarint_bytes(2),
        SqlType::UInt64 => uvarint_bytes(3),
        SqlType::Int8 => uvarint_bytes(4),
        SqlType::Int16 => uvarint_bytes(5),
        SqlType::Int32 => uvarint_bytes(6),
        SqlType::Int64 => uvarint_bytes(7),
        SqlType::String => uvarint_bytes(8),
        SqlType::FixedString(n) => uvarint_bytes(9) + uvarint_bytes(n as nat),
        SqlType::NullableString => uvarint_bytes(10),
        SqlType::NullableFixedString(n) => uvarint_bytes(11) + uvarint_bytes(n as nat),
    }
}

pub proof fn lemma_int_bits_bound(v: ValueView, t: SqlType)
    requires
        has_type(v, t),
        int_width(t) > 0,
    ensures
        int_bits(v) < p256(int_width(t)),
        int_from_bits(t, int_bits(v)) == v,
{
    crate::binary::lemma_p256_values();
    match v {
        ValueView::Int8(x) => {
            assert(((x as u8) as i8) == x) by (bit_vector);
        },
        ValueView::Int16(x) => {
            assert(((x as u16) as i16) == x) by (bit_vector);
        },
        ValueView::Int32(x) => {
            assert(((x as u32) as i32) == x) by (bit_vector);
        },
        ValueView::Int64(x) => {
            assert(((x as u64) as i64) == x) by (bit_vector);
        },
        _ => {},
    }
}

impl Value {
    /// A copy of this value.
    pub fn copy(&self) -> (r: Value)
        ensures
            r@ == self@,
    {
        match self {
            Value::UInt8(x) => Value::UInt8(*x),
            Value::UInt16(x) => Value::UInt16(*x),
            Value::UInt32(x) => Value::UInt32(*x),
            Value::UInt64(x) => Value::UInt64(*x),
            Value::Int8(x) => Value::Int8(*x),
            Value::Int16(x) => Value::Int16(*x),
            Value::Int32(x) => Value::Int32(*x),
            Value::Int64(x) => Value::Int64(*x),
            Value::String(b) => Value::String(copy_bytes(b.as_slice())),
            Value::Nullable(Some(b)) => Value::Nullable(Some(copy_bytes(b.as_slice()))),
            Value::Nullable(None) => Value::Nullable(None),
        }
    }

    /// Whether the two values are equal.
    pub fn same(&self, o: &Value) -> (r: bool)
        ensures
            r == (self@ == o@),
    {
        match (self, o) {
            (Value::UInt8(a), Value::UInt8(b)) => *a == *b,
            (Value::UInt16(a), Value::UInt16(b)) => *a == *b,
            (Value::UInt32(a), Value::UInt32(b)) => *a == *b,
            (Value::UInt64(a), Value::UInt64(b)) => *a == *b,
            (Value::Int8(a), Value::Int8(b)) => *a == *b,
            (Value::Int16(a), Value::Int16(b)) => *a == *b,
            (Value::Int32(a), Value::Int32(b)) => *a == *b,
            (Value::Int64(a), Value::Int64(b)) => *a == *b,
            (Value::String(a), Value::String(b)) => crate::block::bytes_eq(a.as_slice(), b.as_slice()),
            (Value::Nullable(Some(a)), Value::Nullable(Some(b))) => crate::block::bytes_eq(
                a.as_slice(),
                b.as_slice(),
            ),
            (Value::Nullable(None), Value::Nullable(None)) => true,
            _ => false,
        }
    }

    /// The bit pattern of an integer value.
    pub fn int_bits(&self) -> (r: u64)
        ensures
            r as nat == int_bits(self@),
    {
        match self {
            Value::UInt8(x) => *x as u64,
            Value::UInt16(x) => *x as u64,
            Value::UInt32(x) => *x as u64,
            Value::UInt64(x) => *x,
            Value::Int8(x) => (*x as u8) as u64,
            Value::Int16(x) => (*x as u16) as u64,
            Value::Int32(x) => (*x as u32) as u64,
            Value::Int64(x) => *x as u64,
            _ => 0,
        }
    }

    /// The integer value of type `t` with bit pattern `b`.
    pub fn from_bits(t: SqlType, b: u64) -> (r: Value)
        ensures
            r@ == int_from_bits(t, b as nat),
    {
        match t {
            SqlType::UInt8 => Value::UInt8(b as u8),
            SqlType::UInt16 => Value::UInt16(b as u16),
            SqlType::UInt32 => Value::UInt32(b as u32),
            SqlType::UInt64 => Value::UInt64(b),
            SqlType::Int8 => Value::Int8((b as u8) as i8),
            SqlType::Int16 => Value::Int16((b as u16) as i16),
            SqlType::Int32 => Value::Int32((b as u32) as i32),
            _ => Value::Int64(b as i64),
        }
    }
}

/// Appends `src` to `dst`.
pub fn extend_bytes(dst: &mut Vec<u8>, src: &[u8])
    ensures
        final(dst)@ == old(dst)@ + src@,
{
    let mut i: usize = 0;
    while i < src.len()
        invariant
            i <= src@.len(),
            dst@ == old(dst)@ + src@.subrange(0, i as int),
        decreases src@.len() - i,
    {
        dst.push(src[i]);
        i = i + 1;
        assert(dst@ =~= old(dst)@ + src@.subrange(0, i as int));
    }
    assert(src@.subrange(0, i as int) =~= src@);
}

/// A copy of `b`.
pub fn copy_bytes(b: &[u8]) -> (r: Vec<u8>)
    ensures
        r@ == b@,
{
    let mut out: Vec<u8> = Vec::with_capacity(b.len());
    let mut i: usize = 0;
    while i < b.len()
        invariant
            i <= b@.len(),
            out@ == b@.subrange(0, i as int),
        decreases b@.len() - i,
    {
        out.push(b[i]);
        i = i + 1;
        assert(out@ =~= b@.subrange(0, i as int));
    }
    assert(b@.subrange(0, i as int) =~= b@);
    out
}

/// Relies on `String::from_utf8`: it accepts exactly the valid UTF-8 byte
/// sequences, and the string then holds the characters those bytes encode.
#[verifier::external_body]
pub(crate) fn string_from_utf8(b: Vec<u8>) -> (r: Option<String>)
    ensures
        r is Some <==> valid_utf8(b@),
        r matches Some(s) ==> s@ == decode_utf8(b@),
{
    String::from_utf8(b).ok()
}

/// A native type that a cell can be read as.
pub trait FromSql: Sized {
    /// The cell `v` can be read as this type.
    spec fn accepts(v: ValueView) -> bool;

    /// `r` is what the cell `v` reads as.
    spec fn reads_as(v: ValueView, r: Self) -> bool;

    fn from_sql(v: Value) -> (r: Result<Self, FromSqlError>)
        ensures
            Self::accepts(v@) <==> r is Ok,
            r matches Ok(x) ==> Self::reads_as(v@, x),
            !Self::accepts(v@) ==> r == Err::<Self, FromSqlError>(FromSqlError::InvalidType),
    ;
}

/// Any cell reads as itself.
impl FromSql for Value {
    open spec fn accepts(v: ValueView) -> bool {
        true
    }

    open spec fn reads_as(v: ValueView, r: Value) -> bool {
        r@ == v
    }

    fn from_sql(v: Value) -> (r: Result<Value, FromSqlError>) {
        Ok(v)
    }
}

/// A string cell of valid UTF-8 reads as the characters it encodes.
impl FromSql for String {
    open spec fn accepts(v: ValueView) -> bool {
        v is String && valid_utf8(v->String_0)
    }

    open spec fn reads_as(v: ValueView, r: String) -> bool {
        r@ == decode_utf8(v->String_0)
    }

    fn from_sql(v: Value) -> (r: Result<String, FromSqlError>) {
        match v {
            Value::String(b) => match string_from_utf8(b) {
                Some(s) => Ok(s),
                None => Err(FromSqlError::InvalidType),
            },
            _ => Err(FromSqlError::InvalidType),
        }
    }
}

/// A `UInt8` cell reads as its number.
impl FromSql for u8 {
    open spec fn accepts(v: ValueView) -> bool {
        v is UInt8
    }

    open spec fn reads_as(v: ValueView, r: u8) -> bool {
        v == ValueView::UInt8(r)
    }

    fn from_sql(v: Value) -> (r: Result<u8, FromSqlError>) {
        match v {
            Value::UInt8(x) => Ok(x),
            _ => Err(FromSqlError::InvalidType),
        }
    }
}

/// A `UInt16` cell reads as its number.
impl FromSql for u16 {
    open spec fn accepts(v: ValueView) -> bool {
        v is UInt16
    }

    open spec fn reads_as(v: ValueView, r: u16) -> bool {
        v == ValueView::UInt16(r)
    }

    fn from_sql(v: Value) -> (r: Result<u16, FromSqlError>) {
        match v {
            Value::UInt16(x) => Ok(x),
            _ => Err(FromSqlError::InvalidType),
        }
    }
}

/// A `UInt32` cell reads as its number.
impl FromSql for u32 {
    open spec fn accepts(v: ValueView) -> bool {
        v is UInt32
    }

    open spec fn reads_as(v: ValueView, r: u32) -> bool {
        v == ValueView::UInt32(r)
    }

    fn from_sql(v: Value) -> (r: Result<u32, FromSqlError>) {
        match v {
            Value::UInt32(x) => Ok(x),
            _ => Err(FromSqlError::InvalidType),
        }
    }
}

/// A `UInt64` cell reads as its number.
impl FromSql for u64 {
    open spec fn accepts(v: ValueView) -> bool {
        v is UInt64
    }

    open spec fn reads_as(v: ValueView, r: u64) -> bool {
        v == ValueView::UInt64(r)
    }

    fn from_sql(v: Value) -> (r: Result<u64, FromSqlError>) {
        match v {
            Value::UInt64(x) => Ok(x),
            _ => Err(FromSqlError::InvalidType),
        }
    }
}

/// A `Int8` cell reads as its number.
impl FromSql for i8 {
    open spec fn accepts(v: ValueView) -> bool {
        v is Int8
    }

    open spec fn reads_as(v: ValueView, r: i8) -> bool {
        v == ValueView::Int8(r)
    }

    fn from_sql(v: Value) -> (r: Result<i8, FromSqlError>) {
        match v {
            Value::Int8(x) => Ok(x),
            _ => Err(FromSqlError::InvalidType),
        }
    }
}

/// A `Int16` cell reads as its number.
impl FromSql for i16 {
    open spec fn accepts(v: ValueView) -> bool {
        v is Int16
    }

    open spec fn reads_as(v: ValueView, r: i16) -> bool {
        v == ValueView::Int16(r)
    }

    fn from_sql(v: Value) -> (r: Result<i16, FromSqlError>) {
        match v {
            Value::Int16(x) => Ok(x),
            _ => Err(FromSqlError::InvalidType),
        }
    }
}

/// A `Int32` cell reads as its number.
impl FromSql for i32 {
    open spec fn accepts(v: ValueView) -> bool {
        v is Int32
    }

    open spec fn reads_as(v: ValueView, r: i32) -> bool {
        v == ValueView::Int32(r)
    }

    fn from_sql(v: Value) -> (r: Result<i32, FromSqlError>) {
        match v {
            Value::Int32(x) => Ok(x),
            _ => Err(FromSqlError::InvalidType),
        }
    }
}

/// A `Int64` cell reads as its number.
impl FromSql for i64 {
    open spec fn accepts(v: ValueView) -> bool {
        v is Int64
    }

    open spec fn reads_as(v: ValueView, r: i64) -> bool {
        v == ValueView::Int64(r)
    }

    fn from_sql(v: Value) -> (r: Result<i64, FromSqlError>) {
        match v {
            Value::Int64(x) => Ok(x),
            _ => Err(FromSqlError::InvalidType),
        }
    }
}

} // verus!
