use std::rc::Rc;

use vstd::prelude::*;
use vstd::utf8::{decode_utf8, encode_utf8, valid_utf8};

use crate::binary::{
    Encoder, Error, Reader, lemma_le_bound, lemma_p256_mono, lemma_p256_values, parse_bytes, parse_le, parse_string, parse_uvarint, string_bytes,
};
use crate::fixed_string::{FixedStringAdapter, FixedStringColumnData, NullableFixedStringAdapter};
use crate::value::{
    string_from_utf8, SqlType, Value, ValueView, cell_bytes, cell_payload, fit, has_type, int_from_bits, int_width,
    is_nullable, null_flag, type_bytes,
};

verus! {

/// What a column is: its name, its type and its cells.
pub struct ColumnView {
    pub name: Seq<char>,
    pub sql_type: SqlType,
    pub cells: Seq<ValueView>,
}

/// A type whose width, if it has one, is positive.
pub open spec fn valid_type(t: SqlType) -> bool {
    match t {
        SqlType::FixedString(n) | SqlType::NullableFixedString(n) => n > 0,
        _ => true,
    }
}

/// A cell that the encoder can write in a column of type `t`.
pub open spec fn writable(v: ValueView, t: SqlType) -> bool {
    if int_width(t) > 0 {
        has_type(v, t)
    } else {
        v is String || v is Nullable
    }
}

/// The encoded cells, one after the other.
pub open spec fn cells_bytes(t: SqlType, cells: Seq<ValueView>) -> Seq<u8>
    decreases cells.len(),
{
    if cells.len() == 0 {
        Seq::empty()
    } else {
        cells_bytes(t, cells.drop_last()) + cell_bytes(t, cells.last())
    }
}

/// One byte per cell: one for an absent value, zero otherwise.
pub open spec fn null_mask(cells: Seq<ValueView>) -> Seq<u8> {
    cells.map_values(|v: ValueView| null_flag(v))
}

/// The data of a column: for a nullable type its null mask first.
pub open spec fn payload_bytes(t: SqlType, cells: Seq<ValueView>) -> Seq<u8> {
    if is_nullable(t) {
        null_mask(cells) + cells_bytes(t, cells)
    } else {
        cells_bytes(t, cells)
    }
}

/// A whole column on the wire: name, type, then data.
pub open spec fn column_bytes(c: ColumnView) -> Seq<u8> {
    string_bytes(encode_utf8(c.name)) + type_bytes(c.sql_type) + payload_bytes(c.sql_type, c.cells)
}

/// The type whose code is `c`, for the codes that carry no width.
pub open spec fn simple_type(c: u64) -> SqlType {
    if c == 0 {
        SqlType::UInt8
    } else if c == 1 {
        SqlType::UInt16
    } else if c == 2 {
        SqlType::UInt32
    } else if c == 3 {
        SqlType::UInt64
    } else if c == 4 {
        SqlType::Int8
    } else if c == 5 {
        SqlType::Int16
    } else if c == 6 {
        SqlType::Int32
    } else if c == 7 {
        SqlType::Int64
    } else if c == 8 {
        SqlType::String
    } else {
        SqlType::NullableString
    }
}

/// A column type at `pos`.
pub open spec fn parse_type(s: Seq<u8>, pos: int) -> Option<(SqlType, int)> {
    match parse_uvarint(s, pos) {
        Some((c, p)) => if c <= 8 || c == 10 {
            Some((simple_type(c), p))
        } else if c == 9 || c == 11 {
            match parse_uvarint(s, p) {
                Some((n, q)) => if 0 < n && n <= usize::MAX {
                    Some(
                        (
                            if c == 9 {
                                SqlType::FixedString(n as usize)
                            } else {
                                SqlType::NullableFixedString(n as usize)
                            },
                            q,
                        ),
                    )
                } else {
                    None
                },
                None => None,
            }
        } else {
            None
        },
        None => None,
    }
}

/// One cell of type `t` at `pos`; `null` is its flag in the null mask.
pub open spec fn parse_cell(s: Seq<u8>, pos: int, t: SqlType, null: bool) -> Option<(ValueView, int)> {
    match t {
        SqlType::String => match parse_string(s, pos) {
            Some((b, e)) => Some((ValueView::String(b), e)),
            None => None,
        },
        SqlType::NullableString => match parse_string(s, pos) {
            Some((b, e)) => Some(
                (
                    if null {
                        ValueView::Nullable(None)
                    } else {
                        ValueView::Nullable(Some(b))
                    },
                    e,
                ),
            ),
            None => None,
        },
        SqlType::FixedString(n) => match parse_bytes(s, pos, n as nat) {
            Some((b, e)) => Some((ValueView::String(b), e)),
            None => None,
        },
        SqlType::NullableFixedString(n) => match parse_bytes(s, pos, n as nat) {
            Some((b, e)) => Some(
                (
                    if null {
                        ValueView::Nullable(None)
                    } else {
                        ValueView::Nullable(Some(b))
                    },
                    e,
                ),
            ),
            None => None,
        },
        _ => match parse_le(s, pos, int_width(t)) {
            Some((v, e)) => Some((int_from_bits(t, v), e)),
            None => None,
        },
    }
}

/// `k` cells of type `t` at `pos`, with null mask `mask`.
pub open spec fn parse_cells(s: Seq<u8>, pos: int, t: SqlType, mask: Seq<u8>, k: nat) -> Option<
    (Seq<ValueView>, int),
>
    decreases k,
{
    if k == 0 {
        Some((Seq::empty(), pos))
    } else {
        match parse_cells(s, pos, t, mask, (k - 1) as nat) {
            Some((cs, p)) => match parse_cell(s, p, t, mask[k - 1] != 0) {
                Some((c, e)) => Some((cs.push(c), e)),
                None => None,
            },
            None => None,
        }
    }
}

/// The data of `rows` cells of type `t` at `pos`.
pub open spec fn parse_payload(s: Seq<u8>, pos: int, t: SqlType, rows: nat) -> Option<
    (Seq<ValueView>, int),
> {
    if is_nullable(t) {
        match parse_bytes(s, pos, rows) {
            Some((m, p)) => parse_cells(s, p, t, m, rows),
            None => None,
        }
    } else {
        parse_cells(s, pos, t, Seq::new(rows, |i: int| 0u8), rows)
    }
}

/// A whole column of `rows` cells at `pos`.
pub open spec fn parse_column(s: Seq<u8>, pos: int, rows: nat) -> Option<(ColumnView, int)> {
    match parse_string(s, pos) {
        Some((nb, p)) => if valid_utf8(nb) {
            match parse_type(s, p) {
                Some((t, q)) => match parse_payload(s, q, t, rows) {
                    Some((cells, e)) => Some(
                        (ColumnView { name: decode_utf8(nb), sql_type: t, cells }, e),
                    ),
                    None => None,
                },
                None => None,
            }
        } else {
            None
        },
        None => None,
    }
}

/// Values of one SQL type, kept in order.
#[derive(Debug, PartialEq)]
pub struct GenericColumn {
    sql_type: SqlType,
    data: Vec<Value>,
}

impl GenericColumn {
    pub closed spec fn sql_type(&self) -> SqlType {
        self.sql_type
    }

    pub closed spec fn cells(&self) -> Seq<ValueView> {
        self.data@.map_values(|v: Value| v@)
    }

    pub open spec fn wf(&self) -> bool {
        &&& valid_type(self.sql_type())
        &&& !(self.sql_type() is FixedString)
        &&& forall|i: int| 0 <= i < self.cells().len() ==> has_type(#[trigger] self.cells()[i], self.sql_type())
    }

    pub fn new(t: SqlType) -> (r: GenericColumn)
        requires
            valid_type(t),
            !(t is FixedString),
        ensures
            r.wf(),
            r.sql_type() == t,
            r.cells() == Seq::<ValueView>::empty(),
    {
        let r = GenericColumn { sql_type: t, data: Vec::new() };
        assert(r.cells() =~= Seq::<ValueView>::empty());
        r
    }

    pub fn sql_type_of(&self) -> (r: SqlType)
        ensures
            r == self.sql_type(),
    {
        self.sql_type
    }

    pub fn len(&self) -> (r: usize)
        ensures
            r == self.cells().len(),
    {
        self.data.len()
    }

    pub fn push(&mut self, v: Value)
        requires
            old(self).wf(),
            has_type(v@, old(self).sql_type()),
        ensures
            final(self).wf(),
            final(self).sql_type() == old(self).sql_type(),
            final(self).cells() == old(self).cells().push(v@),
    {
        self.data.push(v);
        assert(self.cells() =~= old(self).cells().push(v@));
    }

    pub fn at(&self, index: usize) -> (r: Value)
        requires
            index < self.cells().len(),
        ensures
            r@ == self.cells()[index as int],
    {
        self.data[index].copy()
    }

    /// A column with a copy of values `[start, end)`.
    pub fn slice(&self, start: usize, end: usize) -> (r: GenericColumn)
        requires
            self.wf(),
            start <= end <= self.cells().len(),
        ensures
            r.wf(),
            r.sql_type() == self.sql_type(),
            r.cells() == self.cells().subrange(start as int, end as int),
    {
        let mut r = GenericColumn::new(self.sql_type);
        let mut i: usize = start;
        while i < end
            invariant
                self.wf(),
                start <= i <= end <= self.cells().len(),
                r.wf(),
                r.sql_type() == self.sql_type(),
                r.cells() == self.cells().subrange(start as int, i as int),
            decreases end - i,
        {
            r.push(self.at(i));
            assert(r.cells() =~= self.cells().subrange(start as int, i + 1));
            i = i + 1;
        }
        r
    }
}

/// The storage behind a column.
#[derive(Debug, PartialEq)]
pub enum ColumnData {
    Generic(GenericColumn),
    FixedString(FixedStringColumnData),
    FixedStringAdapter(FixedStringAdapter),
    NullableFixedStringAdapter(NullableFixedStringAdapter),
}

impl ColumnData {
    pub open spec fn wf(&self) -> bool {
        match self {
            ColumnData::Generic(g) => g.wf(),
            ColumnData::FixedString(f) => f.wf(),
            ColumnData::FixedStringAdapter(a) => a.wf(),
            ColumnData::NullableFixedStringAdapter(a) => a.wf(),
        }
    }

    pub open spec fn sql_type(&self) -> SqlType {
        match self {
            ColumnData::Generic(g) => g.sql_type(),
            ColumnData::FixedString(f) => SqlType::FixedString(f.str_len()),
            ColumnData::FixedStringAdapter(a) => SqlType::FixedString(a.str_len()),
            ColumnData::NullableFixedStringAdapter(a) => SqlType::NullableFixedString(
                a.str_len(),
            ),
        }
    }

    pub open spec fn cells(&self) -> Seq<ValueView> {
        match self {
            ColumnData::Generic(g) => g.cells(),
            ColumnData::FixedString(f) => f.cells(),
            ColumnData::FixedStringAdapter(a) => a.inner().cells(),
            ColumnData::NullableFixedStringAdapter(a) => a.inner().cells(),
        }
    }

    /// Storage that holds its own values (not a write-only adapter).
    pub open spec fn is_storage(&self) -> bool {
        self is Generic || self is FixedString
    }

    pub proof fn lemma_writable(&self, i: int)
        requires
            self.wf(),
            0 <= i < self.cells().len(),
        ensures
            writable(self.cells()[i], self.sql_type()),
            self.is_storage() ==> has_type(self.cells()[i], self.sql_type()),
    {
        match self {
            ColumnData::FixedString(f) => {
                f.lemma_cells(i);
            },
            ColumnData::FixedStringAdapter(a) => {
                assert(has_type(a.inner().cells()[i], a.inner().sql_type()));
            },
            ColumnData::NullableFixedStringAdapter(a) => {
                assert(has_type(a.inner().cells()[i], a.inner().sql_type()));
            },
            _ => {},
        }
    }

    /// Empty storage for type `t`.
    pub fn empty(t: SqlType) -> (r: ColumnData)
        requires
            valid_type(t),
        ensures
            r.wf(),
            r.is_storage(),
            r.sql_type() == t,
            r.cells() == Seq::<ValueView>::empty(),
    {
        match t {
            SqlType::FixedString(n) => ColumnData::FixedString(
                FixedStringColumnData::with_capacity(0, n),
            ),
            _ => ColumnData::Generic(GenericColumn::new(t)),
        }
    }

    pub fn sql_type_of(&self) -> (r: SqlType)
        ensures
            r == self.sql_type(),
    {
        match self {
            ColumnData::Generic(g) => g.sql_type_of(),
            ColumnData::FixedString(f) => SqlType::FixedString(f.str_width()),
            ColumnData::FixedStringAdapter(a) => SqlType::FixedString(a.str_width()),
            ColumnData::NullableFixedStringAdapter(a) => SqlType::NullableFixedString(
                a.str_width(),
            ),
        }
    }

    pub fn len(&self) -> (r: usize)
        requires
            self.wf(),
        ensures
            r == self.cells().len(),
    {
        match self {
            ColumnData::Generic(g) => g.len(),
            ColumnData::FixedString(f) => f.len(),
            ColumnData::FixedStringAdapter(a) => a.len(),
            ColumnData::NullableFixedStringAdapter(a) => a.len(),
        }
    }

    pub fn at(&self, index: usize) -> (r: Value)
        requires
            self.wf(),
            index < self.cells().len(),
        ensures
            r@ == self.cells()[index as int],
    {
        match self {
            ColumnData::Generic(g) => g.at(index),
            ColumnData::FixedString(f) => f.at(index),
            ColumnData::FixedStringAdapter(a) => a.at(index),
            ColumnData::NullableFixedStringAdapter(a) => a.at(index),
        }
    }

    /// Appends `v`; a fixed-width storage cuts or pads it to its width.
    /// Adapters take no values.
    pub fn push(&mut self, v: Value)
        requires
            old(self).wf(),
            old(self).is_storage(),
            has_type(v@, old(self).sql_type()),
        ensures
            final(self).wf(),
            final(self).is_storage(),
            final(self).sql_type() == old(self).sql_type(),
            final(self).cells() == old(self).cells().push(v@),
    {
        match self {
            ColumnData::Generic(g) => g.push(v),
            ColumnData::FixedString(f) => {
                proof {
                    assert(fit(cell_payload(v@), f.str_len() as nat) =~= cell_payload(v@));
                }
                f.push(v);
            },
            _ => {},
        }
    }

    /// Storage with the cells `[start, end)` of this one, of the same type.
    pub fn slice(&self, start: usize, end: usize) -> (r: ColumnData)
        requires
            self.wf(),
            start <= end <= self.cells().len(),
        ensures
            r.wf(),
            r.sql_type() == self.sql_type(),
            r.is_storage() == self.is_storage(),
            r.cells() == self.cells().subrange(start as int, end as int),
    {
        match self {
            ColumnData::Generic(g) => ColumnData::Generic(g.slice(start, end)),
            ColumnData::FixedString(f) => ColumnData::FixedString(f.slice(start, end)),
            ColumnData::FixedStringAdapter(a) => ColumnData::FixedStringAdapter(
                a.slice(start, end),
            ),
            ColumnData::NullableFixedStringAdapter(a) => ColumnData::NullableFixedStringAdapter(
                a.slice(start, end),
            ),
        }
    }

    /// Writes the cells `[start, end)`: for a nullable type the null mask of
    /// those cells first, then each cell.
    pub fn save(&self, encoder: &mut Encoder, start: usize, end: usize)
        requires
            self.wf(),
            start <= end <= self.cells().len(),
        ensures
            final(encoder)@ == old(encoder)@ + payload_bytes(
                self.sql_type(),
                self.cells().subrange(start as int, end as int),
            ),
    {
        let t = self.sql_type_of();
        let ghost cells = self.cells();
        if t.is_nullable() {
            let mut i: usize = start;
            while i < end
                invariant
                    self.wf(),
                    cells == self.cells(),
                    start <= i <= end <= cells.len(),
                    encoder@ == old(encoder)@ + null_mask(cells.subrange(start as int, i as int)),
                decreases end - i,
            {
                let v = self.at(i);
                let flag: u8 = if v.is_null() {
                    1
                } else {
                    0
                };
                let one: Vec<u8> = vec![flag];
                encoder.write_bytes(one.as_slice());
                assert(null_mask(cells.subrange(start as int, i + 1)) =~= null_mask(
                    cells.subrange(start as int, i as int),
                ).push(flag));
                i = i + 1;
            }
        }
        let ghost mid = encoder@;
        let mut i: usize = start;
        while i < end
            invariant
                self.wf(),
                cells == self.cells(),
                t == self.sql_type(),
                start <= i <= end <= cells.len(),
                encoder@ == mid + cells_bytes(t, cells.subrange(start as int, i as int)),
            decreases end - i,
        {
            let v = self.at(i);
            proof {
                self.lemma_writable(i as int);
            }
            write_cell(encoder, t, &v);
            assert(cells.subrange(start as int, i + 1).drop_last() =~= cells.subrange(
                start as int,
                i as int,
            ));
            i = i + 1;
        }
    }
}

impl SqlType {
    pub fn is_nullable(&self) -> (r: bool)
        ensures
            r == is_nullable(*self),
    {
        match self {
            SqlType::NullableString | SqlType::NullableFixedString(_) => true,
            _ => false,
        }
    }

    /// Width in bytes of an integer type; zero for the others.
    pub fn int_width(&self) -> (r: usize)
        ensures
            r == int_width(*self),
    {
        match self {
            SqlType::UInt8 | SqlType::Int8 => 1,
            SqlType::UInt16 | SqlType::Int16 => 2,
            SqlType::UInt32 | SqlType::Int32 => 4,
            SqlType::UInt64 | SqlType::Int64 => 8,
            _ => 0,
        }
    }
}

impl Value {
    pub fn is_null(&self) -> (r: bool)
        ensures
            r == (null_flag(self@) == 1),
    {
        match self {
            Value::Nullable(None) => true,
            _ => false,
        }
    }

    /// The bytes of a string or of a present nullable; empty otherwise.
    pub fn payload(&self) -> (r: &[u8])
        ensures
            r@ == cell_payload(self@),
    {
        match self {
            Value::String(b) => b.as_slice(),
            Value::Nullable(Some(b)) => b.as_slice(),
            _ => &[],
        }
    }
}

/// Writes `b` cut or padded with zero bytes to `n` bytes.
pub fn write_fit(encoder: &mut Encoder, b: &[u8], n: usize)
    ensures
        final(encoder)@ == old(encoder)@ + fit(b@, n as nat),
{
    let l: usize = if b.len() < n {
        b.len()
    } else {
        n
    };
    let mut j: usize = 0;
    let mut piece: Vec<u8> = Vec::with_capacity(n);
    while j < l
        invariant
            l <= b@.len(),
            l <= n,
            j <= l,
            piece@ == b@.subrange(0, j as int),
        decreases l - j,
    {
        piece.push(b[j]);
        j = j + 1;
        assert(piece@ =~= b@.subrange(0, j as int));
    }
    while j < n
        invariant
            l <= j <= n,
            l <= b@.len(),
            l == b@.len() || l == n,
            piece@ == b@.subrange(0, l as int) + Seq::new((j - l) as nat, |i: int| 0u8),
        decreases n - j,
    {
        piece.push(0u8);
        j = j + 1;
        assert(piece@ =~= b@.subrange(0, l as int) + Seq::new((j - l) as nat, |i: int| 0u8));
    }
    assert(piece@ =~= fit(b@, n as nat));
    encoder.write_bytes(piece.as_slice());
}

/// Writes one cell of a column of type `t`.
pub fn write_cell(encoder: &mut Encoder, t: SqlType, v: &Value)
    requires
        writable(v@, t),
    ensures
        final(encoder)@ == old(encoder)@ + cell_bytes(t, v@),
{
    match t {
        SqlType::String | SqlType::NullableString => encoder.string(v.payload()),
        SqlType::FixedString(n) | SqlType::NullableFixedString(n) => write_fit(
            encoder,
            v.payload(),
            n,
        ),
        _ => encoder.write_le(v.int_bits(), t.int_width()),
    }
}

/// Reads a column type.
pub fn read_type(reader: &mut Reader) -> (r: Result<SqlType, Error>)
    requires
        old(reader).wf(),
    ensures
        final(reader).wf(),
        final(reader).data() == old(reader).data(),
        match parse_type(old(reader).data(), old(reader).pos()) {
            Some((t, e)) => r == Ok::<SqlType, Error>(t) && final(reader).pos() == e,
            None => r.is_err(),
        },
{
    let c = reader.read_uvarint()?;
    if c <= 8 || c == 10 {
        let t = if c == 0 {
            SqlType::UInt8
        } else if c == 1 {
            SqlType::UInt16
        } else if c == 2 {
            SqlType::UInt32
        } else if c == 3 {
            SqlType::UInt64
        } else if c == 4 {
            SqlType::Int8
        } else if c == 5 {
            SqlType::Int16
        } else if c == 6 {
            SqlType::Int32
        } else if c == 7 {
            SqlType::Int64
        } else if c == 8 {
            SqlType::String
        } else {
            SqlType::NullableString
        };
        Ok(t)
    } else if c == 9 || c == 11 {
        let n = reader.read_uvarint()?;
        if n == 0 || n > usize::MAX as u64 {
            return Err(Error::UnknownType);
        }
        if c == 9 {
            Ok(SqlType::FixedString(n as usize))
        } else {
            Ok(SqlType::NullableFixedString(n as usize))
        }
    } else {
        Err(Error::UnknownType)
    }
}

/// Reads one cell of type `t`; `null` is its flag in the null mask.
pub fn read_cell(reader: &mut Reader, t: SqlType, null: bool) -> (r: Result<Value, Error>)
    requires
        old(reader).wf(),
    ensures
        final(reader).wf(),
        final(reader).data() == old(reader).data(),
        match parse_cell(old(reader).data(), old(reader).pos(), t, null) {
            Some((v, e)) => r.is_ok() && r.unwrap()@ == v && final(reader).pos() == e,
            None => r.is_err(),
        },
{
    match t {
        SqlType::String => {
            let b = reader.read_string()?;
            Ok(Value::String(b))
        },
        SqlType::NullableString => {
            let b = reader.read_string()?;
            if null {
                Ok(Value::Nullable(None))
            } else {
                Ok(Value::Nullable(Some(b)))
            }
        },
        SqlType::FixedString(n) => {
            let b = reader.read_bytes(n)?;
            Ok(Value::String(b))
        },
        SqlType::NullableFixedString(n) => {
            let b = reader.read_bytes(n)?;
            if null {
                Ok(Value::Nullable(None))
            } else {
                Ok(Value::Nullable(Some(b)))
            }
        },
        _ => {
            let ghost s = reader.data();
            let ghost pos = reader.pos();
            let bits = reader.read_le(t.int_width())?;
            proof {
                lemma_le_bound(s.subrange(pos, pos + int_width(t)));
                lemma_p256_mono(int_width(t), 8);
                lemma_p256_values();
            }
            Ok(Value::from_bits(t, bits))
        },
    }
}

/// A named column: a name and shared storage.
#[derive(Debug, Clone, PartialEq)]
pub struct Column {
    name: String,
    data: Rc<ColumnData>,
}

impl View for Column {
    type V = ColumnView;

    closed spec fn view(&self) -> ColumnView {
        ColumnView { name: self.name@, sql_type: self.data.sql_type(), cells: self.data.cells() }
    }
}

/// Relies on `Rc::clone`: the new handle points to the same value.
#[verifier::external_body]
fn share<T>(r: &Rc<T>) -> (s: Rc<T>)
    ensures
        *s == **r,
{
    Rc::clone(r)
}

/// A column named `name` over `data`.
pub fn new_column(name: &str, data: ColumnData) -> (r: Column)
    requires
        data.wf(),
    ensures
        r.wf(),
        r@ == (ColumnView { name: name@, sql_type: data.sql_type(), cells: data.cells() }),
        r.is_storage() == data.is_storage(),
{
    Column { name: name.to_string(), data: Rc::new(data) }
}

impl Column {
    pub closed spec fn wf(&self) -> bool {
        self.data.wf()
    }

    /// The column holds its own values (it is not a write-only adapter).
    pub closed spec fn is_storage(&self) -> bool {
        self.data.is_storage()
    }

    pub proof fn lemma_wf(&self, i: int)
        requires
            self.wf(),
            0 <= i < self@.cells.len(),
        ensures
            valid_type(self@.sql_type),
            self.is_storage() ==> has_type(self@.cells[i], self@.sql_type),
    {
        self.data.lemma_writable(i);
        self.lemma_valid_type();
        match &*self.data {
            ColumnData::Generic(g) => {},
            ColumnData::FixedString(f) => {
                f.lemma_cells(i);
            },
            ColumnData::FixedStringAdapter(a) => {},
            ColumnData::NullableFixedStringAdapter(a) => {},
        }
    }

    pub proof fn lemma_valid_type(&self)
        requires
            self.wf(),
        ensures
            valid_type(self@.sql_type),
    {
        match &*self.data {
            ColumnData::FixedString(f) => {
                f.lemma_cells_wf();
            },
            _ => {},
        }
    }

    pub fn name(&self) -> (r: &str)
        ensures
            r@ == self@.name,
    {
        self.name.as_str()
    }

    pub fn sql_type(&self) -> (r: SqlType)
        ensures
            r == self@.sql_type,
    {
        self.data.sql_type_of()
    }

    pub fn len(&self) -> (r: usize)
        requires
            self.wf(),
        ensures
            r == self@.cells.len(),
    {
        self.data.len()
    }

    pub fn at(&self, index: usize) -> (r: Value)
        requires
            self.wf(),
            index < self@.cells.len(),
        ensures
            r@ == self@.cells[index as int],
    {
        self.data.at(index)
    }

    /// Another handle on the same storage.
    pub fn share(&self) -> (r: Column)
        ensures
            r@ == self@,
            r.wf() == self.wf(),
            r.is_storage() == self.is_storage(),
    {
        Column { name: self.name.as_str().to_string(), data: share(&self.data) }
    }

    /// A column of the same name and type holding the cells `[start, end)`.
    pub fn slice(&self, start: usize, end: usize) -> (r: Column)
        requires
            self.wf(),
            start <= end <= self@.cells.len(),
        ensures
            r.wf(),
            r.is_storage() == self.is_storage(),
            r@ == (ColumnView {
                name: self@.name,
                sql_type: self@.sql_type,
                cells: self@.cells.subrange(start as int, end as int),
            }),
    {
        Column { name: self.name.as_str().to_string(), data: Rc::new(self.data.slice(start, end)) }
    }

    /// Writes name, type and every cell.
    pub fn write(&self, encoder: &mut Encoder)
        requires
            self.wf(),
        ensures
            final(encoder)@ == old(encoder)@ + column_bytes(self@),
    {
        encoder.string(self.name.as_str().as_bytes());
        write_type(encoder, self.data.sql_type_of());
        let n = self.data.len();
        self.data.save(encoder, 0, n);
        assert(self@.cells.subrange(0, n as int) =~= self@.cells);
        assert(final(encoder)@ =~= old(encoder)@ + column_bytes(self@));
    }

    /// Reads a column of `rows` cells.
    pub fn read(reader: &mut Reader, rows: usize) -> (r: Result<Column, Error>)
        requires
            old(reader).wf(),
        ensures
            final(reader).wf(),
            final(reader).data() == old(reader).data(),
            match parse_column(old(reader).data(), old(reader).pos(), rows as nat) {
                Some((c, e)) => r.is_ok() && r.unwrap()@ == c && r.unwrap().wf()
                    && r.unwrap().is_storage() && final(reader).pos() == e,
                None => r.is_err(),
            },
    {
        let ghost s = reader.data();
        let name_bytes = reader.read_string()?;
        let name = match string_from_utf8(name_bytes) {
            Some(n) => n,
            None => {
                return Err(Error::InvalidName);
            },
        };
        let t = read_type(reader)?;
        assert(valid_type(t));
        let ghost q = reader.pos();
        let mut data = ColumnData::empty(t);
        let nullable = t.is_nullable();
        let mask: Vec<u8> = if nullable {
            reader.read_bytes(rows)?
        } else {
            Vec::new()
        };
        let ghost m = if nullable {
            mask@
        } else {
            Seq::new(rows as nat, |i: int| 0u8)
        };
        let ghost p = reader.pos();
        assert(parse_payload(s, q, t, rows as nat) == parse_cells(s, p, t, m, rows as nat));
        assert(parse_cells(s, p, t, m, 0) == Some((Seq::<ValueView>::empty(), p)));
        let ghost whole = match parse_cells(s, p, t, m, rows as nat) {
            Some((cells, e)) => Some((ColumnView { name: name@, sql_type: t, cells }, e)),
            None => None,
        };
        assert(parse_column(s, old(reader).pos(), rows as nat) == whole);
        let mut i: usize = 0;
        while i < rows
            invariant
                reader.wf(),
                reader.data() == s,
                s == old(reader).data(),
                valid_type(t),
                parse_column(s, old(reader).pos(), rows as nat) == whole,
                whole == match parse_cells(s, p, t, m, rows as nat) {
                    Some((cells, e)) => Some((ColumnView { name: name@, sql_type: t, cells }, e)),
                    None => None,
                },
                i <= rows,
                data.wf(),
                data.is_storage(),
                data.sql_type() == t,
                nullable == is_nullable(t),
                nullable ==> mask@ == m,
                m.len() == rows,
                parse_cells(s, p, t, m, i as nat) == Some((data.cells(), reader.pos())),
            decreases rows - i,
        {
            let null = nullable && mask[i] != 0;
            assert(null == (is_nullable(t) && m[i as int] != 0));
            let ghost before = reader.pos();
            let v = read_cell(reader, t, null);
            match v {
                Ok(v) => {
                    proof {
                        lemma_parsed_has_type(s, before, t, null);
                    }
                    data.push(v);
                },
                Err(e) => {
                    proof {
                        assert(parse_cells(s, p, t, m, (i + 1) as nat) is None);
                        lemma_prefix_fails(s, p, t, m, (i + 1) as nat, rows as nat);
                    }
                    return Err(e);
                },
            }
            i = i + 1;
        }
        Ok(Column { name, data: Rc::new(data) })
    }
}

/// Writes a column type.
pub fn write_type(encoder: &mut Encoder, t: SqlType)
    ensures
        final(encoder)@ == old(encoder)@ + type_bytes(t),
{
    match t {
        SqlType::UInt8 => encoder.uvarint(0),
        SqlType::UInt16 => encoder.uvarint(1),
        SqlType::UInt32 => encoder.uvarint(2),
        SqlType::UInt64 => encoder.uvarint(3),
        SqlType::Int8 => encoder.uvarint(4),
        SqlType::Int16 => encoder.uvarint(5),
        SqlType::Int32 => encoder.uvarint(6),
        SqlType::Int64 => encoder.uvarint(7),
        SqlType::String => encoder.uvarint(8),
        SqlType::FixedString(n) => {
            encoder.uvarint(9);
            encoder.uvarint(n as u64);
            assert(final(encoder)@ =~= old(encoder)@ + type_bytes(t));
        },
        SqlType::NullableString => encoder.uvarint(10),
        SqlType::NullableFixedString(n) => {
            encoder.uvarint(11);
            encoder.uvarint(n as u64);
            assert(final(encoder)@ =~= old(encoder)@ + type_bytes(t));
        },
    }
}

/// What the parser reads as a cell of type `t` has that type.
proof fn lemma_parsed_has_type(s: Seq<u8>, pos: int, t: SqlType, null: bool)
    requires
        valid_type(t),
        parse_cell(s, pos, t, null) is Some,
    ensures
        has_type(parse_cell(s, pos, t, null)->Some_0.0, t),
{
}

/// Where `k` cells cannot be read, no more than `k` can.
proof fn lemma_prefix_fails(s: Seq<u8>, pos: int, t: SqlType, m: Seq<u8>, k: nat, n: nat)
    requires
        k <= n,
        parse_cells(s, pos, t, m, k) is None,
    ensures
        parse_cells(s, pos, t, m, n) is None,
    decreases n - k,
{
    if k < n {
        lemma_prefix_fails(s, pos, t, m, k + 1, n);
    }
}

/// What the parser reads as `k` cells has `k` cells.
pub proof fn lemma_parse_cells_len(s: Seq<u8>, pos: int, t: SqlType, m: Seq<u8>, k: nat)
    requires
        parse_cells(s, pos, t, m, k) is Some,
    ensures
        parse_cells(s, pos, t, m, k)->Some_0.0.len() == k,
    decreases k,
{
    if k > 0 {
        lemma_parse_cells_len(s, pos, t, m, (k - 1) as nat);
    }
}

/// What the parser reads as a column of `rows` cells has `rows` cells.
pub proof fn lemma_parse_column_len(s: Seq<u8>, pos: int, rows: nat)
    requires
        parse_column(s, pos, rows) is Some,
    ensures
        parse_column(s, pos, rows)->Some_0.0.cells.len() == rows,
{
    let (nb, p) = parse_string(s, pos)->Some_0;
    let (t, q) = parse_type(s, p)->Some_0;
    if is_nullable(t) {
        let (m, p2) = parse_bytes(s, q, rows)->Some_0;
        lemma_parse_cells_len(s, p2, t, m, rows);
    } else {
        lemma_parse_cells_len(s, q, t, Seq::new(rows, |i: int| 0u8), rows);
    }
}

/// Builds a column storage from a sequence of native values.
pub trait ColumnFrom: Sized {
    /// The SQL type of the storage built.
    spec fn column_type(&self) -> SqlType;

    /// The cells of the storage built.
    spec fn column_cells(&self) -> Seq<ValueView>;

    fn column_from(self) -> (r: ColumnData)
        ensures
            r.wf(),
            r.is_storage(),
            r.sql_type() == self.column_type(),
            r.cells() == self.column_cells(),
    ;
}

impl ColumnFrom for Vec<u8> {
    open spec fn column_type(&self) -> SqlType {
        SqlType::UInt8
    }

    open spec fn column_cells(&self) -> Seq<ValueView> {
        self@.map_values(|x: u8| ValueView::UInt8(x))
    }

    fn column_from(self) -> (r: ColumnData) {
        let mut g = GenericColumn::new(SqlType::UInt8);
        let mut i: usize = 0;
        while i < self.len()
            invariant
                i <= self@.len(),
                g.wf(),
                g.sql_type() == SqlType::UInt8,
                g.cells() == self@.subrange(0, i as int).map_values(|x: u8| ValueView::UInt8(x)),
            decreases self@.len() - i,
        {
            g.push(Value::UInt8(self[i]));
            i = i + 1;
            assert(g.cells() =~= self@.subrange(0, i as int).map_values(|x: u8| ValueView::UInt8(x)));
        }
        assert(self@.subrange(0, i as int) =~= self@);
        ColumnData::Generic(g)
    }
}

impl ColumnFrom for Vec<u16> {
    open spec fn column_type(&self) -> SqlType {
        SqlType::UInt16
    }

    open spec fn column_cells(&self) -> Seq<ValueView> {
        self@.map_values(|x: u16| ValueView::UInt16(x))
    }

    fn column_from(self) -> (r: ColumnData) {
        let mut g = GenericColumn::new(SqlType::UInt16);
        let mut i: usize = 0;
        while i < self.len()
            invariant
                i <= self@.len(),
                g.wf(),
                g.sql_type() == SqlType::UInt16,
                g.cells() == self@.subrange(0, i as int).map_values(|x: u16| ValueView::UInt16(x)),
            decreases self@.len() - i,
        {
            g.push(Value::UInt16(self[i]));
            i = i + 1;
            assert(g.cells() =~= self@.subrange(0, i as int).map_values(|x: u16| ValueView::UInt16(x)));
        }
        assert(self@.subrange(0, i as int) =~= self@);
        ColumnData::Generic(g)
    }
}

impl ColumnFrom for Vec<u32> {
    open spec fn column_type(&self) -> SqlType {
        SqlType::UInt32
    }

    open spec fn column_cells(&self) -> Seq<ValueView> {
        self@.map_values(|x: u32| ValueView::UInt32(x))
    }

    fn column_from(self) -> (r: ColumnData) {
        let mut g = GenericColumn::new(SqlType::UInt32);
        let mut i: usize = 0;
        while i < self.len()
            invariant
                i <= self@.len(),
                g.wf(),
                g.sql_type() == SqlType::UInt32,
                g.cells() == self@.subrange(0, i as int).map_values(|x: u32| ValueView::UInt32(x)),
            decreases self@.len() - i,
        {
            g.push(Value::UInt32(self[i]));
            i = i + 1;
            assert(g.cells() =~= self@.subrange(0, i as int).map_values(|x: u32| ValueView::UInt32(x)));
        }
        assert(self@.subrange(0, i as int) =~= self@);
        ColumnData::Generic(g)
    }
}

impl ColumnFrom for Vec<u64> {
    open spec fn column_type(&self) -> SqlType {
        SqlType::UInt64
    }

    open spec fn column_cells(&self) -> Seq<ValueView> {
        self@.map_values(|x: u64| ValueView::UInt64(x))
    }

    fn column_from(self) -> (r: ColumnData) {
        let mut g = GenericColumn::new(SqlType::UInt64);
        let mut i: usize = 0;
        while i < self.len()
            invariant
                i <= self@.len(),
                g.wf(),
                g.sql_type() == SqlType::UInt64,
                g.cells() == self@.subrange(0, i as int).map_values(|x: u64| ValueView::UInt64(x)),
            decreases self@.len() - i,
        {
            g.push(Value::UInt64(self[i]));
            i = i + 1;
            assert(g.cells() =~= self@.subrange(0, i as int).map_values(|x: u64| ValueView::UInt64(x)));
        }
        assert(self@.subrange(0, i as int) =~= self@);
        ColumnData::Generic(g)
    }
}

impl ColumnFrom for Vec<i8> {
    open spec fn column_type(&self) -> SqlType {
        SqlType::Int8
    }

    open spec fn column_cells(&self) -> Seq<ValueView> {
        self@.map_values(|x: i8| ValueView::Int8(x))
    }

    fn column_from(self) -> (r: ColumnData) {
        let mut g = GenericColumn::new(SqlType::Int8);
        let mut i: usize = 0;
        while i < self.len()
            invariant
                i <= self@.len(),
                g.wf(),
                g.sql_type() == SqlType::Int8,
                g.cells() == self@.subrange(0, i as int).map_values(|x: i8| ValueView::Int8(x)),
            decreases self@.len() - i,
        {
            g.push(Value::Int8(self[i]));
            i = i + 1;
            assert(g.cells() =~= self@.subrange(0, i as int).map_values(|x: i8| ValueView::Int8(x)));
        }
        assert(self@.subrange(0, i as int) =~= self@);
        ColumnData::Generic(g)
    }
}

impl ColumnFrom for Vec<i16> {
    open spec fn column_type(&self) -> SqlType {
        SqlType::Int16
    }

    open spec fn column_cells(&self) -> Seq<ValueView> {
        self@.map_values(|x: i16| ValueView::Int16(x))
    }

    fn column_from(self) -> (r: ColumnData) {
        let mut g = GenericColumn::new(SqlType::Int16);
        let mut i: usize = 0;
        while i < self.len()
            invariant
                i <= self@.len(),
                g.wf(),
                g.sql_type() == SqlType::Int16,
                g.cells() == self@.subrange(0, i as int).map_values(|x: i16| ValueView::Int16(x)),
            decreases self@.len() - i,
        {
            g.push(Value::Int16(self[i]));
            i = i + 1;
            assert(g.cells() =~= self@.subrange(0, i as int).map_values(|x: i16| ValueView::Int16(x)));
        }
        assert(self@.subrange(0, i as int) =~= self@);
        ColumnData::Generic(g)
    }
}

impl ColumnFrom for Vec<i32> {
    open spec fn column_type(&self) -> SqlType {
        SqlType::Int32
    }

    open spec fn column_cells(&self) -> Seq<ValueView> {
        self@.map_values(|x: i32| ValueView::Int32(x))
    }

    fn column_from(self) -> (r: ColumnData) {
        let mut g = GenericColumn::new(SqlType::Int32);
        let mut i: usize = 0;
        while i < self.len()
            invariant
                i <= self@.len(),
                g.wf(),
                g.sql_type() == SqlType::Int32,
                g.cells() == self@.subrange(0, i as int).map_values(|x: i32| ValueView::Int32(x)),
            decreases self@.len() - i,
        {
            g.push(Value::Int32(self[i]));
            i = i + 1;
            assert(g.cells() =~= self@.subrange(0, i as int).map_values(|x: i32| ValueView::Int32(x)));
        }
        assert(self@.subrange(0, i as int) =~= self@);
        ColumnData::Generic(g)
    }
}

impl ColumnFrom for Vec<i64> {
    open spec fn column_type(&self) -> SqlType {
        SqlType::Int64
    }

    open spec fn column_cells(&self) -> Seq<ValueView> {
        self@.map_values(|x: i64| ValueView::Int64(x))
    }

    fn column_from(self) -> (r: ColumnData) {
        let mut g = GenericColumn::new(SqlType::Int64);
        let mut i: usize = 0;
        while i < self.len()
            invariant
                i <= self@.len(),
                g.wf(),
                g.sql_type() == SqlType::Int64,
                g.cells() == self@.subrange(0, i as int).map_values(|x: i64| ValueView::Int64(x)),
            decreases self@.len() - i,
        {
            g.push(Value::Int64(self[i]));
            i = i + 1;
            assert(g.cells() =~= self@.subrange(0, i as int).map_values(|x: i64| ValueView::Int64(x)));
        }
        assert(self@.subrange(0, i as int) =~= self@);
        ColumnData::Generic(g)
    }
}

impl ColumnFrom for Vec<String> {
    open spec fn column_type(&self) -> SqlType {
        SqlType::String
    }

    open spec fn column_cells(&self) -> Seq<ValueView> {
        self@.map_values(|x: String| ValueView::String(encode_utf8(x@)))
    }

    fn column_from(self) -> (r: ColumnData) {
        let mut g = GenericColumn::new(SqlType::String);
        let mut i: usize = 0;
        while i < self.len()
            invariant
                i <= self@.len(),
                g.wf(),
                g.sql_type() == SqlType::String,
                g.cells() == self@.subrange(0, i as int).map_values(|x: String| ValueView::String(encode_utf8(x@))),
            decreases self@.len() - i,
        {
            g.push(Value::String(crate::value::copy_bytes(self[i].as_str().as_bytes())));
            i = i + 1;
            assert(g.cells() =~= self@.subrange(0, i as int).map_values(|x: String| ValueView::String(encode_utf8(x@))));
        }
        assert(self@.subrange(0, i as int) =~= self@);
        ColumnData::Generic(g)
    }
}

impl<'a> ColumnFrom for Vec<&'a str> {
    open spec fn column_type(&self) -> SqlType {
        SqlType::String
    }

    open spec fn column_cells(&self) -> Seq<ValueView> {
        self@.map_values(|x: &'a str| ValueView::String(encode_utf8(x@)))
    }

    fn column_from(self) -> (r: ColumnData) {
        let mut g = GenericColumn::new(SqlType::String);
        let mut i: usize = 0;
        while i < self.len()
            invariant
                i <= self@.len(),
                g.wf(),
                g.sql_type() == SqlType::String,
                g.cells() == self@.subrange(0, i as int).map_values(|x: &'a str| ValueView::String(encode_utf8(x@))),
            decreases self@.len() - i,
        {
            g.push(Value::String(crate::value::copy_bytes(self[i].as_bytes())));
            i = i + 1;
            assert(g.cells() =~= self@.subrange(0, i as int).map_values(|x: &'a str| ValueView::String(encode_utf8(x@))));
        }
        assert(self@.subrange(0, i as int) =~= self@);
        ColumnData::Generic(g)
    }
}

} // verus!
