use vstd::prelude::*;

use crate::binary::{Error, Reader, lemma_subrange_join, parse_bytes};
use std::rc::Rc;

use crate::column::GenericColumn;
use crate::value::{SqlType, Value, ValueView, cell_payload, extend_bytes, fit};

verus! {

/// The cells of a flat buffer cut into pieces of `n` bytes.
pub open spec fn fixed_cells(buf: Seq<u8>, n: nat) -> Seq<ValueView> {
    Seq::new(buf.len() / n, |i: int| ValueView::String(buf.subrange(i * n, i * n + n)))
}

/// Strings of one fixed width `str_len`, kept end to end in one buffer:
/// element `i` takes bytes `[i * str_len, (i + 1) * str_len)`.
#[derive(Debug, PartialEq)]
pub struct FixedStringColumnData {
    buffer: Vec<u8>,
    str_len: usize,
}

proof fn lemma_index_bound(i: int, k: int, n: int)
    requires
        0 <= i < k,
        0 < n,
    ensures
        0 <= i * n,
        i * n + n <= k * n,
{
    assert(i * n + n <= k * n) by (nonlinear_arith)
        requires
            0 <= i < k,
            0 < n,
    ;
    assert(0 <= i * n) by (nonlinear_arith)
        requires
            0 <= i,
            0 < n,
    ;
}

impl FixedStringColumnData {
    pub closed spec fn wf(&self) -> bool {
        &&& self.str_len > 0
        &&& self.buffer@.len() == (self.buffer@.len() / (self.str_len as nat)) * self.str_len
    }

    pub closed spec fn str_len(&self) -> usize {
        self.str_len
    }

    /// Size of the buffer in bytes.
    pub closed spec fn byte_len(&self) -> nat {
        self.buffer@.len()
    }

    pub closed spec fn cells(&self) -> Seq<ValueView> {
        fixed_cells(self.buffer@, self.str_len as nat)
    }

    pub proof fn lemma_cells(&self, i: int)
        requires
            self.wf(),
            0 <= i < self.cells().len(),
        ensures
            self.cells()[i] is String,
            self.cells()[i]->String_0.len() == self.str_len(),
    {
        lemma_index_bound(i, self.cells().len() as int, self.str_len as int);
    }

    pub proof fn lemma_cells_wf(&self)
        requires
            self.wf(),
        ensures
            self.str_len() > 0,
    {
    }

    /// An empty column of width `str_len`; `capacity` is a hint for the number of elements.
    pub fn with_capacity(capacity: usize, str_len: usize) -> (r: Self)
        requires
            str_len > 0,
        ensures
            r.wf(),
            r.str_len() == str_len,
            r.byte_len() == 0,
            r.cells() == Seq::<ValueView>::empty(),
    {
        let bytes: usize = match capacity.checked_mul(str_len) {
            Some(b) => b,
            None => 0,
        };
        let r = Self { buffer: Vec::with_capacity(bytes), str_len };
        assert(r.cells() =~= Seq::<ValueView>::empty());
        r
    }

    /// Reads `size` elements of `str_len` bytes each.
    pub fn load(reader: &mut Reader, size: usize, str_len: usize) -> (r: Result<Self, Error>)
        requires
            old(reader).wf(),
            str_len > 0,
        ensures
            final(reader).wf(),
            final(reader).data() == old(reader).data(),
            match parse_bytes(old(reader).data(), old(reader).pos(), size as nat * str_len as nat) {
                Some((b, e)) => r.is_ok() && r.unwrap().wf() && r.unwrap().str_len() == str_len
                    && r.unwrap().cells() == fixed_cells(b, str_len as nat) && final(reader).pos()
                    == e,
                None => r.is_err(),
            },
    {
        let mut instance = Self::with_capacity(size, str_len);
        let ghost s = reader.data();
        let ghost start = reader.pos();
        let mut i: usize = 0;
        assert(instance.buffer@ =~= s.subrange(start, start));
        while i < size
            invariant
                reader.wf(),
                reader.data() == s,
                s == old(reader).data(),
                start == old(reader).pos(),
                i <= size,
                instance.str_len == str_len,
                str_len > 0,
                reader.pos() == start + i * str_len,
                0 <= start <= reader.pos(),
                instance.buffer@ == s.subrange(start, reader.pos()),
                instance.buffer@.len() == i * str_len,
            decreases size - i,
        {
            let ghost p = reader.pos();
            let piece = reader.read_bytes(str_len);
            match piece {
                Ok(bytes) => {
                    extend_bytes(&mut instance.buffer, &bytes);
                    proof {
                        lemma_subrange_join(s, start, p, p + str_len as int);
                    }
                    assert(instance.buffer@ =~= s.subrange(start, reader.pos()));
                    assert((i + 1) * str_len == i * str_len + str_len) by (nonlinear_arith);
                    assert(0 <= i * str_len) by (nonlinear_arith);
                },
                Err(e) => {
                    proof {
                        assert(i * str_len + str_len <= size * str_len) by (nonlinear_arith)
                            requires
                                i < size,
                        ;
                    }
                    return Err(e);
                },
            }
            i = i + 1;
        }
        proof {
            vstd::arithmetic::div_mod::lemma_div_by_multiple(size as int, str_len as int);
        }
        Ok(instance)
    }

    pub fn len(&self) -> (r: usize)
        requires
            self.wf(),
        ensures
            r == self.cells().len(),
    {
        self.buffer.len() / self.str_len
    }

    pub fn str_width(&self) -> (r: usize)
        ensures
            r == self.str_len(),
    {
        self.str_len
    }

    /// Appends the bytes of `value`, cut to `str_len` bytes or padded with zero bytes
    /// up to it: bytes past the width are dropped.
    pub fn push(&mut self, value: Value)
        requires
            old(self).wf(),
            value@ is String,
        ensures
            final(self).wf(),
            final(self).str_len() == old(self).str_len(),
            final(self).cells() == old(self).cells().push(
                ValueView::String(fit(cell_payload(value@), old(self).str_len() as nat)),
            ),
    {
        let ghost old_buf = self.buffer@;
        let ghost n = self.str_len as nat;
        let ghost k = old_buf.len() / n;
        let bs = match value {
            Value::String(b) => b,
            _ => Vec::new(),
        };
        let l: usize = if bs.len() < self.str_len {
            bs.len()
        } else {
            self.str_len
        };
        let mut j: usize = 0;
        while j < l
            invariant
                l <= bs@.len(),
                j <= l,
                self.str_len == n,
                self.buffer@ == old_buf + bs@.subrange(0, j as int),
            decreases l - j,
        {
            self.buffer.push(bs[j]);
            j = j + 1;
            assert(self.buffer@ =~= old_buf + bs@.subrange(0, j as int));
        }
        while j < self.str_len
            invariant
                l <= j <= n,
                self.str_len == n,
                self.buffer@ == old_buf + bs@.subrange(0, l as int) + Seq::new(
                    (j - l) as nat,
                    |i: int| 0u8,
                ),
            decreases n - j,
        {
            self.buffer.push(0u8);
            j = j + 1;
            assert(self.buffer@ =~= old_buf + bs@.subrange(0, l as int) + Seq::new(
                (j - l) as nat,
                |i: int| 0u8,
            ));
        }
        let ghost piece = fit(bs@, n);
        assert(self.buffer@ =~= old_buf + piece);
        proof {
            assert(k * n + n == (k + 1) * n) by (nonlinear_arith);
            vstd::arithmetic::div_mod::lemma_div_by_multiple((k + 1) as int, n as int);
            let c = self.cells();
            let o = fixed_cells(old_buf, n).push(ValueView::String(piece));
            assert forall|i: int| 0 <= i < c.len() implies c[i] == o[i] by {
                lemma_index_bound(i, (k + 1) as int, n as int);
                if i < k {
                    lemma_index_bound(i, k as int, n as int);
                    assert(self.buffer@.subrange(i * n, i * n + n) =~= old_buf.subrange(
                        i * n,
                        i * n + n,
                    ));
                } else {
                    assert(self.buffer@.subrange(i * n, i * n + n) =~= piece);
                }
            }
            assert(c =~= o);
        }
    }

    /// A copy of element `index`: exactly `str_len` bytes.
    pub fn at(&self, index: usize) -> (r: Value)
        requires
            self.wf(),
            index < self.cells().len(),
        ensures
            r@ == self.cells()[index as int],
            r@ is String,
            r@->String_0.len() == self.str_len(),
    {
        let n = self.str_len;
        let total = self.buffer.len();
        proof {
            lemma_index_bound(index as int, (self.buffer@.len() / (n as nat)) as int, n as int);
        }
        let shift = index * n;
        let mut out: Vec<u8> = Vec::with_capacity(n);
        let mut j: usize = 0;
        while j < n
            invariant
                j <= n,
                shift + n <= self.buffer@.len(),
                total == self.buffer@.len(),
                out@ == self.buffer@.subrange(shift as int, shift + j),
            decreases n - j,
        {
            out.push(self.buffer[shift + j]);
            j = j + 1;
            assert(out@ =~= self.buffer@.subrange(shift as int, shift + j));
        }
        Value::String(out)
    }

    /// A column with a copy of elements `[start, end)`.
    pub fn slice(&self, start: usize, end: usize) -> (r: Self)
        requires
            self.wf(),
            start <= end <= self.cells().len(),
        ensures
            r.wf(),
            r.str_len() == self.str_len(),
            r.cells() == self.cells().subrange(start as int, end as int),
    {
        let mut r = Self::with_capacity(end - start, self.str_len);
        let mut i: usize = start;
        while i < end
            invariant
                self.wf(),
                start <= i <= end <= self.cells().len(),
                r.wf(),
                r.str_len() == self.str_len(),
                r.buffer@.len() == (i - start) * self.str_len,
                r.cells() == self.cells().subrange(start as int, i as int),
            decreases end - i,
        {
            let v = self.at(i);
            proof {
                let n = self.str_len as int;
                lemma_index_bound((i - start) as int, (end - start) as int, n);
                lemma_index_bound(end - 1, (self.buffer@.len() / (n as nat)) as int, n);
                assert((end - start) * n <= self.buffer@.len()) by (nonlinear_arith)
                    requires
                        end - start <= end <= self.buffer@.len() / (n as nat),
                        n > 0,
                        self.buffer@.len() == (self.buffer@.len() / (n as nat)) * n,
                ;
                assert(fit(cell_payload(v@), self.str_len() as nat) =~= cell_payload(v@));
            }
            r.push(v);
            assert(r.cells() =~= self.cells().subrange(start as int, i + 1));
            proof {
                assert((i + 1 - start) * self.str_len == (i - start) * self.str_len
                    + self.str_len) by (nonlinear_arith);
            }
            i = i + 1;
        }
        r
    }
}

/// A string column written as fixed-width strings of `str_len` bytes, each cut
/// or padded with zero bytes. It shares the wrapped column and takes no values.
#[derive(Debug, PartialEq)]
pub struct FixedStringAdapter {
    column: Rc<GenericColumn>,
    str_len: usize,
}

/// A string or nullable string column written as nullable fixed-width strings:
/// a null mask, then each value cut or padded to `str_len` bytes (zero bytes
/// where absent). It shares the wrapped column and takes no values.
#[derive(Debug, PartialEq)]
pub struct NullableFixedStringAdapter {
    column: Rc<GenericColumn>,
    str_len: usize,
}

impl FixedStringAdapter {
    pub closed spec fn inner(&self) -> GenericColumn {
        *self.column
    }

    pub closed spec fn str_len(&self) -> usize {
        self.str_len
    }

    pub open spec fn wf(&self) -> bool {
        &&& self.inner().wf()
        &&& self.inner().sql_type() == SqlType::String
        &&& self.str_len() > 0
    }

    pub fn new(column: Rc<GenericColumn>, str_len: usize) -> (r: Self)
        requires
            column.wf(),
            column.sql_type() == SqlType::String,
            str_len > 0,
        ensures
            r.wf(),
            r.inner() == *column,
            r.str_len() == str_len,
    {
        FixedStringAdapter { column, str_len }
    }

    pub fn str_width(&self) -> (r: usize)
        ensures
            r == self.str_len(),
    {
        self.str_len
    }

    pub fn len(&self) -> (r: usize)
        ensures
            r == self.inner().cells().len(),
    {
        self.column.len()
    }

    pub fn at(&self, index: usize) -> (r: Value)
        requires
            index < self.inner().cells().len(),
        ensures
            r@ == self.inner().cells()[index as int],
    {
        self.column.at(index)
    }

    pub fn slice(&self, start: usize, end: usize) -> (r: Self)
        requires
            self.wf(),
            start <= end <= self.inner().cells().len(),
        ensures
            r.wf(),
            r.str_len() == self.str_len(),
            r.inner().cells() == self.inner().cells().subrange(start as int, end as int),
    {
        FixedStringAdapter { column: Rc::new(self.column.slice(start, end)), str_len: self.str_len }
    }
}

impl NullableFixedStringAdapter {
    pub closed spec fn inner(&self) -> GenericColumn {
        *self.column
    }

    pub closed spec fn str_len(&self) -> usize {
        self.str_len
    }

    pub open spec fn wf(&self) -> bool {
        &&& self.inner().wf()
        &&& (self.inner().sql_type() == SqlType::String || self.inner().sql_type()
            == SqlType::NullableString)
        &&& self.str_len() > 0
    }

    pub fn new(column: Rc<GenericColumn>, str_len: usize) -> (r: Self)
        requires
            column.wf(),
            column.sql_type() == SqlType::String || column.sql_type() == SqlType::NullableString,
            str_len > 0,
        ensures
            r.wf(),
            r.inner() == *column,
            r.str_len() == str_len,
    {
        NullableFixedStringAdapter { column, str_len }
    }

    pub fn str_width(&self) -> (r: usize)
        ensures
            r == self.str_len(),
    {
        self.str_len
    }

    pub fn len(&self) -> (r: usize)
        ensures
            r == self.inner().cells().len(),
    {
        self.column.len()
    }

    pub fn at(&self, index: usize) -> (r: Value)
        requires
            index < self.inner().cells().len(),
        ensures
            r@ == self.inner().cells()[index as int],
    {
        self.column.at(index)
    }

    pub fn slice(&self, start: usize, end: usize) -> (r: Self)
        requires
            self.wf(),
            start <= end <= self.inner().cells().len(),
        ensures
            r.wf(),
            r.str_len() == self.str_len(),
            r.inner().cells() == self.inner().cells().subrange(start as int, end as int),
    {
        NullableFixedStringAdapter {
            column: Rc::new(self.column.slice(start, end)),
            str_len: self.str_len,
        }
    }
}

} // verus!
