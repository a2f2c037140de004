use vstd::prelude::*;
use vstd::utf8::encode_utf8;

use crate::binary::{
    Encoder, Error, Reader, le_bytes, le_value, lemma_le_bound, lemma_p256_values, parse_uvarint,
    string_bytes, uvarint_bytes,
};
use crate::chunk_iterator::ChunkIterator;
use crate::column::{
    Column, ColumnData, ColumnFrom, ColumnView, column_bytes, lemma_parse_column_len, new_column,
    parse_column, valid_type,
};
use crate::value::{FromSql, FromSqlError, ValueView, has_type};

verus! {

#[verifier::external_type_specification]
#[verifier::external_body]
pub struct ExTz(chrono_tz::Tz);

/// The header in front of a block's columns.
#[derive(Debug, Clone, Copy, PartialEq, Eq, Structural)]
pub struct BlockInfo {
    pub is_overflows: bool,
    pub bucket_num: i32,
}

impl Default for BlockInfo {
    fn default() -> (r: BlockInfo)
        ensures
            r == default_info(),
    {
        BlockInfo { is_overflows: false, bucket_num: -1i32 }
    }
}

pub open spec fn default_info() -> BlockInfo {
    BlockInfo { is_overflows: false, bucket_num: -1i32 }
}

/// The header on the wire: field 1 (the overflow flag, one byte), field 2
/// (the bucket number, four bytes little-endian), then the end mark 0.
pub open spec fn info_bytes(i: BlockInfo) -> Seq<u8> {
    seq![
        1u8,
        if i.is_overflows {
            1u8
        } else {
            0u8
        },
        2u8,
    ] + le_bytes((i.bucket_num as u32) as nat, 4) + seq![0u8]
}

/// A header at `pos`.
pub open spec fn parse_info(s: Seq<u8>, pos: int) -> Option<(BlockInfo, int)> {
    if 0 <= pos && pos + 8 <= s.len() && s[pos] == 1 && s[pos + 2] == 2 && s[pos + 7] == 0 {
        Some(
            (
                BlockInfo {
                    is_overflows: s[pos + 1] != 0,
                    bucket_num: (le_value(s.subrange(pos + 3, pos + 7)) as u32) as i32,
                },
                pos + 8,
            ),
        )
    } else {
        None
    }
}

/// What a block is: its header and its columns.
pub struct BlockView {
    pub info: BlockInfo,
    pub columns: Seq<ColumnView>,
}

/// The row count of columns: the length of the first, or zero.
pub open spec fn rows_of(cols: Seq<ColumnView>) -> nat {
    if cols.len() == 0 {
        0
    } else {
        cols[0].cells.len()
    }
}

/// All columns have the same length.
pub open spec fn same_rows(cols: Seq<ColumnView>) -> bool {
    forall|i: int| 0 <= i < cols.len() ==> (#[trigger] cols[i]).cells.len() == rows_of(cols)
}

/// The encoded columns, one after the other.
pub open spec fn columns_bytes(cols: Seq<ColumnView>) -> Seq<u8>
    decreases cols.len(),
{
    if cols.len() == 0 {
        Seq::empty()
    } else {
        columns_bytes(cols.drop_last()) + column_bytes(cols.last())
    }
}

/// A block on the wire: header, column count, row count, then the columns.
pub open spec fn block_bytes(b: BlockView) -> Seq<u8> {
    info_bytes(b.info) + uvarint_bytes(b.columns.len()) + uvarint_bytes(rows_of(b.columns))
        + columns_bytes(b.columns)
}

/// `k` columns of `rows` cells at `pos`.
pub open spec fn parse_columns(s: Seq<u8>, pos: int, rows: nat, k: nat) -> Option<
    (Seq<ColumnView>, int),
>
    decreases k,
{
    if k == 0 {
        Some((Seq::empty(), pos))
    } else {
        match parse_columns(s, pos, rows, (k - 1) as nat) {
            Some((cs, p)) => match parse_column(s, p, rows) {
                Some((c, e)) => Some((cs.push(c), e)),
                None => None,
            },
            None => None,
        }
    }
}

/// A block at `pos`.
pub open spec fn parse_block(s: Seq<u8>, pos: int) -> Option<(BlockView, int)> {
    match parse_info(s, pos) {
        Some((info, p)) => match parse_uvarint(s, p) {
            Some((c, q)) => match parse_uvarint(s, q) {
                Some((n, r)) => if n <= usize::MAX {
                    match parse_columns(s, r, n as nat, c as nat) {
                        Some((cols, e)) => Some((BlockView { info, columns: cols }, e)),
                        None => None,
                    }
                } else {
                    None
                },
                None => None,
            },
            None => None,
        },
        None => None,
    }
}

/// The cells of column `i` of each block, block after block.
pub open spec fn concat_cells(bs: Seq<BlockView>, i: int) -> Seq<ValueView>
    decreases bs.len(),
{
    if bs.len() == 0 {
        Seq::empty()
    } else {
        concat_cells(bs.drop_last(), i) + bs.last().columns[i].cells
    }
}

/// The rows of all blocks together.
pub open spec fn total_rows(bs: Seq<BlockView>) -> nat
    decreases bs.len(),
{
    if bs.len() == 0 {
        0
    } else {
        total_rows(bs.drop_last()) + rows_of(bs.last().columns)
    }
}

/// The blocks joined: the header of the first, and each column of the first
/// with the cells of that column in every block, in order.
pub open spec fn concat_view(bs: Seq<BlockView>) -> BlockView {
    BlockView {
        info: bs[0].info,
        columns: Seq::new(
            bs[0].columns.len(),
            |i: int|
                ColumnView {
                    name: bs[0].columns[i].name,
                    sql_type: bs[0].columns[i].sql_type,
                    cells: concat_cells(bs, i),
                },
        ),
    }
}

/// Rows `[start, end)` of a block, with its header and column names and types.
pub open spec fn chunk_view(b: BlockView, start: int, end: int) -> BlockView {
    BlockView {
        info: b.info,
        columns: b.columns.map_values(
            |c: ColumnView|
                ColumnView { name: c.name, sql_type: c.sql_type, cells: c.cells.subrange(start, end) },
        ),
    }
}

pub open spec fn min(a: int, b: int) -> int {
    if a < b {
        a
    } else {
        b
    }
}

/// The chunks of at most `n` rows from row `pos` on, each encoded as a block.
pub open spec fn chunks_bytes(b: BlockView, n: nat, pos: nat) -> Seq<u8>
    decreases rows_of(b.columns) - pos,
{
    if n == 0 || pos >= rows_of(b.columns) {
        Seq::empty()
    } else {
        let end = min((pos + n) as int, rows_of(b.columns) as int) as nat;
        block_bytes(chunk_view(b, pos as int, end as int)) + chunks_bytes(b, n, end)
    }
}

/// The tag of a client data packet.
pub const CLIENT_DATA: u64 = 2;

/// The most rows sent in one data packet.
pub const INSERT_BLOCK_SIZE: usize = 1048576;

/// An insert of `b` as data packets: the tag, an empty table name, then the
/// chunks of at most `INSERT_BLOCK_SIZE` rows (a block without rows goes whole).
pub open spec fn send_bytes(b: BlockView) -> Seq<u8> {
    uvarint_bytes(CLIENT_DATA as nat) + string_bytes(Seq::empty()) + if rows_of(b.columns) == 0 {
        block_bytes(b)
    } else {
        chunks_bytes(b, INSERT_BLOCK_SIZE as nat, 0)
    }
}

/// The index of the first column named `key` from `i` on.
pub open spec fn find_name(cols: Seq<ColumnView>, key: Seq<char>, i: int) -> Option<int>
    decreases cols.len() - i,
{
    if i < 0 || i >= cols.len() {
        None
    } else if cols[i].name == key {
        Some(i)
    } else {
        find_name(cols, key, i + 1)
    }
}

/// A way to pick a column of a block.
pub trait ColumnIdx {
    /// The index this selector picks among `columns`, if any.
    spec fn resolve(&self, columns: Seq<ColumnView>) -> Option<int>;

    fn get_index(&self, columns: &Vec<Column>) -> (r: Result<usize, FromSqlError>)
        ensures
            match self.resolve(columns@.map_values(|c: Column| c@)) {
                Some(i) => r is Ok && r->Ok_0 == i,
                None => r == Err::<usize, FromSqlError>(FromSqlError::OutOfRange),
            },
    ;
}

/// An index picks that position, with no look at names.
impl ColumnIdx for usize {
    open spec fn resolve(&self, columns: Seq<ColumnView>) -> Option<int> {
        Some(*self as int)
    }

    fn get_index(&self, columns: &Vec<Column>) -> (r: Result<usize, FromSqlError>) {
        Ok(*self)
    }
}

/// A name picks the first column of that name.
impl<'a> ColumnIdx for &'a str {
    open spec fn resolve(&self, columns: Seq<ColumnView>) -> Option<int> {
        find_name(columns, self@, 0)
    }

    fn get_index(&self, columns: &Vec<Column>) -> (r: Result<usize, FromSqlError>) {
        let ghost cols = columns@.map_values(|c: Column| c@);
        let key: &str = *self;
        assert(key@ == self@);
        let mut i: usize = 0;
        while i < columns.len()
            invariant
                i <= columns@.len(),
                cols == columns@.map_values(|c: Column| c@),
                key@ == self@,
                find_name(cols, key@, 0) == find_name(cols, key@, i as int),
            decreases columns@.len() - i,
        {
            let same = bytes_eq(columns[i].name().as_bytes(), key.as_bytes());
            proof {
                vstd::utf8::encode_utf8_decode_utf8(cols[i as int].name);
                vstd::utf8::encode_utf8_decode_utf8(key@);
            }
            if same {
                assert(columns@[i as int]@ == cols[i as int]);
                assert(cols[i as int].name == key@);
                assert(find_name(cols, key@, i as int) == Some(i as int));
                assert(self.resolve(cols) == find_name(cols, key@, 0));
                return Ok(i);
            }
            i = i + 1;
        }
        Err(FromSqlError::OutOfRange)
    }
}

/// Whether `a` and `b` hold the same bytes.
pub fn bytes_eq(a: &[u8], b: &[u8]) -> (r: bool)
    ensures
        r == (a@ == b@),
{
    if a.len() != b.len() {
        return false;
    }
    let mut i: usize = 0;
    while i < a.len()
        invariant
            a@.len() == b@.len(),
            i <= a@.len(),
            a@.subrange(0, i as int) == b@.subrange(0, i as int),
        decreases a@.len() - i,
    {
        if a[i] != b[i] {
            assert(a@[i as int] != b@[i as int]);
            return false;
        }
        i = i + 1;
        assert(a@.subrange(0, i as int) =~= b@.subrange(0, i as int));
    }
    assert(a@ =~= a@.subrange(0, i as int));
    assert(b@ =~= b@.subrange(0, i as int));
    true
}

/// A header and columns of equal length.
#[derive(Debug, Clone, PartialEq)]
pub struct Block {
    info: BlockInfo,
    columns: Vec<Column>,
}

impl View for Block {
    type V = BlockView;

    closed spec fn view(&self) -> BlockView {
        BlockView { info: self.info, columns: self.columns@.map_values(|c: Column| c@) }
    }
}

impl Default for Block {
    fn default() -> (r: Block)
        ensures
            r.wf(),
            r@ == (BlockView { info: default_info(), columns: Seq::empty() }),
    {
        let r = Block { info: BlockInfo::default(), columns: Vec::new() };
        assert(r@.columns =~= Seq::<ColumnView>::empty());
        r
    }
}

impl Block {
    /// Every column is well formed.
    pub closed spec fn columns_wf(&self) -> bool {
        forall|i: int| 0 <= i < self.columns@.len() ==> (#[trigger] self.columns@[i]).wf()
    }

    /// Every column holds its own values.
    pub closed spec fn all_storage(&self) -> bool {
        forall|i: int| 0 <= i < self.columns@.len() ==> (#[trigger] self.columns@[i]).is_storage()
    }

    pub open spec fn wf(&self) -> bool {
        &&& self.columns_wf()
        &&& same_rows(self@.columns)
    }

    /// A cell of a column that holds its own values has the column's type.
    pub proof fn lemma_storage_cell(&self, i: int, k: int)
        requires
            self.wf(),
            self.all_storage(),
            0 <= i < self@.columns.len(),
            0 <= k < self@.columns[i].cells.len(),
        ensures
            valid_type(self@.columns[i].sql_type),
            has_type(self@.columns[i].cells[k], self@.columns[i].sql_type),
    {
        assert(self.columns@[i]@ == self@.columns[i]);
        assert(self.columns@[i].wf());
        assert(self.columns@[i].is_storage());
        self.columns@[i].lemma_wf(k);
    }

    /// A column that holds its own values has a type with a positive width.
    pub proof fn lemma_storage_type(&self, i: int)
        requires
            self.wf(),
            0 <= i < self@.columns.len(),
        ensures
            valid_type(self@.columns[i].sql_type),
    {
        assert(self.columns@[i]@ == self@.columns[i]);
        assert(self.columns@[i].wf());
        self.columns@[i].lemma_valid_type();
    }

    /// Whether the two blocks hold the same data: as many columns, and in
    /// each position columns of one type with the same cells.
    pub fn same_columns(&self, other: &Block) -> (r: bool)
        requires
            self.wf(),
            other.wf(),
        ensures
            r == (self@.columns.len() == other@.columns.len() && forall|i: int|
                0 <= i < self@.columns.len() ==> (#[trigger] self@.columns[i]).sql_type
                    == other@.columns[i].sql_type && self@.columns[i].cells
                    == other@.columns[i].cells),
    {
        if self.columns.len() != other.columns.len() {
            return false;
        }
        let n = self.columns.len();
        let mut i: usize = 0;
        while i < n
            invariant
                self.wf(),
                other.wf(),
                n == self@.columns.len(),
                n == other@.columns.len(),
                i <= n,
                forall|j: int|
                    0 <= j < i ==> (#[trigger] self@.columns[j]).sql_type
                        == other@.columns[j].sql_type && self@.columns[j].cells
                        == other@.columns[j].cells,
            decreases n - i,
        {
            let a = &self.columns[i];
            let b = &other.columns[i];
            assert(a@ == self@.columns[i as int] && a.wf());
            assert(b@ == other@.columns[i as int] && b.wf());
            if a.sql_type() != b.sql_type() {
                return false;
            }
            let len = a.len();
            if len != b.len() {
                return false;
            }
            let mut k: usize = 0;
            while k < len
                invariant
                    a.wf(),
                    b.wf(),
                    i < n,
                    n == self@.columns.len(),
                    n == other@.columns.len(),
                    a@ == self@.columns[i as int],
                    b@ == other@.columns[i as int],
                    a@.sql_type == b@.sql_type,
                    forall|j: int|
                        0 <= j < i ==> (#[trigger] self@.columns[j]).sql_type
                            == other@.columns[j].sql_type && self@.columns[j].cells
                            == other@.columns[j].cells,
                    len == a@.cells.len(),
                    len == b@.cells.len(),
                    k <= len,
                    a@.cells.subrange(0, k as int) == b@.cells.subrange(0, k as int),
                decreases len - k,
            {
                if !a.at(k).same(&b.at(k)) {
                    assert(a@.cells[k as int] != b@.cells[k as int]);
                    assert(self@.columns[i as int].cells != other@.columns[i as int].cells);
                    return false;
                }
                k = k + 1;
                assert(a@.cells.subrange(0, k as int) =~= b@.cells.subrange(0, k as int));
            }
            assert(a@.cells =~= a@.cells.subrange(0, k as int));
            assert(b@.cells =~= b@.cells.subrange(0, k as int));
            i = i + 1;
        }
        true
    }

    /// A new block with no columns.
    pub fn new() -> (r: Block)
        ensures
            r.wf(),
            r.all_storage(),
            r@ == (BlockView { info: default_info(), columns: Seq::empty() }),
    {
        let r = Block { info: BlockInfo::default(), columns: Vec::new() };
        assert(r@.columns =~= Seq::<ColumnView>::empty());
        r
    }

    /// Reads a block: header, column count, row count, then each column.
    /// `tz` is the time zone for date and time columns; none of the column
    /// types here carries a date, so it is not read.
    pub fn load(reader: &mut Reader, tz: chrono_tz::Tz) -> (r: Result<Block, Error>)
        requires
            old(reader).wf(),
        ensures
            final(reader).wf(),
            final(reader).data() == old(reader).data(),
            match parse_block(old(reader).data(), old(reader).pos()) {
                Some((b, e)) => r.is_ok() && r.unwrap()@ == b && r.unwrap().wf()
                    && r.unwrap().all_storage() && final(reader).pos() == e,
                None => r.is_err(),
            },
    {
        let ghost s = reader.data();
        let info = read_info(reader)?;
        let num_columns = reader.read_uvarint()?;
        let num_rows = reader.read_uvarint()?;
        if num_rows > usize::MAX as u64 {
            return Err(Error::Overflow);
        }
        let rows = num_rows as usize;
        let ghost p = reader.pos();
        let mut block = Block { info, columns: Vec::new() };
        assert(block@.columns =~= Seq::<ColumnView>::empty());
        let mut k: u64 = 0;
        while k < num_columns
            invariant
                reader.wf(),
                reader.data() == s,
                s == old(reader).data(),
                k <= num_columns,
                block.wf(),
                block.all_storage(),
                block.info == info,
                k > 0 ==> rows_of(block@.columns) == rows,
                parse_block(s, old(reader).pos()) == match parse_columns(
                    s,
                    p,
                    rows as nat,
                    num_columns as nat,
                ) {
                    Some((cols, e)) => Some((BlockView { info, columns: cols }, e)),
                    None => None,
                },
                parse_columns(s, p, rows as nat, k as nat) == Some((block@.columns, reader.pos())),
            decreases num_columns - k,
        {
            let ghost before = reader.pos();
            let c = Column::read(reader, rows);
            match c {
                Ok(column) => {
                    proof {
                        lemma_parse_column_len(s, before, rows as nat);
                    }
                    block.append_column(column);
                },
                Err(e) => {
                    proof {
                        assert(parse_columns(s, p, rows as nat, (k + 1) as nat) is None);
                        lemma_columns_prefix_fails(s, p, rows as nat, (k + 1) as nat, num_columns as nat);
                    }
                    return Err(e);
                },
            }
            k = k + 1;
        }
        Ok(block)
    }

    /// The number of rows: the length of the first column, or zero.
    pub fn row_count(&self) -> (r: usize)
        requires
            self.wf(),
        ensures
            r == rows_of(self@.columns),
    {
        if self.columns.len() == 0 {
            0
        } else {
            self.columns[0].len()
        }
    }

    /// The number of columns.
    pub fn column_count(&self) -> (r: usize)
        ensures
            r == self@.columns.len(),
    {
        self.columns.len()
    }

    pub fn columns(&self) -> (r: &Vec<Column>)
        ensures
            r@.map_values(|c: Column| c@) == self@.columns,
    {
        &self.columns
    }

    /// Whether the block has no columns.
    pub fn is_empty(&self) -> (r: bool)
        ensures
            r == (self@.columns.len() == 0),
    {
        self.columns.len() == 0
    }

    /// The header.
    pub fn info(&self) -> (r: BlockInfo)
        ensures
            r == self@.info,
    {
        self.info
    }

    fn append_column(&mut self, column: Column)
        requires
            old(self).wf(),
            column.wf(),
            old(self)@.columns.len() == 0 || column@.cells.len() == rows_of(old(self)@.columns),
        ensures
            final(self).wf(),
            final(self)@ == (BlockView {
                info: old(self)@.info,
                columns: old(self)@.columns.push(column@),
            }),
            final(self).all_storage() == (old(self).all_storage() && column.is_storage()),
    {
        self.columns.push(column);
        assert(self@.columns =~= old(self)@.columns.push(column@));
        assert(self.all_storage() == (old(self).all_storage() && column.is_storage())) by {
            if old(self).all_storage() && column.is_storage() {
                assert forall|i: int| 0 <= i < self.columns@.len() implies (
                #[trigger] self.columns@[i]).is_storage() by {
                    if i < old(self).columns@.len() {
                        assert(self.columns@[i] == old(self).columns@[i]);
                    }
                }
            }
            if self.all_storage() {
                assert(self.columns@[self.columns@.len() - 1].is_storage());
                assert forall|i: int| 0 <= i < old(self).columns@.len() implies (
                #[trigger] old(self).columns@[i]).is_storage() by {
                    assert(self.columns@[i] == old(self).columns@[i]);
                }
            }
        }
        assert forall|i: int| 0 <= i < self.columns@.len() implies (
        #[trigger] self.columns@[i]).wf() by {
            if i < old(self).columns@.len() {
                assert(self.columns@[i] == old(self).columns@[i]);
            }
        }
    }

    /// The value in `row` of the column that `col` picks (by index, or by
    /// name: the first column of that name), read as a `T`.
    pub fn get<T: FromSql, I: ColumnIdx>(&self, row: usize, col: I) -> (r: Result<T, FromSqlError>)
        requires
            self.wf(),
        ensures
            match col.resolve(self@.columns) {
                Some(i) => if 0 <= i < self@.columns.len() && row < rows_of(self@.columns) {
                    let v = self@.columns[i].cells[row as int];
                    &&& T::accepts(v) <==> r is Ok
                    &&& r matches Ok(x) ==> T::reads_as(v, x)
                    &&& !T::accepts(v) ==> r == Err::<T, FromSqlError>(FromSqlError::InvalidType)
                } else {
                    r == Err::<T, FromSqlError>(FromSqlError::OutOfRange)
                },
                None => r == Err::<T, FromSqlError>(FromSqlError::OutOfRange),
            },
    {
        let index = match col.get_index(&self.columns) {
            Ok(i) => i,
            Err(e) => {
                return Err(e);
            },
        };
        if index >= self.columns.len() {
            return Err(FromSqlError::OutOfRange);
        }
        let column = &self.columns[index];
        assert(column@ == self@.columns[index as int]);
        if row >= column.len() {
            return Err(FromSqlError::OutOfRange);
        }
        T::from_sql(column.at(row))
    }

    /// The block with a new column `name` built from `values`. Every column of a
    /// block has the same length: a column of another length is refused by the
    /// precondition.
    pub fn add_column<S: ColumnFrom>(self, name: &str, values: S) -> (r: Block)
        requires
            self.wf(),
            self@.columns.len() == 0 || values.column_cells().len() == rows_of(self@.columns),
        ensures
            r.wf(),
            r.all_storage() == self.all_storage(),
            r@ == (BlockView {
                info: self@.info,
                columns: self@.columns.push(
                    ColumnView {
                        name: name@,
                        sql_type: values.column_type(),
                        cells: values.column_cells(),
                    },
                ),
            }),
    {
        let data = values.column_from();
        let column = new_column(name, data);
        let mut b = self;
        b.append_column(column);
        b
    }

    /// The block with a new column `name` over `data`. Every column of a block
    /// has the same length: a column of another length is refused by the
    /// precondition.
    pub fn with_column(self, name: &str, data: ColumnData) -> (r: Block)
        requires
            self.wf(),
            data.wf(),
            self@.columns.len() == 0 || data.cells().len() == rows_of(self@.columns),
        ensures
            r.wf(),
            r.all_storage() == (self.all_storage() && data.is_storage()),
            r@ == (BlockView {
                info: self@.info,
                columns: self@.columns.push(
                    ColumnView { name: name@, sql_type: data.sql_type(), cells: data.cells() },
                ),
            }),
    {
        let column = new_column(name, data);
        let mut b = self;
        b.append_column(column);
        b
    }

    /// The rows of this block in chunks of at most `n` rows; a block without
    /// rows gives itself as its one chunk, whatever `n` is.
    pub fn chunks(&self, n: usize) -> (r: ChunkIterator<'_>)
        requires
            self.wf(),
            n > 0 || rows_of(self@.columns) == 0,
        ensures
            r.wf(),
            r.block() == self,
            r.size() == n,
            r.position() == 0,
    {
        ChunkIterator::new(n, self)
    }

    /// Rows `[start, end)` of this block, under the same header.
    pub fn slice_rows(&self, start: usize, end: usize) -> (r: Block)
        requires
            self.wf(),
            start <= end <= rows_of(self@.columns),
        ensures
            r.wf(),
            r@ == chunk_view(self@, start as int, end as int),
    {
        let mut columns: Vec<Column> = Vec::new();
        let mut i: usize = 0;
        while i < self.columns.len()
            invariant
                self.wf(),
                start <= end <= rows_of(self@.columns),
                i <= self.columns@.len(),
                columns@.len() == i,
                forall|j: int|
                    0 <= j < i ==> (#[trigger] columns@[j]).wf() && columns@[j]@ == (ColumnView {
                        name: self@.columns[j].name,
                        sql_type: self@.columns[j].sql_type,
                        cells: self@.columns[j].cells.subrange(start as int, end as int),
                    }),
            decreases self.columns@.len() - i,
        {
            assert(self.columns@[i as int].wf());
            assert(self.columns@[i as int]@ == self@.columns[i as int]);
            columns.push(self.columns[i].slice(start, end));
            i = i + 1;
        }
        let r = Block { info: self.info, columns };
        assert(r@.columns =~= chunk_view(self@, start as int, end as int).columns);
        r
    }

    /// A block that shares this one's storage.
    pub fn duplicate(&self) -> (r: Block)
        requires
            self.wf(),
        ensures
            r.wf(),
            r@ == self@,
            r.all_storage() == self.all_storage(),
    {
        let mut columns: Vec<Column> = Vec::new();
        let mut i: usize = 0;
        while i < self.columns.len()
            invariant
                i <= self.columns@.len(),
                columns@.len() == i,
                forall|j: int|
                    0 <= j < i ==> (#[trigger] columns@[j])@ == self.columns@[j]@
                        && columns@[j].wf() == self.columns@[j].wf()
                        && columns@[j].is_storage() == self.columns@[j].is_storage(),
            decreases self.columns@.len() - i,
        {
            columns.push(self.columns[i].share());
            i = i + 1;
        }
        let r = Block { info: self.info, columns };
        assert(r@.columns =~= self@.columns);
        assert(r.all_storage() == self.all_storage()) by {
            if self.all_storage() {
                assert forall|j: int| 0 <= j < r.columns@.len() implies (
                #[trigger] r.columns@[j]).is_storage() by {
                    assert(self.columns@[j].is_storage());
                }
            }
            if r.all_storage() {
                assert forall|j: int| 0 <= j < self.columns@.len() implies (
                #[trigger] self.columns@[j]).is_storage() by {
                    assert(r.columns@[j].is_storage());
                }
            }
        }
        r
    }

    /// Writes the block as data packets: the tag, an empty table name, then
    /// chunks of at most `INSERT_BLOCK_SIZE` rows.
    pub fn send_data(&self, encoder: &mut Encoder)
        requires
            self.wf(),
        ensures
            final(encoder)@ == old(encoder)@ + send_bytes(self@),
    {
        encoder.uvarint(CLIENT_DATA);
        let empty: Vec<u8> = Vec::new();
        encoder.string(empty.as_slice());
        assert(empty@ =~= Seq::<u8>::empty());
        let ghost mid = encoder@;
        assert(mid =~= old(encoder)@ + (uvarint_bytes(CLIENT_DATA as nat) + string_bytes(
            Seq::empty(),
        )));
        let mut iter = self.chunks(INSERT_BLOCK_SIZE);
        let rows = self.row_count();
        if rows == 0 {
            let first = iter.next();
            match first {
                Some(chunk) => chunk.write(encoder),
                None => {},
            }
            assert(final(encoder)@ =~= old(encoder)@ + send_bytes(self@));
            return;
        }
        loop
            invariant
                iter.wf(),
                iter.block() == self,
                iter.size() == INSERT_BLOCK_SIZE,
                rows == rows_of(self@.columns),
                rows > 0,
                iter.position() <= rows,
                mid == old(encoder)@ + (uvarint_bytes(CLIENT_DATA as nat) + string_bytes(
                    Seq::empty(),
                )),
                mid + chunks_bytes(self@, INSERT_BLOCK_SIZE as nat, 0) == encoder@ + chunks_bytes(
                    self@,
                    INSERT_BLOCK_SIZE as nat,
                    iter.position() as nat,
                ),
            ensures
                iter.position() >= rows,
                mid == old(encoder)@ + (uvarint_bytes(CLIENT_DATA as nat) + string_bytes(
                    Seq::empty(),
                )),
                mid + chunks_bytes(self@, INSERT_BLOCK_SIZE as nat, 0) == encoder@ + chunks_bytes(
                    self@,
                    INSERT_BLOCK_SIZE as nat,
                    iter.position() as nat,
                ),
            decreases rows - iter.position(),
        {
            let ghost pos = iter.position();
            match iter.next() {
                Some(chunk) => {
                    let ghost e0 = encoder@;
                    chunk.write(encoder);
                    assert(e0 + chunks_bytes(self@, INSERT_BLOCK_SIZE as nat, pos as nat)
                        =~= encoder@ + chunks_bytes(
                        self@,
                        INSERT_BLOCK_SIZE as nat,
                        iter.position() as nat,
                    ));
                },
                None => {
                    break ;
                },
            }
        }
        assert(chunks_bytes(self@, INSERT_BLOCK_SIZE as nat, iter.position() as nat) =~= Seq::<
            u8,
        >::empty());
        assert(final(encoder)@ =~= old(encoder)@ + send_bytes(self@));
    }

    /// The blocks joined in order: the header of the first block, and each
    /// column of the first block with the cells of that column in every block.
    /// The blocks must have the same column count and column types.
    pub fn concat(blocks: &[Block]) -> (r: Block)
        requires
            blocks@.len() > 0,
            forall|j: int|
                0 <= j < blocks@.len() ==> (#[trigger] blocks@[j]).wf() && blocks@[j].all_storage()
                    && blocks@[j]@.columns.len() == blocks@[0]@.columns.len(),
            forall|j: int, i: int|
                0 <= j < blocks@.len() && 0 <= i < blocks@[0]@.columns.len()
                    ==> (#[trigger] blocks@[j]@.columns[i]).sql_type
                    == blocks@[0]@.columns[i].sql_type,
        ensures
            r.wf(),
            r.all_storage(),
            r@ == concat_view(blocks@.map_values(|b: Block| b@)),
    {
        let ghost bs = blocks@.map_values(|b: Block| b@);
        let first = &blocks[0];
        let n = first.columns.len();
        let mut columns: Vec<Column> = Vec::new();
        let mut i: usize = 0;
        while i < n
            invariant
                bs == blocks@.map_values(|b: Block| b@),
                blocks@.len() > 0,
                first == &blocks@[0],
                n == bs[0].columns.len(),
                i <= n,
                columns@.len() == i,
                forall|j: int|
                    0 <= j < blocks@.len() ==> (#[trigger] blocks@[j]).wf()
                        && blocks@[j].all_storage() && blocks@[j]@.columns.len() == n,
                forall|j: int, k: int|
                    0 <= j < blocks@.len() && 0 <= k < n ==> (#[trigger] blocks@[j]@.columns[k]).sql_type
                        == blocks@[0]@.columns[k].sql_type,
                forall|k: int|
                    0 <= k < i ==> (#[trigger] columns@[k]).wf() && columns@[k].is_storage()
                        && columns@[k]@ == concat_view(bs).columns[k],
            decreases n - i,
        {
            let column = concat_column(blocks, i);
            columns.push(column);
            i = i + 1;
        }
        let r = Block { info: first.info, columns };
        proof {
            assert(r@.columns =~= concat_view(bs).columns);
            assert forall|k: int| 0 <= k < r@.columns.len() implies (#[trigger] r@.columns[k]).cells.len()
                == rows_of(r@.columns) by {
                lemma_concat_len(bs, k);
                lemma_concat_len(bs, 0);
            }
        }
        r
    }

    /// Writes header, column count, row count, then each column whole.
    pub fn write(&self, encoder: &mut Encoder)
        requires
            self.wf(),
        ensures
            final(encoder)@ == old(encoder)@ + block_bytes(self@),
    {
        write_info(encoder, self.info);
        encoder.uvarint(self.column_count() as u64);
        encoder.uvarint(self.row_count() as u64);
        let ghost mid = encoder@;
        let ghost cols = self@.columns;
        let mut i: usize = 0;
        while i < self.columns.len()
            invariant
                self.wf(),
                cols == self@.columns,
                i <= cols.len(),
                encoder@ == mid + columns_bytes(cols.subrange(0, i as int)),
            decreases cols.len() - i,
        {
            assert(self.columns@[i as int].wf());
            self.columns[i].write(encoder);
            assert(cols.subrange(0, i + 1).drop_last() =~= cols.subrange(0, i as int));
            i = i + 1;
        }
        assert(cols.subrange(0, i as int) =~= cols);
        assert(final(encoder)@ =~= old(encoder)@ + block_bytes(self@));
    }
}

/// Where `k` columns cannot be read, no more than `k` can.
proof fn lemma_columns_prefix_fails(s: Seq<u8>, pos: int, rows: nat, k: nat, n: nat)
    requires
        k <= n,
        parse_columns(s, pos, rows, k) is None,
    ensures
        parse_columns(s, pos, rows, n) is None,
    decreases n - k,
{
    if k < n {
        lemma_columns_prefix_fails(s, pos, rows, k + 1, n);
    }
}

/// Writes a block header.
pub fn write_info(encoder: &mut Encoder, info: BlockInfo)
    ensures
        final(encoder)@ == old(encoder)@ + info_bytes(info),
{
    let flag: u8 = if info.is_overflows {
        1
    } else {
        0
    };
    let head: Vec<u8> = vec![1u8, flag, 2u8];
    encoder.write_bytes(head.as_slice());
    encoder.write_le((info.bucket_num as u32) as u64, 4);
    let tail: Vec<u8> = vec![0u8];
    encoder.write_bytes(tail.as_slice());
    assert(head@ =~= seq![1u8, flag, 2u8]);
    assert(tail@ =~= seq![0u8]);
    assert(final(encoder)@ =~= old(encoder)@ + info_bytes(info));
}

/// Reads a block header.
pub fn read_info(reader: &mut Reader) -> (r: Result<BlockInfo, Error>)
    requires
        old(reader).wf(),
    ensures
        final(reader).wf(),
        final(reader).data() == old(reader).data(),
        match parse_info(old(reader).data(), old(reader).pos()) {
            Some((i, e)) => r == Ok::<BlockInfo, Error>(i) && final(reader).pos() == e,
            None => r.is_err(),
        },
{
    let ghost s = reader.data();
    let ghost pos = reader.pos();
    let head = reader.read_bytes(3)?;
    if head[0] != 1 || head[2] != 2 {
        return Err(Error::InvalidHeader);
    }
    let bits = reader.read_le(4)?;
    let tail = reader.read_bytes(1)?;
    if tail[0] != 0 {
        return Err(Error::InvalidHeader);
    }
    proof {
        lemma_le_bound(s.subrange(pos + 3, pos + 7));
        lemma_p256_values();
        assert(head@ == s.subrange(pos, pos + 3));
        assert(tail@ == s.subrange(pos + 7, pos + 8));
        assert(s[pos] == head@[0]);
        assert(s[pos + 1] == head@[1]);
        assert(s[pos + 2] == head@[2]);
        assert(s[pos + 7] == tail@[0]);
    }
    let is_overflows = head[1] != 0;
    Ok(BlockInfo { is_overflows, bucket_num: #[verifier::truncate] ((bits as u32) as i32) })
}

/// Column `i` of the blocks joined.
fn concat_column(blocks: &[Block], i: usize) -> (r: Column)
    requires
        blocks@.len() > 0,
        i < blocks@[0]@.columns.len(),
        forall|j: int|
            0 <= j < blocks@.len() ==> (#[trigger] blocks@[j]).wf() && blocks@[j].all_storage()
                && blocks@[j]@.columns.len() == blocks@[0]@.columns.len(),
        forall|j: int, k: int|
            0 <= j < blocks@.len() && 0 <= k < blocks@[0]@.columns.len()
                ==> (#[trigger] blocks@[j]@.columns[k]).sql_type == blocks@[0]@.columns[k].sql_type,
    ensures
        r.wf(),
        r.is_storage(),
        r@ == concat_view(blocks@.map_values(|b: Block| b@)).columns[i as int],
{
    let ghost bs = blocks@.map_values(|b: Block| b@);
    let first = &blocks[0];
    let head = &first.columns[i];
    proof {
        head.lemma_valid_type();
    }
    let t = head.sql_type();
    let mut data = ColumnData::empty(t);
    let mut j: usize = 0;
    while j < blocks.len()
        invariant
            bs == blocks@.map_values(|b: Block| b@),
            j <= blocks@.len(),
            i < blocks@[0]@.columns.len(),
            t == blocks@[0]@.columns[i as int].sql_type,
            forall|j: int|
                0 <= j < blocks@.len() ==> (#[trigger] blocks@[j]).wf() && blocks@[j].all_storage()
                    && blocks@[j]@.columns.len() == blocks@[0]@.columns.len(),
            forall|j: int, k: int|
                0 <= j < blocks@.len() && 0 <= k < blocks@[0]@.columns.len()
                    ==> (#[trigger] blocks@[j]@.columns[k]).sql_type == blocks@[0]@.columns[k].sql_type,
            data.wf(),
            data.is_storage(),
            data.sql_type() == t,
            data.cells() == concat_cells(bs.subrange(0, j as int), i as int),
        decreases blocks@.len() - j,
    {
        let b = &blocks[j];
        assert(b.wf() && b.all_storage());
        assert(b.columns@[i as int]@ == b@.columns[i as int]);
        assert(b.columns@[i as int].wf());
        assert(b.columns@[i as int].is_storage());
        let col = &b.columns[i];
        let len = col.len();
        let ghost before = data.cells();
        let mut k: usize = 0;
        while k < len
            invariant
                col.wf(),
                col.is_storage(),
                col@.sql_type == t,
                len == col@.cells.len(),
                k <= len,
                data.wf(),
                data.is_storage(),
                data.sql_type() == t,
                data.cells() == before + col@.cells.subrange(0, k as int),
            decreases len - k,
        {
            proof {
                col.lemma_wf(k as int);
            }
            data.push(col.at(k));
            assert(data.cells() =~= before + col@.cells.subrange(0, k + 1));
            k = k + 1;
        }
        assert(col@.cells.subrange(0, k as int) =~= col@.cells);
        assert(bs.subrange(0, j + 1).drop_last() =~= bs.subrange(0, j as int));
        j = j + 1;
    }
    assert(bs.subrange(0, j as int) =~= bs);
    new_column(head.name(), data)
}

/// Joined column `i` has as many cells as the blocks have rows together.
pub proof fn lemma_concat_len(bs: Seq<BlockView>, i: int)
    requires
        forall|j: int| 0 <= j < bs.len() ==> same_rows((#[trigger] bs[j]).columns),
        forall|j: int| 0 <= j < bs.len() ==> 0 <= i < (#[trigger] bs[j]).columns.len(),
    ensures
        concat_cells(bs, i).len() == total_rows(bs),
    decreases bs.len(),
{
    if bs.len() > 0 {
        let l = bs.drop_last();
        assert forall|j: int| 0 <= j < l.len() implies same_rows((#[trigger] l[j]).columns) by {
            assert(l[j] == bs[j]);
        }
        assert forall|j: int| 0 <= j < l.len() implies 0 <= i < (#[trigger] l[j]).columns.len() by {
            assert(l[j] == bs[j]);
        }
        lemma_concat_len(l, i);
        assert(same_rows(bs[bs.len() - 1].columns));
        assert(bs.last().columns[i].cells.len() == rows_of(bs.last().columns));
    }
}

} // verus!
