use vstd::prelude::*;
use vstd::utf8::{decode_utf8, encode_utf8, encode_utf8_decode_utf8, encode_utf8_valid_utf8};

use crate::binary::{
    holds_at, le_bytes, le_value, lemma_holds_at_split, lemma_le_round_trip, lemma_p256_values,
    lemma_parse_bytes, lemma_parse_le, lemma_parse_string, lemma_parse_uvarint, parse_uvarint,
    string_bytes, uvarint_bytes,
};
use crate::block::{
    Block, BlockView, concat_cells, concat_view, block_bytes, columns_bytes, info_bytes, parse_block, parse_columns,
    parse_info, rows_of, same_rows,
};
use crate::column::{
    ColumnView, cells_bytes, column_bytes, null_mask, parse_cell, parse_cells, parse_column,
    parse_payload, parse_type, payload_bytes, valid_type,
};
use crate::value::{
    SqlType, ValueView, cell_bytes, cell_payload, fit, has_type, int_bits, int_width,
    is_nullable, lemma_int_bits_bound, null_flag, type_bytes,
};

verus! {

/// A column that its encoding describes exactly: a type with a positive width,
/// cells of that type, and lengths that the wire's counters can hold.
pub open spec fn canonical_column(c: ColumnView) -> bool {
    &&& valid_type(c.sql_type)
    &&& encode_utf8(c.name).len() <= u64::MAX
    &&& forall|k: int|
        0 <= k < c.cells.len() ==> has_type(#[trigger] c.cells[k], c.sql_type)
            && cell_payload(c.cells[k]).len() <= u64::MAX
}

/// A block of canonical columns of one length that fits `usize`.
pub open spec fn canonical(b: BlockView) -> bool {
    &&& same_rows(b.columns)
    &&& rows_of(b.columns) <= usize::MAX
    &&& b.columns.len() <= u64::MAX
    &&& forall|i: int| 0 <= i < b.columns.len() ==> canonical_column(#[trigger] b.columns[i])
}

proof fn lemma_cells_prefix(s: Seq<u8>, p: int, t: SqlType, cells: Seq<ValueView>, k: int)
    requires
        holds_at(s, p, cells_bytes(t, cells)),
        0 <= k <= cells.len(),
    ensures
        holds_at(s, p, cells_bytes(t, cells.subrange(0, k))),
    decreases cells.len() - k,
{
    if k == cells.len() {
        assert(cells.subrange(0, k) =~= cells);
    } else {
        lemma_cells_prefix(s, p, t, cells, k + 1);
        assert(cells.subrange(0, k + 1).drop_last() =~= cells.subrange(0, k));
        lemma_holds_at_split(
            s,
            p,
            cells_bytes(t, cells.subrange(0, k)),
            cell_bytes(t, cells[k]),
        );
    }
}

proof fn lemma_columns_prefix(s: Seq<u8>, p: int, cols: Seq<ColumnView>, k: int)
    requires
        holds_at(s, p, columns_bytes(cols)),
        0 <= k <= cols.len(),
    ensures
        holds_at(s, p, columns_bytes(cols.subrange(0, k))),
    decreases cols.len() - k,
{
    if k == cols.len() {
        assert(cols.subrange(0, k) =~= cols);
    } else {
        lemma_columns_prefix(s, p, cols, k + 1);
        assert(cols.subrange(0, k + 1).drop_last() =~= cols.subrange(0, k));
        lemma_holds_at_split(s, p, columns_bytes(cols.subrange(0, k)), column_bytes(cols[k]));
    }
}

proof fn lemma_cell_round_trip(s: Seq<u8>, p: int, t: SqlType, v: ValueView, null: bool)
    requires
        holds_at(s, p, cell_bytes(t, v)),
        valid_type(t),
        has_type(v, t),
        cell_payload(v).len() <= u64::MAX,
        is_nullable(t) ==> (null == (null_flag(v) == 1)),
    ensures
        parse_cell(s, p, t, null) == Some((v, p + cell_bytes(t, v).len())),
{
    match t {
        SqlType::String | SqlType::NullableString => {
            lemma_parse_string(s, p, cell_payload(v));
        },
        SqlType::FixedString(n) => {
            assert(fit(cell_payload(v), n as nat) =~= cell_payload(v));
            lemma_parse_bytes(s, p, cell_payload(v));
        },
        SqlType::NullableFixedString(n) => {
            lemma_parse_bytes(s, p, fit(cell_payload(v), n as nat));
            if v != ValueView::Nullable(None) {
                assert(fit(cell_payload(v), n as nat) =~= cell_payload(v));
            }
        },
        _ => {
            lemma_int_bits_bound(v, t);
            lemma_parse_le(s, p, int_bits(v), int_width(t));
            lemma_le_round_trip(int_bits(v), int_width(t));
        },
    }
}

proof fn lemma_cells_round_trip(
    s: Seq<u8>,
    p: int,
    t: SqlType,
    m: Seq<u8>,
    cells: Seq<ValueView>,
    k: nat,
)
    requires
        holds_at(s, p, cells_bytes(t, cells)),
        valid_type(t),
        k <= cells.len(),
        m.len() == cells.len(),
        forall|j: int|
            0 <= j < cells.len() ==> has_type(#[trigger] cells[j], t) && cell_payload(
                cells[j],
            ).len() <= u64::MAX,
        forall|j: int|
            0 <= j < cells.len() ==> is_nullable(t) ==> ((#[trigger] m[j] != 0) == (null_flag(
                cells[j],
            ) == 1)),
    ensures
        parse_cells(s, p, t, m, k) == Some(
            (cells.subrange(0, k as int), p + cells_bytes(t, cells.subrange(0, k as int)).len()),
        ),
    decreases k,
{
    if k == 0 {
        assert(cells.subrange(0, 0) =~= Seq::<ValueView>::empty());
    } else {
        let j = k - 1;
        lemma_cells_round_trip(s, p, t, m, cells, (k - 1) as nat);
        lemma_cells_prefix(s, p, t, cells, k as int);
        let pre = cells.subrange(0, j);
        assert(cells.subrange(0, k as int).drop_last() =~= pre);
        lemma_holds_at_split(s, p, cells_bytes(t, pre), cell_bytes(t, cells[j]));
        lemma_cell_round_trip(s, p + cells_bytes(t, pre).len(), t, cells[j], m[j] != 0);
        assert(pre.push(cells[j]) =~= cells.subrange(0, k as int));
    }
}

proof fn lemma_type_round_trip(s: Seq<u8>, p: int, t: SqlType)
    requires
        holds_at(s, p, type_bytes(t)),
        valid_type(t),
    ensures
        parse_type(s, p) == Some((t, p + type_bytes(t).len())),
{
    match t {
        SqlType::FixedString(n) => {
            lemma_holds_at_split(s, p, uvarint_bytes(9), uvarint_bytes(n as nat));
            lemma_parse_uvarint(s, p, 9);
            lemma_parse_uvarint(s, p + uvarint_bytes(9).len(), n as u64);
        },
        SqlType::NullableFixedString(n) => {
            lemma_holds_at_split(s, p, uvarint_bytes(11), uvarint_bytes(n as nat));
            lemma_parse_uvarint(s, p, 11);
            lemma_parse_uvarint(s, p + uvarint_bytes(11).len(), n as u64);
        },
        SqlType::UInt8 => lemma_parse_uvarint(s, p, 0),
        SqlType::UInt16 => lemma_parse_uvarint(s, p, 1),
        SqlType::UInt32 => lemma_parse_uvarint(s, p, 2),
        SqlType::UInt64 => lemma_parse_uvarint(s, p, 3),
        SqlType::Int8 => lemma_parse_uvarint(s, p, 4),
        SqlType::Int16 => lemma_parse_uvarint(s, p, 5),
        SqlType::Int32 => lemma_parse_uvarint(s, p, 6),
        SqlType::Int64 => lemma_parse_uvarint(s, p, 7),
        SqlType::String => lemma_parse_uvarint(s, p, 8),
        SqlType::NullableString => lemma_parse_uvarint(s, p, 10),
    }
}

proof fn lemma_column_round_trip(s: Seq<u8>, p: int, c: ColumnView)
    requires
        holds_at(s, p, column_bytes(c)),
        canonical_column(c),
        c.cells.len() <= usize::MAX,
    ensures
        parse_column(s, p, c.cells.len()) == Some((c, p + column_bytes(c).len())),
{
    let nb = encode_utf8(c.name);
    let t = c.sql_type;
    let rows = c.cells.len();
    lemma_holds_at_split(s, p, string_bytes(nb) + type_bytes(t), payload_bytes(t, c.cells));
    lemma_holds_at_split(s, p, string_bytes(nb), type_bytes(t));
    lemma_parse_string(s, p, nb);
    encode_utf8_valid_utf8(c.name);
    encode_utf8_decode_utf8(c.name);
    let p1 = p + string_bytes(nb).len();
    lemma_type_round_trip(s, p1, t);
    let q = p1 + type_bytes(t).len();
    if is_nullable(t) {
        let m = null_mask(c.cells);
        lemma_holds_at_split(s, q, m, cells_bytes(t, c.cells));
        lemma_parse_bytes(s, q, m);
        let q2 = q + m.len();
        lemma_cells_round_trip(s, q2, t, m, c.cells, rows);
        assert(c.cells.subrange(0, rows as int) =~= c.cells);
        assert(parse_payload(s, q, t, rows) == Some((c.cells, q2 + cells_bytes(t, c.cells).len())));
    } else {
        let m = Seq::new(rows, |i: int| 0u8);
        lemma_cells_round_trip(s, q, t, m, c.cells, rows);
        assert(c.cells.subrange(0, rows as int) =~= c.cells);
    }
}

proof fn lemma_info_round_trip(s: Seq<u8>, i: crate::block::BlockInfo)
    requires
        holds_at(s, 0, info_bytes(i)),
    ensures
        parse_info(s, 0) == Some((i, 8int)),
        info_bytes(i).len() == 8,
{
    let bits = (i.bucket_num as u32) as nat;
    lemma_p256_values();
    lemma_le_round_trip(bits, 4);
    let w = info_bytes(i);
    assert(w.len() == 8);
    assert(s.subrange(3, 7) =~= w.subrange(3, 7));
    assert(w.subrange(3, 7) =~= le_bytes(bits, 4));
    assert(s[0] == w[0] && s[1] == w[1] && s[2] == w[2] && s[7] == w[7]);
    let b = i.bucket_num;
    assert(((b as u32) as i32) == b) by (bit_vector);
}

/// Reading back what `write` produces for a block of canonical columns gives
/// the same block, whatever bytes follow.
pub proof fn law_round_trip(b: BlockView, rest: Seq<u8>)
    requires
        canonical(b),
    ensures
        parse_block(block_bytes(b) + rest, 0) == Some((b, block_bytes(b).len() as int)),
{
    let s = block_bytes(b) + rest;
    let cols = b.columns;
    let nc = cols.len();
    let nr = rows_of(cols);
    let a = info_bytes(b.info);
    let u1 = uvarint_bytes(nc);
    let u2 = uvarint_bytes(nr);
    let cb = columns_bytes(cols);
    assert(s.subrange(0, block_bytes(b).len() as int) =~= block_bytes(b));
    assert(block_bytes(b) == ((a + u1) + u2) + cb);
    lemma_p256_values();
    lemma_le_round_trip(((b.info.bucket_num as u32) as nat), 4);
    assert(a.len() == 8);
    lemma_holds_at_split(s, 0, (a + u1) + u2, cb);
    lemma_holds_at_split(s, 0, a + u1, u2);
    lemma_holds_at_split(s, 0, a, u1);
    lemma_info_round_trip(s, b.info);
    lemma_parse_uvarint(s, 8, nc as u64);
    lemma_parse_uvarint(s, 8 + u1.len() as int, nr as u64);
    let r: int = (8 + u1.len() + u2.len()) as int;
    assert forall|k: nat| k <= nc implies parse_columns(s, r, nr, k) == Some(
        (cols.subrange(0, k as int), r + columns_bytes(cols.subrange(0, k as int)).len()),
    ) by {
        lemma_columns_round_trip(s, r, cols, k);
    }
    assert(cols.subrange(0, nc as int) =~= cols);
}

proof fn lemma_columns_round_trip(s: Seq<u8>, r: int, cols: Seq<ColumnView>, k: nat)
    requires
        holds_at(s, r, columns_bytes(cols)),
        k <= cols.len(),
        same_rows(cols),
        rows_of(cols) <= usize::MAX,
        forall|i: int| 0 <= i < cols.len() ==> canonical_column(#[trigger] cols[i]),
    ensures
        parse_columns(s, r, rows_of(cols), k) == Some(
            (cols.subrange(0, k as int), r + columns_bytes(cols.subrange(0, k as int)).len()),
        ),
    decreases k,
{
    if k == 0 {
        assert(cols.subrange(0, 0) =~= Seq::<ColumnView>::empty());
    } else {
        let j = k - 1;
        lemma_columns_round_trip(s, r, cols, (k - 1) as nat);
        lemma_columns_prefix(s, r, cols, k as int);
        let pre = cols.subrange(0, j);
        assert(cols.subrange(0, k as int).drop_last() =~= pre);
        lemma_holds_at_split(s, r, columns_bytes(pre), column_bytes(cols[j]));
        assert(canonical_column(cols[j]));
        assert(cols[j].cells.len() == rows_of(cols));
        lemma_column_round_trip(s, r + columns_bytes(pre).len(), cols[j]);
        assert(pre.push(cols[j]) =~= cols.subrange(0, k as int));
    }
}

/// A block with no columns and the default header is the ten bytes
/// `1 0 2 255 255 255 255 0 0 0`, and those bytes read back as it.
pub proof fn law_empty_block()
    ensures
        ({
            let b = BlockView { info: crate::block::default_info(), columns: Seq::empty() };
            &&& block_bytes(b) == seq![1u8, 0u8, 2u8, 255u8, 255u8, 255u8, 255u8, 0u8, 0u8, 0u8]
            &&& parse_block(block_bytes(b), 0) == Some((b, 10int))
        }),
{
    let b = BlockView { info: crate::block::default_info(), columns: Seq::empty() };
    let m: i32 = -1i32;
    assert((m as u32) == 0xffff_ffffu32) by (bit_vector)
        requires
            m == -1i32,
    ;
    reveal_with_fuel(le_bytes, 5);
    assert(le_bytes(0xffff_ffff, 4) =~= seq![255u8, 255u8, 255u8, 255u8]);
    assert(uvarint_bytes(0) =~= seq![0u8]);
    assert(block_bytes(b) =~= seq![1u8, 0u8, 2u8, 255u8, 255u8, 255u8, 255u8, 0u8, 0u8, 0u8]);
    law_round_trip(b, Seq::empty());
    assert(block_bytes(b) + Seq::<u8>::empty() =~= block_bytes(b));
}

/// A block built in memory from columns that hold their own values reads back
/// as itself after `write`, given lengths that the wire's counters can hold.
pub proof fn law_block_round_trip(b: &Block, rest: Seq<u8>)
    requires
        b.wf(),
        b.all_storage(),
        rows_of(b@.columns) <= usize::MAX,
        b@.columns.len() <= u64::MAX,
        forall|i: int| 0 <= i < b@.columns.len() ==> encode_utf8((#[trigger] b@.columns[i]).name).len() <= u64::MAX,
        forall|i: int, k: int|
            0 <= i < b@.columns.len() && 0 <= k < b@.columns[i].cells.len() ==> cell_payload(
                #[trigger] b@.columns[i].cells[k],
            ).len() <= u64::MAX,
    ensures
        parse_block(block_bytes(b@) + rest, 0) == Some((b@, block_bytes(b@).len() as int)),
{
    assert forall|i: int| 0 <= i < b@.columns.len() implies canonical_column(
        #[trigger] b@.columns[i],
    ) by {
        b.lemma_storage_type(i);
        assert forall|k: int| 0 <= k < b@.columns[i].cells.len() implies has_type(
            #[trigger] b@.columns[i].cells[k],
            b@.columns[i].sql_type,
        ) && cell_payload(b@.columns[i].cells[k]).len() <= u64::MAX by {
            b.lemma_storage_cell(i, k);
        }
    }
    law_round_trip(b@, rest);
}

/// Joining two blocks gives, in each column, the rows of the first block and
/// then those of the second; the row count is the sum of theirs.
pub proof fn law_concat_two(a: BlockView, b: BlockView)
    requires
        a.columns.len() == b.columns.len(),
        a.columns.len() > 0,
        same_rows(a.columns),
        same_rows(b.columns),
    ensures
        ({
            let j = concat_view(seq![a, b]);
            &&& j.columns.len() == a.columns.len()
            &&& rows_of(j.columns) == rows_of(a.columns) + rows_of(b.columns)
            &&& forall|i: int|
                0 <= i < a.columns.len() ==> (#[trigger] j.columns[i]).cells == a.columns[i].cells
                    + b.columns[i].cells
        }),
{
    let bs = seq![a, b];
    assert(bs.drop_last() =~= seq![a]);
    assert(seq![a].drop_last() =~= Seq::<BlockView>::empty());
    assert forall|i: int| 0 <= i < a.columns.len() implies concat_cells(bs, i) == a.columns[i].cells
        + b.columns[i].cells by {
        assert(seq![a].last() == a);
        assert(bs.last() == b);
        assert(concat_cells(Seq::<BlockView>::empty(), i) == Seq::<ValueView>::empty());
        assert(concat_cells(seq![a], i) =~= a.columns[i].cells);
    }
    assert(concat_cells(bs, 0) == a.columns[0].cells + b.columns[0].cells);
}

} // verus!
