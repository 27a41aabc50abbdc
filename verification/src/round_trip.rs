use vstd::prelude::*;
use crate::column::{cell_bytes, cell_raw, cell_width, lemma_cell_round_trip, ColumnType};
use crate::table::{
    all_fit, cell_offset, column_bytes, decoded, encoded, lemma_prefix_width_grows, prefix_width,
    rectangular, row_count, row_width, table_bytes,
};
use crate::value::ValueRef;

verus! {

proof fn lemma_subrange_left(a: Seq<u8>, b: Seq<u8>, lo: int, hi: int)
    requires
        0 <= lo <= hi <= a.len(),
    ensures
        (a + b).subrange(lo, hi) == a.subrange(lo, hi),
{
    assert((a + b).subrange(lo, hi) =~= a.subrange(lo, hi));
}

proof fn lemma_subrange_right(a: Seq<u8>, b: Seq<u8>, lo: int, hi: int)
    requires
        0 <= lo <= hi <= b.len(),
    ensures
        (a + b).subrange(a.len() + lo, a.len() + hi) == b.subrange(lo, hi),
{
    assert((a + b).subrange(a.len() + lo, a.len() + hi) =~= b.subrange(lo, hi));
}

/// The block of one column takes one cell's width for each row.
pub proof fn lemma_column_bytes_len(
    coltype: ColumnType,
    long_string_refs: bool,
    rows: Seq<Seq<ValueRef>>,
    c: int,
    n: int,
)
    requires
        0 <= n,
    ensures
        column_bytes(coltype, long_string_refs, rows, c, n).len() == n * cell_width(
            coltype,
            long_string_refs,
        ),
    decreases n,
{
    let w = cell_width(coltype, long_string_refs) as int;
    if n > 0 {
        lemma_column_bytes_len(coltype, long_string_refs, rows, c, n - 1);
        assert(n * w == (n - 1) * w + w) by (nonlinear_arith);
    } else {
        assert(0 * w == 0) by (nonlinear_arith);
    }
}

/// In the block of one column, the cell of row `r` stands at `r` times the
/// cell's width.
pub proof fn lemma_column_bytes_cell(
    coltype: ColumnType,
    long_string_refs: bool,
    rows: Seq<Seq<ValueRef>>,
    c: int,
    n: int,
    r: int,
)
    requires
        0 <= r < n,
    ensures
        column_bytes(coltype, long_string_refs, rows, c, n).subrange(
            r * cell_width(coltype, long_string_refs),
            r * cell_width(coltype, long_string_refs) + cell_width(coltype, long_string_refs),
        ) == cell_bytes(coltype, long_string_refs, rows[r][c]),
    decreases n,
{
    let w = cell_width(coltype, long_string_refs) as int;
    let head = column_bytes(coltype, long_string_refs, rows, c, n - 1);
    let last = cell_bytes(coltype, long_string_refs, rows[n - 1][c]);
    lemma_column_bytes_len(coltype, long_string_refs, rows, c, n - 1);
    assert(last.len() == w);
    if r == n - 1 {
        lemma_subrange_right(head, last, 0, w);
        assert(last.subrange(0, w) =~= last);
    } else {
        lemma_column_bytes_cell(coltype, long_string_refs, rows, c, n - 1, r);
        assert(0 <= r * w && r * w + w <= (n - 1) * w) by (nonlinear_arith)
            requires
                0 <= r < n - 1,
                0 <= w,
        ;
        lemma_subrange_left(head, last, r * w, r * w + w);
    }
}

/// The first `n` columns of a stream take the rows' number times the
/// summed width of those columns.
pub proof fn lemma_table_bytes_len(
    types: Seq<ColumnType>,
    long_string_refs: bool,
    rows: Seq<Seq<ValueRef>>,
    n: int,
)
    requires
        0 <= n,
    ensures
        table_bytes(types, long_string_refs, rows, n).len() == rows.len() * prefix_width(
            types,
            long_string_refs,
            n,
        ),
    decreases n,
{
    let k = rows.len() as int;
    if n > 0 {
        let w = cell_width(types[n - 1], long_string_refs) as int;
        let before = prefix_width(types, long_string_refs, n - 1) as int;
        lemma_table_bytes_len(types, long_string_refs, rows, n - 1);
        lemma_column_bytes_len(types[n - 1], long_string_refs, rows, n - 1, k);
        assert(k * (before + w) == k * before + k * w) by (nonlinear_arith);
    } else {
        assert(k * 0 == 0) by (nonlinear_arith);
    }
}

/// In a stream of the first `n` columns, the cell of row `r` and column
/// `c` stands at its column-major offset.
pub proof fn lemma_table_bytes_cell(
    types: Seq<ColumnType>,
    long_string_refs: bool,
    rows: Seq<Seq<ValueRef>>,
    n: int,
    r: int,
    c: int,
)
    requires
        0 <= c < n,
        0 <= r < rows.len(),
    ensures
        table_bytes(types, long_string_refs, rows, n).subrange(
            cell_offset(types, long_string_refs, rows.len(), r, c),
            cell_offset(types, long_string_refs, rows.len(), r, c) + cell_width(
                types[c],
                long_string_refs,
            ),
        ) == cell_bytes(types[c], long_string_refs, rows[r][c]),
    decreases n,
{
    let k = rows.len() as int;
    let w = cell_width(types[c], long_string_refs) as int;
    let head = table_bytes(types, long_string_refs, rows, n - 1);
    let block = column_bytes(types[n - 1], long_string_refs, rows, n - 1, k);
    let offset = cell_offset(types, long_string_refs, rows.len(), r, c);
    let before = prefix_width(types, long_string_refs, c) as int;
    lemma_table_bytes_len(types, long_string_refs, rows, n - 1);
    lemma_column_bytes_len(types[n - 1], long_string_refs, rows, n - 1, k);
    assert(0 <= r * w && r * w + w <= k * w) by (nonlinear_arith)
        requires
            0 <= r < k,
            0 <= w,
    ;
    assert(0 <= k * before) by (nonlinear_arith)
        requires
            0 <= k,
            0 <= before,
    ;
    if c == n - 1 {
        lemma_column_bytes_cell(types[c], long_string_refs, rows, c, k, r);
        lemma_subrange_right(head, block, r * w, r * w + w);
    } else {
        lemma_table_bytes_cell(types, long_string_refs, rows, n - 1, r, c);
        lemma_prefix_width_grows(types, long_string_refs, c + 1, n - 1);
        let after = prefix_width(types, long_string_refs, c + 1) as int;
        let upto = prefix_width(types, long_string_refs, n - 1) as int;
        assert(k * after == k * before + k * w) by (nonlinear_arith)
            requires
                after == before + w,
        ;
        assert(k * after <= k * upto) by (nonlinear_arith)
            requires
                0 <= k,
                after <= upto,
        ;
        lemma_subrange_left(head, block, offset, offset + w);
    }
}

/// A stream that holds `k` rows is `k` times the row width long.
pub proof fn lemma_encoded_len(
    types: Seq<ColumnType>,
    long_string_refs: bool,
    rows: Seq<Seq<ValueRef>>,
)
    ensures
        encoded(types, long_string_refs, rows).len() == rows.len() * row_width(
            types,
            long_string_refs,
        ),
{
    lemma_table_bytes_len(types, long_string_refs, rows, types.len() as int);
}

/// Rows that are encoded and decoded again come back as they were, in
/// number, order and content, and each cell of the stream stands at its
/// column-major offset.  The rows have one value for each column, every
/// value fits its cell, and a row has some width unless there are no rows:
/// rows without cells leave no trace in a stream.
pub proof fn lemma_rows_round_trip(
    types: Seq<ColumnType>,
    long_string_refs: bool,
    rows: Seq<Seq<ValueRef>>,
)
    requires
        rectangular(rows, types.len()),
        all_fit(types, long_string_refs, rows),
        row_width(types, long_string_refs) > 0 || rows.len() == 0,
    ensures
        row_count(types, long_string_refs, encoded(types, long_string_refs, rows).len())
            == rows.len(),
        decoded(types, long_string_refs, encoded(types, long_string_refs, rows)) == rows,
        forall|r: int, c: int|
            #![trigger rows[r][c]]
            0 <= r < rows.len() && 0 <= c < types.len() ==> encoded(
                types,
                long_string_refs,
                rows,
            ).subrange(
                cell_offset(types, long_string_refs, rows.len(), r, c),
                cell_offset(types, long_string_refs, rows.len(), r, c) + cell_width(
                    types[c],
                    long_string_refs,
                ),
            ) == cell_bytes(types[c], long_string_refs, rows[r][c]),
{
    let data = encoded(types, long_string_refs, rows);
    let k = rows.len() as int;
    let whole = row_width(types, long_string_refs) as int;
    lemma_encoded_len(types, long_string_refs, rows);
    if whole > 0 {
        assert((k * whole) / whole == k) by (nonlinear_arith)
            requires
                whole > 0,
        ;
    } else {
        assert(k * whole == 0) by (nonlinear_arith)
            requires
                k == 0,
        ;
    }
    let back = decoded(types, long_string_refs, data);
    assert(back.len() == k);
    assert forall|r: int, c: int|
        #![trigger rows[r][c]]
        0 <= r < k && 0 <= c < types.len() implies data.subrange(
        cell_offset(types, long_string_refs, rows.len(), r, c),
        cell_offset(types, long_string_refs, rows.len(), r, c) + cell_width(
            types[c],
            long_string_refs,
        ),
    ) == cell_bytes(types[c], long_string_refs, rows[r][c]) by {
        lemma_table_bytes_cell(types, long_string_refs, rows, types.len() as int, r, c);
    }
    assert forall|r: int| 0 <= r < k implies #[trigger] back[r] == rows[r] by {
        assert(rows[r].len() == types.len());
        assert forall|c: int| 0 <= c < types.len() implies back[r][c] == rows[r][c] by {
            lemma_table_bytes_cell(types, long_string_refs, rows, types.len() as int, r, c);
            assert(cell_raw(types[c], long_string_refs, rows[r][c]).is_some());
            lemma_cell_round_trip(types[c], long_string_refs, rows[r][c]);
        }
        assert(back[r] =~= rows[r]);
    }
    assert(back =~= rows);
}

} // verus!
