use vstd::prelude::*;
use crate::column::{cell_at, cell_bytes, cell_raw, cell_width, CellError, Column, ColumnType};
use crate::stringpool::{Slot, StringPool};
use crate::value::{deref_value, readable, Value, ValueRef, ValueView};

verus! {

/// The types of a sequence of columns, in the same order.
pub open spec fn types_of(columns: Seq<Column>) -> Seq<ColumnType> {
    Seq::new(columns.len(), |c: int| columns[c].spec_coltype())
}

/// The summed cell width of the first `n` columns.
pub open spec fn prefix_width(types: Seq<ColumnType>, long_string_refs: bool, n: int) -> nat
    decreases n,
{
    if n <= 0 {
        0
    } else {
        prefix_width(types, long_string_refs, n - 1) + cell_width(types[n - 1], long_string_refs)
    }
}

/// The width in bytes of one row: the sum of the widths of its cells.
pub open spec fn row_width(types: Seq<ColumnType>, long_string_refs: bool) -> nat {
    prefix_width(types, long_string_refs, types.len() as int)
}

/// The number of rows in a stream of `length` bytes: as many whole rows as
/// fit, and none where a row has no width.
pub open spec fn row_count(types: Seq<ColumnType>, long_string_refs: bool, length: nat) -> nat {
    if row_width(types, long_string_refs) == 0 {
        0
    } else {
        length / row_width(types, long_string_refs)
    }
}

/// Where the cell of row `r` and column `c` starts in a stream of
/// `num_rows` rows.  The layout is column-major: all cells of one column
/// stand together, in row order, and the columns follow each other in
/// schema order.
pub open spec fn cell_offset(
    types: Seq<ColumnType>,
    long_string_refs: bool,
    num_rows: nat,
    r: int,
    c: int,
) -> int {
    num_rows * prefix_width(types, long_string_refs, c) + r * cell_width(types[c], long_string_refs)
}

/// The rows that a stream holds.
pub open spec fn decoded(types: Seq<ColumnType>, long_string_refs: bool, data: Seq<u8>) -> Seq<
    Seq<ValueRef>,
> {
    let num_rows = row_count(types, long_string_refs, data.len());
    Seq::new(
        num_rows,
        |r: int|
            Seq::new(
                types.len(),
                |c: int|
                    cell_at(
                        types[c],
                        long_string_refs,
                        data,
                        cell_offset(types, long_string_refs, num_rows, r, c),
                    ),
            ),
    )
}

/// The cells of column `c` for the first `n` rows, in row order.
pub open spec fn column_bytes(
    coltype: ColumnType,
    long_string_refs: bool,
    rows: Seq<Seq<ValueRef>>,
    c: int,
    n: int,
) -> Seq<u8>
    decreases n,
{
    if n <= 0 {
        Seq::empty()
    } else {
        column_bytes(coltype, long_string_refs, rows, c, n - 1) + cell_bytes(
            coltype,
            long_string_refs,
            rows[n - 1][c],
        )
    }
}

/// The stream that holds the first `n` columns of `rows`.
pub open spec fn table_bytes(
    types: Seq<ColumnType>,
    long_string_refs: bool,
    rows: Seq<Seq<ValueRef>>,
    n: int,
) -> Seq<u8>
    decreases n,
{
    if n <= 0 {
        Seq::empty()
    } else {
        table_bytes(types, long_string_refs, rows, n - 1) + column_bytes(
            types[n - 1],
            long_string_refs,
            rows,
            n - 1,
            rows.len() as int,
        )
    }
}

/// The stream that holds `rows`.
pub open spec fn encoded(types: Seq<ColumnType>, long_string_refs: bool, rows: Seq<Seq<ValueRef>>)
    -> Seq<u8> {
    table_bytes(types, long_string_refs, rows, types.len() as int)
}

/// Every row has one cell for each column.
pub open spec fn rectangular(rows: Seq<Seq<ValueRef>>, num_columns: nat) -> bool {
    forall|r: int| 0 <= r < rows.len() ==> (#[trigger] rows[r]).len() == num_columns
}

/// Every value fits the cell of its column.
pub open spec fn all_fit(types: Seq<ColumnType>, long_string_refs: bool, rows: Seq<Seq<ValueRef>>)
    -> bool {
    forall|r: int, c: int|
        0 <= r < rows.len() && 0 <= c < types.len() ==> (#[trigger] cell_raw(
            types[c],
            long_string_refs,
            rows[r][c],
        )).is_some()
}

/// The rows of a vector of vectors, each as a sequence.
pub open spec fn rows_view(rows: Seq<Vec<ValueRef>>) -> Seq<Seq<ValueRef>> {
    Seq::new(rows.len(), |r: int| rows[r]@)
}

/// The indices among the first `n` columns that are flagged primary key,
/// in schema order.
pub open spec fn key_indices(columns: Seq<Column>, n: int) -> Seq<usize>
    decreases n,
{
    if n <= 0 {
        Seq::empty()
    } else if columns[n - 1].spec_is_primary_key() {
        key_indices(columns, n - 1).push((n - 1) as usize)
    } else {
        key_indices(columns, n - 1)
    }
}

/// Whether `index` is that of the first column called `name`.
pub open spec fn first_named(columns: Seq<Column>, name: Seq<char>, index: int) -> bool {
    &&& 0 <= index < columns.len()
    &&& columns[index].spec_name() == name
    &&& forall|j: int| 0 <= j < index ==> (#[trigger] columns[j]).spec_name() != name
}

/// Whether some column is called `name`.
pub open spec fn has_column(columns: Seq<Column>, name: Seq<char>) -> bool {
    exists|j: int| 0 <= j < columns.len() && (#[trigger] columns[j]).spec_name() == name
}

/// The width of the first columns never exceeds that of more columns.
pub proof fn lemma_prefix_width_grows(
    types: Seq<ColumnType>,
    long_string_refs: bool,
    n: int,
    m: int,
)
    requires
        n <= m,
    ensures
        prefix_width(types, long_string_refs, n) <= prefix_width(types, long_string_refs, m),
    decreases m - n,
{
    if n < m {
        lemma_prefix_width_grows(types, long_string_refs, n, m - 1);
    }
}

/// Every cell of every row lies inside the stream, within the block of its
/// column.
pub proof fn lemma_cell_in_bounds(
    types: Seq<ColumnType>,
    long_string_refs: bool,
    length: nat,
    r: int,
    c: int,
)
    requires
        0 <= c < types.len(),
        0 <= r < row_count(types, long_string_refs, length),
    ensures
        0 <= cell_offset(types, long_string_refs, row_count(types, long_string_refs, length), r, c),
        cell_offset(types, long_string_refs, row_count(types, long_string_refs, length), r, c)
            + cell_width(types[c], long_string_refs) <= row_count(types, long_string_refs, length)
            * prefix_width(types, long_string_refs, c + 1),
        row_count(types, long_string_refs, length) * prefix_width(types, long_string_refs, c + 1)
            <= length,
{
    let n = row_count(types, long_string_refs, length) as int;
    let w = cell_width(types[c], long_string_refs) as int;
    let before = prefix_width(types, long_string_refs, c) as int;
    let after = prefix_width(types, long_string_refs, c + 1) as int;
    let whole = row_width(types, long_string_refs) as int;
    lemma_prefix_width_grows(types, long_string_refs, c + 1, types.len() as int);
    assert(after == before + w);
    assert(n * after == n * before + n * w) by (nonlinear_arith)
        requires
            after == before + w,
    ;
    assert(r * w + w <= n * w) by (nonlinear_arith)
        requires
            0 <= r < n,
            0 <= w,
    ;
    assert(0 <= n * before && 0 <= r * w) by (nonlinear_arith)
        requires
            0 <= n,
            0 <= before,
            0 <= r,
            0 <= w,
    ;
    assert(n * after <= n * whole) by (nonlinear_arith)
        requires
            0 <= n,
            after <= whole,
    ;
    assert(n * whole <= length) by (nonlinear_arith)
        requires
            whole > 0,
            n == length as int / whole,
    ;
}

/// A database table: its name, its columns in schema order, and the width
/// policy for string references.
pub struct Table {
    name: String,
    columns: Vec<Column>,
    long_string_refs: bool,
}

impl Table {
    /// The table's name, as a sequence of characters.
    pub closed spec fn spec_name(&self) -> Seq<char> {
        self.name@
    }

    /// The table's columns, in schema order.
    pub closed spec fn spec_columns(&self) -> Seq<Column> {
        self.columns@
    }

    /// Whether string references take the long width.
    pub closed spec fn spec_long_string_refs(&self) -> bool {
        self.long_string_refs
    }

    /// The types of the table's columns, in schema order.
    pub open spec fn types(&self) -> Seq<ColumnType> {
        types_of(self.spec_columns())
    }

    /// Creates a new table object with the given name and columns.  The
    /// `long_string_refs` argument indicates the size of any encoded string
    /// refs.
    pub fn new(name: String, columns: Vec<Column>, long_string_refs: bool) -> (table: Table)
        ensures
            table.spec_name() == name@,
            table.spec_columns() == columns@,
            table.spec_long_string_refs() == long_string_refs,
    {
        Table { name: name, columns: columns, long_string_refs: long_string_refs }
    }

    /// Returns the name of the table.
    pub fn name(&self) -> (name: &str)
        ensures
            name@ == self.spec_name(),
    {
        self.name.as_str()
    }

    /// Returns the list of columns in this table.
    pub fn columns(&self) -> (columns: &[Column])
        ensures
            columns@ == self.spec_columns(),
    {
        self.columns.as_slice()
    }

    /// Returns true if string references take the long width.
    pub fn long_string_refs(&self) -> (flag: bool)
        ensures
            flag == self.spec_long_string_refs(),
    {
        self.long_string_refs
    }

    /// Returns the indices of table's primary key columns.
    pub fn primary_key_indices(&self) -> (indices: Vec<usize>)
        ensures
            indices@ == key_indices(self.spec_columns(), self.spec_columns().len() as int),
    {
        let mut indices: Vec<usize> = Vec::new();
        let mut index: usize = 0;
        while index < self.columns.len()
            invariant
                index <= self.columns@.len(),
                indices@ == key_indices(self.columns@, index as int),
            decreases self.columns@.len() - index,
        {
            if self.columns[index].is_primary_key() {
                indices.push(index);
            }
            index += 1;
        }
        indices
    }

    /// Returns the index of the first column with the given name, if the
    /// table has such a column.
    pub fn find_column(&self, column_name: &str) -> (found: Option<usize>)
        ensures
            found.is_some() == has_column(self.spec_columns(), column_name@),
            found.is_some() ==> first_named(
                self.spec_columns(),
                column_name@,
                found.unwrap() as int,
            ),
    {
        let wanted: String = column_name.to_owned();
        let mut index: usize = 0;
        while index < self.columns.len()
            invariant
                index <= self.columns@.len(),
                wanted@ == column_name@,
                forall|j: int| 0 <= j < index ==> (#[trigger] self.columns@[j]).spec_name() != wanted@,
            decreases self.columns@.len() - index,
        {
            if self.columns[index].has_name(&wanted) {
                return Some(index);
            }
            index += 1;
        }
        None
    }

    /// Returns the index of the first column with the given name.  The
    /// table has to have such a column.
    pub fn index_for_column_name(&self, column_name: &str) -> (index: usize)
        requires
            has_column(self.spec_columns(), column_name@),
        ensures
            first_named(self.spec_columns(), column_name@, index as int),
    {
        self.find_column(column_name).unwrap()
    }

    /// Returns the width of one row, or nothing where it is more than
    /// `limit`.
    fn row_size_within(&self, limit: usize) -> (size: Option<usize>)
        ensures
            size.is_some() == (row_width(self.types(), self.spec_long_string_refs()) <= limit),
            size.is_some() ==> size.unwrap() == row_width(
                self.types(),
                self.spec_long_string_refs(),
            ),
    {
        let ghost types = self.types();
        let mut size: usize = 0;
        let mut index: usize = 0;
        while index < self.columns.len()
            invariant
                index <= self.columns@.len(),
                types == self.types(),
                types.len() == self.columns@.len(),
                size == prefix_width(types, self.long_string_refs, index as int),
                size <= limit,
            decreases self.columns@.len() - index,
        {
            let width: usize = self.columns[index].coltype().width(self.long_string_refs);
            if limit - size < width {
                proof {
                    lemma_prefix_width_grows(
                        types,
                        self.long_string_refs,
                        index + 1,
                        types.len() as int,
                    );
                }
                return None;
            }
            size = size + width;
            index += 1;
        }
        Some(size)
    }

    /// Returns, for each column, where its block of cells starts in a
    /// stream of `num_rows` rows.
    fn column_starts(&self, num_rows: usize, length: usize) -> (starts: Vec<usize>)
        requires
            num_rows == row_count(self.types(), self.spec_long_string_refs(), length as nat),
            num_rows > 0,
        ensures
            starts@.len() == self.spec_columns().len(),
            forall|c: int|
                0 <= c < starts@.len() ==> #[trigger] starts@[c] == num_rows * prefix_width(
                    self.types(),
                    self.spec_long_string_refs(),
                    c,
                ),
    {
        let ghost types = self.types();
        let mut starts: Vec<usize> = Vec::new();
        let mut start: usize = 0;
        let mut index: usize = 0;
        assert(num_rows * prefix_width(types, self.long_string_refs, 0) == 0) by (nonlinear_arith)
            requires
                prefix_width(types, self.long_string_refs, 0) == 0,
        ;
        while index < self.columns.len()
            invariant
                index <= self.columns@.len(),
                types == self.types(),
                types.len() == self.columns@.len(),
                num_rows == row_count(types, self.long_string_refs, length as nat),
                num_rows > 0,
                start == num_rows * prefix_width(types, self.long_string_refs, index as int),
                starts@.len() == index,
                forall|c: int|
                    0 <= c < index ==> #[trigger] starts@[c] == num_rows * prefix_width(
                        types,
                        self.long_string_refs,
                        c,
                    ),
            decreases self.columns@.len() - index,
        {
            let width: usize = self.columns[index].coltype().width(self.long_string_refs);
            proof {
                lemma_cell_in_bounds(types, self.long_string_refs, length as nat, 0, index as int);
                let before = prefix_width(types, self.long_string_refs, index as int) as int;
                let after = prefix_width(types, self.long_string_refs, index + 1) as int;
                assert(num_rows * after == num_rows * before + num_rows * width)
                    by (nonlinear_arith)
                    requires
                        after == before + width,
                ;
                assert(0 <= num_rows * before) by (nonlinear_arith)
                    requires
                        0 <= num_rows,
                        0 <= before,
                ;
            }
            starts.push(start);
            start = start + num_rows * width;
            index += 1;
        }
        starts
    }

    /// Parses the rows that `data` holds.  The stream is column-major; as
    /// many whole rows are read as fit in it, and none where a row has no
    /// width.  Bytes after the last whole row are ignored.
    pub fn read_rows(&self, data: &[u8]) -> (rows: Vec<Vec<ValueRef>>)
        ensures
            rows_view(rows@) == decoded(self.types(), self.spec_long_string_refs(), data@),
            rows@.len() == row_count(
                self.types(),
                self.spec_long_string_refs(),
                data@.len(),
            ),
            rectangular(rows_view(rows@), self.spec_columns().len()),
            row_width(self.types(), self.spec_long_string_refs()) == 0 ==> rows@.len() == 0,
    {
        let ghost types = self.types();
        let ghost goal = decoded(types, self.long_string_refs, data@);
        let mut rows: Vec<Vec<ValueRef>> = Vec::new();
        let num_rows: usize = match self.row_size_within(data.len()) {
            Some(row_size) => if row_size > 0 {
                data.len() / row_size
            } else {
                0
            },
            None => {
                let ghost whole = row_width(types, self.long_string_refs) as int;
                assert(data@.len() as int / whole == 0) by (nonlinear_arith)
                    requires
                        0 <= data@.len() < whole,
                ;
                0
            },
        };
        if num_rows == 0 {
            assert(rows_view(rows@) =~= goal);
            return rows;
        }
        let num_columns: usize = self.columns.len();
        let starts = self.column_starts(num_rows, data.len());
        let mut r: usize = 0;
        while r < num_rows
            invariant
                r <= num_rows,
                types == self.types(),
                types.len() == self.columns@.len(),
                num_columns == self.columns@.len(),
                num_rows == row_count(types, self.long_string_refs, data@.len()),
                goal == decoded(types, self.long_string_refs, data@),
                starts@.len() == num_columns,
                forall|c: int|
                    0 <= c < starts@.len() ==> #[trigger] starts@[c] == num_rows * prefix_width(
                        types,
                        self.long_string_refs,
                        c,
                    ),
                data@.len() <= usize::MAX,
                rows@.len() == r,
                forall|i: int| 0 <= i < r ==> (#[trigger] rows@[i])@ == goal[i],
            decreases num_rows - r,
        {
            let mut row: Vec<ValueRef> = Vec::new();
            let mut c: usize = 0;
            while c < num_columns
                invariant
                    r < num_rows,
                    c <= num_columns,
                    types == self.types(),
                    types.len() == self.columns@.len(),
                    num_columns == self.columns@.len(),
                    num_rows == row_count(types, self.long_string_refs, data@.len()),
                    goal == decoded(types, self.long_string_refs, data@),
                    starts@.len() == num_columns,
                    forall|c: int|
                        0 <= c < starts@.len() ==> #[trigger] starts@[c] == num_rows
                            * prefix_width(types, self.long_string_refs, c),
                    data@.len() <= usize::MAX,
                    row@.len() == c,
                    forall|j: int| 0 <= j < c ==> #[trigger] row@[j] == goal[r as int][j],
                decreases num_columns - c,
            {
                let coltype = self.columns[c].coltype();
                let width: usize = coltype.width(self.long_string_refs);
                proof {
                    assert(types[c as int] == coltype);
                    lemma_cell_in_bounds(
                        types,
                        self.long_string_refs,
                        data@.len(),
                        r as int,
                        c as int,
                    );
                    assert(starts@[c as int] == num_rows * prefix_width(
                        types,
                        self.long_string_refs,
                        c as int,
                    ));
                    assert(0 <= r * width) by (nonlinear_arith)
                        requires
                            0 <= r,
                            0 <= width,
                    ;
                }
                let offset: usize = starts[c] + r * width;
                let value_ref = coltype.read_cell(data, offset, self.long_string_refs);
                row.push(value_ref);
                c += 1;
            }
            assert(row@ =~= goal[r as int]);
            rows.push(row);
            r += 1;
        }
        assert(rows_view(rows@) =~= goal);
        rows
    }

    /// Encodes `rows` as a stream: column by column in schema order, and
    /// within a column row by row.  A value that does not fit its cell is
    /// refused.
    pub fn write_rows(&self, rows: Vec<Vec<ValueRef>>) -> (r: Result<Vec<u8>, CellError>)
        requires
            rectangular(rows_view(rows@), self.spec_columns().len()),
        ensures
            r.is_ok() == all_fit(self.types(), self.spec_long_string_refs(), rows_view(rows@)),
            r.is_ok() ==> r.unwrap()@ == encoded(
                self.types(),
                self.spec_long_string_refs(),
                rows_view(rows@),
            ),
            r.is_err() ==> r == Err::<Vec<u8>, CellError>(CellError::DoesNotFit),
    {
        let ghost types = self.types();
        let ghost cells = rows_view(rows@);
        let mut out: Vec<u8> = Vec::new();
        let mut index: usize = 0;
        while index < self.columns.len()
            invariant
                index <= self.columns@.len(),
                types == self.types(),
                types.len() == self.columns@.len(),
                cells == rows_view(rows@),
                rectangular(cells, self.columns@.len()),
                out@ == table_bytes(types, self.long_string_refs, cells, index as int),
                forall|r: int, c: int|
                    0 <= r < cells.len() && 0 <= c < index ==> (#[trigger] cell_raw(
                        types[c],
                        self.long_string_refs,
                        cells[r][c],
                    )).is_some(),
            decreases self.columns@.len() - index,
        {
            let coltype = self.columns[index].coltype();
            let ghost done = out@;
            let mut n: usize = 0;
            while n < rows.len()
                invariant
                    n <= rows@.len(),
                    index < self.columns@.len(),
                    types == self.types(),
                    types.len() == self.columns@.len(),
                    coltype == types[index as int],
                    cells == rows_view(rows@),
                    rectangular(cells, self.columns@.len()),
                    out@ == done + column_bytes(
                        coltype,
                        self.long_string_refs,
                        cells,
                        index as int,
                        n as int,
                    ),
                    forall|r: int|
                        0 <= r < n ==> (#[trigger] cell_raw(
                            coltype,
                            self.long_string_refs,
                            cells[r][index as int],
                        )).is_some(),
                decreases rows@.len() - n,
            {
                assert(cells[n as int] == rows@[n as int]@);
                assert(cells[n as int].len() == self.columns@.len());
                let value_ref = rows[n][index];
                match coltype.write_value(&mut out, value_ref, self.long_string_refs) {
                    Ok(()) => {},
                    Err(error) => {
                        assert(cell_raw(
                            types[index as int],
                            self.long_string_refs,
                            cells[n as int][index as int],
                        ).is_none());
                        return Err(error);
                    },
                }
                assert(out@ =~= done + column_bytes(
                    coltype,
                    self.long_string_refs,
                    cells,
                    index as int,
                    n + 1,
                ));
                n += 1;
            }
            assert forall|r: int, c: int|
                0 <= r < cells.len() && 0 <= c < index + 1 implies (#[trigger] cell_raw(
                types[c],
                self.long_string_refs,
                cells[r][c],
            )).is_some() by {
                if c == index {
                    assert(cell_raw(coltype, self.long_string_refs, cells[r][index as int]).is_some());
                }
            }
            index += 1;
        }
        Ok(out)
    }
}

/// The values that a row of references stands for in a pool with these
/// slots.
pub open spec fn deref_row(row: Seq<ValueRef>, slots: Seq<Slot>) -> Seq<ValueView> {
    Seq::new(row.len(), |c: int| deref_value(row[c], slots))
}

/// Every reference in `rows` can be read through a pool with these slots.
pub open spec fn all_readable(rows: Seq<Seq<ValueRef>>, slots: Seq<Slot>) -> bool {
    forall|r: int, c: int|
        0 <= r < rows.len() && 0 <= c < rows[r].len() ==> readable(#[trigger] rows[r][c], slots)
}

/// At most one index is that of the first column called `name`, so a
/// lookup by name has one answer.
pub proof fn lemma_first_named_unique(columns: Seq<Column>, name: Seq<char>, i: int, j: int)
    requires
        first_named(columns, name, i),
        first_named(columns, name, j),
    ensures
        i == j,
{
}

/// One row from a database table.
pub struct Row<'a> {
    table: &'a Table,
    values: Vec<Value>,
}

impl<'a> Row<'a> {
    /// The table that the row belongs to.
    pub closed spec fn spec_table(&self) -> Table {
        *self.table
    }

    /// The row's values, in schema order.
    pub closed spec fn spec_values(&self) -> Seq<ValueView> {
        Seq::new(self.values@.len(), |c: int| self.values@[c]@)
    }

    /// The row has one value for each column of its table.
    pub open spec fn wf(&self) -> bool {
        self.spec_values().len() == self.spec_table().spec_columns().len()
    }

    /// Creates a row of `table` from its values, one for each column.
    pub fn new(table: &'a Table, values: Vec<Value>) -> (row: Row<'a>)
        requires
            values@.len() == table.spec_columns().len(),
        ensures
            row.wf(),
            row.spec_table() == *table,
            row.spec_values() == Seq::new(values@.len(), |c: int| values@[c]@),
    {
        Row { table: table, values: values }
    }

    /// Returns the number of columns in the row.
    pub fn len(&self) -> (n: usize)
        ensures
            n == self.spec_table().spec_columns().len(),
            self.wf() ==> n == self.spec_values().len(),
    {
        self.table.columns().len()
    }

    /// Returns the value in the column with the given index.
    pub fn index(&self, index: usize) -> (value: &Value)
        requires
            index < self.spec_values().len(),
        ensures
            value@ == self.spec_values()[index as int],
    {
        &self.values[index]
    }

    /// Returns the value in the first column with the given name, which
    /// the table has to have: the value at that column's index.
    pub fn index_name(&self, column_name: &str) -> (value: &Value)
        requires
            self.wf(),
            has_column(self.spec_table().spec_columns(), column_name@),
        ensures
            forall|i: int|
                first_named(self.spec_table().spec_columns(), column_name@, i) ==> value@
                    == self.spec_values()[i],
            exists|i: int| first_named(self.spec_table().spec_columns(), column_name@, i),
    {
        let index = self.table.index_for_column_name(column_name);
        &self.values[index]
    }
}

/// A forward-only cursor over the rows of a database table, which reads
/// each row through the string pool when it is asked for.
pub struct Rows<'a> {
    string_pool: &'a StringPool,
    table: &'a Table,
    rows: Vec<Vec<ValueRef>>,
    next_row_index: usize,
}

impl<'a> Rows<'a> {
    /// The slots of the pool that the rows are read through.
    pub closed spec fn spec_pool(&self) -> Seq<Slot> {
        self.string_pool@
    }

    /// The table that the rows belong to.
    pub closed spec fn spec_table(&self) -> Table {
        *self.table
    }

    /// All the rows, read or not.
    pub closed spec fn spec_rows(&self) -> Seq<Seq<ValueRef>> {
        rows_view(self.rows@)
    }

    /// The number of rows that have been handed out.
    pub closed spec fn consumed(&self) -> nat {
        self.next_row_index as nat
    }

    /// The cursor is within the rows, every row has one cell for each
    /// column, and every string handle is live in the pool.
    pub open spec fn wf(&self) -> bool {
        &&& self.consumed() <= self.spec_rows().len()
        &&& rectangular(self.spec_rows(), self.spec_table().spec_columns().len())
        &&& all_readable(self.spec_rows(), self.spec_pool())
    }

    /// Creates a cursor at the first of `rows`.
    pub fn new(string_pool: &'a StringPool, table: &'a Table, rows: Vec<Vec<ValueRef>>) -> (cursor:
        Rows<'a>)
        requires
            rectangular(rows_view(rows@), table.spec_columns().len()),
            all_readable(rows_view(rows@), string_pool@),
        ensures
            cursor.wf(),
            cursor.consumed() == 0,
            cursor.spec_rows() == rows_view(rows@),
            cursor.spec_pool() == string_pool@,
            cursor.spec_table() == *table,
    {
        Rows { table: table, string_pool: string_pool, rows: rows, next_row_index: 0 }
    }

    /// Hands out the next row, if one is left, and moves the cursor past
    /// it.  Once every row has been handed out, there is no next row, and
    /// the cursor stays where it is.
    pub fn next(&mut self) -> (next: Option<Row<'a>>)
        requires
            old(self).wf(),
        ensures
            final(self).wf(),
            final(self).spec_rows() == old(self).spec_rows(),
            final(self).spec_pool() == old(self).spec_pool(),
            final(self).spec_table() == old(self).spec_table(),
            next.is_some() == (old(self).consumed() < old(self).spec_rows().len()),
            next.is_some() ==> final(self).consumed() == old(self).consumed() + 1,
            next.is_some() ==> next.unwrap().wf() && next.unwrap().spec_table() == old(
                self,
            ).spec_table() && next.unwrap().spec_values() == deref_row(
                old(self).spec_rows()[old(self).consumed() as int],
                old(self).spec_pool(),
            ),
            next.is_none() ==> final(self).consumed() == old(self).consumed(),
    {
        if self.next_row_index < self.rows.len() {
            let ghost cells = self.spec_rows()[self.next_row_index as int];
            let ghost slots = self.string_pool@;
            assert(cells == self.rows@[self.next_row_index as int]@);
            let mut values: Vec<Value> = Vec::new();
            let width: usize = self.rows[self.next_row_index].len();
            let mut c: usize = 0;
            while c < width
                invariant
                    c <= width,
                    self.next_row_index < self.rows@.len(),
                    width == cells.len(),
                    cells == self.rows@[self.next_row_index as int]@,
                    slots == self.string_pool@,
                    forall|j: int| 0 <= j < cells.len() ==> readable(#[trigger] cells[j], slots),
                    values@.len() == c,
                    forall|j: int| 0 <= j < c ==> (#[trigger] values@[j])@ == deref_value(cells[j], slots),
                decreases width - c,
            {
                let value = self.rows[self.next_row_index][c].to_value(self.string_pool);
                values.push(value);
                c += 1;
            }
            self.next_row_index += 1;
            let row = Row::new(self.table, values);
            assert(row.spec_values() =~= deref_row(cells, slots));
            Some(row)
        } else {
            None
        }
    }

    /// Returns the number of rows that have not been handed out yet, as
    /// the lower and the upper bound of what is left.
    pub fn size_hint(&self) -> (hint: (usize, Option<usize>))
        requires
            self.wf(),
        ensures
            hint.0 == self.spec_rows().len() - self.consumed(),
            hint.1 == Some(hint.0),
    {
        let remaining_rows: usize = self.rows.len() - self.next_row_index;
        (remaining_rows, Some(remaining_rows))
    }
}

} // verus!
