use vstd::prelude::*;
use crate::stringpool::StringRef;
use crate::value::ValueRef;

verus! {

/// The kind of data that a column holds, which fixes how its cells are
/// laid out in a table's stream.
#[derive(Clone, Copy, Debug, PartialEq, Eq, Structural)]
pub enum ColumnType {
    /// A two-byte integer.
    Int16,
    /// A four-byte integer.
    Int32,
    /// A reference into the string pool.
    Str,
}

/// Why a cell cannot be read or written.
#[derive(Clone, Copy, Debug, PartialEq, Eq, Structural)]
pub enum CellError {
    /// The stream ends before the cell does.
    Truncated,
    /// The value is of another kind than the column, or too large for the
    /// cell's width.
    DoesNotFit,
}

/// What byte `i` of a little-endian number counts for.
pub open spec fn place(i: int) -> nat {
    if i <= 0 {
        1
    } else if i == 1 {
        0x100
    } else if i == 2 {
        0x1_0000
    } else {
        0x100_0000
    }
}

/// The little-endian bytes of `raw`, `width` of them.
pub open spec fn le_bytes(raw: nat, width: nat) -> Seq<u8> {
    Seq::new(width, |i: int| ((raw / place(i)) % 256) as u8)
}

/// The number that up to four little-endian bytes stand for.
pub open spec fn le_value(bytes: Seq<u8>) -> nat {
    (if bytes.len() > 0 { bytes[0] as nat } else { 0 })
        + (if bytes.len() > 1 { bytes[1] as nat * 0x100 } else { 0 })
        + (if bytes.len() > 2 { bytes[2] as nat * 0x1_0000 } else { 0 })
        + (if bytes.len() > 3 { bytes[3] as nat * 0x100_0000 } else { 0 })
}

/// The largest number that a cell of `width` bytes can hold.
pub open spec fn max_raw(width: nat) -> nat {
    if width == 2 {
        0xffff
    } else if width == 3 {
        0xff_ffff
    } else {
        0xffff_ffff
    }
}

/// The width in bytes of one cell of a column.
pub open spec fn cell_width(coltype: ColumnType, long_string_refs: bool) -> nat {
    match coltype {
        ColumnType::Int16 => 2,
        ColumnType::Int32 => 4,
        ColumnType::Str => if long_string_refs { 3 } else { 2 },
    }
}

/// The number stored for a value, where the value fits the cell.  Null is
/// stored as zero; an integer is stored with half the cell's range added,
/// so that the least integer of that range has no cell; a string handle is
/// stored as its number.
pub open spec fn cell_raw(coltype: ColumnType, long_string_refs: bool, value_ref: ValueRef)
    -> Option<nat> {
    match (coltype, value_ref) {
        (_, ValueRef::Null) => Some(0nat),
        (ColumnType::Int16, ValueRef::Int(number)) => if -0x8000 < number < 0x8000 {
            Some((number + 0x8000) as nat)
        } else {
            None
        },
        (ColumnType::Int32, ValueRef::Int(number)) => if -0x8000_0000 < number {
            Some((number + 0x8000_0000) as nat)
        } else {
            None
        },
        (ColumnType::Str, ValueRef::Str(string_ref)) => if 0 < string_ref.number <= max_raw(
            cell_width(coltype, long_string_refs),
        ) {
            Some(string_ref.number as nat)
        } else {
            None
        },
        _ => None,
    }
}

/// The value that a stored number stands for.
pub open spec fn raw_cell(coltype: ColumnType, raw: nat) -> ValueRef {
    if raw == 0 {
        ValueRef::Null
    } else {
        match coltype {
            ColumnType::Int16 => ValueRef::Int((raw - 0x8000) as i32),
            ColumnType::Int32 => ValueRef::Int((raw - 0x8000_0000) as i32),
            ColumnType::Str => ValueRef::Str(StringRef { number: raw as usize }),
        }
    }
}

/// The bytes of the cell that holds `value_ref`, where it fits.
pub open spec fn cell_bytes(coltype: ColumnType, long_string_refs: bool, value_ref: ValueRef)
    -> Seq<u8>
    recommends
        cell_raw(coltype, long_string_refs, value_ref).is_some(),
{
    le_bytes(
        cell_raw(coltype, long_string_refs, value_ref).unwrap(),
        cell_width(coltype, long_string_refs),
    )
}

/// The value of the cell of `coltype` that starts at `offset` in `data`.
pub open spec fn cell_at(coltype: ColumnType, long_string_refs: bool, data: Seq<u8>, offset: int)
    -> ValueRef {
    raw_cell(
        coltype,
        le_value(data.subrange(offset, offset + cell_width(coltype, long_string_refs))),
    )
}

impl ColumnType {
    /// Returns the width in bytes of one cell of this type.
    pub fn width(&self, long_string_refs: bool) -> (w: usize)
        ensures
            w == cell_width(*self, long_string_refs),
    {
        match *self {
            ColumnType::Int16 => 2,
            ColumnType::Int32 => 4,
            ColumnType::Str => if long_string_refs {
                3
            } else {
                2
            },
        }
    }

    /// Reads the cell that starts at `offset` in `data`.  A cell that the
    /// stream does not hold whole is refused.
    pub fn read_value(&self, data: &[u8], offset: usize, long_string_refs: bool) -> (r: Result<
        ValueRef,
        CellError,
    >)
        ensures
            r.is_ok() == (offset + cell_width(*self, long_string_refs) <= data@.len()),
            r.is_ok() ==> r.unwrap() == cell_at(*self, long_string_refs, data@, offset as int),
            r.is_err() ==> r == Err::<ValueRef, CellError>(CellError::Truncated),
    {
        let width: usize = self.width(long_string_refs);
        if offset > data.len() || data.len() - offset < width {
            Err(CellError::Truncated)
        } else {
            Ok(self.read_cell(data, offset, long_string_refs))
        }
    }

    /// Reads the cell that starts at `offset` in `data`, which holds it
    /// whole.
    pub fn read_cell(&self, data: &[u8], offset: usize, long_string_refs: bool) -> (value_ref:
        ValueRef)
        requires
            offset + cell_width(*self, long_string_refs) <= data@.len(),
        ensures
            value_ref == cell_at(*self, long_string_refs, data@, offset as int),
    {
        let width: usize = self.width(long_string_refs);
        let ghost cell = data@.subrange(offset as int, offset + width);
        assert(cell[0] == data@[offset as int]);
        assert(cell[1] == data@[offset + 1]);
        let mut raw: u64 = data[offset] as u64 + data[offset + 1] as u64 * 0x100;
        if width > 2 {
            assert(cell[2] == data@[offset + 2]);
            raw = raw + data[offset + 2] as u64 * 0x1_0000;
        }
        if width > 3 {
            assert(cell[3] == data@[offset + 3]);
            raw = raw + data[offset + 3] as u64 * 0x100_0000;
        }
        assert(raw == le_value(cell));
        if raw == 0 {
            ValueRef::Null
        } else {
            match *self {
                ColumnType::Int16 => ValueRef::Int((raw as i64 - 0x8000) as i32),
                ColumnType::Int32 => ValueRef::Int((raw as i64 - 0x8000_0000) as i32),
                ColumnType::Str => ValueRef::Str(StringRef { number: raw as usize }),
            }
        }
    }

    /// Returns the number to store for `value_ref`, if the value fits a cell
    /// of this type.
    fn raw_value(&self, value_ref: ValueRef, long_string_refs: bool) -> (raw: Option<u64>)
        ensures
            raw.is_some() == cell_raw(*self, long_string_refs, value_ref).is_some(),
            raw.is_some() ==> raw.unwrap() == cell_raw(*self, long_string_refs, value_ref).unwrap()
                && raw.unwrap() <= max_raw(cell_width(*self, long_string_refs)),
    {
        match value_ref {
            ValueRef::Null => Some(0),
            ValueRef::Int(number) => match *self {
                ColumnType::Int16 => if -0x8000 < number && number < 0x8000 {
                    Some((number as i64 + 0x8000) as u64)
                } else {
                    None
                },
                ColumnType::Int32 => if -0x8000_0000 < number {
                    Some((number as i64 + 0x8000_0000) as u64)
                } else {
                    None
                },
                ColumnType::Str => None,
            },
            ValueRef::Str(string_ref) => match *self {
                ColumnType::Str => {
                    let limit: usize = if long_string_refs {
                        0xff_ffff
                    } else {
                        0xffff
                    };
                    if 0 < string_ref.number && string_ref.number <= limit {
                        Some(string_ref.number as u64)
                    } else {
                        None
                    }
                },
                _ => None,
            },
        }
    }

    /// Appends the cell that holds `value_ref` to `out`.  A value that does
    /// not fit the cell is refused, and `out` is left as it was.
    pub fn write_value(&self, out: &mut Vec<u8>, value_ref: ValueRef, long_string_refs: bool) -> (r:
        Result<(), CellError>)
        ensures
            r.is_ok() == cell_raw(*self, long_string_refs, value_ref).is_some(),
            r.is_ok() ==> final(out)@ == old(out)@ + cell_bytes(*self, long_string_refs, value_ref),
            r.is_err() ==> final(out)@ == old(out)@ && r == Err::<(), CellError>(
                CellError::DoesNotFit,
            ),
    {
        let width: usize = self.width(long_string_refs);
        match self.raw_value(value_ref, long_string_refs) {
            None => Err(CellError::DoesNotFit),
            Some(raw) => {
                out.push((raw % 256) as u8);
                out.push(((raw / 0x100) % 256) as u8);
                if width > 2 {
                    out.push(((raw / 0x1_0000) % 256) as u8);
                }
                if width > 3 {
                    out.push(((raw / 0x100_0000) % 256) as u8);
                }
                assert(out@ =~= old(out)@ + cell_bytes(*self, long_string_refs, value_ref));
                Ok(())
            },
        }
    }
}

/// A cell that is written and read again gives the value that was written.
pub proof fn lemma_cell_round_trip(coltype: ColumnType, long_string_refs: bool, value_ref: ValueRef)
    requires
        cell_raw(coltype, long_string_refs, value_ref).is_some(),
    ensures
        cell_bytes(coltype, long_string_refs, value_ref).len() == cell_width(
            coltype,
            long_string_refs,
        ),
        raw_cell(coltype, le_value(cell_bytes(coltype, long_string_refs, value_ref))) == value_ref,
{
    let raw = cell_raw(coltype, long_string_refs, value_ref).unwrap();
    let width = cell_width(coltype, long_string_refs);
    let bytes = le_bytes(raw, width);
    assert(raw <= max_raw(width));
    assert(bytes[0] == (raw % 256) as u8);
    assert(bytes[1] == ((raw / 0x100) % 256) as u8);
    if width > 2 {
        assert(bytes[2] == ((raw / 0x1_0000) % 256) as u8);
    }
    if width > 3 {
        assert(bytes[3] == ((raw / 0x100_0000) % 256) as u8);
    }
    assert(le_value(bytes) == raw);
}

/// One column of a table: its name, its type, and whether it is part of
/// the table's primary key.
pub struct Column {
    name: String,
    coltype: ColumnType,
    is_primary_key: bool,
}

impl Column {
    /// The column's name, as a sequence of characters.
    pub closed spec fn spec_name(&self) -> Seq<char> {
        self.name@
    }

    /// The column's type.
    pub closed spec fn spec_coltype(&self) -> ColumnType {
        self.coltype
    }

    /// Whether the column is part of the primary key.
    pub closed spec fn spec_is_primary_key(&self) -> bool {
        self.is_primary_key
    }

    /// Creates a column.
    pub fn new(name: String, coltype: ColumnType, is_primary_key: bool) -> (column: Column)
        ensures
            column.spec_name() == name@,
            column.spec_coltype() == coltype,
            column.spec_is_primary_key() == is_primary_key,
    {
        Column { name, coltype, is_primary_key }
    }

    /// Returns the name of the column.
    pub fn name(&self) -> (name: &str)
        ensures
            name@ == self.spec_name(),
    {
        self.name.as_str()
    }

    /// Returns true if the column has the given name.
    pub fn has_name(&self, name: &String) -> (same: bool)
        ensures
            same == (self.spec_name() == name@),
    {
        self.name == *name
    }

    /// Returns the type of data stored in the column.
    pub fn coltype(&self) -> (coltype: ColumnType)
        ensures
            coltype == self.spec_coltype(),
    {
        self.coltype
    }

    /// Returns true if this is a primary key column.
    pub fn is_primary_key(&self) -> (flag: bool)
        ensures
            flag == self.spec_is_primary_key(),
    {
        self.is_primary_key
    }
}

} // verus!
