//! What a schema says: the rows that are recorded while a value is
//! written, and how each step of writing changes them.
use crate::text::decimal;
use vstd::prelude::*;

verus! {

/// What a row of a schema says.
pub struct SchemaRowView {
    pub field: Seq<char>,
    pub ty: Seq<char>,
    pub offset: nat,
    pub size: nat,
    pub align: nat,
}

/// The names of the first `n` parts of a path, joined by dots.
pub open spec fn join_path(parts: Seq<Seq<char>>, n: nat) -> Seq<char>
    decreases n,
{
    if n == 0 || n > parts.len() {
        Seq::empty()
    } else if n == 1 {
        parts[0]
    } else {
        join_path(parts, (n - 1) as nat) + seq!['.'] + parts[n - 1]
    }
}

/// The index at which the last run of rows begins whose offsets are all at
/// least `off`, among the first `n` rows.
pub open spec fn tail_start(rows: Seq<SchemaRowView>, off: nat, n: nat) -> nat
    decreases n,
{
    if n == 0 || n > rows.len() {
        0
    } else if rows[n - 1].offset < off {
        n
    } else {
        tail_start(rows, off, (n - 1) as nat)
    }
}

/// A row moved on by `by` bytes.
pub open spec fn moved(row: SchemaRowView, by: nat) -> SchemaRowView {
    SchemaRowView { offset: row.offset + by, ..row }
}

/// The rows after padding was met: the last row, and the rows before it
/// without a gap that start no earlier than it, are moved on by the
/// padding. They are the rows of the values that begin where the padding
/// begins, and so begin after it.
pub open spec fn shift_tail(rows: Seq<SchemaRowView>, by: nat) -> Seq<SchemaRowView> {
    if rows.len() == 0 {
        rows
    } else {
        let from = tail_start(rows, rows.last().offset, rows.len());
        Seq::new(
            rows.len(),
            |i: int|
                if i >= from {
                    moved(rows[i], by)
                } else {
                    rows[i]
                },
        )
    }
}

/// The row that stands for `pad` bytes of padding at the offset `pos`.
pub open spec fn padding_row(pos: nat, pad: nat) -> SchemaRowView {
    SchemaRowView {
        field: "PADDING"@,
        ty: "[u8; "@ + decimal(pad) + "]"@,
        offset: pos,
        size: pad,
        align: 1,
    }
}

/// The rows after `pad` bytes of padding were written at the offset `pos`.
pub open spec fn padded_rows(rows: Seq<SchemaRowView>, pos: nat, pad: nat) -> Seq<SchemaRowView> {
    if pad == 0 {
        rows
    } else {
        shift_tail(rows, pad).push(padding_row(pos, pad))
    }
}

/// What a writer of fields has been told so far: the rows of the schema,
/// the names of the fields that have begun and not ended, outermost first,
/// and the indices of their rows.
pub struct Trace {
    pub rows: Seq<SchemaRowView>,
    pub path: Seq<Seq<char>>,
    pub open: Seq<nat>,
}

impl Trace {
    /// The trace of a writer that has been told nothing.
    pub open spec fn empty() -> Trace {
        Trace { rows: Seq::empty(), path: Seq::empty(), open: Seq::empty() }
    }

    /// The name of a field named `name` at this point: the names of the
    /// fields around it and its own, joined by dots.
    pub open spec fn field_name(self, name: Seq<char>) -> Seq<char> {
        join_path(self.path.push(name), self.path.len() + 1)
    }

    /// The trace after `pad` bytes of padding were written at the position
    /// `pos`.
    pub open spec fn padded(self, pos: nat, pad: nat) -> Trace {
        Trace { rows: padded_rows(self.rows, pos, pad), ..self }
    }

    /// The trace after `size` bytes were written at the position `pos` as a
    /// field named `name`, whose type is named `ty` and asks for the
    /// alignment `align`.
    pub open spec fn with_bytes(
        self,
        name: Seq<char>,
        ty: Seq<char>,
        pos: nat,
        size: nat,
        align: nat,
    ) -> Trace {
        Trace {
            rows: self.rows.push(
                SchemaRowView { field: self.field_name(name), ty, offset: pos, size, align },
            ),
            ..self
        }
    }

    /// The trace after a field named `name` has begun at the position
    /// `pos`: it has a row, of size 0 for the time being.
    pub open spec fn begun(self, name: Seq<char>, ty: Seq<char>, pos: nat, align: nat) -> Trace {
        Trace {
            rows: self.rows.push(
                SchemaRowView { field: self.field_name(name), ty, offset: pos, size: 0, align },
            ),
            path: self.path.push(name),
            open: self.open.push(self.rows.len()),
        }
    }

    /// The trace after the field that began last has ended at the position
    /// `pos`: the size of its row is the distance from the row's offset to
    /// the position.
    pub open spec fn ended(self, pos: nat) -> Trace {
        if self.open.len() == 0 || self.path.len() == 0 {
            self
        } else {
            let mark = self.open.last() as int;
            Trace {
                rows: if mark < self.rows.len() {
                    self.rows.update(
                        mark,
                        SchemaRowView {
                            size: (pos - self.rows[mark].offset) as nat,
                            ..self.rows[mark]
                        },
                    )
                } else {
                    self.rows
                },
                path: self.path.drop_last(),
                open: self.open.drop_last(),
            }
        }
    }
}

} // verus!
