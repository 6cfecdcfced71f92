//! The schema of a serialized stream: one row for each field that was
//! written, and its rendering as a table.
use crate::align::{pad_align_to, zeros};
use crate::error::Error;
use crate::names::{spec_ty_name, ty_name};
use crate::rows::{join_path, moved, padding_row, shift_tail, tail_start, SchemaRowView, Trace};
use crate::text::{decimal, hex_list, push_decimal, push_hex_list};
use crate::types::TypeDesc;
use crate::writer::{write_zeros, FieldWrite, WriteNoStd};
use vstd::prelude::*;

verus! {

/// A row of the schema: one field of the serialized stream.
#[derive(Debug, Clone)]
pub struct SchemaRow {
    /// Name of the field, with the names of the fields around it in front,
    /// separated by dots.
    pub field: String,
    /// Name of the field's type.
    pub ty: String,
    /// Offset of the field from the start of the stream.
    pub offset: usize,
    /// Length of the field in bytes.
    pub size: usize,
    /// Alignment that the field asks for.
    pub align: usize,
}

impl View for SchemaRow {
    type V = SchemaRowView;

    open spec fn view(&self) -> SchemaRowView {
        SchemaRowView {
            field: self.field@,
            ty: self.ty@,
            offset: self.offset as nat,
            size: self.size as nat,
            align: self.align as nat,
        }
    }
}

/// The rows recorded while one value was serialized, in the order in which
/// the fields were met. The rows are not sorted by offset.
#[derive(Debug, Clone)]
pub struct Schema(pub Vec<SchemaRow>);

impl View for Schema {
    type V = Seq<SchemaRowView>;

    open spec fn view(&self) -> Seq<SchemaRowView> {
        Seq::new(self.0@.len(), |i: int| self.0@[i]@)
    }
}

impl Default for Schema {
    fn default() -> (schema: Schema)
        ensures
            schema@ == Seq::<SchemaRowView>::empty(),
    {
        let schema = Schema(Vec::new());
        assert(schema@ =~= Seq::<SchemaRowView>::empty());
        schema
    }
}

/// The first line of the table that [`Schema::to_csv`] renders.
pub open spec fn csv_header() -> Seq<char> {
    "field,offset,align,size,ty\n"@
}

/// The first line of the table that [`Schema::debug`] renders.
pub open spec fn debug_header() -> Seq<char> {
    "field,offset,align,size,ty,bytes\n"@
}

/// The columns that both tables share: field, offset, alignment, size and
/// type, separated by commas.
pub open spec fn csv_columns(row: SchemaRowView) -> Seq<char> {
    row.field + seq![','] + decimal(row.offset) + seq![','] + decimal(row.align) + seq![',']
        + decimal(row.size) + seq![','] + row.ty
}

/// One line of the table that [`Schema::to_csv`] renders.
pub open spec fn csv_line(row: SchemaRowView) -> Seq<char> {
    csv_columns(row) + seq!['\n']
}

/// The lines of the first `n` rows, one after the other.
pub open spec fn csv_lines(rows: Seq<SchemaRowView>, n: nat) -> Seq<char>
    decreases n,
{
    if n == 0 {
        Seq::empty()
    } else {
        csv_lines(rows, (n - 1) as nat) + csv_line(rows[n - 1])
    }
}

/// Whether the debug table shows the bytes of row `i`: it does so unless the
/// next row starts at the same offset, which marks row `i` as a composite
/// whose parts follow.
pub open spec fn shows_bytes(rows: Seq<SchemaRowView>, i: int) -> bool {
    i + 1 >= rows.len() || rows[i].offset != rows[i + 1].offset
}

/// Whether the rows whose bytes the debug table shows lie within `data`.
pub open spec fn rows_within(rows: Seq<SchemaRowView>, data: Seq<u8>) -> bool {
    forall|i: int|
        0 <= i < rows.len() && #[trigger] shows_bytes(rows, i) ==> rows[i].offset + rows[i].size
            <= data.len()
}

/// One line of the table that [`Schema::debug`] renders.
pub open spec fn debug_line(rows: Seq<SchemaRowView>, data: Seq<u8>, i: int) -> Seq<char> {
    let row = rows[i];
    let bytes = if shows_bytes(rows, i) {
        hex_list(data.subrange(row.offset as int, (row.offset + row.size) as int))
    } else {
        Seq::empty()
    };
    csv_columns(row) + seq![','] + bytes + seq!['\n']
}

/// The debug lines of the first `n` rows, one after the other.
pub open spec fn debug_lines(rows: Seq<SchemaRowView>, data: Seq<u8>, n: nat) -> Seq<char>
    decreases n,
{
    if n == 0 {
        Seq::empty()
    } else {
        debug_lines(rows, data, (n - 1) as nat) + debug_line(rows, data, n - 1)
    }
}

/// Appends the columns that both tables share.
fn push_columns(out: &mut String, row: &SchemaRow)
    ensures
        final(out)@ == old(out)@ + csv_columns(row@),
{
    proof {
        reveal_strlit(",");
    }
    out.append(row.field.as_str());
    out.append(",");
    push_decimal(out, row.offset);
    out.append(",");
    push_decimal(out, row.align);
    out.append(",");
    push_decimal(out, row.size);
    out.append(",");
    out.append(row.ty.as_str());
    assert(","@ =~= seq![',']);
    assert(out@ =~= old(out)@ + csv_columns(row@));
}

impl Schema {
    /// Renders the schema as a table in CSV, and shows for each leaf field
    /// the bytes of `data` that it covers, in hexadecimal.
    ///
    /// A row is a leaf unless the row after it starts at the same offset.
    /// The rows are rendered in the order in which they were recorded.
    pub fn debug(&self, data: &[u8]) -> (table: String)
        requires
            rows_within(self@, data@),
        ensures
            table@ == debug_header() + debug_lines(self@, data@, self@.len()),
    {
        let mut result = String::from_str("field,offset,align,size,ty,bytes\n");
        let n = self.0.len();
        let data_len = data.len();
        let mut i: usize = 0;
        while i < n
            invariant
                i <= n,
                n == self.0@.len(),
                data_len == data@.len(),
                rows_within(self@, data@),
                result@ == debug_header() + debug_lines(self@, data@, i as nat),
            decreases n - i,
        {
            let row = &self.0[i];
            let ghost before = result@;
            proof {
                reveal_strlit(",");
                reveal_strlit("\n");
                assert(self@[i as int] == row@);
                if i + 1 < n {
                    assert(self@[i + 1] == self.0@[i + 1]@);
                }
            }
            push_columns(&mut result, row);
            result.append(",");
            if i + 1 == n || row.offset != self.0[i + 1].offset {
                assert(shows_bytes(self@, i as int));
                push_hex_list(&mut result, data, row.offset, row.offset + row.size);
            }
            result.append("\n");
            proof {
                assert(","@ =~= seq![',']);
                assert("\n"@ =~= seq!['\n']);
                assert(result@ =~= before + debug_line(self@, data@, i as int));
            }
            i = i + 1;
        }
        result
    }

    /// Renders the schema as a table in CSV, one line for each row, in the
    /// order in which the rows were recorded.
    pub fn to_csv(&self) -> (table: String)
        ensures
            table@ == csv_header() + csv_lines(self@, self@.len()),
    {
        let mut result = String::from_str("field,offset,align,size,ty\n");
        let n = self.0.len();
        let mut i: usize = 0;
        while i < n
            invariant
                i <= n,
                n == self.0@.len(),
                result@ == csv_header() + csv_lines(self@, i as nat),
            decreases n - i,
        {
            let row = &self.0[i];
            let ghost before = result@;
            push_columns(&mut result, row);
            result.append("\n");
            proof {
                reveal_strlit("\n");
                assert("\n"@ =~= seq!['\n']);
                assert(self@[i as int] == row@);
                assert(result@ =~= before + csv_line(self@[i as int]));
            }
            i = i + 1;
        }
        result
    }
}

/// What the parts of a path say.
pub open spec fn path_view(path: Seq<String>) -> Seq<Seq<char>> {
    Seq::new(path.len(), |i: int| path[i]@)
}

/// The parts of the path, joined by dots.
fn join(path: &Vec<String>) -> (joined: String)
    ensures
        joined@ == join_path(path_view(path@), path@.len()),
{
    let ghost parts = path_view(path@);
    let mut joined = String::new();
    let n = path.len();
    let mut i: usize = 0;
    assert(joined@ =~= join_path(parts, 0));
    while i < n
        invariant
            i <= n == path@.len(),
            parts == path_view(path@),
            joined@ == join_path(parts, i as nat),
        decreases n - i,
    {
        let ghost before = joined@;
        if i > 0 {
            proof {
                reveal_strlit(".");
            }
            joined.append(".");
            assert("."@ =~= seq!['.']);
        }
        joined.append(path[i].as_str());
        proof {
            assert(parts[i as int] == path@[i as int]@);
            if i == 0 {
                assert(joined@ =~= parts[0]);
            } else {
                assert(joined@ =~= before + seq!['.'] + parts[i as int]);
            }
        }
        i = i + 1;
    }
    joined
}

/// The indices as numbers.
pub open spec fn marks_view(open: Seq<usize>) -> Seq<nat> {
    Seq::new(open.len(), |i: int| open[i] as nat)
}

/// A writer of fields that records a row of the schema for every field that
/// is written through it, and writes the same bytes as the writer
/// underneath.
pub struct SchemaWriter<W: FieldWrite> {
    /// The schema so far.
    pub schema: Schema,
    /// The names of the fields around the position, outermost first.
    path: Vec<String>,
    /// The indices of the rows of the fields around the position.
    open: Vec<usize>,
    /// The writer that takes the bytes.
    writer: W,
}

impl<W: FieldWrite> SchemaWriter<W> {
    /// The writer underneath.
    pub closed spec fn writer(&self) -> W {
        self.writer
    }

    /// A writer with an empty schema on top of `backend`.
    pub fn new(backend: W) -> (w: Self)
        requires
            backend.inv(),
        ensures
            w.inv(),
            w.trace() == Trace::empty(),
            w.writer() == backend,
            w.written() == backend.written(),
            w.room() == backend.room(),
            w.base() == backend.base(),
    {
        let w = SchemaWriter {
            schema: Schema(Vec::new()),
            path: Vec::new(),
            open: Vec::new(),
            writer: backend,
        };
        assert(w.schema@ =~= Seq::<SchemaRowView>::empty());
        assert(path_view(w.path@) =~= Seq::<Seq<char>>::empty());
        assert(marks_view(w.open@) =~= Seq::<nat>::empty());
        w
    }

    /// Gives up the writer for the schema and the writer underneath.
    pub fn into_parts(self) -> (parts: (Schema, W))
        ensures
            parts.0@ == self.trace().rows,
            parts.1 == self.writer(),
    {
        (self.schema, self.writer)
    }

    /// The writer underneath took what this writer took.
    pub proof fn lemma_writer_took(&self)
        ensures
            self.written() == self.writer().written(),
            self.room() == self.writer().room(),
            self.base() == self.writer().base(),
            self.inv() ==> self.writer().inv(),
    {
    }
}

impl<W: FieldWrite> WriteNoStd for SchemaWriter<W> {
    /// The writer underneath is sound, no row starts after the position,
    /// and every field that has begun has a row.
    closed spec fn inv(&self) -> bool {
        &&& self.writer.inv()
        &&& forall|i: int|
            0 <= i < self.schema.0@.len() ==> (#[trigger] self.schema.0@[i]).offset
                <= self.writer.written().len()
        &&& forall|i: int|
            0 <= i < self.open@.len() ==> (#[trigger] self.open@[i]) < self.schema.0@.len()
    }

    closed spec fn written(&self) -> Seq<u8> {
        self.writer.written()
    }

    closed spec fn room(&self) -> nat {
        self.writer.room()
    }

    closed spec fn base(&self) -> Seq<u8> {
        self.writer.base()
    }

    fn write(&mut self, buf: &[u8]) -> (res: Result<usize, Error>)
        ensures
            res is Ok ==> final(self).trace() == old(self).trace(),
    {
        self.writer.write(buf)
    }

    fn flush(&mut self) -> (res: Result<(), Error>)
        ensures
            res is Ok ==> final(self).trace() == old(self).trace(),
            res is Ok ==> final(self).writer().settled() == final(self).writer().written().len(),
            res is Ok <== old(self).writer().flushes(),
    {
        self.writer.flush()
    }

    closed spec fn settled(&self) -> nat {
        self.writer.settled()
    }

    closed spec fn flushes(&self) -> bool {
        self.writer.flushes()
    }
}

impl<W: FieldWrite> SchemaWriter<W> {
    /// The writer is bound to flush where the writer underneath is, and has
    /// settled what the writer underneath has settled.
    pub proof fn lemma_writer_settles(&self)
        ensures
            self.settled() == self.writer().settled(),
            self.flushes() == self.writer().flushes(),
    {
    }
}

impl<W: FieldWrite> FieldWrite for SchemaWriter<W> {
    closed spec fn trace(&self) -> Trace {
        Trace { rows: self.schema@, path: path_view(self.path@), open: marks_view(self.open@) }
    }

    fn get_pos(&self) -> (pos: usize) {
        self.writer.get_pos()
    }

    proof fn lemma_room_fits(&self) {
        self.writer.lemma_room_fits();
    }

    /// Writes the padding, if any is needed, and records it: the rows of
    /// the values that begin at the position are moved on behind the
    /// padding, and a row named `PADDING` is added for the padding itself.
    fn add_padding_to_align(&mut self, align: usize) -> (res: Result<(), Error>) {
        let pos = self.writer.get_pos();
        let padding = pad_align_to(pos, align);
        if padding == 0 {
            assert(self.written() =~= old(self).written() + zeros(0));
            return Ok(());
        }
        proof {
            self.writer.lemma_room_fits();
        }
        if padding > usize::MAX - pos {
            return Err(Error::IoError);
        }
        let ghost rows = self.schema@;
        let n = self.schema.0.len();
        proof {
            assert forall|i: int| 0 <= i < rows.len() implies (#[trigger] rows[i]).offset <= pos by {
                assert(rows[i] == self.schema.0@[i]@);
            }
        }
        if n > 0 {
            let off = self.schema.0[n - 1].offset;
            let ghost from = tail_start(rows, off as nat, n as nat);
            let mut j: usize = n;
            while j > 0 && self.schema.0[j - 1].offset >= off
                invariant
                    j <= n == self.schema.0@.len() == rows.len(),
                    pos + padding <= usize::MAX,
                    self.path == old(self).path,
                    self.open == old(self).open,
                    self.writer == old(self).writer,
                    tail_start(rows, off as nat, j as nat) == from,
                    forall|i: int| 0 <= i < rows.len() ==> (#[trigger] rows[i]).offset <= pos,
                    forall|i: int| 0 <= i < j ==> (#[trigger] self.schema@[i]) == rows[i],
                    forall|i: int| 0 <= i < j ==> (#[trigger] self.schema.0@[i]).offset <= pos,
                    forall|i: int|
                        j <= i < n ==> (#[trigger] self.schema@[i]) == moved(
                            rows[i],
                            padding as nat,
                        ),
                decreases j,
            {
                let ghost before = self.schema@;
                assert(self.schema@[j - 1] == self.schema.0@[j - 1]@);
                let moved_offset = self.schema.0[j - 1].offset + padding;
                self.schema.0[j - 1].offset = moved_offset;
                j = j - 1;
                proof {
                    assert forall|i: int| 0 <= i < j implies (#[trigger] self.schema@[i])
                        == rows[i] by {
                        assert(self.schema@[i] == before[i]);
                    }
                    assert forall|i: int| j <= i < n implies (#[trigger] self.schema@[i]) == moved(
                        rows[i],
                        padding as nat,
                    ) by {
                        if i > j {
                            assert(self.schema@[i] == before[i]);
                        }
                    }
                }
            }
            proof {
                if j > 0 {
                    assert(self.schema@[j - 1] == self.schema.0@[j - 1]@);
                }
                assert(from == j);
                assert(self.schema@ =~= shift_tail(rows, padding as nat));
            }
        } else {
            assert(self.schema@ =~= shift_tail(rows, padding as nat));
        }
        let ghost shifted = self.schema@;
        let mut ty = String::from_str("[u8; ");
        push_decimal(&mut ty, padding);
        ty.append("]");
        self.schema.0.push(
            SchemaRow { field: String::from_str("PADDING"), ty, offset: pos, size: padding, align: 1 },
        );
        proof {
            assert(self.schema@ =~= shifted.push(padding_row(pos as nat, padding as nat)));
            assert forall|i: int| 0 <= i < self.schema.0@.len() implies (
            #[trigger] self.schema.0@[i]).offset <= pos + padding by {
                assert(self.schema@[i] == self.schema.0@[i]@);
                if i < n {
                    assert(shifted[i] == rows[i] || shifted[i] == moved(rows[i], padding as nat));
                }
            }
        }
        match write_zeros(&mut self.writer, padding) {
            Ok(_) => Ok(()),
            Err(e) => Err(e),
        }
    }

    /// Records a row for the field, then writes its bytes.
    fn add_field_bytes(
        self,
        field_name: &str,
        ty_name: String,
        value: &[u8],
        align: usize,
    ) -> (res: Result<Self, Error>) {
        let mut this = self;
        let ghost rows = this.schema@;
        let ghost path = path_view(this.path@);
        let pos = this.writer.get_pos();
        this.path.push(String::from_str(field_name));
        assert(path_view(this.path@) =~= path.push(field_name@));
        let field = join(&this.path);
        this.schema.0.push(SchemaRow { field, ty: ty_name, offset: pos, size: value.len(), align });
        proof {
            assert(this.schema@ =~= self.trace().with_bytes(
                field_name@,
                ty_name@,
                pos as nat,
                value@.len(),
                align as nat,
            ).rows);
        }
        match this.writer.write(value) {
            Ok(_) => {},
            Err(e) => {
                return Err(e);
            },
        }
        this.path.pop();
        assert(path_view(this.path@) =~= path);
        Ok(this)
    }

    /// Records a row for the field, of size 0 for the time being, and adds
    /// the field's name to the path.
    fn begin_field(&mut self, field_name: &str, ty: &TypeDesc) {
        let ghost told = self.trace();
        let pos = self.writer.get_pos();
        let mark = self.schema.0.len();
        self.path.push(String::from_str(field_name));
        assert(path_view(self.path@) =~= told.path.push(field_name@));
        let field = join(&self.path);
        self.schema.0.push(
            SchemaRow { field, ty: ty_name(ty), offset: pos, size: 0, align: ty.align },
        );
        self.open.push(mark);
        proof {
            let after = told.begun(field_name@, spec_ty_name(ty@), pos as nat, ty.align as nat);
            assert(self.schema@ =~= after.rows);
            assert(marks_view(self.open@) =~= after.open);
        }
    }

    /// Sets the size of the row of the field that began last to the
    /// distance from the row's offset to the position, and takes the
    /// field's name off the path.
    fn end_field(&mut self) {
        let ghost told = self.trace();
        let pos = self.writer.get_pos();
        if self.open.len() == 0 || self.path.len() == 0 {
            assert(marks_view(self.open@).len() == self.open@.len());
            assert(path_view(self.path@).len() == self.path@.len());
            return ;
        }
        let mark = self.open[self.open.len() - 1];
        self.open.pop();
        self.path.pop();
        proof {
            assert(marks_view(old(self).open@).last() == mark);
            assert(told.rows[mark as int] == old(self).schema.0@[mark as int]@);
        }
        let size = pos - self.schema.0[mark].offset;
        self.schema.0[mark].size = size;
        proof {
            let after = told.ended(pos as nat);
            assert(self.schema@ =~= after.rows);
            assert(path_view(self.path@) =~= after.path);
            assert(marks_view(self.open@) =~= after.open);
        }
    }
}

} // verus!
