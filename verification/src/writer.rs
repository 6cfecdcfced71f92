//! Sinks for bytes, and the cursor that remembers how many bytes it has
//! written, so that fields can be aligned.
use crate::align::{pad_align_to, spec_pad_align_to, zeros};
use crate::error::Error;
use crate::names::spec_ty_name;
use crate::rows::Trace;
use crate::types::TypeDesc;
use vstd::prelude::*;

verus! {

/// A sink for bytes that does not depend on an operating system.
pub trait WriteNoStd {
    /// What must hold of a sink before it is written to.
    spec fn inv(&self) -> bool;

    /// The bytes that the sink has taken so far.
    spec fn written(&self) -> Seq<u8>;

    /// The number of bytes that the sink is bound to take without failing.
    /// A sink that can fail for reasons of its own, such as a file, is bound
    /// to take none.
    spec fn room(&self) -> nat;

    /// What the sink underneath held before the stream began that the sink
    /// is written as. A sink that is no part of a stream says that nothing
    /// was held. No operation changes it.
    spec fn base(&self) -> Seq<u8>;

    /// Writes all of `buf` and returns its length, or fails with
    /// [`Error::IoError`]. A sink with room for the bytes does not fail, and
    /// loses no more room than the bytes take.
    fn write(&mut self, buf: &[u8]) -> (res: Result<usize, Error>)
        requires
            old(self).inv(),
        ensures
            match res {
                Ok(n) => final(self).inv() && n == buf@.len() && final(self).written() == old(
                    self,
                ).written() + buf@,
                Err(e) => e == Error::IoError,
            },
            buf@.len() <= old(self).room() ==> res is Ok,
            res is Ok ==> final(self).room() + buf@.len() >= old(self).room(),
            res is Ok ==> final(self).base() == old(self).base(),
    ;

    /// Hands everything written so far on to the storage underneath, where
    /// there is one. A sink that is bound to flush does not fail.
    fn flush(&mut self) -> (res: Result<(), Error>)
        requires
            old(self).inv(),
        ensures
            match res {
                Ok(_) => final(self).inv() && final(self).written() == old(self).written()
                    && final(self).settled() == final(self).written().len(),
                Err(e) => e == Error::IoError,
            },
            old(self).flushes() ==> res is Ok,
            res is Ok ==> final(self).room() >= old(self).room(),
            res is Ok ==> final(self).base() == old(self).base(),
            res is Ok ==> final(self).flushes() == old(self).flushes(),
    ;

    /// How many of the bytes taken have reached the storage underneath.
    spec fn settled(&self) -> nat;

    /// Whether the sink is bound to flush without failing: a file is not.
    spec fn flushes(&self) -> bool;
}

/// A vector takes every byte written to it at its end.
impl WriteNoStd for Vec<u8> {
    open spec fn inv(&self) -> bool {
        true
    }

    open spec fn written(&self) -> Seq<u8> {
        self@
    }

    open spec fn base(&self) -> Seq<u8> {
        Seq::empty()
    }

    open spec fn room(&self) -> nat {
        if self@.len() <= usize::MAX {
            (usize::MAX - self@.len()) as nat
        } else {
            0
        }
    }

    fn write(&mut self, buf: &[u8]) -> (res: Result<usize, Error>)
        ensures
            res is Ok,
    {
        self.extend_from_slice(buf);
        assert(self@ =~= old(self)@ + buf@);
        let total = self.len();
        Ok(buf.len())
    }

    fn flush(&mut self) -> (res: Result<(), Error>)
        ensures
            res is Ok,
    {
        Ok(())
    }

    open spec fn settled(&self) -> nat {
        self@.len()
    }

    open spec fn flushes(&self) -> bool {
        true
    }
}

/// A sink in memory that takes no more than a fixed number of bytes.
pub struct BoundedWriter {
    bytes: Vec<u8>,
    limit: usize,
}

impl BoundedWriter {
    /// The bytes taken so far.
    pub closed spec fn bytes(&self) -> Seq<u8> {
        self.bytes@
    }

    /// The number of bytes that the sink takes in all.
    pub closed spec fn limit(&self) -> nat {
        self.limit as nat
    }

    /// An empty sink that takes up to `limit` bytes.
    pub fn new(limit: usize) -> (w: BoundedWriter)
        ensures
            w.inv(),
            w.bytes() == Seq::<u8>::empty(),
            w.written() == Seq::<u8>::empty(),
            w.limit() == limit,
            w.room() == limit,
    {
        BoundedWriter { bytes: Vec::new(), limit }
    }

    /// The bytes taken so far.
    pub fn as_bytes(&self) -> (bytes: &[u8])
        ensures
            bytes@ == self.bytes(),
    {
        self.bytes.as_slice()
    }

    /// Gives up the sink for the bytes that it took.
    pub fn into_bytes(self) -> (bytes: Vec<u8>)
        ensures
            bytes@ == self.bytes(),
    {
        self.bytes
    }
}

impl WriteNoStd for BoundedWriter {
    closed spec fn inv(&self) -> bool {
        self.bytes@.len() <= self.limit
    }

    closed spec fn written(&self) -> Seq<u8> {
        self.bytes@
    }

    closed spec fn room(&self) -> nat {
        (self.limit - self.bytes@.len()) as nat
    }

    open spec fn base(&self) -> Seq<u8> {
        Seq::empty()
    }

    /// Fails, and takes nothing, when `buf` does not fit below the limit.
    fn write(&mut self, buf: &[u8]) -> (res: Result<usize, Error>)
        ensures
            final(self).limit() == old(self).limit(),
            final(self).written() == final(self).bytes(),
            old(self).written() == old(self).bytes(),
            old(self).room() == old(self).limit() - old(self).bytes().len(),
            res is Ok <==> old(self).bytes().len() + buf@.len() <= old(self).limit(),
            res is Err ==> final(self).bytes() == old(self).bytes(),
    {
        if buf.len() > self.limit - self.bytes.len() {
            return Err(Error::IoError);
        }
        self.bytes.extend_from_slice(buf);
        assert(self.bytes@ =~= old(self).bytes@ + buf@);
        Ok(buf.len())
    }

    fn flush(&mut self) -> (res: Result<(), Error>)
        ensures
            res is Ok,
            final(self).bytes() == old(self).bytes(),
            final(self).limit() == old(self).limit(),
    {
        Ok(())
    }

    closed spec fn settled(&self) -> nat {
        self.bytes@.len()
    }

    open spec fn flushes(&self) -> bool {
        true
    }
}

/// A writer around a sink that counts the bytes written through it. The
/// count is the position in the stream to which fields are aligned.
pub struct WriteWithPos<F: WriteNoStd> {
    /// The sink that takes the bytes.
    backend: F,
    /// The number of bytes written from the start.
    pos: usize,
    /// What the sink held when the writer was made.
    base: Ghost<Seq<u8>>,
    /// What the writer has been told of the fields that it wrote. It is
    /// kept in thought only.
    trace: Ghost<Trace>,
}

impl<F: WriteNoStd> WriteWithPos<F> {
    /// The sink underneath.
    pub closed spec fn backend(&self) -> F {
        self.backend
    }

    /// A writer at position 0 on top of `backend`.
    pub fn new(backend: F) -> (w: Self)
        requires
            backend.inv(),
        ensures
            w.inv(),
            w.written() == Seq::<u8>::empty(),
            w.backend() == backend,
            w.base() == backend.written(),
            w.trace() == Trace::empty(),
            w.room() == if backend.room() <= usize::MAX {
                backend.room()
            } else {
                usize::MAX as nat
            },
    {
        let w = WriteWithPos {
            backend,
            pos: 0,
            base: Ghost(backend.written()),
            trace: Ghost(Trace::empty()),
        };
        assert(backend.written().take(backend.written().len() as int) =~= backend.written());
        assert(w.written() =~= Seq::<u8>::empty());
        w
    }

    /// What the sink underneath holds: what it held when the writer was
    /// made, then what was written through the writer.
    pub proof fn lemma_backend_holds_stream(&self)
        requires
            self.inv(),
        ensures
            self.backend().inv(),
            self.backend().written() == self.base() + self.written(),
    {
        assert(self.backend.written() =~= self.backend.written().take(self.base@.len() as int)
            + self.written());
    }
}

impl<F: WriteNoStd> WriteNoStd for WriteWithPos<F> {
    closed spec fn inv(&self) -> bool {
        &&& self.backend.inv()
        &&& self.base@.len() + self.pos == self.backend.written().len()
        &&& self.backend.written().take(self.base@.len() as int) == self.base@
    }

    /// Fails without writing when the position would pass the largest `usize`.
    fn write(&mut self, buf: &[u8]) -> (res: Result<usize, Error>)
        ensures
            old(self).written().len() + buf@.len() > usize::MAX ==> res is Err,
            res is Ok ==> final(self).trace() == old(self).trace(),
    {
        if buf.len() > usize::MAX - self.pos {
            return Err(Error::IoError);
        }
        match self.backend.write(buf) {
            Ok(n) => {
                self.pos = self.pos + n;
                assert(self.written() =~= old(self).written() + buf@);
                assert(self.backend.written().take(self.base@.len() as int) =~= old(
                    self,
                ).backend.written().take(self.base@.len() as int));
                Ok(n)
            },
            Err(_) => Err(Error::IoError),
        }
    }

    fn flush(&mut self) -> (res: Result<(), Error>)
        ensures
            res is Ok ==> final(self).trace() == old(self).trace(),
            res is Ok ==> final(self).backend().settled() == final(self).backend().written().len(),
            res is Ok <== old(self).backend().flushes(),
    {
        match self.backend.flush() {
            Ok(_) => Ok(()),
            Err(_) => Err(Error::IoError),
        }
    }

    closed spec fn written(&self) -> Seq<u8> {
        self.backend.written().skip(self.base@.len() as int)
    }

    closed spec fn base(&self) -> Seq<u8> {
        self.base@
    }

    closed spec fn room(&self) -> nat {
        if self.backend.room() <= usize::MAX - self.pos {
            self.backend.room()
        } else {
            (usize::MAX - self.pos) as nat
        }
    }

    /// What the sink underneath has handed on of what was written through
    /// the writer.
    closed spec fn settled(&self) -> nat {
        if self.backend.settled() >= self.base@.len() {
            (self.backend.settled() - self.base@.len()) as nat
        } else {
            0
        }
    }

    closed spec fn flushes(&self) -> bool {
        self.backend.flushes()
    }
}

impl<F: WriteNoStd> WriteWithPos<F> {
    /// Gives up the writer for the sink underneath.
    pub fn into_inner(self) -> (backend: F)
        ensures
            backend == self.backend(),
    {
        self.backend
    }

    /// The writer is bound to flush where the sink underneath is, and has
    /// settled what the sink underneath has settled of the stream.
    pub proof fn lemma_backend_settles(&self)
        ensures
            self.flushes() == self.backend().flushes(),
            self.backend().settled() >= self.base().len() ==> self.settled()
                == self.backend().settled() - self.base().len(),
    {
    }
}

/// Writes `n` zero bytes, one at a time.
pub fn write_zeros<W: WriteNoStd>(w: &mut W, n: usize) -> (res: Result<(), Error>)
    requires
        old(w).inv(),
    ensures
        match res {
            Ok(_) => final(w).inv() && final(w).written() == old(w).written() + zeros(n as nat),
            Err(e) => e == Error::IoError,
        },
        n <= old(w).room() ==> res is Ok,
        res is Ok ==> final(w).room() + n >= old(w).room(),
        res is Ok ==> final(w).base() == old(w).base(),
{
    let zero: [u8; 1] = [0u8];
    let mut i: usize = 0;
    assert(w.written() =~= old(w).written() + zeros(0));
    while i < n
        invariant
            i <= n,
            zero@ == seq![0u8],
            w.inv(),
            w.written() == old(w).written() + zeros(i as nat),
            w.room() + i >= old(w).room(),
            w.base() == old(w).base(),
        decreases n - i,
    {
        match w.write(zero.as_slice()) {
            Ok(_) => {},
            Err(e) => {
                return Err(e);
            },
        }
        assert(w.written() =~= old(w).written() + zeros((i + 1) as nat));
        i = i + 1;
    }
    Ok(())
}

/// A writer of fields: a sink that knows its position in the stream, pads to
/// an alignment, and is told where each field begins and ends.
///
/// Every writer of fields has a trace: what it has been told of the fields
/// so far. A writer that makes a schema keeps the trace; any other keeps it
/// in thought only.
pub trait FieldWrite: WriteNoStd + Sized {
    /// What the writer has been told of the fields that it wrote.
    spec fn trace(&self) -> Trace;

    /// The number of bytes written from the start of the stream.
    fn get_pos(&self) -> (pos: usize)
        requires
            self.inv(),
        ensures
            pos == self.written().len(),
    ;

    /// The room of a writer ends at the largest position or before it.
    proof fn lemma_room_fits(&self)
        requires
            self.inv(),
        ensures
            self.written().len() + self.room() <= usize::MAX,
    ;

    /// Writes zero bytes until the position is a multiple of `align`.
    fn add_padding_to_align(&mut self, align: usize) -> (res: Result<(), Error>)
        requires
            old(self).inv(),
            align > 0,
        ensures
            match res {
                Ok(_) => final(self).inv() && final(self).written() == old(self).written() + zeros(
                    spec_pad_align_to(old(self).written().len(), align as nat),
                ),
                Err(e) => e == Error::IoError,
            },
            spec_pad_align_to(old(self).written().len(), align as nat) <= old(self).room()
                ==> res is Ok,
            res is Ok ==> final(self).room() + spec_pad_align_to(
                old(self).written().len(),
                align as nat,
            ) >= old(self).room(),
            res is Ok ==> final(self).base() == old(self).base(),
            res is Ok ==> final(self).trace() == old(self).trace().padded(
                old(self).written().len(),
                spec_pad_align_to(old(self).written().len(), align as nat),
            ),
    ;

    /// Writes `value` as the bytes of a field named `field_name` whose type
    /// is named `ty_name` and asks for the alignment `align`. The position
    /// is taken as it is: the caller pads first.
    fn add_field_bytes(
        self,
        field_name: &str,
        ty_name: String,
        value: &[u8],
        align: usize,
    ) -> (res: Result<Self, Error>)
        requires
            self.inv(),
        ensures
            match res {
                Ok(w) => w.inv() && w.written() == self.written() + value@,
                Err(e) => e == Error::IoError,
            },
            value@.len() <= self.room() ==> res is Ok,
            res matches Ok(w) ==> w.room() + value@.len() >= self.room(),
            res matches Ok(w) ==> w.base() == self.base(),
            res matches Ok(w) ==> w.trace() == self.trace().with_bytes(
                field_name@,
                ty_name@,
                self.written().len(),
                value@.len(),
                align as nat,
            ),
    ;

    /// Told that a field named `field_name` of the type `ty` begins at the
    /// position of the writer. Nothing is written.
    fn begin_field(&mut self, field_name: &str, ty: &TypeDesc)
        requires
            old(self).inv(),
        ensures
            final(self).inv(),
            final(self).written() == old(self).written(),
            final(self).room() == old(self).room(),
            final(self).base() == old(self).base(),
            final(self).trace() == old(self).trace().begun(
                field_name@,
                spec_ty_name(ty@),
                old(self).written().len(),
                ty.align as nat,
            ),
    ;

    /// Told that the field that began last, and has not ended, ends at the
    /// position of the writer. Nothing is written.
    fn end_field(&mut self)
        requires
            old(self).inv(),
        ensures
            final(self).inv(),
            final(self).written() == old(self).written(),
            final(self).room() == old(self).room(),
            final(self).base() == old(self).base(),
            final(self).trace() == old(self).trace().ended(old(self).written().len()),
    ;
}

impl<F: WriteNoStd> FieldWrite for WriteWithPos<F> {
    closed spec fn trace(&self) -> Trace {
        self.trace@
    }

    fn get_pos(&self) -> (pos: usize) {
        self.pos
    }

    proof fn lemma_room_fits(&self) {
    }

    fn add_padding_to_align(&mut self, align: usize) -> (res: Result<(), Error>) {
        let padding = pad_align_to(self.pos, align);
        let ghost told = self.trace@.padded(self.pos as nat, padding as nat);
        match write_zeros(self, padding) {
            Ok(_) => {
                self.trace = Ghost(told);
                Ok(())
            },
            Err(e) => Err(e),
        }
    }

    fn add_field_bytes(
        self,
        field_name: &str,
        ty_name: String,
        value: &[u8],
        align: usize,
    ) -> (res: Result<Self, Error>) {
        let mut this = self;
        let ghost told = this.trace@.with_bytes(
            field_name@,
            ty_name@,
            this.pos as nat,
            value@.len(),
            align as nat,
        );
        match this.write(value) {
            Ok(_) => {
                this.trace = Ghost(told);
                Ok(this)
            },
            Err(e) => Err(e),
        }
    }

    fn begin_field(&mut self, field_name: &str, ty: &TypeDesc) {
        self.trace = Ghost(
            self.trace@.begun(field_name@, spec_ty_name(ty@), self.pos as nat, ty.align as nat),
        );
    }

    fn end_field(&mut self) {
        self.trace = Ghost(self.trace@.ended(self.pos as nat));
    }
}

} // verus!
