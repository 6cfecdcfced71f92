//! The primitive types, and their image in memory: the bytes of a number in
//! little-endian order.
use vstd::prelude::*;

verus! {

/// 256 to the power of `n`: the number of values that `n` bytes can hold.
pub open spec fn pow256(n: nat) -> nat
    decreases n,
{
    if n == 0 {
        1
    } else {
        256 * pow256((n - 1) as nat)
    }
}

/// The values of `pow256` at the sizes of the primitive types.
pub proof fn lemma_pow256_values()
    ensures
        pow256(0) == 1,
        pow256(1) == 0x100,
        pow256(2) == 0x1_0000,
        pow256(4) == 0x1_0000_0000,
        pow256(8) == 0x1_0000_0000_0000_0000,
        pow256(16) == 0x1_0000_0000_0000_0000_0000_0000_0000_0000,
{
    reveal_with_fuel(pow256, 17);
}

/// `pow256` grows with its argument.
pub proof fn lemma_pow256_monotonic(a: nat, b: nat)
    requires
        a <= b,
    ensures
        0 < pow256(a) <= pow256(b),
    decreases b,
{
    if b == 0 {
    } else if a == b {
        lemma_pow256_monotonic((a - 1) as nat, (b - 1) as nat);
    } else {
        lemma_pow256_monotonic(a, (b - 1) as nat);
    }
}

/// The `width` low bytes of `raw`, the lowest first.
pub open spec fn le_bytes(raw: nat, width: nat) -> Seq<u8>
    decreases width,
{
    if width == 0 {
        Seq::empty()
    } else {
        seq![(raw % 256) as u8] + le_bytes(raw / 256, (width - 1) as nat)
    }
}

/// The number whose bytes, the lowest first, are `bytes`.
pub open spec fn le_value(bytes: Seq<u8>) -> nat
    decreases bytes.len(),
{
    if bytes.len() == 0 {
        0
    } else {
        bytes[0] as nat + 256 * le_value(bytes.skip(1))
    }
}

/// A number has as many bytes as were asked for.
pub proof fn lemma_le_bytes_len(raw: nat, width: nat)
    ensures
        le_bytes(raw, width).len() == width,
    decreases width,
{
    if width > 0 {
        lemma_le_bytes_len(raw / 256, (width - 1) as nat);
    }
}

/// Bytes stand for a number below `pow256` of their count.
pub proof fn lemma_le_value_bound(bytes: Seq<u8>)
    ensures
        le_value(bytes) < pow256(bytes.len()),
    decreases bytes.len(),
{
    if bytes.len() > 0 {
        lemma_le_value_bound(bytes.skip(1));
        let rest = le_value(bytes.skip(1));
        let top = pow256((bytes.len() - 1) as nat);
        assert(bytes[0] as nat + 256 * rest < 256 * top) by (nonlinear_arith)
            requires
                rest < top,
                bytes[0] < 256,
        ;
    }
}

/// Reading the bytes of a number that fits gives the number back.
pub proof fn lemma_le_value_of_bytes(raw: nat, width: nat)
    requires
        raw < pow256(width),
    ensures
        le_value(le_bytes(raw, width)) == raw,
    decreases width,
{
    if width > 0 {
        let rest = le_bytes(raw / 256, (width - 1) as nat);
        let all = le_bytes(raw, width);
        assert(raw / 256 < pow256((width - 1) as nat)) by (nonlinear_arith)
            requires
                raw < 256 * pow256((width - 1) as nat),
        ;
        lemma_le_value_of_bytes(raw / 256, (width - 1) as nat);
        assert(all.skip(1) =~= rest);
        assert(all[0] == (raw % 256) as u8);
    }
}

/// Appends the `width` low bytes of `raw`, the lowest first.
pub fn push_le(out: &mut Vec<u8>, raw: u128, width: usize)
    ensures
        final(out)@ == old(out)@ + le_bytes(raw as nat, width as nat),
{
    let mut rest: u128 = raw;
    let mut i: usize = 0;
    while i < width
        invariant
            i <= width,
            old(out)@ + le_bytes(raw as nat, width as nat) == out@ + le_bytes(
                rest as nat,
                (width - i) as nat,
            ),
        decreases width - i,
    {
        let ghost tail = le_bytes(rest as nat / 256, (width - i - 1) as nat);
        let ghost before = out@;
        let low: u8 = (rest % 256) as u8;
        out.push(low);
        proof {
            assert(le_bytes(rest as nat, (width - i) as nat) == seq![low] + tail);
            assert(before + (seq![low] + tail) =~= out@ + tail);
        }
        rest = rest / 256;
        i = i + 1;
    }
    assert(out@ + le_bytes(rest as nat, 0) =~= out@);
}

/// Reads the number whose bytes, the lowest first, are the `width` bytes of
/// `data` from `start` on.
pub fn read_le(data: &[u8], start: usize, width: usize) -> (raw: u128)
    requires
        width <= 16,
        start + width <= data@.len(),
    ensures
        raw == le_value(data@.subrange(start as int, start + width)),
{
    let ghost bytes = data@.subrange(start as int, start + width);
    let total = data.len();
    let mut raw: u128 = 0;
    let mut left: usize = width;
    proof {
        assert(bytes.skip(width as int) =~= Seq::<u8>::empty());
    }
    while left > 0
        invariant
            left <= width <= 16,
            start + width <= data@.len() == total,
            bytes == data@.subrange(start as int, start + width),
            raw == le_value(bytes.skip(left as int)),
        decreases left,
    {
        let ghost upper = bytes.skip(left as int);
        let ghost lower = bytes.skip(left - 1);
        proof {
            assert(lower.skip(1) =~= upper);
            assert(lower[0] == data@[start + left - 1]);
            lemma_le_value_bound(upper);
            lemma_pow256_monotonic(upper.len(), 15);
            lemma_pow256_values();
            reveal_with_fuel(pow256, 16);
            assert(pow256(15) == 0x1_0000_0000_0000_0000_0000_0000_0000_00);
        }
        left = left - 1;
        raw = raw * 256 + data[start + left] as u128;
    }
    assert(bytes.skip(0) =~= bytes);
    raw
}

/// The kinds of primitive values. A floating-point number is carried by its
/// bits: [`PrimKind::F32`] by those of a 32-bit number, [`PrimKind::F64`] by
/// those of a 64-bit number.
#[derive(Debug, Clone, Copy, PartialEq, Eq, Structural)]
pub enum PrimKind {
    U8,
    U16,
    U32,
    U64,
    U128,
    Usize,
    I8,
    I16,
    I32,
    I64,
    I128,
    Isize,
    F32,
    F64,
    Bool,
    Char,
}

impl PrimKind {
    /// The number of bytes of a value of this kind. A `usize` or `isize`
    /// takes eight bytes on every machine.
    pub open spec fn spec_size(self) -> nat {
        match self {
            PrimKind::U8 => 1,
            PrimKind::U16 => 2,
            PrimKind::U32 => 4,
            PrimKind::U64 => 8,
            PrimKind::U128 => 16,
            PrimKind::Usize => 8,
            PrimKind::I8 => 1,
            PrimKind::I16 => 2,
            PrimKind::I32 => 4,
            PrimKind::I64 => 8,
            PrimKind::I128 => 16,
            PrimKind::Isize => 8,
            PrimKind::F32 => 4,
            PrimKind::F64 => 8,
            PrimKind::Bool => 1,
            PrimKind::Char => 4,
        }
    }

    /// The number of bytes of a value of this kind.
    pub fn size(self) -> (n: usize)
        ensures
            n == self.spec_size(),
    {
        match self {
            PrimKind::U8 => 1,
            PrimKind::U16 => 2,
            PrimKind::U32 => 4,
            PrimKind::U64 => 8,
            PrimKind::U128 => 16,
            PrimKind::Usize => 8,
            PrimKind::I8 => 1,
            PrimKind::I16 => 2,
            PrimKind::I32 => 4,
            PrimKind::I64 => 8,
            PrimKind::I128 => 16,
            PrimKind::Isize => 8,
            PrimKind::F32 => 4,
            PrimKind::F64 => 8,
            PrimKind::Bool => 1,
            PrimKind::Char => 4,
        }
    }

    /// The alignment of a value of this kind: its size.
    pub open spec fn spec_align(self) -> nat {
        self.spec_size()
    }

    /// The alignment of a value of this kind: its size.
    pub fn align(self) -> (n: usize)
        ensures
            n == self.spec_align(),
    {
        self.size()
    }
}

/// A primitive value.
#[derive(Debug, Clone, Copy, PartialEq, Eq, Structural)]
pub enum Prim {
    U8(u8),
    U16(u16),
    U32(u32),
    U64(u64),
    U128(u128),
    Usize(usize),
    I8(i8),
    I16(i16),
    I32(i32),
    I64(i64),
    I128(i128),
    Isize(isize),
    /// The bits of a 32-bit floating-point number.
    F32(u32),
    /// The bits of a 64-bit floating-point number.
    F64(u64),
    Bool(bool),
    Char(char),
}

/// The unsigned number with the same low `width` bytes as `v` in two's
/// complement.
pub open spec fn signed_raw(v: int, width: nat) -> nat {
    if v >= 0 {
        v as nat
    } else {
        (v + pow256(width)) as nat
    }
}

/// The signed number that `raw` stands for in two's complement of `width`
/// bytes.
pub open spec fn signed_of_raw(raw: nat, width: nat) -> int {
    if 2 * raw < pow256(width) {
        raw as int
    } else {
        raw - pow256(width)
    }
}

/// Whether `raw` is a Unicode scalar value: a code point that is no
/// surrogate.
pub open spec fn is_scalar_value(raw: nat) -> bool {
    raw < 0xD800 || (0xE000 <= raw && raw <= 0x10FFFF)
}

impl Prim {
    /// The kind of the value.
    pub open spec fn spec_kind(&self) -> PrimKind {
        match *self {
            Prim::U8(_) => PrimKind::U8,
            Prim::U16(_) => PrimKind::U16,
            Prim::U32(_) => PrimKind::U32,
            Prim::U64(_) => PrimKind::U64,
            Prim::U128(_) => PrimKind::U128,
            Prim::Usize(_) => PrimKind::Usize,
            Prim::I8(_) => PrimKind::I8,
            Prim::I16(_) => PrimKind::I16,
            Prim::I32(_) => PrimKind::I32,
            Prim::I64(_) => PrimKind::I64,
            Prim::I128(_) => PrimKind::I128,
            Prim::Isize(_) => PrimKind::Isize,
            Prim::F32(_) => PrimKind::F32,
            Prim::F64(_) => PrimKind::F64,
            Prim::Bool(_) => PrimKind::Bool,
            Prim::Char(_) => PrimKind::Char,
        }
    }

    /// The kind of the value.
    #[verifier::when_used_as_spec(spec_kind)]
    pub fn kind(&self) -> (kind: PrimKind)
        ensures
            kind == self.spec_kind(),
    {
        match self {
            Prim::U8(_) => PrimKind::U8,
            Prim::U16(_) => PrimKind::U16,
            Prim::U32(_) => PrimKind::U32,
            Prim::U64(_) => PrimKind::U64,
            Prim::U128(_) => PrimKind::U128,
            Prim::Usize(_) => PrimKind::Usize,
            Prim::I8(_) => PrimKind::I8,
            Prim::I16(_) => PrimKind::I16,
            Prim::I32(_) => PrimKind::I32,
            Prim::I64(_) => PrimKind::I64,
            Prim::I128(_) => PrimKind::I128,
            Prim::Isize(_) => PrimKind::Isize,
            Prim::F32(_) => PrimKind::F32,
            Prim::F64(_) => PrimKind::F64,
            Prim::Bool(_) => PrimKind::Bool,
            Prim::Char(_) => PrimKind::Char,
        }
    }

    /// The unsigned number whose bytes are the image of the value: the
    /// number itself, a negative number in two's complement, a boolean as 1
    /// or 0, a character as its code point.
    pub open spec fn raw(self) -> nat {
        match self {
            Prim::U8(v) => v as nat,
            Prim::U16(v) => v as nat,
            Prim::U32(v) => v as nat,
            Prim::U64(v) => v as nat,
            Prim::U128(v) => v as nat,
            Prim::Usize(v) => v as nat,
            Prim::I8(v) => signed_raw(v as int, 1),
            Prim::I16(v) => signed_raw(v as int, 2),
            Prim::I32(v) => signed_raw(v as int, 4),
            Prim::I64(v) => signed_raw(v as int, 8),
            Prim::I128(v) => signed_raw(v as int, 16),
            Prim::Isize(v) => signed_raw(v as int, 8),
            Prim::F32(bits) => bits as nat,
            Prim::F64(bits) => bits as nat,
            Prim::Bool(b) => if b {
                1
            } else {
                0
            },
            Prim::Char(c) => c as nat,
        }
    }

    /// The unsigned number whose bytes are the image of the value.
    pub fn to_raw(&self) -> (raw: u128)
        ensures
            raw == self.raw(),
            raw < pow256(self.kind().spec_size()),
    {
        proof {
            lemma_pow256_values();
        }
        match self {
            Prim::U8(v) => *v as u128,
            Prim::U16(v) => *v as u128,
            Prim::U32(v) => *v as u128,
            Prim::U64(v) => *v as u128,
            Prim::U128(v) => *v as u128,
            Prim::Usize(v) => *v as u128,
            Prim::I8(v) => if *v >= 0 {
                *v as u128
            } else {
                (*v as i128 + 0x100i128) as u128
            },
            Prim::I16(v) => if *v >= 0 {
                *v as u128
            } else {
                (*v as i128 + 0x1_0000i128) as u128
            },
            Prim::I32(v) => if *v >= 0 {
                *v as u128
            } else {
                (*v as i128 + 0x1_0000_0000i128) as u128
            },
            Prim::I64(v) => if *v >= 0 {
                *v as u128
            } else {
                (*v as i128 + 0x1_0000_0000_0000_0000i128) as u128
            },
            Prim::I128(v) => if *v >= 0 {
                *v as u128
            } else {
                (*v - i128::MIN) as u128 + 0x8000_0000_0000_0000_0000_0000_0000_0000u128
            },
            Prim::Isize(v) => if *v >= 0 {
                *v as u128
            } else {
                (*v as i128 + 0x1_0000_0000_0000_0000i128) as u128
            },
            Prim::F32(bits) => *bits as u128,
            Prim::F64(bits) => *bits as u128,
            Prim::Bool(b) => if *b {
                1
            } else {
                0
            },
            Prim::Char(c) => (*c as u32) as u128,
        }
    }
}

/// The value of kind `kind` whose image is the bytes of `raw`, where there
/// is one. Any number but 0 stands for the boolean `true`. No character
/// stands behind a number that is no Unicode scalar value, and no `usize` or
/// `isize` behind a number outside that type's range on this machine.
pub open spec fn prim_of_raw(kind: PrimKind, raw: nat) -> Option<Prim> {
    match kind {
        PrimKind::U8 => Some(Prim::U8(raw as u8)),
        PrimKind::U16 => Some(Prim::U16(raw as u16)),
        PrimKind::U32 => Some(Prim::U32(raw as u32)),
        PrimKind::U64 => Some(Prim::U64(raw as u64)),
        PrimKind::U128 => Some(Prim::U128(raw as u128)),
        PrimKind::Usize => if raw <= usize::MAX {
            Some(Prim::Usize(raw as usize))
        } else {
            None
        },
        PrimKind::I8 => Some(Prim::I8(signed_of_raw(raw, 1) as i8)),
        PrimKind::I16 => Some(Prim::I16(signed_of_raw(raw, 2) as i16)),
        PrimKind::I32 => Some(Prim::I32(signed_of_raw(raw, 4) as i32)),
        PrimKind::I64 => Some(Prim::I64(signed_of_raw(raw, 8) as i64)),
        PrimKind::I128 => Some(Prim::I128(signed_of_raw(raw, 16) as i128)),
        PrimKind::Isize => if isize::MIN <= signed_of_raw(raw, 8) <= isize::MAX {
            Some(Prim::Isize(signed_of_raw(raw, 8) as isize))
        } else {
            None
        },
        PrimKind::F32 => Some(Prim::F32(raw as u32)),
        PrimKind::F64 => Some(Prim::F64(raw as u64)),
        PrimKind::Bool => Some(Prim::Bool(raw != 0)),
        PrimKind::Char => if is_scalar_value(raw) {
            Some(Prim::Char(raw as char))
        } else {
            None
        },
    }
}

/// The image of a value stands for a number that fits its size.
pub proof fn lemma_prim_raw_bound(p: Prim)
    ensures
        p.raw() < pow256(p.kind().spec_size()),
{
    lemma_pow256_values();
}

/// A value is read back from the number that its image stands for.
pub proof fn lemma_prim_of_raw_of_prim(p: Prim)
    ensures
        prim_of_raw(p.kind(), p.raw()) == Some(p),
{
    lemma_pow256_values();
}

/// `char::from_u32` of the standard library: the character with the code
/// point `i`, or `None` where `i` is no Unicode scalar value.
pub assume_specification[ char::from_u32 ](i: u32) -> (r: Option<char>)
    ensures
        r == (if is_scalar_value(i as nat) {
            Some(i as char)
        } else {
            None::<char>
        }),
;

/// The value of kind `kind` whose image is the bytes of `raw`, where there
/// is one.
pub fn prim_from_raw(kind: PrimKind, raw: u128) -> (p: Option<Prim>)
    requires
        raw < pow256(kind.spec_size()),
    ensures
        p == prim_of_raw(kind, raw as nat),
{
    proof {
        lemma_pow256_values();
    }
    match kind {
        PrimKind::U8 => Some(Prim::U8(raw as u8)),
        PrimKind::U16 => Some(Prim::U16(raw as u16)),
        PrimKind::U32 => Some(Prim::U32(raw as u32)),
        PrimKind::U64 => Some(Prim::U64(raw as u64)),
        PrimKind::U128 => Some(Prim::U128(raw as u128)),
        PrimKind::Usize => if raw <= usize::MAX as u128 {
            Some(Prim::Usize(raw as usize))
        } else {
            None
        },
        PrimKind::I8 => if raw < 0x80u128 {
            Some(Prim::I8(raw as i8))
        } else {
            Some(Prim::I8((raw as i128 - 0x100i128) as i8))
        },
        PrimKind::I16 => if raw < 0x8000u128 {
            Some(Prim::I16(raw as i16))
        } else {
            Some(Prim::I16((raw as i128 - 0x1_0000i128) as i16))
        },
        PrimKind::I32 => if raw < 0x8000_0000u128 {
            Some(Prim::I32(raw as i32))
        } else {
            Some(Prim::I32((raw as i128 - 0x1_0000_0000i128) as i32))
        },
        PrimKind::I64 => if raw < 0x8000_0000_0000_0000u128 {
            Some(Prim::I64(raw as i64))
        } else {
            Some(Prim::I64((raw as i128 - 0x1_0000_0000_0000_0000i128) as i64))
        },
        PrimKind::I128 => if raw < 0x8000_0000_0000_0000_0000_0000_0000_0000u128 {
            Some(Prim::I128(raw as i128))
        } else {
            Some(
                Prim::I128(
                    (raw - 0x8000_0000_0000_0000_0000_0000_0000_0000u128) as i128 + i128::MIN,
                ),
            )
        },
        PrimKind::Isize => {
            let v: i64 = if raw < 0x8000_0000_0000_0000u128 {
                raw as i64
            } else {
                (raw as i128 - 0x1_0000_0000_0000_0000i128) as i64
            };
            if isize::MIN as i64 <= v && v <= isize::MAX as i64 {
                Some(Prim::Isize(v as isize))
            } else {
                None
            }
        },
        PrimKind::F32 => Some(Prim::F32(raw as u32)),
        PrimKind::F64 => Some(Prim::F64(raw as u64)),
        PrimKind::Bool => Some(Prim::Bool(raw != 0)),
        PrimKind::Char => match char::from_u32(raw as u32) {
            Some(c) => Some(Prim::Char(c)),
            None => None,
        },
    }
}

} // verus!
