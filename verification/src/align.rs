//! Offset arithmetic: how many zero bytes bring a position up to an
//! alignment boundary.
use vstd::prelude::*;

verus! {

/// The alignments that a zero-copy type can ask for.
pub open spec fn is_alignment(align: nat) -> bool {
    align == 1 || align == 2 || align == 4 || align == 8 || align == 16
}

/// Whether `pos` is a multiple of `align`.
pub open spec fn is_aligned(pos: nat, align: nat) -> bool
    recommends
        align > 0,
{
    pos % align == 0
}

/// The number of padding bytes between `pos` and the next multiple of
/// `align` at or after it.
pub open spec fn spec_pad_align_to(pos: nat, align: nat) -> nat
    recommends
        align > 0,
{
    let rest = pos % align;
    if rest == 0 {
        0
    } else {
        (align - rest) as nat
    }
}

/// `pos` rounded up to the next multiple of `align`.
pub open spec fn align_up(pos: nat, align: nat) -> nat
    recommends
        align > 0,
{
    pos + spec_pad_align_to(pos, align)
}

/// A run of `n` zero bytes.
pub open spec fn zeros(n: nat) -> Seq<u8> {
    Seq::new(n, |i: int| 0u8)
}

/// The padding reaches a boundary, stays below one full alignment step, and
/// no shorter padding reaches a boundary.
pub proof fn lemma_pad_is_minimal(pos: nat, align: nat)
    requires
        align > 0,
    ensures
        spec_pad_align_to(pos, align) < align,
        is_aligned(pos + spec_pad_align_to(pos, align), align),
        forall|q: nat|
            pos <= q < pos + spec_pad_align_to(pos, align) ==> !#[trigger] is_aligned(q, align),
{
    let rest = pos % align;
    let pad = spec_pad_align_to(pos, align);
    let quot = pos / align;
    assert(pos == align * quot + rest) by {
        vstd::arithmetic::div_mod::lemma_fundamental_div_mod(pos as int, align as int);
    }
    if rest != 0 {
        assert(is_aligned(pos + pad, align)) by {
            assert(pos + pad == align * (quot + 1)) by (nonlinear_arith)
                requires
                    pos == align * quot + rest,
                    pad == align - rest,
            ;
            vstd::arithmetic::div_mod::lemma_mod_multiples_basic((quot + 1) as int, align as int);
            assert((quot + 1) * align == align * (quot + 1)) by (nonlinear_arith);
        }
    }
    assert forall|q: nat| pos <= q < pos + pad implies !#[trigger] is_aligned(q, align) by {
        let k = (q - pos) as nat;
        assert(q == align * quot + (rest + k));
        assert(0 < rest + k < align);
        vstd::arithmetic::div_mod::lemma_fundamental_div_mod_converse(
            q as int,
            align as int,
            quot as int,
            (rest + k) as int,
        );
    }
}

/// A position that is already on a boundary needs no padding.
pub proof fn lemma_pad_of_aligned(pos: nat, align: nat)
    requires
        align > 0,
        is_aligned(pos, align),
    ensures
        spec_pad_align_to(pos, align) == 0,
{
}

/// Moving on by a multiple of the alignment keeps a position on a boundary.
pub proof fn lemma_aligned_step(pos: nat, step: nat, align: nat)
    requires
        align > 0,
        is_aligned(pos, align),
        is_aligned(step, align),
    ensures
        is_aligned(pos + step, align),
{
    vstd::arithmetic::div_mod::lemma_add_mod_noop(pos as int, step as int, align as int);
    vstd::arithmetic::div_mod::lemma_small_mod(0, align);
}

/// A multiple of a number is on a boundary of the number.
proof fn lemma_multiple_is_aligned(pos: nat, align: nat, times: nat)
    requires
        align > 0,
        pos == times * align,
    ensures
        is_aligned(pos, align),
{
    vstd::arithmetic::div_mod::lemma_mod_multiples_basic(times as int, align as int);
}

/// Of two alignments the larger is a multiple of the smaller, so a position
/// on a boundary of the larger is on a boundary of the smaller.
pub proof fn lemma_aligned_to_smaller(pos: nat, big: nat, small: nat)
    requires
        is_alignment(big),
        is_alignment(small),
        small <= big,
        is_aligned(pos, big),
    ensures
        is_aligned(pos, small),
{
    let quot = pos / big;
    assert(pos == big * quot) by {
        vstd::arithmetic::div_mod::lemma_fundamental_div_mod(pos as int, big as int);
    }
    let ratio: nat = if small == big {
        1
    } else if small * 2 == big {
        2
    } else if small * 4 == big {
        4
    } else if small * 8 == big {
        8
    } else {
        16
    };
    assert(big == ratio * small);
    assert(pos == (ratio * quot) * small) by (nonlinear_arith)
        requires
            pos == big * quot,
            big == ratio * small,
    ;
    lemma_multiple_is_aligned(pos, small, ratio * quot);
}

/// Returns the least number of padding bytes after which `pos` is a multiple
/// of `align`.
pub fn pad_align_to(pos: usize, align: usize) -> (pad: usize)
    requires
        align > 0,
    ensures
        pad == spec_pad_align_to(pos as nat, align as nat),
        pad < align,
        is_aligned((pos + pad) as nat, align as nat),
        forall|q: nat| pos <= q < pos + pad ==> !#[trigger] is_aligned(q, align as nat),
{
    proof {
        lemma_pad_is_minimal(pos as nat, align as nat);
    }
    let rest = pos % align;
    if rest == 0 {
        0
    } else {
        align - rest
    }
}

} // verus!
