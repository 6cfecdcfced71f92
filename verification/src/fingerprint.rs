//! The fingerprint of a type: a hash over its name and, in the order of
//! declaration, the names and types of its fields. A stream is read only
//! as the type whose fingerprint it was written with.
use crate::names::{prim_name, spec_prim_name};
use crate::prim::{le_bytes, push_le};
use crate::types::{fields_model, FieldModel, TypeDesc, TypeModel, TypeNode};
use vstd::prelude::*;
use vstd::utf8::encode_utf8;

verus! {

/// The hash of no bytes.
pub const FNV_OFFSET: u64 = 0xcbf2_9ce4_8422_2325;

/// The factor of the hash.
pub const FNV_PRIME: u64 = 0x0000_0100_0000_01b3;

/// The hash after one more byte: the byte is mixed into the hash so far by
/// exclusive or, and the result is multiplied by the factor, modulo 2 to
/// the power of 64.
pub open spec fn hash_step(h: u64, b: u8) -> u64 {
    (((h ^ (b as u64)) as nat * (FNV_PRIME as nat)) % 0x1_0000_0000_0000_0000) as u64
}

/// The hash after the bytes, one after the other.
pub open spec fn hash_bytes(h: u64, bytes: Seq<u8>) -> u64
    decreases bytes.len(),
{
    if bytes.len() == 0 {
        h
    } else {
        hash_step(hash_bytes(h, bytes.drop_last()), bytes.last())
    }
}

/// Hashing two runs of bytes one after the other is hashing the second
/// from the hash of the first.
pub proof fn lemma_hash_bytes_add(h: u64, first: Seq<u8>, second: Seq<u8>)
    ensures
        hash_bytes(h, first + second) == hash_bytes(hash_bytes(h, first), second),
    decreases second.len(),
{
    if second.len() == 0 {
        assert(first + second =~= first);
    } else {
        lemma_hash_bytes_add(h, first, second.drop_last());
        assert((first + second).drop_last() =~= first + second.drop_last());
        assert((first + second).last() == second.last());
    }
}

/// What a name adds to the bytes that are hashed: its bytes in UTF-8, and
/// one byte that no text in UTF-8 holds, which marks its end.
pub open spec fn name_bytes(name: Seq<char>) -> Seq<u8> {
    encode_utf8(name) + seq![0xffu8]
}

/// The bytes that are hashed for a type: its name; for a type that holds
/// another, the bytes of that type after the name, and for an array its
/// length in between; for a record, after its name, the name and the bytes
/// of the type of each field, in the order of declaration.
pub open spec fn signature(ty: TypeModel) -> Seq<u8>
    decreases ty, 0nat, 0nat,
{
    match ty {
        TypeModel::Unit => name_bytes("()"@),
        TypeModel::Prim(kind) => name_bytes(spec_prim_name(kind)),
        TypeModel::Phantom(inner) => name_bytes("PhantomData"@) + signature(*inner),
        TypeModel::Optional(inner) => name_bytes("Option"@) + signature(*inner),
        TypeModel::Array(elem, n) => name_bytes("[]"@) + le_bytes(n, 8) + signature(*elem),
        TypeModel::Sequence(elem) => name_bytes("Vec"@) + signature(*elem),
        TypeModel::Text => name_bytes("String"@),
        TypeModel::Record { name, zero_copy, fields } => name_bytes(name) + fields_signature(
            fields,
            fields.len(),
        ),
    }
}

/// The bytes that are hashed for the first `n` fields of a record.
pub open spec fn fields_signature(fields: Seq<FieldModel>, n: nat) -> Seq<u8>
    decreases fields, n, 0nat,
{
    if n == 0 || n > fields.len() {
        Seq::empty()
    } else {
        fields_signature(fields, (n - 1) as nat) + name_bytes(fields[n - 1].name) + signature(
            fields[n - 1].ty,
        )
    }
}

/// The fingerprint of a type.
pub open spec fn spec_fingerprint(ty: TypeModel) -> u64 {
    hash_bytes(FNV_OFFSET, signature(ty))
}

/// The hash after the bytes of `bytes`.
pub fn hash_slice(h: u64, bytes: &[u8]) -> (hash: u64)
    ensures
        hash == hash_bytes(h, bytes@),
{
    let n = bytes.len();
    let mut hash = h;
    let mut i: usize = 0;
    assert(bytes@.take(0) =~= Seq::<u8>::empty());
    while i < n
        invariant
            i <= n == bytes@.len(),
            hash == hash_bytes(h, bytes@.take(i as int)),
        decreases n - i,
    {
        proof {
            assert(bytes@.take(i + 1).drop_last() =~= bytes@.take(i as int));
            assert(bytes@.take(i + 1).last() == bytes@[i as int]);
        }
        let mixed: u64 = hash ^ (bytes[i] as u64);
        hash = ((mixed as u128 * FNV_PRIME as u128) % 0x1_0000_0000_0000_0000u128) as u64;
        i = i + 1;
    }
    assert(bytes@.take(n as int) =~= bytes@);
    hash
}

/// The hash after a name.
pub fn hash_name(h: u64, name: &str) -> (hash: u64)
    ensures
        hash == hash_bytes(h, name_bytes(name@)),
{
    let after = hash_slice(h, name.as_bytes());
    let end: [u8; 1] = [0xffu8];
    proof {
        lemma_hash_bytes_add(h, encode_utf8(name@), seq![0xffu8]);
        assert(end@ =~= seq![0xffu8]);
    }
    hash_slice(after, end.as_slice())
}

/// The hash after the bytes that are hashed for a type.
pub fn hash_type(h: u64, ty: &TypeDesc) -> (hash: u64)
    ensures
        hash == hash_bytes(h, signature(ty@)),
    decreases ty, 0nat,
{
    match &ty.node {
        TypeNode::Unit => hash_name(h, "()"),
        TypeNode::Prim(kind) => hash_name(h, prim_name(*kind)),
        TypeNode::Phantom(inner) => {
            proof {
                lemma_hash_bytes_add(h, name_bytes("PhantomData"@), signature(inner@));
            }
            hash_type(hash_name(h, "PhantomData"), inner)
        },
        TypeNode::Optional(inner) => {
            proof {
                lemma_hash_bytes_add(h, name_bytes("Option"@), signature(inner@));
            }
            hash_type(hash_name(h, "Option"), inner)
        },
        TypeNode::Array(elem, n) => {
            proof {
                lemma_hash_bytes_add(h, name_bytes("[]"@) + le_bytes(*n as nat, 8), signature(elem@));
                lemma_hash_bytes_add(h, name_bytes("[]"@), le_bytes(*n as nat, 8));
            }
            let named = hash_name(h, "[]");
            let mut len: Vec<u8> = Vec::new();
            push_le(&mut len, *n as u128, 8);
            assert(len@ =~= le_bytes(*n as nat, 8));
            hash_type(hash_slice(named, len.as_slice()), elem)
        },
        TypeNode::Sequence(elem) => {
            proof {
                lemma_hash_bytes_add(h, name_bytes("Vec"@), signature(elem@));
            }
            hash_type(hash_name(h, "Vec"), elem)
        },
        TypeNode::Text => hash_name(h, "String"),
        TypeNode::Record { name, zero_copy, fields } => {
            let ghost fm = fields_model(fields@);
            let named = hash_name(h, name.as_str());
            let n = fields.len();
            let mut hash = named;
            let mut i: usize = 0;
            proof {
                assert(name_bytes(name@) + fields_signature(fm, 0) =~= name_bytes(name@));
            }
            while i < n
                invariant
                    i <= n == fields@.len(),
                    decreases_to!(ty => fields),
                    fm == fields_model(fields@),
                    hash == hash_bytes(h, name_bytes(name@) + fields_signature(fm, i as nat)),
                decreases n - i,
            {
                let ghost before = name_bytes(name@) + fields_signature(fm, i as nat);
                let ghost field_name = name_bytes(fields@[i as int].name@);
                proof {
                    assert(fm[i as int].name == fields@[i as int].name@);
                    assert(fm[i as int].ty == fields@[i as int].ty@);
                    lemma_hash_bytes_add(h, before, field_name);
                    lemma_hash_bytes_add(h, before + field_name, signature(fields@[i as int].ty@));
                    assert(name_bytes(name@) + fields_signature(fm, (i + 1) as nat) =~= before
                        + field_name + signature(fields@[i as int].ty@));
                }
                hash = hash_name(hash, fields[i].name.as_str());
                hash = hash_type(hash, &fields[i].ty);
                i = i + 1;
            }
            hash
        },
    }
}

/// The fingerprint of a type.
pub fn fingerprint(ty: &TypeDesc) -> (hash: u64)
    ensures
        hash == spec_fingerprint(ty@),
{
    hash_type(FNV_OFFSET, ty)
}

} // verus!
