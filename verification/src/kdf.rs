//! Hash transcripts, labelled key derivation and keyed tags.
use crate::wire::{append, be_bytes, be_bytes_injective, be_bytes_length, put_u16, text, text_of_ascii};
use crate::crypto::{hkdf_expand, hkdf_expanded, hmac_of, hmac_sha256, sha256, sha256_of};
use crate::error::Error;
use vstd::prelude::*;

verus! {

/// The concatenation of the parts.
pub open spec fn concat_parts(parts: Seq<Seq<u8>>) -> Seq<u8>
    decreases parts.len(),
{
    if parts.len() == 0 {
        Seq::empty()
    } else {
        concat_parts(parts.drop_last()) + parts.last()
    }
}

/// The bytes that each part of a message holds.
pub open spec fn part_views(parts: Seq<&[u8]>) -> Seq<Seq<u8>> {
    Seq::new(parts.len(), |i: int| parts[i]@)
}

/// The digest of the parts, one after the other.
pub fn hash_parts(parts: &[&[u8]]) -> (digest: [u8; 32])
    ensures
        digest@ == sha256_of(concat_parts(part_views(parts@))),
{
    let mut message: Vec<u8> = Vec::new();
    for i in 0..parts.len()
        invariant
            message@ == concat_parts(part_views(parts@).take(i as int)),
    {
        append(&mut message, parts[i]);
        proof {
            let views = part_views(parts@);
            assert(views.take(i + 1).drop_last() =~= views.take(i as int));
        }
    }
    assert(part_views(parts@).take(parts@.len() as int) =~= part_views(parts@));
    sha256(&message)
}

/// The transcript after `record`: it depends on everything hashed before.
pub open spec fn transcript_after(previous: Seq<u8>, record: Seq<u8>) -> Seq<u8> {
    sha256_of(previous + record)
}

/// Adds a record to a hash transcript.
pub fn transcript_next(previous: &[u8; 32], record: &[u8]) -> (next: [u8; 32])
    ensures
        next@ == transcript_after(previous@, record@),
{
    let parts: [&[u8]; 2] = [previous, record];
    proof {
        reveal_with_fuel(concat_parts, 3);
        assert(concat_parts(part_views(parts@)) =~= previous@ + record@);
    }
    hash_parts(&parts)
}

/// What every label of this protocol starts with.
pub open spec fn label_prefix() -> Seq<u8> {
    text("RekaSerdoba/1 ")
}

/// The prefix has 14 bytes.
pub proof fn label_prefix_length()
    ensures
        label_prefix().len() == 14,
{
    reveal_strlit("RekaSerdoba/1 ");
    text_of_ascii("RekaSerdoba/1 ");
}

/// The info string of a derivation: the output length, the full label and the
/// context, each with its length in front.
pub open spec fn label_info(label: Seq<u8>, context: Seq<u8>, length: nat) -> Seq<u8> {
    be_bytes(length, 2).push((label_prefix().len() + label.len()) as u8) + label_prefix() + label
        + be_bytes(context.len(), 2) + context
}

/// The sizes that an info string has room for.
pub open spec fn label_fits(label: Seq<u8>, context: Seq<u8>, length: nat) -> bool {
    label_prefix().len() + label.len() <= 255 && context.len() <= 0xffff && length <= 0xffff
}

/// The bytes derived from `prk` for a label and a context.
pub open spec fn derived(prk: Seq<u8>, label: Seq<u8>, context: Seq<u8>, length: nat) -> Seq<
    u8,
> {
    hkdf_expanded(prk, label_info(label, context, length), length)
}

/// Key separation: two derivations that differ in their label, their context or
/// their length never share an info string.
pub proof fn label_info_injective(
    label1: Seq<u8>,
    context1: Seq<u8>,
    length1: nat,
    label2: Seq<u8>,
    context2: Seq<u8>,
    length2: nat,
)
    requires
        label_fits(label1, context1, length1),
        label_fits(label2, context2, length2),
        label_info(label1, context1, length1) == label_info(label2, context2, length2),
    ensures
        label1 == label2,
        context1 == context2,
        length1 == length2,
{
    label_prefix_length();
    let info1 = label_info(label1, context1, length1);
    let info2 = label_info(label2, context2, length2);
    be_bytes_length(length1, 2);
    be_bytes_length(length2, 2);
    be_bytes_length(context1.len(), 2);
    be_bytes_length(context2.len(), 2);
    assert(info1.subrange(0, 2) =~= be_bytes(length1, 2));
    assert(info2.subrange(0, 2) =~= be_bytes(length2, 2));
    reveal_with_fuel(crate::wire::be_limit, 3);
    be_bytes_injective(length1, length2, 2);
    assert(info1[2] == (14 + label1.len()) as u8);
    assert(info2[2] == (14 + label2.len()) as u8);
    assert(label1.len() == label2.len());
    let n = label1.len() as int;
    assert(info1.subrange(17, 17 + n) =~= label1);
    assert(info2.subrange(17, 17 + n) =~= label2);
    assert(info1.subrange(17 + n, 19 + n) =~= be_bytes(context1.len(), 2));
    assert(info2.subrange(17 + n, 19 + n) =~= be_bytes(context2.len(), 2));
    be_bytes_injective(context1.len(), context2.len(), 2);
    assert(info1.subrange(19 + n, info1.len() as int) =~= context1);
    assert(info2.subrange(19 + n, info2.len() as int) =~= context2);
}

/// Derives `length` bytes from a pseudorandom key.
pub fn expand(prk: &[u8; 32], label: &[u8], context: &[u8], length: usize) -> (out: Result<
    Vec<u8>,
    Error,
>)
    ensures
        out == Err::<Vec<u8>, Error>(Error::HkdfInputTooLarge) <==> !label_fits(
            label@,
            context@,
            length as nat,
        ),
        out == Err::<Vec<u8>, Error>(Error::HkdfExpandFailed) <==> label_fits(
            label@,
            context@,
            length as nat,
        ) && length > 8160,
        out is Ok <==> label_fits(label@, context@, length as nat) && length <= 8160,
        out is Ok ==> out->Ok_0@ == derived(prk@, label@, context@, length as nat)
            && out->Ok_0@.len() == length,
{
    let prefix = "RekaSerdoba/1 ".as_bytes();
    proof {
        label_prefix_length();
    }
    if length > 0xffff || label.len() > 241 || context.len() > 0xffff {
        return Err(Error::HkdfInputTooLarge);
    }
    let mut info: Vec<u8> = Vec::new();
    put_u16(&mut info, length as u16);
    info.push((prefix.len() + label.len()) as u8);
    append(&mut info, prefix);
    append(&mut info, label);
    put_u16(&mut info, context.len() as u16);
    append(&mut info, context);
    assert(info@ =~= label_info(label@, context@, length as nat));
    match hkdf_expand(prk, &info, length) {
        Some(output) => Ok(output),
        None => Err(Error::HkdfExpandFailed),
    }
}

/// Derives a key of 32 bytes.
pub fn expand_key(prk: &[u8; 32], label: &[u8], context: &[u8]) -> (out: Result<[u8; 32], Error>)
    ensures
        out == Err::<[u8; 32], Error>(Error::HkdfInputTooLarge) <==> !label_fits(
            label@,
            context@,
            32,
        ),
        out is Ok <==> label_fits(label@, context@, 32),
        out is Ok ==> out->Ok_0@ == derived(prk@, label@, context@, 32),
{
    let output = expand(prk, label, context, 32)?;
    let key: [u8; 32] = crate::wire::get_array(&output, 0);
    assert(output@.subrange(0, 32) =~= output@);
    Ok(key)
}

/// Authenticates `message` under `key`.
pub fn hmac_bytes(key: &[u8], message: &[u8]) -> (tag: [u8; 32])
    ensures
        tag@ == hmac_of(key@, message@),
{
    hmac_sha256(key, message)
}

/// Authenticates `context` for one purpose, which `label` names.
pub fn hmac_label(key: &[u8], label: &[u8], context: &[u8]) -> (tag: [u8; 32])
    ensures
        tag@ == hmac_of(key@, label@ + context@),
{
    let mut input: Vec<u8> = Vec::new();
    append(&mut input, label);
    append(&mut input, context);
    assert(input@ =~= label@ + context@);
    hmac_sha256(key, &input)
}

} // verus!
