//! The proof store: files to which signed proofs are appended, and from which
//! nothing is ever taken or changed.

use vstd::prelude::*;
use vstd::string::*;
use vstd::utf8::*;
use crate::bytes::text_of_utf8;
use crate::frame::{lemma_records_extend, records_of, split_records};
use crate::signing::{proof_marks, proof_marks_bytes, serialized, writable, SignedProof};

verus! {

/// The proofs that `records` stand for, if every signature is text.
pub open spec fn proofs_of_records(records: Seq<(Seq<u8>, Seq<u8>)>) -> Option<
    Seq<(Seq<u8>, Seq<char>)>,
> {
    if forall|i: int| 0 <= i < records.len() ==> valid_utf8((#[trigger] records[i]).1) {
        Some(records.map_values(|r: (Seq<u8>, Seq<u8>)| (r.0, decode_utf8(r.1))))
    } else {
        None
    }
}

/// The proofs that the file `bytes` holds, in the order in which they were
/// appended; nothing where `bytes` is not made of proofs alone.
pub open spec fn proofs_of(bytes: Seq<u8>) -> Option<Seq<(Seq<u8>, Seq<char>)>> {
    match records_of(bytes, proof_marks()) {
        None => None,
        Some(records) => proofs_of_records(records),
    }
}

/// The file `bytes` after `proof` was appended to it.
pub open spec fn appended(bytes: Seq<u8>, signed: (Seq<u8>, Seq<char>)) -> Seq<u8> {
    bytes + serialized(signed)
}

/// The views of a sequence of proofs.
pub open spec fn proofs_view(proofs: Seq<SignedProof>) -> Seq<(Seq<u8>, Seq<char>)> {
    proofs.map_values(|p: SignedProof| p@)
}

/// Appending a proof to a store file leaves every byte that was there as it
/// was, and the file then holds the proofs it held, in their order, and the new
/// one after them.
pub proof fn lemma_append_only(bytes: Seq<u8>, signed: (Seq<u8>, Seq<char>))
    requires
        proofs_of(bytes) is Some,
        writable(signed),
    ensures
        appended(bytes, signed).subrange(0, bytes.len() as int) == bytes,
        proofs_of(appended(bytes, signed)) == Some(proofs_of(bytes)->Some_0.push(signed)),
{
    let records = records_of(bytes, proof_marks())->Some_0;
    let text = encode_utf8(signed.1);
    assert(appended(bytes, signed).subrange(0, bytes.len() as int) =~= bytes);
    lemma_records_extend(bytes, 0, proof_marks(), signed.0, text);
    let grown = records.push((signed.0, text));
    assert forall|i: int| 0 <= i < grown.len() implies valid_utf8((#[trigger] grown[i]).1) by {
        if i < records.len() {
            assert(grown[i] == records[i]);
        } else {
            encode_utf8_valid_utf8(signed.1);
        }
    }
    encode_utf8_decode_utf8(signed.1);
    assert(proofs_of_records(grown)->Some_0 =~= proofs_of_records(records)->Some_0.push(signed));
}

/// An empty store file holds no proof.
pub proof fn lemma_empty_store()
    ensures
        proofs_of(Seq::empty()) == Some(Seq::<(Seq<u8>, Seq<char>)>::empty()),
{
    assert(proofs_of_records(Seq::empty())->Some_0 =~= Seq::<(Seq<u8>, Seq<char>)>::empty());
}

/// Appending two proofs, one after the other, to a store file gives a file
/// that holds exactly the proofs that were there and then the two, in the
/// order of the appends; the bytes of the first are not touched by the second.
pub proof fn lemma_append_twice(
    bytes: Seq<u8>,
    first: (Seq<u8>, Seq<char>),
    second: (Seq<u8>, Seq<char>),
)
    requires
        proofs_of(bytes) is Some,
        writable(first),
        writable(second),
    ensures
        proofs_of(appended(appended(bytes, first), second)) == Some(
            proofs_of(bytes)->Some_0.push(first).push(second),
        ),
        appended(appended(bytes, first), second).subrange(
            0,
            appended(bytes, first).len() as int,
        ) == appended(bytes, first),
        appended(appended(bytes, first), second).subrange(
            bytes.len() as int,
            appended(bytes, first).len() as int,
        ) == serialized(first),
{
    lemma_append_only(bytes, first);
    lemma_append_only(appended(bytes, first), second);
    assert(appended(appended(bytes, first), second).subrange(
        bytes.len() as int,
        appended(bytes, first).len() as int,
    ) =~= serialized(first));
}

/// The store file `store` with `proof` appended to it.
pub fn append(store: &mut Vec<u8>, signed: &SignedProof)
    ensures
        final(store)@ == appended(old(store)@, signed@),
        writable(signed@),
{
    signed.write_to(store);
}

/// Reads the proofs of a store file, in the order in which they were
/// appended; nothing where the file is not made of proofs alone.
pub fn read_proofs(bytes: &[u8]) -> (found: Option<Vec<SignedProof>>)
    ensures
        found is Some <==> proofs_of(bytes@) is Some,
        found matches Some(proofs) ==> proofs_of(bytes@) == Some(proofs_view(proofs@)),
{
    let marks = proof_marks_bytes();
    let mut records = match split_records(bytes, &marks) {
        None => {
            return None;
        },
        Some(records) => records,
    };
    let ghost raw = records.deep_view();
    let mut proofs: Vec<SignedProof> = Vec::new();
    let mut i: usize = 0;
    while i < records.len()
        invariant
            i <= records@.len(),
            raw == records.deep_view(),
            records_of(bytes@, proof_marks()) == Some(raw),
            proofs@.len() == i,
            forall|k: int| 0 <= k < i ==> valid_utf8((#[trigger] raw[k]).1),
            forall|k: int|
                0 <= k < i ==> (#[trigger] proofs@[k])@ == (raw[k].0, decode_utf8(raw[k].1)),
        decreases records@.len() - i,
    {
        proof {
            assert(raw[i as int] == records@[i as int].deep_view());
            assert(records@[i as int].0.deep_view() =~= records@[i as int].0@);
            assert(records@[i as int].1.deep_view() =~= records@[i as int].1@);
        }
        let text = match text_of_utf8(records[i].1.as_slice()) {
            None => {
                return None;
            },
            Some(text) => text,
        };
        let body = vstd::slice::slice_to_vec(records[i].0.as_slice());
        proofs.push(SignedProof::assemble(body, text));
        i = i + 1;
    }
    proof {
        assert(proofs_view(proofs@) =~= proofs_of_records(raw)->Some_0);
    }
    Some(proofs)
}

} // verus!
