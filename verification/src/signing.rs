//! Signed proofs: the content that was signed, the signature over it, and the
//! bytes that stand for both.

use vstd::prelude::*;
use vstd::string::*;
use vstd::utf8::*;
use crate::frame::{put_record, record_spec, Marks, MarksView};

verus! {

/// The longest signature, in bytes, that is accepted.
pub const MAX_SIGNATURE_LEN: usize = 1048576;

/// The standard base64 text, with padding, of `bytes`.
pub uninterp spec fn base64_text(bytes: Seq<u8>) -> Seq<char>;

/// The base64 text of `bytes`.
///
/// This is `Engine::encode` of the `base64` crate with its `STANDARD` engine:
/// the alphabet of RFC 4648 with padding. The text depends on the bytes alone.
/// The outside function panics where the length of the text overflows; the
/// bound on the input keeps far below that.
#[verifier::external_body]
fn base64_encode(bytes: &[u8]) -> (text: String)
    requires
        bytes@.len() <= MAX_SIGNATURE_LEN,
    ensures
        text@ == base64_text(bytes@),
{
    base64::Engine::encode(&base64::engine::general_purpose::STANDARD, bytes)
}

/// Why no signed proof was made.
#[derive(Clone, Copy, Debug, PartialEq, Eq, Structural)]
pub enum SigningError {
    /// There is no content to sign.
    EmptyBody,
    /// The signature is empty.
    EmptySignature,
    /// The signature is longer than `MAX_SIGNATURE_LEN`.
    SignatureTooLong,
}

/// A proof: the serialized content and the signature over it, as text. It is
/// never changed once made; what identifies it are its bytes.
#[derive(Clone, Debug, PartialEq, Eq)]
pub struct SignedProof {
    body: Vec<u8>,
    signature: String,
}

impl View for SignedProof {
    type V = (Seq<u8>, Seq<char>);

    closed spec fn view(&self) -> (Seq<u8>, Seq<char>) {
        (self.body@, self.signature@)
    }
}

/// The marks around the content and the signature of a proof.
pub open spec fn proof_marks() -> MarksView {
    MarksView {
        open: encode_utf8("-----BEGIN CODE REVIEW-----\n"@),
        middle: encode_utf8("-----BEGIN CODE REVIEW SIGNATURE-----\n"@),
        close: encode_utf8("-----END CODE REVIEW-----\n"@),
    }
}

/// The bytes of the proof with content `proof.0` and signature text `proof.1`.
pub open spec fn serialized(signed: (Seq<u8>, Seq<char>)) -> Seq<u8> {
    record_spec(proof_marks(), signed.0, encode_utf8(signed.1))
}

/// Whether the content and the signature of `proof` can be written with their
/// lengths in front.
pub open spec fn writable(signed: (Seq<u8>, Seq<char>)) -> bool {
    signed.0.len() <= u64::MAX && encode_utf8(signed.1).len() <= u64::MAX
}

/// What keeps `signature` from signing `body`: an empty content, an empty
/// signature or one that is too long, in this order; nothing otherwise.
pub open spec fn seal_defect(body: Seq<u8>, signature: Seq<u8>) -> Option<SigningError> {
    if body.len() == 0 {
        Some(SigningError::EmptyBody)
    } else if signature.len() == 0 {
        Some(SigningError::EmptySignature)
    } else if signature.len() > MAX_SIGNATURE_LEN {
        Some(SigningError::SignatureTooLong)
    } else {
        None
    }
}

/// The marks around the content and the signature of a proof.
pub fn proof_marks_bytes() -> (marks: Marks)
    ensures
        marks@ == proof_marks(),
{
    Marks {
        open: "-----BEGIN CODE REVIEW-----\n".as_bytes_vec(),
        middle: "-----BEGIN CODE REVIEW SIGNATURE-----\n".as_bytes_vec(),
        close: "-----END CODE REVIEW-----\n".as_bytes_vec(),
    }
}

impl SignedProof {
    /// The proof with content `body` and signature text `signature`.
    pub fn assemble(body: Vec<u8>, signature: String) -> (signed: SignedProof)
        ensures
            signed@ == (body@, signature@),
    {
        SignedProof { body, signature }
    }

    /// The proof with content `body`, signed by `signature`: the content as
    /// it is, with the signature in base64. Nothing but the error is returned
    /// where the content is empty or the signature is empty or too long.
    pub fn seal(body: Vec<u8>, signature: &[u8]) -> (signed: Result<SignedProof, SigningError>)
        ensures
            match signed {
                Ok(p) => seal_defect(body@, signature@) is None && p@.0 == body@ && p@.1
                    == base64_text(signature@),
                Err(e) => seal_defect(body@, signature@) == Some(e),
            },
    {
        if body.len() == 0 {
            Err(SigningError::EmptyBody)
        } else if signature.len() == 0 {
            Err(SigningError::EmptySignature)
        } else if signature.len() > MAX_SIGNATURE_LEN {
            Err(SigningError::SignatureTooLong)
        } else {
            let text = base64_encode(signature);
            Ok(SignedProof::assemble(body, text))
        }
    }

    /// The serialized content that was signed.
    pub fn body(&self) -> (body: &Vec<u8>)
        ensures
            body@ == self@.0,
    {
        &self.body
    }

    /// The signature, as text.
    pub fn signature(&self) -> (signature: &String)
        ensures
            signature@ == self@.1,
    {
        &self.signature
    }

    /// Appends the bytes of the proof to `out`.
    pub fn write_to(&self, out: &mut Vec<u8>)
        ensures
            final(out)@ == old(out)@ + serialized(self@),
            writable(self@),
    {
        let marks = proof_marks_bytes();
        put_record(out, &marks, self.body.as_slice(), self.signature.as_str().as_bytes());
    }

    /// The bytes of the proof: the content and the signature between their
    /// marks, each with its length in front.
    pub fn serialize(&self) -> (bytes: Vec<u8>)
        ensures
            bytes@ == serialized(self@),
            writable(self@),
    {
        let mut bytes: Vec<u8> = Vec::new();
        self.write_to(&mut bytes);
        proof {
            assert(Seq::<u8>::empty() + serialized(self@) =~= serialized(self@));
        }
        bytes
    }
}

} // verus!
