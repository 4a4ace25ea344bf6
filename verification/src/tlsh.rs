//! The TLSH hasher: symbol lists are joined with commas and hashed with the
//! `tlsh-rs` crate, and digests are compared with its distance.
use vstd::prelude::*;
use vstd::utf8::encode_utf8;
use crate::error::TelfhashError;
use crate::model::{HashValue, NullDigestReason};
use crate::ports::SimilarityHasher;
use crate::text::{
    ascii_lower, ascii_upper, joined, join_with, lemma_ascii_upper_of_lower, texts, to_ascii_upper,
};

verus! {

broadcast use vstd::string::group_string_axioms;

/// Why TLSH gave no digest for some bytes.
#[derive(Debug, PartialEq, Eq)]
pub enum TlshFailure {
    /// The input was shorter than TLSH's minimum.
    TooShort,
    /// Too few buckets were filled for a stable digest.
    InsufficientVariance,
    /// Any other error, by its message.
    Other(String),
}

/// `tlsh_rs::TlshDigest`, a decoded digest.
#[verifier::external_type_specification]
#[verifier::external_body]
pub struct ExTlshDigest(tlsh_rs::TlshDigest);

/// What `tlsh_rs::hash_bytes` returns for `data`: the encoded digest, or why
/// there is none.
pub uninterp spec fn tlsh_hash_of(data: Seq<u8>) -> Result<Seq<char>, TlshFailure>;

/// What `tlsh_rs::TlshDigest::from_encoded` says of `text`: `None` when the
/// text decodes, else the message of the error.
pub uninterp spec fn tlsh_decode_error(text: Seq<char>) -> Option<Seq<char>>;

/// What `TlshDigest::try_diff` returns for the digests decoded from `left`
/// and `right`: the distance, or the message of the error.
pub uninterp spec fn tlsh_diff_of(left: Seq<char>, right: Seq<char>) -> Result<i32, Seq<char>>;

/// Hashes `data` with `tlsh_rs::hash_bytes` and encodes the digest with
/// `TlshDigest::encoded`; its two errors of too little information are told
/// apart from the others, which keep their message.
///
/// The contract names the result; the TLSH algorithm is not restated.
#[verifier::external_body]
fn tlsh_hash(data: &[u8]) -> (r: Result<String, TlshFailure>)
    ensures
        match r {
            Ok(d) => tlsh_hash_of(data@) == Ok::<Seq<char>, TlshFailure>(d@),
            Err(f) => tlsh_hash_of(data@) == Err::<Seq<char>, TlshFailure>(f),
        },
{
    match tlsh_rs::hash_bytes(data) {
        Ok(digest) => Ok(digest.encoded()),
        Err(tlsh_rs::TlshError::TooShort { .. }) => Err(TlshFailure::TooShort),
        Err(tlsh_rs::TlshError::InsufficientVariance) => Err(TlshFailure::InsufficientVariance),
        Err(error) => Err(TlshFailure::Other(error.to_string())),
    }
}

/// A digest with the text it was decoded from.
pub struct DecodedDigest {
    text: String,
    digest: tlsh_rs::TlshDigest,
}

impl DecodedDigest {
    /// The text the digest was decoded from.
    pub closed spec fn text(self) -> Seq<char> {
        self.text@
    }
}

/// Decodes `text` with `TlshDigest::from_encoded`, keeping the text beside
/// the digest; an error becomes its message.
#[verifier::external_body]
fn decode_digest(text: String) -> (r: Result<DecodedDigest, String>)
    ensures
        match r {
            Ok(d) => d.text() == text@ && tlsh_decode_error(text@) is None,
            Err(m) => tlsh_decode_error(text@) == Some(m@),
        },
{
    match tlsh_rs::TlshDigest::from_encoded(&text) {
        Ok(digest) => Ok(DecodedDigest { text, digest }),
        Err(error) => Err(error.to_string()),
    }
}

/// The distance `TlshDigest::try_diff` measures between two decoded digests;
/// an error becomes its message.
#[verifier::external_body]
fn digest_diff(left: &DecodedDigest, right: &DecodedDigest) -> (r: Result<i32, String>)
    ensures
        match r {
            Ok(v) => tlsh_diff_of(left.text(), right.text()) == Ok::<i32, Seq<char>>(v),
            Err(m) => tlsh_diff_of(left.text(), right.text()) == Err::<i32, Seq<char>>(m@),
        },
{
    match left.digest.try_diff(&right.digest) {
        Ok(value) => Ok(value),
        Err(error) => Err(error.to_string()),
    }
}

/// The bytes hashed for a list of symbols: the symbols joined with commas.
pub open spec fn symbol_payload(symbols: Seq<String>) -> Seq<u8> {
    encode_utf8(joined(texts(symbols), ','))
}

/// What a TLSH outcome makes of a symbol list: a digest, a null digest when
/// the input is too short or too uniform, and a generation error otherwise.
pub open spec fn hash_answer(
    outcome: Result<Seq<char>, TlshFailure>,
    r: Result<HashValue, TelfhashError>,
) -> bool {
    match outcome {
        Ok(d) => r matches Ok(HashValue::Digest(x)) && x@ == d,
        Err(TlshFailure::TooShort) => r == Ok::<HashValue, TelfhashError>(
            HashValue::NullDigest(NullDigestReason::InsufficientInformation),
        ),
        Err(TlshFailure::InsufficientVariance) => r == Ok::<HashValue, TelfhashError>(
            HashValue::NullDigest(NullDigestReason::InsufficientInformation),
        ),
        Err(TlshFailure::Other(m)) => r matches Err(TelfhashError::TlshGeneration(x)) && x@ == m@,
    }
}

/// What the distance between two digest texts is: both are read in upper
/// case; a text that does not decode, or a failed comparison, is a
/// comparison error with the TLSH message.
pub open spec fn distance_answer(left: Seq<char>, right: Seq<char>, r: Result<u32, TelfhashError>) -> bool {
    let l = ascii_upper(left);
    let rt = ascii_upper(right);
    match tlsh_decode_error(l) {
        Some(m) => r matches Err(TelfhashError::TlshComparison(x)) && x@ == m,
        None => match tlsh_decode_error(rt) {
            Some(m) => r matches Err(TelfhashError::TlshComparison(x)) && x@ == m,
            None => match tlsh_diff_of(l, rt) {
                Ok(v) => r == Ok::<u32, TelfhashError>(v as u32),
                Err(m) => r matches Err(TelfhashError::TlshComparison(x)) && x@ == m,
            },
        },
    }
}

/// The hash value a TLSH outcome gives, as `hash_answer` says.
pub fn hash_value_of(outcome: Result<String, TlshFailure>) -> (r: Result<HashValue, TelfhashError>)
    ensures
        hash_answer(
            match outcome {
                Ok(d) => Ok::<Seq<char>, TlshFailure>(d@),
                Err(f) => Err::<Seq<char>, TlshFailure>(f),
            },
            r,
        ),
{
    match outcome {
        Ok(digest) => Ok(HashValue::Digest(digest)),
        Err(TlshFailure::TooShort) => Ok(HashValue::NullDigest(NullDigestReason::InsufficientInformation)),
        Err(TlshFailure::InsufficientVariance) => Ok(
            HashValue::NullDigest(NullDigestReason::InsufficientInformation),
        ),
        Err(TlshFailure::Other(message)) => Err(TelfhashError::TlshGeneration(message)),
    }
}

/// The distance a TLSH comparison gives: the difference as an unsigned
/// number, or a comparison error with the TLSH message.
pub fn distance_of(diff: Result<i32, String>) -> (r: Result<u32, TelfhashError>)
    ensures
        match diff {
            Ok(v) => r == Ok::<u32, TelfhashError>(v as u32),
            Err(m) => r matches Err(TelfhashError::TlshComparison(x)) && x@ == m@,
        },
{
    match diff {
        Ok(value) => Ok(value as u32),
        Err(message) => Err(TelfhashError::TlshComparison(message)),
    }
}

/// Hashes symbol lists with TLSH.
pub struct TlshRsHasher;

impl TlshRsHasher {
    /// Decodes the upper-case form of a digest text.
    fn decode(text: &str) -> (r: Result<DecodedDigest, TelfhashError>)
        ensures
            match tlsh_decode_error(ascii_upper(text@)) {
                Some(m) => r matches Err(TelfhashError::TlshComparison(x)) && x@ == m,
                None => r matches Ok(d) && d.text() == ascii_upper(text@),
            },
    {
        match decode_digest(to_ascii_upper(text)) {
            Ok(d) => Ok(d),
            Err(message) => Err(TelfhashError::TlshComparison(message)),
        }
    }
}

impl SimilarityHasher for TlshRsHasher {
    open spec fn hashes(&self, symbols: Seq<String>, r: Result<HashValue, TelfhashError>) -> bool {
        hash_answer(tlsh_hash_of(symbol_payload(symbols)), r)
    }

    fn hash_symbols(&self, symbols: &[String]) -> (r: Result<HashValue, TelfhashError>) {
        let payload = join_with(symbols, ',');
        hash_value_of(tlsh_hash(payload.as_str().as_bytes()))
    }

    open spec fn measures(&self, left: Seq<char>, right: Seq<char>, r: Result<u32, TelfhashError>) -> bool {
        distance_answer(left, right, r)
    }

    fn distance(&self, left: &str, right: &str) -> (r: Result<u32, TelfhashError>) {
        let l = Self::decode(left)?;
        let rt = Self::decode(right)?;
        distance_of(digest_diff(&l, &rt))
    }
}

/// The UTF-8 bytes of two texts in a row are the bytes of each in a row.
proof fn lemma_encode_utf8_append(a: Seq<char>, b: Seq<char>)
    ensures
        encode_utf8(a + b) == encode_utf8(a) + encode_utf8(b),
    decreases a.len(),
{
    if a.len() > 0 {
        lemma_encode_utf8_append(a.drop_first(), b);
        assert((a + b).drop_first() =~= a.drop_first() + b);
        assert((a + b)[0] == a[0]);
    } else {
        assert(a + b =~= b);
    }
}

/// The bytes hashed for a list of symbols are the UTF-8 bytes of the
/// symbols in order, with one comma byte (0x2c) between each two
/// neighbours: nothing for no symbols, the symbol's bytes for one, and one
/// more comma and the bytes of each further symbol.
pub proof fn law_payload_joins_with_commas(symbols: Seq<String>, t: String)
    ensures
        symbol_payload(Seq::<String>::empty()) == Seq::<u8>::empty(),
        symbol_payload(seq![t]) == encode_utf8(t@),
        symbols.len() > 0 ==> symbol_payload(symbols.push(t)) == symbol_payload(symbols) + seq![0x2cu8]
            + encode_utf8(t@),
{
    assert(texts(Seq::<String>::empty()) =~= Seq::<Seq<char>>::empty());
    assert(texts(seq![t]) =~= seq![t@]);
    if symbols.len() > 0 {
        let p = texts(symbols);
        let q = texts(symbols.push(t));
        assert(q =~= p.push(t@));
        assert(q.drop_last() =~= p);
        assert(joined(q, ',') == joined(p, ',').push(',') + t@);
        assert(joined(p, ',').push(',') =~= joined(p, ',') + seq![',']);
        lemma_encode_utf8_append(joined(p, ',').push(','), t@);
        lemma_encode_utf8_append(joined(p, ','), seq![',']);
        assert(seq![','].drop_first() =~= Seq::<char>::empty());
        assert((44u32 & 0x7Fu32) as u8 == 0x2cu8) by (bit_vector);
        assert(seq![','][0] as u32 == 44u32);
        assert(vstd::utf8::encode_scalar(44u32) =~= seq![0x2cu8]);
        assert(encode_utf8(Seq::<char>::empty()) =~= Seq::<u8>::empty());
        assert(encode_utf8(seq![',']) == vstd::utf8::encode_scalar(44u32) + encode_utf8(
            Seq::<char>::empty(),
        ));
        assert(encode_utf8(seq![',']) =~= seq![0x2cu8]);
    }
}

/// The distance between two digests does not depend on the ASCII case they
/// are written in: a digest and its lower-case form (as the legacy output
/// writes it) compare alike.
pub proof fn law_distance_ignores_case(left: Seq<char>, right: Seq<char>, r: Result<u32, TelfhashError>)
    ensures
        distance_answer(ascii_lower(left), right, r) == distance_answer(left, right, r),
        distance_answer(left, ascii_lower(right), r) == distance_answer(left, right, r),
{
    lemma_ascii_upper_of_lower(left);
    lemma_ascii_upper_of_lower(right);
}

} // verus!
