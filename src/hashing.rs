use sha2::Digest;
use vstd::prelude::*;

verus! {

/// The SHA-256 digest of a byte sequence.
pub uninterp spec fn sha256_of(data: Seq<u8>) -> Seq<u8>;

/// Relies on `sha2::Sha256::digest`: the 32-byte SHA-256 digest of `data`
/// (its output type is a `GenericArray<u8, U32>`).
#[verifier::external_body]
fn sha256_digest(data: &[u8]) -> (r: Vec<u8>)
    ensures
        r@ == sha256_of(data@),
        r@.len() == 32,
{
    sha2::Sha256::digest(data).to_vec()
}

/// The lowercase hexadecimal digit for a value below 16.
pub open spec fn hex_digit(n: u8) -> char {
    seq!['0', '1', '2', '3', '4', '5', '6', '7', '8', '9', 'a', 'b', 'c', 'd', 'e', 'f'][n as int]
}

/// Two lowercase hexadecimal digits per byte, high nibble first.
pub open spec fn hex_encode(bytes: Seq<u8>) -> Seq<char>
    decreases bytes.len(),
{
    if bytes.len() == 0 {
        seq![]
    } else {
        let b = bytes.last();
        hex_encode(bytes.drop_last()) + seq![hex_digit(b / 16), hex_digit(b % 16)]
    }
}

pub open spec fn is_hex_char(c: char) -> bool {
    ('0' <= c && c <= '9') || ('a' <= c && c <= 'f')
}

/// A digest as it is written down: 64 lowercase hexadecimal characters.
pub open spec fn is_digest(s: Seq<char>) -> bool {
    s.len() == 64 && forall|i: int| 0 <= i < s.len() ==> is_hex_char(#[trigger] s[i])
}

/// The identity of a content: the hex form of its SHA-256 digest.
pub open spec fn digest_of(content: Seq<u8>) -> Seq<char> {
    hex_encode(sha256_of(content))
}

proof fn lemma_hex_encode_shape(bytes: Seq<u8>)
    ensures
        hex_encode(bytes).len() == 2 * bytes.len(),
        forall|i: int| 0 <= i < hex_encode(bytes).len() ==> is_hex_char(#[trigger] hex_encode(bytes)[i]),
    decreases bytes.len(),
{
    if bytes.len() > 0 {
        lemma_hex_encode_shape(bytes.drop_last());
        let b = bytes.last();
        assert(is_hex_char(hex_digit(b / 16)));
        assert(is_hex_char(hex_digit(b % 16)));
    }
}

/// The characters of the lowercase hex alphabet, in order.
const HEX_DIGITS: &'static str = "0123456789abcdef";

fn push_hex_digit(out: &mut String, n: u8)
    requires
        n < 16,
    ensures
        final(out)@ == old(out)@.push(hex_digit(n)),
{
    proof {
        reveal_strlit("0123456789abcdef");
    }
    let digit = HEX_DIGITS.substring_char(n as usize, n as usize + 1);
    out.append(digit);
    assert(digit@ =~= seq![hex_digit(n)]);
}

/// Lowercase hex form of `bytes`.
fn to_hex(bytes: &[u8]) -> (r: String)
    ensures
        r@ == hex_encode(bytes@),
{
    let mut out = String::new();
    let mut i: usize = 0;
    while i < bytes.len()
        invariant
            i <= bytes@.len(),
            out@ == hex_encode(bytes@.subrange(0, i as int)),
        decreases bytes@.len() - i,
    {
        let b = bytes[i];
        push_hex_digit(&mut out, b / 16);
        push_hex_digit(&mut out, b % 16);
        assert(bytes@.subrange(0, i + 1).drop_last() =~= bytes@.subrange(0, i as int));
        i = i + 1;
    }
    assert(bytes@.subrange(0, bytes@.len() as int) =~= bytes@);
    out
}

/// The content digest of `file_content`: the lowercase hex SHA-256 digest,
/// 64 characters long.
pub fn generate_hash(file_content: &[u8]) -> (r: String)
    ensures
        r@ == digest_of(file_content@),
        is_digest(r@),
{
    let digest = sha256_digest(file_content);
    let r = to_hex(digest.as_slice());
    proof {
        lemma_hex_encode_shape(digest@);
    }
    r
}

/// Splits a digest into the two characters that name its shard directory
/// and the rest, which names the object file inside it.
pub fn segment_hash(hash: &str) -> (r: (&str, &str))
    requires
        hash@.len() >= 2,
    ensures
        r.0@ == hash@.subrange(0, 2),
        r.1@ == hash@.subrange(2, hash@.len() as int),
        r.0@ + r.1@ == hash@,
{
    let n = hash.unicode_len();
    let prefix = hash.substring_char(0, 2);
    let suffix = hash.substring_char(2, n);
    assert(prefix@ + suffix@ =~= hash@);
    (prefix, suffix)
}

/// Reassembles a file's content from the chunks in which it was read, in
/// order and without loss: the result does not depend on how the content was
/// cut.
pub fn read_file(chunks: &Vec<Vec<u8>>) -> (r: Vec<u8>)
    ensures
        r@ == chunks@.map_values(|c: Vec<u8>| c@).flatten_alt(),
{
    let mut out: Vec<u8> = Vec::new();
    let mut k: usize = 0;
    while k < chunks.len()
        invariant
            k <= chunks@.len(),
            out@ == chunks@.subrange(0, k as int).map_values(|c: Vec<u8>| c@).flatten_alt(),
        decreases chunks@.len() - k,
    {
        let chunk = &chunks[k];
        let ghost before = out@;
        let mut j: usize = 0;
        while j < chunk.len()
            invariant
                j <= chunk@.len(),
                out@ == before + chunk@.subrange(0, j as int),
            decreases chunk@.len() - j,
        {
            out.push(chunk[j]);
            assert(chunk@.subrange(0, j + 1) =~= chunk@.subrange(0, j as int).push(chunk@[j as int]));
            j = j + 1;
        }
        assert(chunk@.subrange(0, chunk@.len() as int) =~= chunk@);
        assert(chunks@.subrange(0, k + 1).map_values(|c: Vec<u8>| c@).drop_last()
            =~= chunks@.subrange(0, k as int).map_values(|c: Vec<u8>| c@));
        k = k + 1;
    }
    assert(chunks@.subrange(0, chunks@.len() as int) =~= chunks@);
    out
}

/// Content identity depends on the bytes alone: a content read in chunks
/// reassembles to the same bytes as a whole read (a single chunk), so both
/// have the same digest, and equal contents always have equal digests.
pub proof fn lemma_digest_deterministic(chunks: Seq<Seq<u8>>, whole: Seq<u8>)
    requires
        chunks.flatten_alt() == whole,
    ensures
        seq![whole].flatten_alt() == whole,
        digest_of(chunks.flatten_alt()) == digest_of(seq![whole].flatten_alt()),
{
    let one = seq![whole];
    assert(one.drop_last() =~= Seq::<Seq<u8>>::empty());
    assert(one.drop_last().flatten_alt() == Seq::<u8>::empty());
    assert(one.flatten_alt() == one.drop_last().flatten_alt() + one.last());
    assert(Seq::<u8>::empty() + whole =~= whole);
}

} // verus!
