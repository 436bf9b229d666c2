//! Content addressing: blob ids are the lowercase hex of the SHA-256
//! digest of the blob's content with trailing zero bytes stripped.

use sha2::Digest;
use vstd::prelude::*;

verus! {

/// The SHA-256 digest (32 bytes) of a byte sequence. The digest is a
/// function of the bytes alone; its value is not stated here.
pub uninterp spec fn sha256_of(data: Seq<u8>) -> Seq<u8>;

/// The lowercase hex character of a nibble.
pub open spec fn hex_digit(n: u8) -> char
    recommends
        n < 16,
{
    if n == 0 {
        '0'
    } else if n == 1 {
        '1'
    } else if n == 2 {
        '2'
    } else if n == 3 {
        '3'
    } else if n == 4 {
        '4'
    } else if n == 5 {
        '5'
    } else if n == 6 {
        '6'
    } else if n == 7 {
        '7'
    } else if n == 8 {
        '8'
    } else if n == 9 {
        '9'
    } else if n == 10 {
        'a'
    } else if n == 11 {
        'b'
    } else if n == 12 {
        'c'
    } else if n == 13 {
        'd'
    } else if n == 14 {
        'e'
    } else {
        'f'
    }
}

/// Lowercase hex encoding: two digits per byte, high nibble first.
pub open spec fn hex_of(bytes: Seq<u8>) -> Seq<char>
    decreases bytes.len(),
{
    if bytes.len() == 0 {
        Seq::<char>::empty()
    } else {
        seq![hex_digit(bytes[0] / 16), hex_digit(bytes[0] % 16)] + hex_of(bytes.drop_first())
    }
}

pub proof fn lemma_hex_of_len(bytes: Seq<u8>)
    ensures
        hex_of(bytes).len() == 2 * bytes.len(),
    decreases bytes.len(),
{
    if bytes.len() > 0 {
        lemma_hex_of_len(bytes.drop_first());
    }
}

/// A byte sequence with its trailing zero bytes removed.
pub open spec fn trim_zeros(data: Seq<u8>) -> Seq<u8>
    decreases data.len(),
{
    if data.len() == 0 {
        data
    } else if data.last() == 0u8 {
        trim_zeros(data.drop_last())
    } else {
        data
    }
}

/// The id of a blob holding `data`: hex of the digest of the zero-trimmed
/// content.
pub open spec fn blob_id_of(data: Seq<u8>) -> Seq<char> {
    hex_of(sha256_of(trim_zeros(data)))
}

/// Trimming is idempotent.
pub proof fn lemma_trim_zeros_idempotent(data: Seq<u8>)
    ensures
        trim_zeros(trim_zeros(data)) == trim_zeros(data),
    decreases data.len(),
{
    if data.len() > 0 && data.last() == 0u8 {
        lemma_trim_zeros_idempotent(data.drop_last());
    }
}

/// The trimmed sequence never ends in a zero byte.
pub proof fn lemma_trim_zeros_no_trailing_zero(data: Seq<u8>)
    ensures
        trim_zeros(data).len() > 0 ==> trim_zeros(data).last() != 0u8,
        trim_zeros(data).len() <= data.len(),
        trim_zeros(data) == data.subrange(0, trim_zeros(data).len() as int),
    decreases data.len(),
{
    if data.len() > 0 && data.last() == 0u8 {
        lemma_trim_zeros_no_trailing_zero(data.drop_last());
        assert(data.drop_last() == data.subrange(0, data.len() - 1));
        assert(trim_zeros(data) == data.subrange(0, trim_zeros(data).len() as int));
    } else if data.len() > 0 {
        assert(trim_zeros(data) == data);
        assert(data == data.subrange(0, data.len() as int));
    } else {
        assert(data == data.subrange(0, 0));
    }
}

/// Appending zero bytes does not change the trimmed content.
pub proof fn lemma_trim_zeros_append(data: Seq<u8>, zeros: Seq<u8>)
    requires
        forall|i: int| 0 <= i < zeros.len() ==> zeros[i] == 0u8,
    ensures
        trim_zeros(data + zeros) == trim_zeros(data),
    decreases zeros.len(),
{
    if zeros.len() == 0 {
        assert(data + zeros == data);
    } else {
        let all = data + zeros;
        assert(all.last() == 0u8);
        assert(all.drop_last() == data + zeros.drop_last());
        lemma_trim_zeros_append(data, zeros.drop_last());
    }
}

/// Trailing zero bytes removed, executably.
pub fn trim_trailing_zeros(data: &[u8]) -> (r: Vec<u8>)
    ensures
        r@ == trim_zeros(data@),
{
    let mut length: usize = data.len();
    proof {
        assert(data@.subrange(0, length as int) =~= data@);
    }
    while length >= 1 && data[length - 1] == 0u8
        invariant
            length <= data.len(),
            trim_zeros(data@) == trim_zeros(data@.subrange(0, length as int)),
        decreases length,
    {
        proof {
            let pre = data@.subrange(0, length as int);
            assert(pre.last() == 0u8);
            assert(pre.drop_last() == data@.subrange(0, length - 1));
        }
        length = length - 1;
    }
    let r = data_prefix(data, length);
    proof {
        let pre = data@.subrange(0, length as int);
        if length >= 1 {
            assert(pre.last() == data@[length - 1]);
            assert(trim_zeros(pre) == pre);
        } else {
            assert(pre.len() == 0);
        }
    }
    r
}

/// The first `n` bytes of a slice as a vector.
fn data_prefix(data: &[u8], n: usize) -> (r: Vec<u8>)
    requires
        n <= data@.len(),
    ensures
        r@ == data@.subrange(0, n as int),
{
    let mut r: Vec<u8> = Vec::new();
    let mut i: usize = 0;
    while i < n
        invariant
            i <= n <= data@.len(),
            r@ == data@.subrange(0, i as int),
        decreases n - i,
    {
        r.push(data[i]);
        proof {
            assert(r@ == data@.subrange(0, i + 1 as int));
        }
        i = i + 1;
    }
    r
}

/// Relies on `sha2::Sha256::digest`: the 32-byte SHA-256 digest of the
/// input, a function of the input bytes alone.
#[verifier::external_body]
fn sha256(data: &[u8]) -> (r: Vec<u8>)
    ensures
        r@ == sha256_of(data@),
        r@.len() == 32,
{
    sha2::Sha256::digest(data).to_vec()
}

/// Relies on `hex::encode`: lowercase hex, two digits per byte, high
/// nibble first.
#[verifier::external_body]
pub(crate) fn hex_encode(data: &[u8]) -> (r: String)
    ensures
        r@ == hex_of(data@),
{
    hex::encode(data)
}

/// `n` zero bytes.
pub open spec fn zeros(n: int) -> Seq<u8> {
    Seq::new(n as nat, |i: int| 0u8)
}

/// A byte sequence zero-padded on the right to width `w`.
pub open spec fn zero_pad(s: Seq<u8>, w: int) -> Seq<u8>
    recommends
        s.len() <= w,
{
    s + zeros(w - s.len())
}

/// Everything the trim removed was a zero byte.
pub proof fn lemma_trim_zeros_suffix(data: Seq<u8>)
    ensures
        forall|i: int| trim_zeros(data).len() <= i < data.len() ==> data[i] == 0u8,
    decreases data.len(),
{
    if data.len() > 0 && data.last() == 0u8 {
        lemma_trim_zeros_suffix(data.drop_last());
        assert forall|i: int| trim_zeros(data).len() <= i < data.len() implies data[i]
            == 0u8 by {
            if i < data.len() - 1 {
                assert(data.drop_last()[i] == 0u8);
                assert(data[i] == data.drop_last()[i]);
            } else {
                assert(data[i] == data.last());
            }
        };
    }
}

/// Padding the trimmed content back to its width restores it.
pub proof fn lemma_pad_trim(data: Seq<u8>, w: int)
    requires
        data.len() == w,
    ensures
        zero_pad(trim_zeros(data), w) == data,
{
    lemma_trim_zeros_no_trailing_zero(data);
    lemma_trim_zeros_suffix(data);
    assert(zero_pad(trim_zeros(data), w) =~= data);
}

/// Storing content is idempotent: inserting the same blob twice leaves
/// the blob table exactly as inserting it once.
pub proof fn lemma_add_blob_idempotent(m: Map<Seq<char>, Seq<u8>>, data: Seq<u8>)
    ensures
        m.insert(blob_id_of(data), trim_zeros(data)).insert(blob_id_of(data), trim_zeros(data))
            == m.insert(blob_id_of(data), trim_zeros(data)),
{
    assert(m.insert(blob_id_of(data), trim_zeros(data)).insert(
        blob_id_of(data),
        trim_zeros(data),
    ) =~= m.insert(blob_id_of(data), trim_zeros(data)));
}

/// Zero-trim canonicalization: content extended by trailing zero bytes
/// stores under the same id with the same stored bytes.
pub proof fn lemma_blob_id_zero_trim(data: Seq<u8>, tail: Seq<u8>)
    requires
        forall|i: int| 0 <= i < tail.len() ==> tail[i] == 0u8,
    ensures
        blob_id_of(data + tail) == blob_id_of(data),
        trim_zeros(data + tail) == trim_zeros(data),
{
    lemma_trim_zeros_append(data, tail);
}

/// The blob id of (already trimmed) content.
pub fn blob_id_of_trimmed(data: &[u8]) -> (r: String)
    requires
        trim_zeros(data@) == data@,
    ensures
        r@ == blob_id_of(data@),
{
    let digest = sha256(data);
    hex_encode(digest.as_slice())
}

} // verus!
