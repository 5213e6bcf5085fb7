//! Notes and their compressed wire form.
//!
//! A note is four field elements. On the wire each is cut to the width of its
//! chunk, 60 bytes in all; a note one of whose elements does not fit its
//! chunk has no wire form.

use crate::field::{fr_modulus, Num};
use crate::uint::{
    lemma_le_bytes_roundtrip, lemma_limbs_bound, pow2_64, pow2_80, U256, NUM_SIZE,
};
use vstd::bytes::{spec_u64_to_le_bytes, spec_u64_to_le_bytes_open, spec_u64_to_le_bytes_to_open};
use vstd::prelude::*;
use vstd::slice::slice_subrange;

verus! {

/// Widths in bytes of the diversifier, the transmission key, the value and
/// the salt of a note on the wire.
pub const NOTE_CHUNKS: [usize; 4] = [10, 32, 8, 10];

/// Bytes of a note on the wire.
pub const NOTE_SIZE: usize = 60;

/// Why bytes are not a wire form, or a value has none.
#[derive(Clone, Copy, Debug, PartialEq, Eq, Structural)]
pub enum CodecError {
    /// The buffer does not have the length that the widths ask for.
    WrongLength,
    /// A byte beyond the width of a chunk is not zero.
    WrongSerialization,
    /// There are fewer bytes than a note takes.
    TooShort,
    /// A chunk holds an integer that is not below the order of the field.
    NotInField,
}

impl CodecError {
    /// The reason, in words.
    pub fn reason(&self) -> (r: &'static str)
        ensures
            r@ == match *self {
                CodecError::WrongLength => "Wrong length of elements"@,
                CodecError::WrongSerialization => "Wrong serialization"@,
                CodecError::TooShort => "Too short data"@,
                CodecError::NotInField => "Wrong field element"@,
            },
    {
        match self {
            CodecError::WrongLength => "Wrong length of elements",
            CodecError::WrongSerialization => "Wrong serialization",
            CodecError::TooShort => "Too short data",
            CodecError::NotInField => "Wrong field element",
        }
    }
}

/// Sum of the first `k` widths.
pub open spec fn chunks_sum(chunks: Seq<usize>, k: nat) -> nat
    decreases k,
{
    if k == 0 {
        0
    } else {
        chunks_sum(chunks, (k - 1) as nat) + chunks[k - 1] as nat
    }
}

/// Whether a buffer holds one element of `num_size` bytes for each chunk,
/// and no chunk is wider than an element.
pub open spec fn wide_layout(len: nat, num_size: nat, chunks: Seq<usize>) -> bool {
    &&& num_size > 0
    &&& len == num_size * chunks.len()
    &&& forall|i: int| 0 <= i < chunks.len() ==> #[trigger] chunks[i] <= num_size
}

/// Whether each element is zero beyond the width of its chunk.
pub open spec fn high_bytes_zero(buf: Seq<u8>, num_size: nat, chunks: Seq<usize>) -> bool {
    forall|i: int, j: int|
        0 <= i < chunks.len() && chunks[i] <= j < num_size ==> #[trigger] buf[num_size * i + j]
            == 0
}

/// The first `k` elements, each cut to the width of its chunk.
pub open spec fn compressed_prefix(buf: Seq<u8>, num_size: nat, chunks: Seq<usize>, k: nat) -> Seq<
    u8,
>
    decreases k,
{
    if k == 0 {
        Seq::empty()
    } else {
        compressed_prefix(buf, num_size, chunks, (k - 1) as nat) + buf.subrange(
            num_size * (k - 1),
            num_size * (k - 1) + chunks[k - 1],
        )
    }
}

/// The wire form of a buffer of elements.
pub open spec fn compressed_spec(buf: Seq<u8>, num_size: nat, chunks: Seq<usize>) -> Result<
    Seq<u8>,
    CodecError,
> {
    if !wide_layout(buf.len(), num_size, chunks) {
        Err(CodecError::WrongLength)
    } else if !high_bytes_zero(buf, num_size, chunks) {
        Err(CodecError::WrongSerialization)
    } else {
        Ok(compressed_prefix(buf, num_size, chunks, chunks.len()))
    }
}

/// `n` zero bytes.
pub open spec fn zeros(n: nat) -> Seq<u8> {
    Seq::new(n, |i: int| 0u8)
}

/// The first `k` chunks, each filled up with zeros to a whole element.
pub open spec fn decompressed_prefix(buf: Seq<u8>, num_size: nat, chunks: Seq<usize>, k: nat)
    -> Seq<u8>
    decreases k,
{
    if k == 0 {
        Seq::empty()
    } else {
        decompressed_prefix(buf, num_size, chunks, (k - 1) as nat) + buf.subrange(
            chunks_sum(chunks, (k - 1) as nat) as int,
            chunks_sum(chunks, k) as int,
        ) + zeros((num_size - chunks[k - 1]) as nat)
    }
}

/// Whether a buffer holds the chunks and nothing else, and no chunk is wider
/// than an element.
pub open spec fn narrow_layout(len: nat, num_size: nat, chunks: Seq<usize>) -> bool {
    &&& len == chunks_sum(chunks, chunks.len())
    &&& forall|i: int| 0 <= i < chunks.len() ==> #[trigger] chunks[i] <= num_size
}

/// The buffer of elements that a wire form stands for.
pub open spec fn decompressed_spec(buf: Seq<u8>, num_size: nat, chunks: Seq<usize>) -> Result<
    Seq<u8>,
    CodecError,
> {
    if !narrow_layout(buf.len(), num_size, chunks) {
        Err(CodecError::WrongLength)
    } else {
        Ok(decompressed_prefix(buf, num_size, chunks, chunks.len()))
    }
}

/// The bytes of a result, where there are any.
pub open spec fn bytes_result(r: Result<Vec<u8>, CodecError>) -> Result<Seq<u8>, CodecError> {
    match r {
        Ok(v) => Ok(v@),
        Err(e) => Err(e),
    }
}

/// The sum of more widths is not smaller.
pub proof fn lemma_chunks_sum_monotonic(chunks: Seq<usize>, a: nat, b: nat)
    requires
        a <= b,
    ensures
        chunks_sum(chunks, a) <= chunks_sum(chunks, b),
    decreases b,
{
    if a < b {
        lemma_chunks_sum_monotonic(chunks, a, (b - 1) as nat);
    }
}

/// The wire form of the first elements is as long as their widths together.
pub proof fn lemma_compressed_prefix_len(buf: Seq<u8>, num_size: nat, chunks: Seq<usize>, k: nat)
    requires
        wide_layout(buf.len(), num_size, chunks),
        k <= chunks.len(),
    ensures
        compressed_prefix(buf, num_size, chunks, k).len() == chunks_sum(chunks, k),
    decreases k,
{
    if k > 0 {
        lemma_compressed_prefix_len(buf, num_size, chunks, (k - 1) as nat);
        assert(num_size * (k - 1) + num_size <= num_size * chunks.len()) by (nonlinear_arith)
            requires
                k <= chunks.len(),
                k >= 1,
        ;
        assert(num_size * (k - 1) >= 0) by (nonlinear_arith)
            requires
                k >= 1,
        ;
    }
}

/// The first chunks, filled up, are as long as as many whole elements.
pub proof fn lemma_decompressed_prefix_len(buf: Seq<u8>, num_size: nat, chunks: Seq<usize>, k: nat)
    requires
        narrow_layout(buf.len(), num_size, chunks),
        k <= chunks.len(),
    ensures
        decompressed_prefix(buf, num_size, chunks, k).len() == num_size * k,
    decreases k,
{
    if k > 0 {
        lemma_decompressed_prefix_len(buf, num_size, chunks, (k - 1) as nat);
        lemma_chunks_sum_monotonic(chunks, k, chunks.len());
        assert(num_size * (k - 1) + num_size == num_size * k) by (nonlinear_arith);
    } else {
        assert(num_size * 0 == 0);
    }
}

/// Cuts each element of a buffer to the width of its chunk.
pub fn to_compressed(buf: &[u8], num_size: usize, chunks: &[usize]) -> (r: Result<
    Vec<u8>,
    CodecError,
>)
    ensures
        bytes_result(r) == compressed_spec(buf@, num_size as nat, chunks@),
{
    let buf_len: usize = buf.len();
    let chunks_len: usize = chunks.len();
    if num_size == 0 || buf_len % num_size != 0 || buf_len / num_size != chunks_len {
        proof {
            if num_size > 0 && buf_len == num_size * chunks_len {
                assert((num_size * chunks_len) % (num_size as int) == 0 && (num_size * chunks_len)
                    / (num_size as int) == chunks_len) by (nonlinear_arith)
                    requires
                        num_size > 0,
                ;
            }
        }
        return Err(CodecError::WrongLength);
    }
    assert(buf_len == num_size * chunks_len) by (nonlinear_arith)
        requires
            num_size > 0,
            buf_len % num_size == 0,
            buf_len / num_size == chunks_len,
    ;
    let mut k: usize = 0;
    while k < chunks_len
        invariant
            k <= chunks_len,
            chunks_len == chunks@.len(),
            forall|i: int| 0 <= i < k ==> #[trigger] chunks@[i] <= num_size,
        decreases chunks_len - k,
    {
        if chunks[k] > num_size {
            return Err(CodecError::WrongLength);
        }
        k += 1;
    }
    let mut out: Vec<u8> = Vec::new();
    let mut i: usize = 0;
    while i < chunks_len
        invariant
            i <= chunks_len,
            chunks_len == chunks@.len(),
            buf_len == buf@.len(),
            wide_layout(buf@.len(), num_size as nat, chunks@),
            out@ == compressed_prefix(buf@, num_size as nat, chunks@, i as nat),
            forall|a: int, b: int|
                0 <= a < i && chunks@[a] <= b < num_size ==> #[trigger] buf@[num_size * a + b] == 0,
        decreases chunks_len - i,
    {
        assert(num_size * i + num_size <= num_size * chunks_len) by (nonlinear_arith)
            requires
                i < chunks_len,
        ;
        let start: usize = num_size * i;
        let c: usize = chunks[i];
        let mut j: usize = c;
        while j < num_size
            invariant
                c <= j <= num_size,
                c == chunks@[i as int],
                start == num_size * i,
                start + num_size <= buf@.len(),
                buf_len == buf@.len(),
                wide_layout(buf@.len(), num_size as nat, chunks@),
                i < chunks@.len(),
                forall|b: int| c <= b < j ==> #[trigger] buf@[num_size * i + b] == 0,
            decreases num_size - j,
        {
            if buf[start + j] != 0 {
                assert(!high_bytes_zero(buf@, num_size as nat, chunks@)) by {
                    assert(buf@[num_size * i + j] != 0);
                }
                return Err(CodecError::WrongSerialization);
            }
            j += 1;
        }
        let mut m: usize = 0;
        while m < c
            invariant
                m <= c <= num_size,
                start == num_size * i,
                start + num_size <= buf@.len(),
                buf_len == buf@.len(),
                out@ == compressed_prefix(buf@, num_size as nat, chunks@, i as nat) + buf@.subrange(
                    start as int,
                    start + m,
                ),
            decreases c - m,
        {
            out.push(buf[start + m]);
            assert(buf@.subrange(start as int, start + m).push(buf@[start + m]) =~= buf@.subrange(
                start as int,
                start + m + 1,
            ));
            m += 1;
        }
        i += 1;
    }
    Ok(out)
}

/// Fills each chunk of a wire form up with zeros to a whole element.
pub fn to_decompressed(buf: &[u8], num_size: usize, chunks: &[usize]) -> (r: Result<
    Vec<u8>,
    CodecError,
>)
    ensures
        bytes_result(r) == decompressed_spec(buf@, num_size as nat, chunks@),
{
    let buf_len: usize = buf.len();
    let chunks_len: usize = chunks.len();
    // The widths must add up to the length of the buffer, and none may be
    // wider than an element.
    let mut total: usize = 0;
    let mut k: usize = 0;
    while k < chunks_len
        invariant
            k <= chunks_len,
            chunks_len == chunks@.len(),
            buf_len == buf@.len(),
            total == chunks_sum(chunks@, k as nat),
            total <= buf_len,
            forall|i: int| 0 <= i < k ==> #[trigger] chunks@[i] <= num_size,
        decreases chunks_len - k,
    {
        let c: usize = chunks[k];
        if c > num_size {
            return Err(CodecError::WrongLength);
        }
        if c > buf_len - total {
            proof {
                lemma_chunks_sum_monotonic(chunks@, (k + 1) as nat, chunks_len as nat);
            }
            return Err(CodecError::WrongLength);
        }
        total = total + c;
        k += 1;
    }
    if total != buf_len {
        return Err(CodecError::WrongLength);
    }
    let mut res: Vec<u8> = Vec::new();
    let mut cur: usize = 0;
    let mut i: usize = 0;
    while i < chunks_len
        invariant
            i <= chunks_len,
            chunks_len == chunks@.len(),
            buf_len == buf@.len(),
            narrow_layout(buf@.len(), num_size as nat, chunks@),
            cur == chunks_sum(chunks@, i as nat),
            res@ == decompressed_prefix(buf@, num_size as nat, chunks@, i as nat),
        decreases chunks_len - i,
    {
        let c: usize = chunks[i];
        proof {
            lemma_chunks_sum_monotonic(chunks@, (i + 1) as nat, chunks_len as nat);
        }
        let mut m: usize = 0;
        while m < c
            invariant
                m <= c,
                cur + c <= buf@.len(),
                buf_len == buf@.len(),
                res@ == decompressed_prefix(buf@, num_size as nat, chunks@, i as nat) + buf@.subrange(
                    cur as int,
                    cur + m,
                ),
            decreases c - m,
        {
            res.push(buf[cur + m]);
            assert(buf@.subrange(cur as int, cur + m).push(buf@[cur + m]) =~= buf@.subrange(
                cur as int,
                cur + m + 1,
            ));
            m += 1;
        }
        let ghost filled = res@;
        let mut z: usize = c;
        while z < num_size
            invariant
                c <= z <= num_size,
                cur + c <= buf_len,
                res@ == filled + zeros((z - c) as nat),
            decreases num_size - z,
        {
            res.push(0u8);
            assert(res@ =~= filled + zeros((z + 1 - c) as nat));
            z += 1;
        }
        assert(filled + zeros(0) =~= filled);
        cur = cur + c;
        i += 1;
    }
    Ok(res)
}

/// A wire form is the start of every longer one.
pub proof fn lemma_compressed_prefix_is_prefix(
    buf: Seq<u8>,
    num_size: nat,
    chunks: Seq<usize>,
    k: nat,
    n: nat,
)
    requires
        wide_layout(buf.len(), num_size, chunks),
        k <= n <= chunks.len(),
    ensures
        chunks_sum(chunks, k) <= chunks_sum(chunks, n),
        compressed_prefix(buf, num_size, chunks, n).len() == chunks_sum(chunks, n),
        compressed_prefix(buf, num_size, chunks, k) == compressed_prefix(
            buf,
            num_size,
            chunks,
            n,
        ).subrange(0, chunks_sum(chunks, k) as int),
    decreases n,
{
    lemma_chunks_sum_monotonic(chunks, k, n);
    lemma_compressed_prefix_len(buf, num_size, chunks, n);
    lemma_compressed_prefix_len(buf, num_size, chunks, k);
    if k == n {
        assert(compressed_prefix(buf, num_size, chunks, n).subrange(
            0,
            chunks_sum(chunks, k) as int,
        ) =~= compressed_prefix(buf, num_size, chunks, n));
    } else {
        lemma_compressed_prefix_is_prefix(buf, num_size, chunks, k, (n - 1) as nat);
        let shorter = compressed_prefix(buf, num_size, chunks, (n - 1) as nat);
        let longer = compressed_prefix(buf, num_size, chunks, n);
        assert(longer.subrange(0, chunks_sum(chunks, k) as int) =~= shorter.subrange(
            0,
            chunks_sum(chunks, k) as int,
        ));
    }
}

/// Cutting the elements of a buffer to their widths and filling them up
/// again gives the buffer, where every element fits its chunk.
pub proof fn lemma_decompress_compress(buf: Seq<u8>, num_size: nat, chunks: Seq<usize>)
    requires
        wide_layout(buf.len(), num_size, chunks),
        high_bytes_zero(buf, num_size, chunks),
    ensures
        compressed_spec(buf, num_size, chunks) matches Ok(wire) && decompressed_spec(
            wire,
            num_size,
            chunks,
        ) == Ok::<Seq<u8>, CodecError>(buf),
{
    let n = chunks.len();
    let wire = compressed_prefix(buf, num_size, chunks, n);
    lemma_compressed_prefix_len(buf, num_size, chunks, n);
    lemma_decompress_compress_prefix(buf, num_size, chunks, n);
    assert(buf.subrange(0, (num_size * n) as int) =~= buf);
}

proof fn lemma_decompress_compress_prefix(buf: Seq<u8>, num_size: nat, chunks: Seq<usize>, k: nat)
    requires
        wide_layout(buf.len(), num_size, chunks),
        high_bytes_zero(buf, num_size, chunks),
        k <= chunks.len(),
    ensures
        num_size * k <= buf.len(),
        decompressed_prefix(
            compressed_prefix(buf, num_size, chunks, chunks.len()),
            num_size,
            chunks,
            k,
        ) == buf.subrange(0, (num_size * k) as int),
    decreases k,
{
    let n = chunks.len();
    let wire = compressed_prefix(buf, num_size, chunks, n);
    assert(num_size * k <= num_size * n) by (nonlinear_arith)
        requires
            k <= n,
    ;
    if k == 0 {
        assert(num_size * 0 == 0);
        assert(buf.subrange(0, 0) =~= Seq::<u8>::empty());
    } else {
        let j = (k - 1) as nat;
        lemma_decompress_compress_prefix(buf, num_size, chunks, j);
        lemma_compressed_prefix_is_prefix(buf, num_size, chunks, k, n);
        lemma_compressed_prefix_is_prefix(buf, num_size, chunks, j, k);
        let c = chunks[k - 1] as nat;
        assert(num_size * j + num_size == num_size * k) by (nonlinear_arith)
            requires
                j + 1 == k,
        ;
        let chunk = buf.subrange((num_size * j) as int, (num_size * j + c) as int);
        // The chunk stands in the wire form where the widths before it end.
        assert(wire.subrange(chunks_sum(chunks, j) as int, chunks_sum(chunks, k) as int) =~= chunk)
            by {
            let upto = compressed_prefix(buf, num_size, chunks, k);
            assert(upto == compressed_prefix(buf, num_size, chunks, j) + chunk);
            assert(upto == wire.subrange(0, chunks_sum(chunks, k) as int));
            assert forall|i: int| 0 <= i < c implies wire[chunks_sum(chunks, j) + i] == chunk[i] by {
                assert(upto[chunks_sum(chunks, j) + i] == chunk[i]);
            }
        }
        // What follows the chunk in the buffer is zero.
        let tail = buf.subrange((num_size * j + c) as int, (num_size * k) as int);
        assert forall|i: int| 0 <= i < tail.len() implies #[trigger] tail[i] == 0 by {
            assert(buf[num_size * (k - 1) + (c + i)] == 0);
        }
        assert(zeros((num_size - c) as nat) =~= tail);
        assert(buf.subrange(0, (num_size * j) as int) + chunk + buf.subrange((num_size * j + c) as int, (num_size * k) as int)
            =~= buf.subrange(0, (num_size * k) as int));
    }
}

/// What the bytes of a 64-bit integer say of its size.
pub proof fn lemma_u64_bytes(x: u64)
    ensures
        spec_u64_to_le_bytes(x).len() == 8,
        (forall|j: int| 0 <= j < 8 ==> spec_u64_to_le_bytes(x)[j] == 0) <==> x == 0,
        (forall|j: int| 2 <= j < 8 ==> spec_u64_to_le_bytes(x)[j] == 0) <==> x < 0x10000,
{
    spec_u64_to_le_bytes_to_open(x);
    let s = spec_u64_to_le_bytes(x);
    assert(s == spec_u64_to_le_bytes_open(x));
    assert(x & 0xff < 256 && (x >> 8) & 0xff < 256 && (x >> 16) & 0xff < 256 && (x >> 24) & 0xff
        < 256 && (x >> 32) & 0xff < 256 && (x >> 40) & 0xff < 256 && (x >> 48) & 0xff < 256 && (x
        >> 56) & 0xff < 256) by (bit_vector);
    assert((x & 0xff == 0 && (x >> 8) & 0xff == 0 && (x >> 16) & 0xff == 0 && (x >> 24) & 0xff == 0
        && (x >> 32) & 0xff == 0 && (x >> 40) & 0xff == 0 && (x >> 48) & 0xff == 0 && (x >> 56)
        & 0xff == 0) <==> x == 0) by (bit_vector);
    assert(((x >> 16) & 0xff == 0 && (x >> 24) & 0xff == 0 && (x >> 32) & 0xff == 0 && (x >> 40)
        & 0xff == 0 && (x >> 48) & 0xff == 0 && (x >> 56) & 0xff == 0) <==> x < 0x10000)
        by (bit_vector);
    assert(s[0] == (x & 0xff) as u8);
    assert(s[1] == ((x >> 8) & 0xff) as u8);
    assert(s[2] == ((x >> 16) & 0xff) as u8);
    assert(s[3] == ((x >> 24) & 0xff) as u8);
    assert(s[4] == ((x >> 32) & 0xff) as u8);
    assert(s[5] == ((x >> 40) & 0xff) as u8);
    assert(s[6] == ((x >> 48) & 0xff) as u8);
    assert(s[7] == ((x >> 56) & 0xff) as u8);
}

/// An integer is below 2^64 where its bytes from the eighth on are zero, and
/// below 2^80 where those from the tenth on are.
pub proof fn lemma_high_bytes(a: U256)
    ensures
        a.le_bytes().len() == 32,
        (forall|j: int| 8 <= j < 32 ==> a.le_bytes()[j] == 0) <==> a@ < pow2_64(),
        (forall|j: int| 10 <= j < 32 ==> a.le_bytes()[j] == 0) <==> a@ < pow2_80(),
{
    lemma_u64_bytes(a.l0);
    lemma_u64_bytes(a.l1);
    lemma_u64_bytes(a.l2);
    lemma_u64_bytes(a.l3);
    lemma_limbs_bound(a);
    let b = a.le_bytes();
    let b1 = spec_u64_to_le_bytes(a.l1);
    let b2 = spec_u64_to_le_bytes(a.l2);
    let b3 = spec_u64_to_le_bytes(a.l3);
    assert forall|j: int| 0 <= j < 8 implies b[8 + j] == b1[j] && b[16 + j] == b2[j] && b[24 + j]
        == b3[j] by {}
    if forall|j: int| 10 <= j < 32 ==> b[j] == 0 {
        assert forall|j: int| 2 <= j < 8 implies b1[j] == 0 by {
            assert(b[8 + j] == 0);
        }
        assert forall|j: int| 0 <= j < 8 implies b2[j] == 0 by {
            assert(b[16 + j] == 0);
        }
        assert forall|j: int| 0 <= j < 8 implies b3[j] == 0 by {
            assert(b[24 + j] == 0);
        }
    }
    if forall|j: int| 8 <= j < 32 ==> b[j] == 0 {
        assert forall|j: int| 0 <= j < 8 implies b1[j] == 0 by {
            assert(b[8 + j] == 0);
        }
        assert forall|j: int| 0 <= j < 8 implies b2[j] == 0 by {
            assert(b[16 + j] == 0);
        }
        assert forall|j: int| 0 <= j < 8 implies b3[j] == 0 by {
            assert(b[24 + j] == 0);
        }
    }
    if a@ < pow2_80() {
        assert(a.l1 < 0x10000) by (nonlinear_arith)
            requires
                a.l1 as nat * pow2_64() < pow2_80(),
        ;
        assert forall|j: int| 10 <= j < 32 implies b[j] == 0 by {
            if j < 16 {
                assert(b[8 + (j - 8)] == b1[j - 8]);
            } else if j < 24 {
                assert(b[16 + (j - 16)] == b2[j - 16]);
            } else {
                assert(b[24 + (j - 24)] == b3[j - 24]);
            }
        }
    }
    if a@ < pow2_64() {
        assert forall|j: int| 8 <= j < 32 implies b[j] == 0 by {
            if j < 16 {
                assert(b[8 + (j - 8)] == b1[j - 8]);
            } else if j < 24 {
                assert(b[16 + (j - 16)] == b2[j - 16]);
            } else {
                assert(b[24 + (j - 24)] == b3[j - 24]);
            }
        }
    }
}

/// A note: the diversifier and the transmission key of its owner's address,
/// its value, and a salt.
#[derive(Clone, Copy, Debug, PartialEq, Eq)]
pub struct Note {
    pub d: Num,
    pub pk_d: Num,
    pub v: Num,
    pub st: Num,
}

impl Note {
    /// The four elements, each in its 32 bytes.
    pub open spec fn wide_bytes(self) -> Seq<u8> {
        self.d.uint().le_bytes() + self.pk_d.uint().le_bytes() + self.v.uint().le_bytes()
            + self.st.uint().le_bytes()
    }

    /// Whether the diversifier and the salt fit ten bytes and the value eight.
    pub open spec fn fits(self) -> bool {
        &&& self.d@ < pow2_80()
        &&& self.v@ < pow2_64()
        &&& self.st@ < pow2_80()
    }

    /// The wire form of the note, where it has one.
    pub open spec fn wire_spec(self) -> Result<Seq<u8>, CodecError> {
        compressed_spec(self.wide_bytes(), NUM_SIZE as nat, NOTE_CHUNKS@)
    }

    /// The note that the first 60 bytes stand for.
    pub open spec fn decode_spec(buf: Seq<u8>) -> Result<Note, CodecError> {
        if buf.len() < NOTE_SIZE {
            Err(CodecError::TooShort)
        } else {
            match decompressed_spec(buf.subrange(0, NOTE_SIZE as int), NUM_SIZE as nat, NOTE_CHUNKS@) {
                Err(e) => Err(e),
                Ok(data) => {
                    let d = U256::from_le_bytes_spec(data.subrange(0, 32));
                    let pk_d = U256::from_le_bytes_spec(data.subrange(32, 64));
                    let v = U256::from_le_bytes_spec(data.subrange(64, 96));
                    let st = U256::from_le_bytes_spec(data.subrange(96, 128));
                    if d@ < fr_modulus() && pk_d@ < fr_modulus() && v@ < fr_modulus() && st@
                        < fr_modulus() {
                        Ok(
                            Note {
                                d: Num::of_uint(d),
                                pk_d: Num::of_uint(pk_d),
                                v: Num::of_uint(v),
                                st: Num::of_uint(st),
                            },
                        )
                    } else {
                        Err(CodecError::NotInField)
                    }
                },
            }
        }
    }

    /// A note has a wire form where its elements fit their chunks, and
    /// then one of 60 bytes; where they do not, the serialization is wrong.
    pub proof fn lemma_wire_exists(self)
        ensures
            self.wide_bytes().len() == 128,
            wide_layout(128, NUM_SIZE as nat, NOTE_CHUNKS@),
            high_bytes_zero(self.wide_bytes(), NUM_SIZE as nat, NOTE_CHUNKS@) <==> self.fits(),
            self.fits() ==> self.wire_spec() is Ok && self.wire_spec()->Ok_0.len() == NOTE_SIZE,
            !self.fits() ==> self.wire_spec() == Err::<Seq<u8>, CodecError>(
                CodecError::WrongSerialization,
            ),
    {
        broadcast use Num::lemma_uint_view;

        let b = self.wide_bytes();
        let chunks = NOTE_CHUNKS@;
        lemma_high_bytes(self.d.uint());
        lemma_high_bytes(self.pk_d.uint());
        lemma_high_bytes(self.v.uint());
        lemma_high_bytes(self.st.uint());
        let bd = self.d.uint().le_bytes();
        let bv = self.v.uint().le_bytes();
        let bs = self.st.uint().le_bytes();
        assert(chunks.len() == 4 && chunks[0] == 10 && chunks[1] == 32 && chunks[2] == 8
            && chunks[3] == 10);
        assert forall|j: int| 0 <= j < 32 implies b[j] == bd[j] && b[64 + j] == bv[j] && b[96 + j]
            == bs[j] by {}
        if self.fits() {
            assert forall|i: int, j: int|
                0 <= i < chunks.len() && chunks[i] <= j < 32 implies #[trigger] b[32 * i + j]
                == 0 by {
                if i == 0 {
                    assert(b[j] == bd[j]);
                } else if i == 2 {
                    assert(b[64 + j] == bv[j]);
                } else if i == 3 {
                    assert(b[96 + j] == bs[j]);
                }
            }
            lemma_compressed_prefix_len(b, 32, chunks, 4);
            reveal_with_fuel(chunks_sum, 5);
        }
        if high_bytes_zero(b, 32, chunks) {
            assert forall|j: int| 10 <= j < 32 implies bd[j] == 0 by {
                assert(b[32 * 0 + j] == 0);
            }
            assert forall|j: int| 8 <= j < 32 implies bv[j] == 0 by {
                assert(b[32 * 2 + j] == 0);
            }
            assert forall|j: int| 10 <= j < 32 implies bs[j] == 0 by {
                assert(b[32 * 3 + j] == 0);
            }
        }
    }

    /// Reading the wire form of a note gives the note.
    pub proof fn lemma_decode_encode(self)
        requires
            self.d.wf(),
            self.pk_d.wf(),
            self.v.wf(),
            self.st.wf(),
            self.fits(),
        ensures
            self.wire_spec() matches Ok(wire) && Note::decode_spec(wire) == Ok::<Note, CodecError>(
                self,
            ),
    {
        broadcast use Num::lemma_uint_view;

        self.lemma_wire_exists();
        let b = self.wide_bytes();
        lemma_decompress_compress(b, 32, NOTE_CHUNKS@);
        let wire = self.wire_spec()->Ok_0;
        assert(wire.subrange(0, NOTE_SIZE as int) =~= wire);
        lemma_le_bytes_roundtrip(self.d.uint(), b);
        lemma_le_bytes_roundtrip(self.pk_d.uint(), b);
        lemma_le_bytes_roundtrip(self.v.uint(), b);
        lemma_le_bytes_roundtrip(self.st.uint(), b);
        assert(b.subrange(0, 32) =~= self.d.uint().le_bytes());
        assert(b.subrange(32, 64) =~= self.pk_d.uint().le_bytes());
        assert(b.subrange(64, 96) =~= self.v.uint().le_bytes());
        assert(b.subrange(96, 128) =~= self.st.uint().le_bytes());
        self.d.lemma_of_uint_uint();
        self.pk_d.lemma_of_uint_uint();
        self.v.lemma_of_uint_uint();
        self.st.lemma_of_uint_uint();
    }

    /// A note that was read from a wire form fits one: its diversifier
    /// and its salt have at most 80 bits, and its value at most 64.
    pub proof fn lemma_decoded_fits(buf: Seq<u8>)
        requires
            Note::decode_spec(buf) is Ok,
        ensures
            Note::decode_spec(buf)->Ok_0.fits(),
    {
        let wire = buf.subrange(0, NOTE_SIZE as int);
        let data = decompressed_spec(wire, NUM_SIZE as nat, NOTE_CHUNKS@)->Ok_0;
        reveal_with_fuel(decompressed_prefix, 5);
        reveal_with_fuel(chunks_sum, 5);
        lemma_decompressed_prefix_len(wire, 32, NOTE_CHUNKS@, 1);
        lemma_decompressed_prefix_len(wire, 32, NOTE_CHUNKS@, 2);
        lemma_decompressed_prefix_len(wire, 32, NOTE_CHUNKS@, 3);
        lemma_decompressed_prefix_len(wire, 32, NOTE_CHUNKS@, 4);
        let b0 = data.subrange(0, 32);
        let b2 = data.subrange(64, 96);
        let b3 = data.subrange(96, 128);
        let d = U256::from_le_bytes_spec(b0);
        let v = U256::from_le_bytes_spec(b2);
        let st = U256::from_le_bytes_spec(b3);
        assert forall|j: int| 10 <= j < 32 implies b0[j] == 0 by {}
        assert forall|j: int| 8 <= j < 32 implies b2[j] == 0 by {}
        assert forall|j: int| 10 <= j < 32 implies b3[j] == 0 by {}
        lemma_le_bytes_roundtrip(d, b0);
        lemma_le_bytes_roundtrip(v, b2);
        lemma_le_bytes_roundtrip(st, b3);
        lemma_high_bytes(d);
        lemma_high_bytes(v);
        lemma_high_bytes(st);
        Num::lemma_of_uint_view(d);
        Num::lemma_of_uint_view(v);
        Num::lemma_of_uint_view(st);
    }

    /// The wire form of the note: its 60 bytes, or the error where an
    /// element does not fit its chunk.
    pub fn serialize(&self) -> (r: Result<Vec<u8>, CodecError>)
        ensures
            bytes_result(r) == self.wire_spec(),
            r is Ok <==> self.fits(),
            r is Ok ==> r->Ok_0@.len() == NOTE_SIZE,
            r is Err ==> r->Err_0 == CodecError::WrongSerialization,
    {
        let mut buf: Vec<u8> = self.d.to_uint().to_le_bytes();
        let mut b1: Vec<u8> = self.pk_d.to_uint().to_le_bytes();
        let mut b2: Vec<u8> = self.v.to_uint().to_le_bytes();
        let mut b3: Vec<u8> = self.st.to_uint().to_le_bytes();
        buf.append(&mut b1);
        buf.append(&mut b2);
        buf.append(&mut b3);
        proof {
            self.lemma_wire_exists();
        }
        let chunks: [usize; 4] = NOTE_CHUNKS;
        to_compressed(buf.as_slice(), NUM_SIZE, chunks.as_slice())
    }

    /// Reads a note from the first 60 bytes of a buffer.
    pub fn deserialize(buf: &[u8]) -> (r: Result<Note, CodecError>)
        ensures
            r == Note::decode_spec(buf@),
    {
        if buf.len() < NOTE_SIZE {
            return Err(CodecError::TooShort);
        }
        let chunks: [usize; 4] = NOTE_CHUNKS;
        let data: Vec<u8> = match to_decompressed(
            slice_subrange(buf, 0, NOTE_SIZE),
            NUM_SIZE,
            chunks.as_slice(),
        ) {
            Ok(data) => data,
            Err(e) => { return Err(e); },
        };
        proof {
            lemma_decompressed_prefix_len(buf@.subrange(0, NOTE_SIZE as int), 32, NOTE_CHUNKS@, 4);
        }
        let d: Option<U256> = U256::from_le_bytes(slice_subrange(data.as_slice(), 0, 32));
        let pk_d: Option<U256> = U256::from_le_bytes(slice_subrange(data.as_slice(), 32, 64));
        let v: Option<U256> = U256::from_le_bytes(slice_subrange(data.as_slice(), 64, 96));
        let st: Option<U256> = U256::from_le_bytes(slice_subrange(data.as_slice(), 96, 128));
        match (Num::new(d.unwrap()), Num::new(pk_d.unwrap()), Num::new(v.unwrap()), Num::new(st.unwrap())) {
            (Some(d), Some(pk_d), Some(v), Some(st)) => Ok(Note { d, pk_d, v, st }),
            _ => Err(CodecError::NotInField),
        }
    }
}

} // verus!
