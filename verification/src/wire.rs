//! The wire forms of what goes to the pool: little-endian throughout, each
//! integer in 32 bytes, each list of variable length behind its length in
//! four bytes.

use crate::field::{fr_modulus, Num};
use crate::groth16::{Proof, G1, VK};
use crate::pool::TransferAndUpdateRoot;
use crate::transfer::TransferPub;
use crate::tx::{IN, OUT};
use crate::uint::{lemma_le_bytes_roundtrip, U256};
use vstd::bytes::{
    lemma_auto_spec_u32_to_from_le_bytes, spec_u32_from_le_bytes, spec_u32_to_le_bytes,
    u32_from_le_bytes, u32_to_le_bytes,
};
use vstd::prelude::*;
use vstd::slice::{slice_subrange, slice_to_vec};

verus! {

/// Why bytes are not a wire form, or a value has none.
#[derive(Clone, Copy, Debug, PartialEq, Eq, Structural)]
pub enum WireError {
    /// There are fewer or more bytes than the form takes.
    WrongLength,
    /// A list has more elements than its length can say.
    TooLong,
    /// An integer is not below the order of the field.
    NotInField,
}

/// The bytes of a list of integers, one after the other.
pub open spec fn words_bytes(words: Seq<U256>) -> Seq<u8>
    decreases words.len(),
{
    if words.len() == 0 {
        Seq::empty()
    } else {
        words_bytes(words.drop_last()) + words.last().le_bytes()
    }
}

/// The `n` integers that bytes stand for.
pub open spec fn words_of(bytes: Seq<u8>, n: nat) -> Seq<U256> {
    Seq::new(n, |i: int| U256::from_le_bytes_spec(bytes.subrange(32 * i, 32 * i + 32)))
}

/// Each integer takes 32 bytes.
pub proof fn lemma_words_bytes_len(words: Seq<U256>)
    ensures
        words_bytes(words).len() == 32 * words.len(),
    decreases words.len(),
{
    if words.len() > 0 {
        lemma_words_bytes_len(words.drop_last());
        lemma_le_bytes_roundtrip(words.last(), Seq::empty());
    }
}

/// The bytes of two lists of integers are those of the one, then those of
/// the other.
pub proof fn lemma_words_bytes_concat(a: Seq<U256>, b: Seq<U256>)
    ensures
        words_bytes(a + b) == words_bytes(a) + words_bytes(b),
    decreases b.len(),
{
    if b.len() == 0 {
        assert(a + b =~= a);
        assert(words_bytes(a) + words_bytes(b) =~= words_bytes(a));
    } else {
        lemma_words_bytes_concat(a, b.drop_last());
        assert((a + b).drop_last() =~= a + b.drop_last());
        assert(words_bytes(a) + (words_bytes(b.drop_last()) + b.last().le_bytes()) =~= (words_bytes(
            a,
        ) + words_bytes(b.drop_last())) + b.last().le_bytes());
    }
}

/// Reading the bytes of a list of integers gives the list.
pub proof fn lemma_words_roundtrip(words: Seq<U256>)
    ensures
        words_of(words_bytes(words), words.len()) == words,
    decreases words.len(),
{
    let bytes = words_bytes(words);
    lemma_words_bytes_len(words);
    if words.len() > 0 {
        let head = words.drop_last();
        lemma_words_roundtrip(head);
        lemma_words_bytes_len(head);
        let n = head.len() as int;
        lemma_le_bytes_roundtrip(words.last(), Seq::empty());
        assert(bytes.subrange(32 * n, 32 * n + 32) =~= words.last().le_bytes());
        assert forall|i: int| 0 <= i < words.len() implies words_of(bytes, words.len())[i]
            == words[i] by {
            if i < n {
                assert(bytes.subrange(32 * i, 32 * i + 32) =~= words_bytes(head).subrange(
                    32 * i,
                    32 * i + 32,
                ));
                assert(words_of(words_bytes(head), head.len())[i] == head[i]);
            }
        }
    }
    assert(words_of(bytes, words.len()) =~= words);
}

/// The bytes of the integers that bytes stand for are those bytes.
pub proof fn lemma_bytes_roundtrip(bytes: Seq<u8>, n: nat)
    requires
        bytes.len() == 32 * n,
    ensures
        words_bytes(words_of(bytes, n)) == bytes,
    decreases n,
{
    if n == 0 {
        assert(words_bytes(words_of(bytes, 0)) =~= bytes);
    } else {
        let m = n - 1;
        let head = bytes.subrange(0, 32 * m);
        lemma_bytes_roundtrip(head, m as nat);
        assert(words_of(bytes, n).drop_last() =~= words_of(head, m as nat)) by {
            assert forall|i: int| 0 <= i < m implies words_of(bytes, n)[i] == words_of(head, m as nat)[i] by {
                assert(bytes.subrange(32 * i, 32 * i + 32) =~= head.subrange(32 * i, 32 * i + 32));
            }
        }
        lemma_le_bytes_roundtrip(U256 { l0: 0, l1: 0, l2: 0, l3: 0 }, bytes.subrange(32 * m, 32 * m + 32));
        assert(head + bytes.subrange(32 * m, 32 * m + 32) =~= bytes);
    }
}

/// Appends the bytes of integers.
pub fn write_words(out: &mut Vec<u8>, words: &[U256])
    ensures
        final(out)@ == old(out)@ + words_bytes(words@),
{
    let ghost start = out@;
    let mut i: usize = 0;
    assert(words@.subrange(0, 0) =~= Seq::<U256>::empty());
    assert(start + words_bytes(Seq::<U256>::empty()) =~= start);
    while i < words.len()
        invariant
            i <= words@.len(),
            out@ == start + words_bytes(words@.subrange(0, i as int)),
        decreases words@.len() - i,
    {
        let mut bytes: Vec<u8> = words[i].to_le_bytes();
        let ghost before = out@;
        out.append(&mut bytes);
        proof {
            let upto = words@.subrange(0, i + 1);
            assert(upto.drop_last() =~= words@.subrange(0, i as int));
            assert(out@ =~= start + words_bytes(upto));
        }
        i += 1;
    }
    assert(words@.subrange(0, words@.len() as int) =~= words@);
}

/// Reads `n` integers that start at a position.
pub fn read_words(buf: &[u8], at: usize, n: usize) -> (r: Vec<U256>)
    requires
        at + 32 * n <= buf@.len(),
    ensures
        r@ == words_of(buf@.subrange(at as int, at + 32 * n), n as nat),
        r@.len() == n,
{
    let len: usize = buf.len();
    let ghost part = buf@.subrange(at as int, at + 32 * n);
    let mut words: Vec<U256> = Vec::new();
    let mut i: usize = 0;
    while i < n
        invariant
            i <= n,
            len == buf@.len(),
            at + 32 * n <= len,
            part == buf@.subrange(at as int, at + 32 * n),
            words@.len() == i,
            forall|k: int| 0 <= k < i ==> #[trigger] words@[k] == words_of(part, n as nat)[k],
        decreases n - i,
    {
        let from: usize = at + 32 * i;
        let word: Option<U256> = U256::from_le_bytes(slice_subrange(buf, from, from + 32));
        assert(buf@.subrange(from as int, from + 32) =~= part.subrange(32 * i, 32 * i + 32));
        words.push(word.unwrap());
        i += 1;
    }
    assert(words@ =~= words_of(part, n as nat));
    words
}

/// The integers of a proof: the two coordinates of `a`, the four of `b`,
/// the two of `c`.
pub open spec fn proof_words(p: Proof) -> Seq<U256> {
    seq![p.a[0], p.a[1], p.b[0], p.b[1], p.b[2], p.b[3], p.c[0], p.c[1]]
}

/// Bytes of a proof on the wire.
pub const PROOF_SIZE: usize = 256;

impl Proof {
    /// The wire form of the proof.
    pub fn serialize(&self) -> (r: Vec<u8>)
        ensures
            r@ == words_bytes(proof_words(*self)),
            r@.len() == PROOF_SIZE,
    {
        let words: [U256; 8] = [
            self.a[0],
            self.a[1],
            self.b[0],
            self.b[1],
            self.b[2],
            self.b[3],
            self.c[0],
            self.c[1],
        ];
        assert(words@ =~= proof_words(*self));
        let mut out: Vec<u8> = Vec::new();
        write_words(&mut out, words.as_slice());
        proof {
            lemma_words_bytes_len(proof_words(*self));
        }
        out
    }

    /// Reads a proof from its wire form.
    pub fn deserialize(buf: &[u8]) -> (r: Result<Proof, WireError>)
        ensures
            r is Ok <==> buf@.len() == PROOF_SIZE,
            r is Err ==> r->Err_0 == WireError::WrongLength,
            r matches Ok(p) ==> proof_words(p) == words_of(buf@, 8),
    {
        if buf.len() != PROOF_SIZE {
            return Err(WireError::WrongLength);
        }
        let w: Vec<U256> = read_words(buf, 0, 8);
        assert(buf@.subrange(0, 256) =~= buf@);
        let p = Proof { a: [w[0], w[1]], b: [w[2], w[3], w[4], w[5]], c: [w[6], w[7]] };
        assert(proof_words(p) =~= w@);
        Ok(p)
    }
}

/// A proof is the one that its integers give.
pub proof fn lemma_proof_words_injective(p: Proof, q: Proof)
    requires
        proof_words(p) == proof_words(q),
    ensures
        p == q,
{
    let w = proof_words(p);
    let v = proof_words(q);
    assert(w[0] == v[0] && w[1] == v[1] && w[2] == v[2] && w[3] == v[3] && w[4] == v[4] && w[5]
        == v[5] && w[6] == v[6] && w[7] == v[7]);
    assert(p.a =~= q.a);
    assert(p.b =~= q.b);
    assert(p.c =~= q.c);
}

/// Reading the wire form of a proof gives the proof.
pub proof fn lemma_proof_roundtrip(p: Proof, q: Proof)
    requires
        proof_words(q) == words_of(words_bytes(proof_words(p)), 8),
    ensures
        q == p,
{
    lemma_words_roundtrip(proof_words(p));
    lemma_proof_words_injective(p, q);
}

/// The integers of the points of a list: for each point `x`, then `y`.
pub open spec fn points_words(points: Seq<G1>) -> Seq<U256> {
    Seq::new(2 * points.len(), |i: int| points[i / 2][i % 2])
}

/// The integers of the fixed part of a key: `alpha`, `beta`, `gamma` and
/// `delta`.
pub open spec fn vk_head_words(vk: VK) -> Seq<U256> {
    seq![
        vk.alpha[0],
        vk.alpha[1],
        vk.beta[0],
        vk.beta[1],
        vk.beta[2],
        vk.beta[3],
        vk.gamma[0],
        vk.gamma[1],
        vk.gamma[2],
        vk.gamma[3],
        vk.delta[0],
        vk.delta[1],
        vk.delta[2],
        vk.delta[3],
    ]
}

/// The wire form of a key: its fixed part, the number of its points, and
/// the points.
pub open spec fn vk_bytes(vk: VK) -> Seq<u8> {
    words_bytes(vk_head_words(vk)) + spec_u32_to_le_bytes(vk.ic@.len() as u32) + words_bytes(
        points_words(vk.ic@),
    )
}

/// Bytes of the fixed part of a key: 14 integers.
pub const VK_HEAD_SIZE: usize = 448;

impl VK {
    /// The wire form of the key; none where it has more points than four
    /// bytes can count.
    pub fn serialize(&self) -> (r: Result<Vec<u8>, WireError>)
        ensures
            r is Ok <==> self.ic@.len() <= u32::MAX,
            r is Err ==> r->Err_0 == WireError::TooLong,
            r matches Ok(bytes) ==> bytes@ == vk_bytes(*self),
    {
        if self.ic.len() > u32::MAX as usize {
            return Err(WireError::TooLong);
        }
        let head: [U256; 14] = [
            self.alpha[0],
            self.alpha[1],
            self.beta[0],
            self.beta[1],
            self.beta[2],
            self.beta[3],
            self.gamma[0],
            self.gamma[1],
            self.gamma[2],
            self.gamma[3],
            self.delta[0],
            self.delta[1],
            self.delta[2],
            self.delta[3],
        ];
        assert(head@ =~= vk_head_words(*self));
        let mut out: Vec<u8> = Vec::new();
        write_words(&mut out, head.as_slice());
        let mut count: Vec<u8> = u32_to_le_bytes(self.ic.len() as u32);
        out.append(&mut count);
        let ghost start = out@;
        let mut i: usize = 0;
        assert(points_words(self.ic@.subrange(0, 0)) =~= Seq::<U256>::empty());
        assert(start + words_bytes(Seq::<U256>::empty()) =~= start);
        while i < self.ic.len()
            invariant
                i <= self.ic@.len(),
                out@ == start + words_bytes(points_words(self.ic@.subrange(0, i as int))),
            decreases self.ic@.len() - i,
        {
            let point: [U256; 2] = self.ic[i];
            let ghost before = points_words(self.ic@.subrange(0, i as int));
            write_words(&mut out, point.as_slice());
            proof {
                assert(points_words(self.ic@.subrange(0, i + 1)) =~= before + point@);
                lemma_words_bytes_concat(before, point@);
                assert(start + words_bytes(before) + words_bytes(point@) =~= start + (words_bytes(
                    before,
                ) + words_bytes(point@)));
            }
            i += 1;
        }
        assert(self.ic@.subrange(0, self.ic@.len() as int) =~= self.ic@);
        Ok(out)
    }

    /// Reads a key from its wire form.
    pub fn deserialize(buf: &[u8]) -> (r: Result<VK, WireError>)
        ensures
            r is Ok <==> buf@.len() >= VK_HEAD_SIZE + 4 && buf@.len() == VK_HEAD_SIZE + 4 + 64
                * spec_u32_from_le_bytes(
                buf@.subrange(VK_HEAD_SIZE as int, VK_HEAD_SIZE + 4),
            ),
            r is Err ==> r->Err_0 == WireError::WrongLength,
            r matches Ok(vk) ==> {
                &&& vk_head_words(vk) == words_of(buf@.subrange(0, VK_HEAD_SIZE as int), 14)
                &&& vk.ic@.len() == spec_u32_from_le_bytes(
                    buf@.subrange(VK_HEAD_SIZE as int, VK_HEAD_SIZE + 4),
                )
                &&& points_words(vk.ic@) == words_of(
                    buf@.subrange(VK_HEAD_SIZE + 4, buf@.len() as int),
                    2 * vk.ic@.len(),
                )
            },
    {
        let len: usize = buf.len();
        if len < VK_HEAD_SIZE + 4 {
            return Err(WireError::WrongLength);
        }
        let count: u32 = u32_from_le_bytes(slice_subrange(buf, VK_HEAD_SIZE, VK_HEAD_SIZE + 4));
        let rest: usize = len - VK_HEAD_SIZE - 4;
        if rest as u128 != 64 * (count as u128) {
            return Err(WireError::WrongLength);
        }
        let n: usize = count as usize;
        let w: Vec<U256> = read_words(buf, 0, 14);
        let points: Vec<U256> = read_words(buf, VK_HEAD_SIZE + 4, 2 * n);
        let mut ic: Vec<G1> = Vec::new();
        let mut i: usize = 0;
        while i < n
            invariant
                i <= n,
                points@.len() == 2 * n,
                2 * n <= usize::MAX,
                ic@.len() == i,
                forall|k: int|
                    0 <= k < i ==> (#[trigger] ic@[k])[0] == points@[2 * k] && ic@[k][1] == points@[2
                        * k + 1],
            decreases n - i,
        {
            ic.push([points[2 * i], points[2 * i + 1]]);
            i += 1;
        }
        assert(points_words(ic@) =~= points@);
        let vk = VK {
            alpha: [w[0], w[1]],
            beta: [w[2], w[3], w[4], w[5]],
            gamma: [w[6], w[7], w[8], w[9]],
            delta: [w[10], w[11], w[12], w[13]],
            ic,
        };
        assert(vk_head_words(vk) =~= w@);
        Ok(vk)
    }
}

/// What is read from the wire form of a key is the key: it has the length
/// that its count asks for, and its bytes stand for the integers of the key.
pub proof fn lemma_vk_roundtrip(vk: VK)
    requires
        vk.ic@.len() <= u32::MAX,
    ensures
        vk_bytes(vk).len() == VK_HEAD_SIZE + 4 + 64 * vk.ic@.len(),
        spec_u32_from_le_bytes(vk_bytes(vk).subrange(VK_HEAD_SIZE as int, VK_HEAD_SIZE + 4))
            == vk.ic@.len(),
        words_of(vk_bytes(vk).subrange(0, VK_HEAD_SIZE as int), 14) == vk_head_words(vk),
        words_of(
            vk_bytes(vk).subrange(VK_HEAD_SIZE + 4, vk_bytes(vk).len() as int),
            2 * vk.ic@.len(),
        ) == points_words(vk.ic@),
{
    let head = words_bytes(vk_head_words(vk));
    let count = spec_u32_to_le_bytes(vk.ic@.len() as u32);
    let points = words_bytes(points_words(vk.ic@));
    let b = vk_bytes(vk);
    lemma_words_bytes_len(vk_head_words(vk));
    lemma_words_bytes_len(points_words(vk.ic@));
    lemma_auto_spec_u32_to_from_le_bytes();
    lemma_words_roundtrip(vk_head_words(vk));
    lemma_words_roundtrip(points_words(vk.ic@));
    assert(b.subrange(0, VK_HEAD_SIZE as int) =~= head);
    assert(b.subrange(VK_HEAD_SIZE as int, VK_HEAD_SIZE + 4) =~= count);
    assert(b.subrange(VK_HEAD_SIZE + 4, b.len() as int) =~= points);
}

/// What is read from the wire form of a submission is the submission.
pub proof fn lemma_submission_roundtrip(tx: TransferAndUpdateRoot)
    requires
        tx.message@.len() <= u32::MAX,
    ensures
        submission_bytes(tx).len() == SUBMISSION_HEAD_SIZE + 4 + tx.message@.len() + 64,
        spec_u32_from_le_bytes(
            submission_bytes(tx).subrange(SUBMISSION_HEAD_SIZE as int, SUBMISSION_HEAD_SIZE + 4),
        ) == tx.message@.len(),
        words_of(submission_bytes(tx).subrange(0, SUBMISSION_HEAD_SIZE as int), 11)
            == submission_head_words(tx),
        submission_bytes(tx).subrange(SUBMISSION_HEAD_SIZE + 4, submission_bytes(tx).len() - 64)
            == tx.message@,
        words_of(
            submission_bytes(tx).subrange(
                submission_bytes(tx).len() - 64,
                submission_bytes(tx).len() as int,
            ),
            2,
        ) == seq![tx.before_root, tx.after_root],
{
    let head = words_bytes(submission_head_words(tx));
    let count = spec_u32_to_le_bytes(tx.message@.len() as u32);
    let tail = words_bytes(seq![tx.before_root, tx.after_root]);
    let b = submission_bytes(tx);
    lemma_words_bytes_len(submission_head_words(tx));
    lemma_words_bytes_len(seq![tx.before_root, tx.after_root]);
    lemma_auto_spec_u32_to_from_le_bytes();
    lemma_words_roundtrip(submission_head_words(tx));
    lemma_words_roundtrip(seq![tx.before_root, tx.after_root]);
    assert(b.subrange(0, SUBMISSION_HEAD_SIZE as int) =~= head);
    assert(b.subrange(SUBMISSION_HEAD_SIZE as int, SUBMISSION_HEAD_SIZE + 4) =~= count);
    assert(b.subrange(SUBMISSION_HEAD_SIZE + 4, b.len() - 64) =~= tx.message@);
    assert(b.subrange(b.len() - 64, b.len() as int) =~= tail);
}

/// The integers at the head of a submission: the root, the nullifiers,
/// the commitments, the delta and the memo.
pub open spec fn submission_head_words(tx: TransferAndUpdateRoot) -> Seq<U256> {
    seq![tx.root] + tx.nullifier@ + tx.out_hash@ + seq![tx.delta, tx.memo]
}

/// The wire form of a submission: its head, the length of the message, the
/// message, the root before and the root after.
pub open spec fn submission_bytes(tx: TransferAndUpdateRoot) -> Seq<u8> {
    words_bytes(submission_head_words(tx)) + spec_u32_to_le_bytes(tx.message@.len() as u32)
        + tx.message@ + words_bytes(seq![tx.before_root, tx.after_root])
}

/// Bytes of the head of a submission: 11 integers.
pub const SUBMISSION_HEAD_SIZE: usize = 352;

impl TransferAndUpdateRoot {
    /// The wire form of the submission; none where the message is longer
    /// than four bytes can say.
    pub fn serialize(&self) -> (r: Result<Vec<u8>, WireError>)
        ensures
            r is Ok <==> self.message@.len() <= u32::MAX,
            r is Err ==> r->Err_0 == WireError::TooLong,
            r matches Ok(bytes) ==> bytes@ == submission_bytes(*self),
    {
        if self.message.len() > u32::MAX as usize {
            return Err(WireError::TooLong);
        }
        let head: Vec<U256> = self.input_vec_transfer();
        let mut out: Vec<u8> = Vec::new();
        write_words(&mut out, head.as_slice());
        let mut count: Vec<u8> = u32_to_le_bytes(self.message.len() as u32);
        out.append(&mut count);
        let mut message: Vec<u8> = slice_to_vec(self.message.as_slice());
        out.append(&mut message);
        let tail: [U256; 2] = [self.before_root, self.after_root];
        assert(tail@ =~= seq![self.before_root, self.after_root]);
        write_words(&mut out, tail.as_slice());
        Ok(out)
    }

    /// Reads a submission from its wire form.
    pub fn deserialize(buf: &[u8]) -> (r: Result<TransferAndUpdateRoot, WireError>)
        ensures
            r is Ok <==> buf@.len() >= SUBMISSION_HEAD_SIZE + 4 && buf@.len()
                == SUBMISSION_HEAD_SIZE + 4 + spec_u32_from_le_bytes(
                buf@.subrange(SUBMISSION_HEAD_SIZE as int, SUBMISSION_HEAD_SIZE + 4),
            ) + 64,
            r is Err ==> r->Err_0 == WireError::WrongLength,
            r matches Ok(tx) ==> {
                &&& submission_head_words(tx) == words_of(
                    buf@.subrange(0, SUBMISSION_HEAD_SIZE as int),
                    11,
                )
                &&& tx.message@ == buf@.subrange(SUBMISSION_HEAD_SIZE + 4, buf@.len() - 64)
                &&& seq![tx.before_root, tx.after_root] == words_of(
                    buf@.subrange(buf@.len() - 64, buf@.len() as int),
                    2,
                )
            },
    {
        let len: usize = buf.len();
        if len < SUBMISSION_HEAD_SIZE + 4 {
            return Err(WireError::WrongLength);
        }
        let count: u32 = u32_from_le_bytes(
            slice_subrange(buf, SUBMISSION_HEAD_SIZE, SUBMISSION_HEAD_SIZE + 4),
        );
        let rest: usize = len - SUBMISSION_HEAD_SIZE - 4;
        if rest < 64 || rest - 64 != count as usize {
            return Err(WireError::WrongLength);
        }
        let w: Vec<U256> = read_words(buf, 0, 11);
        let message: Vec<u8> = slice_to_vec(slice_subrange(buf, SUBMISSION_HEAD_SIZE + 4, len - 64));
        let tail: Vec<U256> = read_words(buf, len - 64, 2);
        let tx = TransferAndUpdateRoot {
            root: w[0],
            nullifier: [w[1], w[2], w[3], w[4], w[5], w[6]],
            out_hash: [w[7], w[8]],
            delta: w[9],
            memo: w[10],
            message,
            before_root: tail[0],
            after_root: tail[1],
        };
        assert(submission_head_words(tx) =~= w@);
        assert(seq![tx.before_root, tx.after_root] =~= tail@);
        Ok(tx)
    }
}

/// The integers of a public signal: the root, the nullifiers, the
/// commitments, the delta and the memo.
pub open spec fn transfer_pub_words(p: TransferPub) -> Seq<U256> {
    seq![p.root.uint()] + p.nullifier@.map_values(|n: Num| n.uint()) + p.out_hash@.map_values(
        |n: Num| n.uint(),
    ) + seq![p.delta.uint(), p.memo.uint()]
}

/// Bytes of a public signal on the wire: 11 integers.
pub const TRANSFER_PUB_SIZE: usize = 352;

impl TransferPub {
    /// The wire form of a public signal of the shape of a transfer.
    pub fn serialize(&self) -> (r: Vec<u8>)
        requires
            self.wf(),
        ensures
            r@ == words_bytes(transfer_pub_words(*self)),
            r@.len() == TRANSFER_PUB_SIZE,
    {
        let mut words: Vec<U256> = Vec::new();
        words.push(self.root.to_uint());
        let mut i: usize = 0;
        while i < IN
            invariant
                i <= IN,
                self.wf(),
                words@ == seq![self.root.uint()] + self.nullifier@.map_values(
                    |n: Num| n.uint(),
                ).subrange(0, i as int),
            decreases IN - i,
        {
            words.push(self.nullifier[i].to_uint());
            assert(words@ =~= seq![self.root.uint()] + self.nullifier@.map_values(
                |n: Num| n.uint(),
            ).subrange(0, i + 1));
            i += 1;
        }
        assert(self.nullifier@.map_values(|n: Num| n.uint()).subrange(0, IN as int)
            =~= self.nullifier@.map_values(|n: Num| n.uint()));
        let ghost upto = words@;
        let mut j: usize = 0;
        while j < OUT
            invariant
                j <= OUT,
                self.wf(),
                words@ == upto + self.out_hash@.map_values(|n: Num| n.uint()).subrange(0, j as int),
            decreases OUT - j,
        {
            words.push(self.out_hash[j].to_uint());
            assert(words@ =~= upto + self.out_hash@.map_values(|n: Num| n.uint()).subrange(
                0,
                j + 1,
            ));
            j += 1;
        }
        assert(self.out_hash@.map_values(|n: Num| n.uint()).subrange(0, OUT as int)
            =~= self.out_hash@.map_values(|n: Num| n.uint()));
        words.push(self.delta.to_uint());
        words.push(self.memo.to_uint());
        assert(words@ =~= transfer_pub_words(*self));
        let mut out: Vec<u8> = Vec::new();
        write_words(&mut out, words.as_slice());
        proof {
            lemma_words_bytes_len(words@);
        }
        out
    }

    /// Reads a public signal from its wire form.
    pub fn deserialize(buf: &[u8]) -> (r: Result<TransferPub, WireError>)
        ensures
            r is Ok <==> buf@.len() == TRANSFER_PUB_SIZE && forall|k: int|
                0 <= k < 11 ==> (#[trigger] words_of(buf@, 11)[k])@ < fr_modulus(),
            r is Err ==> r->Err_0 == if buf@.len() != TRANSFER_PUB_SIZE {
                WireError::WrongLength
            } else {
                WireError::NotInField
            },
            r matches Ok(p) ==> p.wf() && transfer_pub_words(p) == words_of(buf@, 11),
    {
        if buf.len() != TRANSFER_PUB_SIZE {
            return Err(WireError::WrongLength);
        }
        let w: Vec<U256> = read_words(buf, 0, 11);
        assert(buf@.subrange(0, 352) =~= buf@);
        let mut nums: Vec<Num> = Vec::new();
        let mut i: usize = 0;
        while i < 11
            invariant
                i <= 11,
                w@.len() == 11,
                w@ == words_of(buf@, 11),
                buf@.len() == TRANSFER_PUB_SIZE,
                nums@.len() == i,
                forall|k: int| 0 <= k < i ==> (#[trigger] nums@[k]).uint() == w@[k],
                forall|k: int| 0 <= k < i ==> (#[trigger] w@[k])@ < fr_modulus(),
            decreases 11 - i,
        {
            match Num::new(w[i]) {
                Some(n) => { nums.push(n); },
                None => { return Err(WireError::NotInField); },
            }
            i += 1;
        }
        let p = TransferPub {
            root: nums[0],
            nullifier: vec![nums[1], nums[2], nums[3], nums[4], nums[5], nums[6]],
            out_hash: vec![nums[7], nums[8]],
            delta: nums[9],
            memo: nums[10],
        };
        assert(transfer_pub_words(p) =~= w@);
        Ok(p)
    }
}

} // verus!
