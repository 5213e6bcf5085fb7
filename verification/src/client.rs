//! The state of a client: its copy of the Merkle tree and its own notes, in
//! a key-value store, and the keys of its wallet.

use crate::ecc::edwards_g_mul_spec;
use crate::field::{fr_modulus, Fs, Num};
use crate::hash::nums_view;
use crate::merkle::{
    compress, compress_spec, empty_root_spec, empty_roots, merkle_root_spec, MerkleProof,
};
use crate::note::{CodecError, Note, NOTE_SIZE};
use crate::storage::{
    apply_puts, bytes_lt, column_listing, db_columns, db_entries, db_get, db_iter, db_write,
    is_column_listing, lemma_apply_puts_last, lemma_apply_puts_other, lemma_bytes_lt_asymmetric,
    lemma_listing_is_column_listing, pairs_view, puts_view, Put,
};
use crate::tree::{is_tree, lemma_add_leaf_keeps_tree, lemma_empty_store_is_tree};
use crate::tx::{
    derive_key_dk, derive_key_xsk, dk_spec, note_hash_spec, num_bytes, num_to_bytes, tx_sign,
    tx_sign_spec, PoolBN256, H,
};
use crate::uint::{pow2, U256};
use kvdb_memorydb::InMemory;
use vstd::bytes::{
    spec_u64_from_le_bytes, spec_u64_to_le_bytes, u64_from_le_bytes, u64_to_le_bytes,
};
use vstd::prelude::*;

verus! {

/// Column of the settings of the client.
pub const COL_DEFAULT: u32 = 0;

/// Column of the nodes of the Merkle tree.
pub const COL_CELL: u32 = 1;

/// Column of the nullifiers that the client has seen.
pub const COL_NULLIFIER: u32 = 2;

/// Column of the notes of the client.
pub const COL_NOTE: u32 = 3;

/// Number of columns of the store of a client.
pub const NUM_COLS: u32 = 4;

/// Key of the mark that a store was set up: `initialized`.
pub const KEY_INITIALIZED: [u8; 11] = [105, 110, 105, 116, 105, 97, 108, 105, 122, 101, 100];

/// Key of the number of leaves: `num_leaves`.
pub const KEY_NUM_LEAVES: [u8; 10] = [110, 117, 109, 95, 108, 101, 97, 118, 101, 115];

/// Why the client could not do what it was asked.
#[derive(Clone, Copy, Debug, PartialEq, Eq, Structural)]
pub enum ClientError {
    /// The store lacks a column.
    NoColumn,
    /// The store holds no number of leaves, or one that cannot be read.
    BadNumLeaves,
    /// The store holds a node that is not a field element.
    BadCell,
    /// The store holds a note that cannot be read.
    BadNote,
    /// A note has no wire form.
    NoteTooWide,
    /// The tree cannot take another leaf.
    TooManyLeaves,
    /// A key could not be derived, or a note could not be encrypted.
    NoKey,
}

/// Who holds the spending key: gives the extended spending key and signs.
pub trait Wallet {
    /// The extended spending key.
    spec fn xsk_spec(&self) -> nat;

    /// The signature of a message.
    spec fn sign_spec(&self, msg: nat) -> (nat, nat);

    fn xsk(&self, params: &PoolBN256) -> (r: Num)
        ensures
            r@ == self.xsk_spec(),
    ;

    fn sign(&self, msg: Num, params: &PoolBN256) -> (r: (Fs, Num))
        ensures
            (r.0@, r.1@) == self.sign_spec(msg@),
    ;
}

/// A wallet that holds the spending key itself.
#[derive(Clone, Copy, Debug)]
pub struct NativeWallet {
    pub sk: Fs,
}

impl Wallet for NativeWallet {
    open spec fn xsk_spec(&self) -> nat {
        edwards_g_mul_spec(self.sk@).0
    }

    open spec fn sign_spec(&self, msg: nat) -> (nat, nat) {
        tx_sign_spec(self.sk@, msg)
    }

    fn xsk(&self, params: &PoolBN256) -> (r: Num) {
        derive_key_xsk(self.sk, params).x()
    }

    fn sign(&self, msg: Num, params: &PoolBN256) -> (r: (Fs, Num)) {
        tx_sign(self.sk, msg, params)
    }
}

/// The key of a node of the tree: its level, then its index, each in
/// eight bytes.
pub open spec fn cell_key(level: u64, index: u64) -> Seq<u8> {
    spec_u64_to_le_bytes(level) + spec_u64_to_le_bytes(index)
}

/// The key of a note: the position of its leaf, in eight bytes.
pub open spec fn note_key(pos: u64) -> Seq<u8> {
    spec_u64_to_le_bytes(pos)
}

/// The field element that a value of the store stands for, if it stands
/// for one.
pub open spec fn decode_num(bytes: Seq<u8>) -> Option<nat> {
    if bytes.len() == 32 && U256::from_le_bytes_spec(bytes)@ < fr_modulus() {
        Some(U256::from_le_bytes_spec(bytes)@)
    } else {
        None
    }
}

/// The number of leaves that a store holds.
pub open spec fn num_leaves_spec(entries: Map<(u32, Seq<u8>), Seq<u8>>, columns: nat) -> Result<
    usize,
    ClientError,
> {
    if columns <= COL_DEFAULT {
        Err(ClientError::NoColumn)
    } else if !entries.contains_key((COL_DEFAULT, KEY_NUM_LEAVES@)) {
        Err(ClientError::BadNumLeaves)
    } else {
        let bytes = entries[(COL_DEFAULT, KEY_NUM_LEAVES@)];
        if bytes.len() != 8 || spec_u64_from_le_bytes(bytes) > usize::MAX {
            Err(ClientError::BadNumLeaves)
        } else {
            Ok(spec_u64_from_le_bytes(bytes) as usize)
        }
    }
}

/// The node of the tree at a level and an index: the one that the store
/// holds, or the root of an empty subtree where it holds none.
pub open spec fn cell_spec(
    entries: Map<(u32, Seq<u8>), Seq<u8>>,
    columns: nat,
    level: nat,
    index: u64,
) -> Result<nat, ClientError> {
    if columns <= COL_CELL {
        Err(ClientError::NoColumn)
    } else if !entries.contains_key((COL_CELL, cell_key(level as u64, index))) {
        Ok(empty_root_spec(level))
    } else {
        match decode_num(entries[(COL_CELL, cell_key(level as u64, index))]) {
            Some(v) => Ok(v),
            None => Err(ClientError::BadCell),
        }
    }
}

/// The index of the node above a leaf at a level.
pub open spec fn index_at(pos: u64, level: nat) -> u64
    decreases level,
{
    if level == 0 {
        pos
    } else {
        index_at(pos, (level - 1) as nat) / 2
    }
}

/// The index of the other child of the parent of a node.
pub open spec fn sibling_of(index: u64) -> u64 {
    if index % 2 == 0 {
        (index + 1) as u64
    } else {
        (index - 1) as u64
    }
}

/// The siblings of the nodes on the way up from a leaf, for the first `k`
/// levels; the first error where one cannot be read.
pub open spec fn siblings_spec(
    entries: Map<(u32, Seq<u8>), Seq<u8>>,
    columns: nat,
    pos: u64,
    k: nat,
) -> Result<Seq<nat>, ClientError>
    decreases k,
{
    if k == 0 {
        Ok(Seq::empty())
    } else {
        match siblings_spec(entries, columns, pos, (k - 1) as nat) {
            Err(e) => Err(e),
            Ok(s) => match cell_spec(
                entries,
                columns,
                (k - 1) as nat,
                sibling_of(index_at(pos, (k - 1) as nat)),
            ) {
                Err(e) => Err(e),
                Ok(c) => Ok(s.push(c)),
            },
        }
    }
}

/// A sibling that cannot be read at one level cannot be read at any level
/// above, with the same error.
pub proof fn lemma_siblings_error(
    entries: Map<(u32, Seq<u8>), Seq<u8>>,
    columns: nat,
    pos: u64,
    k: nat,
    n: nat,
)
    requires
        k <= n,
        siblings_spec(entries, columns, pos, k) is Err,
    ensures
        siblings_spec(entries, columns, pos, n) == siblings_spec(entries, columns, pos, k),
    decreases n,
{
    if k < n {
        lemma_siblings_error(entries, columns, pos, k, (n - 1) as nat);
    }
}

/// The siblings of the first levels are the first of the siblings of more
/// levels.
pub proof fn lemma_siblings_prefix(
    entries: Map<(u32, Seq<u8>), Seq<u8>>,
    columns: nat,
    pos: u64,
    k: nat,
    n: nat,
)
    requires
        k <= n,
        siblings_spec(entries, columns, pos, n) is Ok,
    ensures
        siblings_spec(entries, columns, pos, k) is Ok,
        siblings_spec(entries, columns, pos, n)->Ok_0.len() == n,
        siblings_spec(entries, columns, pos, k)->Ok_0 == siblings_spec(
            entries,
            columns,
            pos,
            n,
        )->Ok_0.subrange(0, k as int),
    decreases n,
{
    let whole = siblings_spec(entries, columns, pos, n)->Ok_0;
    if n == 0 {
        assert(whole.subrange(0, 0) =~= whole);
    } else {
        lemma_siblings_prefix(entries, columns, pos, (n - 1) as nat, (n - 1) as nat);
        if k < n {
            lemma_siblings_prefix(entries, columns, pos, k, (n - 1) as nat);
            let shorter = siblings_spec(entries, columns, pos, (n - 1) as nat)->Ok_0;
            assert(whole.subrange(0, k as int) =~= shorter.subrange(0, k as int));
        } else {
            assert(whole.subrange(0, k as int) =~= whole);
        }
    }
}

/// For each of the first `k` levels, whether the node on the way up from
/// a leaf is a right child.
pub open spec fn path_spec(pos: u64, k: nat) -> Seq<bool> {
    Seq::new(k, |i: int| index_at(pos, i as nat) % 2 == 1)
}

/// The writes that put a leaf and the nodes above it into the tree.
pub open spec fn path_puts_spec(value: nat, sibling: Seq<nat>, pos: u64) -> Seq<
    (u32, Seq<u8>, Seq<u8>),
> {
    Seq::new(
        (H + 1) as nat,
        |k: int|
            (
                COL_CELL,
                cell_key(k as u64, index_at(pos, k as nat)),
                num_bytes(merkle_root_spec(value, sibling, path_spec(pos, H as nat), k as nat)),
            ),
    )
}

/// One more step of a path hashes the node below with its sibling, the
/// sibling first where the node is a right child.
pub proof fn lemma_root_step(
    leaf: nat,
    s: Seq<nat>,
    p: Seq<bool>,
    i: nat,
    cell: nat,
    below: nat,
    right: bool,
)
    requires
        i < s.len(),
        i < p.len(),
        s[i as int] == cell,
        p[i as int] == right,
        below == merkle_root_spec(leaf, s, p, i),
    ensures
        merkle_root_spec(leaf, s, p, i + 1) == if right {
            compress_spec(cell, below)
        } else {
            compress_spec(below, cell)
        },
{
}

/// The write of the node at a level on the way up from a leaf.
pub proof fn lemma_path_put(value: nat, sibling: Seq<nat>, pos: u64, k: nat)
    requires
        k <= H,
    ensures
        path_puts_spec(value, sibling, pos).len() == H + 1,
        path_puts_spec(value, sibling, pos)[k as int] == (
            COL_CELL,
            cell_key(k as u64, index_at(pos, k)),
            num_bytes(merkle_root_spec(value, sibling, path_spec(pos, H as nat), k)),
        ),
{
}

/// The writes that add a leaf: those of the leaf and the nodes above it,
/// that of the note where there is one, and that of the new number of
/// leaves. The first error where something cannot be read, the note has no
/// wire form, or the number of leaves cannot grow.
pub open spec fn add_leaf_puts(
    entries: Map<(u32, Seq<u8>), Seq<u8>>,
    columns: nat,
    note_hash: nat,
    note: Option<Note>,
) -> Result<Seq<(u32, Seq<u8>, Seq<u8>)>, ClientError> {
    match num_leaves_spec(entries, columns) {
        Err(e) => Err(e),
        Ok(n) => match siblings_spec(entries, columns, n as u64, H as nat) {
            Err(e) => Err(e),
            Ok(sibling) => {
                let path_puts = path_puts_spec(note_hash, sibling, n as u64);
                let note_puts = match note {
                    Some(nt) => match nt.wire_spec() {
                        Ok(wire) => Ok(seq![(COL_NOTE, note_key(n as u64), wire)]),
                        Err(_) => Err(ClientError::NoteTooWide),
                    },
                    None => Ok(Seq::empty()),
                };
                match note_puts {
                    Err(e) => Err(e),
                    Ok(np) => if n == usize::MAX {
                        Err(ClientError::TooManyLeaves)
                    } else {
                        Ok(
                            path_puts + np + seq![
                                (
                                    COL_DEFAULT,
                                    KEY_NUM_LEAVES@,
                                    spec_u64_to_le_bytes((n + 1) as u64),
                                ),
                            ],
                        )
                    },
                }
            },
        }
    }
}

/// What a store holds after a leaf was added: one leaf more, the leaf at
/// its position, above it the nodes that its path leads to, up to the
/// root, and the note under the position of the leaf. The siblings of the
/// path are as they were.
pub proof fn lemma_add_leaf_reads(
    entries: Map<(u32, Seq<u8>), Seq<u8>>,
    columns: nat,
    note_hash: nat,
    note: Option<Note>,
    level: nat,
)
    requires
        columns > COL_NOTE,
        add_leaf_puts(entries, columns, note_hash, note) is Ok,
        level <= H,
    ensures
        ({
            let n = num_leaves_spec(entries, columns)->Ok_0;
            let sibling = siblings_spec(entries, columns, n as u64, H as nat)->Ok_0;
            let after = apply_puts(
                entries,
                columns,
                add_leaf_puts(entries, columns, note_hash, note)->Ok_0,
            );
            &&& num_leaves_spec(after, columns) == Ok::<usize, ClientError>((n + 1) as usize)
            &&& after.contains_key((COL_CELL, cell_key(level as u64, index_at(n as u64, level))))
            &&& after[(COL_CELL, cell_key(level as u64, index_at(n as u64, level)))] == num_bytes(
                merkle_root_spec(note_hash, sibling, path_spec(n as u64, H as nat), level),
            )
            &&& note matches Some(nt) ==> after.contains_key((COL_NOTE, note_key(n as u64)))
                && Ok::<Seq<u8>, CodecError>(after[(COL_NOTE, note_key(n as u64))])
                == nt.wire_spec()
            &&& cell_spec(
                after,
                columns,
                level,
                sibling_of(index_at(n as u64, level)),
            ) == cell_spec(entries, columns, level, sibling_of(index_at(n as u64, level)))
        }),
{
    let n = num_leaves_spec(entries, columns)->Ok_0;
    let pos = n as u64;
    let sibling = siblings_spec(entries, columns, pos, H as nat)->Ok_0;
    let puts = add_leaf_puts(entries, columns, note_hash, note)->Ok_0;
    let path_puts = path_puts_spec(note_hash, sibling, pos);
    let after = apply_puts(entries, columns, puts);
    vstd::bytes::lemma_auto_spec_u64_to_from_le_bytes();
    assert(path_puts.len() == H + 1);
    // The number of leaves is written last.
    let last = puts.len() - 1;
    assert(puts[last] == (COL_DEFAULT, KEY_NUM_LEAVES@, spec_u64_to_le_bytes((n + 1) as u64)));
    lemma_apply_puts_last(entries, columns, puts, last);
    // The node of the level is written once.
    let at = level as int;
    lemma_path_put(note_hash, sibling, pos, level);
    assert(puts[at] == path_puts[at]);
    assert forall|j: int| at < j < puts.len() implies !((#[trigger] puts[j]).0 == puts[at].0
        && puts[j].1 == puts[at].1) by {
        if j <= H {
            // The keys of the nodes of different levels differ in their
            // first eight bytes.
            lemma_path_put(note_hash, sibling, pos, j as nat);
            assert(puts[j] == path_puts[j]);
            assert(puts[j].1.subrange(0, 8) =~= spec_u64_to_le_bytes(j as u64));
            assert(puts[at].1.subrange(0, 8) =~= spec_u64_to_le_bytes(at as u64));
        }
    }
    lemma_apply_puts_last(entries, columns, puts, at);
    // The note is written once.
    if note is Some {
        let i = (H + 1) as int;
        assert(puts[i] == (COL_NOTE, note_key(pos), note->0.wire_spec()->Ok_0));
        lemma_apply_puts_last(entries, columns, puts, i);
    }
    // The sibling is not written.
    let other = (COL_CELL, cell_key(level as u64, sibling_of(index_at(pos, level))));
    assert forall|j: int| 0 <= j < puts.len() implies !((#[trigger] puts[j]).0 == other.0 && puts[j].1
        == other.1) by {
        if j <= H {
            lemma_path_put(note_hash, sibling, pos, j as nat);
            assert(puts[j] == path_puts[j]);
            let kj = cell_key(j as u64, index_at(pos, j as nat));
            assert(kj.subrange(0, 8) =~= spec_u64_to_le_bytes(j as u64));
            assert(kj.subrange(8, 16) =~= spec_u64_to_le_bytes(index_at(pos, j as nat)));
            assert(other.1.subrange(0, 8) =~= spec_u64_to_le_bytes(level as u64));
            assert(other.1.subrange(8, 16) =~= spec_u64_to_le_bytes(
                sibling_of(index_at(pos, level)),
            ));
        }
    }
    lemma_apply_puts_other(entries, columns, puts, other);
}

/// The siblings of the path of a new leaf are after the leaf was added
/// what they were before.
pub proof fn lemma_add_leaf_keeps_siblings(
    entries: Map<(u32, Seq<u8>), Seq<u8>>,
    columns: nat,
    note_hash: nat,
    note: Option<Note>,
    k: nat,
)
    requires
        columns > COL_NOTE,
        add_leaf_puts(entries, columns, note_hash, note) is Ok,
        k <= H,
    ensures
        ({
            let n = num_leaves_spec(entries, columns)->Ok_0;
            let after = apply_puts(
                entries,
                columns,
                add_leaf_puts(entries, columns, note_hash, note)->Ok_0,
            );
            siblings_spec(after, columns, n as u64, k) == siblings_spec(entries, columns, n as u64, k)
        }),
    decreases k,
{
    if k > 0 {
        lemma_add_leaf_keeps_siblings(entries, columns, note_hash, note, (k - 1) as nat);
        lemma_add_leaf_reads(entries, columns, note_hash, note, (k - 1) as nat);
    }
}

/// The node above a leaf at a level has the index of the leaf, halved as
/// often as the level says.
pub proof fn lemma_index_at(pos: u64, level: nat)
    ensures
        index_at(pos, level) as nat * pow2(level) <= pos,
        pos < (index_at(pos, level) as nat + 1) * pow2(level),
    decreases level,
{
    if level > 0 {
        lemma_index_at(pos, (level - 1) as nat);
        let below = index_at(pos, (level - 1) as nat) as nat;
        let here = index_at(pos, level) as nat;
        let w = pow2((level - 1) as nat);
        assert(here == below / 2);
        assert(here * (2 * w) <= below * w && (below + 1) * w <= (here + 1) * (2 * w))
            by (nonlinear_arith)
            requires
                here == below / 2,
        ;
    }
}

/// A new leaf has a path to the new root: after a leaf was added to a tree
/// that is not full, the store holds, as the root, the node that the path
/// of the leaf leads to, with the siblings that the store holds. (Every
/// hash is below the order of the field.)
pub proof fn lemma_new_leaf_has_path(
    entries: Map<(u32, Seq<u8>), Seq<u8>>,
    columns: nat,
    note_hash: nat,
    note: Option<Note>,
)
    requires
        columns > COL_NOTE,
        add_leaf_puts(entries, columns, note_hash, note) is Ok,
        num_leaves_spec(entries, columns)->Ok_0 < pow2(H as nat),
        merkle_root_spec(
            note_hash,
            siblings_spec(
                entries,
                columns,
                num_leaves_spec(entries, columns)->Ok_0 as u64,
                H as nat,
            )->Ok_0,
            path_spec(num_leaves_spec(entries, columns)->Ok_0 as u64, H as nat),
            H as nat,
        ) < fr_modulus(),
    ensures
        ({
            let n = num_leaves_spec(entries, columns)->Ok_0;
            let after = apply_puts(
                entries,
                columns,
                add_leaf_puts(entries, columns, note_hash, note)->Ok_0,
            );
            &&& siblings_spec(after, columns, n as u64, H as nat) is Ok
            &&& cell_spec(after, columns, H as nat, 0) == Ok::<nat, ClientError>(
                merkle_root_spec(
                    note_hash,
                    siblings_spec(after, columns, n as u64, H as nat)->Ok_0,
                    path_spec(n as u64, H as nat),
                    H as nat,
                ),
            )
        }),
{
    let n = num_leaves_spec(entries, columns)->Ok_0;
    let sibling = siblings_spec(entries, columns, n as u64, H as nat)->Ok_0;
    let root = merkle_root_spec(note_hash, sibling, path_spec(n as u64, H as nat), H as nat);
    lemma_add_leaf_keeps_siblings(entries, columns, note_hash, note, H as nat);
    lemma_add_leaf_reads(entries, columns, note_hash, note, H as nat);
    lemma_index_at(n as u64, H as nat);
    assert(index_at(n as u64, H as nat) == 0) by (nonlinear_arith)
        requires
            index_at(n as u64, H as nat) as nat * pow2(H as nat) <= n,
            n < pow2(H as nat),
    ;
    crate::uint::lemma_uint_of_small(root);
    crate::uint::lemma_le_bytes_roundtrip(crate::uint::uint_of(root), Seq::empty());
}

/// The position and the note that an entry of the column of notes stands
/// for, if it stands for them.
pub open spec fn decode_note_entry(e: (Seq<u8>, Seq<u8>)) -> Option<(usize, Note)> {
    if e.0.len() == 8 && spec_u64_from_le_bytes(e.0) <= usize::MAX && e.1.len() == NOTE_SIZE
        && Note::decode_spec(e.1) is Ok {
        Some((spec_u64_from_le_bytes(e.0) as usize, Note::decode_spec(e.1)->Ok_0))
    } else {
        None
    }
}

/// Whether a store holds a note under the position of its leaf.
pub open spec fn holds_note(entries: Map<(u32, Seq<u8>), Seq<u8>>, e: (usize, Note)) -> bool {
    entries.contains_key((COL_NOTE, note_key(e.0 as u64))) && decode_note_entry(
        (note_key(e.0 as u64), entries[(COL_NOTE, note_key(e.0 as u64))]),
    ) == Some(e)
}

/// The notes of a store with the positions of their leaves, in the order of
/// their keys.
pub open spec fn note_list_spec(entries: Map<(u32, Seq<u8>), Seq<u8>>, columns: nat) -> Result<
    Seq<(usize, Note)>,
    ClientError,
> {
    if columns <= COL_NOTE {
        Err(ClientError::NoColumn)
    } else {
        let list = column_listing(entries, COL_NOTE);
        if forall|i: int| 0 <= i < list.len() ==> decode_note_entry(#[trigger] list[i]) is Some {
            Ok(list.map_values(|e: (Seq<u8>, Seq<u8>)| decode_note_entry(e)->0))
        } else {
            Err(ClientError::BadNote)
        }
    }
}

/// The sum in the field of the values of the first `k` notes.
pub open spec fn balance_spec(notes: Seq<(usize, Note)>, k: nat) -> nat
    decreases k,
{
    if k == 0 {
        0
    } else {
        (balance_spec(notes, (k - 1) as nat) + notes[k - 1].1.v@) % fr_modulus()
    }
}

/// The state of a client.
pub struct ClientState<W: Wallet> {
    db: InMemory,
    wallet: W,
    dk: Fs,
    xsk: Num,
    default_cell_value: Vec<Num>,
    params: PoolBN256,
}

impl<W: Wallet> ClientState<W> {
    #[verifier::type_invariant]
    closed spec fn inv(self) -> bool {
        &&& self.default_cell_value@.len() == H + 1
        &&& forall|i: int|
            0 <= i <= H ==> (#[trigger] self.default_cell_value@[i])@ == empty_root_spec(i as nat)
        &&& self.xsk@ == self.wallet.xsk_spec()
        &&& self.dk@ == dk_spec(self.xsk@)
        &&& db_columns(self.db) >= NUM_COLS
    }

    /// What the store holds.
    pub closed spec fn entries(&self) -> Map<(u32, Seq<u8>), Seq<u8>> {
        db_entries(self.db)
    }

    /// Number of columns of the store.
    pub closed spec fn columns(&self) -> nat {
        db_columns(self.db)
    }

    /// The wallet.
    pub closed spec fn wallet_spec(&self) -> W {
        self.wallet
    }

    /// The parameters of the pool.
    pub closed spec fn params_spec(&self) -> PoolBN256 {
        self.params
    }

    /// The decryption key of the client.
    pub fn dk(&self) -> (r: Fs)
        ensures
            r@ == dk_spec(self.wallet_spec().xsk_spec()),
    {
        proof {
            use_type_invariant(self);
        }
        self.dk
    }

    /// The extended spending key of the client.
    pub fn xsk(&self) -> (r: Num)
        ensures
            r@ == self.wallet_spec().xsk_spec(),
    {
        proof {
            use_type_invariant(self);
        }
        self.xsk
    }

    /// A client on a store with at least the four columns of a client. A
    /// store that was not set up before is set up: it gets the mark and
    /// zero leaves. A store that held nothing then holds the empty tree.
    pub fn new(db: InMemory, wallet: W, params: PoolBN256) -> (r: Result<ClientState<W>, ClientError>)
        ensures
            r is Ok <==> db_columns(db) >= NUM_COLS,
            r is Err ==> r->Err_0 == ClientError::NoColumn,
            r matches Ok(state) ==> {
                &&& state.wallet_spec() == wallet
                &&& state.params_spec() == params
                &&& state.columns() == db_columns(db)
                &&& state.entries() == if db_entries(db).contains_key(
                    (COL_DEFAULT, KEY_INITIALIZED@),
                ) {
                    db_entries(db)
                } else {
                    db_entries(db).insert((COL_DEFAULT, KEY_INITIALIZED@), seq![1u8]).insert(
                        (COL_DEFAULT, KEY_NUM_LEAVES@),
                        spec_u64_to_le_bytes(0),
                    )
                }
            },
            r matches Ok(state) ==> ((forall|k: (u32, Seq<u8>)| !db_entries(db).contains_key(k))
                ==> is_tree(state.entries(), state.columns())),
    {
        let ghost old_entries = db_entries(db);
        let mut db = db;
        let key: [u8; 11] = KEY_INITIALIZED;
        if db_get(&db, NUM_COLS - 1, key.as_slice()).is_none() {
            return Err(ClientError::NoColumn);
        }
        match db_get(&db, COL_DEFAULT, key.as_slice()) {
            None => { return Err(ClientError::NoColumn); },
            Some(Some(_)) => {},
            Some(None) => {
                let leaves_key: [u8; 10] = KEY_NUM_LEAVES;
                let mut puts: Vec<Put> = Vec::new();
                puts.push(Put { col: COL_DEFAULT, key: copy_slice(key.as_slice()), value: vec![1u8] });
                puts.push(
                    Put {
                        col: COL_DEFAULT,
                        key: copy_slice(leaves_key.as_slice()),
                        value: u64_to_le_bytes(0),
                    },
                );
                proof {
                    let v = puts_view(puts@);
                    assert(v.len() == 2);
                    assert(v[0] == (COL_DEFAULT, KEY_INITIALIZED@, seq![1u8]));
                    assert(v[1] == (COL_DEFAULT, KEY_NUM_LEAVES@, spec_u64_to_le_bytes(0)));
                    assert(v.drop_last().drop_last() =~= Seq::empty());
                    reveal_with_fuel(apply_puts, 3);
                }
                db_write(&mut db, &puts);
            },
        }
        proof {
            if forall|k: (u32, Seq<u8>)| !old_entries.contains_key(k) {
                vstd::bytes::lemma_auto_spec_u64_to_from_le_bytes();
                lemma_empty_store_is_tree(db_entries(db), db_columns(db));
            }
        }
        let xsk: Num = wallet.xsk(&params);
        let dk: Fs = derive_key_dk(xsk, &params);
        let default_cell_value: Vec<Num> = empty_roots(H, &params);
        Ok(ClientState { db, wallet, dk, xsk, default_cell_value, params })
    }

    /// The parameters of the pool.
    pub fn params(&self) -> (r: PoolBN256)
        ensures
            r == self.params_spec(),
    {
        self.params
    }

    /// Has the wallet sign a message.
    pub fn sign(&self, msg: Num) -> (r: (Fs, Num))
        ensures
            (r.0@, r.1@) == self.wallet_spec().sign_spec(msg@),
    {
        self.wallet.sign(msg, &self.params)
    }

    /// Gives the store back.
    pub fn into_db(self) -> (r: InMemory)
        ensures
            db_entries(r) == self.entries(),
            db_columns(r) == self.columns(),
    {
        self.db
    }

    /// The node of the tree at a level and an index.
    pub fn get_cell(&self, pos: (usize, usize)) -> (r: Result<Num, ClientError>)
        requires
            pos.0 <= H,
        ensures
            cell_spec(self.entries(), self.columns(), pos.0 as nat, pos.1 as u64) == match r {
                Ok(c) => Ok::<nat, ClientError>(c@),
                Err(e) => Err(e),
            },
    {
        proof {
            use_type_invariant(self);
        }
        let key: Vec<u8> = make_cell_key(pos.0 as u64, pos.1 as u64);
        match db_get(&self.db, COL_CELL, key.as_slice()) {
            None => Err(ClientError::NoColumn),
            Some(None) => Ok(self.default_cell_value[pos.0]),
            Some(Some(bytes)) => match read_num(bytes.as_slice()) {
                Some(c) => Ok(c),
                None => Err(ClientError::BadCell),
            },
        }
    }

    /// The number of leaves of the tree.
    pub fn gen_num_leaves(&self) -> (r: Result<usize, ClientError>)
        ensures
            r == num_leaves_spec(self.entries(), self.columns()),
    {
        let key: [u8; 10] = KEY_NUM_LEAVES;
        match db_get(&self.db, COL_DEFAULT, key.as_slice()) {
            None => Err(ClientError::NoColumn),
            Some(None) => Err(ClientError::BadNumLeaves),
            Some(Some(bytes)) => {
                if bytes.len() != 8 {
                    return Err(ClientError::BadNumLeaves);
                }
                let n: u64 = u64_from_le_bytes(bytes.as_slice());
                if n > usize::MAX as u64 {
                    return Err(ClientError::BadNumLeaves);
                }
                Ok(n as usize)
            },
        }
    }

    /// Adds the write of a node of the tree to a batch.
    pub fn set_cell(&self, tx: &mut Vec<Put>, pos: (usize, usize), v: Num)
        ensures
            puts_view(final(tx)@) == puts_view(old(tx)@).push(
                (COL_CELL, cell_key(pos.0 as u64, pos.1 as u64), num_bytes(v@)),
            ),
    {
        let key: Vec<u8> = make_cell_key(pos.0 as u64, pos.1 as u64);
        let value: Vec<u8> = num_to_bytes(&v);
        let ghost before = tx@;
        tx.push(Put { col: COL_CELL, key, value });
        assert(puts_view(tx@) =~= puts_view(before).push(
            (COL_CELL, cell_key(pos.0 as u64, pos.1 as u64), num_bytes(v@)),
        ));
    }

    /// The note of the client at a position, if it has one there.
    pub fn get_note(&self, pos: usize) -> (r: Result<Option<Note>, ClientError>)
        ensures
            r == if self.columns() <= COL_NOTE {
                Err::<Option<Note>, ClientError>(ClientError::NoColumn)
            } else if !self.entries().contains_key((COL_NOTE, note_key(pos as u64))) {
                Ok(None)
            } else {
                match decode_note_entry(
                    (note_key(pos as u64), self.entries()[(COL_NOTE, note_key(pos as u64))]),
                ) {
                    Some(e) => Ok(Some(e.1)),
                    None => Err(ClientError::BadNote),
                }
            },
    {
        let key: Vec<u8> = u64_to_le_bytes(pos as u64);
        proof {
            vstd::bytes::lemma_auto_spec_u64_to_from_le_bytes();
        }
        match db_get(&self.db, COL_NOTE, key.as_slice()) {
            None => Err(ClientError::NoColumn),
            Some(None) => Ok(None),
            Some(Some(bytes)) => {
                if bytes.len() != NOTE_SIZE {
                    return Err(ClientError::BadNote);
                }
                match Note::deserialize(bytes.as_slice()) {
                    Ok(note) => Ok(Some(note)),
                    Err(_) => Err(ClientError::BadNote),
                }
            },
        }
    }

    /// Adds the write of a note to a batch; a note without a wire form is
    /// not written.
    pub fn set_note(&self, tx: &mut Vec<Put>, pos: usize, v: Note) -> (r: Result<(), ClientError>)
        ensures
            match v.wire_spec() {
                Ok(wire) => r is Ok && puts_view(final(tx)@) == puts_view(old(tx)@).push(
                    (COL_NOTE, note_key(pos as u64), wire),
                ),
                Err(_) => r == Err::<(), ClientError>(ClientError::NoteTooWide) && final(tx)@ == old(
                    tx,
                )@,
            },
    {
        let value: Vec<u8> = match v.serialize() {
            Ok(bytes) => bytes,
            Err(_) => { return Err(ClientError::NoteTooWide); },
        };
        let key: Vec<u8> = u64_to_le_bytes(pos as u64);
        let ghost before = tx@;
        tx.push(Put { col: COL_NOTE, key, value });
        assert(puts_view(tx@) =~= puts_view(before).push(
            (COL_NOTE, note_key(pos as u64), v.wire_spec()->Ok_0),
        ));
        Ok(())
    }

    /// Adds the write of the number of leaves to a batch.
    pub fn set_num_leaves(&self, tx: &mut Vec<Put>, v: usize)
        ensures
            puts_view(final(tx)@) == puts_view(old(tx)@).push(
                (COL_DEFAULT, KEY_NUM_LEAVES@, spec_u64_to_le_bytes(v as u64)),
            ),
    {
        let key: [u8; 10] = KEY_NUM_LEAVES;
        let ghost before = tx@;
        tx.push(
            Put { col: COL_DEFAULT, key: copy_slice(key.as_slice()), value: u64_to_le_bytes(v as u64) },
        );
        assert(puts_view(tx@) =~= puts_view(before).push(
            (COL_DEFAULT, KEY_NUM_LEAVES@, spec_u64_to_le_bytes(v as u64)),
        ));
    }

    /// Adds to a batch the writes of a leaf and of the nodes above it, each
    /// the hash of its two children: the one on the way and its sibling
    /// from the store.
    pub fn update_merkle_path(&self, tx: &mut Vec<Put>, pos: usize, value: Num) -> (r: Result<
        (),
        ClientError,
    >)
        ensures
            match siblings_spec(self.entries(), self.columns(), pos as u64, H as nat) {
                Ok(s) => r is Ok && puts_view(final(tx)@) == puts_view(old(tx)@) + path_puts_spec(
                    value@,
                    s,
                    pos as u64,
                ) && forall|k: nat|
                    k <= H ==> #[trigger] merkle_root_spec(
                        value@,
                        s,
                        path_spec(pos as u64, H as nat),
                        k,
                    ) < fr_modulus(),
                Err(e) => r == Err::<(), ClientError>(e),
            },
    {
        let ghost all = siblings_spec(self.entries(), self.columns(), pos as u64, H as nat);
        let ghost expected = if all is Ok {
            path_puts_spec(value@, all->Ok_0, pos as u64)
        } else {
            Seq::empty()
        };
        let ghost start = puts_view(tx@);
        let mut root: Num = value;
        let mut index: usize = pos;
        self.set_cell(tx, (0, index), value);
        proof {
            use_type_invariant(&value);
            if all is Ok {
                lemma_path_put(value@, all->Ok_0, pos as u64, 0);
                assert(puts_view(tx@) =~= start + expected.subrange(0, 1));
            }
        }
        let mut i: usize = 0;
        while i < H
            invariant
                i <= H,
                index == index_at(pos as u64, i as nat),
                all == siblings_spec(self.entries(), self.columns(), pos as u64, H as nat),
                all is Ok ==> expected == path_puts_spec(value@, all->Ok_0, pos as u64),
                siblings_spec(self.entries(), self.columns(), pos as u64, i as nat) is Ok,
                all is Ok ==> root@ == merkle_root_spec(
                    value@,
                    all->Ok_0,
                    path_spec(pos as u64, H as nat),
                    i as nat,
                ),
                all is Ok ==> puts_view(tx@) == start + expected.subrange(0, i + 1),
                all is Ok ==> forall|k: nat|
                    k <= i ==> #[trigger] merkle_root_spec(
                        value@,
                        all->Ok_0,
                        path_spec(pos as u64, H as nat),
                        k,
                    ) < fr_modulus(),
            decreases H - i,
        {
            let other: usize = sibling_index(index);
            let cell: Num = match self.get_cell((i, other)) {
                Ok(c) => c,
                Err(e) => {
                    proof {
                        lemma_siblings_error(
                            self.entries(),
                            self.columns(),
                            pos as u64,
                            (i + 1) as nat,
                            H as nat,
                        );
                    }
                    return Err(e);
                },
            };
            proof {
                if all is Ok {
                    lemma_siblings_prefix(
                        self.entries(),
                        self.columns(),
                        pos as u64,
                        (i + 1) as nat,
                        H as nat,
                    );
                    lemma_siblings_prefix(
                        self.entries(),
                        self.columns(),
                        pos as u64,
                        i as nat,
                        i as nat,
                    );
                    assert(all->Ok_0.subrange(0, i + 1)[i as int] == all->Ok_0[i as int]);
                    assert(all->Ok_0[i as int] == cell@);
                }
            }
            let ghost below = root@;
            let right: bool = index % 2 == 1;
            root = if right {
                compress(&cell, &root, &self.params)
            } else {
                compress(&root, &cell, &self.params)
            };
            index = index / 2;
            let ghost before = puts_view(tx@);
            self.set_cell(tx, (i + 1, index), root);
            proof {
                use_type_invariant(&root);
                if all is Ok {
                    lemma_siblings_prefix(
                        self.entries(),
                        self.columns(),
                        pos as u64,
                        (i + 1) as nat,
                        H as nat,
                    );
                    lemma_root_step(
                        value@,
                        all->Ok_0,
                        path_spec(pos as u64, H as nat),
                        i as nat,
                        cell@,
                        below,
                        right,
                    );
                    lemma_path_put(value@, all->Ok_0, pos as u64, (i + 1) as nat);
                    assert(before.push(expected[i + 1]) =~= start + expected.subrange(0, i + 2));
                }
            }
            i += 1;
        }
        proof {
            if all is Ok {
                assert(expected.subrange(0, H + 1) =~= expected);
            }
        }
        Ok(())
    }

    /// Appends a leaf to the tree, and keeps the note that it commits to
    /// where one is given: the leaf, the nodes above it, the note and the
    /// new number of leaves are written in one batch, or nothing is. A
    /// tree that is not full stays a tree, where the leaf is the
    /// commitment of the note that is given with it.
    pub fn add_leaf(&mut self, note_hash: Num, note: Option<Note>) -> (r: Result<(), ClientError>)
        ensures
            final(self).columns() == old(self).columns(),
            final(self).wallet_spec() == old(self).wallet_spec(),
            match add_leaf_puts(old(self).entries(), old(self).columns(), note_hash@, note) {
                Ok(puts) => r is Ok && final(self).entries() == apply_puts(
                    old(self).entries(),
                    old(self).columns(),
                    puts,
                ),
                Err(e) => r == Err::<(), ClientError>(e) && final(self).entries() == old(
                    self,
                ).entries(),
            },
            r is Ok && is_tree(old(self).entries(), old(self).columns()) && num_leaves_spec(
                old(self).entries(),
                old(self).columns(),
            )->Ok_0 < pow2(H as nat) && (note matches Some(nt) ==> note_hash_spec(nt) == note_hash@)
                ==> is_tree(final(self).entries(), final(self).columns()),
    {
        proof {
            use_type_invariant(&*self);
        }
        let num_leaves: usize = match self.gen_num_leaves() {
            Ok(n) => n,
            Err(e) => { return Err(e); },
        };
        let mut tx: Vec<Put> = Vec::new();
        assert(puts_view(tx@) =~= Seq::empty());
        match self.update_merkle_path(&mut tx, num_leaves, note_hash) {
            Ok(_) => {},
            Err(e) => { return Err(e); },
        }
        let ghost path_puts = puts_view(tx@);
        match note {
            Some(nt) => {
                match self.set_note(&mut tx, num_leaves, nt) {
                    Ok(_) => {},
                    Err(e) => { return Err(e); },
                }
            },
            None => {},
        }
        if num_leaves == usize::MAX {
            return Err(ClientError::TooManyLeaves);
        }
        self.set_num_leaves(&mut tx, num_leaves + 1);
        proof {
            let expected = add_leaf_puts(self.entries(), self.columns(), note_hash@, note)->Ok_0;
            assert(puts_view(tx@) =~= expected);
            if let Some(nt) = note {
                use_type_invariant(&nt.d);
                use_type_invariant(&nt.pk_d);
                use_type_invariant(&nt.v);
                use_type_invariant(&nt.st);
            }
            if is_tree(self.entries(), self.columns()) && num_leaves < pow2(H as nat) && (
            note matches Some(nt) ==> note_hash_spec(nt) == note_hash@) {
                lemma_add_leaf_keeps_tree(self.entries(), self.columns(), note_hash@, note);
            }
        }
        db_write(&mut self.db, &tx);
        Ok(())
    }

    /// The notes of the client with the positions of their leaves, in the
    /// order of their keys.
    pub fn get_note_list(&self) -> (r: Result<Vec<(usize, Note)>, ClientError>)
        ensures
            match note_list_spec(self.entries(), self.columns()) {
                Ok(l) => r is Ok && r->Ok_0@ == l,
                Err(e) => r == Err::<Vec<(usize, Note)>, ClientError>(e),
            },
            r matches Ok(notes) ==> forall|i: int|
                0 <= i < notes@.len() ==> holds_note(self.entries(), #[trigger] notes@[i]),
            r matches Ok(notes) ==> forall|a: int, b: int|
                0 <= a < b < notes@.len() ==> (#[trigger] notes@[a]).0 != (#[trigger] notes@[b]).0,
    {
        let list: Vec<(Vec<u8>, Vec<u8>)> = match db_iter(&self.db, COL_NOTE) {
            Some(list) => list,
            None => { return Err(ClientError::NoColumn); },
        };
        proof {
            lemma_listing_is_column_listing(self.entries(), COL_NOTE, pairs_view(list@));
        }
        let ghost listing = column_listing(self.entries(), COL_NOTE);
        let mut notes: Vec<(usize, Note)> = Vec::new();
        let mut i: usize = 0;
        while i < list.len()
            invariant
                i <= list@.len(),
                pairs_view(list@) == listing,
                listing == column_listing(self.entries(), COL_NOTE),
                self.columns() > COL_NOTE,
                notes@.len() == i,
                is_column_listing(self.entries(), COL_NOTE, listing),
                forall|k: int|
                    0 <= k < i ==> decode_note_entry(#[trigger] listing[k]) == Some(notes@[k]),
                forall|k: int| 0 <= k < i ==> holds_note(self.entries(), #[trigger] notes@[k]),
                forall|a: int, b: int|
                    0 <= a < b < i ==> (#[trigger] notes@[a]).0 != (#[trigger] notes@[b]).0,
            decreases list@.len() - i,
        {
            let key: &Vec<u8> = &list[i].0;
            let value: &Vec<u8> = &list[i].1;
            assert(listing[i as int] == (key@, value@));
            proof {
                vstd::bytes::lemma_auto_spec_u64_to_from_le_bytes();
            }
            if key.len() != 8 || value.len() != NOTE_SIZE {
                return Err(ClientError::BadNote);
            }
            let pos: u64 = u64_from_le_bytes(key.as_slice());
            if pos > usize::MAX as u64 {
                return Err(ClientError::BadNote);
            }
            let note: Note = match Note::deserialize(value.as_slice()) {
                Ok(note) => note,
                Err(_) => { return Err(ClientError::BadNote); },
            };
            proof {
                // The keys of a listing ascend, so no position comes twice.
                assert forall|a: int| 0 <= a < i implies (#[trigger] notes@[a]).0 != pos as usize by {
                    assert(decode_note_entry(listing[a]) == Some(notes@[a]));
                    assert(bytes_lt(listing[a].0, listing[i as int].0));
                    lemma_bytes_lt_asymmetric(key@, key@);
                    if notes@[a].0 == pos as usize {
                        assert(listing[a].0 =~= key@);
                    }
                }
            }
            notes.push((pos as usize, note));
            i += 1;
        }
        assert(notes@ =~= listing.map_values(|e: (Seq<u8>, Seq<u8>)| decode_note_entry(e)->0));
        Ok(notes)
    }

    /// The sum in the field of the values of the notes of the client.
    pub fn total_balance(&self) -> (r: Result<Num, ClientError>)
        ensures
            match note_list_spec(self.entries(), self.columns()) {
                Ok(l) => r is Ok && r->Ok_0@ == balance_spec(l, l.len()),
                Err(e) => r == Err::<Num, ClientError>(e),
            },
    {
        let notes: Vec<(usize, Note)> = match self.get_note_list() {
            Ok(notes) => notes,
            Err(e) => { return Err(e); },
        };
        let mut acc: Num = Num::zero();
        let mut i: usize = 0;
        while i < notes.len()
            invariant
                i <= notes@.len(),
                acc@ == balance_spec(notes@, i as nat),
            decreases notes@.len() - i,
        {
            acc = acc.add(&notes[i].1.v);
            i += 1;
        }
        Ok(acc)
    }

    /// The siblings and the directions on the way from a leaf to the root.
    pub fn get_merkle_proof(&self, pos: usize) -> (r: Result<MerkleProof, ClientError>)
        ensures
            match siblings_spec(self.entries(), self.columns(), pos as u64, H as nat) {
                Ok(s) => r is Ok && nums_view(r->Ok_0.sibling@) == s && r->Ok_0.path@ == path_spec(
                    pos as u64,
                    H as nat,
                ),
                Err(e) => r == Err::<MerkleProof, ClientError>(e),
            },
            r is Ok ==> r->Ok_0.sibling@.len() == H && r->Ok_0.path@.len() == H,
    {
        let mut sibling: Vec<Num> = Vec::new();
        let mut path: Vec<bool> = Vec::new();
        let mut index: usize = pos;
        let mut i: usize = 0;
        assert(nums_view(sibling@) =~= Seq::<nat>::empty());
        assert(path@ =~= path_spec(pos as u64, 0));
        while i < H
            invariant
                i <= H,
                index == index_at(pos as u64, i as nat),
                siblings_spec(self.entries(), self.columns(), pos as u64, i as nat) == Ok::<
                    Seq<nat>,
                    ClientError,
                >(nums_view(sibling@)),
                path@ == path_spec(pos as u64, i as nat),
                sibling@.len() == i,
            decreases H - i,
        {
            let other: usize = sibling_index(index);
            let c: Num = match self.get_cell((i, other)) {
                Ok(c) => c,
                Err(e) => {
                    proof {
                        lemma_siblings_error(
                            self.entries(),
                            self.columns(),
                            pos as u64,
                            (i + 1) as nat,
                            H as nat,
                        );
                    }
                    return Err(e);
                },
            };
            let ghost before = sibling@;
            sibling.push(c);
            path.push(index % 2 == 1);
            assert(nums_view(sibling@) =~= nums_view(before).push(c@));
            assert(path@ =~= path_spec(pos as u64, (i + 1) as nat));
            index = index / 2;
            i += 1;
        }
        Ok(MerkleProof { sibling, path })
    }
}

/// The index of the other child of the parent of a node.
fn sibling_index(index: usize) -> (r: usize)
    ensures
        r == sibling_of(index as u64),
{
    assert(usize::MAX % 2 == 1) by {
        assert(usize::MAX == 0xffff_ffff || usize::MAX == 0xffff_ffff_ffff_ffff);
    }
    if index % 2 == 0 {
        index + 1
    } else {
        index - 1
    }
}

/// A copy of a byte string.
fn copy_slice(src: &[u8]) -> (r: Vec<u8>)
    ensures
        r@ == src@,
{
    let mut out: Vec<u8> = Vec::new();
    let mut i: usize = 0;
    while i < src.len()
        invariant
            i <= src@.len(),
            out@ == src@.subrange(0, i as int),
        decreases src@.len() - i,
    {
        out.push(src[i]);
        assert(out@ =~= src@.subrange(0, i + 1));
        i += 1;
    }
    assert(src@.subrange(0, src@.len() as int) =~= src@);
    out
}

/// The key of a node of the tree.
fn make_cell_key(level: u64, index: u64) -> (r: Vec<u8>)
    ensures
        r@ == cell_key(level, index),
{
    let mut key: Vec<u8> = u64_to_le_bytes(level);
    let mut second: Vec<u8> = u64_to_le_bytes(index);
    key.append(&mut second);
    key
}

/// The field element that a value of the store stands for.
fn read_num(bytes: &[u8]) -> (r: Option<Num>)
    ensures
        decode_num(bytes@) == match r {
            Some(c) => Some(c@),
            None => None,
        },
{
    match U256::from_le_bytes(bytes) {
        Some(v) => Num::new(v),
        None => None,
    }
}

} // verus!
