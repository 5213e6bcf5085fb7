//! The tree of a client's store as a Merkle tree: what it means that a
//! store holds one, that a store without leaves holds one, that a new leaf
//! keeps it one, and that in one the path of every leaf leads to the root.

use crate::client::{
    add_leaf_puts, cell_key, cell_spec, decode_note_entry, decode_num, index_at,
    lemma_add_leaf_reads, lemma_index_at, lemma_path_put, lemma_siblings_prefix, note_key,
    num_leaves_spec, path_puts_spec, path_spec, sibling_of, siblings_spec, ClientError, COL_CELL,
    COL_NOTE,
};
use crate::field::fr_modulus;
use crate::merkle::{compress_spec, empty_root_spec, merkle_root_spec};
use crate::note::Note;
use crate::storage::{apply_puts, lemma_apply_puts_other};
use crate::tx::{note_hash_spec, num_bytes, H};
use crate::uint::{lemma_le_bytes_roundtrip, lemma_uint_of_small, pow2, uint_of};
use vstd::bytes::{lemma_auto_spec_u64_to_from_le_bytes, spec_u64_to_le_bytes};
use vstd::prelude::*;

verus! {

/// Whether the node at an index of the level above `level` is the hash of
/// the two nodes below it.
pub open spec fn node_holds(
    entries: Map<(u32, Seq<u8>), Seq<u8>>,
    columns: nat,
    level: nat,
    index: u64,
) -> bool {
    match (
        cell_spec(entries, columns, level + 1, index),
        cell_spec(entries, columns, level, (2 * index) as u64),
        cell_spec(entries, columns, level, (2 * index + 1) as u64),
    ) {
        (Ok(above), Ok(left), Ok(right)) => above == compress_spec(left, right),
        _ => false,
    }
}

/// Whether what the column of notes holds under a key, where it is a note,
/// lies in the tree: at a position before the number of leaves, where the
/// leaf is the commitment of the note.
pub open spec fn note_at_leaf(entries: Map<(u32, Seq<u8>), Seq<u8>>, columns: nat, key: Seq<u8>)
    -> bool {
    match decode_note_entry((key, entries[(COL_NOTE, key)])) {
        Some(e) => num_leaves_spec(entries, columns) is Ok && e.0 < num_leaves_spec(
            entries,
            columns,
        )->Ok_0 && cell_spec(entries, columns, 0, e.0 as u64) == Ok::<nat, ClientError>(
            note_hash_spec(e.1),
        ),
        None => true,
    }
}

/// Whether a store holds a Merkle tree with the notes of the client in
/// it: the store has its columns, the tree has room for its leaves, every
/// node is the hash of the two nodes below it, and every note lies at the
/// leaf of its commitment.
pub open spec fn is_tree(entries: Map<(u32, Seq<u8>), Seq<u8>>, columns: nat) -> bool {
    &&& columns > COL_NOTE
    &&& num_leaves_spec(entries, columns) is Ok
    &&& num_leaves_spec(entries, columns)->Ok_0 <= pow2(H as nat)
    &&& forall|level: nat, index: u64|
        level < H && index <= 0x7fff_ffff_ffff_ffff ==> #[trigger] node_holds(
            entries,
            columns,
            level,
            index,
        )
    &&& forall|key: Seq<u8>|
        entries.contains_key((COL_NOTE, key)) ==> #[trigger] note_at_leaf(entries, columns, key)
}

/// A store without leaves, without nodes and without notes holds a tree:
/// the empty one.
pub proof fn lemma_empty_store_is_tree(entries: Map<(u32, Seq<u8>), Seq<u8>>, columns: nat)
    requires
        columns > COL_NOTE,
        num_leaves_spec(entries, columns) == Ok::<usize, ClientError>(0),
        forall|key: Seq<u8>|
            !entries.contains_key((COL_CELL, key)) && !entries.contains_key((COL_NOTE, key)),
    ensures
        is_tree(entries, columns),
{
    assert forall|level: nat, index: u64|
        level < H && index <= 0x7fff_ffff_ffff_ffff implies #[trigger] node_holds(
        entries,
        columns,
        level,
        index,
    ) by {
        assert(empty_root_spec(level + 1) == compress_spec(
            empty_root_spec(level),
            empty_root_spec(level),
        ));
    }
}

/// The bytes of a field element stand for that element.
pub proof fn lemma_decode_num_bytes(x: nat)
    requires
        x < fr_modulus(),
    ensures
        decode_num(num_bytes(x)) == Some(x),
{
    lemma_uint_of_small(x);
    lemma_le_bytes_roundtrip(uint_of(x), Seq::empty());
}

/// In a tree every sibling on the way up from a leaf can be read.
pub proof fn lemma_tree_siblings(
    entries: Map<(u32, Seq<u8>), Seq<u8>>,
    columns: nat,
    pos: u64,
    k: nat,
)
    requires
        is_tree(entries, columns),
        k <= H,
    ensures
        siblings_spec(entries, columns, pos, k) is Ok,
    decreases k,
{
    if k > 0 {
        lemma_tree_siblings(entries, columns, pos, (k - 1) as nat);
        let here = index_at(pos, (k - 1) as nat);
        assert(node_holds(entries, columns, (k - 1) as nat, here / 2));
    }
}

/// In a tree the node above a leaf at a level is the node that the path
/// of the leaf leads to at that level.
pub proof fn lemma_tree_path(
    entries: Map<(u32, Seq<u8>), Seq<u8>>,
    columns: nat,
    pos: u64,
    k: nat,
)
    requires
        is_tree(entries, columns),
        k <= H,
    ensures
        cell_spec(entries, columns, 0, pos) is Ok,
        siblings_spec(entries, columns, pos, H as nat) is Ok,
        cell_spec(entries, columns, k, index_at(pos, k)) == Ok::<nat, ClientError>(
            merkle_root_spec(
                cell_spec(entries, columns, 0, pos)->Ok_0,
                siblings_spec(entries, columns, pos, H as nat)->Ok_0,
                path_spec(pos, H as nat),
                k,
            ),
        ),
    decreases k,
{
    lemma_tree_siblings(entries, columns, pos, H as nat);
    if k == 0 {
        assert(node_holds(entries, columns, 0, pos / 2));
    } else {
        let level = (k - 1) as nat;
        lemma_tree_path(entries, columns, pos, level);
        let here = index_at(pos, level);
        assert(index_at(pos, k) == here / 2);
        assert(node_holds(entries, columns, level, here / 2));
        let s = siblings_spec(entries, columns, pos, H as nat)->Ok_0;
        lemma_siblings_prefix(entries, columns, pos, k, H as nat);
        lemma_siblings_prefix(entries, columns, pos, level, level);
        assert(s.subrange(0, k as int)[level as int] == s[level as int]);
        assert(s[level as int] == cell_spec(entries, columns, level, sibling_of(here))->Ok_0);
        assert(path_spec(pos, H as nat)[level as int] == (here % 2 == 1));
    }
}

/// In a tree every leaf has a path to the root: the store holds, as the
/// root, the node that the path of the leaf leads to with the siblings
/// that the store holds.
pub proof fn lemma_tree_member(entries: Map<(u32, Seq<u8>), Seq<u8>>, columns: nat, pos: u64)
    requires
        is_tree(entries, columns),
        pos < pow2(H as nat),
    ensures
        cell_spec(entries, columns, 0, pos) is Ok,
        siblings_spec(entries, columns, pos, H as nat) is Ok,
        cell_spec(entries, columns, H as nat, 0) == Ok::<nat, ClientError>(
            merkle_root_spec(
                cell_spec(entries, columns, 0, pos)->Ok_0,
                siblings_spec(entries, columns, pos, H as nat)->Ok_0,
                path_spec(pos, H as nat),
                H as nat,
            ),
        ),
{
    lemma_tree_path(entries, columns, pos, H as nat);
    lemma_index_at(pos, H as nat);
    assert(index_at(pos, H as nat) == 0) by (nonlinear_arith)
        requires
            index_at(pos, H as nat) as nat * pow2(H as nat) <= pos,
            pos < pow2(H as nat),
    ;
}

/// Adding a leaf leaves every node as it was that is not above the leaf.
pub proof fn lemma_add_leaf_keeps_cell(
    entries: Map<(u32, Seq<u8>), Seq<u8>>,
    columns: nat,
    note_hash: nat,
    note: Option<Note>,
    level: nat,
    index: u64,
)
    requires
        add_leaf_puts(entries, columns, note_hash, note) is Ok,
        level <= H,
        index != index_at(num_leaves_spec(entries, columns)->Ok_0 as u64, level),
    ensures
        cell_spec(
            apply_puts(entries, columns, add_leaf_puts(entries, columns, note_hash, note)->Ok_0),
            columns,
            level,
            index,
        ) == cell_spec(entries, columns, level, index),
{
    let n = num_leaves_spec(entries, columns)->Ok_0;
    let pos = n as u64;
    let sibling = siblings_spec(entries, columns, pos, H as nat)->Ok_0;
    let puts = add_leaf_puts(entries, columns, note_hash, note)->Ok_0;
    let path_puts = path_puts_spec(note_hash, sibling, pos);
    lemma_auto_spec_u64_to_from_le_bytes();
    assert(path_puts.len() == H + 1);
    let other = (COL_CELL, cell_key(level as u64, index));
    assert forall|j: int| 0 <= j < puts.len() implies !((#[trigger] puts[j]).0 == other.0 && puts[j].1
        == other.1) by {
        if j <= H {
            lemma_path_put(note_hash, sibling, pos, j as nat);
            assert(puts[j] == path_puts[j]);
            let kj = cell_key(j as u64, index_at(pos, j as nat));
            assert(kj.subrange(0, 8) =~= spec_u64_to_le_bytes(j as u64));
            assert(kj.subrange(8, 16) =~= spec_u64_to_le_bytes(index_at(pos, j as nat)));
            assert(other.1.subrange(0, 8) =~= spec_u64_to_le_bytes(level as u64));
            assert(other.1.subrange(8, 16) =~= spec_u64_to_le_bytes(index));
        }
    }
    lemma_apply_puts_other(entries, columns, puts, other);
}

/// Adding a leaf leaves every note as it was that is not the note of the
/// leaf.
pub proof fn lemma_add_leaf_keeps_note(
    entries: Map<(u32, Seq<u8>), Seq<u8>>,
    columns: nat,
    note_hash: nat,
    note: Option<Note>,
    key: Seq<u8>,
)
    requires
        add_leaf_puts(entries, columns, note_hash, note) is Ok,
        note is None || key != note_key(num_leaves_spec(entries, columns)->Ok_0 as u64),
    ensures
        ({
            let after = apply_puts(
                entries,
                columns,
                add_leaf_puts(entries, columns, note_hash, note)->Ok_0,
            );
            &&& after.contains_key((COL_NOTE, key)) == entries.contains_key((COL_NOTE, key))
            &&& entries.contains_key((COL_NOTE, key)) ==> after[(COL_NOTE, key)] == entries[(
                COL_NOTE,
                key,
            )]
        }),
{
    let n = num_leaves_spec(entries, columns)->Ok_0;
    let pos = n as u64;
    let sibling = siblings_spec(entries, columns, pos, H as nat)->Ok_0;
    let puts = add_leaf_puts(entries, columns, note_hash, note)->Ok_0;
    let path_puts = path_puts_spec(note_hash, sibling, pos);
    assert(path_puts.len() == H + 1);
    let other = (COL_NOTE, key);
    assert forall|j: int| 0 <= j < puts.len() implies !((#[trigger] puts[j]).0 == other.0 && puts[j].1
        == other.1) by {
        if j <= H {
            lemma_path_put(note_hash, sibling, pos, j as nat);
            assert(puts[j] == path_puts[j]);
        }
    }
    lemma_apply_puts_other(entries, columns, puts, other);
}

/// A new leaf keeps a tree a tree: after a leaf was added to a tree that
/// is not full, with the note that it commits to where one is given, every
/// node is still the hash of the two nodes below it, and every note still
/// lies at the leaf of its commitment. (Every hash is below the order of
/// the field, and so is every element of a note.)
pub proof fn lemma_add_leaf_keeps_tree(
    entries: Map<(u32, Seq<u8>), Seq<u8>>,
    columns: nat,
    note_hash: nat,
    note: Option<Note>,
)
    requires
        is_tree(entries, columns),
        add_leaf_puts(entries, columns, note_hash, note) is Ok,
        num_leaves_spec(entries, columns)->Ok_0 < pow2(H as nat),
        note matches Some(nt) ==> note_hash_spec(nt) == note_hash && nt.d.wf() && nt.pk_d.wf()
            && nt.v.wf() && nt.st.wf(),
        forall|k: nat|
            k <= H ==> #[trigger] merkle_root_spec(
                note_hash,
                siblings_spec(
                    entries,
                    columns,
                    num_leaves_spec(entries, columns)->Ok_0 as u64,
                    H as nat,
                )->Ok_0,
                path_spec(num_leaves_spec(entries, columns)->Ok_0 as u64, H as nat),
                k,
            ) < fr_modulus(),
    ensures
        is_tree(
            apply_puts(entries, columns, add_leaf_puts(entries, columns, note_hash, note)->Ok_0),
            columns,
        ),
{
    let n = num_leaves_spec(entries, columns)->Ok_0;
    let pos = n as u64;
    let sibling = siblings_spec(entries, columns, pos, H as nat)->Ok_0;
    let path = path_spec(pos, H as nat);
    let puts = add_leaf_puts(entries, columns, note_hash, note)->Ok_0;
    let after = apply_puts(entries, columns, puts);
    lemma_auto_spec_u64_to_from_le_bytes();
    lemma_add_leaf_reads(entries, columns, note_hash, note, 0);
    assert(merkle_root_spec(note_hash, sibling, path, 0) < fr_modulus());
    lemma_decode_num_bytes(note_hash);
    assert(cell_spec(after, columns, 0, pos) == Ok::<nat, ClientError>(note_hash));
    assert forall|level: nat, index: u64|
        level < H && index <= 0x7fff_ffff_ffff_ffff implies #[trigger] node_holds(
        after,
        columns,
        level,
        index,
    ) by {
        let here = index_at(pos, level);
        let above = index_at(pos, level + 1);
        assert(above == here / 2);
        assert(node_holds(entries, columns, level, index));
        if index == above {
            let low = merkle_root_spec(note_hash, sibling, path, level);
            let high = merkle_root_spec(note_hash, sibling, path, level + 1);
            assert(low < fr_modulus());
            assert(high < fr_modulus());
            lemma_decode_num_bytes(low);
            lemma_decode_num_bytes(high);
            lemma_add_leaf_reads(entries, columns, note_hash, note, level);
            lemma_add_leaf_reads(entries, columns, note_hash, note, level + 1);
            lemma_siblings_prefix(entries, columns, pos, level + 1, H as nat);
            lemma_siblings_prefix(entries, columns, pos, level, level);
            assert(sibling.subrange(0, level + 1 as int)[level as int] == sibling[level as int]);
            assert(cell_spec(entries, columns, level, sibling_of(here)) == Ok::<nat, ClientError>(
                sibling[level as int],
            ));
            assert(path[level as int] == (here % 2 == 1));
            assert(cell_spec(after, columns, level, here) == Ok::<nat, ClientError>(low));
            assert(cell_spec(after, columns, level + 1, above) == Ok::<nat, ClientError>(high));
        } else {
            lemma_add_leaf_keeps_cell(entries, columns, note_hash, note, level + 1, index);
            lemma_add_leaf_keeps_cell(entries, columns, note_hash, note, level, (2 * index) as u64);
            lemma_add_leaf_keeps_cell(
                entries,
                columns,
                note_hash,
                note,
                level,
                (2 * index + 1) as u64,
            );
        }
    }
    assert forall|key: Seq<u8>| after.contains_key((COL_NOTE, key)) implies #[trigger] note_at_leaf(
        after,
        columns,
        key,
    ) by {
        if note is Some && key == note_key(pos) {
            let nt = note->0;
            nt.lemma_wire_exists();
            nt.lemma_decode_encode();
            assert(decode_note_entry((key, after[(COL_NOTE, key)])) == Some((n, nt)));
        } else {
            lemma_add_leaf_keeps_note(entries, columns, note_hash, note, key);
            assert(note_at_leaf(entries, columns, key));
            match decode_note_entry((key, entries[(COL_NOTE, key)])) {
                Some(e) => {
                    lemma_add_leaf_keeps_cell(entries, columns, note_hash, note, 0, e.0 as u64);
                },
                None => {},
            }
        }
    }
}

} // verus!
