//! The key-value store of the client: an in-memory database of kvdb, with
//! columns that map byte strings to byte strings.

use kvdb::{DBTransaction, KeyValueDB};
use kvdb_memorydb::InMemory;
use vstd::prelude::*;

verus! {

/// The in-memory database of kvdb-memorydb, as it is.
#[verifier::external_type_specification]
#[verifier::external_body]
pub struct ExInMemory(InMemory);

/// What a database holds: the value of each key of each column.
pub uninterp spec fn db_entries(db: InMemory) -> Map<(u32, Seq<u8>), Seq<u8>>;

/// Number of columns of a database; they are numbered from zero.
pub uninterp spec fn db_columns(db: InMemory) -> nat;

/// One write: a value for a key of a column.
#[derive(Debug)]
pub struct Put {
    pub col: u32,
    pub key: Vec<u8>,
    pub value: Vec<u8>,
}

impl View for Put {
    type V = (u32, Seq<u8>, Seq<u8>);

    open spec fn view(&self) -> (u32, Seq<u8>, Seq<u8>) {
        (self.col, self.key@, self.value@)
    }
}

/// The columns, keys and values of a batch of writes.
pub open spec fn puts_view(puts: Seq<Put>) -> Seq<(u32, Seq<u8>, Seq<u8>)> {
    puts.map_values(|p: Put| p@)
}

/// What a database holds after a batch of writes, made in their order; a
/// write to a column that the database does not have changes nothing.
pub open spec fn apply_puts(
    entries: Map<(u32, Seq<u8>), Seq<u8>>,
    columns: nat,
    puts: Seq<(u32, Seq<u8>, Seq<u8>)>,
) -> Map<(u32, Seq<u8>), Seq<u8>>
    decreases puts.len(),
{
    if puts.len() == 0 {
        entries
    } else {
        let before = apply_puts(entries, columns, puts.drop_last());
        let p = puts.last();
        if p.0 < columns {
            before.insert((p.0, p.1), p.2)
        } else {
            before
        }
    }
}

/// After a batch of writes a key holds the value of the last write to it.
pub proof fn lemma_apply_puts_last(
    entries: Map<(u32, Seq<u8>), Seq<u8>>,
    columns: nat,
    puts: Seq<(u32, Seq<u8>, Seq<u8>)>,
    i: int,
)
    requires
        0 <= i < puts.len(),
        puts[i].0 < columns,
        forall|j: int|
            i < j < puts.len() ==> !((#[trigger] puts[j]).0 == puts[i].0 && puts[j].1 == puts[i].1),
    ensures
        apply_puts(entries, columns, puts).contains_key((puts[i].0, puts[i].1)),
        apply_puts(entries, columns, puts)[(puts[i].0, puts[i].1)] == puts[i].2,
    decreases puts.len(),
{
    if i < puts.len() - 1 {
        let shorter = puts.drop_last();
        assert(shorter[i] == puts[i]);
        assert forall|j: int| i < j < shorter.len() implies !((#[trigger] shorter[j]).0 == shorter[i].0
            && shorter[j].1 == shorter[i].1) by {
            assert(shorter[j] == puts[j]);
        }
        lemma_apply_puts_last(entries, columns, shorter, i);
        assert(!(puts.last().0 == puts[i].0 && puts.last().1 == puts[i].1));
    }
}

/// A batch of writes leaves a key that it does not write to as it was.
pub proof fn lemma_apply_puts_other(
    entries: Map<(u32, Seq<u8>), Seq<u8>>,
    columns: nat,
    puts: Seq<(u32, Seq<u8>, Seq<u8>)>,
    key: (u32, Seq<u8>),
)
    requires
        forall|j: int| 0 <= j < puts.len() ==> !((#[trigger] puts[j]).0 == key.0 && puts[j].1 == key.1),
    ensures
        apply_puts(entries, columns, puts).contains_key(key) == entries.contains_key(key),
        entries.contains_key(key) ==> apply_puts(entries, columns, puts)[key] == entries[key],
    decreases puts.len(),
{
    if puts.len() > 0 {
        let shorter = puts.drop_last();
        assert forall|j: int| 0 <= j < shorter.len() implies !((#[trigger] shorter[j]).0 == key.0
            && shorter[j].1 == key.1) by {
            assert(shorter[j] == puts[j]);
        }
        lemma_apply_puts_other(entries, columns, shorter, key);
        assert(!(puts.last().0 == key.0 && puts.last().1 == key.1));
    }
}

/// Whether one byte string comes before another in the order of a
/// dictionary.
pub open spec fn bytes_lt(a: Seq<u8>, b: Seq<u8>) -> bool
    decreases a.len(),
{
    if b.len() == 0 {
        false
    } else if a.len() == 0 {
        true
    } else if a[0] != b[0] {
        a[0] < b[0]
    } else {
        bytes_lt(a.drop_first(), b.drop_first())
    }
}

/// Whether a list holds every key of a column with its value, once, in
/// ascending order of the keys.
pub open spec fn is_column_listing(
    entries: Map<(u32, Seq<u8>), Seq<u8>>,
    col: u32,
    list: Seq<(Seq<u8>, Seq<u8>)>,
) -> bool {
    &&& forall|i: int|
        0 <= i < list.len() ==> entries.contains_key((col, (#[trigger] list[i]).0)) && entries[(
            col,
            list[i].0,
        )] == list[i].1
    &&& forall|k: Seq<u8>| #[trigger]
        entries.contains_key((col, k)) ==> exists|i: int|
            0 <= i < list.len() && (#[trigger] list[i]).0 == k
    &&& forall|i: int, j: int|
        0 <= i < j < list.len() ==> bytes_lt((#[trigger] list[i]).0, (#[trigger] list[j]).0)
}

/// The keys and values of a column, in ascending order of the keys.
pub open spec fn column_listing(entries: Map<(u32, Seq<u8>), Seq<u8>>, col: u32) -> Seq<
    (Seq<u8>, Seq<u8>),
> {
    choose|list: Seq<(Seq<u8>, Seq<u8>)>| is_column_listing(entries, col, list)
}

/// The contents of a list of keys and values.
pub open spec fn pairs_view(list: Seq<(Vec<u8>, Vec<u8>)>) -> Seq<(Seq<u8>, Seq<u8>)> {
    list.map_values(|e: (Vec<u8>, Vec<u8>)| (e.0@, e.1@))
}

/// No byte string comes before itself, and of two, one at most comes
/// before the other.
pub proof fn lemma_bytes_lt_asymmetric(a: Seq<u8>, b: Seq<u8>)
    ensures
        !(bytes_lt(a, b) && bytes_lt(b, a)),
        !bytes_lt(a, a),
    decreases a.len(),
{
    if a.len() > 0 && b.len() > 0 && a[0] == b[0] {
        lemma_bytes_lt_asymmetric(a.drop_first(), b.drop_first());
    }
    if a.len() > 0 {
        lemma_bytes_lt_asymmetric(a.drop_first(), a.drop_first());
    }
}

/// A column has one listing.
pub proof fn lemma_listing_unique(
    entries: Map<(u32, Seq<u8>), Seq<u8>>,
    col: u32,
    a: Seq<(Seq<u8>, Seq<u8>)>,
    b: Seq<(Seq<u8>, Seq<u8>)>,
)
    requires
        is_column_listing(entries, col, a),
        is_column_listing(entries, col, b),
    ensures
        a == b,
    decreases a.len(),
{
    if a.len() == 0 {
        if b.len() > 0 {
            assert(entries.contains_key((col, b[0].0)));
        }
        assert(a =~= b);
    } else {
        let ka = a[0].0;
        assert(entries.contains_key((col, ka)));
        let j = choose|j: int| 0 <= j < b.len() && (#[trigger] b[j]).0 == ka;
        let kb = b[0].0;
        assert(entries.contains_key((col, kb)));
        let i = choose|i: int| 0 <= i < a.len() && (#[trigger] a[i]).0 == kb;
        lemma_bytes_lt_asymmetric(ka, kb);
        assert(ka == kb);
        assert(a[0] == b[0]);
        let rest = entries.remove((col, ka));
        let ta = a.drop_first();
        let tb = b.drop_first();
        lemma_listing_tail(entries, col, a);
        lemma_listing_tail(entries, col, b);
        lemma_listing_unique(rest, col, ta, tb);
        assert(a =~= seq![a[0]] + ta);
        assert(b =~= seq![b[0]] + tb);
    }
}

/// What follows the first entry of a listing lists the column without that
/// entry.
proof fn lemma_listing_tail(
    entries: Map<(u32, Seq<u8>), Seq<u8>>,
    col: u32,
    a: Seq<(Seq<u8>, Seq<u8>)>,
)
    requires
        is_column_listing(entries, col, a),
        a.len() > 0,
    ensures
        is_column_listing(entries.remove((col, a[0].0)), col, a.drop_first()),
{
    let ka = a[0].0;
    let rest = entries.remove((col, ka));
    let ta = a.drop_first();
    assert forall|i: int| 0 <= i < ta.len() implies rest.contains_key((col, (#[trigger] ta[i]).0))
        && rest[(col, ta[i].0)] == ta[i].1 by {
        assert(ta[i] == a[i + 1]);
        assert(bytes_lt(a[0].0, a[i + 1].0));
        lemma_bytes_lt_asymmetric(ka, ka);
    }
    assert forall|k: Seq<u8>| #[trigger] rest.contains_key((col, k)) implies exists|i: int|
        0 <= i < ta.len() && (#[trigger] ta[i]).0 == k by {
        assert(entries.contains_key((col, k)));
        let i = choose|i: int| 0 <= i < a.len() && (#[trigger] a[i]).0 == k;
        assert(i != 0);
        assert(ta[i - 1] == a[i]);
    }
    assert forall|i: int, j: int| 0 <= i < j < ta.len() implies bytes_lt(
        (#[trigger] ta[i]).0,
        (#[trigger] ta[j]).0,
    ) by {
        assert(ta[i] == a[i + 1] && ta[j] == a[j + 1]);
    }
}

/// What lists a column is its listing.
pub proof fn lemma_listing_is_column_listing(
    entries: Map<(u32, Seq<u8>), Seq<u8>>,
    col: u32,
    list: Seq<(Seq<u8>, Seq<u8>)>,
)
    requires
        is_column_listing(entries, col, list),
    ensures
        list == column_listing(entries, col),
{
    lemma_listing_unique(entries, col, list, column_listing(entries, col));
}

/// `KeyValueDB::get` of kvdb on the in-memory database: the value of a key
/// of a column, if it has one; nothing at all where there is no such column.
#[verifier::external_body]
pub(crate) fn db_get(db: &InMemory, col: u32, key: &[u8]) -> (r: Option<Option<Vec<u8>>>)
    ensures
        r is Some <==> col < db_columns(*db),
        r matches Some(v) ==> match v {
            Some(bytes) => db_entries(*db).contains_key((col, key@)) && db_entries(*db)[(col, key@)]
                == bytes@,
            None => !db_entries(*db).contains_key((col, key@)),
        },
{
    db.get(col, key).ok()
}

/// `DBTransaction::put` and `KeyValueDB::write` of kvdb on the in-memory
/// database: all writes of a batch are made, in their order.
#[verifier::external_body]
pub(crate) fn db_write(db: &mut InMemory, puts: &Vec<Put>)
    ensures
        db_entries(*final(db)) == apply_puts(
            db_entries(*old(db)),
            db_columns(*old(db)),
            puts_view(puts@),
        ),
        db_columns(*final(db)) == db_columns(*old(db)),
    no_unwind
{
    let mut tx = DBTransaction::new();
    for p in puts.iter() {
        tx.put(p.col, &p.key, &p.value);
    }
    let _ = db.write(tx);
}

/// `KeyValueDB::iter` of kvdb on the in-memory database: the keys and values
/// of a column in ascending order of the keys; nothing at all where there
/// is no such column.
#[verifier::external_body]
pub(crate) fn db_iter(db: &InMemory, col: u32) -> (r: Option<Vec<(Vec<u8>, Vec<u8>)>>)
    ensures
        r is Some <==> col < db_columns(*db),
        r matches Some(list) ==> is_column_listing(db_entries(*db), col, pairs_view(list@)),
{
    db.iter(col).map(|e| e.ok().map(|(k, v)| (k.to_vec(), v))).collect()
}

} // verus!
