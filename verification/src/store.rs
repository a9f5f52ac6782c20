//! The bookmark store.
//!
//! A bookmark is a key-value pair, unique by key: writing a key that is
//! already present replaces its value and never appends a second record.
//! The store enumerates every record at once — acceptable for a local,
//! bounded bookmark list, and a deliberate scalability ceiling. Failures of
//! the backing pool or backend are reported, never hidden as success.

use vstd::prelude::*;
use vstd::string::*;

verus! {

/// A saved shortcut: a key-value pair, uniquely identified by its key.
pub struct BookMark {
    pub key: String,
    pub value: String,
}

/// How a store operation fails: either no pooled connection was free within
/// policy, or the backend call itself failed. A failed write leaves the
/// prior record intact.
pub enum StoreError {
    PoolExhausted,
    BackendFailure,
}

/// The mapping a record list denotes: later records override earlier ones
/// with the same key.
pub open spec fn table_of(records: Seq<BookMark>) -> Map<Seq<char>, Seq<char>>
    decreases records.len(),
{
    if records.len() == 0 {
        Map::<Seq<char>, Seq<char>>::empty()
    } else {
        table_of(records.drop_last()).insert(records.last().key@, records.last().value@)
    }
}

/// A key is in the table exactly when some record holds it.
pub proof fn lemma_table_of_domain(records: Seq<BookMark>, k: Seq<char>)
    ensures
        table_of(records).contains_key(k) <==> exists|i: int|
            0 <= i < records.len() && (#[trigger] records[i]).key@ == k,
    decreases records.len(),
{
    if records.len() > 0 {
        lemma_table_of_domain(records.drop_last(), k);
        if table_of(records).contains_key(k) && records.last().key@ != k {
            let i = choose|i: int|
                0 <= i < records.drop_last().len() && (#[trigger] records.drop_last()[i]).key@
                    == k;
            assert(records[i].key@ == k);
        }
        if exists|i: int| 0 <= i < records.len() && (#[trigger] records[i]).key@ == k {
            let i = choose|i: int| 0 <= i < records.len() && (#[trigger] records[i]).key@ == k;
            if i < records.len() - 1 {
                assert(records.drop_last()[i].key@ == k);
            }
        }
    }
}

/// An in-memory key-value store of bookmarks. Its records list is the
/// store's representation; the mapping it denotes is `table_of` its records.
pub struct BookmarkStore {
    pub records: Vec<BookMark>,
}

impl View for BookmarkStore {
    type V = Map<Seq<char>, Seq<char>>;

    open spec fn view(&self) -> Map<Seq<char>, Seq<char>> {
        table_of(self.records@)
    }
}

impl BookmarkStore {
    /// Key uniqueness: no two records hold the same key.
    pub open spec fn wf(&self) -> bool {
        forall|i: int, j: int|
            0 <= i < j < self.records@.len() ==> (#[trigger] self.records@[i]).key@ != (
            #[trigger] self.records@[j]).key@
    }

    /// An empty store.
    pub fn new() -> (store: Self)
        ensures
            store.wf(),
            store@ == Map::<Seq<char>, Seq<char>>::empty(),
            store.records@.len() == 0,
    {
        BookmarkStore { records: Vec::new() }
    }

    /// Write or overwrite the record at `key`: replace semantics, never a
    /// second record for one key.
    pub fn upsert(&mut self, key: String, value: String)
        requires
            old(self).wf(),
        ensures
            final(self).wf(),
            final(self)@ == old(self)@.insert(key@, value@),
            exists|i: int|
                0 <= i < final(self).records@.len() && (#[trigger] final(self).records@[i]).key@
                    == key@ && final(self).records@[i].value@ == value@,
    {
        let ghost orig = self.records@;
        let mut i: usize = 0;
        while i < self.records.len()
            invariant
                self.records@ == orig,
                orig == old(self).records@,
                old(self).wf(),
                i <= orig.len(),
                forall|j: int| 0 <= j < i ==> (#[trigger] orig[j]).key@ != key@,
            decreases orig.len() - i,
        {
            if self.records[i].key == key {
                let replaced = self.records.remove(i);
                proof {
                    lemma_table_of_remove_key(orig, i as int);
                }
                self.records.push(BookMark { key, value });
                proof {
                    lemma_table_of_push(orig.remove(i as int), self.records@.last());
                    assert(self@ =~= table_of(orig).insert(
                        self.records@.last().key@,
                        self.records@.last().value@,
                    ));
                    lemma_wf_remove_push(orig, i as int, self.records@.last());
                    assert(self.records@[self.records@.len() - 1].key@ == self.records@.last().key@);
                }
                return ;
            }
            i += 1;
        }
        self.records.push(BookMark { key, value });
        proof {
            lemma_table_of_push(orig, self.records@.last());
            assert(forall|i: int, j: int|
                0 <= i < j < self.records@.len() - 1 ==> (#[trigger] self.records@[i]).key@ != (
                #[trigger] self.records@[j]).key@);
            assert(forall|i: int|
                0 <= i < self.records@.len() - 1 ==> (#[trigger] self.records@[i]).key@ != key@);
            assert(self.records@[self.records@.len() - 1].key@ == key@);
        }
    }

    /// Every stored record, materialized at once: the whole table, no
    /// pagination.
    pub fn enumerate_all(&self) -> (records: &Vec<BookMark>)
        ensures
            records@ == self.records@,
            table_of(records@) == self@,
    {
        &self.records
    }
}

/// The backing store's location: the configured database directory under the
/// home directory, the two joined by a path separator.
pub fn db_conn_string(home_dir: &str, database_dir: &str) -> (conn: String)
    ensures
        conn@ == home_dir@ + "/"@ + database_dir@,
{
    let mut conn = home_dir.to_owned();
    conn.append("/");
    conn.append(database_dir);
    conn
}

/// Appending a record writes its pair into the table.
pub proof fn lemma_table_of_push(records: Seq<BookMark>, record: BookMark)
    ensures
        table_of(records.push(record)) == table_of(records).insert(record.key@, record.value@),
{
    assert(records.push(record).drop_last() =~= records);
    assert(records.push(record).last() == record);
}

/// Removing the sole record that holds a key removes exactly that key from
/// the table.
pub proof fn lemma_table_of_remove_key(records: Seq<BookMark>, i: int)
    requires
        0 <= i < records.len(),
        forall|p: int, q: int|
            0 <= p < q < records.len() ==> (#[trigger] records[p]).key@ != (
            #[trigger] records[q]).key@,
    ensures
        table_of(records.remove(i)) == table_of(records).remove(records[i].key@),
    decreases records.len(),
{
    let k = records[i].key@;
    if i == records.len() - 1 {
        assert(records.remove(i) =~= records.drop_last());
        assert(forall|p: int|
            0 <= p < records.drop_last().len() ==> (#[trigger] records.drop_last()[p]).key@ != k);
        lemma_table_of_domain(records.drop_last(), k);
        assert(!table_of(records.drop_last()).contains_key(k));
        assert(table_of(records.drop_last()) =~= table_of(records).remove(k));
    } else {
        let shorter = records.drop_last();
        lemma_table_of_remove_key(shorter, i);
        assert(records.remove(i).drop_last() =~= shorter.remove(i));
        assert(records.remove(i).last() == records.last());
        assert(table_of(records.remove(i)) == table_of(shorter).remove(k).insert(
            records.last().key@,
            records.last().value@,
        ));
        assert(records.last().key@ != k);
        assert(table_of(shorter).remove(k).insert(records.last().key@, records.last().value@)
            =~= table_of(records).remove(k));
    }
}

/// Replacing the record that held a key, by removing it and appending the
/// new pair, keeps keys unique.
pub proof fn lemma_wf_remove_push(records: Seq<BookMark>, i: int, record: BookMark)
    requires
        0 <= i < records.len(),
        forall|p: int, q: int|
            0 <= p < q < records.len() ==> (#[trigger] records[p]).key@ != (
            #[trigger] records[q]).key@,
        record.key@ == records[i].key@,
    ensures
        forall|p: int, q: int|
            0 <= p < q < records.remove(i).push(record).len() ==> (#[trigger] records.remove(
                i,
            ).push(record)[p]).key@ != (#[trigger] records.remove(i).push(record)[q]).key@,
{
    let updated = records.remove(i).push(record);
    assert forall|p: int, q: int| 0 <= p < q < updated.len() implies (
    #[trigger] updated[p]).key@ != (#[trigger] updated[q]).key@ by {
        if q < updated.len() - 1 {
            let orig_p: int = if p < i {
                p
            } else {
                p + 1
            };
            let orig_q: int = if q < i {
                q
            } else {
                q + 1
            };
            assert(updated[p] == records[orig_p] && updated[q] == records[orig_q]);
        } else {
            let orig_p: int = if p < i {
                p
            } else {
                p + 1
            };
            assert(updated[p] == records[orig_p]);
            assert(updated[q] == record);
            if orig_p < i {
                assert(records[orig_p].key@ != records[i].key@);
            } else {
                assert(records[i].key@ != records[orig_p].key@);
            }
        }
    }
}

/// Upserting the same key and value twice leaves exactly the table that one
/// upsert leaves.
pub proof fn lemma_upsert_idempotent(m: Map<Seq<char>, Seq<char>>, k: Seq<char>, v: Seq<char>)
    ensures
        m.insert(k, v).insert(k, v) == m.insert(k, v),
{
    assert(m.insert(k, v).insert(k, v) =~= m.insert(k, v));
}

/// Two upserts to one key keep only the latest value, and the table's keys
/// gain that key exactly once.
pub proof fn lemma_upsert_latest_wins(
    m: Map<Seq<char>, Seq<char>>,
    k: Seq<char>,
    v1: Seq<char>,
    v2: Seq<char>,
)
    ensures
        m.insert(k, v1).insert(k, v2) == m.insert(k, v2),
        m.insert(k, v1).insert(k, v2)[k] == v2,
        m.insert(k, v1).insert(k, v2).dom() == m.dom().insert(k),
{
    assert(m.insert(k, v1).insert(k, v2) =~= m.insert(k, v2));
    assert(m.insert(k, v1).insert(k, v2).dom() =~= m.dom().insert(k));
}

/// In a well-formed store at most one record holds any given key.
pub proof fn lemma_one_record_per_key(store: &BookmarkStore, k: Seq<char>)
    requires
        store.wf(),
    ensures
        forall|i: int, j: int|
            0 <= i < store.records@.len() && 0 <= j < store.records@.len() && (
            #[trigger] store.records@[i]).key@ == k && (#[trigger] store.records@[j]).key@ == k
                ==> i == j,
{
}

} // verus!
