//! The store contract: the interface every backend must satisfy, stated over
//! an abstract two-map model. `buffered` is the store's full logical content
//! (everything written, durable or not); `flushed` is the durable part.
//! Point lookups read the buffered state; prefix lookups and iteration read
//! only the flushed state; a successful flush makes the buffered state the
//! flushed one.

use vstd::prelude::*;

use crate::transaction::DBTransaction;
use crate::transaction::OpView;
use crate::DBValue;

verus! {

/// The abstract content of a store: a map from (column, key) to value.
pub type StoreModel = Map<(u32, Seq<u8>), Seq<u8>>;

/// Whether an operation addresses the given column and key.
pub open spec fn touches(op: OpView, col: u32, key: Seq<u8>) -> bool {
    op.col() == col && op.key() == key
}

/// The effect of one operation on a store's content.
pub open spec fn apply_op(m: StoreModel, op: OpView) -> StoreModel {
    match op {
        OpView::Insert { col, key, value } => m.insert((col, key), value),
        OpView::Delete { col, key } => m.remove((col, key)),
    }
}

/// The effect of a whole batch, applied in order: either all of a
/// transaction's operations become visible together or none do, so a write
/// entry point takes the store's content from `m` to `apply_ops(m, t@)`.
pub open spec fn apply_ops(m: StoreModel, ops: Seq<OpView>) -> StoreModel
    decreases ops.len(),
{
    if ops.len() == 0 {
        m
    } else {
        apply_op(apply_ops(m, ops.drop_last()), ops.last())
    }
}

/// Declares std::io::Error so that it can stand in result types: the single
/// error kind every backend-level failure surfaces as. The value is opaque;
/// no contract reads it.
#[verifier::external_type_specification]
#[verifier::external_body]
pub struct ExIoError(std::io::Error);

/// Generic key-value database.
///
/// This makes a distinction between "buffered" and "flushed" values. Values
/// which have been written can always be read, but may be present in an
/// in-memory buffer. Values which have been flushed have been moved to
/// backing storage. Prefix lookups and iteration are only guaranteed to
/// operate on flushed data.
///
/// The store also deals in "columns": distinct partitions of the key space.
/// Keys written in one column are not visible from any other.
///
/// An implementation supplies the two spec views and must meet every
/// contract below; `transaction` and `write` come for free.
pub trait KeyValueDB: Sync + Send {
    /// Everything the store holds, buffered writes included: what point
    /// lookups observe.
    spec fn buffered(&self) -> StoreModel;

    /// The durable part: what prefix lookups and iteration observe.
    spec fn flushed(&self) -> StoreModel;

    /// Helper to create new transaction.
    fn transaction(&self) -> (t: DBTransaction)
        ensures
            t.wf(),
            t@ == Seq::<OpView>::empty(),
    {
        DBTransaction::new()
    }

    /// Get a value by key. Observes buffered as well as flushed data: a
    /// buffered write is never stale for a point lookup. May fail with an
    /// I/O error on backend failure.
    fn get(&self, col: u32, key: &[u8]) -> (r: Result<Option<DBValue>, std::io::Error>)
        ensures
            r matches Ok(v) ==> match v {
                Some(value) => self.buffered().contains_pair((col, key@), value@),
                None => !self.buffered().contains_key((col, key@)),
            },
    ;

    /// Get a value by partial key. Only works for flushed data: a value that
    /// exists only in the unflushed buffer may be missed, so `None` does not
    /// prove absence.
    fn get_by_prefix(&self, col: u32, prefix: &[u8]) -> (r: Option<DBValue>)
        ensures
            r matches Some(value) ==> exists|k: Seq<u8>|
                #[trigger] self.flushed().contains_pair((col, k), value@) && prefix@.is_prefix_of(
                    k,
                ),
    ;

    /// Write a transaction of changes to the buffer. Returns immediately and
    /// guarantees no durability; failures surface at the next flush.
    fn write_buffered(&mut self, transaction: DBTransaction)
        requires
            transaction.wf(),
        ensures
            final(self).buffered() == apply_ops(old(self).buffered(), transaction@),
            final(self).flushed() == old(self).flushed(),
    ;

    /// Write a transaction of changes to the backing store: a buffered write
    /// followed immediately by a flush, durable once it returns successfully.
    fn write(&mut self, transaction: DBTransaction) -> (r: Result<(), std::io::Error>)
        requires
            transaction.wf(),
        ensures
            final(self).buffered() == apply_ops(old(self).buffered(), transaction@),
            r matches Ok(u) ==> final(self).flushed() == apply_ops(
                old(self).buffered(),
                transaction@,
            ),
            r matches Err(e) ==> final(self).flushed() == old(self).flushed(),
    {
        self.write_buffered(transaction);
        self.flush()
    }

    /// Flush all buffered data. On success every previously buffered write
    /// is durable and visible to flushed-only reads; on failure the durable
    /// state is what it was. The logical content is unchanged either way.
    fn flush(&mut self) -> (r: Result<(), std::io::Error>)
        ensures
            final(self).buffered() == old(self).buffered(),
            r matches Ok(u) ==> final(self).flushed() == old(self).buffered(),
            r matches Err(e) ==> final(self).flushed() == old(self).flushed(),
    ;

    /// Iterate over flushed data for a given column: the returned pairs are
    /// exactly the flushed entries of that column, in backend-defined order.
    fn iter(&self, col: u32) -> (r: Vec<(DBValue, DBValue)>)
        ensures
            forall|i: int|
                0 <= i < r@.len() ==> #[trigger] self.flushed().contains_pair(
                    (col, r@[i].0@),
                    r@[i].1@,
                ),
            forall|k: Seq<u8>, v: Seq<u8>|
                #[trigger] self.flushed().contains_pair((col, k), v) ==> exists|i: int|
                    0 <= i < r@.len() && r@[i].0@ == k && #[trigger] r@[i].1@ == v,
    ;

    /// Iterate over flushed data for a given column, starting from a given
    /// prefix: the returned pairs are exactly the flushed entries of that
    /// column whose key is lexicographically at or after the prefix, and the
    /// first pair's key is the smallest such key.
    fn iter_from_prefix(&self, col: u32, prefix: &[u8]) -> (r: Vec<(DBValue, DBValue)>)
        ensures
            forall|i: int|
                0 <= i < r@.len() ==> #[trigger] self.flushed().contains_pair(
                    (col, r@[i].0@),
                    r@[i].1@,
                ) && lex_le(prefix@, r@[i].0@),
            forall|k: Seq<u8>, v: Seq<u8>|
                #[trigger] self.flushed().contains_pair((col, k), v) && lex_le(prefix@, k)
                    ==> exists|i: int| 0 <= i < r@.len() && r@[i].0@ == k && #[trigger] r@[i].1@
                    == v,
            r@.len() > 0 ==> forall|k: Seq<u8>|
                (exists|v: Seq<u8>| #[trigger] self.flushed().contains_pair((col, k), v))
                    && lex_le(prefix@, k) ==> lex_le(r@[0].0@, k),
    ;

    /// Attempt to replace this database with a new one located at the given
    /// path. A whole-database swap: on success the previous content is gone
    /// and the dataset found at the path stands in its place, so nothing can
    /// be promised here about the resulting content.
    fn restore(&mut self, new_db: &str) -> (r: Result<(), std::io::Error>);
}

/// Byte-wise lexicographic order on keys: `a` is at or before `b`. A proper
/// prefix comes before every extension of itself.
pub open spec fn lex_le(a: Seq<u8>, b: Seq<u8>) -> bool
    decreases a.len(),
{
    if a.len() == 0 {
        true
    } else if b.len() == 0 {
        false
    } else if a[0] < b[0] {
        true
    } else if a[0] > b[0] {
        false
    } else {
        lex_le(a.drop_first(), b.drop_first())
    }
}

/// Law: a batch's last operation on a (column, key) decides. If operation
/// `i` inserts `(col, key, value)` and no later operation of the batch
/// touches that (column, key), the applied store maps (column, key) to
/// `value` — in particular, of two puts of the same key, the later wins.
pub proof fn lemma_last_insert_wins(m: StoreModel, ops: Seq<OpView>, i: int)
    requires
        0 <= i < ops.len(),
        ops[i] is Insert,
        forall|j: int| i < j < ops.len() ==> !touches(#[trigger] ops[j], ops[i].col(), ops[i].key()),
    ensures
        apply_ops(m, ops).contains_pair((ops[i].col(), ops[i].key()), ops[i].value()),
    decreases ops.len(),
{
    if i == ops.len() - 1 {
    } else {
        let pre = ops.drop_last();
        assert(pre[i] == ops[i]);
        assert forall|j: int| i < j < pre.len() implies !touches(
            #[trigger] pre[j],
            pre[i].col(),
            pre[i].key(),
        ) by {
            assert(pre[j] == ops[j]);
        }
        lemma_last_insert_wins(m, pre, i);
        assert(!touches(ops.last(), ops[i].col(), ops[i].key()));
    }
}

/// Law: if operation `i` deletes (column, key) and no later operation of the
/// batch touches that (column, key), the applied store holds no value there.
pub proof fn lemma_last_delete_wins(m: StoreModel, ops: Seq<OpView>, i: int)
    requires
        0 <= i < ops.len(),
        ops[i] is Delete,
        forall|j: int| i < j < ops.len() ==> !touches(#[trigger] ops[j], ops[i].col(), ops[i].key()),
    ensures
        !apply_ops(m, ops).contains_key((ops[i].col(), ops[i].key())),
    decreases ops.len(),
{
    if i == ops.len() - 1 {
    } else {
        let pre = ops.drop_last();
        assert(pre[i] == ops[i]);
        assert forall|j: int| i < j < pre.len() implies !touches(
            #[trigger] pre[j],
            pre[i].col(),
            pre[i].key(),
        ) by {
            assert(pre[j] == ops[j]);
        }
        lemma_last_delete_wins(m, pre, i);
        assert(!touches(ops.last(), ops[i].col(), ops[i].key()));
    }
}

/// Law: a (column, key) no operation of the batch touches keeps its binding.
pub proof fn lemma_untouched_key(m: StoreModel, ops: Seq<OpView>, col: u32, key: Seq<u8>)
    requires
        forall|j: int| 0 <= j < ops.len() ==> !touches(#[trigger] ops[j], col, key),
    ensures
        apply_ops(m, ops).contains_key((col, key)) == m.contains_key((col, key)),
        m.contains_key((col, key)) ==> apply_ops(m, ops)[(col, key)] == m[(col, key)],
    decreases ops.len(),
{
    if ops.len() > 0 {
        let pre = ops.drop_last();
        assert forall|j: int| 0 <= j < pre.len() implies !touches(#[trigger] pre[j], col, key) by {
            assert(pre[j] == ops[j]);
        }
        lemma_untouched_key(m, pre, col, key);
        assert(!touches(ops.last(), col, key));
    }
}

/// Law: flush visibility. A buffered write of a batch takes the buffered
/// content from `b0` to `apply_ops(b0, t)`, and a successful flush makes
/// that the flushed content; then every key whose last operation in the
/// batch is an insert is present, with that insert's value, in the flushed
/// state — and so appears in `iter` results and is reachable by
/// `get_by_prefix`.
pub proof fn lemma_flush_visibility(b0: StoreModel, t: Seq<OpView>, flushed_after: StoreModel, i: int)
    requires
        flushed_after == apply_ops(b0, t),
        0 <= i < t.len(),
        t[i] is Insert,
        forall|j: int| i < j < t.len() ==> !touches(#[trigger] t[j], t[i].col(), t[i].key()),
    ensures
        flushed_after.contains_pair((t[i].col(), t[i].key()), t[i].value()),
{
    lemma_last_insert_wins(b0, t, i);
}

} // verus!
