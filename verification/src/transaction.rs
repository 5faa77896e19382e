//! The packed transaction encoder: an ordered batch of insert/delete
//! operations across columns, stored as one contiguous byte buffer plus a
//! parallel descriptor list, and a zero-copy iterator over it.

use vstd::prelude::*;

verus! {

/// One operation of a transaction, seen abstractly: the column it addresses,
/// the key bytes, and (for inserts) the value bytes.
pub enum OpView {
    Insert { col: u32, key: Seq<u8>, value: Seq<u8> },
    Delete { col: u32, key: Seq<u8> },
}

impl OpView {
    pub open spec fn col(self) -> u32 {
        match self {
            OpView::Insert { col, .. } => col,
            OpView::Delete { col, .. } => col,
        }
    }

    pub open spec fn key(self) -> Seq<u8> {
        match self {
            OpView::Insert { key, .. } => key,
            OpView::Delete { key, .. } => key,
        }
    }

    /// The value an insert carries; a delete carries none.
    pub open spec fn value(self) -> Seq<u8> {
        match self {
            OpView::Insert { value, .. } => value,
            OpView::Delete { .. } => Seq::empty(),
        }
    }
}

/// How many bytes of the packed buffer an operation occupies: its key and,
/// for an insert, its value.
pub open spec fn op_byte_len(op: OpView) -> nat {
    op.key().len() + op.value().len()
}

/// The length of the packed encoding of a sequence of operations: the sum of
/// each operation's byte count, with no delimiters.
pub open spec fn packed_len(s: Seq<OpView>) -> nat
    decreases s.len(),
{
    if s.len() == 0 {
        0
    } else {
        packed_len(s.drop_last()) + op_byte_len(s.last())
    }
}

/// A descriptor: which column an operation addresses and how many bytes of
/// the packed buffer belong to it. The bytes themselves live in the buffer.
#[derive(Clone, Copy, PartialEq)]
enum DBOpIndex {
    Insert { col: u32, key_len: usize, value_len: usize },
    Delete { col: u32, key_len: usize },
}

/// How many bytes of the packed buffer a descriptor accounts for.
spec fn entry_len(d: DBOpIndex) -> nat {
    match d {
        DBOpIndex::Insert { key_len, value_len, .. } => (key_len + value_len) as nat,
        DBOpIndex::Delete { key_len, .. } => key_len as nat,
    }
}

/// Byte offset at which descriptor `i`'s bytes begin: the sum of the byte
/// counts of all earlier descriptors.
spec fn offset_of(index: Seq<DBOpIndex>, i: int) -> nat
    decreases i,
{
    if i <= 0 {
        0
    } else {
        offset_of(index, i - 1) + entry_len(index[i - 1])
    }
}

/// The operation descriptor `i` denotes, decoded out of the packed buffer.
spec fn entry_view(ops: Seq<u8>, index: Seq<DBOpIndex>, i: int) -> OpView {
    let off = offset_of(index, i) as int;
    match index[i] {
        DBOpIndex::Insert { col, key_len, value_len } => OpView::Insert {
            col,
            key: ops.subrange(off, off + key_len),
            value: ops.subrange(off + key_len, off + key_len + value_len),
        },
        DBOpIndex::Delete { col, key_len } => OpView::Delete {
            col,
            key: ops.subrange(off, off + key_len),
        },
    }
}

/// An ordered, immutable-once-built batch of operations. `ops` holds every
/// key (and, for inserts, every value) back-to-back with no delimiters;
/// `index` records, per operation, which bytes are whose.
#[derive(PartialEq)]
pub struct DBTransaction {
    ops: Vec<u8>,
    index: Vec<DBOpIndex>,
}

impl Clone for DBTransaction {
    /// The clone holds the same operations as the original, and is
    /// well-formed whenever the original is.
    fn clone(&self) -> (r: Self)
        ensures
            r@ == self@,
            r.wf() == self.wf(),
    {
        let r = DBTransaction { ops: self.ops.clone(), index: self.index.clone() };
        proof {
            assert forall|i: int| 0 <= i < r.ops@.len() implies r.ops@[i] == self.ops@[i] by {
                assert(cloned::<u8>(self.ops@[i], r.ops@[i]));
            }
            assert(r.ops@ =~= self.ops@);
            assert forall|i: int| 0 <= i < r.index@.len() implies r.index@[i] == self.index@[i] by {
                assert(cloned::<DBOpIndex>(self.index@[i], r.index@[i]));
            }
            assert(r.index@ =~= self.index@);
        }
        r
    }
}

impl View for DBTransaction {
    type V = Seq<OpView>;

    closed spec fn view(&self) -> Seq<OpView> {
        Seq::new(self.index@.len(), |i: int| entry_view(self.ops@, self.index@, i))
    }
}

impl DBTransaction {
    /// The descriptors account for exactly the bytes of the packed buffer:
    /// no leftover and no overrun. Every operation that appends keeps this.
    pub closed spec fn wf(&self) -> bool {
        offset_of(self.index@, self.index@.len() as int) == self.ops@.len()
    }

    /// The length of the packed byte buffer.
    pub closed spec fn byte_len(&self) -> nat {
        self.ops@.len()
    }

    pub fn new() -> (t: Self)
        ensures
            t.wf(),
            t@ == Seq::<OpView>::empty(),
    {
        Self::with_capacity(256)
    }

    /// Create new transaction with capacity.
    pub fn with_capacity(cap: usize) -> (t: Self)
        ensures
            t.wf(),
            t@ == Seq::<OpView>::empty(),
    {
        let t = Self { ops: Vec::with_capacity(cap << 6), index: Vec::with_capacity(cap) };
        proof {
            assert(t@ =~= Seq::<OpView>::empty());
        }
        t
    }

    /// Insert a key-value pair in the transaction. Any existing value will be
    /// overwritten upon write. The operation is appended: nothing earlier is
    /// removed or reordered, even for a repeated key.
    pub fn put(&mut self, col: u32, key: &[u8], value: &[u8])
        requires
            old(self).wf(),
        ensures
            final(self).wf(),
            final(self)@ == old(self)@.push(OpView::Insert { col, key: key@, value: value@ }),
    {
        append_bytes(&mut self.ops, key);
        append_bytes(&mut self.ops, value);
        self.index.push(DBOpIndex::Insert { col, key_len: key.len(), value_len: value.len() });
        proof {
            let d = DBOpIndex::Insert {
                col,
                key_len: key@.len() as usize,
                value_len: value@.len() as usize,
            };
            lemma_append_entry(old(self).ops@, old(self).index@, key@ + value@, d);
            assert(self.ops@ =~= old(self).ops@ + (key@ + value@));
            assert((key@ + value@).subrange(0, key@.len() as int) =~= key@);
            assert((key@ + value@).subrange(
                key@.len() as int,
                key@.len() as int + value@.len(),
            ) =~= value@);
            assert(self@ =~~= old(self)@.push(OpView::Insert { col, key: key@, value: value@ }));
        }
    }

    /// Insert a key-value pair in the transaction, the value handed over as
    /// a `Bytes` buffer. Any existing value will be overwritten upon write.
    pub fn put_vec(&mut self, col: u32, key: &[u8], value: bytes::Bytes)
        requires
            old(self).wf(),
        ensures
            final(self).wf(),
            final(self)@ == old(self)@.push(
                OpView::Insert { col, key: key@, value: bytes_view(value) },
            ),
    {
        let v = bytes_as_slice(&value);
        self.put(col, key, v);
    }

    /// Delete value by key.
    pub fn delete(&mut self, col: u32, key: &[u8])
        requires
            old(self).wf(),
        ensures
            final(self).wf(),
            final(self)@ == old(self)@.push(OpView::Delete { col, key: key@ }),
    {
        append_bytes(&mut self.ops, key);
        self.index.push(DBOpIndex::Delete { col, key_len: key.len() });
        proof {
            let d = DBOpIndex::Delete { col, key_len: key@.len() as usize };
            lemma_append_entry(old(self).ops@, old(self).index@, key@, d);
            assert(key@.subrange(0, key@.len() as int) =~= key@);
            assert(self@ =~~= old(self)@.push(OpView::Delete { col, key: key@ }));
        }
    }
}

impl DBTransaction {
    /// A fresh iterator over the operations, in insertion order. The
    /// transaction is immutable once built, so any number of iterators can be
    /// created and each yields the same sequence.
    pub fn iter<'a>(&'a self) -> (r: DataOpIterator<'a>)
        requires
            self.wf(),
        ensures
            r.wf(),
            r.src() == *self,
            r.consumed() == 0,
            r.remaining() == self@,
    {
        let r = DataOpIterator { tx: self, pos: 0, index_pos: 0 };
        proof {
            assert(r.remaining() =~= self@);
        }
        r
    }
}

/// A read-only projection of one operation: the column id and slices that
/// borrow directly from the transaction's packed buffer, without copying.
pub enum DataOp<'a> {
    Insert { col: u32, key: &'a [u8], val: &'a [u8] },
    Delete { col: u32, key: &'a [u8] },
}

impl<'a> View for DataOp<'a> {
    type V = OpView;

    open spec fn view(&self) -> OpView {
        match *self {
            DataOp::Insert { col, key, val } => OpView::Insert { col, key: key@, value: val@ },
            DataOp::Delete { col, key } => OpView::Delete { col, key: key@ },
        }
    }
}

impl DataOp<'_> {
    pub fn col(&self) -> (c: u32)
        ensures
            c == self@.col(),
    {
        match self {
            DataOp::Insert { col, .. } => *col,
            DataOp::Delete { col, .. } => *col,
        }
    }
}

/// A single-pass cursor over a transaction's operations: a byte cursor into
/// the packed buffer and a descriptor cursor, advanced together.
pub struct DataOpIterator<'a> {
    tx: &'a DBTransaction,
    pos: usize,
    index_pos: usize,
}

impl<'a> DataOpIterator<'a> {
    /// The byte cursor sits exactly at the offset the consumed descriptors
    /// account for, and the descriptor cursor is in range.
    pub closed spec fn wf(&self) -> bool {
        &&& self.tx.wf()
        &&& self.index_pos <= self.tx.index@.len()
        &&& self.pos == offset_of(self.tx.index@, self.index_pos as int)
    }

    /// The transaction being iterated.
    pub closed spec fn src(&self) -> DBTransaction {
        *self.tx
    }

    /// How many operations have been yielded so far.
    pub closed spec fn consumed(&self) -> int {
        self.index_pos as int
    }

    /// The operations not yet yielded, in order.
    pub closed spec fn remaining(&self) -> Seq<OpView> {
        self.tx@.skip(self.index_pos as int)
    }

    /// The byte cursor's position in the packed buffer.
    pub closed spec fn cursor(&self) -> int {
        self.pos as int
    }

    /// The total length of the packed buffer.
    pub open spec fn buffer_len(&self) -> int {
        self.src().byte_len() as int
    }

    /// Yield the next operation, or `None` once every operation has been
    /// yielded. The slices of the yielded operation borrow from the
    /// transaction's buffer; nothing is copied.
    pub fn next(&mut self) -> (r: Option<DataOp<'a>>)
        requires
            old(self).wf(),
        ensures
            final(self).wf(),
            final(self).src() == old(self).src(),
            old(self).remaining().len() == 0 ==> r is None && *final(self) == *old(self),
            old(self).remaining().len() > 0 ==> {
                &&& r matches Some(op) && op@ == old(self).remaining()[0]
                &&& final(self).remaining() == old(self).remaining().skip(1)
                &&& final(self).consumed() == old(self).consumed() + 1
            },
    {
        if self.index_pos == self.tx.index.len() {
            return None;
        }
        let ghost idx = self.tx.index@;
        let ghost ip = self.index_pos as int;
        proof {
            assert(offset_of(idx, ip + 1) == offset_of(idx, ip) + entry_len(idx[ip]));
            lemma_offset_mono(idx, ip + 1, idx.len() as int);
            assert(self.pos + entry_len(idx[ip]) <= self.tx.ops@.len());
            assert(old(self).remaining()[0] == self.tx@[ip]);
        }
        let buf_len: usize = self.tx.ops.len();
        proof {
            assert(self.pos + entry_len(idx[ip]) <= buf_len);
        }
        let d = *vstd::slice::slice_index_get(self.tx.index.as_slice(), self.index_pos);
        let ret: DataOp<'a> = match d {
            DBOpIndex::Insert { col, key_len, value_len } => {
                proof {
                    assert(entry_len(idx[ip]) == key_len + value_len);
                }
                let key = vstd::slice::slice_subrange(
                    self.tx.ops.as_slice(),
                    self.pos,
                    self.pos + key_len,
                );
                let val = vstd::slice::slice_subrange(
                    self.tx.ops.as_slice(),
                    self.pos + key_len,
                    self.pos + key_len + value_len,
                );
                self.pos = self.pos + key_len + value_len;
                DataOp::Insert { col, key, val }
            },
            DBOpIndex::Delete { col, key_len } => {
                proof {
                    assert(entry_len(idx[ip]) == key_len);
                }
                let key = vstd::slice::slice_subrange(
                    self.tx.ops.as_slice(),
                    self.pos,
                    self.pos + key_len,
                );
                self.pos = self.pos + key_len;
                DataOp::Delete { col, key }
            },
        };
        self.index_pos = self.index_pos + 1;
        proof {
            assert(ret@ == self.tx@[ip]);
            assert(self.remaining() =~= old(self).remaining().skip(1));
        }
        Some(ret)
    }
}

/// The offset at which descriptor `i`'s bytes begin equals the packed
/// length of the first `i` decoded operations.
proof fn lemma_offset_is_packed_len(ops: Seq<u8>, index: Seq<DBOpIndex>, i: int)
    requires
        0 <= i <= index.len(),
        offset_of(index, index.len() as int) == ops.len(),
    ensures
        offset_of(index, i) == packed_len(
            Seq::new(index.len(), |j: int| entry_view(ops, index, j)).take(i),
        ),
    decreases i,
{
    let full = Seq::new(index.len(), |j: int| entry_view(ops, index, j));
    if i > 0 {
        lemma_offset_is_packed_len(ops, index, i - 1);
        assert(full.take(i).drop_last() =~= full.take(i - 1));
        assert(full.take(i).last() == entry_view(ops, index, i - 1));
        assert(offset_of(index, i) == offset_of(index, i - 1) + entry_len(index[i - 1]));
        lemma_offset_mono(index, i, index.len() as int);
        assert(offset_of(index, i - 1) + entry_len(index[i - 1]) <= ops.len());
        assert(op_byte_len(entry_view(ops, index, i - 1)) == entry_len(index[i - 1]));
    }
}

/// Law: the packed buffer of a transaction holds exactly the bytes of its
/// operations: its length is the sum, over the operations, of the key and
/// value lengths, with nothing left over.
pub proof fn lemma_packed_buffer_len(t: DBTransaction)
    requires
        t.wf(),
    ensures
        t.byte_len() == packed_len(t@),
{
    lemma_offset_is_packed_len(t.ops@, t.index@, t.index@.len() as int);
    assert(Seq::new(t.index@.len(), |j: int| entry_view(t.ops@, t.index@, j)).take(
        t.index@.len() as int,
    ) =~= t@);
}

/// Law: round trip. However a transaction was built, an iterator over it
/// that has yielded `n` operations yields, next, exactly the `n`-th
/// operation that was appended — same column, same key bytes, same value
/// bytes. With `put` and `delete` each appending precisely the operation
/// supplied, and `next` yielding the head of the remainder, iteration hands
/// back the whole call sequence in call order.
pub proof fn lemma_round_trip(t: DBTransaction, it: DataOpIterator, n: int)
    requires
        t.wf(),
        it.wf(),
        it.src() == t,
        it.consumed() == n,
        0 <= n < t@.len(),
    ensures
        it.remaining().len() == t@.len() - n,
        it.remaining()[0] == t@[n],
{
}

/// Law: after the last operation has been yielded, the byte cursor stands
/// exactly at the end of the packed buffer: no leftover and no overrun bytes.
pub proof fn lemma_offset_consistency(it: DataOpIterator)
    requires
        it.wf(),
        it.remaining().len() == 0,
    ensures
        it.cursor() == it.buffer_len(),
{
}

/// Law: iteration is restartable. Two iterators over the same transaction
/// that have consumed the same number of operations yield the same remaining
/// sequence; in particular, two fresh iterators yield identical sequences.
pub proof fn lemma_restartable(i1: DataOpIterator, i2: DataOpIterator)
    requires
        i1.wf(),
        i2.wf(),
        i1.src() == i2.src(),
        i1.consumed() == i2.consumed(),
    ensures
        i1.remaining() == i2.remaining(),
{
}

impl Default for DBTransaction {
    fn default() -> (t: Self)
        ensures
            t.wf(),
            t@ == Seq::<OpView>::empty(),
    {
        DBTransaction::new()
    }
}

/// Declares bytes::Bytes so that it can stand in signatures; the value is
/// opaque and only `bytes_view` speaks of its contents.
#[verifier::external_type_specification]
#[verifier::external_body]
pub struct ExBytes(bytes::Bytes);

/// The byte sequence a `Bytes` buffer holds.
pub uninterp spec fn bytes_view(b: bytes::Bytes) -> Seq<u8>;

/// Relies on bytes::Bytes's `Deref` to `[u8]`: a `Bytes` value dereferences
/// to exactly the bytes it holds, in order.
#[verifier::external_body]
fn bytes_as_slice(b: &bytes::Bytes) -> (r: &[u8])
    ensures
        r@ == bytes_view(*b),
{
    &b[..]
}

/// Append the bytes of `src` to `dst`.
fn append_bytes(dst: &mut Vec<u8>, src: &[u8])
    ensures
        final(dst)@ == old(dst)@ + src@,
{
    let mut i: usize = 0;
    while i < src.len()
        invariant
            i <= src@.len(),
            dst@ == old(dst)@ + src@.subrange(0, i as int),
        decreases src@.len() - i,
    {
        let b: u8 = *vstd::slice::slice_index_get(src, i);
        dst.push(b);
        proof {
            assert(dst@ =~= old(dst)@ + src@.subrange(0, i + 1));
        }
        i = i + 1;
    }
    proof {
        assert(src@.subrange(0, i as int) =~= src@);
    }
}

/// The offset of descriptor `i` depends only on the descriptors before it,
/// so appending one more descriptor moves no earlier offset.
proof fn lemma_offset_push(index: Seq<DBOpIndex>, d: DBOpIndex, i: int)
    requires
        0 <= i <= index.len(),
    ensures
        offset_of(index.push(d), i) == offset_of(index, i),
    decreases i,
{
    if i > 0 {
        lemma_offset_push(index, d, i - 1);
    }
}

/// Offsets never decrease along the descriptor list.
proof fn lemma_offset_mono(index: Seq<DBOpIndex>, i: int, j: int)
    requires
        0 <= i <= j <= index.len(),
    ensures
        offset_of(index, i) <= offset_of(index, j),
    decreases j - i,
{
    if i < j {
        lemma_offset_mono(index, i, j - 1);
    }
}

/// A subrange taken entirely within `a` is unchanged when `a` is extended.
proof fn lemma_subrange_of_extended(a: Seq<u8>, b: Seq<u8>, p: int, q: int)
    requires
        0 <= p <= q <= a.len(),
    ensures
        (a + b).subrange(p, q) == a.subrange(p, q),
{
    assert((a + b).subrange(p, q) =~= a.subrange(p, q));
}

/// Appending one operation's bytes and its descriptor keeps well-formedness,
/// decodes every earlier descriptor to the same operation, and decodes the
/// new descriptor to an operation whose bytes are exactly the appended ones.
proof fn lemma_append_entry(ops: Seq<u8>, index: Seq<DBOpIndex>, bytes: Seq<u8>, d: DBOpIndex)
    requires
        offset_of(index, index.len() as int) == ops.len(),
        entry_len(d) == bytes.len(),
    ensures
        offset_of(index.push(d), index.len() as int + 1) == ops.len() + bytes.len(),
        forall|i: int|
            0 <= i < index.len() ==> entry_view(ops + bytes, index.push(d), i) == entry_view(
                ops,
                index,
                i,
            ),
        offset_of(index.push(d), index.len() as int) == ops.len(),
        entry_view(ops + bytes, index.push(d), index.len() as int) == (match d {
            DBOpIndex::Insert { col, key_len, value_len } => OpView::Insert {
                col,
                key: bytes.subrange(0, key_len as int),
                value: bytes.subrange(key_len as int, (key_len + value_len) as int),
            },
            DBOpIndex::Delete { col, key_len } => OpView::Delete {
                col,
                key: bytes.subrange(0, key_len as int),
            },
        }),
{
    let index1 = index.push(d);
    let ops1 = ops + bytes;
    let n = index.len() as int;
    lemma_offset_push(index, d, n);
    assert(offset_of(index1, n + 1) == offset_of(index1, n) + entry_len(index1[n]));
    assert(index1[n] == d);
    assert forall|i: int| 0 <= i < n implies entry_view(ops1, index1, i) == entry_view(
        ops,
        index,
        i,
    ) by {
        lemma_offset_push(index, d, i);
        lemma_offset_push(index, d, i + 1);
        lemma_offset_mono(index, i + 1, n);
        let off = offset_of(index, i) as int;
        assert(offset_of(index, i + 1) == offset_of(index, i) + entry_len(index[i]));
        assert(off + entry_len(index[i]) <= ops.len());
        match index[i] {
            DBOpIndex::Insert { col, key_len, value_len } => {
                lemma_subrange_of_extended(ops, bytes, off, off + key_len);
                lemma_subrange_of_extended(ops, bytes, off + key_len, off + key_len + value_len);
            },
            DBOpIndex::Delete { col, key_len } => {
                lemma_subrange_of_extended(ops, bytes, off, off + key_len);
            },
        }
    }
    let off1 = offset_of(index1, n) as int;
    assert(off1 == ops.len());
    match d {
        DBOpIndex::Insert { col, key_len, value_len } => {
            assert(ops1.subrange(off1, off1 + key_len) =~= bytes.subrange(0, key_len as int));
            assert(ops1.subrange(off1 + key_len, off1 + key_len + value_len) =~= bytes.subrange(
                key_len as int,
                (key_len + value_len) as int,
            ));
        },
        DBOpIndex::Delete { col, key_len } => {
            assert(ops1.subrange(off1, off1 + key_len) =~= bytes.subrange(0, key_len as int));
        },
    }
}

} // verus!
