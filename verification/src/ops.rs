//! The owned operation: a column id plus an owned key and, for inserts, an
//! owned value, used when an operation must outlive the transaction it came
//! from.

use vstd::prelude::*;

use crate::keys::db_key_view;
use crate::keys::DBKey;
use crate::transaction::DataOp;
use crate::transaction::OpView;
use crate::DBValue;

verus! {

/// Database operation.
pub enum DBOp {
    Insert { col: u32, key: DBKey, value: DBValue },
    Delete { col: u32, key: DBKey },
}

impl View for DBOp {
    type V = OpView;

    open spec fn view(&self) -> OpView {
        match self {
            DBOp::Insert { col, key, value } => OpView::Insert {
                col: *col,
                key: db_key_view(*key),
                value: value@,
            },
            DBOp::Delete { col, key } => OpView::Delete { col: *col, key: db_key_view(*key) },
        }
    }
}

impl DataOp<'_> {
    /// An owned copy of this operation: the same column, key bytes and value
    /// bytes, independent of the transaction the view borrows from.
    pub fn materialize(&self) -> (r: DBOp)
        ensures
            r@ == self@,
    {
        match self {
            DataOp::Insert { col, key, val } => DBOp::Insert {
                col: *col,
                key: DBKey::from_slice(key),
                value: vstd::slice::slice_to_vec(val),
            },
            DataOp::Delete { col, key } => DBOp::Delete {
                col: *col,
                key: DBKey::from_slice(key),
            },
        }
    }
}

impl DBOp {
    /// Returns the key associated with this operation.
    pub fn key(&self) -> (r: &[u8])
        ensures
            r@ == self@.key(),
    {
        match self {
            DBOp::Insert { key, .. } => key.as_slice(),
            DBOp::Delete { key, .. } => key.as_slice(),
        }
    }

    /// Returns the column associated with this operation.
    pub fn col(&self) -> (c: u32)
        ensures
            c == self@.col(),
    {
        match self {
            DBOp::Insert { col, .. } => *col,
            DBOp::Delete { col, .. } => *col,
        }
    }
}

} // verus!
