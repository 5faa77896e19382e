//! Key-value store abstraction: a packed write-batch encoder, a zero-copy
//! operation iterator over it, and the contract every backend must satisfy.

use vstd::prelude::*;

mod keys;
mod ops;
mod store;
mod transaction;

pub use store::apply_op;
pub use store::apply_ops;
pub use store::lemma_flush_visibility;
pub use store::lemma_last_delete_wins;
pub use store::lemma_last_insert_wins;
pub use store::lemma_untouched_key;
pub use store::lex_le;
pub use store::touches;
pub use store::KeyValueDB;
pub use store::StoreModel;

pub use keys::db_key_view;
pub use keys::DBKey;
pub use ops::DBOp;
pub use transaction::bytes_view;
pub use transaction::lemma_offset_consistency;
pub use transaction::lemma_packed_buffer_len;
pub use transaction::op_byte_len;
pub use transaction::packed_len;
pub use transaction::lemma_restartable;
pub use transaction::lemma_round_trip;
pub use transaction::DBTransaction;
pub use transaction::DataOp;
pub use transaction::DataOpIterator;
pub use transaction::OpView;

verus! {

/// Required length of prefixes.
pub const PREFIX_LEN: usize = 12;

/// Database value.
pub type DBValue = Vec<u8>;

} // verus!
