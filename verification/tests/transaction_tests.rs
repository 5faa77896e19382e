//! Behavioral tests for the transaction encoder, its operation iterator, and
//! the owned operation type.

use kvdb::DBKey;
use kvdb::DBOp;
use kvdb::DBTransaction;
use kvdb::DataOp;
use kvdb::PREFIX_LEN;

/// A materialized copy of one yielded operation, for comparing sequences.
#[derive(Debug, PartialEq, Clone)]
enum OwnedOp {
    Insert(u32, Vec<u8>, Vec<u8>),
    Delete(u32, Vec<u8>),
}

fn collect_ops(t: &DBTransaction) -> Vec<OwnedOp> {
    let mut out = Vec::new();
    let mut it = t.iter();
    while let Some(op) = it.next() {
        match op {
            DataOp::Insert { col, key, val } => {
                out.push(OwnedOp::Insert(col, key.to_vec(), val.to_vec()))
            }
            DataOp::Delete { col, key } => out.push(OwnedOp::Delete(col, key.to_vec())),
        }
    }
    out
}

#[test]
fn prefix_len_is_twelve() {
    assert_eq!(PREFIX_LEN, 12);
}

#[test]
fn empty_transaction_yields_nothing() {
    let t = DBTransaction::new();
    let mut it = t.iter();
    assert!(it.next().is_none());
    assert!(it.next().is_none());
}

#[test]
fn with_capacity_zero_is_empty() {
    let t = DBTransaction::with_capacity(0);
    assert_eq!(collect_ops(&t).len(), 0);
}

#[test]
fn scenario_three_ops_in_order() {
    let mut t = DBTransaction::new();
    t.put(0, b"alpha", b"1");
    t.delete(0, b"beta");
    t.put(1, b"alpha", b"2");

    let got = collect_ops(&t);
    assert_eq!(
        got,
        vec![
            OwnedOp::Insert(0, b"alpha".to_vec(), b"1".to_vec()),
            OwnedOp::Delete(0, b"beta".to_vec()),
            OwnedOp::Insert(1, b"alpha".to_vec(), b"2".to_vec()),
        ]
    );

    // The packed buffer holds exactly the key and value bytes, back to back:
    // 5 + 1 + 4 + 5 + 1 = 16 bytes in all.
    let mut total = 0;
    let mut it = t.iter();
    while let Some(op) = it.next() {
        match op {
            DataOp::Insert { key, val, .. } => total += key.len() + val.len(),
            DataOp::Delete { key, .. } => total += key.len(),
        }
    }
    assert_eq!(total, 16);
}

#[test]
fn round_trip_arbitrary_keys_and_values() {
    let long_key: Vec<u8> = (0..100u8).collect();
    let big_value: Vec<u8> = (0..255u8).rev().collect();

    let mut t = DBTransaction::new();
    t.put(5, b"", b"");
    t.delete(7, b"");
    t.put(0, &long_key, &big_value);
    t.put(u32::MAX, b"k", b"");
    t.delete(3, &long_key);

    let got = collect_ops(&t);
    assert_eq!(
        got,
        vec![
            OwnedOp::Insert(5, vec![], vec![]),
            OwnedOp::Delete(7, vec![]),
            OwnedOp::Insert(0, long_key.clone(), big_value.clone()),
            OwnedOp::Insert(u32::MAX, b"k".to_vec(), vec![]),
            OwnedOp::Delete(3, long_key.clone()),
        ]
    );
}

#[test]
fn repeated_put_keeps_both_descriptors() {
    let mut t = DBTransaction::new();
    t.put(2, b"same", b"first");
    t.put(2, b"same", b"second");
    let got = collect_ops(&t);
    assert_eq!(
        got,
        vec![
            OwnedOp::Insert(2, b"same".to_vec(), b"first".to_vec()),
            OwnedOp::Insert(2, b"same".to_vec(), b"second".to_vec()),
        ]
    );
}

#[test]
fn two_iterators_yield_identical_sequences() {
    let mut t = DBTransaction::new();
    t.put(0, b"a", b"x");
    t.delete(1, b"b");
    t.put(2, b"c", b"yz");

    let first = collect_ops(&t);
    let second = collect_ops(&t);
    assert_eq!(first, second);
    assert_eq!(first.len(), 3);
}

#[test]
fn put_vec_behaves_like_put() {
    let mut t = DBTransaction::new();
    t.put_vec(4, b"key", bytes::Bytes::from_static(b"value-bytes"));
    let got = collect_ops(&t);
    assert_eq!(
        got,
        vec![OwnedOp::Insert(4, b"key".to_vec(), b"value-bytes".to_vec())]
    );
}

#[test]
fn data_op_col_reads_either_variant() {
    let mut t = DBTransaction::new();
    t.put(9, b"k", b"v");
    t.delete(11, b"k");
    let mut it = t.iter();
    let first = it.next().unwrap();
    assert_eq!(first.col(), 9);
    let second = it.next().unwrap();
    assert_eq!(second.col(), 11);
    assert!(it.next().is_none());
}

#[test]
fn db_op_key_and_col() {
    let short = DBOp::Insert {
        col: 3,
        key: DBKey::from_slice(b"short-key"),
        value: b"v".to_vec(),
    };
    assert_eq!(short.key(), b"short-key");
    assert_eq!(short.col(), 3);

    // A key past the 32-byte inline capacity spills to the heap and must
    // still read back unchanged.
    let long: Vec<u8> = (0..64u8).collect();
    let spilled = DBOp::Delete {
        col: 8,
        key: DBKey::from_slice(&long),
    };
    assert_eq!(spilled.key(), &long[..]);
    assert_eq!(spilled.col(), 8);
}

#[test]
fn materialized_op_outlives_its_transaction() {
    let owned: Vec<DBOp> = {
        let mut t = DBTransaction::new();
        t.put(6, b"k1", b"v1");
        t.delete(7, b"k2");
        let mut it = t.iter();
        let mut v = Vec::new();
        while let Some(op) = it.next() {
            v.push(op.materialize());
        }
        v
    };
    assert_eq!(owned.len(), 2);
    assert_eq!(owned[0].col(), 6);
    assert_eq!(owned[0].key(), b"k1");
    match &owned[0] {
        DBOp::Insert { value, .. } => assert_eq!(value, b"v1"),
        _ => panic!("expected an insert"),
    }
    assert_eq!(owned[1].col(), 7);
    assert_eq!(owned[1].key(), b"k2");
    assert!(matches!(owned[1], DBOp::Delete { .. }));
}

#[test]
fn cloned_transaction_holds_the_same_ops_and_grows_independently() {
    let mut t = DBTransaction::new();
    t.put(0, b"a", b"1");
    let mut c = t.clone();
    assert_eq!(collect_ops(&c), collect_ops(&t));

    c.delete(0, b"a");
    assert_eq!(collect_ops(&t).len(), 1);
    assert_eq!(
        collect_ops(&c),
        vec![
            OwnedOp::Insert(0, b"a".to_vec(), b"1".to_vec()),
            OwnedOp::Delete(0, b"a".to_vec()),
        ]
    );
}

#[test]
fn default_transaction_is_empty() {
    let t = DBTransaction::default();
    assert_eq!(collect_ops(&t).len(), 0);
}
