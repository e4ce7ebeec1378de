use mutable_batch::batch::{ColumnData, ColumnType, MutableBatch};
use mutable_batch::stats::FloatBits;
use mutable_batch::writer::{Error, Writer};

fn name(s: &str) -> Vec<u8> {
    s.as_bytes().to_vec()
}

fn bytes(s: &str) -> Vec<u8> {
    s.as_bytes().to_vec()
}

#[test]
fn mask_fidelity_dense_i64() {
    // Five new rows under mask 0b01011 with values [10, 20, 30] land as
    // [10, null, 20, 30, null].
    let batch = MutableBatch::new();
    let mut w = Writer::new(batch, 5);
    let mask = vec![0b01011u8];
    w.write_i64(&name("a"), Some(&mask), &vec![10, 20, 30]).unwrap();
    let b = w.commit();
    assert_eq!(b.row_count, 5);
    let col = &b.columns[0];
    assert_eq!(col.valid, vec![true, true, false, true, false]);
    match &col.data {
        ColumnData::I64(v, st) => {
            assert_eq!(v, &vec![10, 20, 0, 30, 0]);
            assert_eq!(st.total_count, 5);
            assert_eq!(st.null_count, 2);
            assert_eq!(st.min, Some(10));
            assert_eq!(st.max, Some(30));
        }
        _ => panic!("expected i64 data"),
    }
}

#[test]
fn insufficient_values_then_rollback() {
    let batch = MutableBatch::new();
    let mut w = Writer::new(batch, 10);
    let b = w.commit();
    assert_eq!(b.row_count, 10);

    let mut w = Writer::new(b, 3);
    // Mask asks for three values but only two are supplied.
    let mask = vec![0b111u8];
    let r = w.write_u64(&name("x"), Some(&mask), &vec![1, 2]);
    assert_eq!(r, Err(Error::InsufficientValues));
    let b = w.rollback();
    assert_eq!(b.row_count, 10);
    let col = &b.columns[0];
    assert_eq!(col.valid.len(), 10);
    match &col.data {
        ColumnData::U64(v, _) => assert_eq!(v.len(), 10),
        _ => panic!("expected u64 data"),
    }
}

#[test]
fn type_mismatch_rejection() {
    let batch = MutableBatch::new();
    let mut w = Writer::new(batch, 1);
    w.write_i64(&name("a"), None, &vec![7]).unwrap();
    let b = w.commit();

    let mut w = Writer::new(b, 1);
    let r = w.write_string(&name("a"), None, &vec![bytes("oops")]);
    assert_eq!(
        r,
        Err(Error::TypeMismatch { existing: ColumnType::I64, inserted: ColumnType::Str })
    );
    let b = w.rollback();
    assert_eq!(b.row_count, 1);
    match &b.columns[0].data {
        ColumnData::I64(v, _) => assert_eq!(v, &vec![7]),
        _ => panic!("expected i64 data"),
    }
}

#[test]
fn dictionary_reuse_across_transactions() {
    let batch = MutableBatch::new();
    let mut w = Writer::new(batch, 2);
    w.write_tag(&name("t"), None, &vec![bytes("us"), bytes("eu")]).unwrap();
    let b = w.commit();
    let codes_first = match &b.columns[0].data {
        ColumnData::Tag(v, d, _) => {
            assert_eq!(d.entries.len(), 2);
            v.clone()
        }
        _ => panic!("expected tag data"),
    };
    assert_eq!(codes_first, vec![Some(0), Some(1)]);

    // Second transaction reusing "us" gets the same code.
    let mut w = Writer::new(b, 1);
    w.write_tag(&name("t"), None, &vec![bytes("us")]).unwrap();
    let b = w.commit();
    match &b.columns[0].data {
        ColumnData::Tag(v, d, _) => {
            assert_eq!(d.entries.len(), 2);
            assert_eq!(v[2], Some(0));
        }
        _ => panic!("expected tag data"),
    }

    // An aborted insertion leaves no trace; a later commit with a different
    // value never reuses the discarded code.
    let mut w = Writer::new(b, 1);
    w.write_tag(&name("t"), None, &vec![bytes("asia")]).unwrap();
    let b = w.rollback();
    match &b.columns[0].data {
        ColumnData::Tag(_, d, _) => assert_eq!(d.entries.len(), 2),
        _ => panic!("expected tag data"),
    }
    let mut w = Writer::new(b, 1);
    w.write_tag(&name("t"), None, &vec![bytes("sa")]).unwrap();
    let b = w.commit();
    match &b.columns[0].data {
        ColumnData::Tag(v, d, _) => {
            assert_eq!(d.entries.len(), 3);
            assert_eq!(d.entries[2], bytes("sa"));
            assert_eq!(v[3], Some(2));
        }
        _ => panic!("expected tag data"),
    }
}

#[test]
fn lazy_dictionary_coded_write() {
    // A table of 10 entries with keys touching only two distinct indices
    // inserts exactly two dictionary entries.
    let batch = MutableBatch::new();
    let mut w = Writer::new(batch, 4);
    let table: Vec<Vec<u8>> = (0..10).map(|i| bytes(&format!("v{}", i))).collect();
    w.write_tag_dict(&name("t"), None, &vec![3, 7, 3, 7], &table).unwrap();
    let b = w.commit();
    match &b.columns[0].data {
        ColumnData::Tag(v, d, _) => {
            assert_eq!(d.entries.len(), 2);
            assert_eq!(d.entries[0], bytes("v3"));
            assert_eq!(d.entries[1], bytes("v7"));
            assert_eq!(v, &vec![Some(0), Some(1), Some(0), Some(1)]);
        }
        _ => panic!("expected tag data"),
    }
}

#[test]
fn tag_dict_key_not_found() {
    let batch = MutableBatch::new();
    let mut w = Writer::new(batch, 2);
    let r = w.write_tag_dict(&name("t"), None, &vec![0, 5], &vec![bytes("only")]);
    assert_eq!(r, Err(Error::KeyNotFound { key: 5 }));
    let b = w.rollback();
    assert_eq!(b.row_count, 0);
}

#[test]
fn implicit_null_padding() {
    // Writing column a but not column b pads b with nulls and only its null
    // count moves.
    let batch = MutableBatch::new();
    let mut w = Writer::new(batch, 2);
    w.write_bool(&name("a"), None, &vec![true, false]).unwrap();
    w.write_f64(&name("b"), None, &vec![FloatBits { bits: 1.5f64.to_bits() }, FloatBits {
        bits: 2.5f64.to_bits(),
    }])
    .unwrap();
    let b = w.commit();

    let mut w = Writer::new(b, 3);
    w.write_bool(&name("a"), None, &vec![true, true, true]).unwrap();
    let b = w.commit();
    assert_eq!(b.row_count, 5);
    for col in &b.columns {
        assert_eq!(col.valid.len(), 5);
    }
    let colb = &b.columns[1];
    assert_eq!(&colb.valid[2..], &[false, false, false]);
    match &colb.data {
        ColumnData::F64(v, st) => {
            assert_eq!(v.len(), 5);
            assert_eq!(st.total_count, 5);
            assert_eq!(st.null_count, 3);
            assert_eq!(st.min, Some(FloatBits { bits: 1.5f64.to_bits() }));
            assert_eq!(st.max, Some(FloatBits { bits: 2.5f64.to_bits() }));
        }
        _ => panic!("expected f64 data"),
    }
}

#[test]
fn atomicity_multi_column_rollback() {
    let batch = MutableBatch::new();
    let mut w = Writer::new(batch, 2);
    w.write_time(&name("time"), &vec![100, 200]).unwrap();
    w.write_tag(&name("t"), None, &vec![bytes("a"), bytes("b")]).unwrap();
    w.write_string(&name("s"), None, &vec![bytes("x"), bytes("y")]).unwrap();
    let b = w.commit();
    assert_eq!(b.row_count, 2);

    // A transaction touching every column, then abandoned.
    let mut w = Writer::new(b, 2);
    w.write_time(&name("time"), &vec![300, 400]).unwrap();
    w.write_tag(&name("t"), None, &vec![bytes("c"), bytes("d")]).unwrap();
    w.write_string(&name("s"), None, &vec![bytes("z"), bytes("w")]).unwrap();
    w.write_i64(&name("fresh"), None, &vec![1, 2]).unwrap();
    let b = w.rollback();

    assert_eq!(b.row_count, 2);
    assert_eq!(b.columns.len(), 4);
    match &b.columns[0].data {
        ColumnData::I64(v, _) => assert_eq!(v, &vec![100, 200]),
        _ => panic!("expected time data"),
    }
    match &b.columns[1].data {
        ColumnData::Tag(v, d, _) => {
            assert_eq!(v, &vec![Some(0), Some(1)]);
            assert_eq!(d.entries, vec![bytes("a"), bytes("b")]);
        }
        _ => panic!("expected tag data"),
    }
    match &b.columns[2].data {
        ColumnData::Str(v, _) => assert_eq!(v, &vec![bytes("x"), bytes("y")]),
        _ => panic!("expected string data"),
    }
    // The column created by the aborted transaction stays registered, all
    // null.
    let fresh = &b.columns[3];
    assert_eq!(fresh.name, name("fresh"));
    assert_eq!(fresh.valid, vec![false, false]);
}

#[test]
fn uniform_growth_after_commit() {
    let batch = MutableBatch::new();
    let mut w = Writer::new(batch, 3);
    w.write_time(&name("time"), &vec![1, 2, 3]).unwrap();
    w.write_u64(&name("u"), None, &vec![9, 8, 7]).unwrap();
    let b = w.commit();
    assert_eq!(b.row_count, 3);
    for col in &b.columns {
        assert_eq!(col.valid.len(), 3);
    }
    let mut w = Writer::new(b, 2);
    w.write_u64(&name("u"), None, &vec![5, 5]).unwrap();
    let b = w.commit();
    assert_eq!(b.row_count, 5);
    for col in &b.columns {
        assert_eq!(col.valid.len(), 5);
    }
    match &b.columns[1].data {
        ColumnData::U64(v, st) => {
            assert_eq!(v, &vec![9, 8, 7, 5, 5]);
            assert_eq!(st.total_count, 5);
            assert_eq!(st.min, Some(5));
            assert_eq!(st.max, Some(9));
        }
        _ => panic!("expected u64 data"),
    }
}

#[test]
fn timestamp_requires_every_row() {
    let batch = MutableBatch::new();
    let mut w = Writer::new(batch, 3);
    let r = w.write_time(&name("time"), &vec![1, 2]);
    assert_eq!(r, Err(Error::InsufficientValues));
    let b = w.rollback();
    assert_eq!(b.row_count, 0);
}

#[test]
fn tag_distinct_count_tracks_dictionary() {
    let batch = MutableBatch::new();
    let mut w = Writer::new(batch, 3);
    let mask = vec![0b011u8];
    w.write_tag(&name("t"), Some(&mask), &vec![bytes("a"), bytes("a")]).unwrap();
    let b = w.commit();
    match &b.columns[0].data {
        ColumnData::Tag(_, d, st) => {
            assert_eq!(d.entries.len(), 1);
            // One real value plus the null bucket.
            assert_eq!(st.distinct_count, Some(2));
            assert_eq!(st.null_count, 1);
        }
        _ => panic!("expected tag data"),
    }
}
