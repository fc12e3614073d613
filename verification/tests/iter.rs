use leveldb::DB;
use leveldb::OpenOption;

fn store_with(pairs: &[(&[u8], &[u8])]) -> DB {
    let mut db = DB::open("spot", &[OpenOption::CreateIfMissing]).unwrap();
    for (k, v) in pairs {
        db.put(k, v, &[]).unwrap();
    }
    db
}

#[test]
fn batch_then_iterate_in_order() {
    let mut db = DB::open("spot", &[OpenOption::CreateIfMissing]).unwrap();
    let batch = vec![(b"a".to_vec(), b"1".to_vec()), (b"b".to_vec(), b"2".to_vec())];
    db.write(&batch, &[]).unwrap();
    let mut it = db.iter(&[]);
    let mut seen: Vec<(Vec<u8>, Vec<u8>)> = Vec::new();
    while let Some(pair) = it.next() {
        seen.push(pair);
    }
    assert_eq!(seen, vec![(b"a".to_vec(), b"1".to_vec()), (b"b".to_vec(), b"2".to_vec())]);
    it.destroy();
}

#[test]
fn iteration_is_ascending_without_duplicates() {
    let db = store_with(&[
        (b"pear", b"4"),
        (b"apple", b"1"),
        (b"quince", b"5"),
        (b"apple", b"2"),
        (b"fig", b"3"),
    ]);
    let mut it = db.iter(&[]);
    let mut keys: Vec<Vec<u8>> = Vec::new();
    while let Some((k, _)) = it.next() {
        keys.push(k);
    }
    assert_eq!(
        keys,
        vec![b"apple".to_vec(), b"fig".to_vec(), b"pear".to_vec(), b"quince".to_vec()]
    );
    for w in keys.windows(2) {
        assert!(w[0] < w[1]);
    }
}

#[test]
fn iterator_reads_a_snapshot() {
    let mut db = store_with(&[(b"a", b"1")]);
    let mut it = db.iter(&[]);
    db.put(b"b", b"2", &[]).unwrap();
    let mut seen: Vec<Vec<u8>> = Vec::new();
    while let Some((k, _)) = it.next() {
        seen.push(k);
    }
    assert_eq!(seen, vec![b"a".to_vec()]);
}

#[test]
fn exhausted_iterator_stays_exhausted() {
    let db = store_with(&[(b"a", b"1")]);
    let mut it = db.iter(&[]);
    assert!(it.next().is_some());
    assert!(it.next().is_none());
    assert!(it.next().is_none());
    assert!(!it.is_valid());
}

#[test]
fn empty_store_iterator_is_invalid() {
    let db = DB::open("spot", &[OpenOption::CreateIfMissing]).unwrap();
    let mut it = db.iter(&[]);
    assert!(!it.is_valid());
    assert!(it.next().is_none());
    assert!(it.get_error().is_none());
}

#[test]
fn key_and_value_read_current_entry() {
    let db = store_with(&[(b"a", b"1"), (b"b", b"2")]);
    let it = db.iter(&[]);
    assert!(it.is_valid());
    assert_eq!(it.key(), b"a".to_vec());
    assert_eq!(it.value(), b"1".to_vec());
}

#[test]
fn prev_reverses_after_forward_steps() {
    let db = store_with(&[(b"a", b"1"), (b"b", b"2"), (b"c", b"3")]);
    let mut it = db.iter(&[]);
    assert_eq!(it.next(), Some((b"a".to_vec(), b"1".to_vec())));
    assert_eq!(it.next(), Some((b"b".to_vec(), b"2".to_vec())));
    // The cursor already advanced past "b", so reversing re-reports it.
    assert_eq!(it.prev(), Some((b"b".to_vec(), b"2".to_vec())));
    assert_eq!(it.prev(), Some((b"a".to_vec(), b"1".to_vec())));
    assert_eq!(it.prev(), None);
    assert!(!it.is_valid());
}

#[test]
fn prev_from_exhausted_end_steps_onto_last() {
    let db = store_with(&[(b"a", b"1"), (b"b", b"2")]);
    let mut it = db.iter(&[]);
    while it.next().is_some() {}
    assert_eq!(it.prev(), Some((b"b".to_vec(), b"2".to_vec())));
}

#[test]
fn seek_lands_on_first_key_not_below() {
    let db = store_with(&[(b"b", b"2"), (b"d", b"4"), (b"f", b"6")]);
    let mut it = db.iter(&[]);
    it.seek(b"c");
    assert!(it.is_valid());
    assert_eq!(it.key(), b"d".to_vec());
    it.seek(b"d");
    assert_eq!(it.key(), b"d".to_vec());
    it.seek(b"g");
    assert!(!it.is_valid());
}

#[test]
fn seek_to_bounds() {
    let db = store_with(&[(b"a", b"1"), (b"b", b"2"), (b"c", b"3")]);
    let mut it = db.iter(&[]);
    while it.next().is_some() {}
    it.seek_to_first();
    assert_eq!(it.key(), b"a".to_vec());
    it.seek_to_last();
    assert_eq!(it.key(), b"c".to_vec());
    it.seek_to_first();
    let mut count = 0;
    while it.next().is_some() {
        count += 1;
    }
    assert_eq!(count, 3);
    it.destroy();
}
