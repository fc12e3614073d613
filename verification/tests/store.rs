use std::str::from_utf8;

use leveldb::DB;
use leveldb::OpenOption;

#[test]
fn test_db_open() {
    let res = DB::open("db", &[OpenOption::CreateIfMissing]);
    match res {
        Ok(mut db) => {
            let mut it = db.iter(&[]);
            while let Some((key, value)) = it.next() {
                println!(
                    "key: {}, val: {}",
                    from_utf8(&key).unwrap(),
                    from_utf8(&value).unwrap()
                );
            }
            it.destroy();
            let res = db.put("foo".as_bytes(), "bar".as_bytes(), &[]);
            match res {
                Ok(_) => {},
                Err(err) => panic!("{:?}", err),
            }
            let res = db.get("foo".as_bytes(), &[]);
            match res {
                Ok(val) => println!("{:?}", val),
                Err(err) => panic!("{:?}", err),
            }
            db.close().unwrap();
        },
        Err(err) => {
            panic!("{:?}", err);
        },
    }
}

#[test]
fn fresh_store_round_trip() {
    let mut db = DB::open("spot", &[OpenOption::CreateIfMissing]).unwrap();
    db.put(b"foo", b"bar", &[]).unwrap();
    let got = db.get(b"foo", &[]).unwrap();
    assert_eq!(got, Some(b"bar".to_vec()));
    db.delete(b"foo", &[]).unwrap();
    let got = db.get(b"foo", &[]).unwrap();
    assert_eq!(got, None);
    db.close().unwrap();
}

#[test]
fn open_without_create_fails() {
    let res = DB::open("nowhere", &[]);
    match res {
        Ok(_) => panic!("open of a missing store must fail"),
        Err(err) => {
            assert!(err.is_open_failure());
            assert!(!err.message().is_empty());
        },
    }
}

#[test]
fn get_never_written_is_absent() {
    let db = DB::open("spot", &[OpenOption::CreateIfMissing]).unwrap();
    let got = db.get(b"missing", &[]).unwrap();
    assert_eq!(got, None);
}

#[test]
fn put_overwrites_value() {
    let mut db = DB::open("spot", &[OpenOption::CreateIfMissing]).unwrap();
    db.put(b"k", b"first", &[]).unwrap();
    db.put(b"k", b"second", &[]).unwrap();
    assert_eq!(db.get(b"k", &[]).unwrap(), Some(b"second".to_vec()));
}

#[test]
fn delete_absent_key_succeeds() {
    let mut db = DB::open("spot", &[OpenOption::CreateIfMissing]).unwrap();
    db.put(b"a", b"1", &[]).unwrap();
    db.delete(b"never", &[]).unwrap();
    assert_eq!(db.get(b"a", &[]).unwrap(), Some(b"1".to_vec()));
}

#[test]
fn batch_applies_all_mutations() {
    let mut db = DB::open("spot", &[OpenOption::CreateIfMissing]).unwrap();
    db.put(b"keep", b"old", &[]).unwrap();
    let batch = vec![
        (b"a".to_vec(), b"1".to_vec()),
        (b"b".to_vec(), b"2".to_vec()),
        (b"a".to_vec(), b"3".to_vec()),
    ];
    db.write(&batch, &[]).unwrap();
    assert_eq!(db.get(b"a", &[]).unwrap(), Some(b"3".to_vec()));
    assert_eq!(db.get(b"b", &[]).unwrap(), Some(b"2".to_vec()));
    assert_eq!(db.get(b"keep", &[]).unwrap(), Some(b"old".to_vec()));
}

#[test]
fn closed_handle_rejects_operations() {
    let mut db = DB::open("spot", &[OpenOption::CreateIfMissing]).unwrap();
    db.put(b"a", b"1", &[]).unwrap();
    db.close().unwrap();
    assert!(db.put(b"a", b"2", &[]).unwrap_err().is_usage_error());
    assert!(db.get(b"a", &[]).unwrap_err().is_usage_error());
    assert!(db.delete(b"a", &[]).unwrap_err().is_usage_error());
    assert!(db.write(&vec![], &[]).unwrap_err().is_usage_error());
    assert!(db.close().unwrap_err().is_usage_error());
}

#[test]
fn empty_key_and_value_round_trip() {
    let mut db = DB::open("spot", &[OpenOption::CreateIfMissing]).unwrap();
    db.put(b"", b"", &[]).unwrap();
    assert_eq!(db.get(b"", &[]).unwrap(), Some(Vec::new()));
}
