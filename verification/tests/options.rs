use leveldb::OpenOption;
use leveldb::ReadOption;
use leveldb::WriteOption;
use leveldb::open_flags;
use leveldb::read_flags;
use leveldb::write_flags;

#[test]
fn open_flags_set_each_named_field() {
    let f = open_flags(&[]);
    assert!(!f.create_if_missing && !f.error_if_exists && !f.paranoid_checks);

    let f = open_flags(&[OpenOption::CreateIfMissing]);
    assert!(f.create_if_missing && !f.error_if_exists && !f.paranoid_checks);

    let f = open_flags(&[
        OpenOption::ParanoidChecks,
        OpenOption::ErrorIfExists,
        OpenOption::CreateIfMissing,
    ]);
    assert!(f.create_if_missing && f.error_if_exists && f.paranoid_checks);
}

#[test]
fn open_flags_tolerate_duplicates() {
    let f = open_flags(&[
        OpenOption::ErrorIfExists,
        OpenOption::ErrorIfExists,
        OpenOption::ErrorIfExists,
    ]);
    assert!(!f.create_if_missing && f.error_if_exists && !f.paranoid_checks);
}

#[test]
fn write_flags_set_sync() {
    assert!(!write_flags(&[]).sync);
    assert!(write_flags(&[WriteOption::Sync]).sync);
    assert!(write_flags(&[WriteOption::Sync, WriteOption::Sync]).sync);
}

#[test]
fn read_flags_set_each_named_field() {
    let f = read_flags(&[]);
    assert!(!f.verify_checksum && !f.fill_cache);

    let f = read_flags(&[ReadOption::FillCache]);
    assert!(!f.verify_checksum && f.fill_cache);

    let f = read_flags(&[ReadOption::VerifyChecksum, ReadOption::FillCache]);
    assert!(f.verify_checksum && f.fill_cache);
}
