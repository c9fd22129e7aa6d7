use devpkg::PackageIdentity;
use devpkg::errors::LedgerError;
use devpkg::ledger::Database;
use devpkg::ledger::LedgerEnv;
use devpkg::ledger::SetupPlan;
use devpkg::ledger::ensure_ready;
use devpkg::records::PackageStatus;

fn ident(url: &str) -> PackageIdentity {
    PackageIdentity::new(url.as_bytes().to_vec()).unwrap()
}

#[test]
fn bootstrap_fresh_creates_dir_and_file() {
    let plan = ensure_ready(LedgerEnv { dir_exists: false, file_exists: false });
    assert_eq!(plan, SetupPlan { create_dir: true, create_file: true });
}

#[test]
fn bootstrap_again_is_noop() {
    let plan = ensure_ready(LedgerEnv { dir_exists: true, file_exists: true });
    assert_eq!(plan, SetupPlan { create_dir: false, create_file: false });
}

#[test]
fn bootstrap_missing_file_only() {
    let plan = ensure_ready(LedgerEnv { dir_exists: true, file_exists: false });
    assert_eq!(plan, SetupPlan { create_dir: false, create_file: true });
}

#[test]
fn find_on_empty_ledger_is_false() {
    let db = Database::new();
    assert!(!db.find(&ident("http://example.test/pkg-1.0.tar.gz")));
}

#[test]
fn most_recent_wins_failed_last() {
    let mut db = Database::new();
    let url = "http://example.test/pkg-1.0.tar.gz";
    db.update(ident(url), PackageStatus::Installed, 100);
    db.update(ident(url), PackageStatus::Failed(b"compile error".to_vec()), 200);
    assert!(!db.find(&ident(url)));
}

#[test]
fn most_recent_wins_installed_last() {
    let mut db = Database::new();
    let url = "http://example.test/pkg-1.0.tar.gz";
    db.update(ident(url), PackageStatus::Failed(b"compile error".to_vec()), 100);
    db.update(ident(url), PackageStatus::Installed, 200);
    assert!(db.find(&ident(url)));
}

#[test]
fn find_does_not_cross_identities() {
    let mut db = Database::new();
    db.update(ident("http://example.test/a.tar.gz"), PackageStatus::Installed, 1);
    assert!(!db.find(&ident("http://example.test/b.tar.gz")));
    assert!(db.find(&ident("http://example.test/a.tar.gz")));
}

#[test]
fn update_returns_exact_encoded_line() {
    let mut db = Database::new();
    let line = db.update(ident("http://example.test/p"), PackageStatus::Installed, 12345);
    assert_eq!(line, b"I 12345 http://example.test/p\n".to_vec());
}

#[test]
fn update_encodes_failure_with_reason() {
    let mut db = Database::new();
    let line = db.update(
        ident("http://example.test/p"),
        PackageStatus::Failed(b"exit code 2".to_vec()),
        7,
    );
    assert_eq!(line, b"F 7 http://example.test/p exit code 2\n".to_vec());
}

#[test]
fn update_encodes_zero_timestamp() {
    let mut db = Database::new();
    let line = db.update(ident("http://example.test/p"), PackageStatus::Installed, 0);
    assert_eq!(line, b"I 0 http://example.test/p\n".to_vec());
}

#[test]
fn appended_lines_load_back_intact() {
    let mut db = Database::new();
    let url_a = "http://example.test/a.tar.gz";
    let url_b = "http://example.test/b.tar.gz";
    let mut content: Vec<u8> = Vec::new();
    content.extend(db.update(ident(url_a), PackageStatus::Installed, 11));
    content.extend(db.update(ident(url_b), PackageStatus::Failed(b"no such host".to_vec()), 22));
    let loaded = Database::load(&content).unwrap();
    let records = loaded.list();
    assert_eq!(records.len(), 2);
    assert_eq!(records[0].identity.as_bytes(), &url_a.as_bytes().to_vec());
    assert_eq!(records[0].status, PackageStatus::Installed);
    assert_eq!(records[0].timestamp, 11);
    assert_eq!(records[1].identity.as_bytes(), &url_b.as_bytes().to_vec());
    assert_eq!(records[1].status, PackageStatus::Failed(b"no such host".to_vec()));
    assert_eq!(records[1].timestamp, 22);
    assert!(loaded.find(&ident(url_a)));
    assert!(!loaded.find(&ident(url_b)));
}

#[test]
fn largest_timestamp_round_trips() {
    let mut db = Database::new();
    let url = "http://example.test/p";
    let line = db.update(ident(url), PackageStatus::Installed, u64::MAX);
    assert_eq!(line, b"I 18446744073709551615 http://example.test/p\n".to_vec());
    let loaded = Database::load(&line).unwrap();
    assert_eq!(loaded.list()[0].timestamp, u64::MAX);
}

#[test]
fn load_of_empty_content_is_empty_ledger() {
    let db = Database::load(&Vec::new()).unwrap();
    assert_eq!(db.list().len(), 0);
}

#[test]
fn load_rejects_unterminated_content() {
    let r = Database::load(&b"I 1 http://example.test/p".to_vec());
    assert_eq!(r.unwrap_err(), LedgerError::Corrupt);
}

#[test]
fn load_rejects_unknown_kind() {
    let r = Database::load(&b"X 1 http://example.test/p\n".to_vec());
    assert_eq!(r.unwrap_err(), LedgerError::Corrupt);
}

#[test]
fn load_rejects_bad_timestamp() {
    let r = Database::load(&b"I 1x2 http://example.test/p\n".to_vec());
    assert_eq!(r.unwrap_err(), LedgerError::Corrupt);
}

#[test]
fn load_rejects_overflowing_timestamp() {
    let r = Database::load(&b"I 99999999999999999999 http://example.test/p\n".to_vec());
    assert_eq!(r.unwrap_err(), LedgerError::Corrupt);
}

#[test]
fn load_rejects_invalid_identity() {
    let r = Database::load(&b"I 1 noscheme\n".to_vec());
    assert_eq!(r.unwrap_err(), LedgerError::Corrupt);
}

#[test]
fn list_keeps_insertion_order() {
    let mut db = Database::new();
    db.update(ident("http://example.test/one"), PackageStatus::Installed, 1);
    db.update(ident("http://example.test/two"), PackageStatus::Installed, 2);
    db.update(ident("http://example.test/three"), PackageStatus::Installed, 3);
    let records = db.list();
    assert_eq!(records[0].identity.as_bytes(), &b"http://example.test/one".to_vec());
    assert_eq!(records[1].identity.as_bytes(), &b"http://example.test/two".to_vec());
    assert_eq!(records[2].identity.as_bytes(), &b"http://example.test/three".to_vec());
}

#[test]
fn identity_validation() {
    assert!(PackageIdentity::new(b"".to_vec()).is_none());
    assert!(PackageIdentity::new(b"noscheme".to_vec()).is_none());
    assert!(PackageIdentity::new(b"http://has space".to_vec()).is_none());
    assert!(PackageIdentity::new(b"http://line\nbreak".to_vec()).is_none());
    assert!(PackageIdentity::new(b"://nothing-before".to_vec()).is_none());
    assert!(PackageIdentity::new(b"http://example.test/pkg-1.0.tar.gz".to_vec()).is_some());
    assert!(PackageIdentity::new(b"ftp://example.test/p".to_vec()).is_some());
}
