use mindav::minio::keys::get_path;
use mindav::config::{AccountConfig, AccountTable, AppSection, Config, MinioConfig, DEFAULT_PORT};
use mindav::minio::MinioFsConfig;
use mindav::minio::{FsErrorKind, UploadMode};
use mindav::userfs::{scoped_request_target, UserScopedFs};

fn account(u: &str, p: &str) -> AccountConfig {
    AccountConfig { username: u.into(), password: p.into() }
}

fn sample(port: &str) -> Config {
    Config {
        app: AppSection { port: port.into(), accounts: vec![account("alice", "password1")], upload_mode: UploadMode::File },
        minio: MinioConfig {
            endpoint: "localhost:9000".into(),
            bucket_name: "test".into(),
            ssl: false,
            access_key: "rustfsadmin".into(),
            secret_access_key: "rustfsadmin".into(),
        },
    }
}

#[test]
fn default_config() {
    let c = Config::default();
    assert_eq!(c.app.port, "8080");
    assert_eq!(DEFAULT_PORT, "8080");
    assert!(c.app.accounts.is_empty());
    assert_eq!(c.app.upload_mode, UploadMode::Memory);
    assert_eq!(c.minio.endpoint, "");
    assert!(!c.minio.ssl);
}

#[test]
fn parsed_config_with_and_without_port() {
    let c = Config::from_parsed(None);
    assert_eq!(c.app.port, "8080");
    let c = Config::from_parsed(Some(sample("")));
    assert_eq!(c.app.port, "8080");
    assert_eq!(c.minio.bucket_name, "test");
    assert_eq!(c.app.upload_mode, UploadMode::File);
    let c = Config::from_parsed(Some(sample("9000")));
    assert_eq!(c.app.port, "9000");
}

#[test]
fn endpoint_url_follows_ssl() {
    let mut f = MinioFsConfig::from_config(&sample("1"));
    assert_eq!(f.endpoint_url(), "http://localhost:9000");
    f.ssl = true;
    assert_eq!(f.endpoint_url(), "https://localhost:9000");
    assert_eq!(f.upload_mode, UploadMode::File);
}

#[test]
fn accounts_last_entry_wins() {
    let t = AccountTable::from_accounts(&vec![account("alice", "old"), account("bob", "password2"), account("alice", "new")]);
    assert_eq!(t.password_of("alice").as_deref(), Some("new"));
    assert!(t.is_authorized("alice", Some("new")));
    assert!(!t.is_authorized("alice", Some("old")));
    assert!(t.is_authorized("bob", Some("password2")));
    assert!(!t.is_authorized("bob", Some("wrongpass")));
    assert!(!t.is_authorized("bob", None));
    assert!(!t.is_authorized("carol", Some("")));
    assert_eq!(t.password_of("carol"), None);
}

#[test]
fn scoped_paths_parse() {
    let fs = UserScopedFs::new((), "alice".to_string());
    assert_eq!(fs.user(), "alice");
    let p = fs.scoped_path("/docs/").unwrap();
    assert_eq!(p.url(), "/alice/docs/");
    assert_eq!(p.display(), "/alice/docs");
    assert_eq!(p.path().as_url_string(), "/alice/docs/");
    let p = fs.scoped_path("/").unwrap();
    assert_eq!(p.url(), "/alice/");
    let p = fs.scoped_path("/a%20b/./c").unwrap();
    assert_eq!(p.url(), "/alice/a%20b/c");
    let p = fs.scoped_path("/a/../secret.txt").unwrap();
    assert_eq!(p.into_path().as_url_string(), "/alice/secret.txt");
    let bad = UserScopedFs::new((), "a#b".to_string());
    assert_eq!(bad.scoped_path("/x").unwrap_err(), FsErrorKind::GeneralFailure);
    let escape = UserScopedFs::new((), String::new());
    assert_eq!(escape.scoped_path("/../..").unwrap_err(), FsErrorKind::GeneralFailure);
}

#[test]
fn request_targets() {
    assert_eq!(scoped_request_target("bob", "/a.txt", None), "/bob/a.txt");
    assert_eq!(scoped_request_target("bob", "/", Some("x=1")), "/bob/?x=1");
}

#[test]
fn users_are_isolated() {
    let alice = UserScopedFs::new((), "alice".to_string());
    let bob = UserScopedFs::new((), "bob".to_string());
    let a = alice.scoped_path("/secret.txt").unwrap();
    let b = bob.scoped_path("/").unwrap();
    assert_eq!(a.url(), "/alice/secret.txt");
    assert_eq!(b.url(), "/bob/");
    assert!(!a.url().starts_with(b.url()));
    let b2 = bob.scoped_path("/secret.txt").unwrap();
    assert_ne!(a.url(), b2.url());
}

#[test]
fn store_keys_stay_in_user_dirs() {
    let alice = UserScopedFs::new((), "alice".to_string());
    let bob = UserScopedFs::new((), "bob".to_string());
    let a = alice.scoped_path("/secret.txt").unwrap();
    assert_eq!(get_path(a.display()), "alice/secret.txt");
    assert_eq!(get_path(&a.path().to_string()), "alice/secret.txt");
    let b = bob.scoped_path("/").unwrap();
    assert_eq!(get_path(b.display()), "bob");
    assert!(!get_path(a.display()).starts_with("bob/"));
}
