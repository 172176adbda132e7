use outer::startup::{bind_address, database_choice, extract_sqlite_path};

#[test]
fn extract_sqlite_path_reads_the_file() {
    assert_eq!(extract_sqlite_path("sqlite:outer.db"), Some("outer.db"));
    assert_eq!(extract_sqlite_path("sqlite://outer.db"), Some("outer.db"));
    assert_eq!(extract_sqlite_path("sqlite:outer.db?mode=rwc"), Some("outer.db"));
    assert_eq!(extract_sqlite_path("sqlite:///var/lib/o.db?a=b?c"), Some("/var/lib/o.db"));
    assert_eq!(extract_sqlite_path("sqlite::memory:"), None);
    assert_eq!(extract_sqlite_path("sqlite://:memory:?cache=shared"), None);
    assert_eq!(extract_sqlite_path("sqlite:"), None);
    assert_eq!(extract_sqlite_path("sqlite:?mode=rwc"), None);
    assert_eq!(extract_sqlite_path("postgres://host/db"), None);
    assert_eq!(extract_sqlite_path(""), None);
}

#[test]
fn database_choice_reads_the_answer() {
    assert_eq!(
        database_choice("outer.db", "  \n"),
        Some("sqlite:outer.db?mode=rwc".to_string())
    );
    assert_eq!(database_choice("outer.db", "q"), None);
    assert_eq!(database_choice("outer.db", " QuIt "), None);
    assert_eq!(
        database_choice("outer.db", "data/mine.db"),
        Some("sqlite:data/mine.db?mode=rwc".to_string())
    );
    assert_eq!(
        database_choice("outer.db", "mine.sqlite"),
        Some("sqlite:mine.sqlite?mode=rwc".to_string())
    );
    assert_eq!(
        database_choice("outer.db", "mine"),
        Some("sqlite:mine.db?mode=rwc".to_string())
    );
    assert_eq!(
        database_choice("outer.db", "quits"),
        Some("sqlite:quits.db?mode=rwc".to_string())
    );
}

#[test]
fn bind_address_joins_host_and_port() {
    assert_eq!(bind_address("0.0.0.0", 3000), "0.0.0.0:3000");
    assert_eq!(bind_address("localhost", 0), "localhost:0");
    assert_eq!(bind_address("::1", 65535), "::1:65535");
    assert_eq!(bind_address("h", 10), "h:10");
}
