use account_list::accounts::precedes;
use account_list::order::name_lt;
use account_list::{Account, Accounts, BackendAccountConfig, BaseAccountConfig, DeserializedAccountConfig};

fn backend(default: Option<bool>) -> BackendAccountConfig {
    BackendAccountConfig { base: BaseAccountConfig { default } }
}

fn no_backend(default: Option<bool>) -> DeserializedAccountConfig {
    DeserializedAccountConfig::NoBackend(BaseAccountConfig { default })
}

fn entry(name: &str, config: DeserializedAccountConfig) -> (String, DeserializedAccountConfig) {
    (name.to_string(), config)
}

fn names(accounts: &Accounts) -> Vec<String> {
    accounts.iter().map(|a| a.name.clone()).collect()
}

fn account(name: &str, backend: &str, is_default: bool) -> Account {
    Account { name: name.to_string(), backend: backend.to_string(), is_default }
}

#[test]
fn end_to_end_work_and_home() {
    let entries = vec![
        entry("work", no_backend(None)),
        entry("home", DeserializedAccountConfig::Imap(backend(Some(true)))),
    ];
    let accounts = Accounts::from_entries(&entries);
    assert_eq!(accounts.0, vec![account("work", "none", false), account("home", "imap", true)]);
}

#[test]
fn end_to_end_other_entry_order() {
    let entries = vec![
        entry("home", DeserializedAccountConfig::Imap(backend(Some(true)))),
        entry("work", no_backend(None)),
    ];
    let accounts = Accounts::from_entries(&entries);
    assert_eq!(accounts.0, vec![account("work", "none", false), account("home", "imap", true)]);
}

#[test]
fn names_in_descending_order() {
    let entries = vec![
        entry("alpha", no_backend(None)),
        entry("beta", no_backend(None)),
        entry("gamma", no_backend(None)),
    ];
    let accounts = Accounts::from_entries(&entries);
    assert_eq!(names(&accounts), vec!["gamma", "beta", "alpha"]);
}

#[test]
fn order_independent_of_entry_order() {
    let configs = [
        ("alpha", DeserializedAccountConfig::Maildir(backend(None))),
        ("delta", DeserializedAccountConfig::Notmuch(backend(Some(false)))),
        ("beta", DeserializedAccountConfig::Imap(backend(Some(true)))),
        ("gamma", no_backend(Some(true))),
    ];
    let forward: Vec<_> = configs.iter().map(|(n, c)| entry(n, *c)).collect();
    let backward: Vec<_> = configs.iter().rev().map(|(n, c)| entry(n, *c)).collect();
    let mut rotated = forward.clone();
    rotated.rotate_left(2);
    let a = Accounts::from_entries(&forward);
    let b = Accounts::from_entries(&backward);
    let c = Accounts::from_entries(&rotated);
    assert_eq!(a.0, b.0);
    assert_eq!(a.0, c.0);
    assert_eq!(names(&a), vec!["gamma", "delta", "beta", "alpha"]);
}

#[test]
fn one_account_per_entry() {
    let entries: Vec<_> = (0..25).map(|i| entry(&format!("account{:02}", i), no_backend(None))).collect();
    let accounts = Accounts::from_entries(&entries);
    assert_eq!(accounts.len(), 25);
    for (i, a) in accounts.iter().enumerate() {
        assert_eq!(a.name, format!("account{:02}", 24 - i));
    }
}

#[test]
fn empty_mapping_gives_empty_collection() {
    let accounts = Accounts::from_entries(&Vec::new());
    assert!(accounts.is_empty());
    assert!(Accounts::default().is_empty());
}

#[test]
fn no_backend_is_none_and_not_default() {
    for default in [None, Some(false), Some(true)] {
        let a = Account::from_config("x", &no_backend(default));
        assert_eq!(a, account("x", "none", false));
    }
}

#[test]
fn backend_labels() {
    let cases = [
        (DeserializedAccountConfig::Imap(backend(None)), "imap"),
        (DeserializedAccountConfig::Maildir(backend(None)), "maildir"),
        (DeserializedAccountConfig::Notmuch(backend(None)), "notmuch"),
        (no_backend(None), "none"),
    ];
    for (config, label) in cases {
        assert_eq!(Account::from_config("acc", &config).backend, label);
    }
}

#[test]
fn default_flag_passthrough() {
    let set = Account::from_config("a", &DeserializedAccountConfig::Maildir(backend(Some(true))));
    assert!(set.is_default);
    let unset = Account::from_config("a", &DeserializedAccountConfig::Notmuch(backend(None)));
    assert!(!unset.is_default);
    let cleared = Account::from_config("a", &DeserializedAccountConfig::Imap(backend(Some(false))));
    assert!(!cleared.is_default);
}

#[test]
fn lexicographic_edge_cases() {
    let entries = vec![
        entry("a", no_backend(None)),
        entry("ab", no_backend(None)),
        entry("B", no_backend(None)),
        entry("", no_backend(None)),
        entry("\u{e9}t\u{e9}", no_backend(None)),
        entry("z", no_backend(None)),
    ];
    let accounts = Accounts::from_entries(&entries);
    assert_eq!(names(&accounts), vec!["\u{e9}t\u{e9}", "z", "ab", "a", "B", ""]);
}

#[test]
fn print_table_frames_renderer_output() {
    let accounts = Accounts::from_entries(&vec![entry("work", no_backend(None))]);
    let mut out = String::from("before");
    let r: Result<(), String> = accounts.print_table(&mut out, |a: &Accounts| Ok(format!("TABLE {}", a.len())));
    assert_eq!(r, Ok(()));
    assert_eq!(out, "before\nTABLE 1\n");
}

#[test]
fn print_table_empty_collection() {
    let accounts = Accounts::from_entries(&Vec::new());
    let mut out = String::new();
    let r: Result<(), String> = accounts.print_table(&mut out, |_: &Accounts| Ok(String::new()));
    assert_eq!(r, Ok(()));
    assert_eq!(out, "\n\n");
}

#[test]
fn print_table_propagates_renderer_error() {
    let accounts = Accounts::from_entries(&vec![entry("work", no_backend(None))]);
    let mut out = String::new();
    let r: Result<(), String> = accounts.print_table(&mut out, |_: &Accounts| Err("sink refused".to_string()));
    assert_eq!(r, Err("sink refused".to_string()));
    assert_eq!(out, "\n");
}

#[test]
fn account_cells() {
    let cells = account("home", "imap", true).cells();
    assert_eq!(
        cells,
        vec![
            ("name".to_string(), "home".to_string()),
            ("backend".to_string(), "imap".to_string()),
            ("is_default".to_string(), "true".to_string()),
        ]
    );
    assert_eq!(account("w", "none", false).cells()[2].1, "false");
}

#[test]
fn account_new_keeps_fields() {
    assert_eq!(Account::new("n", "maildir", true), account("n", "maildir", true));
}

#[test]
fn comparator_puts_greater_name_first() {
    let a = account("a", "none", false);
    let b = account("b", "none", false);
    assert!(precedes(&b, &a));
    assert!(!precedes(&a, &b));
    assert!(!precedes(&a, &a));
    assert!(name_lt("abc", "abd"));
    assert!(name_lt("ab", "abc"));
    assert!(!name_lt("abc", "ab"));
    assert!(!name_lt("same", "same"));
    assert!(name_lt("Z", "a"));
}
