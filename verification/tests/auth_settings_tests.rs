use pos_core::settings::find_printers;
use pos_core::settings::StoreSettings;
use pos_core::store::Store;
use pos_core::StoreError;

#[test]
fn admin_logs_in_with_default_credential_after_init() {
    let mut store = Store::new();
    store.init_db().unwrap();
    assert_eq!(store.login("admin".to_string(), "admin".to_string()), Ok(true));
    assert_eq!(store.login("admin".to_string(), "wrong".to_string()), Ok(false));
}

#[test]
fn init_db_is_idempotent() {
    let mut store = Store::new();
    store.init_db().unwrap();
    store.init_db().unwrap();
    store.set_password("admin".to_string(), "secret".to_string()).unwrap();
    store.init_db().unwrap();
    // A later run must not reseed the default credential.
    assert_eq!(store.login("admin".to_string(), "admin".to_string()), Ok(false));
    assert_eq!(store.login("admin".to_string(), "secret".to_string()), Ok(true));
}

#[test]
fn unknown_user_login_is_false_not_an_error() {
    let mut store = Store::new();
    store.init_db().unwrap();
    assert_eq!(store.login("nobody".to_string(), "admin".to_string()), Ok(false));
}

#[test]
fn set_password_switches_which_password_verifies() {
    let mut store = Store::new();
    store.init_db().unwrap();
    store.set_password("admin".to_string(), "new-secret".to_string()).unwrap();
    assert_eq!(store.login("admin".to_string(), "admin".to_string()), Ok(false));
    assert_eq!(store.login("admin".to_string(), "new-secret".to_string()), Ok(true));
}

#[test]
fn set_password_for_missing_user_is_not_found() {
    let mut store = Store::new();
    store.init_db().unwrap();
    let r = store.set_password("nobody".to_string(), "pw".to_string());
    assert!(matches!(r, Err(StoreError::NotFound)));
}

#[test]
fn settings_default_until_saved() {
    let mut store = Store::new();
    let s = store.load_settings();
    assert_eq!(s.store_name, "Your Fabulous Store Name");
    assert_eq!(s.backup_frequency, "daily");
    assert!(s.show_logo);
    let changed = StoreSettings {
        store_name: "Corner Till".to_string(),
        store_address: "1 Main Street".to_string(),
        store_phone: "555-0100".to_string(),
        store_email: "till@example.com".to_string(),
        receipt_header: "Welcome".to_string(),
        receipt_footer: "Goodbye".to_string(),
        show_logo: false,
        backup_frequency: "weekly".to_string(),
        printer_model: "Epson TM-T88VI".to_string(),
    };
    store.save_settings(changed).unwrap();
    let s2 = store.load_settings();
    assert_eq!(s2.store_name, "Corner Till");
    assert_eq!(s2.store_address, "1 Main Street");
    assert_eq!(s2.store_phone, "555-0100");
    assert_eq!(s2.store_email, "till@example.com");
    assert_eq!(s2.receipt_header, "Welcome");
    assert_eq!(s2.receipt_footer, "Goodbye");
    assert!(!s2.show_logo);
    assert_eq!(s2.backup_frequency, "weekly");
    assert_eq!(s2.printer_model, "Epson TM-T88VI");
}

#[test]
fn saving_twice_keeps_the_last_value() {
    let mut store = Store::new();
    let mut s = store.load_settings();
    s.store_name = "First".to_string();
    store.save_settings(s).unwrap();
    let mut s2 = store.load_settings();
    s2.store_name = "Second".to_string();
    store.save_settings(s2).unwrap();
    assert_eq!(store.load_settings().store_name, "Second");
}

#[test]
fn printer_discovery_reports_three_models() {
    let printers = find_printers();
    assert_eq!(
        printers,
        vec![
            "Epson TM-T88VI".to_string(),
            "HP DeskJet 2700".to_string(),
            "Canon Pixma G2010".to_string(),
        ]
    );
}

#[test]
fn unparseable_stored_hash_is_a_validation_error() {
    let mut store = Store::new();
    store.init_db().unwrap();
    store.users[0].password_hash = "not-a-phc-string".to_string();
    let r = store.login("admin".to_string(), "admin".to_string());
    assert!(matches!(r, Err(StoreError::Validation)));
}

#[test]
fn init_db_seeds_only_an_empty_user_table() {
    // With any user already present, initialization must leave the
    // table exactly as it is: no admin row appears beside it.
    let mut store = Store::new();
    store.init_db().unwrap();
    store.set_password("admin".to_string(), "kept".to_string()).unwrap();
    let mut renamed = Store::new();
    renamed.users = store.users;
    renamed.users[0].username = "clerk".to_string();
    renamed.init_db().unwrap();
    assert_eq!(renamed.users.len(), 1);
    assert_eq!(renamed.users[0].username, "clerk");
    assert_eq!(renamed.login("admin".to_string(), "admin".to_string()), Ok(false));
    assert_eq!(renamed.login("clerk".to_string(), "kept".to_string()), Ok(true));
}
