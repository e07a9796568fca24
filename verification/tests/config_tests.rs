use notify::config::{
    interpret_choice, missing_server_fields, parse_legacy, password_source, Config,
    PasswordSource, ServerField, UserChoice,
};
use notify::host::{hostname_or_unknown, is_generic_hostname};

#[test]
fn upsert_adds_a_new_user() {
    let mut cfg = Config::new();
    cfg.upsert_user("john", "john@example.com");
    assert_eq!(cfg.users.len(), 1);
    assert_eq!(cfg.users[0].name, "john");
    assert_eq!(cfg.users[0].email, "john@example.com");
}

#[test]
fn upsert_updates_the_first_match_and_keeps_the_rest() {
    let mut cfg = Config::new();
    cfg.upsert_user("a", "a@x");
    cfg.upsert_user("b", "b@x");
    cfg.upsert_user("a", "new@x");
    assert_eq!(cfg.users.len(), 2);
    assert_eq!(cfg.users[0].name, "a");
    assert_eq!(cfg.users[0].email, "new@x");
    assert_eq!(cfg.users[1].email, "b@x");
}

#[test]
fn missing_fields_of_an_empty_config() {
    let cfg = Config::new();
    let missing = missing_server_fields(&cfg);
    assert_eq!(
        missing,
        vec![
            ServerField::Server,
            ServerField::Port,
            ServerField::FromAddress,
            ServerField::Password
        ]
    );
}

#[test]
fn password_env_counts_as_a_password() {
    let mut cfg = Config::new();
    cfg.server.server = Some("smtp.example.com".to_string());
    cfg.server.password_env = Some("NOTIFY_PASSWORD".to_string());
    let missing = missing_server_fields(&cfg);
    assert_eq!(missing, vec![ServerField::Port, ServerField::FromAddress]);
}

#[test]
fn password_env_takes_precedence() {
    let mut cfg = Config::new();
    cfg.server.password = Some("literal".to_string());
    cfg.server.password_env = Some("VAR".to_string());
    match password_source(&cfg) {
        PasswordSource::EnvVar(v) => assert_eq!(v, "VAR"),
        _ => panic!("expected the environment variable"),
    }
    cfg.server.password_env = None;
    match password_source(&cfg) {
        PasswordSource::Literal(v) => assert_eq!(v, "literal"),
        _ => panic!("expected the literal"),
    }
    cfg.server.password = None;
    assert!(matches!(password_source(&cfg), PasswordSource::Missing));
}

#[test]
fn choice_q_quits_and_a_adds() {
    assert_eq!(interpret_choice("q", 3), UserChoice::Quit);
    assert_eq!(interpret_choice("a", 3), UserChoice::Add);
}

#[test]
fn choice_numbers_pick_one_based() {
    assert_eq!(interpret_choice("1", 3), UserChoice::Pick(0));
    assert_eq!(interpret_choice("3", 3), UserChoice::Pick(2));
    assert_eq!(interpret_choice("+2", 3), UserChoice::Pick(1));
}

#[test]
fn choice_out_of_range_or_malformed_is_invalid() {
    assert_eq!(interpret_choice("0", 3), UserChoice::Invalid);
    assert_eq!(interpret_choice("4", 3), UserChoice::Invalid);
    assert_eq!(interpret_choice("", 3), UserChoice::Invalid);
    assert_eq!(interpret_choice("x", 3), UserChoice::Invalid);
    assert_eq!(interpret_choice("1 ", 3), UserChoice::Invalid);
    assert_eq!(interpret_choice("99999999999999999999999999", 3), UserChoice::Invalid);
}

#[test]
fn legacy_parse_reads_keys_and_users() {
    let content = "# comment\n\nserver smtp.example.com\nport 587\nfrom_address me@x.com\npassword hunter2\nuser\tjohn\tjohn@x.com\n";
    let cfg = parse_legacy(content);
    assert_eq!(cfg.server.server.as_deref(), Some("smtp.example.com"));
    assert_eq!(cfg.server.port, Some(587));
    assert_eq!(cfg.server.from_address.as_deref(), Some("me@x.com"));
    assert_eq!(cfg.server.password.as_deref(), Some("hunter2"));
    assert!(cfg.server.password_env.is_none());
    assert_eq!(cfg.users.len(), 1);
    assert_eq!(cfg.users[0].name, "john");
    assert_eq!(cfg.users[0].email, "john@x.com");
}

#[test]
fn legacy_parse_skips_malformed_lines() {
    let content = "justakey\nuser\tonlyname\nserver a.b\nserver c.d\n  port  465  \n";
    let cfg = parse_legacy(content);
    // a later line overrides an earlier one
    assert_eq!(cfg.server.server.as_deref(), Some("c.d"));
    assert_eq!(cfg.server.port, Some(465));
    // a user line needs exactly three tab-separated parts
    assert!(cfg.users.is_empty());
}

#[test]
fn legacy_parse_bad_port_clears_it() {
    let cfg = parse_legacy("port 587\nport notanumber\n");
    assert_eq!(cfg.server.port, None);
    let cfg2 = parse_legacy("port 99999\n");
    assert_eq!(cfg2.server.port, None);
}

#[test]
fn legacy_parse_of_nothing_is_empty() {
    let cfg = parse_legacy("");
    assert!(cfg.server.server.is_none());
    assert!(cfg.users.is_empty());
}

#[test]
fn generic_hostnames_are_recognised() {
    assert!(is_generic_hostname("Mac"));
    assert!(is_generic_hostname("MACBOOK"));
    assert!(is_generic_hostname("abcd"));
    assert!(!is_generic_hostname("workstation-07"));
    assert!(!is_generic_hostname("macbook-pro"));
}

#[test]
fn unknown_stands_in_for_a_missing_hostname() {
    assert_eq!(hostname_or_unknown(None), "unknown");
    assert_eq!(hostname_or_unknown(Some("box".to_string())), "box");
    // the live resolution returns without failing
    let _ = notify::host::descriptive_hostname();
}
