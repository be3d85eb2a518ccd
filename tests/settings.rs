use pochta::auth::{auth_string, xoauth2_bytes};
use pochta::flag::{FlagError, Flags};
use pochta::profile::{profile_expect_bool, profile_expect_str, Profile, ProfileError, ProfileValue};

fn args(a: &[&str]) -> Vec<String> {
    a.iter().map(|s| s.to_string()).collect()
}

#[test]
fn xoauth2_string() {
    assert_eq!(xoauth2_bytes(b"a@b.c", b"tok"), b"user=a@b.c\x01auth=Bearer tok\x01\x01".to_vec());
    assert_eq!(auth_string(b"a@b.c", b"tok"), b"dXNlcj1hQGIuYwFhdXRoPUJlYXJlciB0b2sBAQ==".to_vec());
}

fn sample_profile() -> Profile {
    let mut p = Profile::new();
    p.insert("email".to_string(), ProfileValue::Str("me@example.com".to_string()));
    p.insert("client_id".to_string(), ProfileValue::Str(String::new()));
    p.insert("use_history_file".to_string(), ProfileValue::Bool(true));
    p.insert("prompt_color".to_string(), ProfileValue::Other);
    p
}

#[test]
fn profile_strings() {
    let p = sample_profile();
    assert_eq!(profile_expect_str(&p, "email").unwrap(), "me@example.com");
    assert!(matches!(profile_expect_str(&p, "client_id"), Err(ProfileError::Empty)));
    assert!(matches!(profile_expect_str(&p, "use_history_file"), Err(ProfileError::NotString)));
    assert!(matches!(profile_expect_str(&p, "prompt_color"), Err(ProfileError::NotString)));
    assert!(matches!(profile_expect_str(&p, "refresh_token"), Err(ProfileError::Missing)));
}

#[test]
fn profile_bools() {
    let p = sample_profile();
    assert_eq!(profile_expect_bool(&p, "use_history_file"), Ok(true));
    assert_eq!(profile_expect_bool(&p, "email"), Err(ProfileError::NotBool));
    assert_eq!(profile_expect_bool(&p, "nothing"), Err(ProfileError::Missing));
}

#[test]
fn profile_insert_replaces() {
    let mut p = sample_profile();
    p.insert("email".to_string(), ProfileValue::Str("other@example.com".to_string()));
    assert_eq!(profile_expect_str(&p, "email").unwrap(), "other@example.com");
    assert_eq!(profile_expect_bool(&p, "use_history_file"), Ok(true));
}

#[test]
fn flags_parse_and_take() {
    let mut f = Flags::parse(args(&["-smtp", "-p", "work"])).unwrap();
    assert_eq!(f.flag_bool("help", "Print this help", false).unwrap(), false);
    assert_eq!(f.flag_bool("smtp", "Use the submission server", false).unwrap(), true);
    assert_eq!(f.flag_str("p", "Use this profile", "").unwrap(), "work");
    assert_eq!(f.flag_str("new-profile", "Create new profile", "none").unwrap(), "none");
    assert!(f.check().is_ok());
    assert_eq!(f.defined().len(), 4);
    assert_eq!(f.defined()[2].name, "p");
}

#[test]
fn flags_refuse_bare_value() {
    match Flags::parse(args(&["work"])) {
        Err(FlagError::NameExpected(a)) => assert_eq!(a, "work"),
        _ => panic!("expected an error"),
    }
    match Flags::parse(args(&["-p", "a", "b"])) {
        Err(FlagError::NameExpected(a)) => assert_eq!(a, "b"),
        _ => panic!("expected an error"),
    }
}

#[test]
fn flags_value_errors() {
    let mut f = Flags::parse(args(&["-help", "yes", "-p"])).unwrap();
    assert!(matches!(f.flag_bool("help", "Print this help", false), Err(FlagError::TakesNoValue)));
    assert!(matches!(f.flag_str("p", "Use this profile", ""), Err(FlagError::ExpectsValue)));
    assert!(f.check().is_ok());
}

#[test]
fn flags_unknown_left_over() {
    let mut f = Flags::parse(args(&["-x", "-y", "1"])).unwrap();
    assert_eq!(f.flag_bool("help", "Print this help", false).unwrap(), false);
    assert_eq!(f.check().unwrap_err(), vec!["x".to_string(), "y".to_string()]);
}

#[test]
fn flags_empty() {
    let f = Flags::parse(Vec::new()).unwrap();
    assert!(f.check().is_ok());
}
