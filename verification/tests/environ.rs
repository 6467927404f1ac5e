use procenv::{
    home_dir, remove_var, set_var, temp_dir, try_vars, var, var_os, vars, vars_os, EnvSnapshot,
    NativeString, Platform, VarError,
};

fn ns(s: &str) -> NativeString {
    NativeString::from_bytes(s.as_bytes().to_vec())
}

#[test]
fn var_on_absent_key_is_not_present() {
    let env = EnvSnapshot::new();
    assert_eq!(var(&env, &ns("DEFINITELY_UNSET_XYZ")), Err(VarError::NotPresent));
    assert_eq!(var_os(&env, &ns("DEFINITELY_UNSET_XYZ")), None);
}

#[test]
fn set_then_get_then_remove() {
    let mut env = EnvSnapshot::new();
    set_var(&mut env, &ns("K"), &ns("V"));
    assert_eq!(var(&env, &ns("K")), Ok("V".to_string()));
    remove_var(&mut env, &ns("K"));
    assert_eq!(var(&env, &ns("K")), Err(VarError::NotPresent));
}

#[test]
fn set_replaces_earlier_value() {
    let mut env = EnvSnapshot::new();
    set_var(&mut env, &ns("K"), &ns("first"));
    set_var(&mut env, &ns("K"), &ns("second"));
    assert_eq!(var(&env, &ns("K")), Ok("second".to_string()));
    assert_eq!(env.len(), 1);
}

#[test]
fn set_leaves_other_keys_alone() {
    let mut env = EnvSnapshot::new();
    set_var(&mut env, &ns("A"), &ns("1"));
    set_var(&mut env, &ns("B"), &ns("2"));
    remove_var(&mut env, &ns("A"));
    assert_eq!(var(&env, &ns("A")), Err(VarError::NotPresent));
    assert_eq!(var(&env, &ns("B")), Ok("2".to_string()));
}

#[test]
fn var_on_non_unicode_value_reports_the_raw_bytes() {
    let mut env = EnvSnapshot::new();
    let raw = NativeString::from_bytes(vec![0xff, 0xfe, 0x41]);
    set_var(&mut env, &ns("BIN"), &raw);
    match var(&env, &ns("BIN")) {
        Err(VarError::NotUnicode(n)) => assert_eq!(n.into_bytes(), vec![0xff, 0xfe, 0x41]),
        other => panic!("expected NotUnicode, got {:?}", other),
    }
    let got = var_os(&env, &ns("BIN")).unwrap();
    assert_eq!(got.into_bytes(), vec![0xff, 0xfe, 0x41]);
}

#[test]
fn var_error_descriptions() {
    assert_eq!(VarError::NotPresent.description(), "environment variable not found");
    assert_eq!(
        VarError::NotUnicode(ns("x")).description(),
        "environment variable was not valid unicode"
    );
}

#[test]
fn vars_os_enumerates_the_snapshot() {
    let mut env = EnvSnapshot::new();
    set_var(&mut env, &ns("A"), &ns("1"));
    set_var(&mut env, &ns("B"), &ns("2"));
    let mut it = vars_os(&env);
    assert_eq!(it.size_hint(), (2, Some(2)));
    let mut got: Vec<(String, String)> = Vec::new();
    while let Some((k, v)) = it.next() {
        got.push((k.into_string().unwrap(), v.into_string().unwrap()));
    }
    got.sort();
    assert_eq!(
        got,
        vec![("A".to_string(), "1".to_string()), ("B".to_string(), "2".to_string())]
    );
}

#[test]
fn vars_decodes_the_snapshot() {
    let mut env = EnvSnapshot::new();
    set_var(&mut env, &ns("A"), &ns("1"));
    let mut it = vars(&env);
    assert_eq!(it.next(), Some(("A".to_string(), "1".to_string())));
    assert_eq!(it.next(), None);
}

#[test]
fn try_vars_fails_on_non_unicode() {
    let mut env = EnvSnapshot::new();
    set_var(&mut env, &ns("A"), &NativeString::from_bytes(vec![0xff]));
    assert!(try_vars(&env).is_none());
    let mut ok = EnvSnapshot::new();
    set_var(&mut ok, &ns("A"), &ns("1"));
    assert!(try_vars(&ok).is_some());
}

#[test]
fn home_dir_prefers_the_home_variable() {
    let mut env = EnvSnapshot::new();
    set_var(&mut env, &ns("HOME"), &ns("/home/u"));
    let got = home_dir(&env, Platform::Posix, None).unwrap();
    assert_eq!(got.into_string().unwrap(), "/home/u");
}

#[test]
fn home_dir_falls_back_when_home_is_empty_or_unset() {
    let mut env = EnvSnapshot::new();
    set_var(&mut env, &ns("HOME"), &ns(""));
    let got = home_dir(&env, Platform::Posix, Some(ns("/fallback"))).unwrap();
    assert_eq!(got.into_string().unwrap(), "/fallback");
    let none = home_dir(&EnvSnapshot::new(), Platform::Posix, None);
    assert!(none.is_none());
}

#[test]
fn home_dir_on_windows_tries_userprofile() {
    let mut env = EnvSnapshot::new();
    set_var(&mut env, &ns("USERPROFILE"), &ns(r"c:\Users\u"));
    let got = home_dir(&env, Platform::Windows, None).unwrap();
    assert_eq!(got.into_string().unwrap(), r"c:\Users\u");
}

#[test]
fn temp_dir_resolution_order() {
    let mut env = EnvSnapshot::new();
    set_var(&mut env, &ns("TMPDIR"), &ns("/var/tmp"));
    let got = temp_dir(&env, Platform::Posix, ns("/tmp"));
    assert_eq!(got.into_string().unwrap(), "/var/tmp");
    let fb = temp_dir(&EnvSnapshot::new(), Platform::Posix, ns("/tmp"));
    assert_eq!(fb.into_string().unwrap(), "/tmp");

    let mut wenv = EnvSnapshot::new();
    set_var(&mut wenv, &ns("TEMP"), &ns(r"c:\t"));
    set_var(&mut wenv, &ns("USERPROFILE"), &ns(r"c:\u"));
    let wgot = temp_dir(&wenv, Platform::Windows, ns(r"c:\windows"));
    assert_eq!(wgot.into_string().unwrap(), r"c:\t");
    let wfb = temp_dir(&EnvSnapshot::new(), Platform::Windows, ns(r"c:\windows"));
    assert_eq!(wfb.into_string().unwrap(), r"c:\windows");
}
