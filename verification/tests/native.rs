use procenv::{
    arch, dll_extension, dll_prefix, dll_suffix, exe_extension, exe_suffix, family, os,
    NativeString, Platform, TargetInfo,
};

#[test]
fn native_string_round_trips_bytes() {
    let n = NativeString::from_bytes(vec![0, 1, 0xff, 0x41]);
    assert_eq!(n.len(), 4);
    assert!(!n.is_empty());
    assert_eq!(n.into_bytes(), vec![0, 1, 0xff, 0x41]);
}

#[test]
fn native_string_unicode_conversions() {
    let n = NativeString::from_str("héllo");
    assert!(n.is_unicode());
    assert_eq!(n.clone().into_string().unwrap(), "héllo".to_string());
    assert_eq!(n.into_bytes(), "héllo".as_bytes().to_vec());

    let bad = NativeString::from_bytes(vec![0xff, 0xfe]);
    assert!(!bad.is_unicode());
    let back = bad.into_string().unwrap_err();
    assert_eq!(back.into_bytes(), vec![0xff, 0xfe]);
}

#[test]
fn native_string_equality_is_by_bytes() {
    let a = NativeString::from_str("abc");
    let b = NativeString::from_bytes(vec![0x61, 0x62, 0x63]);
    assert!(a.eq_bytes(&b));
    assert!(!a.eq_bytes(&NativeString::from_str("abd")));
    assert!(!a.eq_bytes(&NativeString::from_str("ab")));
}

#[test]
fn platform_conventions() {
    assert_eq!(Platform::Posix.separator(), b':');
    assert_eq!(Platform::Windows.separator(), b';');
    assert_eq!(Platform::Posix.quote(), None);
    assert_eq!(Platform::Windows.quote(), Some(b'"'));
}

#[test]
fn target_constants_are_plain_lookups() {
    let t = TargetInfo {
        arch: "x86_64",
        family: "unix",
        os: "linux",
        dll_prefix: "lib",
        dll_suffix: ".so",
        dll_extension: "so",
        exe_suffix: "",
        exe_extension: "",
    };
    assert_eq!(arch(&t), "x86_64");
    assert_eq!(family(&t), "unix");
    assert_eq!(os(&t), "linux");
    assert_eq!(dll_prefix(&t), "lib");
    assert_eq!(dll_suffix(&t), ".so");
    assert_eq!(dll_extension(&t), "so");
    assert_eq!(exe_suffix(&t), "");
    assert_eq!(exe_extension(&t), "");
}
