use procenv::{join_paths, split_paths, NativeString, Platform};

fn ns(s: &str) -> NativeString {
    NativeString::from_bytes(s.as_bytes().to_vec())
}

fn parse(unparsed: &str, platform: Platform) -> Vec<String> {
    let mut it = split_paths(&ns(unparsed), platform);
    let mut out: Vec<String> = Vec::new();
    while let Some(p) = it.next() {
        out.push(p.into_string().unwrap());
    }
    out
}

fn check_parse(unparsed: &str, parsed: &[&str], platform: Platform) -> bool {
    let got = parse(unparsed, platform);
    let want: Vec<String> = parsed.iter().map(|s| s.to_string()).collect();
    got == want
}

fn join(paths: &[&str], platform: Platform) -> Result<String, usize> {
    let v: Vec<NativeString> = paths.iter().map(|s| ns(s)).collect();
    match join_paths(&v, platform) {
        Ok(n) => Ok(n.into_string().unwrap()),
        Err(e) => Err(e.index),
    }
}

#[test]
fn split_paths_windows() {
    assert!(check_parse("", &[""], Platform::Windows));
    assert!(check_parse(r#""""#, &[""], Platform::Windows));
    assert!(check_parse(";;", &["", "", ""], Platform::Windows));
    assert!(check_parse(r"c:\", &[r"c:\"], Platform::Windows));
    assert!(check_parse(r"c:\;", &[r"c:\", ""], Platform::Windows));
    assert!(check_parse(r"c:\;c:\Program Files\", &[r"c:\", r"c:\Program Files\"], Platform::Windows));
    assert!(check_parse(r#"c:\;c:\"foo"\"#, &[r"c:\", r"c:\foo\"], Platform::Windows));
    assert!(check_parse(
        r#"c:\;c:\"foo;bar"\;c:\baz"#,
        &[r"c:\", r"c:\foo;bar\", r"c:\baz"],
        Platform::Windows,
    ));
}

#[test]
fn split_paths_unix() {
    assert!(check_parse("", &[""], Platform::Posix));
    assert!(check_parse("::", &["", "", ""], Platform::Posix));
    assert!(check_parse("/", &["/"], Platform::Posix));
    assert!(check_parse("/:", &["/", ""], Platform::Posix));
    assert!(check_parse("/:/usr/local", &["/", "/usr/local"], Platform::Posix));
}

#[test]
fn join_paths_unix() {
    assert!(join(&[], Platform::Posix) == Ok(String::new()));
    assert!(
        join(&["/bin", "/usr/bin", "/usr/local/bin"], Platform::Posix)
            == Ok("/bin:/usr/bin:/usr/local/bin".to_string())
    );
    assert!(
        join(&["", "/bin", "", "", "/usr/bin", ""], Platform::Posix)
            == Ok(":/bin:::/usr/bin:".to_string())
    );
    assert!(join(&["/te:st"], Platform::Posix).is_err());
}

#[test]
fn join_paths_windows() {
    assert!(join(&[], Platform::Windows) == Ok(String::new()));
    assert!(join(&[r"c:\windows", r"c:\"], Platform::Windows) == Ok(r"c:\windows;c:\".to_string()));
    assert!(
        join(&["", r"c:\windows", "", "", r"c:\", ""], Platform::Windows)
            == Ok(r";c:\windows;;;c:\;".to_string())
    );
    assert!(
        join(&[r"c:\te;st", r"c:\"], Platform::Windows) == Ok(r#""c:\te;st";c:\"#.to_string())
    );
    assert!(join(&[r#"c:\te"st"#], Platform::Windows).is_err());
}

#[test]
fn split_empty_yields_one_empty_path_on_all_platforms() {
    assert_eq!(parse("", Platform::Posix), vec![String::new()]);
    assert_eq!(parse("", Platform::Windows), vec![String::new()]);
}

#[test]
fn join_error_names_earliest_offending_path() {
    assert_eq!(join(&["/bin", "/te:st", "/x:y"], Platform::Posix), Err(1));
    assert_eq!(join(&[r"c:\ok", r#"a"b"#, r#"c"d"#], Platform::Windows), Err(1));
}

#[test]
fn join_quotes_only_paths_holding_the_separator() {
    assert_eq!(
        join(&[r"c:\a", r"c:\b;c", r"c:\d"], Platform::Windows),
        Ok(r#"c:\a;"c:\b;c";c:\d"#.to_string())
    );
}

#[test]
fn split_tolerates_unmatched_quote() {
    assert_eq!(parse(r#""a;b"#, Platform::Windows), vec!["a;b".to_string()]);
}

#[test]
fn round_trip_concrete_lists() {
    let cases_posix: Vec<Vec<&str>> = vec![
        vec![""],
        vec!["/bin", "/usr/bin"],
        vec!["", "/bin", "", "", "/usr/bin", ""],
    ];
    for case in cases_posix {
        let v: Vec<NativeString> = case.iter().map(|s| ns(s)).collect();
        let joined = join_paths(&v, Platform::Posix).unwrap();
        let mut it = split_paths(&joined, Platform::Posix);
        let mut got: Vec<String> = Vec::new();
        while let Some(p) = it.next() {
            got.push(p.into_string().unwrap());
        }
        let want: Vec<String> = case.iter().map(|s| s.to_string()).collect();
        assert_eq!(got, want);
    }
    let cases_windows: Vec<Vec<&str>> = vec![
        vec![""],
        vec![r"c:\te;st", r"c:\"],
        vec!["", r"c:\windows", "", "", r"c:\", ""],
        vec![r"a;b", ";", "plain"],
    ];
    for case in cases_windows {
        let v: Vec<NativeString> = case.iter().map(|s| ns(s)).collect();
        let joined = join_paths(&v, Platform::Windows).unwrap();
        let mut it = split_paths(&joined, Platform::Windows);
        let mut got: Vec<String> = Vec::new();
        while let Some(p) = it.next() {
            got.push(p.into_string().unwrap());
        }
        let want: Vec<String> = case.iter().map(|s| s.to_string()).collect();
        assert_eq!(got, want);
    }
}

#[test]
fn split_paths_size_hint_is_exact() {
    let mut it = split_paths(&ns("a:b:c"), Platform::Posix);
    assert_eq!(it.size_hint(), (3, Some(3)));
    it.next();
    assert_eq!(it.size_hint(), (2, Some(2)));
}

#[test]
fn join_paths_error_description() {
    let v = vec![ns("/te:st")];
    let e = join_paths(&v, Platform::Posix).unwrap_err();
    assert_eq!(e.description(), "failed to join paths");
    assert_eq!(e.index, 0);
}
