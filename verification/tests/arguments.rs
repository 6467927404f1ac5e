use procenv::{args, args_os, try_args, NativeString};

fn ns(s: &str) -> NativeString {
    NativeString::from_bytes(s.as_bytes().to_vec())
}

#[test]
fn args_os_len_matches_the_exact_size_contract() {
    let it = args_os(vec![ns("prog"), ns("a"), ns("b")]);
    assert_eq!(it.len(), 3);
    assert_eq!(it.size_hint(), (3, Some(3)));
    assert!(!it.is_empty());
    assert!(args_os(vec![]).is_empty());
}

#[test]
fn args_os_reverse_iteration_yields_forward_elements_reversed() {
    let mut fwd = args_os(vec![ns("prog"), ns("a"), ns("b")]);
    let mut fwd_items: Vec<Vec<u8>> = Vec::new();
    while let Some(x) = fwd.next() {
        fwd_items.push(x.into_bytes());
    }
    let mut bwd = args_os(vec![ns("prog"), ns("a"), ns("b")]);
    let mut bwd_items: Vec<Vec<u8>> = Vec::new();
    while let Some(x) = bwd.next_back() {
        bwd_items.push(x.into_bytes());
    }
    let mut reversed = fwd_items.clone();
    reversed.reverse();
    assert_eq!(bwd_items, reversed);
    assert_eq!(fwd_items.len(), 3);
}

#[test]
fn args_os_can_be_consumed_from_both_ends() {
    let mut it = args_os(vec![ns("prog"), ns("a"), ns("b")]);
    assert_eq!(it.next().unwrap().into_bytes(), b"prog".to_vec());
    assert_eq!(it.next_back().unwrap().into_bytes(), b"b".to_vec());
    assert_eq!(it.len(), 1);
    assert_eq!(it.next().unwrap().into_bytes(), b"a".to_vec());
    assert_eq!(it.next(), None);
    assert_eq!(it.next_back(), None);
}

#[test]
fn args_decodes_every_argument() {
    let raw = args_os(vec![ns("prog"), ns("héllo")]);
    let mut it = args(&raw);
    assert_eq!(it.next(), Some("prog".to_string()));
    assert_eq!(it.next_back(), Some("héllo".to_string()));
    assert_eq!(it.next(), None);
}

#[test]
fn try_args_fails_on_non_unicode() {
    let raw = args_os(vec![ns("prog"), NativeString::from_bytes(vec![0xff])]);
    assert!(try_args(&raw).is_none());
    let ok = args_os(vec![ns("prog")]);
    let mut it = try_args(&ok).unwrap();
    assert_eq!(it.len(), 1);
    assert_eq!(it.next(), Some("prog".to_string()));
}
