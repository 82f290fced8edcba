use atm::dpkg::{
    extract_all_names, extract_name, key_name, key_value, list_installed, separator,
    single_line, single_package, ParseError,
};

#[test]
fn test_key_name() {
    let mut test = &b"name: value"[..];
    assert_eq!(key_name(&mut test), Ok(&b"name"[..]));
}

#[test]
fn test_seperator() {
    let mut test = &b": value"[..];
    let mut test_2 = &b": \tvalue"[..];
    assert_eq!(separator(&mut test), Ok(()));
    assert_eq!(separator(&mut test_2), Ok(()));
}

#[test]
fn test_single_line() {
    let mut test = &b"value\n"[..];
    let mut test_2 = &b"value\t\r\n"[..];
    let mut test_3 = &b"value \x23\xff\n"[..];
    assert_eq!(single_line(&mut test), Ok(&b"value"[..]));
    assert_eq!(single_line(&mut test_2), Ok(&b"value\t\r"[..]));
    assert_eq!(single_line(&mut test_3), Ok(&b"value \x23\xff"[..]));
}

#[test]
fn test_key_value() {
    let mut test = &b"name1: value\n"[..];
    let mut test_2 = &b"name2: value\t\r\n"[..];
    let mut test_3 = &b"name3: value \x23\xff\n"[..];
    assert_eq!(key_value(&mut test), Ok((&b"name1"[..], &b"value"[..])));
    assert_eq!(
        key_value(&mut test_2),
        Ok((&b"name2"[..], &b"value\t\r"[..]))
    );
    assert_eq!(
        key_value(&mut test_3),
        Ok((&b"name3"[..], &b"value \x23\xff"[..]))
    );
}

#[test]
fn test_package() {
    let record = &b"Package: zsync\nVersion: 0.6.2-1\nStatus: install ok installed\nArchitecture: amd64\nInstalled-Size: 256\n\n"[..];
    let mut test = record;
    assert_eq!(
        single_package(&mut test),
        Ok(vec![
            (&b"Package"[..], &b"zsync"[..]),
            (&b"Version"[..], &b"0.6.2-1"[..]),
            (&b"Status"[..], &b"install ok installed"[..]),
            (&b"Architecture"[..], &b"amd64"[..]),
            (&b"Installed-Size"[..], &b"256"[..])
        ])
    );
    // the record has been read: what is left is the line that ends it
    assert_eq!(test, &b"\n"[..]);
    let mut test = record;
    assert_eq!(extract_name(&mut test), Ok(&b"zsync"[..]));
}

#[test]
fn test_multi_package() {
    let mut test =
        &b"Package: zsync\nStatus: b\n\nPackage: rsync\nStatus: install ok installed\n\n"[..];
    assert_eq!(
        extract_all_names(&mut test),
        Ok(vec![&b""[..], &b"rsync"[..]])
    );
}

#[test]
fn key_name_rejects_empty_key_and_line_start() {
    let mut empty = &b": value"[..];
    assert_eq!(key_name(&mut empty), Err(ParseError));
    assert_eq!(empty, &b": value"[..]);
    let mut blank_line = &b"\nPackage: x"[..];
    assert_eq!(key_name(&mut blank_line), Err(ParseError));
    let mut no_colon = &b"name value"[..];
    assert_eq!(key_name(&mut no_colon), Err(ParseError));
}

#[test]
fn key_value_leaves_the_line_feed() {
    let mut test = &b"a:\t \tb c\nrest"[..];
    assert_eq!(key_value(&mut test), Ok((&b"a"[..], &b"b c"[..])));
    assert_eq!(test, &b"\nrest"[..]);
}

#[test]
fn single_line_needs_a_line_feed() {
    let mut test = &b"value"[..];
    assert_eq!(single_line(&mut test), Err(ParseError));
}

#[test]
fn single_package_needs_one_line() {
    let mut test = &b"\n"[..];
    assert_eq!(single_package(&mut test), Err(ParseError));
}

#[test]
fn extract_name_takes_package_before_install_status() {
    let mut test = &b"Status: install ok installed\nPackage: a\nStatus: deinstall ok\nPackage: b\nStatus: install ok installed\n\n"[..];
    assert_eq!(extract_name(&mut test), Ok(&b"b"[..]));
    let mut short = &b"Package: a\nStatus: install \n\n"[..];
    assert_eq!(extract_name(&mut short), Ok(&b""[..]));
}

#[test]
fn list_installed_dedups_and_skips_uninstalled() {
    let mut test = &b"Package: zsync\nStatus: install ok installed\n\nPackage: rsync\nStatus: deinstall ok config-files\n\nPackage: zsync\nStatus: install ok installed\n\nPackage: bash\nStatus: install ok installed\n\n"[..];
    let names = list_installed(&mut test).unwrap();
    assert_eq!(names, vec!["zsync".to_string(), "bash".to_string()]);
    assert!(test.is_empty());
}

#[test]
fn list_installed_replaces_invalid_utf8() {
    let mut test = &b"Package: a\xffb\nStatus: install ok installed\n\n"[..];
    let names = list_installed(&mut test).unwrap();
    assert_eq!(names, vec!["a\u{FFFD}b".to_string()]);
}

#[test]
fn list_installed_fails_on_garbage() {
    let mut test = &b"not a status file"[..];
    assert_eq!(list_installed(&mut test), Err(ParseError));
}
