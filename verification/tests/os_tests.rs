use pypackage::error::ParseError;
use pypackage::os::{has_word, os_from_tag, os_from_wheel_fname, Os};

#[test]
fn reads_each_platform_tag() {
    assert_eq!(Os::from_str("manylinux1_i686"), Ok(Os::Linux32));
    assert_eq!(Os::from_str("manylinux1_x86_64"), Ok(Os::Linux));
    assert_eq!(Os::from_str("win32"), Ok(Os::Windows32));
    assert_eq!(Os::from_str("win_amd64"), Ok(Os::Windows));
    assert_eq!(Os::from_str("darwin"), Ok(Os::Mac));
    assert_eq!(Os::from_str("any"), Ok(Os::Any));
    assert_eq!(Os::from_str("macosx_10_9_x86_64"), Ok(Os::Mac));
    assert_eq!(Os::from_str("xmacy"), Ok(Os::Mac));
}

#[test]
fn rejects_unknown_platform_tags() {
    for text in ["", "linux", "Any", "win64", "manylinux2010_x86_64", "ma", "m-a-c"] {
        assert_eq!(Os::from_str(text), Err(ParseError::Os), "{}", text);
    }
}

#[test]
fn finds_words_anywhere() {
    let hay: Vec<char> = "intel_mac".chars().collect();
    let mac: Vec<char> = "mac".chars().collect();
    let lin: Vec<char> = "lin".chars().collect();
    assert!(has_word(&hay, &mac));
    assert!(!has_word(&hay, &lin));
    assert!(has_word(&hay, &Vec::new()));
    assert!(!has_word(&Vec::new(), &mac));
}

#[test]
fn reads_the_platform_of_a_wheel() {
    assert_eq!(os_from_wheel_fname("numpy-1.17.0-cp37-cp37m-manylinux1_x86_64.whl"), Ok(Os::Linux));
    assert_eq!(os_from_wheel_fname("numpy-1.17.0-cp37-cp37m-win32.whl"), Ok(Os::Windows32));
    assert_eq!(os_from_wheel_fname("requests-2.22.0-py2.py3-none-any.whl"), Ok(Os::Any));
    assert_eq!(
        os_from_wheel_fname("PyQt5-5.13.0-5.13.0-cp35.cp36.cp37.cp38-none-win_amd64.whl"),
        Ok(Os::Windows)
    );
    assert_eq!(
        os_from_wheel_fname("numpy-1.17.0-cp37-cp37m-macosx_10_6_intel.whl"),
        Ok(Os::Mac)
    );
}

#[test]
fn rejects_file_names_that_are_no_wheels() {
    assert_eq!(os_from_wheel_fname("numpy-1.17.0.tar.gz"), Err(ParseError::WheelName));
    assert_eq!(os_from_wheel_fname("numpy.whl"), Err(ParseError::WheelName));
    assert_eq!(os_from_wheel_fname(""), Err(ParseError::WheelName));
    assert_eq!(os_from_wheel_fname("numpy-1.17.0-cp37-cp37m-solaris.whl"), Err(ParseError::Os));
}

#[test]
fn platform_from_a_found_tag() {
    assert_eq!(os_from_tag(Some("win32".to_string())), Ok(Os::Windows32));
    assert_eq!(os_from_tag(Some("beos".to_string())), Err(ParseError::Os));
    assert_eq!(os_from_tag(None), Err(ParseError::WheelName));
}

#[test]
fn a_wheel_serves_its_platform_and_any_serves_all() {
    assert!(Os::Linux.is_usable_on(Os::Linux));
    assert!(Os::Any.is_usable_on(Os::Windows));
    assert!(!Os::Windows.is_usable_on(Os::Linux));
    assert!(!Os::Linux32.is_usable_on(Os::Linux));
    assert!(!Os::Linux.is_usable_on(Os::Any));
}
