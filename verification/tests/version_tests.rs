use pypackage::error::ParseError;
use pypackage::version::{Modifier, Version};

fn v(s: &str) -> Version {
    Version::from_str(s).unwrap()
}

#[test]
fn parses_dotted_numbers() {
    let a = v("1.2.3");
    assert_eq!(a.major, 1);
    assert_eq!(a.minor, Some(2));
    assert_eq!(a.patch, Some(3));
    assert_eq!(a.extra, None);
    assert_eq!(a.modifier, Modifier::Release);
    let b = v("10");
    assert_eq!(b.major, 10);
    assert_eq!(b.minor, None);
    assert_eq!(b.patch, None);
    let c = v("1.2.3.4");
    assert_eq!(c.extra, Some(4));
}

#[test]
fn parses_modifiers_in_every_spelling() {
    assert_eq!(v("1.0dev3").modifier, Modifier::Dev(3));
    assert_eq!(v("1.0a1").modifier, Modifier::Alpha(1));
    assert_eq!(v("1.0alpha1").modifier, Modifier::Alpha(1));
    assert_eq!(v("1.0b2").modifier, Modifier::Beta(2));
    assert_eq!(v("1.0beta2").modifier, Modifier::Beta(2));
    assert_eq!(v("1.0rc4").modifier, Modifier::Rc(4));
    assert_eq!(v("1.0c4").modifier, Modifier::Rc(4));
    assert_eq!(v("1.0post5").modifier, Modifier::Post(5));
    assert_eq!(v("1.0rc").modifier, Modifier::Rc(0));
}

#[test]
fn rejects_malformed_versions() {
    for text in ["", "abc", ".1", "1.", "1.x", "1.2.3.4.5", "1.0rcx", "1.0al", "1.0 ", "99999999999",
        "1.2.3.*", "1.*rc1", "1.0rc1.2", "1..2", "1.0-rc1"]
    {
        assert_eq!(Version::from_str(text), Err(ParseError::Version), "{}", text);
    }
}

#[test]
fn parses_interpreter_tags() {
    let a = v("cp37");
    assert_eq!((a.major, a.minor, a.patch), (3, Some(7), Some(0)));
    let b = Version::from_cp_str("py310").unwrap();
    assert_eq!((b.major, b.minor, b.patch), (3, Some(10), Some(0)));
    assert_eq!(Version::from_cp_str("py3"), Err(ParseError::Tag));
    assert_eq!(Version::from_cp_str("py2.py3"), Err(ParseError::Tag));
    assert_eq!(Version::from_cp_str("3.7"), Err(ParseError::Tag));
    assert_eq!(Version::from_cp_str("cp3x"), Err(ParseError::Tag));
}

#[test]
fn parses_wildcards_as_absent_components() {
    let a = v("1.*");
    assert_eq!((a.major, a.minor, a.patch), (1, None, None));
    let b = v("1.2.*");
    assert_eq!((b.major, b.minor, b.patch), (1, Some(2), None));
}

#[test]
fn renders_canonical_text() {
    assert_eq!(v("1.2.3").to_string(), "1.2.3");
    assert_eq!(v("1").to_string(), "1");
    assert_eq!(v("01.002").to_string(), "1.2");
    assert_eq!(v("1.0alpha1").to_string(), "1.0a1");
    assert_eq!(v("1.0beta").to_string(), "1.0b");
    assert_eq!(v("1.0c2").to_string(), "1.0rc2");
    assert_eq!(v("2.0.0post0").to_string(), "2.0.0post");
    assert_eq!(v("2.0.0dev12").to_string(), "2.0.0dev12");
    assert_eq!(v("1.2.3.4").to_string(), "1.2.3.4");
    assert_eq!(v("4294967295.0").to_string(), "4294967295.0");
    assert_eq!(Version::new(3, 7, 0).to_string(), "3.7.0");
    assert_eq!(Version::new_short(3, 7).to_string(), "3.7");
}

#[test]
fn parse_after_render_gives_the_same_components() {
    let samples = [
        Version { major: 0, minor: None, patch: None, extra: None, modifier: Modifier::Release },
        Version { major: 1, minor: Some(0), patch: None, extra: None, modifier: Modifier::Dev(0) },
        Version { major: 1, minor: Some(2), patch: Some(3), extra: None, modifier: Modifier::Alpha(7) },
        Version { major: 9, minor: Some(10), patch: Some(0), extra: Some(5), modifier: Modifier::Post(1) },
        Version { major: 4294967295, minor: Some(4294967295), patch: None, extra: None, modifier: Modifier::Rc(4294967295) },
        Version { major: 3, minor: None, patch: None, extra: None, modifier: Modifier::Beta(2) },
    ];
    for s in samples {
        let back = Version::from_str(&s.to_string()).unwrap();
        assert_eq!(back.major, s.major);
        assert_eq!(back.minor, s.minor);
        assert_eq!(back.patch, s.patch);
        assert_eq!(back.extra, s.extra);
        assert_eq!(back.modifier, s.modifier);
    }
}

#[test]
fn absent_components_count_as_zero() {
    assert!(v("1") == v("1.0.0"));
    assert!(v("1.2") == v("1.2.0.0"));
    assert!(v("1.2") != v("1.2.1"));
    assert!(v("1.0") != v("1.0rc1"));
    assert!(v("1").is_same(&v("1.0")));
    assert!(v("1").is_well_formed());
    let odd = Version { major: 1, minor: None, patch: Some(1), extra: None, modifier: Modifier::Release };
    assert!(!odd.is_well_formed());
}

#[test]
fn orders_by_components_then_stage() {
    let ordered = ["0.9", "1.0dev1", "1.0a1", "1.0a2", "1.0b1", "1.0rc1", "1.0", "1.0post1", "1.0.0.1",
        "1.0.1", "1.1", "2", "10"];
    for i in 0..ordered.len() {
        for j in 0..ordered.len() {
            let (a, b) = (v(ordered[i]), v(ordered[j]));
            assert_eq!(a.is_before(&b), i < j, "{} < {}", ordered[i], ordered[j]);
            assert_eq!(a.is_at_most(&b), i <= j);
            assert_eq!(a == b, i == j);
        }
    }
}
