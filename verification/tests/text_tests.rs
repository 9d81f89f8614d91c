use pypackage::constraint::{push_constraints, read_constraint, read_constraints, Constraint};
use pypackage::names::{is_text_before, name_key, names_match};
use pypackage::text::{char_is_digit, chars_of, is_word, push_all, push_number, push_str, string_of, trimmed};
use pypackage::version::Version;
use pypackage::version_text::{push_version, read_dotted, read_tag};

fn chars(s: &str) -> Vec<char> {
    s.chars().collect()
}

#[test]
fn strings_and_characters_convert_both_ways() {
    assert_eq!(chars_of("héllo"), vec!['h', 'é', 'l', 'l', 'o']);
    assert_eq!(string_of(&vec!['a', 'ß', 'c']), "aßc");
    assert_eq!(string_of(&Vec::new()), "");
    assert_eq!(chars_of(""), Vec::<char>::new());
}

#[test]
fn text_is_appended() {
    let mut out = chars("ab");
    push_all(&mut out, &chars("cd"));
    push_str(&mut out, "ef");
    push_number(&mut out, 0);
    push_number(&mut out, 1205);
    push_number(&mut out, 4294967295);
    assert_eq!(string_of(&out), "abcdef012054294967295");
}

#[test]
fn spaces_are_trimmed_at_both_ends() {
    assert_eq!(string_of(&trimmed(&chars("  a b  "))), "a b");
    assert_eq!(string_of(&trimmed(&chars("    "))), "");
    assert_eq!(string_of(&trimmed(&chars(""))), "");
    assert_eq!(string_of(&trimmed(&chars("x"))), "x");
    assert_eq!(string_of(&trimmed(&chars("\ta "))), "\ta");
}

#[test]
fn digits_and_words_are_recognised() {
    assert!(char_is_digit('0') && char_is_digit('9'));
    assert!(!char_is_digit('a') && !char_is_digit('/') && !char_is_digit(':') && !char_is_digit('٣'));
    assert!(is_word(&chars("py3"), "py3"));
    assert!(!is_word(&chars("py3"), "py"));
    assert!(!is_word(&chars("py"), "py3"));
    assert!(is_word(&Vec::new(), ""));
}

#[test]
fn names_are_keyed_by_their_lowercase_form() {
    assert_eq!(string_of(&name_key("Flask-SQLAlchemy")), "flask-sqlalchemy");
    assert!(names_match("NumPy", "numpy"));
    assert!(!names_match("numpy", "numpy2"));
    assert!(is_text_before(&chars("abc"), &chars("abd")));
    assert!(is_text_before(&chars(""), &chars("a")));
    assert!(!is_text_before(&chars("a"), &chars("")));
    assert!(!is_text_before(&chars("b"), &chars("ab")));
    assert!(!is_text_before(&chars("ab"), &chars("ab")));
}

#[test]
fn versions_are_read_from_characters() {
    let (v, wildcard) = read_dotted(&chars("2.7.*")).unwrap();
    assert!(wildcard);
    assert_eq!((v.major, v.minor, v.patch), (2, Some(7), None));
    let (v, wildcard) = read_dotted(&chars("2.7.1")).unwrap();
    assert!(!wildcard);
    assert_eq!(v.patch, Some(1));
    assert!(read_dotted(&chars("cp37")).is_none());
    assert!(read_tag(&chars("cp37")).unwrap() == Version::new(3, 7, 0));
    assert!(read_tag(&chars("3.7")).is_none());
    let mut out = chars("v");
    push_version(&mut out, &Version::new(1, 2, 3));
    assert_eq!(string_of(&out), "v1.2.3");
}

#[test]
fn constraints_are_read_from_characters() {
    assert_eq!(read_constraint(&chars(">= 1.2")).unwrap().to_string(), ">=1.2");
    assert!(read_constraint(&chars(">= ")).is_none());
    let list = read_constraints(&chars("^1, <1.5")).unwrap();
    let mut out = Vec::new();
    push_constraints(&mut out, &list);
    assert_eq!(string_of(&out), "^1, <1.5");
    let mut none = Vec::new();
    push_constraints(&mut none, &Vec::<Constraint>::new());
    assert!(none.is_empty());
    assert!(read_constraints(&chars("^1; <1.5")).is_none());
}
