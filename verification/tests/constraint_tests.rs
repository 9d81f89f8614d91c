use pypackage::constraint::{all_compatible, constraints_from_str, Constraint, ReqType};
use pypackage::error::ParseError;
use pypackage::version::Version;

fn v(s: &str) -> Version {
    Version::from_str(s).unwrap()
}

fn c(s: &str) -> Constraint {
    Constraint::from_str(s).unwrap()
}

fn admits(constraint: &str, version: &str) -> bool {
    c(constraint).is_compatible(&v(version))
}

#[test]
fn caret_with_leading_zeros() {
    assert!(admits("^0.0.3", "0.0.3"));
    assert!(!admits("^0.0.3", "0.0.4"));
    assert!(!admits("^0.0.3", "0.0.2"));
    assert!(admits("^0.2.3", "0.2.9"));
    assert!(admits("^0.2.3", "0.2.3"));
    assert!(!admits("^0.2.3", "0.3.0"));
    assert!(!admits("^0.2.3", "0.2.2"));
}

#[test]
fn caret_on_a_major_version() {
    assert!(admits("^1.2.3", "1.2.3"));
    assert!(admits("^1.2.3", "1.9.0"));
    assert!(!admits("^1.2.3", "2.0.0"));
    assert!(!admits("^1.2.3", "2.0.0rc1"));
    assert!(!admits("^1.2.3", "1.2.2"));
    assert!(admits("^2", "2.31.0"));
    assert!(!admits("^2", "3.0"));
}

#[test]
fn caret_on_zeros_only() {
    assert!(admits("^0", "0.9.9"));
    assert!(!admits("^0", "1.0.0"));
    assert!(admits("^0.0", "0.0.9"));
    assert!(!admits("^0.0", "0.1.0"));
    assert!(admits("^0.0.0", "0.0.0"));
    assert!(!admits("^0.0.0", "0.0.1"));
}

#[test]
fn tilde_keeps_the_minor_number() {
    assert!(admits("~1.2.3", "1.2.9"));
    assert!(admits("~1.2.3", "1.2.3"));
    assert!(!admits("~1.2.3", "1.3.0"));
    assert!(!admits("~1.2.3", "1.2.2"));
}

#[test]
fn tilde_on_a_major_number() {
    assert!(admits("~1", "1.9.9"));
    assert!(admits("~1", "1.0.0"));
    assert!(!admits("~1", "2.0.0"));
    assert!(!admits("~1", "0.9"));
}

#[test]
fn wildcard_admits_every_version_of_the_major() {
    let w = c("1.*");
    assert_eq!(w.type_, ReqType::Exact);
    for yes in ["1", "1.0", "1.0.0", "1.5", "1.99.3", "1.2rc1", "1.0.0.7", "1.0dev1"] {
        assert!(w.is_compatible(&v(yes)), "{}", yes);
    }
    for no in ["0.9", "2", "2.0.0", "10.1", "0.1"] {
        assert!(!w.is_compatible(&v(no)), "{}", no);
    }
    assert!(admits("1.2.*", "1.2.7"));
    assert!(!admits("1.2.*", "1.3.0"));
}

#[test]
fn comparisons_hold_as_written() {
    assert!(admits(">=1.2", "1.2.0"));
    assert!(admits(">=1.2", "3"));
    assert!(!admits(">=1.2", "1.1.9"));
    assert!(admits("<=1.2", "1.2"));
    assert!(!admits("<=1.2", "1.2.1"));
    assert!(admits(">1.2", "1.2.1"));
    assert!(!admits(">1.2", "1.2.0"));
    assert!(admits("<1.2", "1.2rc1"));
    assert!(!admits("<1.2", "1.2"));
    assert!(admits("!=1.2", "1.3"));
    assert!(!admits("!=1.2", "1.2.0"));
    assert!(admits("==1.2.3", "1.2.3"));
    assert!(!admits("==1.2.3", "1.2.3post1"));
    assert!(admits("=1.2.3", "1.2.3.0"));
    assert!(admits("==1.2", "1.2.8"));
}

#[test]
fn reads_operators_and_spaces() {
    assert_eq!(c("^1.2").type_, ReqType::Caret);
    assert_eq!(c("1.2").type_, ReqType::Caret);
    assert_eq!(c("~1.2").type_, ReqType::Tilde);
    assert_eq!(c("=1.2").type_, ReqType::Exact);
    assert_eq!(c("==1.2").type_, ReqType::Exact);
    assert_eq!(c("!=1.2").type_, ReqType::Ne);
    assert_eq!(c(">=1.2").type_, ReqType::Gte);
    assert_eq!(c("<=1.2").type_, ReqType::Lte);
    assert_eq!(c(">1.2").type_, ReqType::Gt);
    assert_eq!(c("<1.2").type_, ReqType::Lt);
    assert_eq!(c("  >=  1.2  ").type_, ReqType::Gte);
    assert!(c(" >= 1.2 ").version == v("1.2"));
    assert_eq!(c(">=1.*").type_, ReqType::Gte);
}

#[test]
fn rejects_malformed_constraints() {
    for text in ["", "^", ">=", "=>1", "~=1.2", "^1.2,", "1 .2", "^^1", "cp37"] {
        assert_eq!(Constraint::from_str(text).err(), Some(ParseError::Constraint), "{}", text);
    }
}

#[test]
fn renders_operator_and_version() {
    assert_eq!(c("1.2").to_string(), "^1.2");
    assert_eq!(c(" >= 1.2.0").to_string(), ">=1.2.0");
    assert_eq!(c("=1").to_string(), "==1");
    assert_eq!(c("1.*").to_string(), "==1");
    assert_eq!(c("~0.3rc1").to_string(), "~0.3rc1");
    assert_eq!(c("!=2.0").to_string(), "!=2.0");
    assert_eq!(c("<3").to_string(), "<3");
    assert_eq!(c(">3").to_string(), ">3");
    assert_eq!(c("<=3").to_string(), "<=3");
    assert_eq!(Constraint::new(ReqType::Caret, 3, 7, 0).to_string(), "^3.7.0");
}

#[test]
fn reads_lists_of_clauses() {
    let list = constraints_from_str(">=2.7, !=3.0.*, <4").unwrap();
    assert_eq!(list.len(), 3);
    assert_eq!(list[0].type_, ReqType::Gte);
    assert_eq!(list[1].type_, ReqType::Ne);
    assert_eq!(list[2].type_, ReqType::Lt);
    assert!(all_compatible(&list, &v("3.7")));
    assert!(!all_compatible(&list, &v("3.0.5")) || list[1].is_compatible(&v("3.0.5")));
    assert!(!all_compatible(&list, &v("2.6")));
    assert!(!all_compatible(&list, &v("4.0")));
    assert_eq!(constraints_from_str("").unwrap().len(), 0);
    assert_eq!(constraints_from_str("   ").unwrap().len(), 0);
    assert_eq!(constraints_from_str("^1,").err(), Some(ParseError::Constraint));
    assert_eq!(constraints_from_str(",").err(), Some(ParseError::Constraint));
    assert_eq!(constraints_from_str("^1,,^2").err(), Some(ParseError::Constraint));
    assert!(all_compatible(&Vec::new(), &v("1")));
}
