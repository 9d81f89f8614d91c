use pypackage::constraint::ReqType;
use pypackage::error::ParseError;
use pypackage::req::Req;
use pypackage::version::Version;

#[test]
fn reads_a_manifest_line() {
    let r = Req::from_str("requests = \"^2.21.0\"", false).unwrap();
    assert_eq!(r.name, "requests");
    assert_eq!(r.constraints.len(), 1);
    assert_eq!(r.constraints[0].type_, ReqType::Caret);
    assert!(r.constraints[0].version == Version::new(2, 21, 0));
    assert!(r.extras.is_none());
    assert!(r.source.is_none());
}

#[test]
fn reads_a_bare_name() {
    let r = Req::from_str("  numpy ", false).unwrap();
    assert_eq!(r.name, "numpy");
    assert!(r.constraints.is_empty());
    let r = Req::from_str("Flask-SQLAlchemy", true).unwrap();
    assert_eq!(r.name, "Flask-SQLAlchemy");
    assert!(r.constraints.is_empty());
}

#[test]
fn reads_several_constraints_and_extras() {
    let r = Req::from_str("django[argon2, bcrypt] = \">=2.0, <3, !=2.1.*\"", false).unwrap();
    assert_eq!(r.name, "django");
    assert_eq!(r.extras, Some(vec!["argon2".to_string(), "bcrypt".to_string()]));
    assert_eq!(r.constraints.len(), 3);
    assert_eq!(r.constraints[0].type_, ReqType::Gte);
    assert_eq!(r.constraints[1].type_, ReqType::Lt);
    assert_eq!(r.constraints[2].type_, ReqType::Ne);
    let empty = Req::from_str("six = \"\"", false).unwrap();
    assert!(empty.constraints.is_empty());
}

#[test]
fn reads_an_index_entry() {
    let r = Req::from_str("chardet (<3.1.0,>=3.0.2)", true).unwrap();
    assert_eq!(r.name, "chardet");
    assert_eq!(r.constraints.len(), 2);
    assert_eq!(r.constraints[0].type_, ReqType::Lt);
    assert_eq!(r.constraints[1].type_, ReqType::Gte);
    assert!(r.constraints[1].version == Version::new(3, 0, 2));
    let e = Req::from_str("requests[socks] (>=2)", true).unwrap();
    assert_eq!(e.extras, Some(vec!["socks".to_string()]));
}

#[test]
fn rejects_malformed_requirements() {
    for text in ["", "  ", "= \"1\"", "a b", "numpy==1.2", "numpy = 1.2", "numpy = \"1.2", "numpy = \"x\"",
        "pkg[ = \"1\"", "pkg[a,] = \"1\"", "pkg[] = \"1\"", "na!me"]
    {
        assert_eq!(Req::from_str(text, false).err(), Some(ParseError::Requirement), "{}", text);
    }
    for text in ["", "chardet (<3", "chardet <3)", "(>=1)", "chardet (abc)"] {
        assert_eq!(Req::from_str(text, true).err(), Some(ParseError::Requirement), "{}", text);
    }
}

#[test]
fn writes_a_manifest_line() {
    let bare = Req::from_str("numpy", false).unwrap();
    assert_eq!(bare.to_cfg_string(), "numpy");
    let one = Req::from_str("requests=\"2.21\"", false).unwrap();
    assert_eq!(one.to_cfg_string(), "requests = \"^2.21\"");
    let many = Req::from_str("django = \" >= 2.0 ,<3\"", false).unwrap();
    assert_eq!(many.to_cfg_string(), "django = \">=2.0, <3\"");
    let again = Req::from_str(&many.to_cfg_string(), false).unwrap();
    assert_eq!(again.to_cfg_string(), many.to_cfg_string());
}

#[test]
fn copies_keep_every_field() {
    let r = Req::from_str("django[argon2] = \">=2.0, <3\"", false).unwrap();
    let d = r.duplicate();
    assert_eq!(d.name, r.name);
    assert_eq!(d.extras, r.extras);
    assert_eq!(d.source, r.source);
    assert_eq!(d.to_cfg_string(), r.to_cfg_string());
    let w = r.with_constraints(Vec::new());
    assert_eq!(w.name, "django");
    assert!(w.constraints.is_empty());
    assert_eq!(w.extras, r.extras);
}
