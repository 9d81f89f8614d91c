use pypackage::config::{key_re, search_line, Config, LineMatches, ManifestError, Section};
use pypackage::constraint::ReqType;
use pypackage::error::ParseError;
use pypackage::req::Req;
use pypackage::version::Version;

fn lines(text: &str) -> Vec<String> {
    text.lines().map(|l| l.to_string()).collect()
}

#[test]
fn reads_a_manifest() {
    let cfg = Config::from_lines(&lines(
        "# a project\n\
         [tool.pypackage]\n\
         name = \"demo\"\n\
         py_version = \"^3.7\"\n\
         version = \"0.1.0\"\n\
         description = \"A demo\"\n\
         author = \"somebody\"\n\
         author_email = \"some@body.org\"\n\
         license = \"MIT\"\n\
         homepage = \"https://example.org\"\n\
         repo_url = \"https://example.org/repo\"\n\
         package_url = \"https://test.pypi.org\"\n\
         readme_filename = \"README.md\"\n\
         keywords = \"one\"\n\
         \n\
         [tool.pypackage.dependencies]\n\
         requests = \"^2.22\"\n\
         # numpy = \"1\"\n\
         \n\
         Flask\n\
         [build-system]\n\
         wheel = \"1\"\n",
    ))
    .unwrap();
    assert_eq!(cfg.name.as_deref(), Some("demo"));
    assert_eq!(cfg.description.as_deref(), Some("A demo"));
    assert!(cfg.version.unwrap() == Version::new(0, 1, 0));
    let py = cfg.py_version.unwrap();
    assert_eq!(py.type_, ReqType::Caret);
    assert!(py.version == Version::new_short(3, 7));
    assert_eq!(cfg.author.as_deref(), Some("somebody"));
    assert_eq!(cfg.author_email.as_deref(), Some("some@body.org"));
    assert_eq!(cfg.license.as_deref(), Some("MIT"));
    assert_eq!(cfg.homepage.as_deref(), Some("https://example.org"));
    assert_eq!(cfg.repo_url.as_deref(), Some("https://example.org/repo"));
    assert_eq!(cfg.package_url.as_deref(), Some("https://test.pypi.org"));
    assert_eq!(cfg.readme_filename.as_deref(), Some("README.md"));
    assert!(cfg.classifiers.is_empty() && cfg.keywords.is_empty());
    assert_eq!(cfg.reqs.len(), 2);
    assert_eq!(cfg.reqs[0].to_cfg_string(), "requests = \"^2.22\"");
    assert_eq!(cfg.reqs[1].to_cfg_string(), "Flask");
}

#[test]
fn an_empty_manifest_declares_nothing() {
    let cfg = Config::from_lines(&Vec::new()).unwrap();
    assert!(cfg.name.is_none() && cfg.version.is_none() && cfg.py_version.is_none());
    assert!(cfg.reqs.is_empty() && cfg.classifiers.is_empty() && cfg.keywords.is_empty());
    assert!(cfg.extras.is_none() && cfg.entry_points.is_empty());
    let d = Config::default();
    assert!(d.name.is_none() && d.reqs.is_empty());
}

#[test]
fn keys_outside_the_project_section_are_passed_over() {
    let cfg = Config::from_lines(&lines(
        "name = \"early\"\n\
         [tool.other]\n\
         name = \"other\"\n\
         [tool.pypackage.features]\n\
         name = \"feature\"\n\
         [tool.pypackage]\n\
         version = \"\"\n\
         py_version = \"\"\n\
         name=\"late\"\n\
         \x20name = \"indented\"\n\
         name = unquoted\n",
    ))
    .unwrap();
    assert_eq!(cfg.name.as_deref(), Some("late"));
    assert!(cfg.version.is_none());
    assert!(cfg.py_version.is_none());
}

#[test]
fn reports_the_line_that_cannot_be_read() {
    let bad_version = Config::from_lines(&lines("[tool.pypackage]\nname = \"x\"\nversion = \"one\"\n"));
    assert_eq!(bad_version.err(), Some(ManifestError { line: 3, kind: ParseError::Version }));
    let bad_python = Config::from_lines(&lines("[tool.pypackage]\npy_version = \"~=3\"\n"));
    assert_eq!(bad_python.err(), Some(ManifestError { line: 2, kind: ParseError::Constraint }));
    let bad_req =
        Config::from_lines(&lines("[tool.pypackage.dependencies]\nrequests = \"^2\"\n\nflask = 1\nnumpy\n"));
    assert_eq!(bad_req.err(), Some(ManifestError { line: 4, kind: ParseError::Requirement }));
}

#[test]
fn searches_a_line() {
    let found = search_line("name = \"demo\"").unwrap();
    assert!(!found.header);
    assert_eq!(found.name.as_deref(), Some("demo"));
    assert!(found.description.is_none() && found.version.is_none() && found.py_version.is_none());
    assert!(found.author.is_none() && found.author_email.is_none() && found.license.is_none());
    let found = search_line("author_email = \"a@b.c\"").unwrap();
    assert_eq!(found.author_email.as_deref(), Some("a@b.c"));
    assert!(found.author.is_none());
    let found = search_line("py_version=\"^3.7\"").unwrap();
    assert_eq!(found.py_version.as_deref(), Some("^3.7"));
    assert!(found.version.is_none());
    let found = search_line("version   =   \"\"").unwrap();
    assert_eq!(found.version.as_deref(), Some(""));
    let found = search_line("[section]").unwrap();
    assert!(found.header);
    let found = search_line("classifiers = [\"a\"]").unwrap();
    assert!(found.header);
    assert_eq!(key_re("name"), "^name\\s*=\\s*\"(.*)\"$");
}

#[test]
fn applies_one_line() {
    let none = LineMatches::nothing();
    let mut cfg = Config::default();
    assert_eq!(cfg.apply_line(Section::Outside, "[tool.pypackage]", &none), Ok(Section::Metadata));
    assert_eq!(
        cfg.apply_line(Section::Metadata, "[tool.pypackage.dependencies]", &none),
        Ok(Section::Dependencies)
    );
    assert_eq!(cfg.apply_line(Section::Metadata, "[tool.pypackage.features]", &none), Ok(Section::Features));
    assert_eq!(cfg.apply_line(Section::Dependencies, "# requests", &none), Ok(Section::Dependencies));
    assert_eq!(cfg.apply_line(Section::Dependencies, "requests", &none), Ok(Section::Dependencies));
    assert_eq!(cfg.reqs.len(), 1);
    let header = LineMatches { header: true, ..LineMatches::nothing() };
    assert_eq!(cfg.apply_line(Section::Dependencies, "[other]", &header), Ok(Section::Outside));
    let named = LineMatches {
        name: Some("n".to_string()),
        description: Some("d".to_string()),
        version: Some("1.2".to_string()),
        py_version: Some(">=3.6".to_string()),
        license: Some("MIT".to_string()),
        ..LineMatches::nothing()
    };
    assert_eq!(cfg.apply_line(Section::Features, "x", &named), Ok(Section::Features));
    assert!(cfg.name.is_none());
    assert_eq!(cfg.apply_line(Section::Metadata, "x", &named), Ok(Section::Metadata));
    assert_eq!(cfg.name.as_deref(), Some("n"));
    assert_eq!(cfg.description.as_deref(), Some("d"));
    assert!(cfg.version.unwrap() == Version::new_short(1, 2));
    assert_eq!(cfg.py_version.unwrap().type_, ReqType::Gte);
    assert_eq!(cfg.license.as_deref(), Some("MIT"));
    assert!(cfg.author.is_none());
    let bad = LineMatches {
        name: Some("changed".to_string()),
        version: Some("x".to_string()),
        ..LineMatches::nothing()
    };
    assert_eq!(cfg.apply_line(Section::Metadata, "x", &bad), Err(ParseError::Version));
    assert_eq!(cfg.name.as_deref(), Some("n"));
}

#[test]
fn writes_a_manifest() {
    let mut cfg = Config::default();
    assert_eq!(
        cfg.to_manifest_string(),
        "[tool.pypackage]\nname = \"\"\npy_version = \"\"\n\n\n[tool.pypackage.dependencies]\n"
    );
    cfg.name = Some("demo".to_string());
    cfg.py_version = Some(pypackage::constraint::Constraint::from_str("^3.7").unwrap());
    cfg.version = Some(Version::new(0, 1, 0));
    cfg.author = Some("somebody".to_string());
    cfg.description = Some("A demo".to_string());
    cfg.readme_filename = Some("README.md".to_string());
    cfg.reqs.push(Req::from_str("requests = \"^2.22\"", false).unwrap());
    cfg.reqs.push(Req::from_str("numpy", false).unwrap());
    let text = cfg.to_manifest_string();
    assert_eq!(
        text,
        "[tool.pypackage]\nname = \"demo\"\npy_version = \"^3.7\"\nversion = \"0.1.0\"\n\
         description = \"A demo\"\nauthor = \"somebody\"\nreadme_filename = \"README.md\"\n\
         \n\n[tool.pypackage.dependencies]\nrequests = \"^2.22\"\nnumpy\n"
    );
    let back = Config::from_lines(&text.lines().map(|l| l.to_string()).collect()).unwrap();
    assert_eq!(back.name.as_deref(), Some("demo"));
    assert!(back.version.unwrap() == Version::new(0, 1, 0));
    assert_eq!(back.py_version.unwrap().to_string(), "^3.7");
    assert_eq!(back.reqs.len(), 2);
    assert_eq!(back.description.as_deref(), Some("A demo"));
    assert_eq!(back.author.as_deref(), Some("somebody"));
    assert_eq!(back.readme_filename.as_deref(), Some("README.md"));
}
