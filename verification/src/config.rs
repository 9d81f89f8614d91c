//! The project manifest: what it declares, how its lines are read and how it is written.

use vstd::prelude::*;
use crate::constraint::{parse_constraint, render_constraint, Constraint};
use crate::constraint::push_constraint;
use crate::error::ParseError;
use crate::pattern::{capture, captured};
use crate::req::{parse_req_line, read_req_line, render_req, req_views, texts, Req, ReqView};
use crate::text::{chars_of, is_word, push_str, string_of};
use crate::version::Version;
use crate::version_text::{parse_version, render};

verus! {

/// What a project declares in its manifest.
#[derive(Clone, Debug)]
pub struct Config {
    /// The constraint on the interpreter's version.
    pub py_version: Option<Constraint>,
    /// The packages that the project requires.
    pub reqs: Vec<Req>,
    pub name: Option<String>,
    /// The project's own version.
    pub version: Option<Version>,
    pub author: Option<String>,
    pub author_email: Option<String>,
    pub license: Option<String>,
    /// The optional dependency groups, each with the requirements it adds.
    pub extras: Option<Vec<(String, Vec<String>)>>,
    pub description: Option<String>,
    pub classifiers: Vec<String>,
    pub keywords: Vec<String>,
    pub homepage: Option<String>,
    pub repo_url: Option<String>,
    pub package_url: Option<String>,
    pub readme_filename: Option<String>,
    /// The console scripts, each with its targets.
    pub entry_points: Vec<(String, Vec<String>)>,
}

/// What a manifest declares, as mathematical values.
pub struct ConfigView {
    pub py_version: Option<Constraint>,
    pub reqs: Seq<ReqView>,
    pub name: Option<Seq<char>>,
    pub version: Option<Version>,
    pub author: Option<Seq<char>>,
    pub author_email: Option<Seq<char>>,
    pub license: Option<Seq<char>>,
    pub extras: Option<Seq<(Seq<char>, Seq<Seq<char>>)>>,
    pub description: Option<Seq<char>>,
    pub classifiers: Seq<Seq<char>>,
    pub keywords: Seq<Seq<char>>,
    pub homepage: Option<Seq<char>>,
    pub repo_url: Option<Seq<char>>,
    pub package_url: Option<Seq<char>>,
    pub readme_filename: Option<Seq<char>>,
    pub entry_points: Seq<(Seq<char>, Seq<Seq<char>>)>,
}

/// The text of an optional string.
pub open spec fn opt_text(s: Option<String>) -> Option<Seq<char>> {
    match s {
        Some(s) => Some(s@),
        None => None,
    }
}

/// The entries of a table of named lists.
pub open spec fn table_view(table: Seq<(String, Vec<String>)>) -> Seq<(Seq<char>, Seq<Seq<char>>)> {
    table.map_values(|e: (String, Vec<String>)| (e.0@, texts(e.1@)))
}

impl View for Config {
    type V = ConfigView;

    open spec fn view(&self) -> ConfigView {
        ConfigView {
            py_version: self.py_version,
            reqs: req_views(self.reqs@),
            name: opt_text(self.name),
            version: self.version,
            author: opt_text(self.author),
            author_email: opt_text(self.author_email),
            license: opt_text(self.license),
            extras: match self.extras {
                Some(table) => Some(table_view(table@)),
                None => None,
            },
            description: opt_text(self.description),
            classifiers: texts(self.classifiers@),
            keywords: texts(self.keywords@),
            homepage: opt_text(self.homepage),
            repo_url: opt_text(self.repo_url),
            package_url: opt_text(self.package_url),
            readme_filename: opt_text(self.readme_filename),
            entry_points: table_view(self.entry_points@),
        }
    }
}

/// The manifest that declares nothing.
pub open spec fn empty_config() -> ConfigView {
    ConfigView {
        py_version: None,
        reqs: Seq::empty(),
        name: None,
        version: None,
        author: None,
        author_email: None,
        license: None,
        extras: None,
        description: None,
        classifiers: Seq::empty(),
        keywords: Seq::empty(),
        homepage: None,
        repo_url: None,
        package_url: None,
        readme_filename: None,
        entry_points: Seq::empty(),
    }
}

impl Default for Config {
    fn default() -> (r: Config)
        ensures
            r@ == empty_config(),
    {
        let r = Config {
            py_version: None,
            reqs: Vec::new(),
            name: None,
            version: None,
            author: None,
            author_email: None,
            license: None,
            extras: None,
            description: None,
            classifiers: Vec::new(),
            keywords: Vec::new(),
            homepage: None,
            repo_url: None,
            package_url: None,
            readme_filename: None,
            entry_points: Vec::new(),
        };
        assert(r@.reqs =~= Seq::empty());
        assert(r@.classifiers =~= Seq::empty());
        assert(r@.keywords =~= Seq::empty());
        assert(r@.entry_points =~= Seq::empty());
        r
    }
}

/// The part of the manifest that a line belongs to.
#[derive(Clone, Copy, Debug, PartialEq, Eq, Structural)]
pub enum Section {
    /// Before the first header, or under a header that is not the project's.
    Outside,
    /// Under `[tool.pypackage]`.
    Metadata,
    /// Under `[tool.pypackage.dependencies]`.
    Dependencies,
    /// Under `[tool.pypackage.features]`.
    Features,
}

/// A line that could not be read, with its number, counted from one.
#[derive(Clone, Copy, Debug, PartialEq, Eq, Structural)]
pub struct ManifestError {
    pub line: usize,
    pub kind: ParseError,
}

/// The pattern that finds the value of `key` in a line: the key at the start of the line,
/// `=` with optional blanks around it, and the value in double quotes up to the line's end.
pub open spec fn key_pattern(key: Seq<char>) -> Seq<char> {
    "^"@ + key + "\\s*=\\s*\"(.*)\"$"@
}

/// The pattern that finds a bracketed header in a line.
pub open spec fn header_pattern() -> Seq<char> {
    "\\[.*\\]"@
}

/// What the searches of one line found.
pub struct LineMatches {
    /// Whether the line holds a bracketed header.
    pub header: bool,
    /// The value of each key of the project's section that the line assigns.
    pub name: Option<String>,
    pub description: Option<String>,
    pub version: Option<String>,
    pub py_version: Option<String>,
    pub author: Option<String>,
    pub author_email: Option<String>,
    pub license: Option<String>,
    pub homepage: Option<String>,
    pub repo_url: Option<String>,
    pub package_url: Option<String>,
    pub readme_filename: Option<String>,
}

/// What the searches of one line found, as mathematical values.
pub struct LineFound {
    pub header: bool,
    pub name: Option<Seq<char>>,
    pub description: Option<Seq<char>>,
    pub version: Option<Seq<char>>,
    pub py_version: Option<Seq<char>>,
    pub author: Option<Seq<char>>,
    pub author_email: Option<Seq<char>>,
    pub license: Option<Seq<char>>,
    pub homepage: Option<Seq<char>>,
    pub repo_url: Option<Seq<char>>,
    pub package_url: Option<Seq<char>>,
    pub readme_filename: Option<Seq<char>>,
}

impl View for LineMatches {
    type V = LineFound;

    open spec fn view(&self) -> LineFound {
        LineFound {
            header: self.header,
            name: opt_text(self.name),
            description: opt_text(self.description),
            version: opt_text(self.version),
            py_version: opt_text(self.py_version),
            author: opt_text(self.author),
            author_email: opt_text(self.author_email),
            license: opt_text(self.license),
            homepage: opt_text(self.homepage),
            repo_url: opt_text(self.repo_url),
            package_url: opt_text(self.package_url),
            readme_filename: opt_text(self.readme_filename),
        }
    }
}

impl LineMatches {
    /// What is found in a line that holds no header and assigns no key.
    pub fn nothing() -> (r: LineMatches)
        ensures
            r@ == (LineFound {
                header: false,
                name: None,
                description: None,
                version: None,
                py_version: None,
                author: None,
                author_email: None,
                license: None,
                homepage: None,
                repo_url: None,
                package_url: None,
                readme_filename: None,
            }),
    {
        LineMatches {
            header: false,
            name: None,
            description: None,
            version: None,
            py_version: None,
            author: None,
            author_email: None,
            license: None,
            homepage: None,
            repo_url: None,
            package_url: None,
            readme_filename: None,
        }
    }
}

/// What the search of `line` for the value of `key` finds; nothing at all where the
/// pattern is not accepted.
pub open spec fn key_found(key: Seq<char>, line: Seq<char>) -> Option<Option<Seq<char>>> {
    captured(key_pattern(key), line, 1)
}

/// What the searches of `line` find; nothing where a pattern is not accepted.
pub open spec fn line_found(line: Seq<char>) -> Option<LineFound> {
    if captured(header_pattern(), line, 0) is None || key_found("name"@, line) is None
        || key_found("description"@, line) is None || key_found("version"@, line) is None
        || key_found("py_version"@, line) is None || key_found("author"@, line) is None
        || key_found("author_email"@, line) is None || key_found("license"@, line) is None
        || key_found("homepage"@, line) is None || key_found("repo_url"@, line) is None
        || key_found("package_url"@, line) is None || key_found("readme_filename"@, line)
        is None {
        None
    } else {
        Some(
            LineFound {
                header: captured(header_pattern(), line, 0).unwrap() is Some,
                name: key_found("name"@, line).unwrap(),
                description: key_found("description"@, line).unwrap(),
                version: key_found("version"@, line).unwrap(),
                py_version: key_found("py_version"@, line).unwrap(),
                author: key_found("author"@, line).unwrap(),
                author_email: key_found("author_email"@, line).unwrap(),
                license: key_found("license"@, line).unwrap(),
                homepage: key_found("homepage"@, line).unwrap(),
                repo_url: key_found("repo_url"@, line).unwrap(),
                package_url: key_found("package_url"@, line).unwrap(),
                readme_filename: key_found("readme_filename"@, line).unwrap(),
            },
        )
    }
}

/// The value of a key after a line: the one that the line assigns, else the one it had.
pub open spec fn or_kept(found: Option<Seq<char>>, held: Option<Seq<char>>) -> Option<Seq<char>> {
    match found {
        Some(value) => Some(value),
        None => held,
    }
}

/// The manifest after a line under `[tool.pypackage]`: each key that the line assigns is
/// set. An empty version or interpreter constraint sets nothing; a malformed one is an
/// error.
pub open spec fn apply_metadata(cfg: ConfigView, found: LineFound) -> Result<
    ConfigView,
    ParseError,
> {
    let version = match found.version {
        Some(text) => if text.len() > 0 {
            Some(parse_version(text))
        } else {
            None
        },
        None => None,
    };
    let py_version = match found.py_version {
        Some(text) => if text.len() > 0 {
            Some(parse_constraint(text))
        } else {
            None
        },
        None => None,
    };
    if version == Some(None::<Version>) {
        Err(ParseError::Version)
    } else if py_version == Some(None::<Constraint>) {
        Err(ParseError::Constraint)
    } else {
        Ok(
            ConfigView {
                name: or_kept(found.name, cfg.name),
                description: or_kept(found.description, cfg.description),
                author: or_kept(found.author, cfg.author),
                author_email: or_kept(found.author_email, cfg.author_email),
                license: or_kept(found.license, cfg.license),
                homepage: or_kept(found.homepage, cfg.homepage),
                repo_url: or_kept(found.repo_url, cfg.repo_url),
                package_url: or_kept(found.package_url, cfg.package_url),
                readme_filename: or_kept(found.readme_filename, cfg.readme_filename),
                version: match version {
                    Some(Some(v)) => Some(v),
                    _ => cfg.version,
                },
                py_version: match py_version {
                    Some(Some(c)) => Some(c),
                    _ => cfg.py_version,
                },
                ..cfg
            },
        )
    }
}

/// The section and the manifest after `line`, given what the searches of the line found.
///
/// A line that begins with `#` changes nothing. One of the three headers of the project
/// opens its section, any other line with a bracketed header closes the section. Under
/// `[tool.pypackage]` a line assigns keys, under `[tool.pypackage.dependencies]` each line
/// that is not empty declares a requirement; all other lines are passed over.
pub open spec fn apply_line(
    section: Section,
    cfg: ConfigView,
    line: Seq<char>,
    found: LineFound,
) -> Result<(Section, ConfigView), ParseError> {
    if line.len() > 0 && line[0] == '#' {
        Ok((section, cfg))
    } else if line == "[tool.pypackage]"@ {
        Ok((Section::Metadata, cfg))
    } else if line == "[tool.pypackage.dependencies]"@ {
        Ok((Section::Dependencies, cfg))
    } else if line == "[tool.pypackage.features]"@ {
        Ok((Section::Features, cfg))
    } else if found.header {
        Ok((Section::Outside, cfg))
    } else {
        match section {
            Section::Metadata => match apply_metadata(cfg, found) {
                Ok(next) => Ok((section, next)),
                Err(e) => Err(e),
            },
            Section::Dependencies => if line.len() > 0 {
                match parse_req_line(line) {
                    Some(req) => Ok((section, ConfigView { reqs: cfg.reqs.push(req), ..cfg })),
                    None => Err(ParseError::Requirement),
                }
            } else {
                Ok((section, cfg))
            },
            _ => Ok((section, cfg)),
        }
    }
}

/// The section reached and the manifest declared by `lines`, or the first line that cannot
/// be read.
pub open spec fn parse_manifest(lines: Seq<Seq<char>>) -> Result<
    (Section, ConfigView),
    ManifestError,
>
    decreases lines.len(),
{
    if lines.len() == 0 {
        Ok((Section::Outside, empty_config()))
    } else {
        match parse_manifest(lines.drop_last()) {
            Err(e) => Err(e),
            Ok((section, cfg)) => match line_found(lines.last()) {
                None => Err(ManifestError { line: lines.len() as usize, kind: ParseError::Pattern }),
                Some(found) => match apply_line(section, cfg, lines.last(), found) {
                    Ok(next) => Ok(next),
                    Err(kind) => Err(ManifestError { line: lines.len() as usize, kind }),
                },
            },
        }
    }
}

/// The pattern that finds the value of `key` in a line.
pub fn key_re(key: &str) -> (r: String)
    ensures
        r@ == key_pattern(key@),
{
    let mut out = chars_of("^");
    push_str(&mut out, key);
    push_str(&mut out, "\\s*=\\s*\"(.*)\"$");
    string_of(&out)
}

fn search_key(key: &str, line: &str) -> (r: Result<Option<String>, ParseError>)
    ensures
        match r {
            Ok(found) => key_found(key@, line@) == Some(opt_text(found)),
            Err(e) => e == ParseError::Pattern && key_found(key@, line@) is None,
        },
{
    let pattern = key_re(key);
    match capture(pattern.as_str(), line, 1) {
        Ok(found) => Ok(found),
        Err(_) => Err(ParseError::Pattern),
    }
}

/// Searches `line` for a header and for the keys of the project's section.
pub fn search_line(line: &str) -> (r: Result<LineMatches, ParseError>)
    ensures
        match r {
            Ok(found) => line_found(line@) == Some(found@),
            Err(e) => e == ParseError::Pattern && line_found(line@) is None,
        },
{
    let header = match capture("\\[.*\\]", line, 0) {
        Ok(found) => found.is_some(),
        Err(_) => {
            return Err(ParseError::Pattern);
        },
    };
    let name = search_key("name", line)?;
    let description = search_key("description", line)?;
    let version = search_key("version", line)?;
    let py_version = search_key("py_version", line)?;
    let author = search_key("author", line)?;
    let author_email = search_key("author_email", line)?;
    let license = search_key("license", line)?;
    let homepage = search_key("homepage", line)?;
    let repo_url = search_key("repo_url", line)?;
    let package_url = search_key("package_url", line)?;
    let readme_filename = search_key("readme_filename", line)?;
    Ok(
        LineMatches {
            header,
            name,
            description,
            version,
            py_version,
            author,
            author_email,
            license,
            homepage,
            repo_url,
            package_url,
            readme_filename,
        },
    )
}

/// A line that assigns `value` to `key`, where there is a value.
pub open spec fn render_key(key: Seq<char>, value: Option<Seq<char>>) -> Seq<char> {
    match value {
        Some(text) => key + " = \""@ + text + "\"\n"@,
        None => Seq::empty(),
    }
}

/// The text of the manifest that declares `cfg`: the project's section with its name and
/// interpreter constraint (empty where absent) and each further key that has a value; two
/// empty lines; the dependencies' section with one line for each requirement.
pub open spec fn render_manifest(cfg: ConfigView) -> Seq<char> {
    "[tool.pypackage]\n"@ + "name = \""@ + (match cfg.name {
        Some(name) => name,
        None => Seq::empty(),
    }) + "\"\n"@ + "py_version = \""@ + (match cfg.py_version {
        Some(c) => render_constraint(c),
        None => Seq::empty(),
    }) + "\"\n"@ + render_key(
        "version"@,
        match cfg.version {
            Some(v) => Some(render(v)),
            None => None,
        },
    ) + render_key("description"@, cfg.description) + render_key("author"@, cfg.author)
        + render_key("author_email"@, cfg.author_email) + render_key("license"@, cfg.license)
        + render_key("homepage"@, cfg.homepage) + render_key("repo_url"@, cfg.repo_url)
        + render_key("package_url"@, cfg.package_url) + render_key(
        "readme_filename"@,
        cfg.readme_filename,
    ) + "\n\n"@ + "[tool.pypackage.dependencies]\n"@ + render_req_lines(cfg.reqs)
}

fn push_key(out: &mut Vec<char>, key: &str, value: &Option<String>)
    ensures
        final(out)@ == old(out)@ + render_key(key@, opt_text(*value)),
{
    match value {
        Some(text) => {
            push_str(out, key);
            push_str(out, " = \"");
            push_str(out, text.as_str());
            push_str(out, "\"\n");
            assert(out@ == old(out)@ + (key@ + " = \""@ + text@ + "\"\n"@));
        },
        None => {
            assert(out@ == old(out)@ + Seq::<char>::empty());
        },
    }
}

/// One manifest line, ended by a line feed, for each requirement.
pub open spec fn render_req_lines(reqs: Seq<ReqView>) -> Seq<char>
    decreases reqs.len(),
{
    if reqs.len() == 0 {
        Seq::empty()
    } else {
        render_req_lines(reqs.drop_last()) + render_req(reqs.last()) + seq!['\n']
    }
}

impl Config {
    /// Takes one line of the manifest into account, given what the searches of the line
    /// found. On an error nothing is changed.
    pub fn apply_line(&mut self, section: Section, line: &str, found: &LineMatches) -> (r:
        Result<Section, ParseError>)
        ensures
            match r {
                Ok(next) => apply_line(section, old(self)@, line@, found@) == Ok::<
                    (Section, ConfigView),
                    ParseError,
                >((next, final(self)@)),
                Err(e) => apply_line(section, old(self)@, line@, found@) == Err::<
                    (Section, ConfigView),
                    ParseError,
                >(e) && *final(self) == *old(self),
            },
    {
        let chars = chars_of(line);
        if chars.len() > 0 && chars[0] == '#' {
            return Ok(section);
        }
        if is_word(&chars, "[tool.pypackage]") {
            return Ok(Section::Metadata);
        }
        if is_word(&chars, "[tool.pypackage.dependencies]") {
            return Ok(Section::Dependencies);
        }
        if is_word(&chars, "[tool.pypackage.features]") {
            return Ok(Section::Features);
        }
        if found.header {
            return Ok(Section::Outside);
        }
        match section {
            Section::Metadata => {
                let version = match &found.version {
                    Some(text) => {
                        if text.as_str().unicode_len() > 0 {
                            match Version::from_str(text.as_str()) {
                                Ok(v) => Some(v),
                                Err(_) => {
                                    return Err(ParseError::Version);
                                },
                            }
                        } else {
                            None
                        }
                    },
                    None => None,
                };
                let py_version = match &found.py_version {
                    Some(text) => {
                        if text.as_str().unicode_len() > 0 {
                            match Constraint::from_str(text.as_str()) {
                                Ok(c) => Some(c),
                                Err(_) => {
                                    return Err(ParseError::Constraint);
                                },
                            }
                        } else {
                            None
                        }
                    },
                    None => None,
                };
                if let Some(name) = &found.name {
                    self.name = Some(name.clone());
                }
                if let Some(description) = &found.description {
                    self.description = Some(description.clone());
                }
                if let Some(author) = &found.author {
                    self.author = Some(author.clone());
                }
                if let Some(author_email) = &found.author_email {
                    self.author_email = Some(author_email.clone());
                }
                if let Some(license) = &found.license {
                    self.license = Some(license.clone());
                }
                if let Some(homepage) = &found.homepage {
                    self.homepage = Some(homepage.clone());
                }
                if let Some(repo_url) = &found.repo_url {
                    self.repo_url = Some(repo_url.clone());
                }
                if let Some(package_url) = &found.package_url {
                    self.package_url = Some(package_url.clone());
                }
                if let Some(readme_filename) = &found.readme_filename {
                    self.readme_filename = Some(readme_filename.clone());
                }
                if let Some(v) = version {
                    self.version = Some(v);
                }
                if let Some(c) = py_version {
                    self.py_version = Some(c);
                }
                Ok(section)
            },
            Section::Dependencies => {
                if chars.len() > 0 {
                    match read_req_line(&chars) {
                        Some(req) => {
                            self.reqs.push(req);
                            assert(req_views(self.reqs@) =~= req_views(old(self).reqs@).push(req@));
                            Ok(section)
                        },
                        None => Err(ParseError::Requirement),
                    }
                } else {
                    Ok(section)
                }
            },
            _ => Ok(section),
        }
    }

    /// Reads the manifest from its lines.
    pub fn from_lines(lines: &Vec<String>) -> (r: Result<Config, ManifestError>)
        ensures
            match r {
                Ok(cfg) => match parse_manifest(texts(lines@)) {
                    Ok((_, view)) => view == cfg@,
                    Err(_) => false,
                },
                Err(e) => parse_manifest(texts(lines@)) == Err::<
                    (Section, ConfigView),
                    ManifestError,
                >(e),
            },
    {
        let mut cfg = Config::default();
        let mut section = Section::Outside;
        let mut i: usize = 0;
        let ghost all = texts(lines@);
        assert(all.take(0) == Seq::<Seq<char>>::empty());
        while i < lines.len()
            invariant
                i <= lines.len(),
                all == texts(lines@),
                parse_manifest(all.take(i as int)) == Ok::<(Section, ConfigView), ManifestError>(
                    (section, cfg@),
                ),
            decreases lines.len() - i,
        {
            let line = lines[i].as_str();
            proof {
                let upto = all.take(i + 1);
                assert(upto.drop_last() == all.take(i as int));
                assert(upto.last() == line@);
            }
            let found = match search_line(line) {
                Ok(found) => found,
                Err(kind) => {
                    proof {
                        lemma_manifest_error_stays(all, i + 1);
                    }
                    return Err(ManifestError { line: i + 1, kind });
                },
            };
            match cfg.apply_line(section, line, &found) {
                Ok(next) => {
                    section = next;
                },
                Err(kind) => {
                    proof {
                        lemma_manifest_error_stays(all, i + 1);
                    }
                    return Err(ManifestError { line: i + 1, kind });
                },
            }
            i = i + 1;
        }
        assert(all.take(lines.len() as int) == all);
        Ok(cfg)
    }

    /// The text of the manifest that declares this project.
    pub fn to_manifest_string(&self) -> (r: String)
        ensures
            r@ == render_manifest(self@),
    {
        let mut out = chars_of("[tool.pypackage]\n");
        push_str(&mut out, "name = \"");
        if let Some(name) = &self.name {
            push_str(&mut out, name.as_str());
        }
        push_str(&mut out, "\"\n");
        push_str(&mut out, "py_version = \"");
        let ghost head = out@;
        if let Some(c) = &self.py_version {
            push_constraint(&mut out, c);
        }
        assert(out@ == head + (match self@.py_version {
            Some(c) => render_constraint(c),
            None => Seq::empty(),
        }));
        push_str(&mut out, "\"\n");
        let version = match &self.version {
            Some(v) => Some(v.to_string()),
            None => None,
        };
        push_key(&mut out, "version", &version);
        push_key(&mut out, "description", &self.description);
        push_key(&mut out, "author", &self.author);
        push_key(&mut out, "author_email", &self.author_email);
        push_key(&mut out, "license", &self.license);
        push_key(&mut out, "homepage", &self.homepage);
        push_key(&mut out, "repo_url", &self.repo_url);
        push_key(&mut out, "package_url", &self.package_url);
        push_key(&mut out, "readme_filename", &self.readme_filename);
        push_str(&mut out, "\n\n");
        push_str(&mut out, "[tool.pypackage.dependencies]\n");
        let ghost head = out@;
        let ghost reqs = req_views(self.reqs@);
        let mut i: usize = 0;
        assert(reqs.take(0) == Seq::<ReqView>::empty());
        assert(out@ == head + Seq::<char>::empty());
        while i < self.reqs.len()
            invariant
                i <= self.reqs.len(),
                reqs == req_views(self.reqs@),
                out@ == head + render_req_lines(reqs.take(i as int)),
            decreases self.reqs.len() - i,
        {
            let line = self.reqs[i].to_cfg_string();
            proof {
                let upto = reqs.take(i + 1);
                assert(upto.drop_last() == reqs.take(i as int));
                assert(upto.last() == self.reqs@[i as int]@);
            }
            let ghost before = out@;
            push_str(&mut out, line.as_str());
            out.push('\n');
            assert(out@ == head + (render_req_lines(reqs.take(i as int)) + line@ + seq!['\n']));
            i = i + 1;
        }
        assert(reqs.take(self.reqs.len() as int) == reqs);
        string_of(&out)
    }
}

/// Once the lines up to some point cannot be read, no further line changes the error.
pub proof fn lemma_manifest_error_stays(lines: Seq<Seq<char>>, n: int)
    requires
        0 <= n <= lines.len(),
        parse_manifest(lines.take(n)) is Err,
    ensures
        parse_manifest(lines) == parse_manifest(lines.take(n)),
    decreases lines.len() - n,
{
    if n < lines.len() {
        let more = lines.take(n + 1);
        assert(more.drop_last() == lines.take(n));
        lemma_manifest_error_stays(lines, n + 1);
    } else {
        assert(lines.take(n) == lines);
    }
}

} // verus!
