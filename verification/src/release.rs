//! Choosing which published file of a package to install.

use vstd::prelude::*;
use crate::constraint::{admits_all, all_compatible, constraints_from_str, parse_constraints};
use crate::error::ParseError;
use crate::os::{os_from_wheel_fname, wheel_os, Os};
use crate::text::{chars_of, is_word};
use crate::version::Version;
use crate::version_text::parse_tag;

verus! {

/// How a package is installed: from a prebuilt wheel, or built from its source.
#[derive(Clone, Copy, Debug, PartialEq, Eq, Structural)]
pub enum PackageType {
    Wheel,
    Source,
}

/// One published file of a package at one version, as the index describes it.
#[derive(Clone, Debug)]
pub struct Release {
    pub filename: String,
    pub url: String,
    pub sha256: String,
    /// The kind of file: `bdist_wheel` or `sdist`.
    pub packagetype: String,
    /// The constraints on the interpreter's version, where the file states any.
    pub requires_python: Option<String>,
    /// The interpreter tag, such as `cp37`, `py3` or `py2.py3`.
    pub python_version: String,
}

/// What the selection reads of a published file.
pub struct ReleaseView {
    pub filename: Seq<char>,
    pub packagetype: Seq<char>,
    pub requires_python: Option<Seq<char>>,
    pub python_version: Seq<char>,
}

impl View for Release {
    type V = ReleaseView;

    open spec fn view(&self) -> ReleaseView {
        ReleaseView {
            filename: self.filename@,
            packagetype: self.packagetype@,
            requires_python: match self.requires_python {
                Some(text) => Some(text@),
                None => None,
            },
            python_version: self.python_version@,
        }
    }
}

/// The files of a list, as the selection reads them.
pub open spec fn release_views(releases: Seq<Release>) -> Seq<ReleaseView> {
    releases.map_values(|r: Release| r@)
}

/// The interpreter satisfies what a file requires of it: the file requires nothing, or its
/// requirement is a list of constraints that the interpreter's version satisfies.
pub open spec fn python_admitted(requires_python: Option<Seq<char>>, python: Version) -> bool {
    match requires_python {
        None => true,
        Some(text) => match parse_constraints(text) {
            Some(constraints) => admits_all(constraints, python),
            None => false,
        },
    }
}

/// The interpreter tag fits the interpreter: it is `py3` or `py2.py3`, or it spells the
/// interpreter's version.
pub open spec fn tag_fits(tag: Seq<char>, python: Version) -> bool {
    tag == "py3"@ || tag == "py2.py3"@ || match parse_tag(tag) {
        Some(version) => version.same(python),
        None => false,
    }
}

/// What a published file is good for.
#[derive(Clone, Copy, Debug, PartialEq, Eq, Structural)]
pub enum Suitability {
    /// A wheel that can be installed on this host with this interpreter.
    Wheel,
    /// A source distribution.
    Source,
    /// A wheel for another host or interpreter, or a file of another kind.
    Unusable,
}

/// What the file `release` is good for on the host `host` with the interpreter `python`,
/// given the platform `platform` that its file name was found to target.
pub open spec fn suitability(
    release: ReleaseView,
    platform: Result<Os, ParseError>,
    host: Os,
    python: Version,
) -> Suitability {
    if release.packagetype == "bdist_wheel"@ {
        if python_admitted(release.requires_python, python) && (match platform {
            Ok(os) => os.serves(host),
            Err(_) => false,
        }) && tag_fits(release.python_version, python) {
            Suitability::Wheel
        } else {
            Suitability::Unusable
        }
    } else if release.packagetype == "sdist"@ {
        Suitability::Source
    } else {
        Suitability::Unusable
    }
}

/// What each file of `releases` is good for, the platform of each read from its file name.
pub open spec fn suitabilities(releases: Seq<ReleaseView>, host: Os, python: Version) -> Seq<
    Suitability,
> {
    Seq::new(
        releases.len(),
        |i: int| suitability(releases[i], wheel_os(releases[i].filename), host, python),
    )
}

/// The choice among files of the given suitabilities: the first usable wheel; where there
/// is none, the first source distribution; where there is none either, nothing.
pub open spec fn chosen(kinds: Seq<Suitability>, choice: Option<(usize, PackageType)>) -> bool {
    match choice {
        Some((i, PackageType::Wheel)) => {
            &&& i < kinds.len()
            &&& kinds[i as int] == Suitability::Wheel
            &&& forall|k: int| 0 <= k < i ==> kinds[k] != Suitability::Wheel
        },
        Some((i, PackageType::Source)) => {
            &&& i < kinds.len()
            &&& kinds[i as int] == Suitability::Source
            &&& forall|k: int| 0 <= k < i ==> kinds[k] != Suitability::Source
            &&& forall|k: int| 0 <= k < kinds.len() ==> kinds[k] != Suitability::Wheel
        },
        None => forall|k: int| 0 <= k < kinds.len() ==> kinds[k] == Suitability::Unusable,
    }
}

/// No published file of a package can be installed on this host with this interpreter.
#[derive(Clone, Copy, Debug, PartialEq, Eq, Structural)]
pub struct NoCompatibleRelease;

/// Whether the interpreter satisfies what a file requires of it.
pub fn python_is_admitted(requires_python: &Option<String>, python: &Version) -> (r: bool)
    ensures
        r == python_admitted(
            match requires_python {
                Some(text) => Some(text@),
                None => None,
            },
            *python,
        ),
{
    match requires_python {
        None => true,
        Some(text) => match constraints_from_str(text.as_str()) {
            Ok(constraints) => all_compatible(&constraints, python),
            Err(_) => false,
        },
    }
}

/// Whether the interpreter tag fits the interpreter.
pub fn tag_is_fit(tag: &str, python: &Version) -> (r: bool)
    ensures
        r == tag_fits(tag@, *python),
{
    let chars = chars_of(tag);
    if is_word(&chars, "py3") || is_word(&chars, "py2.py3") {
        return true;
    }
    match Version::from_cp_str(tag) {
        Ok(version) => version.is_same(python),
        Err(_) => false,
    }
}

/// What a published file is good for, given the platform that its file name was found to
/// target.
pub fn classify(release: &Release, platform: Result<Os, ParseError>, host: Os, python: &Version) -> (r:
    Suitability)
    ensures
        r == suitability(release@, platform, host, *python),
{
    let kind = chars_of(release.packagetype.as_str());
    if is_word(&kind, "bdist_wheel") {
        let on_host = match platform {
            Ok(os) => os.is_usable_on(host),
            Err(_) => false,
        };
        if python_is_admitted(&release.requires_python, python) && on_host && tag_is_fit(
            release.python_version.as_str(),
            python,
        ) {
            Suitability::Wheel
        } else {
            Suitability::Unusable
        }
    } else if is_word(&kind, "sdist") {
        Suitability::Source
    } else {
        Suitability::Unusable
    }
}

/// Chooses among files of the given suitabilities.
pub fn choose_release(kinds: &Vec<Suitability>) -> (r: Result<
    (usize, PackageType),
    NoCompatibleRelease,
>)
    ensures
        chosen(
            kinds@,
            match r {
                Ok(choice) => Some(choice),
                Err(_) => None,
            },
        ),
{
    let mut source: Option<usize> = None;
    let mut i: usize = 0;
    while i < kinds.len()
        invariant
            i <= kinds.len(),
            forall|k: int| 0 <= k < i ==> kinds@[k] != Suitability::Wheel,
            match source {
                Some(s) => s < i && kinds@[s as int] == Suitability::Source && forall|k: int|
                    0 <= k < s ==> kinds@[k] != Suitability::Source,
                None => forall|k: int| 0 <= k < i ==> kinds@[k] != Suitability::Source,
            },
        decreases kinds.len() - i,
    {
        match kinds[i] {
            Suitability::Wheel => {
                return Ok((i, PackageType::Wheel));
            },
            Suitability::Source => {
                if source.is_none() {
                    source = Some(i);
                }
            },
            Suitability::Unusable => {},
        }
        i = i + 1;
    }
    match source {
        Some(s) => Ok((s, PackageType::Source)),
        None => Err(NoCompatibleRelease),
    }
}

/// Chooses the file of a package to install on the host `host` with the interpreter
/// `python`: the first wheel that fits both, else the first source distribution.
pub fn select_release(releases: &Vec<Release>, host: Os, python: &Version) -> (r: Result<
    (usize, PackageType),
    NoCompatibleRelease,
>)
    ensures
        chosen(
            suitabilities(release_views(releases@), host, *python),
            match r {
                Ok(choice) => Some(choice),
                Err(_) => None,
            },
        ),
{
    let mut kinds: Vec<Suitability> = Vec::new();
    let mut i: usize = 0;
    let ghost all = suitabilities(release_views(releases@), host, *python);
    while i < releases.len()
        invariant
            i <= releases.len(),
            all == suitabilities(release_views(releases@), host, *python),
            kinds@ == all.take(i as int),
        decreases releases.len() - i,
    {
        let platform = os_from_wheel_fname(releases[i].filename.as_str());
        let kind = classify(&releases[i], platform, host, python);
        assert(kind == all[i as int]);
        kinds.push(kind);
        assert(kinds@ == all.take(i + 1));
        i = i + 1;
    }
    assert(all.take(releases.len() as int) == all);
    choose_release(&kinds)
}

/// The tags `py3` and `py2.py3` fit every interpreter.
pub proof fn lemma_universal_tags_fit(python: Version)
    ensures
        tag_fits("py3"@, python),
        tag_fits("py2.py3"@, python),
{
}

/// The choice among files is determined: two choices that both meet the rule are equal.
pub proof fn lemma_choice_is_unique(
    kinds: Seq<Suitability>,
    a: Option<(usize, PackageType)>,
    b: Option<(usize, PackageType)>,
)
    requires
        chosen(kinds, a),
        chosen(kinds, b),
    ensures
        a == b,
{
    match (a, b) {
        (Some((i, _)), Some((j, _))) => {
            assert(kinds[i as int] != Suitability::Unusable);
            assert(kinds[j as int] != Suitability::Unusable);
        },
        (Some((i, _)), None) => {
            assert(kinds[i as int] != Suitability::Unusable);
        },
        (None, Some((j, _))) => {
            assert(kinds[j as int] != Suitability::Unusable);
        },
        (None, None) => {},
    }
}

} // verus!
