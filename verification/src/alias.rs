//! Choosing the command that runs Python among those found on the system.

use vstd::prelude::*;
use crate::text::{chars_of, char_digit_value, char_is_digit, digit_value, is_digit};
use crate::version::Version;

verus! {

/// Why no Python command could be chosen.
#[derive(Debug)]
pub struct AliasError {
    pub details: String,
}

impl AliasError {
    /// The error with the given explanation.
    pub fn new(details: &str) -> (e: AliasError)
        ensures
            e.details@ == details@,
    {
        AliasError { details: details.to_owned() }
    }

    /// The explanation.
    pub fn description(&self) -> (r: &str)
        ensures
            r@ == self.details@,
    {
        self.details.as_str()
    }

    /// The explanation, as shown to the user.
    pub fn to_string(&self) -> (r: String)
        ensures
            r@ == self.details@,
    {
        self.details.clone()
    }
}

/// The commands that may run Python, in the order in which they are tried.
pub fn possible_aliases() -> (r: Vec<&'static str>)
    ensures
        r@.len() == 13,
        r@[0]@ == "python3.10"@,
        r@[1]@ == "python3.9"@,
        r@[2]@ == "python3.8"@,
        r@[3]@ == "python3.7"@,
        r@[4]@ == "python3.6"@,
        r@[5]@ == "python3.5"@,
        r@[6]@ == "python3.4"@,
        r@[7]@ == "python3.3"@,
        r@[8]@ == "python3.2"@,
        r@[9]@ == "python3.1"@,
        r@[10]@ == "python3"@,
        r@[11]@ == "python"@,
        r@[12]@ == "python2"@,
{
    vec![
        "python3.10",
        "python3.9",
        "python3.8",
        "python3.7",
        "python3.6",
        "python3.5",
        "python3.4",
        "python3.3",
        "python3.2",
        "python3.1",
        "python3",
        "python",
        "python2",
    ]
}

/// A command and the version of Python that it runs.
pub struct AliasView {
    pub alias: Seq<char>,
    pub version: Version,
}

/// The commands of `aliases` with their versions, as mathematical values.
pub open spec fn alias_views(aliases: Seq<(String, Version)>) -> Seq<AliasView> {
    aliases.map_values(|a: (String, Version)| AliasView { alias: a.0@, version: a.1 })
}

/// The commands among `probes` that answered with a version, in order.
pub open spec fn found_aliases(probes: Seq<(String, Option<Version>)>) -> Seq<AliasView>
    decreases probes.len(),
{
    if probes.len() == 0 {
        Seq::empty()
    } else {
        match probes.last().1 {
            Some(version) => found_aliases(probes.drop_last()).push(
                AliasView { alias: probes.last().0@, version },
            ),
            None => found_aliases(probes.drop_last()),
        }
    }
}

/// What the search for a Python command came to.
pub enum AliasChoice {
    /// Exactly one command runs Python.
    Only(String, Version),
    /// Several do: the user has to pick one of them.
    Several(Vec<(String, Version)>),
}

/// Picks the Python command from the outcome of trying each candidate: `probes` holds, for
/// each command tried, the version it reported, if it ran.
///
/// With no command found this is an error, with one that command is chosen, and with
/// several the choice is left to the user.
pub fn find_py_alias(probes: &Vec<(String, Option<Version>)>) -> (r: Result<
    AliasChoice,
    AliasError,
>)
    ensures
        match r {
            Err(e) => found_aliases(probes@).len() == 0 && e.details@
                == "Can't find Python on the path."@,
            Ok(AliasChoice::Only(alias, version)) => found_aliases(probes@) == seq![
                AliasView { alias: alias@, version },
            ],
            Ok(AliasChoice::Several(list)) => found_aliases(probes@).len() >= 2 && alias_views(
                list@,
            ) == found_aliases(probes@),
        },
{
    let mut found: Vec<(String, Version)> = Vec::new();
    let mut i: usize = 0;
    assert(probes@.take(0) == Seq::<(String, Option<Version>)>::empty());
    assert(alias_views(found@) =~= Seq::<AliasView>::empty());
    while i < probes.len()
        invariant
            i <= probes.len(),
            alias_views(found@) == found_aliases(probes@.take(i as int)),
        decreases probes.len() - i,
    {
        let ghost before = alias_views(found@);
        assert(probes@.take(i + 1).drop_last() == probes@.take(i as int));
        assert(probes@.take(i + 1).last() == probes@[i as int]);
        if let Some(version) = probes[i].1 {
            found.push((probes[i].0.clone(), version));
            assert(alias_views(found@) =~= before.push(
                AliasView { alias: probes@[i as int].0@, version },
            ));
        }
        i = i + 1;
    }
    assert(probes@.take(probes.len() as int) == probes@);
    if found.len() == 0 {
        Err(AliasError::new("Can't find Python on the path."))
    } else if found.len() == 1 {
        let version = found[0].1;
        let alias = found[0].0.clone();
        assert(alias_views(found@) =~= seq![AliasView { alias: alias@, version }]);
        Ok(AliasChoice::Only(alias, version))
    } else {
        Ok(AliasChoice::Several(found))
    }
}

/// The command that the user's reply picks among `aliases`: the reply begins with the
/// number, from 1 on and of a single digit, of the command in the list.
pub fn select_alias(aliases: &Vec<(String, Version)>, reply: &str) -> (r: Result<
    (String, Version),
    AliasError,
>)
    ensures
        match r {
            Ok((alias, version)) => reply@.len() > 0 && is_digit(reply@[0]) && 1 <= digit_value(
                reply@[0],
            ) <= aliases@.len() && alias@ == aliases@[digit_value(reply@[0]) - 1].0@ && version
                == aliases@[digit_value(reply@[0]) - 1].1,
            Err(e) => if reply@.len() == 0 {
                e.details@ == "Problem reading input"@
            } else if !is_digit(reply@[0]) {
                e.details@ == "Enter the number associated with the Python alias."@
            } else {
                !(1 <= digit_value(reply@[0]) <= aliases@.len()) && e.details@
                    == "Can't find the Python alias associated with that number. Is it in the list above?"@
            },
        },
{
    let chars = chars_of(reply);
    if chars.len() == 0 {
        return Err(AliasError::new("Problem reading input"));
    }
    if !char_is_digit(chars[0]) {
        return Err(AliasError::new("Enter the number associated with the Python alias."));
    }
    let number = char_digit_value(chars[0]) as usize;
    if number < 1 || number > aliases.len() {
        return Err(
            AliasError::new(
                "Can't find the Python alias associated with that number. Is it in the list above?",
            ),
        );
    }
    Ok((aliases[number - 1].0.clone(), aliases[number - 1].1))
}

} // verus!
