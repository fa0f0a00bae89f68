//! Reading a command line with clap: what comes back from it, and how the
//! filters get at the values of their options.

use clap::ArgMatches;
use vstd::prelude::*;

verus! {

/// What clap has matched on a command line.
#[verifier::external_type_specification]
#[verifier::external_body]
pub struct ExArgMatches<'a>(clap::ArgMatches<'a>);

/// How clap reports a command line that it does not match.
#[verifier::external_type_specification]
#[verifier::external_body]
pub struct ExError(clap::Error);

/// What clap holds of a command line that it has matched: under the name of
/// each argument that was given, the values that it was given, in order. A
/// flag that was given has no values.
pub uninterp spec fn held(matches: ArgMatches<'static>) -> Map<Seq<char>, Seq<Seq<char>>>;

/// What clap holds of the command line `args` when it has matched it against
/// the command `command`, as the filter of that name describes it to clap;
/// nothing where clap does not match the command line, or is asked for help
/// or the version.
pub uninterp spec fn matched(command: Seq<char>, args: Seq<Seq<char>>) -> Option<
    Map<Seq<char>, Seq<Seq<char>>>,
>;

/// Whether the argument `name` was given.
pub open spec fn given(found: Map<Seq<char>, Seq<Seq<char>>>, name: Seq<char>) -> bool {
    found.dom().contains(name)
}

/// The values that the argument `name` was given; none where it was not
/// given.
pub open spec fn values(found: Map<Seq<char>, Seq<Seq<char>>>, name: Seq<char>) -> Seq<Seq<char>> {
    if given(found, name) {
        found[name]
    } else {
        Seq::empty()
    }
}

/// The first value that the argument `name` was given, if any.
pub open spec fn first_value(found: Map<Seq<char>, Seq<Seq<char>>>, name: Seq<char>) -> Option<
    Seq<char>,
> {
    if values(found, name).len() > 0 {
        Some(values(found, name)[0])
    } else {
        None
    }
}

/// What there is to tell the user in place of running: a complaint about the
/// command line, or the help or the version that it asked for.
#[derive(Debug, PartialEq, Eq)]
pub struct Usage {
    /// The text to show.
    pub message: String,
    /// Whether the text is a complaint, which goes to the diagnostics and
    /// makes the program fail.
    pub is_error: bool,
}

/// Why a command line gave no configuration.
#[derive(Debug, PartialEq, Eq)]
pub enum ArgsError<E> {
    /// The command line was not matched, or asked for help or the version.
    Usage(Usage),
    /// The command line was matched, and the options on it were refused.
    Options(E),
}

/// What `failure` has to tell the user.
///
/// Takes the `message` of the `clap::Error`, and asks `Error::use_stderr`
/// whether it is a complaint. Nothing is claimed of either.
#[verifier::external_body]
pub(crate) fn usage(failure: clap::Error) -> Usage {
    Usage { is_error: failure.use_stderr(), message: failure.message }
}

/// The values of the argument `name`, if it was given.
///
/// Calls `ArgMatches::values_of_lossy`, which looks the name up among the
/// arguments that were matched and, where it is there, gives its values as
/// strings, in order.
#[verifier::external_body]
pub(crate) fn values_of(matches: &ArgMatches<'static>, name: &str) -> (list: Option<Vec<String>>)
    ensures
        list is Some <==> given(held(*matches), name@),
        list matches Some(texts) ==> texts.deep_view() == held(*matches)[name@],
{
    matches.values_of_lossy(name)
}

/// The first value of the argument `name`, if it was given one.
///
/// Calls `ArgMatches::value_of_lossy`, which looks the name up among the
/// arguments that were matched and, where it is there with a value, gives
/// the first as a string.
#[verifier::external_body]
pub(crate) fn value_of(matches: &ArgMatches<'static>, name: &str) -> (value: Option<String>)
    ensures
        value is Some <==> first_value(held(*matches), name@) is Some,
        value matches Some(text) ==> Some(text@) == first_value(held(*matches), name@),
{
    matches.value_of_lossy(name).map(|text| text.into_owned())
}

/// Whether the argument `name` was given.
pub(crate) fn is_given(matches: &ArgMatches<'static>, name: &str) -> (present: bool)
    ensures
        present == given(held(*matches), name@),
{
    values_of(matches, name).is_some()
}

/// The values of the argument `name`; none where it was not given.
pub(crate) fn all_values(matches: &ArgMatches<'static>, name: &str) -> (list: Vec<String>)
    ensures
        list.deep_view() == values(held(*matches), name@),
{
    match values_of(matches, name) {
        Some(list) => list,
        None => {
            let list: Vec<String> = Vec::new();
            list
        },
    }
}

} // verus!
