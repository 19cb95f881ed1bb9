//! Which filter directives the log subscriber is installed with.

use crate::cuts::{all_cuts_clean, cuts_cleanly};
use tracing_subscriber::EnvFilter;
use vstd::prelude::*;
use vstd::string::*;

verus! {

/// Whether `tracing_subscriber::EnvFilter::try_new` gives a filter for
/// `directives`: every directive in the comma-separated list is valid.
pub uninterp spec fn filter_accepts(directives: Seq<char>) -> bool;

/// The directives used when the environment gives none that can be used:
/// warnings and above.
pub open spec fn default_directives() -> Seq<char> {
    "warn"@
}

/// Whether a setting can be installed as it is: the parser returns on it,
/// and returns a filter. On a text with an unsound cut the parser gives no
/// filter: it fails at an earlier place, or it panics at that cut.
pub open spec fn usable(directives: Seq<char>) -> bool {
    all_cuts_clean(directives) && filter_accepts(directives)
}

/// The directives to install, given the setting found in the environment and
/// whether it can be used.
pub open spec fn directives_for(setting: Option<String>, usable: bool) -> Seq<char> {
    match setting {
        Some(directives) => if usable {
            directives@
        } else {
            default_directives()
        },
        None => default_directives(),
    }
}

/// Calls `tracing_subscriber::EnvFilter::try_new` and tells whether it gave a
/// filter. Trusted: that the answer depends on the text alone, and that the
/// call returns on every text whose cuts are all sound. (The parser walks each
/// directive without the white space around it and cuts the directive, white
/// space included, at the offsets it met: a cut inside a character panics.)
#[verifier::external_body]
fn parses(directives: &str) -> (ok: bool)
    requires
        all_cuts_clean(directives@),
    ensures
        ok == filter_accepts(directives@),
{
    EnvFilter::try_new(directives).is_ok()
}

/// Tells whether `directives` can be installed as they are.
pub fn is_usable(directives: &str) -> (ok: bool)
    ensures
        ok == usable(directives@),
{
    cuts_cleanly(directives) && parses(directives)
}

/// Picks the directives to install: the setting where there is one and it
/// can be used, warnings and above otherwise. There is no failure.
pub fn directives_or_default(setting: Option<String>, usable: bool) -> (directives: String)
    ensures
        directives@ == directives_for(setting, usable),
{
    match setting {
        Some(given) => if usable {
            given
        } else {
            String::from_str("warn")
        },
        None => String::from_str("warn"),
    }
}

/// The directives to install for the setting found in the environment
/// (`None` where the variable is unset or is not text).
pub fn filter_directives(setting: Option<String>) -> (directives: String)
    ensures
        directives@ == match setting {
            Some(given) => directives_for(setting, usable(given@)),
            None => default_directives(),
        },
{
    let ok: bool = match &setting {
        Some(given) => is_usable(given.as_str()),
        None => false,
    };
    directives_or_default(setting, ok)
}

/// With no setting the subscriber filters at warnings and above.
pub proof fn lemma_unset_filter_defaults(usable: bool)
    ensures
        directives_for(None, usable) == default_directives(),
{
}

/// Whatever the setting, the directives installed are the setting itself or
/// the default: nothing else is ever chosen.
pub proof fn lemma_directives_are_setting_or_default(setting: Option<String>, usable: bool)
    ensures
        directives_for(setting, usable) == default_directives() || (setting matches Some(given)
            && usable && directives_for(setting, usable) == given@),
{
}

} // verus!
