use vstd::prelude::*;

use crate::matcher::{chars_match_at, chars_of, first_char_index, occurs_in};
use crate::update::UpdateFrequency;

verus! {

/// Seconds in a day.
pub const SECS_PER_DAY: u64 = 86400;

/// Seconds in a week.
pub const SECS_PER_WEEK: u64 = 604800;

/// The version that a build carries when it was not released.
pub open spec fn unreleased_version() -> Seq<char> {
    seq!['0', '.', '1', '.', '0']
}

/// A development build: its version mentions `dev`, or it is the unreleased version.
pub open spec fn is_dev_version_spec(v: Seq<char>) -> bool {
    occurs_in(v, seq!['d', 'e', 'v']) || v == unreleased_version()
}

/// A pre-release build, which checks on every start whatever the frequency:
/// any version but the unreleased one that does not start with `0.8`.
pub open spec fn is_test_version_spec(v: Seq<char>) -> bool {
    v != unreleased_version() && !(v.len() >= 3 && v.subrange(0, 3) == seq!['0', '.', '8'])
}

/// Seconds between two checks for a given frequency (zero: check every time).
pub open spec fn frequency_secs(f: UpdateFrequency) -> u64 {
    match f {
        UpdateFrequency::Daily => SECS_PER_DAY,
        UpdateFrequency::Weekly => SECS_PER_WEEK,
        UpdateFrequency::Never => 0,
    }
}

/// Whether `a` and `b` hold the same characters.
fn same_chars(a: &Vec<char>, b: &Vec<char>) -> (r: bool)
    ensures
        r == (a@ == b@),
{
    if a.len() != b.len() {
        return false;
    }
    let r = chars_match_at(a, b, 0);
    assert(a@.subrange(0, b.len() as int) =~= a@);
    r
}

/// Whether the build of version `version` is a development build, which never
/// looks for updates.
pub fn is_dev_version(version: &str) -> (r: bool)
    ensures
        r == is_dev_version_spec(version@),
{
    proof {
        reveal_strlit("dev");
        reveal_strlit("0.1.0");
    }
    let v = chars_of(version);
    let dev_chars = chars_of("dev");
    assert(dev_chars@ =~= seq!['d', 'e', 'v']);
    let dev = first_char_index(&v, &dev_chars).is_some();
    let unreleased = chars_of("0.1.0");
    assert(unreleased@ =~= unreleased_version());
    dev || same_chars(&v, &unreleased)
}

/// Whether the build of version `version` is a pre-release build.
pub fn is_test_version(version: &str) -> (r: bool)
    ensures
        r == is_test_version_spec(version@),
{
    proof {
        reveal_strlit("0.1.0");
        reveal_strlit("0.8");
    }
    let v = chars_of(version);
    let unreleased = chars_of("0.1.0");
    let prefix = chars_of("0.8");
    assert(unreleased@ =~= unreleased_version());
    assert(prefix@ =~= seq!['0', '.', '8']);
    let starts = v.len() >= prefix.len() && chars_match_at(&v, &prefix, 0);
    !same_chars(&v, &unreleased) && !starts
}

/// Seconds to wait between two checks for updates: none for a pre-release
/// build, else as `frequency` says.
pub fn check_interval_secs(frequency: UpdateFrequency, version: &str) -> (r: u64)
    ensures
        r == (if is_test_version_spec(version@) {
            0
        } else {
            frequency_secs(frequency)
        }),
{
    if is_test_version(version) {
        0
    } else {
        match frequency {
            UpdateFrequency::Daily => SECS_PER_DAY,
            UpdateFrequency::Weekly => SECS_PER_WEEK,
            UpdateFrequency::Never => 0,
        }
    }
}

/// What to do once a newer release is known.
#[derive(Debug, Clone, Copy, PartialEq, Eq, Structural)]
pub enum UpdateAction {
    /// Install it without asking.
    Install,
    /// Ask the user first.
    Ask,
}

/// Installs at once when updates are automatic, else asks.
pub fn action_for_new_release(auto_update: bool) -> (r: UpdateAction)
    ensures
        r == (if auto_update {
            UpdateAction::Install
        } else {
            UpdateAction::Ask
        }),
{
    if auto_update {
        UpdateAction::Install
    } else {
        UpdateAction::Ask
    }
}

} // verus!
