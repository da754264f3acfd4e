//! Discovery configurations: which directories a walk descends into, and
//! which of them become collections.

use crate::pattern::{any_match, any_matches, glob_match, glob_matches};
use crate::text::{chars_of, strings};
use vstd::prelude::*;
use vstd::string::StringExecFns;

verus! {

/// The lists of glob patterns that a directory's configuration file holds.
/// Each of them may be empty.
#[derive(Debug, PartialEq, Eq)]
pub struct DiscoveryConfig {
    /// Which directories with request files become collections. The patterns
    /// are matched against the path from the configuration's directory.
    pub entries: Vec<String>,
    /// Which directories the walk descends into. The patterns are matched
    /// against the path from the workspace root.
    pub includes: Vec<String>,
    /// Which directories the walk leaves out. The patterns are matched against
    /// the path from the workspace root. A pattern that ends in `/**` stands
    /// for a directory with everything below it: `dir/**` leaves out `dir`
    /// too, and not only what lies below.
    pub excludes: Vec<String>,
}

/// What a `DiscoveryConfig` holds, as plain text.
pub struct DiscoveryConfigView {
    pub entries: Seq<Seq<char>>,
    pub includes: Seq<Seq<char>>,
    pub excludes: Seq<Seq<char>>,
}

impl View for DiscoveryConfig {
    type V = DiscoveryConfigView;

    open spec fn view(&self) -> DiscoveryConfigView {
        DiscoveryConfigView {
            entries: strings(self.entries@),
            includes: strings(self.includes@),
            excludes: strings(self.excludes@),
        }
    }
}

/// The configuration in force in a directory, with the directory that
/// defined it.
#[derive(Debug, PartialEq, Eq)]
pub struct ActiveConfig {
    /// The nearest directory, the current one or one above it, that holds a
    /// configuration file.
    pub origin_dir: String,
    /// What that file holds.
    pub config: DiscoveryConfig,
}

/// What an `ActiveConfig` holds, as plain text.
pub struct ActiveConfigView {
    pub origin_dir: Seq<char>,
    pub config: DiscoveryConfigView,
}

impl View for ActiveConfig {
    type V = ActiveConfigView;

    open spec fn view(&self) -> ActiveConfigView {
        ActiveConfigView { origin_dir: self.origin_dir@, config: self.config@ }
    }
}

/// What an optional `ActiveConfig` holds, as plain text.
pub open spec fn active_view(active: Option<ActiveConfig>) -> Option<ActiveConfigView> {
    match active {
        Some(a) => Some(a@),
        None => None,
    }
}

/// The path of a directory written as a directory: followed by `/`.
pub open spec fn directory_form(relative: Seq<char>) -> Seq<char> {
    relative.push('/')
}

/// The end of a pattern that names everything below a directory.
pub open spec fn below_suffix() -> Seq<char> {
    seq!['/', '*', '*']
}

/// Tells whether `pattern` names everything below a directory: it ends in
/// `/**`.
pub open spec fn names_all_below(pattern: Seq<char>) -> bool {
    below_suffix().is_suffix_of(pattern)
}

/// Tells whether `pattern` names everything below a directory and that
/// directory is the one at `relative`, or one above it.
pub open spec fn covers(pattern: Seq<char>, relative: Seq<char>) -> bool {
    names_all_below(pattern) && glob_matches(pattern, directory_form(relative))
}

/// Tells whether any pattern of `patterns` covers the directory at
/// `relative`.
pub open spec fn any_covers(patterns: Seq<Seq<char>>, relative: Seq<char>) -> bool {
    exists|i: int| 0 <= i < patterns.len() && covers(#[trigger] patterns[i], relative)
}

/// Tells whether the directory at `relative` is left out: a pattern of
/// `excludes` matches its path, or one that ends in `/**` covers it.
pub open spec fn is_excluded(config: DiscoveryConfigView, relative: Seq<char>) -> bool {
    any_matches(config.excludes, relative) || any_covers(config.excludes, relative)
}

/// Tells whether the walk descends into the directory at `relative`: it is
/// not left out and, where `includes` is not empty, one of its patterns
/// matches the path.
pub open spec fn is_included(config: DiscoveryConfigView, relative: Seq<char>) -> bool {
    !is_excluded(config, relative) && (config.includes.len() == 0 || any_matches(
        config.includes,
        relative,
    ))
}

/// Tells whether a directory with request files at `relative` becomes a
/// collection: `entries` is empty, or one of its patterns matches.
pub open spec fn is_entry(config: DiscoveryConfigView, relative: Seq<char>) -> bool {
    config.entries.len() == 0 || any_matches(config.entries, relative)
}

/// The configuration in force in `dir`: the one that `dir` holds itself,
/// with `dir` as its origin, or else the inherited one.
pub open spec fn effective_config(
    inherited: Option<ActiveConfigView>,
    dir: Seq<char>,
    local: Option<DiscoveryConfigView>,
) -> Option<ActiveConfigView> {
    match local {
        Some(config) => Some(ActiveConfigView { origin_dir: dir, config }),
        None => inherited,
    }
}

/// A pattern of `excludes` that matches prunes the directory, whatever
/// `includes` holds: also where a pattern of `includes` matches the same
/// path.
pub proof fn lemma_exclude_wins(config: DiscoveryConfigView, relative: Seq<char>)
    requires
        any_matches(config.excludes, relative),
    ensures
        !is_included(config, relative),
{
}

/// A pattern of `excludes` that ends in `/**` prunes the directory it names
/// as it prunes what lies below: where it matches the directory's path
/// followed by `/`, the walk does not enter the directory.
pub proof fn lemma_cover_prunes(config: DiscoveryConfigView, relative: Seq<char>, i: int)
    requires
        0 <= i < config.excludes.len(),
        names_all_below(config.excludes[i]),
        glob_matches(config.excludes[i], directory_form(relative)),
    ensures
        !is_included(config, relative),
{
    assert(covers(config.excludes[i], relative));
}

/// Where no pattern of `excludes` ends in `/**`, descent goes by the path
/// alone: the directory is entered exactly when no pattern of `excludes`
/// matches its path and, where `includes` is not empty, one of its patterns
/// does.
pub proof fn lemma_descent_by_path(config: DiscoveryConfigView, relative: Seq<char>)
    requires
        forall|i: int| 0 <= i < config.excludes.len() ==> !names_all_below(
            #[trigger] config.excludes[i],
        ),
    ensures
        is_included(config, relative) == (!any_matches(config.excludes, relative) && (
        config.includes.len() == 0 || any_matches(config.includes, relative))),
{
}

/// A directory without a configuration of its own is governed by the
/// inherited one, unchanged; a directory with one is governed by that alone,
/// with itself as origin, whatever was inherited.
pub proof fn lemma_config_inheritance(
    inherited: Option<ActiveConfigView>,
    other: Option<ActiveConfigView>,
    dir: Seq<char>,
    local: DiscoveryConfigView,
)
    ensures
        effective_config(inherited, dir, None) == inherited,
        effective_config(inherited, dir, Some(local)) == Some(
            ActiveConfigView { origin_dir: dir, config: local },
        ),
        effective_config(inherited, dir, Some(local)) == effective_config(other, dir, Some(local)),
{
}

/// A copy of the strings of `v`.
pub fn copy_strings(v: &Vec<String>) -> (r: Vec<String>)
    ensures
        strings(r@) == strings(v@),
{
    let mut r: Vec<String> = Vec::new();
    let mut i: usize = 0;
    while i < v.len()
        invariant
            i <= v.len(),
            strings(r@) == strings(v@).take(i as int),
        decreases v.len() - i,
    {
        let ghost before = strings(r@);
        let item = v[i].clone();
        assert(item@ == v@[i as int]@);
        r.push(item);
        proof {
            assert(strings(r@) =~= before.push(v@[i as int]@));
            assert(strings(r@) =~= strings(v@).take(i + 1));
        }
        i += 1;
    }
    proof {
        assert(strings(v@).take(v.len() as int) =~= strings(v@));
    }
    r
}

impl Default for DiscoveryConfig {
    /// The configuration without patterns: every directory is descended
    /// into, and every directory with request files becomes a collection.
    fn default() -> (r: DiscoveryConfig)
        ensures
            r@.entries.len() == 0,
            r@.includes.len() == 0,
            r@.excludes.len() == 0,
    {
        DiscoveryConfig { entries: Vec::new(), includes: Vec::new(), excludes: Vec::new() }
    }
}

impl DiscoveryConfig {
    /// A copy of this configuration.
    pub fn duplicate(&self) -> (r: DiscoveryConfig)
        ensures
            r@ == self@,
    {
        DiscoveryConfig {
            entries: copy_strings(&self.entries),
            includes: copy_strings(&self.includes),
            excludes: copy_strings(&self.excludes),
        }
    }
}

impl ActiveConfig {
    /// A copy of this configuration and its origin.
    pub fn duplicate(&self) -> (r: ActiveConfig)
        ensures
            r@ == self@,
    {
        ActiveConfig { origin_dir: self.origin_dir.clone(), config: self.config.duplicate() }
    }
}

/// Decides on descent from what the patterns said: `excluded` tells whether
/// a pattern that excludes matched, `restricted` whether there are patterns
/// that include, and `included` whether one of those matched.
pub fn decide_descent(excluded: bool, restricted: bool, included: bool) -> (r: bool)
    ensures
        r == (!excluded && (!restricted || included)),
        excluded ==> !r,
{
    if excluded {
        false
    } else if restricted {
        included
    } else {
        true
    }
}

/// Decides on promotion from what the patterns said: `restricted` tells
/// whether there are entries at all, and `matched` whether one of them
/// matched.
pub fn decide_entry(restricted: bool, matched: bool) -> (r: bool)
    ensures
        r == (!restricted || matched),
{
    !restricted || matched
}

/// Tells whether `pattern` ends in `/**`.
pub fn ends_below(pattern: &str) -> (r: bool)
    ensures
        r == names_all_below(pattern@),
{
    let chars = chars_of(pattern);
    let n = chars.len();
    let r = n >= 3 && chars[n - 3] == '/' && chars[n - 2] == '*' && chars[n - 1] == '*';
    proof {
        if n >= 3 {
            let tail = pattern@.subrange(n - 3, n as int);
            if r {
                assert(tail =~= below_suffix());
            } else if tail == below_suffix() {
                assert(tail[0] == '/' && tail[1] == '*' && tail[2] == '*');
            }
        }
    }
    r
}

/// Tells whether any pattern of `patterns` covers the directory at
/// `relative`.
pub fn any_cover(patterns: &Vec<String>, relative: &str) -> (r: bool)
    ensures
        r == any_covers(strings(patterns@), relative@),
{
    let mut as_directory = String::from_str(relative);
    as_directory.push('/');
    let ghost texts = strings(patterns@);
    let mut i: usize = 0;
    while i < patterns.len()
        invariant
            i <= patterns.len(),
            texts == strings(patterns@),
            as_directory@ == directory_form(relative@),
            forall|j: int| 0 <= j < i ==> !covers(#[trigger] texts[j], relative@),
        decreases patterns.len() - i,
    {
        if ends_below(patterns[i].as_str()) && glob_match(
            patterns[i].as_str(),
            as_directory.as_str(),
        ) {
            proof {
                assert(covers(texts[i as int], relative@));
            }
            return true;
        }
        i += 1;
    }
    false
}

/// Tells whether the walk descends into the directory at `relative`, a path
/// from the workspace root. A pattern of `excludes` that matches the path
/// always prunes it, and so does one that ends in `/**` and covers it; where
/// `includes` is not empty, one of its patterns has to match the path.
pub fn path_included(config: &DiscoveryConfig, relative: &str) -> (r: bool)
    ensures
        r == is_included(config@, relative@),
        any_matches(config@.excludes, relative@) ==> !r,
        (forall|i: int|
            0 <= i < config@.excludes.len() ==> !names_all_below(#[trigger] config@.excludes[i]))
            ==> r == (!any_matches(config@.excludes, relative@) && (config@.includes.len() == 0
            || any_matches(config@.includes, relative@))),
{
    let excluded = any_match(&config.excludes, relative) || any_cover(&config.excludes, relative);
    let restricted = config.includes.len() > 0;
    let included = !excluded && restricted && any_match(&config.includes, relative);
    decide_descent(excluded, restricted, included)
}

/// Tells whether a directory with request files at `relative`, a path from
/// the configuration's own directory, becomes a collection.
pub fn matches_entries(config: &DiscoveryConfig, relative: &str) -> (r: bool)
    ensures
        r == is_entry(config@, relative@),
{
    let restricted = config.entries.len() > 0;
    let matched = restricted && any_match(&config.entries, relative);
    decide_entry(restricted, matched)
}

} // verus!
