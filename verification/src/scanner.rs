//! Choosing the files of a search among the paths that were found on disk.

use crate::error::LogSearchError;
use crate::model::string_views;
use crate::model::FileScanConfig;
use crate::sorting::sort_dedup;
use crate::sorting::strictly_sorted;
use crate::text::replace_char;
use crate::text::replaced;
use globset::Glob;
use globset::GlobSet;
use globset::GlobSetBuilder;
use vstd::prelude::*;
use vstd::string::StringExecFns;

verus! {

/// The `globset` crate's parsed pattern. Proofs see nothing inside it.
#[verifier::external_type_specification]
#[verifier::external_body]
pub struct ExGlob(Glob);

/// The `globset` crate's set of patterns under construction.
#[verifier::external_type_specification]
#[verifier::external_body]
pub struct ExGlobSetBuilder(GlobSetBuilder);

/// The `globset` crate's set of patterns, ready to match.
#[verifier::external_type_specification]
#[verifier::external_body]
pub struct ExGlobSet(GlobSet);

/// The `globset` crate's error.
#[verifier::external_type_specification]
#[verifier::external_body]
pub struct ExGlobError(globset::Error);

/// What `Glob::new` gives for a pattern: the parsed pattern, or nothing where
/// the pattern is malformed.
pub uninterp spec fn glob_parsed(pattern: Seq<char>) -> Option<Glob>;

/// The patterns that were added to a builder, in the order of their adding.
pub uninterp spec fn builder_globs(builder: GlobSetBuilder) -> Seq<Glob>;

/// What `GlobSetBuilder::build` gives for the patterns of a builder: the set,
/// or nothing where it cannot be made.
pub uninterp spec fn globset_built(globs: Seq<Glob>) -> Option<GlobSet>;

/// The number of patterns in a set, as `GlobSet::len` counts them.
pub uninterp spec fn globset_len(set: GlobSet) -> nat;

/// Whether `GlobSet::is_match` finds a pattern of the set that matches the
/// path, under the path rules of the platform that the library is built for.
pub uninterp spec fn globset_matches(set: GlobSet, path: Seq<char>) -> bool;

/// Calls `Glob::new`. Trusted: the outcome is the one that `glob_parsed` names.
#[verifier::external_body]
pub(crate) fn glob_new(pattern: &str) -> (r: Result<Glob, globset::Error>)
    ensures
        r is Ok <==> glob_parsed(pattern@) is Some,
        r is Ok ==> glob_parsed(pattern@) == Some(r->Ok_0),
{
    Glob::new(pattern)
}

/// Calls `GlobSetBuilder::new`. Trusted: the new builder holds no pattern.
#[verifier::external_body]
pub(crate) fn builder_new() -> (builder: GlobSetBuilder)
    ensures
        builder_globs(builder) == Seq::<Glob>::empty(),
{
    GlobSetBuilder::new()
}

/// Calls `GlobSetBuilder::add`. Trusted: the pattern is added behind the others.
#[verifier::external_body]
pub(crate) fn builder_add(builder: &mut GlobSetBuilder, glob: Glob)
    ensures
        builder_globs(*final(builder)) == builder_globs(*old(builder)).push(glob),
{
    builder.add(glob);
}

/// Calls `GlobSetBuilder::build`. Trusted: the outcome is the one that
/// `globset_built` names for the patterns of the builder, and a set that is
/// made counts as many patterns as the builder holds.
#[verifier::external_body]
pub(crate) fn builder_build(builder: &GlobSetBuilder) -> (r: Result<GlobSet, globset::Error>)
    ensures
        r is Ok <==> globset_built(builder_globs(*builder)) is Some,
        r is Ok ==> globset_built(builder_globs(*builder)) == Some(r->Ok_0),
        r is Ok ==> globset_len(r->Ok_0) == builder_globs(*builder).len(),
{
    builder.build()
}

/// Calls `GlobSet::is_empty`. Trusted: a set is empty where it counts no pattern.
#[verifier::external_body]
pub(crate) fn globset_is_empty(set: &GlobSet) -> (b: bool)
    ensures
        b == (globset_len(*set) == 0),
{
    set.is_empty()
}

/// Calls `GlobSet::is_match` on a path given as text. Trusted: the answer is
/// the one that `globset_matches` names.
#[verifier::external_body]
pub(crate) fn globset_is_match(set: &GlobSet, path: &str) -> (b: bool)
    ensures
        b == globset_matches(*set, path@),
{
    set.is_match(path)
}

/// Renders an error of the `globset` crate as text. Nothing is claimed of the text.
#[verifier::external_body]
pub(crate) fn glob_error_text(e: &globset::Error) -> String {
    e.to_string()
}

/// What a look at one path on disk found.
#[derive(Debug, Clone)]
pub struct PathProbe {
    pub path: String,
    /// The path exists and names a regular file.
    pub is_file: bool,
}

/// The parsed forms of a sequence of patterns, or nothing where one of them
/// is malformed.
pub open spec fn spec_globs(patterns: Seq<Seq<char>>) -> Option<Seq<Glob>>
    decreases patterns.len(),
{
    if patterns.len() == 0 {
        Some(Seq::empty())
    } else {
        match (spec_globs(patterns.drop_last()), glob_parsed(patterns.last())) {
            (Some(globs), Some(glob)) => Some(globs.push(glob)),
            _ => None,
        }
    }
}

/// The set made of a sequence of patterns, or nothing where a pattern is
/// malformed or the set cannot be made.
pub open spec fn spec_globset(patterns: Seq<Seq<char>>) -> Option<GlobSet> {
    match spec_globs(patterns) {
        Some(globs) => globset_built(globs),
        None => None,
    }
}

/// Whether a set matches a path: an empty set matches every path; any other
/// matches where it matches the path as written, or the path with each
/// backslash turned into a slash.
pub open spec fn path_matches(set: GlobSet, path: Seq<char>) -> bool {
    ||| globset_len(set) == 0
    ||| globset_matches(set, path)
    ||| globset_matches(set, replaced(path, '\\', "/"@))
}

/// Whether a path found under the root is kept: no exclusion pattern matches
/// it, and an inclusion pattern does.
pub open spec fn selects(includes: GlobSet, excludes: GlobSet, path: Seq<char>) -> bool {
    &&& !(globset_len(excludes) != 0 && path_matches(excludes, path))
    &&& globset_len(includes) == 0 || path_matches(includes, path)
}

/// The inclusion patterns of a search that names none.
pub open spec fn default_includes() -> Seq<Seq<char>> {
    seq!["**/*.log"@, "**/*.log.gz"@, "**/*.gz"@]
}

/// The inclusion patterns that a search uses.
pub open spec fn effective_includes(config: FileScanConfig) -> Seq<Seq<char>> {
    if config.include_globs@.len() == 0 {
        default_includes()
    } else {
        string_views(config.include_globs@)
    }
}

/// `path` is among the probes as a regular file.
pub open spec fn probed_file(probes: Seq<PathProbe>, path: Seq<char>) -> bool {
    exists|i: int| 0 <= i < probes.len() && (#[trigger] probes[i]).is_file && probes[i].path@ == path
}

/// Whether a search reads `path`: it is one of the explicit paths and a
/// regular file; or a root is set, `path` was found under it as a regular
/// file, and the patterns keep it.
pub open spec fn is_chosen(
    config: FileScanConfig,
    explicit: Option<Vec<PathProbe>>,
    walked: Seq<PathProbe>,
    path: Seq<char>,
) -> bool {
    ||| explicit matches Some(list) && probed_file(list@, path)
    ||| {
        &&& config.root_path@.len() > 0
        &&& probed_file(walked, path)
        &&& spec_globset(effective_includes(config)) matches Some(includes)
        &&& spec_globset(string_views(config.exclude_globs@)) matches Some(excludes)
        &&& selects(includes, excludes, path)
    }
}

/// Whether the patterns of a search can be used: with a root set, the
/// includes and the exclusion patterns must each make a set.
pub open spec fn globs_usable(config: FileScanConfig) -> bool {
    config.root_path@.len() > 0 ==> spec_globset(effective_includes(config)) is Some
        && spec_globset(string_views(config.exclude_globs@)) is Some
}

/// Makes a set of the patterns.
pub fn build_globset(patterns: &Vec<String>) -> (r: Result<GlobSet, LogSearchError>)
    ensures
        r is Ok <==> spec_globset(string_views(patterns@)) is Some,
        r matches Ok(set) ==> spec_globset(string_views(patterns@)) == Some(set) && (globset_len(
            set,
        ) == 0 <==> patterns@.len() == 0),
        r matches Err(e) ==> e is ConfigError,
{
    let ghost texts = string_views(patterns@);
    let mut builder = builder_new();
    let mut i: usize = 0;
    proof {
        assert(texts.take(0) =~= Seq::<Seq<char>>::empty());
    }
    while i < patterns.len()
        invariant
            i <= patterns@.len(),
            texts == string_views(patterns@),
            spec_globs(texts.take(i as int)) == Some(builder_globs(builder)),
            builder_globs(builder).len() == i,
        decreases patterns@.len() - i,
    {
        proof {
            assert(texts.take(i + 1).drop_last() =~= texts.take(i as int));
            assert(texts.take(i + 1).last() == patterns@[i as int]@);
        }
        match glob_new(patterns[i].as_str()) {
            Ok(glob) => {
                builder_add(&mut builder, glob);
            },
            Err(e) => {
                proof {
                    lemma_globs_fail(texts, i + 1);
                }
                return Err(LogSearchError::ConfigError(glob_error_text(&e)));
            },
        }
        i += 1;
    }
    proof {
        assert(texts.take(patterns@.len() as int) =~= texts);
    }
    match builder_build(&builder) {
        Ok(set) => Ok(set),
        Err(e) => Err(LogSearchError::ConfigError(glob_error_text(&e))),
    }
}

proof fn lemma_globs_fail(patterns: Seq<Seq<char>>, n: int)
    requires
        0 <= n <= patterns.len(),
        spec_globs(patterns.take(n)) is None,
    ensures
        spec_globs(patterns) is None,
    decreases patterns.len() - n,
{
    if n < patterns.len() {
        assert(patterns.take(n + 1).drop_last() =~= patterns.take(n));
        lemma_globs_fail(patterns, n + 1);
    } else {
        assert(patterns.take(n) =~= patterns);
    }
}

/// Tells whether a set matches a path.
pub fn matches(set: &GlobSet, path: &str) -> (b: bool)
    ensures
        b == path_matches(*set, path@),
{
    if globset_is_empty(set) {
        return true;
    }
    if globset_is_match(set, path) {
        return true;
    }
    let normalized = replace_char(path, '\\', "/");
    globset_is_match(set, normalized.as_str())
}

/// Chooses the files of a search. It holds no state.
#[derive(Debug, Clone, Copy)]
pub struct FileScanner;

impl Default for FileScanner {
    fn default() -> (s: FileScanner) {
        FileScanner
    }
}

proof fn lemma_push_contains(paths: Seq<Seq<char>>, last: Seq<char>, p: Seq<char>)
    ensures
        paths.push(last).contains(p) <==> paths.contains(p) || p == last,
{
    let longer = paths.push(last);
    if paths.contains(p) {
        let k = choose|k: int| 0 <= k < paths.len() && paths[k] == p;
        assert(longer[k] == p);
    }
    if p == last {
        assert(longer[paths.len() as int] == p);
    }
    if longer.contains(p) {
        let k = choose|k: int| 0 <= k < longer.len() && longer[k] == p;
        if k < paths.len() {
            assert(paths[k] == p);
        }
    }
}

proof fn lemma_probed_step_at(probes: Seq<PathProbe>, i: int, p: Seq<char>)
    requires
        0 <= i < probes.len(),
    ensures
        probed_file(probes.take(i + 1), p) <==> probed_file(probes.take(i), p) || (
        probes[i].is_file && probes[i].path@ == p),
{
    let next = probes.take(i + 1);
    let prev = probes.take(i);
    if probed_file(prev, p) {
        let k = choose|k: int|
            0 <= k < prev.len() && (#[trigger] prev[k]).is_file && prev[k].path@ == p;
        assert(next[k] == prev[k]);
    }
    if probes[i].is_file && probes[i].path@ == p {
        assert(next[i] == probes[i]);
    }
    if probed_file(next, p) {
        let k = choose|k: int|
            0 <= k < next.len() && (#[trigger] next[k]).is_file && next[k].path@ == p;
        if k < i {
            assert(prev[k] == next[k]);
        } else {
            assert(next[k] == probes[i]);
        }
    }
}

fn push_files(probes: &Vec<PathProbe>, files: &mut Vec<String>)
    ensures
        forall|p: Seq<char>|
            #[trigger] string_views(final(files)@).contains(p) <==> string_views(old(files)@).contains(p)
                || probed_file(probes@, p),
{
    let ghost start = string_views(files@);
    let mut i: usize = 0;
    proof {
        assert(probes@.take(0).len() == 0);
    }
    while i < probes.len()
        invariant
            i <= probes@.len(),
            forall|p: Seq<char>|
                #[trigger] string_views(files@).contains(p) <==> start.contains(p) || probed_file(
                    probes@.take(i as int),
                    p,
                ),
        decreases probes@.len() - i,
    {
        let probe: &PathProbe = &probes[i];
        let ghost before = string_views(files@);
        if probe.is_file {
            let path = probe.path.clone();
            proof {
                assert(string_views(files@.push(path)) =~= before.push(path@));
            }
            files.push(path);
        }
        proof {
            assert forall|p: Seq<char>|
                #[trigger] string_views(files@).contains(p) <==> start.contains(p) || probed_file(
                    probes@.take(i + 1),
                    p,
                ) by {
                lemma_probed_step_at(probes@, i as int, p);
                assert(before.contains(p) <==> start.contains(p) || probed_file(
                    probes@.take(i as int),
                    p,
                ));
                if probe.is_file {
                    lemma_push_contains(before, probe.path@, p);
                }
            }
        }
        i += 1;
    }
    proof {
        assert(probes@.take(probes@.len() as int) =~= probes@);
    }
}

fn push_selected(
    walked: &Vec<PathProbe>,
    includes: &GlobSet,
    excludes: &GlobSet,
    files: &mut Vec<String>,
)
    ensures
        forall|p: Seq<char>|
            #[trigger] string_views(final(files)@).contains(p) <==> string_views(old(files)@).contains(p) || (
            probed_file(walked@, p) && selects(*includes, *excludes, p)),
{
    let ghost start = string_views(files@);
    let mut i: usize = 0;
    proof {
        assert(walked@.take(0).len() == 0);
    }
    while i < walked.len()
        invariant
            i <= walked@.len(),
            forall|p: Seq<char>|
                #[trigger] string_views(files@).contains(p) <==> start.contains(p) || (probed_file(
                    walked@.take(i as int),
                    p,
                ) && selects(*includes, *excludes, p)),
        decreases walked@.len() - i,
    {
        let probe: &PathProbe = &walked[i];
        let ghost before = string_views(files@);
        let mut keep: bool = false;
        if probe.is_file {
            let path: &str = probe.path.as_str();
            let dropped: bool = !globset_is_empty(excludes) && matches(excludes, path);
            if !dropped && (globset_is_empty(includes) || matches(includes, path)) {
                keep = true;
            }
        }
        if keep {
            let path = probe.path.clone();
            proof {
                assert(string_views(files@.push(path)) =~= before.push(path@));
            }
            files.push(path);
        }
        proof {
            assert(keep == (probe.is_file && selects(*includes, *excludes, probe.path@)));
            assert forall|p: Seq<char>|
                #[trigger] string_views(files@).contains(p) <==> start.contains(p) || (probed_file(
                    walked@.take(i + 1),
                    p,
                ) && selects(*includes, *excludes, p)) by {
                lemma_probed_step_at(walked@, i as int, p);
                assert(before.contains(p) <==> start.contains(p) || (probed_file(
                    walked@.take(i as int),
                    p,
                ) && selects(*includes, *excludes, p)));
                if keep {
                    lemma_push_contains(before, probe.path@, p);
                }
            }
        }
        i += 1;
    }
    proof {
        assert(walked@.take(walked@.len() as int) =~= walked@);
    }
}

impl FileScanner {
    pub fn new() -> (s: FileScanner) {
        FileScanner
    }

    /// Chooses among the paths found under the root of `config`: see
    /// [`FileScanner::scan_with_paths`], without explicit paths.
    pub fn scan(&self, config: &FileScanConfig, walked: &Vec<PathProbe>) -> (r: Result<
        Vec<String>,
        LogSearchError,
    >)
        ensures
            r is Ok <==> globs_usable(*config),
            r matches Ok(files) ==> strictly_sorted(string_views(files@)) && (forall|p: Seq<char>|
                #[trigger] string_views(files@).contains(p) <==> is_chosen(*config, None, walked@, p)),
            r matches Err(e) ==> e is ConfigError,
    {
        self.scan_with_paths(config, &None, walked)
    }

    /// Chooses the files of a search, in order and each once. `explicit` holds
    /// the explicit paths with what a look at each found; `walked` holds every
    /// path found under the root of `config`. An explicit path is chosen where
    /// it is a regular file. With a root set, a path found under it is chosen
    /// where it is a regular file, no exclusion pattern matches it, and an
    /// inclusion pattern does; malformed patterns then fail the scan.
    pub fn scan_with_paths(
        &self,
        config: &FileScanConfig,
        explicit: &Option<Vec<PathProbe>>,
        walked: &Vec<PathProbe>,
    ) -> (r: Result<Vec<String>, LogSearchError>)
        ensures
            r is Ok <==> globs_usable(*config),
            r matches Ok(files) ==> strictly_sorted(string_views(files@)) && (forall|p: Seq<char>|
                #[trigger] string_views(files@).contains(p) <==> is_chosen(*config, *explicit, walked@, p)),
            r matches Err(e) ==> e is ConfigError,
    {
        let mut files: Vec<String> = Vec::new();
        proof {
            assert(string_views(files@) =~= Seq::<Seq<char>>::empty());
        }
        if let Some(list) = explicit {
            push_files(list, &mut files);
        }
        if config.root_path.as_str().is_empty() {
            let sorted = sort_dedup(files);
            proof {
                assert forall|p: Seq<char>|
                    #[trigger] string_views(sorted@).contains(p) <==> is_chosen(
                        *config,
                        *explicit,
                        walked@,
                        p,
                    ) by {
                    assert(string_views(sorted@).contains(p) <==> string_views(files@).contains(
                        p,
                    ));
                }
            }
            return Ok(sorted);
        }
        let includes: GlobSet = if config.include_globs.len() == 0 {
            let mut defaults: Vec<String> = Vec::new();
            defaults.push(String::from_str("**/*.log"));
            defaults.push(String::from_str("**/*.log.gz"));
            defaults.push(String::from_str("**/*.gz"));
            proof {
                assert(string_views(defaults@) =~= default_includes());
            }
            match build_globset(&defaults) {
                Ok(set) => set,
                Err(e) => {
                    return Err(e);
                },
            }
        } else {
            match build_globset(&config.include_globs) {
                Ok(set) => set,
                Err(e) => {
                    return Err(e);
                },
            }
        };
        let excludes: GlobSet = match build_globset(&config.exclude_globs) {
            Ok(set) => set,
            Err(e) => {
                return Err(e);
            },
        };
        push_selected(walked, &includes, &excludes, &mut files);
        let sorted = sort_dedup(files);
        proof {
            assert forall|p: Seq<char>|
                #[trigger] string_views(sorted@).contains(p) <==> is_chosen(
                    *config,
                    *explicit,
                    walked@,
                    p,
                ) by {
                assert(string_views(sorted@).contains(p) <==> string_views(files@).contains(p));
            }
        }
        Ok(sorted)
    }
}

/// To choose again among the files that were chosen changes nothing: where
/// `first` holds, in strict order, the kept paths of `walked`, and `second`
/// holds, in strict order, the kept paths of `again`, a list that presents
/// each path of `first` as a regular file, then `second` is `first`.
pub proof fn law_scan_idempotent(
    includes: GlobSet,
    excludes: GlobSet,
    walked: Seq<PathProbe>,
    first: Seq<Seq<char>>,
    again: Seq<PathProbe>,
    second: Seq<Seq<char>>,
)
    requires
        strictly_sorted(first),
        forall|p: Seq<char>|
            first.contains(p) <==> probed_file(walked, p) && selects(includes, excludes, p),
        again.len() == first.len(),
        forall|i: int| 0 <= i < again.len() ==> (#[trigger] again[i]).is_file && again[i].path@ == first[i],
        strictly_sorted(second),
        forall|p: Seq<char>|
            second.contains(p) <==> probed_file(again, p) && selects(includes, excludes, p),
    ensures
        second == first,
{
    assert forall|p: Seq<char>| first.contains(p) <==> second.contains(p) by {
        if first.contains(p) {
            let k = choose|k: int| 0 <= k < first.len() && first[k] == p;
            assert(again[k].is_file && again[k].path@ == p);
        }
        if second.contains(p) {
            let k = choose|k: int|
                0 <= k < again.len() && (#[trigger] again[k]).is_file && again[k].path@ == p;
            assert(first[k] == p);
        }
    }
    crate::sorting::law_sorted_unique(first, second);
}

} // verus!
