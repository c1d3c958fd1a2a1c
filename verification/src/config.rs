//! What a searcher is set up with: the path of the xdb file and how much of
//! the file is kept in memory between queries.

use crate::error::SearchError;
use vstd::prelude::*;
use vstd::string::StringExecFns;

verus! {

/// How much of the xdb file stays in memory between queries.
#[derive(Debug, Copy, Clone, PartialEq, Eq, Structural)]
pub enum CachePolicy {
    /// Nothing: every query reads the file anew.
    Never,
    /// The vector index, read once; the rest is read anew by every query.
    VecIndex,
    /// The whole file, read once.
    Full,
}

impl CachePolicy {
    /// The number that stands for the policy in a configuration.
    pub open spec fn spec_code(self) -> u8 {
        match self {
            CachePolicy::Never => 1,
            CachePolicy::VecIndex => 2,
            CachePolicy::Full => 3,
        }
    }

    /// The number that stands for the policy in a configuration: 1 for
    /// `Never`, 2 for `VecIndex`, 3 for `Full`.
    pub fn code(self) -> (code: u8)
        ensures
            code == self.spec_code(),
    {
        match self {
            CachePolicy::Never => 1,
            CachePolicy::VecIndex => 2,
            CachePolicy::Full => 3,
        }
    }

    /// The policy that `code` stands for, if it stands for one.
    pub fn from_code(code: u8) -> (policy: Option<CachePolicy>)
        ensures
            match policy {
                Some(policy) => policy.spec_code() == code,
                None => !(1 <= code <= 3),
            },
    {
        if code == 1 {
            Some(CachePolicy::Never)
        } else if code == 2 {
            Some(CachePolicy::VecIndex)
        } else if code == 3 {
            Some(CachePolicy::Full)
        } else {
            None
        }
    }
}

impl Default for CachePolicy {
    /// The policy of a searcher that was given none: `Full`.
    fn default() -> (policy: CachePolicy)
        ensures
            policy == CachePolicy::Full,
    {
        CachePolicy::Full
    }
}

/// Number of default locations that are tried for the xdb file.
pub const DEFAULT_CANDIDATES: usize = 3;

/// `depth` times the step to the parent directory.
pub open spec fn parent_steps(depth: nat) -> Seq<char>
    decreases depth,
{
    if depth == 0 {
        Seq::empty()
    } else {
        parent_steps((depth - 1) as nat) + "../"@
    }
}

/// The default location `depth` directories up: `../data/ip2region.xdb`
/// for depth 1, `../../data/ip2region.xdb` for depth 2, and so on.
pub open spec fn default_candidate(depth: nat) -> Seq<char> {
    parent_steps(depth) + "data/ip2region.xdb"@
}

/// Whether `present[index]` is the first entry that is set, among the
/// entries that stand for a default location.
pub open spec fn is_first_present(present: Seq<bool>, index: int) -> bool {
    &&& 0 <= index < present.len()
    &&& index < DEFAULT_CANDIDATES
    &&& present[index]
    &&& forall|earlier: int| 0 <= earlier < index ==> !present[earlier]
}

/// The default location that is chosen when `present[i]` tells whether the
/// location `i + 1` directories up exists: the nearest one that does.
pub open spec fn default_path(present: Seq<bool>) -> Option<Seq<char>> {
    if exists|index: int| is_first_present(present, index) {
        let index = choose|index: int| is_first_present(present, index);
        Some(default_candidate((index + 1) as nat))
    } else {
        None
    }
}

/// The default location `depth` directories up.
pub fn default_xdb_candidate(depth: usize) -> (path: String)
    ensures
        path@ == default_candidate(depth as nat),
{
    let mut path: String = String::new();
    let mut done: usize = 0;
    while done < depth
        invariant
            done <= depth,
            path@ == parent_steps(done as nat),
        decreases depth - done,
    {
        path.append("../");
        done = done + 1;
    }
    path.append("data/ip2region.xdb");
    path
}

/// Picks the default location of the xdb file. `present[i]` tells whether
/// the location `i + 1` directories up exists; entries behind the third
/// are not looked at. The nearest location that exists is chosen; where
/// none does, the searcher cannot be configured.
pub fn default_detect_xdb_file(present: &[bool]) -> (r: Result<String, SearchError>)
    ensures
        match default_path(present@) {
            Some(path) => r matches Ok(found) && found@ == path,
            None => r matches Err(e) && e == SearchError::ConfigurationError,
        },
{
    let mut recurse: usize = 0;
    while recurse < DEFAULT_CANDIDATES && recurse < present.len()
        invariant
            recurse <= DEFAULT_CANDIDATES,
            recurse <= present.len(),
            forall|earlier: int| 0 <= earlier < recurse ==> !present@[earlier],
        decreases DEFAULT_CANDIDATES - recurse,
    {
        if present[recurse] {
            assert(is_first_present(present@, recurse as int));
            return Ok(default_xdb_candidate(recurse + 1));
        }
        recurse = recurse + 1;
    }
    Err(SearchError::ConfigurationError)
}

/// What a searcher works with: where the xdb file lies and how much of it
/// is kept in memory.
#[derive(Debug, Clone)]
pub struct SearcherConfig {
    pub xdb_filepath: String,
    pub cache_policy: CachePolicy,
}

/// The path that a searcher is configured with: the one given, else the
/// default location that was found.
pub open spec fn resolved_path(xdb_filepath: Option<String>, present: Seq<bool>) -> Option<
    Seq<char>,
> {
    match xdb_filepath {
        Some(path) => Some(path@),
        None => default_path(present),
    }
}

/// Settles the configuration of a searcher. A path that is given is taken
/// as it is; without one the nearest default location that exists is taken
/// (see `default_detect_xdb_file` for `present`), and there being none is a
/// `ConfigurationError`. A policy that is not given is `Full`.
pub fn searcher_init(
    xdb_filepath: Option<String>,
    cache_policy: Option<CachePolicy>,
    present: &[bool],
) -> (r: Result<SearcherConfig, SearchError>)
    ensures
        match resolved_path(xdb_filepath, present@) {
            Some(path) => r matches Ok(config) && config.xdb_filepath@ == path
                && config.cache_policy == match cache_policy {
                Some(policy) => policy,
                None => CachePolicy::Full,
            },
            None => r matches Err(e) && e == SearchError::ConfigurationError,
        },
{
    let xdb_filepath: String = match xdb_filepath {
        Some(path) => path,
        None => match default_detect_xdb_file(present) {
            Ok(path) => path,
            Err(e) => {
                return Err(e);
            },
        },
    };
    let cache_policy: CachePolicy = match cache_policy {
        Some(policy) => policy,
        None => CachePolicy::Full,
    };
    Ok(SearcherConfig { xdb_filepath, cache_policy })
}

} // verus!
