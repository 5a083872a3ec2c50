//! Mapping-handler configuration: the raw values read from the
//! environment, and their validated, converted form. Reading the
//! environment and inspecting the filesystem happen outside the
//! library; the checks and conversions are here.

use vstd::prelude::*;
use vstd::string::StringExecFns;

use crate::strutil::has_prefix;

verus! {

/// `semver::Version` carries the configured API version through the
/// library; nothing here reads inside it.
#[verifier::external_type_specification]
#[verifier::external_body]
pub struct ExVersion(semver::Version);

/// What the filesystem reports about a configured cache path: its
/// canonical form, whether it is a directory, and whether it is
/// read-only.
pub struct PathFacts {
    pub canonical: String,
    pub is_dir: bool,
    pub readonly: bool,
}

/// Whether a cache location passes validation, and what it resolves to:
/// an address with the `redis://` scheme is taken as given (it is
/// checked when the client is set up); anything else must resolve to a
/// writable directory under an absolute canonical path.
pub open spec fn valid_cache_location(path: Seq<char>, facts: Option<PathFacts>) -> Option<
    Seq<char>,
> {
    if path.len() >= "redis://"@.len() && path.subrange(0, "redis://"@.len() as int)
        == "redis://"@ {
        Some(path)
    } else {
        match facts {
            None => None,
            Some(f) => {
                if f.canonical@.len() >= 1 && f.canonical@.subrange(0, 1) == "/"@ && f.is_dir
                    && !f.readonly {
                    Some(f.canonical@)
                } else {
                    None
                }
            },
        }
    }
}

/// Validate a configured cache location against what the filesystem
/// reports about it (`None` when the path could not be resolved at
/// all).
pub fn validate_ipfs_cache_location(path: String, facts: Option<PathFacts>) -> (r: Result<
    String,
    String,
>)
    ensures
        match r {
            Ok(p) => valid_cache_location(path@, facts) == Some(p@),
            Err(_) => valid_cache_location(path@, facts) is None,
        },
{
    if has_prefix(path.as_str(), "redis://") {
        return Ok(path);
    }
    let facts = match facts {
        Some(f) => f,
        None => {
            return Err(String::from_str("the cache location cannot be resolved"));
        },
    };
    proof {
        reveal_strlit("/");
    }
    if !has_prefix(facts.canonical.as_str(), "/") {
        return Err(String::from_str("the cache location must be an absolute path"));
    }
    if !facts.is_dir {
        return Err(String::from_str("the cache location must be a directory"));
    }
    if facts.readonly {
        return Err(String::from_str("the cache location must be a writable directory"));
    }
    Ok(facts.canonical)
}

/// The raw mapping-handler configuration, as read from the environment:
/// sizes in their configured units, times in seconds.
pub struct InnerMappingHandlers {
    pub entity_cache_dead_weight: bool,
    pub entity_cache_size_in_kb: usize,
    pub max_api_version: semver::Version,
    pub mapping_handler_timeout_in_secs: Option<u64>,
    pub runtime_max_stack_size: usize,
    pub max_ipfs_cache_file_size: usize,
    pub max_ipfs_cache_size: u64,
    pub ipfs_timeout_in_secs: u64,
    pub max_ipfs_map_file_size: usize,
    pub max_ipfs_file_bytes: usize,
    pub ipfs_request_limit: u16,
    pub ipfs_max_attempts: usize,
    pub ipfs_cache_location: Option<String>,
    pub allow_non_deterministic_ipfs: bool,
    pub disable_declared_calls: bool,
    pub store_errors_are_nondeterministic: bool,
    pub fds_max_backoff_in_secs: u64,
}

/// The mapping-handler configuration in its converted form: the cache
/// size in bytes, times in seconds, and the cache location validated.
pub struct EnvVarsMapping {
    /// Force the cache eviction policy to count its own memory overhead.
    pub entity_cache_dead_weight: bool,
    /// Size limit of the entity cache, in bytes.
    pub entity_cache_size: usize,
    /// The highest mapping API version this node serves.
    pub max_api_version: semver::Version,
    /// Time limit for one mapping handler, in seconds, if any.
    pub timeout_in_secs: Option<u64>,
    /// Maximum stack size for the mapping runtime, in bytes.
    pub max_stack_size: usize,
    pub max_ipfs_cache_file_size: usize,
    pub max_ipfs_cache_size: u64,
    /// The timeout for all content-addressed-storage requests, in
    /// seconds.
    pub ipfs_timeout_in_secs: u64,
    pub max_ipfs_map_file_size: usize,
    pub max_ipfs_file_bytes: usize,
    pub ipfs_request_limit: u16,
    pub ipfs_max_attempts: usize,
    /// The validated cache location, if one is configured.
    pub ipfs_cache_location: Option<String>,
    pub allow_non_deterministic_ipfs: bool,
    pub disable_declared_calls: bool,
    pub store_errors_are_nondeterministic: bool,
    /// Maximum backoff for file-data-source requests, in seconds.
    pub fds_max_backoff_in_secs: u64,
}

impl EnvVarsMapping {
    /// Convert the raw configuration: scale the cache size from
    /// kilobytes to bytes and validate the cache location against what
    /// the filesystem reports of it.
    pub fn try_from(x: InnerMappingHandlers, cache_location_facts: Option<PathFacts>) -> (r:
        Result<EnvVarsMapping, String>)
        requires
            x.entity_cache_size_in_kb * 1000 <= usize::MAX,
        ensures
            match x.ipfs_cache_location {
                Some(p) => match valid_cache_location(p@, cache_location_facts) {
                    Some(loc) => match r {
                        Ok(vars) => {
                            &&& vars.ipfs_cache_location matches Some(l) && l@ == loc
                            &&& vars.entity_cache_dead_weight == x.entity_cache_dead_weight
                            &&& vars.entity_cache_size == x.entity_cache_size_in_kb * 1000
                            &&& vars.max_api_version == x.max_api_version
                            &&& vars.timeout_in_secs == x.mapping_handler_timeout_in_secs
                            &&& vars.max_stack_size == x.runtime_max_stack_size
                            &&& vars.max_ipfs_cache_file_size == x.max_ipfs_cache_file_size
                            &&& vars.max_ipfs_cache_size == x.max_ipfs_cache_size
                            &&& vars.ipfs_timeout_in_secs == x.ipfs_timeout_in_secs
                            &&& vars.max_ipfs_map_file_size == x.max_ipfs_map_file_size
                            &&& vars.max_ipfs_file_bytes == x.max_ipfs_file_bytes
                            &&& vars.ipfs_request_limit == x.ipfs_request_limit
                            &&& vars.ipfs_max_attempts == x.ipfs_max_attempts
                            &&& vars.allow_non_deterministic_ipfs
                                == x.allow_non_deterministic_ipfs
                            &&& vars.disable_declared_calls == x.disable_declared_calls
                            &&& vars.store_errors_are_nondeterministic
                                == x.store_errors_are_nondeterministic
                            &&& vars.fds_max_backoff_in_secs == x.fds_max_backoff_in_secs
                        },
                        Err(_) => false,
                    },
                    None => r is Err,
                },
                None => match r {
                    Ok(vars) => {
                        &&& vars.ipfs_cache_location is None
                        &&& vars.entity_cache_dead_weight == x.entity_cache_dead_weight
                        &&& vars.entity_cache_size == x.entity_cache_size_in_kb * 1000
                        &&& vars.max_api_version == x.max_api_version
                        &&& vars.timeout_in_secs == x.mapping_handler_timeout_in_secs
                        &&& vars.max_stack_size == x.runtime_max_stack_size
                        &&& vars.max_ipfs_cache_file_size == x.max_ipfs_cache_file_size
                        &&& vars.max_ipfs_cache_size == x.max_ipfs_cache_size
                        &&& vars.ipfs_timeout_in_secs == x.ipfs_timeout_in_secs
                        &&& vars.max_ipfs_map_file_size == x.max_ipfs_map_file_size
                        &&& vars.max_ipfs_file_bytes == x.max_ipfs_file_bytes
                        &&& vars.ipfs_request_limit == x.ipfs_request_limit
                        &&& vars.ipfs_max_attempts == x.ipfs_max_attempts
                        &&& vars.allow_non_deterministic_ipfs == x.allow_non_deterministic_ipfs
                        &&& vars.disable_declared_calls == x.disable_declared_calls
                        &&& vars.store_errors_are_nondeterministic
                            == x.store_errors_are_nondeterministic
                        &&& vars.fds_max_backoff_in_secs == x.fds_max_backoff_in_secs
                    },
                    Err(_) => false,
                },
            },
    {
        let ipfs_cache_location = match x.ipfs_cache_location {
            Some(p) => match validate_ipfs_cache_location(p, cache_location_facts) {
                Ok(loc) => Some(loc),
                Err(e) => {
                    return Err(e);
                },
            },
            None => None,
        };
        Ok(
            EnvVarsMapping {
                entity_cache_dead_weight: x.entity_cache_dead_weight,
                entity_cache_size: x.entity_cache_size_in_kb * 1000,
                max_api_version: x.max_api_version,
                timeout_in_secs: x.mapping_handler_timeout_in_secs,
                max_stack_size: x.runtime_max_stack_size,
                max_ipfs_cache_file_size: x.max_ipfs_cache_file_size,
                max_ipfs_cache_size: x.max_ipfs_cache_size,
                ipfs_timeout_in_secs: x.ipfs_timeout_in_secs,
                max_ipfs_map_file_size: x.max_ipfs_map_file_size,
                max_ipfs_file_bytes: x.max_ipfs_file_bytes,
                ipfs_request_limit: x.ipfs_request_limit,
                ipfs_max_attempts: x.ipfs_max_attempts,
                ipfs_cache_location,
                allow_non_deterministic_ipfs: x.allow_non_deterministic_ipfs,
                disable_declared_calls: x.disable_declared_calls,
                store_errors_are_nondeterministic: x.store_errors_are_nondeterministic,
                fds_max_backoff_in_secs: x.fds_max_backoff_in_secs,
            },
        )
    }
}

} // verus!
