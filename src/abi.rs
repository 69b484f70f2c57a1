//! Binary-interface versions and the limits of the emitted tables.
//!
//! The abstract automaton does not depend on the version; the version only
//! fixes the layout of the static tables. A grammar whose tables do not fit
//! the requested layout, or a version that the runtime cannot read, is
//! refused before anything is rendered.
use vstd::prelude::*;

verus! {

/// The largest index that a 16-bit table slot can hold.
pub const TABLE_INDEX_LIMIT: usize = 65535;

/// Counts of what a grammar's tables use, as the renderer would lay them out.
#[derive(Clone, Copy, Debug, PartialEq, Eq, Structural)]
pub struct FeatureUsage {
    pub symbol_count: usize,
    pub field_count: usize,
    pub state_count: usize,
    pub production_id_count: usize,
    pub alias_count: usize,
}

/// Why a grammar cannot be rendered for the requested binary interface.
#[derive(Clone, Copy, Debug, PartialEq, Eq, Structural)]
pub enum UnsupportedFeatureError {
    Version { requested: usize, oldest: usize, newest: usize },
    Symbols { count: usize },
    Fields { count: usize },
    States { count: usize },
    ProductionIds { count: usize },
    Aliases { count: usize },
}

/// Relies on tree_sitter::LANGUAGE_VERSION: the newest binary-interface
/// version that the runtime reads (14 in the release depended on).
#[verifier::external_body]
fn newest_language_version() -> (r: usize)
    ensures
        r == 14,
{
    tree_sitter::LANGUAGE_VERSION
}

/// Relies on tree_sitter::MIN_COMPATIBLE_LANGUAGE_VERSION: the oldest
/// binary-interface version that the runtime still reads (13 in the release
/// depended on).
#[verifier::external_body]
fn oldest_language_version() -> (r: usize)
    ensures
        r == 13,
{
    tree_sitter::MIN_COMPATIBLE_LANGUAGE_VERSION
}

/// The version used when the caller asks for none: the newest one.
pub fn default_abi_version() -> (r: usize)
    ensures
        r == 14,
{
    newest_language_version()
}

/// The first reason, in a fixed order, why `usage` cannot be rendered for
/// version `v`; `None` when it can.
pub open spec fn abi_problem(v: usize, usage: FeatureUsage) -> Option<UnsupportedFeatureError> {
    if v < 13 || v > 14 {
        Some(UnsupportedFeatureError::Version { requested: v, oldest: 13, newest: 14 })
    } else if usage.symbol_count > TABLE_INDEX_LIMIT {
        Some(UnsupportedFeatureError::Symbols { count: usage.symbol_count })
    } else if usage.field_count > TABLE_INDEX_LIMIT {
        Some(UnsupportedFeatureError::Fields { count: usage.field_count })
    } else if usage.state_count > TABLE_INDEX_LIMIT {
        Some(UnsupportedFeatureError::States { count: usage.state_count })
    } else if usage.production_id_count > TABLE_INDEX_LIMIT {
        Some(UnsupportedFeatureError::ProductionIds { count: usage.production_id_count })
    } else if usage.alias_count > TABLE_INDEX_LIMIT {
        Some(UnsupportedFeatureError::Aliases { count: usage.alias_count })
    } else {
        None
    }
}

/// Checks that a grammar with `usage` can be rendered for `abi_version`.
pub fn check_abi_support(abi_version: usize, usage: &FeatureUsage) -> (r: Result<
    (),
    UnsupportedFeatureError,
>)
    ensures
        r is Ok <==> abi_problem(abi_version, *usage) is None,
        r matches Err(e) ==> abi_problem(abi_version, *usage) == Some(e),
{
    let oldest = oldest_language_version();
    let newest = newest_language_version();
    if abi_version < oldest || abi_version > newest {
        Err(UnsupportedFeatureError::Version { requested: abi_version, oldest, newest })
    } else if usage.symbol_count > TABLE_INDEX_LIMIT {
        Err(UnsupportedFeatureError::Symbols { count: usage.symbol_count })
    } else if usage.field_count > TABLE_INDEX_LIMIT {
        Err(UnsupportedFeatureError::Fields { count: usage.field_count })
    } else if usage.state_count > TABLE_INDEX_LIMIT {
        Err(UnsupportedFeatureError::States { count: usage.state_count })
    } else if usage.production_id_count > TABLE_INDEX_LIMIT {
        Err(UnsupportedFeatureError::ProductionIds { count: usage.production_id_count })
    } else if usage.alias_count > TABLE_INDEX_LIMIT {
        Err(UnsupportedFeatureError::Aliases { count: usage.alias_count })
    } else {
        Ok(())
    }
}

/// A version outside the supported range is always refused, whatever the
/// grammar, and a grammar whose tables exceed a slot's range is refused for
/// every version: nothing is ever rendered truncated.
pub proof fn lemma_limits_are_enforced(v: usize, usage: FeatureUsage)
    ensures
        (v < 13 || v > 14) ==> abi_problem(v, usage) == Some(
            UnsupportedFeatureError::Version { requested: v, oldest: 13, newest: 14 },
        ),
        (usage.symbol_count > TABLE_INDEX_LIMIT || usage.field_count > TABLE_INDEX_LIMIT
            || usage.state_count > TABLE_INDEX_LIMIT || usage.production_id_count
            > TABLE_INDEX_LIMIT || usage.alias_count > TABLE_INDEX_LIMIT) ==> abi_problem(
            v,
            usage,
        ) is Some,
{
}

} // verus!
