//! Gate modes of `plow security`.
use vstd::prelude::*;

verus! {

/// Gate mode for `plow security --gate <mode>`.
#[derive(Clone, Copy, Debug, PartialEq, Eq, Structural)]
pub enum SecurityGateMode {
    /// Fail when the change introduces a new security-sink candidate on a
    /// changed line, not merely a sink in a changed file.
    New,
    /// Fail when a candidate becomes runtime-reachable from an entry point in
    /// head but the matching candidate was not runtime-reachable in base.
    NewlyReachable,
}

} // verus!
