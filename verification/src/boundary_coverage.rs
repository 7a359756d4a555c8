//! Architecture-zone coverage: reachable files that no zone claims.
use vstd::prelude::*;

use crate::path_order::stripped;
use crate::text::string_of;

verus! {

/// What the coverage check reads of a module of the graph.
#[derive(Clone, Debug)]
pub struct BoundaryModule {
    pub path: String,
    pub reachable: bool,
    pub entry_point: bool,
    /// A boundary-violation suppression covers the file or its first line.
    pub suppressed: bool,
    /// The zone rules assign the module's root-relative path (with `/`
    /// separators) to a zone, or let it stay unmatched.
    pub zoned: bool,
}

/// A reachable file outside every zone, reported at its first line.
#[derive(Clone, Debug)]
pub struct BoundaryCoverageViolation {
    pub path: String,
    pub line: u32,
    pub col: u32,
}

/// A module is a violation: it is reachable or an entry point, not
/// suppressed, under the root, and claimed by no zone.
pub open spec fn is_violation(m: BoundaryModule, root: Seq<char>) -> bool {
    &&& m.reachable || m.entry_point
    &&& !m.suppressed
    &&& stripped(m.path@, root) is Some
    &&& !m.zoned
}

/// The paths of the violating modules, in graph order.
pub open spec fn violation_paths(ms: Seq<BoundaryModule>, root: Seq<char>) -> Seq<Seq<char>>
    decreases ms.len(),
{
    if ms.len() == 0 {
        Seq::empty()
    } else {
        let init = violation_paths(ms.drop_last(), root);
        if is_violation(ms.last(), root) {
            init.push(ms.last().path@)
        } else {
            init
        }
    }
}

/// The reachable files that no architecture zone claims, when the config
/// asks for every file to be covered; none otherwise.
pub fn find_boundary_coverage_violations(
    require_all_files: bool,
    root: &str,
    modules: &Vec<BoundaryModule>,
) -> (r: Vec<BoundaryCoverageViolation>)
    ensures
        !require_all_files ==> r@.len() == 0,
        require_all_files ==> r@.map_values(|v: BoundaryCoverageViolation| v.path@) == violation_paths(
            modules@,
            root@,
        ),
        forall|i: int| 0 <= i < r@.len() ==> (#[trigger] r@[i]).line == 1 && r@[i].col == 0,
{
    let mut out: Vec<BoundaryCoverageViolation> = Vec::new();
    if !require_all_files {
        return out;
    }
    let mut i: usize = 0;
    while i < modules.len()
        invariant
            i <= modules@.len(),
            out@.map_values(|v: BoundaryCoverageViolation| v.path@) == violation_paths(
                modules@.take(i as int),
                root@,
            ),
            forall|k: int| 0 <= k < out@.len() ==> (#[trigger] out@[k]).line == 1 && out@[k].col == 0,
        decreases modules@.len() - i,
    {
        assert(modules@.take(i + 1).drop_last() =~= modules@.take(i as int));
        assert(modules@.take(i + 1).last() == modules@[i as int]);
        let m = &modules[i];
        if (m.reachable || m.entry_point) && !m.suppressed && !m.zoned {
            match crate::path_order::strip_root(m.path.as_str(), root) {
                Some(_) => {
                    let ghost before = out@.map_values(|v: BoundaryCoverageViolation| v.path@);
                    let v = BoundaryCoverageViolation { path: string_of(m.path.as_str()), line: 1, col: 0 };
                    out.push(v);
                    assert(out@.map_values(|v: BoundaryCoverageViolation| v.path@) =~= before.push(m.path@));
                },
                None => {},
            }
        }
        i = i + 1;
    }
    assert(modules@.take(i as int) =~= modules@);
    out
}

} // verus!
