//! The `list --format json` payload: its envelope modes and its body.
use vstd::prelude::*;

verus! {

/// Root envelope mode for a `plow list --format json` payload.
#[derive(Clone, Copy, Debug, PartialEq, Eq, Structural)]
pub enum ListJsonEnvelope {
    /// The historical plain object, without a `kind` field.
    Plain,
    /// Wrapped as `kind: "list-boundaries"`.
    Boundaries,
    /// Wrapped as `kind: "list-workspaces"`.
    Workspaces,
}


/// A plugin of the list payload.
#[derive(Clone, Debug)]
pub struct ListPluginOutput {
    pub name: String,
}

/// The workspace section of a list payload: its count, the workspaces, and
/// the diagnostics found while reading them.
#[derive(Clone, Debug)]
pub struct WorkspacesOutput<W, D> {
    pub workspace_count: usize,
    pub workspaces: W,
    pub workspace_diagnostics: D,
}

/// Section data for a `plow list --format json` payload: each section is
/// present when it was asked for.
pub struct ListJsonOutputInput<E, B, W, D> {
    pub plugins: Option<Vec<String>>,
    pub files: Option<Vec<String>>,
    pub entry_points: Option<Vec<E>>,
    pub boundaries: Option<B>,
    pub workspaces: Option<WorkspacesOutput<W, D>>,
}

/// The body of a list payload, before any root wrapping.
pub struct ListOutput<E, B, W, D> {
    pub plugins: Option<Vec<ListPluginOutput>>,
    pub file_count: Option<usize>,
    pub files: Option<Vec<String>>,
    pub entry_point_count: Option<usize>,
    pub entry_points: Option<Vec<E>>,
    pub boundaries: Option<B>,
    pub workspace_count: Option<usize>,
    pub workspaces: Option<W>,
    pub workspace_diagnostics: Option<D>,
}

/// Builds the list payload's body: plugin names become plugin entries, the
/// file and entry-point lists get their counts, and the workspace section is
/// spread into its count, workspaces and diagnostics.
pub fn build_list_json_output<E, B, W, D>(input: ListJsonOutputInput<E, B, W, D>) -> (out: ListOutput<E, B, W, D>)
    ensures
        match input.plugins {
            Some(ps) => out.plugins matches Some(qs) && qs@.map_values(|q: ListPluginOutput| q.name@)
                == ps@.map_values(|p: String| p@),
            None => out.plugins is None,
        },
        out.files == input.files,
        out.file_count == match input.files {
            Some(f) => Some(f@.len() as usize),
            None => None::<usize>,
        },
        out.entry_points == input.entry_points,
        out.entry_point_count == match input.entry_points {
            Some(e) => Some(e@.len() as usize),
            None => None::<usize>,
        },
        out.boundaries == input.boundaries,
        match input.workspaces {
            Some(w) => out.workspace_count == Some(w.workspace_count) && out.workspaces == Some(
                w.workspaces,
            ) && out.workspace_diagnostics == Some(w.workspace_diagnostics),
            None => out.workspace_count is None && out.workspaces is None
                && out.workspace_diagnostics is None,
        },
{
    let plugins = match input.plugins {
        Some(ps) => {
            let mut out: Vec<ListPluginOutput> = Vec::new();
            let mut i: usize = 0;
            while i < ps.len()
                invariant
                    i <= ps@.len(),
                    out@.map_values(|q: ListPluginOutput| q.name@) == ps@.take(i as int).map_values(
                        |p: String| p@,
                    ),
                decreases ps@.len() - i,
            {
                let ghost before = out@.map_values(|q: ListPluginOutput| q.name@);
                let name = crate::text::string_of(ps[i].as_str());
                out.push(ListPluginOutput { name });
                assert(out@.map_values(|q: ListPluginOutput| q.name@) =~= before.push(ps@[i as int]@));
                assert(ps@.take(i + 1).map_values(|p: String| p@) =~= ps@.take(i as int).map_values(
                    |p: String| p@,
                ).push(ps@[i as int]@));
                i = i + 1;
            }
            assert(ps@.take(i as int) =~= ps@);
            Some(out)
        },
        None => None,
    };
    let file_count = match &input.files {
        Some(f) => Some(f.len()),
        None => None,
    };
    let entry_point_count = match &input.entry_points {
        Some(e) => Some(e.len()),
        None => None,
    };
    let (workspace_count, workspaces, workspace_diagnostics) = match input.workspaces {
        Some(w) => (Some(w.workspace_count), Some(w.workspaces), Some(w.workspace_diagnostics)),
        None => (None, None, None),
    };
    ListOutput {
        plugins,
        file_count,
        files: input.files,
        entry_point_count,
        entry_points: input.entry_points,
        boundaries: input.boundaries,
        workspace_count,
        workspaces,
        workspace_diagnostics,
    }
}

} // verus!
