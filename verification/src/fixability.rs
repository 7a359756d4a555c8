//! Whether configuration edits can be applied at a project root.
//!
//! The caller looks at the file system (an existing config file, a workspace
//! marker in some directory above the root) and hands the findings in; the
//! decision is made here.
use vstd::prelude::*;

use crate::text::{chars_of, push_str, string_from_chars};

verus! {

/// How config-editing fixes behave at a root.
#[derive(Clone, Debug, PartialEq, Eq)]
pub enum ConfigFixPlan {
    /// A config file exists; entries are appended in place.
    Edit { config_path: String },
    /// No config exists, but a workspace marker sits above the root, so
    /// creating one in this subpackage would fragment the monorepo.
    BlockedMonorepo { workspace_root: String },
    /// No config exists and config creation was disabled.
    BlockedNoCreate { target: String },
    /// No config exists; one can be created at `target`.
    Create { target: String },
}

pub ghost enum PlanView {
    Edit(Seq<char>),
    BlockedMonorepo(Seq<char>),
    BlockedNoCreate(Seq<char>),
    Create(Seq<char>),
}

impl View for ConfigFixPlan {
    type V = PlanView;

    open spec fn view(&self) -> PlanView {
        match self {
            ConfigFixPlan::Edit { config_path } => PlanView::Edit(config_path@),
            ConfigFixPlan::BlockedMonorepo { workspace_root } => PlanView::BlockedMonorepo(
                workspace_root@,
            ),
            ConfigFixPlan::BlockedNoCreate { target } => PlanView::BlockedNoCreate(target@),
            ConfigFixPlan::Create { target } => PlanView::Create(target@),
        }
    }
}

/// `name` joined onto the directory `dir`, as `Path::join` joins a relative
/// file name.
pub open spec fn joined_path(dir: Seq<char>, name: Seq<char>) -> Seq<char> {
    if dir.len() == 0 {
        name
    } else if dir.last() == '/' {
        dir + name
    } else {
        dir + seq!['/'] + name
    }
}

/// The plan: edit an existing config; else, with a workspace marker above,
/// refuse; else refuse when creation is disabled; else create
/// `.plowrc.json` at the root.
pub open spec fn fix_plan_of(
    root: Seq<char>,
    existing: Option<Seq<char>>,
    workspace_above: Option<Seq<char>>,
    no_create_config: bool,
) -> PlanView {
    match existing {
        Some(p) => PlanView::Edit(p),
        None => match workspace_above {
            Some(w) => PlanView::BlockedMonorepo(w),
            None => if no_create_config {
                PlanView::BlockedNoCreate(joined_path(root, ".plowrc.json"@))
            } else {
                PlanView::Create(joined_path(root, ".plowrc.json"@))
            },
        },
    }
}

pub open spec fn opt_str_view(o: Option<&str>) -> Option<Seq<char>> {
    match o {
        Some(s) => Some(s@),
        None => None,
    }
}

/// `name` joined onto the directory `dir`.
pub fn join_path(dir: &str, name: &str) -> (p: String)
    ensures
        p@ == joined_path(dir@, name@),
{
    let mut out = chars_of(dir);
    if out.len() > 0 && out[out.len() - 1] != '/' {
        out.push('/');
    }
    push_str(&mut out, name);
    string_from_chars(&out)
}

/// Classifies how config-editing fixes behave at `root`, given the config
/// file found for it (if any) and the nearest directory above it that holds a
/// workspace marker (if any).
pub fn classify_config_fix_plan(
    root: &str,
    existing_config: Option<&str>,
    workspace_root_above: Option<&str>,
    no_create_config: bool,
) -> (plan: ConfigFixPlan)
    ensures
        plan@ == fix_plan_of(
            root@,
            opt_str_view(existing_config),
            opt_str_view(workspace_root_above),
            no_create_config,
        ),
{
    if let Some(existing) = existing_config {
        return ConfigFixPlan::Edit { config_path: crate::text::string_of(existing) };
    }
    let target = join_path(root, ".plowrc.json");
    if let Some(workspace_root) = workspace_root_above {
        return ConfigFixPlan::BlockedMonorepo { workspace_root: crate::text::string_of(workspace_root) };
    }
    if no_create_config {
        return ConfigFixPlan::BlockedNoCreate { target };
    }
    ConfigFixPlan::Create { target }
}

/// Whether `plow fix --yes` can apply config edits at `root` with config
/// creation allowed: exactly when an existing config is there to edit or
/// none exists and no workspace marker sits above.
pub fn is_config_fixable(root: &str, existing_config: Option<&str>, workspace_root_above: Option<&str>) -> (b: bool)
    ensures
        b == (existing_config is Some || workspace_root_above is None),
{
    let plan = classify_config_fix_plan(root, existing_config, workspace_root_above, false);
    match plan {
        ConfigFixPlan::Edit { .. } | ConfigFixPlan::Create { .. } => true,
        _ => false,
    }
}

/// Files whose presence marks a directory as a workspace root.
pub open spec fn workspace_sentinels() -> Seq<Seq<char>> {
    seq!["pnpm-workspace.yaml"@, "turbo.json"@, "lerna.json"@, "rush.json"@]
}

/// The shape of a `package.json`'s `workspaces` field, as read from disk.
#[derive(Clone, Copy, Debug, PartialEq, Eq, Structural)]
pub enum WorkspacesField {
    /// No readable `package.json`, or no parsable JSON in it, or no field.
    Absent,
    /// The field is an array or an object.
    ListOrObject,
    /// The field holds some other JSON value.
    Other,
}

/// The files whose presence marks a workspace root, in the order that
/// [`has_workspace_marker`] takes their presence.
pub fn workspace_sentinel_files() -> (v: Vec<&'static str>)
    ensures
        crate::text::views(v@) == workspace_sentinels(),
{
    let v = crate::plugins::str_list(&["pnpm-workspace.yaml", "turbo.json", "lerna.json", "rush.json"]);
    proof {
        reveal_strlit("pnpm-workspace.yaml");
        reveal_strlit("turbo.json");
        reveal_strlit("lerna.json");
        reveal_strlit("rush.json");
    }
    assert(crate::text::views(v@) =~= workspace_sentinels());
    v
}

/// Whether a directory is a workspace root, given which sentinel files it
/// holds and the shape of its `package.json`'s `workspaces` field.
pub fn has_workspace_marker(sentinel_present: &Vec<bool>, workspaces: WorkspacesField) -> (b: bool)
    ensures
        b == ((exists|i: int| 0 <= i < sentinel_present@.len() && #[trigger] sentinel_present@[i])
            || workspaces == WorkspacesField::ListOrObject),
{
    let mut i: usize = 0;
    while i < sentinel_present.len()
        invariant
            i <= sentinel_present@.len(),
            forall|k: int| 0 <= k < i ==> !#[trigger] sentinel_present@[k],
        decreases sentinel_present@.len() - i,
    {
        if sentinel_present[i] {
            return true;
        }
        i = i + 1;
    }
    workspaces == WorkspacesField::ListOrObject
}

/// Laws of the fix plan: an existing config is always edited in place;
/// without one, creation happens exactly when no workspace marker is above
/// and creation is allowed.
pub proof fn lemma_fix_plan_laws(
    root: Seq<char>,
    existing: Option<Seq<char>>,
    workspace_above: Option<Seq<char>>,
    no_create: bool,
)
    ensures
        existing matches Some(p) ==> fix_plan_of(root, existing, workspace_above, no_create)
            == PlanView::Edit(p),
        existing is None ==> (fix_plan_of(root, existing, workspace_above, no_create) is Create
            <==> workspace_above is None && !no_create),
        fix_plan_of(root, existing, workspace_above, no_create) matches PlanView::Create(t) ==> t
            == joined_path(root, ".plowrc.json"@),
{
}

} // verus!
