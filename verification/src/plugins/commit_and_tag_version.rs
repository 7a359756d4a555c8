//! commit-and-tag-version (and legacy standard-version) releases.
use vstd::prelude::*;

use super::str_list;
use crate::runtime_filter::joined_onto;
use crate::text::{string_views, strip_prefix_all};

verus! {

/// Built-in plugin for commit-and-tag-version releases.
pub struct CommitAndTagVersionPlugin;

impl CommitAndTagVersionPlugin {
    /// The plugin's name.
    pub fn name(&self) -> (n: &'static str)
        ensures
            n@ == "commit-and-tag-version"@,
    {
        "commit-and-tag-version"
    }

    /// Packages whose presence activates the plugin.
    pub fn enablers(&self) -> (v: Vec<&'static str>)
        ensures
            v@ == seq!["commit-and-tag-version", "standard-version"],
    {
        str_list(&["commit-and-tag-version", "standard-version"])
    }

    /// The release config files.
    pub fn config_patterns(&self) -> (v: Vec<&'static str>)
        ensures
            v@ == seq![".versionrc", ".versionrc.{json,js,cjs}"],
    {
        str_list(&[".versionrc", ".versionrc.{json,js,cjs}"])
    }

    /// Files that are always in use.
    pub fn always_used(&self) -> (v: Vec<&'static str>)
        ensures
            v@ == seq![".versionrc", ".versionrc.{json,js,cjs}"],
    {
        str_list(&[".versionrc", ".versionrc.{json,js,cjs}"])
    }

    /// The release tools, invoked from scripts.
    pub fn tooling_dependencies(&self) -> (v: Vec<&'static str>)
        ensures
            v@ == seq!["commit-and-tag-version", "standard-version"],
    {
        str_list(&["commit-and-tag-version", "standard-version"])
    }

    /// Config arrays whose entries name version-bump files.
    pub fn file_arrays(&self) -> (v: Vec<&'static str>)
        ensures
            v@ == seq!["bumpFiles", "packageFiles"],
    {
        str_list(&["bumpFiles", "packageFiles"])
    }

    /// Keys of a bump entry that name a local file: the updater module and the bumped file.
    pub fn file_keys(&self) -> (v: Vec<&'static str>)
        ensures
            v@ == seq!["updater", "filename"],
    {
        str_list(&["updater", "filename"])
    }
}

/// The support file that a bump entry's `updater` or `filename` names: the
/// value without its leading `./` runs, joined onto the config's directory;
/// none when nothing is left.
pub fn bump_file_setup_path(config_dir: &str, file: &str) -> (r: Option<String>)
    ensures
        match r {
            Some(p) => strip_prefix_all(file@, "./"@).len() > 0 && p@ == joined_onto(
                config_dir@,
                strip_prefix_all(file@, "./"@),
            ),
            None => strip_prefix_all(file@, "./"@).len() == 0,
        },
{
    let c = crate::text::chars_of(file);
    let t = crate::text::strip_prefix_all_chars(&c, "./");
    if t.len() == 0 {
        return None;
    }
    let ts = crate::text::string_from_chars(&t);
    Some(crate::runtime_filter::join_onto(config_dir, ts.as_str()))
}


/// The directory a config's relative paths start from: the config file's
/// parent when that is absolute, else the root.
pub open spec fn config_dir_of(config_path: Seq<char>, root: Seq<char>) -> Seq<char> {
    match crate::path_order::parent_text(config_path) {
        Some(d) => if d.len() > 0 && d[0] == '/' {
            d
        } else {
            root
        },
        None => root,
    }
}

/// The support files that the given entry values name, in order, leaving out
/// the values with nothing left once their leading `./` runs go.
pub open spec fn setup_paths(dir: Seq<char>, files: Seq<Seq<char>>) -> Seq<Seq<char>>
    decreases files.len(),
{
    if files.len() == 0 {
        Seq::empty()
    } else {
        let init = setup_paths(dir, files.drop_last());
        let t = strip_prefix_all(files.last(), "./"@);
        if t.len() > 0 {
            init.push(joined_onto(dir, t))
        } else {
            init
        }
    }
}

/// The `updater` and `filename` values of the `bumpFiles` and `packageFiles`
/// entries of a config, as its config extractor finds them.
#[derive(Clone, Debug)]
pub struct BumpEntryStrings {
    pub bump_updaters: Vec<String>,
    pub bump_filenames: Vec<String>,
    pub package_updaters: Vec<String>,
    pub package_filenames: Vec<String>,
}

fn push_setup_paths(out: &mut Vec<String>, dir: &str, files: &Vec<String>)
    ensures
        string_views(final(out)@) == string_views(old(out)@) + setup_paths(dir@, string_views(files@)),
{
    let ghost start = string_views(out@);
    let ghost fs = string_views(files@);
    let mut i: usize = 0;
    assert(fs.take(0) =~= Seq::<Seq<char>>::empty());
    assert(start + Seq::<Seq<char>>::empty() =~= start);
    while i < files.len()
        invariant
            i <= files@.len(),
            fs == string_views(files@),
            string_views(out@) == start + setup_paths(dir@, fs.take(i as int)),
        decreases files@.len() - i,
    {
        assert(fs.take(i + 1).drop_last() =~= fs.take(i as int));
        assert(fs.take(i + 1).last() == files@[i as int]@);
        let ghost before = string_views(out@);
        match bump_file_setup_path(dir, files[i].as_str()) {
            Some(p) => {
                out.push(p);
                assert(string_views(out@) =~= before.push(p@));
            },
            None => {},
        }
        i = i + 1;
    }
    assert(fs.take(i as int) =~= fs);
}

/// The support files a commit-and-tag-version config credits: each entry's
/// `updater` and `filename` (those of `bumpFiles` first, then of
/// `packageFiles`), relative to the config's directory.
pub fn resolve_bump_files(config_path: &str, root: &str, entries: &BumpEntryStrings) -> (r: Vec<String>)
    ensures
        string_views(r@) == setup_paths(config_dir_of(config_path@, root@), string_views(entries.bump_updaters@))
            + setup_paths(config_dir_of(config_path@, root@), string_views(entries.bump_filenames@))
            + setup_paths(config_dir_of(config_path@, root@), string_views(entries.package_updaters@))
            + setup_paths(config_dir_of(config_path@, root@), string_views(entries.package_filenames@)),
{
    let dir = match crate::path_order::parent_of(config_path) {
        Some(d) => {
            let dc = crate::text::chars_of(d.as_str());
            if dc.len() > 0 && dc[0] == '/' {
                d
            } else {
                crate::text::string_of(root)
            }
        },
        None => crate::text::string_of(root),
    };
    let mut out: Vec<String> = Vec::new();
    assert(string_views(out@) =~= Seq::<Seq<char>>::empty());
    push_setup_paths(&mut out, dir.as_str(), &entries.bump_updaters);
    push_setup_paths(&mut out, dir.as_str(), &entries.bump_filenames);
    push_setup_paths(&mut out, dir.as_str(), &entries.package_updaters);
    push_setup_paths(&mut out, dir.as_str(), &entries.package_filenames);
    out
}

} // verus!
