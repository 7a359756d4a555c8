//! Unused Svelte custom events: a `.svelte` component that dispatches an
//! event (through the `dispatch` binding of `createEventDispatcher()`) whose
//! name no component anywhere listens to.
//!
//! A listener on any component credits the name everywhere; a component that
//! dispatches dynamically, or passes its `dispatch` binding around, is left
//! out as a whole.
use vstd::prelude::*;

use crate::path_order::{path_before, path_lt, same_path};
use crate::stable_sort::{in_order, lemma_insert_at, sorted_by, strict_order};
use crate::text::{chars_before, chars_lt, chars_of, str_eq, string_of, string_views};
use crate::walkthrough::{extension_of, file_name_of, last_dot_before};

verus! {

/// A custom event that a component dispatches, with the position of the call.
#[derive(Clone, Debug)]
pub struct DispatchedEvent {
    pub name: String,
    pub line: u32,
    pub col: u32,
}

/// What extraction recorded of one module's Svelte events.
#[derive(Clone, Debug)]
pub struct SvelteModuleFacts {
    pub file_id: u32,
    pub dispatched_events: Vec<DispatchedEvent>,
    pub listened_events: Vec<String>,
    pub has_dynamic_dispatch: bool,
}

/// One module of the graph: its file, whether it is reachable, and its path.
#[derive(Clone, Debug)]
pub struct SvelteGraphNode {
    pub file_id: u32,
    pub reachable: bool,
    pub path: String,
}

/// A dispatched event that nothing listens to.
#[derive(Clone, Debug, PartialEq, Eq)]
pub struct UnusedSvelteEvent {
    pub path: String,
    pub component_name: String,
    pub event_name: String,
    pub line: u32,
    pub col: u32,
}

pub type EventView = (Seq<char>, Seq<char>, Seq<char>, u32, u32);

pub open spec fn event_view(e: UnusedSvelteEvent) -> EventView {
    (e.path@, e.component_name@, e.event_name@, e.line, e.col)
}

/// The file's extension is exactly `svelte`.
pub open spec fn is_svelte_path(p: Seq<char>) -> bool {
    file_name_of(p) matches Some(n) && extension_of(n) == Some("svelte"@)
}

/// The file stem, as `Path::file_stem` gives it: the file name without its
/// extension; empty when the path has no file name.
pub open spec fn file_stem_of(p: Seq<char>) -> Seq<char> {
    match file_name_of(p) {
        Some(n) => match extension_of(n) {
            Some(e) => n.take(n.len() - e.len() - 1),
            None => n,
        },
        None => Seq::empty(),
    }
}

/// Some module lists `name` among its listened events.
pub open spec fn is_listened(modules: Seq<SvelteModuleFacts>, name: Seq<char>) -> bool {
    exists|i: int, j: int|
        0 <= i < modules.len() && 0 <= j < modules[i].listened_events@.len()
            && (#[trigger] modules[i].listened_events@[j])@ == name
}

/// The findings of the dispatched events among `ds` that no module listens
/// to, for the component at `path`.
pub open spec fn unlistened_in(
    listened: Seq<Seq<char>>,
    path: Seq<char>,
    ds: Seq<DispatchedEvent>,
) -> Seq<EventView>
    decreases ds.len(),
{
    if ds.len() == 0 {
        Seq::empty()
    } else {
        let init = unlistened_in(listened, path, ds.drop_last());
        let d = ds.last();
        if listened.contains(d.name@) {
            init
        } else {
            init.push((path, file_stem_of(path), d.name@, d.line, d.col))
        }
    }
}

/// The findings of one component: none when it dispatches nothing or
/// dispatches dynamically.
pub open spec fn component_findings(
    listened: Seq<Seq<char>>,
    m: SvelteModuleFacts,
    path: Seq<char>,
) -> Seq<EventView> {
    if m.dispatched_events@.len() == 0 || m.has_dynamic_dispatch {
        Seq::empty()
    } else {
        unlistened_in(listened, path, m.dispatched_events@)
    }
}

/// The last module with file id `id`.
pub open spec fn module_for(modules: Seq<SvelteModuleFacts>, id: u32) -> Option<int>
    decreases modules.len(),
{
    if modules.len() == 0 {
        None
    } else if modules.last().file_id == id {
        Some(modules.len() - 1)
    } else {
        module_for(modules.drop_last(), id)
    }
}

/// The findings of the reachable `.svelte` nodes among `ns`, in node order.
pub open spec fn graph_findings(
    listened: Seq<Seq<char>>,
    modules: Seq<SvelteModuleFacts>,
    ns: Seq<SvelteGraphNode>,
) -> Seq<EventView>
    decreases ns.len(),
{
    if ns.len() == 0 {
        Seq::empty()
    } else {
        let init = graph_findings(listened, modules, ns.drop_last());
        let n = ns.last();
        if n.reachable && is_svelte_path(n.path@) {
            match module_for(modules, n.file_id) {
                Some(k) => init + component_findings(listened, modules[k], n.path@),
                None => init,
            }
        } else {
            init
        }
    }
}

/// Every listened event name of `ms`, module by module.
pub open spec fn all_listened(ms: Seq<SvelteModuleFacts>) -> Seq<Seq<char>>
    decreases ms.len(),
{
    if ms.len() == 0 {
        Seq::empty()
    } else {
        all_listened(ms.drop_last()) + string_views(ms.last().listened_events@)
    }
}

proof fn lemma_all_listened(ms: Seq<SvelteModuleFacts>)
    ensures
        forall|name: Seq<char>| #[trigger] all_listened(ms).contains(name) <==> is_listened(ms, name),
    decreases ms.len(),
{
    if ms.len() > 0 {
        let m0 = ms.drop_last();
        lemma_all_listened(m0);
        let tail = string_views(ms.last().listened_events@);
        assert forall|name: Seq<char>| #[trigger] all_listened(ms).contains(name) <==> is_listened(ms, name) by {
            let a = all_listened(m0);
            if all_listened(ms).contains(name) {
                let x = choose|x: int| 0 <= x < all_listened(ms).len() && all_listened(ms)[x] == name;
                if x < a.len() {
                    assert(a[x] == name);
                    assert(a.contains(name));
                    let (p, q) = choose|p: int, q: int|
                        0 <= p < m0.len() && 0 <= q < m0[p].listened_events@.len()
                            && (#[trigger] m0[p].listened_events@[q])@ == name;
                    assert(ms[p] == m0[p]);
                    assert(ms[p].listened_events@[q]@ == name);
                } else {
                    assert(tail[x - a.len()] == name);
                    assert(ms[ms.len() - 1].listened_events@[x - a.len()]@ == name);
                }
            }
            if is_listened(ms, name) {
                let (p, q) = choose|p: int, q: int|
                    0 <= p < ms.len() && 0 <= q < ms[p].listened_events@.len()
                        && (#[trigger] ms[p].listened_events@[q])@ == name;
                if p < m0.len() {
                    assert(m0[p] == ms[p]);
                    assert(m0[p].listened_events@[q]@ == name);
                    assert(a.contains(name));
                    let x = choose|x: int| 0 <= x < a.len() && a[x] == name;
                    assert(all_listened(ms)[x] == name);
                } else {
                    assert(all_listened(ms)[a.len() + q] == name);
                }
            }
        }
    } else {
        assert forall|name: Seq<char>| #[trigger] all_listened(ms).contains(name) <==> is_listened(ms, name) by {}
    }
}

proof fn lemma_unlistened_by_membership(
    l1: Seq<Seq<char>>,
    l2: Seq<Seq<char>>,
    path: Seq<char>,
    ds: Seq<DispatchedEvent>,
)
    requires
        forall|name: Seq<char>| #[trigger] l1.contains(name) <==> l2.contains(name),
    ensures
        unlistened_in(l1, path, ds) == unlistened_in(l2, path, ds),
    decreases ds.len(),
{
    if ds.len() > 0 {
        lemma_unlistened_by_membership(l1, l2, path, ds.drop_last());
        assert(l1.contains(ds.last().name@) == l2.contains(ds.last().name@));
    }
}

proof fn lemma_graph_findings_by_membership(
    l1: Seq<Seq<char>>,
    l2: Seq<Seq<char>>,
    modules: Seq<SvelteModuleFacts>,
    ns: Seq<SvelteGraphNode>,
)
    requires
        forall|name: Seq<char>| #[trigger] l1.contains(name) <==> l2.contains(name),
    ensures
        graph_findings(l1, modules, ns) == graph_findings(l2, modules, ns),
    decreases ns.len(),
{
    if ns.len() > 0 {
        lemma_graph_findings_by_membership(l1, l2, modules, ns.drop_last());
        let n = ns.last();
        if let Some(k) = module_for(modules, n.file_id) {
            lemma_unlistened_by_membership(l1, l2, n.path@, modules[k].dispatched_events@);
        }
    }
}

/// Findings go by path, then line, then event name.
pub open spec fn event_order() -> spec_fn(EventView, EventView) -> bool {
    |a: EventView, b: EventView|
        path_before(a.0, b.0) || (same_path(a.0, b.0) && (a.3 < b.3 || (a.3 == b.3
            && chars_before(a.2, b.2))))
}

proof fn lemma_last_dot_before_bounds(s: Seq<char>, k: int)
    ensures
        last_dot_before(s, k) matches Some(j) ==> 0 <= j < k,
    decreases k,
{
    if k > 0 && s[k - 1] != '.' {
        lemma_last_dot_before_bounds(s, k - 1);
    }
}

/// Whether a path is a Svelte component file.
pub fn is_svelte_file(path: &str) -> (b: bool)
    ensures
        b == is_svelte_path(path@),
{
    match crate::walkthrough::file_extension(path) {
        Some(e) => str_eq(e.as_str(), "svelte"),
        None => false,
    }
}

/// The component name: the file stem of its path.
pub fn component_name_for(path: &str) -> (name: String)
    ensures
        name@ == file_stem_of(path@),
{
    match crate::walkthrough::file_name(path) {
        Some(n) => match crate::walkthrough::file_extension(path) {
            Some(e) => {
                let c = chars_of(n.as_str());
                let ec = chars_of(e.as_str());
                proof {
                    lemma_last_dot_before_bounds(n@, n@.len() as int);
                }
                let keep = c.len() - ec.len() - 1;
                let mut out: Vec<char> = Vec::new();
                let mut i: usize = 0;
                while i < keep
                    invariant
                        i <= keep,
                        keep == c@.len() - e@.len() - 1,
                        keep <= c@.len(),
                        out@ == c@.take(i as int),
                    decreases keep - i,
                {
                    out.push(c[i]);
                    assert(c@.take(i + 1) =~= c@.take(i as int).push(c@[i as int]));
                    i = i + 1;
                }
                crate::text::string_from_chars(&out)
            },
            None => n,
        },
        None => String::new(),
    }
}

/// The names that some module listens to, once each, in order of first
/// appearance.
pub fn collect_listened_events(modules: &Vec<SvelteModuleFacts>) -> (r: Vec<String>)
    ensures
        string_views(r@).no_duplicates(),
        forall|name: Seq<char>| #[trigger] string_views(r@).contains(name) <==> is_listened(modules@, name),
{
    let mut out: Vec<String> = Vec::new();
    let mut i: usize = 0;
    while i < modules.len()
        invariant
            i <= modules@.len(),
            string_views(out@).no_duplicates(),
            forall|name: Seq<char>|
                #[trigger] string_views(out@).contains(name) <==> is_listened(modules@.take(i as int), name),
        decreases modules@.len() - i,
    {
        let m = &modules[i];
        let mut j: usize = 0;
        while j < m.listened_events.len()
            invariant
                i < modules@.len(),
                *m == modules@[i as int],
                j <= m.listened_events@.len(),
                string_views(out@).no_duplicates(),
                forall|name: Seq<char>|
                    #[trigger] string_views(out@).contains(name) <==> (is_listened(modules@.take(i as int), name)
                        || exists|q: int| 0 <= q < j && (#[trigger] m.listened_events@[q])@ == name),
            decreases m.listened_events@.len() - j,
        {
            let name = &m.listened_events[j];
            let mut found = false;
            let mut k: usize = 0;
            while k < out.len()
                invariant
                    k <= out@.len(),
                    !found ==> forall|q: int| 0 <= q < k ==> out@[q]@ != name@,
                    found ==> string_views(out@).contains(name@),
                decreases out@.len() - k,
            {
                if str_eq(out[k].as_str(), name.as_str()) {
                    assert(string_views(out@)[k as int] == name@);
                    found = true;
                }
                k = k + 1;
            }
            let ghost before = string_views(out@);
            if !found {
                out.push(string_of(name.as_str()));
                assert(string_views(out@) =~= before.push(name@));
                assert(!before.contains(name@)) by {
                    if before.contains(name@) {
                        let q = choose|q: int| 0 <= q < before.len() && before[q] == name@;
                        assert(out@[q]@ == name@);
                    }
                }
            }
            assert(string_views(out@).contains(name@)) by {
                if !found {
                    assert(string_views(out@)[before.len() as int] == name@);
                }
            }
            assert(forall|nm: Seq<char>| before.contains(nm) ==> #[trigger] string_views(out@).contains(nm)) by {
                assert forall|nm: Seq<char>| before.contains(nm) implies #[trigger] string_views(out@).contains(nm) by {
                    let x = choose|x: int| 0 <= x < before.len() && before[x] == nm;
                    assert(string_views(out@)[x] == nm);
                }
            }
            assert(forall|nm: Seq<char>| #[trigger] string_views(out@).contains(nm) ==> before.contains(nm) || nm == name@) by {
                assert forall|nm: Seq<char>| #[trigger] string_views(out@).contains(nm) implies before.contains(nm) || nm == name@ by {
                    let x = choose|x: int| 0 <= x < string_views(out@).len() && string_views(out@)[x] == nm;
                    if x < before.len() {
                        assert(before[x] == nm);
                    }
                }
            }
            assert forall|nm: Seq<char>|
                #[trigger] string_views(out@).contains(nm) <==> (is_listened(modules@.take(i as int), nm)
                    || exists|q: int| 0 <= q < j + 1 && (#[trigger] m.listened_events@[q])@ == nm) by {
                if exists|q: int| 0 <= q < j + 1 && (#[trigger] m.listened_events@[q])@ == nm {
                    let q = choose|q: int| 0 <= q < j + 1 && (#[trigger] m.listened_events@[q])@ == nm;
                    if q < j {
                        assert(before.contains(nm));
                    }
                }
                if is_listened(modules@.take(i as int), nm) {
                    assert(before.contains(nm));
                }
                if string_views(out@).contains(nm) {
                    if nm == name@ {
                        assert(m.listened_events@[j as int]@ == nm);
                    } else {
                        assert(before.contains(nm));
                    }
                }
            }
            j = j + 1;
        }
        assert forall|name: Seq<char>|
            is_listened(modules@.take(i + 1), name) <==> (is_listened(modules@.take(i as int), name)
                || exists|q: int| 0 <= q < m.listened_events@.len() && (#[trigger] m.listened_events@[q])@ == name) by {
            let t1 = modules@.take(i + 1);
            let t0 = modules@.take(i as int);
            if is_listened(t1, name) {
                let (a, b) = choose|a: int, b: int|
                    0 <= a < t1.len() && 0 <= b < t1[a].listened_events@.len()
                        && (#[trigger] t1[a].listened_events@[b])@ == name;
                if a < i {
                    assert(t0[a] == t1[a]);
                    assert(t0[a].listened_events@[b]@ == name);
                } else {
                    assert(t1[a] == *m);
                }
            }
            if is_listened(t0, name) {
                let (a, b) = choose|a: int, b: int|
                    0 <= a < t0.len() && 0 <= b < t0[a].listened_events@.len()
                        && (#[trigger] t0[a].listened_events@[b])@ == name;
                assert(t1[a] == t0[a]);
                assert(t1[a].listened_events@[b]@ == name);
            }
            if exists|q: int| 0 <= q < m.listened_events@.len() && (#[trigger] m.listened_events@[q])@ == name {
                let q = choose|q: int| 0 <= q < m.listened_events@.len() && (#[trigger] m.listened_events@[q])@ == name;
                assert(t1[i as int] == *m);
                assert(t1[i as int].listened_events@[q]@ == name);
            }
        }
        i = i + 1;
    }
    assert(modules@.take(i as int) =~= modules@);
    out
}

fn contains_name(names: &Vec<String>, name: &str) -> (b: bool)
    ensures
        b == string_views(names@).contains(name@),
{
    let mut k: usize = 0;
    while k < names.len()
        invariant
            k <= names@.len(),
            forall|q: int| 0 <= q < k ==> names@[q]@ != name@,
        decreases names@.len() - k,
    {
        if str_eq(names[k].as_str(), name) {
            assert(string_views(names@)[k as int] == name@);
            return true;
        }
        k = k + 1;
    }
    assert(!string_views(names@).contains(name@)) by {
        if string_views(names@).contains(name@) {
            let q = choose|q: int| 0 <= q < names@.len() && string_views(names@)[q] == name@;
            assert(names@[q]@ == name@);
        }
    }
    false
}

/// Appends a finding for each event that `module` dispatches and no module
/// listens to; nothing when it dispatches nothing or dispatches dynamically.
pub fn flag_unlistened_events(
    module: &SvelteModuleFacts,
    path: &str,
    listened: &Vec<String>,
    findings: &mut Vec<UnusedSvelteEvent>,
)
    ensures
        final(findings)@.map_values(|e: UnusedSvelteEvent| event_view(e)) == old(findings)@.map_values(
            |e: UnusedSvelteEvent| event_view(e),
        ) + component_findings(string_views(listened@), *module, path@),
{
    let ghost start = findings@.map_values(|e: UnusedSvelteEvent| event_view(e));
    if module.dispatched_events.len() == 0 || module.has_dynamic_dispatch {
        assert(start + Seq::<EventView>::empty() =~= start);
        return;
    }
    let component_name = component_name_for(path);
    let ghost ds = module.dispatched_events@;
    let ghost ls = string_views(listened@);
    let mut i: usize = 0;
    assert(start + unlistened_in(ls, path@, ds.take(0)) =~= start);
    while i < module.dispatched_events.len()
        invariant
            i <= ds.len(),
            ds == module.dispatched_events@,
            ls == string_views(listened@),
            component_name@ == file_stem_of(path@),
            findings@.map_values(|e: UnusedSvelteEvent| event_view(e)) == start + unlistened_in(
                ls,
                path@,
                ds.take(i as int),
            ),
        decreases ds.len() - i,
    {
        let d = &module.dispatched_events[i];
        assert(ds.take(i + 1).drop_last() =~= ds.take(i as int));
        assert(ds.take(i + 1).last() == *d);
        if !contains_name(listened, d.name.as_str()) {
            let ghost before = findings@.map_values(|e: UnusedSvelteEvent| event_view(e));
            findings.push(
                UnusedSvelteEvent {
                    path: string_of(path),
                    component_name: string_of(component_name.as_str()),
                    event_name: string_of(d.name.as_str()),
                    line: d.line,
                    col: d.col,
                },
            );
            assert(findings@.map_values(|e: UnusedSvelteEvent| event_view(e)) =~= before.push(
                (path@, file_stem_of(path@), d.name@, d.line, d.col),
            ));
        }
        i = i + 1;
    }
    assert(ds.take(i as int) =~= ds);
}

fn find_module(modules: &Vec<SvelteModuleFacts>, id: u32) -> (r: Option<usize>)
    ensures
        match r {
            Some(k) => k < modules@.len() && module_for(modules@, id) == Some(k as int),
            None => module_for(modules@, id) is None,
        },
{
    let mut j: usize = modules.len();
    assert(modules@.take(j as int) =~= modules@);
    while j > 0
        invariant
            j <= modules@.len(),
            module_for(modules@.take(j as int), id) == module_for(modules@, id),
        decreases j,
    {
        assert(modules@.take(j as int).last() == modules@[j - 1]);
        assert(modules@.take(j as int).drop_last() =~= modules@.take(j - 1));
        if modules[j - 1].file_id == id {
            return Some(j - 1);
        }
        j = j - 1;
    }
    None
}

fn event_lt(a: &UnusedSvelteEvent, b: &UnusedSvelteEvent) -> (r: bool)
    ensures
        r == (event_order())(event_view(*a), event_view(*b)),
{
    if path_lt(a.path.as_str(), b.path.as_str()) {
        return true;
    }
    if !crate::path_order::path_eq(a.path.as_str(), b.path.as_str()) {
        return false;
    }
    if a.line != b.line {
        return a.line < b.line;
    }
    let na = chars_of(a.event_name.as_str());
    let nb = chars_of(b.event_name.as_str());
    chars_lt(&na, &nb)
}

fn sort_events(items: Vec<UnusedSvelteEvent>) -> (out: Vec<UnusedSvelteEvent>)
    ensures
        out@.map_values(|x: UnusedSvelteEvent| event_view(x)) == sorted_by(
            items@.map_values(|x: UnusedSvelteEvent| event_view(x)),
            event_order(),
        ),
{
    let ghost input = items@.map_values(|x: UnusedSvelteEvent| event_view(x));
    let mut out: Vec<UnusedSvelteEvent> = Vec::new();
    let mut i: usize = 0;
    assert(input.take(0) =~= Seq::<EventView>::empty());
    while i < items.len()
        invariant
            i <= items@.len(),
            input == items@.map_values(|x: UnusedSvelteEvent| event_view(x)),
            out@.map_values(|x: UnusedSvelteEvent| event_view(x)) == sorted_by(
                input.take(i as int),
                event_order(),
            ),
        decreases items@.len() - i,
    {
        let x = UnusedSvelteEvent {
            path: string_of(items[i].path.as_str()),
            component_name: string_of(items[i].component_name.as_str()),
            event_name: string_of(items[i].event_name.as_str()),
            line: items[i].line,
            col: items[i].col,
        };
        let ghost before_out = out@.map_values(|y: UnusedSvelteEvent| event_view(y));
        assert(input.take(i + 1).drop_last() =~= input.take(i as int));
        assert(input.take(i + 1).last() == event_view(x));
        let mut p = out.len();
        while p > 0 && event_lt(&x, &out[p - 1])
            invariant
                p <= out@.len(),
                before_out == out@.map_values(|y: UnusedSvelteEvent| event_view(y)),
                forall|q: int|
                    p <= q < before_out.len() ==> (event_order())(
                        event_view(x),
                        #[trigger] before_out[q],
                    ),
            decreases p,
        {
            p = p - 1;
        }
        proof {
            if p > 0 {
                assert(before_out[p - 1] == event_view(out@[p - 1]));
            }
            lemma_insert_at(before_out, event_view(x), p as int, event_order());
        }
        let ghost xv = event_view(x);
        out.insert(p, x);
        assert(out@.map_values(|y: UnusedSvelteEvent| event_view(y)) =~= before_out.take(
            p as int,
        ).push(xv) + before_out.skip(p as int));
        i = i + 1;
    }
    assert(input.take(i as int) =~= input);
    out
}

/// Finds the custom events that reachable `.svelte` components dispatch and
/// no component listens to, sorted by path, line and name; nothing unless the
/// project declares `svelte`.
pub fn find_unused_svelte_events(
    nodes: &Vec<SvelteGraphNode>,
    modules: &Vec<SvelteModuleFacts>,
    declared_deps: &Vec<String>,
) -> (r: Vec<UnusedSvelteEvent>)
    ensures
        !string_views(declared_deps@).contains("svelte"@) ==> r@.len() == 0,
        string_views(declared_deps@).contains("svelte"@) ==> r@.map_values(
            |e: UnusedSvelteEvent| event_view(e),
        ) == sorted_by(graph_findings(all_listened(modules@), modules@, nodes@), event_order()),
{
    if !contains_name(declared_deps, "svelte") {
        return Vec::new();
    }
    let listened = collect_listened_events(modules);
    let ghost ls = string_views(listened@);
    let mut findings: Vec<UnusedSvelteEvent> = Vec::new();
    let mut i: usize = 0;
    assert(nodes@.take(0) =~= Seq::<SvelteGraphNode>::empty());
    while i < nodes.len()
        invariant
            i <= nodes@.len(),
            ls == string_views(listened@),
            findings@.map_values(|e: UnusedSvelteEvent| event_view(e)) == graph_findings(
                ls,
                modules@,
                nodes@.take(i as int),
            ),
        decreases nodes@.len() - i,
    {
        let n = &nodes[i];
        assert(nodes@.take(i + 1).drop_last() =~= nodes@.take(i as int));
        assert(nodes@.take(i + 1).last() == *n);
        if n.reachable && is_svelte_file(n.path.as_str()) {
            match find_module(modules, n.file_id) {
                Some(k) => {
                    flag_unlistened_events(&modules[k], n.path.as_str(), &listened, &mut findings);
                },
                None => {},
            }
        }
        i = i + 1;
    }
    assert(nodes@.take(i as int) =~= nodes@);
    proof {
        lemma_all_listened(modules@);
        lemma_graph_findings_by_membership(ls, all_listened(modules@), modules@, nodes@);
    }
    sort_events(findings)
}

proof fn lemma_unlistened_not_listened(listened: Seq<Seq<char>>, path: Seq<char>, ds: Seq<DispatchedEvent>)
    ensures
        forall|k: int|
            0 <= k < unlistened_in(listened, path, ds).len() ==> !listened.contains(
                (#[trigger] unlistened_in(listened, path, ds)[k]).2,
            ) && unlistened_in(listened, path, ds)[k].0 == path,
    decreases ds.len(),
{
    if ds.len() > 0 {
        lemma_unlistened_not_listened(listened, path, ds.drop_last());
        let u0 = unlistened_in(listened, path, ds.drop_last());
        let u = unlistened_in(listened, path, ds);
        assert forall|k: int| 0 <= k < u.len() implies !listened.contains((#[trigger] u[k]).2)
            && u[k].0 == path by {
            if k < u0.len() {
                assert(u[k] == u0[k]);
            }
        }
    }
}

/// A flagged event is one that no module listens to, dispatched by a
/// reachable `.svelte` component that does not dispatch dynamically.
pub proof fn lemma_flagged_events_are_unlistened(
    modules: Seq<SvelteModuleFacts>,
    ns: Seq<SvelteGraphNode>,
)
    ensures
        forall|k: int|
            0 <= k < graph_findings(all_listened(modules), modules, ns).len() ==> {
                let f = #[trigger] graph_findings(all_listened(modules), modules, ns)[k];
                &&& !is_listened(modules, f.2)
                &&& is_svelte_path(f.0)
                &&& exists|n: int|
                    0 <= n < ns.len() && (#[trigger] ns[n]).path@ == f.0 && ns[n].reachable
                        && (module_for(modules, ns[n].file_id) matches Some(m)
                        && !modules[m].has_dynamic_dispatch)
            },
    decreases ns.len(),
{
    lemma_all_listened(modules);
    let l = all_listened(modules);
    if ns.len() > 0 {
        let n0 = ns.drop_last();
        lemma_flagged_events_are_unlistened(modules, n0);
        let g0 = graph_findings(l, modules, n0);
        let g = graph_findings(l, modules, ns);
        let n = ns.last();
        assert forall|k: int| 0 <= k < g.len() implies {
            let f = #[trigger] g[k];
            &&& !is_listened(modules, f.2)
            &&& is_svelte_path(f.0)
            &&& exists|j: int|
                0 <= j < ns.len() && (#[trigger] ns[j]).path@ == f.0 && ns[j].reachable
                    && (module_for(modules, ns[j].file_id) matches Some(m)
                    && !modules[m].has_dynamic_dispatch)
        } by {
            if k < g0.len() {
                assert(g[k] == g0[k]);
                let j = choose|j: int|
                    0 <= j < n0.len() && (#[trigger] n0[j]).path@ == g0[k].0 && n0[j].reachable
                        && (module_for(modules, n0[j].file_id) matches Some(m)
                        && !modules[m].has_dynamic_dispatch);
                assert(ns[j] == n0[j]);
            } else {
                let m = module_for(modules, n.file_id).unwrap();
                let ds = modules[m].dispatched_events@;
                lemma_unlistened_not_listened(l, n.path@, ds);
                assert(g[k] == unlistened_in(l, n.path@, ds)[k - g0.len()]);
                assert(ns[ns.len() - 1] == n);
            }
        }
    }
}

} // verus!
