//! File references in `package.json` script values.
//!
//! A script value is cut into commands at `&`, `|` and `;`; each command is cut
//! into whitespace-separated tokens. After an optional `npx`/`pnpx` or
//! `yarn exec`/`pnpm exec` launcher, a runner (`node`, `ts-node`, `tsx`,
//! `babel-node`) makes every non-flag argument that looks like a file path a
//! reference; any other command contributes the non-flag tokens that look like
//! script files.
use vstd::prelude::*;

use crate::text::{
    chars_contain_str, chars_end_with_str, chars_eq_str, chars_of, chars_start_with_str,
    contains_seq, ends_with, has_char, is_whitespace, is_ws, starts_with, string_from_chars,
};

verus! {

/// Characters that separate the commands of a script.
pub open spec fn is_command_separator(c: char) -> bool {
    c == '&' || c == '|' || c == ';'
}

/// The pieces of `s` between separator characters, empty ones included, as
/// `str::split` yields them.
pub open spec fn split_commands(s: Seq<char>) -> Seq<Seq<char>>
    decreases s.len(),
{
    if s.len() == 0 {
        seq![Seq::<char>::empty()]
    } else {
        let init = split_commands(s.drop_last());
        let c = s.last();
        if is_command_separator(c) {
            init.push(Seq::<char>::empty())
        } else {
            init.update(init.len() - 1, init.last().push(c))
        }
    }
}

/// The maximal runs of non-whitespace characters of `s`, as
/// `str::split_whitespace` yields them.
pub open spec fn words(s: Seq<char>) -> Seq<Seq<char>>
    decreases s.len(),
{
    if s.len() == 0 {
        Seq::<Seq<char>>::empty()
    } else {
        let init = words(s.drop_last());
        let c = s.last();
        if is_ws(c) {
            init
        } else if s.len() >= 2 && !is_ws(s[s.len() - 2]) {
            init.update(init.len() - 1, init.last().push(c))
        } else {
            init.push(seq![c])
        }
    }
}

/// Source extensions that mark a script file.
pub open spec fn script_extensions() -> Seq<Seq<char>> {
    seq![
        ".js"@,
        ".ts"@,
        ".mjs"@,
        ".cjs"@,
        ".mts"@,
        ".cts"@,
        ".jsx"@,
        ".tsx"@,
        ".gts"@,
        ".gjs"@,
    ]
}

pub open spec fn has_script_extension(t: Seq<char>) -> bool {
    exists|i: int| 0 <= i < script_extensions().len() && #[trigger] ends_with(t, script_extensions()[i])
}

/// A token that can name a file at all: not empty, no backslash, no `$`, no
/// braces (template and workflow expressions), and no `[]` or `[^` (character
/// classes of a pattern).
pub open spec fn could_be_file_path_spec(t: Seq<char>) -> bool {
    &&& t.len() > 0
    &&& !t.contains('\\')
    &&& !t.contains('$')
    &&& !t.contains('{')
    &&& !t.contains('}')
    &&& !contains_seq(t, "[]"@)
    &&& !contains_seq(t, "[^"@)
}

pub open spec fn file_path_like(t: Seq<char>) -> bool {
    could_be_file_path_spec(t) && (has_script_extension(t) || starts_with(t, "./"@) || starts_with(
        t,
        "../"@,
    ) || (t.contains('/') && !starts_with(t, "@"@) && !contains_seq(t, "://"@)))
}

pub open spec fn script_file_like(t: Seq<char>) -> bool {
    could_be_file_path_spec(t) && has_script_extension(t) && (t.contains('/') || starts_with(
        t,
        "./"@,
    ) || starts_with(t, "../"@))
}

pub open spec fn is_flag(t: Seq<char>) -> bool {
    t.len() > 0 && t[0] == '-'
}

pub open spec fn is_runner(t: Seq<char>) -> bool {
    t == "node"@ || t == "ts-node"@ || t == "tsx"@ || t == "babel-node"@
}

/// Index of the command token, past an `npx`/`pnpx` or `yarn exec`/`pnpm exec` launcher.
pub open spec fn command_start(t: Seq<Seq<char>>) -> int {
    if t.len() >= 1 && (t[0] == "npx"@ || t[0] == "pnpx"@) {
        1
    } else if t.len() >= 2 && (t[0] == "yarn"@ || t[0] == "pnpm"@) && t[1] == "exec"@ {
        2
    } else {
        0
    }
}

/// A token kept as a reference: no flag, and a file path after a runner, a
/// script file elsewhere.
pub open spec fn token_kept(t: Seq<char>, after_runner: bool) -> bool {
    !is_flag(t) && if after_runner {
        file_path_like(t)
    } else {
        script_file_like(t)
    }
}

/// The tokens of `toks` that are kept, in order.
pub open spec fn kept_tokens(toks: Seq<Seq<char>>, after_runner: bool) -> Seq<Seq<char>>
    decreases toks.len(),
{
    if toks.len() == 0 {
        Seq::<Seq<char>>::empty()
    } else {
        let init = kept_tokens(toks.drop_last(), after_runner);
        if token_kept(toks.last(), after_runner) {
            init.push(toks.last())
        } else {
            init
        }
    }
}

/// The references of one command given its tokens.
pub open spec fn command_refs(t: Seq<Seq<char>>) -> Seq<Seq<char>> {
    let start = command_start(t);
    if start >= t.len() {
        Seq::<Seq<char>>::empty()
    } else if is_runner(t[start]) {
        kept_tokens(t.subrange(start + 1, t.len() as int), true)
    } else {
        kept_tokens(t.subrange(start, t.len() as int), false)
    }
}

/// The references of the first `n` commands of `cmds`, concatenated.
pub open spec fn refs_of_commands(cmds: Seq<Seq<char>>, n: int) -> Seq<Seq<char>>
    decreases n,
{
    if n <= 0 {
        Seq::<Seq<char>>::empty()
    } else {
        refs_of_commands(cmds, n - 1) + command_refs(words(cmds[n - 1]))
    }
}

/// All file references of a script value, in order of appearance.
pub open spec fn script_refs(script: Seq<char>) -> Seq<Seq<char>> {
    refs_of_commands(split_commands(script), split_commands(script).len() as int)
}

pub open spec fn char_views(v: Seq<Vec<char>>) -> Seq<Seq<char>> {
    v.map_values(|x: Vec<char>| x@)
}

proof fn lemma_split_commands_nonempty(s: Seq<char>)
    ensures
        split_commands(s).len() >= 1,
    decreases s.len(),
{
    if s.len() > 0 {
        lemma_split_commands_nonempty(s.drop_last());
    }
}

proof fn lemma_words_last(s: Seq<char>)
    ensures
        s.len() > 0 && !is_ws(s.last()) ==> words(s).len() >= 1,
    decreases s.len(),
{
    if s.len() > 0 {
        lemma_words_last(s.drop_last());
    }
}

/// Cuts `s` into the commands between separators.
fn split_command_chars(s: &Vec<char>) -> (out: Vec<Vec<char>>)
    ensures
        char_views(out@) == split_commands(s@),
{
    let mut out: Vec<Vec<char>> = Vec::new();
    let mut cur: Vec<char> = Vec::new();
    let mut i: usize = 0;
    while i < s.len()
        invariant
            i <= s@.len(),
            char_views(out@).push(cur@) == split_commands(s@.take(i as int)),
        decreases s@.len() - i,
    {
        let c = s[i];
        proof {
            lemma_split_commands_nonempty(s@.take(i as int));
            assert(s@.take(i + 1).drop_last() =~= s@.take(i as int));
        }
        let ghost before = char_views(out@).push(cur@);
        if c == '&' || c == '|' || c == ';' {
            let done = cur;
            out.push(done);
            cur = Vec::new();
            assert(char_views(out@).push(cur@) =~= before.push(Seq::<char>::empty()));
        } else {
            cur.push(c);
            assert(char_views(out@).push(cur@) =~= before.update(
                before.len() - 1,
                before.last().push(c),
            ));
        }
        i = i + 1;
    }
    assert(s@.take(i as int) =~= s@);
    let ghost all = char_views(out@).push(cur@);
    out.push(cur);
    assert(char_views(out@) =~= all);
    out
}

/// Cuts `s` into its whitespace-separated words.
fn split_words(s: &Vec<char>) -> (out: Vec<Vec<char>>)
    ensures
        char_views(out@) == words(s@),
{
    let mut out: Vec<Vec<char>> = Vec::new();
    let mut cur: Vec<char> = Vec::new();
    let mut in_word = false;
    let mut i: usize = 0;
    while i < s.len()
        invariant
            i <= s@.len(),
            in_word == (i > 0 && !is_ws(s@[i - 1])),
            in_word ==> char_views(out@).push(cur@) == words(s@.take(i as int)),
            !in_word ==> char_views(out@) == words(s@.take(i as int)),
        decreases s@.len() - i,
    {
        let c = s[i];
        proof {
            assert(s@.take(i + 1).drop_last() =~= s@.take(i as int));
            assert(s@.take(i + 1).last() == c);
            if i > 0 {
                assert(s@.take(i + 1)[i - 1] == s@[i - 1]);
            }
        }
        if is_whitespace(c) {
            if in_word {
                let done = cur;
                out.push(done);
                cur = Vec::new();
            }
            in_word = false;
        } else {
            if in_word {
                let ghost before = char_views(out@).push(cur@);
                cur.push(c);
                assert(char_views(out@).push(cur@) =~= before.update(
                    before.len() - 1,
                    before.last().push(c),
                ));
            } else {
                cur = Vec::new();
                cur.push(c);
                assert(cur@ =~= seq![c]);
            }
            in_word = true;
        }
        i = i + 1;
    }
    assert(s@.take(i as int) =~= s@);
    if in_word {
        let ghost all = char_views(out@).push(cur@);
        out.push(cur);
        assert(char_views(out@) =~= all);
    }
    out
}

fn has_script_extension_exec(t: &Vec<char>) -> (b: bool)
    ensures
        b == has_script_extension(t@),
{
    let exts: [&str; 10] = [".js", ".ts", ".mjs", ".cjs", ".mts", ".cts", ".jsx", ".tsx", ".gts", ".gjs"];
    assert(exts@.map_values(|e: &str| e@) =~= script_extensions());
    let mut i: usize = 0;
    while i < 10
        invariant
            i <= 10,
            exts@.map_values(|e: &str| e@) == script_extensions(),
            forall|k: int| 0 <= k < i ==> !ends_with(t@, #[trigger] script_extensions()[k]),
        decreases 10 - i,
    {
        assert(exts@[i as int]@ == script_extensions()[i as int]);
        if chars_end_with_str(t, exts[i]) {
            return true;
        }
        i = i + 1;
    }
    false
}

fn could_be_file_path_chars(t: &Vec<char>) -> (b: bool)
    ensures
        b == could_be_file_path_spec(t@),
{
    t.len() > 0 && !has_char(t, '\\') && !has_char(t, '$') && !has_char(t, '{') && !has_char(
        t,
        '}',
    ) && !chars_contain_str(t, "[]") && !chars_contain_str(t, "[^")
}

fn file_path_like_chars(t: &Vec<char>) -> (b: bool)
    ensures
        b == file_path_like(t@),
{
    could_be_file_path_chars(t) && (has_script_extension_exec(t) || chars_start_with_str(t, "./")
        || chars_start_with_str(t, "../") || (has_char(t, '/') && !chars_start_with_str(t, "@")
        && !chars_contain_str(t, "://")))
}

fn script_file_like_chars(t: &Vec<char>) -> (b: bool)
    ensures
        b == script_file_like(t@),
{
    could_be_file_path_chars(t) && has_script_extension_exec(t) && (has_char(t, '/')
        || chars_start_with_str(t, "./") || chars_start_with_str(t, "../"))
}

/// Whether `token` could name a file at all (see [`could_be_file_path_spec`]).
pub fn could_be_file_path(token: &str) -> (b: bool)
    ensures
        b == could_be_file_path_spec(token@),
{
    let t = chars_of(token);
    could_be_file_path_chars(&t)
}

/// Whether a token looks like a file path argument: it has a script-like
/// source extension, starts with `./` or `../`, or holds a `/` without being a
/// scoped package or a URL.
pub fn looks_like_file_path(token: &str) -> (b: bool)
    ensures
        b == file_path_like(token@),
{
    let t = chars_of(token);
    file_path_like_chars(&t)
}

/// Whether a token looks like a standalone script file: a script-like source
/// extension and a path-like shape, never a bare command name.
pub fn looks_like_script_file(token: &str) -> (b: bool)
    ensures
        b == script_file_like(token@),
{
    let t = chars_of(token);
    script_file_like_chars(&t)
}

fn is_flag_chars(t: &Vec<char>) -> (b: bool)
    ensures
        b == is_flag(t@),
{
    t.len() > 0 && t[0] == '-'
}

/// The kept tokens of `toks[from..]`.
fn kept_from(toks: &Vec<Vec<char>>, from: usize, after_runner: bool) -> (out: Vec<Vec<char>>)
    requires
        from <= toks@.len(),
    ensures
        char_views(out@) == kept_tokens(
            char_views(toks@).subrange(from as int, toks@.len() as int),
            after_runner,
        ),
{
    let ghost all = char_views(toks@);
    let mut out: Vec<Vec<char>> = Vec::new();
    let mut i = from;
    while i < toks.len()
        invariant
            from <= i <= toks@.len(),
            all == char_views(toks@),
            char_views(out@) == kept_tokens(all.subrange(from as int, i as int), after_runner),
        decreases toks@.len() - i,
    {
        let t = &toks[i];
        let keep = !is_flag_chars(t) && if after_runner {
            file_path_like_chars(t)
        } else {
            script_file_like_chars(t)
        };
        proof {
            assert(all.subrange(from as int, i + 1).drop_last() =~= all.subrange(
                from as int,
                i as int,
            ));
            assert(all.subrange(from as int, i + 1).last() == t@);
        }
        if keep {
            let ghost before = char_views(out@);
            out.push(t.clone());
            assert(char_views(out@) =~= before.push(t@));
        }
        i = i + 1;
    }
    out
}

/// The references of one command, given its tokens.
fn refs_of_command(toks: &Vec<Vec<char>>) -> (out: Vec<Vec<char>>)
    ensures
        char_views(out@) == command_refs(char_views(toks@)),
{
    let ghost t = char_views(toks@);
    let n = toks.len();
    let mut start: usize = 0;
    if n >= 1 && (chars_eq_str(&toks[0], "npx") || chars_eq_str(&toks[0], "pnpx")) {
        start = 1;
    } else if n >= 2 && (chars_eq_str(&toks[0], "yarn") || chars_eq_str(&toks[0], "pnpm"))
        && chars_eq_str(&toks[1], "exec") {
        start = 2;
    }
    assert(start == command_start(t));
    if start >= n {
        return Vec::new();
    }
    let cmd = &toks[start];
    let runner = chars_eq_str(cmd, "node") || chars_eq_str(cmd, "ts-node") || chars_eq_str(
        cmd,
        "tsx",
    ) || chars_eq_str(cmd, "babel-node");
    if runner {
        kept_from(toks, start + 1, true)
    } else {
        kept_from(toks, start, false)
    }
}

/// Extracts the file path references of a `package.json` script value.
///
/// Recognises runner invocations such as `node path/to/script.js`,
/// `ts-node path/to/script.ts`, `tsx path/to/script.ts` and
/// `npx ts-node path/to/script.ts`, and bare script paths ending in a source
/// extension. Commands chained with `&&`, `||` and `;` are each examined.
pub fn extract_script_file_refs(script: &str) -> (refs: Vec<String>)
    ensures
        refs@.map_values(|r: String| r@) == script_refs(script@),
{
    let chars = chars_of(script);
    let cmds = split_command_chars(&chars);
    let ghost cv = char_views(cmds@);
    let mut refs: Vec<String> = Vec::new();
    let mut i: usize = 0;
    while i < cmds.len()
        invariant
            i <= cmds@.len(),
            cv == char_views(cmds@),
            cv == split_commands(script@),
            refs@.map_values(|r: String| r@) == refs_of_commands(cv, i as int),
        decreases cmds@.len() - i,
    {
        let toks = split_words(&cmds[i]);
        let found = refs_of_command(&toks);
        let ghost before = refs@.map_values(|r: String| r@);
        let mut j: usize = 0;
        while j < found.len()
            invariant
                j <= found@.len(),
                refs@.map_values(|r: String| r@) == before + char_views(found@).take(j as int),
            decreases found@.len() - j,
        {
            let s = string_from_chars(&found[j]);
            let ghost prev = refs@.map_values(|r: String| r@);
            refs.push(s);
            assert(refs@.map_values(|r: String| r@) =~= prev.push(found@[j as int]@));
            assert(char_views(found@).take(j + 1) =~= char_views(found@).take(j as int).push(
                found@[j as int]@,
            ));
            j = j + 1;
        }
        assert(char_views(found@).take(j as int) =~= char_views(found@));
        assert(cv[i as int] == cmds@[i as int]@);
        i = i + 1;
    }
    refs
}


/// `t` ends in one of the script-like source extensions: `.js`, `.ts`,
/// `.mjs`, `.cjs`, `.mts`, `.cts`, `.jsx`, `.tsx`, `.gts` or `.gjs`.
pub open spec fn ends_in_script_extension(t: Seq<char>) -> bool {
    ||| ends_with(t, ".js"@) || ends_with(t, ".ts"@) || ends_with(t, ".mjs"@)
    ||| ends_with(t, ".cjs"@) || ends_with(t, ".mts"@) || ends_with(t, ".cts"@)
    ||| ends_with(t, ".jsx"@) || ends_with(t, ".tsx"@) || ends_with(t, ".gts"@)
    ||| ends_with(t, ".gjs"@)
}

/// A token has a script extension exactly when it ends in one of the ten
/// script-like source extensions.
pub proof fn lemma_script_extensions(t: Seq<char>)
    ensures
        has_script_extension(t) <==> ends_in_script_extension(t),
{
    let xs = script_extensions();
    if ends_in_script_extension(t) {
        if ends_with(t, ".js"@) { assert(ends_with(t, xs[0])); }
        if ends_with(t, ".ts"@) { assert(ends_with(t, xs[1])); }
        if ends_with(t, ".mjs"@) { assert(ends_with(t, xs[2])); }
        if ends_with(t, ".cjs"@) { assert(ends_with(t, xs[3])); }
        if ends_with(t, ".mts"@) { assert(ends_with(t, xs[4])); }
        if ends_with(t, ".cts"@) { assert(ends_with(t, xs[5])); }
        if ends_with(t, ".jsx"@) { assert(ends_with(t, xs[6])); }
        if ends_with(t, ".tsx"@) { assert(ends_with(t, xs[7])); }
        if ends_with(t, ".gts"@) { assert(ends_with(t, xs[8])); }
        if ends_with(t, ".gjs"@) { assert(ends_with(t, xs[9])); }
    }
    if has_script_extension(t) {
        let i = choose|i: int| 0 <= i < xs.len() && #[trigger] ends_with(t, xs[i]);
        assert(0 <= i < 10);
    }
}

/// A token that can name a file, ends in a script-like source extension and
/// holds a `/` is both a file path argument and a standalone script file.
pub proof fn lemma_script_file_tokens(t: Seq<char>)
    requires
        could_be_file_path_spec(t),
        ends_in_script_extension(t),
        t.contains('/'),
    ensures
        file_path_like(t),
        script_file_like(t),
{
    lemma_script_extensions(t);
}

proof fn lemma_words_single(s: Seq<char>)
    requires
        s.len() > 0,
        forall|i: int| 0 <= i < s.len() ==> !is_ws(#[trigger] s[i]),
    ensures
        words(s) == seq![s],
    decreases s.len(),
{
    assert(!is_ws(s[s.len() - 1]));
    if s.len() >= 2 {
        let d = s.drop_last();
        assert forall|i: int| 0 <= i < d.len() implies !is_ws(#[trigger] d[i]) by {
            assert(d[i] == s[i]);
        }
        lemma_words_single(d);
        assert(!is_ws(s[s.len() - 2]));
        assert(words(s) == words(d).update(words(d).len() - 1, words(d).last().push(s.last())));
        assert(d.push(s.last()) =~= s);
        assert(seq![d].update(0, d.push(s.last())) =~= seq![s]);
    } else {
        assert(s.drop_last() =~= Seq::<char>::empty());
        assert(words(s) == words(s.drop_last()).push(seq![s.last()]));
        assert(seq![s.last()] =~= s);
        assert(Seq::<Seq<char>>::empty().push(s) =~= seq![s]);
    }
}

proof fn lemma_words_pair(a: Seq<char>, t: Seq<char>)
    requires
        a.len() > 0,
        t.len() > 0,
        forall|i: int| 0 <= i < a.len() ==> !is_ws(#[trigger] a[i]),
        forall|i: int| 0 <= i < t.len() ==> !is_ws(#[trigger] t[i]),
    ensures
        words(a + seq![' '] + t) == seq![a, t],
    decreases t.len(),
{
    let u = a + seq![' '] + t;
    assert(!is_ws(t[t.len() - 1]));
    assert(u.last() == t.last());
    if t.len() == 1 {
        let w = a + seq![' '];
        assert(u.drop_last() =~= w);
        assert(is_ws(' '));
        assert(w.drop_last() =~= a);
        assert(w.last() == ' ');
        assert(words(w) == words(a));
        lemma_words_single(a);
        assert(u[u.len() - 2] == ' ');
        assert(words(u) == words(w).push(seq![u.last()]));
        assert(seq![t.last()] =~= t);
        assert(seq![a].push(t) =~= seq![a, t]);
    } else {
        let td = t.drop_last();
        assert forall|i: int| 0 <= i < td.len() implies !is_ws(#[trigger] td[i]) by {
            assert(td[i] == t[i]);
        }
        lemma_words_pair(a, td);
        assert(u.drop_last() =~= a + seq![' '] + td);
        assert(u[u.len() - 2] == t[t.len() - 2]);
        assert(!is_ws(t[t.len() - 2]));
        let wd = words(u.drop_last());
        assert(words(u) == wd.update(wd.len() - 1, wd.last().push(u.last())));
        assert(td.push(t.last()) =~= t);
        assert(seq![a, td].update(1, td.push(t.last())) =~= seq![a, t]);
    }
}

proof fn lemma_split_single(s: Seq<char>)
    requires
        forall|i: int| 0 <= i < s.len() ==> !is_command_separator(#[trigger] s[i]),
    ensures
        split_commands(s) == seq![s],
    decreases s.len(),
{
    if s.len() == 0 {
        assert(s =~= Seq::<char>::empty());
    } else {
        let d = s.drop_last();
        assert forall|i: int| 0 <= i < d.len() implies !is_command_separator(#[trigger] d[i]) by {
            assert(d[i] == s[i]);
        }
        lemma_split_single(d);
        assert(!is_command_separator(s[s.len() - 1]));
        let sd = split_commands(d);
        assert(split_commands(s) == sd.update(sd.len() - 1, sd.last().push(s.last())));
        assert(d.push(s.last()) =~= s);
        assert(seq![d].update(0, d.push(s.last())) =~= seq![s]);
    }
}

/// `node <file>` references the file when the file argument can name a file,
/// is no flag, and ends in a script-like source extension, with or without a
/// directory (so `node build.cjs` references `build.cjs`).
pub proof fn lemma_runner_references_script(t: Seq<char>)
    requires
        t.len() > 0,
        forall|i: int| 0 <= i < t.len() ==> !is_ws(#[trigger] t[i]) && !is_command_separator(t[i]),
        t[0] != '-',
        could_be_file_path_spec(t),
        ends_in_script_extension(t),
    ensures
        script_refs("node "@ + t) == seq![t],
{
    reveal_strlit("node ");
    reveal_strlit("node");
    reveal_strlit("npx");
    reveal_strlit("pnpx");
    reveal_strlit("yarn");
    reveal_strlit("pnpm");
    reveal_strlit("ts-node");
    let a = "node"@;
    assert("node "@ =~= a + seq![' ']);
    let s = a + seq![' '] + t;
    assert("node "@ + t =~= s);
    assert forall|i: int| 0 <= i < a.len() implies !is_ws(#[trigger] a[i]) by {}
    assert forall|i: int| 0 <= i < s.len() implies !is_command_separator(#[trigger] s[i]) by {
        if i >= 5 {
            assert(s[i] == t[i - 5]);
        }
    }
    lemma_split_single(s);
    lemma_words_pair(a, t);
    lemma_script_extensions(t);
    let ws = seq![a, t];
    assert(ws[0] == a);
    assert(a.len() == 4 && a[0] == 'n');
    assert("npx"@.len() == 3 && "pnpx"@[0] == 'p' && "yarn"@[0] == 'y' && "pnpm"@[0] == 'p');
    assert(ws[0] != "npx"@ && ws[0] != "pnpx"@ && ws[0] != "yarn"@ && ws[0] != "pnpm"@);
    assert(command_start(ws) == 0);
    assert(is_runner(ws[0]));
    assert(ws.subrange(1, 2) =~= seq![t]);
    assert(seq![t].drop_last() =~= Seq::<Seq<char>>::empty());
    assert(seq![t].last() == t);
    assert(!is_flag(t));
    assert(token_kept(t, true));
    assert(kept_tokens(seq![t], true) == kept_tokens(Seq::<Seq<char>>::empty(), true).push(t));
    assert(kept_tokens(seq![t], true) =~= seq![t]);
    assert(seq![s][0] == s);
    assert(refs_of_commands(seq![s], 0) == Seq::<Seq<char>>::empty());
    assert(refs_of_commands(seq![s], 1) == refs_of_commands(seq![s], 0) + command_refs(words(s)));
    assert(command_refs(ws) =~= seq![t]);
    assert(Seq::<Seq<char>>::empty() + seq![t] =~= seq![t]);
}

} // verus!
