//! Commit message suggestions from an AI command line tool.
//!
//! gitgui never talks to a model itself. It pipes a prompt (the staged diff,
//! the branch, a few recent subjects) into a shell command that prints the
//! message on stdout: `codex exec`, `gemini`, `ollama run`,
//! `llm`, or anything the user configures. Keys, sessions and models stay in
//! that tool.
//!
//! The command is `$GITGUI_AI_COMMAND`, else `git config gitgui.ai-command`,
//! else the first known tool found in `$PATH`. The prompt template is
//! `$GITGUI_AI_PROMPT`, else `git config gitgui.ai-prompt`, else the default
//! below; `{diff}`, `{branch}` and `{recent}` are replaced, a literal `\n`
//! becomes a newline.
use vstd::pervasive::VecAdditionalExecFns;
use vstd::prelude::*;
use vstd::slice::slice_subrange;

use crate::seqs::{ends_with, find_pat, last_index_of, starts_with};
use crate::text::{
    chars_eq, chars_of, chars_start_with, join_lines, join_lines_exec, lemma_encode_utf8_append,
    lines_exec, lines_of, replace_all, replace_chars, replace_str, sat64, skip_white, skip_white_exec,
    skip_word, skip_word_exec, str_is, string_from_chars, to_ascii_lower, to_ascii_lower_exec, trim,
    trim_end, trim_end_index, trim_range, trim_start, trim_start_index, utf8_len, utf8_len_sat,
    views, lossy_string, utf8_lossy, push_str, push_decimal_str, ascii_chars, decimal,
};

verus! {

pub const ENV_COMMAND: &'static str = "GITGUI_AI_COMMAND";

pub const ENV_PROMPT: &'static str = "GITGUI_AI_PROMPT";

pub const CONFIG_COMMAND: &'static str = "gitgui.ai-command";

pub const CONFIG_PROMPT: &'static str = "gitgui.ai-prompt";

/// Where an autodetected command came from.
pub const AUTODETECT: &'static str = "autodetect";

/// Largest diff handed to the tool, in bytes. Beyond it files are cut.
pub const MAX_DIFF: usize = 24000;

pub const DEFAULT_PROMPT: &'static str = "Write a git commit message for the staged changes below.
Rules:
- First line: a summary in the imperative mood, at most 72 characters, no trailing period.
- Optional body after one blank line: why the change was made, wrapped at 72 columns.
- Plain text only: no markdown, no code fences, no preamble, nothing but the message.
Branch: {branch}
Recent commit subjects, match their style:
{recent}
Staged diff:
{diff}
";

/// Where the command came from, for `--probe` and the help dialog.
#[derive(Debug, Clone, PartialEq, Eq)]
pub struct Tool {
    pub command: String,
    pub source: &'static str,
}

impl View for Tool {
    type V = (Seq<char>, Seq<char>);

    open spec fn view(&self) -> (Seq<char>, Seq<char>) {
        (self.command@, self.source@)
    }
}

pub open spec fn opt_str(o: Option<&str>) -> Option<Seq<char>> {
    match o {
        Some(s) => Some(s@),
        None => None,
    }
}

pub open spec fn opt_string(o: Option<String>) -> Option<Seq<char>> {
    match o {
        Some(s) => Some(s@),
        None => None,
    }
}

pub open spec fn opt_tool(o: Option<Tool>) -> Option<(Seq<char>, Seq<char>)> {
    match o {
        Some(t) => Some(t@),
        None => None,
    }
}

/// A setting, trimmed, when it is not blank.
pub open spec fn clean_setting(o: Option<Seq<char>>) -> Option<Seq<char>> {
    match o {
        Some(s) => if trim(s).len() > 0 {
            Some(trim(s))
        } else {
            None
        },
        None => None,
    }
}

/// The command from the environment, else from git config: the command
/// and where it came from.
pub open spec fn pick_spec(env: Option<Seq<char>>, config: Option<Seq<char>>) -> Option<
    (Seq<char>, Seq<char>),
> {
    match clean_setting(env) {
        Some(c) => Some((c, ENV_COMMAND@)),
        None => match clean_setting(config) {
            Some(c) => Some((c, CONFIG_COMMAND@)),
            None => None,
        },
    }
}

fn clean_exec(o: Option<&str>) -> (r: Option<String>)
    ensures
        opt_string(r) == clean_setting(opt_str(o)),
{
    match o {
        Some(s) => {
            let v = chars_of(s);
            let (a, b) = trim_range(v.as_slice());
            if a < b {
                Some(string_from_chars(slice_subrange(v.as_slice(), a, b)))
            } else {
                None
            }
        },
        None => None,
    }
}

pub fn pick(env: Option<&str>, config: Option<&str>) -> (r: Option<Tool>)
    ensures
        opt_tool(r) == pick_spec(opt_str(env), opt_str(config)),
{
    if let Some(command) = clean_exec(env) {
        return Some(Tool { command, source: ENV_COMMAND });
    }
    if let Some(command) = clean_exec(config) {
        return Some(Tool { command, source: CONFIG_COMMAND });
    }
    None
}

/// Pick the command: environment, git config, then `autodetect`, which is
/// only run when neither gave one.
pub fn resolve<F: FnOnce() -> Option<Tool>>(env: Option<&str>, config: Option<&str>, autodetect: F) -> (r:
    Option<Tool>)
    requires
        call_requires(autodetect, ()),
    ensures
        pick_spec(opt_str(env), opt_str(config)) is Some ==> opt_tool(r) == pick_spec(
            opt_str(env),
            opt_str(config),
        ),
        pick_spec(opt_str(env), opt_str(config)) is None ==> call_ensures(autodetect, (), r),
{
    match pick(env, config) {
        Some(t) => Some(t),
        None => autodetect(),
    }
}

/// The known tools in preference order: the executable and the command
/// line that reads the prompt on stdin and prints the answer. `ollama`
/// (the third) also needs a model.
pub open spec fn candidate_exe(i: int) -> Seq<char> {
    if i == 0 {
        "codex"@
    } else if i == 1 {
        "gemini"@
    } else if i == 2 {
        "ollama"@
    } else {
        "llm"@
    }
}

pub open spec fn candidate_command(i: int) -> Seq<char> {
    if i == 0 {
        "codex exec -"@
    } else if i == 1 {
        "gemini -p 'Reply with the commit message only.'"@
    } else if i == 2 {
        "ollama run"@
    } else {
        "llm"@
    }
}

/// The number of known tools.
pub const N_CANDIDATES: usize = 4;

/// The executable of the `i`-th known tool, in preference order.
pub fn candidate_name(i: usize) -> (r: &'static str)
    requires
        i < N_CANDIDATES,
    ensures
        r@ == candidate_exe(i as int),
{
    if i == 0 {
        "codex"
    } else if i == 1 {
        "gemini"
    } else if i == 2 {
        "ollama"
    } else {
        "llm"
    }
}

/// The command of the first tool found from `i` on; `model` is what
/// `ollama list` named, when ollama is reached.
pub open spec fn detect_from(found: Seq<bool>, i: int, model: Option<Seq<char>>) -> Option<Seq<char>>
    decreases 4 - i,
{
    if i < 0 || i >= 4 {
        None
    } else if found[i] {
        if i == 2 {
            match model {
                Some(m) => Some(candidate_command(2) + seq![' '] + m),
                None => detect_from(found, i + 1, model),
            }
        } else {
            Some(candidate_command(i))
        }
    } else {
        detect_from(found, i + 1, model)
    }
}

/// Ollama is the first tool found, so its model decides.
pub open spec fn needs_model(found: Seq<bool>) -> bool {
    !found[0] && !found[1] && found[2]
}

/// The first known tool that was found: `found[i]` tells whether the
/// executable of the `i`-th candidate is on the search path. The ollama
/// model is asked for only when ollama is the first one found; without a
/// model it is skipped.
pub fn autodetect_in<F: FnOnce() -> Option<String>>(found: &[bool], ollama_model: F) -> (r: Option<Tool>)
    requires
        found.len() == N_CANDIDATES,
        call_requires(ollama_model, ()),
    ensures
        !needs_model(found@) ==> opt_tool(r) == match detect_from(found@, 0, None) {
            Some(c) => Some((c, AUTODETECT@)),
            None => None,
        },
        needs_model(found@) ==> exists|m: Option<String>|
            call_ensures(ollama_model, (), m) && opt_tool(r) == match detect_from(
                found@,
                0,
                opt_string(m),
            ) {
                Some(c) => Some((c, AUTODETECT@)),
                None => None,
            },
{
    proof {
        reveal_with_fuel(detect_from, 5);
    }
    if found[0] {
        return Some(Tool { command: "codex exec -".to_owned(), source: AUTODETECT });
    }
    if found[1] {
        return Some(
            Tool {
                command: "gemini -p 'Reply with the commit message only.'".to_owned(),
                source: AUTODETECT,
            },
        );
    }
    if found[2] {
        let m = ollama_model();
        proof {
            assert(call_ensures(ollama_model, (), m));
        }
        match m {
            Some(model) => {
                let mut command = "ollama run ".to_owned();
                command.append(model.as_str());
                proof {
                    reveal_strlit("ollama run ");
                    reveal_strlit("ollama run");
                    assert("ollama run "@ =~= "ollama run"@ + seq![' ']);
                }
                return Some(Tool { command, source: AUTODETECT });
            },
            None => {
                if found[3] {
                    return Some(Tool { command: "llm".to_owned(), source: AUTODETECT });
                }
                return None;
            },
        }
    }
    if found[3] {
        return Some(Tool { command: "llm".to_owned(), source: AUTODETECT });
    }
    None
}

/// The first word of a line, empty when it has none.
pub open spec fn first_word_of(l: Seq<char>) -> Seq<char> {
    l.subrange(skip_white(l, 0), skip_word(l, skip_white(l, 0)))
}

/// The first word of the first line from `k` on that has one.
pub open spec fn first_model(ls: Seq<Seq<char>>, k: int) -> Option<Seq<char>>
    decreases ls.len() - k,
{
    if k < 0 || k >= ls.len() {
        None
    } else if first_word_of(ls[k]).len() > 0 {
        Some(first_word_of(ls[k]))
    } else {
        first_model(ls, k + 1)
    }
}

fn first_word_bounds(l: &[char]) -> (r: (usize, usize))
    ensures
        r.0 == skip_white(l@, 0),
        r.1 == skip_word(l@, skip_white(l@, 0)),
        r.0 <= r.1 <= l.len(),
{
    let a = skip_white_exec(l, 0);
    let b = skip_word_exec(l, a);
    (a, b)
}

/// The first model `ollama list` knows: the first word of the first line
/// after the header that has one.
pub fn parse_ollama_list(text: &str) -> (r: Option<String>)
    ensures
        opt_string(r) == first_model(lines_of(text@), 1),
{
    let chars = chars_of(text);
    let ls = lines_exec(chars.as_slice());
    let ghost v = views(ls@);
    let mut k: usize = 1;
    while k < ls.len()
        invariant
            1 <= k,
            v == views(ls@),
            v == lines_of(text@),
            first_model(v, 1) == first_model(v, k as int),
        decreases ls.len() - k,
    {
        let l = ls[k].as_slice();
        let (a, b) = first_word_bounds(l);
        if a < b {
            return Some(string_from_chars(slice_subrange(l, a, b)));
        }
        k = k + 1;
    }
    None
}

/// The first word of a command, or the command itself when it has none.
pub fn first_word(command: &str) -> (r: String)
    ensures
        r@ == if skip_white(command@, 0) < command@.len() {
            first_word_of(command@)
        } else {
            command@
        },
{
    let v = chars_of(command);
    let (a, b) = first_word_bounds(v.as_slice());
    if a < v.len() {
        string_from_chars(slice_subrange(v.as_slice(), a, b))
    } else {
        command.to_owned()
    }
}

// ---------------------------------------------------------------------------
// The prompt.

/// `- subject` lines, one per recent commit.
pub open spec fn recent_list(v: Seq<Seq<char>>) -> Seq<char>
    decreases v.len(),
{
    if v.len() == 0 {
        seq![]
    } else if v.len() == 1 {
        "- "@ + v[0]
    } else {
        recent_list(v.drop_last()) + seq!['\n'] + "- "@ + v.last()
    }
}

pub open spec fn string_views(v: Seq<String>) -> Seq<Seq<char>> {
    v.map_values(|s: String| s@)
}

/// The template that applies: the given one, trimmed, with each `\n`
/// (backslash, n) turned into a newline, unless it is blank.
pub open spec fn template_of(template: Option<Seq<char>>) -> Seq<char> {
    match template {
        Some(t) => if trim(t).len() > 0 {
            replace_all(trim(t), "\\n"@, "\n"@)
        } else {
            DEFAULT_PROMPT@
        },
        None => DEFAULT_PROMPT@,
    }
}

pub open spec fn prompt_spec(template: Option<Seq<char>>, diff: Seq<char>, branch: Seq<char>, recent: Seq<
    Seq<char>,
>) -> Seq<char> {
    let recent_text = if recent.len() == 0 {
        "(none)"@
    } else {
        recent_list(recent)
    };
    let branch_text = if branch.len() == 0 {
        "(detached HEAD)"@
    } else {
        branch
    };
    replace_all(
        replace_all(replace_all(template_of(template), "{branch}"@, branch_text), "{recent}"@, recent_text),
        "{diff}"@,
        diff,
    )
}

fn template_exec(template: Option<&str>) -> (r: String)
    ensures
        r@ == template_of(opt_str(template)),
{
    match template {
        Some(t) => {
            let v = chars_of(t);
            let (a, b) = trim_range(v.as_slice());
            if a < b {
                let pat: Vec<char> = vec!['\\', 'n'];
                let rep: Vec<char> = vec!['\n'];
                proof {
                    reveal_strlit("\\n");
                    reveal_strlit("\n");
                    assert(pat@ =~= "\\n"@);
                    assert(rep@ =~= "\n"@);
                }
                let out = replace_chars(slice_subrange(v.as_slice(), a, b), pat.as_slice(), rep.as_slice());
                string_from_chars(out.as_slice())
            } else {
                DEFAULT_PROMPT.to_owned()
            }
        },
        None => DEFAULT_PROMPT.to_owned(),
    }
}

fn recent_exec(recent: &[String]) -> (r: Vec<char>)
    ensures
        r@ == recent_list(string_views(recent@)),
{
    let ghost v = string_views(recent@);
    let mut out: Vec<char> = Vec::new();
    let mut k: usize = 0;
    while k < recent.len()
        invariant
            k <= recent.len(),
            v == string_views(recent@),
            out@ == recent_list(v.take(k as int)),
        decreases recent.len() - k,
    {
        if k > 0 {
            out.push('\n');
        }
        out.push('-');
        out.push(' ');
        let mut item = chars_of(recent[k].as_str());
        out.append(&mut item);
        proof {
            reveal_strlit("- ");
            assert(v.take(k + 1).drop_last() =~= v.take(k as int));
            if k == 0 {
                assert(out@ =~= recent_list(v.take(1)));
            } else {
                assert(out@ =~= recent_list(v.take(k + 1)));
            }
        }
        k = k + 1;
    }
    assert(v.take(recent.len() as int) =~= v);
    out
}

/// The template with `{diff}`, `{branch}` and `{recent}` filled in, in
/// that order of replacement: branch, recent, diff.
pub fn build_prompt(template: Option<&str>, diff: &str, branch: &str, recent: &[String]) -> (r: String)
    ensures
        r@ == prompt_spec(opt_str(template), diff@, branch@, string_views(recent@)),
{
    let t = template_exec(template);
    let recent_text = if recent.len() == 0 {
        "(none)".to_owned()
    } else {
        let v = recent_exec(recent);
        string_from_chars(v.as_slice())
    };
    let branch_text = if branch.is_empty() {
        "(detached HEAD)".to_owned()
    } else {
        branch.to_owned()
    };
    proof {
        reveal_strlit("{branch}");
        reveal_strlit("{recent}");
        reveal_strlit("{diff}");
    }
    let a = replace_str(t.as_str(), "{branch}", branch_text.as_str());
    let b = replace_str(a.as_str(), "{recent}", recent_text.as_str());
    replace_str(b.as_str(), "{diff}", diff)
}

// ---------------------------------------------------------------------------
// Cutting the diff.

/// The last component of a `/`-separated path.
pub open spec fn file_name(path: Seq<char>) -> Seq<char> {
    match last_index_of(path, '/') {
        Some(i) => path.skip(i + 1),
        None => path,
    }
}

/// Lock files carry no intent and blow the budget.
pub open spec fn is_lock_name(name: Seq<char>) -> bool {
    ||| name == "Cargo.lock"@
    ||| name == "package-lock.json"@
    ||| name == "yarn.lock"@
    ||| name == "pnpm-lock.yaml"@
    ||| name == "go.sum"@
    ||| name == "Gemfile.lock"@
    ||| name == "poetry.lock"@
    ||| name == "composer.lock"@
    ||| name == "flake.lock"@
    ||| name == "Podfile.lock"@
    ||| name == "packages.lock.json"@
    ||| name == "bun.lockb"@
    ||| name == "uv.lock"@
    ||| ends_with(name, ".lock"@)
}

fn last_slash(p: &[char]) -> (r: Option<usize>)
    ensures
        match r {
            Some(i) => last_index_of(p@, '/') == Some(i as int) && i < p.len(),
            None => last_index_of(p@, '/') is None,
        },
{
    let mut k: usize = p.len();
    while k > 0
        invariant
            k <= p.len(),
            forall|j: int| k <= j < p.len() ==> p@[j] != '/',
        decreases k,
    {
        if p[k - 1] == '/' {
            let i = k - 1;
            proof {
                let w = choose|w: int|
                    0 <= w < p@.len() && p@[w] == '/' && forall|j: int| w < j < p@.len() ==> p@[j] != '/';
                assert(0 <= i < p@.len() && p@[i as int] == '/' && forall|j: int| i < j < p@.len() ==> p@[j]
                    != '/');
                if w < i {
                    assert(p@[i as int] != '/');
                } else if i < w {
                    assert(p@[w] != '/');
                }
            }
            return Some(i);
        }
        k = k - 1;
    }
    None
}

/// Lock files carry no intent and blow the budget.
pub fn is_lockfile(path: &str) -> (r: bool)
    ensures
        r == is_lock_name(file_name(path@)),
{
    let v = chars_of(path);
    let name_v = match last_slash(v.as_slice()) {
        Some(i) => {
            let t = slice_subrange(v.as_slice(), i + 1, v.len());
            assert(t@ == v@.skip(i + 1));
            vstd::slice::slice_to_vec(t)
        },
        None => v,
    };
    let name = string_from_chars(name_v.as_slice());
    let n = name.as_str();
    if str_is(n, "Cargo.lock") || str_is(n, "package-lock.json") || str_is(n, "yarn.lock") || str_is(
        n,
        "pnpm-lock.yaml",
    ) || str_is(n, "go.sum") || str_is(n, "Gemfile.lock") || str_is(n, "poetry.lock") || str_is(
        n,
        "composer.lock",
    ) || str_is(n, "flake.lock") || str_is(n, "Podfile.lock") || str_is(n, "packages.lock.json")
        || str_is(n, "bun.lockb") || str_is(n, "uv.lock") {
        return true;
    }
    let suffix: Vec<char> = vec!['.', 'l', 'o', 'c', 'k'];
    proof {
        reveal_strlit(".lock");
        assert(suffix@ =~= ".lock"@);
    }
    if name_v.len() < 5 {
        return false;
    }
    let tail = slice_subrange(name_v.as_slice(), name_v.len() - 5, name_v.len());
    assert(tail@ == name_v@.skip(name_v@.len() - 5));
    chars_eq(tail, suffix.as_slice())
}

/// The lines of a diff grouped by file: a group starts at each
/// `diff --git ` line (and at the first line).
pub open spec fn group_lines(ls: Seq<Seq<char>>) -> Seq<Seq<Seq<char>>>
    decreases ls.len(),
{
    if ls.len() == 0 {
        seq![]
    } else {
        let g = group_lines(ls.drop_last());
        let l = ls.last();
        if starts_with(l, "diff --git "@) || g.len() == 0 {
            g.push(seq![l])
        } else {
            g.update(g.len() - 1, g.last().push(l))
        }
    }
}

/// The path of a `diff --git a/PATH b/PATH` line, empty for other lines.
pub open spec fn header_path(h: Seq<char>) -> Seq<char> {
    if starts_with(h, "diff --git a/"@) {
        let r = h.skip(13);
        match find_pat(r, " b/"@) {
            Some(i) => r.take(i),
            None => r,
        }
    } else {
        seq![]
    }
}

/// The lines of one file from `k` on, while the output stays within `max`
/// bytes; the output and whether the budget ran out.
pub open spec fn lines_within(out: Seq<char>, lines: Seq<Seq<char>>, k: int, max: int) -> (Seq<char>, bool)
    decreases lines.len() - k,
{
    if k < 0 || k >= lines.len() {
        (out, false)
    } else if utf8_len(out) + utf8_len(lines[k]) + 1 > max {
        (out + "(... truncated)\n"@, true)
    } else {
        lines_within(out + lines[k] + "\n"@, lines, k + 1, max)
    }
}

/// One file of the diff added to the output.
pub open spec fn file_out(out: Seq<char>, spent: bool, lines: Seq<Seq<char>>, max: int) -> (Seq<char>, bool) {
    let header = lines[0];
    let path = header_path(header);
    if path.len() > 0 && is_lock_name(file_name(path)) {
        (out + header + "\n(lock file, content omitted)\n"@, spent)
    } else if spent {
        (out + header + "\n(content omitted)\n"@, spent)
    } else {
        lines_within(out, lines, 0, max)
    }
}

/// The first `n` files of the diff.
pub open spec fn files_out(groups: Seq<Seq<Seq<char>>>, n: int, max: int) -> (Seq<char>, bool)
    decreases n,
{
    if n <= 0 || n > groups.len() {
        (seq![], false)
    } else {
        let (o, s) = files_out(groups, n - 1, max);
        file_out(o, s, groups[n - 1], max)
    }
}

pub open spec fn truncate_spec(diff: Seq<char>, max: int) -> Seq<char> {
    let g = group_lines(lines_of(diff));
    files_out(g, g.len() as int, max).0
}

/// Each line followed by `\n`.
pub open spec fn each_line(ls: Seq<Seq<char>>) -> Seq<char>
    decreases ls.len(),
{
    if ls.len() == 0 {
        seq![]
    } else {
        each_line(ls.drop_last()) + ls.last() + seq!['\n']
    }
}

/// The groups' lines, one after the other.
pub open spec fn flatten_groups(g: Seq<Seq<Seq<char>>>) -> Seq<Seq<char>>
    decreases g.len(),
{
    if g.len() == 0 {
        seq![]
    } else {
        flatten_groups(g.drop_last()) + g.last()
    }
}

/// A `diff --git` line that names a lock file.
pub open spec fn names_lock_file(l: Seq<char>) -> bool {
    header_path(l).len() > 0 && is_lock_name(file_name(header_path(l)))
}

proof fn lemma_each_line_concat(a: Seq<Seq<char>>, b: Seq<Seq<char>>)
    ensures
        each_line(a + b) == each_line(a) + each_line(b),
    decreases b.len(),
{
    if b.len() == 0 {
        assert(a + b =~= a);
        assert(each_line(a) + each_line(b) =~= each_line(a));
    } else {
        assert((a + b).drop_last() =~= a + b.drop_last());
        assert((a + b).last() == b.last());
        lemma_each_line_concat(a, b.drop_last());
        assert(each_line(a + b) =~= each_line(a) + each_line(b));
    }
}

proof fn lemma_flatten_concat(a: Seq<Seq<Seq<char>>>, b: Seq<Seq<Seq<char>>>)
    ensures
        flatten_groups(a + b) == flatten_groups(a) + flatten_groups(b),
    decreases b.len(),
{
    if b.len() == 0 {
        assert(a + b =~= a);
        assert(flatten_groups(a) + flatten_groups(b) =~= flatten_groups(a));
    } else {
        assert((a + b).drop_last() =~= a + b.drop_last());
        assert((a + b).last() == b.last());
        lemma_flatten_concat(a, b.drop_last());
        assert(flatten_groups(a + b) =~= flatten_groups(a) + flatten_groups(b));
    }
}

proof fn lemma_flatten_groups_lines(ls: Seq<Seq<char>>)
    ensures
        flatten_groups(group_lines(ls)) == ls,
    decreases ls.len(),
{
    if ls.len() > 0 {
        let g = group_lines(ls.drop_last());
        let l = ls.last();
        lemma_flatten_groups_lines(ls.drop_last());
        if starts_with(l, "diff --git "@) || g.len() == 0 {
            let gg = g.push(seq![l]);
            assert(gg.drop_last() =~= g);
            assert(flatten_groups(gg) =~= ls);
        } else {
            let gg = g.update(g.len() - 1, g.last().push(l));
            assert(gg.drop_last() =~= g.drop_last());
            assert(gg.last() == g.last().push(l));
            assert(flatten_groups(g) == flatten_groups(g.drop_last()) + g.last());
            assert(flatten_groups(gg) == flatten_groups(g.drop_last()) + g.last().push(l));
            assert(ls =~= ls.drop_last().push(l));
            assert(flatten_groups(gg) =~= ls);
        }
    }
}

proof fn lemma_newline_len()
    ensures
        utf8_len(seq!['\n']) == 1,
{
    let nl = seq!['\n'];
    assert(nl.drop_first() =~= Seq::<char>::empty());
    assert(nl[0] as u32 == 10);
    assert(vstd::utf8::has_width_1_encoding(10u32));
    assert(vstd::utf8::encode_utf8(nl) == vstd::utf8::encode_scalar(10u32) + vstd::utf8::encode_utf8(nl.drop_first()));
}

proof fn lemma_lines_within_all(out: Seq<char>, lines: Seq<Seq<char>>, k: int, max: int)
    requires
        0 <= k <= lines.len(),
        utf8_len(out + each_line(lines.skip(k))) <= max,
    ensures
        lines_within(out, lines, k, max) == (out + each_line(lines.skip(k)), false),
    decreases lines.len() - k,
{
    if k == lines.len() {
        assert(lines.skip(k) =~= Seq::<Seq<char>>::empty());
        assert(out + each_line(lines.skip(k)) =~= out);
    } else {
        let rest = lines.skip(k + 1);
        let one = seq![lines[k]];
        assert(lines.skip(k) =~= one + rest);
        lemma_each_line_concat(one, rest);
        assert(one.drop_last() =~= Seq::<Seq<char>>::empty());
        assert(each_line(one.drop_last()) == Seq::<char>::empty());
        assert(one.last() == lines[k]);
        assert(each_line(one) =~= lines[k] + seq!['\n']);
        let out2 = out + lines[k] + seq!['\n'];
        assert(out + each_line(lines.skip(k)) =~= out2 + each_line(rest));
        lemma_encode_utf8_append(out2, each_line(rest));
        lemma_encode_utf8_append(out + lines[k], seq!['\n']);
        lemma_encode_utf8_append(out, lines[k]);
        lemma_newline_len();
        reveal_strlit("\n");
        assert("\n"@ =~= seq!['\n']);
        lemma_lines_within_all(out2, lines, k + 1, max);
    }
}

proof fn lemma_files_out_all(g: Seq<Seq<Seq<char>>>, n: int, max: int)
    requires
        0 <= n <= g.len(),
        forall|i: int| 0 <= i < g.len() ==> #[trigger] g[i].len() > 0,
        forall|i: int| 0 <= i < g.len() ==> !names_lock_file(#[trigger] g[i][0]),
        utf8_len(each_line(flatten_groups(g))) <= max,
    ensures
        files_out(g, n, max) == (each_line(flatten_groups(g.take(n))), false),
    decreases n,
{
    if n == 0 {
        assert(g.take(0) =~= Seq::<Seq<Seq<char>>>::empty());
    } else {
        lemma_files_out_all(g, n - 1, max);
        let o = each_line(flatten_groups(g.take(n - 1)));
        assert(g.take(n).drop_last() =~= g.take(n - 1));
        assert(g.take(n).last() == g[n - 1]);
        let lines = g[n - 1];
        assert(!names_lock_file(lines[0]));
        lemma_each_line_concat(flatten_groups(g.take(n - 1)), lines);
        assert(lines.skip(0) =~= lines);
        // The first n groups are a prefix of all of them.
        assert(g =~= g.take(n) + g.skip(n));
        lemma_flatten_concat(g.take(n), g.skip(n));
        lemma_each_line_concat(flatten_groups(g.take(n)), flatten_groups(g.skip(n)));
        lemma_encode_utf8_append(each_line(flatten_groups(g.take(n))), each_line(flatten_groups(g.skip(n))));
        lemma_lines_within_all(o, lines, 0, max);
    }
}

/// A diff that fits the budget and names no lock file comes back whole,
/// line by line.
pub proof fn lemma_small_diff_kept_whole(diff: Seq<char>, max: int)
    requires
        forall|i: int| 0 <= i < lines_of(diff).len() ==> !names_lock_file(#[trigger] lines_of(diff)[i]),
        utf8_len(each_line(lines_of(diff))) <= max,
    ensures
        truncate_spec(diff, max) == each_line(lines_of(diff)),
{
    let ls = lines_of(diff);
    let g = group_lines(ls);
    lemma_group_nonempty(ls);
    lemma_flatten_groups_lines(ls);
    assert forall|i: int| 0 <= i < g.len() implies !names_lock_file(#[trigger] g[i][0]) by {
        assert(g =~= g.take(i) + g.skip(i));
        lemma_flatten_concat(g.take(i), g.skip(i));
        assert(g.skip(i) =~= seq![g[i]] + g.skip(i + 1));
        lemma_flatten_concat(seq![g[i]], g.skip(i + 1));
        assert(seq![g[i]].drop_last() =~= Seq::<Seq<Seq<char>>>::empty());
        assert(flatten_groups(seq![g[i]].drop_last()) == Seq::<Seq<char>>::empty());
        assert(flatten_groups(seq![g[i]]) =~= g[i]);
        let j = flatten_groups(g.take(i)).len() as int;
        assert(ls[j] == g[i][0]);
    }
    lemma_files_out_all(g, g.len() as int, max);
    assert(g.take(g.len() as int) =~= g);
}

pub open spec fn group_views(g: Seq<Vec<Vec<char>>>) -> Seq<Seq<Seq<char>>> {
    g.map_values(|x: Vec<Vec<char>>| views(x@))
}

proof fn lemma_group_nonempty(ls: Seq<Seq<char>>)
    ensures
        forall|i: int| 0 <= i < group_lines(ls).len() ==> #[trigger] group_lines(ls)[i].len() > 0,
        ls.len() > 0 ==> group_lines(ls).len() > 0,
    decreases ls.len(),
{
    if ls.len() > 0 {
        let g = group_lines(ls.drop_last());
        lemma_group_nonempty(ls.drop_last());
        assert forall|i: int| 0 <= i < group_lines(ls).len() implies #[trigger] group_lines(ls)[i].len()
            > 0 by {
            if i < g.len() {
                assert(g[i].len() > 0);
            }
        }
    }
}

fn group_exec(ls: &Vec<Vec<char>>) -> (r: Vec<Vec<Vec<char>>>)
    ensures
        group_views(r@) == group_lines(views(ls@)),
{
    let ghost v = views(ls@);
    let mut groups: Vec<Vec<Vec<char>>> = Vec::new();
    let prefix: Vec<char> = vec!['d', 'i', 'f', 'f', ' ', '-', '-', 'g', 'i', 't', ' '];
    proof {
        reveal_strlit("diff --git ");
        assert(prefix@ =~= "diff --git "@);
    }
    let mut k: usize = 0;
    while k < ls.len()
        invariant
            k <= ls.len(),
            v == views(ls@),
            prefix@ == "diff --git "@,
            group_views(groups@) == group_lines(v.take(k as int)),
        decreases ls.len() - k,
    {
        let line = vstd::slice::slice_to_vec(ls[k].as_slice());
        let ghost lv = line@;
        let ghost before = groups@;
        assert(v.take(k + 1).drop_last() =~= v.take(k as int));
        assert(v.take(k + 1).last() == lv);
        if chars_start_with(line.as_slice(), prefix.as_slice()) || groups.len() == 0 {
            let mut g: Vec<Vec<char>> = Vec::new();
            g.push(line);
            assert(views(g@) =~= seq![lv]);
            groups.push(g);
            assert(group_views(groups@) =~= group_views(before).push(seq![lv]));
        } else {
            let last = groups.len() - 1;
            let mut g: Vec<Vec<char>> = Vec::new();
            groups.set_and_swap(last, &mut g);
            let ghost gv = g@;
            g.push(line);
            assert(views(g@) =~= views(gv).push(lv));
            groups.set_and_swap(last, &mut g);
            assert(group_views(groups@) =~= group_views(before).update(
                last as int,
                group_views(before)[last as int].push(lv),
            ));
        }
        k = k + 1;
    }
    assert(v.take(ls.len() as int) =~= v);
    groups
}

fn header_path_exec(h: &[char]) -> (r: Vec<char>)
    ensures
        r@ == header_path(h@),
{
    let prefix: Vec<char> = vec!['d', 'i', 'f', 'f', ' ', '-', '-', 'g', 'i', 't', ' ', 'a', '/'];
    let sep: Vec<char> = vec![' ', 'b', '/'];
    proof {
        reveal_strlit("diff --git a/");
        reveal_strlit(" b/");
        assert(prefix@ =~= "diff --git a/"@);
        assert(sep@ =~= " b/"@);
    }
    if !chars_start_with(h, prefix.as_slice()) {
        return Vec::new();
    }
    let r = slice_subrange(h, 13, h.len());
    assert(r@ == h@.skip(13));
    match crate::seqs::find_chars(r, sep.as_slice()) {
        Some(i) => {
            proof {
                crate::seqs::lemma_find_pat_facts(r@, sep@);
            }
            let t = slice_subrange(r, 0, i);
            assert(t@ == r@.take(i as int));
            vstd::slice::slice_to_vec(t)
        },
        None => vstd::slice::slice_to_vec(r),
    }
}

/// Appends `piece` to the output and keeps its UTF-8 length, capped.
fn push_counted(out: &mut Vec<char>, ob: &mut u64, piece: &[char])
    requires
        *old(ob) == sat64(utf8_len(old(out)@)),
    ensures
        final(out)@ == old(out)@ + piece@,
        *final(ob) == sat64(utf8_len(final(out)@)),
{
    let pb = utf8_len_sat(piece);
    proof {
        lemma_encode_utf8_append(out@, piece@);
    }
    let mut p = vstd::slice::slice_to_vec(piece);
    out.append(&mut p);
    let t: u128 = (*ob as u128) + (pb as u128);
    *ob = if t > u64::MAX as u128 {
        u64::MAX
    } else {
        t as u64
    };
}

fn lit(s: &str) -> (r: Vec<char>)
    ensures
        r@ == s@,
{
    chars_of(s)
}

/// Cut a unified diff down to about `max` bytes. Lock files are reduced to
/// their header; once the budget is spent the remaining files keep only
/// their `diff --git` line, so the model still sees what was touched.
pub fn truncate_diff(diff: &str, max: usize) -> (r: String)
    ensures
        r@ == truncate_spec(diff@, max as int),
{
    let chars = chars_of(diff);
    let ls = lines_exec(chars.as_slice());
    let groups = group_exec(&ls);
    let ghost g = group_views(groups@);
    proof {
        lemma_group_nonempty(views(ls@));
    }
    let mut out: Vec<char> = Vec::new();
    let mut ob: u64 = 0;
    let mut spent = false;
    let mut gi: usize = 0;
    let lock_note = lit("\n(lock file, content omitted)\n");
    let omitted = lit("\n(content omitted)\n");
    let truncated = lit("(... truncated)\n");
    let newline: Vec<char> = vec!['\n'];
    proof {
        reveal_strlit("\n");
        assert(newline@ =~= "\n"@);
    }
    while gi < groups.len()
        invariant
            gi <= groups.len(),
            g == group_views(groups@),
            g == group_lines(lines_of(diff@)),
            forall|i: int| 0 <= i < g.len() ==> #[trigger] g[i].len() > 0,
            (out@, spent) == files_out(g, gi as int, max as int),
            ob == sat64(utf8_len(out@)),
            lock_note@ == "\n(lock file, content omitted)\n"@,
            omitted@ == "\n(content omitted)\n"@,
            truncated@ == "(... truncated)\n"@,
            newline@ == "\n"@,
        decreases groups.len() - gi,
    {
        let lines = &groups[gi];
        let ghost lv = g[gi as int];
        assert(views(lines@) == lv);
        assert(lv.len() > 0);
        let header = lines[0].as_slice();
        let path = header_path_exec(header);
        let is_lock = path.len() > 0 && {
            let ps = string_from_chars(path.as_slice());
            is_lockfile(ps.as_str())
        };
        if is_lock {
            push_counted(&mut out, &mut ob, header);
            push_counted(&mut out, &mut ob, lock_note.as_slice());
        } else if spent {
            push_counted(&mut out, &mut ob, header);
            push_counted(&mut out, &mut ob, omitted.as_slice());
        } else {
            let mut k: usize = 0;
            let ghost start = out@;
            while k < lines.len()
                invariant_except_break
                    !spent,
                    lines_within(start, lv, 0, max as int) == lines_within(out@, lv, k as int, max as int),
                invariant
                    k <= lines.len(),
                    lv == views(lines@),
                    ob == sat64(utf8_len(out@)),
                    truncated@ == "(... truncated)\n"@,
                    newline@ == "\n"@,
                ensures
                    (out@, spent) == lines_within(start, lv, 0, max as int),
                    ob == sat64(utf8_len(out@)),
                decreases lines.len() - k,
            {
                let line = lines[k].as_slice();
                let lb = utf8_len_sat(line);
                if (ob as u128) + (lb as u128) + 1 > (max as u128) {
                    push_counted(&mut out, &mut ob, truncated.as_slice());
                    spent = true;
                    break;
                }
                push_counted(&mut out, &mut ob, line);
                push_counted(&mut out, &mut ob, newline.as_slice());
                k = k + 1;
            }
        }
        gi = gi + 1;
    }
    string_from_chars(out.as_slice())
}

// ---------------------------------------------------------------------------
// Cleaning what the tool printed.

/// A code fence line.
pub open spec fn is_fence(l: Seq<char>) -> bool {
    starts_with(trim_start(l), "```"@)
}

/// The lines without trailing whitespace, code fences dropped.
pub open spec fn kept_lines(ls: Seq<Seq<char>>) -> Seq<Seq<char>>
    decreases ls.len(),
{
    if ls.len() == 0 {
        seq![]
    } else {
        let l = trim_end(ls.last());
        kept_lines(ls.drop_last()) + if is_fence(l) {
            Seq::<Seq<char>>::empty()
        } else {
            seq![l]
        }
    }
}

/// Code fences are dropped from the tool's answer: a line whose text
/// starts with three backticks, whatever follows them (a language tag),
/// is left out, and any other line is kept without its trailing whitespace,
/// in order. So no line the message is made from opens or closes a fence.
pub proof fn lemma_fences_dropped(ls: Seq<Seq<char>>, l: Seq<char>)
    ensures
        forall|i: int|
            0 <= i < kept_lines(ls).len() ==> !starts_with(trim_start(#[trigger] kept_lines(ls)[i]), "```"@),
        starts_with(trim_start(trim_end(l)), "```"@) ==> kept_lines(ls.push(l)) == kept_lines(ls),
        !starts_with(trim_start(trim_end(l)), "```"@) ==> kept_lines(ls.push(l)) == kept_lines(ls).push(
            trim_end(l),
        ),
    decreases ls.len(),
{
    assert(ls.push(l).drop_last() =~= ls);
    assert(kept_lines(ls).push(trim_end(l)) =~= kept_lines(ls) + seq![trim_end(l)]);
    assert(kept_lines(ls) + Seq::<Seq<char>>::empty() =~= kept_lines(ls));
    if ls.len() > 0 {
        lemma_fences_dropped(ls.drop_last(), ls.last());
        assert(ls.drop_last().push(ls.last()) =~= ls);
        let k0 = kept_lines(ls.drop_last());
        let t = trim_end(ls.last());
        assert forall|i: int| 0 <= i < kept_lines(ls).len() implies !starts_with(
            trim_start(#[trigger] kept_lines(ls)[i]),
            "```"@,
        ) by {
            if i < k0.len() {
                assert(kept_lines(ls)[i] == k0[i]);
            } else {
                assert(kept_lines(ls)[i] == t);
            }
        }
    }
}

pub open spec fn is_blank(l: Seq<char>) -> bool {
    trim(l).len() == 0
}

pub open spec fn drop_leading_blank(ls: Seq<Seq<char>>) -> Seq<Seq<char>>
    decreases ls.len(),
{
    if ls.len() > 0 && is_blank(ls[0]) {
        drop_leading_blank(ls.drop_first())
    } else {
        ls
    }
}

pub open spec fn drop_trailing_blank(ls: Seq<Seq<char>>) -> Seq<Seq<char>>
    decreases ls.len(),
{
    if ls.len() > 0 && is_blank(ls.last()) {
        drop_trailing_blank(ls.drop_last())
    } else {
        ls
    }
}

/// A first line that only introduces the message.
pub open spec fn is_preamble(first: Seq<char>) -> bool {
    let low = to_ascii_lower(trim(first));
    starts_with(low, "commit message:"@) || starts_with(low, "here is"@) || starts_with(low, "here's"@)
}

/// What follows the first `:` of a line, trimmed.
pub open spec fn after_colon(l: Seq<char>) -> Seq<char> {
    match crate::seqs::first_index_of(l, ':') {
        Some(i) => trim(l.skip(i + 1)),
        None => seq![],
    }
}

pub open spec fn strip_preamble(ls: Seq<Seq<char>>) -> Seq<Seq<char>> {
    if ls.len() > 0 && is_preamble(ls[0]) {
        let rest = after_colon(ls[0]);
        if rest.len() == 0 {
            drop_leading_blank(ls.drop_first())
        } else {
            ls.update(0, rest)
        }
    } else {
        ls
    }
}

pub open spec fn quoted(t: Seq<char>, q: char) -> bool {
    t.len() > 1 && t[0] == q && t.last() == q
}

/// Without wrapping quotes (double, single or backtick).
pub open spec fn unquote(t: Seq<char>) -> Seq<char> {
    if quoted(t, '"') || quoted(t, '\'') || quoted(t, '`') {
        trim(t.subrange(1, t.len() - 1))
    } else {
        t
    }
}

/// A subject directly followed by body text gets a blank line after it.
pub open spec fn blank_after_subject(t: Seq<char>) -> Seq<char> {
    match crate::seqs::first_index_of(t, '\n') {
        Some(i) => {
            let rest = t.skip(i + 1);
            if !(rest.len() > 0 && rest[0] == '\n') && trim(rest).len() > 0 {
                t.take(i) + seq!['\n', '\n'] + rest
            } else {
                t
            }
        },
        None => t,
    }
}

/// Runs of more than two newlines shortened to two.
pub open spec fn cap_newlines(s: Seq<char>) -> Seq<char>
    decreases s.len(),
{
    if s.len() == 0 {
        seq![]
    } else {
        let o = cap_newlines(s.drop_last());
        if s.last() == '\n' && ends_with(o, seq!['\n', '\n']) {
            o
        } else {
            o.push(s.last())
        }
    }
}

pub open spec fn clean_spec(raw: Seq<char>) -> Seq<char> {
    let ls = strip_preamble(drop_trailing_blank(drop_leading_blank(kept_lines(lines_of(raw)))));
    cap_newlines(blank_after_subject(unquote(join_lines(ls))))
}

fn is_blank_exec(l: &[char]) -> (r: bool)
    ensures
        r == is_blank(l@),
{
    let (a, b) = trim_range(l);
    a == b
}

fn kept_exec(ls: &Vec<Vec<char>>) -> (r: Vec<Vec<char>>)
    ensures
        views(r@) == kept_lines(views(ls@)),
{
    let ghost v = views(ls@);
    let fence: Vec<char> = vec!['`', '`', '`'];
    proof {
        reveal_strlit("```");
        assert(fence@ =~= "```"@);
    }
    let mut out: Vec<Vec<char>> = Vec::new();
    let mut k: usize = 0;
    while k < ls.len()
        invariant
            k <= ls.len(),
            v == views(ls@),
            fence@ == "```"@,
            views(out@) == kept_lines(v.take(k as int)),
        decreases ls.len() - k,
    {
        let line = ls[k].as_slice();
        let j = trim_end_index(line);
        let t = vstd::slice::slice_to_vec(slice_subrange(line, 0, j));
        let i = trim_start_index(t.as_slice());
        let st = slice_subrange(t.as_slice(), i, t.len());
        let ghost before = out@;
        assert(v.take(k + 1).drop_last() =~= v.take(k as int));
        if !chars_start_with(st, fence.as_slice()) {
            out.push(t);
            assert(views(out@) =~= kept_lines(v.take(k + 1)));
        } else {
            assert(views(out@) =~= kept_lines(v.take(k + 1)));
        }
        k = k + 1;
    }
    assert(v.take(ls.len() as int) =~= v);
    out
}

/// The lines `a..b` of `ls`, copied.
fn copy_range(ls: &Vec<Vec<char>>, a: usize, b: usize) -> (r: Vec<Vec<char>>)
    requires
        a <= b <= ls.len(),
    ensures
        views(r@) == views(ls@).subrange(a as int, b as int),
{
    let mut out: Vec<Vec<char>> = Vec::new();
    let mut k = a;
    while k < b
        invariant
            a <= k <= b <= ls.len(),
            views(out@) == views(ls@).subrange(a as int, k as int),
        decreases b - k,
    {
        let line = vstd::slice::slice_to_vec(ls[k].as_slice());
        let ghost before = out@;
        let ghost lv = line@;
        assert(lv == views(ls@)[k as int]);
        out.push(line);
        assert(views(out@) =~= views(before).push(lv));
        assert(views(out@) =~= views(ls@).subrange(a as int, k + 1));
        k = k + 1;
    }
    out
}

fn drop_leading_exec(ls: &Vec<Vec<char>>) -> (r: Vec<Vec<char>>)
    ensures
        views(r@) == drop_leading_blank(views(ls@)),
{
    let ghost v = views(ls@);
    let mut k: usize = 0;
    assert(v.skip(0) =~= v);
    while k < ls.len() && is_blank_exec(ls[k].as_slice())
        invariant
            k <= ls.len(),
            v == views(ls@),
            drop_leading_blank(v) == drop_leading_blank(v.skip(k as int)),
        decreases ls.len() - k,
    {
        assert(v.skip(k as int).drop_first() =~= v.skip(k + 1));
        k = k + 1;
    }
    let r = copy_range(ls, k, ls.len());
    assert(v.subrange(k as int, ls.len() as int) =~= v.skip(k as int));
    r
}

fn drop_trailing_exec(ls: &Vec<Vec<char>>) -> (r: Vec<Vec<char>>)
    ensures
        views(r@) == drop_trailing_blank(views(ls@)),
{
    let ghost v = views(ls@);
    let mut k: usize = ls.len();
    assert(v.take(ls.len() as int) =~= v);
    while k > 0 && is_blank_exec(ls[k - 1].as_slice())
        invariant
            k <= ls.len(),
            v == views(ls@),
            drop_trailing_blank(v) == drop_trailing_blank(v.take(k as int)),
        decreases k,
    {
        assert(v.take(k as int).drop_last() =~= v.take(k - 1));
        k = k - 1;
    }
    let r = copy_range(ls, 0, k);
    assert(v.subrange(0, k as int) =~= v.take(k as int));
    r
}

fn is_preamble_exec(first: &[char]) -> (r: bool)
    ensures
        r == is_preamble(first@),
{
    let (a, b) = trim_range(first);
    let low = to_ascii_lower_exec(slice_subrange(first, a, b));
    let p1 = lit("commit message:");
    let p2 = lit("here is");
    let p3 = lit("here's");
    chars_start_with(low.as_slice(), p1.as_slice()) || chars_start_with(low.as_slice(), p2.as_slice())
        || chars_start_with(low.as_slice(), p3.as_slice())
}

fn after_colon_exec(l: &[char]) -> (r: Vec<char>)
    ensures
        r@ == after_colon(l@),
{
    match crate::seqs::find_char(l, ':') {
        Some(i) => {
            proof {
                crate::seqs::lemma_first_index_facts(l@, ':');
                assert(crate::seqs::is_first_index(l@, ':', i as int));
            }
            let n = l.len();
            let rest = slice_subrange(l, i + 1, n);
            assert(rest@ == l@.skip(i + 1));
            let (a, b) = trim_range(rest);
            vstd::slice::slice_to_vec(slice_subrange(rest, a, b))
        },
        None => Vec::new(),
    }
}

fn strip_preamble_exec(ls: Vec<Vec<char>>) -> (r: Vec<Vec<char>>)
    ensures
        views(r@) == strip_preamble(views(ls@)),
{
    if ls.len() == 0 || !is_preamble_exec(ls[0].as_slice()) {
        return ls;
    }
    let rest = after_colon_exec(ls[0].as_slice());
    if rest.len() == 0 {
        let tail = copy_range(&ls, 1, ls.len());
        assert(views(ls@).subrange(1, ls@.len() as int) =~= views(ls@).drop_first());
        drop_leading_exec(&tail)
    } else {
        let mut out = ls;
        let ghost before = views(out@);
        out.set(0, rest);
        assert(views(out@) =~= before.update(0, rest@));
        out
    }
}

fn unquote_exec(t: Vec<char>) -> (r: Vec<char>)
    ensures
        r@ == unquote(t@),
{
    let n = t.len();
    if n > 1 && ((t[0] == '"' && t[n - 1] == '"') || (t[0] == '\'' && t[n - 1] == '\'') || (t[0] == '`'
        && t[n - 1] == '`')) {
        let inner = slice_subrange(t.as_slice(), 1, n - 1);
        let (a, b) = trim_range(inner);
        vstd::slice::slice_to_vec(slice_subrange(inner, a, b))
    } else {
        t
    }
}

fn blank_after_subject_exec(t: Vec<char>) -> (r: Vec<char>)
    ensures
        r@ == blank_after_subject(t@),
{
    match crate::seqs::find_char(t.as_slice(), '\n') {
        Some(i) => {
            proof {
                crate::seqs::lemma_first_index_facts(t@, '\n');
                assert(crate::seqs::is_first_index(t@, '\n', i as int));
            }
            let n = t.len();
            let rest = slice_subrange(t.as_slice(), i + 1, n);
            assert(rest@ == t@.skip(i + 1));
            let (a, b) = trim_range(rest);
            if !(rest.len() > 0 && rest[0] == '\n') && a < b {
                let mut out = vstd::slice::slice_to_vec(slice_subrange(t.as_slice(), 0, i));
                out.push('\n');
                out.push('\n');
                let mut tail = vstd::slice::slice_to_vec(rest);
                out.append(&mut tail);
                assert(out@ =~= t@.take(i as int) + seq!['\n', '\n'] + rest@);
                out
            } else {
                t
            }
        },
        None => t,
    }
}

fn cap_newlines_exec(s: &[char]) -> (r: Vec<char>)
    ensures
        r@ == cap_newlines(s@),
{
    let mut out: Vec<char> = Vec::new();
    let mut i: usize = 0;
    while i < s.len()
        invariant
            i <= s.len(),
            out@ == cap_newlines(s@.take(i as int)),
        decreases s.len() - i,
    {
        let c = s[i];
        let n = out.len();
        let two = n >= 2 && out[n - 1] == '\n' && out[n - 2] == '\n';
        proof {
            assert(s@.take(i + 1).drop_last() =~= s@.take(i as int));
            if n >= 2 {
                assert(two == (out@.skip(n - 2) =~= seq!['\n', '\n']));
            }
        }
        if !(c == '\n' && two) {
            out.push(c);
        }
        i = i + 1;
    }
    assert(s@.take(s.len() as int) =~= s@);
    out
}

/// Turn whatever the tool printed into a message: no fences, no "Commit
/// message:" preamble, no wrapping quotes, one blank line after the subject.
pub fn clean_output(raw: &str) -> (r: String)
    ensures
        r@ == clean_spec(raw@),
{
    let chars = chars_of(raw);
    let ls = lines_exec(chars.as_slice());
    let kept = kept_exec(&ls);
    let lead = drop_leading_exec(&kept);
    let trail = drop_trailing_exec(&lead);
    let lines = strip_preamble_exec(trail);
    let text = join_lines_exec(&lines);
    let text = unquote_exec(text);
    let text = blank_after_subject_exec(text);
    let text = cap_newlines_exec(text.as_slice());
    string_from_chars(text.as_slice())
}


// ---------------------------------------------------------------------------
// The tool's answer.

/// The last line that is not blank, trimmed; empty when there is none.
pub open spec fn last_nonblank(ls: Seq<Seq<char>>) -> Seq<char>
    decreases ls.len(),
{
    if ls.len() == 0 {
        Seq::empty()
    } else if trim(ls.last()).len() > 0 {
        trim(ls.last())
    } else {
        last_nonblank(ls.drop_last())
    }
}

/// What [`first_word`] gives.
pub open spec fn first_word_spec(c: Seq<char>) -> Seq<char> {
    if skip_white(c, 0) < c.len() {
        first_word_of(c)
    } else {
        c
    }
}

/// What a finished run of the tool comes to: the cleaned stdout when the
/// tool succeeded and printed something; else an error naming the tool and
/// giving the last stderr line, or the exit status, or that it printed
/// nothing.
pub open spec fn answer_spec(
    command: Seq<char>,
    success: bool,
    status: Seq<char>,
    out: Seq<u8>,
    err: Seq<u8>,
) -> Result<Seq<char>, Seq<char>> {
    let message = clean_spec(utf8_lossy(out));
    if success && message.len() > 0 {
        Ok(message)
    } else {
        let last = last_nonblank(lines_of(utf8_lossy(err)));
        let w = first_word_spec(command);
        Err(
            if last.len() > 0 {
                w + ": "@ + last
            } else if !success {
                w + " failed ("@ + status + ")"@
            } else {
                w + " printed nothing"@
            },
        )
    }
}

fn last_nonblank_exec(ls: &Vec<Vec<char>>) -> (r: Vec<char>)
    ensures
        r@ == last_nonblank(views(ls@)),
{
    let mut k: usize = ls.len();
    assert(views(ls@).take(k as int) =~= views(ls@));
    while k > 0
        invariant
            k <= ls.len(),
            last_nonblank(views(ls@)) == last_nonblank(views(ls@).take(k as int)),
        decreases k,
    {
        let (a, b) = trim_range(ls[k - 1].as_slice());
        assert(views(ls@).take(k as int).last() == ls@[k - 1]@);
        if a < b {
            return vstd::slice::slice_to_vec(slice_subrange(ls[k - 1].as_slice(), a, b));
        }
        assert(views(ls@).take(k as int).drop_last() =~= views(ls@).take(k - 1));
        k = k - 1;
    }
    Vec::new()
}

/// The answer of a tool run that finished: `success` and `status` describe
/// how it exited, `out` and `err` are what it printed.
pub fn answer_of(command: &str, success: bool, status: &str, out: &[u8], err: &[u8]) -> (r: Result<String, String>)
    ensures
        match (r, answer_spec(command@, success, status@, out@, err@)) {
            (Ok(a), Ok(b)) => a@ == b,
            (Err(a), Err(b)) => a@ == b,
            _ => false,
        },
{
    let text = lossy_string(out);
    let message = clean_output(text.as_str());
    if success && !message.as_str().is_empty() {
        return Ok(message);
    }
    let e = lossy_string(err);
    let ev = chars_of(e.as_str());
    let ls = lines_exec(ev.as_slice());
    let last = last_nonblank_exec(&ls);
    let mut msg = first_word(command);
    if last.len() > 0 {
        push_str(&mut msg, ": ");
        let l = string_from_chars(last.as_slice());
        push_str(&mut msg, l.as_str());
    } else if !success {
        push_str(&mut msg, " failed (");
        push_str(&mut msg, status);
        push_str(&mut msg, ")");
    } else {
        push_str(&mut msg, " printed nothing");
    }
    Err(msg)
}

/// The error when the tool gave no answer within `secs` seconds.
pub fn timeout_message(command: &str, secs: u64) -> (r: String)
    ensures
        r@ == first_word_spec(command@) + " gave no answer within "@ + ascii_chars(decimal(secs as nat)) + " s"@,
{
    let mut msg = first_word(command);
    push_str(&mut msg, " gave no answer within ");
    push_decimal_str(&mut msg, secs);
    push_str(&mut msg, " s");
    msg
}

} // verus!
