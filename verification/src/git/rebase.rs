//! Non-interactive rewriting of a `git rebase -i` todo list. gitgui runs
//! `git rebase -i` with itself as `GIT_SEQUENCE_EDITOR`; git hands the todo
//! file to `gitgui --sequence-editor <file>`, which applies one action to one
//! commit and exits. `GIT_EDITOR` is pointed at `gitgui --commit-editor
//! <file>`, which writes a prepared message (reword) or leaves git's default
//! (squash) in place.
use vstd::pervasive::VecAdditionalExecFns;
use vstd::prelude::*;
use vstd::slice::slice_subrange;

use crate::git::repo::{join_front, lemma_join_front_snoc, lemma_join_split, lemma_split_join, lemma_split_pieces_no_sep};
use crate::seqs::{lemma_first_index_facts, first_index_of, split_seq, starts_with};
use crate::text::strip_cr;
use crate::text::{
    chars_eq, chars_of, chars_start_with, join_lines, join_lines_exec, lines_exec, lines_of, lowercase, push_char, push_str,
    skip_white, skip_white_exec, skip_word, skip_word_exec, str_is, string_from_chars, to_lowercase,
    trim_end, trim_end_index, views,
};

verus! {

#[derive(Debug, Clone, Copy, PartialEq, Eq, Structural)]
pub enum TodoAction {
    Drop,
    Squash,
    Fixup,
    Reword,
    Edit,
    /// Swap with the next newer commit.
    MoveUp,
    /// Swap with the next older commit.
    MoveDown,
    /// Leave the list as git wrote it (autosquash).
    Keep,
}

/// The environment variables through which the worker tells the editor
/// subprocess what to do: the todo action, the commit, the new message.
pub const ENV_ACTION: &'static str = "GITGUI_TODO_ACTION";

pub const ENV_OID: &'static str = "GITGUI_TODO_OID";

pub const ENV_MESSAGE: &'static str = "GITGUI_COMMIT_MESSAGE";

/// The name of an action, as the command line and the environment spell it.
pub open spec fn action_name(a: TodoAction) -> Seq<char> {
    match a {
        TodoAction::Drop => "drop"@,
        TodoAction::Squash => "squash"@,
        TodoAction::Fixup => "fixup"@,
        TodoAction::Reword => "reword"@,
        TodoAction::Edit => "edit"@,
        TodoAction::MoveUp => "move-up"@,
        TodoAction::MoveDown => "move-down"@,
        TodoAction::Keep => "keep"@,
    }
}

/// The action with the given name.
pub open spec fn action_named(s: Seq<char>) -> Option<TodoAction> {
    if s == "drop"@ {
        Some(TodoAction::Drop)
    } else if s == "squash"@ {
        Some(TodoAction::Squash)
    } else if s == "fixup"@ {
        Some(TodoAction::Fixup)
    } else if s == "reword"@ {
        Some(TodoAction::Reword)
    } else if s == "edit"@ {
        Some(TodoAction::Edit)
    } else if s == "move-up"@ {
        Some(TodoAction::MoveUp)
    } else if s == "move-down"@ {
        Some(TodoAction::MoveDown)
    } else if s == "keep"@ {
        Some(TodoAction::Keep)
    } else {
        None
    }
}

impl TodoAction {
    pub fn as_str(self) -> (s: &'static str)
        ensures
            s@ == action_name(self),
    {
        match self {
            TodoAction::Drop => "drop",
            TodoAction::Squash => "squash",
            TodoAction::Fixup => "fixup",
            TodoAction::Reword => "reword",
            TodoAction::Edit => "edit",
            TodoAction::MoveUp => "move-up",
            TodoAction::MoveDown => "move-down",
            TodoAction::Keep => "keep",
        }
    }

    pub fn parse(s: &str) -> (r: Option<Self>)
        ensures
            r == action_named(s@),
    {
        if str_is(s, "drop") {
            Some(TodoAction::Drop)
        } else if str_is(s, "squash") {
            Some(TodoAction::Squash)
        } else if str_is(s, "fixup") {
            Some(TodoAction::Fixup)
        } else if str_is(s, "reword") {
            Some(TodoAction::Reword)
        } else if str_is(s, "edit") {
            Some(TodoAction::Edit)
        } else if str_is(s, "move-up") {
            Some(TodoAction::MoveUp)
        } else if str_is(s, "move-down") {
            Some(TodoAction::MoveDown)
        } else if str_is(s, "keep") {
            Some(TodoAction::Keep)
        } else {
            None
        }
    }
}

/// Every action parses back from its name.
pub proof fn lemma_action_name_roundtrip(a: TodoAction)
    ensures
        action_named(action_name(a)) == Some(a),
{
    reveal_strlit("drop");
    reveal_strlit("squash");
    reveal_strlit("fixup");
    reveal_strlit("reword");
    reveal_strlit("edit");
    reveal_strlit("move-up");
    reveal_strlit("move-down");
    reveal_strlit("keep");
    assert("drop"@[0] == 'd');
    assert("squash"@[0] == 's');
    assert("fixup"@[0] == 'f');
    assert("reword"@[0] == 'r');
    assert("edit"@[0] == 'e');
    assert("move-up"@[5] == 'u');
    assert("move-down"@[5] == 'd');
    assert("keep"@[0] == 'k');
}

// ---------------------------------------------------------------------------
// Quoting for `sh -c`.

/// The quoted body: every `'` becomes `'\''`.
pub open spec fn quote_body(s: Seq<char>) -> Seq<char>
    decreases s.len(),
{
    if s.len() == 0 {
        seq![]
    } else {
        quote_body(s.drop_last()) + if s.last() == '\'' {
            seq!['\'', '\\', '\'', '\'']
        } else {
            seq![s.last()]
        }
    }
}

/// Quote a path for `sh -c`, which is how git invokes editors.
pub fn shell_quote(s: &str) -> (r: String)
    ensures
        r@ == seq!['\''] + quote_body(s@) + seq!['\''],
{
    let v = chars_of(s);
    let mut out = String::new();
    push_char(&mut out, '\'');
    let mut i: usize = 0;
    while i < v.len()
        invariant
            i <= v.len(),
            out@ == seq!['\''] + quote_body(v@.take(i as int)),
        decreases v.len() - i,
    {
        let c = v[i];
        assert(v@.take(i + 1).drop_last() =~= v@.take(i as int));
        if c == '\'' {
            push_char(&mut out, '\'');
            push_char(&mut out, '\\');
            push_char(&mut out, '\'');
            push_char(&mut out, '\'');
        } else {
            push_char(&mut out, c);
        }
        i = i + 1;
        assert(out@ =~= seq!['\''] + quote_body(v@.take(i as int)));
    }
    assert(v@.take(v.len() as int) =~= v@);
    push_char(&mut out, '\'');
    out
}

// ---------------------------------------------------------------------------
// Words of todo lines.

/// Where the first two words of a line start and end.
pub open spec fn word_bounds(l: Seq<char>) -> (int, int, int, int) {
    let a = skip_white(l, 0);
    let b = skip_word(l, a);
    let c = skip_white(l, b);
    let d = skip_word(l, c);
    (a, b, c, d)
}

/// A `pick` (or `p`) line that names a commit.
pub open spec fn is_pick(l: Seq<char>) -> bool {
    let (a, b, c, d) = word_bounds(l);
    (l.subrange(a, b) == "pick"@ || l.subrange(a, b) == "p"@) && c < l.len()
}

/// The second word of a line: the commit of a pick line.
pub open spec fn line_sha(l: Seq<char>) -> Seq<char> {
    let (a, b, c, d) = word_bounds(l);
    l.subrange(c, d)
}

/// An abbreviated commit id matches the full one, ignoring case.
pub open spec fn sha_matches(sha: Seq<char>, oid: Seq<char>) -> bool {
    let a = lowercase(sha);
    let b = lowercase(oid);
    a.len() > 0 && (starts_with(b, a) || starts_with(a, b))
}

/// The pick line of the commit `oid`.
pub open spec fn is_target(l: Seq<char>, oid: Seq<char>) -> bool {
    is_pick(l) && sha_matches(line_sha(l), oid)
}

/// The first line at or after `k` that picks `oid`.
pub open spec fn find_target(ls: Seq<Seq<char>>, oid: Seq<char>, k: int) -> Option<int>
    decreases ls.len() - k,
{
    if k < 0 || k >= ls.len() {
        None
    } else if is_target(ls[k], oid) {
        Some(k)
    } else {
        find_target(ls, oid, k + 1)
    }
}

/// The first pick line at or after `k`.
pub open spec fn next_pick(ls: Seq<Seq<char>>, k: int) -> Option<int>
    decreases ls.len() - k,
{
    if k < 0 || k >= ls.len() {
        None
    } else if is_pick(ls[k]) {
        Some(k)
    } else {
        next_pick(ls, k + 1)
    }
}

/// The last pick line before `k`.
pub open spec fn prev_pick(ls: Seq<Seq<char>>, k: int) -> Option<int>
    decreases k,
{
    if k <= 0 || k > ls.len() {
        None
    } else if is_pick(ls[k - 1]) {
        Some(k - 1)
    } else {
        prev_pick(ls, k - 1)
    }
}

/// The line with its verb (everything up to the first whitespace)
/// replaced by `verb`.
pub open spec fn replace_verb(l: Seq<char>, verb: Seq<char>) -> Seq<char> {
    let w = skip_word(l, 0);
    verb + seq![' '] + if w < l.len() {
        l.skip(w + 1)
    } else {
        seq![]
    }
}

pub open spec fn swap_lines(ls: Seq<Seq<char>>, a: int, b: int) -> Seq<Seq<char>> {
    ls.update(a, ls[b]).update(b, ls[a])
}

pub open spec fn not_in_todo(oid: Seq<char>) -> Seq<char> {
    "commit "@ + oid + " is not in the rebase todo"@
}

/// Apply `action` to the lines of a todo list (oldest commit first).
pub open spec fn rewrite_lines(ls: Seq<Seq<char>>, oid: Seq<char>, action: TodoAction) -> Result<
    Seq<Seq<char>>,
    Seq<char>,
> {
    match find_target(ls, oid, 0) {
        None => Err(not_in_todo(oid)),
        Some(idx) => match action {
            TodoAction::Drop => Ok(ls.update(idx, replace_verb(ls[idx], "drop"@))),
            TodoAction::Squash => if prev_pick(ls, idx) is Some {
                Ok(ls.update(idx, replace_verb(ls[idx], "squash"@)))
            } else {
                Err("nothing below to squash into"@)
            },
            TodoAction::Fixup => if prev_pick(ls, idx) is Some {
                Ok(ls.update(idx, replace_verb(ls[idx], "fixup"@)))
            } else {
                Err("nothing below to fix up into"@)
            },
            TodoAction::Reword => Ok(ls.update(idx, replace_verb(ls[idx], "reword"@))),
            TodoAction::Edit => Ok(ls.update(idx, replace_verb(ls[idx], "edit"@))),
            TodoAction::MoveUp => match next_pick(ls, idx + 1) {
                Some(n) => Ok(swap_lines(ls, idx, n)),
                None => Err("already the newest commit"@),
            },
            TodoAction::MoveDown => match prev_pick(ls, idx) {
                Some(p) => Ok(swap_lines(ls, idx, p)),
                None => Err("already the oldest commit"@),
            },
            TodoAction::Keep => Ok(ls),
        },
    }
}

/// The todo text after applying `action` to the line of `oid`.
pub open spec fn rewrite_todo_spec(todo: Seq<char>, oid: Seq<char>, action: TodoAction) -> Result<
    Seq<char>,
    Seq<char>,
> {
    if action == TodoAction::Keep {
        Ok(todo)
    } else {
        match rewrite_lines(lines_of(todo), oid, action) {
            Ok(ls) => Ok(join_lines(ls) + seq!['\n']),
            Err(e) => Err(e),
        }
    }
}

/// The first two words of a line, by their bounds.
fn word_bounds_exec(l: &[char]) -> (r: (usize, usize, usize, usize))
    ensures
        r.0 as int == word_bounds(l@).0,
        r.1 as int == word_bounds(l@).1,
        r.2 as int == word_bounds(l@).2,
        r.3 as int == word_bounds(l@).3,
        r.0 <= r.1 <= r.2 <= r.3 <= l.len(),
{
    let a = skip_white_exec(l, 0);
    let b = skip_word_exec(l, a);
    let c = skip_white_exec(l, b);
    let d = skip_word_exec(l, c);
    (a, b, c, d)
}

fn is_pick_line(l: &[char]) -> (r: bool)
    ensures
        r == is_pick(l@),
{
    let (a, b, c, _d) = word_bounds_exec(l);
    let verb = slice_subrange(l, a, b);
    let pick: Vec<char> = vec!['p', 'i', 'c', 'k'];
    let p: Vec<char> = vec!['p'];
    proof {
        reveal_strlit("pick");
        reveal_strlit("p");
        assert(pick@ =~= "pick"@);
        assert(p@ =~= "p"@);
    }
    (chars_eq(verb, pick.as_slice()) || chars_eq(verb, p.as_slice())) && c < l.len()
}

fn sha_matches_exec(sha: &[char], oid: &str) -> (r: bool)
    ensures
        r == sha_matches(sha@, oid@),
{
    let s = string_from_chars(sha);
    let sl = to_lowercase(s.as_str());
    let ol = to_lowercase(oid);
    let a = chars_of(sl.as_str());
    let b = chars_of(ol.as_str());
    a.len() > 0 && (chars_start_with(b.as_slice(), a.as_slice()) || chars_start_with(
        a.as_slice(),
        b.as_slice(),
    ))
}

fn is_target_line(l: &[char], oid: &str) -> (r: bool)
    ensures
        r == is_target(l@, oid@),
{
    if !is_pick_line(l) {
        return false;
    }
    let (_a, _b, c, d) = word_bounds_exec(l);
    sha_matches_exec(slice_subrange(l, c, d), oid)
}

fn find_target_exec(ls: &Vec<Vec<char>>, oid: &str) -> (r: Option<usize>)
    ensures
        match r {
            Some(i) => find_target(views(ls@), oid@, 0) == Some(i as int) && i < ls.len(),
            None => find_target(views(ls@), oid@, 0) is None,
        },
{
    let ghost v = views(ls@);
    let mut k: usize = 0;
    while k < ls.len()
        invariant
            k <= ls.len(),
            v == views(ls@),
            find_target(v, oid@, 0) == find_target(v, oid@, k as int),
        decreases ls.len() - k,
    {
        if is_target_line(ls[k].as_slice(), oid) {
            return Some(k);
        }
        k = k + 1;
    }
    None
}

fn next_pick_exec(ls: &Vec<Vec<char>>, from: usize) -> (r: Option<usize>)
    requires
        from <= ls.len(),
    ensures
        match r {
            Some(i) => next_pick(views(ls@), from as int) == Some(i as int) && from <= i < ls.len(),
            None => next_pick(views(ls@), from as int) is None,
        },
{
    let ghost v = views(ls@);
    let mut k: usize = from;
    while k < ls.len()
        invariant
            from <= k <= ls.len(),
            v == views(ls@),
            next_pick(v, from as int) == next_pick(v, k as int),
        decreases ls.len() - k,
    {
        if is_pick_line(ls[k].as_slice()) {
            return Some(k);
        }
        k = k + 1;
    }
    None
}

fn prev_pick_exec(ls: &Vec<Vec<char>>, before: usize) -> (r: Option<usize>)
    requires
        before <= ls.len(),
    ensures
        match r {
            Some(i) => prev_pick(views(ls@), before as int) == Some(i as int) && i < before,
            None => prev_pick(views(ls@), before as int) is None,
        },
{
    let ghost v = views(ls@);
    let mut k: usize = before;
    while k > 0
        invariant
            k <= before <= ls.len(),
            v == views(ls@),
            prev_pick(v, before as int) == prev_pick(v, k as int),
        decreases k,
    {
        if is_pick_line(ls[k - 1].as_slice()) {
            return Some(k - 1);
        }
        k = k - 1;
    }
    None
}

fn replace_verb_exec(l: &[char], verb: &str) -> (r: Vec<char>)
    ensures
        r@ == replace_verb(l@, verb@),
{
    let mut out = chars_of(verb);
    out.push(' ');
    let w = skip_word_exec(l, 0);
    if w < l.len() {
        let mut rest = vstd::slice::slice_to_vec(slice_subrange(l, w + 1, l.len()));
        out.append(&mut rest);
    }
    assert(out@ =~= replace_verb(l@, verb@));
    out
}

fn set_line(ls: &mut Vec<Vec<char>>, i: usize, line: Vec<char>)
    requires
        i < old(ls).len(),
    ensures
        views(final(ls)@) == views(old(ls)@).update(i as int, line@),
        final(ls).len() == old(ls).len(),
{
    ls.set(i, line);
    assert(views(ls@) =~= views(old(ls)@).update(i as int, line@));
}

fn swap_exec(ls: &mut Vec<Vec<char>>, a: usize, b: usize)
    requires
        a < old(ls).len(),
        b < old(ls).len(),
        a != b,
    ensures
        views(final(ls)@) == swap_lines(views(old(ls)@), a as int, b as int),
        final(ls).len() == old(ls).len(),
{
    let mut x: Vec<char> = Vec::new();
    ls.set_and_swap(a, &mut x);
    ls.set_and_swap(b, &mut x);
    ls.set_and_swap(a, &mut x);
    assert(views(ls@) =~= swap_lines(views(old(ls)@), a as int, b as int));
}

/// The lines joined with `\n`, plus a final `\n`.
fn join_todo(ls: &Vec<Vec<char>>) -> (r: String)
    ensures
        r@ == join_lines(views(ls@)) + seq!['\n'],
{
    let mut out = join_lines_exec(ls);
    out.push('\n');
    string_from_chars(out.as_slice())
}

fn owned(s: &str) -> (r: String)
    ensures
        r@ == s@,
{
    s.to_owned()
}

/// Apply `action` to the todo line for `oid`. Lines are oldest first, as git
/// writes them. Returns the new todo text.
pub fn rewrite_todo(todo: &str, oid: &str, action: TodoAction) -> (r: Result<String, String>)
    ensures
        match rewrite_todo_spec(todo@, oid@, action) {
            Ok(t) => r matches Ok(s) && s@ == t,
            Err(e) => r matches Err(s) && s@ == e,
        },
{
    if action == TodoAction::Keep {
        return Ok(owned(todo));
    }
    let chars = chars_of(todo);
    let mut lines = lines_exec(chars.as_slice());
    let idx = match find_target_exec(&lines, oid) {
        Some(i) => i,
        None => {
            let mut e = owned("commit ");
            push_str(&mut e, oid);
            push_str(&mut e, " is not in the rebase todo");
            return Err(e);
        },
    };
    match action {
        TodoAction::Drop => {
            let l = replace_verb_exec(lines[idx].as_slice(), "drop");
            set_line(&mut lines, idx, l);
        },
        TodoAction::Squash => {
            if prev_pick_exec(&lines, idx).is_none() {
                return Err(owned("nothing below to squash into"));
            }
            let l = replace_verb_exec(lines[idx].as_slice(), "squash");
            set_line(&mut lines, idx, l);
        },
        TodoAction::Fixup => {
            if prev_pick_exec(&lines, idx).is_none() {
                return Err(owned("nothing below to fix up into"));
            }
            let l = replace_verb_exec(lines[idx].as_slice(), "fixup");
            set_line(&mut lines, idx, l);
        },
        TodoAction::Reword => {
            let l = replace_verb_exec(lines[idx].as_slice(), "reword");
            set_line(&mut lines, idx, l);
        },
        TodoAction::Edit => {
            let l = replace_verb_exec(lines[idx].as_slice(), "edit");
            set_line(&mut lines, idx, l);
        },
        TodoAction::MoveUp => {
            let next = match next_pick_exec(&lines, idx + 1) {
                Some(n) => n,
                None => return Err(owned("already the newest commit")),
            };
            swap_exec(&mut lines, idx, next);
        },
        TodoAction::MoveDown => {
            let prev = match prev_pick_exec(&lines, idx) {
                Some(p) => p,
                None => return Err(owned("already the oldest commit")),
            };
            swap_exec(&mut lines, idx, prev);
        },
        TodoAction::Keep => {},
    }
    Ok(join_todo(&lines))
}

/// The message file the commit editor writes: the message without
/// trailing whitespace, ended by one newline.
pub fn commit_message_text(msg: &str) -> (r: String)
    ensures
        r@ == trim_end(msg@) + seq!['\n'],
{
    let v = chars_of(msg);
    let j = trim_end_index(v.as_slice());
    let mut out = vstd::slice::slice_to_vec(slice_subrange(v.as_slice(), 0, j));
    out.push('\n');
    string_from_chars(out.as_slice())
}

// ---------------------------------------------------------------------------
// Laws of the todo rewrite.

proof fn lemma_find_target_is_first(ls: Seq<Seq<char>>, oid: Seq<char>, k: int, i: int)
    requires
        0 <= k <= i < ls.len(),
        is_target(ls[i], oid),
        forall|j: int| k <= j < i ==> !is_target(#[trigger] ls[j], oid),
    ensures
        find_target(ls, oid, k) == Some(i),
    decreases i - k,
{
    if k < i {
        lemma_find_target_is_first(ls, oid, k + 1, i);
    }
}

proof fn lemma_find_target_facts(ls: Seq<Seq<char>>, oid: Seq<char>, k: int)
    requires
        0 <= k,
    ensures
        find_target(ls, oid, k) matches Some(i) ==> k <= i < ls.len() && is_target(ls[i], oid),
    decreases ls.len() - k,
{
    if k < ls.len() && !is_target(ls[k], oid) {
        lemma_find_target_facts(ls, oid, k + 1);
    }
}

proof fn lemma_next_pick_is_first(ls: Seq<Seq<char>>, k: int, i: int)
    requires
        0 <= k <= i < ls.len(),
        is_pick(ls[i]),
        forall|j: int| k <= j < i ==> !is_pick(#[trigger] ls[j]),
    ensures
        next_pick(ls, k) == Some(i),
    decreases i - k,
{
    if k < i {
        lemma_next_pick_is_first(ls, k + 1, i);
    }
}

proof fn lemma_next_pick_facts(ls: Seq<Seq<char>>, k: int)
    requires
        0 <= k,
    ensures
        next_pick(ls, k) matches Some(i) ==> k <= i < ls.len() && is_pick(ls[i]) && forall|j: int|
            k <= j < i ==> !is_pick(#[trigger] ls[j]),
    decreases ls.len() - k,
{
    if k < ls.len() && !is_pick(ls[k]) {
        lemma_next_pick_facts(ls, k + 1);
    }
}

proof fn lemma_prev_pick_is_last(ls: Seq<Seq<char>>, k: int, p: int)
    requires
        0 <= p < k <= ls.len(),
        is_pick(ls[p]),
        forall|j: int| p < j < k ==> !is_pick(#[trigger] ls[j]),
    ensures
        prev_pick(ls, k) == Some(p),
    decreases k - p,
{
    if p < k - 1 {
        lemma_prev_pick_is_last(ls, k - 1, p);
    }
}

proof fn lemma_prev_pick_facts(ls: Seq<Seq<char>>, k: int)
    ensures
        prev_pick(ls, k) matches Some(p) ==> 0 <= p < k <= ls.len() && is_pick(ls[p]) && forall|j: int|
            p < j < k ==> !is_pick(#[trigger] ls[j]),
    decreases k,
{
    if 0 < k <= ls.len() && !is_pick(ls[k - 1]) {
        lemma_prev_pick_facts(ls, k - 1);
    }
}

/// Exactly one pick line names the commit `oid`.
pub open spec fn unique_target(ls: Seq<Seq<char>>, oid: Seq<char>) -> bool {
    forall|i: int, j: int|
        0 <= i < ls.len() && 0 <= j < ls.len() && is_target(#[trigger] ls[i], oid) && is_target(
            #[trigger] ls[j],
            oid,
        ) ==> i == j
}

/// Moving a commit down puts back what moving it up changed, when one
/// pick line names it.
pub proof fn lemma_move_down_undoes_move_up(ls: Seq<Seq<char>>, oid: Seq<char>)
    requires
        unique_target(ls, oid),
        rewrite_lines(ls, oid, TodoAction::MoveUp) is Ok,
    ensures
        rewrite_lines(rewrite_lines(ls, oid, TodoAction::MoveUp)->Ok_0, oid, TodoAction::MoveDown) == Ok::<
            Seq<Seq<char>>,
            Seq<char>,
        >(ls),
{
    lemma_find_target_facts(ls, oid, 0);
    let idx = find_target(ls, oid, 0)->Some_0;
    lemma_next_pick_facts(ls, idx + 1);
    let n = next_pick(ls, idx + 1)->Some_0;
    let ls2 = swap_lines(ls, idx, n);
    assert forall|j: int| 0 <= j < n implies !is_target(#[trigger] ls2[j], oid) by {
        if j == idx {
            assert(ls2[j] == ls[n]);
        } else {
            assert(ls2[j] == ls[j]);
        }
    }
    lemma_find_target_is_first(ls2, oid, 0, n);
    assert forall|j: int| idx < j < n implies !is_pick(#[trigger] ls2[j]) by {
        assert(ls2[j] == ls[j]);
    }
    lemma_prev_pick_is_last(ls2, n, idx);
    assert(swap_lines(ls2, n, idx) =~= ls);
}

/// Moving a commit up puts back what moving it down changed, when one
/// pick line names it.
pub proof fn lemma_move_up_undoes_move_down(ls: Seq<Seq<char>>, oid: Seq<char>)
    requires
        unique_target(ls, oid),
        rewrite_lines(ls, oid, TodoAction::MoveDown) is Ok,
    ensures
        rewrite_lines(rewrite_lines(ls, oid, TodoAction::MoveDown)->Ok_0, oid, TodoAction::MoveUp) == Ok::<
            Seq<Seq<char>>,
            Seq<char>,
        >(ls),
{
    lemma_find_target_facts(ls, oid, 0);
    let idx = find_target(ls, oid, 0)->Some_0;
    lemma_prev_pick_facts(ls, idx);
    let p = prev_pick(ls, idx)->Some_0;
    let ls2 = swap_lines(ls, idx, p);
    assert forall|j: int| 0 <= j < p implies !is_target(#[trigger] ls2[j], oid) by {
        assert(ls2[j] == ls[j]);
    }
    lemma_find_target_is_first(ls2, oid, 0, p);
    assert forall|j: int| p + 1 <= j < idx implies !is_pick(#[trigger] ls2[j]) by {
        assert(ls2[j] == ls[j]);
    }
    lemma_next_pick_is_first(ls2, p + 1, idx);
    assert(swap_lines(ls2, p, idx) =~= ls);
}

/// An action that edits a line changes that line only and keeps the
/// number of lines.
pub proof fn lemma_rewrite_keeps_other_lines(ls: Seq<Seq<char>>, oid: Seq<char>, action: TodoAction)
    requires
        rewrite_lines(ls, oid, action) is Ok,
    ensures
        ({
            let out = rewrite_lines(ls, oid, action)->Ok_0;
            let idx = find_target(ls, oid, 0)->Some_0;
            &&& out.len() == ls.len()
            &&& (action != TodoAction::MoveUp && action != TodoAction::MoveDown) ==> forall|j: int|
                0 <= j < ls.len() && j != idx ==> #[trigger] out[j] == ls[j]
        }),
{
    lemma_find_target_facts(ls, oid, 0);
    let idx = find_target(ls, oid, 0)->Some_0;
    lemma_next_pick_facts(ls, idx + 1);
    lemma_prev_pick_facts(ls, idx);
}

/// No piece contains `x` when the whole does not.
proof fn lemma_split_pieces_avoid<T>(s: Seq<T>, sep: T, x: T)
    requires
        !s.contains(x),
    ensures
        forall|i: int| 0 <= i < split_seq(s, sep).len() ==> !(#[trigger] split_seq(s, sep)[i]).contains(x),
    decreases s.len(),
{
    let p = split_seq(s, sep);
    lemma_first_index_facts(s, sep);
    match first_index_of(s, sep) {
        Some(i) => {
            let rest = s.skip(i + 1);
            if rest.contains(x) {
                let j = choose|j: int| 0 <= j < rest.len() && rest[j] == x;
                assert(s[i + 1 + j] == x);
            }
            lemma_split_pieces_avoid(rest, sep, x);
            assert forall|k: int| 0 <= k < p.len() implies !(#[trigger] p[k]).contains(x) by {
                if k == 0 {
                    if p[0].contains(x) {
                        let j = choose|j: int| 0 <= j < p[0].len() && p[0][j] == x;
                        assert(s[j] == x);
                    }
                } else {
                    assert(p[k] == split_seq(rest, sep)[k - 1]);
                }
            }
        },
        None => {},
    }
}

proof fn lemma_join_lines_front(ls: Seq<Seq<char>>)
    ensures
        join_lines(ls) == join_front(ls, '\n'),
    decreases ls.len(),
{
    if ls.len() >= 2 {
        lemma_join_lines_front(ls.drop_last());
        lemma_join_front_snoc(ls.drop_last(), ls.last(), '\n');
        assert(ls.drop_last().push(ls.last()) =~= ls);
    }
}

/// Lines without line breaks, joined and ended with `\n`, read back as
/// the same lines.
proof fn lemma_lines_of_joined(ls: Seq<Seq<char>>)
    requires
        ls.len() >= 1,
        forall|i: int| 0 <= i < ls.len() ==> !(#[trigger] ls[i]).contains('\n') && !ls[i].contains('\r'),
    ensures
        lines_of(join_lines(ls) + seq!['\n']) == ls,
{
    let e = Seq::<char>::empty();
    let p = ls.push(e);
    lemma_join_lines_front(ls);
    lemma_join_front_snoc(ls, e, '\n');
    assert(join_front(ls, '\n') + seq!['\n'] + e =~= join_lines(ls) + seq!['\n']);
    assert forall|i: int| 0 <= i < p.len() implies !(#[trigger] p[i]).contains('\n') by {
        if i < ls.len() {
            assert(p[i] == ls[i]);
        }
    }
    lemma_split_join(p, '\n');
    assert(p.take(p.len() - 1) =~= ls);
    assert forall|i: int| 0 <= i < ls.len() implies strip_cr(#[trigger] ls[i]) == ls[i] by {
        if ls[i].len() > 0 && ls[i].last() == '\r' {
            assert(ls[i].contains('\r'));
        }
    }
    assert(ls.map_values(|l: Seq<char>| strip_cr(l)) =~= ls);
}

/// A text that ends with `\n` and has no `\r` is its lines joined and
/// ended with `\n`, and those lines hold no line break.
proof fn lemma_text_of_lines(todo: Seq<char>)
    requires
        todo.len() > 0,
        todo.last() == '\n',
        !todo.contains('\r'),
    ensures
        join_lines(lines_of(todo)) + seq!['\n'] == todo,
        lines_of(todo).len() >= 1,
        forall|i: int| 0 <= i < lines_of(todo).len() ==> !(#[trigger] lines_of(todo)[i]).contains('\n')
            && !lines_of(todo)[i].contains('\r'),
{
    let t0 = todo.drop_last();
    let q = split_seq(t0, '\n');
    lemma_join_split(t0, '\n');
    lemma_split_pieces_no_sep(t0, '\n');
    if t0.contains('\r') {
        let j = choose|j: int| 0 <= j < t0.len() && t0[j] == '\r';
        assert(todo[j] == '\r');
    }
    lemma_split_pieces_avoid(t0, '\n', '\r');
    crate::seqs::lemma_split_seq_len(t0, '\n');
    let e = Seq::<char>::empty();
    let p = q.push(e);
    lemma_join_front_snoc(q, e, '\n');
    assert(join_front(q, '\n') + seq!['\n'] + e =~= todo);
    assert forall|i: int| 0 <= i < p.len() implies !(#[trigger] p[i]).contains('\n') by {
        if i < q.len() {
            assert(p[i] == q[i]);
        }
    }
    lemma_split_join(p, '\n');
    assert(p.take(p.len() - 1) =~= q);
    assert forall|i: int| 0 <= i < q.len() implies strip_cr(#[trigger] q[i]) == q[i] by {
        if q[i].len() > 0 && q[i].last() == '\r' {
            assert(q[i].contains('\r'));
        }
    }
    assert(q.map_values(|l: Seq<char>| strip_cr(l)) =~= q);
    assert(lines_of(todo) == q);
    lemma_join_lines_front(q);
}

proof fn lemma_swap_keeps_breakless(ls: Seq<Seq<char>>, a: int, b: int)
    requires
        0 <= a < ls.len(),
        0 <= b < ls.len(),
        forall|i: int| 0 <= i < ls.len() ==> !(#[trigger] ls[i]).contains('\n') && !ls[i].contains('\r'),
    ensures
        swap_lines(ls, a, b).len() == ls.len(),
        forall|i: int|
            0 <= i < swap_lines(ls, a, b).len() ==> !(#[trigger] swap_lines(ls, a, b)[i]).contains('\n')
                && !swap_lines(ls, a, b)[i].contains('\r'),
{
    let s = swap_lines(ls, a, b);
    assert forall|i: int| 0 <= i < s.len() implies !(#[trigger] s[i]).contains('\n') && !s[i].contains('\r') by {
        if i == b {
            assert(s[i] == ls[a]);
        } else if i == a {
            assert(s[i] == ls[b]);
        } else {
            assert(s[i] == ls[i]);
        }
    }
}

/// On a todo text that ends with `\n` and has no `\r`, in which one pick
/// line names the commit: moving it down puts back what moving it up
/// changed.
pub proof fn lemma_move_down_undoes_move_up_in_text(todo: Seq<char>, oid: Seq<char>)
    requires
        todo.len() > 0,
        todo.last() == '\n',
        !todo.contains('\r'),
        unique_target(lines_of(todo), oid),
        rewrite_todo_spec(todo, oid, TodoAction::MoveUp) is Ok,
    ensures
        rewrite_todo_spec(rewrite_todo_spec(todo, oid, TodoAction::MoveUp)->Ok_0, oid, TodoAction::MoveDown)
            == Ok::<Seq<char>, Seq<char>>(todo),
{
    let ls = lines_of(todo);
    lemma_text_of_lines(todo);
    lemma_find_target_facts(ls, oid, 0);
    let idx = find_target(ls, oid, 0)->Some_0;
    lemma_next_pick_facts(ls, idx + 1);
    let n = next_pick(ls, idx + 1)->Some_0;
    let r1 = swap_lines(ls, idx, n);
    lemma_swap_keeps_breakless(ls, idx, n);
    lemma_lines_of_joined(r1);
    lemma_move_down_undoes_move_up(ls, oid);
}

/// On a todo text that ends with `\n` and has no `\r`, in which one pick
/// line names the commit: moving it up puts back what moving it down
/// changed.
pub proof fn lemma_move_up_undoes_move_down_in_text(todo: Seq<char>, oid: Seq<char>)
    requires
        todo.len() > 0,
        todo.last() == '\n',
        !todo.contains('\r'),
        unique_target(lines_of(todo), oid),
        rewrite_todo_spec(todo, oid, TodoAction::MoveDown) is Ok,
    ensures
        rewrite_todo_spec(rewrite_todo_spec(todo, oid, TodoAction::MoveDown)->Ok_0, oid, TodoAction::MoveUp)
            == Ok::<Seq<char>, Seq<char>>(todo),
{
    let ls = lines_of(todo);
    lemma_text_of_lines(todo);
    lemma_find_target_facts(ls, oid, 0);
    let idx = find_target(ls, oid, 0)->Some_0;
    lemma_prev_pick_facts(ls, idx);
    let p = prev_pick(ls, idx)->Some_0;
    let r1 = swap_lines(ls, idx, p);
    lemma_swap_keeps_breakless(ls, idx, p);
    lemma_lines_of_joined(r1);
    lemma_move_up_undoes_move_down(ls, oid);
}

} // verus!
