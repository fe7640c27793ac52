//! Open gitgui in a new terminal split when the host supports it: the
//! choice of host, the command lines handed to it, and the editor command.
use vstd::prelude::*;
use vstd::slice::slice_subrange;

use crate::git::ai::{opt_str, string_views};
use crate::git::rebase::quote_body;
use crate::seqs::last_index_of;
use crate::text::{
    chars_of, push_char, push_str, skip_white, skip_white_exec, skip_word, skip_word_exec, str_is,
    string_from_chars, trim, trim_range,
};

verus! {

#[derive(Debug, Clone, Copy, PartialEq, Eq, Structural)]
pub enum Direction {
    Left,
    Right,
    Up,
    Down,
}

pub open spec fn direction_named(s: Seq<char>) -> Option<Direction> {
    if s == "left"@ {
        Some(Direction::Left)
    } else if s == "right"@ {
        Some(Direction::Right)
    } else if s == "up"@ {
        Some(Direction::Up)
    } else if s == "down"@ {
        Some(Direction::Down)
    } else {
        None
    }
}

pub open spec fn cmux_name(d: Direction) -> Seq<char> {
    match d {
        Direction::Left => "left"@,
        Direction::Right => "right"@,
        Direction::Up => "up"@,
        Direction::Down => "down"@,
    }
}

impl Direction {
    pub fn parse(s: &str) -> (r: Option<Self>)
        ensures
            r == direction_named(s@),
    {
        if str_is(s, "left") {
            Some(Direction::Left)
        } else if str_is(s, "right") {
            Some(Direction::Right)
        } else if str_is(s, "up") {
            Some(Direction::Up)
        } else if str_is(s, "down") {
            Some(Direction::Down)
        } else {
            None
        }
    }

    /// The direction as cmux names it.
    pub fn cmux(self) -> (r: &'static str)
        ensures
            r@ == cmux_name(self),
    {
        match self {
            Direction::Left => "left",
            Direction::Right => "right",
            Direction::Up => "up",
            Direction::Down => "down",
        }
    }

    /// The kitty split that puts the new window on that side.
    pub fn kitty(self) -> (r: &'static str)
        ensures
            r@ == (match self {
                Direction::Left | Direction::Right => "vsplit"@,
                Direction::Up | Direction::Down => "hsplit"@,
            }),
    {
        match self {
            Direction::Left | Direction::Right => "vsplit",
            Direction::Up | Direction::Down => "hsplit",
        }
    }

    /// The direction as Ghostty's `new_split` action names it.
    pub fn ghostty(self) -> (r: &'static str)
        ensures
            r@ == cmux_name(self),
    {
        self.cmux()
    }
}

/// The terminals with a split integration.
#[derive(Debug, Clone, Copy, PartialEq, Eq, Structural)]
pub enum Host {
    Cmux,
    Ghostty,
    Kitty,
}

/// The host from the environment: cmux when `CMUX_SURFACE_ID` is set or
/// `TERM_PROGRAM` says so, else Ghostty or kitty by `TERM_PROGRAM`.
pub open spec fn host_of(cmux_surface: bool, term_program: Option<Seq<char>>) -> Option<Host> {
    if cmux_surface || term_program == Some("cmux"@) {
        Some(Host::Cmux)
    } else if term_program == Some("ghostty"@) {
        Some(Host::Ghostty)
    } else if term_program == Some("kitty"@) {
        Some(Host::Kitty)
    } else {
        None
    }
}

fn program_is(term_program: Option<&str>, name: &str) -> (r: bool)
    ensures
        r == (opt_str(term_program) == Some(name@)),
{
    match term_program {
        Some(p) => str_is(p, name),
        None => false,
    }
}

/// The host, from whether `CMUX_SURFACE_ID` is set and the value of
/// `TERM_PROGRAM`.
pub fn detect_host(cmux_surface: bool, term_program: Option<&str>) -> (r: Option<Host>)
    ensures
        r == host_of(cmux_surface, opt_str(term_program)),
{
    if cmux_surface || program_is(term_program, "cmux") {
        Some(Host::Cmux)
    } else if program_is(term_program, "ghostty") {
        Some(Host::Ghostty)
    } else if program_is(term_program, "kitty") {
        Some(Host::Kitty)
    } else {
        None
    }
}

/// Whether the current terminal is cmux (its CLI can open file previews).
pub fn is_cmux(cmux_surface: bool, term_program: Option<&str>) -> (r: bool)
    ensures
        r == (host_of(cmux_surface, opt_str(term_program)) == Some(Host::Cmux)),
{
    match detect_host(cmux_surface, term_program) {
        Some(Host::Cmux) => true,
        _ => false,
    }
}

// ---------------------------------------------------------------------------
// Quoting and command lines.

/// A char that needs no quoting for `/bin/sh`.
pub open spec fn is_safe_char(c: char) -> bool {
    ||| 'a' <= c <= 'z'
    ||| 'A' <= c <= 'Z'
    ||| '0' <= c <= '9'
    ||| c == '/' || c == '.' || c == '_' || c == '-' || c == ':' || c == '@' || c == '%' || c == '+'
        || c == ',' || c == '='
}

/// One argument as `/bin/sh -c` reads it back: `''` when empty, as is
/// when every char is safe, else in single quotes.
pub open spec fn quote_arg(s: Seq<char>) -> Seq<char> {
    if s.len() == 0 {
        seq!['\'', '\'']
    } else if forall|i: int| 0 <= i < s.len() ==> is_safe_char(#[trigger] s[i]) {
        s
    } else {
        seq!['\''] + quote_body(s) + seq!['\'']
    }
}

fn is_safe_exec(c: char) -> (r: bool)
    ensures
        r == is_safe_char(c),
{
    ('a' <= c && c <= 'z') || ('A' <= c && c <= 'Z') || ('0' <= c && c <= '9') || c == '/' || c == '.'
        || c == '_' || c == '-' || c == ':' || c == '@' || c == '%' || c == '+' || c == ',' || c == '='
}

/// Shell-quote a single argument for `/bin/sh -c`.
pub fn shell_quote(s: &str) -> (r: String)
    ensures
        r@ == quote_arg(s@),
{
    let v = chars_of(s);
    if v.len() == 0 {
        let mut out = String::new();
        push_char(&mut out, '\'');
        push_char(&mut out, '\'');
        return out;
    }
    let mut i: usize = 0;
    while i < v.len()
        invariant
            i <= v.len(),
            v@ == s@,
            forall|j: int| 0 <= j < i ==> is_safe_char(#[trigger] v@[j]),
        decreases v.len() - i,
    {
        if !is_safe_exec(v[i]) {
            proof {
                assert(!is_safe_char(s@[i as int]));
                assert(!(forall|j: int| 0 <= j < s@.len() ==> is_safe_char(#[trigger] s@[j])));
            }
            return crate::git::rebase::shell_quote(s);
        }
        i = i + 1;
    }
    s.to_owned()
}

/// What stays of the first `n` arguments: `--split` and `--size` go with
/// the value after them, `action` and `ls` go. The flag tells whether the
/// next argument is such a value.
pub open spec fn argv_prefix(args: Seq<Seq<char>>, n: int) -> (Seq<Seq<char>>, bool)
    decreases n,
{
    if n <= 0 || n > args.len() {
        (seq![], false)
    } else {
        let (o, skip) = argv_prefix(args, n - 1);
        let a = args[n - 1];
        if skip {
            (o, false)
        } else if a == "--split"@ || a == "--size"@ {
            (o, true)
        } else if a == "action"@ || a == "ls"@ {
            (o, false)
        } else {
            (o.push(a), false)
        }
    }
}

/// Build argv for the child process: drop `--split`, `--size`, and `action`/`ls`.
pub fn child_argv(args: &[String]) -> (r: Vec<String>)
    ensures
        string_views(r@) == argv_prefix(string_views(args@), args@.len() as int).0,
{
    let ghost v = string_views(args@);
    let mut out: Vec<String> = Vec::new();
    let mut skip_next = false;
    let mut k: usize = 0;
    while k < args.len()
        invariant
            k <= args.len(),
            v == string_views(args@),
            (string_views(out@), skip_next) == argv_prefix(v, k as int),
        decreases args.len() - k,
    {
        let a = args[k].as_str();
        let ghost before = out@;
        if skip_next {
            skip_next = false;
        } else if str_is(a, "--split") || str_is(a, "--size") {
            skip_next = true;
        } else if str_is(a, "action") || str_is(a, "ls") {
        } else {
            out.push(a.to_owned());
            assert(string_views(out@) =~= string_views(before).push(v[k as int]));
        }
        k = k + 1;
    }
    out
}

/// The arguments quoted and joined with spaces.
pub open spec fn quoted_join(args: Seq<Seq<char>>) -> Seq<char>
    decreases args.len(),
{
    if args.len() == 0 {
        seq![]
    } else {
        quoted_join(args.drop_last()) + seq![' '] + quote_arg(args.last())
    }
}

/// The shell command line that runs `exe` with `args`.
pub fn build_cmdline(exe: &str, args: &[String]) -> (r: String)
    ensures
        r@ == quote_arg(exe@) + quoted_join(string_views(args@)),
{
    let ghost v = string_views(args@);
    let mut out = shell_quote(exe);
    let mut k: usize = 0;
    while k < args.len()
        invariant
            k <= args.len(),
            v == string_views(args@),
            out@ == quote_arg(exe@) + quoted_join(v.take(k as int)),
        decreases args.len() - k,
    {
        push_char(&mut out, ' ');
        let q = shell_quote(args[k].as_str());
        push_str(&mut out, q.as_str());
        assert(v.take(k + 1).drop_last() =~= v.take(k as int));
        assert(out@ =~= quote_arg(exe@) + quoted_join(v.take(k + 1)));
        k = k + 1;
    }
    assert(v.take(args.len() as int) =~= v);
    out
}

/// `kitty @ launch --location=SPLIT --cwd=current EXE ARGS...`: the
/// arguments of the kitty remote control call.
pub fn kitty_launch_args(direction: Direction, exe: &str, args: &[String]) -> (r: Vec<String>)
    ensures
        string_views(r@) == seq!["@"@, "launch"@, "--location="@ + (match direction {
            Direction::Left | Direction::Right => "vsplit"@,
            Direction::Up | Direction::Down => "hsplit"@,
        }), "--cwd=current"@, exe@] + string_views(args@),
{
    let mut out: Vec<String> = Vec::new();
    out.push("@".to_owned());
    out.push("launch".to_owned());
    let mut loc = "--location=".to_owned();
    loc.append(direction.kitty());
    out.push(loc);
    out.push("--cwd=current".to_owned());
    out.push(exe.to_owned());
    let ghost head = string_views(out@);
    let mut k: usize = 0;
    while k < args.len()
        invariant
            k <= args.len(),
            string_views(out@) == head + string_views(args@).take(k as int),
        decreases args.len() - k,
    {
        let ghost before = out@;
        let item = args[k].as_str().to_owned();
        let ghost iv = item@;
        assert(iv == string_views(args@)[k as int]);
        out.push(item);
        assert(string_views(out@) =~= string_views(before).push(iv));
        assert(string_views(args@).take(k + 1) =~= string_views(args@).take(k as int).push(iv));
        assert(string_views(out@) =~= head + string_views(args@).take(k + 1));
        k = k + 1;
    }
    assert(string_views(args@).take(args.len() as int) =~= string_views(args@));
    out
}

/// The arguments of `cmux new-split` that open a focused split.
pub fn cmux_split_args(direction: Direction) -> (r: Vec<&'static str>)
    ensures
        r@.len() == 7,
        r@[0]@ == "new-split"@,
        r@[1]@ == cmux_name(direction),
        r@[2]@ == "--focus"@,
        r@[3]@ == "true"@,
        r@[4]@ == "--json"@,
        r@[5]@ == "--id-format"@,
        r@[6]@ == "both"@,
{
    vec!["new-split", direction.cmux(), "--focus", "true", "--json", "--id-format", "both"]
}

/// Ghostty's action that opens a split on that side.
pub fn ghostty_split_action(direction: Direction) -> (r: String)
    ensures
        r@ == "+new_split:"@ + cmux_name(direction),
{
    let mut s = "+new_split:".to_owned();
    s.append(direction.ghostty());
    s
}

// ---------------------------------------------------------------------------
// The editor.

pub open spec fn nonblank(o: Option<Seq<char>>) -> Option<Seq<char>> {
    match o {
        Some(s) => if trim(s).len() > 0 {
            Some(trim(s))
        } else {
            None
        },
        None => None,
    }
}

/// The first setting that is not blank, trimmed; `vi` when none is.
pub open spec fn editor_of(
    explicit: Option<Seq<char>>,
    gitgui: Option<Seq<char>>,
    visual: Option<Seq<char>>,
    editor: Option<Seq<char>>,
) -> Seq<char> {
    match nonblank(explicit) {
        Some(e) => e,
        None => match nonblank(gitgui) {
            Some(e) => e,
            None => match nonblank(visual) {
                Some(e) => e,
                None => match nonblank(editor) {
                    Some(e) => e,
                    None => "vi"@,
                },
            },
        },
    }
}

fn nonblank_exec(o: Option<&str>) -> (r: Option<String>)
    ensures
        match r {
            Some(s) => nonblank(opt_str(o)) == Some(s@),
            None => nonblank(opt_str(o)) is None,
        },
{
    match o {
        Some(s) => {
            let v = chars_of(s);
            let (a, b) = trim_range(v.as_slice());
            if a < b {
                Some(string_from_chars(slice_subrange(v.as_slice(), a, b)))
            } else {
                None
            }
        },
        None => None,
    }
}

/// The editor command: `explicit` is `--editor` or `git config
/// gitgui.editor`; then `$GITGUI_EDITOR`, `$VISUAL`, `$EDITOR`, and finally
/// `vi`. May contain arguments ("code -w"), so it is spliced into the
/// command line unquoted.
pub fn resolve_editor(explicit: Option<&str>, gitgui: Option<&str>, visual: Option<&str>, editor: Option<
    &str,
>) -> (r: String)
    ensures
        r@ == editor_of(opt_str(explicit), opt_str(gitgui), opt_str(visual), opt_str(editor)),
{
    if let Some(e) = nonblank_exec(explicit) {
        return e;
    }
    if let Some(e) = nonblank_exec(gitgui) {
        return e;
    }
    if let Some(e) = nonblank_exec(visual) {
        return e;
    }
    if let Some(e) = nonblank_exec(editor) {
        return e;
    }
    "vi".to_owned()
}

/// The editors that open their own window.
pub open spec fn is_gui_name(n: Seq<char>) -> bool {
    ||| n == "code"@ || n == "code-insiders"@ || n == "codium"@ || n == "cursor"@ || n == "windsurf"@
    ||| n == "subl"@ || n == "sublime_text"@ || n == "zed"@ || n == "mate"@ || n == "atom"@
    ||| n == "idea"@ || n == "pycharm"@ || n == "clion"@ || n == "rustrover"@ || n == "webstorm"@
    ||| n == "goland"@ || n == "bbedit"@ || n == "nova"@ || n == "gedit"@ || n == "kate"@
    ||| n == "gvim"@ || n == "mvim"@ || n == "open"@
}

/// The program of an editor command: its first word without directories.
pub open spec fn editor_program(editor: Seq<char>) -> Seq<char> {
    let a = skip_white(editor, 0);
    let first = editor.subrange(a, skip_word(editor, a));
    match last_index_of(first, '/') {
        Some(i) => first.skip(i + 1),
        None => first,
    }
}

fn is_gui_name_exec(n: &str) -> (r: bool)
    ensures
        r == is_gui_name(n@),
{
    str_is(n, "code") || str_is(n, "code-insiders") || str_is(n, "codium") || str_is(n, "cursor")
        || str_is(n, "windsurf") || str_is(n, "subl") || str_is(n, "sublime_text") || str_is(n, "zed")
        || str_is(n, "mate") || str_is(n, "atom") || str_is(n, "idea") || str_is(n, "pycharm") || str_is(
        n,
        "clion",
    ) || str_is(n, "rustrover") || str_is(n, "webstorm") || str_is(n, "goland") || str_is(n, "bbedit")
        || str_is(n, "nova") || str_is(n, "gedit") || str_is(n, "kate") || str_is(n, "gvim") || str_is(
        n,
        "mvim",
    ) || str_is(n, "open")
}

fn last_slash_in(p: &[char]) -> (r: Option<usize>)
    ensures
        match r {
            Some(i) => last_index_of(p@, '/') == Some(i as int) && i < p.len(),
            None => last_index_of(p@, '/') is None,
        },
{
    let mut k: usize = p.len();
    while k > 0
        invariant
            k <= p.len(),
            forall|j: int| k <= j < p.len() ==> p@[j] != '/',
        decreases k,
    {
        if p[k - 1] == '/' {
            let i = k - 1;
            proof {
                let w = choose|w: int|
                    0 <= w < p@.len() && p@[w] == '/' && forall|j: int| w < j < p@.len() ==> p@[j] != '/';
                assert(0 <= i < p@.len() && p@[i as int] == '/' && forall|j: int| i < j < p@.len() ==> p@[j]
                    != '/');
                if w < i {
                    assert(p@[i as int] != '/');
                } else if i < w {
                    assert(p@[w] != '/');
                }
            }
            return Some(i);
        }
        k = k - 1;
    }
    None
}

/// GUI editors open their own window; they run detached instead of in a
/// terminal split.
pub fn is_gui_editor(editor: &str) -> (r: bool)
    ensures
        r == is_gui_name(editor_program(editor@)),
{
    let v = chars_of(editor);
    let a = skip_white_exec(v.as_slice(), 0);
    let b = skip_word_exec(v.as_slice(), a);
    let first = slice_subrange(v.as_slice(), a, b);
    let name = match last_slash_in(first) {
        Some(i) => {
            let n = first.len();
            let t = slice_subrange(first, i + 1, n);
            assert(t@ == first@.skip(i + 1));
            t
        },
        None => first,
    };
    let s = string_from_chars(name);
    is_gui_name_exec(s.as_str())
}

/// Shell command that opens `path` (relative to `workdir`) in `editor`.
pub fn editor_cmdline(editor: &str, workdir: &str, path: &str) -> (r: String)
    ensures
        r@ == "cd "@ + quote_arg(workdir@) + " && "@ + editor@ + seq![' '] + quote_arg(path@),
{
    let mut out = "cd ".to_owned();
    let w = shell_quote(workdir);
    push_str(&mut out, w.as_str());
    push_str(&mut out, " && ");
    push_str(&mut out, editor);
    push_char(&mut out, ' ');
    let p = shell_quote(path);
    push_str(&mut out, p.as_str());
    out
}


/// `cmux send --surface SURFACE -- CMDLINE⏎`: type the command line into
/// the new split's shell.
pub fn cmux_send_args(surface: &str, cmdline: &str) -> (r: Vec<String>)
    ensures
        string_views(r@) == seq!["send"@, "--surface"@, surface@, "--"@, cmdline@ + seq!['\n']],
{
    let mut line = cmdline.to_owned();
    push_char(&mut line, '\n');
    assert(line@ =~= cmdline@ + seq!['\n']);
    let r = vec!["send".to_owned(), "--surface".to_owned(), surface.to_owned(), "--".to_owned(), line];
    assert(string_views(r@) =~= seq!["send"@, "--surface"@, surface@, "--"@, cmdline@ + seq!['\n']]);
    r
}

/// Where an editor opens.
#[derive(Debug, Clone, Copy, PartialEq, Eq, Structural)]
pub enum EditorRoute {
    /// A GUI editor, spawned detached in its own window.
    Detached,
    /// A terminal editor in a new cmux split.
    CmuxSplit,
    /// A terminal editor in a new kitty split.
    KittySplit,
}

/// Where `editor` opens on `host`: GUI editors detached, terminal editors in
/// a split of a host that can make one; Ghostty and unknown terminals
/// cannot.
pub open spec fn editor_route_spec(editor: Seq<char>, host: Option<Host>, cmdline: Seq<char>) -> Result<EditorRoute, Seq<char>> {
    if is_gui_name(editor_program(editor)) {
        Ok(EditorRoute::Detached)
    } else {
        match host {
            Some(Host::Cmux) => Ok(EditorRoute::CmuxSplit),
            Some(Host::Kitty) => Ok(EditorRoute::KittySplit),
            Some(Host::Ghostty) => Err("Ghostty has no split CLI; run: "@ + cmdline),
            None => Err("no split integration for this terminal"@),
        }
    }
}

/// Decide where to open `editor`, whose command line is `cmdline`.
pub fn editor_route(editor: &str, host: Option<Host>, cmdline: &str) -> (r: Result<EditorRoute, String>)
    ensures
        match (r, editor_route_spec(editor@, host, cmdline@)) {
            (Ok(a), Ok(b)) => a == b,
            (Err(a), Err(b)) => a@ == b,
            _ => false,
        },
{
    if is_gui_editor(editor) {
        return Ok(EditorRoute::Detached);
    }
    match host {
        Some(Host::Cmux) => Ok(EditorRoute::CmuxSplit),
        Some(Host::Kitty) => Ok(EditorRoute::KittySplit),
        Some(Host::Ghostty) => {
            let mut m = "Ghostty has no split CLI; run: ".to_owned();
            push_str(&mut m, cmdline);
            Err(m)
        },
        None => Err("no split integration for this terminal".to_owned()),
    }
}

/// `kitty @ launch --location=vsplit --cwd=WORKDIR sh -c CMDLINE`: a
/// terminal editor beside gitgui.
pub fn editor_kitty_args(workdir: &str, cmdline: &str) -> (r: Vec<String>)
    ensures
        string_views(r@) == seq!["@"@, "launch"@, "--location=vsplit"@, "--cwd="@ + workdir@, "sh"@, "-c"@, cmdline@],
{
    let mut cwd = "--cwd=".to_owned();
    push_str(&mut cwd, workdir);
    let r = vec![
        "@".to_owned(),
        "launch".to_owned(),
        "--location=vsplit".to_owned(),
        cwd,
        "sh".to_owned(),
        "-c".to_owned(),
        cmdline.to_owned(),
    ];
    assert(string_views(r@) =~= seq!["@"@, "launch"@, "--location=vsplit"@, "--cwd="@ + workdir@, "sh"@, "-c"@, cmdline@]);
    r
}

} // verus!
