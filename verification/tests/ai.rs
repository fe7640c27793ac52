use gitgui::git::ai::{
    answer_of, timeout_message, autodetect_in, build_prompt, clean_output, first_word, is_lockfile, parse_ollama_list, pick,
    resolve, truncate_diff, Tool, CONFIG_COMMAND, ENV_COMMAND,
};

#[test]
fn env_beats_config_beats_autodetect() {
    let t = pick(Some(" codex exec - "), Some("llm")).unwrap();
    assert_eq!(t.command, "codex exec -");
    assert_eq!(t.source, ENV_COMMAND);
    let t = pick(Some("  "), Some("llm -m gpt")).unwrap();
    assert_eq!(t.command, "llm -m gpt");
    assert_eq!(t.source, CONFIG_COMMAND);
    assert!(pick(None, Some("")).is_none());
}

#[test]
fn resolve_falls_back_to_autodetect_only_when_unset() {
    let detected = || Some(Tool { command: "llm".to_owned(), source: "autodetect" });
    assert_eq!(resolve(Some("x"), None, detected).unwrap().command, "x");
    assert_eq!(resolve(None, Some(" "), detected).unwrap().command, "llm");
    assert!(resolve(None, None, || None).is_none());
}

#[test]
fn autodetect_walks_the_candidates_in_order() {
    assert!(autodetect_in(&[false; 4], || None).is_none());
    let llm = [false, false, false, true];
    assert_eq!(autodetect_in(&llm, || None).unwrap().command, "llm");
    let ollama = [false, false, true, true];
    // ollama without a model is skipped, with one it wins over llm.
    assert_eq!(autodetect_in(&ollama, || None).unwrap().command, "llm");
    assert_eq!(
        autodetect_in(&ollama, || Some("qwen2.5-coder".into())).unwrap().command,
        "ollama run qwen2.5-coder"
    );
    let codex = [true, false, true, true];
    let t = autodetect_in(&codex, || panic!("model asked for")).unwrap();
    assert_eq!(t.command, "codex exec -");
    assert_eq!(t.source, "autodetect");
}

#[test]
fn ollama_list_first_model() {
    let text = "NAME                ID              SIZE      MODIFIED\nqwen2.5-coder:7b    abc123          4.7 GB    2 days ago\nllama3:8b  def  4 GB  1 week ago\n";
    assert_eq!(parse_ollama_list(text).as_deref(), Some("qwen2.5-coder:7b"));
    assert_eq!(parse_ollama_list("NAME ID SIZE MODIFIED\n"), None);
    assert_eq!(parse_ollama_list(""), None);
}

#[test]
fn prompt_fills_placeholders() {
    let p = build_prompt(None, "DIFF", "main", &["one".into(), "two".into()]);
    assert!(p.contains("Branch: main\n"));
    assert!(p.contains("- one\n- two\n"));
    assert!(p.ends_with("Staged diff:\nDIFF\n"));
    let p = build_prompt(Some("b={branch}\\nr={recent}\\nd={diff}"), "D", "", &[]);
    assert_eq!(p, "b=(detached HEAD)\nr=(none)\nd=D");
    assert!(build_prompt(Some("  "), "D", "x", &[]).contains("Branch: x"));
}

const DIFF: &str = "diff --git a/src/a.rs b/src/a.rs\n--- a/src/a.rs\n+++ b/src/a.rs\n@@ -1 +1 @@\n-old\n+new\ndiff --git a/Cargo.lock b/Cargo.lock\n--- a/Cargo.lock\n+++ b/Cargo.lock\n@@ -1 +1 @@\n-x\n+y\ndiff --git a/src/b.rs b/src/b.rs\n--- a/src/b.rs\n+++ b/src/b.rs\n@@ -1 +1 @@\n-b\n+c\n";

#[test]
fn truncation_keeps_headers_and_drops_lock_files() {
    let full = truncate_diff(DIFF, 100_000);
    assert!(full.contains("+new\n"));
    assert!(full.contains("diff --git a/Cargo.lock b/Cargo.lock\n(lock file, content omitted)\n"));
    assert!(!full.contains("+y\n"));
    assert!(full.contains("+c\n"));
    let cut = truncate_diff(DIFF, 70);
    assert!(cut.contains("diff --git a/src/a.rs b/src/a.rs\n"));
    assert!(cut.contains("(... truncated)\n"));
    assert!(cut.contains("diff --git a/src/b.rs b/src/b.rs\n(content omitted)\n"));
    assert!(!cut.contains("+c\n"));
    assert_eq!(truncate_diff("", 10), "");
}

#[test]
fn truncation_counts_bytes_not_chars() {
    // "é" is two bytes: the line needs 3 bytes with its newline.
    assert_eq!(truncate_diff("é\n", 3), "é\n");
    assert_eq!(truncate_diff("é\n", 2), "(... truncated)\n");
}

#[test]
fn output_is_cleaned() {
    assert_eq!(clean_output("```\nfix: thing\n\nbody\n```\n"), "fix: thing\n\nbody");
    assert_eq!(clean_output("Commit message:\n\nAdd tests\n"), "Add tests");
    assert_eq!(clean_output("Commit message: Add tests"), "Add tests");
    assert_eq!(clean_output("\"Add tests\"\n"), "Add tests");
    assert_eq!(clean_output("Subject\nbody line\n"), "Subject\n\nbody line");
    assert_eq!(clean_output("Subject\n\n\n\nbody\n"), "Subject\n\nbody");
    assert_eq!(clean_output("  \n\n"), "");
}

#[test]
fn here_is_preamble_and_backticks() {
    assert_eq!(clean_output("Here is the message: Fix bug"), "Fix bug");
    assert_eq!(clean_output("`Fix bug`"), "Fix bug");
    assert_eq!(clean_output("'x'"), "x");
}

#[test]
fn lock_files_by_name() {
    assert!(is_lockfile("Cargo.lock"));
    assert!(is_lockfile("web/package-lock.json"));
    assert!(is_lockfile("a/b/custom.lock"));
    assert!(is_lockfile("bun.lockb"));
    assert!(!is_lockfile("src/lock.rs"));
    assert!(!is_lockfile("Cargo.lock/readme"));
}

#[test]
fn first_word_of_command() {
    assert_eq!(first_word("codex exec -"), "codex");
    assert_eq!(first_word("  llm  "), "llm");
    assert_eq!(first_word("   "), "   ");
}

#[test]
fn answers_of_finished_runs() {
    // `cat` echoing the prompt back.
    assert_eq!(answer_of("cat", true, "exit status: 0", b"Add a thing\n", b""), Ok("Add a thing".to_owned()));
    // `echo boom >&2; exit 3`
    assert_eq!(
        answer_of("echo boom >&2; exit 3", false, "exit status: 3", b"", b"boom\n"),
        Err("echo: boom".to_owned())
    );
    assert_eq!(answer_of("true", true, "exit status: 0", b"", b""), Err("true printed nothing".to_owned()));
    assert_eq!(
        answer_of("  llm -m x", false, "exit status: 1", b"  \n", b"\n"),
        Err("llm failed (exit status: 1)".to_owned())
    );
    assert_eq!(
        answer_of("tool", false, "exit status: 2", b"msg", b"first\n  last one  \r\n\n   \n"),
        Err("tool: last one".to_owned())
    );
}

#[test]
fn timeouts_name_the_tool() {
    assert_eq!(timeout_message("sleep 5", 60), "sleep gave no answer within 60 s");
    assert_eq!(timeout_message("", 1), " gave no answer within 1 s");
}

#[test]
fn a_diff_within_budget_comes_back_whole() {
    let diff = "diff --git a/src/x.rs b/src/x.rs\n--- a/src/x.rs\n+++ b/src/x.rs\n@@ -1 +1 @@\n-a\n+b";
    let whole: String = diff.lines().map(|l| format!("{l}\n")).collect();
    assert_eq!(truncate_diff(diff, whole.len()), whole);
}
