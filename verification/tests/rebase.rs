use gitgui::git::rebase::{commit_message_text, rewrite_todo, shell_quote, TodoAction};

const TODO: &str = "pick aaaaaaa first\npick bbbbbbb second\npick ccccccc third\n\n# Rebase 1234..ccccccc onto 1234 (3 commands)\n#\n# Commands:\n# p, pick <commit> = use commit\n";

#[test]
fn drop_squash_fixup_reword() {
    let out = rewrite_todo(TODO, "bbbbbbb1234", TodoAction::Drop).unwrap();
    assert!(out.starts_with("pick aaaaaaa first\ndrop bbbbbbb second\npick ccccccc third\n"));
    assert!(out.contains("# Commands:"), "comments kept");
    let out = rewrite_todo(TODO, "ccc", TodoAction::Squash).unwrap();
    assert!(out.contains("\nsquash ccccccc third\n"));
    let out = rewrite_todo(TODO, "ccccccc", TodoAction::Fixup).unwrap();
    assert!(out.contains("\nfixup ccccccc third\n"));
    let out = rewrite_todo(TODO, "aaaaaaa", TodoAction::Reword).unwrap();
    assert!(out.starts_with("reword aaaaaaa first\n"));
    let out = rewrite_todo(TODO, "aaaaaaa", TodoAction::Edit).unwrap();
    assert!(out.starts_with("edit aaaaaaa first\n"));
}

#[test]
fn squash_needs_an_older_commit() {
    assert!(rewrite_todo(TODO, "aaaaaaa", TodoAction::Squash).is_err());
    assert!(rewrite_todo(TODO, "aaaaaaa", TodoAction::Fixup).is_err());
    assert!(rewrite_todo(TODO, "ddddddd", TodoAction::Drop).is_err());
}

#[test]
fn move_up_and_down() {
    let out = rewrite_todo(TODO, "bbbbbbb", TodoAction::MoveUp).unwrap();
    assert!(out.starts_with("pick aaaaaaa first\npick ccccccc third\npick bbbbbbb second\n"));
    let out = rewrite_todo(TODO, "bbbbbbb", TodoAction::MoveDown).unwrap();
    assert!(out.starts_with("pick bbbbbbb second\npick aaaaaaa first\npick ccccccc third\n"));
    assert!(rewrite_todo(TODO, "ccccccc", TodoAction::MoveUp).is_err());
    assert!(rewrite_todo(TODO, "aaaaaaa", TodoAction::MoveDown).is_err());
}

#[test]
fn keep_leaves_todo_alone() {
    assert_eq!(rewrite_todo(TODO, "zzz", TodoAction::Keep).unwrap(), TODO);
}

#[test]
fn short_verbs_and_full_oids_match() {
    let todo = "p 0123456 msg\np 89abcde other\n";
    let out = rewrite_todo(
        todo,
        "0123456789abcdef0123456789abcdef01234567",
        TodoAction::Drop,
    )
    .unwrap();
    assert_eq!(out, "drop 0123456 msg\np 89abcde other\n");
}

#[test]
fn quoting() {
    assert_eq!(shell_quote("/usr/bin/gitgui"), "'/usr/bin/gitgui'");
    assert_eq!(shell_quote("/a b/it's"), "'/a b/it'\\''s'");
    assert_eq!(TodoAction::parse("move-up"), Some(TodoAction::MoveUp));
    assert_eq!(TodoAction::Squash.as_str(), "squash");
}

#[test]
fn error_messages() {
    assert_eq!(
        rewrite_todo(TODO, "ddddddd", TodoAction::Drop).unwrap_err(),
        "commit ddddddd is not in the rebase todo"
    );
    assert_eq!(
        rewrite_todo(TODO, "aaaaaaa", TodoAction::Squash).unwrap_err(),
        "nothing below to squash into"
    );
    assert_eq!(
        rewrite_todo(TODO, "aaaaaaa", TodoAction::Fixup).unwrap_err(),
        "nothing below to fix up into"
    );
    assert_eq!(
        rewrite_todo(TODO, "ccccccc", TodoAction::MoveUp).unwrap_err(),
        "already the newest commit"
    );
    assert_eq!(
        rewrite_todo(TODO, "aaaaaaa", TodoAction::MoveDown).unwrap_err(),
        "already the oldest commit"
    );
}

#[test]
fn uppercase_oid_and_crlf_lines() {
    let todo = "pick ABCDEF0 one\r\npick 1234567 two\r\n";
    let out = rewrite_todo(todo, "abcdef0", TodoAction::Reword).unwrap();
    assert_eq!(out, "reword ABCDEF0 one\npick 1234567 two\n");
}

#[test]
fn move_up_then_down_restores_order() {
    let up = rewrite_todo(TODO, "aaaaaaa", TodoAction::MoveUp).unwrap();
    let back = rewrite_todo(&up, "aaaaaaa", TodoAction::MoveDown).unwrap();
    assert_eq!(back, TODO.trim_end_matches('\n').to_owned() + "\n");
}

#[test]
fn every_action_parses_back_from_its_name() {
    for a in [
        TodoAction::Drop,
        TodoAction::Squash,
        TodoAction::Fixup,
        TodoAction::Reword,
        TodoAction::Edit,
        TodoAction::MoveUp,
        TodoAction::MoveDown,
        TodoAction::Keep,
    ] {
        assert_eq!(TodoAction::parse(a.as_str()), Some(a));
    }
    assert_eq!(TodoAction::parse("pick"), None);
}

#[test]
fn commit_editor_message() {
    assert_eq!(commit_message_text("new message\n\nbody"), "new message\n\nbody\n");
    assert_eq!(commit_message_text("subject  \n\n"), "subject\n");
}

#[test]
fn move_up_then_down_restores_the_todo() {
    for oid in ["aaaaaaa", "bbbbbbb"] {
        let up = rewrite_todo(TODO, oid, TodoAction::MoveUp).unwrap();
        assert_ne!(up, TODO);
        assert_eq!(rewrite_todo(&up, oid, TodoAction::MoveDown).unwrap(), TODO);
    }
    for oid in ["bbbbbbb", "ccccccc"] {
        let down = rewrite_todo(TODO, oid, TodoAction::MoveDown).unwrap();
        assert_eq!(rewrite_todo(&down, oid, TodoAction::MoveUp).unwrap(), TODO);
    }
}
