use gitgui::agent::{plan_agent, select_lowered, select_target, AgentCmd, AgentPlan, Selection};
use gitgui::git::ops::Command;
use gitgui::git::repo::{short_id, CommitRow, Oid};

fn commit(first: u8, summary: &str) -> CommitRow {
    let mut bytes = [0u8; 20];
    bytes[0] = first;
    bytes[19] = 0x5a;
    let oid = Oid { bytes };
    CommitRow {
        oid,
        short: short_id(oid),
        parents: Vec::new(),
        summary: summary.into(),
        body: String::new(),
        author: String::new(),
        email: String::new(),
        time: 0,
        refs: Vec::new(),
    }
}

#[test]
fn select_by_short_oid() {
    let commits = vec![commit(0xc3, "hello world")];
    let oid = commits[0].short.clone();
    assert_eq!(select_target(&oid, &commits), Ok(Selection::Commit(0)));
}

#[test]
fn select_trims_lowers_and_names_the_working_tree() {
    let commits = vec![commit(0x11, "one"), commit(0xab, "two")];
    assert_eq!(select_target("  AB00 ", &commits), Ok(Selection::Commit(1)));
    assert_eq!(select_target("WorkTree", &commits), Ok(Selection::WorkingTree));
    assert_eq!(select_target("working-tree", &commits), Ok(Selection::WorkingTree));
    assert_eq!(select_target("   ", &commits), Err("oid is empty".to_owned()));
    assert_eq!(select_target("ff", &commits), Err("no commit matching ff".to_owned()));
    // The full id matches beyond the short one.
    assert_eq!(select_target("ab000000000000000000000000000000000000", &commits), Ok(Selection::Commit(1)));
    assert_eq!(select_target("ab00000000000000000000000000000000000060", &commits).is_err(), true);
}

#[test]
fn select_lowered_takes_the_first_match() {
    let commits = vec![commit(0x11, "one"), commit(0x11, "again")];
    let shorts: Vec<String> = commits.iter().map(|c| c.short.clone()).collect();
    assert_eq!(select_lowered("11", &shorts, &commits), Ok(Selection::Commit(0)));
    assert_eq!(select_lowered("", &shorts, &commits), Err("oid is empty".to_owned()));
    assert_eq!(select_lowered("zz", &shorts, &commits), Err("no commit matching zz".to_owned()));
}

#[test]
fn agent_requests_are_planned() {
    assert_eq!(plan_agent(AgentCmd::Status), AgentPlan::Status);
    assert_eq!(plan_agent(AgentCmd::Stage { paths: vec![] }), AgentPlan::Reject("paths is empty"));
    assert_eq!(
        plan_agent(AgentCmd::Stage { paths: vec!["a.rs".into()] }),
        AgentPlan::Run { command: Command::Stage(vec!["a.rs".into()]), queued: "stage" }
    );
    assert_eq!(plan_agent(AgentCmd::Commit { message: " \n".into() }), AgentPlan::Reject("message is empty"));
    assert_eq!(
        plan_agent(AgentCmd::CommitAndPush { message: "fix".into(), amend: true }),
        AgentPlan::Run {
            command: Command::CommitAndPush { message: "fix".into(), amend: true },
            queued: "commit_and_push"
        }
    );
    assert_eq!(plan_agent(AgentCmd::Push), AgentPlan::Run { command: Command::Push, queued: "push" });
    assert_eq!(plan_agent(AgentCmd::Screenshot { path: "/tmp/x.png".into() }), AgentPlan::Screenshot("/tmp/x.png".into()));
    assert_eq!(plan_agent(AgentCmd::List), AgentPlan::List);
}
