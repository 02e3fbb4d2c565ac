use orch::daemon::{
    batch_touches_mailbox, compose_prompt, run_orchestrator, startup, step, DaemonState, LoopEvent,
};
use orch::mailbox::MailEntry;

fn strings(v: &[&str]) -> Vec<String> {
    v.iter().map(|s| String::from(*s)).collect()
}

fn entry(name: &str, body: &str) -> MailEntry {
    MailEntry { name: name.chars().collect(), body: String::from(body) }
}

#[test]
fn new_task_is_tagged_in_the_composed_message() {
    let mut state = DaemonState { prev: strings(&["a.md"]) };
    let act = step(
        &mut state,
        LoopEvent::Batch {
            paths: strings(&["/root/tasks/b.md"]),
            mail: Vec::new(),
            listing: strings(&["a.md", "b.md"]),
        },
    );
    assert!(!act.exit);
    assert!(!act.purge_mailbox);
    let msg = act.invoke.expect("a new task must trigger an invocation");
    assert!(msg.contains("New task appeared: b.md"));
    assert_eq!(state.prev, strings(&["a.md", "b.md"]));
}

#[test]
fn quiet_batch_invokes_nothing() {
    let mut state = DaemonState { prev: strings(&["a.md"]) };
    let act = step(
        &mut state,
        LoopEvent::Batch {
            paths: strings(&["/root/tasks/a.md"]),
            mail: Vec::new(),
            listing: strings(&["a.md"]),
        },
    );
    assert_eq!(act.invoke, None);
    assert!(!act.purge_mailbox);
    assert!(!act.exit);
}

#[test]
fn mailbox_batch_drains_and_purges() {
    let mut state = DaemonState { prev: strings(&["a.md"]) };
    let act = step(
        &mut state,
        LoopEvent::Batch {
            paths: strings(&["/root/tasks/inbox/00000000000000000000"]),
            mail: vec![entry("00000000000000000000", "close task x")],
            listing: strings(&["a.md"]),
        },
    );
    assert!(act.purge_mailbox);
    let msg = act.invoke.expect("a drained message must trigger an invocation");
    assert_eq!(msg, "Operator message:\nclose task x\n");
}

#[test]
fn untouched_mailbox_is_not_drained() {
    let mut state = DaemonState { prev: strings(&[]) };
    let act = step(
        &mut state,
        LoopEvent::Batch {
            paths: strings(&["/root/tasks/a.md"]),
            mail: vec![entry("00000000000000000000", "left for later")],
            listing: strings(&["a.md"]),
        },
    );
    assert!(!act.purge_mailbox);
    let msg = act.invoke.expect("the new task must trigger an invocation");
    assert!(!msg.contains("left for later"));
    assert!(msg.contains("New task appeared: a.md"));
}

#[test]
fn timeout_runs_exactly_the_full_rescan() {
    let mut state = DaemonState { prev: strings(&["a.md"]) };
    let act = step(&mut state, LoopEvent::Timeout);
    assert!(!act.exit);
    assert!(!act.purge_mailbox);
    let msg = act.invoke.expect("a timeout must trigger the fallback invocation");
    assert_eq!(msg, run_orchestrator());
    assert!(!msg.contains("New task appeared:"));
    assert!(!msg.contains("Operator message:"));
    assert_eq!(state.prev, strings(&["a.md"]));
}

#[test]
fn closed_channel_exits_without_invoking() {
    let mut state = DaemonState { prev: strings(&[]) };
    let act = step(&mut state, LoopEvent::Closed);
    assert!(act.exit);
    assert_eq!(act.invoke, None);
    assert!(!act.purge_mailbox);
}

#[test]
fn batch_and_mailbox_segments_come_in_order() {
    let mut state = DaemonState { prev: strings(&[]) };
    let act = step(
        &mut state,
        LoopEvent::Batch {
            paths: strings(&["/root/tasks/inbox/m"]),
            mail: vec![entry("00000000000000000000", "note")],
            listing: strings(&["t.md"]),
        },
    );
    assert_eq!(
        act.invoke,
        Some(String::from("Operator message:\nnote\nNew task appeared: t.md\n"))
    );
}

#[test]
fn mailbox_paths_are_recognized() {
    assert!(batch_touches_mailbox(&strings(&["/root/tasks/inbox/000"])));
    assert!(batch_touches_mailbox(&strings(&["/root/tasks/inbox"])));
    assert!(!batch_touches_mailbox(&strings(&["/root/tasks/a.md"])));
    assert!(!batch_touches_mailbox(&strings(&[])));
}

#[test]
fn startup_folds_pending_mail_into_the_rescan() {
    let (state, msg) = startup(
        vec![entry("00000000000000000000", "old note")],
        &strings(&["a.md", "junk.txt"]),
    );
    assert_eq!(state.prev, strings(&["a.md"]));
    assert_eq!(msg, format!("Operator message:\nold note\n{}", run_orchestrator()));
}

#[test]
fn startup_without_mail_is_the_bare_rescan() {
    let (state, msg) = startup(Vec::new(), &strings(&[]));
    assert!(state.prev.is_empty());
    assert_eq!(msg, run_orchestrator());
}

#[test]
fn prompt_is_system_prompt_separator_message() {
    assert_eq!(compose_prompt("SYSTEM", "do it"), "SYSTEM\n\n---\n\ndo it");
}

#[test]
fn rescan_message_is_the_fixed_instruction() {
    assert_eq!(
        run_orchestrator(),
        "Scan ~/tasks/ and tmux sessions. For any unstarted task without a worker, spin up an \
         interactive tmux worker session. Update task files with status. Report what you did."
    );
}
