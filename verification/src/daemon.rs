//! The watch/debounce loop's decisions, as a pure state machine.
//!
//! The long-lived process hands each settled event batch, each fallback
//! timeout and the channel-closed condition to `step`, which decides
//! whether to drain the mailbox, takes the new registry snapshot, computes
//! the delta against the previous one, and composes the message for the
//! agent. The caller performs the actions: deleting consumed mailbox
//! entries and invoking the agent with the composed message.

use vstd::prelude::*;

use crate::mailbox::MailEntry;
use crate::mailbox::drain_spec;
use crate::mailbox::entry_views;
use crate::mailbox::view_opt;
use crate::registry::delta_spec;
use crate::registry::snapshot_spec;
use crate::text::contains_seq;
use crate::text::has_suffix;
use crate::text::views_of;

verus! {

// ---------------------------------------------------------------------------
// Messages
// ---------------------------------------------------------------------------
/// The fixed instruction of a full rescan: what the startup scan, the
/// periodic fallback and the one-shot scan command hand to the agent.
pub open spec fn rescan_message() -> Seq<char> {
    "Scan ~/tasks/ and tmux sessions. For any unstarted task without a worker, spin up an interactive tmux worker session. Update task files with status. Report what you did."@
}

/// The full-rescan instruction, the message of the unconditional
/// orchestrator run.
pub fn run_orchestrator() -> (m: String)
    ensures
        m@ == rescan_message(),
{
    String::from_str(
        "Scan ~/tasks/ and tmux sessions. For any unstarted task without a worker, spin up an interactive tmux worker session. Update task files with status. Report what you did.",
    )
}

/// The prompt handed to the agent: the operator system prompt, a
/// separator, then the message.
pub fn compose_prompt(system_prompt: &str, message: &str) -> (r: String)
    ensures
        r@ == system_prompt@ + "\n\n---\n\n"@ + message@,
{
    let mut r = String::from_str(system_prompt);
    r.append("\n\n---\n\n");
    r.append(message);
    r
}

/// The operator-message segment of a composed message.
pub open spec fn operator_segment(drained: Option<Seq<char>>) -> Seq<char> {
    match drained {
        Option::Some(d) => "Operator message:\n"@ + d + "\n"@,
        Option::None => Seq::empty(),
    }
}

/// One tagged segment per newly appeared task, in order.
pub open spec fn delta_segments(fresh: Seq<Seq<char>>) -> Seq<char>
    decreases fresh.len(),
{
    if fresh.len() == 0 {
        Seq::empty()
    } else {
        "New task appeared: "@ + fresh[0] + "\n"@ + delta_segments(fresh.skip(1))
    }
}

/// The message composed for one settled batch: the drained operator
/// messages, then one segment per newly appeared task.
pub open spec fn batch_message(drained: Option<Seq<char>>, fresh: Seq<Seq<char>>) -> Seq<char> {
    operator_segment(drained) + delta_segments(fresh)
}

/// What a batch step invokes the agent with: the composed message, or
/// nothing when there is neither a drained message nor a new task.
pub open spec fn step_invoke(drained: Option<Seq<char>>, fresh: Seq<Seq<char>>) -> Option<
    Seq<char>,
> {
    if drained is None && fresh.len() == 0 {
        Option::None
    } else {
        Option::Some(batch_message(drained, fresh))
    }
}

/// Compose the agent message for one batch from the drained mailbox and
/// the newly appeared task names.
pub fn compose_batch(drained: &Option<String>, fresh: &Vec<String>) -> (r: Option<String>)
    ensures
        view_opt(r) == step_invoke(view_opt(*drained), views_of(fresh@)),
{
    let n: usize = fresh.len();
    let mut msg = String::new();
    let mut any = false;
    match drained {
        Option::Some(d) => {
            msg.append("Operator message:\n");
            msg.append(d.as_str());
            msg.append("\n");
            any = true;
        },
        Option::None => {},
    }
    proof {
        assert(msg@ == operator_segment(view_opt(*drained)));
        assert(any == (view_opt(*drained) is Some));
        assert(views_of(fresh@).skip(0) =~= views_of(fresh@));
        assert(msg@ + delta_segments(views_of(fresh@).skip(0)) =~= operator_segment(
            view_opt(*drained),
        ) + delta_segments(views_of(fresh@)));
    }
    let mut i: usize = 0;
    while i < n
        invariant
            0 <= i <= n,
            n == fresh@.len(),
            any == ((view_opt(*drained) is Some) || i > 0),
            msg@ + delta_segments(views_of(fresh@).skip(i as int)) =~= batch_message(
                view_opt(*drained),
                views_of(fresh@),
            ),
        decreases n - i,
    {
        proof {
            assert(views_of(fresh@).skip(i as int)[0] == views_of(fresh@)[i as int]);
            assert(views_of(fresh@).skip(i as int).skip(1) =~= views_of(fresh@).skip(
                i as int + 1,
            ));
        }
        let ghost before = msg@;
        msg.append("New task appeared: ");
        msg.append(fresh[i].as_str());
        msg.append("\n");
        proof {
            assert(msg@ + delta_segments(views_of(fresh@).skip(i as int + 1)) =~= before
                + delta_segments(views_of(fresh@).skip(i as int)));
        }
        any = true;
        i += 1;
    }
    proof {
        assert(delta_segments(views_of(fresh@).skip(n as int)) =~= Seq::<char>::empty());
        assert(msg@ + Seq::<char>::empty() =~= msg@);
    }
    if any {
        Some(msg)
    } else {
        None
    }
}

// ---------------------------------------------------------------------------
// The loop state machine
// ---------------------------------------------------------------------------
/// The loop's only state: the registry snapshot of the previous cycle.
pub struct DaemonState {
    pub prev: Vec<String>,
}

/// What the loop receives on one cycle.
pub enum LoopEvent {
    /// A settled batch of filesystem events: the paths the events touched,
    /// the mailbox entries now on disk, and the directory listing now
    /// current.
    Batch { paths: Vec<String>, mail: Vec<MailEntry>, listing: Vec<String> },
    /// No batch arrived within the fallback window.
    Timeout,
    /// The notification channel is permanently closed.
    Closed,
}

/// What the caller must do after a step.
pub struct LoopAction {
    /// The message to invoke the agent with, if any.
    pub invoke: Option<String>,
    /// Whether the mailbox entries handed to this step were consumed and
    /// must be deleted.
    pub purge_mailbox: bool,
    /// Whether the daemon shuts down.
    pub exit: bool,
}

/// Whether a path lies in the mailbox directory.
pub open spec fn mailbox_path(p: Seq<char>) -> bool {
    contains_seq(p, "/inbox/"@) || has_suffix(p, "/inbox"@)
}

/// Whether any path of the batch touches the mailbox directory.
pub open spec fn touches_mailbox(paths: Seq<Seq<char>>) -> bool {
    exists|i: int| 0 <= i < paths.len() && mailbox_path(#[trigger] paths[i])
}

/// Whether this batch requires a mailbox drain.
pub fn batch_touches_mailbox(paths: &Vec<String>) -> (r: bool)
    ensures
        r == touches_mailbox(views_of(paths@)),
{
    let n: usize = paths.len();
    let sep = crate::text::chars_of("/inbox/");
    let mut i: usize = 0;
    while i < n
        invariant
            0 <= i <= n,
            n == paths@.len(),
            sep@ == "/inbox/"@,
            forall|j: int| 0 <= j < i ==> !mailbox_path(#[trigger] views_of(paths@)[j]),
        decreases n - i,
    {
        let pc = crate::text::chars_of(paths[i].as_str());
        if crate::text::contains_chars(&pc, &sep) {
            proof {
                assert(mailbox_path(views_of(paths@)[i as int]));
            }
            return true;
        }
        if crate::text::ends_with_str(paths[i].as_str(), "/inbox") {
            proof {
                assert(mailbox_path(views_of(paths@)[i as int]));
            }
            return true;
        }
        i += 1;
    }
    false
}

/// One transition of the watch/debounce loop.
///
/// On a settled batch: drain the mailbox if the batch touched it, take the
/// new snapshot, replace the stored one, and invoke the agent with the
/// composed message when there is one. On a timeout: invoke the agent with
/// the fixed full-rescan instruction, touching nothing. On a closed
/// channel: shut down.
pub fn step(state: &mut DaemonState, event: LoopEvent) -> (act: LoopAction)
    ensures
        match event {
            LoopEvent::Batch { paths, mail, listing } => {
                &&& !act.exit
                &&& act.purge_mailbox == touches_mailbox(views_of(paths@))
                &&& views_of(final(state).prev@) == snapshot_spec(views_of(listing@))
                &&& view_opt(act.invoke) == step_invoke(
                    if touches_mailbox(views_of(paths@)) {
                        drain_spec(entry_views(mail@))
                    } else {
                        Option::None
                    },
                    delta_spec(
                        views_of(old(state).prev@),
                        snapshot_spec(views_of(listing@)),
                    ),
                )
            },
            LoopEvent::Timeout => {
                &&& !act.exit
                &&& !act.purge_mailbox
                &&& view_opt(act.invoke) == Option::Some(rescan_message())
                &&& final(state).prev@ == old(state).prev@
            },
            LoopEvent::Closed => {
                &&& act.exit
                &&& !act.purge_mailbox
                &&& act.invoke is None
                &&& final(state).prev@ == old(state).prev@
            },
        },
{
    match event {
        LoopEvent::Batch { paths, mail, listing } => {
            let touched = batch_touches_mailbox(&paths);
            let drained = if touched {
                crate::mailbox::drain_entries(mail)
            } else {
                None
            };
            let snap = crate::registry::snapshot(&listing);
            let fresh = crate::registry::delta(&state.prev, &snap);
            let invoke = compose_batch(&drained, &fresh);
            state.prev = snap;
            LoopAction { invoke, purge_mailbox: touched, exit: false }
        },
        LoopEvent::Timeout => LoopAction {
            invoke: Some(run_orchestrator()),
            purge_mailbox: false,
            exit: false,
        },
        LoopEvent::Closed => LoopAction { invoke: None, purge_mailbox: false, exit: true },
    }
}

/// What the startup invocation says: any pre-existing operator messages,
/// folded into the full-rescan instruction.
pub open spec fn startup_message_spec(drained: Option<Seq<char>>) -> Seq<char> {
    operator_segment(drained) + rescan_message()
}

/// The startup cycle: drain whatever the mailbox already holds, fold it
/// into a full-rescan message, and take the first snapshot. The caller
/// deletes the consumed mailbox entries and invokes the agent with the
/// returned message.
pub fn startup(mail: Vec<MailEntry>, listing: &Vec<String>) -> (r: (DaemonState, String))
    ensures
        views_of(r.0.prev@) == snapshot_spec(views_of(listing@)),
        r.1@ == startup_message_spec(drain_spec(entry_views(mail@))),
{
    let drained = crate::mailbox::drain_entries(mail);
    let mut msg = String::new();
    match &drained {
        Option::Some(d) => {
            msg.append("Operator message:\n");
            msg.append(d.as_str());
            msg.append("\n");
        },
        Option::None => {},
    }
    let rescan = run_orchestrator();
    msg.append(rescan.as_str());
    let snap = crate::registry::snapshot(listing);
    (DaemonState { prev: snap }, msg)
}

} // verus!
