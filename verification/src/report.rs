//! Pieces of the one-shot reports: task ids, the worker column of the
//! status report, the worker-session listing filter, and the session name
//! a jump command attaches to.

use vstd::prelude::*;

use crate::registry::is_task_name;
use crate::text::has_prefix;
use crate::text::split_lines_spec;
use crate::text::views_of;

verus! {

/// The task id of a filename: the name without its `.md` extension, or
/// the name itself when it does not name a task document.
pub open spec fn task_id_spec(n: Seq<char>) -> Seq<char> {
    if is_task_name(n) {
        n.take(n.len() - ".md"@.len())
    } else {
        n
    }
}

/// The task id of a task filename.
pub fn task_id_of(name: &String) -> (r: String)
    ensures
        r@ == task_id_spec(name@),
{
    proof {
        reveal_strlit(".md");
    }
    if crate::registry::is_task_file(name) {
        let len: usize = name.as_str().unicode_len();
        String::from_str(name.as_str().substring_char(0, len - 3))
    } else {
        name.clone()
    }
}

/// The worker column of the status report: `running (<session>)` when the
/// session exists, `none` otherwise.
pub fn worker_desc(has_session: bool, session: &String) -> (r: String)
    ensures
        r@ == if has_session {
            "running ("@ + session@ + ")"@
        } else {
            "none"@
        },
{
    if has_session {
        let mut r = String::from_str("running (");
        r.append(session.as_str());
        r.append(")");
        r
    } else {
        String::from_str("none")
    }
}

/// The lines of a session-manager listing that name worker sessions.
pub open spec fn worker_lines_spec(lines: Seq<Seq<char>>) -> Seq<Seq<char>> {
    lines.filter(|l: Seq<char>| has_prefix(l, "task-"@))
}

proof fn lemma_worker_lines_push(ls: Seq<Seq<char>>, l: Seq<char>)
    ensures
        worker_lines_spec(ls.push(l)) == if has_prefix(l, "task-"@) {
            worker_lines_spec(ls).push(l)
        } else {
            worker_lines_spec(ls)
        },
{
    reveal(Seq::filter);
    assert(ls.push(l).drop_last() =~= ls);
    assert(ls.push(l).last() == l);
}

/// The worker sessions in a session-manager listing: its lines that start
/// with the worker prefix.
pub fn worker_lines(listing: &str) -> (r: Vec<String>)
    ensures
        views_of(r@) == worker_lines_spec(split_lines_spec(listing@)),
{
    let lines = crate::text::split_lines(listing);
    let ghost lv = views_of(lines@);
    let n: usize = lines.len();
    let mut out: Vec<String> = Vec::new();
    let mut i: usize = 0;
    proof {
        reveal(Seq::filter);
        assert(lv.take(0) =~= Seq::<Seq<char>>::empty());
        assert(views_of(out@) =~= Seq::<Seq<char>>::empty());
    }
    while i < n
        invariant
            0 <= i <= n,
            n == lines@.len(),
            lv == views_of(lines@),
            worker_lines_spec(split_lines_spec(listing@)) == worker_lines_spec(lv),
            views_of(out@) == worker_lines_spec(lv.take(i as int)),
        decreases n - i,
    {
        let ghost pre = lv.take(i as int);
        proof {
            assert(lv.take(i as int + 1) =~= pre.push(lv[i as int]));
            lemma_worker_lines_push(pre, lv[i as int]);
        }
        if crate::text::starts_with_str(lines[i].as_str(), "task-") {
            out.push(lines[i].clone());
            proof {
                assert(views_of(out@) =~= worker_lines_spec(pre).push(lv[i as int]));
            }
        }
        i += 1;
    }
    proof {
        assert(lv.take(n as int) =~= lv);
    }
    out
}

/// The session a jump command attaches to: the given name when it already
/// carries the worker prefix, else the prefix prepended.
pub fn jump_session_name(name: &str) -> (r: String)
    ensures
        r@ == if has_prefix(name@, "task-"@) {
            name@
        } else {
            "task-"@ + name@
        },
{
    if crate::text::starts_with_str(name, "task-") {
        String::from_str(name)
    } else {
        let mut r = String::from_str("task-");
        r.append(name);
        r
    }
}

} // verus!
