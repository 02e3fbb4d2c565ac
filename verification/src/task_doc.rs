//! Reading task documents: ad-hoc `## ` sections, the inline
//! backtick-quoted session-name marker, the status line, and the
//! needs-attention tests used by the inbox report.
//!
//! A task document is plain text. A section heading is a line starting
//! with `## `; a section's content is every non-blank line after its
//! heading up to the next heading or the end of the document.

use vstd::prelude::*;

use crate::text::contains_seq;
use crate::text::first_at;
use crate::text::has_prefix;
use crate::text::is_blank;
use crate::text::lower_seq;
use crate::text::split_lines_spec;
use crate::text::trim_spec;
use crate::text::views_of;

verus! {

// ---------------------------------------------------------------------------
// Sections
// ---------------------------------------------------------------------------
/// The heading line that introduces the section titled `title`.
pub open spec fn heading_line(title: Seq<char>) -> Seq<char> {
    "## "@ + title
}

/// A line that introduces some section.
pub open spec fn is_heading(l: Seq<char>) -> bool {
    has_prefix(l, "## "@)
}

/// The non-blank lines from the start of `lines` up to the first heading.
pub open spec fn section_body(lines: Seq<Seq<char>>) -> Seq<Seq<char>>
    decreases lines.len(),
{
    if lines.len() == 0 {
        Seq::empty()
    } else if is_heading(lines[0]) {
        Seq::empty()
    } else if is_blank(lines[0]) {
        section_body(lines.skip(1))
    } else {
        seq![lines[0]] + section_body(lines.skip(1))
    }
}

/// The body of the first section titled `title`, or empty when there is
/// none.
pub open spec fn section_after(lines: Seq<Seq<char>>, title: Seq<char>) -> Seq<Seq<char>>
    decreases lines.len(),
{
    if lines.len() == 0 {
        Seq::empty()
    } else if lines[0] == heading_line(title) {
        section_body(lines.skip(1))
    } else {
        section_after(lines.skip(1), title)
    }
}

/// The content of the section titled `title` in the document `doc`: every
/// non-blank line after the heading `## <title>`, up to the next heading
/// or the end.
pub open spec fn section_spec(doc: Seq<char>, title: Seq<char>) -> Seq<Seq<char>> {
    section_after(split_lines_spec(doc), title)
}

/// Extract the content lines of the section titled `title`.
pub fn extract_section(doc: &str, title: &str) -> (r: Vec<String>)
    ensures
        views_of(r@) == section_spec(doc@, title@),
{
    let lines = crate::text::split_lines(doc);
    let ghost lv = views_of(lines@);
    let n: usize = lines.len();
    let mut heading = String::from_str("## ");
    heading.append(title);
    let mut i: usize = 0;
    proof {
        assert(lv.skip(0) =~= lv);
    }
    while i < n
        invariant
            0 <= i <= n,
            n == lines@.len(),
            lv == views_of(lines@),
            heading@ == heading_line(title@),
            section_spec(doc@, title@) == section_after(lv.skip(i as int), title@),
        decreases n - i,
    {
        proof {
            assert(lv.skip(i as int)[0] == lv[i as int]);
            assert(lv.skip(i as int).skip(1) =~= lv.skip(i as int + 1));
        }
        if lines[i] == heading {
            // Collect the section body that follows this heading.
            let mut out: Vec<String> = Vec::new();
            let mut j: usize = i + 1;
            proof {
                assert(lv.skip(i as int).skip(1) =~= lv.skip(j as int));
                assert(views_of(out@) =~= Seq::<Seq<char>>::empty());
            }
            proof {
                assert(section_spec(doc@, title@) == section_body(lv.skip(i as int + 1)));
            }
            while j < n
                invariant
                    i < j <= n,
                    n == lines@.len(),
                    lv == views_of(lines@),
                    section_spec(doc@, title@) == section_body(lv.skip(i as int + 1)),
                    section_body(lv.skip(i as int + 1)) =~= views_of(out@) + section_body(
                        lv.skip(j as int),
                    ),
                decreases n - j,
            {
                proof {
                    assert(lv.skip(j as int)[0] == lv[j as int]);
                    assert(lv.skip(j as int).skip(1) =~= lv.skip(j as int + 1));
                }
                if crate::text::starts_with_str(lines[j].as_str(), "## ") {
                    proof {
                        assert(section_body(lv.skip(j as int)) =~= Seq::<Seq<char>>::empty());
                        assert(views_of(out@) + Seq::<Seq<char>>::empty() =~= views_of(out@));
                    }
                    return out;
                }
                if !crate::text::blank(lines[j].as_str()) {
                    let line = lines[j].clone();
                    proof {
                        assert(views_of(out@.push(line)) =~= views_of(out@) + seq![line@]);
                        assert(views_of(out@) + (seq![lv[j as int]] + section_body(
                            lv.skip(j as int + 1),
                        )) =~= (views_of(out@) + seq![lv[j as int]]) + section_body(
                            lv.skip(j as int + 1),
                        ));
                    }
                    out.push(line);
                }
                j += 1;
            }
            proof {
                assert(lv.skip(n as int).len() == 0);
                assert(views_of(out@) + Seq::<Seq<char>>::empty() =~= views_of(out@));
            }
            return out;
        }
        i += 1;
    }
    proof {
        assert(lv.skip(n as int).len() == 0);
    }
    Vec::new()
}

// ---------------------------------------------------------------------------
// Session-name marker
// ---------------------------------------------------------------------------
/// The backtick-quoted session name in one line, if any: the text from
/// just after the opening backtick of the first occurrence of `` `task- ``
/// up to the next backtick.
pub open spec fn line_marker(l: Seq<char>) -> Option<Seq<char>> {
    if contains_seq(l, "`task-"@) {
        let tail = l.skip(first_at(l, "`task-"@) + 1);
        if contains_seq(tail, "`"@) {
            Option::Some(tail.take(first_at(tail, "`"@)))
        } else {
            Option::None
        }
    } else {
        Option::None
    }
}

/// The first line's marker, scanning from the top.
pub open spec fn marker_in_lines(lines: Seq<Seq<char>>) -> Option<Seq<char>>
    decreases lines.len(),
{
    if lines.len() == 0 {
        Option::None
    } else if line_marker(lines[0]) is Some {
        line_marker(lines[0])
    } else {
        marker_in_lines(lines.skip(1))
    }
}

/// The worker-session name a document declares, or the default derived
/// from the task id.
pub open spec fn session_name_spec(doc: Seq<char>, id: Seq<char>) -> Seq<char> {
    match marker_in_lines(split_lines_spec(doc)) {
        Option::Some(s) => s,
        Option::None => "task-"@ + id,
    }
}

/// The session name for a task: the document's backtick-quoted
/// `` `task-...` `` marker when present, else `task-` followed by the
/// task id.
pub fn session_name_for(doc: &str, task_id: &str) -> (r: String)
    ensures
        r@ == session_name_spec(doc@, task_id@),
{
    let lines = crate::text::split_lines(doc);
    let ghost lv = views_of(lines@);
    let n: usize = lines.len();
    let needle = crate::text::chars_of("`task-");
    let tick = crate::text::chars_of("`");
    let mut i: usize = 0;
    proof {
        assert(lv.skip(0) =~= lv);
    }
    while i < n
        invariant
            0 <= i <= n,
            n == lines@.len(),
            lv == views_of(lines@),
            needle@ == "`task-"@,
            tick@ == "`"@,
            marker_in_lines(split_lines_spec(doc@)) == marker_in_lines(lv.skip(i as int)),
        decreases n - i,
    {
        proof {
            assert(lv.skip(i as int)[0] == lv[i as int]);
            assert(lv.skip(i as int).skip(1) =~= lv.skip(i as int + 1));
        }
        let lc = crate::text::chars_of(lines[i].as_str());
        match crate::text::find_chars(&lc, &needle) {
            Option::Some(pos) => {
                proof {
                    reveal_strlit("`task-");
                    assert("`task-"@.len() == 6);
                    crate::text::lemma_first_at(lc@, needle@);
                    assert(pos + 6 <= lc@.len());
                }
                let lcn: usize = lc.len();
                let start: usize = pos + 1;
                let mut tail: Vec<char> = Vec::new();
                let mut k: usize = start;
                while k < lc.len()
                    invariant
                        start <= k <= lc@.len(),
                        tail@.len() == k - start,
                        forall|m: int| 0 <= m < tail@.len() ==> tail@[m] == lc@[start + m],
                    decreases lc@.len() - k,
                {
                    tail.push(lc[k]);
                    k += 1;
                }
                proof {
                    assert(tail@ =~= lc@.skip(start as int));
                }
                match crate::text::find_chars(&tail, &tick) {
                    Option::Some(j) => {
                        proof {
                            reveal_strlit("`");
                            assert("`"@.len() == 1);
                            crate::text::lemma_first_at(tail@, tick@);
                            assert(j + 1 <= tail@.len());
                            assert(line_marker(lv[i as int]) == Option::Some(
                                tail@.take(j as int),
                            ));
                            assert(lines@[i as int]@.subrange(
                                start as int,
                                start as int + j as int,
                            ) =~= tail@.take(j as int));
                        }
                        let piece = lines[i].as_str().substring_char(start, start + j);
                        return String::from_str(piece);
                    },
                    Option::None => {
                        proof {
                            assert(line_marker(lv[i as int]) is None);
                        }
                    },
                }
            },
            Option::None => {
                proof {
                    assert(line_marker(lv[i as int]) is None);
                }
            },
        }
        i += 1;
    }
    proof {
        assert(lv.skip(n as int).len() == 0);
    }
    let mut r = String::from_str("task-");
    r.append(task_id);
    r
}

} // verus!

verus! {

// ---------------------------------------------------------------------------
// Status
// ---------------------------------------------------------------------------
/// The last line, scanning from the end, that is not whitespace-only.
pub open spec fn last_non_blank(lines: Seq<Seq<char>>) -> Option<Seq<char>>
    decreases lines.len(),
{
    if lines.len() == 0 {
        Option::None
    } else if !is_blank(lines.last()) {
        Option::Some(lines.last())
    } else {
        last_non_blank(lines.drop_last())
    }
}

/// The status a document reports: the trimmed last non-blank line when the
/// document has a `## Status` section, `unknown` when it has the section
/// but no non-blank line, and `new` when it has no such section.
pub open spec fn status_spec(doc: Seq<char>) -> Seq<char> {
    if contains_seq(doc, "## Status"@) {
        match last_non_blank(split_lines_spec(doc)) {
            Option::Some(l) => trim_spec(l),
            Option::None => "unknown"@,
        }
    } else {
        "new"@
    }
}

/// The status line of a task document.
pub fn status_of(doc: &str) -> (r: String)
    ensures
        r@ == status_spec(doc@),
{
    let dc = crate::text::chars_of(doc);
    let marker = crate::text::chars_of("## Status");
    if !crate::text::contains_chars(&dc, &marker) {
        return String::from_str("new");
    }
    let lines = crate::text::split_lines(doc);
    let ghost lv = views_of(lines@);
    let n: usize = lines.len();
    let mut i: usize = n;
    proof {
        assert(lv.take(n as int) =~= lv);
    }
    while i > 0
        invariant
            0 <= i <= n,
            n == lines@.len(),
            lv == views_of(lines@),
            contains_seq(doc@, "## Status"@),
            last_non_blank(split_lines_spec(doc@)) == last_non_blank(lv.take(i as int)),
        decreases i,
    {
        proof {
            assert(lv.take(i as int).last() == lv[i - 1]);
            assert(lv.take(i as int).drop_last() =~= lv.take(i as int - 1));
        }
        if !crate::text::blank(lines[i - 1].as_str()) {
            return crate::text::trim_str(lines[i - 1].as_str());
        }
        i -= 1;
    }
    proof {
        assert(lv.take(0).len() == 0);
    }
    String::from_str("unknown")
}

// ---------------------------------------------------------------------------
// Needs-attention tests
// ---------------------------------------------------------------------------
/// A document asks for the operator's attention when its lowercased text
/// holds one of the attention phrases.
pub open spec fn attention_doc(doc: Seq<char>) -> bool {
    ||| contains_seq(lower_seq(doc), "waiting for input"@)
    ||| contains_seq(lower_seq(doc), "needs input"@)
    ||| contains_seq(lower_seq(doc), "needs decision"@)
    ||| contains_seq(lower_seq(doc), "blocked"@)
    ||| contains_seq(lower_seq(doc), "question"@)
}

/// Whether this document asks for the operator's attention.
pub fn needs_attention(doc: &str) -> (r: bool)
    ensures
        r == attention_doc(doc@),
{
    let dc = crate::text::chars_of(doc);
    let low = crate::text::lower_chars(&dc);
    if crate::text::contains_chars(&low, &crate::text::chars_of("waiting for input")) {
        return true;
    }
    if crate::text::contains_chars(&low, &crate::text::chars_of("needs input")) {
        return true;
    }
    if crate::text::contains_chars(&low, &crate::text::chars_of("needs decision")) {
        return true;
    }
    if crate::text::contains_chars(&low, &crate::text::chars_of("blocked")) {
        return true;
    }
    if crate::text::contains_chars(&low, &crate::text::chars_of("question")) {
        return true;
    }
    false
}

/// A line worth quoting in the inbox report.
pub open spec fn attention_line(l: Seq<char>) -> bool {
    ||| contains_seq(lower_seq(l), "waiting"@)
    ||| contains_seq(lower_seq(l), "needs input"@)
    ||| contains_seq(lower_seq(l), "blocked"@)
    ||| contains_seq(lower_seq(l), "question"@)
}

/// The first line worth quoting, or empty when there is none.
pub open spec fn first_attention(lines: Seq<Seq<char>>) -> Seq<char>
    decreases lines.len(),
{
    if lines.len() == 0 {
        Seq::empty()
    } else if attention_line(lines[0]) {
        lines[0]
    } else {
        first_attention(lines.skip(1))
    }
}

/// The context quoted under a task in the inbox report.
pub open spec fn context_spec(doc: Seq<char>) -> Seq<char> {
    first_attention(split_lines_spec(doc))
}

/// The first line of the document that asks for attention, or an empty
/// string.
pub fn context_line(doc: &str) -> (r: String)
    ensures
        r@ == context_spec(doc@),
{
    let lines = crate::text::split_lines(doc);
    let ghost lv = views_of(lines@);
    let n: usize = lines.len();
    let mut i: usize = 0;
    proof {
        assert(lv.skip(0) =~= lv);
    }
    while i < n
        invariant
            0 <= i <= n,
            n == lines@.len(),
            lv == views_of(lines@),
            context_spec(doc@) == first_attention(lv.skip(i as int)),
        decreases n - i,
    {
        proof {
            assert(lv.skip(i as int)[0] == lv[i as int]);
            assert(lv.skip(i as int).skip(1) =~= lv.skip(i as int + 1));
        }
        let lc = crate::text::chars_of(lines[i].as_str());
        let low = crate::text::lower_chars(&lc);
        let mut hit = crate::text::contains_chars(&low, &crate::text::chars_of("waiting"));
        if !hit {
            hit = crate::text::contains_chars(&low, &crate::text::chars_of("needs input"));
        }
        if !hit {
            hit = crate::text::contains_chars(&low, &crate::text::chars_of("blocked"));
        }
        if !hit {
            hit = crate::text::contains_chars(&low, &crate::text::chars_of("question"));
        }
        if hit {
            return lines[i].clone();
        }
        i += 1;
    }
    proof {
        assert(lv.skip(n as int).len() == 0);
    }
    String::new()
}

} // verus!
