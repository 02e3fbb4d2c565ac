//! Character-level text utilities: whitespace tests, ASCII lowercasing,
//! substring search, prefix/suffix tests, lexicographic order, trimming,
//! line splitting and newline joining.
//!
//! Specifications are stated over `Seq<char>`, the view of `&str` and
//! `String`.

use vstd::prelude::*;

verus! {

// ---------------------------------------------------------------------------
// Whitespace
// ---------------------------------------------------------------------------
/// True when `c` is an ASCII whitespace character.
pub open spec fn is_space(c: char) -> bool {
    c == ' ' || c == '\t' || c == '\r' || c == '\n'
}

/// True when every character of `s` is whitespace (an empty sequence is blank).
pub open spec fn is_blank(s: Seq<char>) -> bool {
    forall|i: int| 0 <= i < s.len() ==> is_space(s[i])
}

/// Whether the string consists only of whitespace.
pub fn blank(s: &str) -> (r: bool)
    ensures
        r == is_blank(s@),
{
    let n: usize = s.unicode_len();
    let mut i: usize = 0;
    while i < n
        invariant
            0 <= i <= n,
            n == s@.len(),
            forall|j: int| 0 <= j < i ==> is_space(s@[j]),
        decreases n - i,
    {
        let c = s.get_char(i);
        if !(c == ' ' || c == '\t' || c == '\r' || c == '\n') {
            return false;
        }
        i += 1;
    }
    true
}

// ---------------------------------------------------------------------------
// ASCII lowercasing
// ---------------------------------------------------------------------------
/// ASCII lowercase of one character; anything but 'A'..='Z' is unchanged.
pub open spec fn lower_char(c: char) -> char {
    if 'A' <= c && c <= 'Z' {
        ((c as u32 + 32) as u8) as char
    } else {
        c
    }
}

/// ASCII lowercase of a character sequence.
pub open spec fn lower_seq(s: Seq<char>) -> Seq<char> {
    s.map_values(|c: char| lower_char(c))
}

/// Lowercase a character vector.
pub fn lower_chars(v: &Vec<char>) -> (r: Vec<char>)
    ensures
        r@ == lower_seq(v@),
{
    let mut out: Vec<char> = Vec::new();
    let mut i: usize = 0;
    while i < v.len()
        invariant
            0 <= i <= v.len(),
            out@.len() == i,
            forall|j: int| 0 <= j < i ==> out@[j] == lower_char(v@[j]),
        decreases v.len() - i,
    {
        let c = v[i];
        if 'A' <= c && c <= 'Z' {
            out.push(((c as u32 + 32) as u8) as char);
        } else {
            out.push(c);
        }
        i += 1;
    }
    proof {
        assert(out@ =~= lower_seq(v@));
    }
    out
}

/// The characters of a string, as a vector.
pub fn chars_of(s: &str) -> (r: Vec<char>)
    ensures
        r@ == s@,
{
    let n: usize = s.unicode_len();
    let mut out: Vec<char> = Vec::new();
    let mut i: usize = 0;
    while i < n
        invariant
            0 <= i <= n,
            n == s@.len(),
            out@.len() == i,
            forall|j: int| 0 <= j < i ==> out@[j] == s@[j],
        decreases n - i,
    {
        out.push(s.get_char(i));
        i += 1;
    }
    proof {
        assert(out@ =~= s@);
    }
    out
}

// ---------------------------------------------------------------------------
// Substring search
// ---------------------------------------------------------------------------
/// The needle `n` occurs in `h` starting at position `i`.
pub open spec fn match_at(h: Seq<char>, n: Seq<char>, i: int) -> bool {
    0 <= i && i + n.len() <= h.len() && h.subrange(i, i + n.len()) == n
}

/// The needle `n` occurs somewhere in `h`.
pub open spec fn contains_seq(h: Seq<char>, n: Seq<char>) -> bool {
    exists|i: int| match_at(h, n, i)
}

/// Position of the first occurrence of `n` in `h`; meaningful only when
/// `contains_seq(h, n)` holds.
pub open spec fn first_at(h: Seq<char>, n: Seq<char>) -> int
    decreases h.len(),
{
    if match_at(h, n, 0) {
        0
    } else if h.len() == 0 {
        0
    } else {
        1 + first_at(h.skip(1), n)
    }
}

/// Shifting the haystack shifts match positions.
proof fn lemma_match_skip(h: Seq<char>, n: Seq<char>, i: int)
    requires
        0 <= i <= h.len(),
    ensures
        forall|j: int| 0 <= j ==> (match_at(h.skip(i), n, j) <==> match_at(h, n, i + j)),
{
    assert forall|j: int| 0 <= j implies (match_at(h.skip(i), n, j) <==> match_at(h, n, i + j)) by {
        if j + n.len() <= h.skip(i).len() {
            assert(h.skip(i).subrange(j, j + n.len()) =~= h.subrange(i + j, i + j + n.len()));
        }
    }
}

/// `first_at` returns the least match position.
pub proof fn lemma_first_at(h: Seq<char>, n: Seq<char>)
    requires
        contains_seq(h, n),
    ensures
        0 <= first_at(h, n),
        match_at(h, n, first_at(h, n)),
        forall|j: int| 0 <= j < first_at(h, n) ==> !match_at(h, n, j),
    decreases h.len(),
{
    if match_at(h, n, 0) {
    } else {
        let w = choose|i: int| match_at(h, n, i);
        assert(w >= 1);
        lemma_match_skip(h, n, 1);
        assert(match_at(h.skip(1), n, w - 1));
        lemma_first_at(h.skip(1), n);
        assert forall|j: int| 0 <= j < first_at(h, n) implies !match_at(h, n, j) by {
            if j >= 1 {
                assert(!match_at(h.skip(1), n, j - 1));
            }
        }
    }
}

/// If `i` is a match position with no earlier match, it is `first_at`.
pub proof fn lemma_first_at_is(h: Seq<char>, n: Seq<char>, i: int)
    requires
        match_at(h, n, i),
        forall|j: int| 0 <= j < i ==> !match_at(h, n, j),
    ensures
        first_at(h, n) == i,
{
    lemma_first_at(h, n);
    let f = first_at(h, n);
    if f < i {
        assert(match_at(h, n, f));
    }
    if i < f {
        assert(!match_at(h, n, i));
    }
}

/// Whether `n` occurs in `h` starting exactly at `i`.
fn check_match(h: &Vec<char>, n: &Vec<char>, i: usize) -> (r: bool)
    requires
        i + n@.len() <= h@.len(),
    ensures
        r == match_at(h@, n@, i as int),
{
    let hn: usize = h.len();
    let nn: usize = n.len();
    let mut j: usize = 0;
    while j < nn
        invariant
            0 <= j <= nn,
            hn == h@.len(),
            nn == n@.len(),
            i + nn <= hn,
            forall|k: int| 0 <= k < j ==> h@[i + k] == n@[k],
        decreases nn - j,
    {
        if h[i + j] != n[j] {
            proof {
                assert(h@.subrange(i as int, i + n@.len())[j as int] == h@[i + j]);
            }
            return false;
        }
        j += 1;
    }
    proof {
        assert(h@.subrange(i as int, i + n@.len()) =~= n@);
    }
    true
}

/// Position of the first occurrence of `n` in `h`, if any.
pub fn find_chars(h: &Vec<char>, n: &Vec<char>) -> (r: Option<usize>)
    ensures
        match r {
            Option::Some(i) => contains_seq(h@, n@) && i == first_at(h@, n@),
            Option::None => !contains_seq(h@, n@),
        },
{
    if n.len() > h.len() {
        return None;
    }
    if n.len() == 0 {
        proof {
            assert(h@.subrange(0, 0) =~= n@);
            lemma_first_at_is(h@, n@, 0);
        }
        return Some(0);
    }
    let hn: usize = h.len();
    let nn: usize = n.len();
    let last: usize = hn - nn;
    let mut i: usize = 0;
    while i <= last
        invariant
            0 <= i <= last + 1,
            hn == h@.len(),
            nn == n@.len(),
            1 <= nn <= hn,
            last == hn - nn,
            forall|j: int| 0 <= j < i ==> !match_at(h@, n@, j),
        decreases last + 1 - i,
    {
        if check_match(h, n, i) {
            proof {
                lemma_first_at_is(h@, n@, i as int);
            }
            return Some(i);
        }
        i += 1;
    }
    None
}

/// Whether `n` occurs in `h`.
pub fn contains_chars(h: &Vec<char>, n: &Vec<char>) -> (r: bool)
    ensures
        r == contains_seq(h@, n@),
{
    match find_chars(h, n) {
        Option::Some(_) => true,
        Option::None => false,
    }
}

// ---------------------------------------------------------------------------
// Prefix and suffix
// ---------------------------------------------------------------------------
/// `p` is a prefix of `s`.
pub open spec fn has_prefix(s: Seq<char>, p: Seq<char>) -> bool {
    p.len() <= s.len() && s.take(p.len() as int) == p
}

/// `p` is a suffix of `s`.
pub open spec fn has_suffix(s: Seq<char>, p: Seq<char>) -> bool {
    p.len() <= s.len() && s.skip(s.len() - p.len()) == p
}

/// Whether `p` is a prefix of `s`.
pub fn starts_with_str(s: &str, p: &str) -> (r: bool)
    ensures
        r == has_prefix(s@, p@),
{
    let sn: usize = s.unicode_len();
    let pn: usize = p.unicode_len();
    if pn > sn {
        return false;
    }
    let mut i: usize = 0;
    while i < pn
        invariant
            0 <= i <= pn,
            pn <= sn,
            sn == s@.len(),
            pn == p@.len(),
            forall|j: int| 0 <= j < i ==> s@[j] == p@[j],
        decreases pn - i,
    {
        if s.get_char(i) != p.get_char(i) {
            proof {
                assert(s@.take(p@.len() as int)[i as int] == s@[i as int]);
            }
            return false;
        }
        i += 1;
    }
    proof {
        assert(s@.take(p@.len() as int) =~= p@);
    }
    true
}

/// Whether `p` is a suffix of `s`.
pub fn ends_with_str(s: &str, p: &str) -> (r: bool)
    ensures
        r == has_suffix(s@, p@),
{
    let sn: usize = s.unicode_len();
    let pn: usize = p.unicode_len();
    if pn > sn {
        return false;
    }
    let off: usize = sn - pn;
    let mut i: usize = 0;
    while i < pn
        invariant
            0 <= i <= pn,
            pn <= sn,
            off == sn - pn,
            sn == s@.len(),
            pn == p@.len(),
            forall|j: int| 0 <= j < i ==> s@[off + j] == p@[j],
        decreases pn - i,
    {
        if s.get_char(off + i) != p.get_char(i) {
            proof {
                assert(s@.skip(s@.len() - p@.len())[i as int] == s@[off + i]);
            }
            return false;
        }
        i += 1;
    }
    proof {
        assert(s@.skip(s@.len() - p@.len()) =~= p@);
    }
    true
}

} // verus!

verus! {

// ---------------------------------------------------------------------------
// Lexicographic order on character sequences
// ---------------------------------------------------------------------------
/// Strict lexicographic order by character codepoint.
pub open spec fn lex_lt(a: Seq<char>, b: Seq<char>) -> bool
    decreases a.len(),
{
    if b.len() == 0 {
        false
    } else if a.len() == 0 {
        true
    } else if a[0] < b[0] {
        true
    } else if b[0] < a[0] {
        false
    } else {
        lex_lt(a.skip(1), b.skip(1))
    }
}

/// Non-strict lexicographic order.
pub open spec fn lex_le(a: Seq<char>, b: Seq<char>) -> bool {
    lex_lt(a, b) || a == b
}

/// Any two sequences are lexicographically comparable.
pub proof fn lemma_lex_connected(a: Seq<char>, b: Seq<char>)
    ensures
        lex_lt(a, b) || lex_lt(b, a) || a == b,
    decreases a.len(),
{
    if b.len() == 0 {
        if a.len() == 0 {
            assert(a =~= b);
        }
    } else if a.len() == 0 {
    } else if a[0] < b[0] {
    } else if b[0] < a[0] {
    } else {
        lemma_lex_connected(a.skip(1), b.skip(1));
        if a.skip(1) == b.skip(1) {
            assert(a.skip(1).len() == b.skip(1).len());
            assert(a.len() == b.len());
            assert forall|i: int| 0 <= i < a.len() implies a[i] == b[i] by {
                if i >= 1 {
                    assert(a[i] == a.skip(1)[i - 1]);
                    assert(b[i] == b.skip(1)[i - 1]);
                }
            }
            assert(a =~= b);
        }
    }
}

/// Strict lexicographic order is asymmetric.
pub proof fn lemma_lex_asym(a: Seq<char>, b: Seq<char>)
    requires
        lex_lt(a, b),
    ensures
        !lex_lt(b, a),
    decreases a.len(),
{
    if b.len() == 0 {
    } else if a.len() == 0 {
    } else if a[0] < b[0] {
    } else if b[0] < a[0] {
    } else {
        lemma_lex_asym(a.skip(1), b.skip(1));
    }
}

// ---------------------------------------------------------------------------
// Trimming
// ---------------------------------------------------------------------------
/// `s` with leading and trailing whitespace removed.
pub open spec fn trim_spec(s: Seq<char>) -> Seq<char>
    decreases s.len(),
{
    if s.len() == 0 {
        s
    } else if is_space(s[0]) {
        trim_spec(s.skip(1))
    } else if is_space(s[s.len() - 1]) {
        trim_spec(s.take(s.len() - 1))
    } else {
        s
    }
}

/// The string with leading and trailing whitespace removed.
pub fn trim_str(s: &str) -> (r: String)
    ensures
        r@ == trim_spec(s@),
{
    let n: usize = s.unicode_len();
    let mut a: usize = 0;
    let mut front_done = false;
    proof {
        assert(s@.skip(0) =~= s@);
    }
    while !front_done && a < n
        invariant
            0 <= a <= n,
            n == s@.len(),
            trim_spec(s@) == trim_spec(s@.skip(a as int)),
            front_done ==> a < n && !is_space(s@[a as int]),
        decreases n - a, 1int - (if front_done { 1int } else { 0int }),
    {
        let c = s.get_char(a);
        if c == ' ' || c == '\t' || c == '\r' || c == '\n' {
            proof {
                assert(s@.skip(a as int).skip(1) =~= s@.skip(a as int + 1));
            }
            a += 1;
        } else {
            front_done = true;
        }
    }
    if a == n {
        proof {
            assert(s@.skip(a as int).len() == 0);
        }
        return String::new();
    }
    let mut b: usize = n;
    let mut back_done = false;
    while !back_done
        invariant
            a < b <= n,
            n == s@.len(),
            !is_space(s@[a as int]),
            trim_spec(s@) == trim_spec(s@.subrange(a as int, b as int)),
            back_done ==> !is_space(s@[b - 1]),
        decreases b, 1int - (if back_done { 1int } else { 0int }),
    {
        let c = s.get_char(b - 1);
        if c == ' ' || c == '\t' || c == '\r' || c == '\n' {
            proof {
                let t = s@.subrange(a as int, b as int);
                assert(t[0] == s@[a as int]);
                assert(t[t.len() - 1] == s@[b - 1]);
                assert(t.take(t.len() - 1) =~= s@.subrange(a as int, b - 1));
                assert(b - 1 > a) by {
                    if b - 1 == a {
                        assert(t.len() == 1);
                        assert(t[0] == t[t.len() - 1]);
                    }
                }
            }
            b -= 1;
        } else {
            back_done = true;
        }
    }
    proof {
        let t = s@.subrange(a as int, b as int);
        assert(t[0] == s@[a as int]);
        assert(t[t.len() - 1] == s@[b - 1]);
        assert(trim_spec(t) == t);
    }
    String::from_str(s.substring_char(a, b))
}

// ---------------------------------------------------------------------------
// Line splitting
// ---------------------------------------------------------------------------
/// The lines of `s`, split on `'\n'`; `k` separators give `k + 1` lines.
pub open spec fn split_lines_spec(s: Seq<char>) -> Seq<Seq<char>>
    decreases s.len(),
{
    if s.len() == 0 {
        seq![Seq::<char>::empty()]
    } else if s[0] == '\n' {
        seq![Seq::<char>::empty()] + split_lines_spec(s.skip(1))
    } else {
        let rest = split_lines_spec(s.skip(1));
        seq![seq![s[0]] + rest[0]] + rest.skip(1)
    }
}

/// Splitting always yields at least one line.
pub proof fn lemma_split_lines_len(s: Seq<char>)
    ensures
        split_lines_spec(s).len() >= 1,
    decreases s.len(),
{
    if s.len() == 0 {
    } else if s[0] == '\n' {
    } else {
        lemma_split_lines_len(s.skip(1));
    }
}

/// A sequence without newlines is a single line.
pub proof fn lemma_split_no_nl(s: Seq<char>)
    requires
        forall|i: int| 0 <= i < s.len() ==> s[i] != '\n',
    ensures
        split_lines_spec(s) == seq![s],
    decreases s.len(),
{
    if s.len() == 0 {
        assert(s =~= Seq::<char>::empty());
        assert(seq![s] =~= seq![Seq::<char>::empty()]);
    } else {
        lemma_split_no_nl(s.skip(1));
        let rest = split_lines_spec(s.skip(1));
        assert(rest[0] == s.skip(1));
        assert(seq![s[0]] + rest[0] =~= s);
        assert(rest.skip(1) =~= Seq::<Seq<char>>::empty());
        assert(split_lines_spec(s) =~= seq![s]);
    }
}

/// Splitting at the first newline peels off the first line.
pub proof fn lemma_split_first_nl(s: Seq<char>, i: int)
    requires
        0 <= i < s.len(),
        s[i] == '\n',
        forall|j: int| 0 <= j < i ==> s[j] != '\n',
    ensures
        split_lines_spec(s) == seq![s.take(i)] + split_lines_spec(s.skip(i + 1)),
    decreases i,
{
    if i == 0 {
        assert(s.take(0) =~= Seq::<char>::empty());
        assert(seq![s.take(0)] =~= seq![Seq::<char>::empty()]);
    } else {
        let t = s.skip(1);
        assert(t[i - 1] == '\n');
        lemma_split_first_nl(t, i - 1);
        lemma_split_lines_len(t.skip(i));
        let rest = split_lines_spec(t);
        assert(rest == seq![t.take(i - 1)] + split_lines_spec(t.skip(i)));
        assert(rest[0] == t.take(i - 1));
        assert(rest.skip(1) =~= split_lines_spec(t.skip(i)));
        assert(seq![s[0]] + t.take(i - 1) =~= s.take(i));
        assert(t.skip(i) =~= s.skip(i + 1));
        assert(split_lines_spec(s) =~= seq![s.take(i)] + split_lines_spec(s.skip(i + 1)));
    }
}

/// The views of a sequence of strings.
pub open spec fn views_of(v: Seq<String>) -> Seq<Seq<char>> {
    Seq::new(v.len(), |i: int| v[i]@)
}

/// Split a string into its lines at `'\n'`.
pub fn split_lines(s: &str) -> (r: Vec<String>)
    ensures
        views_of(r@) == split_lines_spec(s@),
{
    let n: usize = s.unicode_len();
    let mut out: Vec<String> = Vec::new();
    let mut start: usize = 0;
    let mut i: usize = 0;
    proof {
        assert(s@.skip(0) =~= s@);
    }
    while i < n
        invariant
            0 <= start <= i <= n,
            n == s@.len(),
            split_lines_spec(s@) =~= views_of(out@) + split_lines_spec(s@.skip(start as int)),
            forall|j: int| start <= j < i ==> s@[j] != '\n',
        decreases n - i,
    {
        if s.get_char(i) == '\n' {
            let line = String::from_str(s.substring_char(start, i));
            proof {
                let tail = s@.skip(start as int);
                assert(tail[i - start] == s@[i as int]);
                assert(forall|j: int| 0 <= j < i - start ==> tail[j] == s@[start + j]);
                lemma_split_first_nl(tail, i - start);
                assert(tail.take(i - start) =~= line@);
                assert(tail.skip(i - start + 1) =~= s@.skip(i as int + 1));
                assert(views_of(out@.push(line)) =~= views_of(out@) + seq![line@]);
                assert(views_of(out@) + (seq![line@] + split_lines_spec(s@.skip(i as int + 1)))
                    =~= (views_of(out@) + seq![line@]) + split_lines_spec(s@.skip(i as int + 1)));
            }
            out.push(line);
            start = i + 1;
        }
        i += 1;
    }
    let line = String::from_str(s.substring_char(start, n));
    proof {
        let tail = s@.skip(start as int);
        assert(forall|j: int| 0 <= j < tail.len() ==> tail[j] == s@[start + j]);
        lemma_split_no_nl(tail);
        assert(tail =~= line@);
        assert(views_of(out@.push(line)) =~= views_of(out@) + seq![line@]);
    }
    out.push(line);
    out
}

// ---------------------------------------------------------------------------
// Newline joining
// ---------------------------------------------------------------------------
/// The pieces joined with single `'\n'` separators.
pub open spec fn join_nl(bs: Seq<Seq<char>>) -> Seq<char>
    decreases bs.len(),
{
    if bs.len() == 0 {
        Seq::empty()
    } else if bs.len() == 1 {
        bs[0]
    } else {
        bs[0] + seq!['\n'] + join_nl(bs.skip(1))
    }
}

/// Joining after appending one piece appends a separator and the piece.
pub proof fn lemma_join_push(bs: Seq<Seq<char>>, b: Seq<char>)
    ensures
        join_nl(bs.push(b)) == if bs.len() == 0 {
            b
        } else {
            join_nl(bs) + seq!['\n'] + b
        },
    decreases bs.len(),
{
    let p = bs.push(b);
    if bs.len() == 0 {
        assert(p.len() == 1);
        assert(p[0] == b);
    } else if bs.len() == 1 {
        assert(p[0] == bs[0]);
        assert(p.skip(1) =~= seq![b]);
        assert(join_nl(p.skip(1)) == b);
    } else {
        assert(p[0] == bs[0]);
        assert(p.skip(1) =~= bs.skip(1).push(b));
        lemma_join_push(bs.skip(1), b);
        assert(bs[0] + seq!['\n'] + (join_nl(bs.skip(1)) + seq!['\n'] + b) =~= (bs[0] + seq!['\n']
            + join_nl(bs.skip(1))) + seq!['\n'] + b);
    }
}

} // verus!

verus! {

/// Strict lexicographic order is irreflexive.
pub proof fn lemma_lex_irrefl(a: Seq<char>)
    ensures
        !lex_lt(a, a),
    decreases a.len(),
{
    if a.len() > 0 {
        lemma_lex_irrefl(a.skip(1));
    }
}

/// Whether `a` is strictly lexicographically below `b`, on character
/// vectors.
pub fn lex_lt_chars(a: &Vec<char>, b: &Vec<char>) -> (r: bool)
    ensures
        r == lex_lt(a@, b@),
{
    let an: usize = a.len();
    let bn: usize = b.len();
    let mut i: usize = 0;
    proof {
        assert(a@.skip(0) =~= a@);
        assert(b@.skip(0) =~= b@);
    }
    while i < an && i < bn
        invariant
            0 <= i <= an,
            0 <= i <= bn,
            an == a@.len(),
            bn == b@.len(),
            lex_lt(a@, b@) == lex_lt(a@.skip(i as int), b@.skip(i as int)),
        decreases an - i,
    {
        let ca = a[i];
        let cb = b[i];
        if ca < cb {
            return true;
        }
        if cb < ca {
            return false;
        }
        proof {
            assert(a@.skip(i as int).skip(1) =~= a@.skip(i as int + 1));
            assert(b@.skip(i as int).skip(1) =~= b@.skip(i as int + 1));
        }
        i += 1;
    }
    i < bn
}

} // verus!

verus! {

/// Strict lexicographic order is transitive.
pub proof fn lemma_lex_lt_trans(a: Seq<char>, b: Seq<char>, c: Seq<char>)
    requires
        lex_lt(a, b),
        lex_lt(b, c),
    ensures
        lex_lt(a, c),
    decreases a.len(),
{
    if c.len() == 0 {
    } else if b.len() == 0 {
    } else if a.len() == 0 {
    } else {
        if a[0] == b[0] && b[0] == c[0] {
            lemma_lex_lt_trans(a.skip(1), b.skip(1), c.skip(1));
        }
    }
}

/// Non-strict lexicographic order is transitive.
pub proof fn lemma_lex_le_trans(a: Seq<char>, b: Seq<char>, c: Seq<char>)
    requires
        lex_le(a, b),
        lex_le(b, c),
    ensures
        lex_le(a, c),
{
    if lex_lt(a, b) && lex_lt(b, c) {
        lemma_lex_lt_trans(a, b, c);
    }
}

} // verus!
