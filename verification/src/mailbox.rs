//! The mailbox: a durable, ordered, at-least-once queue of operator
//! messages.
//!
//! On disk a mailbox is a directory with one uniquely named entry per
//! message; entry names carry a monotonically increasing stamp rendered as
//! fixed-width decimal, so that lexical order of names equals temporal
//! order. Draining sorts the entries by name, discards whitespace-only
//! bodies, deletes every entry and returns the newline-joined concatenation
//! of the remaining bodies.

use vstd::arithmetic::div_mod::lemma_div_is_ordered;
use vstd::arithmetic::div_mod::lemma_div_pos_is_pos;
use vstd::arithmetic::div_mod::lemma_fundamental_div_mod;
use vstd::arithmetic::div_mod::lemma_fundamental_div_mod_converse_div;
use vstd::arithmetic::div_mod::lemma_mod_division_less_than_divisor;
use vstd::multiset::Multiset;
use vstd::prelude::*;

use crate::text::lex_lt;

verus! {

// ---------------------------------------------------------------------------
// Stamp names: fixed-width decimal, so numeric order equals lexical order
// ---------------------------------------------------------------------------
/// Ten to the `k`-th power.
pub open spec fn pow10(k: nat) -> int
    decreases k,
{
    if k == 0 {
        1
    } else {
        10 * pow10((k - 1) as nat)
    }
}

proof fn lemma_pow10_pos(k: nat)
    ensures
        pow10(k) >= 1,
    decreases k,
{
    if k > 0 {
        lemma_pow10_pos((k - 1) as nat);
    }
}

/// The decimal digit character for `d` in `0..=9`.
pub open spec fn digit_char(d: int) -> char {
    ((48 + d) as u8) as char
}

/// The `w`-digit decimal rendering of `x`, with leading zeros.
pub open spec fn dec_chars(x: int, w: nat) -> Seq<char>
    decreases w,
{
    if w == 0 {
        Seq::empty()
    } else {
        seq![digit_char(x / pow10((w - 1) as nat))] + dec_chars(
            x % pow10((w - 1) as nat),
            (w - 1) as nat,
        )
    }
}

/// The entry name for stamp `x`: twenty decimal digits, enough for any
/// stamp a 64-bit counter can reach.
pub open spec fn stamp_name(x: int) -> Seq<char> {
    dec_chars(x, 20)
}

proof fn lemma_digit_lt(d1: int, d2: int)
    requires
        0 <= d1 < d2 <= 9,
    ensures
        digit_char(d1) < digit_char(d2),
{
}

/// Fixed-width decimal renderings order lexicographically as the numbers
/// they render.
pub proof fn lemma_dec_chars_order(x: int, y: int, w: nat)
    requires
        0 <= x < y < pow10(w),
    ensures
        lex_lt(dec_chars(x, w), dec_chars(y, w)),
    decreases w,
{
    lemma_pow10_pos(w);
    if w == 0 {
        assert(false);
    } else {
        let p = pow10((w - 1) as nat);
        lemma_pow10_pos((w - 1) as nat);
        let hx = x / p;
        let hy = y / p;
        lemma_div_is_ordered(x, y, p);
        lemma_div_pos_is_pos(x, p);
        lemma_mod_division_less_than_divisor(x, p);
        lemma_mod_division_less_than_divisor(y, p);
        assert(hy <= 9) by {
            lemma_div_is_ordered(y, 10 * p - 1, p);
            lemma_fundamental_div_mod_converse_div(10 * p - 1, p, 9, p - 1);
        }
        let a = dec_chars(x, w);
        let b = dec_chars(y, w);
        let ta = dec_chars(x % p, (w - 1) as nat);
        let tb = dec_chars(y % p, (w - 1) as nat);
        assert(a == seq![digit_char(hx)] + ta);
        assert(a[0] == digit_char(hx));
        assert(b[0] == digit_char(hy));
        assert(a.len() >= 1 && b.len() >= 1);
        if hx < hy {
            lemma_digit_lt(hx, hy);
            assert(lex_lt(a, b));
        } else {
            assert(hx == hy);
            assert(x % p < y % p) by {
                lemma_fundamental_div_mod(x, p);
                lemma_fundamental_div_mod(y, p);
            }
            lemma_dec_chars_order(x % p, y % p, (w - 1) as nat);
            assert(a.skip(1) =~= ta);
            assert(b.skip(1) =~= tb);
            assert(lex_lt(a, b));
        }
    }
}

/// Every 64-bit stamp fits in twenty digits.
pub proof fn lemma_stamp_fits(x: int)
    requires
        0 <= x <= u64::MAX,
    ensures
        x < pow10(20),
{
    assert(pow10(20) == 100000000000000000000) by {
        reveal_with_fuel(pow10, 21);
    }
}

/// Larger stamps give lexicographically larger names.
pub proof fn lemma_stamp_name_order(x: int, y: int)
    requires
        0 <= x < y <= u64::MAX,
    ensures
        lex_lt(stamp_name(x), stamp_name(y)),
{
    lemma_stamp_fits(y);
    lemma_dec_chars_order(x, y, 20);
}

proof fn lemma_pow10_monotone(i: nat, j: nat)
    requires
        i <= j,
    ensures
        pow10(i) <= pow10(j),
    decreases j,
{
    if i < j {
        lemma_pow10_monotone(i, (j - 1) as nat);
        lemma_pow10_pos((j - 1) as nat);
    }
}

/// Ten to the `e`-th power, for exponents a stamp digit position can have.
fn pow10_u64(e: u64) -> (r: u64)
    requires
        e <= 19,
    ensures
        r as int == pow10(e as nat),
{
    proof {
        assert(pow10(19) == 10000000000000000000) by {
            reveal_with_fuel(pow10, 20);
        }
    }
    let mut r: u64 = 1;
    let mut i: u64 = 0;
    while i < e
        invariant
            0 <= i <= e <= 19,
            r as int == pow10(i as nat),
        decreases e - i,
    {
        proof {
            assert(pow10(19) == 10000000000000000000) by {
                reveal_with_fuel(pow10, 20);
            }
            assert(pow10((i + 1) as nat) == 10 * pow10(i as nat));
            lemma_pow10_monotone((i + 1) as nat, 19);
        }
        r = r * 10;
        i += 1;
    }
    r
}

/// Render a stamp as its twenty-digit entry name.
pub fn stamp_to_name(x: u64) -> (r: Vec<char>)
    ensures
        r@ == stamp_name(x as int),
{
    proof {
        lemma_stamp_fits(x as int);
    }
    let mut rem: u64 = x;
    let mut out: Vec<char> = Vec::new();
    let mut k: usize = 0;
    while k < 20
        invariant
            0 <= k <= 20,
            out@.len() == k,
            (rem as int) < pow10((20 - k) as nat),
            stamp_name(x as int) == out@ + dec_chars(rem as int, (20 - k) as nat),
        decreases 20 - k,
    {
        let e: u64 = 19 - (k as u64);
        let p: u64 = pow10_u64(e);
        let d: u64 = rem / p;
        let next: u64 = rem % p;
        proof {
            let pi = pow10(e as nat);
            lemma_pow10_pos(e as nat);
            lemma_div_pos_is_pos(rem as int, pi);
            assert(d as int <= 9) by {
                lemma_div_is_ordered(rem as int, 10 * pi - 1, pi);
                lemma_fundamental_div_mod_converse_div(10 * pi - 1, pi, 9, pi - 1);
            }
            lemma_mod_division_less_than_divisor(rem as int, pi);
            assert(dec_chars(rem as int, (20 - k) as nat) == seq![digit_char(d as int)]
                + dec_chars(next as int, (19 - k) as nat));
            assert((out@ + dec_chars(rem as int, (20 - k) as nat))[k as int] == digit_char(
                d as int,
            ));
            assert(out@.push(digit_char(d as int)) + dec_chars(next as int, (19 - k) as nat)
                =~= out@ + dec_chars(rem as int, (20 - k) as nat));
        }
        let ch: char = ((48 + d) as u8) as char;
        proof {
            assert(ch == digit_char(d as int));
        }
        out.push(ch);
        rem = next;
        k += 1;
    }
    proof {
        assert(dec_chars(rem as int, 0) =~= Seq::<char>::empty());
        assert(out@ + dec_chars(rem as int, 0) =~= out@);
    }
    out
}

} // verus!

verus! {

// ---------------------------------------------------------------------------
// Entries
// ---------------------------------------------------------------------------
/// One mailbox entry: a name whose lexical order is its temporal order, and
/// the message body.
pub struct MailEntry {
    pub name: Vec<char>,
    pub body: String,
}

/// The mathematical value of an entry.
#[verifier::ext_equal]
pub struct EntryV {
    pub name: Seq<char>,
    pub body: Seq<char>,
}

impl View for MailEntry {
    type V = EntryV;

    open spec fn view(&self) -> EntryV {
        EntryV { name: self.name@, body: self.body@ }
    }
}

/// The values of a sequence of entries.
pub open spec fn entry_views(s: Seq<MailEntry>) -> Seq<EntryV> {
    Seq::new(s.len(), |i: int| s[i]@)
}

// ---------------------------------------------------------------------------
// Sorting entries by name
// ---------------------------------------------------------------------------
/// Insert `e` in front of the first entry whose name is not below `e`'s.
pub open spec fn insert_sorted(e: EntryV, s: Seq<EntryV>) -> Seq<EntryV>
    decreases s.len(),
{
    if s.len() == 0 {
        seq![e]
    } else if crate::text::lex_le(e.name, s[0].name) {
        seq![e] + s
    } else {
        seq![s[0]] + insert_sorted(e, s.skip(1))
    }
}

/// Insertion sort of entries by name, ascending.
pub open spec fn sort_by_name(s: Seq<EntryV>) -> Seq<EntryV>
    decreases s.len(),
{
    if s.len() == 0 {
        Seq::empty()
    } else {
        insert_sorted(s[0], sort_by_name(s.skip(1)))
    }
}

/// The number of entries below which `e` must be inserted.
fn insert_pos(out: &Vec<MailEntry>, name: &Vec<char>) -> (p: usize)
    ensures
        0 <= p <= out@.len(),
        forall|j: int| 0 <= j < p ==> lex_lt(#[trigger] entry_views(out@)[j].name, name@),
        p < out@.len() ==> !lex_lt(entry_views(out@)[p as int].name, name@),
{
    let n: usize = out.len();
    let mut p: usize = 0;
    while p < n
        invariant
            0 <= p <= n,
            n == out@.len(),
            forall|j: int| 0 <= j < p ==> lex_lt(#[trigger] entry_views(out@)[j].name, name@),
        decreases n - p,
    {
        if !crate::text::lex_lt_chars(&out[p].name, name) {
            return p;
        }
        p += 1;
    }
    p
}

/// Inserting at the first admissible position realizes `insert_sorted`.
proof fn lemma_insert_sorted_at(e: EntryV, s: Seq<EntryV>, p: int)
    requires
        0 <= p <= s.len(),
        forall|j: int| 0 <= j < p ==> lex_lt(#[trigger] s[j].name, e.name),
        p < s.len() ==> !lex_lt(s[p].name, e.name),
    ensures
        insert_sorted(e, s) == s.take(p) + seq![e] + s.skip(p),
    decreases s.len(),
{
    if p == 0 {
        if s.len() == 0 {
            assert(insert_sorted(e, s) =~= s.take(0) + seq![e] + s.skip(0));
        } else {
            crate::text::lemma_lex_connected(e.name, s[0].name);
            assert(crate::text::lex_le(e.name, s[0].name));
            assert(seq![e] + s =~= s.take(0) + seq![e] + s.skip(0));
        }
    } else {
        assert(lex_lt(s[0].name, e.name));
        crate::text::lemma_lex_asym(s[0].name, e.name);
        crate::text::lemma_lex_irrefl(s[0].name);
        assert(!crate::text::lex_le(e.name, s[0].name));
        let t = s.skip(1);
        assert(forall|j: int| 0 <= j < p - 1 ==> #[trigger] t[j].name == s[j + 1].name);
        lemma_insert_sorted_at(e, t, p - 1);
        assert(seq![s[0]] + (t.take(p - 1) + seq![e] + t.skip(p - 1)) =~= s.take(p) + seq![e]
            + s.skip(p));
    }
}

/// Insert one entry into a name-sorted vector of entries.
fn insert_entry(out: &mut Vec<MailEntry>, e: MailEntry)
    ensures
        entry_views(final(out)@) == insert_sorted(e@, entry_views(old(out)@)),
{
    let p: usize = insert_pos(out, &e.name);
    proof {
        lemma_insert_sorted_at(e@, entry_views(old(out)@), p as int);
    }
    out.insert(p, e);
    proof {
        let sv = entry_views(old(out)@);
        assert(entry_views(out@) =~= sv.take(p as int) + seq![e@] + sv.skip(p as int));
    }
}

/// Sort entries by name, ascending.
pub fn sort_entries(v: Vec<MailEntry>) -> (r: Vec<MailEntry>)
    ensures
        entry_views(r@) == sort_by_name(entry_views(v@)),
{
    let mut src = v;
    let mut out: Vec<MailEntry> = Vec::new();
    proof {
        assert(entry_views(v@).skip(v@.len() as int) =~= Seq::<EntryV>::empty());
        assert(entry_views(out@) =~= Seq::<EntryV>::empty());
    }
    while src.len() > 0
        invariant
            src@.len() <= v@.len(),
            src@ == v@.take(src@.len() as int),
            entry_views(out@) == sort_by_name(entry_views(v@).skip(src@.len() as int)),
        decreases src@.len(),
    {
        let ghost i = src@.len() as int;
        let e = match src.pop() {
            Option::Some(e) => e,
            Option::None => {
                proof {
                    assert(false);
                }
                unreached()
            },
        };
        proof {
            assert(v@.take(i).last() == v@[i - 1]);
            assert(e == v@[i - 1]);
        }
        insert_entry(&mut out, e);
        proof {
            let sv = entry_views(v@);
            assert(sv.skip(i - 1)[0] == e@);
            assert(sv.skip(i - 1).skip(1) =~= sv.skip(i));
            assert(src@ =~= v@.take(i - 1));
        }
    }
    proof {
        assert(entry_views(v@).skip(0) =~= entry_views(v@));
    }
    out
}

} // verus!

verus! {

// ---------------------------------------------------------------------------
// Draining
// ---------------------------------------------------------------------------
/// The bodies of a sequence of entries, in order.
pub open spec fn entry_bodies(s: Seq<EntryV>) -> Seq<Seq<char>> {
    s.map_values(|e: EntryV| e.body)
}

/// The bodies that are not whitespace-only, in order.
pub open spec fn keep_non_blank(bs: Seq<Seq<char>>) -> Seq<Seq<char>> {
    bs.filter(|b: Seq<char>| !crate::text::is_blank(b))
}

/// The non-blank bodies a drain folds together: entries sorted by name,
/// whitespace-only bodies dropped.
pub open spec fn kept_bodies(s: Seq<EntryV>) -> Seq<Seq<char>> {
    keep_non_blank(entry_bodies(sort_by_name(s)))
}

/// What draining a mailbox with entries `s` returns.
pub open spec fn drain_spec(s: Seq<EntryV>) -> Option<Seq<char>> {
    if kept_bodies(s).len() == 0 {
        Option::None
    } else {
        Option::Some(crate::text::join_nl(kept_bodies(s)))
    }
}

/// The view of an optional string.
pub open spec fn view_opt(r: Option<String>) -> Option<Seq<char>> {
    match r {
        Option::Some(s) => Option::Some(s@),
        Option::None => Option::None,
    }
}

proof fn lemma_keep_empty()
    ensures
        keep_non_blank(Seq::<Seq<char>>::empty()) == Seq::<Seq<char>>::empty(),
{
    reveal(Seq::filter);
}

proof fn lemma_keep_push(bs: Seq<Seq<char>>, b: Seq<char>)
    ensures
        keep_non_blank(bs.push(b)) == if crate::text::is_blank(b) {
            keep_non_blank(bs)
        } else {
            keep_non_blank(bs).push(b)
        },
{
    reveal(Seq::filter);
    assert(bs.push(b).drop_last() =~= bs);
    assert(bs.push(b).last() == b);
}

proof fn lemma_keep_all(bs: Seq<Seq<char>>)
    requires
        forall|i: int| 0 <= i < bs.len() ==> !crate::text::is_blank(#[trigger] bs[i]),
    ensures
        keep_non_blank(bs) == bs,
    decreases bs.len(),
{
    reveal(Seq::filter);
    if bs.len() > 0 {
        lemma_keep_all(bs.drop_last());
        assert(!crate::text::is_blank(bs.last()));
        assert(bs.drop_last().push(bs.last()) =~= bs);
    }
}

/// Fold a set of mailbox entries: sort by name, drop whitespace-only
/// bodies, join the rest with newlines. Nothing when nothing remains.
pub fn drain_entries(entries: Vec<MailEntry>) -> (r: Option<String>)
    ensures
        view_opt(r) == drain_spec(entry_views(entries@)),
{
    let ghost ev = entry_views(entries@);
    let sorted = sort_entries(entries);
    let ghost sv = entry_views(sorted@);
    let n: usize = sorted.len();
    let mut acc = String::new();
    let mut started = false;
    let mut i: usize = 0;
    proof {
        assert(entry_bodies(sv).take(0) =~= Seq::<Seq<char>>::empty());
        lemma_keep_empty();
    }
    while i < n
        invariant
            0 <= i <= n,
            n == sorted@.len(),
            entry_views(sorted@) == sv,
            started == (keep_non_blank(entry_bodies(sv).take(i as int)).len() > 0),
            started ==> acc@ == crate::text::join_nl(
                keep_non_blank(entry_bodies(sv).take(i as int)),
            ),
            !started ==> acc@ == Seq::<char>::empty(),
        decreases n - i,
    {
        let ghost pre = entry_bodies(sv).take(i as int);
        let ghost b = sv[i as int].body;
        proof {
            assert(entry_bodies(sv).take(i as int + 1) =~= pre.push(b));
            lemma_keep_push(pre, b);
        }
        if !crate::text::blank(sorted[i].body.as_str()) {
            proof {
                reveal_strlit("\n");
                assert("\n"@ =~= seq!['\n']);
                crate::text::lemma_join_push(keep_non_blank(pre), b);
            }
            if started {
                acc.append("\n");
            }
            acc.append(sorted[i].body.as_str());
            started = true;
        }
        i += 1;
    }
    proof {
        assert(entry_bodies(sv).take(n as int) =~= entry_bodies(sv));
    }
    if started {
        Some(acc)
    } else {
        None
    }
}

// ---------------------------------------------------------------------------
// The mailbox itself
// ---------------------------------------------------------------------------
/// The mathematical value of a mailbox: its entries in creation order, and
/// the next stamp to hand out.
#[verifier::ext_equal]
pub struct MailboxV {
    pub entries: Seq<EntryV>,
    pub next: int,
}

/// A mailbox held in memory: entries in creation order plus the stamp
/// counter that names the next entry.
pub struct Mailbox {
    pub entries: Vec<MailEntry>,
    pub next_stamp: u64,
}

impl View for Mailbox {
    type V = MailboxV;

    open spec fn view(&self) -> MailboxV {
        MailboxV { entries: entry_views(self.entries@), next: self.next_stamp as int }
    }
}

/// What one enqueue does: append an entry named by the next stamp, holding
/// the message verbatim, and advance the stamp.
pub open spec fn enqueue_spec(m: MailboxV, msg: Seq<char>) -> MailboxV {
    MailboxV {
        entries: m.entries.push(EntryV { name: stamp_name(m.next), body: msg }),
        next: m.next + 1,
    }
}

impl Mailbox {
    /// An empty mailbox whose first entry will carry stamp zero.
    pub fn new() -> (m: Mailbox)
        ensures
            m@.entries == Seq::<EntryV>::empty(),
            m@.next == 0,
    {
        let m = Mailbox { entries: Vec::new(), next_stamp: 0 };
        proof {
            assert(entry_views(m.entries@) =~= Seq::<EntryV>::empty());
        }
        m
    }

    /// Append one message verbatim under a fresh, monotonically increasing
    /// entry name.
    pub fn enqueue(&mut self, message: String)
        requires
            old(self)@.next < u64::MAX,
        ensures
            final(self)@ == enqueue_spec(old(self)@, message@),
    {
        let ghost mv = message@;
        let name = stamp_to_name(self.next_stamp);
        self.entries.push(MailEntry { name, body: message });
        self.next_stamp = self.next_stamp + 1;
        proof {
            assert(entry_views(self.entries@) =~= old(self)@.entries.push(
                EntryV { name: stamp_name(old(self)@.next), body: mv },
            ));
            assert(self@ =~= enqueue_spec(old(self)@, mv));
        }
    }

    /// Empty the mailbox and fold its entries: sorted by name, blank bodies
    /// dropped, the rest joined with newlines; nothing when nothing
    /// remains. The stamp counter is kept, so later entry names stay above
    /// all earlier ones.
    pub fn drain(&mut self) -> (r: Option<String>)
        ensures
            view_opt(r) == drain_spec(old(self)@.entries),
            final(self)@.entries == Seq::<EntryV>::empty(),
            final(self)@.next == old(self)@.next,
    {
        let mut es: Vec<MailEntry> = Vec::new();
        core::mem::swap(&mut es, &mut self.entries);
        proof {
            assert(entry_views(self.entries@) =~= Seq::<EntryV>::empty());
        }
        drain_entries(es)
    }
}

} // verus!

verus! {

// ---------------------------------------------------------------------------
// Laws
// ---------------------------------------------------------------------------
/// The mailbox after enqueuing each message of `msgs`, in order.
pub open spec fn enqueue_all(m: MailboxV, msgs: Seq<Seq<char>>) -> MailboxV
    decreases msgs.len(),
{
    if msgs.len() == 0 {
        m
    } else {
        enqueue_all(enqueue_spec(m, msgs[0]), msgs.skip(1))
    }
}

proof fn lemma_enqueue_all_entries(m: MailboxV, msgs: Seq<Seq<char>>)
    ensures
        enqueue_all(m, msgs).next == m.next + msgs.len(),
        enqueue_all(m, msgs).entries == m.entries + Seq::new(
            msgs.len(),
            |i: int| EntryV { name: stamp_name(m.next + i), body: msgs[i] },
        ),
    decreases msgs.len(),
{
    if msgs.len() == 0 {
        assert(m.entries + Seq::new(
            0,
            |i: int| EntryV { name: stamp_name(m.next + i), body: msgs[i] },
        ) =~= m.entries);
    } else {
        let m1 = enqueue_spec(m, msgs[0]);
        lemma_enqueue_all_entries(m1, msgs.skip(1));
        assert(m1.entries + Seq::new(
            msgs.skip(1).len(),
            |i: int| EntryV { name: stamp_name(m1.next + i), body: msgs.skip(1)[i] },
        ) =~= m.entries + Seq::new(
            msgs.len(),
            |i: int| EntryV { name: stamp_name(m.next + i), body: msgs[i] },
        ));
    }
}

proof fn lemma_sort_of_sorted(s: Seq<EntryV>)
    requires
        forall|i: int| 0 <= i < s.len() - 1 ==> lex_lt(#[trigger] s[i].name, s[i + 1].name),
    ensures
        sort_by_name(s) == s,
    decreases s.len(),
{
    if s.len() == 0 {
        assert(sort_by_name(s) =~= s);
    } else {
        let t = s.skip(1);
        assert(forall|i: int| 0 <= i < t.len() ==> #[trigger] t[i] == s[i + 1]);
        lemma_sort_of_sorted(t);
        if t.len() == 0 {
            assert(insert_sorted(s[0], t) =~= seq![s[0]]);
            assert(seq![s[0]] =~= s);
        } else {
            assert(lex_lt(s[0].name, t[0].name));
            assert(insert_sorted(s[0], t) == seq![s[0]] + t);
            assert(seq![s[0]] + t =~= s);
        }
    }
}

/// Law: enqueuing any sequence of non-blank messages into an empty mailbox
/// and then draining yields exactly the newline-join of those messages, in
/// enqueue order. A drain leaves no entries behind (see `Mailbox::drain`),
/// and draining an empty mailbox yields nothing (`lemma_drain_empty`), so a
/// subsequent drain returns nothing.
///
/// Whitespace-only messages are excluded: a drain discards them, so for
/// them the joined result would not hold (enqueue a single `" "` and the
/// drain yields nothing).
pub proof fn lemma_fifo_drain(m: MailboxV, msgs: Seq<Seq<char>>)
    requires
        m.entries.len() == 0,
        0 <= m.next,
        m.next + msgs.len() <= u64::MAX,
        msgs.len() > 0,
        forall|i: int| 0 <= i < msgs.len() ==> !crate::text::is_blank(#[trigger] msgs[i]),
    ensures
        drain_spec(enqueue_all(m, msgs).entries) == Option::<Seq<char>>::Some(
            crate::text::join_nl(msgs),
        ),
{
    lemma_enqueue_all_entries(m, msgs);
    let es = enqueue_all(m, msgs).entries;
    assert(es =~= Seq::new(
        msgs.len(),
        |i: int| EntryV { name: stamp_name(m.next + i), body: msgs[i] },
    ));
    assert forall|i: int| 0 <= i < es.len() - 1 implies lex_lt(
        #[trigger] es[i].name,
        es[i + 1].name,
    ) by {
        lemma_stamp_name_order(m.next + i, m.next + i + 1);
    }
    lemma_sort_of_sorted(es);
    assert(entry_bodies(es) =~= msgs);
    lemma_keep_all(msgs);
}

/// Law: draining a mailbox with no entries yields nothing.
pub proof fn lemma_drain_empty()
    ensures
        drain_spec(Seq::<EntryV>::empty()) == Option::<Seq<char>>::None,
{
    assert(sort_by_name(Seq::<EntryV>::empty()) == Seq::<EntryV>::empty());
    assert(entry_bodies(Seq::<EntryV>::empty()) =~= Seq::<Seq<char>>::empty());
    lemma_keep_empty();
}

} // verus!

verus! {

// ---------------------------------------------------------------------------
// Correctness of the sort
// ---------------------------------------------------------------------------
/// Entries stand in ascending name order.
pub open spec fn sorted_by_name_order(s: Seq<EntryV>) -> bool {
    forall|i: int, j: int|
        0 <= i < j < s.len() ==> crate::text::lex_le(#[trigger] s[i].name, #[trigger] s[j].name)
}

proof fn lemma_insert_sorted_multiset(e: EntryV, s: Seq<EntryV>)
    ensures
        insert_sorted(e, s).to_multiset() == s.to_multiset().insert(e),
    decreases s.len(),
{
    broadcast use vstd::seq_lib::group_to_multiset_ensures;
    broadcast use vstd::seq_lib::lemma_multiset_commutative;

    if s.len() == 0 {
        assert(seq![e] =~= Seq::<EntryV>::empty().push(e));
        assert(s =~= Seq::<EntryV>::empty());
        assert(insert_sorted(e, s).to_multiset() =~= s.to_multiset().insert(e));
    } else if crate::text::lex_le(e.name, s[0].name) {
        assert(seq![e] + s =~= s.insert(0, e));
        assert((seq![e] + s).to_multiset() =~= s.to_multiset().insert(e));
    } else {
        let t = s.skip(1);
        lemma_insert_sorted_multiset(e, t);
        assert(insert_sorted(e, s) == seq![s[0]] + insert_sorted(e, t));
        assert((seq![s[0]] + insert_sorted(e, t)).to_multiset() == seq![s[0]].to_multiset().add(
            insert_sorted(e, t).to_multiset(),
        ));
        assert(s =~= seq![s[0]] + t);
        assert(s.to_multiset() == seq![s[0]].to_multiset().add(t.to_multiset()));
        assert(seq![s[0]].to_multiset().add(t.to_multiset().insert(e)) =~= (seq![
            s[0],
        ].to_multiset().add(t.to_multiset())).insert(e));
    }
}

proof fn lemma_insert_sorted_order(e: EntryV, s: Seq<EntryV>)
    requires
        sorted_by_name_order(s),
    ensures
        sorted_by_name_order(insert_sorted(e, s)),
    decreases s.len(),
{
    broadcast use vstd::seq_lib::group_to_multiset_ensures;

    if s.len() == 0 {
    } else if crate::text::lex_le(e.name, s[0].name) {
        let r = seq![e] + s;
        assert forall|i: int, j: int| 0 <= i < j < r.len() implies crate::text::lex_le(
            #[trigger] r[i].name,
            #[trigger] r[j].name,
        ) by {
            if i == 0 {
                if j > 1 {
                    crate::text::lemma_lex_le_trans(e.name, s[0].name, s[j - 1].name);
                }
            }
        }
    } else {
        crate::text::lemma_lex_connected(e.name, s[0].name);
        crate::text::lemma_lex_irrefl(s[0].name);
        assert(crate::text::lex_lt(s[0].name, e.name));
        let t = s.skip(1);
        assert(forall|i: int| 0 <= i < t.len() ==> #[trigger] t[i] == s[i + 1]);
        lemma_insert_sorted_order(e, t);
        let rt = insert_sorted(e, t);
        lemma_insert_sorted_multiset(e, t);
        let r = seq![s[0]] + rt;
        assert forall|i: int, j: int| 0 <= i < j < r.len() implies crate::text::lex_le(
            #[trigger] r[i].name,
            #[trigger] r[j].name,
        ) by {
            if i == 0 {
                let x = rt[j - 1];
                assert(rt.contains(x));
                assert(rt.to_multiset().count(x) > 0);
                if x == e {
                    assert(crate::text::lex_le(s[0].name, e.name));
                } else {
                    assert(t.to_multiset().count(x) > 0);
                    assert(t.contains(x));
                    let k = choose|k: int| 0 <= k < t.len() && t[k] == x;
                    assert(crate::text::lex_le(s[0].name, s[k + 1].name));
                }
            }
        }
    }
}

/// The sort used by a drain leaves entries in ascending name order.
pub proof fn lemma_sort_by_name_sorted(s: Seq<EntryV>)
    ensures
        sorted_by_name_order(sort_by_name(s)),
    decreases s.len(),
{
    if s.len() > 0 {
        lemma_sort_by_name_sorted(s.skip(1));
        lemma_insert_sorted_order(s[0], sort_by_name(s.skip(1)));
    }
}

/// The sort used by a drain keeps exactly the given entries.
pub proof fn lemma_sort_by_name_permutes(s: Seq<EntryV>)
    ensures
        sort_by_name(s).to_multiset() == s.to_multiset(),
    decreases s.len(),
{
    broadcast use vstd::seq_lib::group_to_multiset_ensures;
    broadcast use vstd::seq_lib::lemma_multiset_commutative;

    if s.len() == 0 {
    } else {
        let t = s.skip(1);
        lemma_sort_by_name_permutes(t);
        lemma_insert_sorted_multiset(s[0], sort_by_name(t));
        assert(s =~= seq![s[0]] + t);
        assert(s.to_multiset() == seq![s[0]].to_multiset().add(t.to_multiset()));
        assert(seq![s[0]] =~= Seq::<EntryV>::empty().push(s[0]));
        assert(seq![s[0]].to_multiset() =~= Multiset::<EntryV>::empty().insert(s[0]));
        assert(sort_by_name(s).to_multiset() =~= s.to_multiset());
    }
}

} // verus!
