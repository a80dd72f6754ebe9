use vstd::prelude::*;

use crate::chars::{
    find_char, find_from, lead_count, lemma_find_from, lemma_lead_count_bound, push_char,
    lines, push_range, skip_run, str_eq, strip_cr, chars_of, is_whitespace, lead_ws, lemma_lead_ws_bound, lemma_trail_ws_bound, lemma_trim_shape,
    string_of, trail_ws, trim, trim_range, trim_start,
};

verus! {

// ---------------------------------------------------------------------------
// Sentence splitting for streamed text
// ---------------------------------------------------------------------------

/// `.`, `!` or `?`.
pub open spec fn is_terminal(c: char) -> bool {
    c == '.' || c == '!' || c == '?'
}

/// `u8::is_ascii_whitespace`: space, tab, line feed, form feed, carriage return.
pub open spec fn is_ascii_ws(c: char) -> bool {
    c == ' ' || c == '\t' || c == '\n' || c == '\x0C' || c == '\r'
}

/// A sentence ends at `j` when `s[j]` is terminal punctuation and the next
/// character is ASCII whitespace.
pub open spec fn ends_sentence_at(s: Seq<char>, j: int) -> bool {
    0 <= j && j + 1 < s.len() && is_terminal(s[j]) && is_ascii_ws(s[j + 1])
}

/// The end (exclusive) of the first complete sentence found at or after `k`.
pub open spec fn boundary_from(s: Seq<char>, k: nat) -> Option<nat>
    decreases s.len() - k,
{
    if k + 1 >= s.len() {
        None
    } else if ends_sentence_at(s, k as int) {
        Some(k + 1)
    } else {
        boundary_from(s, k + 1)
    }
}

/// The end (exclusive) of the first complete sentence of `s`.
pub open spec fn first_boundary(s: Seq<char>) -> Option<nat> {
    boundary_from(s, 0)
}

pub proof fn lemma_boundary_from(s: Seq<char>, k: nat)
    ensures
        boundary_from(s, k) matches Some(b) ==> k + 1 <= b < s.len() && ends_sentence_at(
            s,
            b - 1,
        ),
        boundary_from(s, k) matches Some(b) ==> forall|j: int|
            k <= j < b - 1 ==> !ends_sentence_at(s, j),
        boundary_from(s, k) is None ==> forall|j: int| k <= j ==> !ends_sentence_at(s, j),
    decreases s.len() - k,
{
    if k + 1 < s.len() && !ends_sentence_at(s, k as int) {
        lemma_boundary_from(s, k + 1);
    }
}

/// The complete sentences of a streamed buffer, each trimmed and non-empty, and
/// the partial text left over (with its leading whitespace removed).
pub open spec fn split_sentences(s: Seq<char>) -> (Seq<Seq<char>>, Seq<char>)
    decreases s.len(),
{
    match first_boundary(s) {
        None => (Seq::empty(), s),
        Some(b) => {
            proof {
                lemma_boundary_from(s, 0);
                lemma_lead_ws_bound(s.skip(b as int));
            }
            let sentence = trim(s.take(b as int));
            let rest = trim_start(s.skip(b as int));
            let (more, tail) = split_sentences(rest);
            (if sentence.len() > 0 {
                seq![sentence] + more
            } else {
                more
            }, tail)
        },
    }
}

/// Views of a vector of strings.
pub open spec fn string_views(v: Seq<String>) -> Seq<Seq<char>> {
    v.map_values(|s: String| s@)
}

fn find_boundary(v: &Vec<char>, p: usize) -> (r: Option<usize>)
    requires
        p <= v.len(),
    ensures
        r matches Some(b) ==> first_boundary(v@.subrange(p as int, v.len() as int)) == Some(
            (b - p) as nat,
        ) && p < b < v.len(),
        r is None ==> first_boundary(v@.subrange(p as int, v.len() as int)) is None,
{
    let ghost x = v@.subrange(p as int, v.len() as int);
    let mut i = p;
    while i < v.len() && i + 1 < v.len()
        invariant
            p <= i <= v.len(),
            x == v@.subrange(p as int, v.len() as int),
            boundary_from(x, 0) == boundary_from(x, (i - p) as nat),
        decreases v.len() - i,
    {
        let c = v[i];
        let d = v[i + 1];
        if (c == '.' || c == '!' || c == '?') && (d == ' ' || d == '\t' || d == '\n' || d
            == '\x0C' || d == '\r') {
            assert(ends_sentence_at(x, (i - p) as int));
            return Some(i + 1);
        }
        i = i + 1;
    }
    None
}

/// Drains the complete sentences from a streaming text buffer, leaving any trailing
/// partial sentence in `buf`. A sentence is complete once `.`, `!` or `?` is followed
/// by ASCII whitespace; each sentence is returned trimmed, and the text left in `buf`
/// has its leading whitespace removed.
pub fn take_sentences(buf: &mut String) -> (sentences: Vec<String>)
    ensures
        string_views(sentences@) == split_sentences(old(buf)@).0,
        final(buf)@ == split_sentences(old(buf)@).1,
{
    let v = chars_of(buf.as_str());
    let ghost s = v@;
    let mut out: Vec<String> = Vec::new();
    let mut p: usize = 0;
    assert(v@.subrange(0, v.len() as int) =~= s);
    loop
        invariant
            p <= v.len(),
            s == v@,
            split_sentences(s).0 == string_views(out@) + split_sentences(
                v@.subrange(p as int, v.len() as int),
            ).0,
            split_sentences(s).1 == split_sentences(v@.subrange(p as int, v.len() as int)).1,
        ensures
            p <= v.len(),
            s == v@,
            split_sentences(s).0 == string_views(out@),
            split_sentences(s).1 == v@.subrange(p as int, v.len() as int),
        decreases v.len() - p,
    {
        let ghost x = v@.subrange(p as int, v.len() as int);
        match find_boundary(&v, p) {
            None => {
                assert(split_sentences(x).0 =~= Seq::<Seq<char>>::empty());
                assert(string_views(out@) + Seq::<Seq<char>>::empty() =~= string_views(out@));
                break ;
            },
            Some(b) => {
                let (lo, hi) = trim_range(&v, p, b);
                let (np, _) = trim_range(&v, b, v.len());
                proof {
                    let bb = (b - p) as int;
                    assert(x.take(bb) =~= v@.subrange(p as int, b as int));
                    assert(x.skip(bb) =~= v@.subrange(b as int, v.len() as int));
                    lemma_lead_ws_bound(v@.subrange(b as int, v.len() as int));
                    assert(trim_start(x.skip(bb)) =~= v@.subrange(np as int, v.len() as int));
                }
                let ghost before = out@;
                if lo < hi {
                    let sentence = string_of(&v, lo, hi);
                    out.push(sentence);
                    proof {
                        assert(string_views(out@) =~= string_views(before).push(
                            v@.subrange(lo as int, hi as int),
                        ));
                        let more = split_sentences(v@.subrange(np as int, v.len() as int)).0;
                        assert(string_views(before) + (seq![v@.subrange(lo as int, hi as int)]
                            + more) =~= string_views(out@) + more);
                    }
                } else {
                    assert(v@.subrange(lo as int, hi as int).len() == 0);
                }
                p = np;
                proof {
                    lemma_boundary_from(v@, 0);
                }
                assert(p > 0);
            },
        }
    }
    *buf = string_of(&v, p, v.len());
    out
}

/// Every sentence taken from a buffer is non-empty, ends with `.`, `!` or `?`, and
/// has no whitespace at either end.
pub proof fn law_sentences_are_complete(s: Seq<char>)
    ensures
        forall|i: int|
            0 <= i < split_sentences(s).0.len() ==> {
                let t = #[trigger] split_sentences(s).0[i];
                &&& t.len() > 0
                &&& is_terminal(t.last())
                &&& !is_whitespace(t[0])
            },
    decreases s.len(),
{
    match first_boundary(s) {
        None => {},
        Some(b) => {
            lemma_boundary_from(s, 0);
            lemma_lead_ws_bound(s.skip(b as int));
            let t = s.take(b as int);
            let rest = trim_start(s.skip(b as int));
            law_sentences_are_complete(rest);
            lemma_trim_shape(t);
            lemma_lead_ws_bound(t);
            let ts = trim_start(t);
            assert(!is_whitespace(t.last()));
            assert(lead_ws(t) < t.len()) by {
                if lead_ws(t) == t.len() {
                    assert(is_whitespace(t[t.len() - 1]));
                }
            }
            assert(ts.last() == t.last());
            assert(trail_ws(ts) == 0);
            assert(trim(t) =~= ts);
            let more = split_sentences(rest).0;
            assert forall|i: int| 0 <= i < split_sentences(s).0.len() implies {
                let u = #[trigger] split_sentences(s).0[i];
                &&& u.len() > 0
                &&& is_terminal(u.last())
                &&& !is_whitespace(u[0])
            } by {
                if i > 0 {
                    assert(split_sentences(s).0[i] == more[i - 1]);
                }
            }
        },
    }
}

/// Whatever is left in the buffer holds no complete sentence: draining it again
/// yields nothing and leaves it unchanged.
pub proof fn law_take_sentences_idempotent(s: Seq<char>)
    ensures
        first_boundary(split_sentences(s).1) is None,
        split_sentences(split_sentences(s).1) == (Seq::<Seq<char>>::empty(), split_sentences(s).1),
    decreases s.len(),
{
    match first_boundary(s) {
        None => {},
        Some(b) => {
            lemma_boundary_from(s, 0);
            lemma_lead_ws_bound(s.skip(b as int));
            law_take_sentences_idempotent(trim_start(s.skip(b as int)));
        },
    }
}

proof fn lemma_lead_ws_exact(s: Seq<char>, n: nat)
    requires
        n <= s.len(),
        forall|i: int| 0 <= i < n ==> is_whitespace(#[trigger] s[i]),
        n < s.len() ==> !is_whitespace(s[n as int]),
    ensures
        lead_ws(s) == n,
    decreases n,
{
    if n > 0 {
        let t = s.drop_first();
        assert forall|i: int| 0 <= i < n - 1 implies is_whitespace(#[trigger] t[i]) by {
            assert(t[i] == s[i + 1]);
        }
        if n - 1 < t.len() {
            assert(t[n - 1] == s[n as int]);
        }
        assert(is_whitespace(s[0]));
        lemma_lead_ws_exact(t, (n - 1) as nat);
    }
}

/// Whitespace in front of a text changes neither its trimmed start nor its trim.
proof fn lemma_trim_ws_prefix(w: Seq<char>, x: Seq<char>)
    requires
        forall|i: int| 0 <= i < w.len() ==> is_whitespace(#[trigger] w[i]),
    ensures
        trim_start(w + x) == trim_start(x),
        trim(w + x) == trim(x),
{
    lemma_lead_ws_bound(x);
    let y = w + x;
    let n = w.len() + lead_ws(x);
    assert forall|i: int| 0 <= i < n implies is_whitespace(#[trigger] y[i]) by {
        if i >= w.len() {
            assert(y[i] == x[i - w.len()]);
        }
    }
    if n < y.len() {
        assert(y[n as int] == x[lead_ws(x) as int]);
    }
    lemma_lead_ws_exact(y, n);
    assert(y.skip(n as int) =~= x.skip(lead_ws(x) as int));
}

/// A text that is not all whitespace keeps what is appended to it when its start is
/// trimmed.
proof fn lemma_trim_start_append(u: Seq<char>, t: Seq<char>)
    requires
        lead_ws(u) < u.len(),
    ensures
        trim_start(u + t) == trim_start(u) + t,
{
    lemma_lead_ws_bound(u);
    let y = u + t;
    let n = lead_ws(u);
    assert forall|i: int| 0 <= i < n implies is_whitespace(#[trigger] y[i]) by {
        assert(y[i] == u[i]);
    }
    assert(y[n as int] == u[n as int]);
    lemma_lead_ws_exact(y, n);
    assert(y.skip(n as int) =~= u.skip(n as int) + t);
}

/// A boundary found in a text stays the first boundary when more text follows.
proof fn lemma_boundary_prefix(t1: Seq<char>, t2: Seq<char>)
    requires
        first_boundary(t1) is Some,
    ensures
        first_boundary(t1 + t2) == first_boundary(t1),
{
    let x = t1 + t2;
    let b = first_boundary(t1)->0;
    lemma_boundary_from(t1, 0);
    lemma_boundary_from(x, 0);
    assert(x[b - 1] == t1[b - 1] && x[b as int] == t1[b as int]);
    assert(ends_sentence_at(x, b - 1));
    match first_boundary(x) {
        None => {},
        Some(c) => {
            if c < b {
                assert(x[c - 1] == t1[c - 1] && x[c as int] == t1[c as int]);
                assert(ends_sentence_at(t1, c - 1));
            }
        },
    }
}

/// Whitespace is never terminal punctuation.
proof fn lemma_ws_not_terminal(c: char)
    requires
        is_whitespace(c),
    ensures
        !is_terminal(c),
{
}

/// Whitespace in front of a text shifts its first boundary by its length.
proof fn lemma_boundary_ws_prefix(w: Seq<char>, s: Seq<char>)
    requires
        forall|i: int| 0 <= i < w.len() ==> is_whitespace(#[trigger] w[i]),
    ensures
        first_boundary(w + s) == (match first_boundary(s) {
            Some(b) => Some((b + w.len()) as nat),
            None => None,
        }),
{
    let x = w + s;
    let n = w.len() as int;
    assert forall|j: int| #[trigger] ends_sentence_at(x, j) implies j >= n && ends_sentence_at(
        s,
        j - n,
    ) by {
        if j < n {
            assert(x[j] == w[j]);
            lemma_ws_not_terminal(w[j]);
        } else {
            assert(x[j] == s[j - n] && x[j + 1] == s[j - n + 1]);
        }
    }
    assert forall|j: int| #[trigger] ends_sentence_at(s, j) implies ends_sentence_at(x, j + n) by {
        assert(x[j + n] == s[j] && x[j + n + 1] == s[j + 1]);
    }
    lemma_boundary_from(s, 0);
    lemma_boundary_from(x, 0);
    match (first_boundary(s), first_boundary(x)) {
        (Some(b), Some(c)) => {
            assert(ends_sentence_at(x, b - 1 + n));
            assert(ends_sentence_at(x, c - 1));
            assert(ends_sentence_at(s, c - 1 - n));
        },
        (Some(b), None) => {
            assert(ends_sentence_at(x, b - 1 + n));
        },
        (None, Some(c)) => {
            assert(ends_sentence_at(x, c - 1));
            assert(ends_sentence_at(s, c - 1 - n));
        },
        (None, None) => {},
    }
}

/// Whitespace in front of a buffer changes none of its sentences, and what is left
/// over only by leading whitespace.
proof fn lemma_split_ws_prefix(w: Seq<char>, s: Seq<char>)
    requires
        forall|i: int| 0 <= i < w.len() ==> is_whitespace(#[trigger] w[i]),
    ensures
        split_sentences(w + s).0 == split_sentences(s).0,
        trim_start(split_sentences(w + s).1) == trim_start(split_sentences(s).1),
{
    lemma_boundary_ws_prefix(w, s);
    let x = w + s;
    match first_boundary(s) {
        None => {
            lemma_trim_ws_prefix(w, s);
        },
        Some(b) => {
            lemma_boundary_from(s, 0);
            let c = (b + w.len()) as int;
            assert(x.take(c) =~= w + s.take(b as int));
            lemma_trim_ws_prefix(w, s.take(b as int));
            assert(x.skip(c) =~= s.skip(b as int));
        },
    }
}

/// Draining sentences while the text streams in gives the sentences that draining the
/// whole text at once gives, in the same order, and the same text left over but for
/// leading whitespace.
pub proof fn law_streamed_sentences(t1: Seq<char>, t2: Seq<char>)
    ensures
        split_sentences(t1).0 + split_sentences(split_sentences(t1).1 + t2).0 == split_sentences(
            t1 + t2,
        ).0,
        trim_start(split_sentences(split_sentences(t1).1 + t2).1) == trim_start(
            split_sentences(t1 + t2).1,
        ),
    decreases t1.len(),
{
    match first_boundary(t1) {
        None => {
            assert(Seq::<Seq<char>>::empty() + split_sentences(t1 + t2).0 =~= split_sentences(
                t1 + t2,
            ).0);
        },
        Some(b) => {
            lemma_boundary_from(t1, 0);
            lemma_boundary_prefix(t1, t2);
            let x = t1 + t2;
            let u = t1.skip(b as int);
            let rest1 = trim_start(u);
            lemma_lead_ws_bound(u);
            law_streamed_sentences(rest1, t2);
            assert(x.take(b as int) =~= t1.take(b as int));
            assert(x.skip(b as int) =~= u + t2);
            let rest_x = trim_start(u + t2);
            if lead_ws(u) < u.len() {
                lemma_trim_start_append(u, t2);
                assert(rest_x == rest1 + t2);
            } else {
                assert(rest1 =~= Seq::<char>::empty());
                assert(rest1 + t2 =~= t2);
                assert forall|i: int| 0 <= i < u.len() implies is_whitespace(#[trigger] u[i]) by {}
                lemma_trim_ws_prefix(u, t2);
                lemma_lead_ws_bound(t2);
                let lw = t2.take(lead_ws(t2) as int);
                assert(t2 =~= lw + trim_start(t2));
                assert forall|i: int| 0 <= i < lw.len() implies is_whitespace(#[trigger] lw[i]) by {
                    assert(lw[i] == t2[i]);
                }
                lemma_split_ws_prefix(lw, trim_start(t2));
                assert(split_sentences(rest1 + t2).0 == split_sentences(rest_x).0);
            }
            let sentence = trim(t1.take(b as int));
            let head: Seq<Seq<char>> = if sentence.len() > 0 {
                seq![sentence]
            } else {
                Seq::empty()
            };
            let more1 = split_sentences(rest1).0;
            let r2 = split_sentences(split_sentences(rest1).1 + t2).0;
            assert(split_sentences(t1).0 == head + more1);
            assert(split_sentences(x).0 == head + split_sentences(rest_x).0);
            assert(head + more1 + r2 =~= head + (more1 + r2));
        },
    }
}

} // verus!

verus! {

// ---------------------------------------------------------------------------
// Markdown stripping for speech
// ---------------------------------------------------------------------------

pub open spec fn is_digit(c: char) -> bool {
    '0' <= c && c <= '9'
}

/// Number of leading ASCII digits of `s`.
pub open spec fn lead_digits(s: Seq<char>) -> nat
    decreases s.len(),
{
    if s.len() > 0 && is_digit(s[0]) {
        1 + lead_digits(s.drop_first())
    } else {
        0
    }
}

/// A line opening or closing a code fence.
pub open spec fn is_fence(t: Seq<char>) -> bool {
    t.len() >= 3 && t[0] == '`' && t[1] == '`' && t[2] == '`'
}

/// Drops a line's heading hashes, a `> ` quote marker, a `- `/`* `/`+ ` bullet and a
/// `1. ` number, in that order.
pub open spec fn strip_block(line: Seq<char>) -> Seq<char> {
    let s1 = trim_start(line.skip(lead_count(line, '#') as int));
    let s2 = if s1.len() >= 2 && s1[0] == '>' && s1[1] == ' ' {
        s1.skip(2)
    } else {
        s1
    };
    let s3 = if s2.len() >= 2 && (s2[0] == '-' || s2[0] == '*' || s2[0] == '+') && s2[1] == ' ' {
        s2.skip(2)
    } else {
        s2
    };
    let d = lead_digits(s3);
    if d > 0 && d + 2 <= s3.len() && s3[d as int] == '.' && s3[d + 1 as int] == ' ' {
        s3.skip(d + 2 as int)
    } else {
        s3
    }
}

/// Number of characters of a link target consumed, `t` starting just after `(` and
/// `depth` open parentheses pending.
pub open spec fn paren_end(t: Seq<char>, depth: int) -> nat
    decreases t.len(),
{
    if t.len() == 0 {
        0
    } else if t[0] == '(' {
        1 + paren_end(t.drop_first(), depth + 1)
    } else if t[0] == ')' {
        if depth - 1 == 0 {
            1
        } else {
            1 + paren_end(t.drop_first(), depth - 1)
        }
    } else {
        1 + paren_end(t.drop_first(), depth)
    }
}

pub proof fn lemma_paren_end_bound(t: Seq<char>, depth: int)
    ensures
        paren_end(t, depth) <= t.len(),
    decreases t.len(),
{
    if t.len() > 0 {
        if t[0] == '(' {
            lemma_paren_end_bound(t.drop_first(), depth + 1);
        } else if t[0] == ')' {
            lemma_paren_end_bound(t.drop_first(), depth - 1);
        } else {
            lemma_paren_end_bound(t.drop_first(), depth);
        }
    }
}

/// Inline markdown removed: `*`, `_`, `**`, `__` and runs of backticks vanish;
/// `[text](target)` becomes `text`; an unmatched `[` is kept as written.
pub open spec fn strip_inline(s: Seq<char>) -> Seq<char>
    decreases s.len(),
{
    if s.len() == 0 {
        Seq::empty()
    } else {
        let c = s[0];
        let r = s.drop_first();
        if c == '*' || c == '_' {
            if r.len() > 0 && r[0] == c {
                strip_inline(r.drop_first())
            } else {
                strip_inline(r)
            }
        } else if c == '`' {
            proof {
                lemma_lead_count_bound(r, '`');
            }
            strip_inline(r.skip(lead_count(r, '`') as int))
        } else if c == '[' {
            match find_from(r, ']', 0) {
                None => seq!['['] + r,
                Some(j) => {
                    proof {
                        lemma_find_from(r, ']', 0);
                    }
                    let text = r.take(j as int);
                    let after = r.skip(j + 1 as int);
                    if after.len() > 0 && after[0] == '(' {
                        proof {
                            lemma_paren_end_bound(after.drop_first(), 1);
                        }
                        text + strip_inline(
                            after.drop_first().skip(paren_end(after.drop_first(), 1) as int),
                        )
                    } else {
                        seq!['['] + text + seq![']'] + strip_inline(after)
                    }
                },
            }
        } else {
            seq![c] + strip_inline(r)
        }
    }
}

/// Printable ASCII: `' '..='~'`.
pub open spec fn is_printable_ascii(c: char) -> bool {
    0x20 <= c as u32 <= 0x7e
}

/// Keeps printable ASCII; each run of other characters becomes one space, unless a
/// space was just written.
pub open spec fn pronounceable(s: Seq<char>, last_space: bool) -> Seq<char>
    decreases s.len(),
{
    if s.len() == 0 {
        Seq::empty()
    } else if is_printable_ascii(s[0]) {
        seq![s[0]] + pronounceable(s.drop_first(), s[0] == ' ')
    } else if !last_space {
        seq![' '] + pronounceable(s.drop_first(), true)
    } else {
        pronounceable(s.drop_first(), true)
    }
}

/// One markdown line (already trimmed) cleaned for speech.
pub open spec fn clean_line(t: Seq<char>) -> Seq<char> {
    trim(pronounceable(strip_inline(strip_block(t)), false))
}

/// The cleaned, non-empty lines outside code fences.
pub open spec fn spoken_lines(ls: Seq<Seq<char>>, in_fence: bool) -> Seq<Seq<char>>
    decreases ls.len(),
{
    if ls.len() == 0 {
        Seq::empty()
    } else {
        let t = trim(ls[0]);
        let rest = ls.drop_first();
        if is_fence(t) {
            spoken_lines(rest, !in_fence)
        } else if in_fence {
            spoken_lines(rest, in_fence)
        } else if clean_line(t).len() > 0 {
            seq![clean_line(t)] + spoken_lines(rest, in_fence)
        } else {
            spoken_lines(rest, in_fence)
        }
    }
}

/// The pieces joined by single spaces.
pub open spec fn join_spaced(ps: Seq<Seq<char>>) -> Seq<char>
    decreases ps.len(),
{
    if ps.len() == 0 {
        Seq::empty()
    } else if ps.len() == 1 {
        ps[0]
    } else {
        join_spaced(ps.drop_last()) + seq![' '] + ps.last()
    }
}

/// Markdown text as it should be spoken.
pub open spec fn spoken_text(text: Seq<char>) -> Seq<char> {
    trim(join_spaced(spoken_lines(lines(text), false)))
}

fn strip_block_markers(v: &Vec<char>, lo: usize, hi: usize) -> (r: usize)
    requires
        lo <= hi <= v.len(),
    ensures
        lo <= r <= hi,
        v@.subrange(r as int, hi as int) == strip_block(v@.subrange(lo as int, hi as int)),
{
    let ghost line = v@.subrange(lo as int, hi as int);
    let a = skip_run(v, lo, hi, '#');
    let (b, _) = trim_range(v, a, hi);
    assert(line.skip(lead_count(line, '#') as int) =~= v@.subrange(a as int, hi as int));
    let ghost s1 = v@.subrange(b as int, hi as int);
    let c = if b < hi && hi - b >= 2 && v[b] == '>' && v[b + 1] == ' ' {
        b + 2
    } else {
        b
    };
    assert(v@.subrange(c as int, hi as int) =~= (if s1.len() >= 2 && s1[0] == '>' && s1[1]
        == ' ' {
        s1.skip(2)
    } else {
        s1
    }));
    let ghost s2 = v@.subrange(c as int, hi as int);
    let d = if c < hi && hi - c >= 2 && (v[c] == '-' || v[c] == '*' || v[c] == '+') && v[c + 1] == ' ' {
        c + 2
    } else {
        c
    };
    assert(v@.subrange(d as int, hi as int) =~= (if s2.len() >= 2 && (s2[0] == '-' || s2[0]
        == '*' || s2[0] == '+') && s2[1] == ' ' {
        s2.skip(2)
    } else {
        s2
    }));
    let ghost s3 = v@.subrange(d as int, hi as int);
    let mut e = d;
    while e < hi && '0' <= v[e] && v[e] <= '9'
        invariant
            d <= e <= hi <= v.len(),
            s3 == v@.subrange(d as int, hi as int),
            lead_digits(s3) == (e - d) + lead_digits(v@.subrange(e as int, hi as int)),
        decreases hi - e,
    {
        assert(v@.subrange(e as int, hi as int).drop_first() =~= v@.subrange(
            e + 1,
            hi as int,
        ));
        e = e + 1;
    }
    assert(lead_digits(v@.subrange(e as int, hi as int)) == 0);
    if e > d && hi - e >= 2 && v[e] == '.' && v[e + 1] == ' ' {
        assert(v@.subrange(e + 2, hi as int) =~= s3.skip((e - d) + 2));
        e + 2
    } else {
        d
    }
}

/// Index just past a link target in `v[lo..hi]`, `lo` being just after the `(`.
fn skip_link_target(v: &Vec<char>, lo: usize, hi: usize) -> (r: usize)
    requires
        lo <= hi <= v.len(),
    ensures
        r == lo + paren_end(v@.subrange(lo as int, hi as int), 1),
        lo <= r <= hi,
{
    let mut i = lo;
    let mut depth: u128 = 1;
    proof {
        lemma_paren_end_bound(v@.subrange(lo as int, hi as int), 1);
    }
    while i < hi
        invariant
            lo <= i <= hi <= v.len(),
            1 <= depth <= i - lo + 1,
            paren_end(v@.subrange(lo as int, hi as int), 1) == (i - lo) + paren_end(
                v@.subrange(i as int, hi as int),
                depth as int,
            ),
        decreases hi - i,
    {
        let c = v[i];
        assert(v@.subrange(i as int, hi as int).drop_first() =~= v@.subrange(
            i + 1,
            hi as int,
        ));
        if c == '(' {
            depth = depth + 1;
        } else if c == ')' {
            if depth == 1 {
                return i + 1;
            }
            depth = depth - 1;
        }
        i = i + 1;
    }
    i
}

fn strip_inline_markers(v: &Vec<char>, lo: usize, hi: usize) -> (r: Vec<char>)
    requires
        lo <= hi <= v.len(),
    ensures
        r@ == strip_inline(v@.subrange(lo as int, hi as int)),
{
    let mut out: Vec<char> = Vec::new();
    let mut i = lo;
    while i < hi
        invariant
            lo <= i <= hi <= v.len(),
            strip_inline(v@.subrange(lo as int, hi as int)) == out@ + strip_inline(
                v@.subrange(i as int, hi as int),
            ),
        decreases hi - i,
    {
        let ghost s = v@.subrange(i as int, hi as int);
        let ghost r = s.drop_first();
        assert(r =~= v@.subrange(i + 1, hi as int));
        let ghost before = out@;
        let c = v[i];
        if c == '*' || c == '_' {
            if i + 1 < hi && v[i + 1] == c {
                assert(r.drop_first() =~= v@.subrange(i + 2, hi as int));
                i = i + 2;
            } else {
                i = i + 1;
            }
        } else if c == '`' {
            let j = skip_run(v, i + 1, hi, '`');
            assert(r.skip(lead_count(r, '`') as int) =~= v@.subrange(j as int, hi as int));
            i = j;
        } else if c == '[' {
            match find_char(v, i + 1, hi, ']') {
                None => {
                    let mut k = i + 1;
                    out.push('[');
                    while k < hi
                        invariant
                            i + 1 <= k <= hi <= v.len(),
                            out@ == before + seq!['['] + v@.subrange(i + 1, k as int),
                        decreases hi - k,
                    {
                        out.push(v[k]);
                        k = k + 1;
                        assert(out@ =~= before + seq!['['] + v@.subrange(i + 1, k as int));
                    }
                    assert(strip_inline(v@.subrange(hi as int, hi as int)) =~= Seq::<
                        char,
                    >::empty());
                    assert(out@ =~= before + (seq!['['] + r) + Seq::<char>::empty());
                    i = hi;
                },
                Some(j) => {
                    let ghost jj = (j - (i + 1)) as int;
                    assert(r.take(jj) =~= v@.subrange(i + 1, j as int));
                    assert(r.skip(jj + 1) =~= v@.subrange(j + 1, hi as int));
                    if j + 1 < hi && v[j + 1] == '(' {
                        let e = skip_link_target(v, j + 2, hi);
                        assert(r.skip(jj + 1).drop_first() =~= v@.subrange(j + 2, hi as int));
                        assert(r.skip(jj + 1).drop_first().skip(
                            paren_end(r.skip(jj + 1).drop_first(), 1) as int,
                        ) =~= v@.subrange(e as int, hi as int));
                        let mut k = i + 1;
                        while k < j
                            invariant
                                i + 1 <= k <= j < hi <= v.len(),
                                out@ == before + v@.subrange(i + 1, k as int),
                            decreases j - k,
                        {
                            out.push(v[k]);
                            k = k + 1;
                            assert(out@ =~= before + v@.subrange(i + 1, k as int));
                        }
                        i = e;
                    } else {
                        let mut k = i + 1;
                        out.push('[');
                        while k < j
                            invariant
                                i + 1 <= k <= j < hi <= v.len(),
                                out@ == before + seq!['['] + v@.subrange(i + 1, k as int),
                            decreases j - k,
                        {
                            out.push(v[k]);
                            k = k + 1;
                            assert(out@ =~= before + seq!['['] + v@.subrange(i + 1, k as int));
                        }
                        out.push(']');
                        i = j + 1;
                    }
                },
            }
        } else {
            out.push(c);
            i = i + 1;
        }
        assert(strip_inline(v@.subrange(lo as int, hi as int)) =~= out@ + strip_inline(
            v@.subrange(i as int, hi as int),
        ));
    }
    out
}

fn strip_unpronounceable(s: &Vec<char>) -> (r: Vec<char>)
    ensures
        r@ == trim(pronounceable(s@, false)),
{
    let mut out: Vec<char> = Vec::new();
    let mut last_space = false;
    let mut i: usize = 0;
    assert(s@.subrange(0, s.len() as int) =~= s@);
    while i < s.len()
        invariant
            i <= s.len(),
            pronounceable(s@, false) == out@ + pronounceable(
                s@.subrange(i as int, s.len() as int),
                last_space,
            ),
        decreases s.len() - i,
    {
        let c = s[i];
        assert(s@.subrange(i as int, s.len() as int).drop_first() =~= s@.subrange(
            i + 1,
            s.len() as int,
        ));
        let ghost before = out@;
        let n = c as u32;
        if 0x20 <= n && n <= 0x7e {
            out.push(c);
            last_space = c == ' ';
        } else if !last_space {
            out.push(' ');
            last_space = true;
        }
        assert(pronounceable(s@, false) =~= out@ + pronounceable(
            s@.subrange(i + 1, s.len() as int),
            last_space,
        ));
        i = i + 1;
    }
    assert(pronounceable(s@.subrange(i as int, s.len() as int), last_space) =~= Seq::<
        char,
    >::empty());
    assert(out@ =~= pronounceable(s@, false));
    let (a, b) = trim_range(&out, 0, out.len());
    assert(out@.subrange(0, out.len() as int) =~= out@);
    let mut r: Vec<char> = Vec::new();
    let mut k = a;
    while k < b
        invariant
            a <= k <= b <= out.len(),
            r@ == out@.subrange(a as int, k as int),
        decreases b - k,
    {
        r.push(out[k]);
        k = k + 1;
        assert(r@ =~= out@.subrange(a as int, k as int));
    }
    r
}

proof fn lemma_join_push(ps: Seq<Seq<char>>, x: Seq<char>)
    ensures
        join_spaced(ps.push(x)) == (if ps.len() == 0 {
            x
        } else {
            join_spaced(ps) + seq![' '] + x
        }),
{
    assert(ps.push(x).drop_last() =~= ps);
}

/// Removes markdown from model output so that it can be spoken: code fences and their
/// contents are dropped, block markers and inline markers are stripped, characters that
/// are not printable ASCII become single spaces, and the remaining non-empty lines are
/// joined by spaces.
pub fn strip_markdown(text: &str) -> (out: String)
    ensures
        out@ == spoken_text(text@),
{
    let v = chars_of(text);
    let mut out = String::new();
    let ghost mut pieces: Seq<Seq<char>> = Seq::empty();
    let mut in_fence = false;
    let mut wrote = false;
    let mut p: usize = 0;
    assert(v@.subrange(0, v.len() as int) =~= v@);
    while p < v.len()
        invariant
            p <= v.len(),
            spoken_lines(lines(v@), false) == pieces + spoken_lines(
                lines(v@.subrange(p as int, v.len() as int)),
                in_fence,
            ),
            out@ == join_spaced(pieces),
            wrote == (pieces.len() > 0),
        decreases v.len() - p,
    {
        let ghost rem = v@.subrange(p as int, v.len() as int);
        let (end, next) = match find_char(&v, p, v.len(), '\n') {
            Some(j) => {
                proof {
                    lemma_find_from(rem, '\n', 0);
                }
                let e = if j > p && v[j - 1] == '\r' {
                    j - 1
                } else {
                    j
                };
                assert(v@.subrange(p as int, e as int) =~= strip_cr(rem.take(j - p)));
                assert(rem.skip(j - p + 1) =~= v@.subrange(j + 1, v.len() as int));
                (e, j + 1)
            },
            None => {
                assert(v@.subrange(p as int, v.len() as int) =~= rem);
                (v.len(), v.len())
            },
        };
        assert(lines(rem) =~= seq![v@.subrange(p as int, end as int)] + lines(
            v@.subrange(next as int, v.len() as int),
        ));
        let ghost rest = lines(v@.subrange(next as int, v.len() as int));
        assert(lines(rem).drop_first() =~= rest);
        let (a, b) = trim_range(&v, p, end);
        let ghost t = v@.subrange(a as int, b as int);
        if b - a >= 3 && v[a] == '`' && v[a + 1] == '`' && v[a + 2] == '`' {
            in_fence = !in_fence;
        } else if !in_fence {
            let s1 = strip_block_markers(&v, a, b);
            let s2 = strip_inline_markers(&v, s1, b);
            let s3 = strip_unpronounceable(&s2);
            assert(s3@ == clean_line(t));
            if s3.len() > 0 {
                proof {
                    lemma_join_push(pieces, s3@);
                }
                if wrote {
                    push_char(&mut out, ' ');
                }
                wrote = true;
                push_range(&mut out, &s3, 0, s3.len());
                assert(s3@.subrange(0, s3.len() as int) =~= s3@);
                proof {
                    assert(pieces + (seq![s3@] + spoken_lines(rest, in_fence)) =~= pieces.push(
                        s3@,
                    ) + spoken_lines(rest, in_fence));
                    pieces = pieces.push(s3@);
                }
            }
        }
        p = next;
    }
    assert(lines(v@.subrange(p as int, v.len() as int)) =~= Seq::<Seq<char>>::empty());
    assert(pieces + Seq::<Seq<char>>::empty() =~= pieces);
    let w = chars_of(out.as_str());
    let (a, b) = trim_range(&w, 0, w.len());
    assert(w@.subrange(0, w.len() as int) =~= w@);
    string_of(&w, a, b)
}

} // verus!

verus! {

pub open spec fn all_printable(s: Seq<char>) -> bool {
    forall|i: int| 0 <= i < s.len() ==> is_printable_ascii(#[trigger] s[i])
}

proof fn lemma_pronounceable_printable(s: Seq<char>, last_space: bool)
    ensures
        all_printable(pronounceable(s, last_space)),
    decreases s.len(),
{
    if s.len() > 0 {
        let r = s.drop_first();
        if is_printable_ascii(s[0]) {
            lemma_pronounceable_printable(r, s[0] == ' ');
            let p = pronounceable(r, s[0] == ' ');
            assert forall|i: int| 0 <= i < pronounceable(s, last_space).len() implies is_printable_ascii(
                #[trigger] pronounceable(s, last_space)[i],
            ) by {
                if i > 0 {
                    assert(pronounceable(s, last_space)[i] == p[i - 1]);
                }
            }
        } else if !last_space {
            lemma_pronounceable_printable(r, true);
            let p = pronounceable(r, true);
            assert forall|i: int| 0 <= i < pronounceable(s, last_space).len() implies is_printable_ascii(
                #[trigger] pronounceable(s, last_space)[i],
            ) by {
                if i > 0 {
                    assert(pronounceable(s, last_space)[i] == p[i - 1]);
                }
            }
        } else {
            lemma_pronounceable_printable(r, true);
        }
    }
}

proof fn lemma_trim_printable(s: Seq<char>)
    requires
        all_printable(s),
    ensures
        all_printable(trim(s)),
{
    lemma_lead_ws_bound(s);
    let t = trim_start(s);
    lemma_trail_ws_bound(t);
    assert forall|i: int| 0 <= i < trim(s).len() implies is_printable_ascii(#[trigger] trim(s)[i]) by {
        assert(trim(s)[i] == s[i + lead_ws(s)]);
    }
}

proof fn lemma_spoken_lines_printable(ls: Seq<Seq<char>>, in_fence: bool)
    ensures
        forall|i: int|
            0 <= i < spoken_lines(ls, in_fence).len() ==> all_printable(
                #[trigger] spoken_lines(ls, in_fence)[i],
            ),
    decreases ls.len(),
{
    if ls.len() > 0 {
        let t = trim(ls[0]);
        let rest = ls.drop_first();
        if is_fence(t) {
            lemma_spoken_lines_printable(rest, !in_fence);
            assert(spoken_lines(ls, in_fence) == spoken_lines(rest, !in_fence));
        } else if in_fence {
            lemma_spoken_lines_printable(rest, in_fence);
            assert(spoken_lines(ls, in_fence) == spoken_lines(rest, in_fence));
        } else {
            lemma_spoken_lines_printable(rest, in_fence);
            let c = clean_line(t);
            lemma_pronounceable_printable(strip_inline(strip_block(t)), false);
            lemma_trim_printable(pronounceable(strip_inline(strip_block(t)), false));
            if c.len() > 0 {
                let more = spoken_lines(rest, in_fence);
                assert forall|i: int| 0 <= i < spoken_lines(ls, in_fence).len() implies all_printable(
                    #[trigger] spoken_lines(ls, in_fence)[i],
                ) by {
                    if i > 0 {
                        assert(spoken_lines(ls, in_fence)[i] == more[i - 1]);
                    } else {
                        assert(spoken_lines(ls, in_fence)[0] == c);
                    }
                }
            } else {
                assert(spoken_lines(ls, in_fence) == spoken_lines(rest, in_fence));
            }
        }
    }
}

proof fn lemma_join_printable(ps: Seq<Seq<char>>)
    requires
        forall|i: int| 0 <= i < ps.len() ==> all_printable(#[trigger] ps[i]),
    ensures
        all_printable(join_spaced(ps)),
    decreases ps.len(),
{
    if ps.len() > 1 {
        let init = ps.drop_last();
        assert forall|i: int| 0 <= i < init.len() implies all_printable(#[trigger] init[i]) by {
            assert(init[i] == ps[i]);
        }
        lemma_join_printable(init);
        let a = join_spaced(init);
        let b = ps.last();
        assert(all_printable(b));
        let j = join_spaced(ps);
        assert forall|i: int| 0 <= i < j.len() implies is_printable_ascii(#[trigger] j[i]) by {
            if i < a.len() {
                assert(j[i] == a[i]);
            } else if i == a.len() {
                assert(j[i] == ' ');
            } else {
                assert(j[i] == b[i - a.len() - 1]);
            }
        }
    } else if ps.len() == 1 {
        assert(all_printable(ps[0]));
    }
}

/// What is spoken consists of printable ASCII characters only and neither starts nor
/// ends with whitespace.
pub proof fn law_spoken_text_is_clean(text: Seq<char>)
    ensures
        all_printable(spoken_text(text)),
        spoken_text(text).len() > 0 ==> !is_whitespace(spoken_text(text)[0]) && !is_whitespace(
            spoken_text(text).last(),
        ),
{
    let ps = spoken_lines(lines(text), false);
    lemma_spoken_lines_printable(lines(text), false);
    lemma_join_printable(ps);
    lemma_trim_printable(join_spaced(ps));
    lemma_trim_shape(join_spaced(ps));
}

proof fn lemma_lead_digits_exact(t: Seq<char>, n: nat)
    requires
        n <= t.len(),
        forall|i: int| 0 <= i < n ==> '0' <= #[trigger] t[i] <= '9',
        n < t.len() ==> !('0' <= t[n as int] <= '9'),
    ensures
        lead_digits(t) == n,
    decreases n,
{
    if n > 0 {
        let u = t.drop_first();
        assert forall|i: int| 0 <= i < n - 1 implies '0' <= #[trigger] u[i] <= '9' by {
            assert(u[i] == t[i + 1]);
        }
        if n - 1 < u.len() {
            assert(u[n - 1] == t[n as int]);
        }
        assert('0' <= t[0] <= '9');
        lemma_lead_digits_exact(u, (n - 1) as nat);
    }
}

/// A line that opens with a number loses it only as a list marker: when its leading
/// digits are followed by `. `, the digits and the `. ` are dropped; otherwise (a
/// decimal such as `3.5`, a number at the end of a sentence, a plain number) the line
/// is kept whole.
pub proof fn law_numbers_kept_unless_list_marker(t: Seq<char>, n: int)
    requires
        0 < n <= t.len(),
        forall|i: int| 0 <= i < n ==> '0' <= #[trigger] t[i] <= '9',
        n < t.len() ==> !('0' <= t[n] <= '9'),
    ensures
        n + 1 < t.len() && t[n] == '.' && t[n + 1] == ' ' ==> strip_block(t) == t.skip(n + 2),
        !(n + 1 < t.len() && t[n] == '.' && t[n + 1] == ' ') ==> strip_block(t) == t,
{
    assert('0' <= t[0] <= '9');
    assert(lead_count(t, '#') == 0);
    assert(t.skip(0) =~= t);
    assert(!is_whitespace(t[0]));
    assert(lead_ws(t) == 0);
    assert(trim_start(t) =~= t);
    lemma_lead_digits_exact(t, n as nat);
}

} // verus!

verus! {

// ---------------------------------------------------------------------------
// Model settings
// ---------------------------------------------------------------------------

/// The numeric precision that the speech model runs in.
#[derive(Clone, Copy, Debug, PartialEq, Eq)]
pub enum TtsDType {
    BF16,
    F16,
    F32,
}

/// `char::to_ascii_lowercase`.
pub open spec fn ascii_lower(c: char) -> char {
    if 'A' <= c && c <= 'Z' {
        ((c as u32) + 32) as char
    } else {
        c
    }
}

/// `str::to_ascii_lowercase`.
pub open spec fn ascii_lowercase(s: Seq<char>) -> Seq<char> {
    s.map_values(|c: char| ascii_lower(c))
}

/// What a `TTS_DTYPE` setting asks for, compared without regard to ASCII case.
pub open spec fn dtype_of(s: Seq<char>) -> Option<TtsDType> {
    let l = ascii_lowercase(s);
    if l == "bf16"@ {
        Some(TtsDType::BF16)
    } else if l == "f16"@ || l == "fp16"@ {
        Some(TtsDType::F16)
    } else if l == "f32"@ || l == "fp32"@ {
        Some(TtsDType::F32)
    } else {
        None
    }
}

fn lowercase(s: &str) -> (r: String)
    ensures
        r@ == ascii_lowercase(s@),
{
    let v = chars_of(s);
    let mut out = String::new();
    let mut i: usize = 0;
    while i < v.len()
        invariant
            i <= v.len(),
            out@ == ascii_lowercase(v@.take(i as int)),
        decreases v.len() - i,
    {
        let c = v[i];
        let l = if 'A' <= c && c <= 'Z' {
            ((c as u8) + 32) as char
        } else {
            c
        };
        assert(l == ascii_lower(c));
        push_char(&mut out, l);
        i = i + 1;
        assert(out@ =~= ascii_lowercase(v@.take(i as int)));
    }
    assert(v@.take(i as int) =~= v@);
    out
}

/// Parses a `TTS_DTYPE` setting (`bf16`, `f16`/`fp16` or `f32`/`fp32`, in any ASCII
/// case); anything else is refused with a message naming it.
pub fn parse_tts_dtype(dtype: &str) -> (r: Result<TtsDType, String>)
    ensures
        dtype_of(dtype@) matches Some(d) ==> r == Ok::<TtsDType, String>(d),
        dtype_of(dtype@) is None ==> (r matches Err(e) && e@ == "unknown TTS_DTYPE '"@
            + ascii_lowercase(dtype@) + "' (expected bf16, f16, or f32)"@),
{
    let l = lowercase(dtype);
    if str_eq(l.as_str(), "bf16") {
        Ok(TtsDType::BF16)
    } else if str_eq(l.as_str(), "f16") || str_eq(l.as_str(), "fp16") {
        Ok(TtsDType::F16)
    } else if str_eq(l.as_str(), "f32") || str_eq(l.as_str(), "fp32") {
        Ok(TtsDType::F32)
    } else {
        let mut msg = String::from_str("unknown TTS_DTYPE '");
        msg.append(l.as_str());
        msg.append("' (expected bf16, f16, or f32)");
        Err(msg)
    }
}

} // verus!
