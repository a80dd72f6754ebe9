use vstd::prelude::*;

verus! {

/// Unicode `White_Space`, the set that `char::is_whitespace` and `str::trim` use.
pub open spec fn is_whitespace(c: char) -> bool {
    let n = c as u32;
    ||| n == 0x20
    ||| 0x09 <= n <= 0x0d
    ||| n == 0x85
    ||| n == 0xa0
    ||| n == 0x1680
    ||| 0x2000 <= n <= 0x200a
    ||| n == 0x2028
    ||| n == 0x2029
    ||| n == 0x202f
    ||| n == 0x205f
    ||| n == 0x3000
}

/// Number of whitespace characters at the front of `s`.
pub open spec fn lead_ws(s: Seq<char>) -> nat
    decreases s.len(),
{
    if s.len() > 0 && is_whitespace(s[0]) {
        1 + lead_ws(s.drop_first())
    } else {
        0
    }
}

/// Number of whitespace characters at the back of `s`.
pub open spec fn trail_ws(s: Seq<char>) -> nat
    decreases s.len(),
{
    if s.len() > 0 && is_whitespace(s.last()) {
        1 + trail_ws(s.drop_last())
    } else {
        0
    }
}

/// `str::trim_start`.
pub open spec fn trim_start(s: Seq<char>) -> Seq<char> {
    s.skip(lead_ws(s) as int)
}

/// `str::trim_end`.
pub open spec fn trim_end(s: Seq<char>) -> Seq<char> {
    s.take(s.len() - trail_ws(s))
}

/// `str::trim`.
pub open spec fn trim(s: Seq<char>) -> Seq<char> {
    trim_end(trim_start(s))
}

pub proof fn lemma_lead_ws_bound(s: Seq<char>)
    ensures
        lead_ws(s) <= s.len(),
        forall|i: int| 0 <= i < lead_ws(s) ==> is_whitespace(#[trigger] s[i]),
        lead_ws(s) < s.len() ==> !is_whitespace(s[lead_ws(s) as int]),
    decreases s.len(),
{
    if s.len() > 0 && is_whitespace(s[0]) {
        lemma_lead_ws_bound(s.drop_first());
        assert forall|i: int| 0 <= i < lead_ws(s) implies is_whitespace(#[trigger] s[i]) by {
            if i > 0 {
                assert(s[i] == s.drop_first()[i - 1]);
            }
        }
    }
}

pub proof fn lemma_trail_ws_bound(s: Seq<char>)
    ensures
        trail_ws(s) <= s.len(),
        forall|i: int| s.len() - trail_ws(s) <= i < s.len() ==> is_whitespace(#[trigger] s[i]),
        trail_ws(s) < s.len() ==> !is_whitespace(s[s.len() - trail_ws(s) - 1]),
    decreases s.len(),
{
    if s.len() > 0 && is_whitespace(s.last()) {
        lemma_trail_ws_bound(s.drop_last());
        assert forall|i: int| s.len() - trail_ws(s) <= i < s.len() implies is_whitespace(
            #[trigger] s[i],
        ) by {
            if i < s.len() - 1 {
                assert(s[i] == s.drop_last()[i]);
            }
        }
    }
}

/// A trimmed sequence neither starts nor ends with whitespace.
pub proof fn lemma_trim_shape(s: Seq<char>)
    ensures
        trim(s).len() <= s.len(),
        trim(s).len() > 0 ==> !is_whitespace(trim(s)[0]) && !is_whitespace(trim(s).last()),
        trim_start(s).len() <= s.len(),
        trim_start(s).len() > 0 ==> !is_whitespace(trim_start(s)[0]),
{
    lemma_lead_ws_bound(s);
    let t = trim_start(s);
    lemma_trail_ws_bound(t);
    lemma_lead_ws_bound(t);
}

/// `char::is_whitespace`.
pub fn is_whitespace_exec(c: char) -> (r: bool)
    ensures
        r == is_whitespace(c),
{
    let n = c as u32;
    n == 0x20 || (0x09 <= n && n <= 0x0d) || n == 0x85 || n == 0xa0 || n == 0x1680 || (0x2000
        <= n && n <= 0x200a) || n == 0x2028 || n == 0x2029 || n == 0x202f || n == 0x205f || n
        == 0x3000
}

/// The characters of `s`, in order.
pub fn chars_of(s: &str) -> (v: Vec<char>)
    ensures
        v@ == s@,
{
    let mut v: Vec<char> = Vec::new();
    for c in it: s.chars()
        invariant
            v@ == it.seq().take(it.index() as int),
    {
        v.push(c);
    }
    v
}

/// Appends `c` to `s` (`String::push`).
#[verifier::external_body]
pub fn push_char(s: &mut String, c: char)
    ensures
        final(s)@ == old(s)@.push(c),
{
    s.push(c);
}

/// The string made of `v[lo..hi]`.
pub fn string_of(v: &Vec<char>, lo: usize, hi: usize) -> (s: String)
    requires
        lo <= hi <= v.len(),
    ensures
        s@ == v@.subrange(lo as int, hi as int),
{
    let mut s = String::new();
    let mut i = lo;
    while i < hi
        invariant
            lo <= i <= hi <= v.len(),
            s@ == v@.subrange(lo as int, i as int),
        decreases hi - i,
    {
        push_char(&mut s, v[i]);
        i = i + 1;
        assert(s@ =~= v@.subrange(lo as int, i as int));
    }
    s
}

/// Appends `v[lo..hi]` to `s`.
pub fn push_range(s: &mut String, v: &Vec<char>, lo: usize, hi: usize)
    requires
        lo <= hi <= v.len(),
    ensures
        final(s)@ == old(s)@ + v@.subrange(lo as int, hi as int),
{
    let ghost start = s@;
    let mut i = lo;
    while i < hi
        invariant
            lo <= i <= hi <= v.len(),
            s@ == start + v@.subrange(lo as int, i as int),
        decreases hi - i,
    {
        push_char(s, v[i]);
        i = i + 1;
        assert(s@ =~= start + v@.subrange(lo as int, i as int));
    }
}

/// First index at or after `lo` (and before `hi`) whose character is not whitespace;
/// `hi` when there is none.
pub fn skip_ws(v: &Vec<char>, lo: usize, hi: usize) -> (r: usize)
    requires
        lo <= hi <= v.len(),
    ensures
        r == lo + lead_ws(v@.subrange(lo as int, hi as int)),
        lo <= r <= hi,
{
    let mut i = lo;
    proof {
        lemma_lead_ws_bound(v@.subrange(lo as int, hi as int));
    }
    while i < hi && is_whitespace_exec(v[i])
        invariant
            lo <= i <= hi <= v.len(),
            lead_ws(v@.subrange(lo as int, hi as int)) == (i - lo) + lead_ws(
                v@.subrange(i as int, hi as int),
            ),
        decreases hi - i,
    {
        assert(v@.subrange(i as int, hi as int).drop_first() =~= v@.subrange(
            i + 1,
            hi as int,
        ));
        i = i + 1;
    }
    proof {
        lemma_lead_ws_bound(v@.subrange(i as int, hi as int));
    }
    i
}

/// One past the last index before `hi` (and at or after `lo`) whose character is not
/// whitespace; `lo` when there is none.
pub fn back_ws(v: &Vec<char>, lo: usize, hi: usize) -> (r: usize)
    requires
        lo <= hi <= v.len(),
    ensures
        r == hi - trail_ws(v@.subrange(lo as int, hi as int)),
        lo <= r <= hi,
{
    let mut i = hi;
    proof {
        lemma_trail_ws_bound(v@.subrange(lo as int, hi as int));
    }
    while i > lo && is_whitespace_exec(v[i - 1])
        invariant
            lo <= i <= hi <= v.len(),
            trail_ws(v@.subrange(lo as int, hi as int)) == (hi - i) + trail_ws(
                v@.subrange(lo as int, i as int),
            ),
        decreases i - lo,
    {
        assert(v@.subrange(lo as int, i as int).drop_last() =~= v@.subrange(
            lo as int,
            i - 1,
        ));
        i = i - 1;
    }
    i
}

/// `v[lo..hi]` trimmed, as the bounds of the trimmed range.
pub fn trim_range(v: &Vec<char>, lo: usize, hi: usize) -> (r: (usize, usize))
    requires
        lo <= hi <= v.len(),
    ensures
        lo <= r.0 <= r.1 <= hi,
        v@.subrange(r.0 as int, r.1 as int) == trim(v@.subrange(lo as int, hi as int)),
        v@.subrange(r.0 as int, hi as int) == trim_start(v@.subrange(lo as int, hi as int)),
{
    let a = skip_ws(v, lo, hi);
    let b = back_ws(v, a, hi);
    assert(v@.subrange(a as int, hi as int) =~= trim_start(v@.subrange(lo as int, hi as int)));
    assert(v@.subrange(a as int, b as int) =~= trim(v@.subrange(lo as int, hi as int)));
    (a, b)
}

} // verus!

verus! {

/// The index of the first `c` in `s` at or after `k`.
pub open spec fn find_from(s: Seq<char>, c: char, k: nat) -> Option<nat>
    decreases s.len() - k,
{
    if k >= s.len() {
        None
    } else if s[k as int] == c {
        Some(k)
    } else {
        find_from(s, c, k + 1)
    }
}

pub proof fn lemma_find_from(s: Seq<char>, c: char, k: nat)
    ensures
        find_from(s, c, k) matches Some(j) ==> k <= j < s.len() && s[j as int] == c,
        find_from(s, c, k) matches Some(j) ==> forall|i: int| k <= i < j ==> s[i] != c,
        find_from(s, c, k) is None ==> forall|i: int| k <= i < s.len() ==> s[i] != c,
    decreases s.len() - k,
{
    if k < s.len() && s[k as int] != c {
        lemma_find_from(s, c, k + 1);
    }
}

/// Number of leading `c` characters of `s`.
pub open spec fn lead_count(s: Seq<char>, c: char) -> nat
    decreases s.len(),
{
    if s.len() > 0 && s[0] == c {
        1 + lead_count(s.drop_first(), c)
    } else {
        0
    }
}

pub proof fn lemma_lead_count_bound(s: Seq<char>, c: char)
    ensures
        lead_count(s, c) <= s.len(),
    decreases s.len(),
{
    if s.len() > 0 && s[0] == c {
        lemma_lead_count_bound(s.drop_first(), c);
    }
}

/// Index of the first `c` in `v[lo..hi]`.
pub fn find_char(v: &Vec<char>, lo: usize, hi: usize, c: char) -> (r: Option<usize>)
    requires
        lo <= hi <= v.len(),
    ensures
        r matches Some(j) ==> lo <= j < hi && find_from(v@.subrange(lo as int, hi as int), c, 0)
            == Some((j - lo) as nat),
        r is None ==> find_from(v@.subrange(lo as int, hi as int), c, 0) is None,
{
    let ghost x = v@.subrange(lo as int, hi as int);
    let mut i = lo;
    while i < hi
        invariant
            lo <= i <= hi <= v.len(),
            x == v@.subrange(lo as int, hi as int),
            find_from(x, c, 0) == find_from(x, c, (i - lo) as nat),
        decreases hi - i,
    {
        if v[i] == c {
            return Some(i);
        }
        i = i + 1;
    }
    None
}

/// Index just past the run of `c` starting at `lo` in `v[lo..hi]`.
pub fn skip_run(v: &Vec<char>, lo: usize, hi: usize, c: char) -> (r: usize)
    requires
        lo <= hi <= v.len(),
    ensures
        r == lo + lead_count(v@.subrange(lo as int, hi as int), c),
        lo <= r <= hi,
{
    let mut i = lo;
    proof {
        lemma_lead_count_bound(v@.subrange(lo as int, hi as int), c);
    }
    while i < hi && v[i] == c
        invariant
            lo <= i <= hi <= v.len(),
            lead_count(v@.subrange(lo as int, hi as int), c) == (i - lo) + lead_count(
                v@.subrange(i as int, hi as int),
                c,
            ),
        decreases hi - i,
    {
        assert(v@.subrange(i as int, hi as int).drop_first() =~= v@.subrange(
            i + 1,
            hi as int,
        ));
        i = i + 1;
    }
    i
}

/// `str::lines`: split at `\n`; a `\r` right before a `\n` is dropped; a final
/// line ending is optional.
pub open spec fn lines(s: Seq<char>) -> Seq<Seq<char>>
    decreases s.len(),
{
    if s.len() == 0 {
        Seq::empty()
    } else {
        match find_from(s, '\n', 0) {
            None => seq![s],
            Some(i) => {
                proof {
                    lemma_find_from(s, '\n', 0);
                }
                seq![strip_cr(s.take(i as int))] + lines(s.skip(i + 1 as int))
            },
        }
    }
}

pub open spec fn strip_cr(l: Seq<char>) -> Seq<char> {
    if l.len() > 0 && l.last() == '\r' {
        l.drop_last()
    } else {
        l
    }
}

/// The next line of `v[p..]`: its text is `v[p..end]` and the text after it starts at
/// `next`.
pub fn next_line(v: &Vec<char>, p: usize) -> (r: (usize, usize))
    requires
        p < v.len(),
    ensures
        p <= r.0 <= r.1 <= v.len(),
        p < r.1,
        lines(v@.subrange(p as int, v.len() as int)) == seq![v@.subrange(p as int, r.0 as int)]
            + lines(v@.subrange(r.1 as int, v.len() as int)),
{
    let ghost rem = v@.subrange(p as int, v.len() as int);
    match find_char(v, p, v.len(), '\n') {
        Some(j) => {
            proof {
                lemma_find_from(rem, '\n', 0);
            }
            let e = if j > p && v[j - 1] == '\r' {
                j - 1
            } else {
                j
            };
            assert(v@.subrange(p as int, e as int) =~= strip_cr(rem.take(j - p)));
            assert(rem.skip(j - p + 1) =~= v@.subrange(j + 1, v.len() as int));
            (e, j + 1)
        },
        None => {
            assert(v@.subrange(v.len() as int, v.len() as int).len() == 0);
            (v.len(), v.len())
        },
    }
}

} // verus!

verus! {

/// `a == b` on string slices.
pub fn str_eq(a: &str, b: &str) -> (r: bool)
    ensures
        r == (a@ == b@),
{
    let x = String::from_str(a);
    let y = String::from_str(b);
    x == y
}

} // verus!
