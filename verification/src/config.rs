use vstd::prelude::*;
use vstd::relations::sorted_by;
use vstd::seq_lib::{lemma_multiset_commutative, to_multiset_build};

use crate::chars::{chars_of, lines, next_line, string_of, trim, trim_range};
use crate::string_map::StringMap;
use crate::tts::string_views;

verus! {

// ---------------------------------------------------------------------------
// `astra.conf` lookups
// ---------------------------------------------------------------------------

/// `l` starts with `p`.
pub open spec fn has_prefix(l: Seq<char>, p: Seq<char>) -> bool {
    p.len() <= l.len() && l.take(p.len() as int) == p
}

/// `s` up to its first `#`: what follows a `#` on a line is a comment.
pub open spec fn strip_comment(s: Seq<char>) -> Seq<char> {
    match crate::chars::find_from(s, '#', 0) {
        Some(j) => s.take(j as int),
        None => s,
    }
}

/// The value that the text after a key's `=` gives: up to an inline `#` comment,
/// trimmed.
pub open spec fn conf_value(rest: Seq<char>) -> Seq<char> {
    trim(strip_comment(rest))
}

/// The value of `key` on the first line that starts with `key`.
pub open spec fn first_value(ls: Seq<Seq<char>>, key: Seq<char>) -> Option<Seq<char>>
    decreases ls.len(),
{
    if ls.len() == 0 {
        None
    } else if has_prefix(ls[0], key) {
        Some(conf_value(ls[0].skip(key.len() as int)))
    } else {
        first_value(ls.drop_first(), key)
    }
}

/// The value of `key` on the first line that starts with `key` and gives a value that
/// is not blank.
pub open spec fn first_nonempty_value(ls: Seq<Seq<char>>, key: Seq<char>) -> Option<Seq<char>>
    decreases ls.len(),
{
    if ls.len() == 0 {
        None
    } else if has_prefix(ls[0], key) && conf_value(ls[0].skip(key.len() as int)).len() > 0 {
        Some(conf_value(ls[0].skip(key.len() as int)))
    } else {
        first_nonempty_value(ls.drop_first(), key)
    }
}

pub open spec fn is_digit_char(c: char) -> bool {
    '0' <= c && c <= '9'
}

/// Every character of `d` is a decimal digit.
pub open spec fn all_digits(d: Seq<char>) -> bool {
    forall|i: int| 0 <= i < d.len() ==> is_digit_char(#[trigger] d[i])
}

/// The number written by a sequence of decimal digits.
pub open spec fn digits_value(s: Seq<char>) -> nat
    decreases s.len(),
{
    if s.len() == 0 {
        0
    } else {
        digits_value(s.drop_last()) * 10 + ((s.last() as u32) - ('0' as u32)) as nat
    }
}

/// `usize::from_str`: an optional `+`, then one or more decimal digits whose value fits.
pub open spec fn parse_usize(s: Seq<char>) -> Option<usize> {
    let d = if s.len() > 0 && s[0] == '+' {
        s.drop_first()
    } else {
        s
    };
    if d.len() > 0 && all_digits(d) && digits_value(d) <= usize::MAX {
        Some(digits_value(d) as usize)
    } else {
        None
    }
}

proof fn lemma_digits_monotone(s: Seq<char>, i: int)
    requires
        0 <= i <= s.len(),
        forall|k: int| 0 <= k < s.len() ==> is_digit_char(#[trigger] s[k]),
    ensures
        digits_value(s.take(i)) <= digits_value(s),
    decreases s.len() - i,
{
    if i < s.len() {
        lemma_digits_monotone(s, i + 1);
        assert(s.take(i + 1).drop_last() =~= s.take(i));
    } else {
        assert(s.take(i) =~= s);
    }
}

proof fn lemma_overflow(d: Seq<char>, i: int, value: int, digit: int)
    requires
        0 <= i < d.len(),
        forall|k: int| 0 <= k < i ==> is_digit_char(#[trigger] d[k]),
        is_digit_char(d[i]),
        value == digits_value(d.take(i)),
        digit == (d[i] as u32) - ('0' as u32),
        value * 10 + digit > usize::MAX,
    ensures
        !(all_digits(d) && digits_value(d) <= usize::MAX),
{
    if all_digits(d) {
        lemma_digits_monotone(d, i + 1);
        assert(d.take(i + 1).drop_last() =~= d.take(i));
    }
}

fn parse_usize_range(v: &Vec<char>, lo: usize, hi: usize) -> (r: Option<usize>)
    requires
        lo <= hi <= v.len(),
    ensures
        r == parse_usize(v@.subrange(lo as int, hi as int)),
{
    let ghost s = v@.subrange(lo as int, hi as int);
    let start = if lo < hi && v[lo] == '+' {
        lo + 1
    } else {
        lo
    };
    let ghost d = v@.subrange(start as int, hi as int);
    assert(d =~= (if s.len() > 0 && s[0] == '+' {
        s.drop_first()
    } else {
        s
    }));
    if start == hi {
        assert(d.len() == 0);
        return None;
    }
    let mut i = start;
    let mut value: usize = 0;
    while i < hi
        invariant
            start <= i <= hi <= v.len(),
            d == v@.subrange(start as int, hi as int),
            s == v@.subrange(lo as int, hi as int),
            d == (if s.len() > 0 && s[0] == '+' {
                s.drop_first()
            } else {
                s
            }),
            d.len() > 0,
            forall|k: int| start <= k < i ==> is_digit_char(#[trigger] v@[k]),
            value == digits_value(v@.subrange(start as int, i as int)),
        decreases hi - i,
    {
        let c = v[i];
        assert(d[(i - start) as int] == v@[i as int]);
        assert(d.take((i - start) as int) =~= v@.subrange(start as int, i as int));
        if !('0' <= c && c <= '9') {
            assert(!is_digit_char(d[i - start]));
            return None;
        }
        let digit = (c as u32 - '0' as u32) as usize;
        assert(v@.subrange(start as int, i + 1).drop_last() =~= v@.subrange(start as int, i as int));
        match value.checked_mul(10) {
            None => {
                proof {
                    lemma_overflow(d, (i - start) as int, value as int, digit as int);
                }
                return None;
            },
            Some(m) => match m.checked_add(digit) {
                None => {
                    proof {
                        lemma_overflow(d, (i - start) as int, value as int, digit as int);
                    }
                    return None;
                },
                Some(n) => {
                    value = n;
                },
            },
        }
        i = i + 1;
    }
    assert(v@.subrange(start as int, i as int) =~= d);
    Some(value)
}

} // verus!

verus! {

/// The value that a lookup of `key` finds: with `nonempty`, lines whose value is
/// blank are passed over.
pub open spec fn lookup_spec(ls: Seq<Seq<char>>, key: Seq<char>, nonempty: bool) -> Option<
    Seq<char>,
> {
    if nonempty {
        first_nonempty_value(ls, key)
    } else {
        first_value(ls, key)
    }
}

pub fn has_prefix_at(v: &Vec<char>, lo: usize, hi: usize, key: &Vec<char>) -> (r: bool)
    requires
        lo <= hi <= v.len(),
    ensures
        r == has_prefix(v@.subrange(lo as int, hi as int), key@),
{
    if key.len() > hi - lo {
        return false;
    }
    let mut i: usize = 0;
    while i < key.len()
        invariant
            key.len() <= hi - lo,
            lo <= hi <= v.len(),
            i <= key.len(),
            forall|k: int| 0 <= k < i ==> v@[lo + k] == key@[k],
        decreases key.len() - i,
    {
        if v[lo + i] != key[i] {
            assert(v@.subrange(lo as int, hi as int).take(key.len() as int)[i as int] != key@[i as int]);
            return false;
        }
        i = i + 1;
    }
    assert(v@.subrange(lo as int, hi as int).take(key.len() as int) =~= key@);
    true
}

/// The bounds of the value that `v[lo..hi]`, the text after a key's `=`, gives.
fn value_range(v: &Vec<char>, lo: usize, hi: usize) -> (r: (usize, usize))
    requires
        lo <= hi <= v.len(),
    ensures
        lo <= r.0 <= r.1 <= hi,
        v@.subrange(r.0 as int, r.1 as int) == conf_value(v@.subrange(lo as int, hi as int)),
{
    let ghost x = v@.subrange(lo as int, hi as int);
    let stop = match crate::chars::find_char(v, lo, hi, '#') {
        Some(h) => {
            assert(x.take(h - lo) =~= v@.subrange(lo as int, h as int));
            h
        },
        None => hi,
    };
    assert(strip_comment(x) == v@.subrange(lo as int, stop as int));
    trim_range(v, lo, stop)
}

/// The value of `key` on the first line of `text` that starts with `key`
/// (with `nonempty`, the first such line whose value is not blank).
fn lookup_value(text: &str, key: &str, nonempty: bool) -> (r: Option<String>)
    ensures
        r matches Some(s) ==> lookup_spec(lines(text@), key@, nonempty) == Some(s@),
        r is None ==> lookup_spec(lines(text@), key@, nonempty) is None,
{
    let v = chars_of(text);
    let k = chars_of(key);
    let mut p: usize = 0;
    assert(v@.subrange(0, v.len() as int) =~= v@);
    while p < v.len()
        invariant
            p <= v.len(),
            k@ == key@,
            lookup_spec(lines(text@), key@, nonempty) == lookup_spec(
                lines(v@.subrange(p as int, v.len() as int)),
                key@,
                nonempty,
            ),
            v@ == text@,
        decreases v.len() - p,
    {
        let (end, next) = next_line(&v, p);
        let ghost ls = lines(v@.subrange(p as int, v.len() as int));
        let ghost l = v@.subrange(p as int, end as int);
        assert(ls[0] == l);
        assert(ls.drop_first() =~= lines(v@.subrange(next as int, v.len() as int)));
        if has_prefix_at(&v, p, end, &k) {
            let (a, b) = value_range(&v, p + k.len(), end);
            assert(l.skip(key@.len() as int) =~= v@.subrange(p + k.len(), end as int));
            if !nonempty || a < b {
                return Some(string_of(&v, a, b));
            }
        }
        p = next;
    }
    assert(lines(v@.subrange(p as int, v.len() as int)) =~= Seq::<Seq<char>>::empty());
    None
}

/// The result of a required `astra.conf` key: its value, or the message naming the key
/// that is missing.
pub open spec fn required_value(r: Result<String, String>, found: Option<Seq<char>>, missing: Seq<
    char,
>) -> bool {
    match found {
        Some(v) => r matches Ok(s) && s@ == v,
        None => r matches Err(e) && e@ == missing,
    }
}

/// The Ollama endpoint named by `OLLAMA_ENDPOINT=` in the text of `astra.conf`.
pub fn load_ollama_url(conf_text: &str) -> (r: Result<String, String>)
    ensures
        required_value(
            r,
            first_value(lines(conf_text@), "OLLAMA_ENDPOINT="@),
            "OLLAMA_ENDPOINT key not found in .astra/astra.conf"@,
        ),
{
    match lookup_value(conf_text, "OLLAMA_ENDPOINT=", false) {
        Some(v) => Ok(v),
        None => Err(String::from_str("OLLAMA_ENDPOINT key not found in .astra/astra.conf")),
    }
}

/// The Whisper model path named by `WHISPER_MODEL=` in the text of `astra.conf`.
pub fn load_whisper_model_path(conf_text: &str) -> (r: Result<String, String>)
    ensures
        required_value(
            r,
            first_value(lines(conf_text@), "WHISPER_MODEL="@),
            "WHISPER_MODEL key not found in .astra/astra.conf"@,
        ),
{
    match lookup_value(conf_text, "WHISPER_MODEL=", false) {
        Some(v) => Ok(v),
        None => Err(String::from_str("WHISPER_MODEL key not found in .astra/astra.conf")),
    }
}

/// The TTS voice named by `TTS_VOICE=` in the text of `astra.conf`.
pub fn load_tts_voice(conf_text: &str) -> (r: Result<String, String>)
    ensures
        required_value(
            r,
            first_value(lines(conf_text@), "TTS_VOICE="@),
            "TTS_VOICE key not found in .astra/astra.conf"@,
        ),
{
    match lookup_value(conf_text, "TTS_VOICE=", false) {
        Some(v) => Ok(v),
        None => Err(String::from_str("TTS_VOICE key not found in .astra/astra.conf")),
    }
}

/// The cap on TTS generation steps: the first `TTS_MAX_TOKENS=` line decides, and a
/// value that is not a `usize` gives `None`, as does a missing key.
pub fn load_tts_max_tokens(conf_text: &str) -> (r: Option<usize>)
    ensures
        r == (match first_value(lines(conf_text@), "TTS_MAX_TOKENS="@) {
            Some(v) => parse_usize(v),
            None => None,
        }),
{
    match lookup_value(conf_text, "TTS_MAX_TOKENS=", false) {
        Some(v) => {
            let c = chars_of(v.as_str());
            assert(c@.subrange(0, c.len() as int) =~= c@);
            parse_usize_range(&c, 0, c.len())
        },
        None => None,
    }
}

/// The speaker to synthesize with: `TTS_VOICE`, or `ryan` when the key is absent.
pub fn tts_voice_setting(conf_text: &str) -> (r: String)
    ensures
        r@ == (match first_value(lines(conf_text@), "TTS_VOICE="@) {
            Some(v) => v,
            None => "ryan"@,
        }),
{
    match lookup_value(conf_text, "TTS_VOICE=", false) {
        Some(v) => v,
        None => String::from_str("ryan"),
    }
}

/// The cap on TTS generation steps: `TTS_MAX_TOKENS`, or 512 when the key is absent or
/// its value is not a `usize`.
pub fn tts_max_tokens_setting(conf_text: &str) -> (r: usize)
    ensures
        r == (match first_value(lines(conf_text@), "TTS_MAX_TOKENS="@) {
            Some(v) => match parse_usize(v) {
                Some(n) => n,
                None => 512,
            },
            None => 512,
        }),
{
    match load_tts_max_tokens(conf_text) {
        Some(n) => n,
        None => 512,
    }
}

/// The Ollama model to chat with: `OLLAMA_MODEL`, or `qwen3.5:9b` when the key is
/// absent.
pub fn ollama_model_setting(conf_text: &str) -> (r: String)
    ensures
        r@ == (match first_value(lines(conf_text@), "OLLAMA_MODEL="@) {
            Some(v) => v,
            None => "qwen3.5:9b"@,
        }),
{
    match lookup_value(conf_text, "OLLAMA_MODEL=", false) {
        Some(v) => v,
        None => String::from_str("qwen3.5:9b"),
    }
}

/// The GGUF quantization named by the first `TTS_QUANT=` line with a non-blank value.
pub fn load_tts_quant(conf_text: &str) -> (r: Option<String>)
    ensures
        r matches Some(s) ==> first_nonempty_value(lines(conf_text@), "TTS_QUANT="@) == Some(
            s@,
        ),
        r is None ==> first_nonempty_value(lines(conf_text@), "TTS_QUANT="@) is None,
{
    lookup_value(conf_text, "TTS_QUANT=", true)
}

} // verus!

verus! {

// ---------------------------------------------------------------------------
// System prompt assembly
// ---------------------------------------------------------------------------

/// A file name whose extension is `md` (`Path::extension`: the text after the last
/// `.`, where a name that only starts with `.` has none).
pub open spec fn is_markdown_name(n: Seq<char>) -> bool {
    n.len() > 3 && n[n.len() - 3] == '.' && n[n.len() - 2] == 'm' && n[n.len() - 1] == 'd'
}

/// Lexicographic order by code point, the order of file names within one directory.
pub open spec fn name_le(a: Seq<char>, b: Seq<char>) -> bool
    decreases a.len(),
{
    if a.len() == 0 {
        true
    } else if b.len() == 0 {
        false
    } else if a[0] != b[0] {
        a[0] < b[0]
    } else {
        name_le(a.drop_first(), b.drop_first())
    }
}

pub proof fn lemma_name_le_total(a: Seq<char>, b: Seq<char>)
    ensures
        name_le(a, b) || name_le(b, a),
    decreases a.len(),
{
    if a.len() > 0 && b.len() > 0 && a[0] == b[0] {
        lemma_name_le_total(a.drop_first(), b.drop_first());
    }
}

pub proof fn lemma_name_le_transitive(a: Seq<char>, b: Seq<char>, c: Seq<char>)
    requires
        name_le(a, b),
        name_le(b, c),
    ensures
        name_le(a, c),
    decreases a.len(),
{
    if a.len() > 0 && b.len() > 0 && c.len() > 0 && a[0] == b[0] && b[0] == c[0] {
        lemma_name_le_transitive(a.drop_first(), b.drop_first(), c.drop_first());
    }
}

/// The order of `name_le` as a relation.
pub open spec fn name_order() -> spec_fn(Seq<char>, Seq<char>) -> bool {
    |a: Seq<char>, b: Seq<char>| name_le(a, b)
}

/// The names of a directory's markdown files.
pub open spec fn markdown_names(names: Seq<Seq<char>>) -> Seq<Seq<char>> {
    names.filter(|n: Seq<char>| is_markdown_name(n))
}

fn is_markdown_file(name: &String) -> (r: bool)
    ensures
        r == is_markdown_name(name@),
{
    let v = chars_of(name.as_str());
    let n = v.len();
    n > 3 && v[n - 3] == '.' && v[n - 2] == 'm' && v[n - 1] == 'd'
}

fn name_le_exec(a: &String, b: &String) -> (r: bool)
    ensures
        r == name_le(a@, b@),
{
    let x = chars_of(a.as_str());
    let y = chars_of(b.as_str());
    let mut i: usize = 0;
    assert(x@.skip(0) =~= x@ && y@.skip(0) =~= y@);
    loop
        invariant
            i <= x.len(),
            i <= y.len(),
            name_le(a@, b@) == name_le(x@.skip(i as int), y@.skip(i as int)),
            x@ == a@,
            y@ == b@,
        decreases x.len() - i,
    {
        if i == x.len() {
            return true;
        }
        if i == y.len() {
            return false;
        }
        assert(x@.skip(i as int)[0] == x@[i as int] && y@.skip(i as int)[0] == y@[i as int]);
        if x[i] != y[i] {
            return x[i] < y[i];
        }
        assert(x@.skip(i as int).drop_first() =~= x@.skip(i + 1));
        assert(y@.skip(i as int).drop_first() =~= y@.skip(i + 1));
        i = i + 1;
    }
}

/// The markdown files of a directory listing, in file-name order: the names that end
/// in `.md`, sorted.
pub fn select_prompt_files(names: &Vec<String>) -> (r: Vec<String>)
    ensures
        sorted_by(string_views(r@), name_order()),
        string_views(r@).to_multiset() == markdown_names(string_views(names@)).to_multiset(),
{
    let mut out: Vec<String> = Vec::new();
    let mut i: usize = 0;
    proof {
        assert(string_views(names@).take(0) =~= Seq::<Seq<char>>::empty());
        assert(markdown_names(Seq::<Seq<char>>::empty()) =~= Seq::<Seq<char>>::empty()) by {
            reveal(Seq::filter);
        }
        assert(string_views(out@) =~= Seq::<Seq<char>>::empty());
    }
    while i < names.len()
        invariant
            i <= names.len(),
            sorted_by(string_views(out@), name_order()),
            string_views(out@).to_multiset() == markdown_names(
                string_views(names@).take(i as int),
            ).to_multiset(),
        decreases names.len() - i,
    {
        let ghost before = string_views(out@);
        let ghost x = names@[i as int]@;
        proof {
            assert(string_views(names@).take(i + 1) =~= string_views(names@).take(i as int).push(
                x,
            ));
            string_views(names@).take(i as int).lemma_filter_push(
                x,
                |n: Seq<char>| is_markdown_name(n),
            );
        }
        if is_markdown_file(&names[i]) {
            let mut k: usize = 0;
            while k < out.len() && name_le_exec(&out[k], &names[i])
                invariant
                    k <= out.len(),
                    string_views(out@) == before,
                    forall|j: int| 0 <= j < k ==> name_le(#[trigger] before[j], x),
                    x == names@[i as int]@,
                    i < names.len(),
                decreases out.len() - k,
            {
                k = k + 1;
            }
            let name = names[i].clone();
            out.insert(k, name);
            proof {
                let after = string_views(out@);
                assert(after =~= before.insert(k as int, x));
                if k < before.len() {
                    lemma_name_le_total(before[k as int], x);
                }
                assert forall|p: int, q: int| 0 <= p < q < after.len() implies (name_order())(
                    after[p],
                    after[q],
                ) by {
                    if q < k {
                    } else if q == k {
                        assert(name_le(before[p], x));
                    } else if p < k {
                        assert(name_le(before[p], x));
                        assert(name_le(x, before[k as int]));
                        lemma_name_le_transitive(before[p], x, before[k as int]);
                        if q - 1 > k {
                            assert((name_order())(before[k as int], before[q - 1]));
                            lemma_name_le_transitive(before[p], before[k as int], before[q - 1]);
                        }
                    } else if p == k {
                        assert(name_le(x, before[k as int]));
                        if q - 1 > k {
                            assert((name_order())(before[k as int], before[q - 1]));
                            lemma_name_le_transitive(x, before[k as int], before[q - 1]);
                        }
                    } else {
                        assert((name_order())(before[p - 1], before[q - 1]));
                    }
                }
                assert(before =~= before.take(k as int) + before.skip(k as int));
                assert(after =~= before.take(k as int).push(x) + before.skip(k as int));
                lemma_multiset_commutative(before.take(k as int), before.skip(k as int));
                lemma_multiset_commutative(before.take(k as int).push(x), before.skip(k as int));
                to_multiset_build(before.take(k as int), x);
                assert(after.to_multiset() =~= before.to_multiset().insert(x));
                to_multiset_build(
                    markdown_names(string_views(names@).take(i as int)),
                    x,
                );
            }
        } else {
            proof {
                assert(string_views(out@) == before);
            }
        }
        i = i + 1;
    }
    assert(string_views(names@).take(names.len() as int) =~= string_views(names@));
    out
}

/// Text files joined as the prompt reads them: each followed by a line break.
pub open spec fn joined_files(contents: Seq<Seq<char>>) -> Seq<char>
    decreases contents.len(),
{
    if contents.len() == 0 {
        Seq::empty()
    } else {
        joined_files(contents.drop_last()) + contents.last() + seq!['\n']
    }
}

fn append_files(out: &mut String, contents: &Vec<String>)
    ensures
        final(out)@ == old(out)@ + joined_files(string_views(contents@)),
{
    let ghost start = out@;
    let mut i: usize = 0;
    while i < contents.len()
        invariant
            i <= contents.len(),
            out@ == start + joined_files(string_views(contents@).take(i as int)),
        decreases contents.len() - i,
    {
        out.append(contents[i].as_str());
        out.append("\n");
        proof {
            reveal_strlit("\n");
            assert(string_views(contents@).take(i + 1).drop_last() =~= string_views(
                contents@,
            ).take(i as int));
        }
        i = i + 1;
        assert(out@ =~= start + joined_files(string_views(contents@).take(i as int)));
    }
    assert(string_views(contents@).take(i as int) =~= string_views(contents@));
}

/// The system prompt: the core files, then the user files, each in the order given
/// and each followed by a line break.
pub fn load_system_prompt(core: &Vec<String>, user: &Vec<String>) -> (prompt: String)
    ensures
        prompt@ == joined_files(string_views(core@)) + joined_files(string_views(user@)),
{
    let mut prompt = String::new();
    append_files(&mut prompt, core);
    append_files(&mut prompt, user);
    assert(prompt@ =~= joined_files(string_views(core@)) + joined_files(string_views(user@)));
    prompt
}

} // verus!

verus! {

/// The settings of `astra.conf`, key to value.
pub type Conf = StringMap;

/// The settings that the lines of `astra.conf` make: each line holding `=` sets the
/// text before its first `=` to the value after it (up to an inline `#` comment,
/// trimmed); the first setting of a key is the one kept.
pub open spec fn conf_of_lines(ls: Seq<Seq<char>>) -> Map<Seq<char>, Seq<char>>
    decreases ls.len(),
{
    if ls.len() == 0 {
        Map::empty()
    } else {
        let rest = conf_of_lines(ls.drop_last());
        let l = ls.last();
        match crate::chars::find_from(l, '=', 0) {
            None => rest,
            Some(e) => {
                let key = l.take(e as int);
                if rest.contains_key(key) {
                    rest
                } else {
                    rest.insert(key, conf_value(l.skip(e + 1 as int)))
                }
            },
        }
    }
}

/// Parses the text of `astra.conf` into its settings.
pub fn parse_conf(conf_text: &str) -> (c: Conf)
    ensures
        c@ == conf_of_lines(lines(conf_text@)),
{
    let v = chars_of(conf_text);
    let mut conf = StringMap::new();
    let mut p: usize = 0;
    let ghost mut seen: Seq<Seq<char>> = Seq::empty();
    assert(v@.subrange(0, v.len() as int) =~= v@);
    while p < v.len()
        invariant
            p <= v.len(),
            v@ == conf_text@,
            lines(v@) == seen + lines(v@.subrange(p as int, v.len() as int)),
            conf@ == conf_of_lines(seen),
        decreases v.len() - p,
    {
        let (end, next) = next_line(&v, p);
        let ghost l = v@.subrange(p as int, end as int);
        proof {
            assert(seen + lines(v@.subrange(p as int, v.len() as int)) =~= seen.push(l) + lines(
                v@.subrange(next as int, v.len() as int),
            ));
            assert(seen.push(l).drop_last() =~= seen);
        }
        match crate::chars::find_char(&v, p, end, '=') {
            None => {},
            Some(e) => {
                let key = string_of(&v, p, e);
                let (a, b) = value_range(&v, e + 1, end);
                assert(l.take(e - p) =~= v@.subrange(p as int, e as int));
                assert(l.skip(e - p + 1) =~= v@.subrange(e + 1, end as int));
                if !conf.contains_key(key.as_str()) {
                    let value = string_of(&v, a, b);
                    conf.insert(key, value);
                }
            },
        }
        proof {
            seen = seen.push(l);
        }
        p = next;
    }
    assert(lines(v@.subrange(p as int, v.len() as int)) =~= Seq::<Seq<char>>::empty());
    assert(seen + Seq::<Seq<char>>::empty() =~= seen);
    conf
}

} // verus!
