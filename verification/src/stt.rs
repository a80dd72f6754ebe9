use vstd::prelude::*;

use crate::chars::{chars_of, string_of, trim, trim_range};
use crate::tts::string_views;

verus! {

/// Sample `i` of 16-bit little-endian PCM: bytes `2i` (low) and `2i + 1` (high), two's
/// complement.
pub open spec fn pcm_sample(bytes: Seq<u8>, i: int) -> int {
    let u = bytes[2 * i] as int + 256 * (bytes[2 * i + 1] as int);
    if u >= 32768 {
        u - 65536
    } else {
        u
    }
}

/// The samples of 16-bit little-endian PCM audio; a trailing odd byte is dropped.
pub fn pcm16le_samples(bytes: &[u8]) -> (samples: Vec<i16>)
    ensures
        samples@.len() == bytes@.len() / 2,
        forall|i: int| 0 <= i < samples@.len() ==> #[trigger] samples@[i] as int == pcm_sample(
            bytes@,
            i,
        ),
{
    let len = bytes.len();
    let n = len / 2;
    let mut samples: Vec<i16> = Vec::new();
    let mut i: usize = 0;
    while i < n
        invariant
            n == bytes@.len() / 2,
            len == bytes@.len(),
            i <= n,
            samples@.len() == i,
            forall|j: int| 0 <= j < i ==> #[trigger] samples@[j] as int == pcm_sample(bytes@, j),
        decreases n - i,
    {
        assert(2 * i + 1 < bytes@.len());
        let lo = bytes[2 * i] as u32;
        let hi = bytes[2 * i + 1] as u32;
        let u = lo + 256 * hi;
        let s: i16 = if u >= 32768 {
            (u as i32 - 65536) as i16
        } else {
            u as i16
        };
        samples.push(s);
        i = i + 1;
    }
    samples
}

/// The transcript of recognized segments: their text joined, then trimmed.
pub fn join_transcript(segments: &Vec<String>) -> (t: String)
    ensures
        t@ == trim(string_views(segments@).flatten()),
{
    let mut all = String::new();
    let mut i: usize = 0;
    while i < segments.len()
        invariant
            i <= segments@.len(),
            all@ == string_views(segments@).take(i as int).flatten(),
        decreases segments.len() - i,
    {
        all.append(segments[i].as_str());
        proof {
            let vs = string_views(segments@);
            assert(vs.take(i + 1) =~= vs.take(i as int).push(vs[i as int]));
            vs.take(i as int).lemma_flatten_push(vs[i as int]);
        }
        i = i + 1;
    }
    assert(string_views(segments@).take(i as int) =~= string_views(segments@));
    let v = chars_of(all.as_str());
    let (a, b) = trim_range(&v, 0, v.len());
    assert(v@.subrange(0, v.len() as int) =~= v@);
    string_of(&v, a, b)
}

} // verus!
