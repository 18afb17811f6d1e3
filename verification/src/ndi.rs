//! NDI: pixel format codes, the choice of a source by name, and the count
//! of frames dropped when the sender thread falls behind, with a warning now
//! and then.
use vstd::prelude::*;
use crate::text::{chars_of, chars_eq, push_str};

verus! {

/// A FourCC code: four bytes, the first in the lowest byte.
pub open spec fn fourcc_spec(a: u8, b: u8, c: u8, d: u8) -> i32 {
    (a + 0x100 * b + 0x1_0000 * c + 0x100_0000 * d) as u32 as i32
}

pub fn fourcc(a: u8, b: u8, c: u8, d: u8) -> (r: i32)
    ensures
        r == fourcc_spec(a, b, c, d),
{
    let v: u32 = a as u32 + 0x100 * (b as u32) + 0x1_0000 * (c as u32) + 0x100_0000 * (d as u32);
    v as i32
}

/// `RGBA`
pub const FOURCC_RGBA: i32 = 0x4142_4752;

/// `RGBX`
pub const FOURCC_RGBX: i32 = 0x5842_4752;

/// `BGRA`
pub const FOURCC_BGRA: i32 = 0x4152_4742;

/// `BGRX`
pub const FOURCC_BGRX: i32 = 0x5852_4742;

/// Whether a received frame stores blue first.
pub fn is_bgr(four_cc: i32) -> (r: bool)
    ensures
        r == (four_cc == FOURCC_BGRA || four_cc == FOURCC_BGRX),
{
    four_cc == FOURCC_BGRA || four_cc == FOURCC_BGRX
}

/// Whether a received frame carries no alpha.
pub fn is_opaque(four_cc: i32) -> (r: bool)
    ensures
        r == (four_cc == FOURCC_RGBX || four_cc == FOURCC_BGRX),
{
    four_cc == FOURCC_RGBX || four_cc == FOURCC_BGRX
}

// ---------------------------------------------------------------- sources
/// Whether the source `n` is the one asked for: the same name, or a name
/// ending in `(wanted)` (sources appear as `HOST (name)`).
pub open spec fn source_matches_spec(n: Seq<char>, wanted: Seq<char>) -> bool {
    let tail = seq!['('] + wanted + seq![')'];
    n == wanted || (tail.len() <= n.len() && n.skip(n.len() - tail.len()) == tail)
}

#[verifier::loop_isolation(false)]
pub fn source_matches(n: &str, wanted: &str) -> (r: bool)
    ensures
        r == source_matches_spec(n@, wanted@),
{
    let nv = chars_of(n);
    let w = chars_of(wanted);
    if chars_eq(&nv, &w) {
        return true;
    }
    let mut tail: Vec<char> = vec!['('];
    push_str(&mut tail, wanted);
    tail.push(')');
    assert(tail@ =~= seq!['('] + wanted@ + seq![')']);
    if tail.len() > nv.len() {
        return false;
    }
    let off = nv.len() - tail.len();
    let mut i: usize = 0;
    while i < tail.len()
        invariant
            off + tail.len() == nv.len(),
            i <= tail.len(),
            forall|j: int| 0 <= j < i ==> nv@[off + j] == tail@[j],
        decreases tail.len() - i,
    {
        if nv[off + i] != tail[i] {
            assert(nv@.skip(off as int)[i as int] != tail@[i as int]);
            return false;
        }
        i = i + 1;
    }
    assert(nv@.skip(off as int) =~= tail@);
    true
}

/// Index of the first source in `names` that matches `wanted`.
pub open spec fn first_match(names: Seq<Seq<char>>, wanted: Seq<char>, i: int) -> Option<nat>
    decreases names.len() - i,
{
    if i < 0 || i >= names.len() {
        None
    } else if source_matches_spec(names[i], wanted) {
        Some(i as nat)
    } else {
        first_match(names, wanted, i + 1)
    }
}

pub open spec fn source_names(sources: Seq<(String, String)>) -> Seq<Seq<char>> {
    sources.map_values(|s: (String, String)| s.0@)
}

/// The source to receive from: the first of `(name, url)` pairs whose name
/// matches `wanted`.
pub fn find_source(sources: &Vec<(String, String)>, wanted: &str) -> (r: Option<usize>)
    ensures
        r == match first_match(source_names(sources@), wanted@, 0) {
            Some(i) => Some(i as usize),
            None => None,
        },
        r matches Some(i) ==> i < sources.len(),
{
    let ghost names = source_names(sources@);
    let mut i: usize = 0;
    while i < sources.len()
        invariant
            i <= sources.len(),
            names == source_names(sources@),
            first_match(names, wanted@, 0) == first_match(names, wanted@, i as int),
        decreases sources.len() - i,
    {
        if source_matches(sources[i].0.as_str(), wanted) {
            return Some(i);
        }
        i = i + 1;
    }
    None
}

// ---------------------------------------------------------------- sending
/// Whether `len` bytes hold a `width` x `height` RGBA8 frame.
pub fn frame_fits(len: usize, width: u32, height: u32) -> (r: bool)
    requires
        width * height * 4 <= u32::MAX,
    ensures
        r == (len >= width * height * 4),
{
    proof {
        assert(width * height * 4 <= u32::MAX);
    }
    let need = (width * height * 4) as usize;
    len >= need
}

/// What became of a frame offered to the sender thread.
#[derive(Debug, Clone, Copy, PartialEq, Eq, Structural)]
pub enum Offer {
    /// Queued for sending.
    Queued,
    /// The queue was full: the frame is dropped.
    Full,
    /// The sender thread is gone.
    Gone,
}

/// The drop count after an offer, and whether to warn: every dropped frame
/// counts, and the first of each sixty drops is reported.
pub open spec fn dropped_after(dropped: u64, o: Offer) -> (u64, bool) {
    match o {
        Offer::Full => ((dropped + 1) as u64, (dropped + 1) % 60 == 1),
        _ => (dropped, false),
    }
}

pub fn count_drop(dropped: u64, o: Offer) -> (r: (u64, bool))
    requires
        dropped < u64::MAX,
    ensures
        r == dropped_after(dropped, o),
{
    match o {
        Offer::Full => {
            let d = dropped + 1;
            (d, d % 60 == 1)
        },
        _ => (dropped, false),
    }
}

/// The count of frames dropped because the NDI sender thread fell behind.
/// The frames themselves are handed to that thread by the caller, which
/// reports what became of each.
#[derive(Debug, Clone, Copy, PartialEq, Eq, Structural)]
pub struct DropCounter {
    pub dropped: u64,
}

impl DropCounter {
    /// Record what became of one frame offered to the sender thread: a frame
    /// that found the queue full is counted; the result is whether this drop
    /// is one to warn about (the first, the 61st, ...).
    pub fn record(&mut self, o: Offer) -> (warn: bool)
        requires
            old(self).dropped < u64::MAX,
        ensures
            (final(self).dropped, warn) == dropped_after(old(self).dropped, o),
    {
        let (d, warn) = count_drop(self.dropped, o);
        self.dropped = d;
        warn
    }
}

} // verus!
