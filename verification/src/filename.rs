//! The filename grammar, anchored at the start of the name: a timestamp
//! prefix of eight digits, an underscore and six more digits, then
//! arbitrary bytes, then the last occurrence of the marker `__TO_`
//! followed by the talkgroup digits, optionally followed by `_FROM_` and
//! the radio digits. A filename that does not begin with the timestamp,
//! or that lacks the marker, carries no metadata and is not uploadable.

use vstd::prelude::*;

use crate::is_digit;
use crate::check_digit;
use crate::UNDERSCORE;
use crate::LETTER_F;
use crate::LETTER_M;
use crate::LETTER_O;
use crate::LETTER_R;
use crate::LETTER_T;
use crate::DIGIT_1;
use crate::DIGIT_2;
use crate::DIGIT_3;
use crate::DIGIT_4;
use crate::DIGIT_5;
use crate::DIGIT_6;

verus! {

/// An eight-digit date, `_`, and a six-digit time start at index `i`.
pub open spec fn datetime_at(s: Seq<u8>, i: int) -> bool {
    &&& 0 <= i
    &&& i + 15 <= s.len()
    &&& forall|k: int| i <= k < i + 8 ==> is_digit(s[k])
    &&& s[i + 8] == UNDERSCORE
    &&& forall|k: int| i + 9 <= k < i + 15 ==> is_digit(s[k])
}

/// The five bytes of the literal `__TO_` start at index `j`.
pub open spec fn to_literal_at(s: Seq<u8>, j: int) -> bool {
    &&& 0 <= j
    &&& j + 5 <= s.len()
    &&& s[j] == UNDERSCORE
    &&& s[j + 1] == UNDERSCORE
    &&& s[j + 2] == LETTER_T
    &&& s[j + 3] == LETTER_O
    &&& s[j + 4] == UNDERSCORE
}

/// The literal `__TO_` followed by at least one digit starts at index `j`.
pub open spec fn marker_at(s: Seq<u8>, j: int) -> bool {
    &&& to_literal_at(s, j)
    &&& j + 6 <= s.len()
    &&& is_digit(s[j + 5])
}

/// The literal `_FROM_` followed by at least one digit starts at index `j`.
pub open spec fn from_marker_at(s: Seq<u8>, j: int) -> bool {
    &&& 0 <= j
    &&& j + 7 <= s.len()
    &&& s[j] == UNDERSCORE
    &&& s[j + 1] == LETTER_F
    &&& s[j + 2] == LETTER_R
    &&& s[j + 3] == LETTER_O
    &&& s[j + 4] == LETTER_M
    &&& s[j + 5] == UNDERSCORE
    &&& is_digit(s[j + 6])
}

/// Index of the rightmost marker `j` with `lo <= j < hi`, or -1.
pub open spec fn last_marker_before(s: Seq<u8>, hi: int, lo: int) -> int
    decreases hi - lo,
{
    if hi <= lo {
        -1
    } else if marker_at(s, hi - 1) {
        hi - 1
    } else {
        last_marker_before(s, hi - 1, lo)
    }
}

/// End of the run of digits starting at `i`: the first index at or after
/// `i` holding a non-digit, or the length of `s`.
pub open spec fn digit_run_end(s: Seq<u8>, i: int) -> int
    decreases s.len() - i,
{
    if i < 0 || i >= s.len() || !is_digit(s[i]) {
        i
    } else {
        digit_run_end(s, i + 1)
    }
}

/// The radio id substituted when the filename carries no `_FROM_` group.
pub open spec fn default_radio_id() -> Seq<u8> {
    seq![DIGIT_1, DIGIT_2, DIGIT_3, DIGIT_4, DIGIT_5, DIGIT_6]
}

/// What parsing a filename yields: `None` when the name does not begin
/// with the timestamp, or no marker follows it; otherwise the timestamp,
/// the talkgroup digits after the last marker, and the radio digits after
/// `_FROM_` (defaulted when that group is absent). The grammar is
/// anchored: nothing may precede the eight-digit date.
pub open spec fn spec_parse(s: Seq<u8>) -> Option<(Seq<u8>, Seq<u8>, Seq<u8>)> {
    if !datetime_at(s, 0) {
        None
    } else {
        let j = last_marker_before(s, s.len() as int, 15);
        if j == -1 {
            None
        } else {
            let tg_end = digit_run_end(s, j + 5);
            let timestamp = s.subrange(0, 15);
            let talkgroup = s.subrange(j + 5, tg_end);
            let radio = if from_marker_at(s, tg_end) {
                s.subrange(tg_end + 6, digit_run_end(s, tg_end + 6))
            } else {
                default_radio_id()
            };
            Some((timestamp, talkgroup, radio))
        }
    }
}

/// The bytes of the marker literal `__TO_`.
pub open spec fn to_marker_bytes() -> Seq<u8> {
    seq![UNDERSCORE, UNDERSCORE, LETTER_T, LETTER_O, UNDERSCORE]
}

/// The bytes of the literal `_FROM_`.
pub open spec fn from_marker_bytes() -> Seq<u8> {
    seq![UNDERSCORE, LETTER_F, LETTER_R, LETTER_O, LETTER_M, UNDERSCORE]
}

/// A marker at `lp`, with none to its right, is what the rightmost-marker
/// search finds.
proof fn lemma_last_marker_found(s: Seq<u8>, hi: int, lo: int, lp: int)
    requires
        lo <= lp < hi,
        marker_at(s, lp),
        forall|j: int| lp < j ==> !marker_at(s, j),
    ensures
        last_marker_before(s, hi, lo) == lp,
    decreases hi - lo,
{
    if hi - 1 > lp {
        lemma_last_marker_found(s, hi - 1, lo, lp);
    }
}

/// A run of digits over `[a, b)` followed by a non-digit (or the end)
/// is what the digit-run scan finds.
proof fn lemma_digit_run(s: Seq<u8>, a: int, b: int)
    requires
        0 <= a <= b <= s.len(),
        forall|k: int| a <= k < b ==> is_digit(s[k]),
        b == s.len() || !is_digit(s[b]),
    ensures
        digit_run_end(s, a) == b,
    decreases b - a,
{
    if a < b {
        lemma_digit_run(s, a + 1, b);
    }
}

/// No marker at or after `lo` means the rightmost-marker search finds
/// nothing.
proof fn lemma_no_marker_none_found(s: Seq<u8>, hi: int, lo: int)
    requires
        forall|j: int| lo <= j ==> !marker_at(s, j),
    ensures
        last_marker_before(s, hi, lo) == -1,
    decreases hi - lo,
{
    if hi > lo {
        lemma_no_marker_none_found(s, hi - 1, lo);
    }
}

/// A filename without the literal `__TO_` anywhere never parses: no
/// metadata can be derived from it.
pub proof fn lemma_no_marker_no_parse(s: Seq<u8>)
    requires
        forall|j: int| !to_literal_at(s, j),
    ensures
        spec_parse(s) is None,
{
    assert(forall|j: int| !marker_at(s, j));
    if datetime_at(s, 0) {
        lemma_no_marker_none_found(s, s.len() as int, 15);
    }
}

/// Metadata carried by a well-formed filename.
pub struct ParsedMetadata {
    /// The fifteen timestamp bytes, `YYYYMMDD_HHMMSS`.
    pub timestamp: Vec<u8>,
    /// The talkgroup digits following the last `__TO_` marker.
    pub talkgroup_id: Vec<u8>,
    /// The radio digits following `_FROM_`, or the default id.
    pub radio_id: Vec<u8>,
}

/// Whether the fifteen bytes starting at `i` form the timestamp shape.
fn check_datetime(s: &[u8], i: usize) -> (r: bool)
    ensures
        r == datetime_at(s@, i as int),
{
    if s.len() < 15 || i > s.len() - 15 {
        return false;
    }
    let mut k: usize = 0;
    while k < 8
        invariant
            k <= 8,
            i + 15 <= s@.len() <= usize::MAX,
            forall|m: int| i <= m < i + k ==> is_digit(s@[m]),
        decreases 8 - k,
    {
        if !check_digit(s[i + k]) {
            return false;
        }
        k = k + 1;
    }
    if s[i + 8] != UNDERSCORE {
        return false;
    }
    let mut k: usize = 9;
    while k < 15
        invariant
            9 <= k <= 15,
            i + 15 <= s@.len() <= usize::MAX,
            forall|m: int| i + 9 <= m < i + k ==> is_digit(s@[m]),
        decreases 15 - k,
    {
        if !check_digit(s[i + k]) {
            return false;
        }
        k = k + 1;
    }
    true
}

/// Whether the marker `__TO_` plus a digit starts at `j`.
fn check_marker(s: &[u8], j: usize) -> (r: bool)
    ensures
        r == marker_at(s@, j as int),
{
    s.len() >= 6 && j <= s.len() - 6 && s[j] == UNDERSCORE && s[j + 1] == UNDERSCORE && s[j + 2] == LETTER_T
        && s[j + 3] == LETTER_O && s[j + 4] == UNDERSCORE && check_digit(s[j + 5])
}

/// Whether `_FROM_` plus a digit starts at `j`.
fn check_from_marker(s: &[u8], j: usize) -> (r: bool)
    ensures
        r == from_marker_at(s@, j as int),
{
    s.len() >= 7 && j <= s.len() - 7 && s[j] == UNDERSCORE && s[j + 1] == LETTER_F && s[j + 2] == LETTER_R
        && s[j + 3] == LETTER_O && s[j + 4] == LETTER_M && s[j + 5] == UNDERSCORE && check_digit(s[j + 6])
}

/// First index at or after `i` holding a non-digit, or the length of `s`.
fn scan_digit_run(s: &[u8], i: usize) -> (e: usize)
    requires
        i <= s@.len(),
    ensures
        e == digit_run_end(s@, i as int),
        i <= e <= s@.len(),
{
    let mut k: usize = i;
    while k < s.len() && check_digit(s[k])
        invariant
            i <= k <= s@.len(),
            digit_run_end(s@, i as int) == digit_run_end(s@, k as int),
        decreases s@.len() - k,
    {
        k = k + 1;
    }
    k
}

/// The bytes of `s` from `a` (inclusive) to `b` (exclusive), as a fresh vector.
fn copy_range(s: &[u8], a: usize, b: usize) -> (v: Vec<u8>)
    requires
        a <= b <= s@.len(),
    ensures
        v@ == s@.subrange(a as int, b as int),
{
    let mut v: Vec<u8> = Vec::new();
    let mut k: usize = a;
    while k < b
        invariant
            a <= k <= b <= s@.len(),
            v@ == s@.subrange(a as int, k as int),
        decreases b - k,
    {
        v.push(s[k]);
        assert(v@ =~= s@.subrange(a as int, (k + 1) as int));
        k = k + 1;
    }
    v
}

/// Parses a filename against the grammar. Yields the timestamp the name
/// begins with, the talkgroup id after the last `__TO_` marker, and the
/// radio id after `_FROM_` — or the default radio id when that group is
/// absent. A filename that does not begin with the timestamp, or has no
/// marker after it, yields `None`: such a file is silently not ours to
/// upload.
pub fn parse_filename(name: &[u8]) -> (r: Option<ParsedMetadata>)
    ensures
        r.is_some() == spec_parse(name@).is_some(),
        r.is_some() ==> {
            let (ts, tg, radio) = spec_parse(name@).unwrap();
            &&& r.unwrap().timestamp@ == ts
            &&& r.unwrap().talkgroup_id@ == tg
            &&& r.unwrap().radio_id@ == radio
        },
{
    let n: usize = name.len();
    // The timestamp must stand at the very start of the name.
    if !check_datetime(name, 0) {
        return None;
    }
    // Rightmost marker at or after the end of the timestamp.
    let lo: usize = 15;
    let mut hi: usize = n;
    let mut marker: usize = 0;
    let mut found_marker: bool = false;
    while hi > lo && !found_marker
        invariant
            n == name@.len(),
            lo <= hi <= n,
            found_marker ==> marker as int == last_marker_before(
                name@,
                name@.len() as int,
                lo as int,
            ) && marker_at(name@, marker as int) && lo <= marker,
            !found_marker ==> last_marker_before(name@, name@.len() as int, lo as int)
                == last_marker_before(name@, hi as int, lo as int),
        decreases hi + (if found_marker { 0int } else { 1int }),
    {
        if check_marker(name, hi - 1) {
            marker = hi - 1;
            found_marker = true;
        } else {
            hi = hi - 1;
        }
    }
    if !found_marker {
        return None;
    }
    // Talkgroup digits, then the optional radio group.
    let tg_start: usize = marker + 5;
    let tg_end: usize = scan_digit_run(name, tg_start);
    let timestamp = copy_range(name, 0, 15);
    let talkgroup_id = copy_range(name, tg_start, tg_end);
    let radio_id: Vec<u8> = if check_from_marker(name, tg_end) {
        let r_start: usize = tg_end + 6;
        let r_end: usize = scan_digit_run(name, r_start);
        copy_range(name, r_start, r_end)
    } else {
        let v = vec![DIGIT_1, DIGIT_2, DIGIT_3, DIGIT_4, DIGIT_5, DIGIT_6];
        assert(v@ =~= default_radio_id());
        v
    };
    Some(ParsedMetadata { timestamp, talkgroup_id, radio_id })
}

/// Any filename of the grammar's full shape — a well-formed timestamp
/// prefix, arbitrary bytes, the marker, talkgroup digits, `_FROM_`, radio
/// digits, and a trailer that holds no underscore and does not begin with
/// a digit — parses to exactly that timestamp, talkgroup and radio id,
/// with no defaulting.
pub proof fn lemma_parse_full_shape(
    prefix: Seq<u8>,
    mid: Seq<u8>,
    tg: Seq<u8>,
    radio: Seq<u8>,
    ext: Seq<u8>,
)
    requires
        prefix.len() == 15,
        forall|k: int| 0 <= k < 8 ==> is_digit(prefix[k]),
        prefix[8] == UNDERSCORE,
        forall|k: int| 9 <= k < 15 ==> is_digit(prefix[k]),
        tg.len() > 0,
        forall|k: int| 0 <= k < tg.len() ==> is_digit(tg[k]),
        radio.len() > 0,
        forall|k: int| 0 <= k < radio.len() ==> is_digit(radio[k]),
        forall|k: int| 0 <= k < ext.len() ==> ext[k] != UNDERSCORE,
        ext.len() > 0 ==> !is_digit(ext[0]),
    ensures
        spec_parse(prefix + mid + to_marker_bytes() + tg + from_marker_bytes() + radio + ext)
            == Some((prefix, tg, radio)),
{
    let s = prefix + mid + to_marker_bytes() + tg + from_marker_bytes() + radio + ext;
    let lp: int = 15 + mid.len() as int;
    let q: int = lp + 5 + tg.len() as int;
    let r0: int = q + 6;
    let re: int = r0 + radio.len() as int;
    assert(s.len() == re + ext.len());

    // where each region's bytes sit in s
    assert(forall|k: int| 0 <= k < 15 ==> s[k] == prefix[k]);
    assert(forall|j: int| lp + 5 <= j < q ==> s[j] == tg[j - (lp + 5)]);
    assert(forall|j: int| r0 <= j < re ==> s[j] == radio[j - r0]);
    assert(forall|j: int| re <= j < s.len() ==> s[j] == ext[j - re]);
    assert(s[lp] == UNDERSCORE && s[lp + 1] == UNDERSCORE && s[lp + 2] == LETTER_T && s[lp + 3]
        == LETTER_O && s[lp + 4] == UNDERSCORE);
    assert(s[q] == UNDERSCORE && s[q + 1] == LETTER_F && s[q + 2] == LETTER_R && s[q + 3]
        == LETTER_O && s[q + 4] == LETTER_M && s[q + 5] == UNDERSCORE);

    // the name begins with the timestamp
    assert(datetime_at(s, 0));

    // the marker at lp is the rightmost one
    assert(marker_at(s, lp)) by {
        assert(s[lp + 5] == tg[0]);
    }
    assert forall|j: int| lp < j implies !marker_at(s, j) by {
        if marker_at(s, j) {
            if j <= lp + 4 {
                assert(s[lp + 5] == tg[0]);
            } else if j < q {
                assert(is_digit(s[j]));
            } else if j <= q + 5 {
                assert(s[q + 6] == radio[0]);
            } else if j < re {
                assert(is_digit(s[j]));
            } else if j < s.len() {
                assert(s[j] == ext[j - re]);
            }
        }
    }
    lemma_last_marker_found(s, s.len() as int, 15, lp);

    // the talkgroup digits end exactly at _FROM_
    lemma_digit_run(s, lp + 5, q);
    assert(from_marker_at(s, q)) by {
        assert(s[q + 6] == radio[0]);
    }

    // the radio digits end exactly at the trailer
    assert(re == s.len() || !is_digit(s[re]));
    lemma_digit_run(s, r0, re);

    assert(s.subrange(0, 15) =~= prefix);
    assert(s.subrange(lp + 5, q) =~= tg);
    assert(s.subrange(r0, re) =~= radio);
}

/// Any filename of the grammar's shape without a `_FROM_` group — the
/// trailer holds no underscore and does not begin with a digit — parses
/// to that timestamp and talkgroup, with the radio id defaulted.
pub proof fn lemma_parse_default_shape(prefix: Seq<u8>, mid: Seq<u8>, tg: Seq<u8>, ext: Seq<u8>)
    requires
        prefix.len() == 15,
        forall|k: int| 0 <= k < 8 ==> is_digit(prefix[k]),
        prefix[8] == UNDERSCORE,
        forall|k: int| 9 <= k < 15 ==> is_digit(prefix[k]),
        tg.len() > 0,
        forall|k: int| 0 <= k < tg.len() ==> is_digit(tg[k]),
        forall|k: int| 0 <= k < ext.len() ==> ext[k] != UNDERSCORE,
        ext.len() > 0 ==> !is_digit(ext[0]),
    ensures
        spec_parse(prefix + mid + to_marker_bytes() + tg + ext) == Some(
            (prefix, tg, default_radio_id()),
        ),
{
    let s = prefix + mid + to_marker_bytes() + tg + ext;
    let lp: int = 15 + mid.len() as int;
    let q: int = lp + 5 + tg.len() as int;
    assert(s.len() == q + ext.len());

    // where each region's bytes sit in s
    assert(forall|k: int| 0 <= k < 15 ==> s[k] == prefix[k]);
    assert(forall|j: int| lp + 5 <= j < q ==> s[j] == tg[j - (lp + 5)]);
    assert(forall|j: int| q <= j < s.len() ==> s[j] == ext[j - q]);
    assert(s[lp] == UNDERSCORE && s[lp + 1] == UNDERSCORE && s[lp + 2] == LETTER_T && s[lp + 3]
        == LETTER_O && s[lp + 4] == UNDERSCORE);

    // the name begins with the timestamp
    assert(datetime_at(s, 0));

    // the marker at lp is the rightmost one
    assert(marker_at(s, lp)) by {
        assert(s[lp + 5] == tg[0]);
    }
    assert forall|j: int| lp < j implies !marker_at(s, j) by {
        if marker_at(s, j) {
            if j <= lp + 4 {
                assert(s[lp + 5] == tg[0]);
            } else if j < q {
                assert(is_digit(s[j]));
            } else if j < s.len() {
                assert(s[j] == ext[j - q]);
            }
        }
    }
    lemma_last_marker_found(s, s.len() as int, 15, lp);

    // the talkgroup digits end exactly at the trailer
    lemma_digit_run(s, lp + 5, q);

    // no _FROM_ group follows them
    assert(!from_marker_at(s, q));

    assert(s.subrange(0, 15) =~= prefix);
    assert(s.subrange(lp + 5, q) =~= tg);
}

} // verus!
