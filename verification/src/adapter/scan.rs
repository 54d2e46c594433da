//! Byte-level recognizers: blanks, digits, line endings, fixed words and the
//! search for a byte. Each one reads `s` from position `i` and, on a match,
//! gives back the position just after what it recognized.
use vstd::prelude::*;

verus! {

pub const TAB: u8 = 9;
pub const LF: u8 = 10;
pub const CR: u8 = 13;
pub const SPACE: u8 = 32;
pub const COMMA: u8 = 44;
pub const ZERO: u8 = 48;
pub const NINE: u8 = 57;
pub const PLUS: u8 = 43;

pub open spec fn is_blank(b: u8) -> bool {
    b == SPACE || b == TAB
}

pub open spec fn is_digit(b: u8) -> bool {
    ZERO <= b <= NINE
}

/// The end of the run of blanks (spaces and tabs) that starts at `i`.
pub open spec fn blank_end(s: Seq<u8>, i: int) -> int
    decreases s.len() - i,
{
    if 0 <= i < s.len() && is_blank(s[i]) {
        blank_end(s, i + 1)
    } else {
        i
    }
}

/// The end of the run of ASCII digits that starts at `i`.
pub open spec fn digit_end(s: Seq<u8>, i: int) -> int
    decreases s.len() - i,
{
    if 0 <= i < s.len() && is_digit(s[i]) {
        digit_end(s, i + 1)
    } else {
        i
    }
}

/// The first position at or after `i` that holds the byte `b`.
pub open spec fn find_byte(s: Seq<u8>, i: int, b: u8) -> Option<int>
    decreases s.len() - i,
{
    if 0 <= i < s.len() {
        if s[i] == b {
            Some(i)
        } else {
            find_byte(s, i + 1, b)
        }
    } else {
        None
    }
}

/// Whether the word `t` stands in `s` at position `i`.
pub open spec fn has_word(s: Seq<u8>, i: int, t: Seq<u8>) -> bool {
    0 <= i && i + t.len() <= s.len() && s.subrange(i, i + t.len()) == t
}

/// One or more blanks.
pub open spec fn spec_space1(s: Seq<u8>, i: int) -> Option<int> {
    if blank_end(s, i) > i {
        Some(blank_end(s, i))
    } else {
        None
    }
}

/// One or more digits.
pub open spec fn spec_digit1(s: Seq<u8>, i: int) -> Option<int> {
    if digit_end(s, i) > i {
        Some(digit_end(s, i))
    } else {
        None
    }
}

/// The fixed word `t`.
pub open spec fn spec_word(s: Seq<u8>, i: int, t: Seq<u8>) -> Option<int> {
    if has_word(s, i, t) {
        Some(i + t.len())
    } else {
        None
    }
}

/// A line ending: `\n` or `\r\n`.
pub open spec fn spec_line_ending(s: Seq<u8>, i: int) -> Option<int> {
    if has_word(s, i, seq![LF]) {
        Some(i + 1)
    } else if has_word(s, i, seq![CR, LF]) {
        Some(i + 2)
    } else {
        None
    }
}

/// At least one byte up to (and not including) the first `b`; the result is
/// the position of that `b`.
pub open spec fn spec_take_until1(s: Seq<u8>, i: int, b: u8) -> Option<int> {
    match find_byte(s, i, b) {
        Some(k) => if k > i {
            Some(k)
        } else {
            None
        },
        None => None,
    }
}

pub proof fn lemma_blank_end_bounds(s: Seq<u8>, i: int)
    requires
        0 <= i <= s.len(),
    ensures
        i <= blank_end(s, i) <= s.len(),
        forall|k: int| i <= k < blank_end(s, i) ==> is_blank(#[trigger] s[k]),
    decreases s.len() - i,
{
    if i < s.len() && is_blank(s[i]) {
        lemma_blank_end_bounds(s, i + 1);
    }
}

pub proof fn lemma_digit_end_bounds(s: Seq<u8>, i: int)
    requires
        0 <= i <= s.len(),
    ensures
        i <= digit_end(s, i) <= s.len(),
        forall|k: int| i <= k < digit_end(s, i) ==> is_digit(#[trigger] s[k]),
        digit_end(s, i) < s.len() ==> !is_digit(s[digit_end(s, i)]),
    decreases s.len() - i,
{
    if i < s.len() && is_digit(s[i]) {
        lemma_digit_end_bounds(s, i + 1);
    }
}

pub proof fn lemma_find_byte_bounds(s: Seq<u8>, i: int, b: u8)
    requires
        0 <= i,
    ensures
        find_byte(s, i, b) matches Some(k) ==> i <= k < s.len() && s[k] == b,
        find_byte(s, i, b) matches Some(k) ==> forall|m: int| i <= m < k ==> s[m] != b,
    decreases s.len() - i,
{
    if 0 <= i < s.len() && s[i] != b {
        lemma_find_byte_bounds(s, i + 1, b);
    }
}

/// Position after the blanks that start at `i`.
pub fn blank_run(s: &[u8], i: usize) -> (res: usize)
    requires
        i <= s@.len(),
    ensures
        res == blank_end(s@, i as int),
{
    let mut j = i;
    while j < s.len() && (s[j] == SPACE || s[j] == TAB)
        invariant
            i <= j <= s@.len(),
            blank_end(s@, i as int) == blank_end(s@, j as int),
        decreases s@.len() - j,
    {
        j = j + 1;
    }
    j
}

/// Position after the digits that start at `i`.
pub fn digit_run(s: &[u8], i: usize) -> (res: usize)
    requires
        i <= s@.len(),
    ensures
        res == digit_end(s@, i as int),
{
    let mut j = i;
    while j < s.len() && ZERO <= s[j] && s[j] <= NINE
        invariant
            i <= j <= s@.len(),
            digit_end(s@, i as int) == digit_end(s@, j as int),
        decreases s@.len() - j,
    {
        j = j + 1;
    }
    j
}

/// The first position at or after `i` holding `b`.
pub fn find(s: &[u8], i: usize, b: u8) -> (res: Option<usize>)
    requires
        i <= s@.len(),
    ensures
        res matches Some(k) ==> find_byte(s@, i as int, b) == Some(k as int),
        res is None ==> find_byte(s@, i as int, b) is None,
{
    let mut j = i;
    while j < s.len()
        invariant
            i <= j <= s@.len(),
            find_byte(s@, i as int, b) == find_byte(s@, j as int, b),
        decreases s@.len() - j,
    {
        if s[j] == b {
            return Some(j);
        }
        j = j + 1;
    }
    None
}

/// Whether the word `t` stands at position `i`.
pub fn word_at(s: &[u8], i: usize, t: &[u8]) -> (res: bool)
    requires
        i <= s@.len(),
    ensures
        res == has_word(s@, i as int, t@),
{
    if t.len() > s.len() - i {
        return false;
    }
    let mut k: usize = 0;
    while k < t.len()
        invariant
            i + t@.len() <= s@.len(),
            s@.len() == s.len(),
            k <= t@.len(),
            forall|m: int| 0 <= m < k ==> s@[i + m] == t@[m],
        decreases t@.len() - k,
    {
        if s[i + k] != t[k] {
            proof {
                assert(s@.subrange(i as int, i + t@.len())[k as int] != t@[k as int]);
            }
            return false;
        }
        k = k + 1;
    }
    assert(s@.subrange(i as int, i + t@.len()) =~= t@);
    true
}

/// One or more blanks at `i`.
pub fn space1(s: &[u8], i: usize) -> (res: Option<usize>)
    requires
        i <= s@.len(),
    ensures
        res matches Some(k) ==> spec_space1(s@, i as int) == Some(k as int),
        res matches Some(k) ==> i < k <= s@.len(),
        res is None ==> spec_space1(s@, i as int) is None,
{
    proof {
        lemma_blank_end_bounds(s@, i as int);
    }
    let e = blank_run(s, i);
    if e > i {
        Some(e)
    } else {
        None
    }
}

/// One or more digits at `i`.
pub fn digit1(s: &[u8], i: usize) -> (res: Option<usize>)
    requires
        i <= s@.len(),
    ensures
        res matches Some(k) ==> spec_digit1(s@, i as int) == Some(k as int),
        res matches Some(k) ==> i < k <= s@.len(),
        res is None ==> spec_digit1(s@, i as int) is None,
{
    proof {
        lemma_digit_end_bounds(s@, i as int);
    }
    let e = digit_run(s, i);
    if e > i {
        Some(e)
    } else {
        None
    }
}

/// The word `t` at `i`.
pub fn word(s: &[u8], i: usize, t: &[u8]) -> (res: Option<usize>)
    requires
        i <= s@.len(),
    ensures
        res matches Some(k) ==> spec_word(s@, i as int, t@) == Some(k as int),
        res matches Some(k) ==> i <= k <= s@.len(),
        res is None ==> spec_word(s@, i as int, t@) is None,
{
    // The length of a slice fits in a `usize`.
    let _len = s.len();
    if word_at(s, i, t) {
        Some(i + t.len())
    } else {
        None
    }
}

/// A line ending at `i`.
pub fn line_ending(s: &[u8], i: usize) -> (res: Option<usize>)
    requires
        i <= s@.len(),
    ensures
        res matches Some(k) ==> spec_line_ending(s@, i as int) == Some(k as int),
        res matches Some(k) ==> i < k <= s@.len(),
        res is None ==> spec_line_ending(s@, i as int) is None,
{
    let lf: [u8; 1] = [LF];
    let crlf: [u8; 2] = [CR, LF];
    assert(lf@ == seq![LF]);
    assert(crlf@ == seq![CR, LF]);
    // The length of a slice fits in a `usize`.
    let _len = s.len();
    if word_at(s, i, lf.as_slice()) {
        Some(i + 1)
    } else if word_at(s, i, crlf.as_slice()) {
        Some(i + 2)
    } else {
        None
    }
}

/// At least one byte before the first `b` at or after `i`.
pub fn take_until1(s: &[u8], i: usize, b: u8) -> (res: Option<usize>)
    requires
        i <= s@.len(),
    ensures
        res matches Some(k) ==> spec_take_until1(s@, i as int, b) == Some(k as int),
        res matches Some(k) ==> i < k < s@.len(),
        res is None ==> spec_take_until1(s@, i as int, b) is None,
{
    proof {
        lemma_find_byte_bounds(s@, i as int, b);
    }
    match find(s, i, b) {
        Some(k) => if k > i {
            Some(k)
        } else {
            None
        },
        None => None,
    }
}

} // verus!
