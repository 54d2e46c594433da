//! The grammar of the benchmark harness output, as spec functions over bytes.
//!
//! ```text
//! \n
//! running N test(s)\n
//! test NAME ... ignored\n
//! test NAME ... bench:   1,234 ns/iter (+/- 56)\n
//! \n
//! ```
//!
//! Every recognizer reads `s` from position `i` and gives back the position
//! just after what it recognized, with the value it read.
use vstd::prelude::*;

use super::scan::{
    blank_end, digit_end, find_byte, is_digit, lemma_blank_end_bounds, lemma_digit_end_bounds,
    lemma_find_byte_bounds, spec_digit1, spec_line_ending, spec_space1, spec_take_until1,
    spec_word, has_word, COMMA, PLUS, SPACE, ZERO,
};
use super::units::{units_of, Duration, Latency, Test, Units};

verus! {

pub const DOT: u8 = 46;
pub const SLASH: u8 = 47;
pub const LPAREN: u8 = 40;
pub const RPAREN: u8 = 41;
pub const MINUS: u8 = 45;
pub const COLON: u8 = 58;

/// `test`
pub open spec fn word_test() -> Seq<u8> {
    seq![116u8, 101u8, 115u8, 116u8]
}

/// `tests`
pub open spec fn word_tests() -> Seq<u8> {
    seq![116u8, 101u8, 115u8, 116u8, 115u8]
}

/// `running`
pub open spec fn word_running() -> Seq<u8> {
    seq![114u8, 117u8, 110u8, 110u8, 105u8, 110u8, 103u8]
}

/// `...`
pub open spec fn word_dots() -> Seq<u8> {
    seq![DOT, DOT, DOT]
}

/// `ignored`
pub open spec fn word_ignored() -> Seq<u8> {
    seq![105u8, 103u8, 110u8, 111u8, 114u8, 101u8, 100u8]
}

/// `bench:`
pub open spec fn word_bench() -> Seq<u8> {
    seq![98u8, 101u8, 110u8, 99u8, 104u8, COLON]
}

/// `/iter`
pub open spec fn word_iter() -> Seq<u8> {
    seq![SLASH, 105u8, 116u8, 101u8, 114u8]
}

/// `(+/-`
pub open spec fn word_plus_minus() -> Seq<u8> {
    seq![LPAREN, PLUS, SLASH, MINUS]
}

/// `)`
pub open spec fn word_rparen() -> Seq<u8> {
    seq![RPAREN]
}

/// The separator of a group that no comma follows: a space, which is given
/// without being read.
pub open spec fn no_comma_separator() -> Seq<u8> {
    seq![SPACE]
}

/// The groups of a number such as `3,161`: each group is a run of digits and
/// its separator, the comma that follows it where one does, else a space
/// that is not read from the text. A new group starts wherever a digit
/// follows a comma.
pub open spec fn number_groups(s: Seq<u8>, i: int) -> Seq<(Seq<u8>, Seq<u8>)>
    decreases s.len() - i,
{
    let d = digit_end(s, i);
    if i < 0 || d <= i {
        seq![]
    } else {
        let e = if d < s.len() && s[d] == COMMA {
            d + 1
        } else {
            d
        };
        let sep = if e > d {
            seq![COMMA]
        } else {
            no_comma_separator()
        };
        let g = (s.subrange(i, d), sep);
        if e < s.len() && is_digit(s[e]) {
            seq![g] + number_groups(s, e)
        } else {
            seq![g]
        }
    }
}

/// Where the number that starts at `i` ends.
pub open spec fn number_end(s: Seq<u8>, i: int) -> Option<int>
    decreases s.len() - i,
{
    let d = digit_end(s, i);
    if i < 0 || d <= i {
        None
    } else {
        let e = if d < s.len() && s[d] == COMMA {
            d + 1
        } else {
            d
        };
        if e < s.len() && is_digit(s[e]) {
            number_end(s, e)
        } else {
            Some(e)
        }
    }
}

/// The digits of all groups, in order, without the commas.
pub open spec fn flat_digits(g: Seq<(Seq<u8>, Seq<u8>)>) -> Seq<u8>
    decreases g.len(),
{
    if g.len() == 0 {
        seq![]
    } else {
        flat_digits(g.drop_last()) + g.last().0
    }
}

/// The value of a string of decimal digits.
pub open spec fn digits_value(t: Seq<u8>) -> nat
    decreases t.len(),
{
    if t.len() == 0 {
        0
    } else {
        digits_value(t.drop_last()) * 10 + (t.last() - ZERO) as nat
    }
}

pub open spec fn all_digits(t: Seq<u8>) -> bool {
    forall|k: int| 0 <= k < t.len() ==> is_digit(#[trigger] t[k])
}

/// The digits that follow an optional leading `+`.
pub open spec fn unsigned_part(t: Seq<u8>) -> Seq<u8> {
    if t.len() > 0 && t[0] == PLUS {
        t.subrange(1, t.len() as int)
    } else {
        t
    }
}

/// Reading text as a `u64`: an optional `+`, then one or more decimal
/// digits whose value fits in 64 bits.
pub open spec fn u64_of(t: Seq<u8>) -> Option<u64> {
    let u = unsigned_part(t);
    if u.len() > 0 && all_digits(u) && digits_value(u) <= u64::MAX {
        Some(digits_value(u) as u64)
    } else {
        None
    }
}

/// A measurement converted to a span of time.
pub open spec fn spec_to_duration(time: u64, units: Units) -> Duration {
    Duration { nanos: (time * units.nanos_per()) as u128 }
}

/// The latency read from a unit abbreviation and two numbers: it exists
/// when the unit is known and both numbers fit in 64 bits.
pub open spec fn latency_of(
    unit: Seq<u8>,
    duration: Seq<(Seq<u8>, Seq<u8>)>,
    variance: Seq<(Seq<u8>, Seq<u8>)>,
) -> Option<Latency> {
    match (units_of(unit), u64_of(flat_digits(duration)), u64_of(flat_digits(variance))) {
        (Some(u), Some(d), Some(v)) => Some(
            Latency { duration: spec_to_duration(d, u), variance: spec_to_duration(v, u) },
        ),
        _ => None,
    }
}

/// `N UNIT/iter (+/- M)`
#[verifier::opaque]
pub open spec fn spec_metric(s: Seq<u8>, i: int) -> Option<(int, Latency)> {
    match number_end(s, i) {
        None => None,
        Some(n1) => match spec_space1(s, n1) {
            None => None,
            Some(a) => match spec_take_until1(s, a, SLASH) {
                None => None,
                Some(u) => match spec_word(s, u, word_iter()) {
                    None => None,
                    Some(b) => match spec_space1(s, b) {
                        None => None,
                        Some(c) => match spec_word(s, c, word_plus_minus()) {
                            None => None,
                            Some(d) => match spec_space1(s, d) {
                                None => None,
                                Some(e) => match number_end(s, e) {
                                    None => None,
                                    Some(n2) => match spec_word(s, n2, word_rparen()) {
                                        None => None,
                                        Some(f) => match latency_of(
                                            s.subrange(a, u),
                                            number_groups(s, i),
                                            number_groups(s, e),
                                        ) {
                                            Some(l) => Some((f, l)),
                                            None => None,
                                        },
                                    },
                                },
                            },
                        },
                    },
                },
            },
        },
    }
}

/// The shape of `N UNIT/iter (+/- M)` without reading its values: where it
/// matches, the end, where the unit starts and ends, and where the second
/// number starts.
#[verifier::opaque]
pub open spec fn metric_shape(s: Seq<u8>, i: int) -> Option<(int, int, int, int)> {
    match number_end(s, i) {
        None => None,
        Some(n1) => match spec_space1(s, n1) {
            None => None,
            Some(a) => match spec_take_until1(s, a, SLASH) {
                None => None,
                Some(u) => match spec_word(s, u, word_iter()) {
                    None => None,
                    Some(b) => match spec_space1(s, b) {
                        None => None,
                        Some(c) => match spec_word(s, c, word_plus_minus()) {
                            None => None,
                            Some(d) => match spec_space1(s, d) {
                                None => None,
                                Some(e) => match number_end(s, e) {
                                    None => None,
                                    Some(n2) => match spec_word(s, n2, word_rparen()) {
                                        None => None,
                                        Some(f) => Some((f, a, u, e)),
                                    },
                                },
                            },
                        },
                    },
                },
            },
        },
    }
}

/// Where the text has the shape of a metric, its unit is one of `ns`, `μs`,
/// `ms` and `s` and both its numbers fit in 64 bits.
pub open spec fn metric_convertible(s: Seq<u8>, i: int) -> bool {
    match metric_shape(s, i) {
        Some((_, a, u, e)) => latency_of(
            s.subrange(a, u),
            number_groups(s, i),
            number_groups(s, e),
        ) is Some,
        None => true,
    }
}

/// A metric is read exactly where its shape matches and its unit and
/// numbers convert.
pub proof fn lemma_metric_by_shape(s: Seq<u8>, i: int)
    ensures
        match metric_shape(s, i) {
            Some((f, a, u, e)) => spec_metric(s, i) == match latency_of(
                s.subrange(a, u),
                number_groups(s, i),
                number_groups(s, e),
            ) {
                Some(l) => Some((f, l)),
                None => None,
            },
            None => spec_metric(s, i) is None,
        },
{
    reveal(spec_metric);
    reveal(metric_shape);
}

/// `ignored`, or `bench:` and a metric.
#[verifier::opaque]
pub open spec fn spec_outcome(s: Seq<u8>, i: int) -> Option<(int, Test)> {
    match spec_word(s, i, word_ignored()) {
        Some(k) => Some((k, Test::Ignored)),
        None => match spec_word(s, i, word_bench()) {
            None => None,
            Some(k) => match spec_space1(s, k) {
                None => None,
                Some(m) => match spec_metric(s, m) {
                    Some((e, l)) => Some((e, Test::Metric(l))),
                    None => None,
                },
            },
        },
    }
}

/// `test NAME ... OUTCOME` and a line ending; the value is the name and the
/// outcome.
#[verifier::opaque]
pub open spec fn spec_line(s: Seq<u8>, i: int) -> Option<(int, (Seq<u8>, Test))> {
    match spec_word(s, i, word_test()) {
        None => None,
        Some(a) => match spec_space1(s, a) {
            None => None,
            Some(b) => match spec_take_until1(s, b, SPACE) {
                None => None,
                Some(c) => match spec_space1(s, c) {
                    None => None,
                    Some(d) => match spec_word(s, d, word_dots()) {
                        None => None,
                        Some(e) => match spec_space1(s, e) {
                            None => None,
                            Some(f) => match spec_outcome(s, f) {
                                None => None,
                                Some((g, t)) => match spec_line_ending(s, g) {
                                    None => None,
                                    Some(h) => Some((h, (s.subrange(b, c), t))),
                                },
                            },
                        },
                    },
                },
            },
        },
    }
}

/// `tests` or `test`.
pub open spec fn spec_test_count_word(s: Seq<u8>, i: int) -> Option<int> {
    match spec_word(s, i, word_tests()) {
        Some(k) => Some(k),
        None => spec_word(s, i, word_test()),
    }
}

/// A line ending, then `running N test(s)` and a line ending.
#[verifier::opaque]
pub open spec fn spec_header(s: Seq<u8>, i: int) -> Option<int> {
    match spec_line_ending(s, i) {
        None => None,
        Some(a) => match spec_word(s, a, word_running()) {
            None => None,
            Some(b) => match spec_space1(s, b) {
                None => None,
                Some(c) => match spec_digit1(s, c) {
                    None => None,
                    Some(d) => match spec_space1(s, d) {
                        None => None,
                        Some(e) => match spec_test_count_word(s, e) {
                            None => None,
                            Some(f) => spec_line_ending(s, f),
                        },
                    },
                },
            },
        },
    }
}

pub proof fn lemma_number_end_advances(s: Seq<u8>, i: int)
    ensures
        number_end(s, i) matches Some(e) ==> i < e <= s.len(),
    decreases s.len() - i,
{
    if 0 <= i <= s.len() {
        lemma_digit_end_bounds(s, i);
        let d = digit_end(s, i);
        if d > i {
            let e = if d < s.len() && s[d] == COMMA {
                d + 1
            } else {
                d
            };
            if e < s.len() && is_digit(s[e]) {
                lemma_number_end_advances(s, e);
            }
        }
    } else if i > s.len() {
        assert(digit_end(s, i) == i);
    }
}

pub proof fn lemma_line_advances(s: Seq<u8>, i: int)
    ensures
        spec_line(s, i) matches Some((h, _)) ==> i < h <= s.len(),
{
    reveal(spec_line);
    if spec_line(s, i) is Some {
        let a = i + 4;
        lemma_blank_end_bounds(s, a);
        let b = blank_end(s, a);
        lemma_find_byte_bounds(s, b, SPACE);
        let c = find_byte(s, b, SPACE).unwrap();
        lemma_blank_end_bounds(s, c);
        let e = blank_end(s, c) + 3;
        lemma_blank_end_bounds(s, e);
        lemma_outcome_bounds(s, blank_end(s, e));
    }
}

pub proof fn lemma_metric_bounds(s: Seq<u8>, i: int)
    ensures
        spec_metric(s, i) matches Some((e, _)) ==> i < e <= s.len(),
{
    reveal(spec_metric);
    if let Some((e, _)) = spec_metric(s, i) {
        lemma_number_end_advances(s, i);
        let n1 = number_end(s, i).unwrap();
        lemma_blank_end_bounds(s, n1);
        let a = blank_end(s, n1);
        lemma_find_byte_bounds(s, a, SLASH);
        let u = find_byte(s, a, SLASH).unwrap();
        lemma_blank_end_bounds(s, u + 5);
        let c = blank_end(s, u + 5);
        lemma_blank_end_bounds(s, c + 4);
        let d = blank_end(s, c + 4);
        lemma_number_end_advances(s, d);
    }
}

pub proof fn lemma_outcome_bounds(s: Seq<u8>, i: int)
    requires
        0 <= i,
    ensures
        spec_outcome(s, i) matches Some((e, _)) ==> i < e <= s.len(),
{
    reveal(spec_outcome);
    if spec_outcome(s, i) is Some && !has_word(s, i, word_ignored()) {
        lemma_blank_end_bounds(s, i + 6);
        lemma_metric_bounds(s, blank_end(s, i + 6));
    }
}

pub proof fn lemma_header_bounds(s: Seq<u8>, i: int)
    requires
        0 <= i,
    ensures
        spec_header(s, i) matches Some(e) ==> i < e <= s.len(),
{
    reveal(spec_header);
    if spec_header(s, i) is Some {
        let a = spec_line_ending(s, i).unwrap();
        let b = a + 7;
        lemma_blank_end_bounds(s, b);
        let c = blank_end(s, b);
        lemma_digit_end_bounds(s, c);
        let d = digit_end(s, c);
        lemma_blank_end_bounds(s, d);
    }
}

/// Zero or more further lines; stops at the first position where no line
/// can be read.
pub open spec fn spec_lines_rest(s: Seq<u8>, i: int) -> (int, Seq<(Seq<u8>, Test)>)
    decreases s.len() - i,
{
    match spec_line(s, i) {
        Some((e, l)) => {
            proof {
                lemma_line_advances(s, i);
            }
            let r = spec_lines_rest(s, e);
            (r.0, seq![l] + r.1)
        },
        None => (i, seq![]),
    }
}

/// The whole report: the header, one or more test lines and a closing line
/// ending. The value is the position after the closing line ending and the
/// name and outcome of each test, in order.
pub open spec fn spec_parse_stdout(s: Seq<u8>) -> Option<(int, Seq<(Seq<u8>, Test)>)> {
    match spec_header(s, 0) {
        None => None,
        Some(a) => match spec_line(s, a) {
            None => None,
            Some((b, first)) => {
                let (c, rest) = spec_lines_rest(s, b);
                match spec_line_ending(s, c) {
                    None => None,
                    Some(d) => Some((d, seq![first] + rest)),
                }
            },
        },
    }
}

} // verus!
