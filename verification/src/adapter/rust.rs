//! The parser for the output of `cargo bench`, checked against the grammar
//! in [`super::grammar`].
use vstd::prelude::*;

use super::grammar::{
    all_digits, digits_value, lemma_metric_by_shape, metric_convertible, metric_shape, flat_digits, number_end, number_groups,
    spec_header, spec_line, spec_lines_rest, spec_metric, spec_outcome, spec_parse_stdout,
    u64_of, unsigned_part, word_bench, word_dots,
    word_ignored, word_iter, word_plus_minus, word_rparen, word_running, word_test, word_tests,
    COLON, DOT, LPAREN, MINUS, RPAREN, SLASH,
};
use super::scan::{
    digit1, digit_end, digit_run, is_digit, lemma_digit_end_bounds, line_ending, space1,
    take_until1, word, COMMA, NINE, PLUS, SPACE, ZERO,
};
use super::units::{to_duration, Latency, Test, Units};

verus! {

/// One test of the report: its name and what the harness said of it.
#[derive(Debug, PartialEq, Eq)]
pub struct TestLine {
    pub name: Vec<u8>,
    pub test: Test,
}

impl View for TestLine {
    type V = (Seq<u8>, Test);

    open spec fn view(&self) -> (Seq<u8>, Test) {
        (self.name@, self.test)
    }
}

/// The groups of a number, as byte sequences.
pub open spec fn groups_view<'a>(g: Seq<(&'a [u8], &'a [u8])>) -> Seq<(Seq<u8>, Seq<u8>)> {
    g.map_values(|p: (&'a [u8], &'a [u8])| (p.0@, p.1@))
}

/// The lines of a report, as names and outcomes.
pub open spec fn lines_view(v: Seq<TestLine>) -> Seq<(Seq<u8>, Test)> {
    v.map_values(|l: TestLine| l@)
}

/// The separator given to a group that no comma follows.
pub const SPACE_SEPARATOR: [u8; 1] = [SPACE];

/// The groups of digits of the number at `i`, each with its separator (the
/// comma that follows it, or a space where none does), and the position
/// after the number.
pub fn parse_number<'a>(s: &'a [u8], i: usize) -> (res: Option<(usize, Vec<(&'a [u8], &'a [u8])>)>)
    requires
        i <= s@.len(),
    ensures
        match res {
            Some((e, g)) => {
                &&& number_end(s@, i as int) == Some(e as int)
                &&& groups_view(g@) == number_groups(s@, i as int)
                &&& i < e <= s@.len()
            },
            None => number_end(s@, i as int) is None,
        },
{
    let d0 = digit_run(s, i);
    if d0 <= i {
        return None;
    }
    proof {
        super::grammar::lemma_number_end_advances(s@, i as int);
    }
    let mut groups: Vec<(&'a [u8], &'a [u8])> = Vec::new();
    let mut j = i;
    assert(groups_view(groups@) + number_groups(s@, i as int) =~= number_groups(s@, i as int));
    loop
        invariant
            i <= j < s@.len(),
            digit_end(s@, j as int) > j,
            number_end(s@, i as int) == number_end(s@, j as int),
            number_groups(s@, i as int) == groups_view(groups@) + number_groups(s@, j as int),
        decreases s@.len() - j,
    {
        proof {
            lemma_digit_end_bounds(s@, j as int);
        }
        let d = digit_run(s, j);
        let e = if d < s.len() && s[d] == COMMA {
            d + 1
        } else {
            d
        };
        let sep: &'a [u8] = if e > d {
            &s[d..e]
        } else {
            SPACE_SEPARATOR.as_slice()
        };
        let ghost g = (
            s@.subrange(j as int, d as int),
            if e > d {
                seq![COMMA]
            } else {
                seq![SPACE]
            },
        );
        proof {
            if e > d {
                assert(sep@ =~= seq![COMMA]);
            } else {
                assert(sep@ =~= seq![SPACE]);
            }
        }
        let ghost before = groups_view(groups@);
        groups.push((&s[j..d], sep));
        proof {
            assert(groups_view(groups@) =~= before.push(g));
        }
        if e < s.len() && ZERO <= s[e] && s[e] <= NINE {
            proof {
                assert(digit_end(s@, e as int) == digit_end(s@, e + 1));
                lemma_digit_end_bounds(s@, e + 1);
                assert(groups_view(groups@) + number_groups(s@, e as int) =~= before + (seq![g]
                    + number_groups(s@, e as int)));
            }
            j = e;
        } else {
            proof {
                assert(groups_view(groups@) =~= before + seq![g]);
            }
            return Some((e, groups));
        }
    }
}

pub proof fn lemma_digits_value_push(t: Seq<u8>, b: u8)
    ensures
        digits_value(t.push(b)) == digits_value(t) * 10 + (b - ZERO) as nat,
{
    assert(t.push(b).drop_last() =~= t);
}

/// A longer string of digits is worth at least as much as its prefix.
pub proof fn lemma_digits_value_prefix(u: Seq<u8>, k: int)
    requires
        0 <= k <= u.len(),
        all_digits(u),
    ensures
        digits_value(u.take(k)) <= digits_value(u),
    decreases u.len() - k,
{
    if k < u.len() {
        lemma_digits_value_prefix(u, k + 1);
        assert(u.take(k + 1) =~= u.take(k).push(u[k]));
        lemma_digits_value_push(u.take(k), u[k]);
        assert(is_digit(u[k]));
    } else {
        assert(u.take(k) =~= u);
    }
}

/// Reads text as a `u64` the way the standard library does: an optional `+`
/// followed by one or more decimal digits, refused when the value does not
/// fit in 64 bits.
pub fn parse_u64(t: &[u8]) -> (res: Option<u64>)
    ensures
        res == u64_of(t@),
{
    let n = t.len();
    let start: usize = if n > 0 && t[0] == PLUS {
        1
    } else {
        0
    };
    let ghost u = unsigned_part(t@);
    assert(u =~= t@.subrange(start as int, n as int));
    if start == n {
        return None;
    }
    let mut acc: u64 = 0;
    let mut k = start;
    assert(t@.subrange(start as int, start as int) =~= Seq::<u8>::empty());
    while k < n
        invariant
            n == t@.len(),
            start <= k <= n,
            u =~= t@.subrange(start as int, n as int),
            u == unsigned_part(t@),
            acc == digits_value(t@.subrange(start as int, k as int)),
            all_digits(t@.subrange(start as int, k as int)),
        decreases n - k,
    {
        let b = t[k];
        let ghost pre = t@.subrange(start as int, k as int);
        assert(t@.subrange(start as int, k + 1) =~= pre.push(b));
        assert(u.take(k - start) =~= pre);
        assert(u.take(k - start + 1) =~= pre.push(b));
        if b < ZERO || b > NINE {
            assert(u[k - start] == b);
            assert(!is_digit(u[k - start]));
            return None;
        }
        proof {
            lemma_digits_value_push(pre, b);
        }
        match acc.checked_mul(10) {
            None => {
                proof {
                    assert(digits_value(pre.push(b)) > u64::MAX);
                    if all_digits(u) {
                        lemma_digits_value_prefix(u, k - start + 1);
                        assert(digits_value(u) > u64::MAX);
                    }
                }
                return None;
            },
            Some(m) => match m.checked_add((b - ZERO) as u64) {
                None => {
                    proof {
                        if all_digits(u) {
                            lemma_digits_value_prefix(u, k - start + 1);
                        }
                    }
                    return None;
                },
                Some(v) => {
                    acc = v;
                },
            },
        }
        k = k + 1;
    }
    Some(acc)
}

pub proof fn lemma_flat_digits_push(g: Seq<(Seq<u8>, Seq<u8>)>, x: (Seq<u8>, Seq<u8>))
    ensures
        flat_digits(g.push(x)) == flat_digits(g) + x.0,
{
    assert(g.push(x).drop_last() =~= g);
}

/// Concatenates the digit groups of a number and reads the result as a
/// `u64`; `None` where the standard library's parse fails.
pub fn try_to_u64(input: &Vec<(&[u8], &[u8])>) -> (res: Option<u64>)
    ensures
        res == u64_of(flat_digits(groups_view(input@))),
{
    let mut number: Vec<u8> = Vec::new();
    let mut k: usize = 0;
    let ghost gv = groups_view(input@);
    assert(gv.take(0) =~= Seq::<(Seq<u8>, Seq<u8>)>::empty());
    while k < input.len()
        invariant
            k <= input@.len(),
            gv == groups_view(input@),
            number@ == flat_digits(gv.take(k as int)),
        decreases input@.len() - k,
    {
        let digits = input[k].0;
        let mut m: usize = 0;
        let ghost base = number@;
        while m < digits.len()
            invariant
                m <= digits@.len(),
                number@ == base + digits@.take(m as int),
            decreases digits@.len() - m,
        {
            number.push(digits[m]);
            assert(digits@.take(m + 1) =~= digits@.take(m as int).push(digits@[m as int]));
            m = m + 1;
        }
        proof {
            assert(gv.take(k + 1) =~= gv.take(k as int).push(gv[k as int]));
            lemma_flat_digits_push(gv.take(k as int), gv[k as int]);
            assert(digits@.take(m as int) =~= digits@);
        }
        k = k + 1;
    }
    assert(gv.take(k as int) =~= gv);
    parse_u64(number.as_slice())
}

/// Concatenates the digit groups of a number and reads the result as a
/// `u64`. Groups whose digits do not read as a `u64` (overflow, a stray
/// byte, nothing at all) are refused by the precondition.
pub fn to_u64(input: Vec<(&[u8], &[u8])>) -> (res: u64)
    requires
        u64_of(flat_digits(groups_view(input@))) is Some,
    ensures
        u64_of(flat_digits(groups_view(input@))) == Some(res),
{
    match try_to_u64(&input) {
        Some(v) => v,
        None => 0,
    }
}

/// `N UNIT/iter (+/- M)`: the latency with the position after it; `None`
/// where the text does not have that shape, where the unit is not one of
/// `ns`, `μs`, `ms` and `s`, or where a number does not fit in 64 bits.
fn try_parse_metric(s: &[u8], i: usize) -> (res: Option<(usize, Latency)>)
    requires
        i <= s@.len(),
    ensures
        match res {
            Some((e, l)) => spec_metric(s@, i as int) == Some((e as int, l)) && i < e <= s@.len(),
            None => spec_metric(s@, i as int) is None,
        },
{
    reveal(spec_metric);
    let iter: [u8; 5] = [SLASH, 105, 116, 101, 114];
    let plus_minus: [u8; 4] = [LPAREN, PLUS, SLASH, MINUS];
    let rparen: [u8; 1] = [RPAREN];
    assert(iter@ == word_iter());
    assert(plus_minus@ == word_plus_minus());
    assert(rparen@ == word_rparen());
    let (n1, duration) = match parse_number(s, i) {
        Some(p) => p,
        None => return None,
    };
    let a = match space1(s, n1) {
        Some(a) => a,
        None => return None,
    };
    let u = match take_until1(s, a, SLASH) {
        Some(u) => u,
        None => return None,
    };
    let b = match word(s, u, iter.as_slice()) {
        Some(b) => b,
        None => return None,
    };
    let c = match space1(s, b) {
        Some(c) => c,
        None => return None,
    };
    let d = match word(s, c, plus_minus.as_slice()) {
        Some(d) => d,
        None => return None,
    };
    let e = match space1(s, d) {
        Some(e) => e,
        None => return None,
    };
    let (n2, variance) = match parse_number(s, e) {
        Some(p) => p,
        None => return None,
    };
    let f = match word(s, n2, rparen.as_slice()) {
        Some(f) => f,
        None => return None,
    };
    let units = match Units::parse(&s[a..u]) {
        Some(units) => units,
        None => return None,
    };
    let dv = match try_to_u64(&duration) {
        Some(v) => v,
        None => return None,
    };
    let vv = match try_to_u64(&variance) {
        Some(v) => v,
        None => return None,
    };
    let duration = to_duration(dv, &units);
    let variance = to_duration(vv, &units);
    Some((f, Latency { duration, variance }))
}

/// `N UNIT/iter (+/- M)`: the latency with the position after it, `None`
/// where the text does not have that shape. A text of that shape whose unit
/// is not one of `ns`, `μs`, `ms` and `s`, or one of whose numbers does not
/// fit in 64 bits, is refused by the precondition.
pub fn parse_metric(s: &[u8], i: usize) -> (res: Option<(usize, Latency)>)
    requires
        i <= s@.len(),
        metric_convertible(s@, i as int),
    ensures
        match res {
            Some((e, l)) => spec_metric(s@, i as int) == Some((e as int, l)) && i < e <= s@.len(),
            None => spec_metric(s@, i as int) is None,
        },
        res is None <==> metric_shape(s@, i as int) is None,
{
    proof {
        lemma_metric_by_shape(s@, i as int);
    }
    try_parse_metric(s, i)
}

/// `ignored`, or `bench:` and a metric.
fn parse_outcome(s: &[u8], i: usize) -> (res: Option<(usize, Test)>)
    requires
        i <= s@.len(),
    ensures
        match res {
            Some((e, t)) => spec_outcome(s@, i as int) == Some((e as int, t)) && i <= e <= s@.len(),
            None => spec_outcome(s@, i as int) is None,
        },
{
    reveal(spec_outcome);
    let ignored: [u8; 7] = [105, 103, 110, 111, 114, 101, 100];
    let bench: [u8; 6] = [98, 101, 110, 99, 104, COLON];
    assert(ignored@ == word_ignored());
    assert(bench@ == word_bench());
    if let Some(k) = word(s, i, ignored.as_slice()) {
        return Some((k, Test::Ignored));
    }
    let k = match word(s, i, bench.as_slice()) {
        Some(k) => k,
        None => return None,
    };
    let m = match space1(s, k) {
        Some(m) => m,
        None => return None,
    };
    match try_parse_metric(s, m) {
        Some((e, l)) => Some((e, Test::Metric(l))),
        None => None,
    }
}

/// One test line: `test NAME ... OUTCOME` and a line ending.
pub fn parse_line(s: &[u8], i: usize) -> (res: Option<(usize, TestLine)>)
    requires
        i <= s@.len(),
    ensures
        match res {
            Some((e, l)) => spec_line(s@, i as int) == Some((e as int, l@)) && i < e <= s@.len(),
            None => spec_line(s@, i as int) is None,
        },
{
    reveal(spec_line);
    let test: [u8; 4] = [116, 101, 115, 116];
    let dots: [u8; 3] = [DOT, DOT, DOT];
    assert(test@ == word_test());
    assert(dots@ == word_dots());
    let a = match word(s, i, test.as_slice()) {
        Some(a) => a,
        None => return None,
    };
    let b = match space1(s, a) {
        Some(b) => b,
        None => return None,
    };
    let c = match take_until1(s, b, SPACE) {
        Some(c) => c,
        None => return None,
    };
    let d = match space1(s, c) {
        Some(d) => d,
        None => return None,
    };
    let e = match word(s, d, dots.as_slice()) {
        Some(e) => e,
        None => return None,
    };
    let f = match space1(s, e) {
        Some(f) => f,
        None => return None,
    };
    let (g, test) = match parse_outcome(s, f) {
        Some(p) => p,
        None => return None,
    };
    let h = match line_ending(s, g) {
        Some(h) => h,
        None => return None,
    };
    let name = vstd::slice::slice_to_vec(&s[b..c]);
    Some((h, TestLine { name, test }))
}

/// A line ending, then `running N test(s)` and a line ending.
pub fn parse_header(s: &[u8], i: usize) -> (res: Option<usize>)
    requires
        i <= s@.len(),
    ensures
        match res {
            Some(e) => spec_header(s@, i as int) == Some(e as int) && e <= s@.len(),
            None => spec_header(s@, i as int) is None,
        },
{
    reveal(spec_header);
    let running: [u8; 7] = [114, 117, 110, 110, 105, 110, 103];
    let tests: [u8; 5] = [116, 101, 115, 116, 115];
    let test: [u8; 4] = [116, 101, 115, 116];
    assert(running@ == word_running());
    assert(tests@ == word_tests());
    assert(test@ == word_test());
    let a = match line_ending(s, i) {
        Some(a) => a,
        None => return None,
    };
    let b = match word(s, a, running.as_slice()) {
        Some(b) => b,
        None => return None,
    };
    let c = match space1(s, b) {
        Some(c) => c,
        None => return None,
    };
    let d = match digit1(s, c) {
        Some(d) => d,
        None => return None,
    };
    let e = match space1(s, d) {
        Some(e) => e,
        None => return None,
    };
    let f = match word(s, e, tests.as_slice()) {
        Some(f) => f,
        None => match word(s, e, test.as_slice()) {
            Some(f) => f,
            None => return None,
        },
    };
    line_ending(s, f)
}

/// Parses the text that `cargo bench` prints: a blank line, `running N
/// test(s)`, one or more test lines (`test NAME ... ignored` or `test NAME
/// ... bench: N UNIT/iter (+/- M)`) and a blank line. Gives back the number
/// of bytes read and each test's name and outcome, in order; `None` where
/// the text does not follow that shape, where a unit is not one of `ns`,
/// `μs`, `ms` and `s`, or where a number does not fit in 64 bits. Such a
/// unit or number is refused with `None` here rather than aborting the
/// program, as `parse_metric`, `Units::from` and `to_u64` would.
pub fn parse_stdout(input: &[u8]) -> (res: Option<(usize, Vec<TestLine>)>)
    ensures
        match res {
            Some((n, lines)) => spec_parse_stdout(input@) == Some((n as int, lines_view(lines@))),
            None => spec_parse_stdout(input@) is None,
        },
{
    let a = match parse_header(input, 0) {
        Some(a) => a,
        None => return None,
    };
    let (b, first) = match parse_line(input, a) {
        Some(p) => p,
        None => return None,
    };
    let mut lines: Vec<TestLine> = Vec::new();
    lines.push(first);
    let ghost first_view = lines@[0]@;
    let mut j = b;
    assert(lines_view(lines@) =~= seq![first_view]);
    loop
        invariant
            b <= j <= input@.len(),
            lines@.len() >= 1,
            spec_lines_rest(input@, b as int).0 == spec_lines_rest(input@, j as int).0,
            seq![first_view] + spec_lines_rest(input@, b as int).1 == lines_view(lines@)
                + spec_lines_rest(input@, j as int).1,
        ensures
            spec_line(input@, j as int) is None,
        decreases input@.len() - j,
    {
        match parse_line(input, j) {
            Some((e, l)) => {
                let ghost lv = l@;
                let ghost before = lines_view(lines@);
                lines.push(l);
                proof {
                    assert(lines_view(lines@) =~= before.push(lv));
                    assert(spec_lines_rest(input@, j as int).1 == seq![lv] + spec_lines_rest(
                        input@,
                        e as int,
                    ).1);
                    assert(before + (seq![lv] + spec_lines_rest(input@, e as int).1) =~= before.push(
                        lv,
                    ) + spec_lines_rest(input@, e as int).1);
                }
                j = e;
            },
            None => {
                break ;
            },
        }
    }
    assert(spec_lines_rest(input@, j as int).1 =~= Seq::<(Seq<u8>, Test)>::empty());
    assert(lines_view(lines@) + Seq::<(Seq<u8>, Test)>::empty() =~= lines_view(lines@));
    match line_ending(input, j) {
        Some(d) => Some((d, lines)),
        None => None,
    }
}

} // verus!
