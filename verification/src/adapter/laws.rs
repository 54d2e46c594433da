//! The parser reads no further than what it consumes: text that follows a
//! report does not change how the report reads.
use vstd::prelude::*;

use super::units::{name_ms, name_ns, name_s, name_us, units_of, Latency, Test, Units};

use super::grammar::{
    spec_to_duration,
    all_digits, digits_value, flat_digits, no_comma_separator, u64_of, unsigned_part,
    lemma_number_end_advances, number_end, number_groups, spec_header, spec_line,
    spec_lines_rest, spec_metric, spec_outcome, spec_parse_stdout, spec_test_count_word,
    word_bench, word_ignored, word_test, word_tests, SLASH,
};
use super::scan::{
    blank_end, digit_end, find_byte, has_word, is_blank, is_digit, lemma_blank_end_bounds,
    lemma_digit_end_bounds, lemma_find_byte_bounds, spec_digit1, spec_line_ending, spec_space1,
    spec_take_until1, spec_word, COMMA, CR, LF, SPACE, TAB,
};

verus! {

proof fn lemma_blank_end_ext(s: Seq<u8>, t: Seq<u8>, i: int)
    requires
        0 <= i <= s.len(),
        blank_end(s, i) < s.len(),
    ensures
        blank_end(s + t, i) == blank_end(s, i),
    decreases s.len() - i,
{
    let u = s + t;
    assert(u[i] == s[i]);
    if is_blank(s[i]) {
        lemma_blank_end_ext(s, t, i + 1);
    }
}

proof fn lemma_digit_end_ext(s: Seq<u8>, t: Seq<u8>, i: int)
    requires
        0 <= i <= s.len(),
        digit_end(s, i) < s.len(),
    ensures
        digit_end(s + t, i) == digit_end(s, i),
    decreases s.len() - i,
{
    let u = s + t;
    assert(u[i] == s[i]);
    if is_digit(s[i]) {
        lemma_digit_end_ext(s, t, i + 1);
    }
}

proof fn lemma_find_byte_ext(s: Seq<u8>, t: Seq<u8>, i: int, b: u8)
    requires
        0 <= i,
        find_byte(s, i, b) is Some,
    ensures
        find_byte(s + t, i, b) == find_byte(s, i, b),
    decreases s.len() - i,
{
    let u = s + t;
    assert(u[i] == s[i]);
    if s[i] != b {
        lemma_find_byte_ext(s, t, i + 1, b);
    }
}

proof fn lemma_word_ext(s: Seq<u8>, t: Seq<u8>, i: int, w: Seq<u8>)
    requires
        0 <= i,
        i + w.len() <= s.len(),
    ensures
        has_word(s + t, i, w) == has_word(s, i, w),
        spec_word(s + t, i, w) == spec_word(s, i, w),
{
    assert((s + t).subrange(i, i + w.len()) =~= s.subrange(i, i + w.len()));
}

proof fn lemma_word_found_ext(s: Seq<u8>, t: Seq<u8>, i: int, w: Seq<u8>)
    requires
        has_word(s, i, w),
    ensures
        has_word(s + t, i, w),
        spec_word(s + t, i, w) == spec_word(s, i, w),
{
    lemma_word_ext(s, t, i, w);
}

/// A word that starts with another byte than the one at `i` is not there.
proof fn lemma_word_first_byte(s: Seq<u8>, i: int, w: Seq<u8>)
    requires
        0 <= i < s.len(),
        w.len() > 0,
        w[0] != s[i],
    ensures
        !has_word(s, i, w),
        spec_word(s, i, w) is None,
{
    if has_word(s, i, w) {
        assert(s.subrange(i, i + w.len())[0] == s[i]);
    }
}

proof fn lemma_line_ending_ext(s: Seq<u8>, t: Seq<u8>, i: int)
    requires
        0 <= i,
        spec_line_ending(s, i) is Some,
    ensures
        spec_line_ending(s + t, i) == spec_line_ending(s, i),
        i < s.len() && (s[i] == LF || s[i] == CR),
{
    let u = s + t;
    if has_word(s, i, seq![LF]) {
        lemma_word_found_ext(s, t, i, seq![LF]);
        assert(s.subrange(i, i + 1)[0] == s[i]);
    } else {
        lemma_word_found_ext(s, t, i, seq![CR, LF]);
        assert(s.subrange(i, i + 2)[0] == s[i]);
        assert(u[i] == s[i]);
        lemma_word_first_byte(u, i, seq![LF]);
    }
}

proof fn lemma_space1_ext(s: Seq<u8>, t: Seq<u8>, i: int)
    requires
        0 <= i <= s.len(),
        spec_space1(s, i) matches Some(e) && e < s.len(),
    ensures
        spec_space1(s + t, i) == spec_space1(s, i),
{
    lemma_blank_end_ext(s, t, i);
}

proof fn lemma_digit1_ext(s: Seq<u8>, t: Seq<u8>, i: int)
    requires
        0 <= i <= s.len(),
        spec_digit1(s, i) matches Some(e) && e < s.len(),
    ensures
        spec_digit1(s + t, i) == spec_digit1(s, i),
{
    lemma_digit_end_ext(s, t, i);
}

proof fn lemma_take_until1_ext(s: Seq<u8>, t: Seq<u8>, i: int, b: u8)
    requires
        0 <= i,
        spec_take_until1(s, i, b) is Some,
    ensures
        spec_take_until1(s + t, i, b) == spec_take_until1(s, i, b),
{
    lemma_find_byte_ext(s, t, i, b);
}

proof fn lemma_number_ext(s: Seq<u8>, t: Seq<u8>, i: int)
    requires
        0 <= i <= s.len(),
        number_end(s, i) matches Some(e) && e < s.len(),
    ensures
        number_end(s + t, i) == number_end(s, i),
        number_groups(s + t, i) == number_groups(s, i),
    decreases s.len() - i,
{
    let u = s + t;
    let e_final = number_end(s, i).unwrap();
    lemma_digit_end_bounds(s, i);
    let d = digit_end(s, i);
    let e = if d < s.len() && s[d] == COMMA {
        d + 1
    } else {
        d
    };
    if e < s.len() && is_digit(s[e]) {
        lemma_number_end_advances(s, e);
    }
    assert(d < s.len());
    lemma_digit_end_ext(s, t, i);
    assert(u[d] == s[d]);
    assert(e < s.len());
    assert(u[e] == s[e]);
    assert(u.subrange(i, d) =~= s.subrange(i, d));
    assert(u.subrange(d, e) =~= s.subrange(d, e));
    if e < s.len() && is_digit(s[e]) {
        lemma_number_ext(s, t, e);
    }
}

proof fn lemma_metric_ext(s: Seq<u8>, t: Seq<u8>, i: int)
    requires
        0 <= i <= s.len(),
        spec_metric(s, i) matches Some((f, _)) && f <= s.len(),
    ensures
        spec_metric(s + t, i) == spec_metric(s, i),
{
    reveal(spec_metric);
    let u = s + t;
    lemma_number_end_advances(s, i);
    let n1 = number_end(s, i).unwrap();
    lemma_blank_end_bounds(s, n1);
    let a = blank_end(s, n1);
    lemma_find_byte_bounds(s, a, SLASH);
    let k = find_byte(s, a, SLASH).unwrap();
    let b = k + 5;
    lemma_blank_end_bounds(s, b);
    let c = blank_end(s, b);
    let d = c + 4;
    lemma_blank_end_bounds(s, d);
    let e = blank_end(s, d);
    lemma_number_end_advances(s, e);
    let n2 = number_end(s, e).unwrap();
    lemma_number_ext(s, t, i);
    lemma_space1_ext(s, t, n1);
    lemma_take_until1_ext(s, t, a, SLASH);
    lemma_word_found_ext(s, t, k, super::grammar::word_iter());
    lemma_space1_ext(s, t, b);
    lemma_word_found_ext(s, t, c, super::grammar::word_plus_minus());
    lemma_space1_ext(s, t, d);
    lemma_number_ext(s, t, e);
    lemma_word_found_ext(s, t, n2, super::grammar::word_rparen());
    assert(u.subrange(a, k) =~= s.subrange(a, k));
}

proof fn lemma_outcome_ext(s: Seq<u8>, t: Seq<u8>, i: int)
    requires
        0 <= i <= s.len(),
        spec_outcome(s, i) matches Some((g, _)) && g <= s.len(),
    ensures
        spec_outcome(s + t, i) == spec_outcome(s, i),
{
    reveal(spec_outcome);
    let u = s + t;
    if has_word(s, i, word_ignored()) {
        lemma_word_found_ext(s, t, i, word_ignored());
    } else {
        lemma_word_found_ext(s, t, i, word_bench());
        assert(s.subrange(i, i + 6)[0] == s[i]);
        assert(u[i] == s[i]);
        lemma_word_first_byte(u, i, word_ignored());
        let k = i + 6;
        lemma_blank_end_bounds(s, k);
        let m = blank_end(s, k);
        super::grammar::lemma_metric_bounds(s, m);
        lemma_space1_ext(s, t, k);
        lemma_metric_ext(s, t, m);
    }
}

proof fn lemma_line_ext(s: Seq<u8>, t: Seq<u8>, i: int)
    requires
        0 <= i <= s.len(),
        spec_line(s, i) matches Some((h, _)) && h <= s.len(),
    ensures
        spec_line(s + t, i) == spec_line(s, i),
{
    reveal(spec_line);
    let u = s + t;
    let a = i + 4;
    lemma_blank_end_bounds(s, a);
    let b = blank_end(s, a);
    lemma_find_byte_bounds(s, b, SPACE);
    let c = find_byte(s, b, SPACE).unwrap();
    lemma_blank_end_bounds(s, c);
    let d = blank_end(s, c);
    let e = d + 3;
    lemma_blank_end_bounds(s, e);
    let f = blank_end(s, e);
    let g = spec_outcome(s, f).unwrap().0;
    super::grammar::lemma_outcome_bounds(s, f);
    lemma_word_found_ext(s, t, i, word_test());
    lemma_space1_ext(s, t, a);
    lemma_take_until1_ext(s, t, b, SPACE);
    lemma_space1_ext(s, t, c);
    lemma_word_found_ext(s, t, d, super::grammar::word_dots());
    lemma_space1_ext(s, t, e);
    lemma_outcome_ext(s, t, f);
    lemma_line_ending_ext(s, t, g);
    assert(u.subrange(b, c) =~= s.subrange(b, c));
}

/// No test line starts at a line ending.
proof fn lemma_no_line_at_line_ending(s: Seq<u8>, i: int)
    requires
        0 <= i < s.len(),
        s[i] == LF || s[i] == CR,
    ensures
        spec_line(s, i) is None,
{
    reveal(spec_line);
    lemma_word_first_byte(s, i, word_test());
}

proof fn lemma_header_ext(s: Seq<u8>, t: Seq<u8>, i: int)
    requires
        0 <= i <= s.len(),
        spec_header(s, i) is Some,
    ensures
        spec_header(s + t, i) == spec_header(s, i),
{
    reveal(spec_header);
    let u = s + t;
    lemma_line_ending_ext(s, t, i);
    let a = spec_line_ending(s, i).unwrap();
    lemma_word_found_ext(s, t, a, super::grammar::word_running());
    let b = a + 7;
    lemma_blank_end_bounds(s, b);
    let c = blank_end(s, b);
    lemma_digit_end_bounds(s, c);
    let d = digit_end(s, c);
    lemma_blank_end_bounds(s, d);
    let e = blank_end(s, d);
    let f = spec_test_count_word(s, e).unwrap();
    lemma_line_ending_ext(s, t, f);
    lemma_space1_ext(s, t, b);
    lemma_digit1_ext(s, t, c);
    lemma_space1_ext(s, t, d);
    if has_word(s, e, word_tests()) {
        lemma_word_found_ext(s, t, e, word_tests());
    } else {
        lemma_word_found_ext(s, t, e, word_test());
        assert(f == e + 4);
        assert(u[f] == s[f]);
        if has_word(u, e, word_tests()) {
            assert(u.subrange(e, e + 5)[4] == u[e + 4]);
        }
    }
}

proof fn lemma_lines_rest_ext(s: Seq<u8>, t: Seq<u8>, i: int)
    requires
        0 <= i <= s.len(),
        spec_line_ending(s, spec_lines_rest(s, i).0) is Some,
    ensures
        spec_lines_rest(s + t, i) == spec_lines_rest(s, i),
    decreases s.len() - i,
{
    super::grammar::lemma_line_advances(s, i);
    match spec_line(s, i) {
        Some((e, _)) => {
            lemma_lines_rest_bound(s, e);
            lemma_line_ext(s, t, i);
            super::grammar::lemma_line_advances(s + t, i);
            lemma_lines_rest_ext(s, t, e);
        },
        None => {
            lemma_line_ending_ext(s, t, i);
            let u = s + t;
            assert(u[i] == s[i]);
            lemma_no_line_at_line_ending(u, i);
        },
    }
}

proof fn lemma_lines_rest_bound(s: Seq<u8>, i: int)
    requires
        0 <= i <= s.len(),
    ensures
        i <= spec_lines_rest(s, i).0 <= s.len(),
    decreases s.len() - i,
{
    super::grammar::lemma_line_advances(s, i);
    if let Some((e, _)) = spec_line(s, i) {
        lemma_lines_rest_bound(s, e);
    }
}

/// The parser reads no further than it consumes: where a text reads as a
/// report, the same text followed by anything reads as the same report,
/// consuming the same bytes.
pub proof fn lemma_parse_stdout_prefix(s: Seq<u8>, t: Seq<u8>)
    requires
        spec_parse_stdout(s) is Some,
    ensures
        spec_parse_stdout(s + t) == spec_parse_stdout(s),
{
    let a = spec_header(s, 0).unwrap();
    super::grammar::lemma_header_bounds(s, 0);
    lemma_header_ext(s, t, 0);
    super::grammar::lemma_line_advances(s, a);
    let (b, first) = spec_line(s, a).unwrap();
    lemma_line_ext(s, t, a);
    lemma_lines_rest_bound(s, b);
    lemma_lines_rest_ext(s, t, b);
    let c = spec_lines_rest(s, b).0;
    lemma_line_ending_ext(s, t, c);
}

/// The name of a test line is not empty and holds no space.
pub open spec fn good_name(name: Seq<u8>) -> bool {
    name.len() > 0 && !name.contains(SPACE)
}

proof fn lemma_line_name(s: Seq<u8>, i: int)
    requires
        0 <= i,
    ensures
        spec_line(s, i) matches Some((_, l)) ==> good_name(l.0),
{
    reveal(spec_line);
    if spec_line(s, i) is Some {
        let a = i + 4;
        let b = blank_end(s, a);
        lemma_blank_end_bounds(s, a);
        lemma_find_byte_bounds(s, b, SPACE);
        let c = find_byte(s, b, SPACE).unwrap();
        let name = s.subrange(b, c);
        if name.contains(SPACE) {
            let k = choose|k: int| 0 <= k < name.len() && name[k] == SPACE;
            assert(s[b + k] == SPACE);
        }
    }
}

proof fn lemma_lines_rest_names(s: Seq<u8>, i: int)
    requires
        0 <= i,
    ensures
        forall|k: int|
            0 <= k < spec_lines_rest(s, i).1.len() ==> good_name(
                #[trigger] spec_lines_rest(s, i).1[k].0,
            ),
    decreases s.len() - i,
{
    super::grammar::lemma_line_advances(s, i);
    if let Some((e, l)) = spec_line(s, i) {
        lemma_line_name(s, i);
        lemma_lines_rest_names(s, e);
        let rest = spec_lines_rest(s, e).1;
        assert forall|k: int| 0 <= k < spec_lines_rest(s, i).1.len() implies good_name(
            #[trigger] spec_lines_rest(s, i).1[k].0,
        ) by {
            if k > 0 {
                assert(spec_lines_rest(s, i).1[k] == rest[k - 1]);
            }
        }
    }
}

/// A report reads at least one test, consumes at least one byte and no
/// more than there is, and every test name it reads is non-empty and holds
/// no space.
pub proof fn lemma_parse_stdout_shape(s: Seq<u8>)
    ensures
        spec_parse_stdout(s) matches Some((n, r)) ==> {
            &&& 0 < n <= s.len()
            &&& r.len() >= 1
            &&& forall|k: int| 0 <= k < r.len() ==> good_name(#[trigger] r[k].0)
        },
{
    if let Some((n, r)) = spec_parse_stdout(s) {
        super::grammar::lemma_header_bounds(s, 0);
        let a = spec_header(s, 0).unwrap();
        super::grammar::lemma_line_advances(s, a);
        lemma_line_name(s, a);
        let (b, first) = spec_line(s, a).unwrap();
        lemma_lines_rest_bound(s, b);
        lemma_lines_rest_names(s, b);
        let (c, rest) = spec_lines_rest(s, b);
        lemma_line_ending_ext(s, Seq::empty(), c);
        assert forall|k: int| 0 <= k < r.len() implies good_name(#[trigger] r[k].0) by {
            if k > 0 {
                assert(r[k] == rest[k - 1]);
            }
        }
    }
}

/// A natural number written in decimal, as ASCII bytes.
pub open spec fn decimal_bytes(n: nat) -> Seq<u8>
    decreases n,
{
    if n < 10 {
        seq![(n + 48) as u8]
    } else {
        decimal_bytes(n / 10).push((n % 10 + 48) as u8)
    }
}

/// Digit groups written one after the other, a comma between each two.
pub open spec fn join_commas(gs: Seq<Seq<u8>>) -> Seq<u8>
    decreases gs.len(),
{
    if gs.len() == 0 {
        seq![]
    } else if gs.len() == 1 {
        gs[0]
    } else {
        gs[0] + seq![COMMA] + join_commas(gs.drop_first())
    }
}

/// The digits of all groups, one after the other.
pub open spec fn concat_groups(gs: Seq<Seq<u8>>) -> Seq<u8>
    decreases gs.len(),
{
    if gs.len() == 0 {
        seq![]
    } else {
        gs[0] + concat_groups(gs.drop_first())
    }
}

/// A non-empty run of decimal digits.
pub open spec fn is_digit_group(g: Seq<u8>) -> bool {
    g.len() > 0 && all_digits(g)
}

proof fn lemma_decimal_bytes(n: nat)
    ensures
        decimal_bytes(n).len() > 0,
        all_digits(decimal_bytes(n)),
        digits_value(decimal_bytes(n)) == n,
    decreases n,
{
    if n < 10 {
        let b = (n + 48) as u8;
        super::rust::lemma_digits_value_push(Seq::<u8>::empty(), b);
        assert(Seq::<u8>::empty().push(b) =~= seq![b]);
    } else {
        lemma_decimal_bytes(n / 10);
        let p = decimal_bytes(n / 10);
        let b = (n % 10 + 48) as u8;
        super::rust::lemma_digits_value_push(p, b);
        assert(n == (n / 10) * 10 + n % 10) by (nonlinear_arith);
        assert forall|k: int| 0 <= k < p.push(b).len() implies is_digit(#[trigger] p.push(b)[k]) by {
            if k < p.len() {
                assert(is_digit(p[k]));
            }
        }
    }
}

proof fn lemma_digit_end_run(s: Seq<u8>, i: int, m: int)
    requires
        0 <= i,
        0 <= m,
        i + m <= s.len(),
        forall|k: int| i <= k < i + m ==> is_digit(#[trigger] s[k]),
        i + m == s.len() || !is_digit(s[i + m]),
    ensures
        digit_end(s, i) == i + m,
    decreases m,
{
    if m > 0 {
        lemma_digit_end_run(s, i + 1, m - 1);
    }
}

proof fn lemma_flat_digits_cons(g: (Seq<u8>, Seq<u8>), rest: Seq<(Seq<u8>, Seq<u8>)>)
    ensures
        flat_digits(seq![g] + rest) == g.0 + flat_digits(rest),
    decreases rest.len(),
{
    let x = seq![g] + rest;
    assert(x.len() > 0);
    assert(flat_digits(x) == flat_digits(x.drop_last()) + x.last().0);
    if rest.len() == 0 {
        assert(x.drop_last() =~= Seq::<(Seq<u8>, Seq<u8>)>::empty());
        assert(flat_digits(x.drop_last()) == Seq::<u8>::empty());
        assert(x.last() == g);
        assert(flat_digits(rest) == Seq::<u8>::empty());
        assert(g.0 + flat_digits(rest) =~= g.0);
        assert(flat_digits(x) =~= g.0);
    } else {
        lemma_flat_digits_cons(g, rest.drop_last());
        assert(x.drop_last() =~= seq![g] + rest.drop_last());
        assert(x.last() == rest.last());
        assert(flat_digits(rest) == flat_digits(rest.drop_last()) + rest.last().0);
        assert(g.0 + flat_digits(rest) =~= g.0 + flat_digits(rest.drop_last()) + rest.last().0);
    }
}

proof fn lemma_join_commas_len(gs: Seq<Seq<u8>>)
    requires
        gs.len() > 1,
    ensures
        join_commas(gs).len() == gs[0].len() + 1 + join_commas(gs.drop_first()).len(),
{
}

proof fn lemma_number_of_groups(s: Seq<u8>, i: int, gs: Seq<Seq<u8>>)
    requires
        gs.len() > 0,
        forall|k: int| 0 <= k < gs.len() ==> is_digit_group(#[trigger] gs[k]),
        0 <= i,
        i + join_commas(gs).len() <= s.len(),
        s.subrange(i, i + join_commas(gs).len()) == join_commas(gs),
        i + join_commas(gs).len() == s.len() || (!is_digit(s[i + join_commas(gs).len()]) && s[i
            + join_commas(gs).len()] != COMMA),
    ensures
        number_end(s, i) == Some(i + join_commas(gs).len()),
        flat_digits(number_groups(s, i)) == concat_groups(gs),
    decreases gs.len(),
{
    let g0 = gs[0];
    let m = g0.len() as int;
    let big_l = join_commas(gs).len() as int;
    let j = join_commas(gs);
    assert(is_digit_group(g0));
    if gs.len() == 1 {
        assert(j == g0);
    } else {
        lemma_join_commas_len(gs);
        assert(j =~= g0 + seq![COMMA] + join_commas(gs.drop_first()));
    }
    assert forall|k: int| i <= k < i + m implies is_digit(#[trigger] s[k]) by {
        assert(s.subrange(i, i + big_l)[k - i] == j[k - i]);
        assert(j[k - i] == g0[k - i]);
    }
    if gs.len() > 1 {
        assert(s.subrange(i, i + big_l)[m] == j[m]);
        assert(s[i + m] == COMMA);
    }
    lemma_digit_end_run(s, i, m);
    let d = i + m;
    if gs.len() == 1 {
        assert(number_groups(s, i) == seq![(s.subrange(i, d), no_comma_separator())]);
        assert(s.subrange(i, d) =~= g0);
        lemma_flat_digits_cons((s.subrange(i, d), no_comma_separator()), seq![]);
        assert(seq![(s.subrange(i, d), no_comma_separator())] + Seq::<(Seq<u8>, Seq<u8>)>::empty()
            =~= seq![(s.subrange(i, d), no_comma_separator())]);
        assert(gs.drop_first() =~= Seq::<Seq<u8>>::empty());
        assert(concat_groups(gs.drop_first()) == Seq::<u8>::empty());
        assert(concat_groups(gs) == g0 + concat_groups(gs.drop_first()));
        assert(concat_groups(gs) =~= g0);
    } else {
        let rest = gs.drop_first();
        let e = d + 1;
        let lr = join_commas(rest).len() as int;
        assert(big_l == m + 1 + lr);
        assert(s.subrange(e, e + lr) =~= join_commas(rest)) by {
            assert forall|k: int| 0 <= k < lr implies s.subrange(e, e + lr)[k] == join_commas(
                rest,
            )[k] by {
                assert(s.subrange(i, i + big_l)[m + 1 + k] == j[m + 1 + k]);
            }
        }
        assert forall|k: int| 0 <= k < rest.len() implies is_digit_group(#[trigger] rest[k]) by {
            assert(rest[k] == gs[k + 1]);
        }
        assert(is_digit_group(rest[0]));
        if rest.len() == 1 {
            assert(join_commas(rest) == rest[0]);
        } else {
            assert(join_commas(rest) =~= rest[0] + seq![COMMA] + join_commas(rest.drop_first()));
        }
        assert(s.subrange(e, e + lr)[0] == join_commas(rest)[0]);
        assert(is_digit(s[e]));
        lemma_number_of_groups(s, e, rest);
        let g = (s.subrange(i, d), seq![COMMA]);
        assert(number_groups(s, i) == seq![g] + number_groups(s, e));
        lemma_flat_digits_cons(g, number_groups(s, e));
        assert(s.subrange(i, d) =~= g0);
    }
}

/// Writing a number in decimal, with commas between groups of its digits
/// or without, and reading it back gives the number: the number reader ends
/// right after its last digit, and its groups read as the number (as
/// `parse_number` and `try_to_u64` then give it).
pub proof fn lemma_decimal_number_reads_back(n: u64, gs: Seq<Seq<u8>>, t: Seq<u8>)
    requires
        gs.len() > 0,
        forall|k: int| 0 <= k < gs.len() ==> is_digit_group(#[trigger] gs[k]),
        concat_groups(gs) == decimal_bytes(n as nat),
        t.len() == 0 || (!is_digit(t[0]) && t[0] != COMMA),
    ensures
        number_end(join_commas(gs) + t, 0) == Some(join_commas(gs).len() as int),
        u64_of(flat_digits(number_groups(join_commas(gs) + t, 0))) == Some(n),
{
    let j = join_commas(gs);
    let s = j + t;
    assert(s.subrange(0, j.len() as int) =~= j);
    if t.len() > 0 {
        assert(s[j.len() as int] == t[0]);
    }
    lemma_number_of_groups(s, 0, gs);
    lemma_decimal_bytes(n as nat);
    let d = decimal_bytes(n as nat);
    assert(is_digit(d[0]));
    assert(unsigned_part(d) == d);
}

/// `test`, spelled out for writing reports.
pub open spec fn text_test() -> Seq<u8> {
    seq![116u8, 101u8, 115u8, 116u8]
}

/// `...`
pub open spec fn text_dots() -> Seq<u8> {
    seq![46u8, 46u8, 46u8]
}

/// `ignored`
pub open spec fn text_ignored() -> Seq<u8> {
    seq![105u8, 103u8, 110u8, 111u8, 114u8, 101u8, 100u8]
}

/// `bench:`
pub open spec fn text_bench() -> Seq<u8> {
    seq![98u8, 101u8, 110u8, 99u8, 104u8, 58u8]
}

/// `/iter`
pub open spec fn text_iter() -> Seq<u8> {
    seq![47u8, 105u8, 116u8, 101u8, 114u8]
}

/// `(+/-`
pub open spec fn text_plus_minus() -> Seq<u8> {
    seq![40u8, 43u8, 47u8, 45u8]
}

/// A measurement as the harness prints it: `D UNIT/iter (+/- V)`.
pub open spec fn metric_text(d: u64, v: u64, u: Units) -> Seq<u8> {
    decimal_bytes(d as nat) + seq![SPACE] + unit_text(u) + text_iter() + seq![SPACE]
        + text_plus_minus() + seq![SPACE] + decimal_bytes(v as nat) + seq![41u8]
}

/// `running`
pub open spec fn text_running() -> Seq<u8> {
    seq![114u8, 117u8, 110u8, 110u8, 105u8, 110u8, 103u8]
}

/// `tests`
pub open spec fn text_tests() -> Seq<u8> {
    seq![116u8, 101u8, 115u8, 116u8, 115u8]
}

/// The abbreviation that the harness prints for a unit.
pub open spec fn unit_text(u: Units) -> Seq<u8> {
    match u {
        Units::Nano => seq![110u8, 115u8],
        Units::Micro => seq![0xCEu8, 0xBCu8, 115u8],
        Units::Milli => seq![109u8, 115u8],
        Units::Sec => seq![115u8],
    }
}

/// A test as the harness reports it: its name, and either nothing (it was
/// ignored) or the time per iteration, its spread and their unit.
pub type BenchLine = (Seq<u8>, Option<(u64, u64, Units)>);

/// What comes after `... ` on a test line.
pub open spec fn outcome_text(o: Option<(u64, u64, Units)>) -> Seq<u8> {
    match o {
        None => text_ignored(),
        Some((d, v, u)) => text_bench() + seq![SPACE] + metric_text(d, v, u),
    }
}

/// A test line as the harness prints it.
pub open spec fn line_text(l: BenchLine) -> Seq<u8> {
    text_test() + seq![SPACE] + l.0 + seq![SPACE] + text_dots() + seq![SPACE] + outcome_text(l.1)
        + seq![LF]
}

/// What a test line reports: its name and its outcome.
pub open spec fn line_report(l: BenchLine) -> (Seq<u8>, Test) {
    match l.1 {
        None => (l.0, Test::Ignored),
        Some((d, v, u)) => (
            l.0,
            Test::Metric(
                Latency { duration: spec_to_duration(d, u), variance: spec_to_duration(v, u) },
            ),
        ),
    }
}

/// The test lines, one after the other.
pub open spec fn lines_text(ls: Seq<BenchLine>) -> Seq<u8>
    decreases ls.len(),
{
    if ls.len() == 0 {
        seq![]
    } else {
        line_text(ls[0]) + lines_text(ls.drop_first())
    }
}

/// A whole report as the harness prints it: a blank line, `running N
/// tests` (or `test`), the test lines and a blank line.
pub open spec fn report_text(count: u64, plural: bool, ls: Seq<BenchLine>) -> Seq<u8> {
    header_text(count, plural) + lines_text(ls) + seq![LF]
}

/// A name that the harness can print: not empty, no space in it, and not
/// starting with a tab.
pub open spec fn printable_name(name: Seq<u8>) -> bool {
    name.len() > 0 && !name.contains(SPACE) && name[0] != TAB
}

proof fn lemma_at_split(s: Seq<u8>, i: int, a: Seq<u8>, b: Seq<u8>)
    requires
        has_word(s, i, a + b),
    ensures
        has_word(s, i, a),
        has_word(s, i + a.len(), b),
{
    let x = s.subrange(i, i + (a + b).len());
    assert(x == a + b);
    assert forall|k: int| 0 <= k < a.len() implies s.subrange(i, i + a.len())[k] == a[k] by {
        assert(x[k] == (a + b)[k]);
    }
    assert(s.subrange(i, i + a.len()) =~= a);
    assert forall|k: int| 0 <= k < b.len() implies s.subrange(i + a.len(), i + a.len() + b.len())[k]
        == b[k] by {
        assert(x[a.len() + k] == (a + b)[a.len() + k]);
    }
    assert(s.subrange(i + a.len(), i + a.len() + b.len()) =~= b);
}

proof fn lemma_at_byte(s: Seq<u8>, i: int, a: Seq<u8>, k: int)
    requires
        has_word(s, i, a),
        0 <= k < a.len(),
    ensures
        s[i + k] == a[k],
{
    assert(s.subrange(i, i + a.len())[k] == s[i + k]);
}

proof fn lemma_one_blank(s: Seq<u8>, i: int)
    requires
        0 <= i,
        i + 1 < s.len(),
        s[i] == SPACE,
        !is_blank(s[i + 1]),
    ensures
        spec_space1(s, i) == Some(i + 1),
{
    assert(blank_end(s, i + 1) == i + 1);
}

proof fn lemma_find_byte_run(s: Seq<u8>, i: int, m: int, b: u8)
    requires
        0 <= i,
        0 <= m,
        i + m < s.len(),
        forall|k: int| i <= k < i + m ==> #[trigger] s[k] != b,
        s[i + m] == b,
    ensures
        find_byte(s, i, b) == Some(i + m),
    decreases m,
{
    if m > 0 {
        lemma_find_byte_run(s, i + 1, m - 1, b);
    }
}

proof fn lemma_decimal_number_at(s: Seq<u8>, i: int, n: u64)
    requires
        0 <= i,
        has_word(s, i, decimal_bytes(n as nat)),
        i + decimal_bytes(n as nat).len() < s.len(),
        s[i + decimal_bytes(n as nat).len()] == SPACE || s[i + decimal_bytes(n as nat).len()]
            == 41u8,
    ensures
        number_end(s, i) == Some(i + decimal_bytes(n as nat).len()),
        u64_of(flat_digits(number_groups(s, i))) == Some(n),
        is_digit(s[i]),
{
    let d = decimal_bytes(n as nat);
    lemma_decimal_bytes(n as nat);
    let gs = seq![d];
    assert(join_commas(gs) == d);
    assert(gs.drop_first() =~= Seq::<Seq<u8>>::empty());
    assert(concat_groups(gs.drop_first()) == Seq::<u8>::empty());
    assert(concat_groups(gs) == d + concat_groups(gs.drop_first()));
    assert(concat_groups(gs) =~= d);
    assert(is_digit_group(gs[0]));
    lemma_number_of_groups(s, i, gs);
    assert(is_digit(d[0]));
    assert(unsigned_part(d) == d);
    lemma_at_byte(s, i, d, 0);
}

proof fn lemma_unit_text(u: Units)
    ensures
        units_of(unit_text(u)) == Some(u),
        unit_text(u).len() > 0,
        !is_blank(unit_text(u)[0]),
        !unit_text(u).contains(SLASH),
{
    let t = unit_text(u);
    assert(t =~= name_ns() || t =~= name_us() || t =~= name_ms() || t =~= name_s());
    if t.contains(SLASH) {
        let k = choose|k: int| 0 <= k < t.len() && t[k] == SLASH;
    }
}

proof fn lemma_metric_text(s: Seq<u8>, m: int, d: u64, v: u64, u: Units)
    requires
        0 <= m,
        has_word(s, m, metric_text(d, v, u)),
    ensures
        spec_metric(s, m) == Some(
            (
                m + metric_text(d, v, u).len(),
                Latency { duration: spec_to_duration(d, u), variance: spec_to_duration(v, u) },
            ),
        ),
{
    reveal(spec_metric);
    let dd = decimal_bytes(d as nat);
    let vv = decimal_bytes(v as nat);
    let ut = unit_text(u);
    let sp = seq![SPACE];
    let x1 = dd + sp;
    let x2 = x1 + ut;
    let x3 = x2 + text_iter();
    let x4 = x3 + sp;
    let x5 = x4 + text_plus_minus();
    let x6 = x5 + sp;
    let x7 = x6 + vv;
    let x8 = x7 + seq![41u8];
    assert(x8 == metric_text(d, v, u));
    lemma_at_split(s, m, x7, seq![41u8]);
    lemma_at_split(s, m, x6, vv);
    lemma_at_split(s, m, x5, sp);
    lemma_at_split(s, m, x4, text_plus_minus());
    lemma_at_split(s, m, x3, sp);
    lemma_at_split(s, m, x2, text_iter());
    lemma_at_split(s, m, x1, ut);
    lemma_at_split(s, m, dd, sp);
    lemma_decimal_bytes(d as nat);
    lemma_decimal_bytes(v as nat);
    lemma_unit_text(u);
    let n1 = m + dd.len();
    let a2 = n1 + 1;
    let uu = a2 + ut.len();
    let b2 = uu + 5;
    let c2 = b2 + 1;
    let d2 = c2 + 4;
    let e2 = d2 + 1;
    let n2 = e2 + vv.len();
    lemma_at_byte(s, n1, sp, 0);
    lemma_at_byte(s, a2, ut, 0);
    lemma_at_byte(s, uu, text_iter(), 0);
    lemma_at_byte(s, b2, sp, 0);
    lemma_at_byte(s, c2, text_plus_minus(), 0);
    lemma_at_byte(s, d2, sp, 0);
    lemma_at_byte(s, e2, vv, 0);
    lemma_at_byte(s, n2, seq![41u8], 0);
    lemma_decimal_number_at(s, m, d);
    lemma_decimal_number_at(s, e2, v);
    lemma_one_blank(s, n1);
    assert forall|k: int| a2 <= k < a2 + ut.len() implies #[trigger] s[k] != SLASH by {
        lemma_at_byte(s, a2, ut, k - a2);
        if s[k] == SLASH {
            assert(ut[k - a2] == SLASH);
            assert(ut.contains(SLASH));
        }
    }
    lemma_find_byte_run(s, a2, ut.len() as int, SLASH);
    assert(text_iter() =~= super::grammar::word_iter());
    assert(text_plus_minus() =~= super::grammar::word_plus_minus());
    lemma_one_blank(s, b2);
    lemma_one_blank(s, d2);
    assert(seq![41u8] =~= super::grammar::word_rparen());
    assert(s.subrange(a2, uu) == ut);
}

proof fn lemma_line_text(s: Seq<u8>, i: int, l: BenchLine)
    requires
        0 <= i,
        has_word(s, i, line_text(l)),
        printable_name(l.0),
    ensures
        spec_line(s, i) == Some((i + line_text(l).len(), line_report(l))),
{
    reveal(spec_line);
    reveal(spec_outcome);
    let sp = seq![SPACE];
    let o = outcome_text(l.1);
    let x1 = text_test() + sp;
    let x2 = x1 + l.0;
    let x3 = x2 + sp;
    let x4 = x3 + text_dots();
    let x5 = x4 + sp;
    let x6 = x5 + o;
    let x7 = x6 + seq![LF];
    assert(x7 == line_text(l));
    lemma_at_split(s, i, x6, seq![LF]);
    lemma_at_split(s, i, x5, o);
    lemma_at_split(s, i, x4, sp);
    lemma_at_split(s, i, x3, text_dots());
    lemma_at_split(s, i, x2, sp);
    lemma_at_split(s, i, x1, l.0);
    lemma_at_split(s, i, text_test(), sp);
    let a = i + 4;
    let b = a + 1;
    let c = b + l.0.len();
    let d = c + 1;
    let e = d + 3;
    let f = e + 1;
    let g = f + o.len();
    lemma_at_byte(s, a, sp, 0);
    lemma_at_byte(s, b, l.0, 0);
    lemma_at_byte(s, c, sp, 0);
    lemma_at_byte(s, d, text_dots(), 0);
    lemma_at_byte(s, e, sp, 0);
    lemma_at_byte(s, g, seq![LF], 0);
    assert(!l.0.contains(SPACE));
    assert(l.0[0] != SPACE);
    lemma_one_blank(s, a);
    assert forall|k: int| b <= k < c implies #[trigger] s[k] != SPACE by {
        lemma_at_byte(s, b, l.0, k - b);
        if s[k] == SPACE {
            assert(l.0[k - b] == SPACE);
        }
    }
    lemma_find_byte_run(s, b, l.0.len() as int, SPACE);
    lemma_one_blank(s, c);
    assert(text_test() =~= word_test());
    assert(text_dots() =~= super::grammar::word_dots());
    assert(s.subrange(b, c) == l.0);
    match l.1 {
        None => {
            assert(o == text_ignored());
            lemma_at_byte(s, f, o, 0);
            lemma_one_blank(s, e);
            assert(text_ignored() =~= word_ignored());
        },
        Some((dv, vv, u)) => {
            let mt = metric_text(dv, vv, u);
            let y1 = text_bench() + sp;
            assert(o == y1 + mt);
            lemma_at_split(s, f, y1, mt);
            lemma_at_split(s, f, text_bench(), sp);
            lemma_at_byte(s, f, o, 0);
            lemma_one_blank(s, e);
            lemma_word_first_byte(s, f, word_ignored());
            assert(text_bench() =~= word_bench());
            let k = f + 6;
            lemma_at_byte(s, k, sp, 0);
            lemma_decimal_bytes(dv as nat);
            lemma_at_byte(s, k + 1, mt, 0);
            assert(mt[0] == decimal_bytes(dv as nat)[0]);
            lemma_one_blank(s, k);
            lemma_metric_text(s, k + 1, dv, vv, u);
        },
    }
}

/// What each test line of a report reports, in order.
pub open spec fn lines_report(ls: Seq<BenchLine>) -> Seq<(Seq<u8>, Test)> {
    ls.map_values(|l: BenchLine| line_report(l))
}

proof fn lemma_lines_text(s: Seq<u8>, i: int, ls: Seq<BenchLine>)
    requires
        0 <= i,
        has_word(s, i, lines_text(ls) + seq![LF]),
        forall|k: int| 0 <= k < ls.len() ==> printable_name(#[trigger] ls[k].0),
    ensures
        spec_lines_rest(s, i) == (i + lines_text(ls).len(), lines_report(ls)),
    decreases ls.len(),
{
    super::grammar::lemma_line_advances(s, i);
    if ls.len() == 0 {
        assert(lines_text(ls) + seq![LF] =~= seq![LF]);
        lemma_at_byte(s, i, seq![LF], 0);
        lemma_no_line_at_line_ending(s, i);
        assert(lines_report(ls) =~= Seq::<(Seq<u8>, Test)>::empty());
    } else {
        let l0 = line_text(ls[0]);
        let rest = ls.drop_first();
        let r = lines_text(rest);
        assert(lines_text(ls) + seq![LF] =~= l0 + (r + seq![LF]));
        lemma_at_split(s, i, l0, r + seq![LF]);
        assert(printable_name(ls[0].0));
        lemma_line_text(s, i, ls[0]);
        assert forall|k: int| 0 <= k < rest.len() implies printable_name(#[trigger] rest[k].0) by {
            assert(rest[k] == ls[k + 1]);
        }
        lemma_lines_text(s, i + l0.len(), rest);
        assert(lines_report(ls) =~= seq![line_report(ls[0])] + lines_report(rest));
    }
}

/// `tests`, or `test` for a single test.
pub open spec fn count_word(plural: bool) -> Seq<u8> {
    if plural {
        text_tests()
    } else {
        text_test()
    }
}

/// The header of a report as the harness prints it.
pub open spec fn header_text(count: u64, plural: bool) -> Seq<u8> {
    seq![LF] + text_running() + seq![SPACE] + decimal_bytes(count as nat) + seq![SPACE]
        + count_word(plural) + seq![LF]
}

proof fn lemma_header_text(s: Seq<u8>, count: u64, plural: bool)
    requires
        has_word(s, 0, header_text(count, plural)),
    ensures
        spec_header(s, 0) == Some(header_text(count, plural).len() as int),
{
    reveal(spec_header);
    let sp = seq![SPACE];
    let dd = decimal_bytes(count as nat);
    let w = count_word(plural);
    let x1 = seq![LF] + text_running();
    let x2 = x1 + sp;
    let x3 = x2 + dd;
    let x4 = x3 + sp;
    let x5 = x4 + w;
    let x6 = x5 + seq![LF];
    assert(x6 == header_text(count, plural));
    lemma_at_split(s, 0, x5, seq![LF]);
    lemma_at_split(s, 0, x4, w);
    lemma_at_split(s, 0, x3, sp);
    lemma_at_split(s, 0, x2, dd);
    lemma_at_split(s, 0, x1, sp);
    lemma_at_split(s, 0, seq![LF], text_running());
    lemma_decimal_bytes(count as nat);
    let c = 9int;
    let d = c + dd.len();
    lemma_at_byte(s, 8, sp, 0);
    lemma_at_byte(s, c, dd, 0);
    lemma_at_byte(s, d, sp, 0);
    lemma_at_byte(s, d + 1, w, 0);
    lemma_one_blank(s, 8);
    assert forall|k: int| c <= k < d implies is_digit(#[trigger] s[k]) by {
        lemma_at_byte(s, c, dd, k - c);
    }
    lemma_digit_end_run(s, c, dd.len() as int);
    lemma_one_blank(s, d);
    assert(text_running() =~= super::grammar::word_running());
    assert(text_tests() =~= word_tests());
    assert(text_test() =~= word_test());
    if !plural {
        let f = d + 5;
        lemma_at_byte(s, f, seq![LF], 0);
        if has_word(s, d + 1, word_tests()) {
            lemma_at_byte(s, d + 1, word_tests(), 4);
        }
    }
}

/// A report as the harness prints it reads back as the tests it lists: for
/// any test count in the header, written with `tests` or `test`, and any one
/// or more tests, benchmarked (in
/// any of the four units) or ignored, in any order, each with a name that
/// has no space and does not start with a tab, the parser reads every test
/// line, in order, up to and including the closing blank line, whatever
/// text follows it.
pub proof fn lemma_report_reads_back(count: u64, plural: bool, ls: Seq<BenchLine>, t: Seq<u8>)
    requires
        ls.len() >= 1,
        forall|k: int| 0 <= k < ls.len() ==> printable_name(#[trigger] ls[k].0),
    ensures
        spec_parse_stdout(report_text(count, plural, ls) + t) == Some(
            (report_text(count, plural, ls).len() as int, lines_report(ls)),
        ),
{
    let s = report_text(count, plural, ls);
    let h = header_text(count, plural);
    let l0 = line_text(ls[0]);
    let rest = ls.drop_first();
    let r = lines_text(rest);
    assert(s =~= h + (l0 + (r + seq![LF])));
    assert(has_word(s, 0, s)) by {
        assert(s.subrange(0, s.len() as int) =~= s);
    }
    lemma_at_split(s, 0, h, l0 + (r + seq![LF]));
    lemma_header_text(s, count, plural);
    lemma_at_split(s, h.len() as int, l0, r + seq![LF]);
    assert(printable_name(ls[0].0));
    lemma_line_text(s, h.len() as int, ls[0]);
    assert forall|k: int| 0 <= k < rest.len() implies printable_name(#[trigger] rest[k].0) by {
        assert(rest[k] == ls[k + 1]);
    }
    let b: int = (h.len() + l0.len()) as int;
    lemma_lines_text(s, b, rest);
    let c: int = b + r.len();
    lemma_at_split(s, b, r, seq![LF]);
    lemma_at_byte(s, c, seq![LF], 0);
    assert(has_word(s, c, seq![LF]));
    assert(lines_report(ls) =~= seq![line_report(ls[0])] + lines_report(rest));
    assert(spec_parse_stdout(s) == Some((s.len() as int, lines_report(ls))));
    lemma_parse_stdout_prefix(s, t);
}

} // verus!
