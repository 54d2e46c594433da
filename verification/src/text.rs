//! Text helpers: decimal numbers and UUIDs written out as characters.
use vstd::prelude::*;

verus! {

/// Appends one character (`String::push`).
#[verifier::external_body]
pub(crate) fn push_char(s: &mut String, c: char)
    ensures
        final(s)@ == old(s)@.push(c),
{
    s.push(c)
}

/// The character of a decimal digit.
pub open spec fn digit_char(d: nat) -> char {
    ((d % 10) + 48) as char
}

/// A natural number written in decimal, without leading zeros.
pub open spec fn nat_decimal(n: nat) -> Seq<char>
    decreases n,
{
    if n < 10 {
        seq![digit_char(n)]
    } else {
        nat_decimal(n / 10).push(digit_char(n % 10))
    }
}

/// An integer written in decimal, with a leading `-` when negative.
pub open spec fn int_decimal(i: int) -> Seq<char> {
    if i < 0 {
        seq!['-'] + nat_decimal((-i) as nat)
    } else {
        nat_decimal(i as nat)
    }
}

fn push_nat_decimal(s: &mut String, n: u64)
    ensures
        final(s)@ == old(s)@ + nat_decimal(n as nat),
    decreases n,
{
    if n >= 10 {
        push_nat_decimal(s, n / 10);
    }
    let d = (n % 10) as u32;
    let c = char_of_digit(d);
    push_char(s, c);
    proof {
        if n < 10 {
            assert(old(s)@ + nat_decimal(n as nat) =~= old(s)@.push(digit_char(n as nat)));
        } else {
            assert(old(s)@ + nat_decimal(n as nat) =~= (old(s)@ + nat_decimal((n / 10) as nat)).push(
                digit_char((n % 10) as nat),
            ));
        }
    }
}

fn char_of_digit(d: u32) -> (c: char)
    requires
        d < 10,
    ensures
        c == digit_char(d as nat),
{
    if d == 0 {
        '0'
    } else if d == 1 {
        '1'
    } else if d == 2 {
        '2'
    } else if d == 3 {
        '3'
    } else if d == 4 {
        '4'
    } else if d == 5 {
        '5'
    } else if d == 6 {
        '6'
    } else if d == 7 {
        '7'
    } else if d == 8 {
        '8'
    } else {
        '9'
    }
}

/// An `i32` written in decimal, as `to_string` writes it.
pub fn i32_to_string(i: i32) -> (res: String)
    ensures
        res@ == int_decimal(i as int),
{
    let mut s = String::new();
    let wide = i as i64;
    if wide < 0 {
        push_char(&mut s, '-');
        push_nat_decimal(&mut s, (-wide) as u64);
    } else {
        push_nat_decimal(&mut s, wide as u64);
    }
    s
}

/// The value of a string of decimal digit characters.
pub open spec fn chars_value(t: Seq<char>) -> nat
    decreases t.len(),
{
    if t.len() == 0 {
        0
    } else {
        chars_value(t.drop_last()) * 10 + ((t.last() as int - 48) as nat)
    }
}

/// Writing a natural number in decimal gives digit characters, without a
/// leading zero (except for zero itself), that read back as the number.
pub proof fn lemma_nat_decimal_reads_back(n: nat)
    ensures
        nat_decimal(n).len() > 0,
        forall|k: int| 0 <= k < nat_decimal(n).len() ==> '0' <= #[trigger] nat_decimal(n)[k] <= '9',
        n > 0 ==> nat_decimal(n)[0] != '0',
        chars_value(nat_decimal(n)) == n,
    decreases n,
{
    if n >= 10 {
        lemma_nat_decimal_reads_back(n / 10);
        let p = nat_decimal(n / 10);
        let c = digit_char(n % 10);
        assert(p.push(c).drop_last() =~= p);
        assert(n == (n / 10) * 10 + n % 10) by (nonlinear_arith);
        assert((n % 10) % 10 == n % 10) by (nonlinear_arith);
        assert forall|k: int| 0 <= k < p.push(c).len() implies '0' <= #[trigger] p.push(c)[k] <= '9' by {
            if k < p.len() {
                assert(p.push(c)[k] == p[k]);
            }
        }
        assert(p.push(c)[0] == p[0]);
        assert(c as int == n % 10 + 48);
        assert(chars_value(p.push(c)) == chars_value(p) * 10 + ((c as int - 48) as nat));
        assert(nat_decimal(n) == p.push(c));
    } else {
        assert(digit_char(n) as int == n + 48);
        assert(nat_decimal(n) == seq![digit_char(n)]);
        assert(chars_value(Seq::<char>::empty()) == 0);
        assert(chars_value(seq![digit_char(n)]) == chars_value(seq![digit_char(n)].drop_last()) * 10
            + ((digit_char(n) as int - 48) as nat));
        assert(seq![digit_char(n)].drop_last() =~= Seq::<char>::empty());
    }
}

/// An integer is written as its magnitude in decimal, after a `-` exactly
/// when it is negative.
pub proof fn lemma_int_decimal_sign(i: int)
    ensures
        i < 0 ==> int_decimal(i)[0] == '-' && int_decimal(i).drop_first() == nat_decimal((-i) as nat),
        i >= 0 ==> int_decimal(i) == nat_decimal(i as nat) && int_decimal(i)[0] != '-',
{
    lemma_nat_decimal_reads_back(if i < 0 { (-i) as nat } else { i as nat });
    if i < 0 {
        assert((seq!['-'] + nat_decimal((-i) as nat)).drop_first() =~= nat_decimal((-i) as nat));
    }
}

/// The lowercase hexadecimal character of a nibble.
pub open spec fn hex_char(d: nat) -> char {
    if d < 10 {
        (d + 48) as char
    } else {
        (d - 10 + 97) as char
    }
}

/// The `k`-th hexadecimal digit of a 128-bit value, counting from the most
/// significant one.
pub open spec fn nibble(u: u128, k: int) -> nat {
    ((u as nat) / pow16((31 - k) as nat)) % 16
}

pub open spec fn pow16(e: nat) -> nat
    decreases e,
{
    if e == 0 {
        1
    } else {
        16 * pow16((e - 1) as nat)
    }
}

/// The position among the 32 hexadecimal digits of the character at
/// position `p` of the hyphenated form.
pub open spec fn hyphenated_nibble_index(p: int) -> int {
    if p < 8 {
        p
    } else if p < 13 {
        p - 1
    } else if p < 18 {
        p - 2
    } else if p < 23 {
        p - 3
    } else {
        p - 4
    }
}

/// The hyphenated lowercase form of a UUID, `xxxxxxxx-xxxx-xxxx-xxxx-xxxxxxxxxxxx`,
/// with the most significant digit first.
pub open spec fn uuid_text(u: u128) -> Seq<char> {
    Seq::new(
        36,
        |p: int|
            if p == 8 || p == 13 || p == 18 || p == 23 {
                '-'
            } else {
                hex_char(nibble(u, hyphenated_nibble_index(p)))
            },
    )
}

/// The version field of a UUID (the high nibble of its seventh byte).
pub open spec fn uuid_version(u: u128) -> u128 {
    (u >> 76u128) & 0xfu128
}

/// `Uuid::from_u128(u).to_string()`: the `Display` form of the `uuid`
/// crate, which its documentation gives as the hyphenated lowercase form.
/// The crate's parser reads every form that the crate writes back into the
/// same UUID, as its documentation of `parse_str` says.
#[verifier::external_body]
pub(crate) fn uuid_to_string(u: u128) -> (res: String)
    ensures
        res@ == uuid_text(u),
        uuid_parsed(res@) == Some(u),
{
    uuid::Uuid::from_u128(u).to_string()
}

/// `Uuid::new_v4()`: a random UUID. Of the result only its version field,
/// 4 (random), is stated; which value comes out is chance.
#[verifier::external_body]
pub(crate) fn new_v4() -> (res: u128)
    ensures
        uuid_version(res) == 4,
{
    uuid::Uuid::new_v4().as_u128()
}

/// What `Uuid::parse_str` (the `FromStr` of the `uuid` crate) gives for a
/// text: the UUID's 128-bit value, or `None` where it refuses the text.
pub uninterp spec fn uuid_parsed(s: Seq<char>) -> Option<u128>;

/// Marker for a text that is not a UUID, carried out of the `uuid` crate.
#[verifier::external_type_specification]
#[verifier::external_body]
pub struct ExUuidError(uuid::Error);

/// `Uuid::from_str`: the value of a UUID written as text (simple,
/// hyphenated, braced or URN form); an error where the text is none of
/// these. What it accepts is named by `uuid_parsed`.
#[verifier::external_body]
pub(crate) fn uuid_from_str(s: &str) -> (res: Result<u128, uuid::Error>)
    ensures
        res matches Ok(u) ==> uuid_parsed(s@) == Some(u),
        res is Err ==> uuid_parsed(s@) is None,
{
    match <uuid::Uuid as std::str::FromStr>::from_str(s) {
        Ok(u) => Ok(u.as_u128()),
        Err(e) => Err(e),
    }
}

} // verus!
