use vstd::prelude::*;

verus! {

/// The character for one decimal digit.
pub open spec fn spec_digit_char(d: int) -> char {
    if d == 0 {
        '0'
    } else if d == 1 {
        '1'
    } else if d == 2 {
        '2'
    } else if d == 3 {
        '3'
    } else if d == 4 {
        '4'
    } else if d == 5 {
        '5'
    } else if d == 6 {
        '6'
    } else if d == 7 {
        '7'
    } else if d == 8 {
        '8'
    } else {
        '9'
    }
}

pub open spec fn is_decimal_digit(c: char) -> bool {
    48 <= c as u32 && c as u32 <= 57
}

pub open spec fn digit_value(c: char) -> nat {
    (c as int - 48) as nat
}

pub open spec fn all_decimal_digits(s: Seq<char>) -> bool {
    forall|i: int| 0 <= i < s.len() ==> is_decimal_digit(#[trigger] s[i])
}

/// The numeric value of a digit string, most significant digit first.
pub open spec fn decimal_value(s: Seq<char>) -> nat
    decreases s.len(),
{
    if s.len() == 0 {
        0
    } else {
        decimal_value(s.drop_last()) * 10 + digit_value(s.last())
    }
}

/// The canonical decimal rendering of a number: no sign, no leading zeros.
pub open spec fn spec_format_u32(n: nat) -> Seq<char>
    decreases n,
{
    if n < 10 {
        seq![spec_digit_char(n as int)]
    } else {
        spec_format_u32(n / 10) + seq![spec_digit_char((n % 10) as int)]
    }
}

/// A digit string parses as a `u32` when it is nonempty, all digits, and in
/// range; a sign, spaces, or any other character make it unparseable.
pub open spec fn spec_parse_u32(s: Seq<char>) -> Option<u32> {
    if s.len() == 0 || !all_decimal_digits(s) {
        None
    } else if decimal_value(s) > u32::MAX {
        None
    } else {
        Some(decimal_value(s) as u32)
    }
}

fn digit_str(d: u32) -> (r: &'static str)
    requires
        d < 10,
    ensures
        r@ == seq![spec_digit_char(d as int)],
        r@.len() == 1,
{
    proof {
        reveal_strlit("0");
        reveal_strlit("1");
        reveal_strlit("2");
        reveal_strlit("3");
        reveal_strlit("4");
        reveal_strlit("5");
        reveal_strlit("6");
        reveal_strlit("7");
        reveal_strlit("8");
        reveal_strlit("9");
    }
    if d == 0 {
        "0"
    } else if d == 1 {
        "1"
    } else if d == 2 {
        "2"
    } else if d == 3 {
        "3"
    } else if d == 4 {
        "4"
    } else if d == 5 {
        "5"
    } else if d == 6 {
        "6"
    } else if d == 7 {
        "7"
    } else if d == 8 {
        "8"
    } else {
        "9"
    }
}

/// Render `n` in decimal.
pub fn format_u32(n: u32) -> (s: String)
    ensures
        s@ == spec_format_u32(n as nat),
    decreases n,
{
    if n < 10 {
        String::from_str(digit_str(n))
    } else {
        proof {
            vstd::arithmetic::div_mod::lemma_div_decreases(n as int, 10);
        }
        let mut s = format_u32(n / 10);
        s.append(digit_str(n % 10));
        s
    }
}

proof fn lemma_decimal_value_take_step(s: Seq<char>, j: int)
    requires
        0 <= j < s.len(),
    ensures
        decimal_value(s.take(j + 1)) == decimal_value(s.take(j)) * 10 + digit_value(s[j]),
{
    assert(s.take(j + 1).drop_last() =~= s.take(j));
    assert(s.take(j + 1).last() == s[j]);
}

/// Extending a digit string on the right can only grow its value.
proof fn lemma_decimal_value_take_le(s: Seq<char>, j: int)
    requires
        0 <= j <= s.len(),
    ensures
        decimal_value(s.take(j)) <= decimal_value(s),
    decreases s.len() - j,
{
    if j == s.len() {
        assert(s.take(j) =~= s);
    } else {
        lemma_decimal_value_take_step(s, j);
        lemma_decimal_value_take_le(s, j + 1);
    }
}

/// Parse a decimal `u32`; `None` on an empty string, a non-digit, or overflow.
pub fn parse_u32(s: &str) -> (r: Option<u32>)
    ensures
        r == spec_parse_u32(s@),
{
    let ghost sv = s@;
    let len = s.unicode_len();
    if len == 0 {
        return None;
    }
    let mut acc: u64 = 0;
    let mut i: usize = 0;
    while i < len
        invariant
            0 < len == sv.len(),
            0 <= i <= len,
            sv == s@,
            all_decimal_digits(sv.take(i as int)),
            acc == decimal_value(sv.take(i as int)),
            acc <= u32::MAX,
        decreases len - i,
    {
        let c = s.get_char(i);
        let u = c as u32;
        if u < 48 || u > 57 {
            assert(!is_decimal_digit(sv[i as int]));
            return None;
        }
        proof {
            lemma_decimal_value_take_step(sv, i as int);
        }
        acc = acc * 10 + (u - 48) as u64;
        i = i + 1;
        if acc > u32::MAX as u64 {
            proof {
                lemma_decimal_value_take_le(sv, i as int);
            }
            return None;
        }
    }
    proof {
        assert(sv.take(len as int) =~= sv);
    }
    Some(acc as u32)
}

proof fn lemma_digit_char_value(d: int)
    requires
        0 <= d < 10,
    ensures
        is_decimal_digit(spec_digit_char(d)),
        digit_value(spec_digit_char(d)) == d,
{
}

/// The decimal rendering of a number is nonempty, all digits, and parses
/// back to the same number.
pub proof fn lemma_parse_format_u32(n: u32)
    ensures
        spec_format_u32(n as nat).len() >= 1,
        all_decimal_digits(spec_format_u32(n as nat)),
        decimal_value(spec_format_u32(n as nat)) == n,
        spec_parse_u32(spec_format_u32(n as nat)) == Some(n),
    decreases n,
{
    let f = spec_format_u32(n as nat);
    if n < 10 {
        lemma_digit_char_value(n as int);
        assert(f.drop_last() =~= Seq::<char>::empty());
        assert(f.last() == spec_digit_char(n as int));
        assert(decimal_value(f.drop_last()) == 0);
        assert(decimal_value(f) == digit_value(spec_digit_char(n as int)));
        assert forall|i: int| 0 <= i < f.len() implies is_decimal_digit(#[trigger] f[i]) by {
            assert(f[i] == spec_digit_char(n as int));
        }
    } else {
        vstd::arithmetic::div_mod::lemma_fundamental_div_mod(n as int, 10);
        let hi = n / 10;
        lemma_parse_format_u32(hi);
        lemma_digit_char_value((n % 10) as int);
        let g = spec_format_u32(hi as nat);
        assert(f == g + seq![spec_digit_char((n % 10) as int)]);
        assert(f.drop_last() =~= g);
        assert(f.last() == spec_digit_char((n % 10) as int));
        assert(decimal_value(f) == decimal_value(g) * 10 + (n % 10));
        assert forall|i: int| 0 <= i < f.len() implies is_decimal_digit(#[trigger] f[i]) by {
            if i < g.len() {
                assert(f[i] == g[i]);
            } else {
                assert(f[i] == f.last());
            }
        }
    }
}

} // verus!
