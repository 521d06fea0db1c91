//! Numbers as the attribute files hold them: text in, text out.

use vstd::prelude::*;

verus! {

/// In what base a number is written.
#[derive(Clone, Copy, Debug, PartialEq, Eq, Structural)]
pub enum Radix {
    Decimal,
    Hex,
}

/// The base as a number.
pub open spec fn base_of(radix: Radix) -> int {
    match radix {
        Radix::Decimal => 10,
        Radix::Hex => 16,
    }
}

/// What a byte is worth as a digit, if it is one: `0` to `9`, and in
/// hexadecimal also `a` to `f` in either case.
pub open spec fn digit_value(b: u8, radix: Radix) -> Option<int> {
    if 0x30 <= b <= 0x39 {
        Some(b - 0x30)
    } else if radix == Radix::Hex && 0x61 <= b <= 0x66 {
        Some(b - 0x61 + 10)
    } else if radix == Radix::Hex && 0x41 <= b <= 0x46 {
        Some(b - 0x41 + 10)
    } else {
        None
    }
}

/// Every byte is a digit.
pub open spec fn all_digits(s: Seq<u8>, radix: Radix) -> bool {
    forall|i: int| 0 <= i < s.len() ==> digit_value(#[trigger] s[i], radix) is Some
}

/// The number that a run of digits stands for, most significant digit first.
pub open spec fn number(s: Seq<u8>, radix: Radix) -> int
    decreases s.len(),
{
    if s.len() == 0 {
        0
    } else {
        number(s.drop_last(), radix) * base_of(radix) + digit_value(s.last(), radix).unwrap()
    }
}

/// Space, tab, line feed and carriage return.
pub open spec fn is_blank(b: u8) -> bool {
    b == 0x20 || b == 0x09 || b == 0x0a || b == 0x0d
}

/// The length of a text without the blanks at its end.
pub open spec fn trimmed_len(s: Seq<u8>) -> int
    decreases s.len(),
{
    if s.len() > 0 && is_blank(s.last()) {
        trimmed_len(s.drop_last())
    } else {
        s.len() as int
    }
}

/// A text without the blanks at its end.
pub open spec fn trimmed(s: Seq<u8>) -> Seq<u8> {
    s.subrange(0, trimmed_len(s))
}

/// The number that a run of digits stands for, where the run is not empty.
pub open spec fn digits_value(s: Seq<u8>, radix: Radix) -> Option<int> {
    if s.len() > 0 && all_digits(s, radix) {
        Some(number(s, radix))
    } else {
        None
    }
}

/// The integer that a text holds: decimal digits with an optional minus sign
/// before them and optional blanks behind them.
pub open spec fn integer_of(text: Seq<u8>) -> Option<int> {
    let t = trimmed(text);
    if t.len() > 0 && t[0] == 0x2d {
        match digits_value(t.subrange(1, t.len() as int), Radix::Decimal) {
            Some(v) => Some(-v),
            None => None,
        }
    } else {
        digits_value(t, Radix::Decimal)
    }
}

/// The integer that a text holds, where it fits the machine's integers.
pub open spec fn i64_of(text: Seq<u8>) -> Option<i64> {
    match integer_of(text) {
        Some(v) => if i64::MIN <= v <= i64::MAX {
            Some(v as i64)
        } else {
            None
        },
        None => None,
    }
}

/// The number that a text holds in hexadecimal, with an optional `0x` before
/// the digits and optional blanks behind them.
pub open spec fn hex_of(text: Seq<u8>) -> Option<int> {
    let t = trimmed(text);
    if t.len() >= 2 && t[0] == 0x30 && t[1] == 0x78 {
        digits_value(t.subrange(2, t.len() as int), Radix::Hex)
    } else {
        digits_value(t, Radix::Hex)
    }
}

/// The decimal digits of a number.
pub open spec fn digits_of(n: nat) -> Seq<u8>
    decreases n,
{
    if n < 10 {
        seq![(0x30 + n) as u8]
    } else {
        digits_of(n / 10).push((0x30 + n % 10) as u8)
    }
}

/// An integer as text: its decimal digits, after a minus sign if it is
/// negative.
pub open spec fn decimal_text(v: int) -> Seq<u8> {
    if v < 0 {
        seq![0x2du8] + digits_of((-v) as nat)
    } else {
        digits_of(v as nat)
    }
}

/// A run of digits stands for a number that is not negative.
pub proof fn lemma_number_is_natural(s: Seq<u8>, radix: Radix)
    requires
        all_digits(s, radix),
    ensures
        number(s, radix) >= 0,
    decreases s.len(),
{
    if s.len() > 0 {
        assert(all_digits(s.drop_last(), radix)) by {
            assert forall|i: int| 0 <= i < s.drop_last().len() implies digit_value(
                #[trigger] s.drop_last()[i],
                radix,
            ) is Some by {
                assert(s.drop_last()[i] == s[i]);
            }
        }
        lemma_number_is_natural(s.drop_last(), radix);
        assert(digit_value(s[s.len() - 1], radix) is Some);
        assert(number(s.drop_last(), radix) * base_of(radix) >= 0) by (nonlinear_arith)
            requires
                number(s.drop_last(), radix) >= 0,
                base_of(radix) > 0,
        ;
    }
}

/// No text holds a negative number in its digits alone.
pub proof fn lemma_values_are_natural(s: Seq<u8>, radix: Radix)
    ensures
        digits_value(s, radix) is Some ==> digits_value(s, radix).unwrap() >= 0,
        hex_of(s) is Some ==> hex_of(s).unwrap() >= 0,
{
    if digits_value(s, radix) is Some {
        lemma_number_is_natural(s, radix);
    }
    let t = trimmed(s);
    if hex_of(s) is Some {
        if t.len() >= 2 && t[0] == 0x30 && t[1] == 0x78 {
            lemma_number_is_natural(t.subrange(2, t.len() as int), Radix::Hex);
        } else {
            lemma_number_is_natural(t, Radix::Hex);
        }
    }
}

/// The decimal digits of a number are digits, and stand for the number.
pub proof fn lemma_digits_of(n: nat)
    ensures
        digits_of(n).len() > 0,
        all_digits(digits_of(n), Radix::Decimal),
        number(digits_of(n), Radix::Decimal) == n,
        digits_of(n)[0] != 0x2d,
        !is_blank(digits_of(n).last()),
    decreases n,
{
    if n < 10 {
        let s = digits_of(n);
        assert(s.drop_last() =~= Seq::<u8>::empty());
        assert(number(s.drop_last(), Radix::Decimal) == 0);
    } else {
        lemma_digits_of(n / 10);
        let s = digits_of(n);
        let head = digits_of(n / 10);
        assert(s.drop_last() =~= head);
        assert forall|i: int| 0 <= i < s.len() implies digit_value(
            #[trigger] s[i],
            Radix::Decimal,
        ) is Some by {
            if i < head.len() {
                assert(s[i] == head[i]);
            }
        }
        assert(s[0] == head[0]);
    }
}

/// Writing an integer out and reading the text back gives the integer.
pub proof fn lemma_integer_round_trip(v: int)
    ensures
        integer_of(decimal_text(v)) == Some(v),
{
    let text = decimal_text(v);
    if v < 0 {
        let digits = digits_of((-v) as nat);
        lemma_digits_of((-v) as nat);
        assert(text.last() == digits.last());
        assert(trimmed(text) =~= text);
        assert(text.subrange(1, text.len() as int) =~= digits);
    } else {
        lemma_digits_of(v as nat);
        assert(trimmed(text) =~= text);
    }
}

/// Whether a byte is a blank.
fn blank(b: u8) -> (r: bool)
    ensures
        r == is_blank(b),
{
    b == 0x20 || b == 0x09 || b == 0x0a || b == 0x0d
}

/// The length of `text` without the blanks at its end.
pub fn trim_end(text: &[u8]) -> (n: usize)
    ensures
        n == trimmed_len(text@),
        n <= text@.len(),
{
    let mut n: usize = text.len();
    assert(text@.subrange(0, n as int) =~= text@);
    while n > 0 && blank(text[n - 1])
        invariant
            n <= text@.len(),
            trimmed_len(text@) == trimmed_len(text@.subrange(0, n as int)),
        decreases n,
    {
        proof {
            let s = text@.subrange(0, n as int);
            assert(s.drop_last() =~= text@.subrange(0, n as int - 1));
            assert(s.last() == text@[n as int - 1]);
        }
        n -= 1;
    }
    proof {
        let s = text@.subrange(0, n as int);
        if n > 0 {
            assert(s.last() == text@[n as int - 1]);
        }
    }
    n
}

/// What a byte is worth as a digit.
fn digit(b: u8, radix: Radix) -> (r: Option<u8>)
    ensures
        match r {
            Some(d) => digit_value(b, radix) == Some(d as int),
            None => digit_value(b, radix) is None,
        },
{
    if 0x30 <= b && b <= 0x39 {
        Some(b - 0x30)
    } else {
        match radix {
            Radix::Hex => {
                if 0x61 <= b && b <= 0x66 {
                    Some(b - 0x61 + 10)
                } else if 0x41 <= b && b <= 0x46 {
                    Some(b - 0x41 + 10)
                } else {
                    None
                }
            },
            Radix::Decimal => None,
        }
    }
}

/// The number that the bytes from `from` up to `to` stand for. A number
/// above `u64::MAX` comes back as some number above it.
pub fn parse_digits(text: &[u8], from: usize, to: usize, radix: Radix) -> (r: Option<u128>)
    requires
        from <= to <= text@.len(),
    ensures
        match r {
            Some(v) => {
                let n = digits_value(text@.subrange(from as int, to as int), radix);
                &&& n is Some
                &&& n.unwrap() <= u64::MAX ==> v == n.unwrap()
                &&& n.unwrap() > u64::MAX ==> v > u64::MAX
            },
            None => digits_value(text@.subrange(from as int, to as int), radix) is None,
        },
{
    if from == to {
        return None;
    }
    let mut acc: u128 = 0;
    let mut i: usize = from;
    assert(text@.subrange(from as int, from as int) =~= Seq::<u8>::empty());
    while i < to
        invariant
            from <= i <= to <= text@.len(),
            all_digits(text@.subrange(from as int, i as int), radix),
            number(text@.subrange(from as int, i as int), radix) <= u64::MAX ==> acc == number(
                text@.subrange(from as int, i as int),
                radix,
            ),
            number(text@.subrange(from as int, i as int), radix) > u64::MAX ==> acc > u64::MAX,
            acc <= 0xffff_ffff_ffff_ffff_ffff,
        decreases to - i,
    {
        let ghost before = text@.subrange(from as int, i as int);
        let ghost upto = text@.subrange(from as int, i as int + 1);
        proof {
            assert(upto.drop_last() =~= before);
            assert(upto.last() == text@[i as int]);
            lemma_number_is_natural(before, radix);
        }
        match digit(text[i], radix) {
            Some(d) => {
                proof {
                    assert forall|j: int| 0 <= j < upto.len() implies digit_value(
                        #[trigger] upto[j],
                        radix,
                    ) is Some by {
                        if j < before.len() {
                            assert(upto[j] == before[j]);
                        }
                    }
                    assert(number(before, radix) * base_of(radix) >= number(before, radix))
                        by (nonlinear_arith)
                        requires
                            number(before, radix) >= 0,
                            base_of(radix) >= 1,
                    ;
                }
                if acc <= 0xffff_ffff_ffff_ffff {
                    let base: u128 = match radix {
                        Radix::Decimal => 10,
                        Radix::Hex => 16,
                    };
                    acc = acc * base + d as u128;
                }
            },
            None => {
                proof {
                    let whole = text@.subrange(from as int, to as int);
                    assert(whole[i as int - from as int] == text@[i as int]);
                }
                return None;
            },
        }
        i += 1;
    }
    Some(acc)
}

/// The integer that a text holds.
pub fn parse_integer(text: &[u8]) -> (r: Option<i64>)
    ensures
        r == i64_of(text@),
{
    let n = trim_end(text);
    if n == 0 {
        assert(trimmed(text@).len() == 0);
        return None;
    }
    assert(trimmed(text@)[0] == text@[0]);
    if text[0] == 0x2d {
        assert(trimmed(text@).subrange(1, n as int) =~= text@.subrange(1, n as int));
        match parse_digits(text, 1, n, Radix::Decimal) {
            Some(v) => {
                if v <= 0x8000_0000_0000_0000 {
                    let magnitude: i128 = v as i128;
                    Some((0 - magnitude) as i64)
                } else {
                    None
                }
            },
            None => None,
        }
    } else {
        assert(trimmed(text@) =~= text@.subrange(0, n as int));
        match parse_digits(text, 0, n, Radix::Decimal) {
            Some(v) => {
                if v <= 0x7fff_ffff_ffff_ffff {
                    Some(v as i64)
                } else {
                    None
                }
            },
            None => None,
        }
    }
}

/// The number that a text holds in hexadecimal, where it fits 32 bits.
pub fn parse_hex(text: &[u8]) -> (r: Option<u32>)
    ensures
        r == match hex_of(text@) {
            Some(v) => if v <= u32::MAX {
                Some(v as u32)
            } else {
                None
            },
            None => None,
        },
{
    let n = trim_end(text);
    let from: usize = if n >= 2 && text[0] == 0x30 && text[1] == 0x78 {
        2
    } else {
        0
    };
    proof {
        if n >= 2 {
            assert(trimmed(text@)[0] == text@[0]);
            assert(trimmed(text@)[1] == text@[1]);
        }
        assert(trimmed(text@).subrange(from as int, n as int) =~= text@.subrange(
            from as int,
            n as int,
        ));
        assert(trimmed(text@) =~= trimmed(text@).subrange(0, n as int));
    }
    match parse_digits(text, from, n, Radix::Hex) {
        Some(v) => {
            if v <= 0xffff_ffff {
                Some(v as u32)
            } else {
                None
            }
        },
        None => None,
    }
}

/// The text of an integer.
pub fn render_integer(v: i64) -> (r: Vec<u8>)
    ensures
        r@ == decimal_text(v as int),
{
    let negative = v < 0;
    let magnitude: u64 = if negative {
        (0 - v as i128) as u64
    } else {
        v as u64
    };
    let mut rest: u64 = magnitude;
    let mut backwards: Vec<u8> = Vec::new();
    backwards.push(0x30 + (rest % 10) as u8);
    rest = rest / 10;
    proof {
        assert(backwards@.reverse() =~= seq![(0x30 + magnitude % 10) as u8]);
        if magnitude >= 10 {
            assert(digits_of(magnitude as nat) =~= digits_of(rest as nat) + backwards@.reverse());
        }
    }
    while rest > 0
        invariant
            backwards@.len() > 0,
            rest > 0 ==> digits_of(magnitude as nat) == digits_of(rest as nat)
                + backwards@.reverse(),
            rest == 0 ==> digits_of(magnitude as nat) == backwards@.reverse(),
        decreases rest,
    {
        let d: u8 = 0x30 + (rest % 10) as u8;
        let ghost before = backwards@;
        backwards.push(d);
        proof {
            assert(backwards@.reverse() =~= seq![d] + before.reverse());
            if rest < 10 {
                assert(digits_of(rest as nat) =~= seq![d]);
                assert(seq![d] + before.reverse() =~= digits_of(rest as nat) + before.reverse());
            } else {
                assert(digits_of(rest as nat) =~= digits_of((rest / 10) as nat) + seq![d]);
                assert(digits_of((rest / 10) as nat) + (seq![d] + before.reverse()) =~= digits_of(
                    rest as nat,
                ) + before.reverse());
            }
        }
        rest = rest / 10;
    }
    let mut r: Vec<u8> = Vec::new();
    if negative {
        r.push(0x2d);
    }
    let ghost sign = r@;
    let mut i: usize = backwards.len();
    while i > 0
        invariant
            i <= backwards@.len(),
            r@ == sign + backwards@.reverse().subrange(0, backwards@.len() - i),
        decreases i,
    {
        i -= 1;
        proof {
            let whole = backwards@.reverse();
            let k = backwards@.len() - i - 1;
            assert(whole[k] == backwards@[i as int]);
            assert(whole.subrange(0, k + 1) =~= whole.subrange(0, k).push(whole[k]));
            assert((sign + whole.subrange(0, k)).push(whole[k]) =~= sign + whole.subrange(
                0,
                k + 1,
            ));
        }
        r.push(backwards[i]);
    }
    proof {
        let whole = backwards@.reverse();
        assert(whole.subrange(0, whole.len() as int) =~= whole);
        if negative {
            assert(sign =~= seq![0x2du8]);
        } else {
            assert(sign + whole =~= whole);
        }
    }
    r
}

} // verus!
