//! Numbers as text: decimal and hexadecimal digits, and decimal fractions.

use vstd::prelude::*;
use vstd::string::StringExecFns;

verus! {

/// The character of the decimal digit `d`.
pub open spec fn digit(d: int) -> char {
    if d == 0 {
        '0'
    } else if d == 1 {
        '1'
    } else if d == 2 {
        '2'
    } else if d == 3 {
        '3'
    } else if d == 4 {
        '4'
    } else if d == 5 {
        '5'
    } else if d == 6 {
        '6'
    } else if d == 7 {
        '7'
    } else if d == 8 {
        '8'
    } else {
        '9'
    }
}

/// The character of the hexadecimal digit `d`, in lower case.
pub open spec fn hex_digit(d: int) -> char {
    if d < 10 {
        digit(d)
    } else if d == 10 {
        'a'
    } else if d == 11 {
        'b'
    } else if d == 12 {
        'c'
    } else if d == 13 {
        'd'
    } else if d == 14 {
        'e'
    } else {
        'f'
    }
}

/// The decimal digits of `n`, without leading zeros.
pub open spec fn digits(n: nat) -> Seq<char>
    decreases n,
{
    if n < 10 {
        seq![digit(n as int)]
    } else {
        digits(n / 10).push(digit((n % 10) as int))
    }
}

/// The number `n` in decimal, with a minus sign where it is negative.
pub open spec fn decimal(n: int) -> Seq<char> {
    if n < 0 {
        seq!['-'] + digits((-n) as nat)
    } else {
        digits(n as nat)
    }
}

/// The byte `v` as two hexadecimal digits in lower case.
pub open spec fn hex_byte(v: u8) -> Seq<char> {
    seq![hex_digit(v as int / 16), hex_digit(v as int % 16)]
}

/// The first `places` decimal digits behind the point of `num / den`, a
/// fraction of less than one.
pub open spec fn fraction_digits(num: nat, den: nat, places: nat) -> Seq<char>
    decreases places,
{
    if places == 0 {
        Seq::empty()
    } else {
        seq![digit(((num * 10) / den) as int)] + fraction_digits(
            (num * 10) % den,
            den,
            (places - 1) as nat,
        )
    }
}

/// The quotient `num / den` in decimal with six digits behind the point,
/// rounded down.
pub open spec fn ratio(num: nat, den: nat) -> Seq<char> {
    digits(num / den) + seq!['.'] + fraction_digits(num % den, den, 6)
}

/// The text of one hexadecimal digit.
pub fn hex_digit_str(d: u8) -> (s: &'static str)
    requires
        d < 16,
    ensures
        s@ == seq![hex_digit(d as int)],
{
    proof {
        reveal_strlit("0");
        reveal_strlit("1");
        reveal_strlit("2");
        reveal_strlit("3");
        reveal_strlit("4");
        reveal_strlit("5");
        reveal_strlit("6");
        reveal_strlit("7");
        reveal_strlit("8");
        reveal_strlit("9");
        reveal_strlit("a");
        reveal_strlit("b");
        reveal_strlit("c");
        reveal_strlit("d");
        reveal_strlit("e");
        reveal_strlit("f");
    }
    let s: &'static str = if d == 0 {
        "0"
    } else if d == 1 {
        "1"
    } else if d == 2 {
        "2"
    } else if d == 3 {
        "3"
    } else if d == 4 {
        "4"
    } else if d == 5 {
        "5"
    } else if d == 6 {
        "6"
    } else if d == 7 {
        "7"
    } else if d == 8 {
        "8"
    } else if d == 9 {
        "9"
    } else if d == 10 {
        "a"
    } else if d == 11 {
        "b"
    } else if d == 12 {
        "c"
    } else if d == 13 {
        "d"
    } else if d == 14 {
        "e"
    } else {
        "f"
    };
    assert(s@ =~= seq![hex_digit(d as int)]);
    s
}

/// Appends the decimal digits of `n` to `s`.
pub fn push_digits(s: &mut String, n: u64)
    ensures
        final(s)@ == old(s)@ + digits(n as nat),
    decreases n,
{
    if n >= 10 {
        push_digits(s, n / 10);
    }
    s.append(hex_digit_str((n % 10) as u8));
    proof {
        if n >= 10 {
            assert(s@ =~= old(s)@ + digits((n / 10) as nat).push(digit((n % 10) as int)));
        } else {
            assert(s@ =~= old(s)@ + seq![digit(n as int)]);
        }
    }
}

/// Appends the number `n` in decimal to `s`.
pub fn push_decimal(s: &mut String, n: i64)
    ensures
        final(s)@ == old(s)@ + decimal(n as int),
{
    if n < 0 {
        proof {
            reveal_strlit("-");
        }
        s.append("-");
        let size: u64 = if n == i64::MIN { 0x8000_0000_0000_0000 } else { (-n) as u64 };
        push_digits(s, size);
        assert(s@ =~= old(s)@ + (seq!['-'] + digits((-n) as nat)));
    } else {
        push_digits(s, n as u64);
    }
}

/// Appends the byte `v` as two hexadecimal digits to `s`.
pub fn push_hex_byte(s: &mut String, v: u8)
    ensures
        final(s)@ == old(s)@ + hex_byte(v),
{
    s.append(hex_digit_str(v / 16));
    s.append(hex_digit_str(v % 16));
    assert(s@ =~= old(s)@ + hex_byte(v));
}

/// Appends the quotient `num / den` in decimal, with six digits behind the
/// point, to `s`.
pub fn push_ratio(s: &mut String, num: u64, den: u64)
    requires
        den > 0,
    ensures
        final(s)@ == old(s)@ + ratio(num as nat, den as nat),
{
    push_digits(s, num / den);
    proof {
        reveal_strlit(".");
    }
    s.append(".");
    let ghost head = s@;
    let mut rest: u128 = (num % den) as u128;
    let d: u128 = den as u128;
    let mut places: u8 = 6;
    assert(s@ =~= head + Seq::<char>::empty());
    assert(fraction_digits((num % den) as nat, den as nat, 6) =~= Seq::<char>::empty()
        + fraction_digits(rest as nat, d as nat, 6));
    let ghost mut done: Seq<char> = Seq::empty();
    while places > 0
        invariant
            d == den,
            d > 0,
            rest < d,
            places <= 6,
            s@ == head + done,
            fraction_digits((num % den) as nat, den as nat, 6) == done + fraction_digits(
                rest as nat,
                d as nat,
                places as nat,
            ),
        decreases places,
    {
        let scaled: u128 = rest * 10;
        let q: u128 = scaled / d;
        assert(q < 10) by (nonlinear_arith)
            requires
                q == scaled / d,
                scaled == rest * 10,
                0 <= rest < d,
        ;
        s.append(hex_digit_str(q as u8));
        proof {
            let next = done.push(digit(q as int));
            assert(s@ =~= head + next);
            assert(done + fraction_digits(rest as nat, d as nat, places as nat) =~= next
                + fraction_digits((scaled % d) as nat, d as nat, (places - 1) as nat));
            done = next;
        }
        rest = scaled % d;
        places -= 1;
    }
    assert(s@ =~= old(s)@ + ratio(num as nat, den as nat));
}

/// The text `line` begins with the text `p`.
pub open spec fn begins(line: Seq<char>, p: Seq<char>) -> bool {
    p.len() <= line.len() && line.subrange(0, p.len() as int) == p
}

/// The lines `lines` as one text, with a line feed between one line and
/// the next.
pub open spec fn joined(lines: Seq<Seq<char>>) -> Seq<char>
    decreases lines.len(),
{
    if lines.len() == 0 {
        Seq::empty()
    } else if lines.len() == 1 {
        lines[0]
    } else {
        joined(lines.drop_last()) + "\n"@ + lines.last()
    }
}

/// The number of the lines `lines` that begin with the text `p`.
pub open spec fn count_begins(lines: Seq<Seq<char>>, p: Seq<char>) -> nat
    decreases lines.len(),
{
    if lines.len() == 0 {
        0
    } else {
        count_begins(lines.drop_last(), p) + (if begins(lines.last(), p) { 1nat } else { 0nat })
    }
}

/// Of lines that follow other lines, as many begin with a text as do of
/// the ones and of the others together.
pub proof fn lemma_count_begins_concat(a: Seq<Seq<char>>, b: Seq<Seq<char>>, p: Seq<char>)
    ensures
        count_begins(a + b, p) == count_begins(a, p) + count_begins(b, p),
    decreases b.len(),
{
    if b.len() == 0 {
        assert(a + b =~= a);
    } else {
        lemma_count_begins_concat(a, b.drop_last(), p);
        assert((a + b).drop_last() =~= a + b.drop_last());
        assert((a + b).last() == b.last());
    }
}

/// Of a single line, one or none begins with a text.
pub proof fn lemma_count_begins_one(a: Seq<char>, p: Seq<char>)
    ensures
        count_begins(seq![a], p) == (if begins(a, p) { 1nat } else { 0nat }),
{
    let one = seq![a];
    assert(one.len() == 1);
    assert(one.drop_last() =~= Seq::<Seq<char>>::empty());
    assert(count_begins(one.drop_last(), p) == 0);
    assert(one.last() == a);
}

/// A text that is made of a text and more begins with that text.
pub proof fn lemma_begins_with_front(p: Seq<char>, rest: Seq<char>)
    ensures
        begins(p + rest, p),
{
    assert((p + rest).subrange(0, p.len() as int) =~= p);
}

/// A text that differs from another in its second character does not
/// begin with it.
pub proof fn lemma_begins_not(line: Seq<char>, p: Seq<char>)
    requires
        line.len() >= 2,
        p.len() >= 2,
        line[1] != p[1],
    ensures
        !begins(line, p),
{
    if begins(line, p) {
        assert(line.subrange(0, p.len() as int)[1] == line[1]);
    }
}

} // verus!
