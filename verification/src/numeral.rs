//! Decimal numerals, plain and with thousands separators.

use vstd::prelude::*;

verus! {

/// `String::push` of std, which appends the character to the end of the
/// string.
pub assume_specification[ String::push ](text: &mut String, ch: char)
    ensures
        final(text)@ == old(text)@.push(ch),
;

/// The character that stands for the decimal digit `d`.
pub open spec fn digit(d: nat) -> char
    recommends
        d < 10,
{
    (48 + d) as u8 as char
}

/// Whether `c` is one of the ten decimal digits.
pub open spec fn is_digit(c: char) -> bool {
    48 <= c as u32 <= 57
}

/// The decimal numeral of `n`: most significant digit first, no leading zero
/// except for zero itself.
pub open spec fn decimal(n: nat) -> Seq<char>
    decreases n,
{
    if n < 10 {
        seq![digit(n)]
    } else {
        decimal(n / 10).push(digit(n % 10))
    }
}

/// The number that a decimal digit stands for.
pub open spec fn digit_value(c: char) -> nat
    recommends
        is_digit(c),
{
    (c as u32 - 48) as nat
}

/// The number that a decimal numeral stands for.
pub open spec fn numeral_value(s: Seq<char>) -> nat
    decreases s.len(),
{
    if s.len() == 0 {
        0
    } else {
        10 * numeral_value(s.drop_last()) + digit_value(s.last())
    }
}

/// The three low decimal digits of `n`, zeros included.
pub open spec fn padded3(n: nat) -> Seq<char> {
    seq![digit(n / 100 % 10), digit(n / 10 % 10), digit(n % 10)]
}

/// The decimal numeral of `n` with a comma before every group of three
/// digits, counted from the right.
pub open spec fn grouped(n: nat) -> Seq<char>
    decreases n,
{
    if n < 1000 {
        decimal(n)
    } else {
        grouped(n / 1000) + seq![','] + padded3(n % 1000)
    }
}

/// `s` with its commas taken out.
pub open spec fn without_commas(s: Seq<char>) -> Seq<char> {
    s.filter(|c: char| c != ',')
}

fn digit_char(d: usize) -> (c: char)
    requires
        d < 10,
    ensures
        c == digit(d as nat),
{
    (48u8 + d as u8) as char
}

/// Appends the decimal numeral of `n` to `out`.
pub fn push_decimal(out: &mut String, n: usize)
    ensures
        final(out)@ == old(out)@ + decimal(n as nat),
    decreases n,
{
    if n >= 10 {
        push_decimal(out, n / 10);
    }
    out.push(digit_char(n % 10));
}

fn push_padded3(out: &mut String, n: usize)
    ensures
        final(out)@ == old(out)@ + padded3(n as nat),
{
    out.push(digit_char(n / 100 % 10));
    out.push(digit_char(n / 10 % 10));
    out.push(digit_char(n % 10));
}

/// Appends the grouped numeral of `n` to `out`.
pub fn push_grouped(out: &mut String, n: usize)
    ensures
        final(out)@ == old(out)@ + grouped(n as nat),
    decreases n,
{
    if n < 1000 {
        push_decimal(out, n);
    } else {
        push_grouped(out, n / 1000);
        out.push(',');
        push_padded3(out, n % 1000);
    }
}

/// The thousands-grouped numeral of `n`: its decimal digits with a comma
/// between groups of three digits, counted from the least significant one.
/// A number under 1000 comes out as its plain numeral.
pub fn fmt_number(n: usize) -> (text: String)
    ensures
        text@ == grouped(n as nat),
        n < 1000 ==> text@ == decimal(n as nat),
        forall|i: int| 0 <= i < text@.len() ==> text@[i] == ',' || is_digit(#[trigger] text@[i]),
        without_commas(text@) == decimal(n as nat),
        forall|i: int|
            0 <= i < text@.len() ==> (#[trigger] text@[i] == ',' <==> (text@.len() - 1 - i) % 4
                == 3),
        text@.len() > 0 && text@[0] != ',',
{
    let mut text = String::new();
    push_grouped(&mut text, n);
    proof {
        lemma_grouped_shape(n as nat);
    }
    text
}

/// The decimal numeral of `n`.
pub fn decimal_text(n: usize) -> (text: String)
    ensures
        text@ == decimal(n as nat),
{
    let mut text = String::new();
    push_decimal(&mut text, n);
    text
}

/// Every character of a decimal numeral is a digit, and there is at least
/// one; numbers under ten, a hundred, a thousand have up to one, two, three.
pub proof fn lemma_decimal_digits(n: nat)
    ensures
        decimal(n).len() >= 1,
        forall|i: int| 0 <= i < decimal(n).len() ==> is_digit(#[trigger] decimal(n)[i]),
        n < 10 <==> decimal(n).len() == 1,
        n < 100 <==> decimal(n).len() <= 2,
        n < 1000 <==> decimal(n).len() <= 3,
    decreases n,
{
    if n >= 10 {
        lemma_decimal_digits(n / 10);
    }
}

/// A decimal numeral stands for its number, and begins with a zero only
/// where it is the numeral of zero.
pub proof fn lemma_decimal_value(n: nat)
    ensures
        numeral_value(decimal(n)) == n,
        n > 0 ==> decimal(n)[0] != '0',
    decreases n,
{
    if n >= 10 {
        lemma_decimal_value(n / 10);
        lemma_decimal_digits(n / 10);
        assert(decimal(n).drop_last() == decimal(n / 10));
        assert(decimal(n)[0] == decimal(n / 10)[0]);
    } else {
        assert(decimal(n).drop_last() == Seq::<char>::empty());
        assert(numeral_value(decimal(n).drop_last()) == 0);
    }
}

/// From a thousand on, a decimal numeral is that of the thousands followed by
/// the three low digits.
pub proof fn lemma_decimal_thousands(n: nat)
    requires
        n >= 1000,
    ensures
        decimal(n) == decimal(n / 1000) + padded3(n % 1000),
{
    let h = n / 10;
    let k = n / 100;
    assert(h / 10 == k);
    assert(k / 10 == n / 1000);
    assert(decimal(n) == decimal(h).push(digit(n % 10)));
    assert(decimal(h) == decimal(k).push(digit(h % 10)));
    assert(decimal(k) == decimal(n / 1000).push(digit(k % 10)));
    assert(n % 1000 / 100 % 10 == k % 10);
    assert(n % 1000 / 10 % 10 == h % 10);
    assert(n % 1000 % 10 == n % 10);
    assert(decimal(n) =~= decimal(n / 1000) + padded3(n % 1000));
}

proof fn lemma_filter_keeps_all(s: Seq<char>)
    requires
        forall|i: int| 0 <= i < s.len() ==> s[i] != ',',
    ensures
        without_commas(s) == s,
    decreases s.len(),
{
    reveal(Seq::filter);
    if s.len() > 0 {
        lemma_filter_keeps_all(s.drop_last());
        assert(s.drop_last().push(s.last()) =~= s);
    }
}

/// The shape of a grouped numeral: digits and commas only, the digits being
/// those of the plain numeral; a comma exactly at every fourth place counted
/// from the right; and a digit in front.
pub proof fn lemma_grouped_shape(n: nat)
    ensures
        grouped(n).len() == decimal(n).len() + (decimal(n).len() - 1) / 3,
        forall|i: int|
            0 <= i < grouped(n).len() ==> grouped(n)[i] == ',' || is_digit(#[trigger] grouped(n)[i]),
        without_commas(grouped(n)) == decimal(n),
        forall|i: int|
            0 <= i < grouped(n).len() ==> (#[trigger] grouped(n)[i] == ',' <==> (grouped(n).len()
                - 1 - i) % 4 == 3),
        grouped(n).len() > 0 && grouped(n)[0] != ',',
    decreases n,
{
    lemma_decimal_digits(n);
    if n < 1000 {
        lemma_filter_keeps_all(decimal(n));
    } else {
        let head = grouped(n / 1000);
        let tail = padded3(n % 1000);
        lemma_grouped_shape(n / 1000);
        lemma_decimal_digits(n / 1000);
        lemma_decimal_thousands(n);
        let all = head + seq![','] + tail;
        assert(all == grouped(n));
        assert forall|i: int| 0 <= i < all.len() implies (#[trigger] all[i] == ',' <==> (all.len()
            - 1 - i) % 4 == 3) && (all[i] == ',' || is_digit(all[i])) by {
            if i < head.len() {
                assert(all[i] == head[i]);
                assert((head.len() - 1 - i) % 4 == 3 <==> (all.len() - 1 - i) % 4 == 3);
            } else if i == head.len() {
                assert(all[i] == ',');
            } else {
                assert(all[i] == tail[i - head.len() - 1]);
            }
        }
        assert(all[0] == head[0]);
        Seq::filter_distributes_over_add(head + seq![','], tail, |c: char| c != ',');
        Seq::filter_distributes_over_add(head, seq![','], |c: char| c != ',');
        lemma_filter_keeps_all(tail);
        assert(without_commas(seq![',']) =~= Seq::<char>::empty()) by {
            reveal_with_fuel(Seq::filter, 2);
        }
        assert(without_commas(all) =~= decimal(n / 1000) + tail);
    }
}

} // verus!
