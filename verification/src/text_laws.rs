//! What written texts are for: numbers can be read back, and searching finds what is there.

use crate::text::{
    ascii_lower, ascii_lowered, decimal, digit_char, has_substring, lemma_quotient_is_smaller,
    stands_at, underscored, written, zero_padded,
};
use vstd::prelude::*;

verus! {

/// The value of a digit.
pub open spec fn digit_value(c: char) -> int {
    if '0' <= c <= '9' {
        c as int - '0' as int
    } else {
        c as int - 'a' as int + 10
    }
}

/// The value that digits have in the given base.
pub open spec fn value_of(digits: Seq<char>, base: nat) -> int
    decreases digits.len(),
{
    if digits.len() == 0 {
        0
    } else {
        value_of(digits.drop_last(), base) * base + digit_value(digits.last())
    }
}

/// A written number is read back: its digits are digits of the base, have its value, and begin
/// with a zero for zero alone. So different numbers are written differently.
pub proof fn law_written_numbers_are_read_back(n: nat, base: nat)
    requires
        2 <= base <= 16,
    ensures
        written(n, base).len() > 0,
        value_of(written(n, base), base) == n,
        forall|i: int|
            0 <= i < written(n, base).len() ==> 0 <= digit_value(#[trigger] written(n, base)[i])
                < base,
        written(n, base)[0] == '0' ==> n == 0 && written(n, base).len() == 1,
    decreases n,
{
    if n < base {
        let w = written(n, base);
        assert(w =~= seq![digit_char(n as int)]);
        assert(w.drop_last() =~= Seq::empty());
        assert(value_of(w.drop_last(), base) == 0);
        assert(0 * base == 0) by (nonlinear_arith);
        assert(digit_value(digit_char(n as int)) == n);
    } else {
        lemma_quotient_is_smaller(n, base);
        let (q, d) = (n / base, n % base);
        law_written_numbers_are_read_back(q, base);
        vstd::arithmetic::div_mod::lemma_fundamental_div_mod(n as int, base as int);
        assert(0 <= d < base) by (nonlinear_arith)
            requires
                d == n % base,
                base > 0,
        ;
        assert(q >= 1) by (nonlinear_arith)
            requires
                q == n / base,
                n >= base,
                base > 0,
        ;
        assert(q * base == base * q) by (nonlinear_arith);
        let (w, head) = (written(n, base), written(q, base));
        assert(w == head.push(digit_char(d as int)));
        assert(w.drop_last() =~= head);
        assert(w.last() == digit_char(d as int));
        assert(digit_value(digit_char(d as int)) == d);
        assert forall|i: int| 0 <= i < w.len() implies 0 <= digit_value(#[trigger] w[i]) < base by {
            if i < head.len() {
                assert(w[i] == head[i]);
            }
        }
        assert(w[0] == head[0]);
    }
}

/// Zeros in front change no value.
proof fn lemma_leading_zeros(zeros: nat, digits: Seq<char>, base: nat)
    ensures
        value_of(Seq::new(zeros, |i: int| '0') + digits, base) == value_of(digits, base),
    decreases zeros + digits.len(),
{
    let front = Seq::new(zeros, |i: int| '0');
    let whole = front + digits;
    if digits.len() > 0 {
        assert(whole.drop_last() =~= front + digits.drop_last());
        assert(whole.last() == digits.last());
        lemma_leading_zeros(zeros, digits.drop_last(), base);
    } else if zeros > 0 {
        assert(whole.drop_last() =~= Seq::new((zeros - 1) as nat, |i: int| '0') + digits);
        assert(whole.last() == '0');
        lemma_leading_zeros((zeros - 1) as nat, digits, base);
        assert(0 * base == 0) by (nonlinear_arith);
    }
}

/// Padding a written number keeps its digits at the end and puts zeros in front, so it has the
/// same value and at least the width.
pub proof fn law_padding_keeps_the_digits(n: nat, base: nat, width: nat)
    requires
        2 <= base <= 16,
    ensures
        ({
            let (w, p) = (written(n, base), zero_padded(written(n, base), width));
            &&& p.len() == if w.len() < width {
                width
            } else {
                w.len()
            }
            &&& p.skip(p.len() - w.len()) == w
            &&& forall|i: int| 0 <= i < p.len() - w.len() ==> #[trigger] p[i] == '0'
            &&& value_of(p, base) == n
        }),
{
    law_written_numbers_are_read_back(n, base);
    let (w, p) = (written(n, base), zero_padded(written(n, base), width));
    if w.len() < width {
        lemma_leading_zeros((width - w.len()) as nat, w, base);
    }
    assert(p.skip(p.len() - w.len()) =~= w);
}

/// Texts that are the same behind the same beginning are the same.
pub proof fn lemma_same_text(head: Seq<char>, a: Seq<char>, b: Seq<char>)
    requires
        head + a == head + b,
    ensures
        a == b,
{
    assert((head + a).skip(head.len() as int) =~= a);
    assert((head + b).skip(head.len() as int) =~= b);
}

/// A text is found in another exactly where the other is made of something, that text, and
/// something more.
pub proof fn law_search_finds_what_is_there(hay: Seq<char>, needle: Seq<char>)
    ensures
        has_substring(hay, needle) <==> exists|before: Seq<char>, after: Seq<char>|
            hay == #[trigger] (before + needle + after),
{
    if has_substring(hay, needle) {
        let at = choose|at: int| stands_at(hay, needle, at);
        let (before, after) = (hay.take(at), hay.skip(at + needle.len()));
        assert(hay =~= before + needle + after);
    }
    if exists|before: Seq<char>, after: Seq<char>| hay == #[trigger] (before + needle + after) {
        let (before, after) = choose|before: Seq<char>, after: Seq<char>|
            hay == #[trigger] (before + needle + after);
        let at = before.len() as int;
        assert(hay.subrange(at, at + needle.len()) =~= needle);
        assert(stands_at(hay, needle, at));
    }
}

/// Lower case changes the letters from A to Z alone, each into the one that stands as far from a,
/// and no text becomes longer or shorter.
pub proof fn law_ascii_lower_case(s: Seq<char>, i: int)
    requires
        0 <= i < s.len(),
    ensures
        ascii_lowered(s).len() == s.len(),
        'A' <= s[i] <= 'Z' ==> ascii_lowered(s)[i] as int - 'a' as int == s[i] as int - 'A' as int,
        !('A' <= s[i] <= 'Z') ==> ascii_lowered(s)[i] == s[i],
        ascii_lowered(ascii_lowered(s)) == ascii_lowered(s),
{
    assert(ascii_lowered(ascii_lowered(s)) =~= ascii_lowered(s)) by {
        assert forall|k: int| 0 <= k < s.len() implies ascii_lower(ascii_lower(s[k]))
            == #[trigger] ascii_lower(s[k]) by {}
    }
}

/// Colons and slashes become underscores, and nothing else changes.
pub proof fn law_underscores_replace_colons_and_slashes(s: Seq<char>, i: int)
    requires
        0 <= i < s.len(),
    ensures
        underscored(s).len() == s.len(),
        s[i] == ':' || s[i] == '/' ==> underscored(s)[i] == '_',
        s[i] != ':' && s[i] != '/' ==> underscored(s)[i] == s[i],
{
}

/// A number in decimal is read back.
pub proof fn law_decimal_numbers_are_read_back(n: nat)
    ensures
        value_of(decimal(n), 10) == n,
        decimal(n).len() > 0,
        decimal(n)[0] == '0' ==> n == 0 && decimal(n).len() == 1,
{
    law_written_numbers_are_read_back(n, 10);
}

} // verus!
