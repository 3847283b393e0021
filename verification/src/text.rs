//! Text: written numbers, replaced characters, and the search for one text in another.

use vstd::prelude::*;

verus! {

/// `String::push` of the standard library: the character is put at the end.
pub assume_specification[ String::push ](s: &mut String, c: char)
    ensures
        final(s)@ == old(s)@.push(c),
;

/// The lower-case equivalent of a text, by the Unicode rules of `str::to_lowercase`.
pub uninterp spec fn lowercase(s: Seq<char>) -> Seq<char>;

/// Every character of a text is an ASCII character.
pub open spec fn all_ascii(s: Seq<char>) -> bool {
    forall|i: int| 0 <= i < s.len() ==> (#[trigger] s[i]) as u32 <= 127
}

/// The lower-case equivalent of an ASCII character.
pub open spec fn ascii_lower(c: char) -> char {
    if 'A' <= c <= 'Z' {
        (c as u32 + 32) as char
    } else {
        c
    }
}

/// A text with every ASCII letter in lower case.
pub open spec fn ascii_lowered(s: Seq<char>) -> Seq<char> {
    s.map_values(|c: char| ascii_lower(c))
}

/// `str::to_lowercase` of the standard library. The contract names its result, which depends on
/// the text alone, and says what it is where every character is an ASCII character. An ASCII letter
/// has the same lower case in either case, and counts as a letter beside others in either case, so
/// the result is also that of the text with its ASCII letters in lower case. To what other
/// characters are mapped is left unsaid.
#[verifier::external_body]
pub(crate) fn to_lowercase(s: &str) -> (r: String)
    ensures
        r@ == lowercase(s@),
        r@ == lowercase(ascii_lowered(s@)),
        all_ascii(s@) ==> r@ == ascii_lowered(s@),
{
    s.to_lowercase()
}

/// The character of a digit below sixteen.
pub open spec fn digit_char(d: int) -> char {
    if d < 10 {
        ('0' as int + d) as char
    } else {
        ('a' as int + d - 10) as char
    }
}

/// A whole quotient by two or more is smaller than what was divided.
pub proof fn lemma_quotient_is_smaller(n: nat, base: nat)
    requires
        2 <= base <= n,
    ensures
        n / base < n,
{
    assert(n / base < n) by (nonlinear_arith)
        requires
            2 <= base <= n,
    ;
}

/// The number `n` written in the given base, without leading zeros.
pub open spec fn written(n: nat, base: nat) -> Seq<char>
    decreases n,
{
    if base < 2 || n < base {
        seq![digit_char(n as int)]
    } else {
        proof {
            lemma_quotient_is_smaller(n, base);
        }
        written(n / base, base).push(digit_char((n % base) as int))
    }
}

/// The number `n` written in decimal.
pub open spec fn decimal(n: nat) -> Seq<char> {
    written(n, 10)
}

/// A text brought to at least `width` characters by zeros in front.
pub open spec fn zero_padded(s: Seq<char>, width: nat) -> Seq<char> {
    if s.len() >= width {
        s
    } else {
        Seq::new((width - s.len()) as nat, |i: int| '0') + s
    }
}

fn digit_of(d: u64) -> (c: char)
    requires
        d < 16,
    ensures
        c == digit_char(d as int),
{
    match d {
        0 => '0',
        1 => '1',
        2 => '2',
        3 => '3',
        4 => '4',
        5 => '5',
        6 => '6',
        7 => '7',
        8 => '8',
        9 => '9',
        10 => 'a',
        11 => 'b',
        12 => 'c',
        13 => 'd',
        14 => 'e',
        _ => 'f',
    }
}

/// Writes a number at the end of a text.
pub fn push_written(out: &mut String, n: u64, base: u64)
    requires
        2 <= base <= 16,
    ensures
        final(out)@ == old(out)@ + written(n as nat, base as nat),
    decreases n,
{
    if n < base {
        out.push(digit_of(n));
    } else {
        proof {
            lemma_quotient_is_smaller(n as nat, base as nat);
        }
        push_written(out, n / base, base);
        out.push(digit_of(n % base));
    }
}

/// Writes a number in decimal at the end of a text.
pub fn push_decimal(out: &mut String, n: u64)
    ensures
        final(out)@ == old(out)@ + decimal(n as nat),
{
    push_written(out, n, 10);
}

/// Writes a number in hexadecimal, with zeros in front to at least `width` digits, at the end
/// of a text.
pub fn push_hex(out: &mut String, n: u64, width: u32)
    ensures
        final(out)@ == old(out)@ + zero_padded(written(n as nat, 16), width as nat),
    decreases n, width,
{
    let ghost start = out@;
    if n >= 16 {
        let less: u32 = if width > 0 {
            width - 1
        } else {
            0
        };
        push_hex(out, n / 16, less);
        out.push(digit_of(n % 16));
        proof {
            let head = written((n / 16) as nat, 16);
            assert(written(n as nat, 16) == head.push(digit_char((n % 16) as int)));
            assert(out@ =~= start + zero_padded(written(n as nat, 16), width as nat));
        }
    } else {
        let mut i: u32 = 1;
        while i < width
            invariant
                1 <= i,
                width > 0 ==> i <= width,
                width == 0 ==> i == 1,
                out@ == start + Seq::new((i - 1) as nat, |j: int| '0'),
            decreases width - i,
        {
            out.push('0');
            i = i + 1;
            proof {
                assert(out@ =~= start + Seq::new((i - 1) as nat, |j: int| '0'));
            }
        }
        out.push(digit_of(n));
        proof {
            assert(out@ =~= start + zero_padded(written(n as nat, 16), width as nat));
        }
    }
}

/// The characters of a text.
pub fn chars_of(s: &str) -> (r: Vec<char>)
    ensures
        r@ == s@,
{
    let mut out: Vec<char> = Vec::new();
    for c in it: s.chars()
        invariant
            it.seq() == s@,
            out@ == s@.take(it.index()),
    {
        out.push(c);
        proof {
            assert(out@ =~= s@.take(it.index() + 1));
        }
    }
    proof {
        assert(s@.take(s@.len() as int) =~= s@);
    }
    out
}

/// `needle` stands in `hay` at position `at`.
pub open spec fn stands_at(hay: Seq<char>, needle: Seq<char>, at: int) -> bool {
    0 <= at && at + needle.len() <= hay.len() && hay.subrange(at, at + needle.len()) == needle
}

/// `needle` stands somewhere in `hay`.
pub open spec fn has_substring(hay: Seq<char>, needle: Seq<char>) -> bool {
    exists|at: int| stands_at(hay, needle, at)
}

fn matches_at(hay: &[char], needle: &[char], at: usize) -> (r: bool)
    requires
        at + needle.len() <= hay.len(),
    ensures
        r == stands_at(hay@, needle@, at as int),
{
    let mut i: usize = 0;
    while i < needle.len()
        invariant
            i <= needle.len(),
            at + needle.len() <= hay.len(),
            forall|j: int| 0 <= j < i ==> hay@[at + j] == #[trigger] needle@[j],
        decreases needle.len() - i,
    {
        if hay[at + i] != needle[i] {
            proof {
                assert(hay@.subrange(at as int, at + needle.len())[i as int] != needle@[i as int]);
            }
            return false;
        }
        i = i + 1;
    }
    proof {
        assert(hay@.subrange(at as int, at + needle.len()) =~= needle@);
    }
    true
}

/// Whether one text stands somewhere in another.
pub fn contains_chars(hay: &[char], needle: &[char]) -> (r: bool)
    ensures
        r == has_substring(hay@, needle@),
{
    if needle.len() > hay.len() {
        return false;
    }
    let last: usize = hay.len() - needle.len();
    let mut at: usize = 0;
    loop
        invariant
            at <= last,
            last == hay.len() - needle.len(),
            needle.len() <= hay.len(),
            forall|j: int| 0 <= j < at ==> !#[trigger] stands_at(hay@, needle@, j),
        decreases last - at,
    {
        if matches_at(hay, needle, at) {
            return true;
        }
        if at == last {
            return false;
        }
        at = at + 1;
    }
}

/// A text with every colon and every slash replaced by an underscore.
pub open spec fn underscored(s: Seq<char>) -> Seq<char> {
    s.map_values(
        |c: char|
            if c == ':' || c == '/' {
                '_'
            } else {
                c
            },
    )
}

/// Writes a text at the end of another, with every colon and every slash replaced by an
/// underscore.
pub fn push_underscored(out: &mut String, s: &str)
    ensures
        final(out)@ == old(out)@ + underscored(s@),
{
    let chars = chars_of(s);
    let ghost start = out@;
    let mut i: usize = 0;
    while i < chars.len()
        invariant
            i <= chars.len(),
            chars@ == s@,
            out@ == start + underscored(s@).take(i as int),
        decreases chars.len() - i,
    {
        let c: char = chars[i];
        if c == ':' || c == '/' {
            out.push('_');
        } else {
            out.push(c);
        }
        proof {
            assert(out@ =~= start + underscored(s@).take(i + 1));
        }
        i = i + 1;
    }
    proof {
        assert(underscored(s@).take(i as int) =~= underscored(s@));
    }
}

} // verus!
