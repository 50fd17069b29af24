//! Character-level building blocks: white-space trimming, stripping of
//! leading dots and surrounding slashes, ASCII lowercasing, and decimal
//! rendering of unsigned integers.

use vstd::prelude::*;

verus! {

/// The character classes that normalization strips from the ends of a string.
#[derive(Clone, Copy, PartialEq, Eq, Structural, Debug)]
pub enum CharClass {
    Space,
    Dot,
    Slash,
}

/// The Unicode white-space characters, the set that trimming removes.
pub open spec fn is_space(c: char) -> bool {
    ||| c == ' '
    ||| c == '\t'
    ||| c == '\n'
    ||| c == '\u{b}'
    ||| c == '\u{c}'
    ||| c == '\r'
    ||| c == '\u{85}'
    ||| c == '\u{a0}'
    ||| c == '\u{1680}'
    ||| ('\u{2000}' <= c && c <= '\u{200a}')
    ||| c == '\u{2028}'
    ||| c == '\u{2029}'
    ||| c == '\u{202f}'
    ||| c == '\u{205f}'
    ||| c == '\u{3000}'
}

pub open spec fn in_class(cls: CharClass, c: char) -> bool {
    match cls {
        CharClass::Space => is_space(c),
        CharClass::Dot => c == '.',
        CharClass::Slash => c == '/',
    }
}

fn char_in_class(cls: CharClass, c: char) -> (b: bool)
    ensures
        b == in_class(cls, c),
{
    match cls {
        CharClass::Space => c == ' ' || c == '\t' || c == '\n' || c == '\u{b}' || c == '\u{c}'
            || c == '\r' || c == '\u{85}' || c == '\u{a0}' || c == '\u{1680}' || ('\u{2000}' <= c
            && c <= '\u{200a}') || c == '\u{2028}' || c == '\u{2029}' || c == '\u{202f}' || c
            == '\u{205f}' || c == '\u{3000}',
        CharClass::Dot => c == '.',
        CharClass::Slash => c == '/',
    }
}

/// The sequence with its leading run of `cls` characters removed.
pub open spec fn drop_leading(cls: CharClass, s: Seq<char>) -> Seq<char>
    decreases s.len(),
{
    if s.len() > 0 && in_class(cls, s[0]) {
        drop_leading(cls, s.drop_first())
    } else {
        s
    }
}

/// The sequence with its trailing run of `cls` characters removed.
pub open spec fn drop_trailing(cls: CharClass, s: Seq<char>) -> Seq<char>
    decreases s.len(),
{
    if s.len() > 0 && in_class(cls, s.last()) {
        drop_trailing(cls, s.drop_last())
    } else {
        s
    }
}

/// White space removed from both ends, as `str::trim` does.
pub open spec fn trim(s: Seq<char>) -> Seq<char> {
    drop_trailing(CharClass::Space, drop_leading(CharClass::Space, s))
}

pub proof fn lemma_drop_leading_skip(cls: CharClass, s: Seq<char>, i: int)
    requires
        0 <= i <= s.len(),
        forall|j: int| 0 <= j < i ==> in_class(cls, s[j]),
        i == s.len() || !in_class(cls, s[i]),
    ensures
        drop_leading(cls, s) == s.skip(i),
    decreases i,
{
    if i == 0 {
        assert(s.skip(0) =~= s);
    } else {
        assert(in_class(cls, s[0]));
        let t = s.drop_first();
        assert(forall|j: int| 0 <= j < i - 1 ==> in_class(cls, t[j]));
        lemma_drop_leading_skip(cls, t, i - 1);
        assert(t.skip(i - 1) =~= s.skip(i));
    }
}

pub proof fn lemma_drop_trailing_take(cls: CharClass, s: Seq<char>, i: int)
    requires
        0 <= i <= s.len(),
        forall|j: int| i <= j < s.len() ==> in_class(cls, s[j]),
        i == 0 || !in_class(cls, s[i - 1]),
    ensures
        drop_trailing(cls, s) == s.take(i),
    decreases s.len() - i,
{
    if i == s.len() {
        assert(s.take(i) =~= s);
    } else {
        assert(in_class(cls, s.last()));
        let t = s.drop_last();
        lemma_drop_trailing_take(cls, t, i);
        assert(t.take(i) =~= s.take(i));
    }
}

/// A nonempty result of `drop_leading` never starts with a stripped character.
pub proof fn lemma_drop_leading_first(cls: CharClass, s: Seq<char>)
    ensures
        drop_leading(cls, s).len() > 0 ==> !in_class(cls, drop_leading(cls, s)[0]),
    decreases s.len(),
{
    if s.len() > 0 && in_class(cls, s[0]) {
        lemma_drop_leading_first(cls, s.drop_first());
    }
}

/// `drop_leading` keeps the last character of the sequence.
pub proof fn lemma_drop_leading_last(cls: CharClass, s: Seq<char>)
    ensures
        drop_leading(cls, s).len() > 0 ==> drop_leading(cls, s).last() == s.last(),
    decreases s.len(),
{
    if s.len() > 0 && in_class(cls, s[0]) {
        lemma_drop_leading_last(cls, s.drop_first());
    }
}

/// A nonempty result of `drop_trailing` never ends with a stripped character.
pub proof fn lemma_drop_trailing_last(cls: CharClass, s: Seq<char>)
    ensures
        drop_trailing(cls, s).len() > 0 ==> !in_class(cls, drop_trailing(cls, s).last()),
    decreases s.len(),
{
    if s.len() > 0 && in_class(cls, s.last()) {
        lemma_drop_trailing_last(cls, s.drop_last());
    }
}

/// Index just past the leading run of `cls` characters in `s[from..to]`.
pub fn scan_class_fwd(cls: CharClass, s: &str, from: usize, to: usize) -> (i: usize)
    requires
        from <= to <= s@.len(),
    ensures
        from <= i <= to,
        forall|j: int| from <= j < i ==> in_class(cls, s@[j]),
        i == to || !in_class(cls, s@[i as int]),
{
    let mut i = from;
    while i < to
        invariant
            from <= i <= to <= s@.len(),
            forall|j: int| from <= j < i ==> in_class(cls, s@[j]),
        decreases to - i,
    {
        let c = s.get_char(i);
        if !char_in_class(cls, c) {
            return i;
        }
        i = i + 1;
    }
    i
}

/// Index at the start of the trailing run of `cls` characters in `s[from..to]`.
pub fn scan_class_back(cls: CharClass, s: &str, from: usize, to: usize) -> (i: usize)
    requires
        from <= to <= s@.len(),
    ensures
        from <= i <= to,
        forall|j: int| i <= j < to ==> in_class(cls, s@[j]),
        i == from || !in_class(cls, s@[i - 1]),
{
    let mut i = to;
    while i > from
        invariant
            from <= i <= to <= s@.len(),
            forall|j: int| i <= j < to ==> in_class(cls, s@[j]),
        decreases i,
    {
        let c = s.get_char(i - 1);
        if !char_in_class(cls, c) {
            return i;
        }
        i = i - 1;
    }
    i
}

/// Bounds of the white-space-trimmed region of `s`.
pub fn trim_bounds(s: &str) -> (r: (usize, usize))
    ensures
        0 <= r.0 <= r.1 <= s@.len(),
        trim(s@) == s@.subrange(r.0 as int, r.1 as int),
{
    let len = s.unicode_len();
    let a = scan_class_fwd(CharClass::Space, s, 0, len);
    let b = scan_class_back(CharClass::Space, s, a, len);
    proof {
        lemma_drop_leading_skip(CharClass::Space, s@, a as int);
        let t = s@.skip(a as int);
        assert(forall|j: int| b - a <= j < t.len() ==> in_class(CharClass::Space, t[j]));
        if b > a {
            assert(!in_class(CharClass::Space, t[b - a - 1]));
        }
        lemma_drop_trailing_take(CharClass::Space, t, b - a);
        assert(t.take(b - a) =~= s@.subrange(a as int, b as int));
    }
    (a, b)
}

/// ASCII lowercasing of a single character; every other character is kept.
pub open spec fn lower(c: char) -> char {
    if c == 'A' {
        'a'
    } else if c == 'B' {
        'b'
    } else if c == 'C' {
        'c'
    } else if c == 'D' {
        'd'
    } else if c == 'E' {
        'e'
    } else if c == 'F' {
        'f'
    } else if c == 'G' {
        'g'
    } else if c == 'H' {
        'h'
    } else if c == 'I' {
        'i'
    } else if c == 'J' {
        'j'
    } else if c == 'K' {
        'k'
    } else if c == 'L' {
        'l'
    } else if c == 'M' {
        'm'
    } else if c == 'N' {
        'n'
    } else if c == 'O' {
        'o'
    } else if c == 'P' {
        'p'
    } else if c == 'Q' {
        'q'
    } else if c == 'R' {
        'r'
    } else if c == 'S' {
        's'
    } else if c == 'T' {
        't'
    } else if c == 'U' {
        'u'
    } else if c == 'V' {
        'v'
    } else if c == 'W' {
        'w'
    } else if c == 'X' {
        'x'
    } else if c == 'Y' {
        'y'
    } else if c == 'Z' {
        'z'
    } else {
        c
    }
}

pub open spec fn map_lower(s: Seq<char>) -> Seq<char> {
    s.map_values(|c: char| lower(c))
}

pub fn lower_char(c: char) -> (r: char)
    ensures
        r == lower(c),
{
    match c {
        'A' => 'a',
        'B' => 'b',
        'C' => 'c',
        'D' => 'd',
        'E' => 'e',
        'F' => 'f',
        'G' => 'g',
        'H' => 'h',
        'I' => 'i',
        'J' => 'j',
        'K' => 'k',
        'L' => 'l',
        'M' => 'm',
        'N' => 'n',
        'O' => 'o',
        'P' => 'p',
        'Q' => 'q',
        'R' => 'r',
        'S' => 's',
        'T' => 't',
        'U' => 'u',
        'V' => 'v',
        'W' => 'w',
        'X' => 'x',
        'Y' => 'y',
        'Z' => 'z',
        _ => c,
    }
}

/// Relies on `String::push` from std: it appends exactly one character at
/// the end of the string and changes nothing else.
pub assume_specification[ String::push ](s: &mut String, c: char)
    ensures
        final(s)@ == old(s)@.push(c),
;

pub open spec fn digit_char(d: int) -> char {
    if d == 0 {
        '0'
    } else if d == 1 {
        '1'
    } else if d == 2 {
        '2'
    } else if d == 3 {
        '3'
    } else if d == 4 {
        '4'
    } else if d == 5 {
        '5'
    } else if d == 6 {
        '6'
    } else if d == 7 {
        '7'
    } else if d == 8 {
        '8'
    } else {
        '9'
    }
}

/// Decimal digits of a nonnegative integer, most significant first.
pub open spec fn dec_digits(n: int) -> Seq<char>
    decreases n,
{
    if n < 10 {
        seq![digit_char(n)]
    } else {
        dec_digits(n / 10).push(digit_char(n % 10))
    }
}

fn digit_char_u64(d: u64) -> (c: char)
    requires
        d < 10,
    ensures
        c == digit_char(d as int),
{
    if d == 0 {
        '0'
    } else if d == 1 {
        '1'
    } else if d == 2 {
        '2'
    } else if d == 3 {
        '3'
    } else if d == 4 {
        '4'
    } else if d == 5 {
        '5'
    } else if d == 6 {
        '6'
    } else if d == 7 {
        '7'
    } else if d == 8 {
        '8'
    } else {
        '9'
    }
}

/// Appends the decimal rendering of `n` to `out`.
pub fn push_dec_u64(out: &mut String, n: u64)
    ensures
        final(out)@ == old(out)@ + dec_digits(n as int),
    decreases n,
{
    if n < 10 {
        let c = digit_char_u64(n);
        out.push(c);
        assert(out@ =~= old(out)@ + dec_digits(n as int));
    } else {
        push_dec_u64(out, n / 10);
        let c = digit_char_u64(n % 10);
        out.push(c);
        assert(out@ =~= old(out)@ + dec_digits(n as int));
    }
}

} // verus!
