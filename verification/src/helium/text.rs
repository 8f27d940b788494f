//! Characters, words and numerals: the small verified utilities the lexer,
//! the parser and the diagnostics are built on.

use vstd::prelude::*;

verus! {

// ---------------------------------------------------------------------------
// Character classes (the source format is ASCII text).
// ---------------------------------------------------------------------------

/// Whitespace, newline included.
pub open spec fn is_space_char(c: char) -> bool {
    c == ' ' || c == '\t' || c == '\n' || c == '\r' || c == '\u{b}' || c == '\u{c}'
}

pub open spec fn is_digit_char(c: char) -> bool {
    '0' <= c && c <= '9'
}

/// The characters a word (identifier, mnemonic, numeral, label) may consist of.
pub open spec fn is_word_char(c: char) -> bool {
    ('a' <= c && c <= 'z') || ('A' <= c && c <= 'Z') || is_digit_char(c) || c == '_' || c == ':'
}

pub fn space_char(c: char) -> (r: bool)
    ensures
        r == is_space_char(c),
{
    c == ' ' || c == '\t' || c == '\n' || c == '\r' || c == '\u{b}' || c == '\u{c}'
}

pub fn digit_char(c: char) -> (r: bool)
    ensures
        r == is_digit_char(c),
{
    '0' <= c && c <= '9'
}

pub fn word_char(c: char) -> (r: bool)
    ensures
        r == is_word_char(c),
{
    ('a' <= c && c <= 'z') || ('A' <= c && c <= 'Z') || ('0' <= c && c <= '9') || c == '_'
        || c == ':'
}

// ---------------------------------------------------------------------------
// String equality and lexicographic order.
// ---------------------------------------------------------------------------

pub fn str_eq(a: &str, b: &str) -> (r: bool)
    ensures
        r == (a@ == b@),
{
    let na = a.unicode_len();
    let nb = b.unicode_len();
    if na != nb {
        return false;
    }
    let mut i: usize = 0;
    while i < na
        invariant
            na == a@.len(),
            na == b@.len(),
            i <= na,
            forall|k: int| 0 <= k < i ==> a@[k] == b@[k],
        decreases na - i,
    {
        if a.get_char(i) != b.get_char(i) {
            return false;
        }
        i += 1;
    }
    proof {
        assert(a@ =~= b@);
    }
    true
}

/// Strict lexicographic order on character sequences, by code point. It agrees
/// with the standard ordering of strings.
pub open spec fn lex_lt(a: Seq<char>, b: Seq<char>) -> bool
    decreases a.len(),
{
    if b.len() == 0 {
        false
    } else if a.len() == 0 {
        true
    } else if a[0] < b[0] {
        true
    } else if b[0] < a[0] {
        false
    } else {
        lex_lt(a.drop_first(), b.drop_first())
    }
}

/// Of two sequences, exactly one of `lex_lt(a, b)`, `lex_lt(b, a)`, `a == b` holds.
pub proof fn lemma_lex_lt_trichotomy(a: Seq<char>, b: Seq<char>)
    ensures
        lex_lt(a, b) || lex_lt(b, a) || a == b,
        lex_lt(a, b) ==> !lex_lt(b, a) && a != b,
        lex_lt(b, a) ==> !lex_lt(a, b) && a != b,
    decreases a.len(),
{
    if b.len() == 0 || a.len() == 0 {
        if a.len() == 0 && b.len() == 0 {
            assert(a =~= b);
        }
    } else if a[0] < b[0] || b[0] < a[0] {
        assert(a[0] != b[0]);
    } else {
        assert(a[0] == b[0]);
        lemma_lex_lt_trichotomy(a.drop_first(), b.drop_first());
        let adf = a.drop_first();
        let bdf = b.drop_first();
        if adf == bdf {
            assert(a.len() == adf.len() + 1);
            assert(b.len() == bdf.len() + 1);
            assert forall|i: int| 0 <= i < a.len() implies a[i] == b[i] by {
                if i >= 1 {
                    assert(a[i] == adf[i - 1]);
                    assert(b[i] == bdf[i - 1]);
                }
            }
            assert(a =~= b);
        }
        if a == b {
            assert(a.drop_first() =~= b.drop_first());
        }
    }
}

pub proof fn lemma_lex_lt_trans(a: Seq<char>, b: Seq<char>, c: Seq<char>)
    requires
        lex_lt(a, b),
        lex_lt(b, c),
    ensures
        lex_lt(a, c),
    decreases a.len(),
{
    if a.len() == 0 {
        assert(b.len() > 0);
        assert(c.len() > 0);
    } else {
        assert(b.len() > 0 && c.len() > 0);
        if a[0] < b[0] {
        } else {
            assert(a[0] == b[0]);
            if b[0] < c[0] {
            } else {
                assert(b[0] == c[0]);
                lemma_lex_lt_trans(a.drop_first(), b.drop_first(), c.drop_first());
            }
        }
    }
}

pub fn str_lt(a: &str, b: &str) -> (r: bool)
    ensures
        r == lex_lt(a@, b@),
{
    let na = a.unicode_len();
    let nb = b.unicode_len();
    let mut i: usize = 0;
    proof {
        assert(a@.skip(0) =~= a@);
        assert(b@.skip(0) =~= b@);
    }
    loop
        invariant
            na == a@.len(),
            nb == b@.len(),
            i <= na,
            i <= nb,
            forall|k: int| 0 <= k < i ==> a@[k] == b@[k],
            lex_lt(a@, b@) == lex_lt(a@.skip(i as int), b@.skip(i as int)),
        decreases na - i,
    {
        proof {
            lemma_lex_lt_skip_step(a@, b@, i as int);
        }
        if i >= nb {
            return false;
        }
        if i >= na {
            return true;
        }
        let ca = a.get_char(i);
        let cb = b.get_char(i);
        if ca < cb {
            return true;
        }
        if cb < ca {
            return false;
        }
        i += 1;
    }
}

/// One unfolding step: once the first `i` characters agree, the order is
/// decided by the tails.
proof fn lemma_lex_lt_skip_step(a: Seq<char>, b: Seq<char>, i: int)
    requires
        0 <= i <= a.len(),
        0 <= i <= b.len(),
        forall|k: int| 0 <= k < i ==> a[k] == b[k],
    ensures
        i < a.len() && i < b.len() && a[i] == b[i] ==> lex_lt(a.skip(i), b.skip(i)) == lex_lt(
            a.skip(i + 1),
            b.skip(i + 1),
        ),
        i >= b.len() ==> !lex_lt(a.skip(i), b.skip(i)),
        i >= a.len() && i < b.len() ==> lex_lt(a.skip(i), b.skip(i)),
        i < a.len() && i < b.len() && a[i] < b[i] ==> lex_lt(a.skip(i), b.skip(i)),
        i < a.len() && i < b.len() && b[i] < a[i] ==> !lex_lt(a.skip(i), b.skip(i)),
{
    if i < a.len() && i < b.len() {
        assert(a.skip(i).drop_first() =~= a.skip(i + 1));
        assert(b.skip(i).drop_first() =~= b.skip(i + 1));
    }
}

// ---------------------------------------------------------------------------
// Numerals: reading a 16-bit word in decimal, hexadecimal or binary.
// ---------------------------------------------------------------------------

/// The value of one digit under `radix`, if it is a digit of that base.
pub open spec fn spec_digit_val(c: char, radix: int) -> Option<int> {
    let v: int = if '0' <= c && c <= '9' {
        c as int - '0' as int
    } else if 'a' <= c && c <= 'f' {
        c as int - 'a' as int + 10
    } else if 'A' <= c && c <= 'F' {
        c as int - 'A' as int + 10
    } else {
        -1
    };
    if 0 <= v < radix {
        Some(v)
    } else {
        None
    }
}

/// The value of a run of digits read left to right, underscores skipped.
/// `acc` is the value read so far; `None` until a first digit is seen, so a
/// run with no digit at all has no value.
pub open spec fn spec_digits_val(s: Seq<char>, radix: int, acc: Option<int>) -> Option<int>
    decreases s.len(),
{
    if s.len() == 0 {
        acc
    } else if s[0] == '_' {
        spec_digits_val(s.drop_first(), radix, acc)
    } else {
        match spec_digit_val(s[0], radix) {
            Option::None => Option::None,
            Option::Some(d) => {
                let sofar: int = match acc {
                    Option::None => 0,
                    Option::Some(v) => v,
                };
                spec_digits_val(s.drop_first(), radix, Option::Some(sofar * radix + d))
            },
        }
    }
}

/// A digit run's value never falls below the value already accumulated.
proof fn lemma_digits_val_lower_bound(s: Seq<char>, radix: int, a: int)
    requires
        radix >= 2,
        a >= 0,
    ensures
        spec_digits_val(s, radix, Option::Some(a)) matches Option::Some(v) ==> v >= a,
    decreases s.len(),
{
    if s.len() > 0 {
        if s[0] == '_' {
            lemma_digits_val_lower_bound(s.drop_first(), radix, a);
        } else {
            match spec_digit_val(s[0], radix) {
                Option::None => {},
                Option::Some(d) => {
                    assert(a * radix >= a) by (nonlinear_arith)
                        requires
                            a >= 0,
                            radix >= 2,
                    ;
                    lemma_digits_val_lower_bound(s.drop_first(), radix, a * radix + d);
                },
            }
        }
    }
}

/// How the assembler reads an integer word: a `0x` prefix means hexadecimal, a
/// `0b` prefix binary, anything else decimal; underscores separate digits; the
/// value must fit a 16-bit word. A leading `-` (handled before this, in the
/// lexer) negates the parsed value by the two's-complement rule, whatever the
/// base.
pub open spec fn spec_parse_int(w: Seq<char>, negative: bool) -> Option<u16> {
    let raw = if w.len() >= 2 && w[0] == '0' && w[1] == 'x' {
        spec_cap16(spec_digits_val(w.skip(2), 16, Option::None))
    } else if w.len() >= 2 && w[0] == '0' && w[1] == 'b' {
        spec_cap16(spec_digits_val(w.skip(2), 2, Option::None))
    } else {
        spec_cap16(spec_digits_val(w, 10, Option::None))
    };
    match raw {
        Option::None => Option::None,
        Option::Some(v) => Option::Some(
            if negative {
                spec_neg16(v)
            } else {
                v
            },
        ),
    }
}

pub open spec fn spec_cap16(v: Option<int>) -> Option<u16> {
    match v {
        Option::None => Option::None,
        Option::Some(n) => if 0 <= n <= 0xFFFF {
            Option::Some(n as u16)
        } else {
            Option::None
        },
    }
}

/// Two's-complement negation of a 16-bit word: `!v + 1`, wrapping.
pub open spec fn spec_neg16(v: u16) -> u16 {
    ((0x10000 - v as int) % 0x10000) as u16
}

pub fn neg16(v: u16) -> (r: u16)
    ensures
        r == spec_neg16(v),
{
    if v == 0 {
        0
    } else {
        let x = !v;
        proof {
            assert(x == 0xFFFF - v) by (bit_vector)
                requires
                    x == !v,
            ;
        }
        x + 1
    }
}

/// Negating twice by the two's-complement rule gives the word back: for every
/// 16-bit value `v`, `!(!v + 1) + 1 == v` modulo 2^16.
pub proof fn lemma_neg16_involution(v: u16)
    ensures
        spec_neg16(spec_neg16(v)) == v,
{
}

fn digit_val(c: char, radix: u32) -> (r: Option<u16>)
    requires
        radix == 2 || radix == 10 || radix == 16,
    ensures
        match r {
            Option::Some(d) => spec_digit_val(c, radix as int) == Option::Some(d as int),
            Option::None => spec_digit_val(c, radix as int) == Option::<int>::None,
        },
{
    let u = c as u32;
    let v: u32 = if '0' <= c && c <= '9' {
        u - 48
    } else if 'a' <= c && c <= 'f' {
        u - 97 + 10
    } else if 'A' <= c && c <= 'F' {
        u - 65 + 10
    } else {
        return Option::None;
    };
    if v < radix {
        Option::Some(v as u16)
    } else {
        Option::None
    }
}

/// Reads the digit run `w[from..]` under `radix` into a 16-bit word,
/// underscores skipped; `None` on an alien character, on overflow, or when no
/// digit is there at all.
fn parse_digits(w: &str, from: usize, radix: u32) -> (r: Option<u16>)
    requires
        radix == 2 || radix == 10 || radix == 16,
        from <= w@.len(),
    ensures
        match r {
            Option::Some(v) => spec_cap16(spec_digits_val(w@.skip(from as int), radix as int, Option::None))
                == Option::Some(v),
            Option::None => spec_cap16(spec_digits_val(w@.skip(from as int), radix as int, Option::None))
                == Option::<u16>::None,
        },
{
    let n = w.unicode_len();
    let mut i: usize = from;
    let mut acc: u32 = 0;
    let mut seen: bool = false;
    loop
        invariant
            radix == 2 || radix == 10 || radix == 16,
            from <= i <= n,
            n == w@.len(),
            acc <= 0xFFFF,
            !seen ==> acc == 0,
            spec_digits_val(w@.skip(from as int), radix as int, Option::None) == spec_digits_val(
                w@.skip(i as int),
                radix as int,
                if seen {
                    Option::Some(acc as int)
                } else {
                    Option::None
                },
            ),
        decreases n - i,
    {
        proof {
            if i < n {
                assert(w@.skip(i as int).drop_first() =~= w@.skip(i as int + 1));
            }
            assert(w@.skip(i as int).len() == n - i);
            if i < n {
                assert(w@.skip(i as int)[0] == w@[i as int]);
            }
        }
        if i >= n {
            if seen {
                return Option::Some(acc as u16);
            } else {
                return Option::None;
            }
        }
        let c = w.get_char(i);
        if c == '_' {
            i += 1;
            continue;
        }
        match digit_val(c, radix) {
            Option::None => {
                return Option::None;
            },
            Option::Some(d) => {
                let next: u32 = acc * radix + d as u32;
                if next > 0xFFFF {
                    proof {
                        lemma_digits_val_lower_bound(
                            w@.skip(i as int + 1),
                            radix as int,
                            acc as int * radix as int + d as int,
                        );
                    }
                    return Option::None;
                }
                acc = next;
                seen = true;
                i += 1;
            },
        }
    }
}

/// Reads an integer word as the lexer sees it, exactly as `spec_parse_int`
/// says: `0x` and `0b` prefixes, underscore separators, 16-bit range, the
/// two's-complement rule under a leading `-`, in every base.
pub fn parse_int(w: &str, negative: bool) -> (r: Option<u16>)
    ensures
        r == spec_parse_int(w@, negative),
{
    let n = w.unicode_len();
    let raw = if n >= 2 && w.get_char(0) == '0' && w.get_char(1) == 'x' {
        parse_digits(w, 2, 16)
    } else if n >= 2 && w.get_char(0) == '0' && w.get_char(1) == 'b' {
        parse_digits(w, 2, 2)
    } else {
        proof {
            assert(w@.skip(0) =~= w@);
        }
        parse_digits(w, 0, 10)
    };
    match raw {
        Option::None => Option::None,
        Option::Some(v) => {
            if negative {
                Option::Some(neg16(v))
            } else {
                Option::Some(v)
            }
        },
    }
}

// ---------------------------------------------------------------------------
// Numerals: writing a number back out, for messages and synthetic names.
// ---------------------------------------------------------------------------

pub open spec fn spec_digit_char(d: int) -> char {
    if d == 0 {
        '0'
    } else if d == 1 {
        '1'
    } else if d == 2 {
        '2'
    } else if d == 3 {
        '3'
    } else if d == 4 {
        '4'
    } else if d == 5 {
        '5'
    } else if d == 6 {
        '6'
    } else if d == 7 {
        '7'
    } else if d == 8 {
        '8'
    } else {
        '9'
    }
}

/// The decimal numeral of `n`, most significant digit first.
pub open spec fn spec_decimal(n: int) -> Seq<char>
    decreases n,
{
    if n < 10 {
        seq![spec_digit_char(n)]
    } else {
        spec_decimal(n / 10).push(spec_digit_char(n % 10))
    }
}

fn digit_str(d: u64) -> (r: &'static str)
    requires
        d < 10,
    ensures
        r@ =~= seq![spec_digit_char(d as int)],
{
    proof {
        reveal_strlit("0");
        reveal_strlit("1");
        reveal_strlit("2");
        reveal_strlit("3");
        reveal_strlit("4");
        reveal_strlit("5");
        reveal_strlit("6");
        reveal_strlit("7");
        reveal_strlit("8");
        reveal_strlit("9");
    }
    if d == 0 {
        "0"
    } else if d == 1 {
        "1"
    } else if d == 2 {
        "2"
    } else if d == 3 {
        "3"
    } else if d == 4 {
        "4"
    } else if d == 5 {
        "5"
    } else if d == 6 {
        "6"
    } else if d == 7 {
        "7"
    } else if d == 8 {
        "8"
    } else {
        "9"
    }
}

/// Writes `n` in decimal.
pub fn u64_to_string(n: u64) -> (r: String)
    ensures
        r@ == spec_decimal(n as int),
    decreases n,
{
    if n < 10 {
        String::from_str(digit_str(n))
    } else {
        let mut s = u64_to_string(n / 10);
        s.append(digit_str(n % 10));
        proof {
            assert(s@ =~= spec_decimal(n as int));
        }
        s
    }
}

} // verus!
