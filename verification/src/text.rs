//! Reading words typed by a player and writing numbers: the character-level
//! work behind the parsers and the card descriptions.
use vstd::prelude::*;

verus! {

/// Whether `c` has the Unicode `White_Space` property (what `char::is_whitespace`
/// and `str::trim` go by).
pub open spec fn is_white(c: char) -> bool {
    ||| c == '\t'
    ||| c == '\n'
    ||| c == '\u{0B}'
    ||| c == '\u{0C}'
    ||| c == '\r'
    ||| c == ' '
    ||| c == '\u{85}'
    ||| c == '\u{A0}'
    ||| c == '\u{1680}'
    ||| ('\u{2000}' <= c && c <= '\u{200A}')
    ||| c == '\u{2028}'
    ||| c == '\u{2029}'
    ||| c == '\u{202F}'
    ||| c == '\u{205F}'
    ||| c == '\u{3000}'
}

/// `s` without its leading white space.
pub open spec fn trim_start(s: Seq<char>) -> Seq<char>
    decreases s.len(),
{
    if s.len() > 0 && is_white(s[0]) {
        trim_start(s.drop_first())
    } else {
        s
    }
}

/// `s` without its trailing white space.
pub open spec fn trim_end(s: Seq<char>) -> Seq<char>
    decreases s.len(),
{
    if s.len() > 0 && is_white(s.last()) {
        trim_end(s.drop_last())
    } else {
        s
    }
}

/// `s` without leading and trailing white space, as `str::trim` gives it.
pub open spec fn trim(s: Seq<char>) -> Seq<char> {
    trim_end(trim_start(s))
}

/// The ASCII lower-case form of `c`: `A`..`Z` become `a`..`z`, every other
/// character stays as it is.
pub open spec fn ascii_lower(c: char) -> char {
    if 'A' <= c && c <= 'Z' {
        ((c as u32) + 32) as char
    } else {
        c
    }
}

/// Whether `t` lower-cases to the word `w`, a word of lower-case ASCII letters
/// and digits. For such a word this is what `t.to_lowercase() == w` decides:
/// apart from `A`..`Z`, the only character whose Unicode lower case is an ASCII
/// letter is the Kelvin sign, which lower-cases to `k`, a letter that none of
/// the words of the game holds.
pub open spec fn word_match(t: Seq<char>, w: Seq<char>) -> bool {
    &&& t.len() == w.len()
    &&& forall|i: int| 0 <= i < t.len() ==> #[trigger] ascii_lower(t[i]) == w[i]
}

/// The decimal digit `d` (0 to 9) as a character.
pub open spec fn digit_char(d: nat) -> char {
    if d == 0 {
        '0'
    } else if d == 1 {
        '1'
    } else if d == 2 {
        '2'
    } else if d == 3 {
        '3'
    } else if d == 4 {
        '4'
    } else if d == 5 {
        '5'
    } else if d == 6 {
        '6'
    } else if d == 7 {
        '7'
    } else if d == 8 {
        '8'
    } else {
        '9'
    }
}

/// The decimal representation of `n`, without leading zeros.
pub open spec fn decimal(n: nat) -> Seq<char>
    decreases n,
{
    if n < 10 {
        seq![digit_char(n)]
    } else {
        decimal(n / 10).push(digit_char(n % 10))
    }
}

/// The decimal representation of `n`, padded with zeros to at least two
/// digits (what `{:02}` writes).
pub open spec fn decimal_two(n: nat) -> Seq<char> {
    if n < 10 {
        seq!['0', digit_char(n)]
    } else {
        decimal(n)
    }
}

fn is_white_char(c: char) -> (b: bool)
    ensures
        b == is_white(c),
{
    c == '\t' || c == '\n' || c == '\u{0B}' || c == '\u{0C}' || c == '\r' || c == ' ' || c
        == '\u{85}' || c == '\u{A0}' || c == '\u{1680}' || ('\u{2000}' <= c && c <= '\u{200A}')
        || c == '\u{2028}' || c == '\u{2029}' || c == '\u{202F}' || c == '\u{205F}' || c
        == '\u{3000}'
}

proof fn lemma_trim_start_skip(s: Seq<char>, i: int)
    requires
        0 <= i <= s.len(),
        forall|j: int| 0 <= j < i ==> is_white(#[trigger] s[j]),
    ensures
        trim_start(s) == trim_start(s.subrange(i, s.len() as int)),
    decreases i,
{
    if i > 0 {
        assert(s.drop_first() =~= s.subrange(1, s.len() as int));
        lemma_trim_start_skip(s.drop_first(), i - 1);
        assert(s.drop_first().subrange(i - 1, s.drop_first().len() as int) =~= s.subrange(
            i,
            s.len() as int,
        ));
    } else {
        assert(s.subrange(0, s.len() as int) =~= s);
    }
}

proof fn lemma_trim_end_skip(s: Seq<char>, k: int)
    requires
        0 <= k <= s.len(),
        forall|j: int| k <= j < s.len() ==> is_white(#[trigger] s[j]),
    ensures
        trim_end(s) == trim_end(s.subrange(0, k)),
    decreases s.len() - k,
{
    if k < s.len() {
        assert(s.drop_last() =~= s.subrange(0, s.len() - 1));
        lemma_trim_end_skip(s.drop_last(), k);
        assert(s.drop_last().subrange(0, k) =~= s.subrange(0, k));
    } else {
        assert(s.subrange(0, k) =~= s);
    }
}

/// The bounds of `s` trimmed: the characters of `s` from `lo` up to `hi`.
pub fn trim_bounds(s: &str) -> (r: (usize, usize))
    ensures
        r.0 <= r.1 <= s@.len(),
        s@.subrange(r.0 as int, r.1 as int) == trim(s@),
{
    let n = s.unicode_len();
    let mut lo: usize = 0;
    while lo < n && is_white_char(s.get_char(lo))
        invariant
            n == s@.len(),
            lo <= n,
            forall|j: int| 0 <= j < lo ==> is_white(#[trigger] s@[j]),
        decreases n - lo,
    {
        lo = lo + 1;
    }
    proof {
        lemma_trim_start_skip(s@, lo as int);
        let rest = s@.subrange(lo as int, n as int);
        if rest.len() > 0 {
            assert(rest[0] == s@[lo as int]);
        }
        assert(trim_start(s@) == rest);
    }
    let mut hi: usize = n;
    while hi > lo && is_white_char(s.get_char(hi - 1))
        invariant
            n == s@.len(),
            lo <= hi <= n,
            forall|j: int| hi <= j < n ==> is_white(#[trigger] s@[j]),
        decreases hi,
    {
        hi = hi - 1;
    }
    proof {
        let rest = s@.subrange(lo as int, n as int);
        assert forall|j: int| hi - lo <= j < rest.len() implies is_white(#[trigger] rest[j]) by {
            assert(rest[j] == s@[lo + j]);
        }
        lemma_trim_end_skip(rest, hi - lo);
        let mid = rest.subrange(0, hi - lo);
        assert(mid =~= s@.subrange(lo as int, hi as int));
        if mid.len() > 0 {
            assert(mid.last() == s@[hi - 1]);
        }
    }
    (lo, hi)
}

/// Whether the characters of `s` from `lo` up to `hi` lower-case to the word `w`.
pub fn word_at(s: &str, lo: usize, hi: usize, w: &str) -> (b: bool)
    requires
        lo <= hi <= s@.len(),
    ensures
        b == word_match(s@.subrange(lo as int, hi as int), w@),
{
    let wn = w.unicode_len();
    if hi - lo != wn {
        return false;
    }
    let ghost t = s@.subrange(lo as int, hi as int);
    let mut i: usize = 0;
    while i < wn
        invariant
            wn == w@.len(),
            t.len() == wn,
            lo + wn == hi,
            hi <= s@.len(),
            t == s@.subrange(lo as int, hi as int),
            i <= wn,
            forall|j: int| 0 <= j < i ==> #[trigger] ascii_lower(t[j]) == w@[j],
        decreases wn - i,
    {
        let c = s.get_char(lo + i);
        let lc = if 'A' <= c && c <= 'Z' {
            lower_letter(c)
        } else {
            c
        };
        assert(t[i as int] == c);
        if lc != w.get_char(i) {
            return false;
        }
        i = i + 1;
    }
    true
}

fn lower_letter(c: char) -> (l: char)
    requires
        'A' <= c <= 'Z',
    ensures
        l == ascii_lower(c),
{
    let code = (c as u32) + 32;
    code as u8 as char
}


fn digit_str(d: u32) -> (s: &'static str)
    requires
        d < 10,
    ensures
        s@ == seq![digit_char(d as nat)],
{
    if d == 0 {
        proof {
            reveal_strlit("0");
        }
        "0"
    } else if d == 1 {
        proof {
            reveal_strlit("1");
        }
        "1"
    } else if d == 2 {
        proof {
            reveal_strlit("2");
        }
        "2"
    } else if d == 3 {
        proof {
            reveal_strlit("3");
        }
        "3"
    } else if d == 4 {
        proof {
            reveal_strlit("4");
        }
        "4"
    } else if d == 5 {
        proof {
            reveal_strlit("5");
        }
        "5"
    } else if d == 6 {
        proof {
            reveal_strlit("6");
        }
        "6"
    } else if d == 7 {
        proof {
            reveal_strlit("7");
        }
        "7"
    } else if d == 8 {
        proof {
            reveal_strlit("8");
        }
        "8"
    } else {
        proof {
            reveal_strlit("9");
        }
        "9"
    }
}

/// Appends the decimal representation of `n` to `out`.
pub fn push_decimal(out: &mut String, n: u32)
    ensures
        final(out)@ == old(out)@ + decimal(n as nat),
    decreases n,
{
    if n >= 10 {
        push_decimal(out, n / 10);
    }
    out.append(digit_str(n % 10));
    assert(decimal(n as nat) == if n < 10 {
        seq![digit_char(n as nat)]
    } else {
        decimal((n / 10) as nat).push(digit_char((n % 10) as nat))
    });
}

/// Appends `n` padded with zeros to two digits, as `{:02}` writes it.
pub fn push_decimal_two(out: &mut String, n: u32)
    ensures
        final(out)@ == old(out)@ + decimal_two(n as nat),
{
    if n < 10 {
        out.append(digit_str(0));
    }
    push_decimal(out, n);
    proof {
        if n < 10 {
            assert(decimal_two(n as nat) =~= seq!['0'] + decimal(n as nat));
        }
    }
}

/// Whether the characters of `s` from `lo` up to `hi` are exactly `w`.
pub fn text_at(s: &str, lo: usize, hi: usize, w: &str) -> (b: bool)
    requires
        lo <= hi <= s@.len(),
    ensures
        b == (s@.subrange(lo as int, hi as int) == w@),
{
    let wn = w.unicode_len();
    if hi - lo != wn {
        proof {
            assert(s@.subrange(lo as int, hi as int).len() != w@.len());
        }
        return false;
    }
    let ghost t = s@.subrange(lo as int, hi as int);
    let mut i: usize = 0;
    while i < wn
        invariant
            wn == w@.len(),
            t.len() == wn,
            lo + wn == hi,
            hi <= s@.len(),
            t == s@.subrange(lo as int, hi as int),
            i <= wn,
            forall|j: int| 0 <= j < i ==> #[trigger] t[j] == w@[j],
        decreases wn - i,
    {
        let c = s.get_char(lo + i);
        assert(t[i as int] == c);
        if c != w.get_char(i) {
            return false;
        }
        i = i + 1;
    }
    assert(t =~= w@);
    true
}

/// Whether `c` is an ASCII decimal digit.
pub open spec fn is_digit(c: char) -> bool {
    '0' <= c && c <= '9'
}

/// Whether every character of `s` is an ASCII decimal digit.
pub open spec fn all_digits(s: Seq<char>) -> bool {
    forall|i: int| 0 <= i < s.len() ==> is_digit(#[trigger] s[i])
}

/// The number that the decimal digits `s` write.
pub open spec fn digits_value(s: Seq<char>) -> nat
    decreases s.len(),
{
    if s.len() == 0 {
        0
    } else {
        digits_value(s.drop_last()) * 10 + ((s.last() as u32) - ('0' as u32)) as nat
    }
}

/// The number that a line of input names, as `str::trim` followed by
/// `usize::from_str` reads it: after trimming white space, an optional `+` and
/// then one or more ASCII digits, whose value fits in a `usize`.
pub open spec fn usize_of_text(t: Seq<char>) -> Option<nat> {
    let w = trim(t);
    let body = if w.len() > 0 && w[0] == '+' {
        w.drop_first()
    } else {
        w
    };
    if body.len() > 0 && all_digits(body) && digits_value(body) <= usize::MAX {
        Some(digits_value(body))
    } else {
        None
    }
}

proof fn lemma_digits_value_grows(s: Seq<char>, k: int)
    requires
        0 <= k <= s.len(),
        forall|i: int| 0 <= i < s.len() ==> is_digit(#[trigger] s[i]),
    ensures
        digits_value(s.take(k)) <= digits_value(s),
    decreases s.len() - k,
{
    if k < s.len() {
        assert(s.take(k + 1).drop_last() =~= s.take(k));
        assert(s.take(k + 1).last() == s[k]);
        lemma_digits_value_grows(s, k + 1);
    } else {
        assert(s.take(k) =~= s);
    }
}

/// Reads a number from a line of input (see `usize_of_text`).
pub fn parse_usize(s: &str) -> (r: Option<usize>)
    ensures
        r matches Some(v) ==> usize_of_text(s@) == Some(v as nat),
        r is None ==> usize_of_text(s@) is None,
{
    let (lo, hi) = trim_bounds(s);
    let ghost w = s@.subrange(lo as int, hi as int);
    let mut start = lo;
    if lo < hi && s.get_char(lo) == '+' {
        start = lo + 1;
    }
    let ghost body = s@.subrange(start as int, hi as int);
    proof {
        if lo < hi && w[0] == '+' {
            assert(body =~= w.drop_first());
        } else {
            assert(body =~= w);
        }
    }
    if start == hi {
        return None;
    }
    let mut value: usize = 0;
    let mut k: usize = start;
    while k < hi
        invariant
            start < hi,
            start <= k <= hi,
            hi <= s@.len(),
            body == s@.subrange(start as int, hi as int),
            w == trim(s@),
            body == if w.len() > 0 && w[0] == '+' {
                w.drop_first()
            } else {
                w
            },
            forall|i: int| 0 <= i < k - start ==> is_digit(#[trigger] body[i]),
            value == digits_value(body.take(k - start)),
        decreases hi - k,
    {
        let c = s.get_char(k);
        assert(body[k - start] == c);
        if !('0' <= c && c <= '9') {
            assert(!all_digits(body)) by {
                assert(!is_digit(body[k - start]));
            }
            return None;
        }
        let d = (c as u32) - ('0' as u32);
        let ghost prefix = body.take(k - start);
        proof {
            assert(body.take(k + 1 - start).drop_last() =~= prefix);
            assert(body.take(k + 1 - start).last() == c);
        }
        let next = match value.checked_mul(10) {
            Some(v10) => v10.checked_add(d as usize),
            None => None,
        };
        match next {
            Some(v) => {
                value = v;
            },
            None => {
                proof {
                    assert(digits_value(body.take(k + 1 - start)) == value * 10 + d);
                    assert(value * 10 + d > usize::MAX);
                    if all_digits(body) {
                        lemma_digits_value_grows(body, k + 1 - start);
                    }
                }
                return None;
            },
        }
        k = k + 1;
    }
    proof {
        assert(body.take(hi - start) =~= body);
    }
    Some(value)
}

} // verus!
