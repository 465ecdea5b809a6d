//! Text as characters: the display width of a string, white space, and the conversions
//! between strings and lists of characters that the scanning code works on.
use unicode_width::UnicodeWidthStr;
use vstd::prelude::*;

verus! {

broadcast use vstd::string::axiom_spec_iter, vstd::string::next_postcondition;

/// A row of a terminal screen: the text it shows, and whether the line it belongs to goes on
/// in the next row.
#[derive(Debug, Clone)]
pub struct ScreenRow {
    pub text: String,
    pub wrapped: bool,
}

/// The rows of a screen as their characters and wrap flags.
pub open spec fn rows_view(rows: Seq<ScreenRow>) -> Seq<(Seq<char>, bool)> {
    rows.map_values(|r: ScreenRow| (r.text@, r.wrapped))
}

/// The number of terminal columns a string takes, as `unicode-width` measures it.
pub uninterp spec fn str_width(s: Seq<char>) -> usize;

/// The display width of `s`: `UnicodeWidthStr::width` of `unicode-width`. Its result is
/// named by [`str_width`], a function of the characters of `s` alone; the rules (East Asian
/// width, emoji and script ligatures) are left to the crate.
#[verifier::external_body]
pub(crate) fn display_width(s: &str) -> (r: usize)
    ensures
        r == str_width(s@),
{
    s.width()
}

/// The string made of the characters of `chars`: `String`'s `FromIterator<char>`.
#[verifier::external_body]
pub(crate) fn string_from_chars(chars: &[char]) -> (r: String)
    ensures
        r@ == chars@,
{
    chars.iter().collect()
}

/// The characters of a string, in order.
pub fn chars_of(s: &str) -> (r: Vec<char>)
    ensures
        r@ == s@,
{
    let mut r: Vec<char> = Vec::new();
    for c in it: s.chars()
        invariant
            r@ == it.seq().take(it.index() as int),
            it.seq() == s@,
    {
        proof {
            assert(it.seq().take(it.index() + 1) =~= it.seq().take(it.index() as int).push(c));
        }
        r.push(c);
    }
    r
}

/// Whether two strings hold the same characters.
pub fn same_text(a: &str, b: &str) -> (r: bool)
    ensures
        r == (a@ == b@),
{
    let x = chars_of(a);
    let y = chars_of(b);
    if x.len() != y.len() {
        return false;
    }
    let mut i: usize = 0;
    while i < x.len()
        invariant
            i <= x.len() == y.len(),
            x@ == a@,
            y@ == b@,
            forall|j: int| 0 <= j < i ==> x@[j] == y@[j],
        decreases x.len() - i,
    {
        if x[i] != y[i] {
            proof {
                assert(x@[i as int] != y@[i as int]);
            }
            return false;
        }
        i = i + 1;
    }
    proof {
        assert(x@ =~= y@);
    }
    true
}

/// Whether `c` has the Unicode `White_Space` property, as `char::is_whitespace` documents it.
pub open spec fn spec_is_whitespace(c: char) -> bool {
    ||| '\t' <= c <= '\r'
    ||| c == ' '
    ||| c == '\u{85}'
    ||| c == '\u{a0}'
    ||| c == '\u{1680}'
    ||| '\u{2000}' <= c <= '\u{200a}'
    ||| c == '\u{2028}'
    ||| c == '\u{2029}'
    ||| c == '\u{202f}'
    ||| c == '\u{205f}'
    ||| c == '\u{3000}'
}

/// Whether `c` is white space: the characters with the Unicode `White_Space` property.
pub fn is_whitespace(c: char) -> (r: bool)
    ensures
        r == spec_is_whitespace(c),
{
    ('\t' <= c && c <= '\r') || c == ' ' || c == '\u{85}' || c == '\u{a0}' || c == '\u{1680}' || ('\u{2000}'
        <= c && c <= '\u{200a}') || c == '\u{2028}' || c == '\u{2029}' || c == '\u{202f}' || c == '\u{205f}'
        || c == '\u{3000}'
}

/// The characters of `chars` from `start` up to `end`, as a string.
pub fn substring(chars: &Vec<char>, start: usize, end: usize) -> (r: String)
    requires
        start <= end <= chars.len(),
    ensures
        r@ == chars@.subrange(start as int, end as int),
{
    let mut part: Vec<char> = Vec::new();
    let mut i: usize = start;
    while i < end
        invariant
            start <= i <= end <= chars.len(),
            part@ == chars@.subrange(start as int, i as int),
        decreases end - i,
    {
        part.push(chars[i]);
        i = i + 1;
    }
    string_from_chars(part.as_slice())
}

/// Whether `p` occurs in `line` at `k`.
pub open spec fn occurs_at(line: Seq<char>, p: Seq<char>, k: int) -> bool {
    0 <= k && k + p.len() <= line.len() && line.subrange(k, k + p.len()) == p
}

/// The first position from `k` on where `p` occurs in `line`.
pub open spec fn find_from(line: Seq<char>, p: Seq<char>, k: nat) -> Option<nat>
    decreases line.len() + 1 - k,
{
    if k + p.len() > line.len() {
        None
    } else if occurs_at(line, p, k as int) {
        Some(k)
    } else {
        find_from(line, p, k + 1)
    }
}

/// A match found from `k` on lies from `k` on, inside the line.
pub proof fn lemma_find_from_bounds(line: Seq<char>, p: Seq<char>, k: nat)
    ensures
        find_from(line, p, k) matches Some(a) ==> k <= a && a + p.len() <= line.len() && occurs_at(line, p, a as int),
    decreases line.len() + 1 - k,
{
    if k + p.len() <= line.len() && !occurs_at(line, p, k as int) {
        lemma_find_from_bounds(line, p, k + 1);
    }
}

/// Whether `p` occurs in `chars` at `k`.
pub fn occurs_at_exec(chars: &Vec<char>, p: &Vec<char>, k: usize) -> (r: bool)
    requires
        k + p.len() <= chars.len(),
    ensures
        r == occurs_at(chars@, p@, k as int),
{
    let mut j: usize = 0;
    while j < p.len()
        invariant
            j <= p.len(),
            k + p.len() <= chars.len(),
            forall|i: int| 0 <= i < j ==> chars@[k + i] == p@[i],
        decreases p.len() - j,
    {
        if chars[k + j] != p[j] {
            proof {
                assert(chars@.subrange(k as int, k + p.len())[j as int] != p@[j as int]);
            }
            return false;
        }
        j = j + 1;
    }
    proof {
        assert(chars@.subrange(k as int, k + p.len()) =~= p@);
    }
    true
}

/// The first position from `start` on where `p` occurs in `chars`.
pub fn find_from_exec(chars: &Vec<char>, p: &Vec<char>, start: usize) -> (r: Option<usize>)
    ensures
        r matches Some(a) ==> find_from(chars@, p@, start as nat) == Some(a as nat),
        r is None ==> find_from(chars@, p@, start as nat) is None,
{
    let mut k: usize = start;
    while p.len() <= chars.len() && k <= chars.len() - p.len()
        invariant
            start <= k,
            find_from(chars@, p@, start as nat) == find_from(chars@, p@, k as nat),
        decreases chars.len() + 1 - k,
    {
        if occurs_at_exec(chars, p, k) {
            return Some(k);
        }
        proof {
            if p.len() == 0 {
                assert(chars@.subrange(k as int, k as int) =~= p@);
            }
        }
        k = k + 1;
    }
    None
}

/// The decimal digit that stands for `d`, below ten.
pub open spec fn digit_char(d: nat) -> char {
    if d == 0 { '0' } else if d == 1 { '1' } else if d == 2 { '2' } else if d == 3 { '3' } else if d == 4 {
        '4'
    } else if d == 5 { '5' } else if d == 6 { '6' } else if d == 7 { '7' } else if d == 8 { '8' } else { '9' }
}

/// `n` written in decimal, without leading zeros: the text `{}` formats an integer into.
pub open spec fn decimal_text(n: nat) -> Seq<char>
    decreases n,
{
    if n < 10 {
        seq![digit_char(n)]
    } else {
        decimal_text(n / 10).push(digit_char(n % 10))
    }
}

fn digit_of(d: u64) -> (r: char)
    requires
        d < 10,
    ensures
        r == digit_char(d as nat),
{
    match d {
        0 => '0',
        1 => '1',
        2 => '2',
        3 => '3',
        4 => '4',
        5 => '5',
        6 => '6',
        7 => '7',
        8 => '8',
        _ => '9',
    }
}

/// Appends `n` written in decimal to `out`.
pub fn push_decimal(n: u64, out: &mut Vec<char>)
    ensures
        final(out)@ == old(out)@ + decimal_text(n as nat),
    decreases n,
{
    if n >= 10 {
        push_decimal(n / 10, out);
    }
    let ghost before = out@;
    out.push(digit_of(n % 10));
    proof {
        if n < 10 {
            assert(out@ =~= old(out)@ + decimal_text(n as nat));
        } else {
            assert(before == old(out)@ + decimal_text((n / 10) as nat));
            assert(out@ =~= old(out)@ + decimal_text(n as nat));
        }
    }
}

/// `n` written in decimal, with a `-` before it when it is negative.
pub open spec fn signed_text(n: int) -> Seq<char> {
    if n < 0 {
        seq!['-'] + decimal_text((-n) as nat)
    } else {
        decimal_text(n as nat)
    }
}

/// Appends `n` written in decimal to `out`, with a `-` before it when it is negative.
pub fn push_signed(n: i64, out: &mut Vec<char>)
    ensures
        final(out)@ == old(out)@ + signed_text(n as int),
{
    if n < 0 {
        out.push('-');
        let m: u64 = if n == i64::MIN {
            9223372036854775808u64
        } else {
            (-n) as u64
        };
        let ghost mid = out@;
        push_decimal(m, out);
        assert(out@ =~= old(out)@ + signed_text(n as int));
    } else {
        push_decimal(n as u64, out);
    }
}

} // verus!
