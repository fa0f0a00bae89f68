//! Characters, words, line terminators and decimal columns: the vocabulary
//! shared by the four filters.

use vstd::prelude::*;
use vstd::string::StrSliceExecFns;
use vstd::string::StringExecFns;
use vstd::utf8::encode_utf8;

verus! {

/// Whether `c` has the Unicode `White_Space` property.
pub open spec fn is_whitespace(c: char) -> bool {
    ||| '\u{9}' <= c <= '\u{d}'
    ||| c == ' '
    ||| c == '\u{85}'
    ||| c == '\u{a0}'
    ||| c == '\u{1680}'
    ||| '\u{2000}' <= c <= '\u{200a}'
    ||| c == '\u{2028}'
    ||| c == '\u{2029}'
    ||| c == '\u{202f}'
    ||| c == '\u{205f}'
    ||| c == '\u{3000}'
}

/// Whether a word begins at position `i` of `text`: a character that is not
/// whitespace, at the start of the text or right after whitespace.
pub open spec fn is_word_start(text: Seq<char>, i: int) -> bool {
    &&& 0 <= i < text.len()
    &&& !is_whitespace(text[i])
    &&& (i == 0 || is_whitespace(text[i - 1]))
}

/// The number of words that begin among the first `n` characters of `text`.
pub open spec fn word_starts(text: Seq<char>, n: int) -> nat
    decreases n,
{
    if n <= 0 {
        0
    } else {
        word_starts(text, n - 1) + if is_word_start(text, n - 1) {
            1nat
        } else {
            0nat
        }
    }
}

/// The number of words in `text`, a word being a maximal run of characters
/// that are not whitespace.
pub open spec fn word_count(text: Seq<char>) -> nat {
    word_starts(text, text.len() as int)
}

/// The length of the terminator that ends `line`: 2 for a carriage return and
/// a line feed, 1 for a line feed alone, 0 where the line ends without one.
pub open spec fn terminator_len(line: Seq<char>) -> nat {
    let n = line.len() as int;
    if n >= 1 && line[n - 1] == '\n' {
        if n >= 2 && line[n - 2] == '\r' {
            2
        } else {
            1
        }
    } else {
        0
    }
}

/// `line` without its terminator.
pub open spec fn content(line: Seq<char>) -> Seq<char> {
    line.take(line.len() - terminator_len(line))
}

/// Whether `line` holds nothing but its terminator.
pub open spec fn is_blank(line: Seq<char>) -> bool {
    content(line).len() == 0
}

/// The decimal digit for `d`, which is below ten.
pub open spec fn digit(d: nat) -> char {
    if d == 0 {
        '0'
    } else if d == 1 {
        '1'
    } else if d == 2 {
        '2'
    } else if d == 3 {
        '3'
    } else if d == 4 {
        '4'
    } else if d == 5 {
        '5'
    } else if d == 6 {
        '6'
    } else if d == 7 {
        '7'
    } else if d == 8 {
        '8'
    } else {
        '9'
    }
}

/// `n` written in decimal, without sign or leading zeros.
pub open spec fn decimal(n: nat) -> Seq<char>
    decreases n,
{
    if n < 10 {
        seq![digit(n)]
    } else {
        decimal(n / 10).push(digit(n % 10))
    }
}

/// `count` spaces.
pub open spec fn spaces(count: nat) -> Seq<char> {
    Seq::new(count, |i: int| ' ')
}

/// `text` moved to the right edge of a field of `width` characters: spaces are
/// put in front of a shorter text, a longer one is left as it is.
pub open spec fn right_justified(text: Seq<char>, width: nat) -> Seq<char> {
    if text.len() >= width {
        text
    } else {
        spaces((width - text.len()) as nat) + text
    }
}

/// `n` in decimal at the right edge of a field of `width` characters.
pub open spec fn column(n: nat, width: nat) -> Seq<char> {
    right_justified(decimal(n), width)
}

/// `lines` one after the other.
pub open spec fn concat(lines: Seq<Seq<char>>) -> Seq<char>
    decreases lines.len(),
{
    if lines.len() == 0 {
        Seq::empty()
    } else {
        concat(lines.drop_last()) + lines.last()
    }
}

/// A text has at most as many characters as its UTF-8 encoding has bytes.
pub proof fn lemma_chars_fit_in_bytes(text: Seq<char>)
    ensures
        text.len() <= encode_utf8(text).len(),
    decreases text.len(),
{
    if text.len() > 0 {
        lemma_chars_fit_in_bytes(text.drop_first());
    }
}

/// A text has at most as many words as characters.
pub proof fn lemma_words_fit_in_chars(text: Seq<char>, n: int)
    requires
        0 <= n <= text.len(),
    ensures
        word_starts(text, n) <= n,
    decreases n,
{
    if n > 0 {
        lemma_words_fit_in_chars(text, n - 1);
    }
}

/// Lines with one in front, put together.
pub proof fn lemma_concat_first(first: Seq<char>, rest: Seq<Seq<char>>)
    ensures
        concat(seq![first] + rest) == first + concat(rest),
    decreases rest.len(),
{
    let all = seq![first] + rest;
    if rest.len() == 0 {
        assert(concat(all.drop_last()) =~= Seq::<char>::empty());
    } else {
        lemma_concat_first(first, rest.drop_last());
        assert(all.drop_last() =~= seq![first] + rest.drop_last());
    }
}

/// The words of two texts, one behind the other, where the first ends in
/// whitespace.
pub proof fn lemma_word_count_add(a: Seq<char>, b: Seq<char>)
    requires
        a.len() == 0 || is_whitespace(a.last()),
    ensures
        word_count(a + b) == word_count(a) + word_count(b),
{
    lemma_word_starts_add(a, b, b.len() as int);
    assert(word_starts(a + b, a.len() as int) == word_starts(a, a.len() as int)) by {
        lemma_word_starts_prefix(a + b, a, a.len() as int);
    }
}

/// The words that begin among the first characters of a text depend on
/// these characters alone.
proof fn lemma_word_starts_prefix(a: Seq<char>, b: Seq<char>, n: int)
    requires
        0 <= n <= a.len(),
        n <= b.len(),
        forall|i: int| 0 <= i < n ==> a[i] == b[i],
    ensures
        word_starts(a, n) == word_starts(b, n),
    decreases n,
{
    if n > 0 {
        lemma_word_starts_prefix(a, b, n - 1);
    }
}

/// The words that begin in the second of two texts, one behind the other.
proof fn lemma_word_starts_add(a: Seq<char>, b: Seq<char>, n: int)
    requires
        a.len() == 0 || is_whitespace(a.last()),
        0 <= n <= b.len(),
    ensures
        word_starts(a + b, a.len() + n) == word_starts(a + b, a.len() as int) + word_starts(b, n),
    decreases n,
{
    if n > 0 {
        lemma_word_starts_add(a, b, n - 1);
    }
}

/// Whether `c` has the Unicode `White_Space` property.
pub fn char_is_whitespace(c: char) -> (b: bool)
    ensures
        b == is_whitespace(c),
{
    ('\u{9}' <= c && c <= '\u{d}') || c == ' ' || c == '\u{85}' || c == '\u{a0}' || c == '\u{1680}'
        || ('\u{2000}' <= c && c <= '\u{200a}') || c == '\u{2028}' || c == '\u{2029}' || c
        == '\u{202f}' || c == '\u{205f}' || c == '\u{3000}'
}

/// What one line adds to a count: its words, its characters and its bytes.
#[derive(Debug, PartialEq, Eq, Structural, Clone, Copy)]
pub struct Measure {
    /// How many words the line holds.
    pub words: usize,
    /// How many characters.
    pub chars: usize,
    /// How many bytes its UTF-8 encoding takes.
    pub bytes: usize,
}

/// Measures `line` in one pass over its characters.
pub fn measure(line: &str) -> (m: Measure)
    ensures
        m.words == word_count(line@),
        m.chars == line@.len(),
        m.bytes == encode_utf8(line@).len(),
        m.words <= m.chars <= m.bytes,
{
    let bytes: usize = line.as_bytes().len();
    let mut words: usize = 0;
    let mut chars: usize = 0;
    let mut after_space: bool = true;
    proof {
        lemma_chars_fit_in_bytes(line@);
    }
    for c in it: line.chars()
        invariant
            it.seq() == line@,
            chars == it.index(),
            line@.len() <= bytes,
            words == word_starts(line@, chars as int),
            words <= chars,
            after_space == (chars == 0 || is_whitespace(line@[chars - 1])),
    {
        let space = char_is_whitespace(c);
        if !space && after_space {
            words = words + 1;
        }
        after_space = space;
        chars = chars + 1;
    }
    Measure { words, chars, bytes }
}

/// Whether `line` holds nothing but its terminator.
pub fn line_is_blank(line: &str) -> (b: bool)
    ensures
        b == is_blank(line@),
{
    let n: usize = line.unicode_len();
    if n == 0 {
        true
    } else if n == 1 {
        line.get_char(0) == '\n'
    } else if n == 2 {
        line.get_char(0) == '\r' && line.get_char(1) == '\n'
    } else {
        false
    }
}

/// `line` without its terminator.
pub fn line_content<'a>(line: &'a str) -> (text: &'a str)
    ensures
        text@ == content(line@),
{
    let n: usize = line.unicode_len();
    if n >= 1 && line.get_char(n - 1) == '\n' {
        if n >= 2 && line.get_char(n - 2) == '\r' {
            line.substring_char(0, n - 2)
        } else {
            line.substring_char(0, n - 1)
        }
    } else {
        line
    }
}

/// Whether two lines agree once their terminators are set aside.
pub fn same_content(a: &str, b: &str) -> (same: bool)
    ensures
        same == (content(a@) == content(b@)),
{
    let x = line_content(a);
    let y = line_content(b);
    let xs = x.to_owned();
    let ys = y.to_owned();
    xs == ys
}

/// The one-character text of the decimal digit `d`.
fn digit_text(d: u8) -> (text: &'static str)
    requires
        d < 10,
    ensures
        text@ == seq![digit(d as nat)],
{
    proof {
        reveal_strlit("0");
        reveal_strlit("1");
        reveal_strlit("2");
        reveal_strlit("3");
        reveal_strlit("4");
        reveal_strlit("5");
        reveal_strlit("6");
        reveal_strlit("7");
        reveal_strlit("8");
        reveal_strlit("9");
    }
    let text = if d == 0 {
        "0"
    } else if d == 1 {
        "1"
    } else if d == 2 {
        "2"
    } else if d == 3 {
        "3"
    } else if d == 4 {
        "4"
    } else if d == 5 {
        "5"
    } else if d == 6 {
        "6"
    } else if d == 7 {
        "7"
    } else if d == 8 {
        "8"
    } else {
        "9"
    };
    text
}

/// The digits of `n` as the loop below collects them: lowest first.
spec fn digits_reversed(digits: Seq<u8>) -> Seq<char> {
    Seq::new(digits.len(), |i: int| digit(digits[digits.len() - 1 - i] as nat))
}

/// Appends `n`, in decimal at the right edge of a field of `width` characters,
/// to `out`.
pub fn push_column(out: &mut String, n: usize, width: usize)
    ensures
        final(out)@ == old(out)@ + column(n as nat, width as nat),
{
    let mut digits: Vec<u8> = Vec::new();
    let mut rest: usize = n;
    loop
        invariant_except_break
            decimal(n as nat) == decimal(rest as nat) + digits_reversed(digits@),
            forall|i: int| 0 <= i < digits.len() ==> digits[i] < 10,
        ensures
            decimal(n as nat) == digits_reversed(digits@),
            forall|i: int| 0 <= i < digits.len() ==> digits[i] < 10,
            digits.len() >= 1,
        decreases rest,
    {
        let d: u8 = (rest % 10) as u8;
        digits.push(d);
        if rest < 10 {
            break ;
        }
        rest = rest / 10;
    }
    let count: usize = digits.len();
    let ghost start = out@;
    let ghost text = decimal(n as nat);
    let mut pad: usize = 0;
    if count < width {
        while pad < width - count
            invariant
                count < width,
                pad <= width - count,
                out@ == start + spaces(pad as nat),
            decreases width - count - pad,
        {
            proof {
                reveal_strlit(" ");
            }
            out.append(" ");
            pad = pad + 1;
        }
    }
    let ghost padded = out@;
    let mut k: usize = count;
    while k > 0
        invariant
            k <= count,
            count == digits.len(),
            text == digits_reversed(digits@),
            forall|i: int| 0 <= i < digits.len() ==> digits[i] < 10,
            out@ == padded + text.take(count - k),
        decreases k,
    {
        k = k - 1;
        out.append(digit_text(digits[k]));
    }
}

} // verus!
