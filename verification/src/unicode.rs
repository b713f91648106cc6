//! Properties of characters as the standard library knows them.
use vstd::prelude::*;
use crate::text;

verus! {

/// The text has no character beyond ASCII.
pub open spec fn ascii(text: Seq<char>) -> bool {
    forall|i: int| 0 <= i < text.len() ==> ((#[trigger] text[i]) as u32) < 0x80
}

/// The lower-case form of an ASCII character.
pub open spec fn lowered_char(c: char) -> char {
    if 'A' <= c <= 'Z' {
        (c as u32 + 32) as char
    } else {
        c
    }
}

/// The upper-case form of an ASCII character.
pub open spec fn raised_char(c: char) -> char {
    if 'a' <= c <= 'z' {
        (c as u32 - 32) as char
    } else {
        c
    }
}

/// The upper-case form of an ASCII text.
pub open spec fn raised(text: Seq<char>) -> Seq<char> {
    Seq::new(text.len(), |i: int| raised_char(text[i]))
}

/// The lower-case form of a text beyond ASCII.
pub uninterp spec fn unicode_lowercase(text: Seq<char>) -> Seq<char>;

/// The lower-case form of a text.
pub open spec fn lowercase(text: Seq<char>) -> Seq<char> {
    if ascii(text) {
        Seq::new(text.len(), |i: int| lowered_char(text[i]))
    } else {
        unicode_lowercase(text)
    }
}

/// `str::to_lowercase`: the lower-case form of the text. Of ASCII text the capital letters become
/// the small ones and the rest stays; what becomes of other text is not said.
#[verifier::external_body]
pub(crate) fn to_lowercase(text: &str) -> (r: String)
    ensures
        ascii(text@) ==> r@ == lowercase(text@),
        !ascii(text@) ==> r@ == unicode_lowercase(text@),
{
    text.to_lowercase()
}

/// The character beyond ASCII is a letter or a number.
pub uninterp spec fn unicode_alphanumeric(c: char) -> bool;

/// The character is a letter or a number.
pub open spec fn alphanumeric(c: char) -> bool {
    if c as u32 >= 0x80 {
        unicode_alphanumeric(c)
    } else {
        'a' <= c <= 'z' || 'A' <= c <= 'Z' || '0' <= c <= '9'
    }
}

/// `char::is_alphanumeric`: whether the character is a letter or a number. In ASCII these are the
/// letters and the digits; which characters they are beyond it is not said.
#[verifier::external_body]
pub(crate) fn is_alphanumeric(c: char) -> (r: bool)
    ensures
        c as u32 >= 0x80 ==> r == unicode_alphanumeric(c),
        (c as u32) < 0x80 ==> r == alphanumeric(c),
{
    c.is_alphanumeric()
}

/// The character separates words: it has the Unicode property `White_Space`, which these
/// characters have and no others.
pub open spec fn whitespace(c: char) -> bool {
    let n = c as u32;
    ||| 0x9 <= n <= 0xd
    ||| n == 0x20 || n == 0x85 || n == 0xa0 || n == 0x1680
    ||| 0x2000 <= n <= 0x200a
    ||| n == 0x2028 || n == 0x2029 || n == 0x202f || n == 0x205f || n == 0x3000
}

/// Whether the character separates words.
pub fn is_whitespace(c: char) -> (r: bool)
    ensures
        r == whitespace(c),
{
    let n: u32 = c as u32;
    (0x9 <= n && n <= 0xd) || n == 0x20 || n == 0x85 || n == 0xa0 || n == 0x1680 || (0x2000 <= n
        && n <= 0x200a) || n == 0x2028 || n == 0x2029 || n == 0x202f || n == 0x205f || n == 0x3000
}

/// Without the white space at the beginning.
pub open spec fn stripped_left(s: Seq<char>) -> Seq<char>
    decreases s.len(),
{
    if s.len() > 0 && whitespace(s[0]) {
        stripped_left(s.skip(1))
    } else {
        s
    }
}

/// Without the white space at the end.
pub open spec fn stripped_right(s: Seq<char>) -> Seq<char>
    decreases s.len(),
{
    if s.len() > 0 && whitespace(s.last()) {
        stripped_right(s.drop_last())
    } else {
        s
    }
}

/// Without the white space around it.
pub open spec fn stripped(s: Seq<char>) -> Seq<char> {
    stripped_right(stripped_left(s))
}

/// The text without the white space around it.
pub fn trim<'a>(s: &'a str) -> (r: &'a str)
    ensures
        r@ == stripped(s@),
{
    let chars: Vec<char> = text::chars_of(s);
    let total: usize = chars.len();
    let mut from: usize = 0;
    assert(s@.skip(0) =~= s@);
    while from < total && is_whitespace(chars[from])
        invariant
            from <= total,
            total == chars@.len(),
            chars@ == s@,
            stripped_left(s@.skip(from as int)) == stripped_left(s@),
        decreases total - from,
    {
        assert(s@.skip(from as int).skip(1) =~= s@.skip(from + 1));
        from = from + 1;
    }
    assert(stripped_left(s@) =~= s@.skip(from as int)) by {
        if from < total {
            assert(s@.skip(from as int)[0] == s@[from as int]);
        }
    }
    let ghost middle = s@.skip(from as int);
    let mut to: usize = total;
    assert(middle.take(total - from) =~= middle);
    while to > from && is_whitespace(chars[to - 1])
        invariant
            from <= to <= total,
            total == chars@.len(),
            chars@ == s@,
            middle == s@.skip(from as int),
            stripped_right(middle.take(to - from)) == stripped_right(middle),
        decreases to,
    {
        assert(middle.take(to - from).last() == s@[to - 1]);
        assert(middle.take(to - from).drop_last() =~= middle.take(to - 1 - from));
        to = to - 1;
    }
    assert(stripped_right(middle) =~= middle.take(to - from)) by {
        if to > from {
            assert(middle.take(to - from).last() == s@[to - 1]);
        }
    }
    let r: &str = s.substring_char(from, to);
    assert(r@ =~= middle.take(to - from));
    r
}

/// Of a text nothing is stripped but white space at its ends, and all of that: what is left neither
/// begins nor ends with any.
pub proof fn only_white_space_at_the_ends_is_stripped(s: Seq<char>) -> (ends: (Seq<char>, Seq<char>))
    ensures
        s == ends.0 + stripped(s) + ends.1,
        forall|i: int| 0 <= i < ends.0.len() ==> whitespace(#[trigger] ends.0[i]),
        forall|i: int| 0 <= i < ends.1.len() ==> whitespace(#[trigger] ends.1[i]),
        stripped(s).len() > 0 ==> !whitespace(stripped(s)[0]) && !whitespace(stripped(s).last()),
{
    let from = lemma_stripped_left(s);
    let rest = s.skip(from);
    let to = lemma_stripped_right(rest);
    let ends = (s.take(from), rest.skip(to));
    assert(s =~= ends.0 + stripped(s) + ends.1);
    assert forall|i: int| 0 <= i < ends.1.len() implies whitespace(#[trigger] ends.1[i]) by {
        assert(ends.1[i] == rest[to + i]);
    }
    if stripped(s).len() > 0 {
        assert(stripped(s)[0] == s[from]);
        assert(stripped(s).last() == rest[to - 1]);
    }
    ends
}

/// A text that neither begins nor ends with white space is stripped to itself, whatever white space
/// is put around it.
pub proof fn white_space_around_a_text_is_stripped(
    left: Seq<char>,
    s: Seq<char>,
    right: Seq<char>,
)
    requires
        s.len() > 0,
        !whitespace(s[0]),
        !whitespace(s.last()),
        forall|i: int| 0 <= i < left.len() ==> whitespace(#[trigger] left[i]),
        forall|i: int| 0 <= i < right.len() ==> whitespace(#[trigger] right[i]),
    ensures
        stripped(left + s + right) == s,
{
    let all = left + s + right;
    let from = lemma_stripped_left(all);
    if from < left.len() {
        assert(all[from] == left[from]);
    }
    if from > left.len() {
        assert(all[left.len() as int] == s[0]);
    }
    let rest = all.skip(from);
    assert(rest =~= s + right);
    let to = lemma_stripped_right(rest);
    if to > s.len() {
        assert(rest[to - 1] == right[to - 1 - s.len()]);
    }
    if to < s.len() {
        assert(rest[s.len() - 1] == s.last());
    }
    assert(rest.take(to) =~= s);
}

/// Where a text begins without its white space.
proof fn lemma_stripped_left(s: Seq<char>) -> (from: int)
    ensures
        0 <= from <= s.len(),
        stripped_left(s) == s.skip(from),
        forall|i: int| 0 <= i < from ==> whitespace(#[trigger] s[i]),
        from < s.len() ==> !whitespace(s[from]),
    decreases s.len(),
{
    if s.len() > 0 && whitespace(s[0]) {
        let n = lemma_stripped_left(s.skip(1));
        assert(s.skip(1).skip(n) =~= s.skip(n + 1));
        assert forall|i: int| 0 <= i < n + 1 implies whitespace(#[trigger] s[i]) by {
            if i > 0 {
                assert(s.skip(1)[i - 1] == s[i]);
            }
        }
        if n + 1 < s.len() {
            assert(s.skip(1)[n] == s[n + 1]);
        }
        n + 1
    } else {
        assert(s.skip(0) =~= s);
        0
    }
}

/// Where a text ends without its white space.
proof fn lemma_stripped_right(s: Seq<char>) -> (to: int)
    ensures
        0 <= to <= s.len(),
        stripped_right(s) == s.take(to),
        forall|i: int| to <= i < s.len() ==> whitespace(#[trigger] s[i]),
        to > 0 ==> !whitespace(s[to - 1]),
    decreases s.len(),
{
    if s.len() > 0 && whitespace(s.last()) {
        let shorter = s.drop_last();
        let n = lemma_stripped_right(shorter);
        assert(shorter.take(n) =~= s.take(n));
        assert forall|i: int| n <= i < s.len() implies whitespace(#[trigger] s[i]) by {
            if i < shorter.len() {
                assert(shorter[i] == s[i]);
            }
        }
        if n > 0 {
            assert(shorter[n - 1] == s[n - 1]);
        }
        n
    } else {
        assert(s.take(s.len() as int) =~= s);
        s.len() as int
    }
}

/// In ASCII case is all that lower case changes: a text and its capitals have the same lower-case
/// form, which has no capital letter, and every other character stays.
pub proof fn only_capital_letters_are_lowered(text: Seq<char>)
    requires
        ascii(text),
    ensures
        lowercase(raised(text)) == lowercase(text),
        lowercase(lowercase(text)) == lowercase(text),
        lowercase(text).len() == text.len(),
        forall|i: int|
            0 <= i < text.len() ==> {
                &&& !('A' <= #[trigger] lowercase(text)[i] <= 'Z')
                &&& !('A' <= text[i] <= 'Z') ==> lowercase(text)[i] == text[i]
                &&& 'A' <= text[i] <= 'Z' ==> lowercase(text)[i] as u32 == text[i] as u32 + 32
            },
{
    assert forall|i: int| 0 <= i < text.len() implies ((#[trigger] raised(text)[i]) as u32)
        < 0x80 by {
        assert((text[i] as u32) < 0x80);
    }
    assert forall|i: int| 0 <= i < text.len() implies ((#[trigger] lowercase(text)[i]) as u32)
        < 0x80 by {
        assert((text[i] as u32) < 0x80);
    }
    assert(lowercase(raised(text)) =~= lowercase(text));
    assert(lowercase(lowercase(text)) =~= lowercase(text));
}

/// No letter or digit of ASCII is white space, and the blank and the line breaks are.
pub proof fn letters_and_white_space_are_apart(c: char)
    requires
        (c as u32) < 0x80,
    ensures
        alphanumeric(c) ==> !whitespace(c),
        c == ' ' || c == '\t' || c == '\n' || c == '\r' ==> whitespace(c) && !alphanumeric(c),
        whitespace(c) ==> c as u32 <= 0x20,
{
}

/// These characters separate words, and no others do.
pub proof fn these_characters_separate_words(c: char)
    ensures
        whitespace(c) <==> {
            ||| c == '\u{9}'
            ||| c == '\u{a}'
            ||| c == '\u{b}'
            ||| c == '\u{c}'
            ||| c == '\u{d}'
            ||| c == '\u{20}'
            ||| c == '\u{85}'
            ||| c == '\u{a0}'
            ||| c == '\u{1680}'
            ||| c == '\u{2000}'
            ||| c == '\u{2001}'
            ||| c == '\u{2002}'
            ||| c == '\u{2003}'
            ||| c == '\u{2004}'
            ||| c == '\u{2005}'
            ||| c == '\u{2006}'
            ||| c == '\u{2007}'
            ||| c == '\u{2008}'
            ||| c == '\u{2009}'
            ||| c == '\u{200a}'
            ||| c == '\u{2028}'
            ||| c == '\u{2029}'
            ||| c == '\u{202f}'
            ||| c == '\u{205f}'
            ||| c == '\u{3000}'
        },
{
}

} // verus!
