//! Structural screening of input before anything is done with it.
//!
//! This is no defence against what the input says; it keeps out what would choke the rest:
//! nothing at all, too much of it, or mostly control characters.
use vstd::prelude::*;
use vstd::utf8::encode_utf8;
use crate::text;
use crate::text::decimal;
use crate::types::BastionError;

verus! {

/// The largest input that is accepted by default, in bytes.
pub const DEFAULT_MAX_LEN: usize = 16_384;

/// A control character other than tab, line feed and carriage return.
pub open spec fn is_garbage(c: char) -> bool {
    (c <= '\u{1f}' || c == '\u{7f}') && c != '\t' && c != '\n' && c != '\r'
}

/// How many garbage characters there are.
pub open spec fn garbage_count(text: Seq<char>) -> nat
    decreases text.len(),
{
    if text.len() == 0 {
        0
    } else {
        garbage_count(text.drop_last()) + if is_garbage(text.last()) {
            1nat
        } else {
            0nat
        }
    }
}

/// The length of a text in bytes.
pub open spec fn byte_len(text: Seq<char>) -> usize {
    encode_utf8(text).len() as usize
}

/// Why an input is rejected: it is empty, too long, or more than half garbage.
pub open spec fn rejection(max_len: usize, input: Seq<char>) -> Option<Seq<char>> {
    if input.len() == 0 {
        Some("input is empty"@)
    } else if byte_len(input) > max_len {
        Some(
            "input length "@ + decimal(byte_len(input) as nat) + " exceeds maximum "@ + decimal(
                max_len as nat,
            ) + " bytes"@,
        )
    } else if garbage_count(input) * 2 > input.len() {
        Some(
            "input contains too many control characters ("@ + decimal(garbage_count(input)) + "/"@
                + decimal(input.len()) + ")"@,
        )
    } else {
        None
    }
}

/// Screens input by its structure.
pub struct InputGuardrail {
    pub max_len: usize,
}

impl Default for InputGuardrail {
    fn default() -> (r: Self)
        ensures
            r.max_len == DEFAULT_MAX_LEN,
    {
        InputGuardrail { max_len: DEFAULT_MAX_LEN }
    }
}

impl InputGuardrail {
    /// A guardrail that accepts at most `max_len` bytes.
    pub fn new(max_len: usize) -> (r: Self)
        ensures
            r.max_len == max_len,
    {
        InputGuardrail { max_len }
    }

    /// Accepts an input, or says what is wrong with it. The detail is for the log.
    pub fn screen(&self, input: &str) -> (r: Result<(), BastionError>)
        ensures
            match rejection(self.max_len, input@) {
                Some(detail) => r matches Err(BastionError::InputGuardrailRejected(d)) && d@
                    == detail,
                None => r is Ok,
            },
    {
        if input.is_empty() {
            return Err(BastionError::InputGuardrailRejected("input is empty".to_owned()));
        }
        let length: usize = input.len();
        if length > self.max_len {
            let mut detail: String = "input length ".to_owned();
            text::push_decimal(&mut detail, length as u64);
            detail.append(" exceeds maximum ");
            text::push_decimal(&mut detail, self.max_len as u64);
            detail.append(" bytes");
            return Err(BastionError::InputGuardrailRejected(detail));
        }
        let chars: Vec<char> = text::chars_of(input);
        let mut garbage: usize = 0;
        let mut i: usize = 0;
        while i < chars.len()
            invariant
                i <= chars@.len(),
                garbage <= i,
                garbage == garbage_count(chars@.take(i as int)),
            decreases chars@.len() - i,
        {
            proof {
                let next = chars@.take(i + 1);
                assert(next.drop_last() =~= chars@.take(i as int));
                assert(next.last() == chars@[i as int]);
            }
            let c: char = chars[i];
            if (c <= '\u{1f}' || c == '\u{7f}') && c != '\t' && c != '\n' && c != '\r' {
                garbage = garbage + 1;
            }
            i = i + 1;
        }
        assert(chars@.take(chars@.len() as int) =~= chars@);
        let total: usize = chars.len();
        if garbage > total - garbage {
            let mut detail: String = "input contains too many control characters (".to_owned();
            text::push_decimal(&mut detail, garbage as u64);
            detail.append("/");
            text::push_decimal(&mut detail, total as u64);
            detail.append(")");
            return Err(BastionError::InputGuardrailRejected(detail));
        }
        Ok(())
    }
}

/// What is accepted is neither empty nor too long nor mostly garbage, and everything else is
/// rejected.
pub proof fn exactly_the_sound_inputs_pass(max_len: usize, input: Seq<char>)
    ensures
        rejection(max_len, input) is None <==> input.len() > 0 && byte_len(input) <= max_len
            && garbage_count(input) * 2 <= input.len(),
{
}

/// A wider guardrail accepts everything that a narrower one does.
pub proof fn widening_the_limit_rejects_nothing_new(narrow: usize, wide: usize, input: Seq<char>)
    requires
        narrow <= wide,
        rejection(narrow, input) is None,
    ensures
        rejection(wide, input) is None,
{
}

/// Garbage are the control characters but for tab, line feed and carriage return, and all of it is
/// counted.
pub proof fn all_garbage_is_counted(text: Seq<char>)
    ensures
        garbage_count(text) == text.filter(
            |c: char|
                {
                    let n = c as u32;
                    (n < 0x20 || n == 0x7f) && n != 9 && n != 10 && n != 13
                },
        ).len(),
        garbage_count(text) <= text.len(),
    decreases text.len(),
{
    reveal(Seq::filter);
    if text.len() > 0 {
        all_garbage_is_counted(text.drop_last());
        lemma_garbage(text.last());
    }
}

/// What garbage is, by its number.
proof fn lemma_garbage(c: char)
    ensures
        is_garbage(c) <==> ((c as u32) < 0x20 || c as u32 == 0x7f) && c as u32 != 9 && c as u32
            != 10 && c as u32 != 13,
{
}

/// A text without control characters passes whatever it says, as long as it is not empty and fits.
pub proof fn what_the_text_says_plays_no_part(max_len: usize, input: Seq<char>)
    requires
        input.len() > 0,
        byte_len(input) <= max_len,
        forall|i: int| 0 <= i < input.len() ==> (#[trigger] input[i]) as u32 >= 0x20 && input[i]
            as u32 != 0x7f,
    ensures
        rejection(max_len, input) is None,
{
    all_garbage_is_counted(input);
    lemma_no_garbage(input);
}

/// Without control characters there is no garbage.
proof fn lemma_no_garbage(input: Seq<char>)
    requires
        forall|i: int| 0 <= i < input.len() ==> (#[trigger] input[i]) as u32 >= 0x20 && input[i]
            as u32 != 0x7f,
    ensures
        garbage_count(input) == 0,
    decreases input.len(),
{
    if input.len() > 0 {
        let shorter = input.drop_last();
        assert forall|i: int| 0 <= i < shorter.len() implies (#[trigger] shorter[i]) as u32 >= 0x20
            && shorter[i] as u32 != 0x7f by {
            assert(shorter[i] == input[i]);
        }
        lemma_no_garbage(shorter);
        lemma_garbage(input[input.len() - 1]);
    }
}

/// A text is told how long it is and how long it may be, or how much of it is garbage.
pub proof fn a_rejection_tells_the_numbers(max_len: usize, input: Seq<char>)
    requires
        input.len() > 0,
        rejection(max_len, input) is Some,
    ensures
        if byte_len(input) > max_len {
            &&& text::occurs(rejection(max_len, input)->0, decimal(byte_len(input) as nat))
            &&& text::occurs(rejection(max_len, input)->0, decimal(max_len as nat))
        } else {
            text::occurs(
                rejection(max_len, input)->0,
                decimal(garbage_count(input)) + seq!['/'] + decimal(input.len()),
            )
        },
{
    if byte_len(input) > max_len {
        let a = "input length "@;
        let long = decimal(byte_len(input) as nat);
        let b = " exceeds maximum "@;
        let most = decimal(max_len as nat);
        let c = " bytes"@;
        text::what_is_written_last_stands_there(a, long);
        text::what_stands_in_a_text_stands_in_a_longer_one(a + long, b, long);
        text::what_stands_in_a_text_stands_in_a_longer_one(a + long + b, most, long);
        text::what_stands_in_a_text_stands_in_a_longer_one(a + long + b + most, c, long);
        text::what_is_written_last_stands_there(a + long + b, most);
        text::what_stands_in_a_text_stands_in_a_longer_one(a + long + b + most, c, most);
    } else {
        let a = "input contains too many control characters ("@;
        let count = decimal(garbage_count(input));
        let all = decimal(input.len());
        reveal_strlit("/");
        assert("/"@ =~= seq!['/']);
        let middle = count + seq!['/'] + all;
        text::what_is_written_between_stands_there(a, middle, ")"@);
        assert(a + middle + ")"@ =~= a + count + "/"@ + all + ")"@);
    }
}

/// A text is measured in bytes, as it is encoded, and not in characters.
pub proof fn a_text_is_measured_in_bytes(text: Seq<char>)
    ensures
        encode_utf8(text).len() <= usize::MAX ==> byte_len(text) == encode_utf8(text).len(),
{
}

} // verus!
