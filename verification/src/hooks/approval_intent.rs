//! Whether a plain-language reply approves or rejects what is pending.
//!
//! A reply counts only where one of a fixed set of phrases stands in it as a word of its own:
//! a phrase that is merely part of a longer word decides nothing.
use vstd::prelude::*;
use crate::text;
use crate::text::occurs_at;
use crate::unicode::{self, alphanumeric, ascii, lowercase, raised};

verus! {

/// The phrases that approve.
pub open spec fn approval_phrases() -> Seq<Seq<char>> {
    seq![
        "sim"@,
        "aprovo"@,
        "confirmo"@,
        "pode fazer"@,
        "autorizo"@,
        "yes"@,
        "approve"@,
        "approved"@,
        "confirmed"@,
        "go ahead"@,
    ]
}

/// The phrases that reject.
pub open spec fn rejection_phrases() -> Seq<Seq<char>> {
    seq![
        "não"@,
        "nao"@,
        "rejeito"@,
        "cancela"@,
        "cancelar"@,
        "no"@,
        "reject"@,
        "cancel"@,
        "deny"@,
    ]
}

/// The phrase stands at this position, and neither neighbour is a letter or a number.
pub open spec fn stands_alone_at(text: Seq<char>, phrase: Seq<char>, i: int) -> bool {
    &&& occurs_at(text, phrase, i)
    &&& i == 0 || !alphanumeric(text[i - 1])
    &&& i + phrase.len() == text.len() || !alphanumeric(text[i + phrase.len()])
}

/// The phrase stands somewhere in the text as a word of its own.
pub open spec fn stands_alone(text: Seq<char>, phrase: Seq<char>) -> bool {
    exists|i: int| #[trigger] stands_alone_at(text, phrase, i)
}

/// Whether the phrase stands somewhere in the text as a word of its own.
pub fn contains_word_boundary(text: &str, phrase: &str) -> (r: bool)
    requires
        phrase@.len() > 0,
    ensures
        r == stands_alone(text@, phrase@),
{
    let t: Vec<char> = text::chars_of(text);
    let p: Vec<char> = text::chars_of(phrase);
    let mut start: usize = 0;
    loop
        invariant
            t@ == text@,
            p@ == phrase@,
            p@.len() > 0,
            start <= t@.len(),
            forall|j: int| 0 <= j < start ==> !#[trigger] stands_alone_at(text@, phrase@, j),
        decreases t@.len() - start,
    {
        match text::find_from(&t, &p, start) {
            None => {
                return false;
            },
            Some(i) => {
                assert(i + p@.len() <= t.len());
                let end: usize = i + p.len();
                let free_before: bool = i == 0 || !unicode::is_alphanumeric(t[i - 1]);
                let free_after: bool = end == t.len() || !unicode::is_alphanumeric(t[end]);
                if free_before && free_after {
                    assert(stands_alone_at(text@, phrase@, i as int));
                    return true;
                }
                start = i + 1;
            },
        }
    }
}

/// One of the phrases is found in the text as a word of its own.
pub open spec fn says_one_of(text: Seq<char>, phrases: Seq<Seq<char>>) -> bool {
    exists|k: int| 0 <= k < phrases.len() && stands_alone(text, #[trigger] phrases[k])
}

/// Whether one of the phrases is found in the text as a word of its own.
fn says_any(text: &str, phrases: &Vec<&str>, Ghost(wanted): Ghost<Seq<Seq<char>>>) -> (r: bool)
    requires
        phrases@.len() == wanted.len(),
        forall|k: int|
            0 <= k < wanted.len() ==> #[trigger] phrases@[k]@ == wanted[k] && wanted[k].len() > 0,
    ensures
        r == says_one_of(text@, wanted),
{
    let mut k: usize = 0;
    while k < phrases.len()
        invariant
            k <= phrases@.len(),
            phrases@.len() == wanted.len(),
            forall|j: int|
                0 <= j < wanted.len() ==> #[trigger] phrases@[j]@ == wanted[j] && wanted[j].len()
                    > 0,
            forall|j: int| 0 <= j < k ==> !stands_alone(text@, #[trigger] wanted[j]),
        decreases phrases@.len() - k,
    {
        assert(phrases@[k as int]@ == wanted[k as int]);
        if contains_word_boundary(text, phrases[k]) {
            assert(stands_alone(text@, wanted[k as int]));
            return true;
        }
        k = k + 1;
    }
    false
}

/// Whether a reply in lower case approves.
pub fn approves_in_lowercase(lowered: &str) -> (r: bool)
    ensures
        r == says_one_of(lowered@, approval_phrases()),
{
    let phrases: Vec<&str> = vec![
        "sim",
        "aprovo",
        "confirmo",
        "pode fazer",
        "autorizo",
        "yes",
        "approve",
        "approved",
        "confirmed",
        "go ahead",
    ];
    proof {
        lemma_approval_phrases();
    }
    says_any(lowered, &phrases, Ghost(approval_phrases()))
}

/// Whether a reply in lower case rejects.
pub fn rejects_in_lowercase(lowered: &str) -> (r: bool)
    ensures
        r == says_one_of(lowered@, rejection_phrases()),
{
    let phrases: Vec<&str> = vec![
        "não",
        "nao",
        "rejeito",
        "cancela",
        "cancelar",
        "no",
        "reject",
        "cancel",
        "deny",
    ];
    proof {
        lemma_rejection_phrases();
    }
    says_any(lowered, &phrases, Ghost(rejection_phrases()))
}

/// Whether a reply approves, in whatever case it is written.
pub fn detect_approval_intent(text: &str) -> (r: bool)
    ensures
        r == approves(text@),
{
    let lowered: String = unicode::to_lowercase(text);
    approves_in_lowercase(lowered.as_str())
}

/// Whether a reply rejects, in whatever case it is written.
pub fn detect_rejection_intent(text: &str) -> (r: bool)
    ensures
        r == rejects(text@),
{
    let lowered: String = unicode::to_lowercase(text);
    rejects_in_lowercase(lowered.as_str())
}

/// A reply that says one of the phrases says it inside a longer reply too, where what is written
/// around it does not run into its words.
pub proof fn what_is_said_is_said_in_a_longer_reply(
    before: Seq<char>,
    reply: Seq<char>,
    after: Seq<char>,
    phrases: Seq<Seq<char>>,
)
    requires
        says_one_of(reply, phrases),
        before.len() > 0 ==> !alphanumeric(before.last()),
        after.len() > 0 ==> !alphanumeric(after[0]),
    ensures
        says_one_of(before + reply + after, phrases),
{
    let k = choose|k: int| 0 <= k < phrases.len() && stands_alone(reply, #[trigger] phrases[k]);
    let phrase = phrases[k];
    let i = choose|i: int| #[trigger] stands_alone_at(reply, phrase, i);
    let whole = before + reply + after;
    let at = before.len() + i;
    assert(whole.subrange(at, at + phrase.len()) =~= reply.subrange(i, i + phrase.len()));
    assert(stands_alone_at(whole, phrase, at));
    assert(stands_alone(whole, phrase));
}

/// The reply approves.
pub open spec fn approves(reply: Seq<char>) -> bool {
    says_one_of(lowercase(reply), approval_phrases())
}

/// The reply rejects.
pub open spec fn rejects(reply: Seq<char>) -> bool {
    says_one_of(lowercase(reply), rejection_phrases())
}

/// What an ASCII reply says, it says also before and behind other ASCII words, and in capitals.
proof fn lemma_said_around(reply: Seq<char>, other: Seq<char>, phrases: Seq<Seq<char>>)
    requires
        ascii(reply),
        ascii(other),
        says_one_of(lowercase(reply), phrases),
    ensures
        says_one_of(lowercase(reply + seq![' '] + other), phrases),
        says_one_of(lowercase(other + seq![' '] + reply), phrases),
        says_one_of(lowercase(raised(reply)), phrases),
{
    let none = Seq::<char>::empty();
    let small = lowercase(reply);
    let behind = seq![' '] + lowercase(other);
    let before = lowercase(other) + seq![' '];
    what_is_said_is_said_in_a_longer_reply(none, small, behind, phrases);
    what_is_said_is_said_in_a_longer_reply(before, small, none, phrases);
    assert(ascii(reply + seq![' '] + other));
    assert(ascii(other + seq![' '] + reply));
    assert(lowercase(reply + seq![' '] + other) =~= none + small + behind);
    assert(lowercase(other + seq![' '] + reply) =~= before + small + none);
    assert forall|i: int| 0 <= i < reply.len() implies ((#[trigger] raised(
        reply,
    )[i]) as u32) < 0x80 by {
        assert((reply[i] as u32) < 0x80);
    }
    assert(lowercase(raised(reply)) =~= small);
}

/// An ASCII reply that approves does so whatever ASCII words stand before or behind it, and in
/// capitals.
pub proof fn an_approval_holds_in_a_longer_reply_and_in_capitals(
    reply: Seq<char>,
    other: Seq<char>,
)
    requires
        ascii(reply),
        ascii(other),
        approves(reply),
    ensures
        approves(reply + seq![' '] + other),
        approves(other + seq![' '] + reply),
        approves(raised(reply)),
{
    lemma_said_around(reply, other, approval_phrases());
}

/// An ASCII reply that rejects does so whatever ASCII words stand before or behind it, and in
/// capitals.
pub proof fn a_rejection_holds_in_a_longer_reply_and_in_capitals(
    reply: Seq<char>,
    other: Seq<char>,
)
    requires
        ascii(reply),
        ascii(other),
        rejects(reply),
    ensures
        rejects(reply + seq![' '] + other),
        rejects(other + seq![' '] + reply),
        rejects(raised(reply)),
{
    lemma_said_around(reply, other, rejection_phrases());
}

/// The approving phrases are not empty.
proof fn lemma_approval_phrases()
    ensures
        forall|k: int|
            0 <= k < approval_phrases().len() ==> (#[trigger] approval_phrases()[k]).len() > 0,
{
    reveal_strlit("sim");
    reveal_strlit("aprovo");
    reveal_strlit("confirmo");
    reveal_strlit("pode fazer");
    reveal_strlit("autorizo");
    reveal_strlit("yes");
    reveal_strlit("approve");
    reveal_strlit("approved");
    reveal_strlit("confirmed");
    reveal_strlit("go ahead");
}

/// The rejecting phrases are not empty.
proof fn lemma_rejection_phrases()
    ensures
        forall|k: int|
            0 <= k < rejection_phrases().len() ==> (#[trigger] rejection_phrases()[k]).len() > 0,
{
    reveal_strlit("não");
    reveal_strlit("nao");
    reveal_strlit("rejeito");
    reveal_strlit("cancela");
    reveal_strlit("cancelar");
    reveal_strlit("no");
    reveal_strlit("reject");
    reveal_strlit("cancel");
    reveal_strlit("deny");
}

/// A phrase counts exactly where it stands between what are neither letters nor numbers, or at an
/// end of the text.
pub proof fn a_phrase_counts_as_a_word_of_its_own(text: Seq<char>, phrase: Seq<char>)
    ensures
        stands_alone(text, phrase) <==> exists|left: Seq<char>, right: Seq<char>|
            {
                &&& text == #[trigger] (left + phrase + right)
                &&& left.len() > 0 ==> !alphanumeric(left.last())
                &&& right.len() > 0 ==> !alphanumeric(right[0])
            },
{
    if stands_alone(text, phrase) {
        let i = choose|i: int| #[trigger] stands_alone_at(text, phrase, i);
        let left = text.take(i);
        let right = text.skip(i + phrase.len());
        assert(text =~= left + phrase + right) by {
            assert(text.subrange(i, i + phrase.len()) == phrase);
            assert forall|j: int| 0 <= j < text.len() implies text[j] == (left + phrase + right)[j] by {
                if i <= j < i + phrase.len() {
                    assert(text.subrange(i, i + phrase.len())[j - i] == text[j]);
                }
            }
        }
    }
    if exists|left: Seq<char>, right: Seq<char>|
        {
            &&& text == #[trigger] (left + phrase + right)
            &&& left.len() > 0 ==> !alphanumeric(left.last())
            &&& right.len() > 0 ==> !alphanumeric(right[0])
        } {
        let (left, right) = choose|left: Seq<char>, right: Seq<char>|
            {
                &&& text == #[trigger] (left + phrase + right)
                &&& left.len() > 0 ==> !alphanumeric(left.last())
                &&& right.len() > 0 ==> !alphanumeric(right[0])
            };
        let i = left.len() as int;
        assert(text.subrange(i, i + phrase.len()) =~= phrase);
        if right.len() > 0 {
            assert(text[i + phrase.len()] == right[0]);
        }
        assert(stands_alone_at(text, phrase, i));
    }
}

/// Each of these words approves where it stands alone, and no other does.
pub proof fn these_words_approve(phrase: Seq<char>)
    ensures
        approval_phrases().contains(phrase) <==> {
            ||| phrase == "sim"@
            ||| phrase == "aprovo"@
            ||| phrase == "confirmo"@
            ||| phrase == "pode fazer"@
            ||| phrase == "autorizo"@
            ||| phrase == "yes"@
            ||| phrase == "approve"@
            ||| phrase == "approved"@
            ||| phrase == "confirmed"@
            ||| phrase == "go ahead"@
        },
{
    let all = approval_phrases();
    assert(all[0] == "sim"@ && all[1] == "aprovo"@ && all[2] == "confirmo"@ && all[3]
        == "pode fazer"@ && all[4] == "autorizo"@ && all[5] == "yes"@ && all[6] == "approve"@
        && all[7] == "approved"@ && all[8] == "confirmed"@ && all[9] == "go ahead"@);
}

/// Each of these words rejects where it stands alone, and no other does.
pub proof fn these_words_reject(phrase: Seq<char>)
    ensures
        rejection_phrases().contains(phrase) <==> {
            ||| phrase == "não"@
            ||| phrase == "nao"@
            ||| phrase == "rejeito"@
            ||| phrase == "cancela"@
            ||| phrase == "cancelar"@
            ||| phrase == "no"@
            ||| phrase == "reject"@
            ||| phrase == "cancel"@
            ||| phrase == "deny"@
        },
{
    let all = rejection_phrases();
    assert(all[0] == "não"@ && all[1] == "nao"@ && all[2] == "rejeito"@ && all[3] == "cancela"@
        && all[4] == "cancelar"@ && all[5] == "no"@ && all[6] == "reject"@ && all[7] == "cancel"@
        && all[8] == "deny"@);
}

/// A reply says one of some phrases exactly where one of them stands alone in it.
pub proof fn one_phrase_is_enough(text: Seq<char>, phrases: Seq<Seq<char>>)
    ensures
        says_one_of(text, phrases) <==> exists|phrase: Seq<char>|
            phrases.contains(phrase) && #[trigger] stands_alone(text, phrase),
{
    if says_one_of(text, phrases) {
        let k = choose|k: int| 0 <= k < phrases.len() && stands_alone(text, #[trigger] phrases[k]);
        assert(phrases.contains(phrases[k]));
    }
    if exists|phrase: Seq<char>| phrases.contains(phrase) && #[trigger] stands_alone(text, phrase) {
        let phrase = choose|phrase: Seq<char>|
            phrases.contains(phrase) && #[trigger] stands_alone(text, phrase);
        let k = choose|k: int| 0 <= k < phrases.len() && phrases[k] == phrase;
        assert(stands_alone(text, phrases[k]));
    }
}

/// Whether a reply approves or rejects is decided by its words alone, in whatever case.
pub proof fn the_words_of_a_reply_decide(text: &str, approving: bool, rejecting: bool)
    requires
        call_ensures(detect_approval_intent, (text,), approving),
        call_ensures(detect_rejection_intent, (text,), rejecting),
    ensures
        approving <==> exists|phrase: Seq<char>|
            approval_phrases().contains(phrase) && #[trigger] stands_alone(lowercase(text@), phrase),
        rejecting <==> exists|phrase: Seq<char>|
            rejection_phrases().contains(phrase) && #[trigger] stands_alone(
                lowercase(text@),
                phrase,
            ),
{
    one_phrase_is_enough(lowercase(text@), approval_phrases());
    one_phrase_is_enough(lowercase(text@), rejection_phrases());
}

} // verus!
