//! Contestation: an owner says that something the runtime believes is wrong.
//!
//! Where a message contests something, the belief that shares the most words with it is
//! revoked; where none shares a word, nothing happens. The words are compared as they are
//! written.
use vstd::prelude::*;
use vstd::utf8::{char_is_scalar, encode_scalar, encode_utf8};
use crate::text;
use crate::text::{occurs, occurs_at};
use crate::types::{FailureKind, FailureReport, PrivacyTier};
use crate::unicode::{self, alphanumeric, lowercase, whitespace};

verus! {

/// The phrases that contest something.
pub open spec fn contestation_phrases() -> Seq<Seq<char>> {
    seq![
        "isso não é mais verdade"@,
        "isso nao e mais verdade"@,
        "você está errado sobre"@,
        "voce esta errado sobre"@,
        "não é verdade"@,
        "nao e verdade"@,
        "isso está errado"@,
        "isso esta errado"@,
        "você está errada sobre"@,
        "voce esta errada sobre"@,
        "that's not true anymore"@,
        "thats not true anymore"@,
        "you're wrong about"@,
        "youre wrong about"@,
        "that is not true"@,
        "that is no longer true"@,
        "that is wrong"@,
        "that's wrong"@,
        "incorrect about"@,
        "mistaken about"@,
    ]
}

/// One of the phrases stands in the text.
pub open spec fn contests(lowered: Seq<char>) -> bool {
    exists|k: int|
        0 <= k < contestation_phrases().len() && occurs(
            lowered,
            #[trigger] contestation_phrases()[k],
        )
}

/// Whether a message in lower case contests something.
pub fn contests_in_lowercase(lowered: &str) -> (r: bool)
    ensures
        r == contests(lowered@),
{
    let phrases: Vec<&str> = vec![
        "isso não é mais verdade",
        "isso nao e mais verdade",
        "você está errado sobre",
        "voce esta errado sobre",
        "não é verdade",
        "nao e verdade",
        "isso está errado",
        "isso esta errado",
        "você está errada sobre",
        "voce esta errada sobre",
        "that's not true anymore",
        "thats not true anymore",
        "you're wrong about",
        "youre wrong about",
        "that is not true",
        "that is no longer true",
        "that is wrong",
        "that's wrong",
        "incorrect about",
        "mistaken about",
    ];
    let ghost wanted = contestation_phrases();
    assert(phrases@.len() == wanted.len());
    assert forall|j: int| 0 <= j < wanted.len() implies #[trigger] phrases@[j]@ == wanted[j] by {}
    let mut k: usize = 0;
    while k < phrases.len()
        invariant
            k <= phrases@.len(),
            wanted == contestation_phrases(),
            phrases@.len() == wanted.len(),
            forall|j: int| 0 <= j < wanted.len() ==> #[trigger] phrases@[j]@ == wanted[j],
            forall|j: int| 0 <= j < k ==> !occurs(lowered@, #[trigger] wanted[j]),
        decreases phrases@.len() - k,
    {
        assert(phrases@[k as int]@ == wanted[k as int]);
        if text::contains(lowered, phrases[k]) {
            assert(occurs(lowered@, contestation_phrases()[k as int]));
            return true;
        }
        k = k + 1;
    }
    false
}

/// Whether a message contests something, in whatever case it is written.
pub fn detect_contestation(text: &str) -> (r: bool)
    ensures
        r == contests(lowercase(text@)),
{
    let lowered: String = unicode::to_lowercase(text);
    contests_in_lowercase(lowered.as_str())
}

/// The runs of characters between white space.
pub open spec fn runs(s: Seq<char>) -> Seq<Seq<char>>
    decreases s.len(),
{
    if s.len() == 0 {
        Seq::empty()
    } else {
        let before = runs(s.drop_last());
        let c = s.last();
        if whitespace(c) {
            before
        } else if s.len() > 1 && !whitespace(s[s.len() - 2]) {
            before.update(before.len() - 1, before.last().push(c))
        } else {
            before.push(seq![c])
        }
    }
}

/// Without the characters at the beginning that are neither letters nor numbers.
pub open spec fn trimmed_left(s: Seq<char>) -> Seq<char>
    decreases s.len(),
{
    if s.len() > 0 && !alphanumeric(s[0]) {
        trimmed_left(s.skip(1))
    } else {
        s
    }
}

/// Without the characters at the end that are neither letters nor numbers.
pub open spec fn trimmed_right(s: Seq<char>) -> Seq<char>
    decreases s.len(),
{
    if s.len() > 0 && !alphanumeric(s.last()) {
        trimmed_right(s.drop_last())
    } else {
        s
    }
}

/// A run without what surrounds its word.
pub open spec fn trimmed(s: Seq<char>) -> Seq<char> {
    trimmed_right(trimmed_left(s))
}

/// The text is one of the words of `s`: a run without what surrounds it, of at least three
/// bytes.
pub open spec fn words(s: Seq<char>) -> Set<Seq<char>> {
    Set::new(
        |w: Seq<char>|
            encode_utf8(w).len() >= 3 && exists|i: int|
                0 <= i < runs(s).len() && w == #[trigger] trimmed(runs(s)[i]),
    )
}

/// How many words two texts have in common.
pub open spec fn overlap(a: Seq<char>, b: Seq<char>) -> nat {
    words(a).intersect(words(b)).len()
}

/// The runs of a text, as lists of characters.
fn runs_of(s: &str) -> (r: Vec<Vec<char>>)
    ensures
        r@.len() == runs(s@).len(),
        forall|i: int| 0 <= i < r@.len() ==> #[trigger] r@[i]@ == runs(s@)[i],
{
    let chars: Vec<char> = text::chars_of(s);
    let mut out: Vec<Vec<char>> = Vec::new();
    let mut in_run: bool = false;
    let mut i: usize = 0;
    while i < chars.len()
        invariant
            i <= chars@.len(),
            chars@ == s@,
            out@.len() == runs(chars@.take(i as int)).len(),
            forall|j: int|
                0 <= j < out@.len() ==> #[trigger] out@[j]@ == runs(chars@.take(i as int))[j],
            in_run == (i > 0 && !whitespace(chars@[i - 1])),
            in_run ==> out@.len() > 0,
        decreases chars@.len() - i,
    {
        proof {
            let next = chars@.take(i + 1);
            assert(next.drop_last() =~= chars@.take(i as int));
            assert(next.last() == chars@[i as int]);
            if i > 0 {
                assert(next[next.len() - 2] == chars@[i - 1]);
            }
        }
        let c: char = chars[i];
        if unicode::is_whitespace(c) {
            in_run = false;
        } else if in_run {
            let ghost before = out@;
            match out.pop() {
                Some(run) => {
                    let mut run: Vec<char> = run;
                    run.push(c);
                    out.push(run);
                },
                None => {},
            }
            assert forall|j: int| 0 <= j < out@.len() implies #[trigger] out@[j]@ == runs(
                chars@.take(i + 1),
            )[j] by {
                if j < before.len() - 1 {
                    assert(out@[j] == before[j]);
                }
            }
        } else {
            let ghost before = out@;
            let mut run: Vec<char> = Vec::new();
            run.push(c);
            assert(run@ =~= seq![c]);
            out.push(run);
            in_run = true;
        }
        i = i + 1;
    }
    assert(chars@.take(chars@.len() as int) =~= chars@);
    out
}

/// A run without what surrounds its word.
fn trim(run: &Vec<char>) -> (r: Vec<char>)
    ensures
        r@ == trimmed(run@),
{
    let mut start: usize = 0;
    assert(run@.skip(0) =~= run@);
    while start < run.len() && !unicode::is_alphanumeric(run[start])
        invariant
            start <= run@.len(),
            trimmed_left(run@) == trimmed_left(run@.skip(start as int)),
        decreases run@.len() - start,
    {
        assert(run@.skip(start as int).skip(1) =~= run@.skip(start + 1));
        start = start + 1;
    }
    let ghost left = run@.skip(start as int);
    assert(trimmed_left(run@) == left);
    let mut end: usize = run.len();
    assert(run@.subrange(start as int, end as int) =~= left);
    while end > start && !unicode::is_alphanumeric(run[end - 1])
        invariant
            start <= end <= run@.len(),
            trimmed_right(left) == trimmed_right(run@.subrange(start as int, end as int)),
        decreases end - start,
    {
        assert(run@.subrange(start as int, end as int).drop_last() =~= run@.subrange(
            start as int,
            end - 1,
        ));
        end = end - 1;
    }
    let mut out: Vec<char> = Vec::new();
    let mut i: usize = start;
    while i < end
        invariant
            start <= i <= end <= run@.len(),
            out@ == run@.subrange(start as int, i as int),
        decreases end - i,
    {
        out.push(run[i]);
        assert(run@.subrange(start as int, i + 1) =~= run@.subrange(start as int, i as int).push(
            run@[i as int],
        ));
        i = i + 1;
    }
    out
}

/// Whether a word has at least three bytes.
fn is_long_enough(word: &Vec<char>) -> (r: bool)
    ensures
        r == (encode_utf8(word@).len() >= 3),
{
    let mut total: usize = 0;
    let mut i: usize = 0;
    assert(word@.skip(0) =~= word@);
    while i < word.len()
        invariant
            i <= word@.len(),
            total < 3,
            encode_utf8(word@).len() == total + encode_utf8(word@.skip(i as int)).len(),
        decreases word@.len() - i,
    {
        let c: char = word[i];
        let scalar: u32 = c as u32;
        let width: usize = if scalar <= 0x7f {
            1
        } else if scalar <= 0x7ff {
            2
        } else if scalar <= 0xffff {
            3
        } else {
            4
        };
        proof {
            let rest = word@.skip(i as int);
            assert(rest[0] == c);
            assert(rest.drop_first() =~= word@.skip(i + 1));
            char_is_scalar(c);
            assert(encode_scalar(c as u32).len() == width);
        }
        total = total + width;
        i = i + 1;
        if total >= 3 {
            return true;
        }
    }
    assert(word@.skip(word@.len() as int) =~= Seq::<char>::empty());
    false
}

/// Whether two lists hold the same characters.
fn same_chars(a: &Vec<char>, b: &Vec<char>) -> (r: bool)
    ensures
        r == (a@ == b@),
{
    if a.len() != b.len() {
        return false;
    }
    let mut i: usize = 0;
    while i < a.len()
        invariant
            i <= a@.len(),
            a@.len() == b@.len(),
            forall|j: int| 0 <= j < i ==> a@[j] == b@[j],
        decreases a@.len() - i,
    {
        if a[i] != b[i] {
            return false;
        }
        i = i + 1;
    }
    assert(a@ =~= b@);
    true
}

/// The words are the members of the list.
pub open spec fn lists(list: Seq<Vec<char>>, set: Set<Seq<char>>) -> bool {
    &&& forall|i: int| 0 <= i < list.len() ==> set.contains(#[trigger] list[i]@)
    &&& forall|w: Seq<char>| #[trigger]
        set.contains(w) ==> exists|i: int| 0 <= i < list.len() && #[trigger] list[i]@ == w
    &&& forall|i: int, j: int|
        0 <= i < j < list.len() ==> #[trigger] list[i]@ != #[trigger] list[j]@
}

/// Whether a word is in the list.
fn is_listed(list: &Vec<Vec<char>>, word: &Vec<char>) -> (r: bool)
    ensures
        r == exists|i: int| 0 <= i < list@.len() && #[trigger] list@[i]@ == word@,
{
    let mut i: usize = 0;
    while i < list.len()
        invariant
            i <= list@.len(),
            forall|j: int| 0 <= j < i ==> #[trigger] list@[j]@ != word@,
        decreases list@.len() - i,
    {
        if same_chars(&list[i], word) {
            assert(list@[i as int]@ == word@);
            return true;
        }
        i = i + 1;
    }
    false
}

/// The words of a text, each once.
fn words_of(s: &str) -> (r: Vec<Vec<char>>)
    ensures
        lists(r@, words(s@)),
{
    let found: Vec<Vec<char>> = runs_of(s);
    let mut out: Vec<Vec<char>> = Vec::new();
    let mut n: usize = 0;
    while n < found.len()
        invariant
            n <= found@.len(),
            found@.len() == runs(s@).len(),
            forall|i: int| 0 <= i < found@.len() ==> #[trigger] found@[i]@ == runs(s@)[i],
            forall|i: int| 0 <= i < out@.len() ==> words(s@).contains(#[trigger] out@[i]@),
            forall|k: int|
                0 <= k < n && encode_utf8(#[trigger] trimmed(runs(s@)[k])).len() >= 3 ==> exists|
                    i: int,
                |
                    0 <= i < out@.len() && #[trigger] out@[i]@ == trimmed(runs(s@)[k]),
            forall|i: int, j: int|
                0 <= i < j < out@.len() ==> #[trigger] out@[i]@ != #[trigger] out@[j]@,
        decreases found@.len() - n,
    {
        let word: Vec<char> = trim(&found[n]);
        assert(word@ == trimmed(runs(s@)[n as int]));
        let ghost before = out@;
        if is_long_enough(&word) && !is_listed(&out, &word) {
            assert(words(s@).contains(word@));
            out.push(word);
            assert(out@[before.len() as int]@ == trimmed(runs(s@)[n as int]));
            assert forall|k: int|
                0 <= k < n + 1 && encode_utf8(#[trigger] trimmed(runs(s@)[k])).len()
                    >= 3 implies exists|i: int|
                0 <= i < out@.len() && #[trigger] out@[i]@ == trimmed(runs(s@)[k]) by {
                if k < n {
                    let i = choose|i: int|
                        0 <= i < before.len() && #[trigger] before[i]@ == trimmed(runs(s@)[k]);
                    assert(out@[i]@ == trimmed(runs(s@)[k]));
                }
            }
        }
        n = n + 1;
    }
    assert forall|w: Seq<char>| #[trigger] words(s@).contains(w) implies exists|i: int|
        0 <= i < out@.len() && #[trigger] out@[i]@ == w by {
        let k = choose|k: int| 0 <= k < runs(s@).len() && w == #[trigger] trimmed(runs(s@)[k]);
        assert(encode_utf8(trimmed(runs(s@)[k])).len() >= 3);
    }
    out
}

/// How many words two lists have in common.
fn count_common(
    a: &Vec<Vec<char>>,
    b: &Vec<Vec<char>>,
    Ghost(in_a): Ghost<Set<Seq<char>>>,
    Ghost(in_b): Ghost<Set<Seq<char>>>,
) -> (r: usize)
    requires
        lists(a@, in_a),
        lists(b@, in_b),
    ensures
        r == in_a.intersect(in_b).len(),
        in_a.intersect(in_b).finite(),
{
    let mut count: usize = 0;
    let mut i: usize = 0;
    let ghost mut seen: Set<Seq<char>> = Set::empty();
    while i < a.len()
        invariant
            i <= a@.len(),
            count <= i,
            lists(a@, in_a),
            lists(b@, in_b),
            seen.finite(),
            seen.len() == count,
            forall|w: Seq<char>| #[trigger]
                seen.contains(w) <==> in_b.contains(w) && exists|j: int|
                    0 <= j < i && #[trigger] a@[j]@ == w,
        decreases a@.len() - i,
    {
        let ghost w = a@[i as int]@;
        assert(!seen.contains(w)) by {
            if seen.contains(w) {
                let j = choose|j: int| 0 <= j < i && #[trigger] a@[j]@ == w;
                assert(a@[j]@ != a@[i as int]@);
            }
        }
        let common: bool = is_listed(b, &a[i]);
        assert(common == in_b.contains(w)) by {
            if common {
                let k = choose|k: int| 0 <= k < b@.len() && #[trigger] b@[k]@ == w;
                assert(in_b.contains(b@[k]@));
            }
        }
        let ghost before = seen;
        if common {
            count = count + 1;
            proof {
                seen = seen.insert(w);
            }
        }
        assert forall|v: Seq<char>| #[trigger] seen.contains(v) <==> in_b.contains(v) && exists|
            j: int,
        |
            0 <= j < i + 1 && #[trigger] a@[j]@ == v by {
            if seen.contains(v) {
                if v == w {
                    assert(a@[i as int]@ == v);
                } else {
                    let j = choose|j: int| 0 <= j < i && #[trigger] a@[j]@ == v;
                    assert(a@[j]@ == v);
                }
            }
            if in_b.contains(v) && exists|j: int| 0 <= j < i + 1 && #[trigger] a@[j]@ == v {
                let j = choose|j: int| 0 <= j < i + 1 && #[trigger] a@[j]@ == v;
                if j < i {
                    assert(before.contains(v));
                }
            }
        }
        i = i + 1;
    }
    assert(seen =~= in_a.intersect(in_b)) by {
        assert forall|w: Seq<char>| seen.contains(w) <==> in_a.intersect(in_b).contains(w) by {
            if seen.contains(w) {
                let j = choose|j: int| 0 <= j < a@.len() && #[trigger] a@[j]@ == w;
                assert(in_a.contains(a@[j]@));
            }
        }
    }
    count
}

/// A belief, as far as contestation looks at it.
#[derive(Debug)]
pub struct Belief {
    pub id: i64,
    pub content: String,
    pub tier: Option<PrivacyTier>,
}

/// What is to be done about a contested belief: revoke it, report the failure for data of this
/// tier, and note that a correction is due.
#[derive(Clone, Copy, Debug, PartialEq, Eq, Structural)]
pub struct Revocation {
    pub belief: i64,
    pub tier: Option<PrivacyTier>,
}

impl Revocation {
    /// What is reported of it.
    pub fn report(&self) -> (r: FailureReport)
        ensures
            r.kind == FailureKind::Contestation,
            r.tier == self.tier,
            r.detail@ == "belief_revoked_on_nl_contestation"@,
    {
        FailureReport {
            kind: FailureKind::Contestation,
            tier: self.tier,
            detail: "belief_revoked_on_nl_contestation",
        }
    }
}

/// The belief at `k` matches the message best: no other shares more words, none that shares as
/// many has a higher number, and none of the same number stands behind it.
pub open spec fn best_match(input: Seq<char>, beliefs: Seq<Belief>, k: int) -> bool {
    &&& 0 <= k < beliefs.len()
    &&& forall|j: int|
        0 <= j < beliefs.len() && j != k ==> {
            let mine = overlap(input, beliefs[k].content@);
            let other = overlap(input, (#[trigger] beliefs[j]).content@);
            ||| other < mine
            ||| other == mine && beliefs[j].id < beliefs[k].id
            ||| other == mine && beliefs[j].id == beliefs[k].id && j < k
        }
}

/// Decides what a message contests.
pub struct OutputValidator;

impl OutputValidator {
    /// Whether the beliefs are to be looked at for this message at all.
    pub fn is_contestation(&self, user_input: &str) -> (r: bool)
        ensures
            r == contests(lowercase(user_input@)),
    {
        detect_contestation(user_input)
    }

    /// The belief that a contesting message revokes: the best match, where it shares a word
    /// with the message at all.
    pub fn validate(&self, user_input: &str, beliefs: &Vec<Belief>) -> (r: Option<Revocation>)
        ensures
            match r {
                Some(revocation) => exists|k: int| #[trigger]
                    best_match(user_input@, beliefs@, k) && overlap(
                        user_input@,
                        beliefs@[k].content@,
                    ) > 0 && revocation.belief == beliefs@[k].id && revocation.tier
                        == beliefs@[k].tier,
                None => forall|j: int|
                    0 <= j < beliefs@.len() ==> overlap(
                        user_input@,
                        (#[trigger] beliefs@[j]).content@,
                    ) == 0,
            },
            match r {
                Some(revocation) => exists|k: int|
                    {
                        &&& 0 <= k < beliefs@.len()
                        &&& revocation.belief == (#[trigger] beliefs@[k]).id
                        &&& revocation.tier == beliefs@[k].tier
                        &&& shares_most(user_input@, beliefs@, k)
                    },
                None => forall|j: int, w: Seq<char>|
                    0 <= j < beliefs@.len() && #[trigger] words(user_input@).contains(w)
                        ==> !#[trigger] words(beliefs@[j].content@).contains(w),
            },
    {
        let mine: Vec<Vec<char>> = words_of(user_input);
        let mut best: usize = 0;
        let mut best_count: usize = 0;
        let mut n: usize = 0;
        while n < beliefs.len()
            invariant
                n <= beliefs@.len(),
                lists(mine@, words(user_input@)),
                n > 0 ==> best < n && best_match(user_input@, beliefs@.take(n as int), best as int)
                    && best_count == overlap(user_input@, beliefs@[best as int].content@),
            decreases beliefs@.len() - n,
        {
            let belief = &beliefs[n];
            let theirs: Vec<Vec<char>> = words_of(belief.content.as_str());
            let count: usize = count_common(
                &mine,
                &theirs,
                Ghost(words(user_input@)),
                Ghost(words(belief.content@)),
            );
            let ghost before = beliefs@.take(n as int);
            let ghost after = beliefs@.take(n + 1);
            assert forall|j: int| 0 <= j < n implies #[trigger] after[j] == before[j] by {}
            assert(after[n as int] == beliefs@[n as int]);
            if n == 0 || count > best_count || (count == best_count && belief.id
                >= beliefs[best].id) {
                best = n;
                best_count = count;
            }
            assert(best_match(user_input@, after, best as int)) by {
                assert forall|j: int| 0 <= j < after.len() && j != best implies ({
                    let mine = overlap(user_input@, after[best as int].content@);
                    let other = overlap(user_input@, (#[trigger] after[j]).content@);
                    ||| other < mine
                    ||| other == mine && after[j].id < after[best as int].id
                    ||| other == mine && after[j].id == after[best as int].id && j < best
                }) by {
                    if j < n {
                        assert(before[j] == after[j]);
                    }
                }
            }
            n = n + 1;
        }
        assert(beliefs@.take(beliefs@.len() as int) =~= beliefs@);
        if beliefs.len() == 0 || best_count == 0 {
            assert forall|j: int| 0 <= j < beliefs@.len() implies overlap(
                user_input@,
                (#[trigger] beliefs@[j]).content@,
            ) == 0 by {}
            assert forall|j: int, w: Seq<char>|
                0 <= j < beliefs@.len() && #[trigger] words(user_input@).contains(
                    w,
                ) implies !#[trigger] words(beliefs@[j].content@).contains(w) by {
                assert(overlap(user_input@, beliefs@[j].content@) == 0);
                common_words_are_counted(user_input@, beliefs@[j].content@);
            }
            return None;
        }
        assert(best_match(user_input@, beliefs@, best as int));
        proof {
            the_best_match_shares_the_most_words(user_input@, beliefs@, best as int);
        }
        Some(Revocation { belief: beliefs[best].id, tier: beliefs[best].tier })
    }
}

/// There is at most one best match, so that the message alone decides which belief is revoked.
pub proof fn the_best_match_is_unique(input: Seq<char>, beliefs: Seq<Belief>, a: int, b: int)
    requires
        best_match(input, beliefs, a),
        best_match(input, beliefs, b),
    ensures
        a == b,
{
}

/// The belief at `k` shares a word with the message, and no belief shares more; of those that share
/// as many none has a higher number.
pub open spec fn shares_most(input: Seq<char>, beliefs: Seq<Belief>, k: int) -> bool {
    let mine = words(input).intersect(words(beliefs[k].content@));
    &&& mine.len() > 0
    &&& forall|j: int|
        0 <= j < beliefs.len() ==> {
            let other = words(input).intersect(words((#[trigger] beliefs[j]).content@));
            other.len() < mine.len() || other.len() == mine.len() && beliefs[j].id
                <= beliefs[k].id
        }
}

/// No belief shares more words with the message than the one that is revoked, counted as the
/// members that the two sets of words have in common.
pub proof fn the_best_match_shares_the_most_words(input: Seq<char>, beliefs: Seq<Belief>, k: int)
    requires
        best_match(input, beliefs, k),
        overlap(input, beliefs[k].content@) > 0,
    ensures
        shares_most(input, beliefs, k),
{
    let mine = words(input).intersect(words(beliefs[k].content@));
    assert forall|j: int| 0 <= j < beliefs.len() implies {
        let other = words(input).intersect(words((#[trigger] beliefs[j]).content@));
        other.len() < mine.len() || other.len() == mine.len() && beliefs[j].id <= beliefs[k].id
    } by {
        if j != k {
            let other = overlap(input, beliefs[j].content@);
        }
    }
}

/// A text has finitely many words.
pub proof fn a_text_has_finitely_many_words(s: Seq<char>)
    ensures
        words(s).finite(),
{
    let all = Seq::new(runs(s).len(), |i: int| trimmed(runs(s)[i]));
    vstd::seq_lib::seq_to_set_is_finite(all);
    assert forall|w: Seq<char>| words(s).contains(w) implies #[trigger] all.to_set().contains(w) by {
        let i = choose|i: int| 0 <= i < runs(s).len() && w == #[trigger] trimmed(runs(s)[i]);
        assert(all[i] == w);
    }
    assert(words(s).subset_of(all.to_set()));
    vstd::set_lib::lemma_set_subset_finite(all.to_set(), words(s));
}

/// How many words two texts have in common is the same from either side, is no more than either has
/// and all of them where the texts are the same, and is nothing exactly where they share none.
pub proof fn common_words_are_counted(a: Seq<char>, b: Seq<char>)
    ensures
        overlap(a, b) == overlap(b, a),
        overlap(a, b) <= words(a).len(),
        overlap(a, b) <= words(b).len(),
        overlap(a, a) == words(a).len(),
        overlap(a, b) == 0 <==> forall|w: Seq<char>| #[trigger]
            words(a).contains(w) ==> !words(b).contains(w),
        overlap(a, b) == words(a).len() <==> forall|w: Seq<char>| #[trigger]
            words(a).contains(w) ==> words(b).contains(w),
{
    a_text_has_finitely_many_words(a);
    a_text_has_finitely_many_words(b);
    let both = words(a).intersect(words(b));
    assert(both =~= words(b).intersect(words(a)));
    assert(words(a).intersect(words(a)) =~= words(a));
    vstd::set_lib::lemma_len_subset(both, words(a));
    vstd::set_lib::lemma_len_subset(both, words(b));
    if both.len() == 0 {
        assert(both =~= Set::<Seq<char>>::empty());
        assert forall|w: Seq<char>| #[trigger] words(a).contains(w) implies !words(b).contains(w) by {
            assert(!both.contains(w));
        }
    }
    if forall|w: Seq<char>| #[trigger] words(a).contains(w) ==> !words(b).contains(w) {
        assert(both =~= Set::<Seq<char>>::empty());
    }
    if forall|w: Seq<char>| #[trigger] words(a).contains(w) ==> words(b).contains(w) {
        assert(both =~= words(a));
    }
    if both.len() == words(a).len() {
        assert forall|w: Seq<char>| #[trigger] words(a).contains(w) implies words(b).contains(w) by {
            if !words(b).contains(w) {
                vstd::set_lib::lemma_len_subset(both, words(a).remove(w));
            }
        }
    }
}

/// Words of a belief that the message does not have do not count: the score stays as it is
/// whatever of them is added or taken away.
pub proof fn only_words_of_the_message_count(
    message: Seq<char>,
    belief: Seq<char>,
    other: Seq<char>,
)
    requires
        forall|w: Seq<char>| #[trigger]
            words(message).contains(w) ==> (words(belief).contains(w) <==> words(other).contains(w)),
    ensures
        overlap(message, belief) == overlap(message, other),
{
    assert(words(message).intersect(words(belief)) =~= words(message).intersect(words(other)));
}

/// One more word of the message in a belief makes its score one higher.
pub proof fn one_more_common_word_counts_one(
    message: Seq<char>,
    belief: Seq<char>,
    other: Seq<char>,
    word: Seq<char>,
)
    requires
        words(message).contains(word),
        !words(belief).contains(word),
        words(other).contains(word),
        forall|w: Seq<char>| #[trigger]
            words(message).contains(w) && w != word ==> (words(belief).contains(w)
                <==> words(other).contains(w)),
    ensures
        overlap(message, other) == overlap(message, belief) + 1,
{
    a_text_has_finitely_many_words(message);
    let fewer = words(message).intersect(words(belief));
    vstd::set_lib::lemma_len_subset(fewer, words(message));
    assert(words(message).intersect(words(other)) =~= fewer.insert(word));
}

/// A stretch of a text without white space that cannot be made longer.
spec fn is_run(s: Seq<char>, from: int, to: int) -> bool {
    &&& 0 <= from < to <= s.len()
    &&& forall|i: int| from <= i < to ==> !whitespace(#[trigger] s[i])
    &&& from == 0 || whitespace(s[from - 1])
    &&& to == s.len() || whitespace(s[to])
}

/// Where the runs of a text begin and end.
spec fn spans(s: Seq<char>) -> Seq<(int, int)>
    decreases s.len(),
{
    if s.len() == 0 {
        Seq::empty()
    } else {
        let before = spans(s.drop_last());
        let n = s.len() as int;
        if whitespace(s.last()) {
            before
        } else if n > 1 && !whitespace(s[n - 2]) {
            before.update(before.len() - 1, (before.last().0, n))
        } else {
            before.push((n - 1, n))
        }
    }
}

/// The runs of a text are its stretches without white space, all of them.
proof fn lemma_spans(s: Seq<char>)
    ensures
        spans(s).len() == runs(s).len(),
        forall|k: int|
            0 <= k < spans(s).len() ==> {
                let (from, to) = #[trigger] spans(s)[k];
                is_run(s, from, to) && runs(s)[k] == s.subrange(from, to)
            },
        forall|from: int, to: int| #[trigger] is_run(s, from, to) ==> spans(s).contains((from, to)),
        s.len() > 0 && !whitespace(s.last()) ==> spans(s).len() > 0 && spans(s).last().1 == s.len(),
        forall|k: int|
            0 <= k < spans(s).len() - 1 ==> (#[trigger] spans(s)[k]).1 < s.len(),
    decreases s.len(),
{
    if s.len() > 0 {
        let t = s.drop_last();
        let n = s.len() as int;
        lemma_spans(t);
        let before = spans(t);
        let now = spans(s);
        if whitespace(s.last()) {
            assert forall|k: int| 0 <= k < now.len() implies {
                let (from, to) = #[trigger] now[k];
                is_run(s, from, to) && runs(s)[k] == s.subrange(from, to)
            } by {
                let (from, to) = before[k];
                assert(is_run(t, from, to));
                assert forall|i: int| from <= i < to implies !whitespace(#[trigger] s[i]) by {
                    assert(t[i] == s[i]);
                }
                if from > 0 {
                    assert(t[from - 1] == s[from - 1]);
                }
                if to < n - 1 {
                    assert(t[to] == s[to]);
                }
                assert(t.subrange(from, to) =~= s.subrange(from, to));
            }
            assert forall|from: int, to: int| #[trigger] is_run(s, from, to) implies now.contains(
                (from, to),
            ) by {
                if to == n {
                    assert(whitespace(s[n - 1]));
                }
                assert forall|i: int| from <= i < to implies !whitespace(#[trigger] t[i]) by {
                    assert(t[i] == s[i]);
                }
                if from > 0 {
                    assert(t[from - 1] == s[from - 1]);
                }
                if to < n - 1 {
                    assert(t[to] == s[to]);
                }
                assert(is_run(t, from, to));
            }
        } else if n > 1 && !whitespace(s[n - 2]) {
            assert(t.last() == s[n - 2]);
            let last = before.len() - 1;
            let (start, end) = before[last];
            assert(is_run(t, start, end) && end == n - 1);
            assert forall|k: int| 0 <= k < now.len() implies {
                let (from, to) = #[trigger] now[k];
                is_run(s, from, to) && runs(s)[k] == s.subrange(from, to)
            } by {
                let (from, to) = before[k];
                assert(is_run(t, from, to) && runs(t)[k] == t.subrange(from, to));
                assert forall|i: int| from <= i < to implies !whitespace(#[trigger] s[i]) by {
                    assert(t[i] == s[i]);
                }
                if from > 0 {
                    assert(t[from - 1] == s[from - 1]);
                }
                if k < last {
                    assert(to < n - 1);
                    assert(t[to] == s[to]);
                    assert(t.subrange(from, to) =~= s.subrange(from, to));
                } else {
                    assert(t.subrange(from, to).push(s.last()) =~= s.subrange(from, n));
                }
            }
            assert forall|from: int, to: int| #[trigger] is_run(s, from, to) implies now.contains(
                (from, to),
            ) by {
                if from > 0 {
                    assert(t.len() >= from);
                }
                if to == n {
                    if from == n - 1 {
                        assert(whitespace(s[n - 2]));
                    }
                    assert forall|i: int| from <= i < n - 1 implies !whitespace(#[trigger] t[i]) by {
                        assert(t[i] == s[i]);
                    }
                    if from > 0 {
                        assert(t[from - 1] == s[from - 1]);
                    }
                    assert(is_run(t, from, n - 1));
                    let k = choose|k: int| 0 <= k < before.len() && before[k] == (from, n - 1);
                    assert(k == last);
                    assert(now[last] == (from, to));
                } else {
                    assert forall|i: int| from <= i < to implies !whitespace(#[trigger] t[i]) by {
                        assert(t[i] == s[i]);
                    }
                    if from > 0 {
                        assert(t[from - 1] == s[from - 1]);
                    }
                    if to == n - 1 {
                        assert(whitespace(s[n - 1]));
                    }
                    assert(t[to] == s[to]);
                    assert(is_run(t, from, to));
                    let k = choose|k: int| 0 <= k < before.len() && before[k] == (from, to);
                    assert(k != last);
                    assert(now[k] == (from, to));
                }
            }
            assert(now[last] == (start, n));
            assert forall|k: int| 0 <= k < now.len() - 1 implies (#[trigger] now[k]).1 < n by {
                assert(now[k] == before[k]);
            }
        } else {
            let last = before.len() as int;
            assert forall|k: int| 0 <= k < now.len() implies {
                let (from, to) = #[trigger] now[k];
                is_run(s, from, to) && runs(s)[k] == s.subrange(from, to)
            } by {
                if k < last {
                    let (from, to) = before[k];
                    assert(is_run(t, from, to) && runs(t)[k] == t.subrange(from, to));
                    assert forall|i: int| from <= i < to implies !whitespace(#[trigger] s[i]) by {
                        assert(t[i] == s[i]);
                    }
                    if from > 0 {
                        assert(t[from - 1] == s[from - 1]);
                    }
                    if to == n - 1 {
                        assert(t[to - 1] == s[n - 2]);
                    } else {
                        assert(t[to] == s[to]);
                    }
                    assert(t.subrange(from, to) =~= s.subrange(from, to));
                } else {
                    assert(s.subrange(n - 1, n) =~= seq![s.last()]);
                    assert(is_run(s, n - 1, n));
                }
            }
            assert forall|from: int, to: int| #[trigger] is_run(s, from, to) implies now.contains(
                (from, to),
            ) by {
                if to == n {
                    if from < n - 1 {
                        assert(!whitespace(s[n - 2]));
                    }
                    assert(now[last] == (from, to));
                } else {
                    if to == n - 1 {
                        assert(whitespace(s[n - 1]));
                    }
                    assert forall|i: int| from <= i < to implies !whitespace(#[trigger] t[i]) by {
                        assert(t[i] == s[i]);
                    }
                    if from > 0 {
                        assert(t[from - 1] == s[from - 1]);
                    }
                    assert(t[to] == s[to]);
                    assert(is_run(t, from, to));
                    let k = choose|k: int| 0 <= k < before.len() && before[k] == (from, to);
                    assert(now[k] == (from, to));
                }
            }
            assert forall|k: int| 0 <= k < now.len() - 1 implies (#[trigger] now[k]).1 < n by {
                let (from, to) = before[k];
                assert(is_run(t, from, to));
            }
        }
    }
}

/// What is left of a run without what surrounds its word, and where it stands in the run.
proof fn lemma_trimmed(run: Seq<char>) -> (place: (int, int))
    ensures
        0 <= place.0 <= place.1 <= run.len(),
        trimmed(run) == run.subrange(place.0, place.1),
        forall|i: int| 0 <= i < place.0 ==> !alphanumeric(#[trigger] run[i]),
        forall|i: int| place.1 <= i < run.len() ==> !alphanumeric(#[trigger] run[i]),
        place.0 < place.1 ==> alphanumeric(run[place.0]) && alphanumeric(run[place.1 - 1]),
{
    let from = lemma_trimmed_left(run);
    let rest = run.skip(from);
    let to = lemma_trimmed_right(rest);
    assert(rest.take(to) =~= run.subrange(from, from + to));
    assert forall|i: int| from + to <= i < run.len() implies !alphanumeric(#[trigger] run[i]) by {
        assert(rest[i - from] == run[i]);
    }
    if to > 0 {
        assert(rest[to - 1] == run[from + to - 1]);
        assert(rest[0] == run[from]);
    }
    (from, from + to)
}

/// Where the word of a run begins.
proof fn lemma_trimmed_left(run: Seq<char>) -> (from: int)
    ensures
        0 <= from <= run.len(),
        trimmed_left(run) == run.skip(from),
        forall|i: int| 0 <= i < from ==> !alphanumeric(#[trigger] run[i]),
        from < run.len() ==> alphanumeric(run[from]),
    decreases run.len(),
{
    if run.len() > 0 && !alphanumeric(run[0]) {
        let n = lemma_trimmed_left(run.skip(1));
        assert(run.skip(1).skip(n) =~= run.skip(n + 1));
        assert forall|i: int| 0 <= i < n + 1 implies !alphanumeric(#[trigger] run[i]) by {
            if i > 0 {
                assert(run.skip(1)[i - 1] == run[i]);
            }
        }
        if n + 1 < run.len() {
            assert(run.skip(1)[n] == run[n + 1]);
        }
        n + 1
    } else {
        assert(run.skip(0) =~= run);
        0
    }
}

/// Where the word of a run ends.
proof fn lemma_trimmed_right(run: Seq<char>) -> (to: int)
    ensures
        0 <= to <= run.len(),
        trimmed_right(run) == run.take(to),
        forall|i: int| to <= i < run.len() ==> !alphanumeric(#[trigger] run[i]),
        to > 0 ==> alphanumeric(run[to - 1]),
    decreases run.len(),
{
    if run.len() > 0 && !alphanumeric(run.last()) {
        let shorter = run.drop_last();
        let n = lemma_trimmed_right(shorter);
        assert(shorter.take(n) =~= run.take(n));
        assert forall|i: int| n <= i < run.len() implies !alphanumeric(#[trigger] run[i]) by {
            if i < shorter.len() {
                assert(shorter[i] == run[i]);
            }
        }
        if n > 0 {
            assert(shorter[n - 1] == run[n - 1]);
        }
        n
    } else {
        assert(run.take(run.len() as int) =~= run);
        run.len() as int
    }
}

/// The word stands at this place of the text: it begins and ends with a letter or a number, and
/// what surrounds it up to the next white space or the end has none.
pub open spec fn word_stands_at(s: Seq<char>, w: Seq<char>, i: int) -> bool {
    &&& w.len() > 0 && occurs_at(s, w, i)
    &&& alphanumeric(w[0]) && alphanumeric(w.last())
    &&& forall|j: int| 0 <= j < w.len() ==> !whitespace(#[trigger] w[j])
    &&& exists|from: int, to: int| #[trigger] word_between(s, w.len() as int, i, from, to)
}

/// Around the word there is nothing but punctuation, from the white space or the end on one side to
/// that on the other.
pub open spec fn word_between(s: Seq<char>, n: int, i: int, from: int, to: int) -> bool {
    &&& 0 <= from <= i && i + n <= to <= s.len()
    &&& from == 0 || whitespace(s[from - 1])
    &&& to == s.len() || whitespace(s[to])
    &&& forall|j: int|
        from <= j < i || i + n <= j < to ==> !whitespace(#[trigger] s[j]) && !alphanumeric(s[j])
}

/// The words of a text are what stands in it between white space, without the punctuation around
/// it, and is at least three bytes long: every such word, and nothing else.
pub proof fn the_words_are_what_stands_between_white_space(s: Seq<char>, w: Seq<char>)
    ensures
        words(s).contains(w) <==> encode_utf8(w).len() >= 3 && exists|i: int| #[trigger]
            word_stands_at(s, w, i),
{
    lemma_spans(s);
    if words(s).contains(w) {
        let k = choose|k: int| 0 <= k < runs(s).len() && w == #[trigger] trimmed(runs(s)[k]);
        let (from, to) = spans(s)[k];
        assert(is_run(s, from, to));
        let run = s.subrange(from, to);
        let (a, b) = lemma_trimmed(run);
        if a == b {
            assert(w =~= Seq::<char>::empty());
            assert(encode_utf8(w).len() == 0);
        }
        let i = from + a;
        assert(s.subrange(i, i + w.len()) =~= w);
        assert(w[0] == run[a] && w.last() == run[b - 1]);
        assert forall|j: int| 0 <= j < w.len() implies !whitespace(#[trigger] w[j]) by {
            assert(w[j] == s[i + j]);
        }
        assert forall|j: int| from <= j < i || i + w.len() <= j < to implies !whitespace(
            #[trigger] s[j],
        ) && !alphanumeric(s[j]) by {
            assert(run[j - from] == s[j]);
        }
        assert(word_between(s, w.len() as int, i, from, to));
        assert(word_stands_at(s, w, i));
    }
    if encode_utf8(w).len() >= 3 && exists|i: int| #[trigger] word_stands_at(s, w, i) {
        let i = choose|i: int| #[trigger] word_stands_at(s, w, i);
        let n = w.len() as int;
        let (from, to) = choose|from: int, to: int| #[trigger] word_between(s, n, i, from, to);
        assert forall|j: int| from <= j < to implies !whitespace(#[trigger] s[j]) by {
            if i <= j < i + n {
                assert(w[j - i] == s.subrange(i, i + n)[j - i]);
            }
        }
        assert(is_run(s, from, to));
        assert(spans(s).contains((from, to)));
        let k = choose|k: int| 0 <= k < spans(s).len() && spans(s)[k] == (from, to);
        assert(spans(s)[k] == (from, to));
        let run = s.subrange(from, to);
        assert(runs(s)[k] == run);
        let (a, b) = lemma_trimmed(run);
        assert(run[i - from] == s.subrange(i, i + n)[0]);
        assert(run[i - from + n - 1] == s.subrange(i, i + n)[n - 1]);
        assert(a <= i - from && i - from + n <= b);
        if a < i - from {
            assert(run[a] == s[from + a]);
        }
        if i - from + n < b {
            assert(run[b - 1] == s[from + b - 1]);
        }
        assert(trimmed(runs(s)[k]) =~= w);
        assert(words(s).contains(w));
    }
}

/// A message that contests something does so also inside a longer one: the words around the phrase
/// do not matter.
pub proof fn a_contestation_holds_in_a_longer_message(
    before: Seq<char>,
    message: Seq<char>,
    after: Seq<char>,
)
    requires
        contests(message),
    ensures
        contests(before + message + after),
{
    let k = choose|k: int|
        0 <= k < contestation_phrases().len() && occurs(
            message,
            #[trigger] contestation_phrases()[k],
        );
    let phrase = contestation_phrases()[k];
    let i = choose|i: int| occurs_at(message, phrase, i);
    let all = before + message + after;
    let at = before.len() + i;
    assert(all.subrange(at, at + phrase.len()) =~= message.subrange(i, i + phrase.len()));
    assert(occurs_at(all, phrase, at));
}

/// Each of these phrases contests something wherever it stands, and no other does.
pub proof fn these_phrases_contest(phrase: Seq<char>)
    ensures
        contestation_phrases().contains(phrase) <==> {
            ||| phrase == "isso não é mais verdade"@
            ||| phrase == "isso nao e mais verdade"@
            ||| phrase == "você está errado sobre"@
            ||| phrase == "voce esta errado sobre"@
            ||| phrase == "não é verdade"@
            ||| phrase == "nao e verdade"@
            ||| phrase == "isso está errado"@
            ||| phrase == "isso esta errado"@
            ||| phrase == "você está errada sobre"@
            ||| phrase == "voce esta errada sobre"@
            ||| phrase == "that's not true anymore"@
            ||| phrase == "thats not true anymore"@
            ||| phrase == "you're wrong about"@
            ||| phrase == "youre wrong about"@
            ||| phrase == "that is not true"@
            ||| phrase == "that is no longer true"@
            ||| phrase == "that is wrong"@
            ||| phrase == "that's wrong"@
            ||| phrase == "incorrect about"@
            ||| phrase == "mistaken about"@
        },
        contestation_phrases().contains(phrase) ==> contests(phrase),
{
    let all = contestation_phrases();
    assert(all[0] == "isso não é mais verdade"@);
    assert(all[1] == "isso nao e mais verdade"@);
    assert(all[2] == "você está errado sobre"@);
    assert(all[3] == "voce esta errado sobre"@);
    assert(all[4] == "não é verdade"@);
    assert(all[5] == "nao e verdade"@);
    assert(all[6] == "isso está errado"@);
    assert(all[7] == "isso esta errado"@);
    assert(all[8] == "você está errada sobre"@);
    assert(all[9] == "voce esta errada sobre"@);
    assert(all[10] == "that's not true anymore"@);
    assert(all[11] == "thats not true anymore"@);
    assert(all[12] == "you're wrong about"@);
    assert(all[13] == "youre wrong about"@);
    assert(all[14] == "that is not true"@);
    assert(all[15] == "that is no longer true"@);
    assert(all[16] == "that is wrong"@);
    assert(all[17] == "that's wrong"@);
    assert(all[18] == "incorrect about"@);
    assert(all[19] == "mistaken about"@);
    if all.contains(phrase) {
        let k = choose|k: int| 0 <= k < all.len() && all[k] == phrase;
        assert(phrase.subrange(0, phrase.len() as int) =~= phrase);
        assert(occurs_at(phrase, contestation_phrases()[k], 0));
        assert(occurs(phrase, contestation_phrases()[k]));
    }
}

} // verus!
