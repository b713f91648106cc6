//! The system prompt of a turn: the runtime's own prompt, and what the context providers add.
//!
//! A provider gives blocks of text that nobody looks into. A block goes in where its own tier
//! lets it go to the destination of the prompt, whatever the tier of the turn. Providers that
//! say the same in every turn come first, so that what they contribute can be cached; the
//! boundary behind them is where the cached part ends.
use vstd::prelude::*;
use crate::hooks::egress::{check_egress, may_leave};
use crate::hooks::guardrails::byte_len;
use crate::text;
use crate::text::{joined, views};
use crate::types::PrivacyTier;

verus! {

/// What every system prompt begins with.
pub const DEFAULT_SYSTEM_PROMPT: &'static str = "You are Bastion, a proactive personal AI assistant.";

/// A piece of context, with the tier of the data in it.
#[derive(Debug, PartialEq)]
pub struct ContextBlock {
    pub content: String,
    pub max_tier: PrivacyTier,
}

impl Clone for ContextBlock {
    fn clone(&self) -> (r: Self)
        ensures
            r == *self,
    {
        ContextBlock { content: self.content.clone(), max_tier: self.max_tier }
    }
}

/// What one provider contributes to a turn, and whether it contributes the same to every turn.
#[derive(Debug)]
pub struct Contribution {
    pub blocks: Vec<ContextBlock>,
    pub turn_invariant: bool,
}

/// The blocks that may go to the destination, in their order.
pub open spec fn admitted(blocks: Seq<ContextBlock>, destination: Seq<char>) -> Seq<Seq<char>>
    decreases blocks.len(),
{
    if blocks.len() == 0 {
        Seq::empty()
    } else {
        let earlier = admitted(blocks.drop_last(), destination);
        if may_leave(Some(blocks.last().max_tier), destination) {
            earlier.push(blocks.last().content@)
        } else {
            earlier
        }
    }
}

/// What the providers add to a prompt for the destination, in their order.
pub open spec fn contributed(contributions: Seq<Contribution>, destination: Seq<char>) -> Seq<
    Seq<char>,
>
    decreases contributions.len(),
{
    if contributions.len() == 0 {
        Seq::empty()
    } else {
        contributed(contributions.drop_last(), destination) + admitted(
            contributions.last().blocks@,
            destination,
        )
    }
}

/// The parts of a prompt for the destination.
pub open spec fn prompt_parts(contributions: Seq<Contribution>, destination: Seq<char>) -> Seq<
    Seq<char>,
> {
    seq![DEFAULT_SYSTEM_PROMPT@] + contributed(contributions, destination)
}

/// The providers before the first one that varies from turn to turn.
pub open spec fn stable_prefix(contributions: Seq<Contribution>) -> Seq<Contribution>
    decreases contributions.len(),
{
    if contributions.len() == 0 {
        contributions
    } else {
        let earlier = stable_prefix(contributions.drop_last());
        if earlier == contributions.drop_last() && contributions.last().turn_invariant {
            contributions
        } else {
            earlier
        }
    }
}

/// The parts of the prompt that are the same in every turn.
pub open spec fn stable_parts(contributions: Seq<Contribution>, destination: Seq<char>) -> Seq<
    Seq<char>,
> {
    prompt_parts(stable_prefix(contributions), destination)
}

/// Adds the blocks that may go to the destination.
fn push_admitted(parts: &mut Vec<String>, blocks: &Vec<ContextBlock>, destination: &str)
    ensures
        views(final(parts)@) == views(old(parts)@) + admitted(blocks@, destination@),
{
    let mut i: usize = 0;
    assert(views(parts@) =~= views(old(parts)@) + admitted(blocks@.take(0), destination@));
    while i < blocks.len()
        invariant
            i <= blocks@.len(),
            views(parts@) == views(old(parts)@) + admitted(blocks@.take(i as int), destination@),
        decreases blocks@.len() - i,
    {
        let ghost before = views(parts@);
        proof {
            let next = blocks@.take(i + 1);
            assert(next.drop_last() =~= blocks@.take(i as int));
            assert(next.last() == blocks@[i as int]);
        }
        if check_egress(Some(blocks[i].max_tier), destination).is_ok() {
            parts.push(blocks[i].content.clone());
            assert(views(parts@) =~= before.push(blocks@[i as int].content@));
        }
        i = i + 1;
        assert(views(parts@) =~= views(old(parts)@) + admitted(blocks@.take(i as int), destination@));
    }
    assert(blocks@.take(blocks@.len() as int) =~= blocks@);
}

/// The parts of the prompt for a destination: the runtime's own, and what may go there of what
/// the providers contribute. The destination is the provider or the runtime that the prompt is
/// for.
pub fn build_system_prompt_parts(contributions: &Vec<Contribution>, destination: &str) -> (r: Vec<
    String,
>)
    ensures
        views(r@) == prompt_parts(contributions@, destination@),
{
    let mut parts: Vec<String> = Vec::new();
    parts.push(DEFAULT_SYSTEM_PROMPT.to_owned());
    let mut i: usize = 0;
    assert(views(parts@) =~= prompt_parts(contributions@.take(0), destination@));
    while i < contributions.len()
        invariant
            i <= contributions@.len(),
            views(parts@) == prompt_parts(contributions@.take(i as int), destination@),
        decreases contributions@.len() - i,
    {
        proof {
            let next = contributions@.take(i + 1);
            assert(next.drop_last() =~= contributions@.take(i as int));
            assert(next.last() == contributions@[i as int]);
        }
        push_admitted(&mut parts, &contributions[i].blocks, destination);
        i = i + 1;
        assert(views(parts@) =~= prompt_parts(contributions@.take(i as int), destination@));
    }
    assert(contributions@.take(contributions@.len() as int) =~= contributions@);
    parts
}

/// The prompt for a destination: its parts, with an empty line between them.
pub fn build_system_prompt(contributions: &Vec<Contribution>, destination: &str) -> (r: String)
    ensures
        r@ == joined(prompt_parts(contributions@, destination@), "\n\n"@),
{
    let parts: Vec<String> = build_system_prompt_parts(contributions, destination);
    text::join(&parts, "\n\n")
}

/// How many providers stand before the first one that varies from turn to turn.
fn stable_count(contributions: &Vec<Contribution>) -> (r: usize)
    ensures
        r <= contributions@.len(),
        contributions@.take(r as int) == stable_prefix(contributions@),
{
    let mut i: usize = 0;
    assert(stable_prefix(contributions@.take(0)) =~= contributions@.take(0));
    while i < contributions.len() && contributions[i].turn_invariant
        invariant
            i <= contributions@.len(),
            stable_prefix(contributions@.take(i as int)) == contributions@.take(i as int),
        decreases contributions@.len() - i,
    {
        proof {
            let next = contributions@.take(i + 1);
            assert(next.drop_last() =~= contributions@.take(i as int));
            assert(next.last() == contributions@[i as int]);
        }
        i = i + 1;
    }
    proof {
        lemma_stable_prefix_ends(contributions@, i as nat);
    }
    i
}

/// The providers that vary, and all behind them, are not in the stable prefix.
proof fn lemma_stable_prefix_ends(contributions: Seq<Contribution>, n: nat)
    requires
        n <= contributions.len(),
        stable_prefix(contributions.take(n as int)) == contributions.take(n as int),
        n < contributions.len() ==> !contributions[n as int].turn_invariant,
    ensures
        stable_prefix(contributions) == contributions.take(n as int),
    decreases contributions.len(),
{
    if n == contributions.len() {
        assert(contributions.take(n as int) =~= contributions);
    } else {
        let shorter = contributions.drop_last();
        assert(shorter.take(n as int) =~= contributions.take(n as int));
        if n < shorter.len() {
            assert(shorter[n as int] == contributions[n as int]);
        }
        lemma_stable_prefix_ends(shorter, n);
        if n < shorter.len() {
            assert(contributions.take(n as int).len() != shorter.len());
        }
    }
}

/// What is joined of some parts, as it grows by the ones that follow.
proof fn lemma_joined_grows(first: Seq<Seq<char>>, more: Seq<Seq<char>>, sep: Seq<char>)
    requires
        first.len() > 0,
    ensures
        text::begins_with(joined(first + more, sep), joined(first, sep)),
        more.len() == 0 ==> joined(first + more, sep) == joined(first, sep),
    decreases more.len(),
{
    if more.len() == 0 {
        assert(first + more =~= first);
        let all = joined(first, sep);
        assert(all.subrange(0, all.len() as int) =~= all);
    } else {
        lemma_joined_grows(first, more.drop_last(), sep);
        assert((first + more).drop_last() =~= first + more.drop_last());
        let shorter = joined(first + more.drop_last(), sep);
        let longer = joined(first + more, sep);
        let prefix = joined(first, sep);
        assert(longer =~= shorter + sep + more.last());
        assert(longer.subrange(0, prefix.len() as int) =~= shorter.subrange(
            0,
            prefix.len() as int,
        ));
    }
}

/// The contributions behind the stable prefix add to what the prefix contributes.
proof fn lemma_contributed_splits(
    contributions: Seq<Contribution>,
    destination: Seq<char>,
    n: int,
) -> (rest: Seq<Seq<char>>)
    requires
        0 <= n <= contributions.len(),
    ensures
        contributed(contributions, destination) == contributed(contributions.take(n), destination)
            + rest,
    decreases contributions.len(),
{
    if n == contributions.len() {
        assert(contributions.take(n) =~= contributions);
        let rest = Seq::<Seq<char>>::empty();
        assert(contributed(contributions, destination) + rest =~= contributed(
            contributions,
            destination,
        ));
        rest
    } else {
        let shorter = contributions.drop_last();
        assert(shorter.take(n) =~= contributions.take(n));
        let earlier = lemma_contributed_splits(shorter, destination, n);
        let rest = earlier + admitted(contributions.last().blocks@, destination);
        assert(contributed(contributions, destination) =~= contributed(
            contributions.take(n),
            destination,
        ) + rest);
        rest
    }
}

/// The prompt for a destination, and the byte at which the part ends that is the same in every
/// turn.
pub fn build_system_prompt_with_cache_boundary(
    contributions: &Vec<Contribution>,
    destination: &str,
) -> (r: (String, usize))
    ensures
        r.0@ == joined(prompt_parts(contributions@, destination@), "\n\n"@),
        r.1 == byte_len(joined(stable_parts(contributions@, destination@), "\n\n"@)),
        text::begins_with(r.0@, joined(stable_parts(contributions@, destination@), "\n\n"@)),
{
    let n: usize = stable_count(contributions);
    let mut parts: Vec<String> = Vec::new();
    parts.push(DEFAULT_SYSTEM_PROMPT.to_owned());
    let mut boundary: usize = DEFAULT_SYSTEM_PROMPT.len();
    let mut i: usize = 0;
    assert(views(parts@) =~= prompt_parts(contributions@.take(0), destination@));
    let ghost sep = "\n\n"@;
    proof {
        assert(joined(prompt_parts(contributions@.take(0), destination@), sep)
            == DEFAULT_SYSTEM_PROMPT@);
    }
    while i < contributions.len()
        invariant
            i <= contributions@.len(),
            n <= contributions@.len(),
            contributions@.take(n as int) == stable_prefix(contributions@),
            sep == "\n\n"@,
            views(parts@) == prompt_parts(contributions@.take(i as int), destination@),
            boundary == byte_len(
                joined(
                    prompt_parts(
                        contributions@.take(
                            if i < n {
                                i as int
                            } else {
                                n as int
                            },
                        ),
                        destination@,
                    ),
                    sep,
                ),
            ),
        decreases contributions@.len() - i,
    {
        proof {
            let next = contributions@.take(i + 1);
            assert(next.drop_last() =~= contributions@.take(i as int));
            assert(next.last() == contributions@[i as int]);
        }
        push_admitted(&mut parts, &contributions[i].blocks, destination);
        i = i + 1;
        assert(views(parts@) =~= prompt_parts(contributions@.take(i as int), destination@));
        if i <= n {
            let stable: String = text::join(&parts, "\n\n");
            boundary = stable.as_str().len();
        }
    }
    assert(contributions@.take(contributions@.len() as int) =~= contributions@);
    let prompt: String = text::join(&parts, "\n\n");
    proof {
        let rest = lemma_contributed_splits(contributions@, destination@, n as int);
        let stable = stable_parts(contributions@, destination@);
        assert(prompt_parts(contributions@, destination@) =~= stable + rest);
        lemma_joined_grows(stable, rest, sep);
    }
    (prompt, boundary)
}

/// What is host-only stays out of a prompt that leaves the host, whatever the turn is cleared
/// for: every part but the first is a block that its own tier lets go there.
pub proof fn only_cleared_blocks_are_in_a_prompt(
    contributions: Seq<Contribution>,
    destination: Seq<char>,
    part: Seq<char>,
)
    requires
        contributed(contributions, destination).contains(part),
    ensures
        exists|i: int, j: int|
            #![trigger contributions[i].blocks@[j]]
            {
                &&& 0 <= i < contributions.len()
                &&& 0 <= j < contributions[i].blocks@.len()
                &&& contributions[i].blocks@[j].content@ == part
                &&& may_leave(Some(contributions[i].blocks@[j].max_tier), destination)
            },
    decreases contributions.len(),
{
    let shorter = contributions.drop_last();
    let own = admitted(contributions.last().blocks@, destination);
    let earlier = contributed(shorter, destination);
    let at = choose|k: int|
        0 <= k < contributed(contributions, destination).len() && contributed(
            contributions,
            destination,
        )[k] == part;
    if at < earlier.len() {
        assert(earlier[at] == part);
        only_cleared_blocks_are_in_a_prompt(shorter, destination, part);
        let (i, j) = choose|i: int, j: int|
            #![trigger shorter[i].blocks@[j]]
            {
                &&& 0 <= i < shorter.len()
                &&& 0 <= j < shorter[i].blocks@.len()
                &&& shorter[i].blocks@[j].content@ == part
                &&& may_leave(Some(shorter[i].blocks@[j].max_tier), destination)
            };
        assert(contributions[i].blocks@[j] == shorter[i].blocks@[j]);
    } else {
        assert(own[at - earlier.len()] == part);
        let j = lemma_admitted_comes_from(contributions.last().blocks@, destination, part);
        let i = contributions.len() - 1;
        assert(contributions[i].blocks@[j].content@ == part);
    }
}

/// What is admitted is a block that may go to the destination.
proof fn lemma_admitted_comes_from(
    blocks: Seq<ContextBlock>,
    destination: Seq<char>,
    part: Seq<char>,
) -> (j: int)
    requires
        admitted(blocks, destination).contains(part),
    ensures
        0 <= j < blocks.len(),
        blocks[j].content@ == part,
        may_leave(Some(blocks[j].max_tier), destination),
    decreases blocks.len(),
{
    let earlier = admitted(blocks.drop_last(), destination);
    let all = admitted(blocks, destination);
    let at = choose|k: int| 0 <= k < all.len() && all[k] == part;
    if at < earlier.len() {
        assert(earlier[at] == part);
        lemma_admitted_comes_from(blocks.drop_last(), destination, part)
    } else {
        blocks.len() - 1
    }
}

/// Two turns with the same stable providers have the same boundary and the same text before it,
/// whatever the other providers say.
pub proof fn the_cached_part_is_the_same_in_every_turn(
    one: Seq<Contribution>,
    other: Seq<Contribution>,
    destination: Seq<char>,
)
    requires
        stable_prefix(one) == stable_prefix(other),
    ensures
        ({
            let a = joined(stable_parts(one, destination), "\n\n"@);
            let b = joined(stable_parts(other, destination), "\n\n"@);
            &&& a == b
            &&& byte_len(a) == byte_len(b)
            &&& joined(prompt_parts(one, destination), "\n\n"@).take(a.len() as int) == a
            &&& joined(prompt_parts(other, destination), "\n\n"@).take(a.len() as int) == a
        }),
{
    lemma_prompt_begins_with_stable(one, destination);
    lemma_prompt_begins_with_stable(other, destination);
    let a = joined(stable_parts(one, destination), "\n\n"@);
    let x = joined(prompt_parts(one, destination), "\n\n"@);
    let y = joined(prompt_parts(other, destination), "\n\n"@);
    assert(x.take(a.len() as int) =~= x.subrange(0, a.len() as int));
    assert(y.take(a.len() as int) =~= y.subrange(0, a.len() as int));
}

/// A prompt begins with its stable part.
proof fn lemma_prompt_begins_with_stable(contributions: Seq<Contribution>, destination: Seq<char>)
    ensures
        text::begins_with(
            joined(prompt_parts(contributions, destination), "\n\n"@),
            joined(stable_parts(contributions, destination), "\n\n"@),
        ),
{
    let n = lemma_stable_prefix_is_a_prefix(contributions);
    let rest = lemma_contributed_splits(contributions, destination, n);
    let stable = stable_parts(contributions, destination);
    assert(prompt_parts(contributions, destination) =~= stable + rest);
    lemma_joined_grows(stable, rest, "\n\n"@);
}

/// The stable prefix is a prefix.
proof fn lemma_stable_prefix_is_a_prefix(contributions: Seq<Contribution>) -> (n: int)
    ensures
        0 <= n <= contributions.len(),
        stable_prefix(contributions) == contributions.take(n),
    decreases contributions.len(),
{
    if contributions.len() == 0 {
        assert(contributions.take(0) =~= contributions);
        0
    } else {
        let n = lemma_stable_prefix_is_a_prefix(contributions.drop_last());
        assert(contributions.drop_last().take(n) =~= contributions.take(n));
        assert(contributions.take(contributions.len() as int) =~= contributions);
        if stable_prefix(contributions) == contributions {
            contributions.len() as int
        } else {
            n
        }
    }
}

/// A provider that varies ends the cached part where it stands: nothing behind it is in it.
pub proof fn a_volatile_provider_ends_the_cached_part(contributions: Seq<Contribution>, n: nat)
    requires
        n < contributions.len(),
        !contributions[n as int].turn_invariant,
    ensures
        stable_prefix(contributions).len() <= n,
    decreases contributions.len(),
{
    let shorter = contributions.drop_last();
    if n < shorter.len() {
        assert(shorter[n as int] == contributions[n as int]);
        a_volatile_provider_ends_the_cached_part(shorter, n);
    } else {
        let k = lemma_stable_prefix_is_a_prefix(shorter);
    }
}

/// What a provider contributes is all that its blocks let go to the destination, and in their
/// order: one part for each such block, no more and no fewer.
pub proof fn a_provider_contributes_all_that_may_go(
    blocks: Seq<ContextBlock>,
    destination: Seq<char>,
)
    ensures
        admitted(blocks, destination) == blocks.filter(
            |block: ContextBlock| may_leave(Some(block.max_tier), destination),
        ).map_values(|block: ContextBlock| block.content@),
        admitted(blocks, destination).len() == blocks.filter(
            |block: ContextBlock| may_leave(Some(block.max_tier), destination),
        ).len(),
    decreases blocks.len(),
{
    reveal(Seq::filter);
    let may = |block: ContextBlock| may_leave(Some(block.max_tier), destination);
    let content = |block: ContextBlock| block.content@;
    if blocks.len() == 0 {
        assert(admitted(blocks, destination) =~= blocks.filter(may).map_values(content));
    } else {
        a_provider_contributes_all_that_may_go(blocks.drop_last(), destination);
        let earlier = blocks.drop_last().filter(may);
        assert(earlier.push(blocks.last()).map_values(content) =~= earlier.map_values(content).push(
            blocks.last().content@,
        ));
        assert(admitted(blocks, destination) =~= blocks.filter(may).map_values(content));
    }
}

/// One more block at the end of a provider adds its text where it may go to the destination, and
/// nothing where it may not.
pub proof fn one_more_block_adds_its_text(
    blocks: Seq<ContextBlock>,
    block: ContextBlock,
    destination: Seq<char>,
)
    ensures
        admitted(blocks.push(block), destination) == if may_leave(
            Some(block.max_tier),
            destination,
        ) {
            admitted(blocks, destination).push(block.content@)
        } else {
            admitted(blocks, destination)
        },
{
    assert(blocks.push(block).drop_last() =~= blocks);
}

/// The prompt is complete and in order: behind the runtime's own words stand the blocks of all the
/// providers, one provider after the other, all those that may go to the destination and no others.
pub proof fn a_prompt_holds_all_that_may_go(
    contributions: Seq<Contribution>,
    destination: Seq<char>,
)
    ensures
        prompt_parts(contributions, destination) == seq![
            "You are Bastion, a proactive personal AI assistant."@,
        ] + contributions.map_values(|given: Contribution| given.blocks@).flatten().filter(
            |block: ContextBlock| may_leave(Some(block.max_tier), destination),
        ).map_values(|block: ContextBlock| block.content@),
{
    lemma_contributed_whole(contributions, destination);
}

/// What the providers add is what may go of all their blocks.
proof fn lemma_contributed_whole(contributions: Seq<Contribution>, destination: Seq<char>)
    ensures
        contributed(contributions, destination) == contributions.map_values(
            |given: Contribution| given.blocks@,
        ).flatten().filter(
            |block: ContextBlock| may_leave(Some(block.max_tier), destination),
        ).map_values(|block: ContextBlock| block.content@),
    decreases contributions.len(),
{
    let may = |block: ContextBlock| may_leave(Some(block.max_tier), destination);
    let content = |block: ContextBlock| block.content@;
    let given = |given: Contribution| given.blocks@;
    let lists = contributions.map_values(given);
    if contributions.len() == 0 {
        reveal(Seq::filter);
        assert(lists.flatten() =~= Seq::<ContextBlock>::empty());
        assert(contributed(contributions, destination) =~= lists.flatten().filter(may).map_values(
            content,
        ));
    } else {
        let shorter = contributions.drop_last();
        lemma_contributed_whole(shorter, destination);
        let last = contributions.last().blocks@;
        a_provider_contributes_all_that_may_go(last, destination);
        assert(lists.drop_last() =~= shorter.map_values(given));
        lists.lemma_flatten_and_flatten_alt_are_equivalent();
        lists.drop_last().lemma_flatten_and_flatten_alt_are_equivalent();
        let before = shorter.map_values(given).flatten();
        assert(lists.flatten() =~= before + last);
        Seq::filter_distributes_over_add(before, last, may);
        assert((before.filter(may) + last.filter(may)).map_values(content) =~= before.filter(
            may,
        ).map_values(content) + last.filter(may).map_values(content));
    }
}

/// Whatever of a provider may go to the destination stands in the prompt for it.
pub proof fn what_may_go_is_in_the_prompt(
    contributions: Seq<Contribution>,
    destination: Seq<char>,
    i: int,
    j: int,
)
    requires
        0 <= i < contributions.len(),
        0 <= j < contributions[i].blocks@.len(),
        may_leave(Some(contributions[i].blocks@[j].max_tier), destination),
    ensures
        contributed(contributions, destination).contains(contributions[i].blocks@[j].content@),
        text::occurs(
            joined(prompt_parts(contributions, destination), "\n\n"@),
            contributions[i].blocks@[j].content@,
        ),
{
    let part = contributions[i].blocks@[j].content@;
    lemma_contributed_contains(contributions, destination, i, j);
    let added = contributed(contributions, destination);
    let k = choose|k: int| 0 <= k < added.len() && added[k] == part;
    let parts = prompt_parts(contributions, destination);
    assert(parts[k + 1] == part);
    let places = text::every_part_stands_in_what_is_joined(parts, "\n\n"@);
    assert(text::occurs_at(joined(parts, "\n\n"@), parts[k + 1], places[k + 1]));
}

/// What may go is among what the providers add.
proof fn lemma_contributed_contains(
    contributions: Seq<Contribution>,
    destination: Seq<char>,
    i: int,
    j: int,
)
    requires
        0 <= i < contributions.len(),
        0 <= j < contributions[i].blocks@.len(),
        may_leave(Some(contributions[i].blocks@[j].max_tier), destination),
    ensures
        contributed(contributions, destination).contains(contributions[i].blocks@[j].content@),
    decreases contributions.len(),
{
    let part = contributions[i].blocks@[j].content@;
    let shorter = contributions.drop_last();
    let earlier = contributed(shorter, destination);
    let own = admitted(contributions.last().blocks@, destination);
    let all = contributed(contributions, destination);
    if i < shorter.len() {
        lemma_contributed_contains(shorter, destination, i, j);
        let k = choose|k: int| 0 <= k < earlier.len() && earlier[k] == part;
        assert(all[k] == part);
    } else {
        lemma_admitted_contains(contributions.last().blocks@, destination, j);
        let k = choose|k: int| 0 <= k < own.len() && own[k] == part;
        assert(all[earlier.len() + k] == part);
    }
}

/// What may go is among what is admitted.
proof fn lemma_admitted_contains(blocks: Seq<ContextBlock>, destination: Seq<char>, j: int)
    requires
        0 <= j < blocks.len(),
        may_leave(Some(blocks[j].max_tier), destination),
    ensures
        admitted(blocks, destination).contains(blocks[j].content@),
    decreases blocks.len(),
{
    let all = admitted(blocks, destination);
    let earlier = admitted(blocks.drop_last(), destination);
    if j < blocks.len() - 1 {
        lemma_admitted_contains(blocks.drop_last(), destination, j);
        let k = choose|k: int| 0 <= k < earlier.len() && earlier[k] == blocks[j].content@;
        assert(all[k] == blocks[j].content@);
    } else {
        assert(all[all.len() - 1] == blocks[j].content@);
    }
}

/// The cached part reaches as far as it can: where all the providers before some place say the same
/// in every turn, they are all in it, and the first that varies is not.
pub proof fn the_cached_part_ends_at_the_first_that_varies(
    contributions: Seq<Contribution>,
    n: int,
)
    requires
        0 <= n <= contributions.len(),
        forall|i: int| 0 <= i < n ==> (#[trigger] contributions[i]).turn_invariant,
        n < contributions.len() ==> !contributions[n].turn_invariant,
    ensures
        stable_prefix(contributions) == contributions.take(n),
{
    lemma_all_stable(contributions.take(n));
    lemma_stable_prefix_ends(contributions, n as nat);
}

/// Providers that all say the same in every turn are all in the cached part.
proof fn lemma_all_stable(contributions: Seq<Contribution>)
    requires
        forall|i: int|
            0 <= i < contributions.len() ==> (#[trigger] contributions[i]).turn_invariant,
    ensures
        stable_prefix(contributions) == contributions,
    decreases contributions.len(),
{
    if contributions.len() > 0 {
        let shorter = contributions.drop_last();
        assert forall|i: int| 0 <= i < shorter.len() implies (#[trigger] shorter[i]).turn_invariant by {
            assert(shorter[i] == contributions[i]);
        }
        lemma_all_stable(shorter);
    }
}

} // verus!
