//! Compaction of a long conversation: the recent messages stay as they are, and a summary takes
//! the place of the older ones.
use vstd::prelude::*;
use crate::hooks::guardrails::byte_len;
use crate::text;
use crate::text::{joined, occurs_at, views};
use crate::types::{BastionError, ContentPart, Message, MessageContent, Role};

verus! {

/// How many messages stay as they are.
pub const DEFAULT_KEEP_LAST: usize = 20;

/// How full the context is, in per cent, when a conversation is compacted.
pub const DEFAULT_THRESHOLD_PERCENT: u32 = 80;

/// The tokens of a piece of a message, as a rule of thumb: a quarter of the bytes of a text, and
/// fifty for anything else.
pub open spec fn part_tokens(part: ContentPart) -> nat {
    match part {
        ContentPart::Text { text } => byte_len(text@) as nat / 4,
        _ => 50,
    }
}

/// The tokens of the pieces of a message.
pub open spec fn parts_tokens(parts: Seq<ContentPart>) -> nat
    decreases parts.len(),
{
    if parts.len() == 0 {
        0
    } else {
        parts_tokens(parts.drop_last()) + part_tokens(parts.last())
    }
}

/// The tokens of a message.
pub open spec fn message_tokens(message: Message) -> nat {
    match message.content {
        MessageContent::Text(text) => byte_len(text@) as nat / 4,
        MessageContent::Parts(parts) => parts_tokens(parts@),
    }
}

/// The tokens of a conversation.
pub open spec fn estimated_tokens(messages: Seq<Message>) -> nat
    decreases messages.len(),
{
    if messages.len() == 0 {
        0
    } else {
        estimated_tokens(messages.drop_last()) + message_tokens(messages.last())
    }
}

/// A sum, unless it is too large to be counted.
fn plus(total: u32, more: u64) -> (r: Option<u32>)
    ensures
        match r {
            Some(sum) => sum == total + more,
            None => total + more > u32::MAX,
        },
{
    if more > (u32::MAX - total) as u64 {
        None
    } else {
        Some(total + more as u32)
    }
}

/// Fewer messages have no more tokens.
proof fn lemma_fewer_messages(messages: Seq<Message>, n: nat)
    requires
        n <= messages.len(),
    ensures
        estimated_tokens(messages.take(n as int)) <= estimated_tokens(messages),
    decreases messages.len(),
{
    if n == messages.len() {
        assert(messages.take(n as int) =~= messages);
    } else {
        assert(messages.drop_last().take(n as int) =~= messages.take(n as int));
        lemma_fewer_messages(messages.drop_last(), n);
    }
}

/// Fewer pieces have no more tokens.
proof fn lemma_fewer_parts(parts: Seq<ContentPart>, n: nat)
    requires
        n <= parts.len(),
    ensures
        parts_tokens(parts.take(n as int)) <= parts_tokens(parts),
    decreases parts.len(),
{
    if n == parts.len() {
        assert(parts.take(n as int) =~= parts);
    } else {
        assert(parts.drop_last().take(n as int) =~= parts.take(n as int));
        lemma_fewer_parts(parts.drop_last(), n);
    }
}

/// The tokens of the pieces of a message, unless they are too many to be counted.
fn count_parts(parts: &Vec<ContentPart>) -> (r: Option<u32>)
    ensures
        match r {
            Some(n) => n == parts_tokens(parts@),
            None => parts_tokens(parts@) > u32::MAX,
        },
{
    let mut total: u32 = 0;
    let mut i: usize = 0;
    while i < parts.len()
        invariant
            i <= parts@.len(),
            total == parts_tokens(parts@.take(i as int)),
        decreases parts@.len() - i,
    {
        proof {
            let next = parts@.take(i + 1);
            assert(next.drop_last() =~= parts@.take(i as int));
            assert(next.last() == parts@[i as int]);
            lemma_fewer_parts(parts@, (i + 1) as nat);
        }
        let more: u64 = match &parts[i] {
            ContentPart::Text { text } => (text.as_str().len() / 4) as u64,
            _ => 50,
        };
        match plus(total, more) {
            Some(sum) => {
                total = sum;
            },
            None => {
                return None;
            },
        }
        i = i + 1;
    }
    assert(parts@.take(parts@.len() as int) =~= parts@);
    Some(total)
}

/// The tokens of a conversation, unless they are too many to be counted.
pub fn count_tokens(messages: &Vec<Message>) -> (r: Option<u32>)
    ensures
        match r {
            Some(n) => n == estimated_tokens(messages@),
            None => estimated_tokens(messages@) > u32::MAX,
        },
{
    let mut total: u32 = 0;
    let mut i: usize = 0;
    while i < messages.len()
        invariant
            i <= messages@.len(),
            total == estimated_tokens(messages@.take(i as int)),
        decreases messages@.len() - i,
    {
        proof {
            let next = messages@.take(i + 1);
            assert(next.drop_last() =~= messages@.take(i as int));
            assert(next.last() == messages@[i as int]);
            lemma_fewer_messages(messages@, (i + 1) as nat);
        }
        let more: u64 = match &messages[i].content {
            MessageContent::Text(text) => (text.as_str().len() / 4) as u64,
            MessageContent::Parts(parts) => match count_parts(parts) {
                Some(n) => n as u64,
                None => {
                    return None;
                },
            },
        };
        match plus(total, more) {
            Some(sum) => {
                total = sum;
            },
            None => {
                return None;
            },
        }
        i = i + 1;
    }
    assert(messages@.take(messages@.len() as int) =~= messages@);
    Some(total)
}

/// The name of a role in a transcript.
pub open spec fn role_text(role: Role) -> Seq<char> {
    match role {
        Role::System => "system"@,
        Role::User => "user"@,
        Role::Assistant => "assistant"@,
        Role::Tool => "tool"@,
    }
}

/// One message in a transcript. What is not plain text is only mentioned.
pub open spec fn transcript_line(message: Message) -> Seq<char> {
    "["@ + role_text(message.role) + "]: "@ + match message.content {
        MessageContent::Text(text) => text@,
        MessageContent::Parts(_) => "[structured content]"@,
    }
}

/// The transcript of a conversation, line by line.
pub open spec fn transcript(messages: Seq<Message>) -> Seq<char> {
    joined(Seq::new(messages.len(), |i: int| transcript_line(messages[i])), "\n"@)
}

/// What a model is asked in order to summarise a conversation.
pub open spec fn summary_prompt(messages: Seq<Message>) -> Seq<char> {
    "Summarize the following conversation history concisely, preserving key decisions, facts, and context needed for continuity:\n\n"@
        + transcript(messages)
}

/// What a model is asked in order to summarise a conversation.
fn prompt_for_summary(messages: &Vec<Message>) -> (r: String)
    ensures
        r@ == summary_prompt(messages@),
{
    let ghost lines = Seq::new(messages@.len(), |i: int| transcript_line(messages@[i]));
    let mut out: Vec<String> = Vec::new();
    let mut i: usize = 0;
    while i < messages.len()
        invariant
            i <= messages@.len(),
            lines == Seq::new(messages@.len(), |i: int| transcript_line(messages@[i])),
            views(out@) == lines.take(i as int),
        decreases messages@.len() - i,
    {
        let role: &str = match messages[i].role {
            Role::System => "system",
            Role::User => "user",
            Role::Assistant => "assistant",
            Role::Tool => "tool",
        };
        let content: &str = match &messages[i].content {
            MessageContent::Text(text) => text.as_str(),
            MessageContent::Parts(_) => "[structured content]",
        };
        let mut line: String = "[".to_owned();
        line.append(role);
        line.append("]: ");
        line.append(content);
        let ghost said = line@;
        let ghost before = views(out@);
        out.push(line);
        assert(said == lines[i as int]);
        assert(views(out@) =~= before.push(said));
        i = i + 1;
        assert(views(out@) =~= lines.take(i as int));
    }
    assert(views(out@) =~= lines);
    let history: String = text::join(&out, "\n");
    text::concat2(
        "Summarize the following conversation history concisely, preserving key decisions, facts, and context needed for continuity:\n\n",
        history.as_str(),
    )
}

/// What to do with a conversation that has become too long.
pub enum CompactPlan {
    /// There is nothing to summarise.
    Keep(Vec<Message>),
    /// Ask a model this, and put the answer in place of the older messages.
    Summarise { prompt: String, recent: Vec<Message> },
}

/// Compacts conversations.
#[derive(Debug)]
pub struct AutoCompact {
    /// How full the context must be, in per cent.
    pub threshold_percent: u32,
    /// How many messages stay as they are.
    pub keep_last: usize,
}

impl Default for AutoCompact {
    fn default() -> (r: Self)
        ensures
            r.threshold_percent == DEFAULT_THRESHOLD_PERCENT,
            r.keep_last == DEFAULT_KEEP_LAST,
    {
        AutoCompact {
            threshold_percent: DEFAULT_THRESHOLD_PERCENT,
            keep_last: DEFAULT_KEEP_LAST,
        }
    }
}

impl AutoCompact {
    /// One with the usual threshold that keeps the usual number of messages.
    pub fn new() -> (r: Self)
        ensures
            r.threshold_percent == DEFAULT_THRESHOLD_PERCENT,
            r.keep_last == DEFAULT_KEEP_LAST,
    {
        AutoCompact::default()
    }

    /// Whether a conversation is to be compacted before the model is asked: so many tokens fill
    /// the context up to the threshold. A context without a limit is never full.
    pub fn needs_compaction(&self, used_tokens: u32, context_limit: usize) -> (r: bool)
        ensures
            r == (context_limit != 0 && used_tokens * 100 >= context_limit
                * self.threshold_percent),
    {
        if context_limit == 0 {
            return false;
        }
        let used: u128 = used_tokens as u128;
        let limit: u128 = context_limit as u128;
        let percent: u128 = self.threshold_percent as u128;
        assert(0 <= limit * percent <= 0xffff_ffff_ffff_ffff * 0xffff_ffff) by (nonlinear_arith)
            requires
                0 <= limit <= 0xffff_ffff_ffff_ffff,
                0 <= percent <= 0xffff_ffff,
        ;
        used * 100 >= limit * percent
    }

    /// The tokens of a conversation that is short enough to be counted.
    pub fn estimate_tokens(messages: &Vec<Message>) -> (r: u32)
        requires
            estimated_tokens(messages@) <= u32::MAX,
        ensures
            r == estimated_tokens(messages@),
    {
        match count_tokens(messages) {
            Some(n) => n,
            None => 0,
        }
    }

    /// What to do with a conversation that has become too long: the last messages stay, and the
    /// older ones are to be summarised, unless there are none.
    pub fn compact(&self, messages: Vec<Message>) -> (r: CompactPlan)
        ensures
            if messages@.len() <= self.keep_last {
                r matches CompactPlan::Keep(kept) && kept@ == messages@
            } else {
                let split = messages@.len() - self.keep_last;
                &&& r matches CompactPlan::Summarise { prompt, recent }
                &&& prompt@ == summary_prompt(messages@.take(split))
                &&& recent@ == messages@.skip(split)
            },
            match r {
                CompactPlan::Keep(kept) => kept@ == messages@,
                CompactPlan::Summarise { prompt, recent } => {
                    &&& recent@.len() == self.keep_last
                    &&& forall|i: int|
                        0 <= i < messages@.len() ==> {
                            let stays = i - (messages@.len() - recent@.len());
                            if stays < 0 {
                                reads(prompt@, #[trigger] messages@[i])
                            } else {
                                recent@[stays] == messages@[i]
                            }
                        }
                },
            },
    {
        if messages.len() <= self.keep_last {
            return CompactPlan::Keep(messages);
        }
        let ghost all = messages@;
        let split_at: usize = messages.len() - self.keep_last;
        let mut older: Vec<Message> = messages;
        let recent: Vec<Message> = older.split_off(split_at);
        assert(older@ =~= all.take(split_at as int));
        assert(recent@ =~= all.skip(split_at as int));
        let prompt: String = prompt_for_summary(&older);
        proof {
            let places = a_summary_is_made_of_every_message(older@);
            assert forall|i: int| 0 <= i < split_at implies reads(
                prompt@,
                #[trigger] all[i],
            ) by {
                assert(reads_at(prompt@, older@[i], places[i]));
            }
        }
        CompactPlan::Summarise { prompt, recent }
    }
}

/// The conversation with a summary in place of its older messages.
pub fn compacted(summary: &str, recent: Vec<Message>) -> (r: Vec<Message>)
    ensures
        r@.len() == recent@.len() + 1,
        r@[0].role == Role::System,
        r@[0].content matches MessageContent::Text(text) && text@ == "[CONTEXT SUMMARY]: "@
            + summary@,
        r@.skip(1) == recent@,
{
    let mut out: Vec<Message> = recent;
    out.insert(
        0,
        Message {
            role: Role::System,
            content: MessageContent::Text(text::concat2("[CONTEXT SUMMARY]: ", summary)),
        },
    );
    assert(out@.skip(1) =~= recent@);
    out
}

/// The error of a compaction whose summary could not be had.
pub fn summary_failed(error: &str) -> (r: BastionError)
    ensures
        r matches BastionError::Failed(m) && m@ == "AutoCompact summary failed: "@ + error@,
{
    BastionError::Failed(text::concat2("AutoCompact summary failed: ", error))
}

/// Nothing of a conversation is lost to its compaction: every message either stays, in its place
/// among those that stay, or can be read in the prompt for the summary, and exactly the last ones
/// stay.
pub proof fn compaction_loses_no_message(messages: Seq<Message>, keep_last: nat)
    requires
        keep_last < messages.len(),
    ensures
        ({
            let split = messages.len() - keep_last;
            &&& messages.take(split) + messages.skip(split) == messages
            &&& messages.skip(split).len() == keep_last
            &&& forall|i: int|
                0 <= i < messages.len() ==> if i < split {
                    reads(summary_prompt(messages.take(split)), #[trigger] messages[i])
                } else {
                    messages.skip(split)[i - split] == messages[i]
                }
        }),
{
    let split = messages.len() - keep_last;
    assert(messages.take(split) + messages.skip(split) =~= messages);
    let older = messages.take(split);
    let places = a_summary_is_made_of_every_message(older);
    assert forall|i: int| 0 <= i < messages.len() implies if i < split {
        reads(summary_prompt(older), #[trigger] messages[i])
    } else {
        messages.skip(split)[i - split] == messages[i]
    } by {
        if i < split {
            assert(reads_at(summary_prompt(older), older[i], places[i]));
        }
    }
}

/// A message can be read in a text at a place: its role in brackets, a colon, and its text, or that
/// it is no plain text.
pub open spec fn reads_at(prompt: Seq<char>, message: Message, at: int) -> bool {
    let role = match message.role {
        Role::System => "system"@,
        Role::User => "user"@,
        Role::Assistant => "assistant"@,
        Role::Tool => "tool"@,
    };
    let content = match message.content {
        MessageContent::Text(text) => text@,
        MessageContent::Parts(_) => "[structured content]"@,
    };
    occurs_at(prompt, seq!['['] + role + seq![']', ':', ' '] + content, at)
}

/// A message can be read somewhere in a text.
pub open spec fn reads(prompt: Seq<char>, message: Message) -> bool {
    exists|at: int| reads_at(prompt, message, at)
}

/// A line of a transcript is the role in brackets, a colon, and the text.
proof fn lemma_line(message: Message)
    ensures
        transcript_line(message) == seq!['['] + role_text(message.role) + seq![']', ':', ' ']
            + match message.content {
            MessageContent::Text(text) => text@,
            MessageContent::Parts(_) => "[structured content]"@,
        },
{
    reveal_strlit("[");
    reveal_strlit("]: ");
    assert("["@ =~= seq!['[']);
    assert("]: "@ =~= seq![']', ':', ' ']);
}

/// The prompt for a summary holds every message, whole and in order: each can be read in it, one
/// behind the other with a line feed between, from behind the instructions to the end.
pub proof fn a_summary_is_made_of_every_message(messages: Seq<Message>) -> (places: Seq<int>)
    ensures
        places.len() == messages.len(),
        forall|i: int|
            0 <= i < messages.len() ==> reads_at(
                summary_prompt(messages),
                messages[i],
                #[trigger] places[i],
            ),
        forall|i: int|
            0 <= i < messages.len() - 1 ==> {
                &&& #[trigger] places[i] < places[i + 1]
                &&& summary_prompt(messages)[places[i + 1] - 1] == '\n'
            },
        forall|i: int, j: int|
            0 <= i < j < messages.len() ==> #[trigger] places[i] < #[trigger] places[j],
{
    let lines = Seq::new(messages.len(), |i: int| transcript_line(messages[i]));
    let sep = "\n"@;
    reveal_strlit("\n");
    let start = summary_prompt(Seq::<Message>::empty());
    assert(Seq::new(0, |i: int| transcript_line(Seq::<Message>::empty()[i])) =~= Seq::<
        Seq<char>,
    >::empty());
    let told = joined(lines, sep);
    let prompt = summary_prompt(messages);
    assert(prompt =~= start + told);
    let inner = text::every_part_stands_in_what_is_joined(lines, sep);
    let places = Seq::new(messages.len(), |i: int| start.len() + inner[i]);
    assert forall|i: int| 0 <= i < messages.len() implies reads_at(
        prompt,
        messages[i],
        #[trigger] places[i],
    ) by {
        lemma_line(messages[i]);
        let line = lines[i];
        assert(occurs_at(told, line, inner[i]));
        assert(prompt.subrange(places[i], places[i] + line.len()) =~= told.subrange(
            inner[i],
            inner[i] + line.len(),
        ));
    }
    assert forall|i: int| 0 <= i < messages.len() - 1 implies {
        &&& #[trigger] places[i] < places[i + 1]
        &&& prompt[places[i + 1] - 1] == '\n'
    } by {
        assert(inner[i] + lines[i].len() + sep.len() == inner[i + 1]);
        lemma_feed(lines, sep, i + 1, inner);
        assert(prompt[places[i + 1] - 1] == told[inner[i + 1] - 1]);
    }
    assert forall|i: int, j: int| 0 <= i < j < messages.len() implies #[trigger] places[i]
        < #[trigger] places[j] by {
        lemma_increasing(places, i, j);
    }
    places
}

/// Places that grow from each to the next grow.
proof fn lemma_increasing(places: Seq<int>, i: int, j: int)
    requires
        0 <= i < j < places.len(),
        forall|k: int| 0 <= k < places.len() - 1 ==> #[trigger] places[k] < places[k + 1],
    ensures
        places[i] < places[j],
    decreases j - i,
{
    if i + 1 < j {
        lemma_increasing(places, i, j - 1);
        assert(places[j - 1] < places[j - 1 + 1]);
    } else {
        assert(places[i] < places[i + 1]);
    }
}

/// Before every line but the first stands the separator.
proof fn lemma_feed(lines: Seq<Seq<char>>, sep: Seq<char>, k: int, places: Seq<int>)
    requires
        0 < k < lines.len(),
        sep.len() == 1,
        places.len() == lines.len(),
        places[0] == 0,
        forall|i: int|
            0 <= i < lines.len() - 1 ==> #[trigger] places[i] + lines[i].len() + sep.len()
                == places[i + 1],
    ensures
        0 < places[k] <= joined(lines, sep).len(),
        joined(lines, sep)[places[k] - 1] == sep[0],
    decreases lines.len(),
{
    let fewer = lines.drop_last();
    let shorter = places.drop_last();
    let start = joined(fewer, sep);
    let all = joined(lines, sep);
    assert(all =~= start + sep + lines.last());
    assert forall|i: int| 0 <= i < fewer.len() - 1 implies #[trigger] shorter[i] + fewer[i].len()
        + sep.len() == shorter[i + 1] by {
        assert(places[i] + lines[i].len() + sep.len() == places[i + 1]);
    }
    if k < fewer.len() {
        lemma_feed(fewer, sep, k, shorter);
    } else {
        lemma_joined_len(fewer, sep, shorter);
        assert(places[k - 1] + lines[k - 1].len() + sep.len() == places[k - 1 + 1]);
        assert(places[k] == start.len() + 1);
    }
}

/// Where what is joined of some lines ends.
proof fn lemma_joined_len(lines: Seq<Seq<char>>, sep: Seq<char>, places: Seq<int>)
    requires
        lines.len() > 0,
        places.len() == lines.len(),
        places[0] == 0,
        forall|i: int|
            0 <= i < lines.len() - 1 ==> #[trigger] places[i] + lines[i].len() + sep.len()
                == places[i + 1],
    ensures
        joined(lines, sep).len() == places.last() + lines.last().len(),
    decreases lines.len(),
{
    if lines.len() > 1 {
        let fewer = lines.drop_last();
        let shorter = places.drop_last();
        assert forall|i: int| 0 <= i < fewer.len() - 1 implies #[trigger] shorter[i]
            + fewer[i].len() + sep.len() == shorter[i + 1] by {
            assert(places[i] + lines[i].len() + sep.len() == places[i + 1]);
        }
        lemma_joined_len(fewer, sep, shorter);
        let k = lines.len() - 2;
        assert(places[k] + lines[k].len() + sep.len() == places[k + 1]);
    }
}

/// One more message at the end adds one line to the prompt: a line feed, and the message.
pub proof fn one_more_message_adds_its_line(messages: Seq<Message>, message: Message)
    requires
        messages.len() > 0,
    ensures
        ({
            let before = summary_prompt(messages);
            let after = summary_prompt(messages.push(message));
            &&& text::begins_with(after, before)
            &&& after[before.len() as int] == '\n'
            &&& reads_at(after, message, before.len() as int + 1)
            &&& after.len() == before.len() + 1 + transcript_line(message).len()
        }),
{
    let lines = Seq::new(messages.len(), |i: int| transcript_line(messages[i]));
    let all = messages.push(message);
    let more = Seq::new(all.len(), |i: int| transcript_line(all[i]));
    assert(more =~= lines.push(transcript_line(message)));
    text::one_more_part_follows(lines, transcript_line(message), "\n"@);
    reveal_strlit("\n");
    lemma_line(message);
    let before = summary_prompt(messages);
    let after = summary_prompt(all);
    assert(after =~= before + "\n"@ + transcript_line(message));
    assert(after.subrange(0, before.len() as int) =~= before);
    let at = before.len() as int + 1;
    assert(after.subrange(at, at + transcript_line(message).len()) =~= transcript_line(
        message,
    ));
}

/// The tokens of a conversation are those of its messages: none of them is left out, and their
/// order does not matter.
pub proof fn every_message_counts(a: Seq<Message>, b: Seq<Message>)
    ensures
        estimated_tokens(a + b) == estimated_tokens(a) + estimated_tokens(b),
        estimated_tokens(Seq::<Message>::empty()) == 0,
    decreases b.len(),
{
    if b.len() == 0 {
        assert(a + b =~= a);
    } else {
        every_message_counts(a, b.drop_last());
        assert((a + b).drop_last() =~= a + b.drop_last());
    }
}

/// The tokens of one message: a quarter of the bytes of a text, rounded down, whether it stands
/// alone or as a piece, and fifty for any other piece.
pub proof fn a_text_counts_by_its_bytes(message: Message)
    ensures
        match message.content {
            MessageContent::Text(text) => {
                let n = estimated_tokens(seq![message]);
                4 * n <= byte_len(text@) < 4 * n + 4
            },
            MessageContent::Parts(parts) => forall|i: int|
                0 <= i < parts@.len() ==> {
                    let without = parts_tokens(parts@.remove(i));
                    let n = parts_tokens(parts@) - without;
                    match #[trigger] parts@[i] {
                        ContentPart::Text { text } => 4 * n <= byte_len(text@) < 4 * n + 4,
                        _ => n == 50,
                    }
                },
        },
        message.content matches MessageContent::Parts(parts) ==> estimated_tokens(seq![message])
            == parts_tokens(parts@),
{
    let one = seq![message];
    assert(one.drop_last() =~= Seq::<Message>::empty());
    assert(estimated_tokens(one.drop_last()) == 0);
    match message.content {
        MessageContent::Text(_) => {},
        MessageContent::Parts(parts) => {
            assert forall|i: int| 0 <= i < parts@.len() implies {
                let without = parts_tokens(parts@.remove(i));
                let n = parts_tokens(parts@) - without;
                match #[trigger] parts@[i] {
                    ContentPart::Text { text } => 4 * n <= byte_len(text@) < 4 * n + 4,
                    _ => n == 50,
                }
            } by {
                lemma_part_counts(parts@, i);
            }
        },
    }
}

/// A piece counts for itself.
proof fn lemma_part_counts(parts: Seq<ContentPart>, i: int)
    requires
        0 <= i < parts.len(),
    ensures
        parts_tokens(parts) == parts_tokens(parts.remove(i)) + part_tokens(parts[i]),
    decreases parts.len(),
{
    if i == parts.len() - 1 {
        assert(parts.remove(i) =~= parts.drop_last());
    } else {
        lemma_part_counts(parts.drop_last(), i);
        assert(parts.remove(i).drop_last() =~= parts.drop_last().remove(i));
    }
}

/// A context counts as full from the threshold on: more tokens never make it less full, and a larger
/// context or a higher threshold never more.
pub proof fn a_fuller_context_is_compacted_too(
    one: &AutoCompact,
    used: u32,
    limit: usize,
    full: bool,
    other: &AutoCompact,
    more: u32,
    smaller: usize,
    fuller: bool,
)
    requires
        call_ensures(AutoCompact::needs_compaction, (one, used, limit), full),
        call_ensures(AutoCompact::needs_compaction, (other, more, smaller), fuller),
        used <= more,
        0 < smaller <= limit,
        other.threshold_percent <= one.threshold_percent,
    ensures
        full ==> fuller,
        one.threshold_percent <= 100 && used >= limit ==> full,
        one.threshold_percent > 0 && used == 0 ==> !full,
{
    let (a, b) = (smaller as int, limit as int);
    let (p, q) = (other.threshold_percent as int, one.threshold_percent as int);
    assert(a * p <= b * q) by (nonlinear_arith)
        requires
            0 <= a <= b,
            0 <= p <= q,
    ;
    assert(q <= 100 ==> b * q <= b * 100) by (nonlinear_arith)
        requires
            0 <= b,
            0 <= q,
    ;
    assert(q > 0 ==> b * q > 0) by (nonlinear_arith)
        requires
            0 < b,
            0 <= q,
    ;
}

/// A context without a limit is never full.
pub proof fn a_context_without_a_limit_is_never_full(one: &AutoCompact, used: u32, full: bool)
    requires
        call_ensures(AutoCompact::needs_compaction, (one, used, 0), full),
    ensures
        !full,
{
}

/// A compacted conversation begins with the summary, told by the system, and goes on with all the
/// messages that stay, each in its place.
pub proof fn a_summary_stands_before_what_stays(
    summary: &str,
    recent: Vec<Message>,
    after: Vec<Message>,
    i: int,
)
    requires
        call_ensures(compacted, (summary, recent), after),
        0 <= i < recent@.len(),
    ensures
        after@.len() == recent@.len() + 1,
        after@[i + 1] == recent@[i],
        after@[0].role == Role::System,
        after@[0].content matches MessageContent::Text(text) && text::occurs(text@, summary@),
{
    assert(after@.skip(1)[i] == after@[i + 1]);
    text::what_is_written_last_stands_there("[CONTEXT SUMMARY]: "@, summary@);
}

} // verus!
