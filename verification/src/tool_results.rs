//! The size of tool results: a cap on each, and a budget for all of them.

use crate::text;
use crate::types;
use crate::types::{ContentBlock, Message, MessageContent, ToolResultContent};
use vstd::prelude::*;
use vstd::string::*;

verus! {

/// The lines that are kept at the start and at the end of a long result.
pub const MAX_HEAD_LINES: usize = 80;

pub const MAX_TAIL_LINES: usize = 80;

/// The bytes above which a result with few lines is shortened too.
pub const MAX_SINGLE_RESULT_CHARS: usize = 20_000;

/// The bytes that UTF-8 takes for a character.
pub open spec fn width(c: char) -> nat {
    let n = c as u32;
    if n <= 0x7f {
        1
    } else if n <= 0x7ff {
        2
    } else if n <= 0xffff {
        3
    } else {
        4
    }
}

/// The bytes that UTF-8 takes for a text.
pub open spec fn byte_len(s: Seq<char>) -> nat
    decreases s.len(),
{
    if s.len() == 0 {
        0
    } else {
        width(s[0]) + byte_len(s.skip(1))
    }
}

proof fn lemma_width(c: char)
    ensures
        vstd::utf8::encode_scalar(c as u32).len() == width(c),
{
}

proof fn lemma_byte_len(s: Seq<char>)
    ensures
        byte_len(s) == vstd::utf8::encode_utf8(s).len(),
    decreases s.len(),
{
    if s.len() > 0 {
        lemma_byte_len(s.skip(1));
        assert(s.skip(1) =~= s.drop_first());
        lemma_width(s[0]);
    }
}

proof fn lemma_byte_len_split(s: Seq<char>, n: int)
    requires
        0 <= n <= s.len(),
    ensures
        byte_len(s) == byte_len(s.take(n)) + byte_len(s.skip(n)),
    decreases n,
{
    if n == 0 {
        assert(s.skip(0) =~= s);
    } else {
        lemma_byte_len_split(s.skip(1), n - 1);
        assert(s.take(n).skip(1) =~= s.skip(1).take(n - 1));
        assert(s.skip(1).skip(n - 1) =~= s.skip(n));
        assert(s.take(n)[0] == s[0]);
    }
}

/// The length of a text in bytes.
pub fn byte_length(s: &str) -> (r: usize)
    ensures
        r == byte_len(s@),
{
    proof {
        lemma_byte_len(s@);
    }
    s.as_bytes().len()
}

fn char_width(c: char) -> (r: usize)
    ensures
        r == width(c),
{
    let n: u32 = c as u32;
    if n <= 0x7f {
        1
    } else if n <= 0x7ff {
        2
    } else if n <= 0xffff {
        3
    } else {
        4
    }
}

/// How many characters at the start of `s` fit in `limit` bytes.
pub open spec fn fitting(s: Seq<char>, limit: int) -> int
    decreases s.len(),
{
    if s.len() == 0 || width(s[0]) > limit {
        0
    } else {
        1 + fitting(s.skip(1), limit - width(s[0]))
    }
}

/// How many characters at the start of `s` take at least `bytes` bytes; all of
/// them where they take fewer.
pub open spec fn reaching(s: Seq<char>, bytes: int) -> int
    decreases s.len(),
{
    if s.len() == 0 || bytes <= 0 {
        0
    } else {
        1 + reaching(s.skip(1), bytes - width(s[0]))
    }
}

/// A long result by its lines: the first and the last ones, with a note between.
pub open spec fn capped_lines(lines: Seq<Seq<char>>) -> Seq<char> {
    let n = lines.len() as int;
    text::joined(lines.take(80), "\n"@) + "\n\n[... "@ + text::decimal((n - 160) as nat)
        + " lines omitted ("@ + text::decimal(n as nat)
        + " total). Pipe through `head` or `tail` for specific sections ...]\n\n"@ + text::joined(
        lines.skip(n - 80),
        "\n"@,
    )
}

/// A long result by its bytes: at most 14000 at the start and 4000 at the end, cut
/// between characters, with a note between.
pub open spec fn capped_bytes(content: Seq<char>) -> Seq<char> {
    let head = fitting(content, 14_000);
    let tail = reaching(content, byte_len(content) - 4_000);
    content.take(head) + "\n\n[... "@ + text::decimal(
        (byte_len(content.take(tail)) - byte_len(content.take(head))) as nat,
    ) + " chars omitted ...]\n\n"@ + content.skip(tail)
}

/// What is kept of a result.
pub open spec fn capped(content: Seq<char>) -> Seq<char> {
    let lines = text::lines_of(content);
    if lines.len() > 165 {
        capped_lines(lines)
    } else if byte_len(content) > 20_000 {
        capped_bytes(content)
    } else {
        content
    }
}

fn fit(v: &Vec<char>, limit: usize) -> (r: usize)
    ensures
        r == fitting(v@, limit as int),
        r <= v@.len(),
{
    let mut i: usize = 0;
    let mut left: usize = limit;
    assert(v@.skip(0) =~= v@);
    while i < v.len() && char_width(v[i]) <= left
        invariant
            i <= v@.len(),
            fitting(v@, limit as int) == i + fitting(v@.skip(i as int), left as int),
        decreases v@.len() - i,
    {
        assert(v@.skip(i as int).skip(1) =~= v@.skip(i + 1));
        left = left - char_width(v[i]);
        i = i + 1;
    }
    i
}

fn reach(v: &Vec<char>, bytes: usize) -> (r: usize)
    ensures
        r == reaching(v@, bytes as int),
        r <= v@.len(),
{
    let mut i: usize = 0;
    let mut left: usize = bytes;
    assert(v@.skip(0) =~= v@);
    while i < v.len() && left > 0
        invariant
            i <= v@.len(),
            reaching(v@, bytes as int) == i + reaching(v@.skip(i as int), left as int),
        decreases v@.len() - i,
    {
        assert(v@.skip(i as int).skip(1) =~= v@.skip(i + 1));
        let w = char_width(v[i]);
        let ghost rest = v@.skip(i + 1);
        if w <= left {
            left = left - w;
        } else {
            assert(reaching(rest, left - w) == 0);
            assert(reaching(rest, 0) == 0);
            left = 0;
        }
        i = i + 1;
    }
    i
}

proof fn lemma_fitting(s: Seq<char>, limit: int)
    requires
        0 <= limit,
    ensures
        0 <= fitting(s, limit) <= s.len(),
        byte_len(s.take(fitting(s, limit))) <= limit,
        fitting(s, limit) < s.len() ==> byte_len(s.take(fitting(s, limit) + 1)) > limit,
    decreases s.len(),
{
    if s.len() > 0 && width(s[0]) <= limit {
        let rest = s.skip(1);
        lemma_fitting(rest, limit - width(s[0]));
        let n = fitting(rest, limit - width(s[0]));
        assert(s.take(1 + n).skip(1) =~= rest.take(n));
        assert(s.take(1 + n)[0] == s[0]);
        if n < rest.len() {
            assert(s.take(2 + n).skip(1) =~= rest.take(n + 1));
            assert(s.take(2 + n)[0] == s[0]);
        }
    } else {
        assert(s.take(0) =~= Seq::empty());
        if s.len() > 0 {
            assert(s.take(1)[0] == s[0]);
            assert(s.take(1).skip(1) =~= Seq::empty());
        }
    }
}

proof fn lemma_reaching(s: Seq<char>, bytes: int)
    requires
        bytes <= byte_len(s),
    ensures
        0 <= reaching(s, bytes) <= s.len(),
        byte_len(s.take(reaching(s, bytes))) >= bytes,
        reaching(s, bytes) > 0 ==> byte_len(s.take(reaching(s, bytes) - 1)) < bytes,
    decreases s.len(),
{
    if s.len() > 0 && bytes > 0 {
        let rest = s.skip(1);
        lemma_reaching(rest, bytes - width(s[0]));
        let n = reaching(rest, bytes - width(s[0]));
        assert(s.take(1 + n).skip(1) =~= rest.take(n));
        assert(s.take(1 + n)[0] == s[0]);
        if n > 0 {
            assert(s.take(n).skip(1) =~= rest.take(n - 1));
            assert(s.take(n)[0] == s[0]);
        } else {
            assert(s.take(0) =~= Seq::empty());
        }
    } else {
        assert(s.take(0) =~= Seq::empty());
    }
}

/// The first part that is kept is the longest that fits its limit, the last part
/// the longest that fits its own: both are cut between characters.
pub proof fn kept_parts_are_within_their_limits(content: Seq<char>)
    requires
        byte_len(content) > 20_000,
    ensures
        ({
            let head = fitting(content, 14_000);
            let tail = reaching(content, byte_len(content) - 4_000);
            &&& 0 <= head < tail <= content.len()
            &&& byte_len(content.take(head)) <= 14_000 < byte_len(content.take(head + 1))
            &&& byte_len(content.skip(tail)) <= 4_000 < byte_len(content.skip(tail - 1))
            &&& byte_len(content.take(head)) <= byte_len(content.take(tail))
        }),
{
    let total = byte_len(content) as int;
    let head = fitting(content, 14_000);
    let tail = reaching(content, total - 4_000);
    lemma_fitting(content, 14_000);
    lemma_reaching(content, total - 4_000);
    lemma_byte_len_split(content, tail);
    assert(tail > 0) by {
        if tail == 0 {
            assert(content.take(0) =~= Seq::empty());
        }
    }
    lemma_byte_len_split(content, tail - 1);
    assert(head < content.len()) by {
        if head == content.len() {
            assert(content.take(head) =~= content);
        }
    }
    assert(head < tail) by {
        if tail <= head {
            assert(content.take(head).take(tail) =~= content.take(tail));
            lemma_byte_len_split(content.take(head), tail);
        }
    }
}

/// Shortens one tool result: a result of many lines keeps its first and its last
/// ones, which hold the context of a command and its errors; one of few but long
/// lines keeps its first and its last bytes.
pub fn cap_tool_result(content: &str) -> (r: String)
    ensures
        r@ == capped(content@),
{
    let lines = text::lines(content);
    let total = lines.len();
    let ghost all = text::views(lines@);
    if total > MAX_HEAD_LINES + MAX_TAIL_LINES + 5 {
        let mut out = text::join_range(&lines, 0, MAX_HEAD_LINES, "\n");
        let tail = text::join_range(&lines, total - MAX_TAIL_LINES, total, "\n");
        proof {
            assert(all.subrange(0, 80) =~= all.take(80));
            assert(all.subrange(total - 80, total as int) =~= all.skip(total - 80));
        }
        out.append("\n\n[... ");
        text::push_decimal(&mut out, (total - MAX_HEAD_LINES - MAX_TAIL_LINES) as u64);
        out.append(" lines omitted (");
        text::push_decimal(&mut out, total as u64);
        out.append(" total). Pipe through `head` or `tail` for specific sections ...]\n\n");
        out.append(tail.as_str());
        return out;
    }
    let bytes = byte_length(content);
    if bytes > MAX_SINGLE_RESULT_CHARS {
        let v = text::chars_of(content);
        let head = fit(&v, 14_000);
        let tail = reach(&v, bytes - 4_000);
        proof {
            kept_parts_are_within_their_limits(content@);
            lemma_byte_len_split(content@, tail as int);
        }
        let first = text::string_of(&v, 0, head);
        let upto_tail = text::string_of(&v, 0, tail);
        let last = text::string_of(&v, tail, v.len());
        proof {
            assert(v@.subrange(0, head as int) =~= content@.take(head as int));
            assert(v@.subrange(0, tail as int) =~= content@.take(tail as int));
            assert(v@.subrange(tail as int, v@.len() as int) =~= content@.skip(tail as int));
        }
        let omitted: usize = byte_length(upto_tail.as_str()) - byte_length(first.as_str());
        let mut out = first;
        out.append("\n\n[... ");
        text::push_decimal(&mut out, omitted as u64);
        out.append(" chars omitted ...]\n\n");
        out.append(last.as_str());
        return out;
    }
    content.to_string()
}

/// The messages at the end whose results are never truncated.
pub const KEEP_RECENT: usize = 6;

/// `a + b`, or the largest size where the sum is larger.
pub open spec fn size_sum(a: int, b: int) -> int {
    if a + b > usize::MAX {
        usize::MAX as int
    } else {
        a + b
    }
}

fn add_sizes(a: usize, b: usize) -> (r: usize)
    ensures
        r == size_sum(a as int, b as int),
{
    if a > usize::MAX - b {
        usize::MAX
    } else {
        a + b
    }
}

/// The bytes of the text blocks.
pub open spec fn texts_size(blocks: Seq<types::BlockView>) -> int
    decreases blocks.len(),
{
    if blocks.len() == 0 {
        0
    } else {
        match blocks.last() {
            types::BlockView::Text { text } => size_sum(
                texts_size(blocks.drop_last()),
                byte_len(text) as int,
            ),
            _ => texts_size(blocks.drop_last()),
        }
    }
}

/// The bytes of the tool results among the blocks.
pub open spec fn results_size(blocks: Seq<types::BlockView>) -> int
    decreases blocks.len(),
{
    if blocks.len() == 0 {
        0
    } else {
        let before = results_size(blocks.drop_last());
        match blocks.last() {
            types::BlockView::ToolResult { content, .. } => size_sum(
                before,
                match content {
                    types::ResultView::Text(t) => byte_len(t) as int,
                    types::ResultView::Blocks(b) => texts_size(b),
                },
            ),
            _ => before,
        }
    }
}

/// The bytes of all tool results of a conversation.
pub open spec fn total_size(messages: Seq<types::MessageView>) -> int
    decreases messages.len(),
{
    if messages.len() == 0 {
        0
    } else {
        size_sum(
            total_size(messages.drop_last()),
            match messages.last().content {
                types::ContentView::Blocks(b) => results_size(b),
                types::ContentView::Text(_) => 0,
            },
        )
    }
}

/// What stands in place of a result that was truncated.
pub open spec fn truncation_note() -> Seq<char> {
    "[truncated — re-read file if needed]"@
}

/// The size of a result that can be truncated: a text of more than 200 bytes.
pub open spec fn large_result(block: types::BlockView) -> Option<int> {
    match block {
        types::BlockView::ToolResult { content: types::ResultView::Text(t), .. } => if byte_len(t)
            > 200 {
            Some(byte_len(t) as int)
        } else {
            None
        },
        _ => None,
    }
}

/// A result block with the note in place of its content.
pub open spec fn truncated(block: types::BlockView) -> types::BlockView {
    match block {
        types::BlockView::ToolResult { tool_use_id, content, is_error } => {
            types::BlockView::ToolResult {
                tool_use_id,
                content: types::ResultView::Text(truncation_note()),
                is_error,
            }
        },
        _ => block,
    }
}

/// The blocks of a message after large results were truncated one by one, as long
/// as less than `target` was freed; and how much was freed then.
pub open spec fn truncate_blocks(
    blocks: Seq<types::BlockView>,
    freed: int,
    target: int,
) -> (Seq<types::BlockView>, int)
    decreases blocks.len(),
{
    if blocks.len() == 0 {
        (Seq::empty(), freed)
    } else {
        let (done, f) = truncate_blocks(blocks.drop_last(), freed, target);
        match large_result(blocks.last()) {
            Some(size) if f < target => (done.push(truncated(blocks.last())), size_sum(f, size)),
            _ => (done.push(blocks.last()), f),
        }
    }
}

/// A message after its large results were truncated; and how much was freed then.
pub open spec fn truncate_message(
    message: types::MessageView,
    freed: int,
    target: int,
) -> (types::MessageView, int) {
    match message.content {
        types::ContentView::Blocks(b) => {
            let (done, f) = truncate_blocks(b, freed, target);
            (types::MessageView { content: types::ContentView::Blocks(done), ..message }, f)
        },
        types::ContentView::Text(_) => (message, freed),
    }
}

/// The messages after large results were truncated, the oldest first.
pub open spec fn truncate_messages(
    messages: Seq<types::MessageView>,
    target: int,
) -> (Seq<types::MessageView>, int)
    decreases messages.len(),
{
    if messages.len() == 0 {
        (Seq::empty(), 0)
    } else {
        let (done, f) = truncate_messages(messages.drop_last(), target);
        let (m, g) = truncate_message(messages.last(), f, target);
        (done.push(m), g)
    }
}

/// How many messages at the start may be truncated.
pub open spec fn truncatable(n: int) -> int {
    if n > KEEP_RECENT {
        n - KEEP_RECENT
    } else {
        0
    }
}

/// The conversation within its budget.
pub open spec fn budgeted(messages: Seq<types::MessageView>, budget: int) -> Seq<
    types::MessageView,
> {
    let total = total_size(messages);
    if total <= budget {
        messages
    } else {
        let n = truncatable(messages.len() as int);
        truncate_messages(messages.take(n), total - budget).0 + messages.skip(n)
    }
}

proof fn lemma_texts_size(blocks: Seq<types::BlockView>)
    ensures
        0 <= texts_size(blocks) <= usize::MAX,
    decreases blocks.len(),
{
    if blocks.len() > 0 {
        lemma_texts_size(blocks.drop_last());
    }
}

fn size_of_texts(blocks: &Vec<ContentBlock>) -> (r: usize)
    ensures
        r == texts_size(types::blocks_view(blocks@)),
{
    let ghost all = types::blocks_view(blocks@);
    proof {
        types::lemma_blocks_view(blocks@);
    }
    let mut sum: usize = 0;
    let mut i: usize = 0;
    assert(all.take(0) =~= Seq::empty());
    while i < blocks.len()
        invariant
            i <= blocks@.len(),
            all.len() == blocks@.len(),
            forall|j: int| 0 <= j < blocks@.len() ==> #[trigger] all[j] == blocks@[j]@,
            sum == texts_size(all.take(i as int)),
        decreases blocks@.len() - i,
    {
        assert(all.take(i + 1).drop_last() =~= all.take(i as int));
        assert(all.take(i + 1).last() == blocks@[i as int]@);
        if let ContentBlock::Text { text } = &blocks[i] {
            sum = add_sizes(sum, byte_length(text.as_str()));
        }
        i = i + 1;
    }
    assert(all.take(i as int) =~= all);
    sum
}

fn size_of_results(blocks: &Vec<ContentBlock>) -> (r: usize)
    ensures
        r == results_size(types::blocks_view(blocks@)),
{
    let ghost all = types::blocks_view(blocks@);
    proof {
        types::lemma_blocks_view(blocks@);
    }
    let mut sum: usize = 0;
    let mut i: usize = 0;
    assert(all.take(0) =~= Seq::empty());
    while i < blocks.len()
        invariant
            i <= blocks@.len(),
            all.len() == blocks@.len(),
            forall|j: int| 0 <= j < blocks@.len() ==> #[trigger] all[j] == blocks@[j]@,
            sum == results_size(all.take(i as int)),
        decreases blocks@.len() - i,
    {
        assert(all.take(i + 1).drop_last() =~= all.take(i as int));
        assert(all.take(i + 1).last() == blocks@[i as int]@);
        if let ContentBlock::ToolResult { content, .. } = &blocks[i] {
            let size = match content {
                ToolResultContent::Text(t) => byte_length(t.as_str()),
                ToolResultContent::Blocks(b) => size_of_texts(b),
            };
            sum = add_sizes(sum, size);
        }
        i = i + 1;
    }
    assert(all.take(i as int) =~= all);
    sum
}

fn size_of_all(messages: &Vec<Message>) -> (r: usize)
    ensures
        r == total_size(types::messages_view(messages@)),
{
    let ghost all = types::messages_view(messages@);
    let mut sum: usize = 0;
    let mut i: usize = 0;
    assert(all.take(0) =~= Seq::empty());
    while i < messages.len()
        invariant
            i <= messages@.len(),
            all == types::messages_view(messages@),
            sum == total_size(all.take(i as int)),
        decreases messages@.len() - i,
    {
        assert(all.take(i + 1).drop_last() =~= all.take(i as int));
        assert(all.take(i + 1).last() == messages@[i as int]@);
        let size = match &messages[i].content {
            MessageContent::Blocks(b) => size_of_results(b),
            MessageContent::Text(_) => 0,
        };
        sum = add_sizes(sum, size);
        i = i + 1;
    }
    assert(all.take(i as int) =~= all);
    sum
}

/// Truncates the large results of a message.
fn truncate_block_list(blocks: &mut Vec<ContentBlock>, freed: usize, target: usize) -> (r: usize)
    ensures
        (types::blocks_view(final(blocks)@), r as int) == truncate_blocks(
            types::blocks_view(old(blocks)@),
            freed as int,
            target as int,
        ),
{
    let ghost before = blocks@;
    let ghost all = types::blocks_view(before);
    proof {
        types::lemma_blocks_view(before);
    }
    let mut f: usize = freed;
    let mut i: usize = 0;
    assert(all.take(0) =~= Seq::empty());
    assert(before.take(0) =~= blocks@.take(0));
    while i < blocks.len()
        invariant
            i <= blocks@.len(),
            blocks@.len() == before.len(),
            all.len() == before.len(),
            forall|j: int| 0 <= j < before.len() ==> #[trigger] all[j] == before[j]@,
            forall|j: int| i <= j < before.len() ==> blocks@[j] == before[j],
            (types::blocks_view(blocks@.take(i as int)), f as int) == truncate_blocks(
                all.take(i as int),
                freed as int,
                target as int,
            ),
        decreases before.len() - i,
    {
        proof {
            assert(all.take(i + 1).drop_last() =~= all.take(i as int));
            assert(all.take(i + 1).last() == before[i as int]@);
        }
        let ghost head = blocks@.take(i as int);
        let size = match &blocks[i] {
            ContentBlock::ToolResult { content, .. } => match content {
                ToolResultContent::Text(t) => {
                    let n = byte_length(t.as_str());
                    if n > 200 {
                        Some(n)
                    } else {
                        None
                    }
                },
                ToolResultContent::Blocks(_) => None,
            },
            _ => None,
        };
        assert(size is Some <==> large_result(before[i as int]@) is Some);
        if f < target {
            if let Some(n) = size {
                f = add_sizes(f, n);
                let note = ToolResultContent::Text(
                    "[truncated — re-read file if needed]".to_string(),
                );
                let replaced = match &blocks[i] {
                    ContentBlock::ToolResult { tool_use_id, is_error, .. } => {
                        ContentBlock::ToolResult {
                            tool_use_id: tool_use_id.clone(),
                            content: note,
                            is_error: *is_error,
                        }
                    },
                    _ => ContentBlock::Text { text: String::new() },
                };
                assert(replaced@ == truncated(before[i as int]@));
                blocks.set(i, replaced);
            }
        }
        proof {
            assert(blocks@.take(i + 1).drop_last() =~= head);
            assert(blocks@.take(i + 1).last() == blocks@[i as int]);
        }
        i = i + 1;
    }
    proof {
        assert(all.take(i as int) =~= all);
        assert(blocks@.take(i as int) =~= blocks@);
    }
    f
}

/// Truncates the oldest tool results of a conversation when their size is over
/// the budget. Results in the last messages, and small ones, are kept.
pub fn apply_tool_result_budget(messages: &mut Vec<Message>, budget_chars: usize)
    ensures
        types::messages_view(final(messages)@) == budgeted(
            types::messages_view(old(messages)@),
            budget_chars as int,
        ),
{
    let total = size_of_all(messages);
    if total <= budget_chars {
        return;
    }
    let ghost before = types::messages_view(messages@);
    let n: usize = if messages.len() > KEEP_RECENT {
        messages.len() - KEEP_RECENT
    } else {
        0
    };
    let target: usize = total - budget_chars;
    let mut freed: usize = 0;
    let mut i: usize = 0;
    let ghost first = before.take(n as int);
    assert(first.take(0) =~= Seq::empty());
    assert(types::messages_view(messages@.take(0)) =~= Seq::empty());
    while i < n
        invariant
            i <= n <= messages@.len(),
            messages@.len() == before.len(),
            first == before.take(n as int),
            forall|j: int| i <= j < before.len() ==> (#[trigger] messages@[j])@ == before[j],
            (types::messages_view(messages@.take(i as int)), freed as int) == truncate_messages(
                first.take(i as int),
                target as int,
            ),
        decreases n - i,
    {
        let ghost done = messages@.take(i as int);
        proof {
            assert(first.take(i + 1).drop_last() =~= first.take(i as int));
            assert(first.take(i + 1).last() == before[i as int]);
            assert(messages@[i as int]@ == before[i as int]);
        }
        let m = &mut messages[i];
        if let MessageContent::Blocks(blocks) = &mut m.content {
            freed = truncate_block_list(blocks, freed, target);
        }
        proof {
            assert(messages@.take(i as int) =~= done);
            assert(types::messages_view(messages@.take(i + 1)) =~= types::messages_view(done).push(
                messages@[i as int]@,
            ));
        }
        i = i + 1;
    }
    proof {
        assert(first.take(n as int) =~= first);
        assert(types::messages_view(messages@) =~= types::messages_view(messages@.take(n as int))
            + before.skip(n as int));
    }
}

/// A block is as it was, or it is a large result with the note in place of its
/// content.
pub open spec fn kept_or_truncated(before: types::BlockView, after: types::BlockView) -> bool {
    after == before || (large_result(before) is Some && after == truncated(before))
}

/// The same blocks, of which some large results are truncated.
pub open spec fn blocks_kept_or_truncated(
    before: Seq<types::BlockView>,
    after: Seq<types::BlockView>,
) -> bool {
    &&& after.len() == before.len()
    &&& forall|i: int|
        0 <= i < before.len() ==> kept_or_truncated(before[i], #[trigger] after[i])
}

/// The same message, of whose blocks some large results are truncated.
pub open spec fn message_kept_or_truncated(
    before: types::MessageView,
    after: types::MessageView,
) -> bool {
    &&& after.role == before.role
    &&& after.id == before.id
    &&& after.metadata == before.metadata
    &&& match before.content {
        types::ContentView::Text(_) => after.content == before.content,
        types::ContentView::Blocks(b) => after.content matches types::ContentView::Blocks(c)
            && blocks_kept_or_truncated(b, c),
    }
}

/// No large result is left among the blocks.
pub open spec fn all_truncated(before: Seq<types::BlockView>, after: Seq<types::BlockView>) -> bool {
    forall|i: int|
        0 <= i < before.len() && large_result(before[i]) is Some ==> #[trigger] after[i]
            == truncated(before[i])
}

proof fn lemma_truncate_blocks(blocks: Seq<types::BlockView>, freed: int, target: int)
    requires
        0 <= freed,
    ensures
        ({
            let (after, f) = truncate_blocks(blocks, freed, target);
            &&& blocks_kept_or_truncated(blocks, after)
            &&& freed <= f || f == usize::MAX
            &&& 0 <= f
            &&& f < target && target <= usize::MAX ==> all_truncated(blocks, after)
            &&& freed >= target ==> after == blocks && f == freed
        }),
    decreases blocks.len(),
{
    if blocks.len() > 0 {
        let rest = blocks.drop_last();
        lemma_truncate_blocks(rest, freed, target);
        let (after, f) = truncate_blocks(blocks, freed, target);
        let (before_last, g) = truncate_blocks(rest, freed, target);
        assert forall|i: int| 0 <= i < blocks.len() implies kept_or_truncated(
            blocks[i],
            #[trigger] after[i],
        ) by {
            if i < rest.len() {
                assert(after[i] == before_last[i]);
                assert(rest[i] == blocks[i]);
            }
        }
        if f < target && target <= usize::MAX {
            assert forall|i: int| 0 <= i < blocks.len() && large_result(blocks[i]) is Some implies
                #[trigger] after[i] == truncated(blocks[i]) by {
                if i < rest.len() {
                    assert(after[i] == before_last[i]);
                    assert(rest[i] == blocks[i]);
                }
            }
        }
        if freed >= target {
            assert(after =~= blocks);
        }
    }
}

proof fn lemma_truncate_messages(messages: Seq<types::MessageView>, target: int)
    ensures
        ({
            let (after, f) = truncate_messages(messages, target);
            &&& 0 <= f
            &&& after.len() == messages.len()
            &&& forall|i: int|
                0 <= i < messages.len() ==> message_kept_or_truncated(
                    messages[i],
                    #[trigger] after[i],
                )
            &&& f < target && target <= usize::MAX ==> forall|i: int|
                0 <= i < messages.len() && messages[i].content is Blocks ==> all_truncated(
                    messages[i].content->Blocks_0,
                    (#[trigger] after[i]).content->Blocks_0,
                )
        }),
    decreases messages.len(),
{
    if messages.len() > 0 {
        let rest = messages.drop_last();
        lemma_truncate_messages(rest, target);
        let (after, f) = truncate_messages(messages, target);
        let (done, g) = truncate_messages(rest, target);
        match messages.last().content {
            types::ContentView::Blocks(b) => {
                lemma_truncate_blocks(b, g, target);
            },
            types::ContentView::Text(_) => {},
        }
        assert forall|i: int| 0 <= i < messages.len() implies message_kept_or_truncated(
            messages[i],
            #[trigger] after[i],
        ) by {
            if i < rest.len() {
                assert(after[i] == done[i]);
                assert(rest[i] == messages[i]);
            }
        }
        if f < target && target <= usize::MAX {
            assert forall|i: int|
                0 <= i < messages.len() && messages[i].content is Blocks implies all_truncated(
                messages[i].content->Blocks_0,
                (#[trigger] after[i]).content->Blocks_0,
            ) by {
                if i < rest.len() {
                    assert(after[i] == done[i]);
                    assert(rest[i] == messages[i]);
                }
            }
        }
    }
}

/// Within its budget a conversation is left alone.
pub proof fn budget_leaves_small_conversations_alone(messages: Seq<types::MessageView>, budget: int)
    requires
        total_size(messages) <= budget,
    ensures
        budgeted(messages, budget) == messages,
{
}

/// Whatever the budget, no message is added or dropped, the last messages are as
/// they were, and in the others only large results are touched.
pub proof fn budget_touches_only_old_large_results(
    messages: Seq<types::MessageView>,
    budget: int,
    i: int,
)
    requires
        0 <= i < messages.len(),
    ensures
        budgeted(messages, budget).len() == messages.len(),
        i >= messages.len() - KEEP_RECENT ==> budgeted(messages, budget)[i] == messages[i],
        message_kept_or_truncated(messages[i], budgeted(messages, budget)[i]),
{
    let total = total_size(messages);
    let n = truncatable(messages.len() as int);
    lemma_truncate_messages(messages.take(n), total - budget);
    if total > budget && i < n {
        assert(messages.take(n)[i] == messages[i]);
    }
}

/// Over budget, either as much was freed as the budget asks for, or no large
/// result is left in the messages that may be truncated.
pub proof fn budget_is_met_or_nothing_is_left(
    messages: Seq<types::MessageView>,
    budget: int,
    i: int,
)
    requires
        0 <= budget < total_size(messages),
        0 <= i < truncatable(messages.len() as int),
        messages[i].content is Blocks,
    ensures
        ({
            let n = truncatable(messages.len() as int);
            let target = total_size(messages) - budget;
            truncate_messages(messages.take(n), target).1 >= target || all_truncated(
                messages[i].content->Blocks_0,
                budgeted(messages, budget)[i].content->Blocks_0,
            )
        }),
{
    let n = truncatable(messages.len() as int);
    let target = total_size(messages) - budget;
    lemma_truncate_messages(messages.take(n), target);
    lemma_total_size(messages);
    assert(messages.take(n)[i] == messages[i]);
}

proof fn lemma_total_size(messages: Seq<types::MessageView>)
    ensures
        0 <= total_size(messages) <= usize::MAX,
    decreases messages.len(),
{
    if messages.len() > 0 {
        lemma_total_size(messages.drop_last());
        match messages.last().content {
            types::ContentView::Blocks(b) => {
                lemma_results_size(b);
            },
            types::ContentView::Text(_) => {},
        }
    }
}

proof fn lemma_results_size(blocks: Seq<types::BlockView>)
    ensures
        0 <= results_size(blocks) <= usize::MAX,
    decreases blocks.len(),
{
    if blocks.len() > 0 {
        lemma_results_size(blocks.drop_last());
        match blocks.last() {
            types::BlockView::ToolResult { content: types::ResultView::Blocks(b), .. } => {
                lemma_texts_size(b);
            },
            _ => {},
        }
    }
}

/// A result of few lines and few bytes is kept as it is.
pub proof fn cap_keeps_small_results(content: Seq<char>)
    requires
        text::lines_of(content).len() <= 165,
        byte_len(content) <= 20_000,
    ensures
        capped(content) == content,
{
}

/// A result of many lines keeps its first and its last lines: they stand, joined,
/// at the start and at the end of what is kept.
pub proof fn cap_keeps_first_and_last_lines(content: Seq<char>)
    requires
        text::lines_of(content).len() > 165,
    ensures
        text::joined(text::lines_of(content).take(80), "\n"@).is_prefix_of(capped(content)),
        text::joined(
            text::lines_of(content).skip(text::lines_of(content).len() - 80),
            "\n"@,
        ).is_suffix_of(capped(content)),
{
    let lines = text::lines_of(content);
    let head = text::joined(lines.take(80), "\n"@);
    let tail = text::joined(lines.skip(lines.len() - 80), "\n"@);
    let c = capped(content);
    assert(c.subrange(0, head.len() as int) =~= head);
    assert(c.subrange(c.len() - tail.len(), c.len() as int) =~= tail);
}

/// Sizes are those of the texts in UTF-8.
pub proof fn sizes_are_those_of_utf8(s: Seq<char>)
    ensures
        byte_len(s) == vstd::utf8::encode_utf8(s).len(),
{
    lemma_byte_len(s);
}

/// The size of a conversation counts the text of every tool result, and of every text block
/// in one, and nothing else.
pub proof fn every_result_counts(
    messages: Seq<types::MessageView>,
    message: types::MessageView,
    blocks: Seq<types::BlockView>,
    block: types::BlockView,
    text: Seq<char>,
    id: Seq<char>,
    is_error: Option<bool>,
    parts: Seq<types::BlockView>,
)
    requires
        message.content == types::ContentView::Blocks(blocks),
        total_size(messages) + results_size(blocks) <= usize::MAX,
        results_size(blocks) + vstd::utf8::encode_utf8(text).len() <= usize::MAX,
        results_size(blocks) + texts_size(parts) <= usize::MAX,
        texts_size(parts) + vstd::utf8::encode_utf8(text).len() <= usize::MAX,
    ensures
        total_size(Seq::empty()) == 0,
        results_size(Seq::empty()) == 0,
        texts_size(Seq::empty()) == 0,
        total_size(messages.push(message)) == total_size(messages) + results_size(blocks),
        results_size(
            blocks.push(
                types::BlockView::ToolResult {
                    tool_use_id: id,
                    content: types::ResultView::Text(text),
                    is_error,
                },
            ),
        ) == results_size(blocks) + vstd::utf8::encode_utf8(text).len(),
        results_size(
            blocks.push(
                types::BlockView::ToolResult {
                    tool_use_id: id,
                    content: types::ResultView::Blocks(parts),
                    is_error,
                },
            ),
        ) == results_size(blocks) + texts_size(parts),
        !(block is ToolResult) ==> results_size(blocks.push(block)) == results_size(blocks),
        texts_size(parts.push(types::BlockView::Text { text })) == texts_size(parts)
            + vstd::utf8::encode_utf8(text).len(),
        !(block is Text) ==> texts_size(parts.push(block)) == texts_size(parts),
{
    lemma_byte_len(text);
    lemma_total_size(messages);
    assert(messages.push(message).drop_last() =~= messages);
    let result = types::BlockView::ToolResult {
        tool_use_id: id,
        content: types::ResultView::Text(text),
        is_error,
    };
    let nested = types::BlockView::ToolResult {
        tool_use_id: id,
        content: types::ResultView::Blocks(parts),
        is_error,
    };
    let plain = types::BlockView::Text { text };
    assert(blocks.push(result).drop_last() =~= blocks);
    assert(blocks.push(nested).drop_last() =~= blocks);
    assert(blocks.push(block).drop_last() =~= blocks);
    assert(parts.push(plain).drop_last() =~= parts);
    assert(parts.push(block).drop_last() =~= parts);
}

/// The bytes of a result that may be truncated: those of a tool result that is a text of
/// more than 200 bytes.
pub open spec fn frees(block: types::BlockView) -> nat {
    match block {
        types::BlockView::ToolResult { content: types::ResultView::Text(t), .. } =>
            if vstd::utf8::encode_utf8(t).len() > 200 {
            vstd::utf8::encode_utf8(t).len()
        } else {
            0
        },
        _ => 0,
    }
}

/// The bytes of the results of blocks that may be truncated.
pub open spec fn blocks_free(blocks: Seq<types::BlockView>) -> nat
    decreases blocks.len(),
{
    if blocks.len() == 0 {
        0
    } else {
        blocks_free(blocks.drop_last()) + frees(blocks.last())
    }
}

/// The bytes of the results of messages that may be truncated.
pub open spec fn messages_free(messages: Seq<types::MessageView>) -> nat
    decreases messages.len(),
{
    if messages.len() == 0 {
        0
    } else {
        messages_free(messages.drop_last()) + match messages.last().content {
            types::ContentView::Blocks(b) => blocks_free(b),
            types::ContentView::Text(_) => 0,
        }
    }
}

/// What was freed is counted in full as long as it is below the target.
spec fn counts(freed: int, exact: int, target: int) -> bool {
    &&& 0 <= freed
    &&& exact < target ==> freed == exact
    &&& exact >= target ==> freed >= target
}

proof fn lemma_frees(block: types::BlockView)
    ensures
        large_result(block) is Some <==> frees(block) > 0,
        large_result(block) is Some ==> large_result(block)->0 == frees(block),
{
    match block {
        types::BlockView::ToolResult { content: types::ResultView::Text(t), .. } => {
            lemma_byte_len(t);
        },
        _ => {},
    }
}

proof fn lemma_blocks_count(blocks: Seq<types::BlockView>, freed: int, exact: int, target: int)
    requires
        counts(freed, exact, target),
        0 <= exact,
        0 < target <= usize::MAX,
    ensures
        ({
            let (after, f) = truncate_blocks(blocks, freed, target);
            &&& counts(f, exact + blocks_free(blocks), target)
            &&& after.len() == blocks.len()
            &&& forall|k: int|
                0 <= k < blocks.len() ==> #[trigger] after[k] == if frees(blocks[k]) > 0 && exact
                    + blocks_free(blocks.take(k)) < target {
                    truncated(blocks[k])
                } else {
                    blocks[k]
                }
        }),
    decreases blocks.len(),
{
    if blocks.len() > 0 {
        let rest = blocks.drop_last();
        lemma_blocks_count(rest, freed, exact, target);
        lemma_frees(blocks.last());
        let (after, f) = truncate_blocks(blocks, freed, target);
        let (done, g) = truncate_blocks(rest, freed, target);
        assert forall|k: int| 0 <= k < blocks.len() implies #[trigger] after[k] == if frees(
            blocks[k],
        ) > 0 && exact + blocks_free(blocks.take(k)) < target {
            truncated(blocks[k])
        } else {
            blocks[k]
        } by {
            if k < rest.len() {
                assert(after[k] == done[k]);
                assert(rest[k] == blocks[k]);
                assert(rest.take(k) =~= blocks.take(k));
            } else {
                assert(blocks.take(k) =~= rest);
            }
        }
    }
}

proof fn lemma_messages_count(messages: Seq<types::MessageView>, target: int)
    requires
        0 < target <= usize::MAX,
    ensures
        ({
            let (after, f) = truncate_messages(messages, target);
            &&& counts(f, messages_free(messages) as int, target)
            &&& after.len() == messages.len()
            &&& forall|i: int|
                #![trigger after[i]]
                0 <= i < messages.len() && messages[i].content is Blocks ==> after[i].content
                    is Blocks && (after[i].content->Blocks_0).len() == (
                messages[i].content->Blocks_0).len() && forall|k: int|
                    0 <= k < (messages[i].content->Blocks_0).len()
                        ==> #[trigger] (after[i].content->Blocks_0)[k] == if frees(
                        (messages[i].content->Blocks_0)[k],
                    ) > 0 && messages_free(messages.take(i)) + blocks_free(
                        (messages[i].content->Blocks_0).take(k),
                    ) < target {
                        truncated((messages[i].content->Blocks_0)[k])
                    } else {
                        (messages[i].content->Blocks_0)[k]
                    }
        }),
    decreases messages.len(),
{
    if messages.len() > 0 {
        let rest = messages.drop_last();
        lemma_messages_count(rest, target);
        let (after, f) = truncate_messages(messages, target);
        let (done, g) = truncate_messages(rest, target);
        let last = messages.len() - 1;
        match messages.last().content {
            types::ContentView::Blocks(b) => {
                lemma_blocks_count(b, g, messages_free(rest) as int, target);
            },
            types::ContentView::Text(_) => {},
        }
        assert(messages.take(last) =~= rest);
        assert forall|i: int|
            #![trigger after[i]]
            0 <= i < messages.len() && messages[i].content is Blocks implies after[i].content
            is Blocks && (after[i].content->Blocks_0).len() == (
        messages[i].content->Blocks_0).len() && forall|k: int|
            0 <= k < (messages[i].content->Blocks_0).len()
                ==> #[trigger] (after[i].content->Blocks_0)[k] == if frees(
                (messages[i].content->Blocks_0)[k],
            ) > 0 && messages_free(messages.take(i)) + blocks_free(
                (messages[i].content->Blocks_0).take(k),
            ) < target {
                truncated((messages[i].content->Blocks_0)[k])
            } else {
                (messages[i].content->Blocks_0)[k]
            } by {
            if i < last {
                assert(after[i] == done[i]);
                assert(rest[i] == messages[i]);
                assert(rest.take(i) =~= messages.take(i));
            }
        }
    }
}

/// Over budget, the large results of all messages but the last six go, the oldest first and
/// as long as more has to be freed: a result goes just where the large results before it
/// take less than what is over the budget. A note stands in its place, with the same call
/// and the same success; every other block stays as it is.
pub proof fn the_oldest_results_go_first(
    messages: Seq<types::MessageView>,
    budget: int,
    i: int,
    k: int,
)
    requires
        0 <= budget < total_size(messages),
        0 <= i < messages.len() - 6,
        messages[i].content is Blocks,
        0 <= k < (messages[i].content->Blocks_0).len(),
    ensures
        ({
            let over = total_size(messages) - budget;
            let blocks = messages[i].content->Blocks_0;
            let earlier = messages_free(messages.take(i)) + blocks_free(blocks.take(k));
            let after = budgeted(messages, budget)[i];
            &&& after.content is Blocks
            &&& frees(blocks[k]) > 0 && earlier < over ==> (after.content->Blocks_0)[k]
                == (types::BlockView::ToolResult {
                tool_use_id: blocks[k]->ToolResult_tool_use_id,
                content: types::ResultView::Text("[truncated — re-read file if needed]"@),
                is_error: blocks[k]->ToolResult_is_error,
            })
            &&& frees(blocks[k]) == 0 || earlier >= over ==> (after.content->Blocks_0)[k]
                == blocks[k]
        }),
{
    let n = truncatable(messages.len() as int);
    lemma_total_size(messages);
    lemma_messages_count(messages.take(n), total_size(messages) - budget);
    assert(messages.take(n)[i] == messages[i]);
    assert(messages.take(n).take(i) =~= messages.take(i));
    let after = truncate_messages(messages.take(n), total_size(messages) - budget).0;
    assert(budgeted(messages, budget)[i] == after[i]);
}

/// The last six messages are never touched.
pub proof fn the_last_messages_stay(messages: Seq<types::MessageView>, budget: int, i: int)
    requires
        0 <= i < messages.len(),
        messages.len() - 6 <= i,
    ensures
        budgeted(messages, budget).len() == messages.len(),
        budgeted(messages, budget)[i] == messages[i],
{
    budget_touches_only_old_large_results(messages, budget, i);
}

/// A result of many lines says between its first and its last lines how many were left out,
/// and of how many.
pub proof fn capped_results_count_the_lines_left_out(content: Seq<char>, left_out: nat)
    requires
        text::lines_of(content).len() > 165,
        80 + left_out + 80 == text::lines_of(content).len(),
    ensures
        ({
            let lines = text::lines_of(content);
            let note = "\n\n[... "@ + text::decimal(left_out) + " lines omitted ("@
                + text::decimal(lines.len())
                + " total). Pipe through `head` or `tail` for specific sections ...]\n\n"@;
            capped(content) == text::joined(lines.take(80), "\n"@) + note + text::joined(
                lines.skip(80 + left_out as int),
                "\n"@,
            )
        }),
{
    let lines = text::lines_of(content);
    let note = "\n\n[... "@ + text::decimal(left_out) + " lines omitted ("@ + text::decimal(
        lines.len(),
    ) + " total). Pipe through `head` or `tail` for specific sections ...]\n\n"@;
    assert(capped(content) =~= text::joined(lines.take(80), "\n"@) + note + text::joined(
        lines.skip(80 + left_out as int),
        "\n"@,
    ));
}

/// A result of few but long lines keeps as much of its start as fits 14000 bytes and as much
/// of its end as fits 4000, and says between them how many bytes were left out.
pub proof fn capped_results_count_the_bytes_left_out(content: Seq<char>, head: int, tail: int)
    requires
        text::lines_of(content).len() <= 165,
        byte_len(content) > 20_000,
        0 <= head < tail <= content.len(),
        byte_len(content.take(head)) <= 14_000 < byte_len(content.take(head + 1)),
        byte_len(content.skip(tail)) <= 4_000 < byte_len(content.skip(tail - 1)),
    ensures
        capped(content) == content.take(head) + ("\n\n[... "@ + text::decimal(
            byte_len(content.subrange(head, tail)),
        ) + " chars omitted ...]\n\n"@) + content.skip(tail),
{
    let h = fitting(content, 14_000);
    let t = reaching(content, byte_len(content) - 4_000);
    kept_parts_are_within_their_limits(content);
    lemma_take_grows(content, head, h);
    lemma_take_grows(content, h, head);
    lemma_take_grows(content, tail, t);
    lemma_take_grows(content, t, tail);
    lemma_byte_len_split(content, tail);
    lemma_byte_len_split(content, t);
    lemma_byte_len_split(content, tail - 1);
    lemma_byte_len_split(content, t - 1);
    lemma_take_grows(content, head + 1, h);
    lemma_take_grows(content, h + 1, head);
    lemma_take_grows(content, tail, t - 1);
    lemma_take_grows(content, t, tail - 1);
    assert(h == head);
    assert(t == tail);
    lemma_byte_len_split(content.take(tail), head);
    assert(content.take(tail).take(head) =~= content.take(head));
    assert(content.take(tail).skip(head) =~= content.subrange(head, tail));
    assert(capped(content) =~= content.take(head) + ("\n\n[... "@ + text::decimal(
        byte_len(content.subrange(head, tail)),
    ) + " chars omitted ...]\n\n"@) + content.skip(tail));
}

proof fn lemma_take_grows(s: Seq<char>, a: int, b: int)
    ensures
        0 <= a <= b <= s.len() ==> byte_len(s.take(a)) <= byte_len(s.take(b)),
{
    if 0 <= a <= b <= s.len() {
        lemma_byte_len_split(s.take(b), a);
        assert(s.take(b).take(a) =~= s.take(a));
    }
}

} // verus!
