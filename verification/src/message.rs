//! Laying out blocks of text as messages of bounded length.

use vstd::prelude::*;
use vstd::string::*;
use crate::feed::{Item, ItemView};
use crate::text::{
    cut_to_fit,
    escape,
    escape_url,
    escaped,
    fit_text,
    lemma_cut_to_fit,
    lemma_truncated_len,
    truncate_message,
    truncated,
    url_escaped,
};

verus! {

/// The longest message, in characters, that the messaging service takes.
pub const MAX_MSG_LEN: usize = 4096;

/// What separates two blocks that share a message.
pub open spec fn separator() -> Seq<char> {
    seq!['\n']
}

/// The blocks, one per line.
pub open spec fn joined(blocks: Seq<Seq<char>>) -> Seq<char>
    decreases blocks.len(),
{
    if blocks.len() == 0 {
        Seq::empty()
    } else if blocks.len() == 1 {
        blocks[0]
    } else {
        joined(blocks.drop_last()) + separator() + blocks.last()
    }
}

/// Every block cut down to at most `max` characters.
pub open spec fn all_truncated(blocks: Seq<Seq<char>>, max: nat) -> Seq<Seq<char>> {
    Seq::new(blocks.len(), |i: int| truncated(blocks[i], max))
}

/// The messages that carry `blocks`. Each block is first cut down to `max`
/// characters. A block joins the message before it, on a line of its own,
/// while the message stays within `max` characters; otherwise it starts the
/// next message.
pub open spec fn split_blocks(blocks: Seq<Seq<char>>, max: nat) -> Seq<Seq<char>>
    decreases blocks.len(),
{
    if blocks.len() == 0 {
        Seq::empty()
    } else {
        let block = truncated(blocks.last(), max);
        let before = split_blocks(blocks.drop_last(), max);
        if before.len() == 0 {
            seq![block]
        } else if before.last().len() + 1 + block.len() > max {
            before.push(block)
        } else {
            before.drop_last().push(before.last() + separator() + block)
        }
    }
}

/// `cuts` marks where each message of `msgs` begins and ends among `blocks`:
/// message `k` is made of the blocks from `cuts[k]` up to, not including,
/// `cuts[k + 1]`, one per line, and of nothing else. The messages take the
/// blocks in order, and every block lies whole in exactly one message.
pub open spec fn is_layout(blocks: Seq<Seq<char>>, msgs: Seq<Seq<char>>, cuts: Seq<int>) -> bool {
    &&& cuts.len() == msgs.len() + 1
    &&& cuts[0] == 0
    &&& cuts.last() == blocks.len()
    &&& forall|k: int| 0 <= k < cuts.len() ==> 0 <= #[trigger] cuts[k] <= blocks.len()
    &&& forall|k: int| 0 <= k < msgs.len() ==> #[trigger] cuts[k] < cuts[k + 1]
    &&& forall|k: int|
        0 <= k < msgs.len() ==> #[trigger] msgs[k] == joined(blocks.subrange(cuts[k], cuts[k + 1]))
}

/// No message is longer than the limit.
pub proof fn lemma_split_within_limit(blocks: Seq<Seq<char>>, max: nat)
    ensures
        forall|k: int|
            0 <= k < split_blocks(blocks, max).len() ==> (#[trigger] split_blocks(
                blocks,
                max,
            )[k]).len() <= max,
    decreases blocks.len(),
{
    if blocks.len() > 0 {
        let before = split_blocks(blocks.drop_last(), max);
        let block = truncated(blocks.last(), max);
        let msgs = split_blocks(blocks, max);
        lemma_split_within_limit(blocks.drop_last(), max);
        lemma_truncated_len(blocks.last(), max);
        assert forall|k: int| 0 <= k < msgs.len() implies (#[trigger] msgs[k]).len() <= max by {
            if before.len() > 0 && k < before.len() - 1 {
                assert(msgs[k] == before[k]);
            } else if before.len() > 0 && before.last().len() + 1 + block.len() > max && k
                < before.len() {
                assert(msgs[k] == before[k]);
            }
        }
    }
}

/// Blocks never go missing and never multiply: there is a message as soon as
/// there is a block, and never more messages than blocks.
pub proof fn lemma_split_count(blocks: Seq<Seq<char>>, max: nat)
    ensures
        blocks.len() == 0 ==> split_blocks(blocks, max).len() == 0,
        blocks.len() > 0 ==> 1 <= split_blocks(blocks, max).len() <= blocks.len(),
    decreases blocks.len(),
{
    if blocks.len() > 0 {
        lemma_split_count(blocks.drop_last(), max);
    }
}

/// The messages are the truncated blocks, in order, each block whole in one
/// message: a block is cut only where it alone exceeds the limit, and never
/// spread over two messages. The result marks where each message begins.
pub proof fn lemma_split_keeps_blocks_whole(blocks: Seq<Seq<char>>, max: nat) -> (cuts: Seq<int>)
    ensures
        is_layout(all_truncated(blocks, max), split_blocks(blocks, max), cuts),
    decreases blocks.len(),
{
    let all = all_truncated(blocks, max);
    let msgs = split_blocks(blocks, max);
    if blocks.len() == 0 {
        seq![0int]
    } else {
        let shorter = blocks.drop_last();
        let before = split_blocks(shorter, max);
        let block = truncated(blocks.last(), max);
        let n = blocks.len() as int;
        let earlier = lemma_split_keeps_blocks_whole(shorter, max);
        lemma_split_count(shorter, max);
        assert(all.drop_last() =~= all_truncated(shorter, max));
        assert(all.last() == block);
        if before.len() == 0 {
            let cuts = seq![0int, 1int];
            assert(all.subrange(0, 1) =~= seq![block]);
            assert(is_layout(all, msgs, cuts));
            cuts
        } else if before.last().len() + 1 + block.len() > max {
            let cuts = earlier.push(n);
            assert(all.subrange(n - 1, n) =~= seq![block]);
            assert forall|k: int| 0 <= k < msgs.len() implies #[trigger] msgs[k] == joined(
                all.subrange(cuts[k], cuts[k + 1]),
            ) by {
                if k < before.len() {
                    assert(before[k] == joined(
                        all_truncated(shorter, max).subrange(earlier[k], earlier[k + 1]),
                    ));
                    assert(all.subrange(cuts[k], cuts[k + 1]) =~= all.drop_last().subrange(
                        earlier[k],
                        earlier[k + 1],
                    ));
                }
            }
            assert(is_layout(all, msgs, cuts));
            cuts
        } else {
            let last = before.len() - 1;
            let cuts = earlier.update(last + 1, n);
            assert forall|k: int| 0 <= k < msgs.len() implies #[trigger] msgs[k] == joined(
                all.subrange(cuts[k], cuts[k + 1]),
            ) by {
                assert(before[k] == joined(
                    all_truncated(shorter, max).subrange(earlier[k], earlier[k + 1]),
                ));
                if k < last {
                    assert(all.subrange(cuts[k], cuts[k + 1]) =~= all.drop_last().subrange(
                        earlier[k],
                        earlier[k + 1],
                    ));
                } else {
                    let run = all.subrange(cuts[k], n);
                    assert(earlier[k] < earlier[k + 1]);
                    assert(run.drop_last() =~= all.drop_last().subrange(earlier[k], n - 1));
                    assert(run.last() == block);
                }
            }
            assert(is_layout(all, msgs, cuts));
            cuts
        }
    }
}

/// A text of several lines is at least as long as any one of its lines and
/// the separators together.
proof fn lemma_joined_len(blocks: Seq<Seq<char>>, k: int)
    requires
        0 <= k < blocks.len(),
    ensures
        joined(blocks).len() >= blocks[k].len() + blocks.len() - 1,
    decreases blocks.len(),
{
    if blocks.len() > 1 {
        if k == blocks.len() - 1 {
            lemma_joined_len(blocks.drop_last(), 0);
        } else {
            lemma_joined_len(blocks.drop_last(), k);
        }
    }
}

/// A head and at least one line that together, one per line, exceed the
/// limit are laid out as two messages or more.
pub proof fn lemma_split_overflow_takes_two(blocks: Seq<Seq<char>>, max: nat)
    requires
        blocks.len() >= 2,
        joined(blocks).len() > max,
    ensures
        split_blocks(blocks, max).len() >= 2,
{
    let all = all_truncated(blocks, max);
    let msgs = split_blocks(blocks, max);
    lemma_split_count(blocks, max);
    if msgs.len() == 1 {
        let cuts = lemma_split_keeps_blocks_whole(blocks, max);
        lemma_split_within_limit(blocks, max);
        assert(all.subrange(0, blocks.len() as int) =~= all);
        assert(msgs[0] == joined(all));
        if forall|i: int| 0 <= i < blocks.len() ==> (#[trigger] blocks[i]).len() <= max {
            assert(all =~= blocks);
        } else {
            let i = choose|i: int| 0 <= i < blocks.len() && (#[trigger] blocks[i]).len() > max;
            assert(all[i].len() == max);
            lemma_joined_len(all, i);
        }
        assert(false);
    }
}

/// Lays out a head block and the lines that follow it as messages of at most
/// `max_len` characters each.
pub fn format_and_split_msgs(head: String, lines: &Vec<String>, max_len: usize) -> (msgs: Vec<
    String,
>)
    ensures
        msgs.deep_view() == split_blocks(seq![head@] + lines.deep_view(), max_len as nat),
{
    let ghost blocks = seq![head@] + lines.deep_view();
    let mut msgs: Vec<String> = Vec::new();
    let mut current = truncate_message(head.as_str(), max_len);
    let mut current_len = current.unicode_len();
    proof {
        assert(blocks.take(1).drop_last() =~= Seq::<Seq<char>>::empty());
        assert(split_blocks(Seq::<Seq<char>>::empty(), max_len as nat).len() == 0);
        assert(msgs.deep_view().push(current@) =~= split_blocks(blocks.take(1), max_len as nat));
    }
    for i in 0..lines.len()
        invariant
            blocks == seq![head@] + lines.deep_view(),
            current_len == current@.len(),
            current_len <= max_len,
            msgs.deep_view().push(current@) == split_blocks(blocks.take(i + 1), max_len as nat),
    {
        let block = truncate_message(lines[i].as_str(), max_len);
        let block_len = block.unicode_len();
        let ghost before = msgs.deep_view().push(current@);
        proof {
            assert(blocks.take(i + 2).drop_last() =~= blocks.take(i + 1));
            assert(blocks.take(i + 2).last() == lines[i as int]@);
            assert(before.last() == current@);
            assert(before.drop_last() =~= msgs.deep_view());
        }
        if block_len >= max_len - current_len {
            msgs.push(current);
            current = block;
            current_len = block_len;
            proof {
                assert(msgs.deep_view() =~= before);
            }
        } else {
            current.append("\n");
            current.append(block.as_str());
            current_len = current_len + 1 + block_len;
            proof {
                reveal_strlit("\n");
                assert("\n"@ =~= separator());
            }
        }
    }
    proof {
        assert(blocks.take(lines.len() + 1) =~= blocks);
    }
    msgs.push(current);
    proof {
        assert(msgs.deep_view() =~= split_blocks(blocks, max_len as nat));
    }
    msgs
}

/// How much room a head block has for its title: what the bold markup
/// leaves of a message.
pub const MAX_HEADER_TITLE_LEN: usize = MAX_MSG_LEN - 7;

/// The head block of an update: the feed's title, in bold. A title too long
/// for one message is cut to fit.
pub open spec fn header(title: Seq<char>) -> Seq<char> {
    "<b>"@ + escaped(cut_to_fit(title, MAX_HEADER_TITLE_LEN as int)) + "</b>"@
}

/// A head block fits one message, and a title that fits is in it whole.
pub proof fn lemma_header_fits(title: Seq<char>)
    ensures
        header(title).len() <= MAX_MSG_LEN,
        escaped(title).len() <= MAX_HEADER_TITLE_LEN ==> header(title) == "<b>"@ + escaped(title)
            + "</b>"@,
{
    reveal_strlit("<b>");
    reveal_strlit("</b>");
    lemma_cut_to_fit(title, MAX_HEADER_TITLE_LEN as int);
}

/// The head block of an update for the feed with this title.
pub fn format_header(title: &str) -> (head: String)
    ensures
        head@ == header(title@),
{
    let mut head = String::from_str("<b>");
    head.append(escape(fit_text(title, MAX_HEADER_TITLE_LEN).as_str()).as_str());
    head.append("</b>");
    head
}

/// The title that an item is shown with: its own, or the feed's where it has
/// none.
pub open spec fn shown_title(item: ItemView, feed_title: Seq<char>) -> Seq<char> {
    match item.title {
        Some(title) => title,
        None => feed_title,
    }
}

/// The link that an item is shown with: its own, or the feed's where it has
/// none.
pub open spec fn shown_link(item: ItemView, feed_link: Seq<char>) -> Seq<char> {
    match item.link {
        Some(link) => link,
        None => feed_link,
    }
}

/// How much room the block of an item has for its title: what the link and
/// the line break before it leave of a message.
pub open spec fn title_room(link: Seq<char>) -> int {
    MAX_MSG_LEN - 1 - url_escaped(link).len()
}

/// The block of one item: its title and below it its link. The link is
/// always whole. The title is whole where the block then fits one message,
/// and is otherwise cut by as much as makes the block fit.
pub open spec fn item_block(item: ItemView, feed_title: Seq<char>, feed_link: Seq<char>) -> Seq<
    char,
> {
    let link = shown_link(item, feed_link);
    escaped(cut_to_fit(shown_title(item, feed_title), title_room(link))) + separator()
        + url_escaped(link)
}

/// The block of an item fits one message unless its link alone is too long
/// for one.
pub proof fn lemma_item_block_fits(item: ItemView, feed_title: Seq<char>, feed_link: Seq<char>)
    requires
        url_escaped(shown_link(item, feed_link)).len() < MAX_MSG_LEN,
    ensures
        item_block(item, feed_title, feed_link).len() <= MAX_MSG_LEN,
{
    lemma_cut_to_fit(shown_title(item, feed_title), title_room(shown_link(item, feed_link)));
}

/// An item whose title and link fit one message together is shown whole.
pub proof fn lemma_item_block_whole(item: ItemView, feed_title: Seq<char>, feed_link: Seq<char>)
    requires
        escaped(shown_title(item, feed_title)).len() + 1 + url_escaped(
            shown_link(item, feed_link),
        ).len() <= MAX_MSG_LEN,
    ensures
        item_block(item, feed_title, feed_link) == escaped(shown_title(item, feed_title))
            + separator() + url_escaped(shown_link(item, feed_link)),
{
    lemma_cut_to_fit(shown_title(item, feed_title), title_room(shown_link(item, feed_link)));
}

/// The block of one item of the feed with this title and link.
pub fn format_item(item: &Item, feed_title: &str, feed_link: &str) -> (block: String)
    ensures
        block@ == item_block(item@, feed_title@, feed_link@),
{
    let title = match &item.title {
        Some(title) => title.as_str(),
        None => feed_title,
    };
    let link = match &item.link {
        Some(link) => link.as_str(),
        None => feed_link,
    };
    let link = escape_url(link);
    let link_len = link.as_str().unicode_len();
    let shown = if link_len >= MAX_MSG_LEN {
        String::new()
    } else {
        fit_text(title, MAX_MSG_LEN - 1 - link_len)
    };
    let mut block = escape(shown.as_str());
    proof {
        reveal_strlit("\n");
        assert("\n"@ =~= separator());
    }
    block.append("\n");
    block.append(link.as_str());
    block
}

/// The blocks of the items, in their order.
pub open spec fn item_blocks(items: Seq<ItemView>, feed_title: Seq<char>, feed_link: Seq<char>) -> Seq<
    Seq<char>,
> {
    Seq::new(items.len(), |i: int| item_block(items[i], feed_title, feed_link))
}

/// The messages that announce `updates` of the feed with this title and
/// link: a head block and one block per item, laid out as messages of at
/// most [`MAX_MSG_LEN`] characters.
pub open spec fn update_messages(
    feed_title: Seq<char>,
    feed_link: Seq<char>,
    updates: Seq<ItemView>,
) -> Seq<Seq<char>> {
    split_blocks(
        seq![header(feed_title)] + item_blocks(updates, feed_title, feed_link),
        MAX_MSG_LEN as nat,
    )
}

/// Laying out an update cuts no block: unless the link of an item is too
/// long for a message by itself, every block already fits, so each goes into
/// its message as it is, the title cut only where the item did not fit and
/// the link whole.
pub proof fn lemma_update_blocks_are_not_cut(
    feed_title: Seq<char>,
    feed_link: Seq<char>,
    updates: Seq<ItemView>,
)
    requires
        forall|i: int|
            0 <= i < updates.len() ==> url_escaped(shown_link(#[trigger] updates[i], feed_link)).len()
                < MAX_MSG_LEN,
    ensures
        all_truncated(
            seq![header(feed_title)] + item_blocks(updates, feed_title, feed_link),
            MAX_MSG_LEN as nat,
        ) == seq![header(feed_title)] + item_blocks(updates, feed_title, feed_link),
{
    let blocks = seq![header(feed_title)] + item_blocks(updates, feed_title, feed_link);
    lemma_header_fits(feed_title);
    assert forall|k: int| 0 <= k < blocks.len() implies truncated(
        #[trigger] blocks[k],
        MAX_MSG_LEN as nat,
    ) == blocks[k] by {
        if k > 0 {
            lemma_item_block_fits(updates[k - 1], feed_title, feed_link);
        }
    }
    assert(all_truncated(blocks, MAX_MSG_LEN as nat) =~= blocks);
}

/// Writes the messages that announce `updates` of a feed.
pub fn format_updates(feed_title: &str, feed_link: &str, updates: &Vec<Item>) -> (msgs: Vec<
    String,
>)
    ensures
        msgs.deep_view() == update_messages(feed_title@, feed_link@, updates.deep_view()),
{
    let mut lines: Vec<String> = Vec::new();
    for i in 0..updates.len()
        invariant
            lines.deep_view() == item_blocks(updates.deep_view(), feed_title@, feed_link@).take(
                i as int,
            ),
    {
        let ghost earlier = lines.deep_view();
        let line = format_item(&updates[i], feed_title, feed_link);
        lines.push(line);
        assert(lines.deep_view() =~= earlier.push(line@));
        assert(lines.deep_view() =~= item_blocks(
            updates.deep_view(),
            feed_title@,
            feed_link@,
        ).take(i + 1));
    }
    assert(lines.deep_view() =~= item_blocks(updates.deep_view(), feed_title@, feed_link@));
    format_and_split_msgs(format_header(feed_title), &lines, MAX_MSG_LEN)
}

/// The notice that a feed has failed for so long that it is probably dead:
/// the feed's title as a link to it, what went wrong, and the advice to
/// unsubscribe.
pub open spec fn dead_feed_notice(link: Seq<char>, title: Seq<char>, reason: Seq<char>) -> Seq<
    char,
> {
    "《<a href=\""@ + url_escaped(link) + "\">"@ + escaped(title)
        + "</a>》已经连续 5 天拉取出错 ("@ + escaped(reason) + "),可能已经关闭, 请取消订阅"@
}

/// Writes the notice that the feed is probably dead.
pub fn format_dead_feed_notice(link: &str, title: &str, reason: &str) -> (notice: String)
    ensures
        notice@ == dead_feed_notice(link@, title@, reason@),
{
    let mut notice = String::from_str("《<a href=\"");
    notice.append(escape_url(link).as_str());
    notice.append("\">");
    notice.append(escape(title).as_str());
    notice.append("</a>》已经连续 5 天拉取出错 (");
    notice.append(escape(reason).as_str());
    notice.append("),可能已经关闭, 请取消订阅");
    notice
}

} // verus!
