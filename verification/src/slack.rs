//! Chat-notification rendering: grouping of digest entries by category,
//! the markup lines of the message, and the two display blocks of one
//! chat post.

use vstd::prelude::*;
use vstd::string::StringExecFns;
use crate::entry::{DebriefResponse, EntryModel};
use crate::window::date_label_of;
use crate::window::format_day_month_year;

verus! {

/// The distinct category labels of the entries, in first-occurrence order.
pub open spec fn spec_group_keys(es: Seq<EntryModel>) -> Seq<Seq<char>>
    decreases es.len(),
{
    if es.len() == 0 {
        Seq::empty()
    } else {
        let prev = spec_group_keys(es.drop_last());
        if prev.contains(es.last().type_of_change) {
            prev
        } else {
            prev.push(es.last().type_of_change)
        }
    }
}


/// The group keys are distinct: each category label appears once, at its
/// first occurrence.
pub proof fn lemma_group_keys_distinct(es: Seq<EntryModel>)
    ensures
        forall|i: int, j: int|
            0 <= i < j < spec_group_keys(es).len() ==> spec_group_keys(es)[i] != spec_group_keys(
                es,
            )[j],
    decreases es.len(),
{
    if es.len() > 0 {
        lemma_group_keys_distinct(es.drop_last());
        let prev = spec_group_keys(es.drop_last());
        if !prev.contains(es.last().type_of_change) {
            assert(forall|i: int|
                0 <= i < prev.len() ==> prev[i] != es.last().type_of_change);
            assert(forall|i: int|
                0 <= i < prev.len() ==> spec_group_keys(es)[i] == prev[i]);
        }
    }
}

/// The entries carrying the given category label, in their original
/// relative order. Labels are compared exactly, with no normalization.
pub open spec fn spec_group_items(es: Seq<EntryModel>, key: Seq<char>) -> Seq<EntryModel>
    decreases es.len(),
{
    if es.len() == 0 {
        Seq::empty()
    } else {
        let prev = spec_group_items(es.drop_last(), key);
        if es.last().type_of_change == key {
            prev.push(es.last())
        } else {
            prev
        }
    }
}

/// One entry's line: a hyperlink token of its address and description.
pub open spec fn spec_entry_line(e: EntryModel) -> Seq<char> {
    "<"@ + e.url + "|"@ + e.description + ">"@
}

/// The lines of a group, one per entry, joined by newlines.
pub open spec fn spec_lines(items: Seq<EntryModel>) -> Seq<char>
    decreases items.len(),
{
    if items.len() == 0 {
        Seq::empty()
    } else if items.len() == 1 {
        spec_entry_line(items.last())
    } else {
        spec_lines(items.drop_last()) + "\n"@ + spec_entry_line(items.last())
    }
}

/// One group's block: a header line with the category label, then the
/// group's lines.
pub open spec fn spec_group_block(es: Seq<EntryModel>, key: Seq<char>) -> Seq<char> {
    "*"@ + key + "*\n"@ + spec_lines(spec_group_items(es, key))
}

/// The blocks of the given categories, joined by newlines.
pub open spec fn spec_group_blocks(es: Seq<EntryModel>, keys: Seq<Seq<char>>) -> Seq<char>
    decreases keys.len(),
{
    if keys.len() == 0 {
        Seq::empty()
    } else if keys.len() == 1 {
        spec_group_block(es, keys.last())
    } else {
        spec_group_blocks(es, keys.drop_last()) + "\n"@ + spec_group_block(es, keys.last())
    }
}

/// The chat rendering of a digest: one block per category, categories in
/// first-occurrence order, entries inside a group in original order.
pub open spec fn spec_slack_message(es: Seq<EntryModel>) -> Seq<char> {
    spec_group_blocks(es, spec_group_keys(es))
}

impl DebriefResponse {
    /// Renders this entry as its chat line.
    pub fn to_slack_message(&self) -> (r: String)
        ensures
            r@ == spec_entry_line(self@),
    {
        let mut out = String::new();
        out.append("<");
        out.append(self.url.as_str());
        out.append("|");
        out.append(self.description.as_str());
        out.append(">");
        proof {
            assert(out@ =~= spec_entry_line(self@));
        }
        out
    }
}

fn contains_string(keys: &Vec<String>, x: &String) -> (r: bool)
    ensures
        r == keys.deep_view().contains(x@),
{
    let mut i: usize = 0;
    while i < keys.len()
        invariant
            i <= keys.len(),
            forall|j: int| 0 <= j < i ==> keys.deep_view()[j] != x@,
        decreases keys.len() - i,
    {
        if keys[i] == *x {
            proof {
                assert(keys.deep_view()[i as int] == x@);
            }
            return true;
        }
        i += 1;
    }
    proof {
        assert(forall|j: int|
            0 <= j < keys.deep_view().len() ==> keys.deep_view()[j] != x@);
    }
    false
}

fn collect_group_keys(debriefs: &Vec<DebriefResponse>) -> (r: Vec<String>)
    ensures
        r.deep_view() == spec_group_keys(debriefs.deep_view()),
{
    let ghost models = debriefs.deep_view();
    let mut keys: Vec<String> = Vec::new();
    let mut i: usize = 0;
    while i < debriefs.len()
        invariant
            i <= debriefs.len(),
            models == debriefs.deep_view(),
            models.len() == debriefs.len(),
            keys.deep_view() == spec_group_keys(models.take(i as int)),
        decreases debriefs.len() - i,
    {
        let ghost before = keys.deep_view();
        proof {
            assert(models[i as int] == debriefs@[i as int]@);
            assert(models.take(i as int + 1).drop_last() =~= models.take(i as int));
            assert(models.take(i as int + 1).last() == models[i as int]);
        }
        if !contains_string(&keys, &debriefs[i].type_of_change) {
            keys.push(debriefs[i].type_of_change.clone());
            proof {
                assert(keys.deep_view() =~= before.push(models[i as int].type_of_change));
            }
        }
        proof {
            assert(keys.deep_view() == spec_group_keys(models.take(i as int + 1)));
        }
        i += 1;
    }
    proof {
        assert(models.take(models.len() as int) =~= models);
    }
    keys
}

fn append_group_lines(out: &mut String, debriefs: &Vec<DebriefResponse>, key: &String)
    ensures
        final(out)@ == old(out)@ + spec_lines(
            spec_group_items(debriefs.deep_view(), key@),
        ),
{
    let ghost models = debriefs.deep_view();
    let mut first = true;
    let mut i: usize = 0;
    while i < debriefs.len()
        invariant
            i <= debriefs.len(),
            models == debriefs.deep_view(),
            models.len() == debriefs.len(),
            first == (spec_group_items(models.take(i as int), key@).len() == 0),
            out@ == old(out)@ + spec_lines(spec_group_items(models.take(i as int), key@)),
        decreases debriefs.len() - i,
    {
        let ghost group_before = spec_group_items(models.take(i as int), key@);
        proof {
            assert(models[i as int] == debriefs@[i as int]@);
            assert(models.take(i as int + 1).drop_last() =~= models.take(i as int));
            assert(models.take(i as int + 1).last() == models[i as int]);
        }
        if debriefs[i].type_of_change == *key {
            if !first {
                out.append("\n");
            }
            let line = debriefs[i].to_slack_message();
            out.append(line.as_str());
            first = false;
            proof {
                let group_now = spec_group_items(models.take(i as int + 1), key@);
                assert(group_now == group_before.push(models[i as int]));
                assert(group_now.drop_last() =~= group_before);
                assert(group_now.last() == models[i as int]);
                assert(out@ =~= old(out)@ + spec_lines(group_now));
            }
        } else {
            proof {
                assert(spec_group_items(models.take(i as int + 1), key@) == group_before);
            }
        }
        i += 1;
    }
    proof {
        assert(models.take(models.len() as int) =~= models);
    }
}

/// Renders the digest for the chat channel: entries grouped by their
/// category label, groups in first-occurrence order, each group a header
/// line followed by one line per entry.
pub fn generate_slack_message(debriefs: &Vec<DebriefResponse>) -> (r: String)
    ensures
        r@ == spec_slack_message(debriefs.deep_view()),
{
    let ghost models = debriefs.deep_view();
    let keys = collect_group_keys(debriefs);
    let ghost keyviews = keys.deep_view();
    let mut out = String::new();
    let mut k: usize = 0;
    while k < keys.len()
        invariant
            k <= keys.len(),
            models == debriefs.deep_view(),
            keyviews == keys.deep_view(),
            keyviews.len() == keys.len(),
            keyviews == spec_group_keys(models),
            out@ == spec_group_blocks(models, keyviews.take(k as int)),
        decreases keys.len() - k,
    {
        let ghost blocks_before = out@;
        proof {
            assert(keyviews[k as int] == keys@[k as int]@);
            assert(keyviews.take(k as int + 1).drop_last() =~= keyviews.take(k as int));
            assert(keyviews.take(k as int + 1).last() == keyviews[k as int]);
        }
        if k > 0 {
            out.append("\n");
        }
        out.append("*");
        out.append(keys[k].as_str());
        out.append("*\n");
        append_group_lines(&mut out, debriefs, &keys[k]);
        proof {
            if k == 0 {
                assert(out@ =~= spec_group_block(models, keyviews[0]));
                assert(out@ == spec_group_blocks(models, keyviews.take(1)));
            } else {
                assert(out@ =~= spec_group_blocks(models, keyviews.take(k as int)) + "\n"@
                    + spec_group_block(models, keyviews[k as int]));
                assert(out@ == spec_group_blocks(models, keyviews.take(k as int + 1)));
            }
        }
        k += 1;
    }
    proof {
        assert(keyviews.take(keyviews.len() as int) =~= keyviews);
    }
    out
}

/// One text element of a chat display block.
pub struct MessageText {
    pub kind: String,
    pub text: String,
}

/// One display block of a chat post.
pub struct MessageBlock {
    pub kind: String,
    pub text: MessageText,
}

/// The body of one chat message post: the target channel and the ordered
/// display blocks.
pub struct ChatPostMessageBody {
    pub channel: String,
    pub blocks: Vec<MessageBlock>,
}

/// The chat-notification delivery mechanism.
pub struct SlackDelivery {}

impl SlackDelivery {
    pub fn get_name(&self) -> (r: String)
        ensures
            r@ == "slack"@,
    {
        String::from_str("slack")
    }
}

/// Builds the two-block chat message of a digest: a header block showing
/// the reference date and a section block holding the rendered entries.
pub fn build_chat_message(channel: String, reference: u64, entries: &Vec<DebriefResponse>) -> (r:
    ChatPostMessageBody)
    requires
        reference < 253402300800,
    ensures
        r.channel@ == channel@,
        r.blocks@.len() == 2,
        r.blocks@[0].kind@ == "header"@,
        r.blocks@[0].text.kind@ == "plain_text"@,
        r.blocks@[0].text.text@ == "Digest for "@ + date_label_of(reference as int),
        r.blocks@[1].kind@ == "section"@,
        r.blocks@[1].text.kind@ == "mrkdwn"@,
        r.blocks@[1].text.text@ == spec_slack_message(entries.deep_view()),
{
    let mut header_text = String::new();
    header_text.append("Digest for ");
    let date = format_day_month_year(reference);
    header_text.append(date.as_str());
    let body_text = generate_slack_message(entries);
    ChatPostMessageBody {
        channel,
        blocks: vec![
            MessageBlock {
                kind: String::from_str("header"),
                text: MessageText { kind: String::from_str("plain_text"), text: header_text },
            },
            MessageBlock {
                kind: String::from_str("section"),
                text: MessageText { kind: String::from_str("mrkdwn"), text: body_text },
            },
        ],
    }
}

} // verus!
