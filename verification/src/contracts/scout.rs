//! Scout: search the tracker papertrail and code for context related to the issue.

use vstd::prelude::*;

use crate::lists;
use crate::text;

verus! {

/// Tools the scout is allowed to use: a focused subset keeps a fast model reliable.
pub const SCOUT_TOOLS: [&'static str; 2] = ["papertrail_issue_search", "semantic_search"];

/// One tracker item (or code area) the scout judged relevant. The model's output is best-effort, so
/// any field may be empty.
#[derive(Clone, Debug)]
pub struct RelatedItem {
    /// Tracker item key (e.g. issue/PR number), or a short code locator if it's a code hit.
    pub item_key: String,
    pub title: String,
    /// URL if the tool provided one; empty string otherwise.
    pub url: String,
    /// The scout's one-line take on how this relates to the issue.
    pub relation: String,
    pub summary: String,
}

impl Default for RelatedItem {
    fn default() -> (r: RelatedItem)
        ensures
            r.item_key@.len() == 0,
            r.title@.len() == 0,
            r.url@.len() == 0,
            r.relation@.len() == 0,
            r.summary@.len() == 0,
    {
        RelatedItem {
            item_key: String::new(),
            title: String::new(),
            url: String::new(),
            relation: String::new(),
            summary: String::new(),
        }
    }
}

impl RelatedItem {
    /// Carrying an identity: a key or a title that is more than white space.
    pub open spec fn meaningful(self) -> bool {
        !(text::blank(self.item_key@) && text::blank(self.title@))
    }

    /// Whether this item carries any identity. A model sometimes pads its list with empty
    /// placeholders, which are dropped before they reach the analyst or a summary.
    pub fn is_meaningful(&self) -> (r: bool)
        ensures
            r == self.meaningful(),
    {
        !(text::is_blank(self.item_key.as_str()) && text::is_blank(self.title.as_str()))
    }
}

/// The items that carry an identity, in order.
pub open spec fn meaningful_items(items: Seq<RelatedItem>) -> Seq<RelatedItem> {
    items.filter(|item: RelatedItem| item.meaningful())
}

/// Drops the empty placeholders.
pub fn keep_meaningful(items: Vec<RelatedItem>) -> (r: Vec<RelatedItem>)
    ensures
        r@ == meaningful_items(items@),
{
    let mut out: Vec<RelatedItem> = Vec::new();
    let ghost all = items@;
    let ghost keep = |item: RelatedItem| item.meaningful();
    assert(all.take(0).filter(keep) =~= Seq::empty()) by {
        reveal(Seq::filter);
    }
    for item in it: items
        invariant
            it.seq() == all,
            keep == (|item: RelatedItem| item.meaningful()),
            out@ == all.take(it.index() as int).filter(keep),
    {
        let ghost n = it.index() as int;
        proof {
            reveal(Seq::filter);
            assert(all.take(n + 1).drop_last() =~= all.take(n));
            assert(all.take(n + 1).last() == item);
        }
        if item.is_meaningful() {
            out.push(item);
        }
    }
    assert(all.take(all.len() as int) =~= all);
    out
}

/// Scout's structured output.
#[derive(Clone, Debug)]
pub struct ScoutOutput {
    pub related_items: Vec<RelatedItem>,
    /// Free-text context for the analyst: the essential, always-required output.
    pub papertrail_summary: String,
}

impl ScoutOutput {
    /// The output as it is recorded: without the empty placeholders, so that the checkpoint, the
    /// analyst's input and a summary stay clean.
    pub fn cleaned(self) -> (r: ScoutOutput)
        ensures
            r.related_items@ == meaningful_items(self.related_items@),
            r.papertrail_summary == self.papertrail_summary,
    {
        ScoutOutput {
            related_items: keep_meaningful(self.related_items),
            papertrail_summary: self.papertrail_summary,
        }
    }
}

/// An item is kept exactly when its key or its title holds anything but white space; all of those, in
/// order.
pub proof fn an_item_is_kept_when_it_names_something(items: Seq<RelatedItem>)
    ensures
        lists::kept(
            meaningful_items(items),
            items,
            |item: RelatedItem|
                !text::blank(item.item_key@) || !text::blank(item.title@),
        ),
{
    let keep = |item: RelatedItem| item.meaningful();
    let stays = |item: RelatedItem| !text::blank(item.item_key@) || !text::blank(item.title@);
    lists::a_filter_keeps(items, keep, stays);
}

} // verus!
