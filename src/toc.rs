//! The table of contents of a document, derived from its heading events.

use vstd::prelude::*;
use crate::event::{EventView, MdEvent, views};
use crate::naming::{decimal, decimal_string};

verus! {

/// One entry of a table of contents.
pub struct TocItem {
    pub id: String,
    pub text: String,
    pub level: usize,
}

/// What a table-of-contents entry holds, as plain values.
pub struct TocEntry {
    pub id: Seq<char>,
    pub text: Seq<char>,
    pub level: nat,
}

impl View for TocItem {
    type V = TocEntry;

    open spec fn view(&self) -> TocEntry {
        TocEntry { id: self.id@, text: self.text@, level: self.level as nat }
    }
}

/// The anchor of the `n`-th heading of a document: `heading-<n>`.
pub open spec fn heading_id(n: nat) -> Seq<char> {
    "heading-"@ + decimal(n)
}

/// `stack` with every level at its top that is at least `level` removed:
/// the headings that a heading of `level` closes.
pub open spec fn close_levels(stack: Seq<nat>, level: nat) -> Seq<nat>
    decreases stack.len(),
{
    if stack.len() > 0 && stack.last() >= level {
        close_levels(stack.drop_last(), level)
    } else {
        stack
    }
}

/// The indexer's state: headings met so far, the level of the heading being
/// read (if any) and its text, the levels of the open entries, the entries.
pub struct TocState {
    pub ordinal: nat,
    pub open: Option<nat>,
    pub text: Seq<char>,
    pub stack: Seq<nat>,
    pub items: Seq<TocEntry>,
}

pub open spec fn toc_start() -> TocState {
    TocState {
        ordinal: 0,
        open: None,
        text: Seq::empty(),
        stack: Seq::empty(),
        items: Seq::empty(),
    }
}

/// One step of the indexer. A heading's start numbers it and opens it; text
/// and code inside it are gathered; its end commits an entry only where a
/// heading of the same level is open and its text is not empty. The entry's
/// nesting level is the number of committed levels left once those at least
/// as deep as it are closed.
pub open spec fn toc_step(st: TocState, e: EventView) -> TocState {
    match e {
        EventView::HeadingStart { level, .. } => TocState {
            ordinal: st.ordinal + 1,
            open: Some(level),
            text: Seq::empty(),
            ..st
        },
        EventView::Text(t) => if st.open is Some {
            TocState { text: st.text + t, ..st }
        } else {
            st
        },
        EventView::Code(t) => if st.open is Some {
            TocState { text: st.text + t, ..st }
        } else {
            st
        },
        EventView::HeadingEnd { level, .. } => if st.open == Some(level) && st.text.len() > 0 {
            let closed = close_levels(st.stack, level);
            TocState {
                open: None,
                text: Seq::empty(),
                stack: closed.push(level),
                items: st.items.push(
                    TocEntry { id: heading_id(st.ordinal), text: st.text, level: closed.len() },
                ),
                ..st
            }
        } else {
            TocState { open: None, text: Seq::empty(), ..st }
        },
        _ => st,
    }
}

/// The indexer's state after reading `evs`.
pub open spec fn toc_fold(evs: Seq<EventView>) -> TocState
    decreases evs.len(),
{
    if evs.len() == 0 {
        toc_start()
    } else {
        toc_step(toc_fold(evs.drop_last()), evs.last())
    }
}

/// The table of contents of an event stream.
pub open spec fn toc_of(evs: Seq<EventView>) -> Seq<TocEntry> {
    toc_fold(evs).items
}

/// The views of table-of-contents items.
pub open spec fn entries(items: Seq<TocItem>) -> Seq<TocEntry> {
    items.map_values(|i: TocItem| i@)
}

/// Builds the flat, level-annotated table of contents of an event stream.
pub fn build_toc(events: &Vec<MdEvent>) -> (r: Vec<TocItem>)
    ensures
        entries(r@) == toc_of(views(events@)),
{
    let mut items: Vec<TocItem> = Vec::new();
    let mut stack: Vec<u8> = Vec::new();
    let mut ordinal: usize = 0;
    let mut open: Option<u8> = None;
    let mut text = String::new();
    let mut i: usize = 0;
    proof {
        assert(views(events@).take(0) =~= Seq::<EventView>::empty());
        assert(entries(items@) =~= Seq::<TocEntry>::empty());
        assert(stack@.map_values(|l: u8| l as nat) =~= Seq::<nat>::empty());
        assert(text@ =~= Seq::<char>::empty());
    }
    while i < events.len()
        invariant
            i <= events@.len(),
            ordinal <= i,
            toc_fold(views(events@).take(i as int)) == (TocState {
                ordinal: ordinal as nat,
                open: match open {
                    Some(l) => Some(l as nat),
                    None => None,
                },
                text: text@,
                stack: stack@.map_values(|l: u8| l as nat),
                items: entries(items@),
            }),
        decreases events.len() - i,
    {
        let ghost st0 = toc_fold(views(events@).take(i as int));
        proof {
            assert(views(events@).take(i + 1).drop_last() =~= views(events@).take(i as int));
            assert(views(events@).take(i + 1).last() == events@[i as int]@);
        }
        match &events[i] {
            MdEvent::HeadingStart { level, .. } => {
                ordinal = ordinal + 1;
                open = Some(*level);
                text = String::new();
                assert(text@ =~= Seq::<char>::empty());
            },
            MdEvent::Text(t) | MdEvent::Code(t) => {
                if open.is_some() {
                    text.append(t.as_str());
                }
            },
            MdEvent::HeadingEnd { level, .. } => {
                let commit = match open {
                    Some(l) => l == *level && !text.as_str().is_empty(),
                    None => false,
                };
                if commit {
                    let ghost before = stack@.map_values(|l: u8| l as nat);
                    while stack.len() > 0 && stack[stack.len() - 1] >= *level
                        invariant
                            close_levels(stack@.map_values(|l: u8| l as nat), *level as nat)
                                == close_levels(before, *level as nat),
                        decreases stack.len(),
                    {
                        let ghost s = stack@.map_values(|l: u8| l as nat);
                        stack.pop();
                        assert(stack@.map_values(|l: u8| l as nat) =~= s.drop_last());
                    }
                    let ghost closed = stack@.map_values(|l: u8| l as nat);
                    let depth = stack.len();
                    stack.push(*level);
                    assert(stack@.map_values(|l: u8| l as nat) =~= closed.push(*level as nat));
                    let mut id = String::from_str("heading-");
                    let digits = decimal_string(ordinal);
                    id.append(digits.as_str());
                    let ghost before_items = entries(items@);
                    items.push(TocItem { id, text, level: depth });
                    assert(entries(items@) =~= before_items.push(
                        TocEntry { id: heading_id(ordinal as nat), text: st0.text, level: closed.len() },
                    ));
                } 
                open = None;
                text = String::new();
                assert(text@ =~= Seq::<char>::empty());
            },
            _ => {},
        }
        i += 1;
    }
    assert(views(events@).take(i as int) =~= views(events@));
    items
}

/// The entries form a tree when read in order: the first is at the top,
/// and each one is at most one level deeper than the entry before it.
pub open spec fn is_tree_order(items: Seq<TocEntry>) -> bool {
    &&& items.len() > 0 ==> items[0].level == 0
    &&& forall|k: int| 0 <= k < items.len() - 1 ==> #[trigger] items[k + 1].level <= items[k].level + 1
}

proof fn lemma_close_levels_shrinks(stack: Seq<nat>, level: nat)
    ensures
        close_levels(stack, level).len() <= stack.len(),
    decreases stack.len(),
{
    if stack.len() > 0 && stack.last() >= level {
        lemma_close_levels_shrinks(stack.drop_last(), level);
    }
}

proof fn lemma_toc_fold_shape(evs: Seq<EventView>)
    ensures
        is_tree_order(toc_fold(evs).items),
        toc_fold(evs).items.len() == 0 ==> toc_fold(evs).stack.len() == 0,
        toc_fold(evs).items.len() > 0 ==> toc_fold(evs).stack.len() == toc_fold(evs).items.last().level + 1,
    decreases evs.len(),
{
    if evs.len() > 0 {
        let prev = toc_fold(evs.drop_last());
        lemma_toc_fold_shape(evs.drop_last());
        match evs.last() {
            EventView::HeadingEnd { level, .. } => {
                if prev.open == Some(level) && prev.text.len() > 0 {
                    lemma_close_levels_shrinks(prev.stack, level);
                    let items = toc_fold(evs).items;
                    assert(items.drop_last() == prev.items);
                    assert forall|k: int| 0 <= k < items.len() - 1 implies #[trigger] items[k + 1].level
                        <= items[k].level + 1 by {
                        if k < items.len() - 2 {
                            assert(items[k + 1] == prev.items[k + 1]);
                            assert(items[k] == prev.items[k]);
                        }
                    }
                }
            },
            _ => {},
        }
    }
}

/// A table of contents reads as a tree: its first entry is at the top level
/// and no entry is more than one level deeper than the one before it.
pub proof fn lemma_toc_is_tree(evs: Seq<EventView>)
    ensures
        is_tree_order(toc_of(evs)),
{
    lemma_toc_fold_shape(evs);
}

} // verus!
