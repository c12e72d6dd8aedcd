//! The flattened document representation: an ordered sequence of events.
//!
//! Only the paragraph boundaries and the text runs matter to the annotation
//! logic; every other event is carried through opaquely, as an `Other` handle
//! that the host can map back to whatever it stands for.  Synthetic wrapper
//! markers emitted by the rewriter are `Html` events.

use vstd::prelude::*;

use crate::grammar::copy_range;

verus! {

/// The kind of a block-level event.  Only paragraphs are of interest; any
/// other kind is carried as an opaque handle.
#[derive(Debug, Clone, Copy, PartialEq, Eq, Structural)]
pub enum BlockKind {
    Paragraph,
    Unknown(u64),
}

/// One document event.
#[derive(Debug, Clone, PartialEq, Eq)]
pub enum Event {
    BlockStart(BlockKind),
    BlockEnd(BlockKind),
    TextRun(Vec<char>),
    Html(Vec<char>),
    Other(u64),
}

/// The mathematical value of an [`Event`].
#[verifier::ext_equal]
pub enum EventView {
    BlockStart(BlockKind),
    BlockEnd(BlockKind),
    TextRun(Seq<char>),
    Html(Seq<char>),
    Other(u64),
}

impl View for Event {
    type V = EventView;

    open spec fn view(&self) -> EventView {
        match self {
            Event::BlockStart(k) => EventView::BlockStart(*k),
            Event::BlockEnd(k) => EventView::BlockEnd(*k),
            Event::TextRun(t) => EventView::TextRun(t@),
            Event::Html(t) => EventView::Html(t@),
            Event::Other(x) => EventView::Other(*x),
        }
    }
}

/// The views of a sequence of events.
pub open spec fn events_view(v: Seq<Event>) -> Seq<EventView> {
    v.map_values(|e: Event| e@)
}

/// Copies one event; the copy has the same mathematical value.
pub fn copy_event(e: &Event) -> (r: Event)
    ensures
        r@ == e@,
{
    match e {
        Event::BlockStart(k) => Event::BlockStart(*k),
        Event::BlockEnd(k) => Event::BlockEnd(*k),
        Event::TextRun(t) => Event::TextRun(copy_text(t)),
        Event::Html(t) => Event::Html(copy_text(t)),
        Event::Other(x) => Event::Other(*x),
    }
}

fn copy_text(v: &Vec<char>) -> (r: Vec<char>)
    ensures
        r@ == v@,
{
    let r = copy_range(v, 0, v.len());
    proof {
        assert(v@.subrange(0, v@.len() as int) =~= v@);
    }
    r
}

} // verus!
