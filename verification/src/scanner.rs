//! The annotation scanner: a single forward pass over the event sequence that
//! records, for every paragraph whose first text run parses as an attribute
//! list, the parsed value, the index of the paragraph-open event, and — once
//! seen — the index of the matching paragraph-close event.

use vstd::prelude::*;

use crate::events::BlockKind;
use crate::events::Event;
use crate::events::EventView;
use crate::events::events_view;
use crate::grammar::AttrListDef;
use crate::grammar::AttrListDefView;
use crate::grammar::attr_list_def;
use crate::grammar::spec_attr_list_def;

verus! {

/// A detected annotation, positioned in the event sequence.  `paragraph_end`
/// stays `None` when the paragraph-close event was never seen before the next
/// annotation opened or the document ended: such an annotation is reported
/// and excluded from rewriting.
#[derive(Debug, Clone)]
pub struct Annotation {
    pub attr_list_def: AttrListDef,
    pub paragraph_start: usize,
    pub paragraph_end: Option<usize>,
}

/// The mathematical value of an [`Annotation`].
pub struct AnnotationView {
    pub attr_list_def: AttrListDefView,
    pub paragraph_start: int,
    pub paragraph_end: Option<int>,
}

impl View for Annotation {
    type V = AnnotationView;

    open spec fn view(&self) -> AnnotationView {
        AnnotationView {
            attr_list_def: self.attr_list_def@,
            paragraph_start: self.paragraph_start as int,
            paragraph_end: match self.paragraph_end {
                Some(e) => Some(e as int),
                None => None,
            },
        }
    }
}

/// The views of a sequence of annotations.
pub open spec fn annotations_view(v: Seq<Annotation>) -> Seq<AnnotationView> {
    v.map_values(|a: Annotation| a@)
}

/// Whether the event at index `i` opens an annotation: a text run standing
/// right after a paragraph-open event, whose leading text parses as an
/// attribute list (whatever trails the closing brace is discarded unread).
pub open spec fn opens_annotation(events: Seq<EventView>, i: int) -> bool {
    &&& 0 < i < events.len()
    &&& events[i] matches EventView::TextRun(t) && spec_attr_list_def(t, 0) is Some
    &&& events[i - 1] == EventView::BlockStart(BlockKind::Paragraph)
}

/// Whether the event at index `i` closes the most recently opened annotation:
/// a paragraph-close event while the last recorded annotation is still open.
pub open spec fn closes_annotation(
    events: Seq<EventView>,
    i: int,
    acc: Seq<AnnotationView>,
) -> bool {
    &&& 0 <= i < events.len()
    &&& events[i] == EventView::BlockEnd(BlockKind::Paragraph)
    &&& acc.len() > 0
    &&& acc.last().paragraph_end is None
}

/// How one event updates the list of annotations found so far.
pub open spec fn spec_scan_step(
    events: Seq<EventView>,
    i: int,
    acc: Seq<AnnotationView>,
) -> Seq<AnnotationView> {
    if opens_annotation(events, i) {
        let t = events[i]->TextRun_0;
        acc.push(
            AnnotationView {
                attr_list_def: spec_attr_list_def(t, 0)->Some_0.1,
                paragraph_start: i - 1,
                paragraph_end: None,
            },
        )
    } else if closes_annotation(events, i, acc) {
        acc.update(
            acc.len() - 1,
            AnnotationView { paragraph_end: Some(i), ..acc.last() },
        )
    } else {
        acc
    }
}

/// The annotations found in the first `n` events.
pub open spec fn spec_scan_prefix(events: Seq<EventView>, n: int) -> Seq<AnnotationView>
    decreases n,
{
    if n <= 0 {
        Seq::empty()
    } else {
        spec_scan_step(events, n - 1, spec_scan_prefix(events, n - 1))
    }
}

/// The ordered list of annotations the scanner finds in a whole document.
pub open spec fn spec_scan(events: Seq<EventView>) -> Seq<AnnotationView> {
    spec_scan_prefix(events, events.len() as int)
}

/// Well-formedness of an annotation list against its event sequence: each
/// annotation points at a paragraph-open with a text run after it, a resolved
/// close lies past that text run, and the annotations are ordered and
/// disjoint — a resolved annotation ends before the next one starts.
pub open spec fn anns_wf(events: Seq<EventView>, anns: Seq<AnnotationView>) -> bool {
    &&& forall|k: int|
        0 <= k < anns.len() ==> {
            &&& 0 <= (#[trigger] anns[k]).paragraph_start
            &&& anns[k].paragraph_start + 1 < events.len()
            &&& (anns[k].paragraph_end matches Some(e) ==> anns[k].paragraph_start + 2 <= e
                && e < events.len())
        }
    &&& forall|k: int, l: int|
        0 <= k < l < anns.len() ==> {
            &&& (#[trigger] anns[k]).paragraph_start < (#[trigger] anns[l]).paragraph_start
            &&& (anns[k].paragraph_end matches Some(e) ==> e < anns[l].paragraph_start)
        }
}

/// The invariant the scan maintains after reading the first `n` events; it
/// strengthens [`anns_wf`] with what the recorded indices point at.
pub open spec fn scan_inv(events: Seq<EventView>, n: int, anns: Seq<AnnotationView>) -> bool {
    &&& forall|k: int|
        0 <= k < anns.len() ==> {
            &&& 0 <= (#[trigger] anns[k]).paragraph_start
            &&& anns[k].paragraph_start + 1 < n
            &&& events[anns[k].paragraph_start] == EventView::BlockStart(BlockKind::Paragraph)
            &&& (anns[k].paragraph_end matches Some(e) ==> anns[k].paragraph_start + 2 <= e && e
                < n && events[e] == EventView::BlockEnd(BlockKind::Paragraph))
        }
    &&& forall|k: int, l: int|
        0 <= k < l < anns.len() ==> {
            &&& (#[trigger] anns[k]).paragraph_start < (#[trigger] anns[l]).paragraph_start
            &&& (anns[k].paragraph_end matches Some(e) ==> e < anns[l].paragraph_start)
        }
}

proof fn lemma_scan_prefix_inv(events: Seq<EventView>, n: int)
    requires
        0 <= n <= events.len(),
    ensures
        scan_inv(events, n, spec_scan_prefix(events, n)),
    decreases n,
{
    if n > 0 {
        lemma_scan_prefix_inv(events, n - 1);
        let acc = spec_scan_prefix(events, n - 1);
        let acc2 = spec_scan_prefix(events, n);
        let i = n - 1;
        if opens_annotation(events, i) {
            assert(forall|k: int|
                0 <= k < acc.len() ==> acc2[k] == (#[trigger] acc[k]));
            assert forall|k: int| 0 <= k < acc.len() implies (#[trigger] acc[k]).paragraph_end
                matches Some(e) ==> e < i - 1 by {
                if acc[k].paragraph_end is Some {
                    let e = acc[k].paragraph_end->Some_0;
                    assert(events[e] == EventView::BlockEnd(BlockKind::Paragraph));
                    assert(events[i - 1] == EventView::BlockStart(BlockKind::Paragraph));
                    assert(e != i - 1);
                }
            }
        } else if closes_annotation(events, i, acc) {
            let last = acc.len() - 1;
            assert(forall|k: int|
                0 <= k < acc.len() && k != last ==> acc2[k] == (#[trigger] acc[k]));
            assert(acc2[last].paragraph_start == acc[last].paragraph_start);
            assert(acc2[last].paragraph_start + 2 <= i);
        } else {
            assert(acc2 == acc);
        }
    }
}

/// What the scanner finds is well formed: annotations are ordered, disjoint,
/// in range, and every resolved close lies past its paragraph's text run.
pub proof fn lemma_scan_wf(events: Seq<EventView>)
    ensures
        anns_wf(events, spec_scan(events)),
{
    lemma_scan_prefix_inv(events, events.len() as int);
}

/// Single forward pass over the events.  For each index `i` holding a text
/// run whose predecessor is a paragraph-open, the text is parsed; on success
/// an annotation is recorded (any text trailing the closing brace is
/// discarded unread).  A paragraph-close event resolves the most recently
/// recorded annotation, if that one is still open.  Everything else is
/// ignored and no event is altered.
pub fn scan(events: &Vec<Event>) -> (r: Vec<Annotation>)
    ensures
        annotations_view(r@) == spec_scan(events_view(events@)),
{
    let ghost evs = events_view(events@);
    let mut anns: Vec<Annotation> = Vec::new();
    let mut i: usize = 0;
    proof {
        assert(evs.len() == events@.len());
    }
    while i < events.len()
        invariant
            0 <= i <= events.len(),
            evs == events_view(events@),
            evs.len() == events@.len(),
            annotations_view(anns@) == spec_scan_prefix(evs, i as int),
        decreases events.len() - i,
    {
        proof {
            assert(evs[i as int] == events@[i as int]@);
            if i > 0 {
                assert(evs[i as int - 1] == events@[i as int - 1]@);
            }
        }
        match &events[i] {
            Event::TextRun(t) => {
                if i > 0 {
                    let opener = matches!(&events[i - 1], Event::BlockStart(BlockKind::Paragraph));
                    if opener {
                        match attr_list_def(t, 0) {
                            Some((_rest, d)) => {
                                let a = Annotation {
                                    attr_list_def: d,
                                    paragraph_start: i - 1,
                                    paragraph_end: None,
                                };
                                proof {
                                    assert(opens_annotation(evs, i as int));
                                    assert(annotations_view(anns@.push(a)) =~= annotations_view(
                                        anns@,
                                    ).push(a@));
                                }
                                anns.push(a);
                            },
                            None => {
                                proof {
                                    assert(!opens_annotation(evs, i as int));
                                    assert(!closes_annotation(
                                        evs,
                                        i as int,
                                        annotations_view(anns@),
                                    ));
                                }
                            },
                        }
                    }
                }
            },
            Event::BlockEnd(BlockKind::Paragraph) => {
                let n = anns.len();
                if n > 0 {
                    proof {
                        assert(annotations_view(anns@)[n - 1] == anns@[n - 1]@);
                    }
                    if anns[n - 1].paragraph_end.is_none() {
                        let mut a = anns.pop().unwrap();
                        a.paragraph_end = Some(i);
                        anns.push(a);
                        proof {
                            let ghost before = spec_scan_prefix(evs, i as int);
                            assert(anns@ =~= anns@.subrange(0, n - 1).push(a));
                            assert(annotations_view(anns@) =~= before.update(
                                before.len() - 1,
                                AnnotationView {
                                    paragraph_end: Some(i as int),
                                    ..before.last()
                                },
                            ));
                        }
                    }
                }
            },
            _ => {},
        }
        i = i + 1;
    }
    anns
}

} // verus!
