//! The event-stream rewriter: given the original events and the scanner's
//! annotations, it produces a new event sequence in which every resolved
//! annotated paragraph is wrapped between two synthetic `Html` events and
//! loses exactly its annotation text run, while every event outside those
//! paragraphs is copied verbatim and in order.

use vstd::prelude::*;

use crate::events::Event;
use crate::events::EventView;
use crate::events::copy_event;
use crate::events::events_view;
use crate::grammar::AttrListDef;
use crate::grammar::AttrListDefView;
use crate::grammar::AttributeView;
use crate::scanner::Annotation;
use crate::scanner::AnnotationView;
use crate::scanner::annotations_view;
use crate::scanner::anns_wf;
use crate::scanner::lemma_scan_wf;
use crate::scanner::scan;
use crate::scanner::spec_scan;

verus! {

/// The given token sequences, joined with a single space between neighbours.
pub open spec fn spec_join_space(parts: Seq<Seq<char>>) -> Seq<char>
    decreases parts.len(),
{
    if parts.len() == 0 {
        Seq::empty()
    } else if parts.len() == 1 {
        parts[0]
    } else {
        spec_join_space(parts.drop_last()) + seq![' '] + parts.last()
    }
}

/// One attribute pair as rendered inside the wrapper tag: `key="value"`.
pub open spec fn spec_render_attr(a: AttributeView) -> Seq<char> {
    a.key + seq!['=', '"'] + a.value + seq!['"']
}

/// The id as rendered inside the wrapper tag: the parsed id, or empty text
/// when none was given — the field itself is always emitted.
pub open spec fn spec_id_text(id: Option<Seq<char>>) -> Seq<char> {
    match id {
        Some(v) => v,
        None => Seq::empty(),
    }
}

/// The text of the synthetic wrapper-open tag.  Its shape is fixed: a `class`
/// attribute holding the space-joined classes in source order, an `id`
/// attribute holding the id or visibly empty when none was given, then the
/// space-joined `key="value"` pairs in source order.
pub open spec fn spec_wrapper_open(d: AttrListDefView) -> Seq<char> {
    seq!['<', 'd', 'i', 'v', ' ', 'c', 'l', 'a', 's', 's', '=', '"'] + spec_join_space(d.classes)
        + seq!['"', ' ', 'i', 'd', '=', '"'] + spec_id_text(d.id) + seq!['"', ' ']
        + spec_join_space(d.attributes.map_values(|a: AttributeView| spec_render_attr(a)))
        + seq!['>']
}

/// The text of the fixed wrapper-close marker.
pub open spec fn spec_wrapper_close() -> Seq<char> {
    seq!['<', '/', 'd', 'i', 'v', '>']
}

proof fn lemma_join_snoc(parts: Seq<Seq<char>>, k: int)
    requires
        0 <= k < parts.len(),
    ensures
        spec_join_space(parts.take(k + 1)) == if k == 0 {
            parts[0]
        } else {
            spec_join_space(parts.take(k)) + seq![' '] + parts[k]
        },
{
    let p1 = parts.take(k + 1);
    if k == 0 {
        assert(p1.len() == 1);
        assert(p1[0] == parts[0]);
    } else {
        assert(p1.drop_last() =~= parts.take(k));
        assert(p1.last() == parts[k]);
    }
}

fn push_chars(out: &mut Vec<char>, v: &Vec<char>)
    ensures
        final(out)@ == old(out)@ + v@,
{
    let mut i: usize = 0;
    proof {
        assert(out@ + v@.subrange(0, 0) =~= out@);
    }
    while i < v.len()
        invariant
            0 <= i <= v.len(),
            out@ == old(out)@ + v@.subrange(0, i as int),
        decreases v.len() - i,
    {
        proof {
            assert((old(out)@ + v@.subrange(0, i as int)).push(v@[i as int]) =~= old(out)@
                + v@.subrange(0, i as int + 1));
        }
        out.push(v[i]);
        i = i + 1;
    }
    proof {
        assert(v@.subrange(0, v@.len() as int) =~= v@);
    }
}

/// Renders the wrapper-open tag for a parsed attribute list.  The `id`
/// attribute is emitted even when no id was given, as a visibly empty field:
/// that exact shape is part of the contract and is not cleaned up.
pub fn render_wrapper_open(d: &AttrListDef) -> (r: Vec<char>)
    ensures
        r@ == spec_wrapper_open(d@),
{
    let ghost pre: Seq<char> = seq!['<', 'd', 'i', 'v', ' ', 'c', 'l', 'a', 's', 's', '=', '"'];
    let ghost cls: Seq<Seq<char>> = d@.classes;
    let mut out: Vec<char> = Vec::new();
    out.push('<');
    out.push('d');
    out.push('i');
    out.push('v');
    out.push(' ');
    out.push('c');
    out.push('l');
    out.push('a');
    out.push('s');
    out.push('s');
    out.push('=');
    out.push('"');
    proof {
        assert(out@ =~= pre);
        assert(pre + spec_join_space(cls.take(0)) =~= pre);
    }
    let mut k: usize = 0;
    while k < d.classes.len()
        invariant
            0 <= k <= d.classes.len(),
            cls == d@.classes,
            cls.len() == d.classes.len(),
            out@ == pre + spec_join_space(cls.take(k as int)),
        decreases d.classes.len() - k,
    {
        proof {
            assert(cls[k as int] == d.classes@[k as int]@);
        }
        if k > 0 {
            out.push(' ');
        }
        push_chars(&mut out, &d.classes[k].0);
        proof {
            lemma_join_snoc(cls, k as int);
            if k == 0 {
                assert(out@ =~= pre + spec_join_space(cls.take(1)));
            } else {
                assert(out@ =~= pre + spec_join_space(cls.take(k as int + 1)));
            }
        }
        k = k + 1;
    }
    proof {
        assert(cls.take(cls.len() as int) =~= cls);
    }
    let ghost stage1: Seq<char> = pre + spec_join_space(cls) + seq!['"', ' ', 'i', 'd', '=', '"'];
    out.push('"');
    out.push(' ');
    out.push('i');
    out.push('d');
    out.push('=');
    out.push('"');
    proof {
        assert(out@ =~= stage1);
    }
    match &d.id {
        Some(v) => {
            push_chars(&mut out, v);
        },
        None => {},
    }
    proof {
        assert(out@ =~= stage1 + spec_id_text(d@.id));
    }
    let ghost ats: Seq<Seq<char>> = d@.attributes.map_values(
        |a: AttributeView| spec_render_attr(a),
    );
    let ghost stage2: Seq<char> = stage1 + spec_id_text(d@.id) + seq!['"', ' '];
    out.push('"');
    out.push(' ');
    proof {
        assert(out@ =~= stage2);
        assert(stage2 + spec_join_space(ats.take(0)) =~= stage2);
    }
    let mut k2: usize = 0;
    while k2 < d.attributes.len()
        invariant
            0 <= k2 <= d.attributes.len(),
            ats == d@.attributes.map_values(|a: AttributeView| spec_render_attr(a)),
            ats.len() == d.attributes.len(),
            out@ == stage2 + spec_join_space(ats.take(k2 as int)),
        decreases d.attributes.len() - k2,
    {
        proof {
            assert(d@.attributes[k2 as int] == d.attributes@[k2 as int]@);
            assert(ats[k2 as int] == spec_render_attr(d.attributes@[k2 as int]@));
        }
        if k2 > 0 {
            out.push(' ');
        }
        push_chars(&mut out, &d.attributes[k2].key);
        out.push('=');
        out.push('"');
        push_chars(&mut out, &d.attributes[k2].value);
        out.push('"');
        proof {
            lemma_join_snoc(ats, k2 as int);
            if k2 == 0 {
                assert(out@ =~= stage2 + spec_join_space(ats.take(1)));
            } else {
                assert(out@ =~= stage2 + spec_join_space(ats.take(k2 as int + 1)));
            }
        }
        k2 = k2 + 1;
    }
    proof {
        assert(ats.take(ats.len() as int) =~= ats);
    }
    out.push('>');
    proof {
        assert(out@ =~= spec_wrapper_open(d@));
    }
    out
}

/// Renders the fixed wrapper-close marker.
pub fn render_wrapper_close() -> (r: Vec<char>)
    ensures
        r@ == spec_wrapper_close(),
{
    let mut out: Vec<char> = Vec::new();
    out.push('<');
    out.push('/');
    out.push('d');
    out.push('i');
    out.push('v');
    out.push('>');
    proof {
        assert(out@ =~= spec_wrapper_close());
    }
    out
}

/// What one resolved annotated paragraph becomes: the wrapper-open event, the
/// paragraph-open event unchanged, the paragraph's events with exactly the
/// annotation text run (the one at `start + 1`) dropped, then the
/// wrapper-close event.
pub open spec fn spec_piece(
    events: Seq<EventView>,
    start: int,
    end: int,
    d: AttrListDefView,
) -> Seq<EventView> {
    seq![EventView::Html(spec_wrapper_open(d))] + seq![events[start]] + events.subrange(
        start + 2,
        end + 1,
    ) + seq![EventView::Html(spec_wrapper_close())]
}

/// The rewritten tail of the document, from `cursor` on, under the remaining
/// annotations: events before each resolved annotation are copied verbatim,
/// each resolved annotation becomes its piece, an unresolved annotation is
/// skipped (its paragraph left as it came), and the tail after the last one
/// is copied verbatim.
pub open spec fn spec_rewrite_from(
    events: Seq<EventView>,
    anns: Seq<AnnotationView>,
    cursor: int,
) -> Seq<EventView>
    decreases anns.len(),
{
    if anns.len() == 0 {
        events.subrange(cursor, events.len() as int)
    } else {
        let a = anns[0];
        match a.paragraph_end {
            None => spec_rewrite_from(events, anns.drop_first(), cursor),
            Some(e) => events.subrange(cursor, a.paragraph_start) + spec_piece(
                events,
                a.paragraph_start,
                e,
                a.attr_list_def,
            ) + spec_rewrite_from(events, anns.drop_first(), e + 1),
        }
    }
}

/// The whole rewritten event sequence.
pub open spec fn spec_rewrite(events: Seq<EventView>, anns: Seq<AnnotationView>) -> Seq<
    EventView,
> {
    spec_rewrite_from(events, anns, 0)
}

/// The paragraph-open indices of the annotations whose paragraph-close was
/// never seen, in order: each is reported and excluded from rewriting.
pub open spec fn spec_unterminated(anns: Seq<AnnotationView>) -> Seq<int>
    decreases anns.len(),
{
    if anns.len() == 0 {
        Seq::empty()
    } else if anns[0].paragraph_end is None {
        seq![anns[0].paragraph_start] + spec_unterminated(anns.drop_first())
    } else {
        spec_unterminated(anns.drop_first())
    }
}

fn extend_events(out: &mut Vec<Event>, events: &Vec<Event>, from: usize, to: usize)
    requires
        from <= to <= events.len(),
    ensures
        events_view(final(out)@) == events_view(old(out)@) + events_view(events@).subrange(
            from as int,
            to as int,
        ),
{
    let mut i: usize = from;
    proof {
        assert(events_view(out@) + events_view(events@).subrange(from as int, from as int)
            =~= events_view(out@));
    }
    while i < to
        invariant
            from <= i <= to <= events.len(),
            events_view(out@) == events_view(old(out)@) + events_view(events@).subrange(
                from as int,
                i as int,
            ),
        decreases to - i,
    {
        let e = copy_event(&events[i]);
        proof {
            assert(events_view(events@)[i as int] == events@[i as int]@);
            assert(events_view(out@.push(e)) =~= events_view(out@).push(e@));
            assert((events_view(old(out)@) + events_view(events@).subrange(from as int, i as int))
                .push(events_view(events@)[i as int]) =~= events_view(old(out)@) + events_view(
                events@,
            ).subrange(from as int, i as int + 1));
        }
        out.push(e);
        i = i + 1;
    }
}

/// Splices the scanned annotations into a fresh event sequence.  For every
/// index region not covered by a resolved annotation the events are copied
/// verbatim and in order; every resolved annotation becomes its wrapped
/// paragraph with the annotation text run dropped.  The second result lists
/// the paragraph-open index of each unresolved annotation: those are reported
/// and excluded from rewriting rather than rewritten with undefined bounds.
pub fn rewrite(events: &Vec<Event>, annotations: &Vec<Annotation>) -> (r: (Vec<Event>, Vec<usize>))
    requires
        anns_wf(events_view(events@), annotations_view(annotations@)),
    ensures
        events_view(r.0@) == spec_rewrite(events_view(events@), annotations_view(annotations@)),
        r.1@.map_values(|u: usize| u as int) == spec_unterminated(annotations_view(annotations@)),
{
    let ghost evs = events_view(events@);
    let ghost avs = annotations_view(annotations@);
    let mut out: Vec<Event> = Vec::new();
    let mut errs: Vec<usize> = Vec::new();
    let mut cursor: usize = 0;
    let mut k: usize = 0;
    proof {
        assert(evs.len() == events@.len());
        assert(avs.len() == annotations@.len());
        assert(avs.skip(0) =~= avs);
        assert(events_view(out@) + spec_rewrite_from(evs, avs, 0) =~= spec_rewrite_from(
            evs,
            avs,
            0,
        ));
        assert(errs@.map_values(|u: usize| u as int) + spec_unterminated(avs)
            =~= spec_unterminated(avs));
    }
    while k < annotations.len()
        invariant
            0 <= k <= annotations.len(),
            0 <= cursor <= events.len(),
            evs == events_view(events@),
            avs == annotations_view(annotations@),
            evs.len() == events@.len(),
            avs.len() == annotations@.len(),
            anns_wf(evs, avs),
            forall|l: int|
                k <= l < avs.len() ==> cursor <= (#[trigger] avs[l]).paragraph_start,
            spec_rewrite(evs, avs) == events_view(out@) + spec_rewrite_from(
                evs,
                avs.skip(k as int),
                cursor as int,
            ),
            spec_unterminated(avs) == errs@.map_values(|u: usize| u as int) + spec_unterminated(
                avs.skip(k as int),
            ),
        decreases annotations.len() - k,
    {
        proof {
            assert(avs[k as int] == annotations@[k as int]@);
            assert(avs.skip(k as int)[0] == avs[k as int]);
            assert(avs.skip(k as int).drop_first() =~= avs.skip(k as int + 1));
        }
        let a = &annotations[k];
        match a.paragraph_end {
            None => {
                proof {
                    assert(avs[k as int].paragraph_start == a.paragraph_start as int);
                    assert(spec_unterminated(avs.skip(k as int)) == seq![
                        avs[k as int].paragraph_start,
                    ] + spec_unterminated(avs.skip(k as int + 1)));
                    assert(spec_rewrite_from(evs, avs.skip(k as int), cursor as int)
                        == spec_rewrite_from(evs, avs.skip(k as int + 1), cursor as int));
                    assert(errs@.push(a.paragraph_start).map_values(|u: usize| u as int)
                        =~= errs@.map_values(|u: usize| u as int) + seq![
                        a.paragraph_start as int,
                    ]);
                    assert((errs@.map_values(|u: usize| u as int) + seq![a.paragraph_start as int])
                        + spec_unterminated(avs.skip(k as int + 1)) =~= errs@.map_values(
                        |u: usize| u as int,
                    ) + (seq![a.paragraph_start as int] + spec_unterminated(
                        avs.skip(k as int + 1),
                    )));
                }
                errs.push(a.paragraph_start);
            },
            Some(end_idx) => {
                let ghost cursor0: int = cursor as int;
                let ghost out0 = events_view(out@);
                let pstart = a.paragraph_start;
                proof {
                    assert(cursor <= avs[k as int].paragraph_start);
                    assert(avs[k as int].paragraph_start + 2 <= end_idx < evs.len());
                }
                extend_events(&mut out, events, cursor, pstart);
                let open_text = render_wrapper_open(&a.attr_list_def);
                let open_ev = Event::Html(open_text);
                proof {
                    assert(open_ev@ == EventView::Html(spec_wrapper_open(
                        avs[k as int].attr_list_def,
                    )));
                    assert(events_view(out@.push(open_ev)) =~= events_view(out@).push(open_ev@));
                }
                out.push(open_ev);
                let pe = copy_event(&events[pstart]);
                proof {
                    assert(evs[pstart as int] == events@[pstart as int]@);
                    assert(events_view(out@.push(pe)) =~= events_view(out@).push(pe@));
                }
                out.push(pe);
                extend_events(&mut out, events, pstart + 2, end_idx + 1);
                let close_ev = Event::Html(render_wrapper_close());
                proof {
                    assert(events_view(out@.push(close_ev)) =~= events_view(out@).push(
                        close_ev@,
                    ));
                }
                out.push(close_ev);
                cursor = end_idx + 1;
                proof {
                    let av = avs[k as int];
                    let ps = av.paragraph_start;
                    let e = end_idx as int;
                    let piece = spec_piece(evs, ps, e, av.attr_list_def);
                    let rest = spec_rewrite_from(evs, avs.skip(k as int + 1), e + 1);
                    assert(events_view(out@) =~= out0 + evs.subrange(cursor0, ps) + piece);
                    assert(spec_rewrite_from(evs, avs.skip(k as int), cursor0) == evs.subrange(
                        cursor0,
                        ps,
                    ) + piece + spec_rewrite_from(evs, avs.skip(k as int).drop_first(), e + 1));
                    assert(spec_rewrite_from(evs, avs.skip(k as int).drop_first(), e + 1) == rest);
                    assert(out0 + ((evs.subrange(cursor0, ps) + piece) + rest) =~= (out0
                        + evs.subrange(cursor0, ps) + piece) + rest);
                    assert(spec_rewrite(evs, avs) == events_view(out@) + rest);
                    assert(spec_unterminated(avs.skip(k as int)) == spec_unterminated(
                        avs.skip(k as int + 1),
                    ));
                    assert forall|l: int|
                        k as int + 1 <= l < avs.len() implies cursor as int <= (
                    #[trigger] avs[l]).paragraph_start by {
                        assert(avs[k as int].paragraph_start < avs[l].paragraph_start);
                    }
                }
            },
        }
        k = k + 1;
    }
    proof {
        assert(avs.skip(avs.len() as int) =~= Seq::<AnnotationView>::empty());
    }
    extend_events(&mut out, events, cursor, events.len());
    proof {
        assert(events_view(out@) =~= spec_rewrite(evs, avs));
        assert(errs@.map_values(|u: usize| u as int) + Seq::<int>::empty() =~= errs@.map_values(
            |u: usize| u as int,
        ));
    }
    (out, errs)
}

/// The whole single-document transformation: scan, then rewrite.  The second
/// result lists the paragraph-open index of each annotation whose close was
/// never seen; such an annotation is reported and its paragraph left as it
/// came.
pub fn transform(events: &Vec<Event>) -> (r: (Vec<Event>, Vec<usize>))
    ensures
        events_view(r.0@) == spec_rewrite(
            events_view(events@),
            spec_scan(events_view(events@)),
        ),
        r.1@.map_values(|u: usize| u as int) == spec_unterminated(
            spec_scan(events_view(events@)),
        ),
{
    let anns = scan(events);
    proof {
        lemma_scan_wf(events_view(events@));
    }
    rewrite(events, &anns)
}

/// No-op law: a document in which the scanner finds no annotation is returned
/// by the rewriter exactly as it came.
pub proof fn lemma_no_annotation_no_change(events: Seq<EventView>)
    requires
        spec_scan(events).len() == 0,
    ensures
        spec_rewrite(events, spec_scan(events)) == events,
{
    assert(spec_rewrite(events, spec_scan(events)) =~= events);
}

/// How many annotations resolved: each one becomes a wrapped paragraph.
pub open spec fn spec_closed_count(anns: Seq<AnnotationView>) -> int
    decreases anns.len(),
{
    if anns.len() == 0 {
        0
    } else if anns[0].paragraph_end is Some {
        1 + spec_closed_count(anns.drop_first())
    } else {
        spec_closed_count(anns.drop_first())
    }
}

/// Whether index `j` of the original events lies inside the span of some
/// resolved annotation.
pub open spec fn spec_covered(anns: Seq<AnnotationView>, j: int) -> bool {
    exists|k: int|
        0 <= k < anns.len() && (#[trigger] anns[k]).paragraph_end is Some
            && anns[k].paragraph_start <= j <= anns[k].paragraph_end->Some_0
}

/// How far an event outside every span moves right in the output: one place
/// for each resolved annotation that ends before it.
pub open spec fn spec_shift(anns: Seq<AnnotationView>, j: int) -> int
    decreases anns.len(),
{
    if anns.len() == 0 {
        0
    } else if anns[0].paragraph_end is Some && anns[0].paragraph_end->Some_0 < j {
        1 + spec_shift(anns.drop_first(), j)
    } else {
        spec_shift(anns.drop_first(), j)
    }
}

proof fn lemma_wf_drop_first(events: Seq<EventView>, anns: Seq<AnnotationView>)
    requires
        anns_wf(events, anns),
        anns.len() > 0,
    ensures
        anns_wf(events, anns.drop_first()),
{
    let d = anns.drop_first();
    assert forall|k: int| 0 <= k < d.len() implies {
        &&& 0 <= (#[trigger] d[k]).paragraph_start
        &&& d[k].paragraph_start + 1 < events.len()
        &&& (d[k].paragraph_end matches Some(e) ==> d[k].paragraph_start + 2 <= e && e
            < events.len())
    } by {
        assert(d[k] == anns[k + 1]);
    }
    assert forall|k: int, l: int| 0 <= k < l < d.len() implies {
        &&& (#[trigger] d[k]).paragraph_start < (#[trigger] d[l]).paragraph_start
        &&& (d[k].paragraph_end matches Some(e) ==> e < d[l].paragraph_start)
    } by {
        assert(d[k] == anns[k + 1]);
        assert(d[l] == anns[l + 1]);
    }
}

proof fn lemma_rewrite_from_len(events: Seq<EventView>, anns: Seq<AnnotationView>, cursor: int)
    requires
        anns_wf(events, anns),
        0 <= cursor <= events.len(),
        forall|k: int| 0 <= k < anns.len() ==> cursor <= (#[trigger] anns[k]).paragraph_start,
    ensures
        spec_rewrite_from(events, anns, cursor).len() == events.len() - cursor
            + spec_closed_count(anns),
    decreases anns.len(),
{
    if anns.len() > 0 {
        let a = anns[0];
        let d = anns.drop_first();
        lemma_wf_drop_first(events, anns);
        assert(cursor <= anns[0].paragraph_start);
        match a.paragraph_end {
            None => {
                assert forall|k: int|
                    0 <= k < d.len() implies cursor <= (#[trigger] d[k]).paragraph_start by {
                    assert(d[k] == anns[k + 1]);
                }
                lemma_rewrite_from_len(events, d, cursor);
            },
            Some(e) => {
                assert forall|k: int|
                    0 <= k < d.len() implies e + 1 <= (#[trigger] d[k]).paragraph_start by {
                    assert(d[k] == anns[k + 1]);
                    assert(anns[0].paragraph_start < anns[k + 1].paragraph_start);
                }
                lemma_rewrite_from_len(events, d, e + 1);
            },
        }
    }
}

/// Length law: the output holds exactly one more event per wrapped paragraph
/// — two synthetic wrapper events come in, the one annotation text run goes.
pub proof fn lemma_rewrite_len(events: Seq<EventView>, anns: Seq<AnnotationView>)
    requires
        anns_wf(events, anns),
    ensures
        spec_rewrite(events, anns).len() == events.len() + spec_closed_count(anns),
{
    assert forall|k: int|
        0 <= k < anns.len() implies 0 <= (#[trigger] anns[k]).paragraph_start by {
        assert(anns[k].paragraph_start + 1 < events.len());
    }
    lemma_rewrite_from_len(events, anns, 0);
}

proof fn lemma_covered_drop(anns: Seq<AnnotationView>, j: int)
    requires
        anns.len() > 0,
        !spec_covered(anns, j),
    ensures
        !spec_covered(anns.drop_first(), j),
{
    let d = anns.drop_first();
    if spec_covered(d, j) {
        let k = choose|k: int|
            0 <= k < d.len() && (#[trigger] d[k]).paragraph_end is Some && d[k].paragraph_start
                <= j <= d[k].paragraph_end->Some_0;
        assert(anns[k + 1] == d[k]);
        assert(spec_covered(anns, j));
    }
}

proof fn lemma_shift_zero(events: Seq<EventView>, anns: Seq<AnnotationView>, j: int)
    requires
        anns_wf(events, anns),
        forall|k: int| 0 <= k < anns.len() ==> j < (#[trigger] anns[k]).paragraph_start,
    ensures
        spec_shift(anns, j) == 0,
    decreases anns.len(),
{
    if anns.len() > 0 {
        lemma_wf_drop_first(events, anns);
        let d = anns.drop_first();
        assert(j < anns[0].paragraph_start);
        assert forall|k: int| 0 <= k < d.len() implies j < (#[trigger] d[k]).paragraph_start by {
            assert(d[k] == anns[k + 1]);
        }
        lemma_shift_zero(events, d, j);
    }
}

/// The shift never shrinks as the index grows.
pub proof fn lemma_shift_monotone(anns: Seq<AnnotationView>, j1: int, j2: int)
    requires
        j1 <= j2,
    ensures
        spec_shift(anns, j1) <= spec_shift(anns, j2),
    decreases anns.len(),
{
    if anns.len() > 0 {
        lemma_shift_monotone(anns.drop_first(), j1, j2);
    }
}

proof fn lemma_outside_from(events: Seq<EventView>, anns: Seq<AnnotationView>, cursor: int, j: int)
    requires
        anns_wf(events, anns),
        0 <= cursor <= events.len(),
        forall|k: int| 0 <= k < anns.len() ==> cursor <= (#[trigger] anns[k]).paragraph_start,
        cursor <= j < events.len(),
        !spec_covered(anns, j),
    ensures
        0 <= j - cursor + spec_shift(anns, j) < spec_rewrite_from(events, anns, cursor).len(),
        spec_rewrite_from(events, anns, cursor)[j - cursor + spec_shift(anns, j)] == events[j],
    decreases anns.len(),
{
    if anns.len() == 0 {
        assert(spec_shift(anns, j) == 0);
    } else {
        let a = anns[0];
        let d = anns.drop_first();
        lemma_wf_drop_first(events, anns);
        lemma_covered_drop(anns, j);
        assert(cursor <= anns[0].paragraph_start);
        match a.paragraph_end {
            None => {
                assert forall|k: int|
                    0 <= k < d.len() implies cursor <= (#[trigger] d[k]).paragraph_start by {
                    assert(d[k] == anns[k + 1]);
                }
                lemma_outside_from(events, d, cursor, j);
            },
            Some(e) => {
                assert forall|k: int|
                    0 <= k < d.len() implies e + 1 <= (#[trigger] d[k]).paragraph_start by {
                    assert(d[k] == anns[k + 1]);
                    assert(anns[0].paragraph_start < anns[k + 1].paragraph_start);
                }
                if j < a.paragraph_start {
                    assert forall|k: int|
                        0 <= k < anns.len() implies j < (#[trigger] anns[k]).paragraph_start by {
                        if k > 0 {
                            assert(anns[0].paragraph_start < anns[k].paragraph_start);
                        }
                    }
                    lemma_shift_zero(events, anns, j);
                    assert(spec_rewrite_from(events, anns, cursor)[j - cursor] == events.subrange(
                        cursor,
                        a.paragraph_start,
                    )[j - cursor]);
                } else {
                    if a.paragraph_start <= j <= e {
                        assert(spec_covered(anns, j));
                        assert(false);
                    }
                    lemma_outside_from(events, d, e + 1, j);
                    assert(spec_shift(anns, j) == 1 + spec_shift(d, j));
                    assert(spec_rewrite_from(events, anns, cursor)[j - cursor + spec_shift(
                        anns,
                        j,
                    )] == spec_rewrite_from(events, d, e + 1)[j - (e + 1) + spec_shift(d, j)]);
                }
            },
        }
    }
}

/// Non-overlap law, first half: an event outside every resolved annotation's
/// span is neither dropped nor rewritten — it reappears in the output,
/// shifted right exactly one place per wrapped paragraph before it.
pub proof fn lemma_outside_events_kept(
    events: Seq<EventView>,
    anns: Seq<AnnotationView>,
    j: int,
)
    requires
        anns_wf(events, anns),
        0 <= j < events.len(),
        !spec_covered(anns, j),
    ensures
        0 <= j + spec_shift(anns, j) < spec_rewrite(events, anns).len(),
        spec_rewrite(events, anns)[j + spec_shift(anns, j)] == events[j],
{
    assert forall|k: int|
        0 <= k < anns.len() implies 0 <= (#[trigger] anns[k]).paragraph_start by {
        assert(anns[k].paragraph_start + 1 < events.len());
    }
    lemma_outside_from(events, anns, 0, j);
}

/// Non-overlap law, second half: two events that both lie outside every
/// resolved annotation's span keep their relative order in the output.
pub proof fn lemma_outside_order_kept(
    events: Seq<EventView>,
    anns: Seq<AnnotationView>,
    j1: int,
    j2: int,
)
    requires
        anns_wf(events, anns),
        0 <= j1 < j2 < events.len(),
        !spec_covered(anns, j1),
        !spec_covered(anns, j2),
    ensures
        j1 + spec_shift(anns, j1) < j2 + spec_shift(anns, j2),
{
    lemma_shift_monotone(anns, j1, j2);
}

} // verus!
