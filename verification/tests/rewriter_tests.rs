use mdbook_classy::events::BlockKind;
use mdbook_classy::events::Event;
use mdbook_classy::rewriter::transform;

fn chars(s: &str) -> Vec<char> {
    s.chars().collect()
}

fn pstart() -> Event {
    Event::BlockStart(BlockKind::Paragraph)
}

fn pend() -> Event {
    Event::BlockEnd(BlockKind::Paragraph)
}

fn text(s: &str) -> Event {
    Event::TextRun(chars(s))
}

fn html(s: &str) -> Event {
    Event::Html(chars(s))
}

#[test]
fn wraps_single_annotated_paragraph() {
    let events = vec![pstart(), text("{:.note}"), text("Hello"), pend()];
    let (out, unterminated) = transform(&events);
    assert!(unterminated.is_empty());
    assert_eq!(
        out,
        vec![
            html(r#"<div class="note" id="" >"#),
            pstart(),
            text("Hello"),
            pend(),
            html("</div>"),
        ]
    );
}

#[test]
fn wraps_two_annotated_paragraphs_independently() {
    let events = vec![
        pstart(),
        text("{:.a}"),
        text("one"),
        pend(),
        pstart(),
        text("plain"),
        pend(),
        pstart(),
        text("{:.b}"),
        text("two"),
        pend(),
    ];
    let (out, unterminated) = transform(&events);
    assert!(unterminated.is_empty());
    assert_eq!(
        out,
        vec![
            html(r#"<div class="a" id="" >"#),
            pstart(),
            text("one"),
            pend(),
            html("</div>"),
            pstart(),
            text("plain"),
            pend(),
            html(r#"<div class="b" id="" >"#),
            pstart(),
            text("two"),
            pend(),
            html("</div>"),
        ]
    );
}

#[test]
fn renders_duplicate_keys_in_order() {
    let events = vec![
        pstart(),
        text(r#"{:.a #x key="v1" key="v1 v2"}"#),
        text("body"),
        pend(),
    ];
    let (out, unterminated) = transform(&events);
    assert!(unterminated.is_empty());
    assert_eq!(
        out,
        vec![
            html(r#"<div class="a" id="x" key="v1" key="v1 v2">"#),
            pstart(),
            text("body"),
            pend(),
            html("</div>"),
        ]
    );
}

#[test]
fn unterminated_annotation_reported_and_skipped() {
    let events = vec![pstart(), text("{:.x}"), text("hi")];
    let (out, unterminated) = transform(&events);
    assert_eq!(unterminated, vec![0]);
    assert_eq!(out, events);
}

#[test]
fn close_never_misattributed_to_earlier_annotation() {
    let events = vec![
        pstart(),
        text("{:.a}"),
        pstart(),
        text("{:.b}"),
        text("x"),
        pend(),
    ];
    let (out, unterminated) = transform(&events);
    assert_eq!(unterminated, vec![0]);
    assert_eq!(
        out,
        vec![
            pstart(),
            text("{:.a}"),
            html(r#"<div class="b" id="" >"#),
            pstart(),
            text("x"),
            pend(),
            html("</div>"),
        ]
    );
}

#[test]
fn no_annotations_means_no_change() {
    let events = vec![
        Event::Other(7),
        pstart(),
        text("hello"),
        pend(),
        Event::BlockStart(BlockKind::Unknown(3)),
        Event::BlockEnd(BlockKind::Unknown(3)),
    ];
    let (out, unterminated) = transform(&events);
    assert!(unterminated.is_empty());
    assert_eq!(out, events);
}

#[test]
fn malformed_annotation_leaves_paragraph_untouched() {
    let events = vec![pstart(), text("{:.a"), pend()];
    let (out, unterminated) = transform(&events);
    assert!(unterminated.is_empty());
    assert_eq!(out, events);
}

#[test]
fn text_run_not_opening_a_paragraph_is_ignored() {
    let events = vec![text("{:.a}"), Event::Other(1), text("{:.b}"), pend()];
    let (out, unterminated) = transform(&events);
    assert!(unterminated.is_empty());
    assert_eq!(out, events);
}

#[test]
fn annotation_remainder_is_discarded() {
    let events = vec![pstart(), text("{:.note} same run remainder"), text("kept"), pend()];
    let (out, unterminated) = transform(&events);
    assert!(unterminated.is_empty());
    assert_eq!(
        out,
        vec![
            html(r#"<div class="note" id="" >"#),
            pstart(),
            text("kept"),
            pend(),
            html("</div>"),
        ]
    );
}
