//! The Markdown-like block decoder and encoder.

use mdtowiki::document::TextEncoder;
use mdtowiki::element::ETableAlign;
use mdtowiki::element::Element;
use mdtowiki::element::ElementType;
use mdtowiki::w_md::Decoder;
use mdtowiki::w_md::Encoder;

fn lines(ls: &[&str]) -> Vec<String> {
    ls.iter().map(|l| l.to_string()).collect()
}

fn load(ls: &[&str]) -> mdtowiki::document::Document {
    Decoder::new().load(&lines(ls))
}

#[test]
fn md_heading_levels() {
    let doc = load(&["# one", "### three"]);
    assert_eq!(doc.element_list.len(), 2);
    match &doc.element_list[0] {
        Element::Heading(h) => {
            assert_eq!(h.level, 1);
            assert_eq!(h.title, "one");
            assert_eq!(h.etype, ElementType::HTAG);
        },
        _ => panic!("expected a heading"),
    }
    match &doc.element_list[1] {
        Element::Heading(h) => {
            assert_eq!(h.level, 3);
            assert_eq!(h.title, "three");
        },
        _ => panic!("expected a heading"),
    }
}

#[test]
fn md_rule_and_text() {
    let doc = load(&["----", "plain line"]);
    assert!(matches!(&doc.element_list[0], Element::Rule(_)));
    match &doc.element_list[1] {
        Element::Data(d) => assert_eq!(d.text, "plain line"),
        _ => panic!("expected text"),
    }
}

#[test]
fn md_list_nesting_tracks_indent_stack() {
    // a deeper indent pushes one depth; a shallower one pops to the deepest
    // recorded depth whose indent is not greater
    let doc = load(&["- a", "  - b", "    - c", "  - d", "- e"]);
    let nests: Vec<u32> = doc
        .element_list
        .iter()
        .map(|e| match e {
            Element::ListItem(l) => l.nest,
            _ => panic!("expected list items"),
        })
        .collect();
    assert_eq!(nests, vec![0, 1, 2, 1, 0]);
}

#[test]
fn md_list_pop_lands_between_recorded_indents() {
    // indent 3 sits between the recorded indents 2 and 4, so the pop lands
    // on the depth entered at indent 2
    let doc = load(&["- a", "  - b", "    - c", "   - d"]);
    let nests: Vec<u32> = doc
        .element_list
        .iter()
        .map(|e| match e {
            Element::ListItem(l) => l.nest,
            _ => panic!("expected list items"),
        })
        .collect();
    assert_eq!(nests, vec![0, 1, 2, 1]);
}

#[test]
fn md_ordered_list_and_kinds() {
    let doc = load(&["1. first", "23. second"]);
    match &doc.element_list[0] {
        Element::ListItem(l) => {
            assert_eq!(l.etype, ElementType::OLTAG);
            assert_eq!(l.text, "first");
            assert_eq!(l.indent, 0);
        },
        _ => panic!("expected a list item"),
    }
    match &doc.element_list[1] {
        Element::ListItem(l) => assert_eq!(l.text, "second"),
        _ => panic!("expected a list item"),
    }
}

#[test]
fn md_fenced_code_is_never_inline_decoded() {
    let doc = load(&["```rust", "let a = **not bold**;", "x _y_ z", "```"]);
    assert!(matches!(&doc.element_list[0], Element::Empty(_)));
    match &doc.element_list[1] {
        Element::Pre(p) => {
            assert_eq!(p.code, "rust");
            assert_eq!(p.text, "let a = **not bold**;\nx _y_ z\n");
        },
        _ => panic!("expected a code block"),
    }
    let out = Encoder::new().encode(&doc);
    assert_eq!(out, "```rust\nlet a = **not bold**;\nx _y_ z\n```\n");
}

#[test]
fn md_unterminated_fence_is_flushed_at_end_of_input() {
    let doc = load(&["```", "body"]);
    match &doc.element_list[1] {
        Element::Pre(p) => {
            assert_eq!(p.code, "");
            assert_eq!(p.text, "body\n");
        },
        _ => panic!("expected a code block"),
    }
}

#[test]
fn md_table_alignment_round_trip() {
    let doc = load(&["| a | b | c |", "|:---|:---:|---:|", "| 1 | 2 | 3 |", "after"]);
    match &doc.element_list[1] {
        Element::Table(t) => {
            let row0 = &t.data[0];
            assert_eq!(row0.data[0].align, ETableAlign::LEFT);
            assert_eq!(row0.data[1].align, ETableAlign::CENTER);
            assert_eq!(row0.data[2].align, ETableAlign::RIGHT);
            assert!(row0.data[0].header);
            let row1 = &t.data[1];
            assert_eq!(row1.data[0].text, "1");
            assert!(!row1.data[0].header);
            assert_eq!(row1.data[1].align, ETableAlign::CENTER);
        },
        _ => panic!("expected a table"),
    }
    let out = Encoder::new().encode(&doc);
    assert_eq!(out, "| a | b | c |\n|:----|:----:|----:|\n| 1 | 2 | 3 |\nafter\n");
}

#[test]
fn md_document_round_trip() {
    let src = ["# title", "plain text", "----", "## sub", ""];
    let doc = load(&src);
    let out = Encoder::new().encode(&doc);
    assert_eq!(out, "# title\nplain text\n----\n## sub\n\n");
}

#[test]
fn md_empty_input_and_empty_lines() {
    let doc = load(&[]);
    assert_eq!(doc.element_list.len(), 0);
    assert_eq!(Encoder::new().encode(&doc), "");
    let doc = load(&[""]);
    assert_eq!(Encoder::new().encode(&doc), "\n");
}

#[test]
fn md_ragged_table_rows_are_preserved() {
    let doc = load(&["| a | b | c |", "| x |", "end"]);
    match &doc.element_list[1] {
        Element::Table(t) => {
            assert_eq!(t.data[0].data.len(), 3);
            assert_eq!(t.data[1].data.len(), 1);
        },
        _ => panic!("expected a table"),
    }
}

#[test]
fn md_inline_marks_in_body_text() {
    let doc = load(&["see **bold** and [l](t)"]);
    let out = Encoder::new().encode(&doc);
    assert_eq!(out, "see **bold** and [l](t)\n");
}
