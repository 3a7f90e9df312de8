//! The DokuWiki and PukiWiki block decoders and encoders.

use mdtowiki::document::TextEncoder;
use mdtowiki::element::ETableAlign;
use mdtowiki::element::Element;
use mdtowiki::element::ElementType;

fn lines(ls: &[&str]) -> Vec<String> {
    ls.iter().map(|l| l.to_string()).collect()
}

#[test]
fn doku_heading_levels_run_opposite() {
    let doc = mdtowiki::w_doku::Decoder::new().load(&lines(&["====== top ======", "=== mid ==="]));
    match &doc.element_list[0] {
        Element::Heading(h) => {
            assert_eq!(h.level, 1);
            assert_eq!(h.title, "top");
        },
        _ => panic!("expected a heading"),
    }
    match &doc.element_list[1] {
        Element::Heading(h) => assert_eq!(h.level, 4),
        _ => panic!("expected a heading"),
    }
    let out = mdtowiki::w_doku::Encoder::new().encode(&doc);
    assert_eq!(out, "====== top ======\n=== mid ===\n");
}

#[test]
fn doku_lists_star_is_unordered_dash_is_ordered() {
    let doc = mdtowiki::w_doku::Decoder::new().load(&lines(&["  * a", "    * b", "  - c"]));
    match &doc.element_list[0] {
        Element::ListItem(l) => {
            assert_eq!(l.etype, ElementType::ULTAG);
            assert_eq!(l.nest, 0);
            assert_eq!(l.text, "a");
        },
        _ => panic!("expected a list item"),
    }
    match &doc.element_list[1] {
        Element::ListItem(l) => assert_eq!(l.nest, 1),
        _ => panic!("expected a list item"),
    }
    match &doc.element_list[2] {
        Element::ListItem(l) => assert_eq!(l.etype, ElementType::OLTAG),
        _ => panic!("expected a list item"),
    }
    let out = mdtowiki::w_doku::Encoder::new().encode(&doc);
    assert_eq!(out, "  * a\n    * b\n  - c\n");
}

#[test]
fn doku_code_block_and_language() {
    let doc = mdtowiki::w_doku::Decoder::new().load(
        &lines(&["<code rust>", "let x = 1;", "</code>", "<code>", "**raw**", "</code>"]),
    );
    match &doc.element_list[1] {
        Element::Pre(p) => {
            assert_eq!(p.code, "rust");
            assert_eq!(p.text, "let x = 1;\n");
        },
        _ => panic!("expected a code block"),
    }
    match &doc.element_list[3] {
        Element::Pre(p) => {
            assert_eq!(p.code, "");
            assert_eq!(p.text, "**raw**\n");
        },
        _ => panic!("expected a code block"),
    }
    let out = mdtowiki::w_doku::Encoder::new().encode(&doc);
    assert_eq!(out, "<code rust>\nlet x = 1;\n</code>\n<code>\n**raw**\n</code>\n");
}

#[test]
fn doku_language_synonyms() {
    let doc = mdtowiki::w_md::Decoder::new().load(&lines(&["```json", "{}", "```"]));
    let out = mdtowiki::w_doku::Encoder::new().encode(&doc);
    assert_eq!(out, "<code javascript>\n{}\n</code>\n");
}

#[test]
fn doku_table_spacing_encodes_alignment() {
    let doc = mdtowiki::w_doku::Decoder::new().load(
        &lines(&["^  c  ^ l  ^  r ^", "| x | y | z |", "end"]),
    );
    match &doc.element_list[1] {
        Element::Table(t) => {
            let row0 = &t.data[0];
            assert!(row0.data[0].header);
            assert_eq!(row0.data[0].align, ETableAlign::CENTER);
            assert_eq!(row0.data[1].align, ETableAlign::LEFT);
            assert_eq!(row0.data[2].align, ETableAlign::RIGHT);
            assert!(!t.data[1].data[0].header);
        },
        _ => panic!("expected a table"),
    }
    let out = mdtowiki::w_doku::Encoder::new().encode(&doc);
    assert_eq!(out, "^  c  ^ l  ^  r ^\n| x | y | z |\nend\n");
}

#[test]
fn doku_rule_and_unterminated_table_flush() {
    let doc = mdtowiki::w_doku::Decoder::new().load(&lines(&["----", "| a |"]));
    assert!(matches!(&doc.element_list[0], Element::Rule(_)));
    assert!(matches!(&doc.element_list[2], Element::Table(_)));
}

#[test]
fn puki_heading_and_trailing_link() {
    let doc = mdtowiki::w_puki::Decoder::new().load(
        &lines(&["** two", "* top [#anchor]"]),
    );
    match &doc.element_list[0] {
        Element::Heading(h) => {
            assert_eq!(h.level, 2);
            assert_eq!(h.title, "two");
        },
        _ => panic!("expected a heading"),
    }
    match &doc.element_list[1] {
        Element::Heading(h) => {
            assert_eq!(h.level, 1);
            assert_eq!(h.title, "top");
        },
        _ => panic!("expected a heading"),
    }
    let out = mdtowiki::w_puki::Encoder::new().encode(&doc);
    assert_eq!(out, "** two\n* top\n");
}

#[test]
fn puki_lists_by_marker_count() {
    let doc = mdtowiki::w_puki::Decoder::new().load(&lines(&["- a", "-- b", "++ c"]));
    match &doc.element_list[1] {
        Element::ListItem(l) => {
            assert_eq!(l.etype, ElementType::ULTAG);
            assert_eq!(l.nest, 1);
            assert_eq!(l.indent, 2);
        },
        _ => panic!("expected a list item"),
    }
    match &doc.element_list[2] {
        Element::ListItem(l) => assert_eq!(l.etype, ElementType::OLTAG),
        _ => panic!("expected a list item"),
    }
    let out = mdtowiki::w_puki::Encoder::new().encode(&doc);
    assert_eq!(out, "- a\n-- b\n++ c\n");
}

#[test]
fn puki_indented_code_round_trip() {
    let doc = mdtowiki::w_puki::Decoder::new().load(&lines(&[" line one", " line **two**", "after"]));
    match &doc.element_list[1] {
        Element::Pre(p) => assert_eq!(p.text, "line one\nline **two**\n"),
        _ => panic!("expected a code block"),
    }
    let out = mdtowiki::w_puki::Encoder::new().encode(&doc);
    assert_eq!(out, " line one\n line **two**\nafter\n");
}

#[test]
fn puki_table_prefix_alignment_round_trip() {
    let doc = mdtowiki::w_puki::Decoder::new().load(
        &lines(&["|LEFT: a |CENTER: b |RIGHT: c |h", "| 1 | 2 | 3 |", "end"]),
    );
    match &doc.element_list[1] {
        Element::Table(t) => {
            let row0 = &t.data[0];
            assert_eq!(row0.data[0].align, ETableAlign::LEFT);
            assert_eq!(row0.data[1].align, ETableAlign::CENTER);
            assert_eq!(row0.data[2].align, ETableAlign::RIGHT);
            assert!(row0.data[0].header);
            assert_eq!(row0.data[0].text, "a");
        },
        _ => panic!("expected a table"),
    }
    let out = mdtowiki::w_puki::Encoder::new().encode(&doc);
    assert_eq!(out, "|LEFT: a |CENTER: b |RIGHT: c |h\n| 1 | 2 | 3 |\nend\n");
}

#[test]
fn puki_comments_and_rules() {
    let doc = mdtowiki::w_puki::Decoder::new().load(&lines(&["// note", "#hr", "----"]));
    assert!(matches!(&doc.element_list[0], Element::Empty(_)));
    assert!(matches!(&doc.element_list[1], Element::Rule(_)));
    assert!(matches!(&doc.element_list[2], Element::Rule(_)));
    let out = mdtowiki::w_puki::Encoder::new().encode(&doc);
    assert_eq!(out, "----\n----\n");
}

#[test]
fn cross_dialect_document_conversion() {
    let doc = mdtowiki::w_md::Decoder::new().load(
        &lines(&["# Title", "- item **bold**", "[l](t)"]),
    );
    let doku = mdtowiki::w_doku::Encoder::new().encode(&doc);
    assert_eq!(doku, "====== Title ======\n  * item **bold**\n[[t|l]]\n");
    let puki = mdtowiki::w_puki::Encoder::new().encode(&doc);
    assert_eq!(puki, "* Title\n- item ''bold''\n[[l>t]]\n");
}
