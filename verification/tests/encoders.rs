//! The document container, the debug dump, and the write-only target.

use mdtowiki::document::Document;
use mdtowiki::document::TextEncoder;
use mdtowiki::element::DataElement;
use mdtowiki::element::ETableAlign;
use mdtowiki::element::Element;
use mdtowiki::element::ElementType;
use mdtowiki::element::HRTagElement;
use mdtowiki::element::HTagElement;
use mdtowiki::element::LITagElement;
use mdtowiki::element::NONEElement;
use mdtowiki::element::PRETagElement;
use mdtowiki::element::TABLEElement;
use mdtowiki::element::TableAttr;
use mdtowiki::element::TableColumn;

fn lines(ls: &[&str]) -> Vec<String> {
    ls.iter().map(|l| l.to_string()).collect()
}

#[test]
fn document_push_and_dump() {
    let mut doc = Document::new();
    assert_eq!(doc.element_list.len(), 0);
    doc.push(Element::Heading(HTagElement {
        etype: ElementType::HTAG,
        title: "t".to_string(),
        level: 2,
    }));
    doc.push(Element::Rule(HRTagElement {}));
    doc.push(Element::Data(DataElement { text: "body".to_string() }));
    doc.push(Element::Empty(NONEElement {}));
    assert_eq!(doc.element_list.len(), 4);
    assert_eq!(doc.dump(), "h2 t\nhr\ndata body\n");
}

#[test]
fn dump_covers_lists_code_and_tables() {
    let mut doc = Document::new();
    doc.push(Element::ListItem(LITagElement {
        etype: ElementType::ULTAG,
        text: "x".to_string(),
        indent: 4,
        nest: 2,
    }));
    doc.push(Element::Pre(PRETagElement {
        etype: ElementType::PRETAG,
        text: "b\n".to_string(),
        code: "sh".to_string(),
    }));
    let mut row = TableColumn::new();
    row.add(TableAttr { text: "h".to_string(), align: ETableAlign::DEFAULT, header: true });
    row.add(TableAttr { text: "d".to_string(), align: ETableAlign::LEFT, header: false });
    doc.push(Element::Table(TABLEElement { etype: ElementType::TABLE, data: vec![row] }));
    assert_eq!(doc.dump(), "ul 2 (4) x\npre sh b\n\ntable\n^ h ^| d |\n");
}

#[test]
fn element_get_type() {
    let e = Element::ListItem(LITagElement {
        etype: ElementType::OLTAG,
        text: String::new(),
        indent: 0,
        nest: 0,
    });
    assert_eq!(e.get_type(), ElementType::OLTAG);
    assert_eq!(Element::Rule(HRTagElement {}).get_type(), ElementType::HRTAG);
    assert_eq!(Element::Empty(NONEElement {}).get_type(), ElementType::NONE);
}

#[test]
fn conf_headings_and_lists() {
    let doc = mdtowiki::w_md::Decoder::new().load(&lines(&["## Two", "- a", "1. b"]));
    let out = mdtowiki::w_conf::Encoder::new().encode(&doc);
    assert_eq!(out, "h2. Two\n* a\n# b\n");
}

#[test]
fn conf_code_language_synonym() {
    let doc = mdtowiki::w_md::Decoder::new().load(&lines(&["```json", "{}", "```"]));
    let out = mdtowiki::w_conf::Encoder::new().encode(&doc);
    assert_eq!(out, "{code:language=js|linenumbers=false|collapse=false}\n{}\n{code}\n");
}

#[test]
fn tagless_fence_on_every_target() {
    // an empty language tag renders a tagless fence everywhere
    let doc = mdtowiki::w_md::Decoder::new().load(&lines(&["```", "x", "```"]));
    assert_eq!(mdtowiki::w_md::Encoder::new().encode(&doc), "```\nx\n```\n");
    assert_eq!(mdtowiki::w_doku::Encoder::new().encode(&doc), "<code>\nx\n</code>\n");
    assert_eq!(
        mdtowiki::w_conf::Encoder::new().encode(&doc),
        "{code:linenumbers=false|collapse=false}\nx\n{code}\n"
    );
    assert_eq!(mdtowiki::w_puki::Encoder::new().encode(&doc), " x\n");
}

#[test]
fn conf_tables_double_pipe_headers() {
    let doc = mdtowiki::w_md::Decoder::new().load(
        &lines(&["| a | b |", "|---|---|", "| 1 | 2 |", "end"]),
    );
    let out = mdtowiki::w_conf::Encoder::new().encode(&doc);
    assert_eq!(out, "|| a || b ||\n| 1 | 2 |\nend\n");
}

#[test]
fn conf_rule_and_strike() {
    let doc = mdtowiki::w_md::Decoder::new().load(&lines(&["----", "a ~~x~~ b"]));
    let out = mdtowiki::w_conf::Encoder::new().encode(&doc);
    assert_eq!(out, "----\na ~x~ b\n");
}

#[test]
fn encode_single_per_element() {
    let enc = mdtowiki::w_md::Encoder::new();
    let e = Element::Heading(HTagElement {
        etype: ElementType::HTAG,
        title: "t".to_string(),
        level: 3,
    });
    assert_eq!(enc.encode_single(&e), "### t\n");
    assert_eq!(enc.encode_single(&Element::Empty(NONEElement {})), "");
    assert_eq!(enc.encode_single(&Element::Rule(HRTagElement {})), "----\n");
    let li = Element::ListItem(LITagElement {
        etype: ElementType::ULTAG,
        text: "x".to_string(),
        indent: 2,
        nest: 1,
    });
    assert_eq!(enc.encode_single(&li), "  - x\n");
}
