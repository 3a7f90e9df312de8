//! The Confluence-style target dialect (write-only).

use vstd::prelude::*;

use crate::chars::chars_to_string;
use crate::chars::dec_digits;
use crate::chars::push_all;
use crate::chars::push_decimal;
use crate::chars::push_range;
use crate::chars::push_repeat;
use crate::chars::range_eq;
use crate::chars::repeat_char;
use crate::chars::str_to_chars;
use crate::document::Document;
use crate::document::TextEncoder;
use crate::element::AttrSpec;
use crate::element::ElemSpec;
use crate::element::Element;
use crate::element::ElementType;
use crate::element::TableAttr;
use crate::element::TableColumn;
use crate::tags::link_parts;
use crate::tags::lemma_link_parts_next;
use crate::tags::read_link;
use crate::tags::MARKER;

verus! {

/// Native markup this dialect emits for one non-link tag.
pub open spec fn conf_tag_out(c0: char, c1: char) -> Seq<char> {
    if c0 == 'B' || c0 == 'b' {
        if c1 == '1' {
            seq!['_']
        } else if c1 == '2' {
            seq!['*']
        } else {
            Seq::empty()
        }
    } else if c0 == 'D' || c0 == 'd' {
        seq!['~']
    } else if c0 == 'C' || c0 == 'c' {
        seq![' ']
    } else {
        Seq::empty()
    }
}

/// The dialect-native text for the tagged line `s` from index `i` on.
/// Literal characters pass through; a marker byte and its two tag characters
/// become native markup; a link tag reads both payloads ahead and emits
/// `[label|target]`; a truncated tag at the end of the line is emitted
/// literally.
pub open spec fn conf_enc_from(s: Seq<char>, i: int) -> Seq<char>
    decreases s.len() - i
    when 0 <= i <= s.len()
{
    if i >= s.len() {
        Seq::empty()
    } else {
        let c = s[i];
        if c == MARKER {
            if i + 3 > s.len() {
                s.subrange(i, s.len() as int)
            } else {
                let c0 = s[i + 1];
                let c1 = s[i + 2];
                if c0 == 'L' {
                    if c1 == '0' {
                        proof {
                            lemma_link_parts_next(s, i + 3);
                        }
                        let p = link_parts(s, i + 3);
                        seq!['['] + p.1 + seq!['|'] + p.0 + seq![']'] + conf_enc_from(s, p.2)
                    } else {
                        conf_enc_from(s, i + 3)
                    }
                } else {
                    conf_tag_out(c0, c1) + conf_enc_from(s, i + 3)
                }
            }
        } else {
            seq![c] + conf_enc_from(s, i + 1)
        }
    }
}

/// Appends the dialect-native text for the tagged line `s` to `out`.
pub(crate) fn conf_enc_into(s: &Vec<char>, out: &mut Vec<char>)
    ensures
        final(out)@ == old(out)@ + conf_enc_from(s@, 0),
{
    let mut i: usize = 0;
    while i < s.len()
        invariant
            0 <= i <= s@.len(),
            old(out)@ + conf_enc_from(s@, 0) == out@ + conf_enc_from(s@, i as int),
        decreases s@.len() - i,
    {
        let ghost i0 = i as int;
        let c = s[i];
        if c == MARKER {
            if s.len() - i < 3 {
                push_range(out, s, i, s.len());
                i = s.len();
            } else {
                let c0 = s[i + 1];
                let c1 = s[i + 2];
                if c0 == 'L' {
                    if c1 == '0' {
                        let p = read_link(s, i + 3);
                        out.push('[');
                        push_range(out, s, p.2, p.3);
                        out.push('|');
                        push_range(out, s, p.0, p.1);
                        out.push(']');
                        i = p.4;
                        proof {
                            lemma_link_parts_next(s@, i0 + 3);
                        }
                    } else {
                        i = i + 3;
                    }
                } else {
                    if c0 == 'B' || c0 == 'b' {
                        if c1 == '1' {
                            out.push('_');
                        } else if c1 == '2' {
                            out.push('*');
                        }
                    } else if c0 == 'D' || c0 == 'd' {
                        out.push('~');
                    } else if c0 == 'C' || c0 == 'c' {
                        out.push(' ');
                    }
                    i = i + 3;
                }
            }
        } else {
            out.push(c);
            i = i + 1;
        }
        assert(old(out)@ + conf_enc_from(s@, 0) =~= out@ + conf_enc_from(s@, i as int));
    }
}

/// Renders one inline-tagged line as this dialect's native text.
pub fn encode_to_conf(line: &str) -> (r: String)
    ensures
        r@ == conf_enc_from(line@, 0),
{
    let s = str_to_chars(line);
    let mut out: Vec<char> = Vec::new();
    conf_enc_into(&s, &mut out);
    chars_to_string(&out)
}


/// One cell as this dialect writes it: header cells close with a double
/// pipe, and the first cell of the row carries the row's opening delimiter.
pub open spec fn conf_cell_out(a: AttrSpec, first: bool) -> Seq<char> {
    (if first {
        if a.header {
            seq!['|', '|']
        } else {
            seq!['|']
        }
    } else {
        Seq::empty()
    }) + seq![' '] + conf_enc_from(a.text, 0) + (if a.header {
        seq![' ', '|', '|']
    } else {
        seq![' ', '|']
    })
}

/// The cells of one row from index `i` on.
pub open spec fn conf_cells_from(row: Seq<AttrSpec>, i: int) -> Seq<char>
    decreases row.len() - i
    when 0 <= i <= row.len()
{
    if i == row.len() {
        Seq::empty()
    } else {
        conf_cell_out(row[i], i == 0) + conf_cells_from(row, i + 1)
    }
}

/// The table rows from index `i` on, one line per row.
pub open spec fn conf_rows_from(rows: Seq<Seq<AttrSpec>>, i: int) -> Seq<char>
    decreases rows.len() - i
    when 0 <= i <= rows.len()
{
    if i == rows.len() {
        Seq::empty()
    } else {
        conf_cells_from(rows[i], 0) + seq!['\n'] + conf_rows_from(rows, i + 1)
    }
}

/// The options every code fence of this dialect carries.
pub open spec fn conf_code_opts() -> Seq<char> {
    seq!['l', 'i', 'n', 'e', 'n', 'u', 'm', 'b', 'e', 'r', 's', '=', 'f', 'a', 'l', 's', 'e', '|', 'c', 'o', 'l', 'l', 'a', 'p', 's', 'e', '=', 'f', 'a', 'l', 's', 'e', '}', '\n']
}

/// The code fence closer.
pub open spec fn conf_code_end() -> Seq<char> {
    seq!['{', 'c', 'o', 'd', 'e', '}', '\n']
}

/// The language tag this dialect writes: one tag passes through a synonym
/// table, any other tag is kept unchanged.
pub open spec fn conf_lang_of(code: Seq<char>) -> Seq<char> {
    if code == seq!['j', 's', 'o', 'n'] {
        seq!['j', 's']
    } else {
        code
    }
}

/// The dialect-native text for one element.  An empty language tag renders a
/// tagless fence.
pub open spec fn conf_single(e: ElemSpec) -> Seq<char> {
    match e {
        ElemSpec::Empty => Seq::empty(),
        ElemSpec::Heading { title, level, .. } => seq!['h'] + dec_digits(level as nat) + seq![
            '.',
            ' ',
        ] + conf_enc_from(title, 0) + seq!['\n'],
        ElemSpec::ListItem { etype, text, nest, .. } => repeat_char(
            if etype == ElementType::ULTAG {
                '*'
            } else {
                '#'
            },
            nest as nat + 1,
        ) + seq![' '] + conf_enc_from(text, 0) + seq!['\n'],
        ElemSpec::Pre { text, code, .. } => {
            if code.len() == 0 {
                seq!['{', 'c', 'o', 'd', 'e', ':'] + conf_code_opts() + text + conf_code_end()
            } else {
                seq!['{', 'c', 'o', 'd', 'e', ':', 'l', 'a', 'n', 'g', 'u', 'a', 'g', 'e', '='] + conf_lang_of(code) + seq!['|'] + conf_code_opts() + text
                    + conf_code_end()
            }
        },
        ElemSpec::Table { rows, .. } => conf_rows_from(rows, 0),
        ElemSpec::Rule => seq!['-', '-', '-', '-', '\n'],
        ElemSpec::Data { text } => conf_enc_from(text, 0) + seq!['\n'],
    }
}

/// The document text: every element's native text, in order.
pub open spec fn conf_out_from(es: Seq<ElemSpec>, i: int) -> Seq<char>
    decreases es.len() - i
    when 0 <= i <= es.len()
{
    if i == es.len() {
        Seq::empty()
    } else {
        conf_single(es[i]) + conf_out_from(es, i + 1)
    }
}

/// Appends the code fence options.
fn push_conf_opts(out: &mut Vec<char>)
    ensures
        final(out)@ == old(out)@ + conf_code_opts(),
{
    out.push('l');
    out.push('i');
    out.push('n');
    out.push('e');
    out.push('n');
    out.push('u');
    out.push('m');
    out.push('b');
    out.push('e');
    out.push('r');
    out.push('s');
    out.push('=');
    out.push('f');
    out.push('a');
    out.push('l');
    out.push('s');
    out.push('e');
    out.push('|');
    out.push('c');
    out.push('o');
    out.push('l');
    out.push('l');
    out.push('a');
    out.push('p');
    out.push('s');
    out.push('e');
    out.push('=');
    out.push('f');
    out.push('a');
    out.push('l');
    out.push('s');
    out.push('e');
    out.push('}');
    out.push('\n');
    assert(out@ =~= old(out)@ + conf_code_opts());
}

/// Appends one cell's native text.
fn push_conf_cell(out: &mut Vec<char>, a: &TableAttr, first: bool)
    ensures
        final(out)@ == old(out)@ + conf_cell_out(a@, first),
{
    if first {
        if a.header {
            out.push('|');
            out.push('|');
        } else {
            out.push('|');
        }
    }
    out.push(' ');
    let t = str_to_chars(a.text.as_str());
    conf_enc_into(&t, out);
    if a.header {
        out.push(' ');
        out.push('|');
        out.push('|');
    } else {
        out.push(' ');
        out.push('|');
    }
    assert(out@ =~= old(out)@ + conf_cell_out(a@, first));
}

/// Appends one table's native text.
fn push_conf_table(out: &mut Vec<char>, rows: &Vec<TableColumn>)
    ensures
        final(out)@ == old(out)@ + conf_rows_from(rows@.map_values(|c: TableColumn| c@), 0),
{
    let ghost rs = rows@.map_values(|c: TableColumn| c@);
    let mut i: usize = 0;
    while i < rows.len()
        invariant
            0 <= i <= rows@.len(),
            rs == rows@.map_values(|c: TableColumn| c@),
            rs.len() == rows@.len(),
            old(out)@ + conf_rows_from(rs, 0) == out@ + conf_rows_from(rs, i as int),
        decreases rows@.len() - i,
    {
        let row = &rows[i];
        let ghost rowv = row@;
        let ghost hbase = out@;
        assert(rowv == rs[i as int]);
        let mut j: usize = 0;
        while j < row.data.len()
            invariant
                0 <= j <= row.data@.len(),
                rowv == row@,
                rowv.len() == row.data@.len(),
                hbase + conf_cells_from(rowv, 0) == out@ + conf_cells_from(rowv, j as int),
            decreases row.data@.len() - j,
        {
            push_conf_cell(out, &row.data[j], j == 0);
            assert(rowv[j as int] == row.data@[j as int]@);
            j = j + 1;
            assert(hbase + conf_cells_from(rowv, 0) =~= out@ + conf_cells_from(rowv, j as int));
        }
        out.push('\n');
        assert(conf_rows_from(rs, i as int) == conf_cells_from(rs[i as int], 0) + seq!['\n']
            + conf_rows_from(rs, i + 1));
        i = i + 1;
        assert(old(out)@ + conf_rows_from(rs, 0) =~= out@ + conf_rows_from(rs, i as int));
    }
}

/// The block encoder for this dialect.
pub struct Encoder {}

impl Encoder {
    /// An encoder instance.
    pub fn new() -> (e: Self) {
        Encoder {}
    }
}

impl TextEncoder for Encoder {
    open spec fn single_spec(&self, e: ElemSpec) -> Seq<char> {
        conf_single(e)
    }

    open spec fn doc_spec(&self, es: Seq<ElemSpec>, i: int) -> Seq<char> {
        conf_out_from(es, i)
    }

    fn encode_single(&self, element: &Element) -> (r: String) {
        let mut out: Vec<char> = Vec::new();
        match element {
            Element::Empty(_) => {},
            Element::Heading(h) => {
                out.push('h');
                push_decimal(&mut out, h.level);
                out.push('.');
                out.push(' ');
                let t = str_to_chars(h.title.as_str());
                conf_enc_into(&t, &mut out);
                out.push('\n');
            },
            Element::ListItem(l) => {
                let c: char = if l.etype == ElementType::ULTAG {
                    '*'
                } else {
                    '#'
                };
                push_repeat(&mut out, c, l.nest as usize);
                out.push(c);
                assert(repeat_char(c, l.nest as nat) + seq![c] =~= repeat_char(
                    c,
                    l.nest as nat + 1,
                ));
                out.push(' ');
                let t = str_to_chars(l.text.as_str());
                conf_enc_into(&t, &mut out);
                out.push('\n');
            },
            Element::Pre(p) => {
                let code = str_to_chars(p.code.as_str());
                out.push('{');
                out.push('c');
                out.push('o');
                out.push('d');
                out.push('e');
                out.push(':');
                if code.len() > 0 {
                    out.push('l');
                    out.push('a');
                    out.push('n');
                    out.push('g');
                    out.push('u');
                    out.push('a');
                    out.push('g');
                    out.push('e');
                    out.push('=');
                    let json: Vec<char> = vec!['j', 's', 'o', 'n'];
                    assert(json@ =~= seq!['j', 's', 'o', 'n']);
                    let is_json = code.len() == 4 && range_eq(&code, 0, &json);
                    proof {
                        if code@.len() == 4 {
                            assert(code@.subrange(0, 4) =~= code@);
                        }
                        if code@ == seq!['j', 's', 'o', 'n'] {
                            assert(code@.len() == 4);
                        }
                    }
                    if is_json {
                        out.push('j');
                        out.push('s');
                    } else {
                        push_all(&mut out, &code);
                    }
                    out.push('|');
                }
                push_conf_opts(&mut out);
                let text = str_to_chars(p.text.as_str());
                push_all(&mut out, &text);
                out.push('{');
                out.push('c');
                out.push('o');
                out.push('d');
                out.push('e');
                out.push('}');
                out.push('\n');
            },
            Element::Table(t) => {
                push_conf_table(&mut out, &t.data);
            },
            Element::Rule(_) => {
                out.push('-');
                out.push('-');
                out.push('-');
                out.push('-');
                out.push('\n');
            },
            Element::Data(d) => {
                let t = str_to_chars(d.text.as_str());
                conf_enc_into(&t, &mut out);
                out.push('\n');
            },
        }
        assert(out@ =~= conf_single(element@));
        chars_to_string(&out)
    }

    fn encode(&self, document: &Document) -> (r: String) {
        let ghost es = document@;
        let mut out: Vec<char> = Vec::new();
        let mut i: usize = 0;
        while i < document.element_list.len()
            invariant
                0 <= i <= document.element_list@.len(),
                es == document@,
                es.len() == document.element_list@.len(),
                conf_out_from(es, 0) == out@ + conf_out_from(es, i as int),
            decreases document.element_list@.len() - i,
        {
            let piece = self.encode_single(&document.element_list[i]);
            let chars = str_to_chars(piece.as_str());
            push_all(&mut out, &chars);
            assert(es[i as int] == document.element_list@[i as int]@);
            i = i + 1;
            assert(conf_out_from(es, 0) =~= out@ + conf_out_from(es, i as int));
        }
        chars_to_string(&out)
    }
}

} // verus!
