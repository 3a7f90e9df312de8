//! The dialect-neutral document elements.
//!
//! Every decoder produces these and every encoder consumes them.  The set of
//! variants is closed, so each encoder handles every kind of element by
//! exhaustive matching.

use vstd::prelude::*;

use crate::chars::chars_to_string;
use crate::chars::dec_digits;
use crate::chars::push_all;
use crate::chars::push_decimal;
use crate::chars::str_to_chars;

verus! {

/// The kind of an element.
#[derive(Debug, Clone, Copy, PartialEq, Eq, Structural)]
pub enum ElementType {
    NONE,
    DATA,
    HTAG,
    ULTAG,
    OLTAG,
    PRETAG,
    TABLE,
    HRTAG,
}

/// Column alignment of one table cell.
#[derive(Debug, Clone, Copy, PartialEq, Eq, Structural)]
pub enum ETableAlign {
    DEFAULT,
    CENTER,
    LEFT,
    RIGHT,
}

/// One table cell: inline-decoded text, alignment, and a header flag.
pub struct TableAttr {
    pub text: String,
    pub align: ETableAlign,
    pub header: bool,
}

/// The mathematical value of a [`TableAttr`].
#[verifier::ext_equal]
pub struct AttrSpec {
    pub text: Seq<char>,
    pub align: ETableAlign,
    pub header: bool,
}

impl View for TableAttr {
    type V = AttrSpec;

    open spec fn view(&self) -> AttrSpec {
        AttrSpec { text: self.text@, align: self.align, header: self.header }
    }
}

/// Copies a cell.
pub fn clone_attr(a: &TableAttr) -> (r: TableAttr)
    ensures
        r@ == a@,
{
    TableAttr { text: a.text.clone(), align: a.align, header: a.header }
}

/// One table row: an ordered sequence of cells.
pub struct TableColumn {
    pub data: Vec<TableAttr>,
}

impl View for TableColumn {
    type V = Seq<AttrSpec>;

    open spec fn view(&self) -> Seq<AttrSpec> {
        self.data@.map_values(|a: TableAttr| a@)
    }
}

impl TableColumn {
    /// A row with no cells.
    pub fn new() -> (r: Self)
        ensures
            r@ == Seq::<AttrSpec>::empty(),
    {
        let r = TableColumn { data: Vec::new() };
        assert(r@ =~= Seq::<AttrSpec>::empty());
        r
    }

    /// Appends one cell to the row.
    pub fn add(&mut self, attr: TableAttr)
        ensures
            final(self)@ == old(self)@.push(attr@),
    {
        let ghost a = attr@;
        self.data.push(attr);
        assert(self@ =~= old(self)@.push(a));
    }
}

/// Copies a row.
pub fn clone_column(c: &TableColumn) -> (r: TableColumn)
    ensures
        r@ == c@,
{
    let mut data: Vec<TableAttr> = Vec::new();
    let mut i: usize = 0;
    while i < c.data.len()
        invariant
            0 <= i <= c.data@.len(),
            data@.len() == i,
            forall|k: int| 0 <= k < i ==> data@[k]@ == c.data@[k]@,
        decreases c.data@.len() - i,
    {
        data.push(clone_attr(&c.data[i]));
        i = i + 1;
    }
    let r = TableColumn { data };
    assert(r@ =~= c@);
    r
}

/// An element with no content; it stands where a structural source line
/// (fence delimiter, comment) was swallowed.
pub struct NONEElement {}

/// A heading: level 1 is the most significant.
pub struct HTagElement {
    pub title: String,
    pub etype: ElementType,
    pub level: u32,
}

/// One list item.  `indent` is the raw source indent width; `nest` is the
/// normalized depth starting at 0.
pub struct LITagElement {
    pub text: String,
    pub etype: ElementType,
    pub indent: u32,
    pub nest: u32,
}

/// A fenced code block: `code` is the raw language tag, `text` the raw body,
/// never inline-decoded.
pub struct PRETagElement {
    pub text: String,
    pub etype: ElementType,
    pub code: String,
}

/// A table: ordered rows of cells.  Ragged row lengths are preserved.
pub struct TABLEElement {
    pub etype: ElementType,
    pub data: Vec<TableColumn>,
}

/// A horizontal divider.
pub struct HRTagElement {}

/// One line of already inline-decoded body text.
pub struct DataElement {
    pub text: String,
}

/// One document element: the closed set of variants every encoder matches on.
pub enum Element {
    Empty(NONEElement),
    Heading(HTagElement),
    ListItem(LITagElement),
    Pre(PRETagElement),
    Table(TABLEElement),
    Rule(HRTagElement),
    Data(DataElement),
}

/// The mathematical value of an [`Element`].
#[verifier::ext_equal]
pub enum ElemSpec {
    Empty,
    Heading { etype: ElementType, title: Seq<char>, level: u32 },
    ListItem { etype: ElementType, text: Seq<char>, indent: u32, nest: u32 },
    Pre { etype: ElementType, text: Seq<char>, code: Seq<char> },
    Table { etype: ElementType, rows: Seq<Seq<AttrSpec>> },
    Rule,
    Data { text: Seq<char> },
}

impl View for Element {
    type V = ElemSpec;

    open spec fn view(&self) -> ElemSpec {
        match self {
            Element::Empty(_) => ElemSpec::Empty,
            Element::Heading(h) => ElemSpec::Heading {
                etype: h.etype,
                title: h.title@,
                level: h.level,
            },
            Element::ListItem(l) => ElemSpec::ListItem {
                etype: l.etype,
                text: l.text@,
                indent: l.indent,
                nest: l.nest,
            },
            Element::Pre(p) => ElemSpec::Pre { etype: p.etype, text: p.text@, code: p.code@ },
            Element::Table(t) => ElemSpec::Table {
                etype: t.etype,
                rows: t.data@.map_values(|c: TableColumn| c@),
            },
            Element::Rule(_) => ElemSpec::Rule,
            Element::Data(d) => ElemSpec::Data { text: d.text@ },
        }
    }
}

/// The kind of an element value.
pub open spec fn type_of(e: ElemSpec) -> ElementType {
    match e {
        ElemSpec::Empty => ElementType::NONE,
        ElemSpec::Heading { etype, .. } => etype,
        ElemSpec::ListItem { etype, .. } => etype,
        ElemSpec::Pre { etype, .. } => etype,
        ElemSpec::Table { etype, .. } => etype,
        ElemSpec::Rule => ElementType::HRTAG,
        ElemSpec::Data { .. } => ElementType::DATA,
    }
}

/// Debug-dump text of one table cell.
pub open spec fn dump_attr(a: AttrSpec) -> Seq<char> {
    if a.header {
        seq!['^', ' '] + a.text + seq![' ', '^']
    } else {
        seq!['|', ' '] + a.text + seq![' ', '|']
    }
}

/// Debug-dump text of the cells of one row from index `i` on.
pub open spec fn dump_row_from(row: Seq<AttrSpec>, i: int) -> Seq<char>
    decreases row.len() - i
    when 0 <= i <= row.len()
{
    if i == row.len() {
        Seq::empty()
    } else {
        dump_attr(row[i]) + dump_row_from(row, i + 1)
    }
}

/// Debug-dump text of the table rows from index `i` on, one line per row.
pub open spec fn dump_rows_from(rows: Seq<Seq<AttrSpec>>, i: int) -> Seq<char>
    decreases rows.len() - i
    when 0 <= i <= rows.len()
{
    if i == rows.len() {
        Seq::empty()
    } else {
        dump_row_from(rows[i], 0) + seq!['\n'] + dump_rows_from(rows, i + 1)
    }
}

/// Debug-dump text of one element.
pub open spec fn dump_elem(e: ElemSpec) -> Seq<char> {
    match e {
        ElemSpec::Empty => Seq::empty(),
        ElemSpec::Heading { title, level, .. } => seq!['h'] + dec_digits(level as nat) + seq![' ']
            + title + seq!['\n'],
        ElemSpec::ListItem { etype, text, indent, nest } => {
            if etype == ElementType::ULTAG {
                seq!['u', 'l', ' '] + dec_digits(nest as nat) + seq![' ', '('] + dec_digits(
                    indent as nat,
                ) + seq![')', ' '] + text + seq!['\n']
            } else if etype == ElementType::OLTAG {
                seq!['o', 'l', ' '] + dec_digits(nest as nat) + seq![' ', '('] + dec_digits(
                    indent as nat,
                ) + seq![')', ' '] + text + seq!['\n']
            } else {
                Seq::empty()
            }
        },
        ElemSpec::Pre { text, code, .. } => seq!['p', 'r', 'e', ' '] + code + seq![' '] + text
            + seq!['\n'],
        ElemSpec::Table { rows, .. } => seq!['t', 'a', 'b', 'l', 'e', '\n'] + dump_rows_from(
            rows,
            0,
        ),
        ElemSpec::Rule => seq!['h', 'r', '\n'],
        ElemSpec::Data { text } => seq!['d', 'a', 't', 'a', ' '] + text + seq!['\n'],
    }
}

impl Element {
    /// The kind of this element.
    pub fn get_type(&self) -> (t: ElementType)
        ensures
            t == type_of(self@),
    {
        match self {
            Element::Empty(_) => ElementType::NONE,
            Element::Heading(h) => h.etype,
            Element::ListItem(l) => l.etype,
            Element::Pre(p) => p.etype,
            Element::Table(t) => t.etype,
            Element::Rule(_) => ElementType::HRTAG,
            Element::Data(_) => ElementType::DATA,
        }
    }

    /// Appends the debug-dump text of this element to `out`.
    pub fn dump_into(&self, out: &mut Vec<char>)
        ensures
            final(out)@ == old(out)@ + dump_elem(self@),
    {
        match self {
            Element::Empty(_) => {
                assert(out@ =~= old(out)@ + dump_elem(self@));
            },
            Element::Heading(h) => {
                out.push('h');
                push_decimal(out, h.level);
                out.push(' ');
                let title = str_to_chars(h.title.as_str());
                push_all(out, &title);
                out.push('\n');
                assert(out@ =~= old(out)@ + dump_elem(self@));
            },
            Element::ListItem(l) => {
                if l.etype == ElementType::ULTAG || l.etype == ElementType::OLTAG {
                    if l.etype == ElementType::ULTAG {
                        out.push('u');
                    } else {
                        out.push('o');
                    }
                    out.push('l');
                    out.push(' ');
                    push_decimal(out, l.nest);
                    out.push(' ');
                    out.push('(');
                    push_decimal(out, l.indent);
                    out.push(')');
                    out.push(' ');
                    let text = str_to_chars(l.text.as_str());
                    push_all(out, &text);
                    out.push('\n');
                }
                assert(out@ =~= old(out)@ + dump_elem(self@));
            },
            Element::Pre(p) => {
                out.push('p');
                out.push('r');
                out.push('e');
                out.push(' ');
                let code = str_to_chars(p.code.as_str());
                push_all(out, &code);
                out.push(' ');
                let text = str_to_chars(p.text.as_str());
                push_all(out, &text);
                out.push('\n');
                assert(out@ =~= old(out)@ + dump_elem(self@));
            },
            Element::Table(t) => {
                out.push('t');
                out.push('a');
                out.push('b');
                out.push('l');
                out.push('e');
                out.push('\n');
                let ghost rows = t.data@.map_values(|c: TableColumn| c@);
                let ghost base = out@;
                let mut i: usize = 0;
                while i < t.data.len()
                    invariant
                        0 <= i <= t.data@.len(),
                        rows == t.data@.map_values(|c: TableColumn| c@),
                        rows.len() == t.data@.len(),
                        base + dump_rows_from(rows, 0) == out@ + dump_rows_from(rows, i as int),
                    decreases t.data@.len() - i,
                {
                    let row = &t.data[i];
                    let ghost rbase = out@;
                    let mut j: usize = 0;
                    while j < row.data.len()
                        invariant
                            0 <= j <= row.data@.len(),
                            row@.len() == row.data@.len(),
                            rbase + dump_row_from(row@, 0) == out@ + dump_row_from(
                                row@,
                                j as int,
                            ),
                        decreases row.data@.len() - j,
                    {
                        let a = &row.data[j];
                        if a.header {
                            out.push('^');
                            out.push(' ');
                        } else {
                            out.push('|');
                            out.push(' ');
                        }
                        let text = str_to_chars(a.text.as_str());
                        push_all(out, &text);
                        if a.header {
                            out.push(' ');
                            out.push('^');
                        } else {
                            out.push(' ');
                            out.push('|');
                        }
                        assert(dump_row_from(row@, j as int) == dump_attr(row@[j as int])
                            + dump_row_from(row@, j + 1));
                        assert(row@[j as int] == row.data@[j as int]@);
                        j = j + 1;
                        assert(rbase + dump_row_from(row@, 0) =~= out@ + dump_row_from(
                            row@,
                            j as int,
                        ));
                    }
                    out.push('\n');
                    assert(dump_rows_from(rows, i as int) == dump_row_from(rows[i as int], 0)
                        + seq!['\n'] + dump_rows_from(rows, i + 1));
                    assert(rows[i as int] == t.data@[i as int]@);
                    i = i + 1;
                    assert(base + dump_rows_from(rows, 0) =~= out@ + dump_rows_from(
                        rows,
                        i as int,
                    ));
                }
                assert(out@ =~= old(out)@ + dump_elem(self@));
            },
            Element::Rule(_) => {
                out.push('h');
                out.push('r');
                out.push('\n');
                assert(out@ =~= old(out)@ + dump_elem(self@));
            },
            Element::Data(d) => {
                out.push('d');
                out.push('a');
                out.push('t');
                out.push('a');
                out.push(' ');
                let text = str_to_chars(d.text.as_str());
                push_all(out, &text);
                out.push('\n');
                assert(out@ =~= old(out)@ + dump_elem(self@));
            },
        }
    }

    /// The debug-dump text of this element.
    pub fn dump(&self) -> (r: String)
        ensures
            r@ == dump_elem(self@),
    {
        let mut out: Vec<char> = Vec::new();
        self.dump_into(&mut out);
        chars_to_string(&out)
    }
}

} // verus!
