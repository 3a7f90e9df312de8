//! The DokuWiki dialect: its inline codec and, below, its block decoder and
//! encoder.

use vstd::prelude::*;

use crate::chars::chars_to_string;
use crate::chars::count_marks;
use crate::chars::count_marks_exec;
use crate::chars::find_first;
use crate::chars::find_last_pair;
use crate::chars::first_idx;
use crate::chars::last_pair;
use crate::chars::lemma_first_idx_bounds;
use crate::chars::lemma_last_pair_bounds;
use crate::chars::clone_chars;
use crate::chars::push_all;
use crate::chars::push_range;
use crate::chars::push_repeat;
use crate::chars::range_eq;
use crate::chars::repeat_char;
use crate::chars::run_back;
use crate::chars::run_back_exec;
use crate::chars::skip_run;
use crate::chars::skip_run_exec;
use crate::chars::skip_word;
use crate::chars::skip_word_exec;
use crate::chars::skip_ws;
use crate::chars::skip_ws_exec;
use crate::chars::split_on;
use crate::chars::split_vec;
use crate::chars::str_to_chars;
use crate::chars::trim_seq;
use crate::chars::trim_vec;
use crate::chars::ws_end;
use crate::chars::ws_end_exec;
use crate::document::Document;
use crate::document::TextEncoder;
use crate::element::clone_column;
use crate::element::AttrSpec;
use crate::element::DataElement;
use crate::element::ETableAlign;
use crate::element::ElemSpec;
use crate::element::Element;
use crate::element::ElementType;
use crate::element::HRTagElement;
use crate::element::HTagElement;
use crate::element::LITagElement;
use crate::element::NONEElement;
use crate::element::PRETagElement;
use crate::element::TABLEElement;
use crate::element::TableAttr;
use crate::element::TableColumn;
use crate::tags::em_find;
use crate::tags::em_step;
use crate::tags::try_em;
use crate::tags::Boundary;
use crate::tags::MARKER;

verus! {

/// Whether the target-and-label link form `[[target|label]]` matches `s`
/// with `[[` at `i`, given that the last `]]` of the line sits at `jj`: a
/// non-empty target free of `|` runs to the first `|`, and the `]]` comes
/// after it.
pub open spec fn doku_l2_ok(s: Seq<char>, jj: int, i: int) -> bool {
    &&& 0 <= i
    &&& i + 2 <= s.len()
    &&& s[i] == '[' && s[i + 1] == '['
    &&& match first_idx(s, '|', i + 2) {
        Some(f1) => f1 >= i + 3 && jj >= f1 + 1,
        None => false,
    }
}

/// The greatest `i <= hi` at which the target-and-label form matches.
pub open spec fn doku_l2_find_from(s: Seq<char>, jj: int, hi: int) -> Option<int>
    decreases hi + 1
    when -1 <= hi
{
    if hi < 0 {
        None
    } else if doku_l2_ok(s, jj, hi) {
        Some(hi)
    } else {
        doku_l2_find_from(s, jj, hi - 1)
    }
}

/// Where the target-and-label link form matches `s`: the positions of `[[`,
/// of the `|` separator, and of the closing `]]`, each group chosen greedily
/// from the right as in the anchored pattern `(.*)\[\[([^|]+)\|(.*)\]\](.*)`.
pub open spec fn doku_l2_find(s: Seq<char>) -> Option<(int, int, int)> {
    if s.len() < 2 {
        None
    } else {
        match last_pair(s, ']', ']', s.len() - 2) {
            None => None,
            Some(jj) => match doku_l2_find_from(s, jj, s.len() as int) {
                None => None,
                Some(i) => match first_idx(s, '|', i + 2) {
                    Some(f1) => Some((i, f1, jj)),
                    None => None,
                },
            },
        }
    }
}

/// The rewriting for the target-and-label link match.
pub open spec fn doku_l2_step(s: Seq<char>) -> Seq<char> {
    match doku_l2_find(s) {
        Some((i, f1, jj)) => s.subrange(0, i) + seq![MARKER, 'L', '0'] + s.subrange(i + 2, f1)
            + seq![MARKER, 'L', '1'] + s.subrange(f1 + 1, jj) + seq![MARKER, 'L', '2']
            + s.subrange(jj + 2, s.len() as int),
        None => s,
    }
}

/// Whether the bare link form `[[target]]` matches `s` with `[[` at `i`,
/// given the last `]]` at `jj`.
pub open spec fn doku_l1_ok(s: Seq<char>, jj: int, i: int) -> bool {
    &&& 0 <= i
    &&& i + 2 <= s.len()
    &&& s[i] == '[' && s[i + 1] == '['
    &&& jj >= i + 3
}

/// The greatest `i <= hi` at which the bare link form matches.
pub open spec fn doku_l1_find_from(s: Seq<char>, jj: int, hi: int) -> Option<int>
    decreases hi + 1
    when -1 <= hi
{
    if hi < 0 {
        None
    } else if doku_l1_ok(s, jj, hi) {
        Some(hi)
    } else {
        doku_l1_find_from(s, jj, hi - 1)
    }
}

/// Where the bare link form matches `s`: the positions of `[[` and of the
/// closing `]]`, as in the anchored pattern `(.*)\[\[(.+)\]\](.*)`.
pub open spec fn doku_l1_find(s: Seq<char>) -> Option<(int, int)> {
    if s.len() < 2 {
        None
    } else {
        match last_pair(s, ']', ']', s.len() - 2) {
            None => None,
            Some(jj) => match doku_l1_find_from(s, jj, s.len() as int) {
                None => None,
                Some(i) => Some((i, jj)),
            },
        }
    }
}

/// The rewriting for the bare link match: the canonical form keeps the
/// target and an empty label.
pub open spec fn doku_l1_step(s: Seq<char>) -> Seq<char> {
    match doku_l1_find(s) {
        Some((i, jj)) => s.subrange(0, i) + seq![MARKER, 'L', '0'] + s.subrange(i + 2, jj) + seq![
            MARKER,
            'L',
            '1',
        ] + seq![MARKER, 'L', '2'] + s.subrange(jj + 2, s.len() as int),
        None => s,
    }
}

/// Applies the target-and-label link rewrite once, if it matches.
fn try_doku_l2(s: &Vec<char>) -> (r: Option<Vec<char>>)
    ensures
        match r {
            Some(t) => doku_l2_find(s@) is Some && t@ == doku_l2_step(s@),
            None => doku_l2_find(s@) is None,
        },
{
    let n = s.len();
    if n < 2 {
        return None;
    }
    proof {
        lemma_last_pair_bounds(s@, ']', ']', n - 2);
    }
    let jj = match find_last_pair(s, ']', ']', n - 1) {
        None => {
            return None;
        },
        Some(jj) => jj,
    };
    let mut i: usize = n;
    loop
        invariant
            0 <= i <= n,
            n == s@.len(),
            n >= 2,
            last_pair(s@, ']', ']', n - 2) == Some(jj as int),
            0 <= jj <= n - 2,
            doku_l2_find_from(s@, jj as int, n as int) == doku_l2_find_from(
                s@,
                jj as int,
                i as int,
            ),
        decreases i + 1,
    {
        let ok: bool = if n - i >= 2 && s[i] == '[' && s[i + 1] == '[' {
            proof {
                lemma_first_idx_bounds(s@, '|', i + 2);
            }
            match find_first(s, '|', i + 2) {
                Some(f1) => f1 > i && f1 - i >= 3 && jj > f1,
                None => false,
            }
        } else {
            false
        };
        assert(ok == doku_l2_ok(s@, jj as int, i as int));
        if ok {
            let f1 = match find_first(s, '|', i + 2) {
                Some(f1) => f1,
                None => {
                    proof {
                        assert(false);
                    }
                    0
                },
            };
            proof {
                lemma_first_idx_bounds(s@, '|', i + 2);
            }
            let mut out: Vec<char> = Vec::new();
            push_range(&mut out, s, 0, i);
            out.push(MARKER);
            out.push('L');
            out.push('0');
            push_range(&mut out, s, i + 2, f1);
            out.push(MARKER);
            out.push('L');
            out.push('1');
            push_range(&mut out, s, f1 + 1, jj);
            out.push(MARKER);
            out.push('L');
            out.push('2');
            push_range(&mut out, s, jj + 2, n);
            assert(out@ =~= doku_l2_step(s@));
            return Some(out);
        }
        if i == 0 {
            assert(doku_l2_find_from(s@, jj as int, 0) == doku_l2_find_from(s@, jj as int, -1));
            return None;
        }
        i = i - 1;
    }
}

/// Applies the bare link rewrite once, if it matches.  The bare `[[target]]`
/// form is shared with the PukiWiki decoder.
pub(crate) fn try_doku_l1(s: &Vec<char>) -> (r: Option<Vec<char>>)
    ensures
        match r {
            Some(t) => doku_l1_find(s@) is Some && t@ == doku_l1_step(s@),
            None => doku_l1_find(s@) is None,
        },
{
    let n = s.len();
    if n < 2 {
        return None;
    }
    proof {
        lemma_last_pair_bounds(s@, ']', ']', n - 2);
    }
    let jj = match find_last_pair(s, ']', ']', n - 1) {
        None => {
            return None;
        },
        Some(jj) => jj,
    };
    let mut i: usize = n;
    loop
        invariant
            0 <= i <= n,
            n == s@.len(),
            n >= 2,
            last_pair(s@, ']', ']', n - 2) == Some(jj as int),
            0 <= jj <= n - 2,
            doku_l1_find_from(s@, jj as int, n as int) == doku_l1_find_from(
                s@,
                jj as int,
                i as int,
            ),
        decreases i + 1,
    {
        let ok: bool = n - i >= 2 && s[i] == '[' && s[i + 1] == '[' && jj > i && jj - i >= 3;
        assert(ok == doku_l1_ok(s@, jj as int, i as int));
        if ok {
            let mut out: Vec<char> = Vec::new();
            push_range(&mut out, s, 0, i);
            out.push(MARKER);
            out.push('L');
            out.push('0');
            push_range(&mut out, s, i + 2, jj);
            out.push(MARKER);
            out.push('L');
            out.push('1');
            out.push(MARKER);
            out.push('L');
            out.push('2');
            push_range(&mut out, s, jj + 2, n);
            assert(out@ =~= doku_l1_step(s@));
            return Some(out);
        }
        if i == 0 {
            assert(doku_l1_find_from(s@, jj as int, 0) == doku_l1_find_from(s@, jj as int, -1));
            return None;
        }
        i = i - 1;
    }
}

/// One decode rewriting step: the first pattern, in priority order, that
/// matches the line is rewritten to tag form.
pub open spec fn doku_step(s: Seq<char>) -> Option<Seq<char>> {
    let fr = Boundary::Free;
    if em_find(s, seq!['*', '*'], seq!['*', '*'], '*', fr, fr) is Some {
        Some(em_step(s, seq!['*', '*'], seq!['*', '*'], '*', fr, fr, 'B', '2', 'b', '2'))
    } else if em_find(s, seq!['/', '/'], seq!['/', '/'], '/', fr, fr) is Some {
        Some(em_step(s, seq!['/', '/'], seq!['/', '/'], '/', fr, fr, 'B', '1', 'b', '1'))
    } else if em_find(
        s,
        seq!['<', 'd', 'e', 'l', '>'],
        seq!['<', '/', 'd', 'e', 'l', '>'],
        '/',
        fr,
        fr,
    ) is Some {
        Some(
            em_step(
                s,
                seq!['<', 'd', 'e', 'l', '>'],
                seq!['<', '/', 'd', 'e', 'l', '>'],
                '/',
                fr,
                fr,
                'D',
                '0',
                'd',
                '0',
            ),
        )
    } else if doku_l2_find(s) is Some {
        Some(doku_l2_step(s))
    } else if doku_l1_find(s) is Some {
        Some(doku_l1_step(s))
    } else {
        None
    }
}

/// Applies one decode rewriting step, if any pattern matches.
fn doku_step_exec(s: &Vec<char>) -> (r: Option<Vec<char>>)
    ensures
        match r {
            Some(t) => doku_step(s@) == Some(t@),
            None => doku_step(s@) is None,
        },
{
    let fr = Boundary::Free;
    let a2: Vec<char> = vec!['*', '*'];
    let sl2: Vec<char> = vec!['/', '/'];
    let dlo: Vec<char> = vec!['<', 'd', 'e', 'l', '>'];
    let dlc: Vec<char> = vec!['<', '/', 'd', 'e', 'l', '>'];
    assert(a2@ =~= seq!['*', '*']);
    assert(sl2@ =~= seq!['/', '/']);
    assert(dlo@ =~= seq!['<', 'd', 'e', 'l', '>']);
    assert(dlc@ =~= seq!['<', '/', 'd', 'e', 'l', '>']);
    if let Some(t) = try_em(s, &a2, &a2, '*', fr, fr, 'B', '2', 'b', '2') {
        return Some(t);
    }
    if let Some(t) = try_em(s, &sl2, &sl2, '/', fr, fr, 'B', '1', 'b', '1') {
        return Some(t);
    }
    proof {
        assert(first_idx(dlc@, '/', 1) == Some(1int));
        assert(first_idx(dlc@, '/', 0) == Some(1int));
    }
    if let Some(t) = try_em(s, &dlo, &dlc, '/', fr, fr, 'D', '0', 'd', '0') {
        return Some(t);
    }
    if let Some(t) = try_doku_l2(s) {
        return Some(t);
    }
    if let Some(t) = try_doku_l1(s) {
        return Some(t);
    }
    None
}

/// The characters whose presence can still feed a decode rewriting step.
pub open spec fn doku_marks() -> Seq<char> {
    seq!['*', '/', '<', '>', '[', ']', '|']
}

/// Decode rewriting bounded by `fuel` steps.
pub open spec fn doku_rewrite_fuel(s: Seq<char>, fuel: nat) -> Seq<char>
    decreases fuel,
{
    if fuel == 0 {
        s
    } else {
        match doku_step(s) {
            None => s,
            Some(t) => doku_rewrite_fuel(t, (fuel - 1) as nat),
        }
    }
}

/// The line with every native inline pattern rewritten to tag form.
pub open spec fn doku_rewritten(s: Seq<char>) -> Seq<char> {
    doku_rewrite_fuel(s, count_marks(s, doku_marks()))
}

/// Rewrites until no pattern matches, on the character level.
fn doku_rewrite_chars(s: Vec<char>) -> (r: Vec<char>)
    ensures
        r@ == doku_rewritten(s@),
{
    let marks: Vec<char> = vec!['*', '/', '<', '>', '[', ']', '|'];
    assert(marks@ =~= doku_marks());
    let mut buf = s;
    let mut fuel: usize = count_marks_exec(&buf, &marks);
    while fuel > 0
        invariant
            doku_rewrite_fuel(buf@, fuel as nat) == doku_rewritten(s@),
        decreases fuel,
    {
        match doku_step_exec(&buf) {
            None => {
                assert(doku_rewrite_fuel(buf@, fuel as nat) == buf@);
                fuel = 0;
            },
            Some(t) => {
                buf = t;
                fuel = fuel - 1;
            },
        }
    }
    buf
}

/// Rewrites one line's native inline markup to the neutral tag form.
pub fn replace_doku_tags(line: &str) -> (r: String)
    ensures
        r@ == doku_rewritten(line@),
{
    let s = str_to_chars(line);
    let out = doku_rewrite_chars(s);
    chars_to_string(&out)
}

/// Inline-decodes one source line; this dialect needs no unescaping pass
/// beyond the tag rewriting.
pub fn decode_from_doku(line0: &str) -> (r: String)
    ensures
        r@ == doku_rewritten(line0@),
{
    replace_doku_tags(line0)
}

/// Whether the line is a horizontal rule: it opens with four dashes.
pub open spec fn doku_is_hr(s: Seq<char>) -> bool {
    s.len() >= 4 && s.subrange(0, 4) == seq!['-', '-', '-', '-']
}

/// A heading line `== title ==`: the runs of equals signs at both ends give
/// the level — many signs mean a shallow heading — and the text between the
/// surrounding whitespace is the raw title.
pub open spec fn doku_heading(s: Seq<char>) -> Option<(u32, Seq<char>)> {
    let h = skip_run(s, '=', 0);
    let w = skip_ws(s, h);
    let q = run_back(s, '=', s.len() as int);
    let wsq = ws_end(s, q);
    if 1 <= h && w > h && q < s.len() && wsq < q && q >= h + 2 {
        let t1 = if w <= q - 1 {
            w
        } else {
            q - 1
        };
        let t2 = if wsq >= t1 {
            wsq
        } else {
            t1
        };
        let level: u32 = if h < 7 {
            (7 - h) as u32
        } else {
            1
        };
        Some((level, s.subrange(t1, t2)))
    } else {
        None
    }
}

/// A list line `  * text` or `  - text`: two spaces, extra indent, the
/// marker (a star is unordered, a dash ordered), whitespace, raw text.
pub open spec fn doku_list(s: Seq<char>) -> Option<(ElementType, u32, Seq<char>)> {
    if s.len() >= 2 && s[0] == ' ' && s[1] == ' ' {
        let w2 = skip_ws(s, 2);
        if w2 < s.len() && w2 - 2 <= u32::MAX && (s[w2] == '*' || s[w2] == '-') {
            let w3 = skip_ws(s, w2 + 1);
            if w3 > w2 + 1 {
                Some(
                    (
                        if s[w2] == '*' {
                            ElementType::ULTAG
                        } else {
                            ElementType::OLTAG
                        },
                        (w2 - 2) as u32,
                        s.subrange(w3, s.len() as int),
                    ),
                )
            } else {
                None
            }
        } else {
            None
        }
    } else {
        None
    }
}

/// A code block opener: `<code>` alone, or `<code lang>` with a word
/// language tag.
pub open spec fn doku_code_open(s: Seq<char>) -> Option<Seq<char>> {
    if s == seq!['<', 'c', 'o', 'd', 'e', '>'] {
        Some(Seq::empty())
    } else if s.len() >= 5 && s.subrange(0, 5) == seq!['<', 'c', 'o', 'd', 'e'] {
        let w = skip_ws(s, 5);
        let d = skip_word(s, w);
        if w > 5 && d > w && d + 1 == s.len() && s[d] == '>' {
            Some(s.subrange(w, d))
        } else {
            None
        }
    } else {
        None
    }
}

/// Whether the line closes an open code block: it opens with `</code>`.
pub open spec fn doku_code_close(s: Seq<char>) -> bool {
    s.len() >= 7 && s.subrange(0, 7) == seq!['<', '/', 'c', 'o', 'd', 'e', '>']
}

/// A table row: it opens and, before trailing whitespace, closes with a pipe
/// or caret; a caret at the front marks the whole row as a header row.
pub open spec fn doku_table_row(s: Seq<char>) -> Option<(bool, Seq<char>)> {
    let t = ws_end(s, s.len() as int);
    if t >= 2 && (s[0] == '|' || s[0] == '^') && (s[t - 1] == '|' || s[t - 1] == '^') {
        Some((s[0] == '^', s.subrange(1, t - 1)))
    } else {
        None
    }
}

/// The alignment a cell's padding spaces encode: two spaces on both sides
/// center, one and two left, two and one right.
pub open spec fn doku_cell_align(td: Seq<char>) -> ETableAlign {
    let ls: int = if td.len() >= 2 && td[0] == ' ' && td[1] == ' ' {
        2
    } else if td.len() >= 1 && td[0] == ' ' {
        1
    } else {
        0
    };
    let rs: int = if td.len() >= 2 && td[td.len() - 1] == ' ' && td[td.len() - 2] == ' ' {
        2
    } else if td.len() >= 1 && td[td.len() - 1] == ' ' {
        1
    } else {
        0
    };
    if ls >= 2 && rs >= 2 {
        ETableAlign::CENTER
    } else if ls == 1 && rs >= 2 {
        ETableAlign::LEFT
    } else if ls >= 2 && rs == 1 {
        ETableAlign::RIGHT
    } else {
        ETableAlign::DEFAULT
    }
}

/// One accumulated table row: each cell trimmed and inline-decoded, its
/// alignment read from the padding, the whole row's header flag from the
/// leading caret.
pub open spec fn doku_table_add(
    rows: Seq<Seq<AttrSpec>>,
    inner: Seq<char>,
    header: bool,
) -> Seq<Seq<AttrSpec>> {
    let cells = split_on(inner, seq!['|', '^']);
    rows.push(
        Seq::new(
            cells.len(),
            |i: int|
                AttrSpec {
                    text: doku_rewritten(trim_seq(cells[i])),
                    align: doku_cell_align(cells[i]),
                    header: header,
                },
        ),
    )
}

/// The block-decoder state carried across lines.
#[verifier::ext_equal]
pub struct DokuState {
    /// Whether a code block is open.
    pub pre_block: bool,
    /// The open code block's language tag.
    pub pre_code: Seq<char>,
    /// The open code block's accumulated body.
    pub pre_data: Seq<char>,
    /// Whether a table block is open.
    pub table_block: bool,
    /// The open table's accumulated rows.
    pub rows: Seq<Seq<AttrSpec>>,
}

/// The state a decode run starts from.
pub open spec fn doku_init_state() -> DokuState {
    DokuState {
        pre_block: false,
        pre_code: Seq::empty(),
        pre_data: Seq::empty(),
        table_block: false,
        rows: Seq::empty(),
    }
}

/// What one line yields when no block is open: the first matcher that
/// accepts the line, in priority order (rule, heading, list item, code
/// opener, table opener), produces its element; any other line becomes
/// inline-decoded text.
pub open spec fn doku_match_line(st: DokuState, line: Seq<char>) -> (DokuState, Seq<ElemSpec>) {
    if doku_is_hr(line) {
        (st, seq![ElemSpec::Rule])
    } else {
        match doku_heading(line) {
            Some(ht) => (
                st,
                seq![
                    ElemSpec::Heading {
                        etype: ElementType::HTAG,
                        title: doku_rewritten(ht.1),
                        level: ht.0,
                    },
                ],
            ),
            None => match doku_list(line) {
                Some(li) => (
                    st,
                    seq![
                        ElemSpec::ListItem {
                            etype: li.0,
                            text: doku_rewritten(li.2),
                            indent: li.1,
                            nest: li.1 / 2,
                        },
                    ],
                ),
                None => match doku_code_open(line) {
                    Some(code) => (
                        DokuState { pre_block: true, pre_code: code, pre_data: Seq::empty(), ..st },
                        seq![ElemSpec::Empty],
                    ),
                    None => match doku_table_row(line) {
                        Some(tr) => (
                            DokuState {
                                table_block: true,
                                rows: doku_table_add(Seq::empty(), tr.1, tr.0),
                                ..st
                            },
                            seq![ElemSpec::Empty],
                        ),
                        None => (st, seq![ElemSpec::Data { text: doku_rewritten(line) }]),
                    },
                },
            },
        }
    }
}

/// What one line yields: an open code block swallows lines until `</code>`;
/// an open table block accumulates rows until a non-row line, which flushes
/// the table and is then matched as usual.
pub open spec fn doku_line_step(st: DokuState, line: Seq<char>) -> (DokuState, Seq<ElemSpec>) {
    if st.pre_block {
        if doku_code_close(line) {
            (
                DokuState { pre_block: false, ..st },
                seq![
                    ElemSpec::Pre {
                        etype: ElementType::PRETAG,
                        text: st.pre_data,
                        code: st.pre_code,
                    },
                ],
            )
        } else {
            (DokuState { pre_data: st.pre_data + line + seq!['\n'], ..st }, Seq::empty())
        }
    } else if st.table_block {
        match doku_table_row(line) {
            Some(tr) => (
                DokuState { rows: doku_table_add(st.rows, tr.1, tr.0), ..st },
                Seq::empty(),
            ),
            None => {
                let flushed = ElemSpec::Table { etype: ElementType::TABLE, rows: st.rows };
                let m = doku_match_line(DokuState { table_block: false, ..st }, line);
                (m.0, seq![flushed] + m.1)
            },
        }
    } else {
        doku_match_line(st, line)
    }
}

/// The elements the lines from index `i` on contribute, starting from state
/// `st`; a code or table block still open at the end of input is flushed.
pub open spec fn doku_load_from(lines: Seq<Seq<char>>, st: DokuState, i: int) -> Seq<ElemSpec>
    decreases lines.len() - i
    when 0 <= i <= lines.len()
{
    if i == lines.len() {
        if st.pre_block {
            seq![ElemSpec::Pre { etype: ElementType::PRETAG, text: st.pre_data, code: st.pre_code }]
        } else if st.table_block {
            seq![ElemSpec::Table { etype: ElementType::TABLE, rows: st.rows }]
        } else {
            Seq::empty()
        }
    } else {
        let r = doku_line_step(st, lines[i]);
        r.1 + doku_load_from(lines, r.0, i + 1)
    }
}

/// The document this dialect's decoder builds from the given lines.
pub open spec fn doku_elems(lines: Seq<Seq<char>>) -> Seq<ElemSpec> {
    doku_load_from(lines, doku_init_state(), 0)
}

/// A run of `n` consecutive slashes as this dialect emits it: two or more are
/// fenced in `<nowiki>` so they do not read as emphasis markup.
pub open spec fn slash_out(n: nat) -> Seq<char> {
    if n >= 2 {
        seq!['<', 'n', 'o', 'w', 'i', 'k', 'i', '>'] + repeat_char('/', n) + seq![
            '<',
            '/',
            'n',
            'o',
            'w',
            'i',
            'k',
            'i',
            '>',
        ]
    } else {
        repeat_char('/', n)
    }
}

/// Native markup this dialect emits for one tag (links need no lookahead
/// here, since this dialect's native link order is target-then-label).
pub open spec fn doku_tag_out(c0: char, c1: char) -> Seq<char> {
    if c0 == 'B' || c0 == 'b' {
        if c1 == '1' {
            seq!['/', '/']
        } else if c1 == '2' {
            seq!['*', '*']
        } else {
            seq!['/', '/', '*', '*']
        }
    } else if c0 == 'D' {
        seq!['<', 'd', 'e', 'l', '>']
    } else if c0 == 'd' {
        seq!['<', '/', 'd', 'e', 'l', '>']
    } else if c0 == 'L' {
        if c1 == '0' {
            seq!['[', '[']
        } else if c1 == '1' {
            seq!['|']
        } else {
            seq![']', ']']
        }
    } else {
        Seq::empty()
    }
}

/// The dialect-native text for the tagged line `s` from index `i` on, with
/// the scan state carried across characters: `slash` pending slashes not yet
/// flushed, `colon` whether the previous character was a colon (which lets a
/// URL's `//` through unfenced), `bslash` a pending backslash (dropped before
/// `_`, emitted before anything else).
pub open spec fn doku_enc_from(s: Seq<char>, i: int, slash: nat, colon: bool, bslash: bool) -> Seq<
    char,
>
    decreases s.len() - i
    when 0 <= i <= s.len()
{
    if i >= s.len() {
        slash_out(slash) + (if bslash {
            seq!['\\']
        } else {
            Seq::empty()
        })
    } else {
        let c = s[i];
        if c == '/' && !colon {
            doku_enc_from(s, i + 1, slash + 1, colon, bslash)
        } else {
            let fl = slash_out(slash);
            let bs = if bslash && c != '_' {
                seq!['\\']
            } else {
                Seq::empty()
            };
            if c == MARKER {
                if i + 3 > s.len() {
                    fl + bs + s.subrange(i, s.len() as int)
                } else {
                    fl + bs + doku_tag_out(s[i + 1], s[i + 2]) + doku_enc_from(
                        s,
                        i + 3,
                        0,
                        false,
                        false,
                    )
                }
            } else if c == '\\' {
                fl + bs + doku_enc_from(s, i + 1, 0, false, true)
            } else {
                fl + bs + seq![c] + doku_enc_from(s, i + 1, 0, c == ':', false)
            }
        }
    }
}

/// Appends a run of `n` slashes, `<nowiki>`-fenced when two or more.
fn flush_slashes(out: &mut Vec<char>, n: usize)
    ensures
        final(out)@ == old(out)@ + slash_out(n as nat),
{
    if n >= 2 {
        out.push('<');
        out.push('n');
        out.push('o');
        out.push('w');
        out.push('i');
        out.push('k');
        out.push('i');
        out.push('>');
        push_repeat(out, '/', n);
        out.push('<');
        out.push('/');
        out.push('n');
        out.push('o');
        out.push('w');
        out.push('i');
        out.push('k');
        out.push('i');
        out.push('>');
        assert(out@ =~= old(out)@ + slash_out(n as nat));
    } else {
        push_repeat(out, '/', n);
        assert(out@ =~= old(out)@ + slash_out(n as nat));
    }
}

/// Appends the native markup for one tag.
fn push_doku_tag(out: &mut Vec<char>, c0: char, c1: char)
    ensures
        final(out)@ == old(out)@ + doku_tag_out(c0, c1),
{
    if c0 == 'B' || c0 == 'b' {
        if c1 == '1' {
            out.push('/');
            out.push('/');
        } else if c1 == '2' {
            out.push('*');
            out.push('*');
        } else {
            out.push('/');
            out.push('/');
            out.push('*');
            out.push('*');
        }
    } else if c0 == 'D' {
        out.push('<');
        out.push('d');
        out.push('e');
        out.push('l');
        out.push('>');
    } else if c0 == 'd' {
        out.push('<');
        out.push('/');
        out.push('d');
        out.push('e');
        out.push('l');
        out.push('>');
    } else if c0 == 'L' {
        if c1 == '0' {
            out.push('[');
            out.push('[');
        } else if c1 == '1' {
            out.push('|');
        } else {
            out.push(']');
            out.push(']');
        }
    }
    assert(out@ =~= old(out)@ + doku_tag_out(c0, c1));
}

/// Appends the dialect-native text for the tagged line `s` to `out`.
pub(crate) fn doku_enc_into(s: &Vec<char>, out: &mut Vec<char>)
    ensures
        final(out)@ == old(out)@ + doku_enc_from(s@, 0, 0, false, false),
{
    let mut i: usize = 0;
    let mut slash: usize = 0;
    let mut colon: bool = false;
    let mut bslash: bool = false;
    while i < s.len()
        invariant
            0 <= i <= s@.len(),
            slash <= i,
            old(out)@ + doku_enc_from(s@, 0, 0, false, false) == out@ + doku_enc_from(
                s@,
                i as int,
                slash as nat,
                colon,
                bslash,
            ),
        decreases s@.len() - i,
    {
        let c = s[i];
        if c == '/' && !colon {
            slash = slash + 1;
            i = i + 1;
        } else {
            flush_slashes(out, slash);
            slash = 0;
            if bslash && c != '_' {
                out.push('\\');
            }
            bslash = false;
            if c == MARKER {
                if s.len() - i < 3 {
                    push_range(out, s, i, s.len());
                    i = s.len();
                } else {
                    let c0 = s[i + 1];
                    let c1 = s[i + 2];
                    push_doku_tag(out, c0, c1);
                    i = i + 3;
                }
                colon = false;
            } else if c == '\\' {
                bslash = true;
                colon = false;
                i = i + 1;
            } else {
                out.push(c);
                colon = c == ':';
                i = i + 1;
            }
        }
        assert(old(out)@ + doku_enc_from(s@, 0, 0, false, false) =~= out@ + doku_enc_from(
            s@,
            i as int,
            slash as nat,
            colon,
            bslash,
        ));
    }
    flush_slashes(out, slash);
    if bslash {
        out.push('\\');
    }
    assert(out@ =~= old(out)@ + doku_enc_from(s@, 0, 0, false, false));
}

/// Renders one inline-tagged line as this dialect's native text.
pub fn encode_to_doku(line: &str) -> (r: String)
    ensures
        r@ == doku_enc_from(line@, 0, 0, false, false),
{
    let s = str_to_chars(line);
    let mut out: Vec<char> = Vec::new();
    doku_enc_into(&s, &mut out);
    chars_to_string(&out)
}

/// Exec check of [`doku_is_hr`].
fn doku_is_hr_exec(line: &Vec<char>) -> (b: bool)
    ensures
        b == doku_is_hr(line@),
{
    if line.len() >= 4 && line[0] == '-' && line[1] == '-' && line[2] == '-' && line[3] == '-' {
        assert(line@.subrange(0, 4) =~= seq!['-', '-', '-', '-']);
        true
    } else {
        assert(line@.len() >= 4 ==> line@.subrange(0, 4) != seq!['-', '-', '-', '-']) by {
            if line@.len() >= 4 && line@.subrange(0, 4) == seq!['-', '-', '-', '-'] {
                assert(line@.subrange(0, 4)[0] == '-');
                assert(line@.subrange(0, 4)[1] == '-');
                assert(line@.subrange(0, 4)[2] == '-');
                assert(line@.subrange(0, 4)[3] == '-');
            }
        }
        false
    }
}

/// Exec match of [`doku_heading`].
fn try_doku_heading(line: &Vec<char>) -> (r: Option<(u32, Vec<char>)>)
    ensures
        match r {
            Some(p) => doku_heading(line@) == Some((p.0, p.1@)),
            None => doku_heading(line@) is None,
        },
{
    let h = skip_run_exec(line, '=', 0);
    let w = skip_ws_exec(line, h);
    let q = run_back_exec(line, '=', line.len());
    let wsq = ws_end_exec(line, q);
    if 1 <= h && w > h && q < line.len() && wsq < q && q >= h + 2 {
        let t1: usize = if w <= q - 1 {
            w
        } else {
            q - 1
        };
        let t2: usize = if wsq >= t1 {
            wsq
        } else {
            t1
        };
        let level: u32 = if h < 7 {
            (7 - h) as u32
        } else {
            1
        };
        let mut t: Vec<char> = Vec::new();
        push_range(&mut t, line, t1, t2);
        assert(t@ =~= line@.subrange(t1 as int, t2 as int));
        Some((level, t))
    } else {
        None
    }
}

/// Exec match of [`doku_list`].
fn try_doku_list(line: &Vec<char>) -> (r: Option<(ElementType, u32, Vec<char>)>)
    ensures
        match r {
            Some(p) => doku_list(line@) == Some((p.0, p.1, p.2@)),
            None => doku_list(line@) is None,
        },
{
    if line.len() >= 2 && line[0] == ' ' && line[1] == ' ' {
        let w2 = skip_ws_exec(line, 2);
        if w2 < line.len() && w2 - 2 <= u32::MAX as usize && (line[w2] == '*' || line[w2] == '-') {
            let w3 = skip_ws_exec(line, w2 + 1);
            if w3 > w2 + 1 {
                let kind = if line[w2] == '*' {
                    ElementType::ULTAG
                } else {
                    ElementType::OLTAG
                };
                let mut t: Vec<char> = Vec::new();
                push_range(&mut t, line, w3, line.len());
                assert(t@ =~= line@.subrange(w3 as int, line@.len() as int));
                return Some((kind, (w2 - 2) as u32, t));
            }
            return None;
        }
        return None;
    }
    None
}

/// Exec match of [`doku_code_open`].
fn try_doku_code_open(line: &Vec<char>) -> (r: Option<Vec<char>>)
    ensures
        match r {
            Some(code) => doku_code_open(line@) == Some(code@),
            None => doku_code_open(line@) is None,
        },
{
    let plain: Vec<char> = vec!['<', 'c', 'o', 'd', 'e', '>'];
    assert(plain@ =~= seq!['<', 'c', 'o', 'd', 'e', '>']);
    if line.len() == 6 && range_eq(line, 0, &plain) {
        assert(line@ =~= seq!['<', 'c', 'o', 'd', 'e', '>']);
        return Some(Vec::new());
    }
    assert(line@ != seq!['<', 'c', 'o', 'd', 'e', '>']) by {
        if line@ == seq!['<', 'c', 'o', 'd', 'e', '>'] {
            assert(line@.len() == 6);
            assert(line@.subrange(0, 6) =~= line@);
        }
    }
    let open5: Vec<char> = vec!['<', 'c', 'o', 'd', 'e'];
    assert(open5@ =~= seq!['<', 'c', 'o', 'd', 'e']);
    if line.len() >= 5 && range_eq(line, 0, &open5) {
        let w = skip_ws_exec(line, 5);
        let d = skip_word_exec(line, w);
        if w > 5 && d > w && d < line.len() && line.len() - d == 1 && line[d] == '>' {
            let mut code: Vec<char> = Vec::new();
            push_range(&mut code, line, w, d);
            assert(code@ =~= line@.subrange(w as int, d as int));
            return Some(code);
        }
        return None;
    }
    None
}

/// Exec check of [`doku_code_close`].
fn doku_code_close_exec(line: &Vec<char>) -> (b: bool)
    ensures
        b == doku_code_close(line@),
{
    let close: Vec<char> = vec!['<', '/', 'c', 'o', 'd', 'e', '>'];
    assert(close@ =~= seq!['<', '/', 'c', 'o', 'd', 'e', '>']);
    line.len() >= 7 && range_eq(line, 0, &close)
}

/// Exec match of [`doku_table_row`]: on success, the header flag and the
/// index just past the closing delimiter.
fn try_doku_table_row(line: &Vec<char>) -> (r: Option<(bool, usize)>)
    ensures
        match r {
            Some(p) => 2 <= p.1 <= line@.len() && doku_table_row(line@) == Some(
                (p.0, line@.subrange(1, p.1 - 1)),
            ),
            None => doku_table_row(line@) is None,
        },
{
    let t = ws_end_exec(line, line.len());
    if t >= 2 && (line[0] == '|' || line[0] == '^') && (line[t - 1] == '|' || line[t - 1] == '^') {
        Some((line[0] == '^', t))
    } else {
        None
    }
}

/// Exec computation of [`doku_cell_align`].
fn doku_cell_align_exec(td: &Vec<char>) -> (a: ETableAlign)
    ensures
        a == doku_cell_align(td@),
{
    let n = td.len();
    let ls: usize = if n >= 2 && td[0] == ' ' && td[1] == ' ' {
        2
    } else if n >= 1 && td[0] == ' ' {
        1
    } else {
        0
    };
    let rs: usize = if n >= 2 && td[n - 1] == ' ' && td[n - 2] == ' ' {
        2
    } else if n >= 1 && td[n - 1] == ' ' {
        1
    } else {
        0
    };
    if ls >= 2 && rs >= 2 {
        ETableAlign::CENTER
    } else if ls == 1 && rs >= 2 {
        ETableAlign::LEFT
    } else if ls >= 2 && rs == 1 {
        ETableAlign::RIGHT
    } else {
        ETableAlign::DEFAULT
    }
}

/// The per-decode state: the open code or table block.
pub struct GenerateorContext {
    /// Whether a code block is open.
    pub pre_block: bool,
    /// The open code block's language tag.
    pub pre_code: Vec<char>,
    /// The open code block's accumulated body.
    pub pre_data: Vec<char>,
    /// Whether a table block is open.
    pub table_block: bool,
    /// The open table's accumulated rows.
    pub table_column: Vec<TableColumn>,
}

impl View for GenerateorContext {
    type V = DokuState;

    open spec fn view(&self) -> DokuState {
        DokuState {
            pre_block: self.pre_block,
            pre_code: self.pre_code@,
            pre_data: self.pre_data@,
            table_block: self.table_block,
            rows: self.table_column@.map_values(|c: TableColumn| c@),
        }
    }
}

impl GenerateorContext {
    /// The state a decode run starts from.
    pub fn new() -> (c: Self)
        ensures
            c@ == doku_init_state(),
    {
        let c = GenerateorContext {
            pre_block: false,
            pre_code: Vec::new(),
            pre_data: Vec::new(),
            table_block: false,
            table_column: Vec::new(),
        };
        assert(c@.rows =~= Seq::<Seq<AttrSpec>>::empty());
        assert(c@ =~= doku_init_state());
        c
    }

    /// Whether a code block is open.
    pub fn is_pre_block(&self) -> (b: bool)
        ensures
            b == self@.pre_block,
    {
        self.pre_block
    }

    /// Whether a table block is open.
    pub fn is_table_block(&self) -> (b: bool)
        ensures
            b == self@.table_block,
    {
        self.table_block
    }

    /// One line while a code block is open: the closing tag emits the block;
    /// any other line is appended verbatim to the body.
    pub fn add_pre_block(&mut self, line: &Vec<char>) -> (r: Option<Element>)
        ensures
            if doku_code_close(line@) {
                (r matches Some(e) && e@ == ElemSpec::Pre {
                    etype: ElementType::PRETAG,
                    text: old(self)@.pre_data,
                    code: old(self)@.pre_code,
                }) && final(self)@ == (DokuState { pre_block: false, ..old(self)@ })
            } else {
                r is None && final(self)@ == (DokuState {
                    pre_data: old(self)@.pre_data + line@ + seq!['\n'],
                    ..old(self)@
                })
            },
    {
        if doku_code_close_exec(line) {
            self.pre_block = false;
            Some(
                Element::Pre(
                    PRETagElement {
                        etype: ElementType::PRETAG,
                        text: chars_to_string(&self.pre_data),
                        code: chars_to_string(&self.pre_code),
                    },
                ),
            )
        } else {
            push_all(&mut self.pre_data, line);
            self.pre_data.push('\n');
            None
        }
    }

    /// One line while a table block is open: a row line extends the
    /// accumulated rows as [`doku_table_add`] says; the first non-row line
    /// freezes them into one table element.
    pub fn add_table_block(&mut self, line: &Vec<char>) -> (r: Option<Element>)
        ensures
            match doku_table_row(line@) {
                Some(tr) => r is None && final(self)@ == (DokuState {
                    rows: doku_table_add(old(self)@.rows, tr.1, tr.0),
                    ..old(self)@
                }),
                None => (r matches Some(e) && e@ == ElemSpec::Table {
                    etype: ElementType::TABLE,
                    rows: old(self)@.rows,
                }) && final(self)@ == (DokuState { table_block: false, ..old(self)@ }),
            },
    {
        let ghost rows0 = self@.rows;
        match try_doku_table_row(line) {
            Some((header, t)) => {
                let ghost inner = line@.subrange(1, t - 1);
                let seps: Vec<char> = vec!['|', '^'];
                assert(seps@ =~= seq!['|', '^']);
                let cells = split_vec(line, 1, t - 1, &seps);
                let ghost cellseq = split_on(inner, seq!['|', '^']);
                assert(cells@.map_values(|v: Vec<char>| v@) == cellseq);
                assert(cells@.len() == cellseq.len());
                let ghost specrow = Seq::new(
                    cellseq.len(),
                    |i: int|
                        AttrSpec {
                            text: doku_rewritten(trim_seq(cellseq[i])),
                            align: doku_cell_align(cellseq[i]),
                            header: header,
                        },
                );
                let mut column = TableColumn::new();
                let mut i: usize = 0;
                while i < cells.len()
                    invariant
                        0 <= i <= cells@.len(),
                        cells@.map_values(|v: Vec<char>| v@) == cellseq,
                        cells@.len() == cellseq.len(),
                        specrow == Seq::new(
                            cellseq.len(),
                            |i: int|
                                AttrSpec {
                                    text: doku_rewritten(trim_seq(cellseq[i])),
                                    align: doku_cell_align(cellseq[i]),
                                    header: header,
                                },
                        ),
                        column@.len() == i,
                        forall|k: int| 0 <= k < i ==> column@[k] == specrow[k],
                    decreases cells@.len() - i,
                {
                    let cell = &cells[i];
                    assert(cell@ == cellseq[i as int]);
                    let align = doku_cell_align_exec(cell);
                    let trimmed = trim_vec(cell, 0, cell.len());
                    assert(cell@.subrange(0, cell@.len() as int) =~= cell@);
                    let decoded = doku_rewrite_chars(trimmed);
                    column.add(TableAttr { text: chars_to_string(&decoded), align, header });
                    i = i + 1;
                }
                assert(column@ =~= specrow);
                let ghost colview = column@;
                self.table_column.push(column);
                proof {
                    assert(self@.rows =~= rows0.push(colview));
                    assert(final(self)@ =~~= (DokuState {
                        rows: doku_table_add(rows0, inner, header),
                        ..old(self)@
                    }));
                }
                None
            },
            None => {
                self.table_block = false;
                let mut data: Vec<TableColumn> = Vec::new();
                let mut rix: usize = 0;
                while rix < self.table_column.len()
                    invariant
                        0 <= rix <= self.table_column@.len(),
                        self.table_column@ == old(self).table_column@,
                        data@.len() == rix,
                        forall|k: int| 0 <= k < rix ==> data@[k]@ == self.table_column@[k]@,
                    decreases self.table_column@.len() - rix,
                {
                    let copy = clone_column(&self.table_column[rix]);
                    data.push(copy);
                    rix = rix + 1;
                }
                let e = Element::Table(TABLEElement { etype: ElementType::TABLE, data });
                proof {
                    let ghost erows = data@.map_values(|c: TableColumn| c@);
                    assert(erows =~= rows0);
                    assert(e@ =~~= (ElemSpec::Table { etype: ElementType::TABLE, rows: rows0 }));
                }
                Some(e)
            },
        }
    }
}

/// Matches one free line against the registered matchers in priority order
/// and yields its element; openers flip the context's block state.
fn doku_match_line_exec(ctx: &mut GenerateorContext, line: &Vec<char>) -> (r: Element)
    ensures
        ({
            let m = doku_match_line(old(ctx)@, line@);
            final(ctx)@ == m.0 && m.1 == seq![r@]
        }),
{
    if doku_is_hr_exec(line) {
        return Element::Rule(HRTagElement {});
    }
    if let Some((level, title)) = try_doku_heading(line) {
        let decoded = doku_rewrite_chars(title);
        return Element::Heading(
            HTagElement {
                etype: ElementType::HTAG,
                title: chars_to_string(&decoded),
                level,
            },
        );
    }
    if let Some((kind, indent, raw)) = try_doku_list(line) {
        let decoded = doku_rewrite_chars(raw);
        return Element::ListItem(
            LITagElement {
                etype: kind,
                text: chars_to_string(&decoded),
                indent,
                nest: indent / 2,
            },
        );
    }
    if let Some(code) = try_doku_code_open(line) {
        ctx.pre_block = true;
        ctx.pre_code = code;
        ctx.pre_data = Vec::new();
        return Element::Empty(NONEElement {});
    }
    if let Some(p) = try_doku_table_row(line) {
        ctx.table_block = true;
        ctx.table_column = Vec::new();
        assert(ctx@.rows =~= Seq::<Seq<AttrSpec>>::empty());
        let r = ctx.add_table_block(line);
        assert(r is None);
        return Element::Empty(NONEElement {});
    }
    let decoded = doku_rewrite_chars(clone_chars(line));
    Element::Data(DataElement { text: chars_to_string(&decoded) })
}

/// Feeds one source line to the decoder state, appending whatever elements
/// it yields.
fn doku_line_step_exec(ctx: &mut GenerateorContext, page: &mut Document, line: &Vec<char>)
    ensures
        ({
            let m = doku_line_step(old(ctx)@, line@);
            final(ctx)@ == m.0 && final(page)@ == old(page)@ + m.1
        }),
{
    if ctx.is_pre_block() {
        match ctx.add_pre_block(line) {
            Some(e) => {
                let ghost ev = e@;
                page.push(e);
                assert(page@ =~= old(page)@ + seq![ev]);
            },
            None => {
                assert(page@ =~= old(page)@ + Seq::<ElemSpec>::empty());
            },
        }
    } else if ctx.is_table_block() {
        match ctx.add_table_block(line) {
            None => {
                assert(page@ =~= old(page)@ + Seq::<ElemSpec>::empty());
            },
            Some(e) => {
                let ghost ev = e@;
                page.push(e);
                let e2 = doku_match_line_exec(ctx, line);
                let ghost ev2 = e2@;
                page.push(e2);
                assert(page@ =~= old(page)@ + (seq![ev] + seq![ev2]));
            },
        }
    } else {
        let e = doku_match_line_exec(ctx, line);
        let ghost ev = e@;
        page.push(e);
        assert(page@ =~= old(page)@ + seq![ev]);
    }
}

/// The block decoder for this dialect: a fixed table of line matchers in
/// priority order.
pub struct Decoder {}

impl Decoder {
    /// A decoder instance.
    pub fn new() -> (d: Self) {
        Decoder {}
    }

    /// Decodes the source lines into a document, as [`doku_elems`] says: a
    /// line-driven state machine over the matchers, with a code or table
    /// block still open at the end flushed.
    pub fn load(&self, lines: &Vec<String>) -> (d: Document)
        ensures
            d@ == doku_elems(lines@.map_values(|l: String| l@)),
    {
        let ghost ls = lines@.map_values(|l: String| l@);
        let mut page = Document::new();
        let mut ctx = GenerateorContext::new();
        assert(page@ + doku_load_from(ls, ctx@, 0) =~= doku_elems(ls));
        let mut i: usize = 0;
        while i < lines.len()
            invariant
                0 <= i <= lines@.len(),
                ls == lines@.map_values(|l: String| l@),
                ls.len() == lines@.len(),
                doku_elems(ls) == page@ + doku_load_from(ls, ctx@, i as int),
            decreases lines@.len() - i,
        {
            let line = str_to_chars(lines[i].as_str());
            assert(line@ == ls[i as int]);
            let ghost st0 = ctx@;
            doku_line_step_exec(&mut ctx, &mut page, &line);
            i = i + 1;
            proof {
                let m = doku_line_step(st0, ls[i - 1]);
                assert(doku_load_from(ls, st0, i - 1) == m.1 + doku_load_from(ls, m.0, i as int));
                assert(page@ + doku_load_from(ls, ctx@, i as int) =~= doku_elems(ls));
            }
        }
        if ctx.is_pre_block() {
            let e = Element::Pre(
                PRETagElement {
                    etype: ElementType::PRETAG,
                    text: chars_to_string(&ctx.pre_data),
                    code: chars_to_string(&ctx.pre_code),
                },
            );
            page.push(e);
            assert(page@ =~= doku_elems(ls));
        } else if ctx.is_table_block() {
            let mut data: Vec<TableColumn> = Vec::new();
            let mut rix: usize = 0;
            while rix < ctx.table_column.len()
                invariant
                    0 <= rix <= ctx.table_column@.len(),
                    data@.len() == rix,
                    forall|k: int| 0 <= k < rix ==> data@[k]@ == ctx.table_column@[k]@,
                decreases ctx.table_column@.len() - rix,
            {
                let copy = clone_column(&ctx.table_column[rix]);
                data.push(copy);
                rix = rix + 1;
            }
            let e = Element::Table(TABLEElement { etype: ElementType::TABLE, data });
            proof {
                let ghost erows = data@.map_values(|c: TableColumn| c@);
                assert(erows =~= ctx@.rows);
                assert(e@ =~~= (ElemSpec::Table { etype: ElementType::TABLE, rows: ctx@.rows }));
            }
            page.push(e);
            assert(page@ =~= doku_elems(ls));
        } else {
            assert(page@ =~= doku_elems(ls));
        }
        page
    }
}

/// The cell padding before the text, by alignment.
pub open spec fn doku_cell_ls(a: ETableAlign) -> Seq<char> {
    match a {
        ETableAlign::CENTER => seq![' ', ' '],
        ETableAlign::LEFT => seq![' '],
        ETableAlign::RIGHT => seq![' ', ' '],
        ETableAlign::DEFAULT => seq![' '],
    }
}

/// The cell padding after the text, by alignment.
pub open spec fn doku_cell_rs(a: ETableAlign) -> Seq<char> {
    match a {
        ETableAlign::CENTER => seq![' ', ' '],
        ETableAlign::LEFT => seq![' ', ' '],
        ETableAlign::RIGHT => seq![' '],
        ETableAlign::DEFAULT => seq![' '],
    }
}

/// One cell as this dialect writes it: the alignment is a whitespace-encoded
/// channel, the count of padding spaces on each side of the text.
pub open spec fn doku_cell_out(a: AttrSpec) -> Seq<char> {
    doku_cell_ls(a.align) + doku_enc_from(a.text, 0, 0, false, false) + doku_cell_rs(a.align)
        + seq![
        if a.header {
            '^'
        } else {
            '|'
        },
    ]
}

/// The cells of one row from index `i` on.
pub open spec fn doku_cells_from(row: Seq<AttrSpec>, i: int) -> Seq<char>
    decreases row.len() - i
    when 0 <= i <= row.len()
{
    if i == row.len() {
        Seq::empty()
    } else {
        doku_cell_out(row[i]) + doku_cells_from(row, i + 1)
    }
}

/// One table row: the opening delimiter comes from the first cell's header
/// flag.
pub open spec fn doku_row_out(row: Seq<AttrSpec>) -> Seq<char> {
    (if row.len() > 0 {
        seq![
            if row[0].header {
                '^'
            } else {
                '|'
            },
        ]
    } else {
        Seq::empty()
    }) + doku_cells_from(row, 0) + seq!['\n']
}

/// The table rows from index `i` on.
pub open spec fn doku_rows_from(rows: Seq<Seq<AttrSpec>>, i: int) -> Seq<char>
    decreases rows.len() - i
    when 0 <= i <= rows.len()
{
    if i == rows.len() {
        Seq::empty()
    } else {
        doku_row_out(rows[i]) + doku_rows_from(rows, i + 1)
    }
}

/// How many heading glyphs this dialect writes for a level: the convention
/// runs opposite to the level, six glyphs for level one.
pub open spec fn doku_heading_count(level: u32) -> nat {
    if level <= 7 {
        (7 - level) as nat
    } else {
        1
    }
}

/// The language tag this dialect writes: a couple of tags pass through a
/// synonym table, any other tag is kept unchanged.
pub open spec fn doku_lang_of(code: Seq<char>) -> Seq<char> {
    if code == seq!['j', 's', 'o', 'n'] || code == seq!['j', 's', 'x'] {
        seq!['j', 'a', 'v', 'a', 's', 'c', 'r', 'i', 'p', 't']
    } else {
        code
    }
}

/// The dialect-native text for one element.  An empty language tag renders a
/// tagless fence.
pub open spec fn doku_single(e: ElemSpec) -> Seq<char> {
    match e {
        ElemSpec::Empty => Seq::empty(),
        ElemSpec::Heading { title, level, .. } => {
            let tag = repeat_char('=', doku_heading_count(level));
            tag + seq![' '] + doku_enc_from(title, 0, 0, false, false) + seq![' '] + tag + seq![
                '\n',
            ]
        },
        ElemSpec::ListItem { etype, text, nest, .. } => repeat_char(' ', 2 * (nest as nat + 1))
            + seq![
            if etype == ElementType::ULTAG {
                '*'
            } else {
                '-'
            },
            ' ',
        ] + doku_enc_from(text, 0, 0, false, false) + seq!['\n'],
        ElemSpec::Pre { text, code, .. } => {
            if code.len() == 0 {
                seq!['<', 'c', 'o', 'd', 'e', '>', '\n'] + text + seq![
                    '<',
                    '/',
                    'c',
                    'o',
                    'd',
                    'e',
                    '>',
                    '\n',
                ]
            } else {
                seq!['<', 'c', 'o', 'd', 'e', ' '] + doku_lang_of(code) + seq!['>', '\n'] + text
                    + seq!['<', '/', 'c', 'o', 'd', 'e', '>', '\n']
            }
        },
        ElemSpec::Table { rows, .. } => doku_rows_from(rows, 0),
        ElemSpec::Rule => seq!['-', '-', '-', '-', '\n'],
        ElemSpec::Data { text } => doku_enc_from(text, 0, 0, false, false) + seq!['\n'],
    }
}

/// The document text: every element's native text, in order.
pub open spec fn doku_out_from(es: Seq<ElemSpec>, i: int) -> Seq<char>
    decreases es.len() - i
    when 0 <= i <= es.len()
{
    if i == es.len() {
        Seq::empty()
    } else {
        doku_single(es[i]) + doku_out_from(es, i + 1)
    }
}

/// Appends one cell's native text.
fn push_doku_cell(out: &mut Vec<char>, a: &TableAttr)
    ensures
        final(out)@ == old(out)@ + doku_cell_out(a@),
{
    if a.align == ETableAlign::CENTER || a.align == ETableAlign::RIGHT {
        out.push(' ');
        out.push(' ');
    } else {
        out.push(' ');
    }
    let t = str_to_chars(a.text.as_str());
    doku_enc_into(&t, out);
    if a.align == ETableAlign::CENTER || a.align == ETableAlign::LEFT {
        out.push(' ');
        out.push(' ');
    } else {
        out.push(' ');
    }
    if a.header {
        out.push('^');
    } else {
        out.push('|');
    }
    assert(out@ =~= old(out)@ + doku_cell_out(a@));
}

/// Appends one table's native text.
fn push_doku_table(out: &mut Vec<char>, rows: &Vec<TableColumn>)
    ensures
        final(out)@ == old(out)@ + doku_rows_from(rows@.map_values(|c: TableColumn| c@), 0),
{
    let ghost rs = rows@.map_values(|c: TableColumn| c@);
    let mut i: usize = 0;
    while i < rows.len()
        invariant
            0 <= i <= rows@.len(),
            rs == rows@.map_values(|c: TableColumn| c@),
            rs.len() == rows@.len(),
            old(out)@ + doku_rows_from(rs, 0) == out@ + doku_rows_from(rs, i as int),
        decreases rows@.len() - i,
    {
        let row = &rows[i];
        let ghost rowv = row@;
        let ghost hbase = out@;
        assert(rowv == rs[i as int]);
        if row.data.len() > 0 {
            if row.data[0].header {
                out.push('^');
            } else {
                out.push('|');
            }
            assert(rowv[0] == row.data@[0]@);
        }
        let ghost cbase = out@;
        let mut j: usize = 0;
        while j < row.data.len()
            invariant
                0 <= j <= row.data@.len(),
                rowv == row@,
                rowv.len() == row.data@.len(),
                cbase + doku_cells_from(rowv, 0) == out@ + doku_cells_from(rowv, j as int),
            decreases row.data@.len() - j,
        {
            push_doku_cell(out, &row.data[j]);
            assert(rowv[j as int] == row.data@[j as int]@);
            j = j + 1;
            assert(cbase + doku_cells_from(rowv, 0) =~= out@ + doku_cells_from(rowv, j as int));
        }
        out.push('\n');
        assert(out@ =~= hbase + doku_row_out(rowv));
        assert(doku_rows_from(rs, i as int) == doku_row_out(rs[i as int]) + doku_rows_from(
            rs,
            i + 1,
        ));
        i = i + 1;
        assert(old(out)@ + doku_rows_from(rs, 0) =~= out@ + doku_rows_from(rs, i as int));
    }
}

/// Appends the language tag, through the synonym table.
fn push_doku_lang(out: &mut Vec<char>, code: &Vec<char>)
    ensures
        final(out)@ == old(out)@ + doku_lang_of(code@),
{
    let json: Vec<char> = vec!['j', 's', 'o', 'n'];
    let jsx: Vec<char> = vec!['j', 's', 'x'];
    assert(json@ =~= seq!['j', 's', 'o', 'n']);
    assert(jsx@ =~= seq!['j', 's', 'x']);
    let is_json = code.len() == 4 && range_eq(code, 0, &json);
    let is_jsx = code.len() == 3 && range_eq(code, 0, &jsx);
    proof {
        if code@.len() == 4 {
            assert(code@.subrange(0, 4) =~= code@);
        }
        if code@.len() == 3 {
            assert(code@.subrange(0, 3) =~= code@);
        }
        if code@ == seq!['j', 's', 'o', 'n'] {
            assert(code@.len() == 4);
        }
        if code@ == seq!['j', 's', 'x'] {
            assert(code@.len() == 3);
        }
    }
    if is_json || is_jsx {
        out.push('j');
        out.push('a');
        out.push('v');
        out.push('a');
        out.push('s');
        out.push('c');
        out.push('r');
        out.push('i');
        out.push('p');
        out.push('t');
    } else {
        push_all(out, code);
    }
    assert(out@ =~= old(out)@ + doku_lang_of(code@));
}

/// The block encoder for this dialect.
pub struct Encoder {}

impl Encoder {
    /// An encoder instance.
    pub fn new() -> (e: Self) {
        Encoder {}
    }
}

impl TextEncoder for Encoder {
    open spec fn single_spec(&self, e: ElemSpec) -> Seq<char> {
        doku_single(e)
    }

    open spec fn doc_spec(&self, es: Seq<ElemSpec>, i: int) -> Seq<char> {
        doku_out_from(es, i)
    }

    fn encode_single(&self, element: &Element) -> (r: String) {
        let mut out: Vec<char> = Vec::new();
        match element {
            Element::Empty(_) => {},
            Element::Heading(h) => {
                let count: usize = if h.level <= 7 {
                    (7 - h.level) as usize
                } else {
                    1
                };
                push_repeat(&mut out, '=', count);
                out.push(' ');
                let t = str_to_chars(h.title.as_str());
                doku_enc_into(&t, &mut out);
                out.push(' ');
                push_repeat(&mut out, '=', count);
                out.push('\n');
            },
            Element::ListItem(l) => {
                let n = l.nest as usize;
                push_repeat(&mut out, ' ', n);
                push_repeat(&mut out, ' ', n);
                out.push(' ');
                out.push(' ');
                assert(repeat_char(' ', n as nat) + repeat_char(' ', n as nat) + seq![' ', ' ']
                    =~= repeat_char(' ', 2 * (n as nat + 1)));
                if l.etype == ElementType::ULTAG {
                    out.push('*');
                } else {
                    out.push('-');
                }
                out.push(' ');
                let t = str_to_chars(l.text.as_str());
                doku_enc_into(&t, &mut out);
                out.push('\n');
            },
            Element::Pre(p) => {
                out.push('<');
                out.push('c');
                out.push('o');
                out.push('d');
                out.push('e');
                let code = str_to_chars(p.code.as_str());
                if code.len() > 0 {
                    out.push(' ');
                    push_doku_lang(&mut out, &code);
                }
                out.push('>');
                out.push('\n');
                let text = str_to_chars(p.text.as_str());
                push_all(&mut out, &text);
                out.push('<');
                out.push('/');
                out.push('c');
                out.push('o');
                out.push('d');
                out.push('e');
                out.push('>');
                out.push('\n');
            },
            Element::Table(t) => {
                push_doku_table(&mut out, &t.data);
            },
            Element::Rule(_) => {
                out.push('-');
                out.push('-');
                out.push('-');
                out.push('-');
                out.push('\n');
            },
            Element::Data(d) => {
                let t = str_to_chars(d.text.as_str());
                doku_enc_into(&t, &mut out);
                out.push('\n');
            },
        }
        assert(out@ =~= doku_single(element@));
        chars_to_string(&out)
    }

    fn encode(&self, document: &Document) -> (r: String) {
        let ghost es = document@;
        let mut out: Vec<char> = Vec::new();
        let mut i: usize = 0;
        while i < document.element_list.len()
            invariant
                0 <= i <= document.element_list@.len(),
                es == document@,
                es.len() == document.element_list@.len(),
                doku_out_from(es, 0) == out@ + doku_out_from(es, i as int),
            decreases document.element_list@.len() - i,
        {
            let piece = self.encode_single(&document.element_list[i]);
            let chars = str_to_chars(piece.as_str());
            push_all(&mut out, &chars);
            assert(es[i as int] == document.element_list@[i as int]@);
            i = i + 1;
            assert(doku_out_from(es, 0) =~= out@ + doku_out_from(es, i as int));
        }
        chars_to_string(&out)
    }
}

} // verus!
