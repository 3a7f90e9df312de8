//! The PukiWiki dialect: its inline codec and, below, its block decoder and
//! encoder.

use vstd::prelude::*;

use crate::chars::chars_to_string;
use crate::chars::push_all;
use crate::chars::push_repeat;
use crate::chars::repeat_char;
use crate::chars::clone_chars;
use crate::chars::is_ws;
use crate::chars::range_eq;
use crate::chars::skip_run;
use crate::chars::skip_run_exec;
use crate::chars::split_on;
use crate::chars::split_vec;
use crate::chars::trim_seq;
use crate::chars::trim_vec;
use crate::chars::ws_end;
use crate::chars::ws_end_exec;
use crate::document::Document;
use crate::document::TextEncoder;
use crate::element::clone_column;
use crate::element::AttrSpec;
use crate::element::DataElement;
use crate::element::ETableAlign;
use crate::element::ElemSpec;
use crate::element::Element;
use crate::element::ElementType;
use crate::element::HRTagElement;
use crate::element::HTagElement;
use crate::element::LITagElement;
use crate::element::NONEElement;
use crate::element::PRETagElement;
use crate::element::TABLEElement;
use crate::element::TableAttr;
use crate::element::TableColumn;
use crate::chars::count_marks;
use crate::chars::count_marks_exec;
use crate::chars::find_first;
use crate::chars::find_last;
use crate::chars::find_last_pair;
use crate::chars::first_idx;
use crate::chars::last_idx;
use crate::chars::last_pair;
use crate::chars::lemma_first_idx_bounds;
use crate::chars::lemma_last_idx_bounds;
use crate::chars::lemma_last_pair_bounds;
use crate::chars::push_range;
use crate::chars::str_to_chars;
use crate::tags::em_find;
use crate::tags::em_step;
use crate::tags::link_parts;
use crate::tags::lemma_link_parts_next;
use crate::tags::read_link;
use crate::tags::try_em;
use crate::tags::Boundary;
use crate::tags::MARKER;
use crate::w_doku::doku_l1_find;
use crate::w_doku::doku_l1_step;
use crate::w_doku::try_doku_l1;

verus! {

/// Where the strikethrough form `%%text%%` matches `s` with `%%` at `i`: the
/// closing `%%` is the last one inside the quote-free stretch after the
/// opening, as the greedy pattern `(.*)%%([^']+)%%(.*)` selects it.
pub open spec fn puki_strike_ds(s: Seq<char>, i: int) -> Option<int> {
    let st = i + 2;
    let q = match first_idx(s, '\'', st) {
        Some(q) => q,
        None => s.len() as int,
    };
    let hi = if q - 1 <= s.len() - 2 {
        q - 1
    } else {
        s.len() - 2
    };
    last_pair(s, '%', '%', hi)
}

/// Whether the strikethrough form matches with its opening at `i`.
pub open spec fn puki_strike_ok(s: Seq<char>, i: int) -> bool {
    &&& 0 <= i
    &&& i + 2 <= s.len()
    &&& s[i] == '%' && s[i + 1] == '%'
    &&& match puki_strike_ds(s, i) {
        Some(ds) => ds >= i + 3,
        None => false,
    }
}

/// The greatest `i <= hi` at which the strikethrough form matches.
pub open spec fn puki_strike_find_from(s: Seq<char>, hi: int) -> Option<int>
    decreases hi + 1
    when -1 <= hi
{
    if hi < 0 {
        None
    } else if puki_strike_ok(s, hi) {
        Some(hi)
    } else {
        puki_strike_find_from(s, hi - 1)
    }
}

/// The match of the strikethrough form in `s`, if any.
pub open spec fn puki_strike_find(s: Seq<char>) -> Option<int> {
    puki_strike_find_from(s, s.len() as int)
}

/// The rewriting for the strikethrough match.
pub open spec fn puki_strike_step(s: Seq<char>) -> Seq<char> {
    match puki_strike_find(s) {
        Some(i) => match puki_strike_ds(s, i) {
            Some(ds) => s.subrange(0, i) + seq![MARKER, 'D', '0'] + s.subrange(i + 2, ds) + seq![
                MARKER,
                'd',
                '0',
            ] + s.subrange(ds + 2, s.len() as int),
            None => s,
        },
        None => s,
    }
}

/// Applies the strikethrough rewrite once, if it matches.
fn try_puki_strike(s: &Vec<char>) -> (r: Option<Vec<char>>)
    ensures
        match r {
            Some(t) => puki_strike_find(s@) is Some && t@ == puki_strike_step(s@),
            None => puki_strike_find(s@) is None,
        },
{
    let n = s.len();
    let mut i: usize = n;
    loop
        invariant
            0 <= i <= n,
            n == s@.len(),
            puki_strike_find(s@) == puki_strike_find_from(s@, i as int),
        decreases i + 1,
    {
        let ok: bool = if n - i >= 2 && s[i] == '%' && s[i + 1] == '%' {
            proof {
                lemma_first_idx_bounds(s@, '\'', i + 2);
            }
            let q: usize = match find_first(s, '\'', i + 2) {
                Some(q) => q,
                None => n,
            };
            let hi: usize = if q <= n - 1 {
                q - 1
            } else {
                n - 2
            };
            proof {
                lemma_last_pair_bounds(s@, '%', '%', hi as int);
            }
            match find_last_pair(s, '%', '%', hi + 1) {
                Some(ds) => ds > i && ds - i >= 3,
                None => false,
            }
        } else {
            false
        };
        assert(ok == puki_strike_ok(s@, i as int));
        if ok {
            proof {
                lemma_first_idx_bounds(s@, '\'', i + 2);
            }
            let q: usize = match find_first(s, '\'', i + 2) {
                Some(q) => q,
                None => n,
            };
            let hi: usize = if q <= n - 1 {
                q - 1
            } else {
                n - 2
            };
            proof {
                lemma_last_pair_bounds(s@, '%', '%', hi as int);
            }
            let ds = match find_last_pair(s, '%', '%', hi + 1) {
                Some(ds) => ds,
                None => {
                    proof {
                        assert(false);
                    }
                    0
                },
            };
            let mut out: Vec<char> = Vec::new();
            push_range(&mut out, s, 0, i);
            out.push(MARKER);
            out.push('D');
            out.push('0');
            push_range(&mut out, s, i + 2, ds);
            out.push(MARKER);
            out.push('d');
            out.push('0');
            push_range(&mut out, s, ds + 2, n);
            assert(out@ =~= puki_strike_step(s@));
            return Some(out);
        }
        if i == 0 {
            assert(puki_strike_find_from(s@, 0) == puki_strike_find_from(s@, -1));
            return None;
        }
        i = i - 1;
    }
}

/// Where the closing `>` separator of the label-and-target link form
/// `[[label>target]]` sits for an opening `[[` at `i`, given the last `]]`
/// at `jj`: the last `>` inside the pipe-free stretch after the opening and
/// before the closing, as the greedy pattern
/// `(.*)\[\[([^|]+)(>)(.*)\]\](.*)` selects it.
pub open spec fn puki_l2_g(s: Seq<char>, jj: int, i: int) -> Option<int> {
    let lim = match first_idx(s, '|', i + 2) {
        Some(l) => l,
        None => s.len() as int,
    };
    let hi = if lim <= jj {
        lim - 1
    } else {
        jj - 1
    };
    last_idx(s, '>', hi)
}

/// Whether the label-and-target link form matches with `[[` at `i`.
pub open spec fn puki_l2_ok(s: Seq<char>, jj: int, i: int) -> bool {
    &&& 0 <= i
    &&& i + 2 <= s.len()
    &&& s[i] == '[' && s[i + 1] == '['
    &&& match puki_l2_g(s, jj, i) {
        Some(g) => g >= i + 3,
        None => false,
    }
}

/// The greatest `i <= hi` at which the label-and-target form matches.
pub open spec fn puki_l2_find_from(s: Seq<char>, jj: int, hi: int) -> Option<int>
    decreases hi + 1
    when -1 <= hi
{
    if hi < 0 {
        None
    } else if puki_l2_ok(s, jj, hi) {
        Some(hi)
    } else {
        puki_l2_find_from(s, jj, hi - 1)
    }
}

/// Where the label-and-target link form matches `s`: the positions of `[[`,
/// of the `>` separator, and of the closing `]]`.
pub open spec fn puki_l2_find(s: Seq<char>) -> Option<(int, int, int)> {
    if s.len() < 2 {
        None
    } else {
        match last_pair(s, ']', ']', s.len() - 2) {
            None => None,
            Some(jj) => match puki_l2_find_from(s, jj, s.len() as int) {
                None => None,
                Some(i) => match puki_l2_g(s, jj, i) {
                    Some(g) => Some((i, g, jj)),
                    None => None,
                },
            },
        }
    }
}

/// The rewriting for the label-and-target link match: canonical order is
/// target, separator, label.
pub open spec fn puki_l2_step(s: Seq<char>) -> Seq<char> {
    match puki_l2_find(s) {
        Some((i, g, jj)) => s.subrange(0, i) + seq![MARKER, 'L', '0'] + s.subrange(g + 1, jj)
            + seq![MARKER, 'L', '1'] + s.subrange(i + 2, g) + seq![MARKER, 'L', '2'] + s.subrange(
            jj + 2,
            s.len() as int,
        ),
        None => s,
    }
}

/// Applies the label-and-target link rewrite once, if it matches.
#[verifier::rlimit(30)]
fn try_puki_l2(s: &Vec<char>) -> (r: Option<Vec<char>>)
    ensures
        match r {
            Some(t) => puki_l2_find(s@) is Some && t@ == puki_l2_step(s@),
            None => puki_l2_find(s@) is None,
        },
{
    let n = s.len();
    if n < 2 {
        return None;
    }
    proof {
        lemma_last_pair_bounds(s@, ']', ']', n - 2);
    }
    let jj = match find_last_pair(s, ']', ']', n - 1) {
        None => {
            return None;
        },
        Some(jj) => jj,
    };
    let mut i: usize = n;
    loop
        invariant
            0 <= i <= n,
            n == s@.len(),
            n >= 2,
            last_pair(s@, ']', ']', n - 2) == Some(jj as int),
            0 <= jj <= n - 2,
            puki_l2_find_from(s@, jj as int, n as int) == puki_l2_find_from(
                s@,
                jj as int,
                i as int,
            ),
        decreases i + 1,
    {
        let ok: bool = if n - i >= 2 && s[i] == '[' && s[i + 1] == '[' {
            proof {
                lemma_first_idx_bounds(s@, '|', i + 2);
            }
            let lim: usize = match find_first(s, '|', i + 2) {
                Some(l) => l,
                None => n,
            };
            let hi: usize = if lim <= jj {
                lim
            } else {
                jj
            };
            if hi == 0 {
                proof {
                    assert(puki_l2_g(s@, jj as int, i as int) == last_idx(s@, '>', -1));
                }
                false
            } else {
                proof {
                    lemma_last_idx_bounds(s@, '>', hi - 1);
                }
                match find_last(s, '>', hi) {
                    Some(g) => g > i && g - i >= 3,
                    None => false,
                }
            }
        } else {
            false
        };
        assert(ok == puki_l2_ok(s@, jj as int, i as int));
        if ok {
            let lim: usize = match find_first(s, '|', i + 2) {
                Some(l) => l,
                None => n,
            };
            let hi: usize = if lim <= jj {
                lim
            } else {
                jj
            };
            proof {
                lemma_last_idx_bounds(s@, '>', hi - 1);
            }
            let g = match find_last(s, '>', hi) {
                Some(g) => g,
                None => {
                    proof {
                        assert(false);
                    }
                    0
                },
            };
            let mut out: Vec<char> = Vec::new();
            push_range(&mut out, s, 0, i);
            out.push(MARKER);
            out.push('L');
            out.push('0');
            push_range(&mut out, s, g + 1, jj);
            out.push(MARKER);
            out.push('L');
            out.push('1');
            push_range(&mut out, s, i + 2, g);
            out.push(MARKER);
            out.push('L');
            out.push('2');
            push_range(&mut out, s, jj + 2, n);
            assert(out@ =~= puki_l2_step(s@));
            return Some(out);
        }
        if i == 0 {
            assert(puki_l2_find_from(s@, jj as int, 0) == puki_l2_find_from(s@, jj as int, -1));
            return None;
        }
        i = i - 1;
    }
}

/// One decode rewriting step: the first pattern, in priority order, that
/// matches the line is rewritten to tag form.  The bare `[[target]]` link
/// form is the same as the DokuWiki one.
pub open spec fn puki_step(s: Seq<char>) -> Option<Seq<char>> {
    let fr = Boundary::Free;
    if em_find(s, seq!['\'', '\'', '\''], seq!['\'', '\'', '\''], '\'', fr, fr) is Some {
        Some(
            em_step(
                s,
                seq!['\'', '\'', '\''],
                seq!['\'', '\'', '\''],
                '\'',
                fr,
                fr,
                'B',
                '1',
                'b',
                '1',
            ),
        )
    } else if em_find(s, seq!['\'', '\''], seq!['\'', '\''], '\'', fr, fr) is Some {
        Some(em_step(s, seq!['\'', '\''], seq!['\'', '\''], '\'', fr, fr, 'B', '2', 'b', '2'))
    } else if puki_strike_find(s) is Some {
        Some(puki_strike_step(s))
    } else if puki_l2_find(s) is Some {
        Some(puki_l2_step(s))
    } else if doku_l1_find(s) is Some {
        Some(doku_l1_step(s))
    } else {
        None
    }
}

/// Applies one decode rewriting step, if any pattern matches.
fn puki_step_exec(s: &Vec<char>) -> (r: Option<Vec<char>>)
    ensures
        match r {
            Some(t) => puki_step(s@) == Some(t@),
            None => puki_step(s@) is None,
        },
{
    let fr = Boundary::Free;
    let q3: Vec<char> = vec!['\'', '\'', '\''];
    let q2: Vec<char> = vec!['\'', '\''];
    assert(q3@ =~= seq!['\'', '\'', '\'']);
    assert(q2@ =~= seq!['\'', '\'']);
    if let Some(t) = try_em(s, &q3, &q3, '\'', fr, fr, 'B', '1', 'b', '1') {
        return Some(t);
    }
    if let Some(t) = try_em(s, &q2, &q2, '\'', fr, fr, 'B', '2', 'b', '2') {
        return Some(t);
    }
    if let Some(t) = try_puki_strike(s) {
        return Some(t);
    }
    if let Some(t) = try_puki_l2(s) {
        return Some(t);
    }
    if let Some(t) = try_doku_l1(s) {
        return Some(t);
    }
    None
}

/// The characters whose presence can still feed a decode rewriting step.
pub open spec fn puki_marks() -> Seq<char> {
    seq!['\'', '%', '[', ']', '>', '|']
}

/// Decode rewriting bounded by `fuel` steps.
pub open spec fn puki_rewrite_fuel(s: Seq<char>, fuel: nat) -> Seq<char>
    decreases fuel,
{
    if fuel == 0 {
        s
    } else {
        match puki_step(s) {
            None => s,
            Some(t) => puki_rewrite_fuel(t, (fuel - 1) as nat),
        }
    }
}

/// The line with every native inline pattern rewritten to tag form.
pub open spec fn puki_rewritten(s: Seq<char>) -> Seq<char> {
    puki_rewrite_fuel(s, count_marks(s, puki_marks()))
}

/// Rewrites until no pattern matches, on the character level.
fn puki_rewrite_chars(s: Vec<char>) -> (r: Vec<char>)
    ensures
        r@ == puki_rewritten(s@),
{
    let marks: Vec<char> = vec!['\'', '%', '[', ']', '>', '|'];
    assert(marks@ =~= puki_marks());
    let mut buf = s;
    let mut fuel: usize = count_marks_exec(&buf, &marks);
    while fuel > 0
        invariant
            puki_rewrite_fuel(buf@, fuel as nat) == puki_rewritten(s@),
        decreases fuel,
    {
        match puki_step_exec(&buf) {
            None => {
                assert(puki_rewrite_fuel(buf@, fuel as nat) == buf@);
                fuel = 0;
            },
            Some(t) => {
                buf = t;
                fuel = fuel - 1;
            },
        }
    }
    buf
}

/// Rewrites one line's native inline markup to the neutral tag form.
pub fn replace_puki_tags(line: &str) -> (r: String)
    ensures
        r@ == puki_rewritten(line@),
{
    let s = str_to_chars(line);
    let out = puki_rewrite_chars(s);
    chars_to_string(&out)
}

/// Inline-decodes one source line; this dialect needs no unescaping pass
/// beyond the tag rewriting.
pub fn decode_from_puki(line0: &str) -> (r: String)
    ensures
        r@ == puki_rewritten(line0@),
{
    replace_puki_tags(line0)
}

/// Whether the line is a horizontal rule: it opens with four dashes or with
/// `#hr`.
pub open spec fn puki_is_hr(s: Seq<char>) -> bool {
    (s.len() >= 4 && s.subrange(0, 4) == seq!['-', '-', '-', '-']) || (s.len() >= 3 && s.subrange(
        0,
        3,
    ) == seq!['#', 'h', 'r'])
}

/// Whether a trailing bracketed link can start at `p` for a heading whose
/// star run ends at `h`: an opening bracket after whitespace, with content
/// before the closing bracket that ends the line.
pub open spec fn puki_hlink_ok(s: Seq<char>, h: int, p: int) -> bool {
    &&& h + 1 <= p <= s.len() - 3
    &&& s[p] == '['
    &&& is_ws(s[p - 1])
}

/// The greatest `p <= hi` at which a trailing bracketed link can start.
pub open spec fn puki_hlink_from(s: Seq<char>, h: int, hi: int) -> Option<int>
    decreases hi + 1
    when -1 <= hi
{
    if hi < 0 {
        None
    } else if puki_hlink_ok(s, h, hi) {
        Some(hi)
    } else {
        puki_hlink_from(s, h, hi - 1)
    }
}

/// A heading line `** title` (possibly with a trailing bracketed link that
/// is stripped): the run of stars gives the level, the trimmed rest the raw
/// title.
pub open spec fn puki_heading(s: Seq<char>) -> Option<(u32, Seq<char>)> {
    let h = skip_run(s, '*', 0);
    if 1 <= h && h <= u32::MAX {
        if s.len() >= 1 && s[s.len() - 1] == ']' {
            match puki_hlink_from(s, h as int, s.len() as int) {
                Some(p) => Some((h as u32, trim_seq(s.subrange(h, p)))),
                None => Some((h as u32, trim_seq(s.subrange(h, s.len() as int)))),
            }
        } else {
            Some((h as u32, trim_seq(s.subrange(h, s.len() as int))))
        }
    } else {
        None
    }
}

/// A list line: a run of dashes (unordered) or pluses (ordered) gives the
/// depth directly, and the trimmed rest is the raw text.
pub open spec fn puki_list(s: Seq<char>) -> Option<(ElementType, u32, Seq<char>)> {
    let hu = skip_run(s, '-', 0);
    if 1 <= hu && hu <= u32::MAX {
        Some((ElementType::ULTAG, hu as u32, trim_seq(s.subrange(hu, s.len() as int))))
    } else {
        let ho = skip_run(s, '+', 0);
        if 1 <= ho && ho <= u32::MAX {
            Some((ElementType::OLTAG, ho as u32, trim_seq(s.subrange(ho, s.len() as int))))
        } else {
            None
        }
    }
}

/// A code-block line: one leading space; the rest is the raw body line.
pub open spec fn puki_pre_line(s: Seq<char>) -> Option<Seq<char>> {
    if s.len() >= 1 && s[0] == ' ' {
        Some(s.subrange(1, s.len() as int))
    } else {
        None
    }
}

/// A table row `| ... |` or `| ... |h`, with only whitespace after: the
/// header flag and the text between the outer pipes.
pub open spec fn puki_table_row(s: Seq<char>) -> Option<(bool, Seq<char>)> {
    let t = ws_end(s, s.len() as int);
    if t >= 3 && s[0] == '|' && s[t - 1] == 'h' && s[t - 2] == '|' {
        Some((true, s.subrange(1, t - 2)))
    } else if t >= 2 && s[0] == '|' && s[t - 1] == '|' {
        Some((false, s.subrange(1, t - 1)))
    } else {
        None
    }
}

/// Whether the line is a comment: it opens with two slashes.
pub open spec fn puki_is_comment(s: Seq<char>) -> bool {
    s.len() >= 2 && s[0] == '/' && s[1] == '/'
}

/// One cell's text and alignment: an explicit `LEFT:`, `CENTER:` or
/// `RIGHT:` prefix on the trimmed cell names the alignment and is stripped.
pub open spec fn puki_cell(cell: Seq<char>) -> (Seq<char>, ETableAlign) {
    let t0 = trim_seq(cell);
    if t0.len() >= 5 && t0.subrange(0, 5) == seq!['L', 'E', 'F', 'T', ':'] {
        (trim_seq(t0.subrange(5, t0.len() as int)), ETableAlign::LEFT)
    } else if t0.len() >= 7 && t0.subrange(0, 7) == seq!['C', 'E', 'N', 'T', 'E', 'R', ':'] {
        (trim_seq(t0.subrange(7, t0.len() as int)), ETableAlign::CENTER)
    } else if t0.len() >= 6 && t0.subrange(0, 6) == seq!['R', 'I', 'G', 'H', 'T', ':'] {
        (trim_seq(t0.subrange(6, t0.len() as int)), ETableAlign::RIGHT)
    } else {
        (t0, ETableAlign::DEFAULT)
    }
}

/// One accumulated table row: each cell trimmed, its alignment prefix read
/// and stripped, the text inline-decoded, the row's header flag from the
/// trailing `h`.
pub open spec fn puki_table_add(
    rows: Seq<Seq<AttrSpec>>,
    inner: Seq<char>,
    header: bool,
) -> Seq<Seq<AttrSpec>> {
    let cells = split_on(inner, seq!['|']);
    rows.push(
        Seq::new(
            cells.len(),
            |i: int|
                AttrSpec {
                    text: puki_rewritten(puki_cell(cells[i]).0),
                    align: puki_cell(cells[i]).1,
                    header: header,
                },
        ),
    )
}

/// The block-decoder state carried across lines.
#[verifier::ext_equal]
pub struct PukiState {
    /// Whether a code block is open.
    pub pre_block: bool,
    /// The open code block's language tag (always empty in this dialect).
    pub pre_code: Seq<char>,
    /// The open code block's accumulated body.
    pub pre_data: Seq<char>,
    /// Whether a table block is open.
    pub table_block: bool,
    /// The open table's accumulated rows.
    pub rows: Seq<Seq<AttrSpec>>,
}

/// The state a decode run starts from.
pub open spec fn puki_init_state() -> PukiState {
    PukiState {
        pre_block: false,
        pre_code: Seq::empty(),
        pre_data: Seq::empty(),
        table_block: false,
        rows: Seq::empty(),
    }
}

/// What one line yields when no block is open: the first matcher that
/// accepts the line, in priority order (rule, heading, list item, code
/// opener, table opener, comment), produces its element; any other line
/// becomes inline-decoded text.
pub open spec fn puki_match_line(st: PukiState, line: Seq<char>) -> (PukiState, Seq<ElemSpec>) {
    if puki_is_hr(line) {
        (st, seq![ElemSpec::Rule])
    } else {
        match puki_heading(line) {
            Some(ht) => (
                st,
                seq![
                    ElemSpec::Heading {
                        etype: ElementType::HTAG,
                        title: puki_rewritten(ht.1),
                        level: ht.0,
                    },
                ],
            ),
            None => match puki_list(line) {
                Some(li) => (
                    st,
                    seq![
                        ElemSpec::ListItem {
                            etype: li.0,
                            text: puki_rewritten(li.2),
                            indent: li.1,
                            nest: (li.1 - 1) as u32,
                        },
                    ],
                ),
                None => match puki_pre_line(line) {
                    Some(first) => (
                        PukiState {
                            pre_block: true,
                            pre_code: Seq::empty(),
                            pre_data: first + seq!['\n'],
                            ..st
                        },
                        seq![ElemSpec::Empty],
                    ),
                    None => match puki_table_row(line) {
                        Some(tr) => (
                            PukiState {
                                table_block: true,
                                rows: puki_table_add(Seq::empty(), tr.1, tr.0),
                                ..st
                            },
                            seq![ElemSpec::Empty],
                        ),
                        None => if puki_is_comment(line) {
                            (st, seq![ElemSpec::Empty])
                        } else {
                            (st, seq![ElemSpec::Data { text: puki_rewritten(line) }])
                        },
                    },
                },
            },
        }
    }
}

/// What one line yields: an open code block swallows indented lines; the
/// first unindented line flushes it and is then matched as usual, as is the
/// first non-row line of an open table block.
pub open spec fn puki_line_step(st: PukiState, line: Seq<char>) -> (PukiState, Seq<ElemSpec>) {
    if st.pre_block {
        match puki_pre_line(line) {
            Some(body) => (
                PukiState { pre_data: st.pre_data + body + seq!['\n'], ..st },
                Seq::empty(),
            ),
            None => {
                let flushed = ElemSpec::Pre {
                    etype: ElementType::PRETAG,
                    text: st.pre_data,
                    code: st.pre_code,
                };
                let m = puki_match_line(PukiState { pre_block: false, ..st }, line);
                (m.0, seq![flushed] + m.1)
            },
        }
    } else if st.table_block {
        match puki_table_row(line) {
            Some(tr) => (
                PukiState { rows: puki_table_add(st.rows, tr.1, tr.0), ..st },
                Seq::empty(),
            ),
            None => {
                let flushed = ElemSpec::Table { etype: ElementType::TABLE, rows: st.rows };
                let m = puki_match_line(PukiState { table_block: false, ..st }, line);
                (m.0, seq![flushed] + m.1)
            },
        }
    } else {
        puki_match_line(st, line)
    }
}

/// The elements the lines from index `i` on contribute, starting from state
/// `st`; a code or table block still open at the end of input is flushed.
pub open spec fn puki_load_from(lines: Seq<Seq<char>>, st: PukiState, i: int) -> Seq<ElemSpec>
    decreases lines.len() - i
    when 0 <= i <= lines.len()
{
    if i == lines.len() {
        if st.pre_block {
            seq![ElemSpec::Pre { etype: ElementType::PRETAG, text: st.pre_data, code: st.pre_code }]
        } else if st.table_block {
            seq![ElemSpec::Table { etype: ElementType::TABLE, rows: st.rows }]
        } else {
            Seq::empty()
        }
    } else {
        let r = puki_line_step(st, lines[i]);
        r.1 + puki_load_from(lines, r.0, i + 1)
    }
}

/// The document this dialect's decoder builds from the given lines.
pub open spec fn puki_elems(lines: Seq<Seq<char>>) -> Seq<ElemSpec> {
    puki_load_from(lines, puki_init_state(), 0)
}

/// Native markup this dialect emits for one non-link tag.
pub open spec fn puki_tag_out(c0: char, c1: char) -> Seq<char> {
    if c0 == 'B' || c0 == 'b' {
        if c1 == '1' {
            seq!['\'', '\'', '\'']
        } else if c1 == '2' {
            seq!['\'', '\'']
        } else {
            Seq::empty()
        }
    } else if c0 == 'D' || c0 == 'd' {
        seq!['%', '%']
    } else {
        Seq::empty()
    }
}

/// The dialect-native text for the tagged line `s` from index `i` on.
/// A link tag reads both payloads ahead and emits `[[label>target]]`;
/// a truncated tag at the end of the line is emitted literally.
pub open spec fn puki_enc_from(s: Seq<char>, i: int) -> Seq<char>
    decreases s.len() - i
    when 0 <= i <= s.len()
{
    if i >= s.len() {
        Seq::empty()
    } else {
        let c = s[i];
        if c == MARKER {
            if i + 3 > s.len() {
                s.subrange(i, s.len() as int)
            } else {
                let c0 = s[i + 1];
                let c1 = s[i + 2];
                if c0 == 'L' {
                    if c1 == '0' {
                        proof {
                            lemma_link_parts_next(s, i + 3);
                        }
                        let p = link_parts(s, i + 3);
                        seq!['[', '['] + p.1 + seq!['>'] + p.0 + seq![']', ']'] + puki_enc_from(
                            s,
                            p.2,
                        )
                    } else {
                        puki_enc_from(s, i + 3)
                    }
                } else {
                    puki_tag_out(c0, c1) + puki_enc_from(s, i + 3)
                }
            }
        } else {
            seq![c] + puki_enc_from(s, i + 1)
        }
    }
}

/// Appends the dialect-native text for the tagged line `s` to `out`.
pub(crate) fn puki_enc_into(s: &Vec<char>, out: &mut Vec<char>)
    ensures
        final(out)@ == old(out)@ + puki_enc_from(s@, 0),
{
    let mut i: usize = 0;
    while i < s.len()
        invariant
            0 <= i <= s@.len(),
            old(out)@ + puki_enc_from(s@, 0) == out@ + puki_enc_from(s@, i as int),
        decreases s@.len() - i,
    {
        let ghost i0 = i as int;
        let c = s[i];
        if c == MARKER {
            if s.len() - i < 3 {
                push_range(out, s, i, s.len());
                i = s.len();
            } else {
                let c0 = s[i + 1];
                let c1 = s[i + 2];
                if c0 == 'L' {
                    if c1 == '0' {
                        let p = read_link(s, i + 3);
                        out.push('[');
                        out.push('[');
                        push_range(out, s, p.2, p.3);
                        out.push('>');
                        push_range(out, s, p.0, p.1);
                        out.push(']');
                        out.push(']');
                        i = p.4;
                        proof {
                            lemma_link_parts_next(s@, i0 + 3);
                        }
                    } else {
                        i = i + 3;
                    }
                } else {
                    if c0 == 'B' || c0 == 'b' {
                        if c1 == '1' {
                            out.push('\'');
                            out.push('\'');
                            out.push('\'');
                        } else if c1 == '2' {
                            out.push('\'');
                            out.push('\'');
                        }
                    } else if c0 == 'D' || c0 == 'd' {
                        out.push('%');
                        out.push('%');
                    }
                    i = i + 3;
                }
            }
        } else {
            out.push(c);
            i = i + 1;
        }
        assert(old(out)@ + puki_enc_from(s@, 0) =~= out@ + puki_enc_from(s@, i as int));
    }
}

/// Renders one inline-tagged line as this dialect's native text.
pub fn encode_to_puki(line: &str) -> (r: String)
    ensures
        r@ == puki_enc_from(line@, 0),
{
    let s = str_to_chars(line);
    let mut out: Vec<char> = Vec::new();
    puki_enc_into(&s, &mut out);
    chars_to_string(&out)
}

/// Exec check of [`puki_is_hr`].
fn puki_is_hr_exec(line: &Vec<char>) -> (b: bool)
    ensures
        b == puki_is_hr(line@),
{
    let dashes: Vec<char> = vec!['-', '-', '-', '-'];
    let hr: Vec<char> = vec!['#', 'h', 'r'];
    assert(dashes@ =~= seq!['-', '-', '-', '-']);
    assert(hr@ =~= seq!['#', 'h', 'r']);
    (line.len() >= 4 && range_eq(line, 0, &dashes)) || (line.len() >= 3 && range_eq(line, 0, &hr))
}

/// Exec match of [`puki_heading`].
fn try_puki_heading(line: &Vec<char>) -> (r: Option<(u32, Vec<char>)>)
    ensures
        match r {
            Some(p) => puki_heading(line@) == Some((p.0, p.1@)),
            None => puki_heading(line@) is None,
        },
{
    let n = line.len();
    let h = skip_run_exec(line, '*', 0);
    if !(1 <= h && h <= u32::MAX as usize) {
        return None;
    }
    if n >= 1 && line[n - 1] == ']' {
        let mut p: usize = n;
        loop
            invariant
                0 <= p <= n,
                n == line@.len(),
                1 <= h <= n,
                h <= u32::MAX,
                h as int == skip_run(line@, '*', 0),
                n >= 1 && line@[n - 1] == ']',
                puki_hlink_from(line@, h as int, n as int) == puki_hlink_from(
                    line@,
                    h as int,
                    p as int,
                ),
            decreases p + 1,
        {
            let ok: bool = p > h && p < n && n - p >= 3 && line[p] == '[' && (line[p - 1] == ' '
                || line[p - 1] == '\t');
            assert(ok == puki_hlink_ok(line@, h as int, p as int));
            if ok {
                let t = trim_vec(line, h, p);
                return Some((h as u32, t));
            }
            if p == 0 {
                assert(puki_hlink_from(line@, h as int, 0) == puki_hlink_from(
                    line@,
                    h as int,
                    -1,
                ));
                let t = trim_vec(line, h, n);
                return Some((h as u32, t));
            }
            p = p - 1;
        }
    }
    let t = trim_vec(line, h, n);
    Some((h as u32, t))
}

/// Exec match of [`puki_list`].
fn try_puki_list(line: &Vec<char>) -> (r: Option<(ElementType, u32, Vec<char>)>)
    ensures
        match r {
            Some(p) => puki_list(line@) == Some((p.0, p.1, p.2@)),
            None => puki_list(line@) is None,
        },
{
    let hu = skip_run_exec(line, '-', 0);
    if 1 <= hu && hu <= u32::MAX as usize {
        let t = trim_vec(line, hu, line.len());
        return Some((ElementType::ULTAG, hu as u32, t));
    }
    let ho = skip_run_exec(line, '+', 0);
    if 1 <= ho && ho <= u32::MAX as usize {
        let t = trim_vec(line, ho, line.len());
        return Some((ElementType::OLTAG, ho as u32, t));
    }
    None
}

/// Exec match of [`puki_table_row`]: on success, the header flag and the
/// index just past the inner text.
fn try_puki_table_row(line: &Vec<char>) -> (r: Option<(bool, usize)>)
    ensures
        match r {
            Some(p) => 1 <= p.1 <= line@.len() && puki_table_row(line@) == Some(
                (p.0, line@.subrange(1, p.1 as int)),
            ),
            None => puki_table_row(line@) is None,
        },
{
    let t = ws_end_exec(line, line.len());
    if t >= 3 && line[0] == '|' && line[t - 1] == 'h' && line[t - 2] == '|' {
        Some((true, t - 2))
    } else if t >= 2 && line[0] == '|' && line[t - 1] == '|' {
        Some((false, t - 1))
    } else {
        None
    }
}

/// Exec computation of [`puki_cell`]: the stripped text and the alignment.
fn puki_cell_exec(cell: &Vec<char>) -> (r: (Vec<char>, ETableAlign))
    ensures
        puki_cell(cell@) == (r.0@, r.1),
{
    let t0 = trim_vec(cell, 0, cell.len());
    assert(cell@.subrange(0, cell@.len() as int) =~= cell@);
    let left: Vec<char> = vec!['L', 'E', 'F', 'T', ':'];
    let center: Vec<char> = vec!['C', 'E', 'N', 'T', 'E', 'R', ':'];
    let right: Vec<char> = vec!['R', 'I', 'G', 'H', 'T', ':'];
    assert(left@ =~= seq!['L', 'E', 'F', 'T', ':']);
    assert(center@ =~= seq!['C', 'E', 'N', 'T', 'E', 'R', ':']);
    assert(right@ =~= seq!['R', 'I', 'G', 'H', 'T', ':']);
    if t0.len() >= 5 && range_eq(&t0, 0, &left) {
        let t = trim_vec(&t0, 5, t0.len());
        (t, ETableAlign::LEFT)
    } else if t0.len() >= 7 && range_eq(&t0, 0, &center) {
        let t = trim_vec(&t0, 7, t0.len());
        (t, ETableAlign::CENTER)
    } else if t0.len() >= 6 && range_eq(&t0, 0, &right) {
        let t = trim_vec(&t0, 6, t0.len());
        (t, ETableAlign::RIGHT)
    } else {
        (t0, ETableAlign::DEFAULT)
    }
}

/// The per-decode state: the open code or table block.
pub struct GenerateorContext {
    /// Whether a code block is open.
    pub pre_block: bool,
    /// The open code block's language tag (always empty in this dialect).
    pub pre_code: Vec<char>,
    /// The open code block's accumulated body.
    pub pre_data: Vec<char>,
    /// Whether a table block is open.
    pub table_block: bool,
    /// The open table's accumulated rows.
    pub table_column: Vec<TableColumn>,
}

impl View for GenerateorContext {
    type V = PukiState;

    open spec fn view(&self) -> PukiState {
        PukiState {
            pre_block: self.pre_block,
            pre_code: self.pre_code@,
            pre_data: self.pre_data@,
            table_block: self.table_block,
            rows: self.table_column@.map_values(|c: TableColumn| c@),
        }
    }
}

impl GenerateorContext {
    /// The state a decode run starts from.
    pub fn new() -> (c: Self)
        ensures
            c@ == puki_init_state(),
    {
        let c = GenerateorContext {
            pre_block: false,
            pre_code: Vec::new(),
            pre_data: Vec::new(),
            table_block: false,
            table_column: Vec::new(),
        };
        assert(c@.rows =~= Seq::<Seq<AttrSpec>>::empty());
        assert(c@ =~= puki_init_state());
        c
    }

    /// Whether a code block is open.
    pub fn is_pre_block(&self) -> (b: bool)
        ensures
            b == self@.pre_block,
    {
        self.pre_block
    }

    /// Whether a table block is open.
    pub fn is_table_block(&self) -> (b: bool)
        ensures
            b == self@.table_block,
    {
        self.table_block
    }

    /// One line while a code block is open: an indented line is appended to
    /// the body; the first unindented line emits the block (and is matched
    /// again by the caller).
    pub fn add_pre_block(&mut self, line: &Vec<char>) -> (r: Option<Element>)
        ensures
            match puki_pre_line(line@) {
                Some(body) => r is None && final(self)@ == (PukiState {
                    pre_data: old(self)@.pre_data + body + seq!['\n'],
                    ..old(self)@
                }),
                None => (r matches Some(e) && e@ == ElemSpec::Pre {
                    etype: ElementType::PRETAG,
                    text: old(self)@.pre_data,
                    code: old(self)@.pre_code,
                }) && final(self)@ == (PukiState { pre_block: false, ..old(self)@ }),
            },
    {
        if line.len() >= 1 && line[0] == ' ' {
            push_range(&mut self.pre_data, line, 1, line.len());
            self.pre_data.push('\n');
            None
        } else {
            self.pre_block = false;
            Some(
                Element::Pre(
                    PRETagElement {
                        etype: ElementType::PRETAG,
                        text: chars_to_string(&self.pre_data),
                        code: chars_to_string(&self.pre_code),
                    },
                ),
            )
        }
    }

    /// One line while a table block is open: a row line extends the
    /// accumulated rows as [`puki_table_add`] says; the first non-row line
    /// freezes them into one table element.
    pub fn add_table_block(&mut self, line: &Vec<char>) -> (r: Option<Element>)
        ensures
            match puki_table_row(line@) {
                Some(tr) => r is None && final(self)@ == (PukiState {
                    rows: puki_table_add(old(self)@.rows, tr.1, tr.0),
                    ..old(self)@
                }),
                None => (r matches Some(e) && e@ == ElemSpec::Table {
                    etype: ElementType::TABLE,
                    rows: old(self)@.rows,
                }) && final(self)@ == (PukiState { table_block: false, ..old(self)@ }),
            },
    {
        let ghost rows0 = self@.rows;
        match try_puki_table_row(line) {
            Some((header, t)) => {
                let ghost inner = line@.subrange(1, t as int);
                let bar: Vec<char> = vec!['|'];
                assert(bar@ =~= seq!['|']);
                let cells = split_vec(line, 1, t, &bar);
                let ghost cellseq = split_on(inner, seq!['|']);
                assert(cells@.map_values(|v: Vec<char>| v@) == cellseq);
                assert(cells@.len() == cellseq.len());
                let ghost specrow = Seq::new(
                    cellseq.len(),
                    |i: int|
                        AttrSpec {
                            text: puki_rewritten(puki_cell(cellseq[i]).0),
                            align: puki_cell(cellseq[i]).1,
                            header: header,
                        },
                );
                let mut column = TableColumn::new();
                let mut i: usize = 0;
                while i < cells.len()
                    invariant
                        0 <= i <= cells@.len(),
                        cells@.map_values(|v: Vec<char>| v@) == cellseq,
                        cells@.len() == cellseq.len(),
                        specrow == Seq::new(
                            cellseq.len(),
                            |i: int|
                                AttrSpec {
                                    text: puki_rewritten(puki_cell(cellseq[i]).0),
                                    align: puki_cell(cellseq[i]).1,
                                    header: header,
                                },
                        ),
                        column@.len() == i,
                        forall|k: int| 0 <= k < i ==> column@[k] == specrow[k],
                    decreases cells@.len() - i,
                {
                    let cell = &cells[i];
                    assert(cell@ == cellseq[i as int]);
                    let (stripped, align) = puki_cell_exec(cell);
                    let decoded = puki_rewrite_chars(stripped);
                    column.add(TableAttr { text: chars_to_string(&decoded), align, header });
                    i = i + 1;
                }
                assert(column@ =~= specrow);
                let ghost colview = column@;
                self.table_column.push(column);
                proof {
                    assert(self@.rows =~= rows0.push(colview));
                    assert(final(self)@ =~~= (PukiState {
                        rows: puki_table_add(rows0, inner, header),
                        ..old(self)@
                    }));
                }
                None
            },
            None => {
                self.table_block = false;
                let mut data: Vec<TableColumn> = Vec::new();
                let mut rix: usize = 0;
                while rix < self.table_column.len()
                    invariant
                        0 <= rix <= self.table_column@.len(),
                        self.table_column@ == old(self).table_column@,
                        data@.len() == rix,
                        forall|k: int| 0 <= k < rix ==> data@[k]@ == self.table_column@[k]@,
                    decreases self.table_column@.len() - rix,
                {
                    let copy = clone_column(&self.table_column[rix]);
                    data.push(copy);
                    rix = rix + 1;
                }
                let e = Element::Table(TABLEElement { etype: ElementType::TABLE, data });
                proof {
                    let ghost erows = data@.map_values(|c: TableColumn| c@);
                    assert(erows =~= rows0);
                    assert(e@ =~~= (ElemSpec::Table { etype: ElementType::TABLE, rows: rows0 }));
                }
                Some(e)
            },
        }
    }
}

/// Matches one free line against the registered matchers in priority order
/// and yields its element; openers flip the context's block state.
fn puki_match_line_exec(ctx: &mut GenerateorContext, line: &Vec<char>) -> (r: Element)
    ensures
        ({
            let m = puki_match_line(old(ctx)@, line@);
            final(ctx)@ == m.0 && m.1 == seq![r@]
        }),
{
    if puki_is_hr_exec(line) {
        return Element::Rule(HRTagElement {});
    }
    if let Some((level, title)) = try_puki_heading(line) {
        let decoded = puki_rewrite_chars(title);
        return Element::Heading(
            HTagElement {
                etype: ElementType::HTAG,
                title: chars_to_string(&decoded),
                level,
            },
        );
    }
    if let Some((kind, indent, raw)) = try_puki_list(line) {
        let decoded = puki_rewrite_chars(raw);
        return Element::ListItem(
            LITagElement {
                etype: kind,
                text: chars_to_string(&decoded),
                indent,
                nest: indent - 1,
            },
        );
    }
    if line.len() >= 1 && line[0] == ' ' {
        ctx.pre_block = true;
        ctx.pre_code = Vec::new();
        let mut first: Vec<char> = Vec::new();
        push_range(&mut first, line, 1, line.len());
        first.push('\n');
        assert(first@ =~= line@.subrange(1, line@.len() as int) + seq!['\n']);
        ctx.pre_data = first;
        return Element::Empty(NONEElement {});
    }
    if let Some(p) = try_puki_table_row(line) {
        ctx.table_block = true;
        ctx.table_column = Vec::new();
        assert(ctx@.rows =~= Seq::<Seq<AttrSpec>>::empty());
        let r = ctx.add_table_block(line);
        assert(r is None);
        return Element::Empty(NONEElement {});
    }
    if line.len() >= 2 && line[0] == '/' && line[1] == '/' {
        return Element::Empty(NONEElement {});
    }
    let decoded = puki_rewrite_chars(clone_chars(line));
    Element::Data(DataElement { text: chars_to_string(&decoded) })
}

/// Feeds one source line to the decoder state, appending whatever elements
/// it yields.
fn puki_line_step_exec(ctx: &mut GenerateorContext, page: &mut Document, line: &Vec<char>)
    ensures
        ({
            let m = puki_line_step(old(ctx)@, line@);
            final(ctx)@ == m.0 && final(page)@ == old(page)@ + m.1
        }),
{
    if ctx.is_pre_block() {
        match ctx.add_pre_block(line) {
            None => {
                assert(page@ =~= old(page)@ + Seq::<ElemSpec>::empty());
            },
            Some(e) => {
                let ghost ev = e@;
                page.push(e);
                let e2 = puki_match_line_exec(ctx, line);
                let ghost ev2 = e2@;
                page.push(e2);
                assert(page@ =~= old(page)@ + (seq![ev] + seq![ev2]));
            },
        }
    } else if ctx.is_table_block() {
        match ctx.add_table_block(line) {
            None => {
                assert(page@ =~= old(page)@ + Seq::<ElemSpec>::empty());
            },
            Some(e) => {
                let ghost ev = e@;
                page.push(e);
                let e2 = puki_match_line_exec(ctx, line);
                let ghost ev2 = e2@;
                page.push(e2);
                assert(page@ =~= old(page)@ + (seq![ev] + seq![ev2]));
            },
        }
    } else {
        let e = puki_match_line_exec(ctx, line);
        let ghost ev = e@;
        page.push(e);
        assert(page@ =~= old(page)@ + seq![ev]);
    }
}

/// The block decoder for this dialect: a fixed table of line matchers in
/// priority order.
pub struct Decoder {}

impl Decoder {
    /// A decoder instance.
    pub fn new() -> (d: Self) {
        Decoder {}
    }

    /// Decodes the source lines into a document, as [`puki_elems`] says: a
    /// line-driven state machine over the matchers, with a code or table
    /// block still open at the end flushed.
    pub fn load(&self, lines: &Vec<String>) -> (d: Document)
        ensures
            d@ == puki_elems(lines@.map_values(|l: String| l@)),
    {
        let ghost ls = lines@.map_values(|l: String| l@);
        let mut page = Document::new();
        let mut ctx = GenerateorContext::new();
        assert(page@ + puki_load_from(ls, ctx@, 0) =~= puki_elems(ls));
        let mut i: usize = 0;
        while i < lines.len()
            invariant
                0 <= i <= lines@.len(),
                ls == lines@.map_values(|l: String| l@),
                ls.len() == lines@.len(),
                puki_elems(ls) == page@ + puki_load_from(ls, ctx@, i as int),
            decreases lines@.len() - i,
        {
            let line = str_to_chars(lines[i].as_str());
            assert(line@ == ls[i as int]);
            let ghost st0 = ctx@;
            puki_line_step_exec(&mut ctx, &mut page, &line);
            i = i + 1;
            proof {
                let m = puki_line_step(st0, ls[i - 1]);
                assert(puki_load_from(ls, st0, i - 1) == m.1 + puki_load_from(ls, m.0, i as int));
                assert(page@ + puki_load_from(ls, ctx@, i as int) =~= puki_elems(ls));
            }
        }
        if ctx.is_pre_block() {
            let e = Element::Pre(
                PRETagElement {
                    etype: ElementType::PRETAG,
                    text: chars_to_string(&ctx.pre_data),
                    code: chars_to_string(&ctx.pre_code),
                },
            );
            page.push(e);
            assert(page@ =~= puki_elems(ls));
        } else if ctx.is_table_block() {
            let mut data: Vec<TableColumn> = Vec::new();
            let mut rix: usize = 0;
            while rix < ctx.table_column.len()
                invariant
                    0 <= rix <= ctx.table_column@.len(),
                    data@.len() == rix,
                    forall|k: int| 0 <= k < rix ==> data@[k]@ == ctx.table_column@[k]@,
                decreases ctx.table_column@.len() - rix,
            {
                let copy = clone_column(&ctx.table_column[rix]);
                data.push(copy);
                rix = rix + 1;
            }
            let e = Element::Table(TABLEElement { etype: ElementType::TABLE, data });
            proof {
                let ghost erows = data@.map_values(|c: TableColumn| c@);
                assert(erows =~= ctx@.rows);
                assert(e@ =~~= (ElemSpec::Table { etype: ElementType::TABLE, rows: ctx@.rows }));
            }
            page.push(e);
            assert(page@ =~= puki_elems(ls));
        } else {
            assert(page@ =~= puki_elems(ls));
        }
        page
    }
}


/// The explicit alignment prefix this dialect writes before a cell's text.
pub open spec fn puki_align_prefix(a: ETableAlign) -> Seq<char> {
    match a {
        ETableAlign::CENTER => seq!['C', 'E', 'N', 'T', 'E', 'R', ':'],
        ETableAlign::LEFT => seq!['L', 'E', 'F', 'T', ':'],
        ETableAlign::RIGHT => seq!['R', 'I', 'G', 'H', 'T', ':'],
        ETableAlign::DEFAULT => Seq::empty(),
    }
}

/// One cell as this dialect writes it.
pub open spec fn puki_cell_out(a: AttrSpec) -> Seq<char> {
    puki_align_prefix(a.align) + seq![' '] + puki_enc_from(a.text, 0) + seq![' ', '|']
}

/// The cells of one row from index `i` on.
pub open spec fn puki_cells_from(row: Seq<AttrSpec>, i: int) -> Seq<char>
    decreases row.len() - i
    when 0 <= i <= row.len()
{
    if i == row.len() {
        Seq::empty()
    } else {
        puki_cell_out(row[i]) + puki_cells_from(row, i + 1)
    }
}

/// Whether any cell of the row carries the header flag.
pub open spec fn puki_any_header(row: Seq<AttrSpec>) -> bool {
    exists|k: int| 0 <= k < row.len() && (#[trigger] row[k]).header
}

/// One table row: a header row closes with `h`.
pub open spec fn puki_row_out(row: Seq<AttrSpec>) -> Seq<char> {
    seq!['|'] + puki_cells_from(row, 0) + (if puki_any_header(row) {
        seq!['h']
    } else {
        Seq::empty()
    }) + seq!['\n']
}

/// The table rows from index `i` on.
pub open spec fn puki_rows_from(rows: Seq<Seq<AttrSpec>>, i: int) -> Seq<char>
    decreases rows.len() - i
    when 0 <= i <= rows.len()
{
    if i == rows.len() {
        Seq::empty()
    } else {
        puki_row_out(rows[i]) + puki_rows_from(rows, i + 1)
    }
}

/// The code-block body lines from index `i` up to `cnt`, each indented by
/// one space.
pub open spec fn puki_pre_pieces(ps: Seq<Seq<char>>, i: int, cnt: int) -> Seq<char>
    decreases cnt - i
    when 0 <= i <= cnt <= ps.len()
{
    if i >= cnt {
        Seq::empty()
    } else {
        seq![' '] + ps[i] + seq!['\n'] + puki_pre_pieces(ps, i + 1, cnt)
    }
}

/// A code block as this dialect writes it: each body line indented by one
/// space; a trailing empty piece left by the body's final newline is not
/// written as a line of its own, so a decoded block round-trips unchanged.
pub open spec fn puki_pre_out(text: Seq<char>) -> Seq<char> {
    let ps = split_on(text, seq!['\n']);
    let cnt: int = if ps.len() > 0 && ps[ps.len() - 1].len() == 0 {
        ps.len() - 1
    } else {
        ps.len() as int
    };
    puki_pre_pieces(ps, 0, cnt)
}

/// The dialect-native text for one element.
pub open spec fn puki_single(e: ElemSpec) -> Seq<char> {
    match e {
        ElemSpec::Empty => Seq::empty(),
        ElemSpec::Heading { title, level, .. } => repeat_char('*', level as nat) + seq![' ']
            + puki_enc_from(title, 0) + seq!['\n'],
        ElemSpec::ListItem { etype, text, nest, .. } => repeat_char(
            if etype == ElementType::ULTAG {
                '-'
            } else {
                '+'
            },
            nest as nat + 1,
        ) + seq![' '] + puki_enc_from(text, 0) + seq!['\n'],
        ElemSpec::Pre { text, .. } => puki_pre_out(text),
        ElemSpec::Table { rows, .. } => puki_rows_from(rows, 0),
        ElemSpec::Rule => seq!['-', '-', '-', '-', '\n'],
        ElemSpec::Data { text } => puki_enc_from(text, 0) + seq!['\n'],
    }
}

/// The document text: every element's native text, in order.
pub open spec fn puki_out_from(es: Seq<ElemSpec>, i: int) -> Seq<char>
    decreases es.len() - i
    when 0 <= i <= es.len()
{
    if i == es.len() {
        Seq::empty()
    } else {
        puki_single(es[i]) + puki_out_from(es, i + 1)
    }
}

/// Appends one cell's native text.
fn push_puki_cell(out: &mut Vec<char>, a: &TableAttr)
    ensures
        final(out)@ == old(out)@ + puki_cell_out(a@),
{
    match a.align {
        ETableAlign::CENTER => {
            out.push('C');
            out.push('E');
            out.push('N');
            out.push('T');
            out.push('E');
            out.push('R');
            out.push(':');
        },
        ETableAlign::LEFT => {
            out.push('L');
            out.push('E');
            out.push('F');
            out.push('T');
            out.push(':');
        },
        ETableAlign::RIGHT => {
            out.push('R');
            out.push('I');
            out.push('G');
            out.push('H');
            out.push('T');
            out.push(':');
        },
        ETableAlign::DEFAULT => {},
    }
    out.push(' ');
    let t = str_to_chars(a.text.as_str());
    puki_enc_into(&t, out);
    out.push(' ');
    out.push('|');
    assert(out@ =~= old(out)@ + puki_cell_out(a@));
}

/// Appends one table row's native text.
#[verifier::rlimit(50)]
fn push_puki_row(out: &mut Vec<char>, row: &TableColumn)
    ensures
        final(out)@ == old(out)@ + puki_row_out(row@),
{
    let ghost rowv = row@;
    out.push('|');
    let ghost cbase = out@;
    let mut bheader = false;
    let mut j: usize = 0;
    while j < row.data.len()
        invariant
            0 <= j <= row.data@.len(),
            rowv == row@,
            rowv.len() == row.data@.len(),
            cbase + puki_cells_from(rowv, 0) == out@ + puki_cells_from(rowv, j as int),
            bheader == exists|k: int| 0 <= k < j && (#[trigger] rowv[k]).header,
        decreases row.data@.len() - j,
    {
        let a = &row.data[j];
        push_puki_cell(out, a);
        let ghost bh0 = bheader;
        if !bheader && a.header {
            bheader = true;
        }
        assert(rowv[j as int] == row.data@[j as int]@);
        proof {
            if bheader {
                if bh0 {
                    let w = choose|k: int| 0 <= k < j && (#[trigger] rowv[k]).header;
                    assert(0 <= w < j + 1 && rowv[w].header);
                } else {
                    assert(rowv[j as int].header);
                }
            }
        }
        j = j + 1;
        assert(cbase + puki_cells_from(rowv, 0) =~= out@ + puki_cells_from(rowv, j as int));
    }
    assert(bheader == puki_any_header(rowv));
    if bheader {
        out.push('h');
    }
    out.push('\n');
    assert(out@ =~= old(out)@ + puki_row_out(rowv));
}

/// Appends one table's native text.
#[verifier::rlimit(100)]
#[verifier::spinoff_prover]
fn push_puki_table(out: &mut Vec<char>, rows: &Vec<TableColumn>)
    ensures
        final(out)@ == old(out)@ + puki_rows_from(rows@.map_values(|c: TableColumn| c@), 0),
{
    let ghost rs = rows@.map_values(|c: TableColumn| c@);
    let mut i: usize = 0;
    while i < rows.len()
        invariant
            0 <= i <= rows@.len(),
            rs == rows@.map_values(|c: TableColumn| c@),
            rs.len() == rows@.len(),
            old(out)@ + puki_rows_from(rs, 0) == out@ + puki_rows_from(rs, i as int),
        decreases rows@.len() - i,
    {
        push_puki_row(out, &rows[i]);
        assert(rs[i as int] == rows@[i as int]@);
        assert(puki_rows_from(rs, i as int) == puki_row_out(rs[i as int]) + puki_rows_from(
            rs,
            i + 1,
        ));
        i = i + 1;
        assert(old(out)@ + puki_rows_from(rs, 0) =~= out@ + puki_rows_from(rs, i as int));
    }
}

/// Appends one code block's native text.
fn push_puki_pre(out: &mut Vec<char>, text: &Vec<char>)
    ensures
        final(out)@ == old(out)@ + puki_pre_out(text@),
{
    let nl: Vec<char> = vec!['\n'];
    assert(nl@ =~= seq!['\n']);
    let pieces = split_vec(text, 0, text.len(), &nl);
    let ghost ps = split_on(text@, seq!['\n']);
    proof {
        assert(text@.subrange(0, text@.len() as int) =~= text@);
    }
    assert(pieces@.map_values(|v: Vec<char>| v@) == ps);
    assert(pieces@.len() == ps.len());
    let cnt: usize = if pieces.len() > 0 && pieces[pieces.len() - 1].len() == 0 {
        pieces.len() - 1
    } else {
        pieces.len()
    };
    let mut i: usize = 0;
    while i < cnt
        invariant
            0 <= i <= cnt <= pieces@.len(),
            pieces@.map_values(|v: Vec<char>| v@) == ps,
            pieces@.len() == ps.len(),
            old(out)@ + puki_pre_pieces(ps, 0, cnt as int) == out@ + puki_pre_pieces(
                ps,
                i as int,
                cnt as int,
            ),
        decreases cnt - i,
    {
        out.push(' ');
        push_all(out, &pieces[i]);
        out.push('\n');
        assert(pieces@[i as int]@ == ps[i as int]);
        i = i + 1;
        assert(old(out)@ + puki_pre_pieces(ps, 0, cnt as int) =~= out@ + puki_pre_pieces(
            ps,
            i as int,
            cnt as int,
        ));
    }
}

/// The block encoder for this dialect.
pub struct Encoder {}

impl Encoder {
    /// An encoder instance.
    pub fn new() -> (e: Self) {
        Encoder {}
    }
}

impl TextEncoder for Encoder {
    open spec fn single_spec(&self, e: ElemSpec) -> Seq<char> {
        puki_single(e)
    }

    open spec fn doc_spec(&self, es: Seq<ElemSpec>, i: int) -> Seq<char> {
        puki_out_from(es, i)
    }

    fn encode_single(&self, element: &Element) -> (r: String) {
        let mut out: Vec<char> = Vec::new();
        match element {
            Element::Empty(_) => {},
            Element::Heading(h) => {
                push_repeat(&mut out, '*', h.level as usize);
                out.push(' ');
                let t = str_to_chars(h.title.as_str());
                puki_enc_into(&t, &mut out);
                out.push('\n');
            },
            Element::ListItem(l) => {
                let c: char = if l.etype == ElementType::ULTAG {
                    '-'
                } else {
                    '+'
                };
                push_repeat(&mut out, c, l.nest as usize);
                out.push(c);
                assert(repeat_char(c, l.nest as nat) + seq![c] =~= repeat_char(
                    c,
                    l.nest as nat + 1,
                ));
                out.push(' ');
                let t = str_to_chars(l.text.as_str());
                puki_enc_into(&t, &mut out);
                out.push('\n');
            },
            Element::Pre(p) => {
                let text = str_to_chars(p.text.as_str());
                push_puki_pre(&mut out, &text);
            },
            Element::Table(t) => {
                push_puki_table(&mut out, &t.data);
            },
            Element::Rule(_) => {
                out.push('-');
                out.push('-');
                out.push('-');
                out.push('-');
                out.push('\n');
            },
            Element::Data(d) => {
                let t = str_to_chars(d.text.as_str());
                puki_enc_into(&t, &mut out);
                out.push('\n');
            },
        }
        assert(out@ =~= puki_single(element@));
        chars_to_string(&out)
    }

    fn encode(&self, document: &Document) -> (r: String) {
        let ghost es = document@;
        let mut out: Vec<char> = Vec::new();
        let mut i: usize = 0;
        while i < document.element_list.len()
            invariant
                0 <= i <= document.element_list@.len(),
                es == document@,
                es.len() == document.element_list@.len(),
                puki_out_from(es, 0) == out@ + puki_out_from(es, i as int),
            decreases document.element_list@.len() - i,
        {
            let piece = self.encode_single(&document.element_list[i]);
            let chars = str_to_chars(piece.as_str());
            push_all(&mut out, &chars);
            assert(es[i as int] == document.element_list@[i as int]@);
            i = i + 1;
            assert(puki_out_from(es, 0) =~= out@ + puki_out_from(es, i as int));
        }
        chars_to_string(&out)
    }
}

} // verus!
