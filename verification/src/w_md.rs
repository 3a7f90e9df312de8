//! The Markdown-like dialect: its inline codec and, below, its block decoder
//! and encoder.

use vstd::prelude::*;

use crate::chars::chars_to_string;
use crate::chars::count_marks;
use crate::chars::count_marks_exec;
use crate::chars::find_last;
use crate::chars::find_last_pair;
use crate::chars::last_idx;
use crate::chars::last_pair;
use crate::chars::lemma_last_idx_bounds;
use crate::chars::lemma_last_pair_bounds;
use crate::chars::push_range;
use crate::chars::str_to_chars;
use crate::chars::clone_chars;
use crate::chars::is_ws;
use crate::chars::push_all;
use crate::chars::skip_digits;
use crate::chars::skip_digits_exec;
use crate::chars::skip_run;
use crate::chars::skip_run_exec;
use crate::chars::skip_ws;
use crate::chars::skip_ws_exec;
use crate::chars::split_on;
use crate::chars::split_vec;
use crate::chars::trim_seq;
use crate::chars::trim_vec;
use crate::chars::ws_end;
use crate::chars::ws_end_exec;
use crate::chars::push_repeat;
use crate::chars::repeat_char;
use crate::document::Document;
use crate::document::TextEncoder;
use crate::element::clone_column;
use crate::element::AttrSpec;
use crate::element::DataElement;
use crate::element::ETableAlign;
use crate::element::ElemSpec;
use crate::element::Element;
use crate::element::ElementType;
use crate::element::HRTagElement;
use crate::element::HTagElement;
use crate::element::LITagElement;
use crate::element::NONEElement;
use crate::element::PRETagElement;
use crate::element::TABLEElement;
use crate::element::TableAttr;
use crate::element::TableColumn;
use crate::tags::em_find;
use crate::tags::em_step;
use crate::tags::link_parts;
use crate::tags::lemma_link_parts_next;
use crate::tags::read_link;
use crate::tags::try_em;
use crate::tags::Boundary;
use crate::tags::MARKER;

verus! {

/// Where this dialect's native link form `[label](target)` matches `s`:
/// the positions of `[`, of `](`, and of `)`.  Each group is chosen greedily
/// from the right, mirroring the anchored pattern
/// `(.*)\[(.+)\]\((.+)\)(.*)`.
pub open spec fn md_link_find(s: Seq<char>) -> Option<(int, int, int)> {
    if s.len() == 0 {
        None
    } else {
        match last_idx(s, ')', s.len() - 1) {
            None => None,
            Some(k) => match last_pair(s, ']', '(', k - 3) {
                None => None,
                Some(j) => match last_idx(s, '[', j - 2) {
                    None => None,
                    Some(i) => Some((i, j, k)),
                },
            },
        }
    }
}

/// The rewriting for the link match: canonical order is target, separator,
/// label, whatever the dialect's native order was.
pub open spec fn md_link_step(s: Seq<char>) -> Seq<char> {
    match md_link_find(s) {
        Some((i, j, k)) => s.subrange(0, i) + seq![MARKER, 'L', '0'] + s.subrange(j + 2, k) + seq![
            MARKER,
            'L',
            '1',
        ] + s.subrange(i + 1, j) + seq![MARKER, 'L', '2'] + s.subrange(k + 1, s.len() as int),
        None => s,
    }
}

/// Applies the link rewrite once, if the link form matches.
fn try_md_link(s: &Vec<char>) -> (r: Option<Vec<char>>)
    ensures
        match r {
            Some(t) => md_link_find(s@) is Some && t@ == md_link_step(s@),
            None => md_link_find(s@) is None,
        },
{
    let n = s.len();
    if n == 0 {
        return None;
    }
    proof {
        lemma_last_idx_bounds(s@, ')', n - 1);
    }
    let k = match find_last(s, ')', n) {
        None => {
            return None;
        },
        Some(k) => k,
    };
    if k < 3 {
        return None;
    }
    proof {
        lemma_last_pair_bounds(s@, ']', '(', k - 3);
    }
    let j = match find_last_pair(s, ']', '(', k - 2) {
        None => {
            return None;
        },
        Some(j) => j,
    };
    if j < 2 {
        return None;
    }
    proof {
        lemma_last_idx_bounds(s@, '[', j - 2);
    }
    let i = match find_last(s, '[', j - 1) {
        None => {
            return None;
        },
        Some(i) => i,
    };
    let mut out: Vec<char> = Vec::new();
    push_range(&mut out, s, 0, i);
    out.push(MARKER);
    out.push('L');
    out.push('0');
    push_range(&mut out, s, j + 2, k);
    out.push(MARKER);
    out.push('L');
    out.push('1');
    push_range(&mut out, s, i + 1, j);
    out.push(MARKER);
    out.push('L');
    out.push('2');
    push_range(&mut out, s, k + 1, n);
    assert(out@ =~= md_link_step(s@));
    Some(out)
}

/// One decode rewriting step: the first pattern, in priority order, that
/// matches the line is rewritten to tag form.  Emphasis tiers come before
/// strikethrough and code span, the link pattern last.
pub open spec fn md_step(s: Seq<char>) -> Option<Seq<char>> {
    let w = Boundary::Word;
    let nb = Boundary::NoBackslash;
    let fr = Boundary::Free;
    if em_find(s, seq!['_', '_', '_'], seq!['_', '_', '_'], '_', w, w) is Some {
        Some(em_step(s, seq!['_', '_', '_'], seq!['_', '_', '_'], '_', w, w, 'B', '3', 'b', '3'))
    } else if em_find(s, seq!['_', '_'], seq!['_', '_'], '_', w, w) is Some {
        Some(em_step(s, seq!['_', '_'], seq!['_', '_'], '_', w, w, 'B', '2', 'b', '2'))
    } else if em_find(s, seq!['_'], seq!['_'], '_', w, w) is Some {
        Some(em_step(s, seq!['_'], seq!['_'], '_', w, w, 'B', '2', 'b', '1'))
    } else if em_find(s, seq!['*', '*', '*'], seq!['*', '*', '*'], '*', nb, fr) is Some {
        Some(
            em_step(
                s,
                seq!['*', '*', '*'],
                seq!['*', '*', '*'],
                '*',
                nb,
                fr,
                'B',
                '3',
                'b',
                '3',
            ),
        )
    } else if em_find(s, seq!['*', '*'], seq!['*', '*'], '*', nb, fr) is Some {
        Some(em_step(s, seq!['*', '*'], seq!['*', '*'], '*', nb, fr, 'B', '2', 'b', '2'))
    } else if em_find(s, seq!['*'], seq!['*'], '*', nb, fr) is Some {
        Some(em_step(s, seq!['*'], seq!['*'], '*', nb, fr, 'B', '1', 'b', '1'))
    } else if em_find(s, seq!['~', '~'], seq!['~', '~'], '~', fr, fr) is Some {
        Some(em_step(s, seq!['~', '~'], seq!['~', '~'], '~', fr, fr, 'D', '0', 'd', '0'))
    } else if em_find(s, seq!['`'], seq!['`'], '`', fr, fr) is Some {
        Some(em_step(s, seq!['`'], seq!['`'], '`', fr, fr, 'C', '0', 'c', '0'))
    } else if md_link_find(s) is Some {
        Some(md_link_step(s))
    } else {
        None
    }
}

/// Applies one decode rewriting step, if any pattern matches.
fn md_step_exec(s: &Vec<char>) -> (r: Option<Vec<char>>)
    ensures
        match r {
            Some(t) => md_step(s@) == Some(t@),
            None => md_step(s@) is None,
        },
{
    let w = Boundary::Word;
    let nb = Boundary::NoBackslash;
    let fr = Boundary::Free;
    let u3: Vec<char> = vec!['_', '_', '_'];
    let u2: Vec<char> = vec!['_', '_'];
    let u1: Vec<char> = vec!['_'];
    assert(u3@ =~= seq!['_', '_', '_']);
    assert(u2@ =~= seq!['_', '_']);
    assert(u1@ =~= seq!['_']);
    if let Some(t) = try_em(s, &u3, &u3, '_', w, w, 'B', '3', 'b', '3') {
        return Some(t);
    }
    if let Some(t) = try_em(s, &u2, &u2, '_', w, w, 'B', '2', 'b', '2') {
        return Some(t);
    }
    if let Some(t) = try_em(s, &u1, &u1, '_', w, w, 'B', '2', 'b', '1') {
        return Some(t);
    }
    let a3: Vec<char> = vec!['*', '*', '*'];
    let a2: Vec<char> = vec!['*', '*'];
    let a1: Vec<char> = vec!['*'];
    assert(a3@ =~= seq!['*', '*', '*']);
    assert(a2@ =~= seq!['*', '*']);
    assert(a1@ =~= seq!['*']);
    if let Some(t) = try_em(s, &a3, &a3, '*', nb, fr, 'B', '3', 'b', '3') {
        return Some(t);
    }
    if let Some(t) = try_em(s, &a2, &a2, '*', nb, fr, 'B', '2', 'b', '2') {
        return Some(t);
    }
    if let Some(t) = try_em(s, &a1, &a1, '*', nb, fr, 'B', '1', 'b', '1') {
        return Some(t);
    }
    let t2: Vec<char> = vec!['~', '~'];
    let bq: Vec<char> = vec!['`'];
    assert(t2@ =~= seq!['~', '~']);
    assert(bq@ =~= seq!['`']);
    if let Some(t) = try_em(s, &t2, &t2, '~', fr, fr, 'D', '0', 'd', '0') {
        return Some(t);
    }
    if let Some(t) = try_em(s, &bq, &bq, '`', fr, fr, 'C', '0', 'c', '0') {
        return Some(t);
    }
    if let Some(t) = try_md_link(s) {
        return Some(t);
    }
    None
}

/// The characters whose presence can still feed a decode rewriting step;
/// their count bounds the number of steps, since every rewrite removes
/// delimiters and inserts none of them.
pub open spec fn md_marks() -> Seq<char> {
    seq!['_', '*', '~', '`', '[', ']', '(', ')']
}

/// Decode rewriting bounded by `fuel` steps.
pub open spec fn md_rewrite_fuel(s: Seq<char>, fuel: nat) -> Seq<char>
    decreases fuel,
{
    if fuel == 0 {
        s
    } else {
        match md_step(s) {
            None => s,
            Some(t) => md_rewrite_fuel(t, (fuel - 1) as nat),
        }
    }
}

/// The line with every native inline pattern rewritten to tag form.
pub open spec fn md_rewritten(s: Seq<char>) -> Seq<char> {
    md_rewrite_fuel(s, count_marks(s, md_marks()))
}

/// Rewrites until no pattern matches, on the character level.
fn md_rewrite_chars(s: Vec<char>) -> (r: Vec<char>)
    ensures
        r@ == md_rewritten(s@),
{
    let marks: Vec<char> = vec!['_', '*', '~', '`', '[', ']', '(', ')'];
    assert(marks@ =~= md_marks());
    let mut buf = s;
    let mut fuel: usize = count_marks_exec(&buf, &marks);
    while fuel > 0
        invariant
            md_rewrite_fuel(buf@, fuel as nat) == md_rewritten(s@),
        decreases fuel,
    {
        match md_step_exec(&buf) {
            None => {
                assert(md_rewrite_fuel(buf@, fuel as nat) == buf@);
                fuel = 0;
            },
            Some(t) => {
                buf = t;
                fuel = fuel - 1;
            },
        }
    }
    buf
}

/// Rewrites one line's native inline markup to the neutral tag form.
pub fn replace_md_tags(line: &str) -> (r: String)
    ensures
        r@ == md_rewritten(line@),
{
    let s = str_to_chars(line);
    let out = md_rewrite_chars(s);
    chars_to_string(&out)
}

/// The characters a backslash escapes in this dialect.
pub open spec fn md_escapable(c: char) -> bool {
    c == '*' || c == '_' || c == '\\' || c == '`' || c == '#' || c == '+' || c == '-' || c == '.'
        || c == '!' || c == '{' || c == '}' || c == '[' || c == ']' || c == '(' || c == ')' || c
        == '<' || c == '>'
}

/// Exec check of [`md_escapable`].
fn md_escapable_exec(c: char) -> (b: bool)
    ensures
        b == md_escapable(c),
{
    c == '*' || c == '_' || c == '\\' || c == '`' || c == '#' || c == '+' || c == '-' || c == '.'
        || c == '!' || c == '{' || c == '}' || c == '[' || c == ']' || c == '(' || c == ')' || c
        == '<' || c == '>'
}

/// The unescaping pass this dialect's decode applies after tag rewriting:
/// `&lt;`, `&gt;` and `&amp;` become the bare character, a backslash before
/// an escapable character is dropped, any other backslash stays.
pub open spec fn md_unesc_from(s: Seq<char>, i: int) -> Seq<char>
    decreases s.len() - i
    when 0 <= i <= s.len()
{
    if i >= s.len() {
        Seq::empty()
    } else {
        let c = s[i];
        if c == '&' {
            if i + 4 <= s.len() && s.subrange(i + 1, i + 4) == seq!['l', 't', ';'] {
                seq!['<'] + md_unesc_from(s, i + 4)
            } else if i + 4 <= s.len() && s.subrange(i + 1, i + 4) == seq!['g', 't', ';'] {
                seq!['>'] + md_unesc_from(s, i + 4)
            } else if i + 5 <= s.len() && s.subrange(i + 1, i + 5) == seq!['a', 'm', 'p', ';'] {
                seq!['&'] + md_unesc_from(s, i + 5)
            } else {
                seq!['&'] + md_unesc_from(s, i + 1)
            }
        } else if c == '\\' {
            if i + 1 >= s.len() {
                seq!['\\']
            } else {
                let d = s[i + 1];
                if md_escapable(d) {
                    seq![d] + md_unesc_from(s, i + 2)
                } else {
                    seq!['\\', d] + md_unesc_from(s, i + 2)
                }
            }
        } else {
            seq![c] + md_unesc_from(s, i + 1)
        }
    }
}

/// The whole inline decode of one line: tag rewriting, then unescaping.
pub open spec fn md_inline(s: Seq<char>) -> Seq<char> {
    md_unesc_from(md_rewritten(s), 0)
}

/// Inline-decodes one line on the character level.
fn md_decode_chars(s0: Vec<char>) -> (r: Vec<char>)
    ensures
        r@ == md_inline(s0@),
{
    let ghost orig = s0@;
    let s = md_rewrite_chars(s0);
    let mut out: Vec<char> = Vec::new();
    let mut i: usize = 0;
    while i < s.len()
        invariant
            0 <= i <= s@.len(),
            md_unesc_from(s@, 0) == out@ + md_unesc_from(s@, i as int),
        decreases s@.len() - i,
    {
        let c = s[i];
        if c == '&' {
            if s.len() - i >= 4 && s[i + 1] == 'l' && s[i + 2] == 't' && s[i + 3] == ';' {
                assert(s@.subrange(i + 1, i + 4) =~= seq!['l', 't', ';']);
                out.push('<');
                i = i + 4;
            } else if s.len() - i >= 4 && s[i + 1] == 'g' && s[i + 2] == 't' && s[i + 3] == ';' {
                assert(s@.subrange(i + 1, i + 4) =~= seq!['g', 't', ';']);
                out.push('>');
                i = i + 4;
            } else if s.len() - i >= 5 && s[i + 1] == 'a' && s[i + 2] == 'm' && s[i + 3] == 'p'
                && s[i + 4] == ';' {
                assert(s@.subrange(i + 1, i + 5) =~= seq!['a', 'm', 'p', ';']);
                out.push('&');
                i = i + 5;
            } else {
                assert(i + 4 <= s@.len() ==> s@.subrange(i + 1, i + 4) != seq!['l', 't', ';'])
                    by {
                    if i + 4 <= s@.len() && s@.subrange(i + 1, i + 4) == seq!['l', 't', ';'] {
                        assert(s@.subrange(i + 1, i + 4)[0] == 'l');
                        assert(s@.subrange(i + 1, i + 4)[1] == 't');
                        assert(s@.subrange(i + 1, i + 4)[2] == ';');
                    }
                }
                assert(i + 4 <= s@.len() ==> s@.subrange(i + 1, i + 4) != seq!['g', 't', ';'])
                    by {
                    if i + 4 <= s@.len() && s@.subrange(i + 1, i + 4) == seq!['g', 't', ';'] {
                        assert(s@.subrange(i + 1, i + 4)[0] == 'g');
                        assert(s@.subrange(i + 1, i + 4)[1] == 't');
                        assert(s@.subrange(i + 1, i + 4)[2] == ';');
                    }
                }
                assert(i + 5 <= s@.len() ==> s@.subrange(i + 1, i + 5) != seq!['a', 'm', 'p', ';'])
                    by {
                    if i + 5 <= s@.len() && s@.subrange(i + 1, i + 5) == seq!['a', 'm', 'p', ';'] {
                        assert(s@.subrange(i + 1, i + 5)[0] == 'a');
                        assert(s@.subrange(i + 1, i + 5)[1] == 'm');
                        assert(s@.subrange(i + 1, i + 5)[2] == 'p');
                        assert(s@.subrange(i + 1, i + 5)[3] == ';');
                    }
                }
                out.push('&');
                i = i + 1;
            }
        } else if c == '\\' {
            if s.len() - i < 2 {
                out.push('\\');
                i = s.len();
            } else {
                let d = s[i + 1];
                if md_escapable_exec(d) {
                    out.push(d);
                } else {
                    out.push('\\');
                    out.push(d);
                }
                i = i + 2;
            }
        } else {
            out.push(c);
            i = i + 1;
        }
        assert(md_unesc_from(s@, 0) =~= out@ + md_unesc_from(s@, i as int));
    }
    out
}

/// Inline-decodes one source line: tag rewriting, then unescaping.
pub fn decode_from_md(line0: &str) -> (r: String)
    ensures
        r@ == md_inline(line0@),
{
    let s0 = str_to_chars(line0);
    let out = md_decode_chars(s0);
    chars_to_string(&out)
}

/// Native markup this dialect emits for one non-link tag.
pub open spec fn md_tag_out(c0: char, c1: char) -> Seq<char> {
    if c0 == 'B' || c0 == 'b' {
        if c1 == '1' {
            seq!['*']
        } else if c1 == '2' {
            seq!['*', '*']
        } else {
            seq!['*', '*', '*']
        }
    } else if c0 == 'D' || c0 == 'd' {
        seq!['~', '~']
    } else if c0 == 'C' || c0 == 'c' {
        seq!['`']
    } else {
        Seq::empty()
    }
}

/// The dialect-native text for the tagged line `s` from index `i` on.
/// Literal `<`, `>` and `*` are escaped with a backslash; a link tag reads
/// both payloads ahead and emits `[label](target)`; a truncated tag at the
/// end of the line is emitted literally.
pub open spec fn md_enc_from(s: Seq<char>, i: int) -> Seq<char>
    decreases s.len() - i
    when 0 <= i <= s.len()
{
    if i >= s.len() {
        Seq::empty()
    } else {
        let c = s[i];
        if c == '<' {
            seq!['\\', '<'] + md_enc_from(s, i + 1)
        } else if c == '>' {
            seq!['\\', '>'] + md_enc_from(s, i + 1)
        } else if c == '*' {
            seq!['\\', '*'] + md_enc_from(s, i + 1)
        } else if c == MARKER {
            if i + 3 > s.len() {
                s.subrange(i, s.len() as int)
            } else {
                let c0 = s[i + 1];
                let c1 = s[i + 2];
                if c0 == 'L' {
                    if c1 == '0' {
                        proof {
                            lemma_link_parts_next(s, i + 3);
                        }
                        let p = link_parts(s, i + 3);
                        seq!['['] + p.1 + seq![']', '('] + p.0 + seq![')'] + md_enc_from(s, p.2)
                    } else {
                        md_enc_from(s, i + 3)
                    }
                } else {
                    md_tag_out(c0, c1) + md_enc_from(s, i + 3)
                }
            }
        } else {
            seq![c] + md_enc_from(s, i + 1)
        }
    }
}

/// The list-nesting pop: drop recorded depths whose entry indent is greater
/// than the current one, landing on the deepest depth whose indent is `<=`
/// the current indent.
pub open spec fn pop_to(stack: Seq<u32>, indent: u32) -> Seq<u32>
    decreases stack.len(),
{
    if stack.len() > 1 && stack.last() > indent {
        pop_to(stack.drop_last(), indent)
    } else {
        stack
    }
}

/// The deepest depths are dropped until the top's recorded indent is `<=`
/// the current indent; depth 0 always stays.
pub proof fn lemma_pop_to(stack: Seq<u32>, indent: u32)
    requires
        stack.len() >= 1,
    ensures
        1 <= pop_to(stack, indent).len() <= stack.len(),
        pop_to(stack, indent) == stack.subrange(0, pop_to(stack, indent).len() as int),
        pop_to(stack, indent).len() > 1 ==> pop_to(stack, indent).last() <= indent,
        forall|d: int|
            pop_to(stack, indent).len() <= d < stack.len() ==> #[trigger] stack[d] > indent,
    decreases stack.len(),
{
    if stack.len() > 1 && stack.last() > indent {
        lemma_pop_to(stack.drop_last(), indent);
        assert(stack.drop_last() =~= stack.subrange(0, stack.len() - 1));
        assert(pop_to(stack, indent) =~= stack.subrange(0, pop_to(stack, indent).len() as int));
        assert forall|d: int|
            pop_to(stack, indent).len() <= d < stack.len() implies #[trigger] stack[d]
            > indent by {
            if d < stack.len() - 1 {
                assert(stack.drop_last()[d] > indent);
                assert(stack[d] == stack.drop_last()[d]);
            } else {
                assert(stack[d] == stack.last());
            }
        }
    } else {
        assert(pop_to(stack, indent) =~= stack.subrange(0, stack.len() as int));
    }
}

/// One step of the list-nesting tracker: the previous indent, the stack of
/// indents at which each depth was entered, and the current line's indent
/// give the new tracker state and the line's depth.  Indent 0 resets the
/// tracker; a greater indent than before pushes one depth; a smaller one
/// pops to the deepest recorded depth whose indent is `<=` the current one;
/// an equal one keeps the depth.  (The push is skipped at the top of the
/// `u32` range, which a real document cannot reach.)
pub open spec fn nest_step(prev: u32, stack: Seq<u32>, indent: u32) -> (u32, Seq<u32>, u32) {
    if indent == 0 {
        (0u32, seq![0u32], 0u32)
    } else if indent > prev {
        if stack.len() <= u32::MAX {
            (indent, stack.push(indent), stack.len() as u32)
        } else {
            (indent, stack, (stack.len() - 1) as u32)
        }
    } else if indent < prev {
        let stack2 = pop_to(stack, indent);
        (indent, stack2, (stack2.len() - 1) as u32)
    } else {
        (prev, stack, (stack.len() - 1) as u32)
    }
}

/// The block-decoder state carried across lines.
#[verifier::ext_equal]
pub struct MdState {
    /// The previous list item's indent.
    pub prev_indent: u32,
    /// The indent at which each list depth was entered; entry `0` is the
    /// top level.
    pub stack: Seq<u32>,
    /// Whether a code block is open.
    pub pre_block: bool,
    /// The open code block's language tag.
    pub pre_code: Seq<char>,
    /// The open code block's accumulated body.
    pub pre_data: Seq<char>,
    /// Whether a table block is open.
    pub table_block: bool,
    /// The open table's accumulated rows.
    pub rows: Seq<Seq<AttrSpec>>,
}

/// The state any run of this decoder keeps well-formed: the depth stack is
/// never empty, fits the depth counter, and records the top level at
/// indent 0.
pub open spec fn md_ctx_wf(st: MdState) -> bool {
    &&& 1 <= st.stack.len() <= u32::MAX + 1
    &&& st.stack[0] == 0
}

/// The state a decode run starts from.
pub open spec fn md_init_state() -> MdState {
    MdState {
        prev_indent: 0,
        stack: seq![0u32],
        pre_block: false,
        pre_code: Seq::empty(),
        pre_data: Seq::empty(),
        table_block: false,
        rows: Seq::empty(),
    }
}

/// Whether the line is a horizontal rule: nothing but dashes and whitespace,
/// at least three dashes, opening and closing with a dash.
pub open spec fn md_is_hr(s: Seq<char>) -> bool {
    &&& s.len() >= 1
    &&& s[0] == '-'
    &&& s[s.len() - 1] == '-'
    &&& forall|k: int| 0 <= k < s.len() ==> s[k] == '-' || is_ws(s[k])
    &&& count_marks(s, seq!['-']) >= 3
}

/// A heading line `#... title`: the run of hashes gives the level, the text
/// after the following whitespace is the raw title.
pub open spec fn md_heading(s: Seq<char>) -> Option<(u32, Seq<char>)> {
    let h = skip_run(s, '#', 0);
    let w = skip_ws(s, h);
    if 1 <= h && h <= u32::MAX && w > h {
        Some((h as u32, s.subrange(w, s.len() as int)))
    } else {
        None
    }
}

/// An unordered list line `  - text`: leading whitespace, one bullet
/// character, whitespace, raw text.
pub open spec fn md_list_ul(s: Seq<char>) -> Option<(u32, Seq<char>)> {
    let ind = skip_ws(s, 0);
    if ind < s.len() && ind <= u32::MAX && (s[ind] == '-' || s[ind] == '+' || s[ind] == '*') {
        let w = skip_ws(s, ind + 1);
        if w > ind + 1 {
            Some((ind as u32, s.subrange(w, s.len() as int)))
        } else {
            None
        }
    } else {
        None
    }
}

/// An ordered list line `  1. text`: leading whitespace, digits, a dot,
/// whitespace, raw text.
pub open spec fn md_list_ol(s: Seq<char>) -> Option<(u32, Seq<char>)> {
    let ind = skip_ws(s, 0);
    let d = skip_digits(s, ind);
    if d > ind && ind <= u32::MAX && d < s.len() && s[d] == '.' {
        let w = skip_ws(s, d + 1);
        if w > d + 1 {
            Some((ind as u32, s.subrange(w, s.len() as int)))
        } else {
            None
        }
    } else {
        None
    }
}

/// A code fence line: three backticks, then the language tag.
pub open spec fn md_fence(s: Seq<char>) -> Option<Seq<char>> {
    if s.len() >= 3 && s.subrange(0, 3) == seq!['`', '`', '`'] {
        Some(s.subrange(3, s.len() as int))
    } else {
        None
    }
}

/// A table row `| ... |` with only whitespace after the closing pipe: the
/// text between the outer pipes.
pub open spec fn md_table_row(s: Seq<char>) -> Option<Seq<char>> {
    let t = ws_end(s, s.len() as int);
    if t >= 2 && s[0] == '|' && s[t - 1] == '|' {
        Some(s.subrange(1, t - 1))
    } else {
        None
    }
}

/// Whether a cell is an alignment marker: dashes and colons only, at least
/// one, with optional whitespace around.
pub open spec fn md_is_align_cell(c: Seq<char>) -> bool {
    let t = trim_seq(c);
    t.len() >= 1 && forall|k: int| 0 <= k < t.len() ==> t[k] == '-' || t[k] == ':'
}

/// The alignment an alignment-marker cell encodes: a leading colon means
/// left, a trailing one right, both center.
pub open spec fn md_align_of(c: Seq<char>) -> ETableAlign {
    let t = trim_seq(c);
    if t.len() >= 1 && t[0] == ':' {
        if t[t.len() - 1] == ':' && t.len() >= 1 {
            ETableAlign::CENTER
        } else {
            ETableAlign::LEFT
        }
    } else if t.len() >= 1 && t[t.len() - 1] == ':' {
        ETableAlign::RIGHT
    } else {
        ETableAlign::DEFAULT
    }
}

/// One accumulated table line: an alignment row assigns alignments to the
/// first row's cells and marks them as headers (it is ignored when no row
/// came before); any other row is appended, each cell trimmed,
/// inline-decoded, and given the first row's alignment where one exists.
pub open spec fn md_table_add(rows: Seq<Seq<AttrSpec>>, inner: Seq<char>) -> Seq<
    Seq<AttrSpec>,
> {
    let cells = split_on(inner, seq!['|']);
    if cells.len() > 0 && md_is_align_cell(cells[0]) {
        if rows.len() > 0 {
            let row0 = Seq::new(
                rows[0].len(),
                |i: int|
                    AttrSpec {
                        text: rows[0][i].text,
                        align: if i < cells.len() {
                            md_align_of(cells[i])
                        } else {
                            rows[0][i].align
                        },
                        header: true,
                    },
            );
            rows.update(0, row0)
        } else {
            rows
        }
    } else {
        let row = Seq::new(
            cells.len(),
            |i: int|
                AttrSpec {
                    text: md_inline(trim_seq(cells[i])),
                    align: if rows.len() > 0 && i < rows[0].len() {
                        rows[0][i].align
                    } else {
                        ETableAlign::DEFAULT
                    },
                    header: false,
                },
        );
        rows.push(row)
    }
}

/// What one line yields when no block is open: the first matcher that
/// accepts the line, in priority order (rule, heading, list item, code
/// fence opener, table opener), produces its element; block openers yield
/// an empty element and flip the block state; any other line becomes
/// inline-decoded text.
pub open spec fn md_match_line(st: MdState, line: Seq<char>) -> (MdState, Seq<ElemSpec>) {
    if md_is_hr(line) {
        (st, seq![ElemSpec::Rule])
    } else {
        match md_heading(line) {
            Some(ht) => (
                st,
                seq![
                    ElemSpec::Heading {
                        etype: ElementType::HTAG,
                        title: md_inline(ht.1),
                        level: ht.0,
                    },
                ],
            ),
            None => match md_list_ul(line) {
                Some(ul) => {
                    let r = nest_step(st.prev_indent, st.stack, ul.0);
                    (
                        MdState { prev_indent: r.0, stack: r.1, ..st },
                        seq![
                            ElemSpec::ListItem {
                                etype: ElementType::ULTAG,
                                text: md_inline(ul.1),
                                indent: ul.0,
                                nest: r.2,
                            },
                        ],
                    )
                },
                None => match md_list_ol(line) {
                    Some(ol) => {
                        let r = nest_step(st.prev_indent, st.stack, ol.0);
                        (
                            MdState { prev_indent: r.0, stack: r.1, ..st },
                            seq![
                                ElemSpec::ListItem {
                                    etype: ElementType::OLTAG,
                                    text: md_inline(ol.1),
                                    indent: ol.0,
                                    nest: r.2,
                                },
                            ],
                        )
                    },
                    None => match md_fence(line) {
                        Some(code) => (
                            MdState {
                                pre_block: true,
                                pre_code: code,
                                pre_data: Seq::empty(),
                                ..st
                            },
                            seq![ElemSpec::Empty],
                        ),
                        None => match md_table_row(line) {
                            Some(inner) => (
                                MdState {
                                    table_block: true,
                                    rows: md_table_add(Seq::empty(), inner),
                                    ..st
                                },
                                seq![ElemSpec::Empty],
                            ),
                            None => (st, seq![ElemSpec::Data { text: md_inline(line) }]),
                        },
                    },
                },
            },
        }
    }
}

/// What one line yields: an open code block swallows lines until its
/// closing fence; an open table block accumulates rows until a non-row
/// line, which flushes the table and is then matched as usual.
pub open spec fn md_line_step(st: MdState, line: Seq<char>) -> (MdState, Seq<ElemSpec>) {
    if st.pre_block {
        if md_fence(line) is Some {
            (
                MdState { pre_block: false, ..st },
                seq![
                    ElemSpec::Pre {
                        etype: ElementType::PRETAG,
                        text: st.pre_data,
                        code: st.pre_code,
                    },
                ],
            )
        } else {
            (MdState { pre_data: st.pre_data + line + seq!['\n'], ..st }, Seq::empty())
        }
    } else if st.table_block {
        match md_table_row(line) {
            Some(inner) => (MdState { rows: md_table_add(st.rows, inner), ..st }, Seq::empty()),
            None => {
                let flushed = ElemSpec::Table { etype: ElementType::TABLE, rows: st.rows };
                let (st2, es) = md_match_line(MdState { table_block: false, ..st }, line);
                (st2, seq![flushed] + es)
            },
        }
    } else {
        md_match_line(st, line)
    }
}

/// The elements the lines from index `i` on contribute, starting from state
/// `st`; a code or table block still open at the end of input is flushed.
pub open spec fn md_load_from(lines: Seq<Seq<char>>, st: MdState, i: int) -> Seq<ElemSpec>
    decreases lines.len() - i
    when 0 <= i <= lines.len()
{
    if i == lines.len() {
        if st.pre_block {
            seq![ElemSpec::Pre { etype: ElementType::PRETAG, text: st.pre_data, code: st.pre_code }]
        } else if st.table_block {
            seq![ElemSpec::Table { etype: ElementType::TABLE, rows: st.rows }]
        } else {
            Seq::empty()
        }
    } else {
        let r = md_line_step(st, lines[i]);
        r.1 + md_load_from(lines, r.0, i + 1)
    }
}

/// The document this dialect's decoder builds from the given lines.
pub open spec fn md_elems(lines: Seq<Seq<char>>) -> Seq<ElemSpec> {
    md_load_from(lines, md_init_state(), 0)
}

/// Exec check of [`md_is_hr`].
fn md_is_hr_exec(line: &Vec<char>) -> (b: bool)
    ensures
        b == md_is_hr(line@),
{
    let n = line.len();
    if n == 0 || line[0] != '-' || line[n - 1] != '-' {
        return false;
    }
    let mut dashes: usize = 0;
    let mut i: usize = 0;
    while i < n
        invariant
            0 <= i <= n,
            n == line@.len(),
            dashes <= i,
            dashes as nat == count_marks(line@.subrange(0, i as int), seq!['-']),
            forall|k: int| 0 <= k < i ==> line@[k] == '-' || is_ws(line@[k]),
        decreases n - i,
    {
        let c = line[i];
        if c == '-' {
            dashes = dashes + 1;
        } else if !(c == ' ' || c == '\t') {
            assert(!(line@[i as int] == '-' || is_ws(line@[i as int])));
            return false;
        }
        i = i + 1;
        assert(line@.subrange(0, i as int).drop_last() =~= line@.subrange(0, i - 1));
        assert(line@.subrange(0, i as int).last() == line@[i - 1]);
        assert(seq!['-'].contains(line@[i - 1]) == (line@[i - 1] == '-')) by {
            assert(seq!['-'][0] == '-');
            if line@[i - 1] == '-' {
                assert(seq!['-'][0] == line@[i - 1]);
            }
        }
    }
    assert(line@.subrange(0, n as int) =~= line@);
    dashes >= 3
}

/// Exec match of [`md_heading`].
fn try_md_heading(line: &Vec<char>) -> (r: Option<(u32, Vec<char>)>)
    ensures
        match r {
            Some(p) => md_heading(line@) == Some((p.0, p.1@)),
            None => md_heading(line@) is None,
        },
{
    let h = skip_run_exec(line, '#', 0);
    let w = skip_ws_exec(line, h);
    if 1 <= h && h <= u32::MAX as usize && w > h {
        let mut t: Vec<char> = Vec::new();
        push_range(&mut t, line, w, line.len());
        assert(t@ =~= line@.subrange(w as int, line@.len() as int));
        Some((h as u32, t))
    } else {
        None
    }
}

/// Exec match of [`md_list_ul`].
fn try_md_ul(line: &Vec<char>) -> (r: Option<(u32, Vec<char>)>)
    ensures
        match r {
            Some(p) => md_list_ul(line@) == Some((p.0, p.1@)),
            None => md_list_ul(line@) is None,
        },
{
    let ind = skip_ws_exec(line, 0);
    if ind < line.len() && ind <= u32::MAX as usize && (line[ind] == '-' || line[ind] == '+'
        || line[ind] == '*') {
        let w = skip_ws_exec(line, ind + 1);
        if w > ind + 1 {
            let mut t: Vec<char> = Vec::new();
            push_range(&mut t, line, w, line.len());
            assert(t@ =~= line@.subrange(w as int, line@.len() as int));
            return Some((ind as u32, t));
        }
        return None;
    }
    None
}

/// Exec match of [`md_list_ol`].
fn try_md_ol(line: &Vec<char>) -> (r: Option<(u32, Vec<char>)>)
    ensures
        match r {
            Some(p) => md_list_ol(line@) == Some((p.0, p.1@)),
            None => md_list_ol(line@) is None,
        },
{
    let ind = skip_ws_exec(line, 0);
    let d = skip_digits_exec(line, ind);
    if d > ind && ind <= u32::MAX as usize && d < line.len() && line[d] == '.' {
        let w = skip_ws_exec(line, d + 1);
        if w > d + 1 {
            let mut t: Vec<char> = Vec::new();
            push_range(&mut t, line, w, line.len());
            assert(t@ =~= line@.subrange(w as int, line@.len() as int));
            return Some((ind as u32, t));
        }
        return None;
    }
    None
}

/// Exec match of [`md_fence`].
fn try_md_fence(line: &Vec<char>) -> (r: Option<Vec<char>>)
    ensures
        match r {
            Some(code) => md_fence(line@) == Some(code@),
            None => md_fence(line@) is None,
        },
{
    if line.len() >= 3 && line[0] == '`' && line[1] == '`' && line[2] == '`' {
        assert(line@.subrange(0, 3) =~= seq!['`', '`', '`']);
        let mut code: Vec<char> = Vec::new();
        push_range(&mut code, line, 3, line.len());
        assert(code@ =~= line@.subrange(3, line@.len() as int));
        Some(code)
    } else {
        assert(line@.len() >= 3 ==> line@.subrange(0, 3) != seq!['`', '`', '`']) by {
            if line@.len() >= 3 && line@.subrange(0, 3) == seq!['`', '`', '`'] {
                assert(line@.subrange(0, 3)[0] == '`');
                assert(line@.subrange(0, 3)[1] == '`');
                assert(line@.subrange(0, 3)[2] == '`');
            }
        }
        None
    }
}

/// Exec match of [`md_table_row`]: on success, the index just past the
/// closing pipe.
fn try_md_table_row(line: &Vec<char>) -> (r: Option<usize>)
    ensures
        match r {
            Some(t) => 2 <= t <= line@.len() && md_table_row(line@) == Some(
                line@.subrange(1, t - 1),
            ),
            None => md_table_row(line@) is None,
        },
{
    let t = ws_end_exec(line, line.len());
    if t >= 2 && line[0] == '|' && line[t - 1] == '|' {
        Some(t)
    } else {
        None
    }
}

/// Exec check of [`md_is_align_cell`].
fn md_is_align_cell_exec(cell: &Vec<char>) -> (b: bool)
    ensures
        b == md_is_align_cell(cell@),
{
    let t = trim_vec(cell, 0, cell.len());
    assert(cell@.subrange(0, cell@.len() as int) =~= cell@);
    if t.len() == 0 {
        return false;
    }
    let mut i: usize = 0;
    while i < t.len()
        invariant
            0 <= i <= t@.len(),
            t@ == trim_seq(cell@),
            forall|k: int| 0 <= k < i ==> t@[k] == '-' || t@[k] == ':',
        decreases t@.len() - i,
    {
        if !(t[i] == '-' || t[i] == ':') {
            return false;
        }
        i = i + 1;
    }
    true
}

/// Exec computation of [`md_align_of`].
fn md_align_of_exec(cell: &Vec<char>) -> (a: ETableAlign)
    ensures
        a == md_align_of(cell@),
{
    let t = trim_vec(cell, 0, cell.len());
    assert(cell@.subrange(0, cell@.len() as int) =~= cell@);
    if t.len() >= 1 && t[0] == ':' {
        if t[t.len() - 1] == ':' {
            ETableAlign::CENTER
        } else {
            ETableAlign::LEFT
        }
    } else if t.len() >= 1 && t[t.len() - 1] == ':' {
        ETableAlign::RIGHT
    } else {
        ETableAlign::DEFAULT
    }
}

/// The per-decode state: the list-nesting tracker and the open code or
/// table block.
pub struct GenerateorContext {
    /// The previous list item's indent.
    pub list_prev_indent: u32,
    /// The indent at which each list depth was entered.
    pub list_indent: Vec<u32>,
    /// Whether a code block is open.
    pub pre_block: bool,
    /// The open code block's language tag.
    pub pre_code: Vec<char>,
    /// The open code block's accumulated body.
    pub pre_data: Vec<char>,
    /// Whether a table block is open.
    pub table_block: bool,
    /// The open table's accumulated rows.
    pub table_column: Vec<TableColumn>,
}

impl View for GenerateorContext {
    type V = MdState;

    open spec fn view(&self) -> MdState {
        MdState {
            prev_indent: self.list_prev_indent,
            stack: self.list_indent@,
            pre_block: self.pre_block,
            pre_code: self.pre_code@,
            pre_data: self.pre_data@,
            table_block: self.table_block,
            rows: self.table_column@.map_values(|c: TableColumn| c@),
        }
    }
}

impl GenerateorContext {
    /// The state a decode run starts from.
    pub fn new() -> (c: Self)
        ensures
            c@ == md_init_state(),
            md_ctx_wf(c@),
    {
        let mut list_indent: Vec<u32> = Vec::new();
        list_indent.push(0);
        let c = GenerateorContext {
            list_prev_indent: 0,
            list_indent,
            pre_block: false,
            pre_code: Vec::new(),
            pre_data: Vec::new(),
            table_block: false,
            table_column: Vec::new(),
        };
        assert(c@.stack =~= seq![0u32]);
        assert(c@.rows =~= Seq::<Seq<AttrSpec>>::empty());
        assert(c@ =~= md_init_state());
        c
    }

    /// Whether a code block is open.
    pub fn is_pre_block(&self) -> (b: bool)
        ensures
            b == self@.pre_block,
    {
        self.pre_block
    }

    /// Whether a table block is open.
    pub fn is_table_block(&self) -> (b: bool)
        ensures
            b == self@.table_block,
    {
        self.table_block
    }

    /// Maps a list item's source indent to its normalized depth, as
    /// [`nest_step`] says: a deeper indent pushes one depth, a shallower one
    /// pops to the deepest recorded depth whose indent is not greater.
    pub fn indent_to_nest(&mut self, indent: u32) -> (nest: u32)
        requires
            md_ctx_wf(old(self)@),
        ensures
            md_ctx_wf(final(self)@),
            ({
                let r = nest_step(old(self)@.prev_indent, old(self)@.stack, indent);
                &&& final(self)@ == MdState { prev_indent: r.0, stack: r.1, ..old(self)@ }
                &&& nest == r.2
            }),
    {
        if indent == 0 {
            while self.list_indent.len() > 1
                invariant
                    1 <= self.list_indent@.len(),
                    self.list_indent@[0] == 0,
                    self@ == (MdState {
                        prev_indent: self@.prev_indent,
                        stack: self@.stack,
                        ..old(self)@
                    }),
                    self@.prev_indent == old(self)@.prev_indent,
                decreases self.list_indent@.len(),
            {
                self.list_indent.pop();
            }
            self.list_prev_indent = 0;
            assert(self.list_indent@ =~= seq![0u32]);
            0
        } else if indent > self.list_prev_indent {
            if self.list_indent.len() <= u32::MAX as usize {
                let nest = self.list_indent.len() as u32;
                self.list_indent.push(indent);
                self.list_prev_indent = indent;
                nest
            } else {
                self.list_prev_indent = indent;
                (self.list_indent.len() - 1) as u32
            }
        } else if indent < self.list_prev_indent {
            while self.list_indent.len() > 1 && self.list_indent[self.list_indent.len() - 1]
                > indent
                invariant
                    1 <= self.list_indent@.len() <= old(self).list_indent@.len(),
                    self.list_indent@[0] == 0,
                    pop_to(old(self)@.stack, indent) == pop_to(self.list_indent@, indent),
                    self@ == (MdState {
                        prev_indent: self@.prev_indent,
                        stack: self@.stack,
                        ..old(self)@
                    }),
                    self@.prev_indent == old(self)@.prev_indent,
                decreases self.list_indent@.len(),
            {
                self.list_indent.pop();
                assert(pop_to(old(self)@.stack, indent) == pop_to(self.list_indent@, indent));
            }
            self.list_prev_indent = indent;
            assert(pop_to(self.list_indent@, indent) == self.list_indent@);
            (self.list_indent.len() - 1) as u32
        } else {
            (self.list_indent.len() - 1) as u32
        }
    }

    /// One line while a code block is open: the closing fence emits the
    /// block; any other line is appended verbatim to the body.
    pub fn add_pre_block(&mut self, line: &Vec<char>) -> (r: Option<Element>)
        ensures
            match md_fence(line@) {
                Some(code) => (r matches Some(e) && e@ == ElemSpec::Pre {
                    etype: ElementType::PRETAG,
                    text: old(self)@.pre_data,
                    code: old(self)@.pre_code,
                }) && final(self)@ == MdState { pre_block: false, ..old(self)@ },
                None => r is None && final(self)@ == MdState {
                    pre_data: old(self)@.pre_data + line@ + seq!['\n'],
                    ..old(self)@
                },
            },
    {
        if line.len() >= 3 && line[0] == '`' && line[1] == '`' && line[2] == '`' {
            assert(line@.subrange(0, 3) =~= seq!['`', '`', '`']);
            self.pre_block = false;
            let e = Element::Pre(
                PRETagElement {
                    etype: ElementType::PRETAG,
                    text: chars_to_string(&self.pre_data),
                    code: chars_to_string(&self.pre_code),
                },
            );
            Some(e)
        } else {
            assert(line@.len() >= 3 ==> line@.subrange(0, 3) != seq!['`', '`', '`']) by {
                if line@.len() >= 3 && line@.subrange(0, 3) == seq!['`', '`', '`'] {
                    assert(line@.subrange(0, 3)[0] == '`');
                    assert(line@.subrange(0, 3)[1] == '`');
                    assert(line@.subrange(0, 3)[2] == '`');
                }
            }
            push_all(&mut self.pre_data, line);
            self.pre_data.push('\n');
            None
        }
    }

    /// One line while a table block is open: a row line extends the
    /// accumulated rows as [`md_table_add`] says; the first non-row line
    /// freezes them into one table element.
    pub fn add_table_block(&mut self, line: &Vec<char>) -> (r: Option<Element>)
        ensures
            match md_table_row(line@) {
                Some(inner) => r is None && final(self)@ == MdState {
                    rows: md_table_add(old(self)@.rows, inner),
                    ..old(self)@
                },
                None => (r matches Some(e) && e@ == ElemSpec::Table {
                    etype: ElementType::TABLE,
                    rows: old(self)@.rows,
                }) && final(self)@ == MdState { table_block: false, ..old(self)@ },
            },
    {
        let ghost rows0 = self@.rows;
        match try_md_table_row(line) {
            Some(t) => {
                let ghost inner = line@.subrange(1, t - 1);
                let bar: Vec<char> = vec!['|'];
                assert(bar@ =~= seq!['|']);
                let cells = split_vec(line, 1, t - 1, &bar);
                let ghost cellseq = split_on(inner, seq!['|']);
                assert(cells@.map_values(|v: Vec<char>| v@) == cellseq);
                assert(cells@.len() == cellseq.len());
                if cells.len() > 0 && md_is_align_cell_exec(&cells[0]) {
                    assert(cells@[0]@ == cellseq[0]);
                    if self.table_column.len() > 0 {
                        let mut row0 = TableColumn { data: Vec::new() };
                        let old0 = &self.table_column[0];
                        let mut i: usize = 0;
                        while i < old0.data.len()
                            invariant
                                0 <= i <= old0.data@.len(),
                                old0 == &old(self).table_column@[0],
                                cells@.map_values(|v: Vec<char>| v@) == cellseq,
                                cells@.len() == cellseq.len(),
                                row0.data@.len() == i,
                                forall|k: int|
                                    0 <= k < i ==> row0.data@[k]@ == (AttrSpec {
                                        text: old0.data@[k]@.text,
                                        align: if k < cellseq.len() {
                                            md_align_of(cellseq[k])
                                        } else {
                                            old0.data@[k]@.align
                                        },
                                        header: true,
                                    }),
                            decreases old0.data@.len() - i,
                        {
                            let align: ETableAlign = if i < cells.len() {
                                let a = md_align_of_exec(&cells[i]);
                                assert(cells@[i as int]@ == cellseq[i as int]);
                                a
                            } else {
                                old0.data[i].align
                            };
                            row0.data.push(
                                TableAttr {
                                    text: old0.data[i].text.clone(),
                                    align,
                                    header: true,
                                },
                            );
                            i = i + 1;
                        }
                        let ghost row0v = row0@;
                        proof {
                            let spec0 = Seq::new(
                                rows0[0].len(),
                                |i: int|
                                    AttrSpec {
                                        text: rows0[0][i].text,
                                        align: if i < cellseq.len() {
                                            md_align_of(cellseq[i])
                                        } else {
                                            rows0[0][i].align
                                        },
                                        header: true,
                                    },
                            );
                            assert(rows0[0] == old(self).table_column@[0]@);
                            assert forall|k: int| 0 <= k < rows0[0].len() implies row0v[k]
                                == spec0[k] by {
                                assert(row0v[k] == row0.data@[k]@);
                                assert(rows0[0][k] == old(self).table_column@[0].data@[k]@);
                            }
                            assert(row0v =~= spec0);
                        }
                        let mut newcols: Vec<TableColumn> = Vec::new();
                        newcols.push(row0);
                        let mut rix: usize = 1;
                        while rix < self.table_column.len()
                            invariant
                                1 <= rix <= self.table_column@.len(),
                                self.table_column@ == old(self).table_column@,
                                newcols@.len() == rix,
                                newcols@[0]@ == row0v,
                                forall|k: int|
                                    1 <= k < rix ==> newcols@[k]@ == self.table_column@[k]@,
                            decreases self.table_column@.len() - rix,
                        {
                            let copy = clone_column(&self.table_column[rix]);
                            newcols.push(copy);
                            rix = rix + 1;
                        }
                        let ghost newcolsv = newcols@;
                        self.table_column = newcols;
                        proof {
                            let newrows = self@.rows;
                            let spec0 = Seq::new(
                                rows0[0].len(),
                                |i: int|
                                    AttrSpec {
                                        text: rows0[0][i].text,
                                        align: if i < cellseq.len() {
                                            md_align_of(cellseq[i])
                                        } else {
                                            rows0[0][i].align
                                        },
                                        header: true,
                                    },
                            );
                            assert(newrows.len() == rows0.len());
                            assert(newrows[0] == newcolsv[0]@);
                            assert forall|k: int| 1 <= k < rows0.len() implies newrows[k]
                                == rows0[k] by {
                                assert(newrows[k] == newcolsv[k]@);
                                assert(rows0[k] == old(self).table_column@[k]@);
                            }
                            assert(newrows =~= rows0.update(0, row0v));
                            assert(md_table_add(rows0, inner) =~~= rows0.update(0, row0v));
                            assert(final(self)@ =~~= MdState {
                                rows: md_table_add(rows0, inner),
                                ..old(self)@
                            });
                        }
                    } else {
                        assert(self@.rows =~= md_table_add(rows0, inner));
                    }
                    None
                } else {
                    let ghost specrow = Seq::new(
                        cellseq.len(),
                        |i: int|
                            AttrSpec {
                                text: md_inline(trim_seq(cellseq[i])),
                                align: if rows0.len() > 0 && i < rows0[0].len() {
                                    rows0[0][i].align
                                } else {
                                    ETableAlign::DEFAULT
                                },
                                header: false,
                            },
                    );
                    let mut column = TableColumn::new();
                    let mut i: usize = 0;
                    while i < cells.len()
                        invariant
                            0 <= i <= cells@.len(),
                            cells@.map_values(|v: Vec<char>| v@) == cellseq,
                            cells@.len() == cellseq.len(),
                            self.table_column@ == old(self).table_column@,
                            self@.rows == rows0,
                            specrow == Seq::new(
                                cellseq.len(),
                                |i: int|
                                    AttrSpec {
                                        text: md_inline(trim_seq(cellseq[i])),
                                        align: if rows0.len() > 0 && i < rows0[0].len() {
                                            rows0[0][i].align
                                        } else {
                                            ETableAlign::DEFAULT
                                        },
                                        header: false,
                                    },
                            ),
                            column@.len() == i,
                            forall|k: int| 0 <= k < i ==> column@[k] == specrow[k],
                        decreases cells@.len() - i,
                    {
                        let cell = &cells[i];
                        assert(cell@ == cellseq[i as int]);
                        let trimmed = trim_vec(cell, 0, cell.len());
                        assert(cell@.subrange(0, cell@.len() as int) =~= cell@);
                        let decoded = md_decode_chars(trimmed);
                        let align: ETableAlign = if self.table_column.len() > 0 && i
                            < self.table_column[0].data.len() {
                            assert(rows0[0] == self.table_column@[0]@);
                            self.table_column[0].data[i].align
                        } else {
                            ETableAlign::DEFAULT
                        };
                        column.add(
                            TableAttr { text: chars_to_string(&decoded), align, header: false },
                        );
                        i = i + 1;
                    }
                    assert(column@ =~= specrow);
                    let ghost colview = column@;
                    self.table_column.push(column);
                    proof {
                        assert(self@.rows =~= rows0.push(colview));
                        assert(colview =~= md_table_add(rows0, inner).last());
                        assert(final(self)@ =~~= MdState {
                            rows: md_table_add(rows0, inner),
                            ..old(self)@
                        });
                    }
                    None
                }
            },
            None => {
                self.table_block = false;
                let mut data: Vec<TableColumn> = Vec::new();
                let mut rix: usize = 0;
                while rix < self.table_column.len()
                    invariant
                        0 <= rix <= self.table_column@.len(),
                        self.table_column@ == old(self).table_column@,
                        data@.len() == rix,
                        forall|k: int| 0 <= k < rix ==> data@[k]@ == self.table_column@[k]@,
                    decreases self.table_column@.len() - rix,
                {
                    let copy = clone_column(&self.table_column[rix]);
                    data.push(copy);
                    rix = rix + 1;
                }
                let e = Element::Table(TABLEElement { etype: ElementType::TABLE, data });
                proof {
                    let ghost erows = data@.map_values(|c: TableColumn| c@);
                    assert(erows =~= rows0);
                    assert(e@ =~~= (ElemSpec::Table { etype: ElementType::TABLE, rows: rows0 }));
                }
                Some(e)
            },
        }
    }
}

/// Matches one free line against the registered matchers in priority order
/// and yields its element; openers flip the context's block state.
fn md_match_line_exec(ctx: &mut GenerateorContext, line: &Vec<char>) -> (r: Element)
    requires
        md_ctx_wf(old(ctx)@),
    ensures
        md_ctx_wf(final(ctx)@),
        ({
            let m = md_match_line(old(ctx)@, line@);
            final(ctx)@ == m.0 && m.1 == seq![r@]
        }),
{
    if md_is_hr_exec(line) {
        return Element::Rule(HRTagElement {});
    }
    if let Some((level, title)) = try_md_heading(line) {
        let decoded = md_decode_chars(title);
        return Element::Heading(
            HTagElement {
                etype: ElementType::HTAG,
                title: chars_to_string(&decoded),
                level,
            },
        );
    }
    if let Some((indent, raw)) = try_md_ul(line) {
        let nest = ctx.indent_to_nest(indent);
        let decoded = md_decode_chars(raw);
        return Element::ListItem(
            LITagElement {
                etype: ElementType::ULTAG,
                text: chars_to_string(&decoded),
                indent,
                nest,
            },
        );
    }
    if let Some((indent, raw)) = try_md_ol(line) {
        let nest = ctx.indent_to_nest(indent);
        let decoded = md_decode_chars(raw);
        return Element::ListItem(
            LITagElement {
                etype: ElementType::OLTAG,
                text: chars_to_string(&decoded),
                indent,
                nest,
            },
        );
    }
    if let Some(code) = try_md_fence(line) {
        ctx.pre_block = true;
        ctx.pre_code = code;
        ctx.pre_data = Vec::new();
        return Element::Empty(NONEElement {});
    }
    if let Some(t) = try_md_table_row(line) {
        ctx.table_block = true;
        ctx.table_column = Vec::new();
        assert(ctx@.rows =~= Seq::<Seq<AttrSpec>>::empty());
        let r = ctx.add_table_block(line);
        assert(r is None);
        return Element::Empty(NONEElement {});
    }
    let decoded = md_decode_chars(clone_chars(line));
    Element::Data(DataElement { text: chars_to_string(&decoded) })
}

/// Feeds one source line to the decoder state, appending whatever elements
/// it yields.
fn md_line_step_exec(ctx: &mut GenerateorContext, page: &mut Document, line: &Vec<char>)
    requires
        md_ctx_wf(old(ctx)@),
    ensures
        md_ctx_wf(final(ctx)@),
        ({
            let m = md_line_step(old(ctx)@, line@);
            final(ctx)@ == m.0 && final(page)@ == old(page)@ + m.1
        }),
{
    if ctx.is_pre_block() {
        match ctx.add_pre_block(line) {
            Some(e) => {
                let ghost ev = e@;
                page.push(e);
                assert(page@ =~= old(page)@ + seq![ev]);
            },
            None => {
                assert(page@ =~= old(page)@ + Seq::<ElemSpec>::empty());
            },
        }
    } else if ctx.is_table_block() {
        match ctx.add_table_block(line) {
            None => {
                assert(page@ =~= old(page)@ + Seq::<ElemSpec>::empty());
            },
            Some(e) => {
                let ghost ev = e@;
                page.push(e);
                let e2 = md_match_line_exec(ctx, line);
                let ghost ev2 = e2@;
                page.push(e2);
                assert(page@ =~= old(page)@ + (seq![ev] + seq![ev2]));
            },
        }
    } else {
        let e = md_match_line_exec(ctx, line);
        let ghost ev = e@;
        page.push(e);
        assert(page@ =~= old(page)@ + seq![ev]);
    }
}

/// The block decoder for this dialect: a fixed table of line matchers in
/// priority order.
pub struct Decoder {}

impl Decoder {
    /// A decoder instance.
    pub fn new() -> (d: Self) {
        Decoder {}
    }

    /// Decodes the source lines into a document, as [`md_elems`] says: a
    /// line-driven state machine over the matchers, with a code or table
    /// block still open at the end flushed.
    pub fn load(&self, lines: &Vec<String>) -> (d: Document)
        ensures
            d@ == md_elems(lines@.map_values(|l: String| l@)),
    {
        let ghost ls = lines@.map_values(|l: String| l@);
        let mut page = Document::new();
        let mut ctx = GenerateorContext::new();
        assert(page@ + md_load_from(ls, ctx@, 0) =~= md_elems(ls));
        let mut i: usize = 0;
        while i < lines.len()
            invariant
                0 <= i <= lines@.len(),
                ls == lines@.map_values(|l: String| l@),
                ls.len() == lines@.len(),
                md_ctx_wf(ctx@),
                md_elems(ls) == page@ + md_load_from(ls, ctx@, i as int),
            decreases lines@.len() - i,
        {
            let line = str_to_chars(lines[i].as_str());
            assert(line@ == ls[i as int]);
            let ghost st0 = ctx@;
            md_line_step_exec(&mut ctx, &mut page, &line);
            i = i + 1;
            proof {
                let m = md_line_step(st0, ls[i - 1]);
                assert(md_load_from(ls, st0, i - 1) == m.1 + md_load_from(ls, m.0, i as int));
                assert(page@ + md_load_from(ls, ctx@, i as int) =~= md_elems(ls));
            }
        }
        if ctx.is_pre_block() {
            let e = Element::Pre(
                PRETagElement {
                    etype: ElementType::PRETAG,
                    text: chars_to_string(&ctx.pre_data),
                    code: chars_to_string(&ctx.pre_code),
                },
            );
            let ghost ev = e@;
            page.push(e);
            assert(page@ =~= md_elems(ls));
        } else if ctx.is_table_block() {
            let mut data: Vec<TableColumn> = Vec::new();
            let mut rix: usize = 0;
            while rix < ctx.table_column.len()
                invariant
                    0 <= rix <= ctx.table_column@.len(),
                    data@.len() == rix,
                    forall|k: int| 0 <= k < rix ==> data@[k]@ == ctx.table_column@[k]@,
                decreases ctx.table_column@.len() - rix,
            {
                let copy = clone_column(&ctx.table_column[rix]);
                data.push(copy);
                rix = rix + 1;
            }
            let e = Element::Table(TABLEElement { etype: ElementType::TABLE, data });
            proof {
                let ghost erows = data@.map_values(|c: TableColumn| c@);
                assert(erows =~= ctx@.rows);
                assert(e@ =~~= (ElemSpec::Table { etype: ElementType::TABLE, rows: ctx@.rows }));
            }
            let ghost ev = e@;
            page.push(e);
            assert(page@ =~= md_elems(ls));
        } else {
            assert(page@ =~= md_elems(ls));
        }
        page
    }
}

/// Appends the dialect-native text for the tagged line `s` to `out`.
pub(crate) fn md_enc_into(s: &Vec<char>, out: &mut Vec<char>)
    ensures
        final(out)@ == old(out)@ + md_enc_from(s@, 0),
{
    let mut i: usize = 0;
    while i < s.len()
        invariant
            0 <= i <= s@.len(),
            old(out)@ + md_enc_from(s@, 0) == out@ + md_enc_from(s@, i as int),
        decreases s@.len() - i,
    {
        let ghost i0 = i as int;
        let c = s[i];
        if c == '<' {
            out.push('\\');
            out.push('<');
            i = i + 1;
        } else if c == '>' {
            out.push('\\');
            out.push('>');
            i = i + 1;
        } else if c == '*' {
            out.push('\\');
            out.push('*');
            i = i + 1;
        } else if c == MARKER {
            if s.len() - i < 3 {
                push_range(out, s, i, s.len());
                i = s.len();
            } else {
                let c0 = s[i + 1];
                let c1 = s[i + 2];
                if c0 == 'L' {
                    if c1 == '0' {
                        let p = read_link(s, i + 3);
                        out.push('[');
                        push_range(out, s, p.2, p.3);
                        out.push(']');
                        out.push('(');
                        push_range(out, s, p.0, p.1);
                        out.push(')');
                        i = p.4;
                        proof {
                            lemma_link_parts_next(s@, i0 + 3);
                        }
                    } else {
                        i = i + 3;
                    }
                } else {
                    if c0 == 'B' || c0 == 'b' {
                        if c1 == '1' {
                            out.push('*');
                        } else if c1 == '2' {
                            out.push('*');
                            out.push('*');
                        } else {
                            out.push('*');
                            out.push('*');
                            out.push('*');
                        }
                    } else if c0 == 'D' || c0 == 'd' {
                        out.push('~');
                        out.push('~');
                    } else if c0 == 'C' || c0 == 'c' {
                        out.push('`');
                    }
                    i = i + 3;
                }
            }
        } else {
            out.push(c);
            i = i + 1;
        }
        assert(old(out)@ + md_enc_from(s@, 0) =~= out@ + md_enc_from(s@, i as int));
    }
}

/// Renders one inline-tagged line as this dialect's native text.
pub fn encode_to_md(line: &str) -> (r: String)
    ensures
        r@ == md_enc_from(line@, 0),
{
    let s = str_to_chars(line);
    let mut out: Vec<char> = Vec::new();
    md_enc_into(&s, &mut out);
    chars_to_string(&out)
}

/// The header-separator cell this dialect writes for one alignment.
pub open spec fn md_sep_cell(a: ETableAlign) -> Seq<char> {
    match a {
        ETableAlign::CENTER => seq![':', '-', '-', '-', '-', ':', '|'],
        ETableAlign::LEFT => seq![':', '-', '-', '-', '-', '|'],
        ETableAlign::RIGHT => seq!['-', '-', '-', '-', ':', '|'],
        ETableAlign::DEFAULT => seq!['-', '-', '-', '-', '-', '|'],
    }
}

/// The cells of one row from index `i` on, each padded with one space and
/// closed with a pipe.
pub open spec fn md_cells_from(row: Seq<AttrSpec>, i: int) -> Seq<char>
    decreases row.len() - i
    when 0 <= i <= row.len()
{
    if i == row.len() {
        Seq::empty()
    } else {
        seq![' '] + md_enc_from(row[i].text, 0) + seq![' ', '|'] + md_cells_from(row, i + 1)
    }
}

/// The header-separator cells of one row from index `i` on.
pub open spec fn md_seps_from(row: Seq<AttrSpec>, i: int) -> Seq<char>
    decreases row.len() - i
    when 0 <= i <= row.len()
{
    if i == row.len() {
        Seq::empty()
    } else {
        md_sep_cell(row[i].align) + md_seps_from(row, i + 1)
    }
}

/// One table row as this dialect writes it; a row whose last cell carries
/// the header flag is followed by the synthetic header-separator row that
/// encodes the alignments.
pub open spec fn md_row_out(row: Seq<AttrSpec>) -> Seq<char> {
    seq!['|'] + md_cells_from(row, 0) + seq!['\n'] + (if row.len() > 0 && row[row.len()
        - 1].header {
        seq!['|'] + md_seps_from(row, 0) + seq!['\n']
    } else {
        Seq::empty()
    })
}

/// The table rows from index `i` on.
pub open spec fn md_rows_from(rows: Seq<Seq<AttrSpec>>, i: int) -> Seq<char>
    decreases rows.len() - i
    when 0 <= i <= rows.len()
{
    if i == rows.len() {
        Seq::empty()
    } else {
        md_row_out(rows[i]) + md_rows_from(rows, i + 1)
    }
}

/// The dialect-native text for one element.
pub open spec fn md_single(e: ElemSpec) -> Seq<char> {
    match e {
        ElemSpec::Empty => Seq::empty(),
        ElemSpec::Heading { title, level, .. } => repeat_char('#', level as nat) + seq![' ']
            + md_enc_from(title, 0) + seq!['\n'],
        ElemSpec::ListItem { etype, text, nest, .. } => {
            let sp = repeat_char(' ', 2 * nest as nat);
            if etype == ElementType::ULTAG {
                sp + seq!['-', ' '] + md_enc_from(text, 0) + seq!['\n']
            } else {
                sp + seq!['1', '.', ' '] + md_enc_from(text, 0) + seq!['\n']
            }
        },
        ElemSpec::Pre { text, code, .. } => seq!['`', '`', '`'] + code + seq!['\n'] + text + seq![
            '`',
            '`',
            '`',
            '\n',
        ],
        ElemSpec::Table { rows, .. } => md_rows_from(rows, 0),
        ElemSpec::Rule => seq!['-', '-', '-', '-', '\n'],
        ElemSpec::Data { text } => md_enc_from(text, 0) + seq!['\n'],
    }
}

/// The document text: every element's native text, in order.
pub open spec fn md_out_from(es: Seq<ElemSpec>, i: int) -> Seq<char>
    decreases es.len() - i
    when 0 <= i <= es.len()
{
    if i == es.len() {
        Seq::empty()
    } else {
        md_single(es[i]) + md_out_from(es, i + 1)
    }
}

/// Appends the header-separator cell for one alignment.
fn push_md_sep_cell(out: &mut Vec<char>, a: ETableAlign)
    ensures
        final(out)@ == old(out)@ + md_sep_cell(a),
{
    match a {
        ETableAlign::CENTER => {
            out.push(':');
            out.push('-');
            out.push('-');
            out.push('-');
            out.push('-');
            out.push(':');
            out.push('|');
        },
        ETableAlign::LEFT => {
            out.push(':');
            out.push('-');
            out.push('-');
            out.push('-');
            out.push('-');
            out.push('|');
        },
        ETableAlign::RIGHT => {
            out.push('-');
            out.push('-');
            out.push('-');
            out.push('-');
            out.push(':');
            out.push('|');
        },
        ETableAlign::DEFAULT => {
            out.push('-');
            out.push('-');
            out.push('-');
            out.push('-');
            out.push('-');
            out.push('|');
        },
    }
    assert(out@ =~= old(out)@ + md_sep_cell(a));
}

/// Appends one table's native text.
fn push_md_table(out: &mut Vec<char>, rows: &Vec<TableColumn>)
    ensures
        final(out)@ == old(out)@ + md_rows_from(rows@.map_values(|c: TableColumn| c@), 0),
{
    let ghost rs = rows@.map_values(|c: TableColumn| c@);
    let mut i: usize = 0;
    while i < rows.len()
        invariant
            0 <= i <= rows@.len(),
            rs == rows@.map_values(|c: TableColumn| c@),
            rs.len() == rows@.len(),
            old(out)@ + md_rows_from(rs, 0) == out@ + md_rows_from(rs, i as int),
        decreases rows@.len() - i,
    {
        let row = &rows[i];
        let ghost rowv = row@;
        let ghost hbase = out@;
        assert(rowv == rs[i as int]);
        out.push('|');
        let mut bheader = false;
        let mut j: usize = 0;
        let ghost cbase = out@;
        while j < row.data.len()
            invariant
                0 <= j <= row.data@.len(),
                rowv == row@,
                rowv.len() == row.data@.len(),
                cbase + md_cells_from(rowv, 0) == out@ + md_cells_from(rowv, j as int),
                bheader == if j == 0 {
                    false
                } else {
                    rowv[j - 1].header
                },
            decreases row.data@.len() - j,
        {
            let a = &row.data[j];
            out.push(' ');
            let t = str_to_chars(a.text.as_str());
            md_enc_into(&t, out);
            out.push(' ');
            out.push('|');
            bheader = a.header;
            assert(rowv[j as int] == row.data@[j as int]@);
            j = j + 1;
            assert(cbase + md_cells_from(rowv, 0) =~= out@ + md_cells_from(rowv, j as int));
        }
        out.push('\n');
        if bheader {
            out.push('|');
            let ghost sbase = out@;
            let mut k: usize = 0;
            while k < row.data.len()
                invariant
                    0 <= k <= row.data@.len(),
                    rowv == row@,
                    rowv.len() == row.data@.len(),
                    sbase + md_seps_from(rowv, 0) == out@ + md_seps_from(rowv, k as int),
                decreases row.data@.len() - k,
            {
                push_md_sep_cell(out, row.data[k].align);
                assert(rowv[k as int] == row.data@[k as int]@);
                k = k + 1;
                assert(sbase + md_seps_from(rowv, 0) =~= out@ + md_seps_from(rowv, k as int));
            }
            out.push('\n');
        }
        assert(out@ =~= hbase + md_row_out(rowv));
        assert(md_rows_from(rs, i as int) == md_row_out(rs[i as int]) + md_rows_from(rs, i + 1));
        i = i + 1;
        assert(old(out)@ + md_rows_from(rs, 0) =~= out@ + md_rows_from(rs, i as int));
    }
}

/// The block encoder for this dialect.
pub struct Encoder {}

impl Encoder {
    /// An encoder instance.
    pub fn new() -> (e: Self) {
        Encoder {}
    }
}

impl TextEncoder for Encoder {
    open spec fn single_spec(&self, e: ElemSpec) -> Seq<char> {
        md_single(e)
    }

    open spec fn doc_spec(&self, es: Seq<ElemSpec>, i: int) -> Seq<char> {
        md_out_from(es, i)
    }

    fn encode_single(&self, element: &Element) -> (r: String) {
        let mut out: Vec<char> = Vec::new();
        match element {
            Element::Empty(_) => {},
            Element::Heading(h) => {
                push_repeat(&mut out, '#', h.level as usize);
                out.push(' ');
                let t = str_to_chars(h.title.as_str());
                md_enc_into(&t, &mut out);
                out.push('\n');
            },
            Element::ListItem(l) => {
                let n = l.nest as usize;
                push_repeat(&mut out, ' ', n);
                push_repeat(&mut out, ' ', n);
                assert(repeat_char(' ', n as nat) + repeat_char(' ', n as nat) =~= repeat_char(
                    ' ',
                    2 * n as nat,
                ));
                if l.etype == ElementType::ULTAG {
                    out.push('-');
                    out.push(' ');
                } else {
                    out.push('1');
                    out.push('.');
                    out.push(' ');
                }
                let t = str_to_chars(l.text.as_str());
                md_enc_into(&t, &mut out);
                out.push('\n');
            },
            Element::Pre(p) => {
                out.push('`');
                out.push('`');
                out.push('`');
                let code = str_to_chars(p.code.as_str());
                push_all(&mut out, &code);
                out.push('\n');
                let text = str_to_chars(p.text.as_str());
                push_all(&mut out, &text);
                out.push('`');
                out.push('`');
                out.push('`');
                out.push('\n');
            },
            Element::Table(t) => {
                push_md_table(&mut out, &t.data);
            },
            Element::Rule(_) => {
                out.push('-');
                out.push('-');
                out.push('-');
                out.push('-');
                out.push('\n');
            },
            Element::Data(d) => {
                let t = str_to_chars(d.text.as_str());
                md_enc_into(&t, &mut out);
                out.push('\n');
            },
        }
        assert(out@ =~= md_single(element@));
        chars_to_string(&out)
    }

    fn encode(&self, document: &Document) -> (r: String) {
        let ghost es = document@;
        let mut out: Vec<char> = Vec::new();
        let mut i: usize = 0;
        while i < document.element_list.len()
            invariant
                0 <= i <= document.element_list@.len(),
                es == document@,
                es.len() == document.element_list@.len(),
                md_out_from(es, 0) == out@ + md_out_from(es, i as int),
            decreases document.element_list@.len() - i,
        {
            let piece = self.encode_single(&document.element_list[i]);
            let chars = str_to_chars(piece.as_str());
            push_all(&mut out, &chars);
            assert(es[i as int] == document.element_list@[i as int]@);
            i = i + 1;
            assert(md_out_from(es, 0) =~= out@ + md_out_from(es, i as int));
        }
        chars_to_string(&out)
    }
}

} // verus!
