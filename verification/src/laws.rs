//! Properties that hold across the decoders and encoders, stated over all
//! inputs their premises allow and proved once.

use vstd::prelude::*;

use crate::chars::count_marks;
use crate::chars::first_idx;
use crate::chars::lemma_last_idx_bounds;
use crate::chars::lemma_last_pair_bounds;
use crate::chars::repeat_char;
use crate::tags::em_find;
use crate::tags::lemma_em_absent;
use crate::tags::lemma_em_find_unique;
use crate::tags::lemma_em_symmetric;
use crate::tags::lemma_first_idx_skip;
use crate::tags::link_parts;
use crate::tags::Boundary;
use crate::tags::MARKER;
use crate::element::ETableAlign;
use crate::element::ElemSpec;
use crate::element::ElementType;
use crate::w_doku::doku_enc_from;
use crate::w_doku::doku_marks;
use crate::w_doku::doku_rewrite_fuel;
use crate::w_doku::doku_rewritten;
use crate::w_doku::doku_step;
use crate::w_md::md_align_of;
use crate::w_md::md_elems;
use crate::w_md::md_enc_from;
use crate::w_md::md_fence;
use crate::w_md::md_heading;
use crate::w_md::md_init_state;
use crate::w_md::md_is_hr;
use crate::w_md::md_line_step;
use crate::w_md::md_list_ol;
use crate::w_md::md_list_ul;
use crate::w_md::md_load_from;
use crate::w_md::md_match_line;
use crate::w_md::md_table_row;
use crate::w_md::MdState;
use crate::w_md::md_sep_cell;
use crate::w_md::md_inline;
use crate::w_md::md_link_find;
use crate::w_md::md_marks;
use crate::w_md::md_rewrite_fuel;
use crate::w_md::md_step;
use crate::w_md::md_unesc_from;
use crate::w_puki::puki_enc_from;
use crate::w_puki::puki_marks;
use crate::w_puki::puki_rewrite_fuel;
use crate::w_puki::puki_rewritten;
use crate::w_puki::puki_step;

verus! {

/// Counting marks distributes over concatenation.
pub proof fn lemma_count_marks_concat(a: Seq<char>, b: Seq<char>, marks: Seq<char>)
    ensures
        count_marks(a + b, marks) == count_marks(a, marks) + count_marks(b, marks),
    decreases b.len(),
{
    if b.len() == 0 {
        assert(a + b =~= a);
    } else {
        assert((a + b).drop_last() =~= a + b.drop_last());
        assert((a + b).last() == b.last());
        lemma_count_marks_concat(a, b.drop_last(), marks);
    }
}

/// A line holding at least one mark has a positive mark count.
pub proof fn lemma_count_marks_pos(s: Seq<char>, marks: Seq<char>, k: int)
    requires
        0 <= k < s.len(),
        marks.contains(s[k]),
    ensures
        count_marks(s, marks) >= 1,
    decreases s.len(),
{
    if k == s.len() - 1 {
    } else {
        lemma_count_marks_pos(s.drop_last(), marks, k);
    }
}

/// Membership in this dialect's mark set, character by character.
pub proof fn lemma_md_marks(c: char)
    ensures
        md_marks().contains(c) <==> (c == '_' || c == '*' || c == '~' || c == '`' || c == '['
            || c == ']' || c == '(' || c == ')'),
{
    assert(md_marks()[0] == '_');
    assert(md_marks()[1] == '*');
    assert(md_marks()[2] == '~');
    assert(md_marks()[3] == '`');
    assert(md_marks()[4] == '[');
    assert(md_marks()[5] == ']');
    assert(md_marks()[6] == '(');
    assert(md_marks()[7] == ')');
    if md_marks().contains(c) {
        let i = choose|i: int| 0 <= i < md_marks().len() && md_marks()[i] == c;
        assert(0 <= i < 8);
    }
}

/// A character that cannot take part in any of this dialect's inline
/// patterns, native or tagged, nor in its escape forms.
pub open spec fn md_plain(c: char) -> bool {
    c != '_' && c != '*' && c != '~' && c != '`' && c != '[' && c != ']' && c != '(' && c != ')'
        && c != MARKER && c != '&' && c != '\\' && c != '<' && c != '>'
}

/// No decode rewriting step applies to a line without mark characters.
pub proof fn lemma_md_quiet(t: Seq<char>)
    requires
        forall|k: int| 0 <= k < t.len() ==> !md_marks().contains(#[trigger] t[k]),
    ensures
        md_step(t) is None,
{
    assert forall|k: int| 0 <= k < t.len() implies t[k] != '_' && t[k] != '*' && t[k] != '~'
        && t[k] != '`' && t[k] != '[' && t[k] != ']' && t[k] != '(' && t[k] != ')' by {
        lemma_md_marks(t[k]);
    }
    let w = Boundary::Word;
    let nb = Boundary::NoBackslash;
    let fr = Boundary::Free;
    lemma_em_absent(t, seq!['_', '_', '_'], seq!['_', '_', '_'], '_', w, w, t.len() as int);
    lemma_em_absent(t, seq!['_', '_'], seq!['_', '_'], '_', w, w, t.len() as int);
    lemma_em_absent(t, seq!['_'], seq!['_'], '_', w, w, t.len() as int);
    lemma_em_absent(t, seq!['*', '*', '*'], seq!['*', '*', '*'], '*', nb, fr, t.len() as int);
    lemma_em_absent(t, seq!['*', '*'], seq!['*', '*'], '*', nb, fr, t.len() as int);
    lemma_em_absent(t, seq!['*'], seq!['*'], '*', nb, fr, t.len() as int);
    lemma_em_absent(t, seq!['~', '~'], seq!['~', '~'], '~', fr, fr, t.len() as int);
    lemma_em_absent(t, seq!['`'], seq!['`'], '`', fr, fr, t.len() as int);
    assert(md_link_find(t) is None) by {
        if t.len() > 0 {
            lemma_last_idx_bounds(t, ')', t.len() - 1);
            match crate::chars::last_idx(t, ')', t.len() - 1) {
                Some(j) => {
                    assert(t[j] == ')');
                },
                None => {},
            }
        }
    }
}

/// Once no step applies, rewriting is over, whatever fuel is left.
pub proof fn lemma_md_fix(t: Seq<char>, fuel: nat)
    requires
        md_step(t) is None,
    ensures
        md_rewrite_fuel(t, fuel) == t,
    decreases fuel,
{
    if fuel > 0 {
        lemma_md_fix(t, (fuel - 1) as nat);
    }
}

/// Unescaping passes over a stretch without ampersands and backslashes.
pub proof fn lemma_md_unesc_id(s: Seq<char>, i: int)
    requires
        0 <= i <= s.len(),
        forall|k: int| i <= k < s.len() ==> s[k] != '&' && s[k] != '\\',
    ensures
        md_unesc_from(s, i) == s.subrange(i, s.len() as int),
    decreases s.len() - i,
{
    if i < s.len() {
        lemma_md_unesc_id(s, i + 1);
        assert(md_unesc_from(s, i) =~= s.subrange(i, s.len() as int));
    } else {
        assert(md_unesc_from(s, i) =~= s.subrange(i, s.len() as int));
    }
}

/// Inline encoding passes a stretch of unescaped literal characters through.
pub proof fn lemma_md_enc_seg(s: Seq<char>, i: int, j: int)
    requires
        0 <= i <= j <= s.len(),
        forall|k: int| i <= k < j ==> s[k] != '<' && s[k] != '>' && s[k] != '*' && s[k] != MARKER,
    ensures
        md_enc_from(s, i) == s.subrange(i, j) + md_enc_from(s, j),
    decreases j - i,
{
    if i < j {
        lemma_md_enc_seg(s, i + 1, j);
        assert(md_enc_from(s, i) =~= s.subrange(i, j) + md_enc_from(s, j));
    } else {
        assert(md_enc_from(s, i) =~= s.subrange(i, j) + md_enc_from(s, j));
    }
}

/// The canonical tag pair with the stretch between, as one decode step of a
/// symmetric native pattern leaves it.
pub open spec fn tagged(t0: char, t1: char, t2: char, t3: char, m: Seq<char>) -> Seq<char> {
    seq![MARKER, t0, t1] + m + seq![MARKER, t2, t3]
}

/// A tag character feeds no pattern and no escape form; all tag characters
/// in use are letters and digits.
pub open spec fn md_tag_safe(c: char) -> bool {
    !md_marks().contains(c) && c != '&' && c != '\\' && c != '<' && c != '>' && c != '*' && c
        != MARKER
}

/// After the rewrite of a symmetric pattern, no further step applies, and
/// the whole inline decode equals that one rewrite.
proof fn lemma_md_decode_em(f: char, d: int, t0: char, t1: char, t2: char, t3: char, m: Seq<char>)
    requires
        1 <= d,
        m.len() >= 1,
        md_marks().contains(f),
        md_tag_safe(t0) && md_tag_safe(t1) && md_tag_safe(t2) && md_tag_safe(t3),
        forall|k: int| 0 <= k < m.len() ==> md_plain(#[trigger] m[k]),
        md_step(repeat_char(f, d as nat) + m + repeat_char(f, d as nat)) == Some(
            tagged(t0, t1, t2, t3, m),
        ),
    ensures
        md_inline(repeat_char(f, d as nat) + m + repeat_char(f, d as nat)) == tagged(
            t0,
            t1,
            t2,
            t3,
            m,
        ),
{
    let dl = repeat_char(f, d as nat);
    let s = dl + m + dl;
    let t = tagged(t0, t1, t2, t3, m);
    assert(t.len() == m.len() + 6);
    assert(t[0] == MARKER && t[1] == t0 && t[2] == t1);
    assert(t[3 + m.len() as int] == MARKER && t[4 + m.len() as int] == t2 && t[5 + m.len() as int]
        == t3);
    assert forall|k: int| 0 <= k < t.len() implies !md_marks().contains(#[trigger] t[k]) by {
        lemma_md_marks(t[k]);
        lemma_md_marks(MARKER);
        if 3 <= k < 3 + m.len() {
            assert(t[k] == m[k - 3]);
        }
    }
    lemma_md_quiet(t);
    assert(s[0] == f);
    lemma_count_marks_pos(s, md_marks(), 0);
    let fuel = count_marks(s, md_marks());
    assert(md_rewrite_fuel(s, fuel) == md_rewrite_fuel(t, (fuel - 1) as nat));
    lemma_md_fix(t, (fuel - 1) as nat);
    // the unescape pass is the identity on the tagged form
    assert forall|k: int| 0 <= k < t.len() implies t[k] != '&' && t[k] != '\\' by {
        lemma_md_marks(t[k]);
        if 3 <= k < 3 + m.len() {
            assert(t[k] == m[k - 3]);
        }
    }
    lemma_md_unesc_id(t, 0);
    assert(t.subrange(0, t.len() as int) =~= t);
}

/// A longer run of the same delimiter character does not match anywhere in
/// a shorter symmetric form: the line has no `dbig` consecutive copies of
/// it.
pub proof fn lemma_no_longer_run(
    f: char,
    d: int,
    dbig: int,
    lb: Boundary,
    rb: Boundary,
    m: Seq<char>,
)
    requires
        1 <= d < dbig,
        m.len() >= 1,
        forall|k: int| 0 <= k < m.len() ==> m[k] != f,
    ensures
        em_find(
            repeat_char(f, d as nat) + m + repeat_char(f, d as nat),
            repeat_char(f, dbig as nat),
            repeat_char(f, dbig as nat),
            f,
            lb,
            rb,
        ) is None,
{
    let dl = repeat_char(f, d as nat);
    let big = repeat_char(f, dbig as nat);
    let s = dl + m + dl;
    let n = s.len() as int;
    assert(forall|k: int| d <= k < d + m.len() ==> s[k] == m[k - d] && s[k] != f);
    assert forall|i: int| 0 <= i <= n implies !crate::tags::em_ok(s, big, big, f, lb, rb, i) by {
        if crate::tags::em_ok(s, big, big, f, lb, rb, i) {
            assert(s.subrange(i, i + dbig) =~= big);
            if i < d {
                assert(s.subrange(i, i + dbig)[d - i] == s[d]);
                assert(big[d - i] == f);
            } else if i < d + m.len() {
                assert(s.subrange(i, i + dbig)[0] == s[i]);
                assert(big[0] == f);
            } else {
                assert(i + dbig <= n);
            }
        }
    }
    if crate::tags::em_find(s, big, big, f, lb, rb) matches Some(j) {
        crate::tags::lemma_em_find_from(s, big, big, f, lb, rb, n);
    }
}

/// Inline encoding turns the canonical tag pair around a plain stretch back
/// into the native markup of the two tags.
proof fn lemma_md_enc_tagged(t0: char, t1: char, t2: char, t3: char, m: Seq<char>)
    requires
        t0 != 'L' && t2 != 'L',
        forall|k: int| 0 <= k < m.len() ==> md_plain(#[trigger] m[k]),
    ensures
        md_enc_from(tagged(t0, t1, t2, t3, m), 0) == crate::w_md::md_tag_out(t0, t1) + m
            + crate::w_md::md_tag_out(t2, t3),
{
    let t = tagged(t0, t1, t2, t3, m);
    let n = t.len() as int;
    assert(n == m.len() + 6);
    assert(t[0] == MARKER && t[1] == t0 && t[2] == t1);
    assert(t[3 + m.len() as int] == MARKER && t[4 + m.len() as int] == t2 && t[5 + m.len() as int]
        == t3);
    assert(forall|k: int| 3 <= k < 3 + m.len() ==> t[k] == m[k - 3]);
    assert(md_enc_from(t, 0) == crate::w_md::md_tag_out(t0, t1) + md_enc_from(t, 3));
    lemma_md_enc_seg(t, 3, 3 + m.len() as int);
    assert(t.subrange(3, 3 + m.len() as int) =~= m);
    assert(md_enc_from(t, 3 + m.len() as int) == crate::w_md::md_tag_out(t2, t3) + md_enc_from(
        t,
        n,
    ));
    assert(md_enc_from(t, n) =~= Seq::<char>::empty());
    assert(md_enc_from(t, 0) =~= crate::w_md::md_tag_out(t0, t1) + m + crate::w_md::md_tag_out(
        t2,
        t3,
    ));
}

/// Inline bijectivity of tier-1 emphasis: decoding native `*m*` and
/// re-encoding to the same dialect reproduces it, for any non-empty stretch
/// of plain characters.
pub proof fn lemma_md_em1_bijective(m: Seq<char>)
    requires
        m.len() >= 1,
        forall|k: int| 0 <= k < m.len() ==> md_plain(#[trigger] m[k]),
    ensures
        md_enc_from(md_inline(seq!['*'] + m + seq!['*']), 0) == seq!['*'] + m + seq!['*'],
{
    let w = Boundary::Word;
    let nb = Boundary::NoBackslash;
    let dl = repeat_char('*', 1);
    assert(dl =~= seq!['*']);
    let s = dl + m + dl;
    lemma_em_absent(s, seq!['_', '_', '_'], seq!['_', '_', '_'], '_', w, w, s.len() as int);
    lemma_em_absent(s, seq!['_', '_'], seq!['_', '_'], '_', w, w, s.len() as int);
    lemma_em_absent(s, seq!['_'], seq!['_'], '_', w, w, s.len() as int);
    lemma_no_longer_run('*', 1, 3, nb, Boundary::Free, m);
    lemma_no_longer_run('*', 1, 2, nb, Boundary::Free, m);
    assert(repeat_char('*', 3) =~= seq!['*', '*', '*']);
    assert(repeat_char('*', 2) =~= seq!['*', '*']);
    lemma_em_symmetric('*', 1, nb, Boundary::Free, 'B', '1', 'b', '1', m);
    assert(md_step(s) == Some(tagged('B', '1', 'b', '1', m)));
    lemma_md_marks('*');
    lemma_md_decode_em('*', 1, 'B', '1', 'b', '1', m);
    lemma_md_enc_tagged('B', '1', 'b', '1', m);
    assert(crate::w_md::md_tag_out('B', '1') =~= seq!['*']);
    assert(crate::w_md::md_tag_out('b', '1') =~= seq!['*']);
}

/// Inline bijectivity of tier-2 emphasis: decoding native `**m**` and
/// re-encoding to the same dialect reproduces it.
pub proof fn lemma_md_em2_bijective(m: Seq<char>)
    requires
        m.len() >= 1,
        forall|k: int| 0 <= k < m.len() ==> md_plain(#[trigger] m[k]),
    ensures
        md_enc_from(md_inline(seq!['*', '*'] + m + seq!['*', '*']), 0) == seq!['*', '*'] + m
            + seq!['*', '*'],
{
    let w = Boundary::Word;
    let nb = Boundary::NoBackslash;
    let dl = repeat_char('*', 2);
    assert(dl =~= seq!['*', '*']);
    let s = dl + m + dl;
    lemma_em_absent(s, seq!['_', '_', '_'], seq!['_', '_', '_'], '_', w, w, s.len() as int);
    lemma_em_absent(s, seq!['_', '_'], seq!['_', '_'], '_', w, w, s.len() as int);
    lemma_em_absent(s, seq!['_'], seq!['_'], '_', w, w, s.len() as int);
    lemma_no_longer_run('*', 2, 3, nb, Boundary::Free, m);
    assert(repeat_char('*', 3) =~= seq!['*', '*', '*']);
    lemma_em_symmetric('*', 2, nb, Boundary::Free, 'B', '2', 'b', '2', m);
    assert(md_step(s) == Some(tagged('B', '2', 'b', '2', m)));
    lemma_md_marks('*');
    lemma_md_decode_em('*', 2, 'B', '2', 'b', '2', m);
    lemma_md_enc_tagged('B', '2', 'b', '2', m);
    assert(crate::w_md::md_tag_out('B', '2') =~= seq!['*', '*']);
    assert(crate::w_md::md_tag_out('b', '2') =~= seq!['*', '*']);
}

/// Inline bijectivity of tier-3 (combined) emphasis: decoding native
/// `***m***` and re-encoding to the same dialect reproduces it.
pub proof fn lemma_md_em3_bijective(m: Seq<char>)
    requires
        m.len() >= 1,
        forall|k: int| 0 <= k < m.len() ==> md_plain(#[trigger] m[k]),
    ensures
        md_enc_from(md_inline(seq!['*', '*', '*'] + m + seq!['*', '*', '*']), 0) == seq![
            '*',
            '*',
            '*',
        ] + m + seq!['*', '*', '*'],
{
    let w = Boundary::Word;
    let nb = Boundary::NoBackslash;
    let dl = repeat_char('*', 3);
    assert(dl =~= seq!['*', '*', '*']);
    let s = dl + m + dl;
    lemma_em_absent(s, seq!['_', '_', '_'], seq!['_', '_', '_'], '_', w, w, s.len() as int);
    lemma_em_absent(s, seq!['_', '_'], seq!['_', '_'], '_', w, w, s.len() as int);
    lemma_em_absent(s, seq!['_'], seq!['_'], '_', w, w, s.len() as int);
    lemma_em_symmetric('*', 3, nb, Boundary::Free, 'B', '3', 'b', '3', m);
    assert(md_step(s) == Some(tagged('B', '3', 'b', '3', m)));
    lemma_md_marks('*');
    lemma_md_decode_em('*', 3, 'B', '3', 'b', '3', m);
    lemma_md_enc_tagged('B', '3', 'b', '3', m);
    assert(crate::w_md::md_tag_out('B', '3') =~= seq!['*', '*', '*']);
    assert(crate::w_md::md_tag_out('b', '3') =~= seq!['*', '*', '*']);
}

/// Inline bijectivity of strikethrough: decoding native `~~m~~` and
/// re-encoding to the same dialect reproduces it.
pub proof fn lemma_md_strike_bijective(m: Seq<char>)
    requires
        m.len() >= 1,
        forall|k: int| 0 <= k < m.len() ==> md_plain(#[trigger] m[k]),
    ensures
        md_enc_from(md_inline(seq!['~', '~'] + m + seq!['~', '~']), 0) == seq!['~', '~'] + m
            + seq!['~', '~'],
{
    let w = Boundary::Word;
    let nb = Boundary::NoBackslash;
    let fr = Boundary::Free;
    let dl = repeat_char('~', 2);
    assert(dl =~= seq!['~', '~']);
    let s = dl + m + dl;
    lemma_em_absent(s, seq!['_', '_', '_'], seq!['_', '_', '_'], '_', w, w, s.len() as int);
    lemma_em_absent(s, seq!['_', '_'], seq!['_', '_'], '_', w, w, s.len() as int);
    lemma_em_absent(s, seq!['_'], seq!['_'], '_', w, w, s.len() as int);
    lemma_em_absent(s, seq!['*', '*', '*'], seq!['*', '*', '*'], '*', nb, fr, s.len() as int);
    lemma_em_absent(s, seq!['*', '*'], seq!['*', '*'], '*', nb, fr, s.len() as int);
    lemma_em_absent(s, seq!['*'], seq!['*'], '*', nb, fr, s.len() as int);
    lemma_em_symmetric('~', 2, fr, fr, 'D', '0', 'd', '0', m);
    assert(md_step(s) == Some(tagged('D', '0', 'd', '0', m)));
    lemma_md_marks('~');
    lemma_md_decode_em('~', 2, 'D', '0', 'd', '0', m);
    lemma_md_enc_tagged('D', '0', 'd', '0', m);
    assert(crate::w_md::md_tag_out('D', '0') =~= seq!['~', '~']);
    assert(crate::w_md::md_tag_out('d', '0') =~= seq!['~', '~']);
}

/// Inline bijectivity of code spans: decoding a native backtick span and
/// re-encoding to the same dialect reproduces it.
pub proof fn lemma_md_code_span_bijective(m: Seq<char>)
    requires
        m.len() >= 1,
        forall|k: int| 0 <= k < m.len() ==> md_plain(#[trigger] m[k]),
    ensures
        md_enc_from(md_inline(seq!['`'] + m + seq!['`']), 0) == seq!['`'] + m + seq!['`'],
{
    let w = Boundary::Word;
    let nb = Boundary::NoBackslash;
    let fr = Boundary::Free;
    let dl = repeat_char('`', 1);
    assert(dl =~= seq!['`']);
    let s = dl + m + dl;
    lemma_em_absent(s, seq!['_', '_', '_'], seq!['_', '_', '_'], '_', w, w, s.len() as int);
    lemma_em_absent(s, seq!['_', '_'], seq!['_', '_'], '_', w, w, s.len() as int);
    lemma_em_absent(s, seq!['_'], seq!['_'], '_', w, w, s.len() as int);
    lemma_em_absent(s, seq!['*', '*', '*'], seq!['*', '*', '*'], '*', nb, fr, s.len() as int);
    lemma_em_absent(s, seq!['*', '*'], seq!['*', '*'], '*', nb, fr, s.len() as int);
    lemma_em_absent(s, seq!['*'], seq!['*'], '*', nb, fr, s.len() as int);
    lemma_em_absent(s, seq!['~', '~'], seq!['~', '~'], '~', fr, fr, s.len() as int);
    lemma_em_symmetric('`', 1, fr, fr, 'C', '0', 'c', '0', m);
    assert(md_step(s) == Some(tagged('C', '0', 'c', '0', m)));
    lemma_md_marks('`');
    lemma_md_decode_em('`', 1, 'C', '0', 'c', '0', m);
    lemma_md_enc_tagged('C', '0', 'c', '0', m);
    assert(crate::w_md::md_tag_out('C', '0') =~= seq!['`']);
    assert(crate::w_md::md_tag_out('c', '0') =~= seq!['`']);
}

/// Decoding this dialect's native link form: `[label](target)` becomes the
/// canonical order target, separator, label.
proof fn lemma_md_link_decode(l: Seq<char>, t: Seq<char>)
    requires
        l.len() >= 1,
        t.len() >= 1,
        forall|k: int| 0 <= k < l.len() ==> md_plain(#[trigger] l[k]),
        forall|k: int| 0 <= k < t.len() ==> md_plain(#[trigger] t[k]),
    ensures
        md_inline(seq!['['] + l + seq![']', '('] + t + seq![')']) == seq![MARKER, 'L', '0'] + t
            + seq![MARKER, 'L', '1'] + l + seq![MARKER, 'L', '2'],
{
    let w = Boundary::Word;
    let nb = Boundary::NoBackslash;
    let fr = Boundary::Free;
    let s = seq!['['] + l + seq![']', '('] + t + seq![')'];
    let n = s.len() as int;
    let ll = l.len() as int;
    let tl = t.len() as int;
    assert(n == ll + tl + 4);
    assert(s[0] == '[');
    assert(forall|k: int| 1 <= k < 1 + ll ==> s[k] == l[k - 1]);
    assert(s[1 + ll] == ']' && s[2 + ll] == '(');
    assert(forall|k: int| 3 + ll <= k < 3 + ll + tl ==> s[k] == t[k - 3 - ll]);
    assert(s[n - 1] == ')');
    lemma_em_absent(s, seq!['_', '_', '_'], seq!['_', '_', '_'], '_', w, w, n);
    lemma_em_absent(s, seq!['_', '_'], seq!['_', '_'], '_', w, w, n);
    lemma_em_absent(s, seq!['_'], seq!['_'], '_', w, w, n);
    lemma_em_absent(s, seq!['*', '*', '*'], seq!['*', '*', '*'], '*', nb, fr, n);
    lemma_em_absent(s, seq!['*', '*'], seq!['*', '*'], '*', nb, fr, n);
    lemma_em_absent(s, seq!['*'], seq!['*'], '*', nb, fr, n);
    lemma_em_absent(s, seq!['~', '~'], seq!['~', '~'], '~', fr, fr, n);
    lemma_em_absent(s, seq!['`'], seq!['`'], '`', fr, fr, n);
    // the three anchors of the native form
    assert(crate::chars::last_idx(s, ')', n - 1) == Some(n - 1));
    crate::chars::lemma_last_pair_skip(s, ']', '(', n - 4, 1 + ll);
    assert(crate::chars::last_pair(s, ']', '(', 1 + ll) == Some(1 + ll));
    assert(crate::chars::last_pair(s, ']', '(', n - 4) == Some(1 + ll));
    crate::chars::lemma_last_idx_skip(s, '[', ll - 1, 0);
    assert(crate::chars::last_idx(s, '[', 0) == Some(0int));
    assert(md_link_find(s) == Some((0int, 1 + ll, n - 1)));
    let t2 = crate::w_md::md_link_step(s);
    assert(t2 =~= seq![MARKER, 'L', '0'] + t + seq![MARKER, 'L', '1'] + l + seq![
        MARKER,
        'L',
        '2',
    ]) by {
        assert(s.subrange(0, 0) =~= Seq::<char>::empty());
        assert(s.subrange(3 + ll, n - 1) =~= t);
        assert(s.subrange(1, 1 + ll) =~= l);
        assert(s.subrange(n, n) =~= Seq::<char>::empty());
    }
    assert(md_step(s) == Some(t2));
    // no further step applies to the tagged form
    assert forall|k: int| 0 <= k < t2.len() implies !md_marks().contains(#[trigger] t2[k]) by {
        lemma_md_marks(t2[k]);
        if 3 <= k < 3 + tl {
            assert(t2[k] == t[k - 3]);
        }
        if 6 + tl <= k < 6 + tl + ll {
            assert(t2[k] == l[k - 6 - tl]);
        }
    }
    lemma_md_quiet(t2);
    lemma_md_marks('[');
    lemma_count_marks_pos(s, md_marks(), 0);
    let fuel = count_marks(s, md_marks());
    assert(md_rewrite_fuel(s, fuel) == md_rewrite_fuel(t2, (fuel - 1) as nat));
    lemma_md_fix(t2, (fuel - 1) as nat);
    assert forall|k: int| 0 <= k < t2.len() implies t2[k] != '&' && t2[k] != '\\' by {
        if 3 <= k < 3 + tl {
            assert(t2[k] == t[k - 3]);
        }
        if 6 + tl <= k < 6 + tl + ll {
            assert(t2[k] == l[k - 6 - tl]);
        }
    }
    lemma_md_unesc_id(t2, 0);
    assert(t2.subrange(0, t2.len() as int) =~= t2);
}

/// What this dialect's encoder makes of a canonical link: it reads both
/// payloads ahead and writes its native label-then-target order.
proof fn lemma_md_enc_link(l: Seq<char>, t: Seq<char>)
    requires
        forall|k: int| 0 <= k < l.len() ==> md_plain(#[trigger] l[k]),
        forall|k: int| 0 <= k < t.len() ==> md_plain(#[trigger] t[k]),
    ensures
        md_enc_from(
            seq![MARKER, 'L', '0'] + t + seq![MARKER, 'L', '1'] + l + seq![MARKER, 'L', '2'],
            0,
        ) == seq!['['] + l + seq![']', '('] + t + seq![')'],
{
    let t2 = seq![MARKER, 'L', '0'] + t + seq![MARKER, 'L', '1'] + l + seq![MARKER, 'L', '2'];
    let n = t2.len() as int;
    let ll = l.len() as int;
    let tl = t.len() as int;
    assert(n == ll + tl + 9);
    assert(t2[0] == MARKER && t2[1] == 'L' && t2[2] == '0');
    assert(forall|k: int| 3 <= k < 3 + tl ==> t2[k] == t[k - 3]);
    assert(t2[3 + tl] == MARKER && t2[4 + tl] == 'L' && t2[5 + tl] == '1');
    assert(forall|k: int| 6 + tl <= k < 6 + tl + ll ==> t2[k] == l[k - 6 - tl]);
    assert(t2[n - 3] == MARKER && t2[n - 2] == 'L' && t2[n - 1] == '2');
    lemma_first_idx_skip(t2, MARKER, 3, 3 + tl);
    assert(first_idx(t2, MARKER, 3) == Some(3 + tl));
    lemma_first_idx_skip(t2, MARKER, 6 + tl, n - 3);
    assert(first_idx(t2, MARKER, 6 + tl) == Some(n - 3));
    assert(link_parts(t2, 3) == (t2.subrange(3, 3 + tl), t2.subrange(6 + tl, n - 3), n));
    assert(t2.subrange(3, 3 + tl) =~= t);
    assert(t2.subrange(6 + tl, n - 3) =~= l);
    assert(md_enc_from(t2, 0) == seq!['['] + l + seq![']', '('] + t + seq![')'] + md_enc_from(
        t2,
        n,
    ));
    assert(md_enc_from(t2, n) =~= Seq::<char>::empty());
    assert(md_enc_from(t2, 0) =~= seq!['['] + l + seq![']', '('] + t + seq![')']);
}

/// Inline bijectivity of links with a label: decoding native
/// `[label](target)` and re-encoding to the same dialect reproduces it.
pub proof fn lemma_md_link_bijective(l: Seq<char>, t: Seq<char>)
    requires
        l.len() >= 1,
        t.len() >= 1,
        forall|k: int| 0 <= k < l.len() ==> md_plain(#[trigger] l[k]),
        forall|k: int| 0 <= k < t.len() ==> md_plain(#[trigger] t[k]),
    ensures
        md_enc_from(md_inline(seq!['['] + l + seq![']', '('] + t + seq![')']), 0) == seq!['['] + l
            + seq![']', '('] + t + seq![')'],
{
    lemma_md_link_decode(l, t);
    lemma_md_enc_link(l, t);
}

/// Membership in the DokuWiki mark set, character by character.
pub proof fn lemma_doku_marks(c: char)
    ensures
        doku_marks().contains(c) <==> (c == '*' || c == '/' || c == '<' || c == '>' || c == '['
            || c == ']' || c == '|'),
{
    assert(doku_marks()[0] == '*');
    assert(doku_marks()[1] == '/');
    assert(doku_marks()[2] == '<');
    assert(doku_marks()[3] == '>');
    assert(doku_marks()[4] == '[');
    assert(doku_marks()[5] == ']');
    assert(doku_marks()[6] == '|');
    if doku_marks().contains(c) {
        let i = choose|i: int| 0 <= i < doku_marks().len() && doku_marks()[i] == c;
        assert(0 <= i < 7);
    }
}

/// A character that cannot take part in any DokuWiki inline pattern, native
/// or tagged, nor in its encoder's slash and backslash handling.
pub open spec fn doku_plain(c: char) -> bool {
    c != '*' && c != '/' && c != '<' && c != '>' && c != '[' && c != ']' && c != '|' && c != MARKER
        && c != '\\'
}

/// No DokuWiki decode rewriting step applies to a line without its marks.
pub proof fn lemma_doku_quiet(t: Seq<char>)
    requires
        forall|k: int| 0 <= k < t.len() ==> !doku_marks().contains(#[trigger] t[k]),
    ensures
        doku_step(t) is None,
{
    assert forall|k: int| 0 <= k < t.len() implies t[k] != '*' && t[k] != '/' && t[k] != '<'
        && t[k] != '>' && t[k] != '[' && t[k] != ']' && t[k] != '|' by {
        lemma_doku_marks(t[k]);
    }
    let fr = Boundary::Free;
    lemma_em_absent(t, seq!['*', '*'], seq!['*', '*'], '*', fr, fr, t.len() as int);
    lemma_em_absent(t, seq!['/', '/'], seq!['/', '/'], '/', fr, fr, t.len() as int);
    lemma_em_absent(
        t,
        seq!['<', 'd', 'e', 'l', '>'],
        seq!['<', '/', 'd', 'e', 'l', '>'],
        '/',
        fr,
        fr,
        t.len() as int,
    );
    if t.len() >= 2 {
        lemma_last_pair_bounds(t, ']', ']', t.len() - 2);
        match crate::chars::last_pair(t, ']', ']', t.len() - 2) {
            Some(j) => {
                assert(t[j] == ']');
            },
            None => {},
        }
    }
}

/// Once no step applies, DokuWiki rewriting is over, whatever fuel is left.
pub proof fn lemma_doku_fix(t: Seq<char>, fuel: nat)
    requires
        doku_step(t) is None,
    ensures
        doku_rewrite_fuel(t, fuel) == t,
    decreases fuel,
{
    if fuel > 0 {
        lemma_doku_fix(t, (fuel - 1) as nat);
    }
}

/// The DokuWiki encoder passes a stretch of plain characters through
/// literally, tracking only whether the stretch ended with a colon.
pub proof fn lemma_doku_enc_seg(s: Seq<char>, i: int, j: int, colon: bool)
    requires
        0 <= i <= j <= s.len(),
        forall|k: int| i <= k < j ==> s[k] != '/' && s[k] != '\\' && s[k] != MARKER,
    ensures
        doku_enc_from(s, i, 0, colon, false) == s.subrange(i, j) + doku_enc_from(
            s,
            j,
            0,
            if j > i {
                s[j - 1] == ':'
            } else {
                colon
            },
            false,
        ),
    decreases j - i,
{
    if i < j {
        lemma_doku_enc_seg(s, i + 1, j, s[i] == ':');
        assert(crate::w_doku::slash_out(0) =~= Seq::<char>::empty());
        assert(doku_enc_from(s, i, 0, colon, false) =~= s.subrange(i, j) + doku_enc_from(
            s,
            j,
            0,
            if j > i {
                s[j - 1] == ':'
            } else {
                colon
            },
            false,
        ));
    } else {
        assert(doku_enc_from(s, i, 0, colon, false) =~= s.subrange(i, j) + doku_enc_from(
            s,
            j,
            0,
            colon,
            false,
        ));
    }
}

/// The DokuWiki encoder turns the canonical tag pair around a plain stretch
/// back into the native markup of the two tags.
proof fn lemma_doku_enc_tagged(t0: char, t1: char, t2: char, t3: char, m: Seq<char>)
    requires
        forall|k: int| 0 <= k < m.len() ==> doku_plain(#[trigger] m[k]),
    ensures
        doku_enc_from(tagged(t0, t1, t2, t3, m), 0, 0, false, false) == crate::w_doku::doku_tag_out(
            t0,
            t1,
        ) + m + crate::w_doku::doku_tag_out(t2, t3),
{
    let t = tagged(t0, t1, t2, t3, m);
    let n = t.len() as int;
    assert(n == m.len() + 6);
    assert(t[0] == MARKER && t[1] == t0 && t[2] == t1);
    assert(t[3 + m.len() as int] == MARKER && t[4 + m.len() as int] == t2 && t[5 + m.len() as int]
        == t3);
    assert(forall|k: int| 3 <= k < 3 + m.len() ==> t[k] == m[k - 3]);
    assert(crate::w_doku::slash_out(0) =~= Seq::<char>::empty());
    assert(doku_enc_from(t, 0, 0, false, false) =~= crate::w_doku::doku_tag_out(t0, t1)
        + doku_enc_from(t, 3, 0, false, false));
    lemma_doku_enc_seg(t, 3, 3 + m.len() as int, false);
    assert(t.subrange(3, 3 + m.len() as int) =~= m);
    let colon2 = if m.len() > 0 {
        m.last() == ':'
    } else {
        false
    };
    assert(doku_enc_from(t, 3 + m.len() as int, 0, colon2, false) =~= crate::w_doku::doku_tag_out(
        t2,
        t3,
    ) + doku_enc_from(t, n, 0, false, false));
    assert(doku_enc_from(t, n, 0, false, false) =~= Seq::<char>::empty());
    assert(doku_enc_from(t, 0, 0, false, false) =~= crate::w_doku::doku_tag_out(t0, t1) + m
        + crate::w_doku::doku_tag_out(t2, t3));
}

/// After the rewrite of a symmetric pattern, no further DokuWiki step
/// applies, and the whole inline decode equals that one rewrite.
proof fn lemma_doku_decode_em(
    f: char,
    d: int,
    t0: char,
    t1: char,
    t2: char,
    t3: char,
    m: Seq<char>,
)
    requires
        1 <= d,
        m.len() >= 1,
        doku_marks().contains(f),
        !doku_marks().contains(t0) && !doku_marks().contains(t1) && !doku_marks().contains(t2)
            && !doku_marks().contains(t3),
        forall|k: int| 0 <= k < m.len() ==> doku_plain(#[trigger] m[k]),
        doku_step(repeat_char(f, d as nat) + m + repeat_char(f, d as nat)) == Some(
            tagged(t0, t1, t2, t3, m),
        ),
    ensures
        doku_rewritten(repeat_char(f, d as nat) + m + repeat_char(f, d as nat)) == tagged(
            t0,
            t1,
            t2,
            t3,
            m,
        ),
{
    let dl = repeat_char(f, d as nat);
    let s = dl + m + dl;
    let t = tagged(t0, t1, t2, t3, m);
    assert(t.len() == m.len() + 6);
    assert(t[0] == MARKER && t[1] == t0 && t[2] == t1);
    assert(t[3 + m.len() as int] == MARKER && t[4 + m.len() as int] == t2 && t[5 + m.len() as int]
        == t3);
    assert forall|k: int| 0 <= k < t.len() implies !doku_marks().contains(#[trigger] t[k]) by {
        lemma_doku_marks(t[k]);
        lemma_doku_marks(MARKER);
        if 3 <= k < 3 + m.len() {
            assert(t[k] == m[k - 3]);
        }
    }
    lemma_doku_quiet(t);
    assert(s[0] == f);
    lemma_count_marks_pos(s, doku_marks(), 0);
    let fuel = count_marks(s, doku_marks());
    assert(doku_rewrite_fuel(s, fuel) == doku_rewrite_fuel(t, (fuel - 1) as nat));
    lemma_doku_fix(t, (fuel - 1) as nat);
}

/// Inline bijectivity of DokuWiki tier-2 emphasis: decoding native `**m**`
/// and re-encoding to the same dialect reproduces it.
pub proof fn lemma_doku_em2_bijective(m: Seq<char>)
    requires
        m.len() >= 1,
        forall|k: int| 0 <= k < m.len() ==> doku_plain(#[trigger] m[k]),
    ensures
        doku_enc_from(doku_rewritten(seq!['*', '*'] + m + seq!['*', '*']), 0, 0, false, false)
            == seq!['*', '*'] + m + seq!['*', '*'],
{
    let fr = Boundary::Free;
    let dl = repeat_char('*', 2);
    assert(dl =~= seq!['*', '*']);
    let s = dl + m + dl;
    lemma_em_symmetric('*', 2, fr, fr, 'B', '2', 'b', '2', m);
    assert(doku_step(s) == Some(tagged('B', '2', 'b', '2', m)));
    lemma_doku_marks('*');
    lemma_doku_marks('B');
    lemma_doku_marks('b');
    lemma_doku_marks('2');
    lemma_doku_decode_em('*', 2, 'B', '2', 'b', '2', m);
    lemma_doku_enc_tagged('B', '2', 'b', '2', m);
    assert(crate::w_doku::doku_tag_out('B', '2') =~= seq!['*', '*']);
    assert(crate::w_doku::doku_tag_out('b', '2') =~= seq!['*', '*']);
}

/// Inline bijectivity of DokuWiki tier-1 emphasis: decoding native `//m//`
/// and re-encoding to the same dialect reproduces it.
pub proof fn lemma_doku_em1_bijective(m: Seq<char>)
    requires
        m.len() >= 1,
        forall|k: int| 0 <= k < m.len() ==> doku_plain(#[trigger] m[k]),
    ensures
        doku_enc_from(doku_rewritten(seq!['/', '/'] + m + seq!['/', '/']), 0, 0, false, false)
            == seq!['/', '/'] + m + seq!['/', '/'],
{
    let fr = Boundary::Free;
    let dl = repeat_char('/', 2);
    assert(dl =~= seq!['/', '/']);
    let s = dl + m + dl;
    lemma_em_absent(s, seq!['*', '*'], seq!['*', '*'], '*', fr, fr, s.len() as int);
    lemma_em_symmetric('/', 2, fr, fr, 'B', '1', 'b', '1', m);
    assert(doku_step(s) == Some(tagged('B', '1', 'b', '1', m)));
    lemma_doku_marks('/');
    lemma_doku_marks('B');
    lemma_doku_marks('b');
    lemma_doku_marks('1');
    lemma_doku_decode_em('/', 2, 'B', '1', 'b', '1', m);
    lemma_doku_enc_tagged('B', '1', 'b', '1', m);
    assert(crate::w_doku::doku_tag_out('B', '1') =~= seq!['/', '/']);
    assert(crate::w_doku::doku_tag_out('b', '1') =~= seq!['/', '/']);
}

/// Downward search for the DokuWiki target-and-label link form finds the
/// single matching position when everything above it fails.
proof fn lemma_doku_l2_unique(s: Seq<char>, jj: int, j0: int, i: int)
    requires
        0 <= j0 <= i,
        crate::w_doku::doku_l2_ok(s, jj, j0),
        forall|k: int| j0 < k <= i ==> !crate::w_doku::doku_l2_ok(s, jj, k),
    ensures
        crate::w_doku::doku_l2_find_from(s, jj, i) == Some(j0),
    decreases i - j0,
{
    if i > j0 {
        lemma_doku_l2_unique(s, jj, j0, i - 1);
    }
}

/// Decoding the DokuWiki native link form: `[[target|label]]` becomes the
/// canonical order target, separator, label.
proof fn lemma_doku_link_decode(t: Seq<char>, l: Seq<char>)
    requires
        t.len() >= 1,
        forall|k: int| 0 <= k < t.len() ==> doku_plain(#[trigger] t[k]),
        forall|k: int| 0 <= k < l.len() ==> doku_plain(#[trigger] l[k]),
    ensures
        doku_rewritten(seq!['[', '['] + t + seq!['|'] + l + seq![']', ']']) == seq![
            MARKER,
            'L',
            '0',
        ] + t + seq![MARKER, 'L', '1'] + l + seq![MARKER, 'L', '2'],
{
    let fr = Boundary::Free;
    let s = seq!['[', '['] + t + seq!['|'] + l + seq![']', ']'];
    let n = s.len() as int;
    let tl = t.len() as int;
    let ll = l.len() as int;
    assert(n == tl + ll + 5);
    assert(s[0] == '[' && s[1] == '[');
    assert(forall|k: int| 2 <= k < 2 + tl ==> s[k] == t[k - 2]);
    assert(s[2 + tl] == '|');
    assert(forall|k: int| 3 + tl <= k < 3 + tl + ll ==> s[k] == l[k - 3 - tl]);
    assert(s[n - 2] == ']' && s[n - 1] == ']');
    lemma_em_absent(s, seq!['*', '*'], seq!['*', '*'], '*', fr, fr, n);
    lemma_em_absent(s, seq!['/', '/'], seq!['/', '/'], '/', fr, fr, n);
    lemma_em_absent(
        s,
        seq!['<', 'd', 'e', 'l', '>'],
        seq!['<', '/', 'd', 'e', 'l', '>'],
        '/',
        fr,
        fr,
        n,
    );
    assert(crate::chars::last_pair(s, ']', ']', n - 2) == Some(n - 2));
    lemma_first_idx_skip(s, '|', 2, 2 + tl);
    assert(first_idx(s, '|', 2) == Some(2 + tl));
    assert(crate::w_doku::doku_l2_ok(s, n - 2, 0));
    assert forall|k: int| 0 < k <= n implies !#[trigger] crate::w_doku::doku_l2_ok(
        s,
        n - 2,
        k,
    ) by {
        if crate::w_doku::doku_l2_ok(s, n - 2, k) {
            assert(s[k] == '[' && s[k + 1] == '[');
        }
    }
    lemma_doku_l2_unique(s, n - 2, 0, n);
    assert(crate::w_doku::doku_l2_find(s) == Some((0int, 2 + tl, n - 2)));
    let t2 = crate::w_doku::doku_l2_step(s);
    assert(t2 =~= seq![MARKER, 'L', '0'] + t + seq![MARKER, 'L', '1'] + l + seq![
        MARKER,
        'L',
        '2',
    ]) by {
        assert(s.subrange(0, 0) =~= Seq::<char>::empty());
        assert(s.subrange(2, 2 + tl) =~= t);
        assert(s.subrange(3 + tl, n - 2) =~= l);
        assert(s.subrange(n, n) =~= Seq::<char>::empty());
    }
    assert(doku_step(s) == Some(t2));
    assert forall|k: int| 0 <= k < t2.len() implies !doku_marks().contains(#[trigger] t2[k]) by {
        lemma_doku_marks(t2[k]);
        if 3 <= k < 3 + tl {
            assert(t2[k] == t[k - 3]);
        }
        if 6 + tl <= k < 6 + tl + ll {
            assert(t2[k] == l[k - 6 - tl]);
        }
    }
    lemma_doku_quiet(t2);
    lemma_doku_marks('[');
    lemma_count_marks_pos(s, doku_marks(), 0);
    let fuel = count_marks(s, doku_marks());
    assert(doku_rewrite_fuel(s, fuel) == doku_rewrite_fuel(t2, (fuel - 1) as nat));
    lemma_doku_fix(t2, (fuel - 1) as nat);
}

/// The DokuWiki encoder writes a canonical link incrementally in its native
/// target-then-label order.
proof fn lemma_doku_enc_link(t: Seq<char>, l: Seq<char>)
    requires
        forall|k: int| 0 <= k < t.len() ==> doku_plain(#[trigger] t[k]),
        forall|k: int| 0 <= k < l.len() ==> doku_plain(#[trigger] l[k]),
    ensures
        doku_enc_from(
            seq![MARKER, 'L', '0'] + t + seq![MARKER, 'L', '1'] + l + seq![MARKER, 'L', '2'],
            0,
            0,
            false,
            false,
        ) == seq!['[', '['] + t + seq!['|'] + l + seq![']', ']'],
{
    let t2 = seq![MARKER, 'L', '0'] + t + seq![MARKER, 'L', '1'] + l + seq![MARKER, 'L', '2'];
    let n = t2.len() as int;
    let tl = t.len() as int;
    let ll = l.len() as int;
    assert(n == tl + ll + 9);
    assert(t2[0] == MARKER && t2[1] == 'L' && t2[2] == '0');
    assert(forall|k: int| 3 <= k < 3 + tl ==> t2[k] == t[k - 3]);
    assert(t2[3 + tl] == MARKER && t2[4 + tl] == 'L' && t2[5 + tl] == '1');
    assert(forall|k: int| 6 + tl <= k < 6 + tl + ll ==> t2[k] == l[k - 6 - tl]);
    assert(t2[n - 3] == MARKER && t2[n - 2] == 'L' && t2[n - 1] == '2');
    assert(crate::w_doku::slash_out(0) =~= Seq::<char>::empty());
    assert(crate::w_doku::doku_tag_out('L', '0') =~= seq!['[', '[']);
    assert(crate::w_doku::doku_tag_out('L', '1') =~= seq!['|']);
    assert(crate::w_doku::doku_tag_out('L', '2') =~= seq![']', ']']);
    lemma_doku_enc_seg(t2, 3, 3 + tl, false);
    assert(t2.subrange(3, 3 + tl) =~= t);
    lemma_doku_enc_seg(t2, 6 + tl, 6 + tl + ll, false);
    assert(t2.subrange(6 + tl, 6 + tl + ll) =~= l);
    assert(doku_enc_from(t2, n, 0, false, false) =~= Seq::<char>::empty());
    assert(doku_enc_from(t2, 0, 0, false, false) =~= seq!['[', '['] + t + seq!['|'] + l + seq![
        ']',
        ']',
    ]);
}

/// Inline bijectivity of DokuWiki links with a label: decoding native
/// `[[target|label]]` and re-encoding to the same dialect reproduces it.
pub proof fn lemma_doku_link_bijective(t: Seq<char>, l: Seq<char>)
    requires
        t.len() >= 1,
        forall|k: int| 0 <= k < t.len() ==> doku_plain(#[trigger] t[k]),
        forall|k: int| 0 <= k < l.len() ==> doku_plain(#[trigger] l[k]),
    ensures
        doku_enc_from(
            doku_rewritten(seq!['[', '['] + t + seq!['|'] + l + seq![']', ']']),
            0,
            0,
            false,
            false,
        ) == seq!['[', '['] + t + seq!['|'] + l + seq![']', ']'],
{
    lemma_doku_link_decode(t, l);
    lemma_doku_enc_link(t, l);
}

/// Cross-dialect link reorder: a native `[label](target)` link decoded from
/// the Markdown-like dialect and re-encoded to the wiki-style target yields
/// `[[target|label]]`.
pub proof fn lemma_link_reorder_md_to_doku(l: Seq<char>, t: Seq<char>)
    requires
        l.len() >= 1,
        t.len() >= 1,
        forall|k: int| 0 <= k < l.len() ==> md_plain(#[trigger] l[k]) && doku_plain(l[k]),
        forall|k: int| 0 <= k < t.len() ==> md_plain(#[trigger] t[k]) && doku_plain(t[k]),
    ensures
        doku_enc_from(md_inline(seq!['['] + l + seq![']', '('] + t + seq![')']), 0, 0, false, false)
            == seq!['[', '['] + t + seq!['|'] + l + seq![']', ']'],
{
    lemma_md_link_decode(l, t);
    lemma_doku_enc_link(t, l);
}

/// Cross-dialect link reorder, the inverse way: a native `[[target|label]]`
/// link decoded from the wiki dialect and re-encoded to the Markdown-like
/// dialect yields `[label](target)`.
pub proof fn lemma_link_reorder_doku_to_md(t: Seq<char>, l: Seq<char>)
    requires
        t.len() >= 1,
        forall|k: int| 0 <= k < t.len() ==> md_plain(#[trigger] t[k]) && doku_plain(t[k]),
        forall|k: int| 0 <= k < l.len() ==> md_plain(#[trigger] l[k]) && doku_plain(l[k]),
    ensures
        md_enc_from(doku_rewritten(seq!['[', '['] + t + seq!['|'] + l + seq![']', ']']), 0)
            == seq!['['] + l + seq![']', '('] + t + seq![')'],
{
    lemma_doku_link_decode(t, l);
    lemma_md_enc_link(l, t);
}

/// Table alignment round trip: the header-separator cell the Markdown-like
/// encoder writes for an alignment decodes back to the same alignment, for
/// every alignment.
pub proof fn lemma_md_align_bijective(a: ETableAlign)
    ensures
        md_align_of(md_sep_cell(a).drop_last()) == a,
{
    let cell = md_sep_cell(a).drop_last();
    assert(crate::chars::skip_ws(cell, 0) == 0);
    assert(crate::chars::ws_end(cell, cell.len() as int) == cell.len() as int);
    assert(crate::chars::trim_seq(cell) =~= cell);
    match a {
        ETableAlign::CENTER => {
            assert(cell =~= seq![':', '-', '-', '-', '-', ':']);
        },
        ETableAlign::LEFT => {
            assert(cell =~= seq![':', '-', '-', '-', '-']);
        },
        ETableAlign::RIGHT => {
            assert(cell =~= seq!['-', '-', '-', '-', ':']);
        },
        ETableAlign::DEFAULT => {
            assert(cell =~= seq!['-', '-', '-', '-', '-']);
        },
    }
}

/// Table alignment round trip for the whitespace-encoded channel: the
/// padding the DokuWiki encoder writes for an alignment decodes back to the
/// same alignment, for every alignment, whenever the cell text itself does
/// not start or end with a space.
pub proof fn lemma_doku_align_bijective(a: ETableAlign, text: Seq<char>)
    requires
        text.len() >= 1,
        text[0] != ' ',
        text.last() != ' ',
    ensures
        crate::w_doku::doku_cell_align(
            crate::w_doku::doku_cell_ls(a) + text + crate::w_doku::doku_cell_rs(a),
        ) == a,
{
    let td = crate::w_doku::doku_cell_ls(a) + text + crate::w_doku::doku_cell_rs(a);
    let n = td.len() as int;
    match a {
        ETableAlign::CENTER => {
            assert(td[0] == ' ' && td[1] == ' ' && td[n - 1] == ' ' && td[n - 2] == ' ');
        },
        ETableAlign::LEFT => {
            assert(td[0] == ' ' && td[1] == text[0] && td[n - 1] == ' ' && td[n - 2] == ' ');
        },
        ETableAlign::RIGHT => {
            assert(td[0] == ' ' && td[1] == ' ' && td[n - 1] == ' ' && td[n - 2] == text.last());
        },
        ETableAlign::DEFAULT => {
            assert(td[0] == ' ' && td[1] == text[0] && td[n - 1] == ' ' && td[n - 2]
                == text.last());
        },
    }
}

/// An empty language tag renders a tagless fence on the Markdown-like
/// target, with the body passed through verbatim.
pub proof fn lemma_md_tagless_fence(text: Seq<char>)
    ensures
        crate::w_md::md_single(
            ElemSpec::Pre { etype: ElementType::PRETAG, text: text, code: Seq::empty() },
        ) == seq!['`', '`', '`', '\n'] + text + seq!['`', '`', '`', '\n'],
{
    assert(crate::w_md::md_single(
        ElemSpec::Pre { etype: ElementType::PRETAG, text: text, code: Seq::empty() },
    ) =~= seq!['`', '`', '`', '\n'] + text + seq!['`', '`', '`', '\n']);
}

/// An empty language tag renders a tagless fence on the DokuWiki target,
/// with the body passed through verbatim.
pub proof fn lemma_doku_tagless_fence(text: Seq<char>)
    ensures
        crate::w_doku::doku_single(
            ElemSpec::Pre { etype: ElementType::PRETAG, text: text, code: Seq::empty() },
        ) == seq!['<', 'c', 'o', 'd', 'e', '>', '\n'] + text + seq![
            '<',
            '/',
            'c',
            'o',
            'd',
            'e',
            '>',
            '\n',
        ],
{
}

/// An empty language tag renders a tagless fence on the Confluence-style
/// target, with the body passed through verbatim.
pub proof fn lemma_conf_tagless_fence(text: Seq<char>)
    ensures
        crate::w_conf::conf_single(
            ElemSpec::Pre { etype: ElementType::PRETAG, text: text, code: Seq::empty() },
        ) == seq!['{', 'c', 'o', 'd', 'e', ':'] + crate::w_conf::conf_code_opts() + text
            + crate::w_conf::conf_code_end(),
{
}

/// The PukiWiki target's fence is indentation alone: its code-block output
/// never depends on the language tag, so every tag renders taglessly there.
pub proof fn lemma_puki_tagless_fence(text: Seq<char>, code: Seq<char>)
    ensures
        crate::w_puki::puki_single(
            ElemSpec::Pre { etype: ElementType::PRETAG, text: text, code: code },
        ) == crate::w_puki::puki_pre_out(text),
{
}

/// Membership in the PukiWiki mark set, character by character.
pub proof fn lemma_puki_marks(c: char)
    ensures
        puki_marks().contains(c) <==> (c == '\'' || c == '%' || c == '[' || c == ']' || c == '>'
            || c == '|'),
{
    assert(puki_marks()[0] == '\'');
    assert(puki_marks()[1] == '%');
    assert(puki_marks()[2] == '[');
    assert(puki_marks()[3] == ']');
    assert(puki_marks()[4] == '>');
    assert(puki_marks()[5] == '|');
    if puki_marks().contains(c) {
        let i = choose|i: int| 0 <= i < puki_marks().len() && puki_marks()[i] == c;
        assert(0 <= i < 6);
    }
}

/// A character that cannot take part in any PukiWiki inline pattern, native
/// or tagged.
pub open spec fn puki_plain(c: char) -> bool {
    c != '\'' && c != '%' && c != '[' && c != ']' && c != '>' && c != '|' && c != MARKER
}

/// No PukiWiki strikethrough form matches a line without percent signs.
proof fn lemma_puki_strike_none(s: Seq<char>, i: int)
    requires
        -1 <= i,
        forall|k: int| 0 <= k < s.len() ==> s[k] != '%',
    ensures
        crate::w_puki::puki_strike_find_from(s, i) is None,
    decreases i + 1,
{
    if i >= 0 {
        lemma_puki_strike_none(s, i - 1);
    }
}

/// No PukiWiki decode rewriting step applies to a line without its marks.
pub proof fn lemma_puki_quiet(t: Seq<char>)
    requires
        forall|k: int| 0 <= k < t.len() ==> !puki_marks().contains(#[trigger] t[k]),
    ensures
        puki_step(t) is None,
{
    assert forall|k: int| 0 <= k < t.len() implies t[k] != '\'' && t[k] != '%' && t[k] != '['
        && t[k] != ']' && t[k] != '>' && t[k] != '|' by {
        lemma_puki_marks(t[k]);
    }
    let fr = Boundary::Free;
    lemma_em_absent(
        t,
        seq!['\'', '\'', '\''],
        seq!['\'', '\'', '\''],
        '\'',
        fr,
        fr,
        t.len() as int,
    );
    lemma_em_absent(t, seq!['\'', '\''], seq!['\'', '\''], '\'', fr, fr, t.len() as int);
    lemma_puki_strike_none(t, t.len() as int);
    if t.len() >= 2 {
        lemma_last_pair_bounds(t, ']', ']', t.len() - 2);
        match crate::chars::last_pair(t, ']', ']', t.len() - 2) {
            Some(j) => {
                assert(t[j] == ']');
            },
            None => {},
        }
    }
}

/// Once no step applies, PukiWiki rewriting is over, whatever fuel is left.
pub proof fn lemma_puki_fix(t: Seq<char>, fuel: nat)
    requires
        puki_step(t) is None,
    ensures
        puki_rewrite_fuel(t, fuel) == t,
    decreases fuel,
{
    if fuel > 0 {
        lemma_puki_fix(t, (fuel - 1) as nat);
    }
}

/// The PukiWiki encoder passes everything but the marker byte through.
pub proof fn lemma_puki_enc_seg(s: Seq<char>, i: int, j: int)
    requires
        0 <= i <= j <= s.len(),
        forall|k: int| i <= k < j ==> s[k] != MARKER,
    ensures
        puki_enc_from(s, i) == s.subrange(i, j) + puki_enc_from(s, j),
    decreases j - i,
{
    if i < j {
        lemma_puki_enc_seg(s, i + 1, j);
        assert(puki_enc_from(s, i) =~= s.subrange(i, j) + puki_enc_from(s, j));
    } else {
        assert(puki_enc_from(s, i) =~= s.subrange(i, j) + puki_enc_from(s, j));
    }
}

/// The PukiWiki encoder turns the canonical tag pair around a plain stretch
/// back into the native markup of the two tags.
proof fn lemma_puki_enc_tagged(t0: char, t1: char, t2: char, t3: char, m: Seq<char>)
    requires
        t0 != 'L' && t2 != 'L',
        forall|k: int| 0 <= k < m.len() ==> puki_plain(#[trigger] m[k]),
    ensures
        puki_enc_from(tagged(t0, t1, t2, t3, m), 0) == crate::w_puki::puki_tag_out(t0, t1) + m
            + crate::w_puki::puki_tag_out(t2, t3),
{
    let t = tagged(t0, t1, t2, t3, m);
    let n = t.len() as int;
    assert(n == m.len() + 6);
    assert(t[0] == MARKER && t[1] == t0 && t[2] == t1);
    assert(t[3 + m.len() as int] == MARKER && t[4 + m.len() as int] == t2 && t[5 + m.len() as int]
        == t3);
    assert(forall|k: int| 3 <= k < 3 + m.len() ==> t[k] == m[k - 3]);
    assert(puki_enc_from(t, 0) == crate::w_puki::puki_tag_out(t0, t1) + puki_enc_from(t, 3));
    lemma_puki_enc_seg(t, 3, 3 + m.len() as int);
    assert(t.subrange(3, 3 + m.len() as int) =~= m);
    assert(puki_enc_from(t, 3 + m.len() as int) == crate::w_puki::puki_tag_out(t2, t3)
        + puki_enc_from(t, n));
    assert(puki_enc_from(t, n) =~= Seq::<char>::empty());
    assert(puki_enc_from(t, 0) =~= crate::w_puki::puki_tag_out(t0, t1) + m
        + crate::w_puki::puki_tag_out(t2, t3));
}

/// After the rewrite of a symmetric pattern, no further PukiWiki step
/// applies, and the whole inline decode equals that one rewrite.
proof fn lemma_puki_decode_em(
    f: char,
    d: int,
    t0: char,
    t1: char,
    t2: char,
    t3: char,
    m: Seq<char>,
)
    requires
        1 <= d,
        m.len() >= 1,
        puki_marks().contains(f),
        !puki_marks().contains(t0) && !puki_marks().contains(t1) && !puki_marks().contains(t2)
            && !puki_marks().contains(t3),
        forall|k: int| 0 <= k < m.len() ==> puki_plain(#[trigger] m[k]),
        puki_step(repeat_char(f, d as nat) + m + repeat_char(f, d as nat)) == Some(
            tagged(t0, t1, t2, t3, m),
        ),
    ensures
        puki_rewritten(repeat_char(f, d as nat) + m + repeat_char(f, d as nat)) == tagged(
            t0,
            t1,
            t2,
            t3,
            m,
        ),
{
    let dl = repeat_char(f, d as nat);
    let s = dl + m + dl;
    let t = tagged(t0, t1, t2, t3, m);
    assert(t.len() == m.len() + 6);
    assert(t[0] == MARKER && t[1] == t0 && t[2] == t1);
    assert(t[3 + m.len() as int] == MARKER && t[4 + m.len() as int] == t2 && t[5 + m.len() as int]
        == t3);
    assert forall|k: int| 0 <= k < t.len() implies !puki_marks().contains(#[trigger] t[k]) by {
        lemma_puki_marks(t[k]);
        lemma_puki_marks(MARKER);
        if 3 <= k < 3 + m.len() {
            assert(t[k] == m[k - 3]);
        }
    }
    lemma_puki_quiet(t);
    assert(s[0] == f);
    lemma_count_marks_pos(s, puki_marks(), 0);
    let fuel = count_marks(s, puki_marks());
    assert(puki_rewrite_fuel(s, fuel) == puki_rewrite_fuel(t, (fuel - 1) as nat));
    lemma_puki_fix(t, (fuel - 1) as nat);
}

/// Inline bijectivity of PukiWiki tier-1 emphasis: decoding native
/// `'''m'''` and re-encoding to the same dialect reproduces it.
pub proof fn lemma_puki_em1_bijective(m: Seq<char>)
    requires
        m.len() >= 1,
        forall|k: int| 0 <= k < m.len() ==> puki_plain(#[trigger] m[k]),
    ensures
        puki_enc_from(
            puki_rewritten(seq!['\'', '\'', '\''] + m + seq!['\'', '\'', '\'']),
            0,
        ) == seq!['\'', '\'', '\''] + m + seq!['\'', '\'', '\''],
{
    let fr = Boundary::Free;
    let dl = repeat_char('\'', 3);
    assert(dl =~= seq!['\'', '\'', '\'']);
    lemma_em_symmetric('\'', 3, fr, fr, 'B', '1', 'b', '1', m);
    assert(puki_step(dl + m + dl) == Some(tagged('B', '1', 'b', '1', m)));
    lemma_puki_marks('\'');
    lemma_puki_marks('B');
    lemma_puki_marks('b');
    lemma_puki_marks('1');
    lemma_puki_decode_em('\'', 3, 'B', '1', 'b', '1', m);
    lemma_puki_enc_tagged('B', '1', 'b', '1', m);
    assert(crate::w_puki::puki_tag_out('B', '1') =~= seq!['\'', '\'', '\'']);
    assert(crate::w_puki::puki_tag_out('b', '1') =~= seq!['\'', '\'', '\'']);
}

/// Inline bijectivity of PukiWiki tier-2 emphasis: decoding native `''m''`
/// and re-encoding to the same dialect reproduces it.
pub proof fn lemma_puki_em2_bijective(m: Seq<char>)
    requires
        m.len() >= 1,
        forall|k: int| 0 <= k < m.len() ==> puki_plain(#[trigger] m[k]),
    ensures
        puki_enc_from(puki_rewritten(seq!['\'', '\''] + m + seq!['\'', '\'']), 0) == seq![
            '\'',
            '\'',
        ] + m + seq!['\'', '\''],
{
    let fr = Boundary::Free;
    let dl = repeat_char('\'', 2);
    assert(dl =~= seq!['\'', '\'']);
    let s = dl + m + dl;
    lemma_no_longer_run('\'', 2, 3, fr, fr, m);
    assert(repeat_char('\'', 3) =~= seq!['\'', '\'', '\'']);
    lemma_em_symmetric('\'', 2, fr, fr, 'B', '2', 'b', '2', m);
    assert(puki_step(s) == Some(tagged('B', '2', 'b', '2', m)));
    lemma_puki_marks('\'');
    lemma_puki_marks('B');
    lemma_puki_marks('b');
    lemma_puki_marks('2');
    lemma_puki_decode_em('\'', 2, 'B', '2', 'b', '2', m);
    lemma_puki_enc_tagged('B', '2', 'b', '2', m);
    assert(crate::w_puki::puki_tag_out('B', '2') =~= seq!['\'', '\'']);
    assert(crate::w_puki::puki_tag_out('b', '2') =~= seq!['\'', '\'']);
}

/// Inline bijectivity of DokuWiki strikethrough: decoding native
/// `<del>m</del>` and re-encoding to the same dialect reproduces it.
pub proof fn lemma_doku_strike_bijective(m: Seq<char>)
    requires
        m.len() >= 1,
        forall|k: int| 0 <= k < m.len() ==> doku_plain(#[trigger] m[k]),
    ensures
        doku_enc_from(
            doku_rewritten(
                seq!['<', 'd', 'e', 'l', '>'] + m + seq!['<', '/', 'd', 'e', 'l', '>'],
            ),
            0,
            0,
            false,
            false,
        ) == seq!['<', 'd', 'e', 'l', '>'] + m + seq!['<', '/', 'd', 'e', 'l', '>'],
{
    let fr = Boundary::Free;
    let dl = seq!['<', 'd', 'e', 'l', '>'];
    let dr = seq!['<', '/', 'd', 'e', 'l', '>'];
    let s = dl + m + dr;
    let n = s.len() as int;
    let ml = m.len() as int;
    assert(n == ml + 11);
    assert(s[0] == '<' && s[1] == 'd' && s[2] == 'e' && s[3] == 'l' && s[4] == '>');
    assert(forall|k: int| 5 <= k < 5 + ml ==> s[k] == m[k - 5]);
    assert(s[5 + ml] == '<' && s[6 + ml] == '/' && s[7 + ml] == 'd' && s[8 + ml] == 'e' && s[9
        + ml] == 'l' && s[10 + ml] == '>');
    lemma_em_absent(s, seq!['*', '*'], seq!['*', '*'], '*', fr, fr, n);
    // the slash pair pattern fails: the line holds a single slash
    assert forall|k: int| 0 <= k <= n implies !crate::tags::em_ok(
        s,
        seq!['/', '/'],
        seq!['/', '/'],
        '/',
        fr,
        fr,
        k,
    ) by {
        if crate::tags::em_ok(s, seq!['/', '/'], seq!['/', '/'], '/', fr, fr, k) {
            assert(s.subrange(k, k + 2)[0] == s[k]);
            assert(s.subrange(k, k + 2)[1] == s[k + 1]);
            assert(s[k] == '/' && s[k + 1] == '/');
            assert(k == 6 + ml);
        }
    }
    crate::tags::lemma_em_none(s, seq!['/', '/'], seq!['/', '/'], '/', fr, fr, n);
    // the strikethrough pattern matches at the start and nowhere else
    assert(first_idx(dr, '/', 1) == Some(1int));
    assert(first_idx(dr, '/', 0) == Some(1int));
    assert(crate::tags::em_ok(s, dl, dr, '/', fr, fr, 0)) by {
        assert(s.subrange(0, 5) =~= dl);
        lemma_first_idx_skip(s, '/', 5, 6 + ml);
        assert(first_idx(s, '/', 6 + ml) == Some(6 + ml));
        assert(s.subrange(5 + ml, 11 + ml) =~= dr);
    }
    assert forall|k: int| 0 < k <= n implies !crate::tags::em_ok(s, dl, dr, '/', fr, fr, k) by {
        if crate::tags::em_ok(s, dl, dr, '/', fr, fr, k) {
            assert(s.subrange(k, k + 5)[0] == s[k]);
            assert(s[k] == '<');
            assert(k == 5 + ml);
            assert(s.subrange(k, k + 5)[1] == s[k + 1]);
        }
    }
    lemma_em_find_unique(s, dl, dr, '/', fr, fr, 0, n);
    let t = tagged('D', '0', 'd', '0', m);
    assert(crate::tags::em_step(s, dl, dr, '/', fr, fr, 'D', '0', 'd', '0') =~= t) by {
        lemma_first_idx_skip(s, '/', 5, 6 + ml);
        assert(s.subrange(0, 0) =~= Seq::<char>::empty());
        assert(s.subrange(5, 5 + ml) =~= m);
        assert(s.subrange(11 + ml, n) =~= Seq::<char>::empty());
    }
    assert(doku_step(s) == Some(t));
    assert(t.len() == ml + 6);
    assert(t[0] == MARKER && t[1] == 'D' && t[2] == '0');
    assert(t[3 + ml] == MARKER && t[4 + ml] == 'd' && t[5 + ml] == '0');
    assert forall|k: int| 0 <= k < t.len() implies !doku_marks().contains(#[trigger] t[k]) by {
        lemma_doku_marks(t[k]);
        if 3 <= k < 3 + ml {
            assert(t[k] == m[k - 3]);
        }
    }
    lemma_doku_quiet(t);
    lemma_doku_marks('<');
    lemma_count_marks_pos(s, doku_marks(), 0);
    let fuel = count_marks(s, doku_marks());
    assert(doku_rewrite_fuel(s, fuel) == doku_rewrite_fuel(t, (fuel - 1) as nat));
    lemma_doku_fix(t, (fuel - 1) as nat);
    lemma_doku_enc_tagged('D', '0', 'd', '0', m);
    assert(crate::w_doku::doku_tag_out('D', '0') =~= dl);
    assert(crate::w_doku::doku_tag_out('d', '0') =~= dr);
}

/// Downward search for the PukiWiki strikethrough form finds the single
/// matching position when everything above it fails.
proof fn lemma_puki_strike_unique(s: Seq<char>, j0: int, i: int)
    requires
        0 <= j0 <= i,
        crate::w_puki::puki_strike_ok(s, j0),
        forall|k: int| j0 < k <= i ==> !crate::w_puki::puki_strike_ok(s, k),
    ensures
        crate::w_puki::puki_strike_find_from(s, i) == Some(j0),
    decreases i - j0,
{
    if i > j0 {
        lemma_puki_strike_unique(s, j0, i - 1);
    }
}

/// Inline bijectivity of PukiWiki strikethrough: decoding native `%%m%%`
/// and re-encoding to the same dialect reproduces it.
pub proof fn lemma_puki_strike_bijective(m: Seq<char>)
    requires
        m.len() >= 1,
        forall|k: int| 0 <= k < m.len() ==> puki_plain(#[trigger] m[k]),
    ensures
        puki_enc_from(puki_rewritten(seq!['%', '%'] + m + seq!['%', '%']), 0) == seq!['%', '%'] + m
            + seq!['%', '%'],
{
    let fr = Boundary::Free;
    let s = seq!['%', '%'] + m + seq!['%', '%'];
    let n = s.len() as int;
    let ml = m.len() as int;
    assert(n == ml + 4);
    assert(s[0] == '%' && s[1] == '%');
    assert(forall|k: int| 2 <= k < 2 + ml ==> s[k] == m[k - 2]);
    assert(s[n - 2] == '%' && s[n - 1] == '%');
    lemma_em_absent(s, seq!['\'', '\'', '\''], seq!['\'', '\'', '\''], '\'', fr, fr, n);
    lemma_em_absent(s, seq!['\'', '\''], seq!['\'', '\''], '\'', fr, fr, n);
    // the strikethrough matches at the start
    lemma_first_idx_skip(s, '\'', 2, n);
    assert(first_idx(s, '\'', n) is None);
    assert(crate::chars::last_pair(s, '%', '%', n - 2) == Some(n - 2));
    assert(crate::w_puki::puki_strike_ds(s, 0) == Some(n - 2));
    assert(crate::w_puki::puki_strike_ok(s, 0));
    // and nowhere else
    assert forall|k: int| 0 < k <= n implies !crate::w_puki::puki_strike_ok(s, k) by {
        if crate::w_puki::puki_strike_ok(s, k) {
            assert(s[k] == '%' && s[k + 1] == '%');
            assert(k == n - 2);
            lemma_first_idx_skip(s, '\'', n, n);
            assert(first_idx(s, '\'', k + 2) is None);
            assert(crate::w_puki::puki_strike_ds(s, k) == Some(n - 2));
        }
    }
    lemma_puki_strike_unique(s, 0, n);
    let t = tagged('D', '0', 'd', '0', m);
    assert(crate::w_puki::puki_strike_step(s) =~= t) by {
        assert(s.subrange(0, 0) =~= Seq::<char>::empty());
        assert(s.subrange(2, 2 + ml) =~= m);
        assert(s.subrange(n, n) =~= Seq::<char>::empty());
    }
    assert(puki_step(s) == Some(t));
    assert(t.len() == ml + 6);
    assert(t[0] == MARKER && t[1] == 'D' && t[2] == '0');
    assert(t[3 + ml] == MARKER && t[4 + ml] == 'd' && t[5 + ml] == '0');
    assert forall|k: int| 0 <= k < t.len() implies !puki_marks().contains(#[trigger] t[k]) by {
        lemma_puki_marks(t[k]);
        if 3 <= k < 3 + ml {
            assert(t[k] == m[k - 3]);
        }
    }
    lemma_puki_quiet(t);
    lemma_puki_marks('%');
    lemma_count_marks_pos(s, puki_marks(), 0);
    let fuel = count_marks(s, puki_marks());
    assert(puki_rewrite_fuel(s, fuel) == puki_rewrite_fuel(t, (fuel - 1) as nat));
    lemma_puki_fix(t, (fuel - 1) as nat);
    lemma_puki_enc_tagged('D', '0', 'd', '0', m);
    assert(crate::w_puki::puki_tag_out('D', '0') =~= seq!['%', '%']);
    assert(crate::w_puki::puki_tag_out('d', '0') =~= seq!['%', '%']);
}

/// Downward search for the PukiWiki label-and-target link form finds the
/// single matching position when everything above it fails.
proof fn lemma_puki_l2_unique(s: Seq<char>, jj: int, j0: int, i: int)
    requires
        0 <= j0 <= i,
        crate::w_puki::puki_l2_ok(s, jj, j0),
        forall|k: int| j0 < k <= i ==> !crate::w_puki::puki_l2_ok(s, jj, k),
    ensures
        crate::w_puki::puki_l2_find_from(s, jj, i) == Some(j0),
    decreases i - j0,
{
    if i > j0 {
        lemma_puki_l2_unique(s, jj, j0, i - 1);
    }
}

/// Decoding the PukiWiki native link form: `[[label>target]]` becomes the
/// canonical order target, separator, label.
proof fn lemma_puki_link_decode(l: Seq<char>, t: Seq<char>)
    requires
        l.len() >= 1,
        t.len() >= 1,
        forall|k: int| 0 <= k < l.len() ==> puki_plain(#[trigger] l[k]),
        forall|k: int| 0 <= k < t.len() ==> puki_plain(#[trigger] t[k]),
    ensures
        puki_rewritten(seq!['[', '['] + l + seq!['>'] + t + seq![']', ']']) == seq![
            MARKER,
            'L',
            '0',
        ] + t + seq![MARKER, 'L', '1'] + l + seq![MARKER, 'L', '2'],
{
    let fr = Boundary::Free;
    let s = seq!['[', '['] + l + seq!['>'] + t + seq![']', ']'];
    let n = s.len() as int;
    let ll = l.len() as int;
    let tl = t.len() as int;
    assert(n == ll + tl + 5);
    assert(s[0] == '[' && s[1] == '[');
    assert(forall|k: int| 2 <= k < 2 + ll ==> s[k] == l[k - 2]);
    assert(s[2 + ll] == '>');
    assert(forall|k: int| 3 + ll <= k < 3 + ll + tl ==> s[k] == t[k - 3 - ll]);
    assert(s[n - 2] == ']' && s[n - 1] == ']');
    lemma_em_absent(s, seq!['\'', '\'', '\''], seq!['\'', '\'', '\''], '\'', fr, fr, n);
    lemma_em_absent(s, seq!['\'', '\''], seq!['\'', '\''], '\'', fr, fr, n);
    lemma_puki_strike_none(s, n);
    assert(crate::chars::last_pair(s, ']', ']', n - 2) == Some(n - 2));
    let jj = n - 2;
    lemma_first_idx_skip(s, '|', 2, n);
    assert(first_idx(s, '|', 2) is None);
    crate::chars::lemma_last_idx_skip(s, '>', n - 3, 2 + ll);
    assert(crate::chars::last_idx(s, '>', 2 + ll) == Some(2 + ll));
    assert(crate::w_puki::puki_l2_g(s, jj, 0) == Some(2 + ll));
    assert(crate::w_puki::puki_l2_ok(s, jj, 0));
    assert forall|k: int| 0 < k <= n implies !#[trigger] crate::w_puki::puki_l2_ok(
        s,
        jj,
        k,
    ) by {
        if crate::w_puki::puki_l2_ok(s, jj, k) {
            assert(s[k] == '[' && s[k + 1] == '[');
        }
    }
    lemma_puki_l2_unique(s, jj, 0, n);
    assert(crate::w_puki::puki_l2_find(s) == Some((0int, 2 + ll, jj)));
    let t2 = crate::w_puki::puki_l2_step(s);
    assert(t2 =~= seq![MARKER, 'L', '0'] + t + seq![MARKER, 'L', '1'] + l + seq![
        MARKER,
        'L',
        '2',
    ]) by {
        assert(s.subrange(0, 0) =~= Seq::<char>::empty());
        assert(s.subrange(3 + ll, jj) =~= t);
        assert(s.subrange(2, 2 + ll) =~= l);
        assert(s.subrange(n, n) =~= Seq::<char>::empty());
    }
    assert(puki_step(s) == Some(t2));
    assert forall|k: int| 0 <= k < t2.len() implies !puki_marks().contains(#[trigger] t2[k]) by {
        lemma_puki_marks(t2[k]);
        if 3 <= k < 3 + tl {
            assert(t2[k] == t[k - 3]);
        }
        if 6 + tl <= k < 6 + tl + ll {
            assert(t2[k] == l[k - 6 - tl]);
        }
    }
    lemma_puki_quiet(t2);
    lemma_puki_marks('[');
    lemma_count_marks_pos(s, puki_marks(), 0);
    let fuel = count_marks(s, puki_marks());
    assert(puki_rewrite_fuel(s, fuel) == puki_rewrite_fuel(t2, (fuel - 1) as nat));
    lemma_puki_fix(t2, (fuel - 1) as nat);
}

/// The PukiWiki encoder reads both payloads ahead and writes its native
/// label-then-target order.
proof fn lemma_puki_enc_link(t: Seq<char>, l: Seq<char>)
    requires
        forall|k: int| 0 <= k < t.len() ==> puki_plain(#[trigger] t[k]),
        forall|k: int| 0 <= k < l.len() ==> puki_plain(#[trigger] l[k]),
    ensures
        puki_enc_from(
            seq![MARKER, 'L', '0'] + t + seq![MARKER, 'L', '1'] + l + seq![MARKER, 'L', '2'],
            0,
        ) == seq!['[', '['] + l + seq!['>'] + t + seq![']', ']'],
{
    let t2 = seq![MARKER, 'L', '0'] + t + seq![MARKER, 'L', '1'] + l + seq![MARKER, 'L', '2'];
    let n = t2.len() as int;
    let tl = t.len() as int;
    let ll = l.len() as int;
    assert(n == ll + tl + 9);
    assert(t2[0] == MARKER && t2[1] == 'L' && t2[2] == '0');
    assert(forall|k: int| 3 <= k < 3 + tl ==> t2[k] == t[k - 3]);
    assert(t2[3 + tl] == MARKER && t2[4 + tl] == 'L' && t2[5 + tl] == '1');
    assert(forall|k: int| 6 + tl <= k < 6 + tl + ll ==> t2[k] == l[k - 6 - tl]);
    assert(t2[n - 3] == MARKER && t2[n - 2] == 'L' && t2[n - 1] == '2');
    lemma_first_idx_skip(t2, MARKER, 3, 3 + tl);
    assert(first_idx(t2, MARKER, 3) == Some(3 + tl));
    lemma_first_idx_skip(t2, MARKER, 6 + tl, n - 3);
    assert(first_idx(t2, MARKER, 6 + tl) == Some(n - 3));
    assert(crate::tags::link_parts(t2, 3) == (
        t2.subrange(3, 3 + tl),
        t2.subrange(6 + tl, n - 3),
        n,
    ));
    assert(t2.subrange(3, 3 + tl) =~= t);
    assert(t2.subrange(6 + tl, n - 3) =~= l);
    assert(puki_enc_from(t2, 0) == seq!['[', '['] + l + seq!['>'] + t + seq![']', ']']
        + puki_enc_from(t2, n));
    assert(puki_enc_from(t2, n) =~= Seq::<char>::empty());
    assert(puki_enc_from(t2, 0) =~= seq!['[', '['] + l + seq!['>'] + t + seq![']', ']']);
}

/// Inline bijectivity of PukiWiki links with a label: decoding native
/// `[[label>target]]` and re-encoding to the same dialect reproduces it.
pub proof fn lemma_puki_link_bijective(l: Seq<char>, t: Seq<char>)
    requires
        l.len() >= 1,
        t.len() >= 1,
        forall|k: int| 0 <= k < l.len() ==> puki_plain(#[trigger] l[k]),
        forall|k: int| 0 <= k < t.len() ==> puki_plain(#[trigger] t[k]),
    ensures
        puki_enc_from(puki_rewritten(seq!['[', '['] + l + seq!['>'] + t + seq![']', ']']), 0)
            == seq!['[', '['] + l + seq!['>'] + t + seq![']', ']'],
{
    lemma_puki_link_decode(l, t);
    lemma_puki_enc_link(t, l);
}

/// The source lines from index `i` on, each closed with a newline.
pub open spec fn joined_from(lines: Seq<Seq<char>>, i: int) -> Seq<char>
    decreases lines.len() - i
    when 0 <= i <= lines.len()
{
    if i == lines.len() {
        Seq::empty()
    } else {
        lines[i] + seq!['\n'] + joined_from(lines, i + 1)
    }
}

/// Prepending one line shifts the join by one index.
proof fn lemma_joined_shift(x: Seq<char>, rest: Seq<Seq<char>>, j: int)
    requires
        0 <= j <= rest.len(),
    ensures
        joined_from(seq![x] + rest, j + 1) == joined_from(rest, j),
    decreases rest.len() - j,
{
    if j < rest.len() {
        lemma_joined_shift(x, rest, j + 1);
        assert((seq![x] + rest)[j + 1] == rest[j]);
    }
}

/// While a code block is open and no closing fence follows, every remaining
/// line is appended verbatim to the body, and the end-of-input flush carries
/// them all unchanged.
proof fn lemma_md_pre_accum(lines: Seq<Seq<char>>, st: MdState, i: int)
    requires
        st.pre_block,
        0 <= i <= lines.len(),
        forall|k: int| i <= k < lines.len() ==> md_fence(#[trigger] lines[k]) is None,
    ensures
        md_load_from(lines, st, i) == seq![
            ElemSpec::Pre {
                etype: ElementType::PRETAG,
                text: st.pre_data + joined_from(lines, i),
                code: st.pre_code,
            },
        ],
    decreases lines.len() - i,
{
    if i == lines.len() {
        assert(st.pre_data + joined_from(lines, i) =~= st.pre_data);
    } else {
        let st2 = MdState { pre_data: st.pre_data + lines[i] + seq!['\n'], ..st };
        lemma_md_pre_accum(lines, st2, i + 1);
        assert(st.pre_data + lines[i] + seq!['\n'] + joined_from(lines, i + 1) =~= st.pre_data
            + joined_from(lines, i));
        assert(md_load_from(lines, st, i) =~= seq![
            ElemSpec::Pre {
                etype: ElementType::PRETAG,
                text: st.pre_data + joined_from(lines, i),
                code: st.pre_code,
            },
        ]);
    }
}

/// Fenced code passthrough: a fence opener followed by lines that close no
/// fence decodes to a code block holding those lines verbatim, however
/// markup-like they look; no inline decoding touches them.  (Every encoder
/// then emits the stored body verbatim inside its own fence syntax, as its
/// output definition shows directly.)
pub proof fn lemma_md_fence_passthrough(tag: Seq<char>, body: Seq<Seq<char>>)
    requires
        forall|k: int| 0 <= k < body.len() ==> md_fence(#[trigger] body[k]) is None,
    ensures
        md_elems(seq![seq!['`', '`', '`'] + tag] + body) == seq![
            ElemSpec::Empty,
            ElemSpec::Pre {
                etype: ElementType::PRETAG,
                text: joined_from(body, 0),
                code: tag,
            },
        ],
{
    let open = seq!['`', '`', '`'] + tag;
    let lines = seq![open] + body;
    let st0 = md_init_state();
    assert(open[0] == '`' && open[1] == '`' && open[2] == '`');
    assert(!md_is_hr(open));
    assert(crate::chars::skip_run(open, '#', 0) == 0);
    assert(md_heading(open) is None);
    assert(crate::chars::skip_ws(open, 0) == 0);
    assert(md_list_ul(open) is None);
    assert(crate::chars::skip_digits(open, 0) == 0);
    assert(md_list_ol(open) is None);
    assert(open.subrange(0, 3) =~= seq!['`', '`', '`']);
    assert(md_fence(open) == Some(open.subrange(3, open.len() as int)));
    assert(open.subrange(3, open.len() as int) =~= tag);
    let st1 = MdState { pre_block: true, pre_code: tag, pre_data: Seq::empty(), ..st0 };
    assert(md_match_line(st0, open) == (st1, seq![ElemSpec::Empty]));
    assert(lines[0] == open);
    assert(md_line_step(st0, lines[0]) == (st1, seq![ElemSpec::Empty]));
    assert(forall|k: int| 1 <= k < lines.len() ==> lines[k] == body[k - 1]);
    lemma_md_pre_accum(lines, st1, 1);
    lemma_joined_shift(open, body, 0);
    assert(st1.pre_data + joined_from(lines, 1) =~= joined_from(body, 0));
    assert(md_elems(lines) =~= seq![
        ElemSpec::Empty,
        ElemSpec::Pre { etype: ElementType::PRETAG, text: joined_from(body, 0), code: tag },
    ]);
}

/// A plain text line: no character that any inline pattern or escape form
/// reads, and no line matcher accepts it.
pub open spec fn md_text_line(l: Seq<char>) -> bool {
    &&& forall|k: int| 0 <= k < l.len() ==> md_plain(#[trigger] l[k])
    &&& !md_is_hr(l)
    &&& md_heading(l) is None
    &&& md_list_ul(l) is None
    &&& md_list_ol(l) is None
    &&& md_fence(l) is None
    &&& md_table_row(l) is None
}

/// A canonical heading line: a run of hashes, one space, and a plain title
/// that does not begin with whitespace.
pub open spec fn md_heading_line(l: Seq<char>) -> bool {
    let h = crate::chars::skip_run(l, '#', 0);
    &&& 1 <= h <= u32::MAX
    &&& h < l.len() && l[h] == ' '
    &&& (h + 1 == l.len() || !crate::chars::is_ws(l[h + 1]))
    &&& forall|k: int| h + 1 <= k < l.len() ==> md_plain(#[trigger] l[k])
}

/// A line of the modeled subset the round-trip law covers: plain text, a
/// canonical heading, or the canonical rule.
pub open spec fn md_simple_line(l: Seq<char>) -> bool {
    md_text_line(l) || md_heading_line(l) || l == seq!['-', '-', '-', '-']
}

/// The whole inline decode is the identity on a line of plain characters.
proof fn lemma_md_inline_id(l: Seq<char>)
    requires
        forall|k: int| 0 <= k < l.len() ==> md_plain(#[trigger] l[k]),
    ensures
        md_inline(l) == l,
        md_enc_from(l, 0) == l,
{
    assert forall|k: int| 0 <= k < l.len() implies !md_marks().contains(#[trigger] l[k]) by {
        lemma_md_marks(l[k]);
    }
    lemma_md_quiet(l);
    lemma_md_fix(l, count_marks(l, md_marks()));
    lemma_md_unesc_id(l, 0);
    assert(l.subrange(0, l.len() as int) =~= l);
    lemma_md_enc_seg(l, 0, l.len() as int);
    assert(md_enc_from(l, l.len() as int) =~= Seq::<char>::empty());
    assert(l + Seq::<char>::empty() =~= l);
}

/// One simple line leaves the state unchanged, yields one element, and that
/// element's own native output is the line again, closed with a newline.
proof fn lemma_md_simple_step(st: MdState, l: Seq<char>)
    requires
        md_simple_line(l),
    ensures
        ({
            let m = md_match_line(st, l);
            &&& m.0 == st
            &&& m.1.len() == 1
            &&& crate::w_md::md_single(m.1[0]) == l + seq!['\n']
        }),
{
    if md_text_line(l) {
        lemma_md_inline_id(l);
        assert(md_match_line(st, l) == (st, seq![ElemSpec::Data { text: md_inline(l) }]));
        assert(crate::w_md::md_single(ElemSpec::Data { text: l }) =~= l + seq!['\n']);
    } else if md_heading_line(l) {
        let h = crate::chars::skip_run(l, '#', 0);
        crate::chars::lemma_skip_run(l, '#', 0);
        assert(!md_is_hr(l)) by {
            assert(l[0] == '#');
        }
        assert(crate::chars::skip_ws(l, h + 1) == h + 1);
        assert(crate::chars::skip_ws(l, h) == h + 1);
        let title = l.subrange(h + 1, l.len() as int);
        assert(md_heading(l) == Some((h as u32, title)));
        assert forall|k: int| 0 <= k < title.len() implies md_plain(#[trigger] title[k]) by {
            assert(title[k] == l[h + 1 + k]);
        }
        lemma_md_inline_id(title);
        let e = ElemSpec::Heading { etype: ElementType::HTAG, title: title, level: h as u32 };
        assert(md_match_line(st, l) == (st, seq![e]));
        assert(crate::w_md::md_single(e) =~= l + seq!['\n']) by {
            assert(forall|k: int| 0 <= k < h ==> l[k] == '#');
            assert(repeat_char('#', (h as u32) as nat) =~= l.subrange(0, h as int));
        }
    } else {
        assert(l == seq!['-', '-', '-', '-']);
        assert(md_is_hr(l)) by {
            assert(l[0] == '-' && l[1] == '-' && l[2] == '-' && l[3] == '-');
            assert(l.drop_last() =~= seq!['-', '-', '-']);
            assert(seq!['-', '-', '-'].drop_last() =~= seq!['-', '-']);
            assert(seq!['-', '-'].drop_last() =~= seq!['-']);
            assert(seq!['-'].drop_last() =~= Seq::<char>::empty());
            assert(seq!['-'].contains('-')) by {
                assert(seq!['-'][0] == '-');
            }
            assert(count_marks(Seq::<char>::empty(), seq!['-']) == 0);
            assert(count_marks(seq!['-'], seq!['-']) == 1);
            assert(count_marks(seq!['-', '-'], seq!['-']) == 2);
            assert(count_marks(seq!['-', '-', '-'], seq!['-']) == 3);
            assert(count_marks(l, seq!['-']) == 4);
        }
        assert(md_match_line(st, l) == (st, seq![ElemSpec::Rule]));
        assert(crate::w_md::md_single(ElemSpec::Rule) =~= l + seq!['\n']);
    }
}

/// Prepending one element shifts the document output by one index.
proof fn lemma_md_out_shift(e: ElemSpec, rest: Seq<ElemSpec>, j: int)
    requires
        0 <= j <= rest.len(),
    ensures
        crate::w_md::md_out_from(seq![e] + rest, j + 1) == crate::w_md::md_out_from(rest, j),
    decreases rest.len() - j,
{
    if j < rest.len() {
        lemma_md_out_shift(e, rest, j + 1);
        assert((seq![e] + rest)[j + 1] == rest[j]);
    }
}

/// Round-trip stability over the remaining lines, from a state with no open
/// block.
proof fn lemma_md_round_trip_from(lines: Seq<Seq<char>>, st: MdState, i: int)
    requires
        0 <= i <= lines.len(),
        !st.pre_block,
        !st.table_block,
        forall|k: int| i <= k < lines.len() ==> md_simple_line(#[trigger] lines[k]),
    ensures
        crate::w_md::md_out_from(md_load_from(lines, st, i), 0) == joined_from(lines, i),
    decreases lines.len() - i,
{
    if i < lines.len() {
        lemma_md_simple_step(st, lines[i]);
        let m = md_match_line(st, lines[i]);
        let e = m.1[0];
        assert(md_line_step(st, lines[i]) == m);
        assert(m.1 =~= seq![e]);
        lemma_md_round_trip_from(lines, st, i + 1);
        let rest = md_load_from(lines, st, i + 1);
        assert(md_load_from(lines, st, i) == seq![e] + rest);
        lemma_md_out_shift(e, rest, 0);
        assert((seq![e] + rest)[0] == e);
        assert(crate::w_md::md_out_from(seq![e] + rest, 0) =~= joined_from(lines, i));
    }
}

/// Round-trip stability: decoding lines of the modeled subset (plain text,
/// canonical headings, the canonical rule) and re-encoding to the same
/// dialect reproduces the input byte for byte, one newline-closed line per
/// source line.
pub proof fn lemma_md_round_trip(lines: Seq<Seq<char>>)
    requires
        forall|k: int| 0 <= k < lines.len() ==> md_simple_line(#[trigger] lines[k]),
    ensures
        crate::w_md::md_out_from(md_elems(lines), 0) == joined_from(lines, 0),
{
    lemma_md_round_trip_from(lines, md_init_state(), 0);
}

/// The whole DokuWiki inline decode and encode are the identity on a line
/// of plain characters.
proof fn lemma_doku_inline_id(l: Seq<char>)
    requires
        forall|k: int| 0 <= k < l.len() ==> doku_plain(#[trigger] l[k]),
    ensures
        doku_rewritten(l) == l,
        doku_enc_from(l, 0, 0, false, false) == l,
{
    assert forall|k: int| 0 <= k < l.len() implies !doku_marks().contains(#[trigger] l[k]) by {
        lemma_doku_marks(l[k]);
    }
    lemma_doku_quiet(l);
    lemma_doku_fix(l, count_marks(l, doku_marks()));
    lemma_doku_enc_seg(l, 0, l.len() as int, false);
    assert(l.subrange(0, l.len() as int) =~= l);
    let colon2 = if l.len() > 0 {
        l.last() == ':'
    } else {
        false
    };
    assert(doku_enc_from(l, l.len() as int, 0, colon2, false) =~= Seq::<char>::empty());
    assert(l + Seq::<char>::empty() =~= l);
}

/// A plain DokuWiki text line: no character any inline pattern reads, and no
/// line matcher accepts it.
pub open spec fn doku_text_line(l: Seq<char>) -> bool {
    &&& forall|k: int| 0 <= k < l.len() ==> doku_plain(#[trigger] l[k])
    &&& !crate::w_doku::doku_is_hr(l)
    &&& crate::w_doku::doku_heading(l) is None
    &&& crate::w_doku::doku_list(l) is None
    &&& crate::w_doku::doku_code_open(l) is None
    &&& crate::w_doku::doku_table_row(l) is None
}

/// A canonical DokuWiki heading line: matched runs of one to six equals
/// signs, single spaces, and a plain title whose edges are neither
/// whitespace nor an equals sign.
pub open spec fn doku_heading_line(l: Seq<char>) -> bool {
    exists|h: int, title: Seq<char>|
        {
            &&& 1 <= h <= 6
            &&& title.len() >= 1
            &&& #[trigger] doku_canonical_heading(l, h, title)
        }
}

/// The canonical heading layout with the given glyph run and title.
pub open spec fn doku_canonical_heading(l: Seq<char>, h: int, title: Seq<char>) -> bool {
    &&& l == repeat_char('=', h as nat) + seq![' '] + title + seq![' '] + repeat_char(
        '=',
        h as nat,
    )
    &&& title.len() >= 1
    &&& 1 <= h <= 6
    &&& !crate::chars::is_ws(title[0]) && title[0] != '='
    &&& !crate::chars::is_ws(title.last()) && title.last() != '='
    &&& forall|k: int| 0 <= k < title.len() ==> doku_plain(#[trigger] title[k])
}

/// A line of the modeled subset the DokuWiki round-trip law covers.
pub open spec fn doku_simple_line(l: Seq<char>) -> bool {
    doku_text_line(l) || doku_heading_line(l) || l == seq!['-', '-', '-', '-']
}

/// One simple DokuWiki line leaves the state unchanged, yields one element,
/// and that element's own native output is the line again, closed with a
/// newline.
proof fn lemma_doku_simple_step(st: crate::w_doku::DokuState, l: Seq<char>)
    requires
        doku_simple_line(l),
    ensures
        ({
            let m = crate::w_doku::doku_match_line(st, l);
            &&& m.0 == st
            &&& m.1.len() == 1
            &&& crate::w_doku::doku_single(m.1[0]) == l + seq!['\n']
        }),
{
    if doku_text_line(l) {
        lemma_doku_inline_id(l);
        assert(crate::w_doku::doku_single(ElemSpec::Data { text: l }) =~= l + seq!['\n']);
    } else if doku_heading_line(l) {
        let (h, title) = choose|h: int, title: Seq<char>|
            1 <= h <= 6 && title.len() >= 1 && #[trigger] doku_canonical_heading(l, h, title);
        let n = l.len() as int;
        let tl = title.len() as int;
        assert(n == 2 * h + 2 + tl);
        assert(forall|k: int| 0 <= k < h ==> l[k] == '=');
        assert(l[h] == ' ');
        assert(forall|k: int| h + 1 <= k < h + 1 + tl ==> l[k] == title[k - h - 1]);
        assert(l[h + 1 + tl] == ' ');
        assert(forall|k: int| h + 2 + tl <= k < n ==> l[k] == '=');
        crate::chars::lemma_skip_run(l, '=', 0);
        assert(crate::chars::skip_run(l, '=', 0) == h) by {
            crate::chars::lemma_skip_run(l, '=', 0);
            let r = crate::chars::skip_run(l, '=', 0);
            assert(title[0] == l[h + 1]);
            if r > h {
                assert(l[h] == '=');
            }
            if r < h {
                assert(l[r] != '=');
            }
        }
        assert(crate::chars::skip_ws(l, h + 1) == h + 1) by {
            assert(!crate::chars::is_ws(l[h + 1]));
        }
        assert(crate::chars::skip_ws(l, h) == h + 1);
        crate::chars::lemma_run_back(l, '=', n);
        assert(crate::chars::run_back(l, '=', n) == n - h) by {
            crate::chars::lemma_run_back(l, '=', n);
            let q = crate::chars::run_back(l, '=', n);
            if q > n - h {
                assert(l[q - 1] != '=');
                assert(l[n - h] == '=' || h == 0);
            }
            if q < n - h {
                assert(l[n - h - 1] == ' ');
            }
        }
        assert(crate::chars::ws_end(l, n - h - 1) == n - h - 1) by {
            assert(!crate::chars::is_ws(l[n - h - 2]));
        }
        assert(crate::chars::ws_end(l, n - h) == n - h - 1);
        let level: u32 = (7 - h) as u32;
        assert(crate::w_doku::doku_heading(l) == Some(
            (level, l.subrange(h + 1, n - h - 1)),
        ));
        assert(l.subrange(h + 1, n - h - 1) =~= title);
        assert(!crate::w_doku::doku_is_hr(l)) by {
            if crate::w_doku::doku_is_hr(l) {
                assert(l.subrange(0, 4)[0] == l[0]);
                assert(l[0] == '=');
            }
        }
        lemma_doku_inline_id(title);
        let e = ElemSpec::Heading { etype: ElementType::HTAG, title: title, level: level };
        assert(crate::w_doku::doku_match_line(st, l) == (st, seq![e]));
        assert(crate::w_doku::doku_heading_count(level) == h);
        assert(crate::w_doku::doku_single(e) =~= l + seq!['\n']) by {
            assert(repeat_char('=', crate::w_doku::doku_heading_count(level)) =~= l.subrange(
                0,
                h,
            ));
        }
    } else {
        assert(l == seq!['-', '-', '-', '-']);
        assert(crate::w_doku::doku_is_hr(l)) by {
            assert(l.subrange(0, 4) =~= seq!['-', '-', '-', '-']);
        }
        assert(crate::w_doku::doku_match_line(st, l) == (st, seq![ElemSpec::Rule]));
        assert(crate::w_doku::doku_single(ElemSpec::Rule) =~= l + seq!['\n']);
    }
}

/// Prepending one element shifts the DokuWiki document output by one index.
proof fn lemma_doku_out_shift(e: ElemSpec, rest: Seq<ElemSpec>, j: int)
    requires
        0 <= j <= rest.len(),
    ensures
        crate::w_doku::doku_out_from(seq![e] + rest, j + 1) == crate::w_doku::doku_out_from(
            rest,
            j,
        ),
    decreases rest.len() - j,
{
    if j < rest.len() {
        lemma_doku_out_shift(e, rest, j + 1);
        assert((seq![e] + rest)[j + 1] == rest[j]);
    }
}

/// DokuWiki round-trip stability over the remaining lines, from a state
/// with no open block.
proof fn lemma_doku_round_trip_from(lines: Seq<Seq<char>>, st: crate::w_doku::DokuState, i: int)
    requires
        0 <= i <= lines.len(),
        !st.pre_block,
        !st.table_block,
        forall|k: int| i <= k < lines.len() ==> doku_simple_line(#[trigger] lines[k]),
    ensures
        crate::w_doku::doku_out_from(crate::w_doku::doku_load_from(lines, st, i), 0)
            == joined_from(lines, i),
    decreases lines.len() - i,
{
    if i < lines.len() {
        lemma_doku_simple_step(st, lines[i]);
        let m = crate::w_doku::doku_match_line(st, lines[i]);
        let e = m.1[0];
        assert(crate::w_doku::doku_line_step(st, lines[i]) == m);
        assert(m.1 =~= seq![e]);
        lemma_doku_round_trip_from(lines, st, i + 1);
        let rest = crate::w_doku::doku_load_from(lines, st, i + 1);
        assert(crate::w_doku::doku_load_from(lines, st, i) == seq![e] + rest);
        lemma_doku_out_shift(e, rest, 0);
        assert((seq![e] + rest)[0] == e);
        assert(crate::w_doku::doku_out_from(seq![e] + rest, 0) =~= joined_from(lines, i));
    }
}

/// Round-trip stability for the DokuWiki dialect: decoding lines of the
/// modeled subset (plain text, canonical headings, the canonical rule) and
/// re-encoding to the same dialect reproduces the input byte for byte.
pub proof fn lemma_doku_round_trip(lines: Seq<Seq<char>>)
    requires
        forall|k: int| 0 <= k < lines.len() ==> doku_simple_line(#[trigger] lines[k]),
    ensures
        crate::w_doku::doku_out_from(crate::w_doku::doku_elems(lines), 0) == joined_from(
            lines,
            0,
        ),
{
    lemma_doku_round_trip_from(lines, crate::w_doku::doku_init_state(), 0);
}

/// The whole PukiWiki inline decode and encode are the identity on a line
/// of plain characters.
proof fn lemma_puki_inline_id(l: Seq<char>)
    requires
        forall|k: int| 0 <= k < l.len() ==> puki_plain(#[trigger] l[k]),
    ensures
        puki_rewritten(l) == l,
        puki_enc_from(l, 0) == l,
{
    assert forall|k: int| 0 <= k < l.len() implies !puki_marks().contains(#[trigger] l[k]) by {
        lemma_puki_marks(l[k]);
    }
    lemma_puki_quiet(l);
    lemma_puki_fix(l, count_marks(l, puki_marks()));
    lemma_puki_enc_seg(l, 0, l.len() as int);
    assert(l.subrange(0, l.len() as int) =~= l);
    assert(puki_enc_from(l, l.len() as int) =~= Seq::<char>::empty());
    assert(l + Seq::<char>::empty() =~= l);
}

/// Trimming one leading space off a stretch whose edges hold no whitespace
/// gives the stretch back.
proof fn lemma_trim_one_space(title: Seq<char>)
    requires
        title.len() >= 1,
        !crate::chars::is_ws(title[0]),
        !crate::chars::is_ws(title.last()),
    ensures
        crate::chars::trim_seq(seq![' '] + title) == title,
{
    let sub = seq![' '] + title;
    assert(sub[0] == ' ' && sub[1] == title[0]);
    assert(sub.last() == title.last());
    assert(crate::chars::skip_ws(sub, 1) == 1);
    assert(crate::chars::skip_ws(sub, 0) == 1);
    assert(crate::chars::ws_end(sub, sub.len() as int) == sub.len() as int);
    assert(sub.subrange(1, sub.len() as int) =~= title);
}

/// A canonical PukiWiki marker line: a run of one marker glyph, one space,
/// and a plain title whose edges are not whitespace.
pub open spec fn puki_marker_line(l: Seq<char>, c: char, h: int, title: Seq<char>) -> bool {
    &&& l == repeat_char(c, h as nat) + seq![' '] + title
    &&& 1 <= h <= 6
    &&& title.len() >= 1
    &&& !crate::chars::is_ws(title[0]) && title[0] != c
    &&& !crate::chars::is_ws(title.last())
    &&& forall|k: int| 0 <= k < title.len() ==> puki_plain(#[trigger] title[k])
}

/// A plain PukiWiki text line: no character any inline pattern reads, and
/// no line matcher accepts it.
pub open spec fn puki_text_line(l: Seq<char>) -> bool {
    &&& forall|k: int| 0 <= k < l.len() ==> puki_plain(#[trigger] l[k])
    &&& !crate::w_puki::puki_is_hr(l)
    &&& crate::w_puki::puki_heading(l) is None
    &&& crate::w_puki::puki_list(l) is None
    &&& crate::w_puki::puki_pre_line(l) is None
    &&& crate::w_puki::puki_table_row(l) is None
    &&& !crate::w_puki::puki_is_comment(l)
}

/// A line of the modeled subset the PukiWiki round-trip law covers: plain
/// text, a canonical heading, a canonical list item of either kind, or the
/// canonical rule.
pub open spec fn puki_simple_line(l: Seq<char>) -> bool {
    ||| puki_text_line(l)
    ||| exists|h: int, title: Seq<char>| #[trigger] puki_marker_line(l, '*', h, title)
    ||| exists|h: int, title: Seq<char>| #[trigger] puki_marker_line(l, '-', h, title) && h <= 3
    ||| exists|h: int, title: Seq<char>| #[trigger] puki_marker_line(l, '+', h, title)
    ||| l == seq!['-', '-', '-', '-']
}

/// The marker run and the trimmed rest of a canonical marker line.
proof fn lemma_puki_marker_parts(l: Seq<char>, c: char, h: int, title: Seq<char>)
    requires
        puki_marker_line(l, c, h, title),
        c == '*' || c == '-' || c == '+',
    ensures
        crate::chars::skip_run(l, c, 0) == h,
        crate::chars::trim_seq(l.subrange(h, l.len() as int)) == title,
        l.len() >= 1 && l[l.len() - 1] != ']',
        l[0] == c,
{
    let n = l.len() as int;
    assert(forall|k: int| 0 <= k < h ==> l[k] == c);
    assert(l[h] == ' ');
    assert(forall|k: int| h + 1 <= k < n ==> l[k] == title[k - h - 1]);
    crate::chars::lemma_skip_run(l, c, 0);
    assert(crate::chars::skip_run(l, c, 0) == h) by {
        let r = crate::chars::skip_run(l, c, 0);
        if r > h {
            assert(l[h] == c);
        }
        if r < h {
            assert(l[r] != c);
        }
    }
    assert(l.subrange(h, n) =~= seq![' '] + title);
    lemma_trim_one_space(title);
    assert(l[n - 1] == title.last());
}

/// One simple PukiWiki line leaves the state unchanged, yields one element,
/// and that element's own native output is the line again, closed with a
/// newline.
proof fn lemma_puki_simple_step(st: crate::w_puki::PukiState, l: Seq<char>)
    requires
        puki_simple_line(l),
    ensures
        ({
            let m = crate::w_puki::puki_match_line(st, l);
            &&& m.0 == st
            &&& m.1.len() == 1
            &&& crate::w_puki::puki_single(m.1[0]) == l + seq!['\n']
        }),
{
    if puki_text_line(l) {
        lemma_puki_inline_id(l);
        assert(crate::w_puki::puki_single(ElemSpec::Data { text: l }) =~= l + seq!['\n']);
    } else if exists|h: int, title: Seq<char>| #[trigger] puki_marker_line(l, '*', h, title) {
        let (h, title) = choose|h: int, title: Seq<char>|
            #[trigger] puki_marker_line(l, '*', h, title);
        lemma_puki_marker_parts(l, '*', h, title);
        assert(!crate::w_puki::puki_is_hr(l)) by {
            if l.len() >= 4 && l.subrange(0, 4) == seq!['-', '-', '-', '-'] {
                assert(l.subrange(0, 4)[0] == l[0]);
            }
            if l.len() >= 3 && l.subrange(0, 3) == seq!['#', 'h', 'r'] {
                assert(l.subrange(0, 3)[0] == l[0]);
            }
        }
        assert(crate::w_puki::puki_heading(l) == Some((h as u32, title)));
        lemma_puki_inline_id(title);
        let e = ElemSpec::Heading { etype: ElementType::HTAG, title: title, level: h as u32 };
        assert(crate::w_puki::puki_match_line(st, l) == (st, seq![e]));
        assert(crate::w_puki::puki_single(e) =~= l + seq!['\n']) by {
            assert(repeat_char('*', (h as u32) as nat) =~= l.subrange(0, h));
        }
    } else if exists|h: int, title: Seq<char>|
        #[trigger] puki_marker_line(l, '-', h, title) && h <= 3 {
        let (h, title) = choose|h: int, title: Seq<char>|
            #[trigger] puki_marker_line(l, '-', h, title) && h <= 3;
        lemma_puki_marker_parts(l, '-', h, title);
        assert(!crate::w_puki::puki_is_hr(l)) by {
            if l.len() >= 4 && l.subrange(0, 4) == seq!['-', '-', '-', '-'] {
                assert(l.subrange(0, 4)[h] == l[h]);
                assert(l[h] == ' ');
            }
            if l.len() >= 3 && l.subrange(0, 3) == seq!['#', 'h', 'r'] {
                assert(l.subrange(0, 3)[0] == l[0]);
            }
        }
        assert(crate::chars::skip_run(l, '*', 0) == 0) by {
            assert(l[0] == '-');
        }
        assert(crate::w_puki::puki_heading(l) is None);
        assert(crate::w_puki::puki_list(l) == Some(
            (ElementType::ULTAG, h as u32, title),
        ));
        lemma_puki_inline_id(title);
        let e = ElemSpec::ListItem {
            etype: ElementType::ULTAG,
            text: title,
            indent: h as u32,
            nest: (h - 1) as u32,
        };
        assert(crate::w_puki::puki_match_line(st, l) == (st, seq![e]));
        assert(crate::w_puki::puki_single(e) =~= l + seq!['\n']) by {
            assert(repeat_char('-', ((h - 1) as u32) as nat + 1) =~= l.subrange(0, h));
        }
    } else if exists|h: int, title: Seq<char>| #[trigger] puki_marker_line(l, '+', h, title) {
        let (h, title) = choose|h: int, title: Seq<char>|
            #[trigger] puki_marker_line(l, '+', h, title);
        lemma_puki_marker_parts(l, '+', h, title);
        assert(!crate::w_puki::puki_is_hr(l)) by {
            if l.len() >= 4 && l.subrange(0, 4) == seq!['-', '-', '-', '-'] {
                assert(l.subrange(0, 4)[0] == l[0]);
            }
            if l.len() >= 3 && l.subrange(0, 3) == seq!['#', 'h', 'r'] {
                assert(l.subrange(0, 3)[0] == l[0]);
            }
        }
        assert(crate::chars::skip_run(l, '*', 0) == 0) by {
            assert(l[0] == '+');
        }
        assert(crate::chars::skip_run(l, '-', 0) == 0) by {
            assert(l[0] == '+');
        }
        assert(crate::w_puki::puki_heading(l) is None);
        assert(crate::w_puki::puki_list(l) == Some(
            (ElementType::OLTAG, h as u32, title),
        ));
        lemma_puki_inline_id(title);
        let e = ElemSpec::ListItem {
            etype: ElementType::OLTAG,
            text: title,
            indent: h as u32,
            nest: (h - 1) as u32,
        };
        assert(crate::w_puki::puki_match_line(st, l) == (st, seq![e]));
        assert(crate::w_puki::puki_single(e) =~= l + seq!['\n']) by {
            assert(repeat_char('+', ((h - 1) as u32) as nat + 1) =~= l.subrange(0, h));
        }
    } else {
        assert(l == seq!['-', '-', '-', '-']);
        assert(crate::w_puki::puki_is_hr(l)) by {
            assert(l.subrange(0, 4) =~= seq!['-', '-', '-', '-']);
        }
        assert(crate::w_puki::puki_match_line(st, l) == (st, seq![ElemSpec::Rule]));
        assert(crate::w_puki::puki_single(ElemSpec::Rule) =~= l + seq!['\n']);
    }
}

/// Prepending one element shifts the PukiWiki document output by one index.
proof fn lemma_puki_out_shift(e: ElemSpec, rest: Seq<ElemSpec>, j: int)
    requires
        0 <= j <= rest.len(),
    ensures
        crate::w_puki::puki_out_from(seq![e] + rest, j + 1) == crate::w_puki::puki_out_from(
            rest,
            j,
        ),
    decreases rest.len() - j,
{
    if j < rest.len() {
        lemma_puki_out_shift(e, rest, j + 1);
        assert((seq![e] + rest)[j + 1] == rest[j]);
    }
}

/// PukiWiki round-trip stability over the remaining lines, from a state
/// with no open block.
proof fn lemma_puki_round_trip_from(lines: Seq<Seq<char>>, st: crate::w_puki::PukiState, i: int)
    requires
        0 <= i <= lines.len(),
        !st.pre_block,
        !st.table_block,
        forall|k: int| i <= k < lines.len() ==> puki_simple_line(#[trigger] lines[k]),
    ensures
        crate::w_puki::puki_out_from(crate::w_puki::puki_load_from(lines, st, i), 0)
            == joined_from(lines, i),
    decreases lines.len() - i,
{
    if i < lines.len() {
        lemma_puki_simple_step(st, lines[i]);
        let m = crate::w_puki::puki_match_line(st, lines[i]);
        let e = m.1[0];
        assert(crate::w_puki::puki_line_step(st, lines[i]) == m);
        assert(m.1 =~= seq![e]);
        lemma_puki_round_trip_from(lines, st, i + 1);
        let rest = crate::w_puki::puki_load_from(lines, st, i + 1);
        assert(crate::w_puki::puki_load_from(lines, st, i) == seq![e] + rest);
        lemma_puki_out_shift(e, rest, 0);
        assert((seq![e] + rest)[0] == e);
        assert(crate::w_puki::puki_out_from(seq![e] + rest, 0) =~= joined_from(lines, i));
    }
}

/// Round-trip stability for the PukiWiki dialect: decoding lines of the
/// modeled subset (plain text, canonical headings and list items, the
/// canonical rule) and re-encoding to the same dialect reproduces the input
/// byte for byte.
pub proof fn lemma_puki_round_trip(lines: Seq<Seq<char>>)
    requires
        forall|k: int| 0 <= k < lines.len() ==> puki_simple_line(#[trigger] lines[k]),
    ensures
        crate::w_puki::puki_out_from(crate::w_puki::puki_elems(lines), 0) == joined_from(
            lines,
            0,
        ),
{
    lemma_puki_round_trip_from(lines, crate::w_puki::puki_init_state(), 0);
}

} // verus!
