//! The neutral inline tag protocol.
//!
//! Inline markup is carried between decoders and encoders as a marker byte
//! followed by exactly two tag characters.  Link payload text (target first,
//! then label) travels as ordinary literal characters between the three link
//! markers.

use vstd::prelude::*;

use crate::chars::find_first;
use crate::chars::first_idx;
use crate::chars::lemma_first_idx_bounds;
use crate::chars::push_range;
use crate::chars::range_eq;

verus! {

/// The marker byte that introduces one two-character tag; it is guaranteed
/// absent from normal text.
pub const MARKER: char = '\u{7}';

/// The link payload read by an encoder that needs lookahead: the target text
/// up to the next marker, the label text up to the marker after that, and the
/// index at which scanning resumes.  A missing marker leaves the remaining
/// parts empty, consuming nothing further.
pub open spec fn link_parts(s: Seq<char>, j: int) -> (Seq<char>, Seq<char>, int) {
    match first_idx(s, MARKER, j) {
        None => (Seq::empty(), Seq::empty(), j),
        Some(u) => {
            let j2 = if u + 3 <= s.len() {
                u + 3
            } else {
                s.len() as int
            };
            let url = s.subrange(j, u);
            match first_idx(s, MARKER, j2) {
                None => (url, Seq::empty(), j2),
                Some(t) => {
                    let j3 = if t + 3 <= s.len() {
                        t + 3
                    } else {
                        s.len() as int
                    };
                    (url, s.subrange(j2, t), j3)
                },
            }
        },
    }
}

/// After reading a link payload, scanning resumes no earlier than where it
/// started and within the line.
pub proof fn lemma_link_parts_next(s: Seq<char>, j: int)
    requires
        0 <= j <= s.len(),
    ensures
        j <= link_parts(s, j).2 <= s.len(),
{
    lemma_first_idx_bounds(s, MARKER, j);
    match first_idx(s, MARKER, j) {
        None => {},
        Some(u) => {
            let j2 = if u + 3 <= s.len() {
                u + 3
            } else {
                s.len() as int
            };
            lemma_first_idx_bounds(s, MARKER, j2);
        },
    }
}

/// Reads a link payload starting at `j`: returns the target range, the label
/// range, and the resume index, as [`link_parts`] describes.
pub fn read_link(s: &Vec<char>, j: usize) -> (r: (usize, usize, usize, usize, usize))
    requires
        j <= s@.len(),
    ensures
        r.0 <= r.1 <= s@.len(),
        r.2 <= r.3 <= s@.len(),
        j <= r.4 <= s@.len(),
        link_parts(s@, j as int) == (
            s@.subrange(r.0 as int, r.1 as int),
            s@.subrange(r.2 as int, r.3 as int),
            r.4 as int,
        ),
{
    proof {
        lemma_first_idx_bounds(s@, MARKER, j as int);
    }
    match crate::chars::find_first(s, MARKER, j) {
        None => {
            assert(s@.subrange(j as int, j as int) =~= Seq::<char>::empty());
            (j, j, j, j, j)
        },
        Some(u) => {
            let j2: usize = if s.len() - u >= 3 {
                u + 3
            } else {
                s.len()
            };
            proof {
                lemma_first_idx_bounds(s@, MARKER, j2 as int);
            }
            match crate::chars::find_first(s, MARKER, j2) {
                None => {
                    assert(s@.subrange(j2 as int, j2 as int) =~= Seq::<char>::empty());
                    (j, u, j2, j2, j2)
                },
                Some(t) => {
                    let j3: usize = if s.len() - t >= 3 {
                        t + 3
                    } else {
                        s.len()
                    };
                    (j, u, j2, t, j3)
                },
            }
        },
    }
}

/// The boundary rule a pattern imposes where a delimiter meets the
/// surrounding text.
#[derive(Debug, Clone, Copy, PartialEq, Eq, Structural)]
pub enum Boundary {
    /// No constraint.
    Free,
    /// A word boundary: the adjacent outside character, if any, is not a
    /// word character.
    Word,
    /// The preceding character, if any, is not a backslash.
    NoBackslash,
}

/// Word characters for the boundary rule: ASCII letters, digits and the
/// underscore.
pub open spec fn is_word(c: char) -> bool {
    (97 <= c as u32 && c as u32 <= 122) || (65 <= c as u32 && c as u32 <= 90) || (48 <= c as u32
        && c as u32 <= 57) || c == '_'
}

/// Exec check of [`is_word`].
pub fn is_word_char(c: char) -> (b: bool)
    ensures
        b == is_word(c),
{
    let u = c as u32;
    (97 <= u && u <= 122) || (65 <= u && u <= 90) || (48 <= u && u <= 57) || c == '_'
}

/// Whether the boundary rule `b` holds just before index `i`, where a left
/// delimiter starts.
pub open spec fn lb_ok(s: Seq<char>, i: int, b: Boundary) -> bool {
    match b {
        Boundary::Free => true,
        Boundary::Word => i == 0 || !is_word(s[i - 1]),
        Boundary::NoBackslash => i == 0 || s[i - 1] != '\\',
    }
}

/// Whether the boundary rule `b` holds just after index `j`, where a right
/// delimiter ended.
pub open spec fn rb_ok(s: Seq<char>, j: int, b: Boundary) -> bool {
    match b {
        Boundary::Free => true,
        Boundary::Word => j == s.len() || !is_word(s[j]),
        Boundary::NoBackslash => true,
    }
}

/// Whether an emphasis-style pattern matches `s` with its left delimiter
/// `dl` at index `i`: after the delimiter comes a non-empty stretch free of
/// the forbidden character `f`, then the right delimiter `dr` (aligned on
/// the first occurrence of `f` after the stretch), with the boundary rules
/// at both outer edges.  This mirrors how a greedy anchored pattern
/// `(prefix) dl ([^f]+) dr (suffix)` matches: for a fixed prefix length the
/// inner stretch and the delimiter position are forced by the first `f`.
pub open spec fn em_ok(
    s: Seq<char>,
    dl: Seq<char>,
    dr: Seq<char>,
    f: char,
    lb: Boundary,
    rb: Boundary,
    i: int,
) -> bool {
    &&& 0 <= i
    &&& i + dl.len() <= s.len()
    &&& s.subrange(i, i + dl.len()) == dl
    &&& lb_ok(s, i, lb)
    &&& match (first_idx(dr, f, 0), first_idx(s, f, i + dl.len())) {
        (Some(k), Some(f1)) => {
            let ds = f1 - k;
            &&& i + dl.len() + 1 <= ds
            &&& ds + dr.len() <= s.len()
            &&& s.subrange(ds, ds + dr.len()) == dr
            &&& rb_ok(s, ds + dr.len(), rb)
        },
        _ => false,
    }
}

/// Where the right delimiter starts for a match at `i`.
pub open spec fn em_ds(s: Seq<char>, dl: Seq<char>, dr: Seq<char>, f: char, i: int) -> int {
    match (first_idx(dr, f, 0), first_idx(s, f, i + dl.len())) {
        (Some(k), Some(f1)) => f1 - k,
        _ => -1,
    }
}

/// The greatest index `<= i` at which the pattern matches; the greedy prefix
/// group of an anchored pattern selects the rightmost match.
pub open spec fn em_find_from(
    s: Seq<char>,
    dl: Seq<char>,
    dr: Seq<char>,
    f: char,
    lb: Boundary,
    rb: Boundary,
    i: int,
) -> Option<int>
    decreases i + 1
    when -1 <= i
{
    if i < 0 {
        None
    } else if em_ok(s, dl, dr, f, lb, rb, i) {
        Some(i)
    } else {
        em_find_from(s, dl, dr, f, lb, rb, i - 1)
    }
}

/// The match position of the pattern in `s`, if any.
pub open spec fn em_find(
    s: Seq<char>,
    dl: Seq<char>,
    dr: Seq<char>,
    f: char,
    lb: Boundary,
    rb: Boundary,
) -> Option<int> {
    em_find_from(s, dl, dr, f, lb, rb, s.len() as int)
}

/// Basic facts of [`em_find_from`].
pub proof fn lemma_em_find_from(
    s: Seq<char>,
    dl: Seq<char>,
    dr: Seq<char>,
    f: char,
    lb: Boundary,
    rb: Boundary,
    i: int,
)
    requires
        -1 <= i,
    ensures
        em_find_from(s, dl, dr, f, lb, rb, i) matches Some(j) ==> 0 <= j <= i && em_ok(
            s,
            dl,
            dr,
            f,
            lb,
            rb,
            j,
        ) && forall|k: int| j < k <= i ==> !em_ok(s, dl, dr, f, lb, rb, k),
        em_find_from(s, dl, dr, f, lb, rb, i) is None ==> forall|k: int|
            0 <= k <= i ==> !em_ok(s, dl, dr, f, lb, rb, k),
    decreases i + 1,
{
    if i >= 0 && !em_ok(s, dl, dr, f, lb, rb, i) {
        lemma_em_find_from(s, dl, dr, f, lb, rb, i - 1);
    }
}

/// The rewriting of `s` for the pattern's match, if any: the matched span
/// becomes open tag, inner stretch, close tag, between the untouched prefix
/// and suffix.
pub open spec fn em_step(
    s: Seq<char>,
    dl: Seq<char>,
    dr: Seq<char>,
    f: char,
    lb: Boundary,
    rb: Boundary,
    t0: char,
    t1: char,
    t2: char,
    t3: char,
) -> Seq<char> {
    match em_find(s, dl, dr, f, lb, rb) {
        Some(i) => {
            let ds = em_ds(s, dl, dr, f, i);
            s.subrange(0, i) + seq![MARKER, t0, t1] + s.subrange(i + dl.len(), ds) + seq![
                MARKER,
                t2,
                t3,
            ] + s.subrange(ds + dr.len(), s.len() as int)
        },
        None => s,
    }
}

/// A downward search finds the single matching position when everything
/// above it fails.
pub proof fn lemma_em_find_unique(
    s: Seq<char>,
    dl: Seq<char>,
    dr: Seq<char>,
    f: char,
    lb: Boundary,
    rb: Boundary,
    j0: int,
    i: int,
)
    requires
        0 <= j0 <= i,
        em_ok(s, dl, dr, f, lb, rb, j0),
        forall|k: int| j0 < k <= i ==> !em_ok(s, dl, dr, f, lb, rb, k),
    ensures
        em_find_from(s, dl, dr, f, lb, rb, i) == Some(j0),
    decreases i - j0,
{
    if i > j0 {
        lemma_em_find_unique(s, dl, dr, f, lb, rb, j0, i - 1);
    }
}

/// No position matches when the left delimiter's first character is absent
/// from the line.
pub proof fn lemma_em_absent(
    s: Seq<char>,
    dl: Seq<char>,
    dr: Seq<char>,
    f: char,
    lb: Boundary,
    rb: Boundary,
    i: int,
)
    requires
        dl.len() >= 1,
        forall|k: int| 0 <= k < s.len() ==> s[k] != dl[0],
        -1 <= i,
    ensures
        em_find_from(s, dl, dr, f, lb, rb, i) is None,
    decreases i + 1,
{
    if i >= 0 {
        assert(!em_ok(s, dl, dr, f, lb, rb, i)) by {
            if em_ok(s, dl, dr, f, lb, rb, i) {
                assert(s.subrange(i, i + dl.len())[0] == s[i]);
            }
        }
        lemma_em_absent(s, dl, dr, f, lb, rb, i - 1);
    }
}

/// No position matches when the pattern fails everywhere.
pub proof fn lemma_em_none(
    s: Seq<char>,
    dl: Seq<char>,
    dr: Seq<char>,
    f: char,
    lb: Boundary,
    rb: Boundary,
    i: int,
)
    requires
        -1 <= i,
        forall|k: int| 0 <= k <= i ==> !em_ok(s, dl, dr, f, lb, rb, k),
    ensures
        em_find_from(s, dl, dr, f, lb, rb, i) is None,
    decreases i + 1,
{
    if i >= 0 {
        lemma_em_none(s, dl, dr, f, lb, rb, i - 1);
    }
}

/// A scan for `f` skips a stretch free of it.
pub proof fn lemma_first_idx_skip(s: Seq<char>, c: char, from: int, to: int)
    requires
        0 <= from <= to <= s.len(),
        forall|k: int| from <= k < to ==> s[k] != c,
    ensures
        first_idx(s, c, from) == first_idx(s, c, to),
    decreases to - from,
{
    if from < to {
        lemma_first_idx_skip(s, c, from + 1, to);
    }
}

/// A symmetric pattern `F..F m F..F`, whose delimiters are runs of the
/// forbidden character itself, matches exactly at the start, with the right
/// delimiter right after the stretch.  This is the shape of almost every
/// emphasis pattern.
pub proof fn lemma_em_symmetric(
    f: char,
    d: int,
    lb: Boundary,
    rb: Boundary,
    t0: char,
    t1: char,
    t2: char,
    t3: char,
    m: Seq<char>,
)
    requires
        1 <= d,
        m.len() >= 1,
        forall|k: int| 0 <= k < m.len() ==> m[k] != f,
    ensures
        ({
            let dl = crate::chars::repeat_char(f, d as nat);
            let s = dl + m + dl;
            &&& em_find(s, dl, dl, f, lb, rb) == Some(0int)
            &&& em_ds(s, dl, dl, f, 0) == d + m.len()
            &&& em_step(s, dl, dl, f, lb, rb, t0, t1, t2, t3) == seq![MARKER, t0, t1] + m + seq![
                MARKER,
                t2,
                t3,
            ]
        }),
{
    let dl = crate::chars::repeat_char(f, d as nat);
    let s = dl + m + dl;
    let n = s.len() as int;
    assert(n == 2 * d + m.len());
    assert(forall|k: int| 0 <= k < d ==> s[k] == f);
    assert(forall|k: int| d <= k < d + m.len() ==> s[k] == m[k - d] && s[k] != f);
    assert(forall|k: int| d + m.len() <= k < n ==> s[k] == f);
    assert(first_idx(dl, f, 0) == Some(0int));
    // the pattern matches at the start
    assert(em_ok(s, dl, dl, f, lb, rb, 0)) by {
        assert(s.subrange(0, d) =~= dl);
        lemma_first_idx_skip(s, f, d, d + m.len());
        assert(first_idx(s, f, d + m.len()) == Some(d + m.len()));
        assert(s.subrange(d + m.len(), d + m.len() + d) =~= dl);
    }
    assert(em_ds(s, dl, dl, f, 0) == d + m.len()) by {
        lemma_first_idx_skip(s, f, d, d + m.len());
        assert(first_idx(s, f, d + m.len()) == Some(d + m.len()));
    }
    // and nowhere else
    assert forall|i: int| 0 < i <= n implies !em_ok(s, dl, dl, f, lb, rb, i) by {
        if em_ok(s, dl, dl, f, lb, rb, i) {
            assert(s.subrange(i, i + d) =~= dl);
            assert(s.subrange(i, i + d)[0] == s[i]);
            assert(s[i] == f);
            if i < d {
                // the window would cross into the stretch
                assert(s.subrange(i, i + d)[d - i] == s[d]);
                assert(s[d] != f);
                assert(dl[d - i] == f);
            } else if i < d + m.len() {
                assert(s[i] != f);
            } else {
                // at the closing delimiter: no forbidden character follows
                assert(i == d + m.len()) by {
                    assert(i + d <= n);
                }
                lemma_first_idx_bounds(s, f, i + d);
                assert(first_idx(s, f, i + d) is None);
            }
        }
    }
    lemma_em_find_unique(s, dl, dl, f, lb, rb, 0, n);
    assert(em_step(s, dl, dl, f, lb, rb, t0, t1, t2, t3) =~= seq![MARKER, t0, t1] + m + seq![
        MARKER,
        t2,
        t3,
    ]) by {
        assert(s.subrange(0, 0) =~= Seq::<char>::empty());
        assert(s.subrange(d, d + m.len()) =~= m);
        assert(s.subrange(d + m.len() + d, n) =~= Seq::<char>::empty());
    }
}

/// Exec check of [`em_ok`] at one position.  `k` is where the forbidden
/// character sits inside the right delimiter.
fn em_ok_exec(
    s: &Vec<char>,
    dl: &Vec<char>,
    dr: &Vec<char>,
    f: char,
    lb: Boundary,
    rb: Boundary,
    i: usize,
    k: usize,
) -> (b: bool)
    requires
        i <= s@.len(),
        dl@.len() >= 1,
        dr@.len() >= 1,
        first_idx(dr@, f, 0) == Some(k as int),
    ensures
        b == em_ok(s@, dl@, dr@, f, lb, rb, i as int),
{
    let n = s.len();
    if n - i < dl.len() {
        return false;
    }
    if !range_eq(s, i, dl) {
        return false;
    }
    let lbok = match lb {
        Boundary::Free => true,
        Boundary::Word => i == 0 || !is_word_char(s[i - 1]),
        Boundary::NoBackslash => i == 0 || s[i - 1] != '\\',
    };
    if !lbok {
        return false;
    }
    let st = i + dl.len();
    match find_first(s, f, st) {
        None => false,
        Some(f1) => {
            proof {
                lemma_first_idx_bounds(s@, f, st as int);
            }
            if f1 < k {
                return false;
            }
            let ds = f1 - k;
            if ds <= st {
                return false;
            }
            if n - ds < dr.len() {
                return false;
            }
            if !range_eq(s, ds, dr) {
                return false;
            }
            let e = ds + dr.len();
            match rb {
                Boundary::Free => true,
                Boundary::Word => e == n || !is_word_char(s[e]),
                Boundary::NoBackslash => true,
            }
        },
    }
}

/// Finds the rightmost match of the pattern, returning its position and
/// where its right delimiter starts.
fn find_em(
    s: &Vec<char>,
    dl: &Vec<char>,
    dr: &Vec<char>,
    f: char,
    lb: Boundary,
    rb: Boundary,
) -> (r: Option<(usize, usize)>)
    requires
        dl@.len() >= 1,
        dr@.len() >= 1,
        first_idx(dr@, f, 0) is Some,
    ensures
        match r {
            Some(p) => {
                &&& em_find(s@, dl@, dr@, f, lb, rb) == Some(p.0 as int)
                &&& em_ok(s@, dl@, dr@, f, lb, rb, p.0 as int)
                &&& p.1 as int == em_ds(s@, dl@, dr@, f, p.0 as int)
                &&& p.0 + dl@.len() < p.1
                &&& p.1 + dr@.len() <= s@.len()
            },
            None => em_find(s@, dl@, dr@, f, lb, rb) is None,
        },
{
    proof {
        lemma_first_idx_bounds(dr@, f, 0);
    }
    let k = match find_first(dr, f, 0) {
        Some(k) => k,
        None => {
            proof {
                assert(false);
            }
            0
        },
    };
    let n = s.len();
    let mut i: usize = n;
    loop
        invariant
            0 <= i <= n,
            n == s@.len(),
            dl@.len() >= 1,
            dr@.len() >= 1,
            first_idx(dr@, f, 0) == Some(k as int),
            em_find(s@, dl@, dr@, f, lb, rb) == em_find_from(s@, dl@, dr@, f, lb, rb, i as int),
        decreases i + 1,
    {
        if em_ok_exec(s, dl, dr, f, lb, rb, i, k) {
            let st = i + dl.len();
            let f1 = match find_first(s, f, st) {
                Some(f1) => f1,
                None => {
                    proof {
                        assert(false);
                    }
                    0
                },
            };
            let ds = f1 - k;
            return Some((i, ds));
        }
        if i == 0 {
            assert(em_find_from(s@, dl@, dr@, f, lb, rb, 0) == em_find_from(
                s@,
                dl@,
                dr@,
                f,
                lb,
                rb,
                -1,
            ));
            return None;
        }
        i = i - 1;
    }
}

/// Applies the pattern's rewrite once, if it matches anywhere.
pub fn try_em(
    s: &Vec<char>,
    dl: &Vec<char>,
    dr: &Vec<char>,
    f: char,
    lb: Boundary,
    rb: Boundary,
    t0: char,
    t1: char,
    t2: char,
    t3: char,
) -> (r: Option<Vec<char>>)
    requires
        dl@.len() >= 1,
        dr@.len() >= 1,
        first_idx(dr@, f, 0) is Some,
    ensures
        match r {
            Some(t) => em_find(s@, dl@, dr@, f, lb, rb) is Some && t@ == em_step(
                s@,
                dl@,
                dr@,
                f,
                lb,
                rb,
                t0,
                t1,
                t2,
                t3,
            ),
            None => em_find(s@, dl@, dr@, f, lb, rb) is None,
        },
{
    match find_em(s, dl, dr, f, lb, rb) {
        None => None,
        Some((i, ds)) => {
            let n = s.len();
            let mut out: Vec<char> = Vec::new();
            push_range(&mut out, s, 0, i);
            out.push(MARKER);
            out.push(t0);
            out.push(t1);
            push_range(&mut out, s, i + dl.len(), ds);
            out.push(MARKER);
            out.push(t2);
            out.push(t3);
            push_range(&mut out, s, ds + dr.len(), n);
            assert(out@ =~= em_step(s@, dl@, dr@, f, lb, rb, t0, t1, t2, t3));
            Some(out)
        },
    }
}

} // verus!
