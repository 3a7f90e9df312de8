//! Character-vector utilities shared by the decoders and encoders.
//!
//! All text manipulation in this crate works on `Vec<char>` internally; the
//! public functions convert from and to `String` at the boundary.

use vstd::prelude::*;

verus! {

/// Relies on `str::chars` collected with `Vec::from_iter`: the vector holds
/// exactly the string's characters, in order.
#[verifier::external_body]
pub(crate) fn str_to_chars(s: &str) -> (r: Vec<char>)
    ensures
        r@ == s@,
{
    s.chars().collect()
}

/// Relies on `String::from_iter` over characters: the string holds exactly
/// the given characters, in order.
#[verifier::external_body]
pub(crate) fn chars_to_string(v: &Vec<char>) -> (r: String)
    ensures
        r@ == v@,
{
    v.iter().collect()
}

/// Copies a character vector.
pub fn clone_chars(s: &Vec<char>) -> (r: Vec<char>)
    ensures
        r@ == s@,
{
    let mut r: Vec<char> = Vec::new();
    push_range(&mut r, s, 0, s.len());
    assert(r@ =~= s@);
    r
}

/// Appends all characters of `s` to `out`.
pub fn push_all(out: &mut Vec<char>, s: &Vec<char>)
    ensures
        final(out)@ == old(out)@ + s@,
{
    let mut i: usize = 0;
    while i < s.len()
        invariant
            0 <= i <= s@.len(),
            out@ == old(out)@ + s@.subrange(0, i as int),
        decreases s@.len() - i,
    {
        out.push(s[i]);
        i = i + 1;
        assert(out@ =~= old(out)@ + s@.subrange(0, i as int));
    }
    assert(out@ =~= old(out)@ + s@);
}

/// Appends the characters of `s` with indices in `[from, to)` to `out`.
pub fn push_range(out: &mut Vec<char>, s: &Vec<char>, from: usize, to: usize)
    requires
        from <= to <= s@.len(),
    ensures
        final(out)@ == old(out)@ + s@.subrange(from as int, to as int),
{
    let mut i: usize = from;
    while i < to
        invariant
            from <= i <= to <= s@.len(),
            out@ == old(out)@ + s@.subrange(from as int, i as int),
        decreases to - i,
    {
        out.push(s[i]);
        i = i + 1;
        assert(out@ =~= old(out)@ + s@.subrange(from as int, i as int));
    }
}

/// `n` copies of `c`.
pub open spec fn repeat_char(c: char, n: nat) -> Seq<char> {
    Seq::new(n, |j: int| c)
}

/// Appends `n` copies of `c` to `out`.
pub fn push_repeat(out: &mut Vec<char>, c: char, n: usize)
    ensures
        final(out)@ == old(out)@ + repeat_char(c, n as nat),
{
    let mut i: usize = 0;
    while i < n
        invariant
            0 <= i <= n,
            out@ == old(out)@ + repeat_char(c, i as nat),
        decreases n - i,
    {
        out.push(c);
        i = i + 1;
        assert(out@ =~= old(out)@ + repeat_char(c, i as nat));
    }
}

/// The first index `>= from` at which `c` occurs in `s`, if any.
pub open spec fn first_idx(s: Seq<char>, c: char, from: int) -> Option<int>
    decreases s.len() - from
    when 0 <= from <= s.len()
{
    if from >= s.len() {
        None
    } else if s[from] == c {
        Some(from)
    } else {
        first_idx(s, c, from + 1)
    }
}

/// Basic bounds of [`first_idx`].
pub proof fn lemma_first_idx_bounds(s: Seq<char>, c: char, from: int)
    requires
        0 <= from <= s.len(),
    ensures
        first_idx(s, c, from) matches Some(j) ==> from <= j < s.len() && s[j] == c,
        first_idx(s, c, from) matches Some(j) ==> forall|k: int| from <= k < j ==> s[k] != c,
        first_idx(s, c, from) is None ==> forall|k: int| from <= k < s.len() ==> s[k] != c,
    decreases s.len() - from,
{
    if from < s.len() && s[from] != c {
        lemma_first_idx_bounds(s, c, from + 1);
    }
}

/// Finds the first occurrence of `c` in `s` at an index `>= from`.
pub fn find_first(s: &Vec<char>, c: char, from: usize) -> (r: Option<usize>)
    requires
        from <= s@.len(),
    ensures
        match r {
            Some(j) => first_idx(s@, c, from as int) == Some(j as int),
            None => first_idx(s@, c, from as int) is None,
        },
{
    let mut i: usize = from;
    while i < s.len()
        invariant
            from <= i <= s@.len(),
            first_idx(s@, c, from as int) == first_idx(s@, c, i as int),
        decreases s@.len() - i,
    {
        if s[i] == c {
            return Some(i);
        }
        i = i + 1;
    }
    None
}

/// The last index `<= upto` at which `c` occurs in `s`, if any.
pub open spec fn last_idx(s: Seq<char>, c: char, upto: int) -> Option<int>
    decreases upto + 1
    when upto < s.len()
{
    if upto < 0 {
        None
    } else if s[upto] == c {
        Some(upto)
    } else {
        last_idx(s, c, upto - 1)
    }
}

/// Basic bounds of [`last_idx`].
pub proof fn lemma_last_idx_bounds(s: Seq<char>, c: char, upto: int)
    requires
        upto < s.len(),
    ensures
        last_idx(s, c, upto) matches Some(j) ==> 0 <= j <= upto && s[j] == c,
        last_idx(s, c, upto) matches Some(j) ==> forall|k: int| j < k <= upto ==> s[k] != c,
        last_idx(s, c, upto) is None ==> forall|k: int| 0 <= k <= upto ==> s[k] != c,
    decreases upto + 1,
{
    if upto >= 0 && s[upto] != c {
        lemma_last_idx_bounds(s, c, upto - 1);
    }
}

/// Finds the last occurrence of `c` in `s` at an index `< hi`.
pub fn find_last(s: &Vec<char>, c: char, hi: usize) -> (r: Option<usize>)
    requires
        hi <= s@.len(),
    ensures
        match r {
            Some(j) => last_idx(s@, c, hi - 1) == Some(j as int),
            None => last_idx(s@, c, hi - 1) is None,
        },
{
    let mut i: usize = hi;
    while i > 0
        invariant
            0 <= i <= hi <= s@.len(),
            last_idx(s@, c, hi - 1) == last_idx(s@, c, i - 1),
        decreases i,
    {
        i = i - 1;
        if s[i] == c {
            return Some(i);
        }
    }
    None
}

/// A backward scan for `c` skips a stretch free of it.
pub proof fn lemma_last_idx_skip(s: Seq<char>, c: char, hi: int, lo: int)
    requires
        -1 <= lo <= hi < s.len(),
        forall|k: int| lo < k <= hi ==> s[k] != c,
    ensures
        last_idx(s, c, hi) == last_idx(s, c, lo),
    decreases hi - lo,
{
    if hi > lo {
        lemma_last_idx_skip(s, c, hi - 1, lo);
    }
}

/// The last index `<= upto` at which the two characters `c0 c1` occur
/// adjacently in `s`, if any.
pub open spec fn last_pair(s: Seq<char>, c0: char, c1: char, upto: int) -> Option<int>
    decreases upto + 1
    when upto + 1 < s.len()
{
    if upto < 0 {
        None
    } else if s[upto] == c0 && s[upto + 1] == c1 {
        Some(upto)
    } else {
        last_pair(s, c0, c1, upto - 1)
    }
}

/// Basic bounds of [`last_pair`].
pub proof fn lemma_last_pair_bounds(s: Seq<char>, c0: char, c1: char, upto: int)
    requires
        upto + 1 < s.len(),
    ensures
        last_pair(s, c0, c1, upto) matches Some(j) ==> 0 <= j <= upto && s[j] == c0 && s[j + 1]
            == c1,
        last_pair(s, c0, c1, upto) matches Some(j) ==> forall|k: int|
            j < k <= upto ==> !(#[trigger] s[k] == c0 && s[k + 1] == c1),
        last_pair(s, c0, c1, upto) is None ==> forall|k: int|
            0 <= k <= upto ==> !(#[trigger] s[k] == c0 && s[k + 1] == c1),
    decreases upto + 1,
{
    if upto >= 0 && !(s[upto] == c0 && s[upto + 1] == c1) {
        lemma_last_pair_bounds(s, c0, c1, upto - 1);
    }
}

/// A backward scan for the pair `c0 c1` skips a stretch without it.
pub proof fn lemma_last_pair_skip(s: Seq<char>, c0: char, c1: char, hi: int, lo: int)
    requires
        -1 <= lo <= hi,
        hi + 1 < s.len(),
        forall|k: int| lo < k <= hi ==> !(#[trigger] s[k] == c0 && s[k + 1] == c1),
    ensures
        last_pair(s, c0, c1, hi) == last_pair(s, c0, c1, lo),
    decreases hi - lo,
{
    if hi > lo {
        lemma_last_pair_skip(s, c0, c1, hi - 1, lo);
    }
}

/// Finds the last adjacent occurrence of `c0 c1` in `s` starting at an index
/// `< hi`.
pub fn find_last_pair(s: &Vec<char>, c0: char, c1: char, hi: usize) -> (r: Option<usize>)
    requires
        hi + 1 <= s@.len(),
    ensures
        match r {
            Some(j) => last_pair(s@, c0, c1, hi - 1) == Some(j as int),
            None => last_pair(s@, c0, c1, hi - 1) is None,
        },
{
    let mut i: usize = hi;
    while i > 0
        invariant
            0 <= i <= hi,
            hi + 1 <= s@.len(),
            last_pair(s@, c0, c1, hi - 1) == last_pair(s@, c0, c1, i - 1),
        decreases i,
    {
        i = i - 1;
        if s[i] == c0 && s[i + 1] == c1 {
            return Some(i);
        }
    }
    None
}

/// Whether the characters of `s` with indices in `[i, i + pat.len())` equal
/// `pat`.
pub fn range_eq(s: &Vec<char>, i: usize, pat: &Vec<char>) -> (b: bool)
    requires
        i + pat@.len() <= s@.len(),
    ensures
        b == (s@.subrange(i as int, i + pat@.len()) == pat@),
{
    let n = s.len();
    let mut j: usize = 0;
    while j < pat.len()
        invariant
            0 <= j <= pat@.len(),
            i + pat@.len() <= s@.len(),
            s@.len() == n,
            forall|k: int| 0 <= k < j ==> s@[i + k] == pat@[k],
        decreases pat@.len() - j,
    {
        if s[i + j] != pat[j] {
            assert(s@.subrange(i as int, i + pat@.len())[j as int] != pat@[j as int]);
            return false;
        }
        j = j + 1;
    }
    assert(s@.subrange(i as int, i + pat@.len()) =~= pat@);
    true
}

/// The number of characters of `s` that occur in `marks`.
pub open spec fn count_marks(s: Seq<char>, marks: Seq<char>) -> nat
    decreases s.len(),
{
    if s.len() == 0 {
        0
    } else {
        count_marks(s.drop_last(), marks) + (if marks.contains(s.last()) {
            1nat
        } else {
            0nat
        })
    }
}

/// Whether `c` occurs in `v`.
pub fn contains_char(v: &Vec<char>, c: char) -> (b: bool)
    ensures
        b == v@.contains(c),
{
    let mut i: usize = 0;
    while i < v.len()
        invariant
            0 <= i <= v@.len(),
            forall|k: int| 0 <= k < i ==> v@[k] != c,
        decreases v@.len() - i,
    {
        if v[i] == c {
            return true;
        }
        i = i + 1;
    }
    false
}

/// Counts the characters of `s` that occur in `marks`.
pub fn count_marks_exec(s: &Vec<char>, marks: &Vec<char>) -> (n: usize)
    ensures
        n as nat == count_marks(s@, marks@),
{
    let mut n: usize = 0;
    let mut i: usize = 0;
    while i < s.len()
        invariant
            0 <= i <= s@.len(),
            n <= i,
            n as nat == count_marks(s@.subrange(0, i as int), marks@),
        decreases s@.len() - i,
    {
        if contains_char(marks, s[i]) {
            n = n + 1;
        }
        i = i + 1;
        assert(s@.subrange(0, i as int).drop_last() =~= s@.subrange(0, i - 1));
        assert(s@.subrange(0, i as int).last() == s@[i - 1]);
    }
    assert(s@.subrange(0, s@.len() as int) =~= s@);
    n
}

/// Whitespace for line scanning: space or tab.
pub open spec fn is_ws(c: char) -> bool {
    c == ' ' || c == '\t'
}

/// Exec check of [`is_ws`].
pub fn is_ws_char(c: char) -> (b: bool)
    ensures
        b == is_ws(c),
{
    c == ' ' || c == '\t'
}

/// A decimal digit.
pub open spec fn is_digit(c: char) -> bool {
    48 <= c as u32 && c as u32 <= 57
}

/// Exec check of [`is_digit`].
pub fn is_digit_char(c: char) -> (b: bool)
    ensures
        b == is_digit(c),
{
    let u = c as u32;
    48 <= u && u <= 57
}

/// The first index `>= from` holding a non-whitespace character, or the
/// length if none.
pub open spec fn skip_ws(s: Seq<char>, from: int) -> int
    decreases s.len() - from
    when 0 <= from <= s.len()
{
    if from >= s.len() {
        from
    } else if is_ws(s[from]) {
        skip_ws(s, from + 1)
    } else {
        from
    }
}

/// Exec scan for [`skip_ws`].
pub fn skip_ws_exec(s: &Vec<char>, from: usize) -> (r: usize)
    requires
        from <= s@.len(),
    ensures
        r as int == skip_ws(s@, from as int),
        from <= r <= s@.len(),
{
    proof {
        lemma_skip_ws(s@, from as int);
    }
    let mut i: usize = from;
    while i < s.len()
        invariant
            from <= i <= s@.len(),
            skip_ws(s@, from as int) == skip_ws(s@, i as int),
        decreases s@.len() - i,
    {
        if !is_ws_char(s[i]) {
            return i;
        }
        i = i + 1;
    }
    i
}

/// Bounds of [`skip_ws`].
pub proof fn lemma_skip_ws(s: Seq<char>, from: int)
    requires
        0 <= from <= s.len(),
    ensures
        from <= skip_ws(s, from) <= s.len(),
        forall|k: int| from <= k < skip_ws(s, from) ==> is_ws(s[k]),
        skip_ws(s, from) < s.len() ==> !is_ws(s[skip_ws(s, from)]),
    decreases s.len() - from,
{
    if from < s.len() && is_ws(s[from]) {
        lemma_skip_ws(s, from + 1);
    }
}

/// The first index `>= from` holding a character other than `c`, or the
/// length if none.
pub open spec fn skip_run(s: Seq<char>, c: char, from: int) -> int
    decreases s.len() - from
    when 0 <= from <= s.len()
{
    if from >= s.len() {
        from
    } else if s[from] == c {
        skip_run(s, c, from + 1)
    } else {
        from
    }
}

/// Exec scan for [`skip_run`].
pub fn skip_run_exec(s: &Vec<char>, c: char, from: usize) -> (r: usize)
    requires
        from <= s@.len(),
    ensures
        r as int == skip_run(s@, c, from as int),
        from <= r <= s@.len(),
{
    proof {
        lemma_skip_run(s@, c, from as int);
    }
    let mut i: usize = from;
    while i < s.len()
        invariant
            from <= i <= s@.len(),
            skip_run(s@, c, from as int) == skip_run(s@, c, i as int),
        decreases s@.len() - i,
    {
        if s[i] != c {
            return i;
        }
        i = i + 1;
    }
    i
}

/// Bounds of [`skip_run`].
pub proof fn lemma_skip_run(s: Seq<char>, c: char, from: int)
    requires
        0 <= from <= s.len(),
    ensures
        from <= skip_run(s, c, from) <= s.len(),
        forall|k: int| from <= k < skip_run(s, c, from) ==> s[k] == c,
        skip_run(s, c, from) < s.len() ==> s[skip_run(s, c, from)] != c,
    decreases s.len() - from,
{
    if from < s.len() && s[from] == c {
        lemma_skip_run(s, c, from + 1);
    }
}

/// The first index `>= from` holding a non-digit character, or the length if
/// none.
pub open spec fn skip_digits(s: Seq<char>, from: int) -> int
    decreases s.len() - from
    when 0 <= from <= s.len()
{
    if from >= s.len() {
        from
    } else if is_digit(s[from]) {
        skip_digits(s, from + 1)
    } else {
        from
    }
}

/// Exec scan for [`skip_digits`].
pub fn skip_digits_exec(s: &Vec<char>, from: usize) -> (r: usize)
    requires
        from <= s@.len(),
    ensures
        r as int == skip_digits(s@, from as int),
        from <= r <= s@.len(),
{
    proof {
        lemma_skip_digits(s@, from as int);
    }
    let mut i: usize = from;
    while i < s.len()
        invariant
            from <= i <= s@.len(),
            skip_digits(s@, from as int) == skip_digits(s@, i as int),
        decreases s@.len() - i,
    {
        if !is_digit_char(s[i]) {
            return i;
        }
        i = i + 1;
    }
    i
}

/// Bounds of [`skip_digits`].
pub proof fn lemma_skip_digits(s: Seq<char>, from: int)
    requires
        0 <= from <= s.len(),
    ensures
        from <= skip_digits(s, from) <= s.len(),
    decreases s.len() - from,
{
    if from < s.len() && is_digit(s[from]) {
        lemma_skip_digits(s, from + 1);
    }
}

/// The end of trailing whitespace: the smallest index such that everything
/// from it to `upto` is whitespace.
pub open spec fn ws_end(s: Seq<char>, upto: int) -> int
    decreases upto
    when 0 <= upto <= s.len()
{
    if upto <= 0 {
        0
    } else if is_ws(s[upto - 1]) {
        ws_end(s, upto - 1)
    } else {
        upto
    }
}

/// Exec scan for [`ws_end`].
pub fn ws_end_exec(s: &Vec<char>, upto: usize) -> (r: usize)
    requires
        upto <= s@.len(),
    ensures
        r as int == ws_end(s@, upto as int),
        r <= upto,
{
    proof {
        lemma_ws_end(s@, upto as int);
    }
    let mut i: usize = upto;
    while i > 0
        invariant
            0 <= i <= upto <= s@.len(),
            ws_end(s@, upto as int) == ws_end(s@, i as int),
        decreases i,
    {
        if !is_ws_char(s[i - 1]) {
            return i;
        }
        i = i - 1;
    }
    i
}

/// Bounds of [`ws_end`].
pub proof fn lemma_ws_end(s: Seq<char>, upto: int)
    requires
        0 <= upto <= s.len(),
    ensures
        0 <= ws_end(s, upto) <= upto,
        forall|k: int| ws_end(s, upto) <= k < upto ==> is_ws(s[k]),
        ws_end(s, upto) > 0 ==> !is_ws(s[ws_end(s, upto) - 1]),
    decreases upto,
{
    if upto > 0 && is_ws(s[upto - 1]) {
        lemma_ws_end(s, upto - 1);
    }
}

/// The start of the trailing run of `c`: the smallest index such that
/// everything from it to `upto` equals `c`.
pub open spec fn run_back(s: Seq<char>, c: char, upto: int) -> int
    decreases upto
    when 0 <= upto <= s.len()
{
    if upto <= 0 {
        0
    } else if s[upto - 1] == c {
        run_back(s, c, upto - 1)
    } else {
        upto
    }
}

/// Exec scan for [`run_back`].
pub fn run_back_exec(s: &Vec<char>, c: char, upto: usize) -> (r: usize)
    requires
        upto <= s@.len(),
    ensures
        r as int == run_back(s@, c, upto as int),
        r <= upto,
{
    proof {
        lemma_run_back(s@, c, upto as int);
    }
    let mut i: usize = upto;
    while i > 0
        invariant
            0 <= i <= upto <= s@.len(),
            run_back(s@, c, upto as int) == run_back(s@, c, i as int),
        decreases i,
    {
        if s[i - 1] != c {
            return i;
        }
        i = i - 1;
    }
    i
}

/// Bounds of [`run_back`].
pub proof fn lemma_run_back(s: Seq<char>, c: char, upto: int)
    requires
        0 <= upto <= s.len(),
    ensures
        0 <= run_back(s, c, upto) <= upto,
        forall|k: int| run_back(s, c, upto) <= k < upto ==> s[k] == c,
        run_back(s, c, upto) > 0 ==> s[run_back(s, c, upto) - 1] != c,
    decreases upto,
{
    if upto > 0 && s[upto - 1] == c {
        lemma_run_back(s, c, upto - 1);
    }
}

/// The first index `>= from` holding a non-word character, or the length if
/// none.  Word characters are ASCII letters, digits and the underscore.
pub open spec fn skip_word(s: Seq<char>, from: int) -> int
    decreases s.len() - from
    when 0 <= from <= s.len()
{
    if from >= s.len() {
        from
    } else if crate::tags::is_word(s[from]) {
        skip_word(s, from + 1)
    } else {
        from
    }
}

/// Exec scan for [`skip_word`].
pub fn skip_word_exec(s: &Vec<char>, from: usize) -> (r: usize)
    requires
        from <= s@.len(),
    ensures
        r as int == skip_word(s@, from as int),
        from <= r <= s@.len(),
{
    proof {
        lemma_skip_word(s@, from as int);
    }
    let mut i: usize = from;
    while i < s.len()
        invariant
            from <= i <= s@.len(),
            skip_word(s@, from as int) == skip_word(s@, i as int),
        decreases s@.len() - i,
    {
        if !crate::tags::is_word_char(s[i]) {
            return i;
        }
        i = i + 1;
    }
    i
}

/// Bounds of [`skip_word`].
pub proof fn lemma_skip_word(s: Seq<char>, from: int)
    requires
        0 <= from <= s.len(),
    ensures
        from <= skip_word(s, from) <= s.len(),
    decreases s.len() - from,
{
    if from < s.len() && crate::tags::is_word(s[from]) {
        lemma_skip_word(s, from + 1);
    }
}

/// `s` with leading and trailing whitespace removed.
pub open spec fn trim_seq(s: Seq<char>) -> Seq<char> {
    let lo = skip_ws(s, 0);
    let hi = ws_end(s, s.len() as int);
    if lo <= hi {
        s.subrange(lo, hi)
    } else {
        Seq::empty()
    }
}

/// Everything before `j` is whitespace, so the trailing-whitespace scan
/// reaches the start.
pub proof fn lemma_ws_end_all_ws(s: Seq<char>, j: int)
    requires
        0 <= j <= s.len(),
        forall|k: int| 0 <= k < j ==> is_ws(s[k]),
    ensures
        ws_end(s, j) == 0,
    decreases j,
{
    if j > 0 {
        lemma_ws_end_all_ws(s, j - 1);
    }
}

/// The characters of `s` with indices in `[lo, hi)`, trimmed of whitespace
/// at both ends.
pub fn trim_vec(s: &Vec<char>, lo: usize, hi: usize) -> (r: Vec<char>)
    requires
        lo <= hi <= s@.len(),
    ensures
        r@ == trim_seq(s@.subrange(lo as int, hi as int)),
{
    let ghost sub = s@.subrange(lo as int, hi as int);
    proof {
        lemma_skip_ws(sub, 0);
        lemma_ws_end(sub, sub.len() as int);
    }
    let mut a: usize = lo;
    while a < hi && (s[a] == ' ' || s[a] == '\t')
        invariant
            lo <= a <= hi <= s@.len(),
            sub == s@.subrange(lo as int, hi as int),
            skip_ws(sub, 0) == skip_ws(sub, a - lo),
        decreases hi - a,
    {
        a = a + 1;
    }
    let ghost tlo = skip_ws(sub, 0);
    assert(a - lo == tlo);
    let mut b: usize = hi;
    while b > a && (s[b - 1] == ' ' || s[b - 1] == '\t')
        invariant
            a <= b <= hi,
            lo <= a <= hi <= s@.len(),
            sub == s@.subrange(lo as int, hi as int),
            ws_end(sub, (hi - lo) as int) == ws_end(sub, b - lo),
        decreases b,
    {
        b = b - 1;
    }
    if b == a {
        proof {
            lemma_skip_ws(sub, 0);
            lemma_ws_end_all_ws(sub, a - lo);
        }
    }
    let mut out: Vec<char> = Vec::new();
    if a < b {
        push_range(&mut out, s, a, b);
    }
    assert(out@ =~= trim_seq(sub));
    out
}
pub open spec fn digit_char(d: int) -> char {
    if d == 0 {
        '0'
    } else if d == 1 {
        '1'
    } else if d == 2 {
        '2'
    } else if d == 3 {
        '3'
    } else if d == 4 {
        '4'
    } else if d == 5 {
        '5'
    } else if d == 6 {
        '6'
    } else if d == 7 {
        '7'
    } else if d == 8 {
        '8'
    } else {
        '9'
    }
}

/// The first index `>= from` holding a character of `seps`, if any.
pub open spec fn first_sep(s: Seq<char>, seps: Seq<char>, from: int) -> Option<int>
    decreases s.len() - from
    when 0 <= from <= s.len()
{
    if from >= s.len() {
        None
    } else if seps.contains(s[from]) {
        Some(from)
    } else {
        first_sep(s, seps, from + 1)
    }
}

/// Basic bounds of [`first_sep`].
pub proof fn lemma_first_sep_bounds(s: Seq<char>, seps: Seq<char>, from: int)
    requires
        0 <= from <= s.len(),
    ensures
        first_sep(s, seps, from) matches Some(j) ==> from <= j < s.len() && seps.contains(s[j]),
    decreases s.len() - from,
{
    if from < s.len() && !seps.contains(s[from]) {
        lemma_first_sep_bounds(s, seps, from + 1);
    }
}

/// `s` split on the characters of `seps`: separators are dropped, empty
/// pieces are kept, and a line without separators is one piece.
pub open spec fn split_on(s: Seq<char>, seps: Seq<char>) -> Seq<Seq<char>>
    decreases s.len()
{
    match first_sep(s, seps, 0) {
        None => seq![s],
        Some(p) => {
            proof {
                lemma_first_sep_bounds(s, seps, 0);
            }
            seq![s.subrange(0, p)] + split_on(s.subrange(p + 1, s.len() as int), seps)
        },
    }
}

/// Splits the characters of `s` with indices in `[lo, hi)` on the characters
/// of `seps`.
pub fn split_vec(s: &Vec<char>, lo: usize, hi: usize, seps: &Vec<char>) -> (r: Vec<Vec<char>>)
    requires
        lo <= hi <= s@.len(),
    ensures
        r@.map_values(|v: Vec<char>| v@) == split_on(s@.subrange(lo as int, hi as int), seps@),
{
    let ghost whole = s@.subrange(lo as int, hi as int);
    let mut out: Vec<Vec<char>> = Vec::new();
    let mut start: usize = lo;
    loop
        invariant
            lo <= start <= hi <= s@.len(),
            whole == s@.subrange(lo as int, hi as int),
            split_on(whole, seps@) == out@.map_values(|v: Vec<char>| v@) + split_on(
                s@.subrange(start as int, hi as int),
                seps@,
            ),
        decreases hi - start,
    {
        let ghost cur = s@.subrange(start as int, hi as int);
        let mut p: usize = start;
        while p < hi && !contains_char(seps, s[p])
            invariant
                start <= p <= hi <= s@.len(),
                cur == s@.subrange(start as int, hi as int),
                first_sep(cur, seps@, 0) == first_sep(cur, seps@, p - start),
            decreases hi - p,
        {
            p = p + 1;
        }
        let mut piece: Vec<char> = Vec::new();
        push_range(&mut piece, s, start, p);
        assert(piece@ =~= cur.subrange(0, p - start));
        if p == hi {
            assert(first_sep(cur, seps@, 0) is None);
            out.push(piece);
            assert(out@.map_values(|v: Vec<char>| v@) =~= split_on(whole, seps@));
            return out;
        }
        assert(first_sep(cur, seps@, 0) == Some(p - start));
        out.push(piece);
        assert(cur.subrange(p - start + 1, cur.len() as int) =~= s@.subrange(p + 1, hi as int));
        start = p + 1;
        assert(out@.map_values(|v: Vec<char>| v@) + split_on(
            s@.subrange(start as int, hi as int),
            seps@,
        ) =~= split_on(whole, seps@));
    }
}

/// The decimal digit characters of `n`, most significant first.
pub open spec fn dec_digits(n: nat) -> Seq<char>
    decreases n,
{
    if n < 10 {
        seq![digit_char(n as int)]
    } else {
        dec_digits(n / 10) + seq![digit_char((n % 10) as int)]
    }
}

/// Appends the decimal digits of `n` to `out`.
pub fn push_decimal(out: &mut Vec<char>, n: u32)
    ensures
        final(out)@ == old(out)@ + dec_digits(n as nat),
    decreases n,
{
    if n < 10 {
        let d: char = match n {
            0 => '0',
            1 => '1',
            2 => '2',
            3 => '3',
            4 => '4',
            5 => '5',
            6 => '6',
            7 => '7',
            8 => '8',
            _ => '9',
        };
        assert(d == digit_char(n as int));
        out.push(d);
    } else {
        push_decimal(out, n / 10);
        let r = n % 10;
        let d: char = match r {
            0 => '0',
            1 => '1',
            2 => '2',
            3 => '3',
            4 => '4',
            5 => '5',
            6 => '6',
            7 => '7',
            8 => '8',
            _ => '9',
        };
        assert(d == digit_char((n % 10) as int));
        out.push(d);
        assert(out@ =~= old(out)@ + dec_digits(n as nat));
    }
}

} // verus!
