use vstd::prelude::*;

verus! {

broadcast use vstd::string::group_string_axioms;

/// The characters of `s`.
pub fn chars_of(s: &str) -> (v: Vec<char>)
    ensures
        v@ == s@,
{
    let mut v: Vec<char> = Vec::new();
    for c in it: s.chars()
        invariant
            v@ == it.seq().take(it.index()),
    {
        v.push(c);
    }
    v
}

/// Whether `c` has the Unicode `White_Space` property (the property
/// `char::is_whitespace` reports): tab, line feed, vertical tab, form feed,
/// carriage return, space, next line, no-break space, ogham space mark, the
/// spaces U+2000 to U+200A, line and paragraph separators, narrow no-break
/// space, medium mathematical space and ideographic space.
pub open spec fn char_is_whitespace(c: char) -> bool {
    let n = c as u32;
    (0x09 <= n <= 0x0d) || n == 0x20 || n == 0x85 || n == 0xa0 || n == 0x1680
        || (0x2000 <= n <= 0x200a) || n == 0x2028 || n == 0x2029 || n == 0x202f || n == 0x205f || n == 0x3000
}

/// Whether `c` is whitespace, as `char::is_whitespace` reports it.
pub fn is_whitespace(c: char) -> (b: bool)
    ensures
        b == char_is_whitespace(c),
{
    let n: u32 = c as u32;
    (0x09 <= n && n <= 0x0d) || n == 0x20 || n == 0x85 || n == 0xa0 || n == 0x1680
        || (0x2000 <= n && n <= 0x200a) || n == 0x2028 || n == 0x2029 || n == 0x202f || n == 0x205f || n == 0x3000
}

/// `String::push`: the string afterwards is the string before with `c`
/// appended at its end.
#[verifier::external_body]
pub(crate) fn push_char(s: &mut String, c: char)
    ensures
        final(s)@ == old(s)@.push(c),
{
    s.push(c)
}

/// The string made of the characters `v`.
pub fn string_of(v: &Vec<char>) -> (s: String)
    ensures
        s@ == v@,
{
    let mut s = String::new();
    let mut i: usize = 0;
    while i < v.len()
        invariant
            i <= v.len(),
            s@ == v@.take(i as int),
        decreases v.len() - i,
    {
        push_char(&mut s, v[i]);
        assert(v@.take(i + 1) =~= v@.take(i as int).push(v@[i as int]));
        i = i + 1;
    }
    assert(v@.take(v.len() as int) =~= v@);
    s
}

/// Append the characters of `b` to `a`.
pub fn extend_chars(a: &mut Vec<char>, b: &Vec<char>)
    ensures
        final(a)@ == old(a)@ + b@,
{
    let mut i: usize = 0;
    let ghost a0 = a@;
    while i < b.len()
        invariant
            i <= b.len(),
            a@ == a0 + b@.take(i as int),
        decreases b.len() - i,
    {
        a.push(b[i]);
        assert(b@.take(i + 1) =~= b@.take(i as int).push(b@[i as int]));
        i = i + 1;
    }
    assert(b@.take(b.len() as int) =~= b@);
}

/// Whether the characters `a` spell `b`.
pub fn chars_eq(a: &Vec<char>, b: &str) -> (r: bool)
    ensures
        r == (a@ == b@),
{
    let bv = chars_of(b);
    if a.len() != bv.len() {
        return false;
    }
    let mut i: usize = 0;
    while i < a.len()
        invariant
            bv@ == b@,
            a.len() == bv.len(),
            i <= a.len(),
            forall|j: int| 0 <= j < i ==> a@[j] == bv@[j],
        decreases a.len() - i,
    {
        if a[i] != bv[i] {
            assert(a@[i as int] != bv@[i as int]);
            return false;
        }
        i = i + 1;
    }
    assert(a@ =~= bv@);
    true
}

/// The lower-case form of `s`, as `str::to_lowercase` gives it.
pub uninterp spec fn lowercase(s: Seq<char>) -> Seq<char>;

/// `str::to_lowercase`: its result is named `lowercase` of the text;
/// nothing more is claimed of it.
#[verifier::external_body]
pub(crate) fn to_lowercase(s: &str) -> (r: String)
    ensures
        r@ == lowercase(s@),
{
    s.to_lowercase()
}

// ---------------------------------------------------------------------------
// Whitespace, words and lines
// ---------------------------------------------------------------------------

/// The whitespace-separated words of `s`, as `str::split_whitespace` yields them.
pub open spec fn words(s: Seq<char>) -> Seq<Seq<char>>
    decreases s.len(),
{
    if s.len() == 0 {
        Seq::empty()
    } else {
        let ws = words(s.drop_last());
        let c = s.last();
        if char_is_whitespace(c) {
            ws
        } else if s.len() >= 2 && !char_is_whitespace(s[s.len() - 2]) {
            ws.drop_last().push(ws.last().push(c))
        } else {
            ws.push(seq![c])
        }
    }
}

proof fn lemma_words_nonempty(s: Seq<char>)
    requires
        s.len() > 0,
        !char_is_whitespace(s.last()),
    ensures
        words(s).len() > 0,
    decreases s.len(),
{
    if s.len() >= 2 && !char_is_whitespace(s[s.len() - 2]) {
        lemma_words_nonempty(s.drop_last());
    }
}

/// `str::split_whitespace`, collected.
pub fn split_whitespace(s: &Vec<char>) -> (out: Vec<Vec<char>>)
    ensures
        out@.len() == words(s@).len(),
        forall|k: int| 0 <= k < out@.len() ==> (#[trigger] out@[k])@ == words(s@)[k],
{
    let mut out: Vec<Vec<char>> = Vec::new();
    let mut i: usize = 0;
    let mut in_word = false;
    while i < s.len()
        invariant
            i <= s.len(),
            in_word == (i > 0 && !char_is_whitespace(s@[i - 1])),
            out@.len() == words(s@.take(i as int)).len(),
            forall|k: int| 0 <= k < out@.len() ==> (#[trigger] out@[k])@ == words(s@.take(i as int))[k],
        decreases s.len() - i,
    {
        let c = s[i];
        let ghost t = s@.take(i + 1);
        assert(t.drop_last() =~= s@.take(i as int));
        assert(t.last() == c);
        if is_whitespace(c) {
            in_word = false;
        } else if in_word {
            assert(t[t.len() - 2] == s@[i - 1]);
            proof {
                lemma_words_nonempty(s@.take(i as int));
            }
            let last = out.len() - 1;
            let mut wd = out.pop().unwrap();
            wd.push(c);
            out.push(wd);
            assert forall|k: int| 0 <= k < out@.len() implies (#[trigger] out@[k])@ == words(t)[k] by {
                if k < last {
                }
            }
        } else {
            if i > 0 {
                assert(t[t.len() - 2] == s@[i - 1]);
            }
            let mut wd: Vec<char> = Vec::new();
            wd.push(c);
            out.push(wd);
            assert(wd@ =~= seq![c]);
            assert forall|k: int| 0 <= k < out@.len() implies (#[trigger] out@[k])@ == words(t)[k] by {
                if k < out@.len() - 1 {
                }
            }
            in_word = true;
        }
        i = i + 1;
    }
    assert(s@.take(s.len() as int) =~= s@);
    out
}

/// `s` without leading whitespace.
pub open spec fn trim_start(s: Seq<char>) -> Seq<char>
    decreases s.len(),
{
    if s.len() > 0 && char_is_whitespace(s[0]) { trim_start(s.drop_first()) } else { s }
}

/// `s` without trailing whitespace.
pub open spec fn trim_end(s: Seq<char>) -> Seq<char>
    decreases s.len(),
{
    if s.len() > 0 && char_is_whitespace(s.last()) { trim_end(s.drop_last()) } else { s }
}

/// `s` without leading or trailing whitespace, as `str::trim` gives it.
pub open spec fn trim(s: Seq<char>) -> Seq<char> {
    trim_end(trim_start(s))
}

/// `str::trim`.
pub fn trim_chars(s: &Vec<char>) -> (out: Vec<char>)
    ensures
        out@ == trim(s@),
{
    let mut a: usize = 0;
    assert(s@.subrange(0, s.len() as int) =~= s@);
    while a < s.len() && is_whitespace(s[a])
        invariant
            a <= s.len(),
            trim_start(s@) == trim_start(s@.subrange(a as int, s.len() as int)),
        decreases s.len() - a,
    {
        assert(s@.subrange(a as int, s.len() as int).drop_first() =~= s@.subrange(a + 1, s.len() as int));
        a = a + 1;
    }
    assert(trim_start(s@) == s@.subrange(a as int, s.len() as int));
    let mut b: usize = s.len();
    while b > a && is_whitespace(s[b - 1])
        invariant
            a <= b <= s.len(),
            trim(s@) == trim_end(s@.subrange(a as int, b as int)),
        decreases b - a,
    {
        assert(s@.subrange(a as int, b as int).drop_last() =~= s@.subrange(a as int, b - 1));
        b = b - 1;
    }
    let mut out: Vec<char> = Vec::new();
    let mut k: usize = a;
    while k < b
        invariant
            a <= k <= b <= s.len(),
            out@ == s@.subrange(a as int, k as int),
        decreases b - k,
    {
        out.push(s[k]);
        assert(s@.subrange(a as int, k + 1) =~= s@.subrange(a as int, k as int).push(s@[k as int]));
        k = k + 1;
    }
    out
}

/// The pieces of `s` up to and including each `'\n'` (the last piece may
/// lack one), as `str::split_inclusive('\n')` yields them.
pub open spec fn line_pieces(s: Seq<char>) -> Seq<Seq<char>>
    decreases s.len(),
{
    if s.len() == 0 {
        Seq::empty()
    } else {
        let ps = line_pieces(s.drop_last());
        let c = s.last();
        if ps.len() > 0 && ps.last().last() != '\n' {
            ps.drop_last().push(ps.last().push(c))
        } else {
            ps.push(seq![c])
        }
    }
}

/// A line without its terminator: a final `"\n"` or `"\r\n"` removed.
pub open spec fn strip_terminator(piece: Seq<char>) -> Seq<char> {
    if piece.len() > 0 && piece.last() == '\n' {
        let q = piece.drop_last();
        if q.len() > 0 && q.last() == '\r' { q.drop_last() } else { q }
    } else {
        piece
    }
}

/// The lines of `s`, as `str::lines` yields them.
pub open spec fn lines(s: Seq<char>) -> Seq<Seq<char>> {
    line_pieces(s).map_values(|p: Seq<char>| strip_terminator(p))
}

proof fn lemma_pieces_nonempty(s: Seq<char>)
    ensures
        forall|k: int| 0 <= k < line_pieces(s).len() ==> (#[trigger] line_pieces(s)[k]).len() > 0,
    decreases s.len(),
{
    if s.len() > 0 {
        lemma_pieces_nonempty(s.drop_last());
        let ps = line_pieces(s.drop_last());
        assert forall|k: int| 0 <= k < line_pieces(s).len() implies (#[trigger] line_pieces(s)[k]).len() > 0 by {
            if k < ps.len() - 1 || (k == ps.len() - 1 && !(ps.len() > 0 && ps.last().last() != '\n')) {
                assert(line_pieces(s)[k] == ps[k]);
            }
        }
    }
}

/// `str::lines`, collected.
pub fn lines_of(s: &Vec<char>) -> (out: Vec<Vec<char>>)
    ensures
        out@.len() == lines(s@).len(),
        forall|k: int| 0 <= k < out@.len() ==> (#[trigger] out@[k])@ == lines(s@)[k],
{
    let mut pieces: Vec<Vec<char>> = Vec::new();
    let mut i: usize = 0;
    while i < s.len()
        invariant
            i <= s.len(),
            pieces@.len() == line_pieces(s@.take(i as int)).len(),
            forall|k: int| 0 <= k < pieces@.len() ==> (#[trigger] pieces@[k])@ == line_pieces(s@.take(i as int))[k],
        decreases s.len() - i,
    {
        let c = s[i];
        let ghost t = s@.take(i + 1);
        assert(t.drop_last() =~= s@.take(i as int));
        assert(t.last() == c);
        proof {
            lemma_pieces_nonempty(s@.take(i as int));
        }
        let open_piece = pieces.len() > 0 && {
            let lp = &pieces[pieces.len() - 1];
            lp[lp.len() - 1] != '\n'
        };
        if open_piece {
            let last = pieces.len() - 1;
            let mut p = pieces.pop().unwrap();
            p.push(c);
            pieces.push(p);
            assert forall|k: int| 0 <= k < pieces@.len() implies (#[trigger] pieces@[k])@ == line_pieces(t)[k] by {
                if k < last {
                }
            }
        } else {
            let mut p: Vec<char> = Vec::new();
            p.push(c);
            pieces.push(p);
            assert(p@ =~= seq![c]);
            assert forall|k: int| 0 <= k < pieces@.len() implies (#[trigger] pieces@[k])@ == line_pieces(t)[k] by {
                if k < pieces@.len() - 1 {
                }
            }
        }
        i = i + 1;
    }
    assert(s@.take(s.len() as int) =~= s@);
    let mut out: Vec<Vec<char>> = Vec::new();
    let mut k: usize = 0;
    while k < pieces.len()
        invariant
            k <= pieces.len(),
            pieces@.len() == line_pieces(s@).len(),
            forall|j: int| 0 <= j < pieces@.len() ==> (#[trigger] pieces@[j])@ == line_pieces(s@)[j],
            out@.len() == k,
            forall|j: int| 0 <= j < k ==> (#[trigger] out@[j])@ == strip_terminator(line_pieces(s@)[j]),
        decreases pieces.len() - k,
    {
        let p = &pieces[k];
        let mut n = p.len();
        if n > 0 && p[n - 1] == '\n' {
            n = n - 1;
            if n > 0 && p[n - 1] == '\r' {
                n = n - 1;
            }
        }
        let mut line: Vec<char> = Vec::new();
        let mut j: usize = 0;
        while j < n
            invariant
                j <= n <= p.len(),
                line@ == p@.take(j as int),
            decreases n - j,
        {
            line.push(p[j]);
            assert(p@.take(j + 1) =~= p@.take(j as int).push(p@[j as int]));
            j = j + 1;
        }
        proof {
            let q = p@;
            if q.len() > 0 && q.last() == '\n' {
                let q2 = q.drop_last();
                if q2.len() > 0 && q2.last() == '\r' {
                    assert(line@ =~= q2.drop_last());
                } else {
                    assert(line@ =~= q2);
                }
            } else {
                assert(line@ =~= q);
            }
        }
        out.push(line);
        k = k + 1;
    }
    out
}

// ---------------------------------------------------------------------------
// Searching
// ---------------------------------------------------------------------------

/// `pat` occurs in `s` starting at `i`.
pub open spec fn occurs_at(s: Seq<char>, pat: Seq<char>, i: int) -> bool {
    0 <= i && i + pat.len() <= s.len() && s.subrange(i, i + pat.len()) == pat
}

/// `str::contains` for a string pattern.
pub open spec fn has_substring(s: Seq<char>, pat: Seq<char>) -> bool {
    exists|i: int| #[trigger] occurs_at(s, pat, i)
}

fn occurs_at_exec(s: &Vec<char>, pat: &Vec<char>, i: usize) -> (b: bool)
    requires
        i + pat.len() <= s.len(),
    ensures
        b == occurs_at(s@, pat@, i as int),
{
    let mut k: usize = 0;
    while k < pat.len()
        invariant
            i + pat.len() <= s.len(),
            k <= pat.len(),
            forall|j: int| 0 <= j < k ==> s@[i + j] == pat@[j],
        decreases pat.len() - k,
    {
        if s[i + k] != pat[k] {
            assert(s@.subrange(i as int, i + pat.len())[k as int] != pat@[k as int]);
            return false;
        }
        k = k + 1;
    }
    assert(s@.subrange(i as int, i + pat.len()) =~= pat@);
    true
}

/// Whether `pat` occurs in `s`.
pub fn contains_chars(s: &Vec<char>, pat: &Vec<char>) -> (b: bool)
    ensures
        b == has_substring(s@, pat@),
{
    if pat.len() > s.len() {
        assert forall|i: int| !#[trigger] occurs_at(s@, pat@, i) by {}
        return false;
    }
    let end = s.len() - pat.len();
    let mut i: usize = 0;
    loop
        invariant
            pat.len() <= s.len(),
            end == s.len() - pat.len(),
            i <= end,
            forall|j: int| 0 <= j < i ==> !#[trigger] occurs_at(s@, pat@, j),
        decreases end - i,
    {
        if occurs_at_exec(s, pat, i) {
            return true;
        }
        if i == end {
            assert forall|j: int| !#[trigger] occurs_at(s@, pat@, j) by {
                if 0 <= j <= i {
                }
            }
            return false;
        }
        i = i + 1;
    }
}

/// Whether the string `s` contains `pat` (`str::contains`).
pub fn str_contains(s: &Vec<char>, pat: &str) -> (b: bool)
    ensures
        b == has_substring(s@, pat@),
{
    let p = chars_of(pat);
    contains_chars(s, &p)
}

/// Position of the first `c` in `s`, or `s.len()` when there is none.
pub open spec fn first_index_of(s: Seq<char>, c: char) -> int
    decreases s.len(),
{
    if s.len() == 0 {
        0
    } else if s[0] == c {
        0
    } else {
        1 + first_index_of(s.drop_first(), c)
    }
}

proof fn lemma_first_index_of(s: Seq<char>, c: char)
    ensures
        0 <= first_index_of(s, c) <= s.len(),
        first_index_of(s, c) < s.len() ==> s[first_index_of(s, c)] == c,
        forall|j: int| 0 <= j < first_index_of(s, c) ==> s[j] != c,
    decreases s.len(),
{
    if s.len() > 0 && s[0] != c {
        lemma_first_index_of(s.drop_first(), c);
        assert forall|j: int| 0 <= j < first_index_of(s, c) implies s[j] != c by {
            if j > 0 {
                assert(s[j] == s.drop_first()[j - 1]);
            }
        }
    }
}

/// `str::split_once` on a character: the text before and after its first
/// occurrence.
pub open spec fn split_once(s: Seq<char>, c: char) -> Option<(Seq<char>, Seq<char>)> {
    let i = first_index_of(s, c);
    if i < s.len() {
        Some((s.take(i), s.skip(i + 1)))
    } else {
        None
    }
}

/// `str::split_once(c)`.
pub fn split_once_char(s: &Vec<char>, c: char) -> (r: Option<(Vec<char>, Vec<char>)>)
    ensures
        match r {
            Some((a, b)) => split_once(s@, c) == Some((a@, b@)),
            None => split_once(s@, c) is None,
        },
{
    proof {
        lemma_first_index_of(s@, c);
    }
    let mut i: usize = 0;
    while i < s.len() && s[i] != c
        invariant
            i <= s.len(),
            forall|j: int| 0 <= j < i ==> s@[j] != c,
        decreases s.len() - i,
    {
        i = i + 1;
    }
    proof {
        let f = first_index_of(s@, c);
        if f < i {
            assert(s@[f] == c);
        }
        if i < f {
            assert(s@[i as int] == c);
        }
    }
    if i == s.len() {
        return None;
    }
    let mut a: Vec<char> = Vec::new();
    let mut k: usize = 0;
    while k < i
        invariant
            k <= i < s.len(),
            a@ == s@.take(k as int),
        decreases i - k,
    {
        a.push(s[k]);
        assert(s@.take(k + 1) =~= s@.take(k as int).push(s@[k as int]));
        k = k + 1;
    }
    let mut b: Vec<char> = Vec::new();
    let mut k: usize = i + 1;
    while k < s.len()
        invariant
            i < s.len(),
            i + 1 <= k <= s.len(),
            b@ == s@.subrange(i + 1, k as int),
        decreases s.len() - k,
    {
        b.push(s[k]);
        assert(s@.subrange(i + 1, k + 1) =~= s@.subrange(i + 1, k as int).push(s@[k as int]));
        k = k + 1;
    }
    assert(b@ =~= s@.skip(i + 1));
    Some((a, b))
}

/// Position of the first occurrence of a non-empty `pat` in `s`.
pub open spec fn first_occurrence(s: Seq<char>, pat: Seq<char>) -> Option<int>
    decreases s.len(),
{
    if pat.len() == 0 || s.len() < pat.len() {
        None
    } else if s.take(pat.len() as int) == pat {
        Some(0)
    } else {
        match first_occurrence(s.drop_first(), pat) {
            Some(i) => Some(i + 1),
            None => None,
        }
    }
}

proof fn lemma_occurs_shift(s: Seq<char>, pat: Seq<char>, j: int)
    requires
        j >= 1,
        s.len() > 0,
    ensures
        occurs_at(s, pat, j) == occurs_at(s.drop_first(), pat, j - 1),
{
    if j + pat.len() <= s.len() {
        assert(s.subrange(j, j + pat.len()) =~= s.drop_first().subrange(j - 1, j - 1 + pat.len()));
    }
}

proof fn lemma_first_occurrence(s: Seq<char>, pat: Seq<char>)
    requires
        pat.len() > 0,
    ensures
        match first_occurrence(s, pat) {
            Some(i) => occurs_at(s, pat, i) && forall|j: int| 0 <= j < i ==> !#[trigger] occurs_at(s, pat, j),
            None => forall|j: int| !#[trigger] occurs_at(s, pat, j),
        },
    decreases s.len(),
{
    if s.len() >= pat.len() {
        assert(s.subrange(0, pat.len() as int) =~= s.take(pat.len() as int));
        if s.take(pat.len() as int) != pat {
            lemma_first_occurrence(s.drop_first(), pat);
            match first_occurrence(s.drop_first(), pat) {
                Some(i) => {
                    lemma_occurs_shift(s, pat, i + 1);
                    assert forall|j: int| 0 <= j < i + 1 implies !#[trigger] occurs_at(s, pat, j) by {
                        if j > 0 {
                            lemma_occurs_shift(s, pat, j);
                            assert(!occurs_at(s.drop_first(), pat, j - 1));
                        }
                    }
                }
                None => {
                    assert forall|j: int| !#[trigger] occurs_at(s, pat, j) by {
                        if j > 0 {
                            lemma_occurs_shift(s, pat, j);
                            assert(!occurs_at(s.drop_first(), pat, j - 1));
                        }
                    }
                }
            }
        }
    }
}

/// The pieces of `s` between occurrences of a non-empty `sep`, as
/// `str::split` yields them (empty pieces included).
pub open spec fn split_on(s: Seq<char>, sep: Seq<char>) -> Seq<Seq<char>>
    decreases s.len(),
{
    match first_occurrence(s, sep) {
        Some(i) => if 0 <= i && i + sep.len() <= s.len() && sep.len() > 0 {
            seq![s.take(i)] + split_on(s.skip(i + sep.len()), sep)
        } else {
            seq![s]
        },
        None => seq![s],
    }
}

/// First position `>= from` where `pat` occurs, if any.
fn find_from(s: &Vec<char>, pat: &Vec<char>, from: usize) -> (r: Option<usize>)
    requires
        pat.len() > 0,
        from <= s.len(),
    ensures
        match r {
            Some(i) => from <= i && occurs_at(s@, pat@, i as int)
                && forall|j: int| from <= j < i ==> !#[trigger] occurs_at(s@, pat@, j),
            None => forall|j: int| from <= j ==> !#[trigger] occurs_at(s@, pat@, j),
        },
{
    if pat.len() > s.len() - from {
        return None;
    }
    let end = s.len() - pat.len();
    let mut i: usize = from;
    loop
        invariant
            pat.len() > 0,
            pat.len() <= s.len(),
            end == s.len() - pat.len(),
            from <= i <= end,
            forall|j: int| from <= j < i ==> !#[trigger] occurs_at(s@, pat@, j),
        decreases end - i,
    {
        if occurs_at_exec(s, pat, i) {
            return Some(i);
        }
        if i == end {
            return None;
        }
        i = i + 1;
    }
}

fn copy_range(s: &Vec<char>, a: usize, b: usize) -> (r: Vec<char>)
    requires
        a <= b <= s.len(),
    ensures
        r@ == s@.subrange(a as int, b as int),
{
    let mut r: Vec<char> = Vec::new();
    let mut k: usize = a;
    while k < b
        invariant
            a <= k <= b <= s.len(),
            r@ == s@.subrange(a as int, k as int),
        decreases b - k,
    {
        r.push(s[k]);
        assert(s@.subrange(a as int, k + 1) =~= s@.subrange(a as int, k as int).push(s@[k as int]));
        k = k + 1;
    }
    r
}

proof fn lemma_split_on_suffix(s: Seq<char>, sep: Seq<char>, start: int)
    requires
        sep.len() > 0,
        0 <= start <= s.len(),
    ensures
        split_on(s.skip(start), sep) == match first_occurrence(s.skip(start), sep) {
            Some(i) => seq![s.skip(start).take(i)] + split_on(s.skip(start + i + sep.len()), sep),
            None => seq![s.skip(start)],
        },
{
    let t = s.skip(start);
    lemma_first_occurrence(t, sep);
    match first_occurrence(t, sep) {
        Some(i) => {
            assert(t.skip(i + sep.len()) =~= s.skip(start + i + sep.len()));
        }
        None => {}
    }
}

/// `str::split` on a non-empty separator, collected.
pub fn split_chars(s: &Vec<char>, sep: &Vec<char>) -> (out: Vec<Vec<char>>)
    requires
        sep.len() > 0,
    ensures
        out@.len() == split_on(s@, sep@).len(),
        forall|k: int| 0 <= k < out@.len() ==> (#[trigger] out@[k])@ == split_on(s@, sep@)[k],
{
    let mut out: Vec<Vec<char>> = Vec::new();
    let mut start: usize = 0;
    assert(s@.skip(0) =~= s@);
    loop
        invariant
            sep.len() > 0,
            start <= s.len(),
            split_on(s@, sep@) == out@.map_values(|v: Vec<char>| v@) + split_on(s@.skip(start as int), sep@),
        decreases s.len() - start,
    {
        proof {
            lemma_split_on_suffix(s@, sep@, start as int);
            lemma_first_occurrence(s@.skip(start as int), sep@);
        }
        let ghost t = s@.skip(start as int);
        match find_from(s, sep, start) {
            Some(i) => {
                proof {
                    assert(occurs_at(t, sep@, i - start)) by {
                        assert(t.subrange(i - start, i - start + sep.len()) =~= s@.subrange(i as int, i + sep.len()));
                    }
                    assert forall|j: int| 0 <= j < i - start implies !#[trigger] occurs_at(t, sep@, j) by {
                        assert(!occurs_at(s@, sep@, start + j));
                        if j + sep.len() <= t.len() {
                            assert(t.subrange(j, j + sep.len()) =~= s@.subrange(start + j, start + j + sep.len()));
                        }
                    }
                    let f = first_occurrence(t, sep@).unwrap();
                    if f < i - start {
                        assert(t.subrange(f, f + sep.len()) =~= s@.subrange(start + f, start + f + sep.len()));
                    }
                    assert(f == i - start);
                }
                let piece = copy_range(s, start, i);
                assert(piece@ =~= t.take(i - start));
                let ghost before = out@;
                out.push(piece);
                assert(out@.map_values(|v: Vec<char>| v@) =~= before.map_values(|v: Vec<char>| v@).push(piece@));
                start = i + sep.len();
            }
            None => {
                proof {
                    assert forall|j: int| !#[trigger] occurs_at(t, sep@, j) by {
                        if 0 <= j && j + sep.len() <= t.len() {
                            assert(t.subrange(j, j + sep.len()) =~= s@.subrange(start + j, start + j + sep.len()));
                            assert(!occurs_at(s@, sep@, start + j));
                        }
                    }
                    if first_occurrence(t, sep@) is Some {
                        let f = first_occurrence(t, sep@).unwrap();
                        assert(occurs_at(t, sep@, f));
                    }
                }
                let piece = copy_range(s, start, s.len());
                assert(piece@ =~= t);
                let ghost before = out@;
                out.push(piece);
                assert(out@.map_values(|v: Vec<char>| v@) =~= before.map_values(|v: Vec<char>| v@).push(piece@));
                assert(split_on(s@, sep@) =~= out@.map_values(|v: Vec<char>| v@));
                return out;
            }
        }
    }
}

// ---------------------------------------------------------------------------
// Decimal numbers
// ---------------------------------------------------------------------------

/// Whether `c` is an ASCII decimal digit.
pub open spec fn is_digit(c: char) -> bool {
    '0' <= c <= '9'
}

/// The value of a decimal digit.
pub open spec fn digit_value(c: char) -> nat {
    (c as u32 - '0' as u32) as nat
}

/// Whether every character of `s` is a decimal digit.
pub open spec fn all_digits(s: Seq<char>) -> bool {
    forall|i: int| 0 <= i < s.len() ==> is_digit(#[trigger] s[i])
}

/// The number the decimal digits `s` spell.
pub open spec fn digits_value(s: Seq<char>) -> nat
    decreases s.len(),
{
    if s.len() == 0 {
        0
    } else {
        digits_value(s.drop_last()) * 10 + digit_value(s.last())
    }
}

/// What `str::parse::<u32>` gives: an optional `+`, then one or more ASCII
/// digits whose value fits in a `u32`.
pub open spec fn parse_u32_spec(s: Seq<char>) -> Option<u32> {
    let d = if s.len() > 0 && s[0] == '+' { s.drop_first() } else { s };
    if d.len() == 0 || !all_digits(d) || digits_value(d) > u32::MAX {
        None
    } else {
        Some(digits_value(d) as u32)
    }
}

proof fn lemma_digits_value_grows(s: Seq<char>, k: int)
    requires
        0 <= k <= s.len(),
        all_digits(s),
    ensures
        digits_value(s.take(k)) <= digits_value(s),
    decreases s.len(),
{
    if k < s.len() {
        lemma_digits_value_grows(s.drop_last(), k);
        assert(s.drop_last().take(k) =~= s.take(k));
    } else {
        assert(s.take(k) =~= s);
    }
}

/// `str::parse::<u32>`.
pub fn parse_u32(s: &Vec<char>) -> (r: Option<u32>)
    ensures
        r == parse_u32_spec(s@),
{
    let start: usize = if s.len() > 0 && s[0] == '+' { 1 } else { 0 };
    let ghost d = if s@.len() > 0 && s@[0] == '+' { s@.drop_first() } else { s@ };
    assert(d =~= s@.skip(start as int));
    if start == s.len() {
        return None;
    }
    let mut acc: u64 = 0;
    let mut i: usize = start;
    while i < s.len()
        invariant
            start <= i <= s.len(),
            d == s@.skip(start as int),
            d == (if s@.len() > 0 && s@[0] == '+' { s@.drop_first() } else { s@ }),
            d.len() > 0,
            all_digits(s@.subrange(start as int, i as int)),
            acc == digits_value(s@.subrange(start as int, i as int)),
            acc <= u32::MAX,
        decreases s.len() - i,
    {
        let c = s[i];
        let ghost pre = s@.subrange(start as int, i as int);
        let ghost next = s@.subrange(start as int, i + 1);
        assert(next.drop_last() =~= pre);
        assert(d[i - start] == c);
        assert(next.last() == c);
        if !('0' <= c && c <= '9') {
            assert(!is_digit(d[i - start]));
            assert(!all_digits(d));
            assert(parse_u32_spec(s@) is None);
            return None;
        }
        let v = (c as u32 - '0' as u32) as u64;
        assert(v == digit_value(c));
        acc = acc * 10 + v;
        assert(acc == digits_value(next));
        if acc > 0xffff_ffff {
            proof {
                assert(all_digits(next));
                if all_digits(d) {
                    assert(d.take(i + 1 - start) =~= next);
                    lemma_digits_value_grows(d, i + 1 - start);
                    assert(digits_value(d) > u32::MAX);
                }
                assert(parse_u32_spec(s@) is None);
            }
            return None;
        }
        i = i + 1;
    }
    assert(s@.subrange(start as int, s.len() as int) =~= d);
    Some(acc as u32)
}

/// The decimal digit for `d < 10`.
pub open spec fn digit_char(d: nat) -> char {
    ((d + '0' as nat) as u32) as char
}

/// The decimal representation of `n`, as `{}` formats it.
pub open spec fn decimal(n: nat) -> Seq<char>
    decreases n,
{
    if n < 10 {
        seq![digit_char(n)]
    } else {
        decimal(n / 10).push(digit_char(n % 10))
    }
}

/// Append the decimal representation of `n`.
pub fn push_decimal(out: &mut Vec<char>, n: u64)
    ensures
        final(out)@ == old(out)@ + decimal(n as nat),
    decreases n,
{
    if n >= 10 {
        push_decimal(out, n / 10);
    }
    let d = (n % 10) as u32;
    let c = char_from_digit(d);
    let ghost before = out@;
    out.push(c);
    proof {
        if n < 10 {
            assert(out@ =~= old(out)@ + decimal(n as nat));
        } else {
            assert(out@ =~= old(out)@ + decimal(n as nat));
        }
    }
}

/// The digit character for `d < 10`.
fn char_from_digit(d: u32) -> (c: char)
    requires
        d < 10,
    ensures
        c == digit_char(d as nat),
{
    if d == 0 { '0' } else if d == 1 { '1' } else if d == 2 { '2' } else if d == 3 { '3' }
    else if d == 4 { '4' } else if d == 5 { '5' } else if d == 6 { '6' } else if d == 7 { '7' }
    else if d == 8 { '8' } else { '9' }
}

/// The decimal representation of a signed number, with a leading `-` when negative.
pub open spec fn signed_decimal(n: int) -> Seq<char> {
    if n < 0 { seq!['-'] + decimal((-n) as nat) } else { decimal(n as nat) }
}

/// Append the decimal representation of a signed number.
pub fn push_signed(out: &mut Vec<char>, n: i64)
    requires
        n > i64::MIN,
    ensures
        final(out)@ == old(out)@ + signed_decimal(n as int),
{
    if n < 0 {
        out.push('-');
        let ghost mid = out@;
        push_decimal(out, (-n) as u64);
        assert(out@ =~= old(out)@ + signed_decimal(n as int));
    } else {
        push_decimal(out, n as u64);
    }
}

/// Append the characters of a string.
pub fn push_str(out: &mut Vec<char>, s: &str)
    ensures
        final(out)@ == old(out)@ + s@,
{
    let v = chars_of(s);
    extend_chars(out, &v);
}

/// A list of numbers as `{:?}` shows it: `[1, 2, 3]`.
pub open spec fn debug_list(ns: Seq<u32>) -> Seq<char> {
    seq!['['] + list_body(ns) + seq![']']
}

/// The numbers of `ns` in decimal, separated by `", "`.
pub open spec fn list_body(ns: Seq<u32>) -> Seq<char>
    decreases ns.len(),
{
    if ns.len() == 0 {
        Seq::empty()
    } else if ns.len() == 1 {
        decimal(ns[0] as nat)
    } else {
        list_body(ns.drop_last()) + seq![',', ' '] + decimal(ns.last() as nat)
    }
}

/// Append `{:?}` of a list of numbers.
pub fn push_debug_list(out: &mut Vec<char>, ns: &Vec<u32>)
    ensures
        final(out)@ == old(out)@ + debug_list(ns@),
{
    let ghost start = out@;
    out.push('[');
    let mut i: usize = 0;
    while i < ns.len()
        invariant
            i <= ns.len(),
            out@ == start + seq!['['] + list_body(ns@.take(i as int)),
        decreases ns.len() - i,
    {
        let ghost t = ns@.take(i + 1);
        assert(t.drop_last() =~= ns@.take(i as int));
        if i > 0 {
            out.push(',');
            out.push(' ');
        }
        push_decimal(out, ns[i] as u64);
        proof {
            if i == 0 {
                assert(ns@.take(0) =~= Seq::<u32>::empty());
                assert(out@ =~= start + seq!['['] + list_body(t));
            } else {
                assert(out@ =~= start + seq!['['] + list_body(t));
            }
        }
        i = i + 1;
    }
    out.push(']');
    assert(ns@.take(ns.len() as int) =~= ns@);
    assert(out@ =~= start + debug_list(ns@));
}

/// The pieces `ms` with `sep` between each two of them.
pub open spec fn joined(ms: Seq<Seq<char>>, sep: Seq<char>) -> Seq<char>
    decreases ms.len(),
{
    if ms.len() == 0 {
        Seq::empty()
    } else if ms.len() == 1 {
        ms[0]
    } else {
        joined(ms.drop_last(), sep) + sep + ms.last()
    }
}

/// Append the strings `parts` with `sep` between each two of them.
pub fn push_joined(out: &mut Vec<char>, parts: &Vec<String>, sep: &str)
    ensures
        final(out)@ == old(out)@ + joined(parts@.map_values(|p: String| p@), sep@),
{
    let ghost start = out@;
    let ghost ps = parts@.map_values(|p: String| p@);
    let mut i: usize = 0;
    while i < parts.len()
        invariant
            ps == parts@.map_values(|p: String| p@),
            i <= parts.len(),
            out@ == start + joined(ps.take(i as int), sep@),
        decreases parts.len() - i,
    {
        let ghost before = out@;
        if i > 0 {
            push_str(out, sep);
        }
        push_str(out, parts[i].as_str());
        proof {
            let t = ps.take(i + 1);
            assert(t.len() == i + 1);
            assert(t.last() == ps[i as int]);
            assert(t.drop_last() =~= ps.take(i as int));
            if i == 0 {
                assert(ps.take(0) =~= Seq::<Seq<char>>::empty());
                assert(out@ =~= start + t[0]);
            } else {
                assert(out@ =~= start + (joined(ps.take(i as int), sep@) + sep@ + ps[i as int]));
            }
            assert(out@ =~= start + joined(t, sep@));
        }
        i = i + 1;
    }
    assert(ps.take(parts.len() as int) =~= ps);
}

/// A decimal `i32`, with an optional leading `+` or `-`, as `str::parse::<i32>` reads it.
pub open spec fn parse_i32_spec(s: Seq<char>) -> Option<i32> {
    if s.len() > 0 && s[0] == '-' {
        let rest = s.drop_first();
        if rest.len() > 0 && rest[0] == '+' {
            None
        } else {
            match parse_u32_spec(rest) {
                Some(v) => if v <= 0x8000_0000u32 { Some((-(v as int)) as i32) } else { None },
                None => None,
            }
        }
    } else {
        match parse_u32_spec(s) {
            Some(v) => if v <= 0x7fff_ffffu32 { Some(v as i32) } else { None },
            None => None,
        }
    }
}

/// Read a decimal `i32`.
pub fn parse_i32(s: &Vec<char>) -> (r: Option<i32>)
    ensures
        r == parse_i32_spec(s@),
{
    if s.len() > 0 && s[0] == '-' {
        let mut rest: Vec<char> = Vec::new();
        let mut i: usize = 1;
        while i < s.len()
            invariant
                1 <= i <= s.len(),
                rest@ == s@.subrange(1, i as int),
            decreases s.len() - i,
        {
            rest.push(s[i]);
            assert(s@.subrange(1, i + 1) =~= s@.subrange(1, i as int).push(s@[i as int]));
            i = i + 1;
        }
        assert(rest@ =~= s@.drop_first());
        if rest.len() > 0 && rest[0] == '+' {
            return None;
        }
        match parse_u32(&rest) {
            Some(v) => {
                if v <= 0x8000_0000u32 {
                    let w: i64 = -(v as i64);
                    Some(w as i32)
                } else {
                    None
                }
            }
            None => None,
        }
    } else {
        match parse_u32(s) {
            Some(v) => {
                if v <= 0x7fff_ffffu32 { Some(v as i32) } else { None }
            }
            None => None,
        }
    }
}

} // verus!
