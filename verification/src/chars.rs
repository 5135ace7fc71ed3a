//! Character-sequence primitives shared by the matchers: ASCII case
//! folding, whitespace classification, and the substring and
//! whitespace-delimited-word predicates that attribute operators use.

use vstd::prelude::*;

verus! {

/// ASCII case folding of a single character: `'A'..='Z'` map to their
/// lowercase counterparts, every other character is unchanged.
pub open spec fn lower_char(c: char) -> char {
    match c {
        'A' => 'a',
        'B' => 'b',
        'C' => 'c',
        'D' => 'd',
        'E' => 'e',
        'F' => 'f',
        'G' => 'g',
        'H' => 'h',
        'I' => 'i',
        'J' => 'j',
        'K' => 'k',
        'L' => 'l',
        'M' => 'm',
        'N' => 'n',
        'O' => 'o',
        'P' => 'p',
        'Q' => 'q',
        'R' => 'r',
        'S' => 's',
        'T' => 't',
        'U' => 'u',
        'V' => 'v',
        'W' => 'w',
        'X' => 'x',
        'Y' => 'y',
        'Z' => 'z',
        _ => c,
    }
}

/// ASCII case folding of a whole character sequence.
pub open spec fn lower(s: Seq<char>) -> Seq<char> {
    s.map_values(|c: char| lower_char(c))
}

/// The ASCII whitespace characters: attribute values are split into
/// words at runs of these.
pub open spec fn is_space(c: char) -> bool {
    c == ' ' || c == '\t' || c == '\n' || c == '\r' || c == '\u{000C}'
}

pub fn to_lower_char(c: char) -> (r: char)
    ensures
        r == lower_char(c),
{
    match c {
        'A' => 'a',
        'B' => 'b',
        'C' => 'c',
        'D' => 'd',
        'E' => 'e',
        'F' => 'f',
        'G' => 'g',
        'H' => 'h',
        'I' => 'i',
        'J' => 'j',
        'K' => 'k',
        'L' => 'l',
        'M' => 'm',
        'N' => 'n',
        'O' => 'o',
        'P' => 'p',
        'Q' => 'q',
        'R' => 'r',
        'S' => 's',
        'T' => 't',
        'U' => 'u',
        'V' => 'v',
        'W' => 'w',
        'X' => 'x',
        'Y' => 'y',
        'Z' => 'z',
        _ => c,
    }
}

pub fn is_space_char(c: char) -> (r: bool)
    ensures
        r == is_space(c),
{
    c == ' ' || c == '\t' || c == '\n' || c == '\r' || c == '\u{000C}'
}

/// The characters of a string slice, as a vector.
pub fn chars_of(s: &str) -> (r: Vec<char>)
    ensures
        r@ == s@,
{
    let n: usize = s.unicode_len();
    let mut r: Vec<char> = Vec::new();
    let mut i: usize = 0;
    while i < n
        invariant
            n == s@.len(),
            i <= n,
            r@ == s@.subrange(0, i as int),
        decreases n - i,
    {
        r.push(s.get_char(i));
        i = i + 1;
        proof {
            assert(r@ =~= s@.subrange(0, i as int));
        }
    }
    proof {
        assert(r@ =~= s@);
    }
    r
}

/// ASCII case folding of a character vector.
pub fn lower_vec(v: &Vec<char>) -> (r: Vec<char>)
    ensures
        r@ == lower(v@),
{
    let n: usize = v.len();
    let mut r: Vec<char> = Vec::new();
    let mut i: usize = 0;
    while i < n
        invariant
            n == v@.len(),
            i <= n,
            r@.len() == i,
            forall|j: int| 0 <= j < i ==> r@[j] == lower_char(v@[j]),
        decreases n - i,
    {
        r.push(to_lower_char(v[i]));
        i = i + 1;
    }
    proof {
        assert(r@ =~= lower(v@));
    }
    r
}

/// Character-wise equality of two vectors.
pub fn chars_eq(a: &Vec<char>, b: &Vec<char>) -> (r: bool)
    ensures
        r == (a@ == b@),
{
    if a.len() != b.len() {
        return false;
    }
    let n: usize = a.len();
    let mut i: usize = 0;
    while i < n
        invariant
            n == a@.len(),
            n == b@.len(),
            i <= n,
            forall|j: int| 0 <= j < i ==> a@[j] == b@[j],
        decreases n - i,
    {
        if a[i] != b[i] {
            return false;
        }
        i = i + 1;
    }
    proof {
        assert(a@ =~= b@);
    }
    true
}

/// `p` is a prefix of `s`.
pub open spec fn is_prefix_of(p: Seq<char>, s: Seq<char>) -> bool {
    p.len() <= s.len() && (forall|i: int| 0 <= i < p.len() ==> s[i] == p[i])
}

/// `p` is a suffix of `s`.
pub open spec fn is_suffix_of(p: Seq<char>, s: Seq<char>) -> bool {
    p.len() <= s.len() && (forall|i: int| 0 <= i < p.len() ==> s[s.len() - p.len() + i] == p[i])
}

/// `p` occurs in `s` starting at position `i`.
pub open spec fn matches_at(s: Seq<char>, i: int, p: Seq<char>) -> bool {
    0 <= i && i + p.len() <= s.len() && (forall|k: int| 0 <= k < p.len() ==> s[i + k] == p[k])
}

/// `p` occurs somewhere in `s` (always true for an empty `p`).
pub open spec fn contains_seq(s: Seq<char>, p: Seq<char>) -> bool {
    exists|i: int| matches_at(s, i, p)
}

pub fn has_prefix(s: &Vec<char>, p: &Vec<char>) -> (r: bool)
    ensures
        r == is_prefix_of(p@, s@),
{
    if p.len() > s.len() {
        return false;
    }
    let n: usize = p.len();
    let mut i: usize = 0;
    while i < n
        invariant
            n == p@.len(),
            n <= s@.len(),
            i <= n,
            forall|j: int| 0 <= j < i ==> s@[j] == p@[j],
        decreases n - i,
    {
        if s[i] != p[i] {
            return false;
        }
        i = i + 1;
    }
    true
}

pub fn has_suffix(s: &Vec<char>, p: &Vec<char>) -> (r: bool)
    ensures
        r == is_suffix_of(p@, s@),
{
    if p.len() > s.len() {
        return false;
    }
    let n: usize = p.len();
    let sl: usize = s.len();
    let off: usize = sl - n;
    let mut i: usize = 0;
    while i < n
        invariant
            n == p@.len(),
            sl == s@.len(),
            n <= sl,
            off == sl - n,
            i <= n,
            forall|j: int| 0 <= j < i ==> s@[off + j] == p@[j],
        decreases n - i,
    {
        if s[off + i] != p[i] {
            return false;
        }
        i = i + 1;
    }
    true
}

/// Whether `p` occurs in `s` at position `i`.
fn match_at(s: &Vec<char>, i: usize, p: &Vec<char>) -> (r: bool)
    requires
        i + p@.len() <= s@.len(),
    ensures
        r == matches_at(s@, i as int, p@),
{
    let n: usize = p.len();
    let sl: usize = s.len();
    let mut k: usize = 0;
    while k < n
        invariant
            n == p@.len(),
            sl == s@.len(),
            i + n <= sl,
            k <= n,
            forall|j: int| 0 <= j < k ==> s@[i + j] == p@[j],
        decreases n - k,
    {
        if s[i + k] != p[k] {
            return false;
        }
        k = k + 1;
    }
    true
}

pub fn contains_sub(s: &Vec<char>, p: &Vec<char>) -> (r: bool)
    ensures
        r == contains_seq(s@, p@),
{
    if p.len() > s.len() {
        return false;
    }
    if p.len() == 0 {
        proof {
            assert(matches_at(s@, 0, p@));
        }
        return true;
    }
    let sl: usize = s.len();
    let last: usize = sl - p.len();
    let mut i: usize = 0;
    while i <= last
        invariant
            sl == s@.len(),
            last == sl - p@.len(),
            1 <= p@.len() <= sl,
            i <= last + 1,
            forall|j: int| 0 <= j < i ==> !matches_at(s@, j, p@),
        decreases last + 1 - i,
    {
        if match_at(s, i, p) {
            return true;
        }
        i = i + 1;
    }
    false
}

/// `[i, j)` is a word of `s`: a maximal nonempty run of non-whitespace
/// characters.
pub open spec fn word_at(s: Seq<char>, i: int, j: int) -> bool {
    &&& 0 <= i < j <= s.len()
    &&& (i == 0 || is_space(s[i - 1]))
    &&& (j == s.len() || is_space(s[j]))
    &&& (forall|k: int| i <= k < j ==> !is_space(s[k]))
}

/// Some whitespace-delimited word of `s` is exactly `v`.
pub open spec fn has_word(s: Seq<char>, v: Seq<char>) -> bool {
    exists|i: int, j: int| word_at(s, i, j) && j - i == v.len() && matches_at(s, i, v)
}

/// The word `[i, j)` of `s` starts with `v` followed by a hyphen.
pub open spec fn word_hyphen_at(s: Seq<char>, i: int, j: int, v: Seq<char>) -> bool {
    j - i > v.len() && matches_at(s, i, v) && s[i + v.len()] == '-'
}

/// Some word of `s` equals `v`, or starts with `v` and a hyphen.
pub open spec fn has_word_or_hyphen(s: Seq<char>, v: Seq<char>) -> bool {
    exists|i: int, j: int|
        word_at(s, i, j) && (j - i == v.len() && matches_at(s, i, v) || word_hyphen_at(
            s,
            i,
            j,
            v,
        ))
}

/// Case folding maps no character into or out of the whitespace set,
/// so it preserves word boundaries exactly: folding a value before
/// splitting it into words and folding each word after splitting name
/// the same segments.
pub proof fn lemma_fold_preserves_words(s: Seq<char>, i: int, j: int)
    ensures
        word_at(lower(s), i, j) == word_at(s, i, j),
{
    assert forall|k: int| 0 <= k < s.len() implies is_space(#[trigger] lower(s)[k]) == is_space(
        s[k],
    ) by {
        assert(lower(s)[k] == lower_char(s[k]));
    }
    if word_at(s, i, j) {
        assert forall|k: int| i <= k < j implies !is_space(lower(s)[k]) by {
            assert(!is_space(s[k]));
        }
        assert(word_at(lower(s), i, j));
    }
    if word_at(lower(s), i, j) {
        assert forall|k: int| i <= k < j implies !is_space(s[k]) by {
            assert(!is_space(lower(s)[k]));
        }
        assert(word_at(s, i, j));
    }
}

/// The pair `(i, j)` occurs in `r`.
spec fn span_recorded(r: Seq<(usize, usize)>, i: int, j: int) -> bool {
    exists|t: int| 0 <= t < r.len() && r[t].0 == i && r[t].1 == j
}

proof fn lemma_span_recorded_push(r0: Seq<(usize, usize)>, x: (usize, usize), i: int, j: int)
    requires
        span_recorded(r0, i, j),
    ensures
        span_recorded(r0.push(x), i, j),
{
    let t = choose|t: int| 0 <= t < r0.len() && r0[t].0 == i && r0[t].1 == j;
    assert(r0.push(x)[t].0 == i && r0.push(x)[t].1 == j);
}

/// The boundaries of every word of `s`, in order of occurrence.
fn word_spans(s: &Vec<char>) -> (r: Vec<(usize, usize)>)
    ensures
        forall|t: int|
            0 <= t < r@.len() ==> word_at(s@, #[trigger] r@[t].0 as int, r@[t].1 as int),
        forall|i: int, j: int| word_at(s@, i, j) ==> span_recorded(r@, i, j),
{
    let n: usize = s.len();
    let mut r: Vec<(usize, usize)> = Vec::new();
    let mut pos: usize = 0;
    while pos < n
        invariant
            n == s@.len(),
            pos <= n,
            pos == n || pos == 0 || is_space(s@[pos as int - 1]),
            forall|t: int|
                0 <= t < r@.len() ==> word_at(s@, #[trigger] r@[t].0 as int, r@[t].1 as int),
            forall|i: int, j: int| word_at(s@, i, j) && j <= pos ==> span_recorded(r@, i, j),
        decreases n - pos,
    {
        if is_space_char(s[pos]) {
            pos = pos + 1;
            proof {
                assert forall|i: int, j: int| word_at(s@, i, j) && j <= pos implies span_recorded(
                    r@,
                    i,
                    j,
                ) by {
                    if j == pos {
                        // the character before the new bound is whitespace,
                        // yet it would lie inside the word
                        assert(i <= pos - 1 < j);
                        assert(false);
                    }
                }
            }
        } else {
            let start: usize = pos;
            let mut end: usize = pos;
            while end < n && !is_space_char(s[end])
                invariant
                    n == s@.len(),
                    start <= end <= n,
                    start < n,
                    start == 0 || is_space(s@[start as int - 1]),
                    !is_space(s@[start as int]),
                    forall|k: int| start <= k < end ==> !is_space(s@[k]),
                decreases n - end,
            {
                end = end + 1;
            }
            proof {
                assert(start < end);
                assert(word_at(s@, start as int, end as int));
            }
            let ghost r0 = r@;
            r.push((start, end));
            proof {
                assert forall|t: int|
                    0 <= t < r@.len() implies word_at(
                    s@,
                    #[trigger] r@[t].0 as int,
                    r@[t].1 as int,
                ) by {
                    if t < r0.len() {
                        assert(r@[t] == r0[t]);
                    } else {
                        assert(r@[t] == (start, end));
                    }
                }
            }
            if end < n {
                pos = end + 1;
            } else {
                pos = end;
            }
            proof {
                assert forall|i: int, j: int| word_at(s@, i, j) && j <= pos implies span_recorded(
                    r@,
                    i,
                    j,
                ) by {
                    if j <= start {
                        lemma_span_recorded_push(r0, (start, end), i, j);
                    } else if j < end {
                        // a word cannot end strictly inside the nonspace run
                        assert(!is_space(s@[j]));
                        assert(false);
                    } else if j == end {
                        if i < start {
                            // start > 0 here, and the space before start
                            // would lie inside the word
                            assert(i <= start - 1 < j);
                            assert(is_space(s@[start as int - 1]));
                            assert(false);
                        } else if i > start {
                            // the character before i is part of the run,
                            // so it is not whitespace
                            assert(start <= i - 1 < end);
                            assert(false);
                        } else {
                            assert(r@[r0.len() as int].0 == i && r@[r0.len() as int].1 == j);
                        }
                    } else {
                        // j == end + 1: the whitespace at end would lie
                        // inside the word
                        assert(i <= end < j);
                        assert(is_space(s@[end as int]));
                        assert(false);
                    }
                }
            }
        }
    }
    r
}

pub fn has_word_exec(s: &Vec<char>, v: &Vec<char>) -> (r: bool)
    ensures
        r == has_word(s@, v@),
{
    let spans = word_spans(s);
    let m: usize = spans.len();
    let mut t: usize = 0;
    while t < m
        invariant
            m == spans@.len(),
            t <= m,
            forall|u: int|
                0 <= u < spans@.len() ==> word_at(
                    s@,
                    #[trigger] spans@[u].0 as int,
                    spans@[u].1 as int,
                ),
            forall|i: int, j: int| word_at(s@, i, j) ==> span_recorded(spans@, i, j),
            forall|u: int|
                0 <= u < t ==> !(spans@[u].1 - spans@[u].0 == v@.len() && matches_at(
                    s@,
                    #[trigger] spans@[u].0 as int,
                    v@,
                )),
        decreases m - t,
    {
        let (a, b): (usize, usize) = spans[t];
        proof {
            assert(word_at(s@, a as int, b as int));
        }
        if b - a == v.len() && match_at(s, a, v) {
            proof {
                assert(word_at(s@, a as int, b as int) && b - a == v@.len() && matches_at(
                    s@,
                    a as int,
                    v@,
                ));
            }
            return true;
        }
        t = t + 1;
    }
    proof {
        assert forall|i: int, j: int|
            !(word_at(s@, i, j) && j - i == v@.len() && matches_at(s@, i, v@)) by {
            if word_at(s@, i, j) && j - i == v@.len() && matches_at(s@, i, v@) {
                let u = choose|u: int|
                    0 <= u < spans@.len() && spans@[u].0 == i && spans@[u].1 == j;
                assert(!(spans@[u].1 - spans@[u].0 == v@.len() && matches_at(
                    s@,
                    spans@[u].0 as int,
                    v@,
                )));
                assert(false);
            }
        }
    }
    false
}

pub fn has_word_or_hyphen_exec(s: &Vec<char>, v: &Vec<char>) -> (r: bool)
    ensures
        r == has_word_or_hyphen(s@, v@),
{
    let spans = word_spans(s);
    let m: usize = spans.len();
    let mut t: usize = 0;
    while t < m
        invariant
            m == spans@.len(),
            t <= m,
            forall|u: int|
                0 <= u < spans@.len() ==> word_at(
                    s@,
                    #[trigger] spans@[u].0 as int,
                    spans@[u].1 as int,
                ),
            forall|i: int, j: int| word_at(s@, i, j) ==> span_recorded(spans@, i, j),
            forall|u: int|
                0 <= u < t ==> !(spans@[u].1 - spans@[u].0 == v@.len() && matches_at(
                    s@,
                    #[trigger] spans@[u].0 as int,
                    v@,
                )) && !word_hyphen_at(s@, spans@[u].0 as int, spans@[u].1 as int, v@),
        decreases m - t,
    {
        let (a, b): (usize, usize) = spans[t];
        proof {
            assert(word_at(s@, a as int, b as int));
        }
        if b - a == v.len() && match_at(s, a, v) {
            proof {
                assert(word_at(s@, a as int, b as int) && b - a == v@.len() && matches_at(
                    s@,
                    a as int,
                    v@,
                ));
            }
            return true;
        }
        if b - a > v.len() && match_at(s, a, v) && s[a + v.len()] == '-' {
            proof {
                assert(word_at(s@, a as int, b as int) && word_hyphen_at(s@, a as int, b as int, v@));
            }
            return true;
        }
        t = t + 1;
    }
    proof {
        assert forall|i: int, j: int|
            !(word_at(s@, i, j) && (j - i == v@.len() && matches_at(s@, i, v@) || word_hyphen_at(
                s@,
                i,
                j,
                v@,
            ))) by {
            if word_at(s@, i, j) && (j - i == v@.len() && matches_at(s@, i, v@) || word_hyphen_at(
                s@,
                i,
                j,
                v@,
            )) {
                let u = choose|u: int|
                    0 <= u < spans@.len() && spans@[u].0 == i && spans@[u].1 == j;
                assert(!(spans@[u].1 - spans@[u].0 == v@.len() && matches_at(
                    s@,
                    spans@[u].0 as int,
                    v@,
                )) && !word_hyphen_at(s@, spans@[u].0 as int, spans@[u].1 as int, v@));
                assert(false);
            }
        }
    }
    false
}

} // verus!
