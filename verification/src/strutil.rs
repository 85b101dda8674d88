//! Verified helpers for the character-sequence work the rest of the library
//! is built on: equality, searching, trimming, splitting and joining.

use vstd::prelude::*;

verus! {

/// Whether `c` occurs anywhere in `s`.
pub open spec fn contains_char(s: Seq<char>, c: char) -> bool {
    exists|i: int| 0 <= i < s.len() && s[i] == c
}

/// Index of the first occurrence of `c` in `s`; `s.len()` when `c` is absent.
pub open spec fn first_idx(s: Seq<char>, c: char) -> int
    decreases s.len(),
{
    if s.len() == 0 {
        0
    } else if s[0] == c {
        0
    } else {
        1 + first_idx(s.drop_first(), c)
    }
}

/// Index of the last occurrence of `c` in `s`; `-1` when `c` is absent.
pub open spec fn last_idx(s: Seq<char>, c: char) -> int
    decreases s.len(),
{
    if s.len() == 0 {
        -1
    } else if s.last() == c {
        s.len() - 1
    } else {
        last_idx(s.drop_last(), c)
    }
}

pub proof fn lemma_first_idx(s: Seq<char>, c: char)
    ensures
        0 <= first_idx(s, c) <= s.len(),
        first_idx(s, c) < s.len() ==> s[first_idx(s, c)] == c,
        forall|j: int| 0 <= j < first_idx(s, c) ==> s[j] != c,
        (first_idx(s, c) == s.len()) <==> !contains_char(s, c),
    decreases s.len(),
{
    if s.len() == 0 {
    } else if s[0] == c {
    } else {
        lemma_first_idx(s.drop_first(), c);
        let f = first_idx(s, c);
        assert(forall|j: int| 1 <= j < f ==> s[j] == s.drop_first()[j - 1]);
        if f == s.len() {
            assert(!contains_char(s, c)) by {
                assert(forall|i: int| 1 <= i < s.len() ==> s[i] == s.drop_first()[i - 1]);
            }
        } else {
            assert(s[f] == s.drop_first()[f - 1]);
        }
        if contains_char(s, c) {
            let w = choose|i: int| 0 <= i < s.len() && s[i] == c;
            assert(s.drop_first()[w - 1] == c);
            assert(contains_char(s.drop_first(), c));
        }
    }
}

pub proof fn lemma_last_idx(s: Seq<char>, c: char)
    ensures
        -1 <= last_idx(s, c) < s.len(),
        last_idx(s, c) >= 0 ==> s[last_idx(s, c)] == c,
        forall|j: int| last_idx(s, c) < j < s.len() ==> s[j] != c,
        (last_idx(s, c) == -1) <==> !contains_char(s, c),
    decreases s.len(),
{
    if s.len() == 0 {
    } else if s.last() == c {
    } else {
        lemma_last_idx(s.drop_last(), c);
        let l = last_idx(s, c);
        assert(forall|j: int| 0 <= j < s.len() - 1 ==> s[j] == s.drop_last()[j]);
        if contains_char(s, c) {
            let w = choose|i: int| 0 <= i < s.len() && s[i] == c;
            assert(w < s.len() - 1);
            assert(s.drop_last()[w] == c);
            assert(contains_char(s.drop_last(), c));
        }
        if contains_char(s.drop_last(), c) {
            let w = choose|i: int| 0 <= i < s.drop_last().len() && s.drop_last()[i] == c;
            assert(s[w] == c);
        }
    }
}

/// Executable string equality, specified over the character views.
pub fn str_eq(a: &str, b: &str) -> (r: bool)
    ensures
        r == (a@ == b@),
{
    let sa: String = a.to_owned();
    let sb: String = b.to_owned();
    sa == sb
}

/// First occurrence of `c` in `s`, as an index into the character view.
pub fn find_char(s: &str, c: char) -> (r: Option<usize>)
    ensures
        match r {
            Some(i) => i == first_idx(s@, c) && i < s@.len() && s@[i as int] == c,
            None => !contains_char(s@, c) && first_idx(s@, c) == s@.len(),
        },
{
    proof {
        lemma_first_idx(s@, c);
    }
    let n = s.unicode_len();
    let mut i: usize = 0;
    while i < n
        invariant
            n == s@.len(),
            0 <= i <= n,
            forall|j: int| 0 <= j < i ==> s@[j] != c,
            first_idx(s@, c) >= i,
        decreases n - i,
    {
        if s.get_char(i) == c {
            proof {
                lemma_first_idx(s@, c);
            }
            return Some(i);
        }
        proof {
            lemma_first_idx(s@, c);
        }
        i += 1;
    }
    None
}

/// Last occurrence of `c` in `s`, as an index into the character view.
pub fn rfind_char(s: &str, c: char) -> (r: Option<usize>)
    ensures
        match r {
            Some(i) => i == last_idx(s@, c) && i < s@.len() && s@[i as int] == c,
            None => !contains_char(s@, c) && last_idx(s@, c) == -1,
        },
{
    proof {
        lemma_last_idx(s@, c);
    }
    let n = s.unicode_len();
    let mut i: usize = n;
    while i > 0
        invariant
            n == s@.len(),
            0 <= i <= n,
            forall|j: int| i <= j < n ==> s@[j] != c,
            last_idx(s@, c) < i,
        decreases i,
    {
        if s.get_char(i - 1) == c {
            proof {
                lemma_last_idx(s@, c);
            }
            return Some(i - 1);
        }
        proof {
            lemma_last_idx(s@, c);
        }
        i -= 1;
    }
    None
}

/// Whether `c` occurs in `s`.
pub fn has_char(s: &str, c: char) -> (r: bool)
    ensures
        r == contains_char(s@, c),
{
    proof {
        lemma_first_idx(s@, c);
    }
    find_char(s, c).is_some()
}

/// The characters `str::trim` removes: Unicode `White_Space`.
pub open spec fn is_space(c: char) -> bool {
    ||| c == ' '
    ||| c == '\t'
    ||| c == '\n'
    ||| c == '\r'
    ||| c == '\u{b}'
    ||| c == '\u{c}'
    ||| c == '\u{85}'
    ||| c == '\u{a0}'
    ||| c == '\u{1680}'
    ||| ('\u{2000}' <= c && c <= '\u{200a}')
    ||| c == '\u{2028}'
    ||| c == '\u{2029}'
    ||| c == '\u{202f}'
    ||| c == '\u{205f}'
    ||| c == '\u{3000}'
}

/// Executable test for [`is_space`].
pub fn is_space_char(c: char) -> (r: bool)
    ensures
        r == is_space(c),
{
    c == ' ' || c == '\t' || c == '\n' || c == '\r' || c == '\u{b}' || c == '\u{c}'
        || c == '\u{85}' || c == '\u{a0}' || c == '\u{1680}'
        || ('\u{2000}' <= c && c <= '\u{200a}') || c == '\u{2028}' || c == '\u{2029}'
        || c == '\u{202f}' || c == '\u{205f}' || c == '\u{3000}'
}

/// `s` with its leading whitespace removed.
pub open spec fn trim_start_spec(s: Seq<char>) -> Seq<char>
    decreases s.len(),
{
    if s.len() == 0 {
        s
    } else if is_space(s[0]) {
        trim_start_spec(s.drop_first())
    } else {
        s
    }
}

/// `s` with its trailing whitespace removed.
pub open spec fn trim_end_spec(s: Seq<char>) -> Seq<char>
    decreases s.len(),
{
    if s.len() == 0 {
        s
    } else if is_space(s.last()) {
        trim_end_spec(s.drop_last())
    } else {
        s
    }
}

/// `s` with leading and trailing whitespace removed, as `str::trim` leaves it.
pub open spec fn trim_spec(s: Seq<char>) -> Seq<char> {
    trim_end_spec(trim_start_spec(s))
}

proof fn lemma_trim_start_skip(s: Seq<char>, i: int)
    requires
        0 <= i <= s.len(),
        forall|j: int| 0 <= j < i ==> is_space(s[j]),
        i < s.len() ==> !is_space(s[i]),
    ensures
        trim_start_spec(s) == s.skip(i),
    decreases i,
{
    if i == 0 {
        assert(s.skip(0) =~= s);
    } else {
        let t = s.drop_first();
        assert(forall|j: int| 0 <= j < i - 1 ==> t[j] == s[j + 1] && is_space(t[j]));
        lemma_trim_start_skip(t, i - 1);
        assert(t.skip(i - 1) =~= s.skip(i));
    }
}

proof fn lemma_trim_end_take(s: Seq<char>, j: int)
    requires
        0 <= j <= s.len(),
        forall|k: int| j <= k < s.len() ==> is_space(s[k]),
        j > 0 ==> !is_space(s[j - 1]),
    ensures
        trim_end_spec(s) == s.take(j),
    decreases s.len() - j,
{
    if j == s.len() {
        assert(s.take(j) =~= s);
    } else {
        let t = s.drop_last();
        assert(forall|k: int| j <= k < t.len() ==> t[k] == s[k] && is_space(t[k]));
        lemma_trim_end_take(t, j);
        assert(t.take(j) =~= s.take(j));
    }
}

/// `str::trim`, verified against [`trim_spec`].
pub fn trim(s: &str) -> (r: &str)
    ensures
        r@ == trim_spec(s@),
{
    let n = s.unicode_len();
    let mut i: usize = 0;
    while i < n && is_space_char(s.get_char(i))
        invariant
            n == s@.len(),
            0 <= i <= n,
            forall|j: int| 0 <= j < i ==> is_space(s@[j]),
        decreases n - i,
    {
        i += 1;
    }
    if i == n {
        proof {
            lemma_trim_start_skip(s@, n as int);
            assert(s@.skip(n as int) =~= Seq::<char>::empty());
            lemma_trim_end_take(Seq::<char>::empty(), 0);
        }
        return s.substring_char(n, n);
    }
    proof {
        lemma_trim_start_skip(s@, i as int);
    }
    let mut j: usize = n;
    while j > i && is_space_char(s.get_char(j - 1))
        invariant
            n == s@.len(),
            i < n,
            !is_space(s@[i as int]),
            i <= j <= n,
            forall|k: int| j <= k < n ==> is_space(s@[k]),
        decreases j,
    {
        j -= 1;
    }
    proof {
        let t = s@.skip(i as int);
        assert(forall|k: int| j - i <= k < t.len() ==> t[k] == s@[k + i] && is_space(t[k]));
        assert(!is_space(t[(j - i - 1) as int]));
        lemma_trim_end_take(t, j - i);
        assert(t.take(j - i) =~= s@.subrange(i as int, j as int));
    }
    s.substring_char(i, j)
}

/// The segments of `s` between occurrences of `c`, in order, as `str::split`
/// yields them: always at least one segment, and empty segments kept.
pub open spec fn split_spec(s: Seq<char>, c: char) -> Seq<Seq<char>>
    decreases s.len(),
{
    if s.len() == 0 {
        seq![seq![]]
    } else if s[0] == c {
        seq![seq![]] + split_spec(s.drop_first(), c)
    } else {
        let r = split_spec(s.drop_first(), c);
        seq![seq![s[0]] + r[0]] + r.drop_first()
    }
}

pub proof fn lemma_split_len(s: Seq<char>, c: char)
    ensures
        split_spec(s, c).len() >= 1,
    decreases s.len(),
{
    if s.len() > 0 {
        lemma_split_len(s.drop_first(), c);
    }
}

/// Splitting at the first occurrence of the separator peels off one segment.
pub proof fn lemma_split_step(s: Seq<char>, c: char, f: int)
    requires
        0 <= f < s.len(),
        s[f] == c,
        forall|j: int| 0 <= j < f ==> s[j] != c,
    ensures
        split_spec(s, c) == seq![s.take(f)] + split_spec(s.skip(f + 1), c),
    decreases f,
{
    if f == 0 {
        assert(s.take(0) =~= Seq::<char>::empty());
        assert(s.skip(1) =~= s.drop_first());
        assert(split_spec(s, c) =~= seq![s.take(0)] + split_spec(s.skip(1), c));
    } else {
        let t = s.drop_first();
        assert(forall|j: int| 0 <= j < f - 1 ==> t[j] == s[j + 1] && t[j] != c);
        assert(t[f - 1] == c);
        lemma_split_step(t, c, f - 1);
        lemma_split_len(t.skip(f), c);
        let r = split_spec(t, c);
        assert(r[0] == t.take(f - 1));
        assert(seq![s[0]] + t.take(f - 1) =~= s.take(f));
        assert(r.drop_first() =~= split_spec(t.skip(f), c));
        assert(t.skip(f) =~= s.skip(f + 1));
        assert(split_spec(s, c) =~= seq![s.take(f)] + split_spec(s.skip(f + 1), c));
    }
}

/// Without the separator the whole string is the one segment.
pub proof fn lemma_split_whole(s: Seq<char>, c: char)
    requires
        !contains_char(s, c),
    ensures
        split_spec(s, c) == seq![s],
    decreases s.len(),
{
    if s.len() > 0 {
        assert(s[0] != c);
        let t = s.drop_first();
        assert(forall|j: int| 0 <= j < t.len() ==> t[j] == s[j + 1]);
        assert(!contains_char(t, c));
        lemma_split_whole(t, c);
        assert(seq![s[0]] + t =~= s);
        assert(split_spec(s, c) =~= seq![s]);
    } else {
        assert(s =~= Seq::<char>::empty());
        assert(split_spec(s, c) =~~= seq![s]);
    }
}

/// `str::split`, collected, verified against [`split_spec`].
pub fn split(s: &str, c: char) -> (r: Vec<String>)
    ensures
        r.deep_view() == split_spec(s@, c),
        r.len() >= 1,
{
    let n = s.unicode_len();
    let mut r: Vec<String> = Vec::new();
    let mut start: usize = 0;
    let mut i: usize = 0;
    proof {
        assert(s@.skip(0) =~= s@);
        assert(r.deep_view() + split_spec(s@, c) =~= split_spec(s@, c));
    }
    while i < n
        invariant
            n == s@.len(),
            0 <= start <= i <= n,
            forall|k: int| start <= k < i ==> s@[k] != c,
            split_spec(s@, c) == r.deep_view() + split_spec(s@.skip(start as int), c),
        decreases n - i,
    {
        if s.get_char(i) == c {
            let ghost old_r = r.deep_view();
            let seg = s.substring_char(start, i).to_owned();
            r.push(seg);
            proof {
                let rest = s@.skip(start as int);
                let f = i - start;
                assert(forall|j: int| 0 <= j < f ==> rest[j] == s@[j + start] && rest[j] != c);
                assert(rest[f] == c);
                lemma_split_step(rest, c, f);
                assert(rest.take(f) =~= s@.subrange(start as int, i as int));
                assert(rest.skip(f + 1) =~= s@.skip(i + 1));
                assert(r.deep_view() =~= old_r.push(seg@));
                assert(r.deep_view() + split_spec(s@.skip(i + 1), c) =~= split_spec(s@, c));
            }
            start = i + 1;
        }
        i += 1;
    }
    let ghost old_r = r.deep_view();
    let last = s.substring_char(start, n).to_owned();
    r.push(last);
    proof {
        let rest = s@.skip(start as int);
        assert(forall|j: int| 0 <= j < rest.len() ==> rest[j] == s@[j + start] && rest[j] != c);
        assert(!contains_char(rest, c));
        lemma_split_whole(rest, c);
        assert(rest =~= s@.subrange(start as int, n as int));
        assert(r.deep_view() =~= old_r.push(last@));
        assert(r.deep_view() =~= split_spec(s@, c));
    }
    r
}


/// A split with one empty segment can only come from the empty string.
pub proof fn lemma_split_singleton_empty(s: Seq<char>, c: char)
    requires
        split_spec(s, c).len() == 1,
        split_spec(s, c)[0].len() == 0,
    ensures
        s.len() == 0,
{
    if s.len() > 0 {
        if s[0] == c {
            lemma_split_len(s.drop_first(), c);
        } else {
            let r = split_spec(s.drop_first(), c);
            assert(split_spec(s, c)[0] == seq![s[0]] + r[0]);
        }
    }
}

/// The segments joined with the separator sequence between them.
pub open spec fn join_spec(parts: Seq<Seq<char>>, sep: Seq<char>) -> Seq<char>
    decreases parts.len(),
{
    if parts.len() == 0 {
        seq![]
    } else if parts.len() == 1 {
        parts[0]
    } else {
        join_spec(parts.drop_last(), sep) + sep + parts.last()
    }
}

/// `[str].join`, verified against [`join_spec`].
pub fn join(parts: &Vec<String>, sep: &str) -> (r: String)
    ensures
        r@ == join_spec(parts.deep_view(), sep@),
{
    if parts.len() == 0 {
        let r = String::new();
        proof {
            assert(r@ =~= join_spec(parts.deep_view(), sep@));
        }
        return r;
    }
    let mut acc: String = parts[0].clone();
    proof {
        assert(parts.deep_view().take(1) =~= seq![parts.deep_view()[0]]);
        assert(acc@ == join_spec(parts.deep_view().take(1), sep@));
    }
    let mut i: usize = 1;
    while i < parts.len()
        invariant
            1 <= i <= parts.len(),
            acc@ == join_spec(parts.deep_view().take(i as int), sep@),
        decreases parts.len() - i,
    {
        acc.append(sep);
        acc.append(parts[i].as_str());
        proof {
            let dv = parts.deep_view();
            let t = dv.take(i + 1);
            assert(t.drop_last() =~= dv.take(i as int));
            assert(t.last() == dv[i as int]);
            assert(acc@ == join_spec(dv.take(i + 1), sep@));
        }
        i += 1;
    }
    proof {
        assert(parts.deep_view().take(parts.len() as int) =~= parts.deep_view());
    }
    acc
}

/// Whether `p` is a prefix of `s`.
pub open spec fn starts_with_spec(s: Seq<char>, p: Seq<char>) -> bool {
    p.len() <= s.len() && s.take(p.len() as int) == p
}

/// `str::starts_with`, verified against [`starts_with_spec`].
pub fn starts_with(s: &str, p: &str) -> (r: bool)
    ensures
        r == starts_with_spec(s@, p@),
{
    let n = s.unicode_len();
    let m = p.unicode_len();
    if m > n {
        return false;
    }
    let mut i: usize = 0;
    while i < m
        invariant
            n == s@.len(),
            m == p@.len(),
            m <= n,
            0 <= i <= m,
            forall|j: int| 0 <= j < i ==> s@[j] == p@[j],
        decreases m - i,
    {
        if s.get_char(i) != p.get_char(i) {
            assert(s@.take(m as int)[i as int] != p@[i as int]);
            return false;
        }
        i += 1;
    }
    proof {
        assert(s@.take(m as int) =~= p@);
    }
    true
}

/// Everything after the last occurrence of `c`; the whole of `s` when `c` is
/// absent.
pub open spec fn after_last_spec(s: Seq<char>, c: char) -> Seq<char> {
    if contains_char(s, c) {
        s.skip(last_idx(s, c) + 1)
    } else {
        s
    }
}

/// The suffix of `s` after the last occurrence of `c`.
pub fn after_last(s: &str, c: char) -> (r: String)
    ensures
        r@ == after_last_spec(s@, c),
{
    proof {
        lemma_last_idx(s@, c);
    }
    let n = s.unicode_len();
    match rfind_char(s, c) {
        Some(i) => {
            let r = s.substring_char(i + 1, n).to_owned();
            proof {
                assert(s@.subrange(i + 1, n as int) =~= s@.skip(i + 1));
            }
            r
        },
        None => {
            let r = s.substring_char(0, n).to_owned();
            proof {
                assert(s@.subrange(0, n as int) =~= s@);
            }
            r
        },
    }
}

} // verus!
