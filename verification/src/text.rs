//! Verified text utilities: line splitting, trimming, tokenising,
//! substring search and lexicographic comparison, specified over
//! `Seq<char>` models.

use vstd::prelude::*;
use vstd::string::StrSliceExecFns;

verus! {

/// The Unicode White_Space characters: what `str::trim` and
/// `str::split_whitespace` treat as whitespace.
pub open spec fn spec_is_ws(c: char) -> bool {
    let u = c as u32;
    ||| u == 0x09
    ||| u == 0x0A
    ||| u == 0x0B
    ||| u == 0x0C
    ||| u == 0x0D
    ||| u == 0x20
    ||| u == 0x85
    ||| u == 0xA0
    ||| u == 0x1680
    ||| (0x2000 <= u && u <= 0x200A)
    ||| u == 0x2028
    ||| u == 0x2029
    ||| u == 0x202F
    ||| u == 0x205F
    ||| u == 0x3000
}

pub fn is_ws(c: char) -> (r: bool)
    ensures
        r == spec_is_ws(c),
{
    let u = c as u32;
    u == 0x09 || u == 0x0A || u == 0x0B || u == 0x0C || u == 0x0D || u == 0x20 || u == 0x85 || u
        == 0xA0 || u == 0x1680 || (0x2000 <= u && u <= 0x200A) || u == 0x2028 || u == 0x2029 || u
        == 0x202F || u == 0x205F || u == 0x3000
}

/// Equality of two string slices by their character sequences.
pub fn str_eq(a: &str, b: &str) -> (r: bool)
    ensures
        r == (a@ == b@),
{
    let an = a.unicode_len();
    let bn = b.unicode_len();
    if an != bn {
        assert(a@ != b@) by {
            assert(a@.len() != b@.len());
        }
        return false;
    }
    let mut i: usize = 0;
    while i < an
        invariant
            an == a@.len(),
            bn == b@.len(),
            an == bn,
            i <= an,
            forall|j: int| 0 <= j < i ==> a@[j] == b@[j],
        decreases an - i,
    {
        if a.get_char(i) != b.get_char(i) {
            return false;
        }
        i += 1;
    }
    assert(a@ =~= b@);
    true
}

/// The pieces of `s` between occurrences of `sep`, in order.
/// There is always at least one piece; splitting the empty sequence
/// gives one empty piece.
pub open spec fn spec_split(s: Seq<char>, sep: char) -> Seq<Seq<char>>
    decreases s.len(),
{
    if s.len() == 0 {
        seq![Seq::<char>::empty()]
    } else if s[0] == sep {
        seq![Seq::<char>::empty()] + spec_split(s.drop_first(), sep)
    } else {
        let rest = spec_split(s.drop_first(), sep);
        seq![seq![s[0]] + rest[0]] + rest.drop_first()
    }
}

pub proof fn lemma_split_len(s: Seq<char>, sep: char)
    ensures
        spec_split(s, sep).len() >= 1,
    decreases s.len(),
{
    if s.len() == 0 {
    } else if s[0] == sep {
        lemma_split_len(s.drop_first(), sep);
    } else {
        lemma_split_len(s.drop_first(), sep);
    }
}

/// A sequence without the separator splits into itself alone.
pub proof fn lemma_split_no_sep(s: Seq<char>, sep: char)
    requires
        forall|j: int| 0 <= j < s.len() ==> s[j] != sep,
    ensures
        spec_split(s, sep) =~= seq![s],
    decreases s.len(),
{
    if s.len() == 0 {
        assert(spec_split(s, sep) =~= seq![s]) by {
            assert(s =~= Seq::<char>::empty());
        }
    } else {
        lemma_split_no_sep(s.drop_first(), sep);
        let rest = spec_split(s.drop_first(), sep);
        assert(rest == seq![s.drop_first()]);
        assert(seq![s[0]] + rest[0] =~= s);
        assert(rest.drop_first() =~= Seq::<Seq<char>>::empty());
    }
}

/// Splitting at the first separator occurrence: the piece before it,
/// then the split of what follows it.
pub proof fn lemma_split_at_first(s: Seq<char>, sep: char, i: int)
    requires
        0 <= i < s.len(),
        s[i] == sep,
        forall|j: int| 0 <= j < i ==> s[j] != sep,
    ensures
        spec_split(s, sep) =~= seq![s.take(i)] + spec_split(s.skip(i + 1), sep),
    decreases i,
{
    if i == 0 {
        assert(s.take(0) =~= Seq::<char>::empty());
        assert(s.skip(1) =~= s.drop_first());
    } else {
        let t = s.drop_first();
        lemma_split_at_first(t, sep, i - 1);
        lemma_split_len(t.skip(i), sep);
        let rest = spec_split(t, sep);
        assert(rest == seq![t.take(i - 1)] + spec_split(t.skip(i), sep));
        assert(rest[0] == t.take(i - 1));
        assert(seq![s[0]] + t.take(i - 1) =~= s.take(i));
        assert(t.skip(i) =~= s.skip(i + 1));
        assert(rest.drop_first() =~= spec_split(s.skip(i + 1), sep));
        assert(spec_split(s, sep) =~= seq![seq![s[0]] + rest[0]] + rest.drop_first());
    }
}

/// Split `s` at every occurrence of `sep`.
pub fn split_char(s: &str, sep: char) -> (r: Vec<String>)
    ensures
        r.deep_view() =~= spec_split(s@, sep),
{
    let n = s.unicode_len();
    let mut r: Vec<String> = Vec::new();
    let mut start: usize = 0;
    let mut i: usize = 0;
    proof {
        assert(s@.skip(0) =~= s@);
        assert(r.deep_view() =~= Seq::<Seq<char>>::empty());
    }
    while i < n
        invariant
            n == s@.len(),
            start <= i <= n,
            forall|j: int| start <= j < i ==> s@[j] != sep,
            spec_split(s@, sep) =~= r.deep_view() + spec_split(s@.skip(start as int), sep),
        decreases n - i,
    {
        if s.get_char(i) == sep {
            let piece = s.substring_char(start, i);
            let ghost old_r = r.deep_view();
            r.push(piece.to_owned());
            proof {
                let tail = s@.skip(start as int);
                assert(tail[i - start] == sep);
                assert(forall|j: int| 0 <= j < i - start ==> tail[j] != sep);
                lemma_split_at_first(tail, sep, i - start);
                assert(tail.take(i - start) =~= s@.subrange(start as int, i as int));
                assert(tail.skip(i - start + 1) =~= s@.skip(i + 1));
                assert(r.deep_view() =~= old_r + seq![piece@]);
                assert(r.deep_view() + spec_split(s@.skip(i + 1), sep) =~= old_r + (seq![
                    tail.take(i - start),
                ] + spec_split(tail.skip(i - start + 1), sep)));
            }
            start = i + 1;
        }
        i += 1;
    }
    let ghost old_r = r.deep_view();
    let piece = s.substring_char(start, n);
    r.push(piece.to_owned());
    proof {
        let tail = s@.skip(start as int);
        lemma_split_no_sep(tail, sep);
        assert(piece@ =~= tail);
        assert(r.deep_view() =~= old_r + seq![tail]);
    }
    r
}

/// A line as `str::lines` yields it: a trailing carriage return that
/// preceded the line feed is dropped.
pub open spec fn spec_strip_cr(l: Seq<char>) -> Seq<char> {
    if l.len() > 0 && l.last() == '\r' {
        l.drop_last()
    } else {
        l
    }
}

/// The lines of `s`, split at line feeds, with a carriage return before
/// each line feed dropped, and no final empty line for a trailing line feed.
pub open spec fn spec_lines(s: Seq<char>) -> Seq<Seq<char>> {
    if s.len() == 0 {
        Seq::empty()
    } else {
        let parts = spec_split(s, '\n');
        if parts.last().len() == 0 {
            parts.drop_last().map_values(|l: Seq<char>| spec_strip_cr(l))
        } else {
            parts.drop_last().map_values(|l: Seq<char>| spec_strip_cr(l)).push(parts.last())
        }
    }
}

pub fn strip_cr(l: &str) -> (r: String)
    ensures
        r@ =~= spec_strip_cr(l@),
{
    let n = l.unicode_len();
    if n > 0 && l.get_char(n - 1) == '\r' {
        let r = l.substring_char(0, n - 1);
        assert(r@ =~= l@.drop_last());
        r.to_owned()
    } else {
        l.to_owned()
    }
}

/// Split `s` into lines as `str::lines` does.
pub fn split_lines(s: &str) -> (r: Vec<String>)
    ensures
        r.deep_view() =~= spec_lines(s@),
{
    if s.unicode_len() == 0 {
        let r: Vec<String> = Vec::new();
        assert(r.deep_view() =~= spec_lines(s@));
        return r;
    }
    let parts = split_char(s, '\n');
    proof {
        lemma_split_len(s@, '\n');
    }
    let k = parts.len();
    let last_empty = parts[k - 1].as_str().unicode_len() == 0;
    let mut out: Vec<String> = Vec::new();
    let mut i: usize = 0;
    while i < k - 1
        invariant
            1 <= k == parts.len(),
            parts.deep_view() =~= spec_split(s@, '\n'),
            i <= k - 1,
            out.deep_view() =~= parts.deep_view().take(i as int).map_values(
                |l: Seq<char>| spec_strip_cr(l),
            ),
        decreases k - 1 - i,
    {
        let ghost old_out = out.deep_view();
        let piece = strip_cr(parts[i].as_str());
        out.push(piece);
        proof {
            assert(parts.deep_view()[i as int] == parts@[i as int]@);
            assert(out.deep_view() =~= old_out.push(piece@));
            assert(out.deep_view() =~= parts.deep_view().take(i + 1).map_values(
                |l: Seq<char>| spec_strip_cr(l),
            ));
        }
        i += 1;
    }
    proof {
        assert(parts.deep_view().take(k - 1) =~= parts.deep_view().drop_last());
    }
    if !last_empty {
        out.push(parts[k - 1].clone());
        assert(out.deep_view() =~= spec_lines(s@));
    } else {
        assert(out.deep_view() =~= spec_lines(s@));
    }
    out
}

/// The number of whitespace characters that begin `s`.
pub open spec fn spec_leading_ws(s: Seq<char>) -> int
    decreases s.len(),
{
    if s.len() == 0 || !spec_is_ws(s[0]) {
        0
    } else {
        1 + spec_leading_ws(s.drop_first())
    }
}

/// The number of whitespace characters that end `s`.
pub open spec fn spec_trailing_ws(s: Seq<char>) -> int
    decreases s.len(),
{
    if s.len() == 0 || !spec_is_ws(s.last()) {
        0
    } else {
        1 + spec_trailing_ws(s.drop_last())
    }
}

/// `s` without leading and trailing whitespace.
pub open spec fn spec_trim(s: Seq<char>) -> Seq<char> {
    let a = spec_leading_ws(s);
    if a == s.len() {
        Seq::empty()
    } else {
        s.subrange(a, s.len() - spec_trailing_ws(s))
    }
}

pub proof fn lemma_leading_ws_unique(s: Seq<char>, a: int)
    requires
        0 <= a <= s.len(),
        forall|j: int| 0 <= j < a ==> spec_is_ws(s[j]),
        a == s.len() || !spec_is_ws(s[a]),
    ensures
        spec_leading_ws(s) == a,
    decreases s.len(),
{
    if s.len() == 0 {
    } else if a == 0 {
    } else {
        lemma_leading_ws_unique(s.drop_first(), a - 1);
    }
}

pub proof fn lemma_trailing_ws_unique(s: Seq<char>, b: int)
    requires
        0 <= b <= s.len(),
        forall|j: int| b <= j < s.len() ==> spec_is_ws(s[j]),
        b == 0 || !spec_is_ws(s[b - 1]),
    ensures
        spec_trailing_ws(s) == s.len() - b,
    decreases s.len(),
{
    if s.len() == 0 {
    } else if b == s.len() {
    } else {
        lemma_trailing_ws_unique(s.drop_last(), b);
    }
}

/// Remove leading and trailing whitespace.
pub fn trim(s: &str) -> (r: String)
    ensures
        r@ =~= spec_trim(s@),
{
    let n = s.unicode_len();
    let mut a: usize = 0;
    while a < n && is_ws(s.get_char(a))
        invariant
            n == s@.len(),
            a <= n,
            forall|j: int| 0 <= j < a ==> spec_is_ws(s@[j]),
        decreases n - a,
    {
        a += 1;
    }
    proof {
        lemma_leading_ws_unique(s@, a as int);
    }
    if a == n {
        let r = String::new();
        assert(r@ =~= spec_trim(s@));
        return r;
    }
    let mut b: usize = n;
    while b > a && is_ws(s.get_char(b - 1))
        invariant
            n == s@.len(),
            a <= b <= n,
            !spec_is_ws(s@[a as int]),
            forall|j: int| b <= j < n ==> spec_is_ws(s@[j]),
        decreases b,
    {
        b -= 1;
    }
    proof {
        assert(b > a);
        assert(!spec_is_ws(s@[b - 1]));
        lemma_trailing_ws_unique(s@, b as int);
    }
    let r = s.substring_char(a, b);
    assert(r@ =~= spec_trim(s@));
    r.to_owned()
}

/// The length of the maximal non-whitespace prefix of `s`.
pub open spec fn spec_token_len(s: Seq<char>) -> int
    decreases s.len(),
{
    if s.len() == 0 || spec_is_ws(s[0]) {
        0
    } else {
        1 + spec_token_len(s.drop_first())
    }
}

/// The whitespace-separated tokens of `s`, in order.
pub open spec fn spec_tokens(s: Seq<char>) -> Seq<Seq<char>>
    decreases s.len(),
{
    if s.len() == 0 {
        Seq::empty()
    } else if spec_is_ws(s[0]) {
        spec_tokens(s.drop_first())
    } else {
        let rest = spec_tokens(s.drop_first());
        if s.len() > 1 && !spec_is_ws(s[1]) {
            seq![seq![s[0]] + rest[0]] + rest.drop_first()
        } else {
            seq![seq![s[0]]] + rest
        }
    }
}

pub proof fn lemma_token_len_bounds(s: Seq<char>)
    ensures
        0 <= spec_token_len(s) <= s.len(),
        forall|j: int| 0 <= j < spec_token_len(s) ==> !spec_is_ws(s[j]),
    decreases s.len(),
{
    if s.len() == 0 || spec_is_ws(s[0]) {
    } else {
        lemma_token_len_bounds(s.drop_first());
        assert forall|j: int| 0 <= j < spec_token_len(s) implies !spec_is_ws(s[j]) by {
            if j > 0 {
                assert(!spec_is_ws(s.drop_first()[j - 1]));
            }
        }
    }
}

pub proof fn lemma_token_len_unique(s: Seq<char>, k: int)
    requires
        0 <= k <= s.len(),
        forall|j: int| 0 <= j < k ==> !spec_is_ws(s[j]),
        k == s.len() || spec_is_ws(s[k]),
    ensures
        spec_token_len(s) == k,
    decreases s.len(),
{
    if s.len() == 0 {
    } else if k == 0 {
    } else {
        lemma_token_len_unique(s.drop_first(), k - 1);
    }
}

/// A sequence that begins with a token splits into that token and the
/// tokens of what follows it.
pub proof fn lemma_tokens_first(s: Seq<char>)
    requires
        s.len() > 0,
        !spec_is_ws(s[0]),
    ensures
        spec_tokens(s) =~= seq![s.take(spec_token_len(s))] + spec_tokens(
            s.skip(spec_token_len(s)),
        ),
        spec_tokens(s).len() >= 1,
    decreases s.len(),
{
    let k = spec_token_len(s);
    let t = s.drop_first();
    lemma_token_len_bounds(s);
    if s.len() > 1 && !spec_is_ws(s[1]) {
        lemma_tokens_first(t);
        lemma_token_len_bounds(t);
        let rest = spec_tokens(t);
        assert(rest[0] == t.take(spec_token_len(t)));
        assert(spec_token_len(t) == k - 1);
        assert(seq![s[0]] + t.take(k - 1) =~= s.take(k));
        assert(t.skip(k - 1) =~= s.skip(k));
    } else {
        assert(k == 1) by {
            lemma_token_len_unique(s, 1);
        }
        assert(seq![s[0]] =~= s.take(1));
        assert(t =~= s.skip(1));
    }
}

/// Split `s` into whitespace-separated tokens.
pub fn split_tokens(s: &str) -> (r: Vec<String>)
    ensures
        r.deep_view() =~= spec_tokens(s@),
{
    let n = s.unicode_len();
    let mut out: Vec<String> = Vec::new();
    let mut i: usize = 0;
    proof {
        assert(s@.skip(0) =~= s@);
        assert(out.deep_view() =~= Seq::<Seq<char>>::empty());
    }
    while i < n
        invariant
            n == s@.len(),
            i <= n,
            spec_tokens(s@) =~= out.deep_view() + spec_tokens(s@.skip(i as int)),
        decreases n - i,
    {
        if is_ws(s.get_char(i)) {
            proof {
                assert(s@.skip(i as int).drop_first() =~= s@.skip(i + 1));
            }
            i += 1;
        } else {
            let start = i;
            let mut e: usize = i;
            while e < n && !is_ws(s.get_char(e))
                invariant
                    n == s@.len(),
                    start <= e <= n,
                    forall|j: int| start <= j < e ==> !spec_is_ws(s@[j]),
                decreases n - e,
            {
                e += 1;
            }
            let piece = s.substring_char(start, e);
            let ghost old_out = out.deep_view();
            out.push(piece.to_owned());
            proof {
                let tail = s@.skip(start as int);
                assert(forall|j: int| 0 <= j < e - start ==> !spec_is_ws(tail[j]));
                assert(e == n || spec_is_ws(tail[e - start]));
                lemma_token_len_unique(tail, e - start);
                lemma_tokens_first(tail);
                assert(tail.take(e - start) =~= s@.subrange(start as int, e as int));
                assert(tail.skip(e - start) =~= s@.skip(e as int));
                assert(out.deep_view() =~= old_out + seq![piece@]);
            }
            i = e;
        }
    }
    proof {
        assert(s@.skip(n as int) =~= Seq::<char>::empty());
    }
    out
}

/// The index of the first occurrence of `c` in `s`, or `s.len()` if none.
pub open spec fn spec_first_idx(s: Seq<char>, c: char) -> int
    decreases s.len(),
{
    if s.len() == 0 {
        0
    } else if s[0] == c {
        0
    } else {
        1 + spec_first_idx(s.drop_first(), c)
    }
}

pub proof fn lemma_first_idx(s: Seq<char>, c: char)
    ensures
        0 <= spec_first_idx(s, c) <= s.len(),
        forall|j: int| 0 <= j < spec_first_idx(s, c) ==> s[j] != c,
        spec_first_idx(s, c) < s.len() ==> s[spec_first_idx(s, c)] == c,
    decreases s.len(),
{
    if s.len() == 0 || s[0] == c {
    } else {
        lemma_first_idx(s.drop_first(), c);
        assert forall|j: int| 0 <= j < spec_first_idx(s, c) implies s[j] != c by {
            if j > 0 {
                assert(s.drop_first()[j - 1] != c);
            }
        }
    }
}

/// The index of the first occurrence of `c` in `s`, or the length of `s`.
pub fn find_char(s: &str, c: char) -> (i: usize)
    ensures
        i == spec_first_idx(s@, c),
{
    proof {
        lemma_first_idx(s@, c);
    }
    let n = s.unicode_len();
    let mut i: usize = 0;
    while i < n
        invariant
            n == s@.len(),
            i <= n,
            forall|j: int| 0 <= j < i ==> s@[j] != c,
        decreases n - i,
    {
        if s.get_char(i) == c {
            proof {
                lemma_first_idx_unique(s@, c, i as int);
            }
            return i;
        }
        i += 1;
    }
    proof {
        lemma_first_idx_none(s@, c);
    }
    n
}

pub proof fn lemma_first_idx_unique(s: Seq<char>, c: char, i: int)
    requires
        0 <= i < s.len(),
        s[i] == c,
        forall|j: int| 0 <= j < i ==> s[j] != c,
    ensures
        spec_first_idx(s, c) == i,
    decreases s.len(),
{
    if i == 0 {
    } else {
        lemma_first_idx_unique(s.drop_first(), c, i - 1);
    }
}

pub proof fn lemma_first_idx_none(s: Seq<char>, c: char)
    requires
        forall|j: int| 0 <= j < s.len() ==> s[j] != c,
    ensures
        spec_first_idx(s, c) == s.len(),
    decreases s.len(),
{
    if s.len() > 0 {
        lemma_first_idx_none(s.drop_first(), c);
    }
}

/// Whether `p` occurs in `s` starting at index `i`.
pub open spec fn spec_match_at(s: Seq<char>, p: Seq<char>, i: int) -> bool {
    0 <= i && i + p.len() <= s.len() && s.subrange(i, i + p.len()) == p
}

/// Whether `p` occurs anywhere in `s`.
pub open spec fn spec_contains_str(s: Seq<char>, p: Seq<char>) -> bool {
    exists|i: int| spec_match_at(s, p, i)
}

/// The index of the first occurrence of `p` in `s`, if any.
pub fn find_str(s: &str, p: &str) -> (r: Option<usize>)
    ensures
        match r {
            Some(i) => spec_find_str(s@, p@) == Some(i as int) && spec_match_at(s@, p@, i as int)
                && forall|j: int| 0 <= j < i ==> !spec_match_at(s@, p@, j),
            None => !spec_contains_str(s@, p@) && spec_find_str(s@, p@) is None,
        },
{
    let n = s.unicode_len();
    let m = p.unicode_len();
    if m > n {
        assert(forall|i: int| !spec_match_at(s@, p@, i));
        proof {
            lemma_find_str_none(s@, p@);
        }
        return None;
    }
    let mut i: usize = 0;
    while i <= n - m
        invariant
            n == s@.len(),
            m == p@.len(),
            m <= n,
            i <= n - m + 1,
            forall|j: int| 0 <= j < i ==> !spec_match_at(s@, p@, j),
        decreases n - i,
    {
        let mut k: usize = 0;
        while k < m && s.get_char(i + k) == p.get_char(k)
            invariant
                n == s@.len(),
                m == p@.len(),
                i + m <= n,
                k <= m,
                forall|j: int| 0 <= j < k ==> s@[i + j] == p@[j],
            decreases m - k,
        {
            k += 1;
        }
        if k == m {
            assert(s@.subrange(i as int, i + m) =~= p@);
            proof {
                lemma_find_str_unique(s@, p@, i as int);
            }
            return Some(i);
        }
        proof {
            assert(s@[i + k] != p@[k as int]);
            assert(s@.subrange(i as int, i + m)[k as int] != p@[k as int]);
            assert(!spec_match_at(s@, p@, i as int));
        }
        i += 1;
    }
    assert forall|j: int| true implies !spec_match_at(s@, p@, j) by {
        if 0 <= j && j + m <= n {
            assert(j < i);
        }
    }
    proof {
        lemma_find_str_none(s@, p@);
    }
    None
}

/// The index of the first occurrence of `p` in `s`, if any.
pub open spec fn spec_find_str(s: Seq<char>, p: Seq<char>) -> Option<int>
    decreases s.len(),
{
    if spec_match_at(s, p, 0) {
        Some(0int)
    } else if s.len() == 0 {
        None
    } else {
        match spec_find_str(s.drop_first(), p) {
            Some(i) => Some(i + 1),
            None => None,
        }
    }
}

/// Occurrences in a tail are occurrences one later in the whole.
pub proof fn lemma_match_at_shift(s: Seq<char>, p: Seq<char>, j: int)
    requires
        s.len() > 0,
        0 <= j,
    ensures
        spec_match_at(s, p, j + 1) == spec_match_at(s.drop_first(), p, j),
{
    if j + 1 + p.len() <= s.len() {
        assert(s.subrange(j + 1, j + 1 + p.len()) =~= s.drop_first().subrange(j, j + p.len()));
    }
}

pub proof fn lemma_find_str_unique(s: Seq<char>, p: Seq<char>, i: int)
    requires
        spec_match_at(s, p, i),
        forall|j: int| 0 <= j < i ==> !spec_match_at(s, p, j),
    ensures
        spec_find_str(s, p) == Some(i),
    decreases s.len(),
{
    if i == 0 {
    } else {
        assert(s.len() > 0) by {
            assert(i + p.len() <= s.len());
        }
        lemma_match_at_shift(s, p, i - 1);
        assert forall|j: int| 0 <= j < i - 1 implies !spec_match_at(s.drop_first(), p, j) by {
            lemma_match_at_shift(s, p, j);
        }
        lemma_find_str_unique(s.drop_first(), p, i - 1);
        assert(!spec_match_at(s, p, 0));
    }
}

pub proof fn lemma_find_str_none(s: Seq<char>, p: Seq<char>)
    requires
        forall|j: int| !spec_match_at(s, p, j),
    ensures
        spec_find_str(s, p) is None,
    decreases s.len(),
{
    if s.len() > 0 {
        assert forall|j: int| true implies !spec_match_at(s.drop_first(), p, j) by {
            if 0 <= j {
                lemma_match_at_shift(s, p, j);
            }
        }
        lemma_find_str_none(s.drop_first(), p);
    }
}

/// Whether `p` occurs anywhere in `s`.
pub fn contains_str(s: &str, p: &str) -> (r: bool)
    ensures
        r == spec_contains_str(s@, p@),
{
    find_str(s, p).is_some()
}

/// Whether `s` begins with `p`.
pub open spec fn spec_starts_with(s: Seq<char>, p: Seq<char>) -> bool {
    spec_match_at(s, p, 0)
}

pub fn starts_with(s: &str, p: &str) -> (r: bool)
    ensures
        r == spec_starts_with(s@, p@),
{
    let n = s.unicode_len();
    let m = p.unicode_len();
    if m > n {
        return false;
    }
    let mut k: usize = 0;
    while k < m
        invariant
            n == s@.len(),
            m == p@.len(),
            m <= n,
            k <= m,
            forall|j: int| 0 <= j < k ==> s@[j] == p@[j],
        decreases m - k,
    {
        if s.get_char(k) != p.get_char(k) {
            assert(s@.subrange(0, m as int)[k as int] != p@[k as int]);
            return false;
        }
        k += 1;
    }
    assert(s@.subrange(0, m as int) =~= p@);
    true
}

/// Lexicographic order on character sequences, by scalar value.
pub open spec fn spec_lex_le(a: Seq<char>, b: Seq<char>) -> bool
    decreases a.len(),
{
    if a.len() == 0 {
        true
    } else if b.len() == 0 {
        false
    } else if a[0] == b[0] {
        spec_lex_le(a.drop_first(), b.drop_first())
    } else {
        (a[0] as u32) < (b[0] as u32)
    }
}

/// Distinct characters have distinct scalar values.
pub proof fn lemma_char_scalar_injective(c1: char, c2: char)
    requires
        c1 != c2,
    ensures
        c1 as u32 != c2 as u32,
{
}

pub proof fn lemma_lex_refl(a: Seq<char>)
    ensures
        spec_lex_le(a, a),
    decreases a.len(),
{
    if a.len() > 0 {
        lemma_lex_refl(a.drop_first());
    }
}

pub proof fn lemma_lex_total(a: Seq<char>, b: Seq<char>)
    ensures
        spec_lex_le(a, b) || spec_lex_le(b, a),
    decreases a.len(),
{
    if a.len() > 0 && b.len() > 0 {
        if a[0] == b[0] {
            lemma_lex_total(a.drop_first(), b.drop_first());
        } else {
            lemma_char_scalar_injective(a[0], b[0]);
        }
    }
}

pub proof fn lemma_lex_antisym(a: Seq<char>, b: Seq<char>)
    requires
        spec_lex_le(a, b),
        spec_lex_le(b, a),
    ensures
        a == b,
    decreases a.len(),
{
    if a.len() == 0 {
        assert(b.len() == 0);
        assert(a =~= b);
    } else {
        assert(b.len() > 0);
        assert(a[0] == b[0]);
        lemma_lex_antisym(a.drop_first(), b.drop_first());
        assert forall|j: int| 0 <= j < a.len() implies a[j] == b[j] by {
            if j > 0 {
                assert(a.drop_first()[j - 1] == b.drop_first()[j - 1]);
            }
        }
        assert(a =~= b);
    }
}

pub proof fn lemma_lex_trans(a: Seq<char>, b: Seq<char>, c: Seq<char>)
    requires
        spec_lex_le(a, b),
        spec_lex_le(b, c),
    ensures
        spec_lex_le(a, c),
    decreases a.len(),
{
    if a.len() == 0 || b.len() == 0 || c.len() == 0 {
    } else if a[0] == b[0] && b[0] == c[0] {
        lemma_lex_trans(a.drop_first(), b.drop_first(), c.drop_first());
    }
}

/// Lexicographic comparison of two string slices.
pub fn str_le(a: &str, b: &str) -> (r: bool)
    ensures
        r == spec_lex_le(a@, b@),
{
    let an = a.unicode_len();
    let bn = b.unicode_len();
    let mut i: usize = 0;
    proof {
        assert(a@.skip(0) =~= a@);
        assert(b@.skip(0) =~= b@);
    }
    while i < an && i < bn
        invariant
            an == a@.len(),
            bn == b@.len(),
            i <= an,
            i <= bn,
            spec_lex_le(a@, b@) == spec_lex_le(a@.skip(i as int), b@.skip(i as int)),
        decreases an - i,
    {
        let ca = a.get_char(i);
        let cb = b.get_char(i);
        if ca == cb {
            proof {
                assert(a@.skip(i as int).drop_first() =~= a@.skip(i + 1));
                assert(b@.skip(i as int).drop_first() =~= b@.skip(i + 1));
            }
            i += 1;
        } else {
            return (ca as u32) < (cb as u32);
        }
    }
    proof {
        if i == an {
            assert(a@.skip(i as int).len() == 0);
        } else {
            assert(b@.skip(i as int).len() == 0);
            assert(a@.skip(i as int).len() > 0);
        }
    }
    an <= bn
}

/// Whether some element of `vs` equals `x`.
pub fn vec_contains_str(vs: &Vec<String>, x: &str) -> (r: bool)
    ensures
        r == vs.deep_view().contains(x@),
{
    let n = vs.len();
    let mut i: usize = 0;
    while i < n
        invariant
            n == vs.len(),
            i <= n,
            forall|j: int| 0 <= j < i ==> vs.deep_view()[j] != x@,
        decreases n - i,
    {
        if str_eq(vs[i].as_str(), x) {
            assert(vs.deep_view()[i as int] == x@);
            return true;
        }
        assert(vs.deep_view()[i as int] == vs@[i as int]@);
        i += 1;
    }
    false
}

/// `s` with later repetitions of an element removed: each element keeps
/// its first occurrence only.
pub open spec fn spec_dedup(s: Seq<Seq<char>>) -> Seq<Seq<char>>
    decreases s.len(),
{
    if s.len() == 0 {
        Seq::empty()
    } else {
        let front = spec_dedup(s.drop_last());
        if s.drop_last().contains(s.last()) {
            front
        } else {
            front.push(s.last())
        }
    }
}

pub proof fn lemma_dedup_membership(s: Seq<Seq<char>>, x: Seq<char>)
    ensures
        spec_dedup(s).contains(x) == s.contains(x),
    decreases s.len(),
{
    if s.len() > 0 {
        lemma_dedup_membership(s.drop_last(), x);
        let front = spec_dedup(s.drop_last());
        if s.contains(x) {
            let i = choose|i: int| 0 <= i < s.len() && s[i] == x;
            if i < s.len() - 1 {
                assert(s.drop_last()[i] == x);
                if !s.drop_last().contains(s.last()) {
                    assert(front.push(s.last()).contains(x)) by {
                        let j = choose|j: int| 0 <= j < front.len() && front[j] == x;
                        assert(front.push(s.last())[j] == x);
                    }
                }
            } else {
                if s.drop_last().contains(s.last()) {
                } else {
                    assert(front.push(s.last()).last() == x);
                }
            }
        } else {
            assert(forall|j: int| 0 <= j < s.drop_last().len() ==> s.drop_last()[j] != x);
            if !s.drop_last().contains(s.last()) {
                assert(s.last() != x);
                assert forall|j: int| 0 <= j < front.push(s.last()).len() implies front.push(
                    s.last(),
                )[j] != x by {
                    if j < front.len() {
                        assert(!front.contains(x));
                    }
                }
            }
        }
    }
}

/// Keep the first occurrence of each element of `v`, in order.
pub fn dedup_keep_first(v: &Vec<String>) -> (r: Vec<String>)
    ensures
        r.deep_view() =~= spec_dedup(v.deep_view()),
{
    let n = v.len();
    let mut out: Vec<String> = Vec::new();
    let mut i: usize = 0;
    proof {
        assert(v.deep_view().take(0) =~= Seq::<Seq<char>>::empty());
        assert(out.deep_view() =~= spec_dedup(v.deep_view().take(0)));
    }
    while i < n
        invariant
            n == v.len(),
            i <= n,
            out.deep_view() =~= spec_dedup(v.deep_view().take(i as int)),
        decreases n - i,
    {
        proof {
            assert(v.deep_view()[i as int] == v@[i as int]@);
        }
        let present = vec_contains_str(&out, v[i].as_str());
        proof {
            lemma_dedup_membership(v.deep_view().take(i as int), v.deep_view()[i as int]);
            assert(v.deep_view().take(i + 1).drop_last() =~= v.deep_view().take(i as int));
            assert(v.deep_view().take(i + 1).last() == v.deep_view()[i as int]);
        }
        if !present {
            let ghost old_out = out.deep_view();
            out.push(v[i].clone());
            proof {
                assert(out.deep_view() =~= old_out.push(v.deep_view()[i as int]));
            }
        }
        i += 1;
    }
    proof {
        assert(v.deep_view().take(n as int) =~= v.deep_view());
    }
    out
}

} // verus!
