//! Character-sequence scanning used by the wire grammar: first-occurrence
//! search for a delimiter character and for the two-character separator
//! `::`, together with the splits the protocol builds on.

use vstd::prelude::*;
use vstd::string::*;

verus! {

/// Index of the first occurrence of `c` in `s`, if any.
pub open spec fn find_char_spec(s: Seq<char>, c: char) -> Option<int>
    decreases s.len(),
{
    if s.len() == 0 {
        None
    } else if s[0] == c {
        Some(0int)
    } else {
        match find_char_spec(s.skip(1), c) {
            None => None,
            Some(i) => Some(i + 1),
        }
    }
}

/// `find_char_spec` returns exactly the first index holding `c`.
pub proof fn lemma_find_char_spec(s: Seq<char>, c: char)
    ensures
        match find_char_spec(s, c) {
            Some(i) => 0 <= i < s.len() && s[i] == c && (forall|j: int| 0 <= j < i ==> s[j] != c),
            None => forall|j: int| 0 <= j < s.len() ==> s[j] != c,
        },
    decreases s.len(),
{
    if s.len() > 0 && s[0] != c {
        lemma_find_char_spec(s.skip(1), c);
        let t = s.skip(1);
        assert(forall|j: int| 0 <= j < t.len() ==> t[j] == s[j + 1]);
        match find_char_spec(t, c) {
            Some(i) => {
                assert(t[i] == c);
                assert(find_char_spec(s, c) == Some(i + 1));
                assert forall|j: int| 0 <= j < i + 1 implies s[j] != c by {
                    if 1 <= j {
                        assert(t[j - 1] != c);
                    }
                }
            },
            None => {
                assert forall|j: int| 0 <= j < s.len() implies s[j] != c by {
                    if 1 <= j {
                        assert(t[j - 1] != c);
                    }
                }
            },
        }
    }
}

/// If `c` does not occur in `s`, the search fails.
pub proof fn lemma_find_char_spec_absent(s: Seq<char>, c: char)
    requires
        forall|j: int| 0 <= j < s.len() ==> s[j] != c,
    ensures
        find_char_spec(s, c) is None,
{
    lemma_find_char_spec(s, c);
    if let Some(i) = find_char_spec(s, c) {
        assert(s[i] == c);
    }
}

/// If `i` is the first index holding `c`, the search returns it.
pub proof fn lemma_find_char_spec_first(s: Seq<char>, c: char, i: int)
    requires
        0 <= i < s.len(),
        s[i] == c,
        forall|j: int| 0 <= j < i ==> s[j] != c,
    ensures
        find_char_spec(s, c) == Some(i),
{
    lemma_find_char_spec(s, c);
    match find_char_spec(s, c) {
        None => {
            assert(s[i] == c);
        },
        Some(k) => {
            if k < i {
                assert(s[k] != c);
            }
            if i < k {
                assert(s[i] != c);
            }
        },
    }
}

/// Index of the first occurrence of the separator `::` in `s`, if any.
pub open spec fn find_sep_spec(s: Seq<char>) -> Option<int>
    decreases s.len(),
{
    if s.len() < 2 {
        None
    } else if s[0] == ':' && s[1] == ':' {
        Some(0int)
    } else {
        match find_sep_spec(s.skip(1)) {
            None => None,
            Some(i) => Some(i + 1),
        }
    }
}

/// Whether the separator `::` stands at index `i` of `s`.
pub open spec fn sep_at(s: Seq<char>, i: int) -> bool {
    0 <= i && i + 1 < s.len() && s[i] == ':' && s[i + 1] == ':'
}

/// `find_sep_spec` returns exactly the first index where `::` stands.
pub proof fn lemma_find_sep_spec(s: Seq<char>)
    ensures
        match find_sep_spec(s) {
            Some(i) => sep_at(s, i) && (forall|j: int| 0 <= j < i ==> !sep_at(s, j)),
            None => forall|j: int| 0 <= j ==> !sep_at(s, j),
        },
    decreases s.len(),
{
    if s.len() >= 2 && !(s[0] == ':' && s[1] == ':') {
        lemma_find_sep_spec(s.skip(1));
        assert forall|j: int| 0 <= j < s.skip(1).len() implies s.skip(1)[j] == s[j + 1] by {}
        match find_sep_spec(s.skip(1)) {
            Some(i) => {
                assert(sep_at(s.skip(1), i));
                assert(sep_at(s, i + 1));
                assert forall|j: int| 0 <= j < i + 1 implies !sep_at(s, j) by {
                    if 1 <= j {
                        assert(!sep_at(s.skip(1), j - 1));
                    }
                }
            },
            None => {
                assert forall|j: int| 0 <= j implies !sep_at(s, j) by {
                    if 1 <= j {
                        assert(!sep_at(s.skip(1), j - 1));
                    }
                }
            },
        }
    }
}

/// If `i` is the first index where `::` stands, the search returns it.
pub proof fn lemma_find_sep_spec_first(s: Seq<char>, i: int)
    requires
        sep_at(s, i),
        forall|j: int| 0 <= j < i ==> !sep_at(s, j),
    ensures
        find_sep_spec(s) == Some(i),
{
    lemma_find_sep_spec(s);
    match find_sep_spec(s) {
        None => {
            assert(!sep_at(s, i));
        },
        Some(k) => {
            if k < i {
                assert(!sep_at(s, k));
            }
            if i < k {
                assert(!sep_at(s, i));
            }
        },
    }
}

/// First occurrence of `c` in `s`, scanning left to right.
pub fn find_char(s: &[char], c: char) -> (r: Option<usize>)
    ensures
        match r {
            Some(i) => find_char_spec(s@, c) == Some(i as int),
            None => find_char_spec(s@, c) is None,
        },
{
    let n = s.len();
    let mut i: usize = 0;
    while i < n
        invariant
            i <= n,
            n == s@.len(),
            forall|j: int| 0 <= j < i ==> s@[j] != c,
        decreases n - i,
    {
        if s[i] == c {
            proof {
                lemma_find_char_spec_first(s@, c, i as int);
            }
            return Some(i);
        }
        i += 1;
    }
    proof {
        lemma_find_char_spec_absent(s@, c);
    }
    None
}

/// First index where the separator `::` stands in `s`.
pub fn find_sep(s: &[char]) -> (r: Option<usize>)
    ensures
        match r {
            Some(i) => find_sep_spec(s@) == Some(i as int),
            None => find_sep_spec(s@) is None,
        },
{
    let n = s.len();
    if n < 1 {
        proof {
            lemma_find_sep_spec(s@);
            if let Some(i) = find_sep_spec(s@) {
                assert(sep_at(s@, i));
            }
        }
        return None;
    }
    let mut i: usize = 0;
    while i < n - 1
        invariant
            1 <= n,
            i <= n,
            n == s@.len(),
            forall|j: int| 0 <= j < i ==> !sep_at(s@, j),
        decreases n - i,
    {
        if s[i] == ':' && s[i + 1] == ':' {
            proof {
                lemma_find_sep_spec_first(s@, i as int);
            }
            return Some(i);
        }
        i += 1;
    }
    proof {
        lemma_find_sep_spec(s@);
        if let Some(k) = find_sep_spec(s@) {
            assert(sep_at(s@, k));
        }
    }
    None
}

/// Copy of `s[from..to]` as a fresh vector.
pub fn sub_chars(s: &[char], from: usize, to: usize) -> (r: Vec<char>)
    requires
        from <= to <= s@.len(),
    ensures
        r@ == s@.subrange(from as int, to as int),
{
    let mut r: Vec<char> = Vec::new();
    let mut i: usize = from;
    while i < to
        invariant
            from <= i <= to <= s@.len(),
            r@ == s@.subrange(from as int, i as int),
        decreases to - i,
    {
        r.push(s[i]);
        proof {
            assert(r@ =~= s@.subrange(from as int, i + 1));
        }
        i += 1;
    }
    r
}

/// A fresh vector holding the same characters.
pub fn clone_chars(v: &Vec<char>) -> (r: Vec<char>)
    ensures
        r@ == v@,
{
    let r = sub_chars(v.as_slice(), 0, v.len());
    proof {
        assert(r@ =~= v@);
    }
    r
}

/// Whether two character slices hold the same characters.
pub fn chars_eq(a: &[char], b: &[char]) -> (r: bool)
    ensures
        r == (a@ == b@),
{
    if a.len() != b.len() {
        return false;
    }
    let n = a.len();
    let mut i: usize = 0;
    while i < n
        invariant
            i <= n,
            n == a@.len() == b@.len(),
            forall|j: int| 0 <= j < i ==> a@[j] == b@[j],
        decreases n - i,
    {
        if a[i] != b[i] {
            return false;
        }
        i += 1;
    }
    proof {
        assert(a@ =~= b@);
    }
    true
}

/// The characters of a string, collected into a vector.
pub fn str_chars(s: &str) -> (r: Vec<char>)
    ensures
        r@ == s@,
{
    let n = s.unicode_len();
    let mut r: Vec<char> = Vec::new();
    let mut i: usize = 0;
    while i < n
        invariant
            i <= n,
            n == s@.len(),
            r@ == s@.subrange(0, i as int),
        decreases n - i,
    {
        r.push(s.get_char(i));
        proof {
            assert(r@ =~= s@.subrange(0, i + 1));
        }
        i += 1;
    }
    proof {
        assert(r@ =~= s@);
    }
    r
}

/// The characters with the Unicode `White_Space` property, on which
/// command strings are tokenized.
pub open spec fn is_ws(c: char) -> bool {
    ||| c == ' '
    ||| c == '\t'
    ||| c == '\n'
    ||| c == '\u{B}'
    ||| c == '\u{C}'
    ||| c == '\r'
    ||| c == '\u{85}'
    ||| c == '\u{A0}'
    ||| c == '\u{1680}'
    ||| ('\u{2000}' <= c && c <= '\u{200A}')
    ||| c == '\u{2028}'
    ||| c == '\u{2029}'
    ||| c == '\u{202F}'
    ||| c == '\u{205F}'
    ||| c == '\u{3000}'
}

/// Whether `c` has the Unicode `White_Space` property.
pub fn is_ws_char(c: char) -> (r: bool)
    ensures
        r == is_ws(c),
{
    c == ' ' || c == '\t' || c == '\n' || c == '\u{B}' || c == '\u{C}' || c == '\r'
        || c == '\u{85}' || c == '\u{A0}' || c == '\u{1680}' || ('\u{2000}' <= c && c
        <= '\u{200A}') || c == '\u{2028}' || c == '\u{2029}' || c == '\u{202F}' || c == '\u{205F}'
        || c == '\u{3000}'
}

/// The index after the token starting at `i`: the first index at or
/// past `i` holding whitespace, or the end.
pub open spec fn token_end_spec(s: Seq<char>, i: int) -> int
    decreases s.len() - i,
{
    if i < 0 || i >= s.len() {
        s.len() as int
    } else if is_ws(s[i]) {
        i
    } else {
        token_end_spec(s, i + 1)
    }
}

/// `token_end_spec` stays within bounds and moves right past a
/// non-whitespace character.
pub proof fn lemma_token_end_spec(s: Seq<char>, i: int)
    requires
        0 <= i <= s.len(),
    ensures
        i <= token_end_spec(s, i) <= s.len(),
        i < s.len() && !is_ws(s[i]) ==> token_end_spec(s, i) > i,
    decreases s.len() - i,
{
    if i < s.len() && !is_ws(s[i]) {
        lemma_token_end_spec(s, i + 1);
    }
}

/// The whitespace-separated tokens of `s` from index `i` on.
pub open spec fn tokens_from_spec(s: Seq<char>, i: int) -> Seq<Seq<char>>
    decreases s.len() - i,
        via tokens_from_spec_dec
{
    if i < 0 || i >= s.len() {
        Seq::empty()
    } else if is_ws(s[i]) {
        tokens_from_spec(s, i + 1)
    } else {
        let k = token_end_spec(s, i);
        seq![s.subrange(i, k)] + tokens_from_spec(s, k)
    }
}

#[via_fn]
proof fn tokens_from_spec_dec(s: Seq<char>, i: int) {
    if 0 <= i && i < s.len() && !is_ws(s[i]) {
        lemma_token_end_spec(s, i);
    }
}

/// The whitespace-separated tokens of `s`, in order, each non-empty.
pub open spec fn tokens_spec(s: Seq<char>) -> Seq<Seq<char>> {
    tokens_from_spec(s, 0)
}

/// Mathematical value of a token list.
pub open spec fn tokens_view(ts: Seq<Vec<char>>) -> Seq<Seq<char>> {
    ts.map_values(|t: Vec<char>| t@)
}

/// The index after the token starting at `i`.
fn token_end(s: &[char], i: usize) -> (r: usize)
    requires
        i <= s@.len(),
    ensures
        r == token_end_spec(s@, i as int),
        i <= r <= s@.len(),
    decreases s@.len() - i,
{
    proof {
        lemma_token_end_spec(s@, i as int);
    }
    if i >= s.len() {
        s.len()
    } else if is_ws_char(s[i]) {
        i
    } else {
        token_end(s, i + 1)
    }
}

/// The tokens of `s` from index `i` on.
fn tokens_from(s: &[char], i: usize) -> (r: Vec<Vec<char>>)
    requires
        i <= s@.len(),
    ensures
        tokens_view(r@) == tokens_from_spec(s@, i as int),
    decreases s@.len() - i,
{
    if i >= s.len() {
        let r: Vec<Vec<char>> = Vec::new();
        proof {
            assert(tokens_view(r@) =~= tokens_from_spec(s@, i as int));
        }
        r
    } else if is_ws_char(s[i]) {
        tokens_from(s, i + 1)
    } else {
        let k = token_end(s, i);
        proof {
            lemma_token_end_spec(s@, i as int);
        }
        let tok = sub_chars(s, i, k);
        let mut rest = tokens_from(s, k);
        let ghost rest0 = rest@;
        let mut r: Vec<Vec<char>> = Vec::new();
        r.push(tok);
        let ghost first = r@;
        r.append(&mut rest);
        proof {
            assert(r@ =~= first + rest0);
            assert(tokens_view(r@) =~= seq![s@.subrange(i as int, k as int)] + tokens_view(
                rest0,
            ));
            assert(tokens_view(r@) =~= tokens_from_spec(s@, i as int));
        }
        r
    }
}

/// The whitespace-separated tokens of `s`.
pub fn tokenize(s: &[char]) -> (r: Vec<Vec<char>>)
    ensures
        tokens_view(r@) == tokens_spec(s@),
{
    tokens_from(s, 0)
}

/// The tokens joined with single spaces.
pub open spec fn join_spaced_spec(ts: Seq<Seq<char>>) -> Seq<char>
    decreases ts.len(),
{
    if ts.len() == 0 {
        Seq::empty()
    } else if ts.len() == 1 {
        ts[0]
    } else {
        join_spaced_spec(ts.drop_last()) + seq![' '] + ts.last()
    }
}

/// Join the tokens from index `from` on with single spaces.
pub fn join_spaced(ts: &Vec<Vec<char>>, from: usize) -> (r: Vec<char>)
    requires
        from <= ts@.len(),
    ensures
        r@ == join_spaced_spec(tokens_view(ts@).subrange(from as int, ts@.len() as int)),
{
    let mut r: Vec<char> = Vec::new();
    let n = ts.len();
    let mut i: usize = from;
    while i < n
        invariant
            from <= i <= n,
            n == ts@.len(),
            r@ == join_spaced_spec(tokens_view(ts@).subrange(from as int, i as int)),
        decreases n - i,
    {
        if i > from {
            r.push(' ');
        }
        r.extend_from_slice(ts[i].as_slice());
        proof {
            let tv = tokens_view(ts@);
            let p = tv.subrange(from as int, i as int);
            let q = tv.subrange(from as int, i + 1);
            assert(q.drop_last() =~= p);
            assert(q.last() == tv[i as int]);
            if i == from {
                assert(r@ =~= q[0]);
                assert(q.len() == 1);
            } else {
                assert(r@ =~= join_spaced_spec(p) + seq![' '] + tv[i as int]);
            }
        }
        i += 1;
    }
    proof {
        assert(tokens_view(ts@).subrange(from as int, n as int) == tokens_view(ts@).subrange(
            from as int,
            ts@.len() as int,
        ));
    }
    r
}

/// `s` without leading whitespace.
pub open spec fn trim_start_spec(s: Seq<char>) -> Seq<char>
    decreases s.len(),
{
    if s.len() > 0 && is_ws(s[0]) {
        trim_start_spec(s.subrange(1, s.len() as int))
    } else {
        s
    }
}

/// `s` without trailing whitespace.
pub open spec fn trim_end_spec(s: Seq<char>) -> Seq<char>
    decreases s.len(),
{
    if s.len() > 0 && is_ws(s.last()) {
        trim_end_spec(s.drop_last())
    } else {
        s
    }
}

/// `s` without trailing `%` characters.
pub open spec fn strip_pct_spec(s: Seq<char>) -> Seq<char>
    decreases s.len(),
{
    if s.len() > 0 && s.last() == '%' {
        strip_pct_spec(s.drop_last())
    } else {
        s
    }
}

/// Trimming the start keeps everything from the first non-whitespace
/// character on.
proof fn lemma_trim_start_idx(s: Seq<char>, j: int)
    requires
        0 <= j <= s.len(),
        forall|k: int| 0 <= k < j ==> is_ws(s[k]),
        j == s.len() || !is_ws(s[j]),
    ensures
        trim_start_spec(s) == s.subrange(j, s.len() as int),
    decreases j,
{
    if j == 0 {
        assert(s.subrange(0, s.len() as int) =~= s);
    } else {
        let t = s.subrange(1, s.len() as int);
        assert(is_ws(s[0]));
        assert(forall|k: int| 0 <= k < j - 1 ==> is_ws(t[k]));
        lemma_trim_start_idx(t, j - 1);
        assert(t.subrange(j - 1, t.len() as int) =~= s.subrange(j, s.len() as int));
    }
}

/// Trimming the end keeps everything up to the last non-whitespace
/// character.
proof fn lemma_trim_end_idx(s: Seq<char>, j: int)
    requires
        0 <= j <= s.len(),
        forall|k: int| j <= k < s.len() ==> is_ws(s[k]),
        j == 0 || !is_ws(s[j - 1]),
    ensures
        trim_end_spec(s) == s.subrange(0, j),
    decreases s.len() - j,
{
    if j == s.len() {
        assert(s.subrange(0, j) =~= s);
    } else {
        let t = s.drop_last();
        assert(is_ws(s.last()));
        assert(forall|k: int| j <= k < t.len() ==> is_ws(t[k]));
        lemma_trim_end_idx(t, j);
        assert(t.subrange(0, j) =~= s.subrange(0, j));
    }
}

/// Stripping `%` keeps everything up to the last non-`%` character.
proof fn lemma_strip_pct_idx(s: Seq<char>, j: int)
    requires
        0 <= j <= s.len(),
        forall|k: int| j <= k < s.len() ==> s[k] == '%',
        j == 0 || s[j - 1] != '%',
    ensures
        strip_pct_spec(s) == s.subrange(0, j),
    decreases s.len() - j,
{
    if j == s.len() {
        assert(s.subrange(0, j) =~= s);
    } else {
        let t = s.drop_last();
        assert(s.last() == '%');
        assert(forall|k: int| j <= k < t.len() ==> t[k] == '%');
        lemma_strip_pct_idx(t, j);
        assert(t.subrange(0, j) =~= s.subrange(0, j));
    }
}

/// `s` without leading and trailing whitespace.
pub fn trim_chars(s: &[char]) -> (r: Vec<char>)
    ensures
        r@ == trim_end_spec(trim_start_spec(s@)),
{
    let n = s.len();
    let mut start: usize = 0;
    while start < n && is_ws_char(s[start])
        invariant
            start <= n,
            n == s@.len(),
            forall|k: int| 0 <= k < start ==> is_ws(s@[k]),
        decreases n - start,
    {
        start += 1;
    }
    proof {
        lemma_trim_start_idx(s@, start as int);
    }
    let mut end: usize = n;
    while end > start && is_ws_char(s[end - 1])
        invariant
            start <= end <= n,
            n == s@.len(),
            forall|k: int| end <= k < n ==> is_ws(s@[k]),
        decreases end,
    {
        end -= 1;
    }
    let r = sub_chars(s, start, end);
    proof {
        let t = s@.subrange(start as int, n as int);
        assert(forall|k: int| end - start <= k < t.len() ==> is_ws(t[k]));
        lemma_trim_end_idx(t, end - start);
        assert(t.subrange(0, end - start) =~= s@.subrange(start as int, end as int));
    }
    r
}

/// `s` without trailing `%` characters.
pub fn strip_pct_chars(s: &[char]) -> (r: Vec<char>)
    ensures
        r@ == strip_pct_spec(s@),
{
    let n = s.len();
    let mut end: usize = n;
    while end > 0 && s[end - 1] == '%'
        invariant
            end <= n,
            n == s@.len(),
            forall|k: int| end <= k < n ==> s@[k] == '%',
        decreases end,
    {
        end -= 1;
    }
    proof {
        lemma_strip_pct_idx(s@, end as int);
    }
    sub_chars(s, 0, end)
}

/// Whether the slice holds exactly the characters of the string.
pub fn eq_str(v: &[char], s: &str) -> (r: bool)
    ensures
        r == (v@ == s@),
{
    let n = s.unicode_len();
    if v.len() != n {
        return false;
    }
    let mut i: usize = 0;
    while i < n
        invariant
            i <= n,
            n == s@.len() == v@.len(),
            forall|j: int| 0 <= j < i ==> v@[j] == s@[j],
        decreases n - i,
    {
        if v[i] != s.get_char(i) {
            return false;
        }
        i += 1;
    }
    proof {
        assert(v@ =~= s@);
    }
    true
}

} // verus!
