//! Character-level string helpers shared by the rest of the library.
//!
//! Strings are modelled by their character sequences (`s@: Seq<char>`);
//! every index below counts characters.

use vstd::prelude::*;

verus! {

/// `String::push` appends one character.
pub assume_specification[ String::push ](s: &mut String, ch: char)
    ensures
        final(s)@ == old(s)@.push(ch),
;

/// The characters of `s`, in order.
pub fn chars_of(s: &str) -> (v: Vec<char>)
    ensures
        v@ == s@,
{
    let mut v: Vec<char> = Vec::new();
    for c in it: s.chars()
        invariant
            v@ == it.seq().take(it.index() as int),
            it.seq() == s@,
    {
        v.push(c);
    }
    v
}

/// A `String` holding the characters of `v`.
pub fn string_of(v: &[char]) -> (s: String)
    ensures
        s@ == v@,
{
    let mut s = String::new();
    let mut i: usize = 0;
    while i < v.len()
        invariant
            i <= v.len(),
            s@ == v@.take(i as int),
        decreases v.len() - i,
    {
        s.push(v[i]);
        i = i + 1;
        assert(v@.take(i as int) == v@.take((i - 1) as int).push(v@[i - 1]));
    }
    assert(v@.take(v@.len() as int) == v@);
    s
}

/// A `String` equal to `s`.
pub fn owned(s: &str) -> (r: String)
    ensures
        r@ == s@,
{
    let v = chars_of(s);
    string_of(v.as_slice())
}

/// Appends the characters of `v` to `s`.
pub fn push_chars(s: &mut String, v: &[char])
    ensures
        final(s)@ == old(s)@ + v@,
{
    let mut i: usize = 0;
    while i < v.len()
        invariant
            i <= v.len(),
            s@ == old(s)@ + v@.take(i as int),
        decreases v.len() - i,
    {
        s.push(v[i]);
        i = i + 1;
        assert(v@.take(i as int) == v@.take((i - 1) as int).push(v@[i - 1]));
    }
    assert(v@.take(v@.len() as int) == v@);
}

/// Appends the characters of `t` to `s`.
pub fn push_str(s: &mut String, t: &str)
    ensures
        final(s)@ == old(s)@ + t@,
{
    let v = chars_of(t);
    push_chars(s, v.as_slice());
}

/// The concatenation of the given pieces.
pub fn concat(parts: &[&str]) -> (r: String)
    ensures
        r@ == concat_spec(parts@.map_values(|p: &str| p@)),
{
    let ghost views = parts@.map_values(|p: &str| p@);
    let mut r = String::new();
    let mut i: usize = 0;
    while i < parts.len()
        invariant
            i <= parts.len(),
            views == parts@.map_values(|p: &str| p@),
            r@ == concat_spec(views.take(i as int)),
        decreases parts.len() - i,
    {
        push_str(&mut r, parts[i]);
        i = i + 1;
        assert(views.take(i as int).drop_last() == views.take((i - 1) as int));
    }
    assert(views.take(parts.len() as int) == views);
    r
}

/// The concatenation of a sequence of strings.
pub open spec fn concat_spec(parts: Seq<Seq<char>>) -> Seq<char>
    decreases parts.len(),
{
    if parts.len() == 0 {
        Seq::empty()
    } else {
        concat_spec(parts.drop_last()) + parts.last()
    }
}

// ---------------------------------------------------------------- whitespace

/// The Unicode `White_Space` property, which `char::is_whitespace` tests.
pub open spec fn is_ws(c: char) -> bool {
    let u = c as u32;
    ||| 9 <= u <= 13
    ||| u == 32
    ||| u == 0x85
    ||| u == 0xA0
    ||| u == 0x1680
    ||| 0x2000 <= u <= 0x200A
    ||| u == 0x2028
    ||| u == 0x2029
    ||| u == 0x202F
    ||| u == 0x205F
    ||| u == 0x3000
}

/// Whether `c` is a whitespace character.
pub fn is_whitespace(c: char) -> (b: bool)
    ensures
        b == is_ws(c),
{
    let u = c as u32;
    (9 <= u && u <= 13) || u == 32 || u == 0x85 || u == 0xA0 || u == 0x1680 || (0x2000 <= u && u
        <= 0x200A) || u == 0x2028 || u == 0x2029 || u == 0x202F || u == 0x205F || u == 0x3000
}

/// `s` without its leading whitespace.
pub open spec fn trim_start_spec(s: Seq<char>) -> Seq<char>
    decreases s.len(),
{
    if s.len() > 0 && is_ws(s[0]) {
        trim_start_spec(s.drop_first())
    } else {
        s
    }
}

/// `s` without its trailing whitespace.
pub open spec fn trim_end_spec(s: Seq<char>) -> Seq<char>
    decreases s.len(),
{
    if s.len() > 0 && is_ws(s.last()) {
        trim_end_spec(s.drop_last())
    } else {
        s
    }
}

/// `s` without leading and trailing whitespace, as `str::trim` gives it.
pub open spec fn trim_spec(s: Seq<char>) -> Seq<char> {
    trim_end_spec(trim_start_spec(s))
}

proof fn lemma_trim_start_skip(s: Seq<char>, i: int)
    requires
        0 <= i <= s.len(),
        forall|j: int| 0 <= j < i ==> is_ws(#[trigger] s[j]),
        i == s.len() || !is_ws(s[i]),
    ensures
        trim_start_spec(s) == s.skip(i),
    decreases i,
{
    if i == 0 {
        assert(s.skip(0) == s);
    } else {
        assert forall|j: int| 0 <= j < i - 1 implies is_ws(#[trigger] s.drop_first()[j]) by {
            assert(s.drop_first()[j] == s[j + 1]);
        }
        lemma_trim_start_skip(s.drop_first(), i - 1);
        assert(s.drop_first().skip(i - 1) == s.skip(i));
    }
}

proof fn lemma_trim_end_take(s: Seq<char>, k: int)
    requires
        0 <= k <= s.len(),
        forall|j: int| k <= j < s.len() ==> is_ws(#[trigger] s[j]),
        k == 0 || !is_ws(s[k - 1]),
    ensures
        trim_end_spec(s) == s.take(k),
    decreases s.len() - k,
{
    if k == s.len() {
        assert(s.take(k) == s);
    } else {
        assert forall|j: int| k <= j < s.drop_last().len() implies is_ws(
            #[trigger] s.drop_last()[j],
        ) by {
            assert(s.drop_last()[j] == s[j]);
        }
        lemma_trim_end_take(s.drop_last(), k);
        assert(s.drop_last().take(k) == s.take(k));
    }
}

/// `v` without leading and trailing whitespace.
pub fn trim_chars(v: &[char]) -> (r: Vec<char>)
    ensures
        r@ == trim_spec(v@),
{
    let n = v.len();
    let mut i: usize = 0;
    while i < n && is_whitespace(v[i])
        invariant
            i <= n,
            n == v@.len(),
            forall|j: int| 0 <= j < i ==> is_ws(#[trigger] v@[j]),
        decreases n - i,
    {
        i = i + 1;
    }
    proof {
        lemma_trim_start_skip(v@, i as int);
    }
    let ghost t = v@.skip(i as int);
    let mut k: usize = n;
    while k > i && is_whitespace(v[k - 1])
        invariant
            i <= k <= n,
            n == v@.len(),
            t == v@.skip(i as int),
            forall|j: int| k <= j < n ==> is_ws(#[trigger] v@[j]),
        decreases k,
    {
        k = k - 1;
    }
    proof {
        assert forall|j: int| k - i <= j < t.len() implies is_ws(#[trigger] t[j]) by {
            assert(t[j] == v@[j + i]);
        }
        if k > i {
            assert(t[k - i - 1] == v@[k - 1]);
        }
        lemma_trim_end_take(t, k - i);
    }
    let r = slice_vec(v, i, k);
    assert(r@ == t.take(k - i));
    r
}

/// `s` without leading and trailing whitespace.
pub fn trim(s: &str) -> (r: String)
    ensures
        r@ == trim_spec(s@),
{
    let v = chars_of(s);
    let t = trim_chars(v.as_slice());
    string_of(t.as_slice())
}

/// The characters `v[from..to]`.
pub fn slice_vec(v: &[char], from: usize, to: usize) -> (r: Vec<char>)
    requires
        from <= to <= v.len(),
    ensures
        r@ == v@.subrange(from as int, to as int),
{
    let mut r: Vec<char> = Vec::new();
    let mut i = from;
    while i < to
        invariant
            from <= i <= to,
            to <= v.len(),
            r@ == v@.subrange(from as int, i as int),
        decreases to - i,
    {
        r.push(v[i]);
        i = i + 1;
        assert(v@.subrange(from as int, i as int) == v@.subrange(from as int, i - 1).push(
            v@[i - 1],
        ));
    }
    r
}

// ---------------------------------------------------------------- searching

/// Index of the first `c` in `s`, if any.
pub open spec fn find_char_spec(s: Seq<char>, c: char) -> Option<int> {
    if exists|i: int| 0 <= i < s.len() && s[i] == c {
        Some(choose|i: int| 0 <= i < s.len() && s[i] == c && forall|j: int| 0 <= j < i ==> s[j] != c)
    } else {
        None
    }
}

/// `find_char_spec` picks the first occurrence.
pub proof fn lemma_find_char_first(s: Seq<char>, c: char, i: int)
    requires
        0 <= i < s.len(),
        s[i] == c,
        forall|j: int| 0 <= j < i ==> s[j] != c,
    ensures
        find_char_spec(s, c) == Some(i),
{
    let w = choose|k: int| 0 <= k < s.len() && s[k] == c && forall|j: int| 0 <= j < k ==> s[j] != c;
    assert(0 <= i < s.len() && s[i] == c && forall|j: int| 0 <= j < i ==> s[j] != c);
    if w < i {
    } else if w > i {
        assert(s[i] != c);
    }
}

/// Index of the first `c` in `v`, if any.
pub fn find_char(v: &[char], c: char) -> (r: Option<usize>)
    ensures
        match r {
            Some(i) => i < v.len() && v@[i as int] == c && forall|j: int|
                0 <= j < i ==> v@[j] != c,
            None => forall|j: int| 0 <= j < v.len() ==> v@[j] != c,
        },
        r matches Some(i) ==> find_char_spec(v@, c) == Some(i as int),
        r is None ==> find_char_spec(v@, c) is None,
{
    let mut i: usize = 0;
    while i < v.len()
        invariant
            i <= v.len(),
            forall|j: int| 0 <= j < i ==> v@[j] != c,
        decreases v.len() - i,
    {
        if v[i] == c {
            proof {
                let w = choose|k: int|
                    0 <= k < v@.len() && v@[k] == c && forall|j: int| 0 <= j < k ==> v@[j] != c;
                assert(0 <= i < v@.len() && v@[i as int] == c && forall|j: int|
                    0 <= j < i ==> v@[j] != c);
                if w < i {
                } else if w > i {
                    assert(v@[i as int] != c);
                }
            }
            return Some(i);
        }
        i = i + 1;
    }
    None
}

/// The index of the last `c` in `s`, if any (`str::rfind` with a
/// character).
pub open spec fn rfind_char_spec(s: Seq<char>, c: char) -> Option<int> {
    if exists|i: int| 0 <= i < s.len() && s[i] == c {
        Some(choose|i: int| 0 <= i < s.len() && s[i] == c && forall|j: int| i < j < s.len() ==> s[j] != c)
    } else {
        None
    }
}

/// Index of the last `c` in `v`, if any.
pub fn rfind_char(v: &[char], c: char) -> (r: Option<usize>)
    ensures
        match r {
            Some(i) => i < v.len() && v@[i as int] == c && forall|j: int|
                i < j < v.len() ==> v@[j] != c,
            None => forall|j: int| 0 <= j < v.len() ==> v@[j] != c,
        },
        r matches Some(i) ==> rfind_char_spec(v@, c) == Some(i as int),
        r is None ==> rfind_char_spec(v@, c) is None,
{
    let mut k: usize = v.len();
    while k > 0
        invariant
            k <= v.len(),
            forall|j: int| k <= j < v.len() ==> v@[j] != c,
        decreases k,
    {
        if v[k - 1] == c {
            proof {
                let i = k - 1;
                let w = choose|w: int|
                    0 <= w < v@.len() && v@[w] == c && forall|j: int| w < j < v@.len() ==> v@[j] != c;
                assert(0 <= i < v@.len() && v@[i as int] == c && forall|j: int|
                    i < j < v@.len() ==> v@[j] != c);
                if w < i {
                    assert(v@[i as int] != c);
                } else if w > i {
                }
            }
            return Some(k - 1);
        }
        k = k - 1;
    }
    None
}

/// Whether `pat` occurs in `s` starting at index `i`.
pub open spec fn matches_at(s: Seq<char>, i: int, pat: Seq<char>) -> bool {
    0 <= i && i + pat.len() <= s.len() && s.subrange(i, i + pat.len()) == pat
}

/// Whether `s` starts with `p`.
pub open spec fn starts_with_spec(s: Seq<char>, p: Seq<char>) -> bool {
    matches_at(s, 0, p)
}

/// Whether `s` ends with `p`.
pub open spec fn ends_with_spec(s: Seq<char>, p: Seq<char>) -> bool {
    matches_at(s, s.len() - p.len(), p)
}

/// Whether `pat` occurs in `s` somewhere.
pub open spec fn contains_spec(s: Seq<char>, pat: Seq<char>) -> bool {
    exists|i: int| matches_at(s, i, pat)
}

/// Whether `pat` occurs in `v` at index `i`.
pub fn matches_at_exec(v: &[char], i: usize, pat: &[char]) -> (b: bool)
    ensures
        b == matches_at(v@, i as int, pat@),
{
    if i > v.len() || pat.len() > v.len() - i {
        return false;
    }
    let mut k: usize = 0;
    while k < pat.len()
        invariant
            k <= pat.len(),
            i + pat.len() <= v.len(),
            forall|j: int| 0 <= j < k ==> v@[i + j] == pat@[j],
        decreases pat.len() - k,
    {
        if v[i + k] != pat[k] {
            assert(v@.subrange(i as int, i + pat@.len())[k as int] != pat@[k as int]);
            return false;
        }
        k = k + 1;
    }
    assert(v@.subrange(i as int, i + pat@.len()) == pat@);
    true
}

/// Whether `s` starts with `p`.
pub fn starts_with(s: &str, p: &str) -> (b: bool)
    ensures
        b == starts_with_spec(s@, p@),
{
    let v = chars_of(s);
    let w = chars_of(p);
    matches_at_exec(v.as_slice(), 0, w.as_slice())
}

/// Whether `s` ends with `p`.
pub fn ends_with(s: &str, p: &str) -> (b: bool)
    ensures
        b == ends_with_spec(s@, p@),
{
    let v = chars_of(s);
    let w = chars_of(p);
    if w.len() > v.len() {
        return false;
    }
    matches_at_exec(v.as_slice(), v.len() - w.len(), w.as_slice())
}

/// Index of the first occurrence of `pat` in `v`, if any.
pub fn find_sub(v: &[char], pat: &[char]) -> (r: Option<usize>)
    ensures
        match r {
            Some(i) => matches_at(v@, i as int, pat@) && forall|j: int|
                0 <= j < i ==> !matches_at(v@, j, pat@),
            None => forall|j: int| !matches_at(v@, j, pat@),
        },
{
    if pat.len() > v.len() {
        return None;
    }
    let last = v.len() - pat.len();
    let mut i: usize = 0;
    loop
        invariant
            i <= last,
            last + pat.len() == v.len(),
            forall|j: int| 0 <= j < i ==> !matches_at(v@, j, pat@),
        decreases last - i,
    {
        if matches_at_exec(v, i, pat) {
            return Some(i);
        }
        if i == last {
            assert forall|j: int| !matches_at(v@, j, pat@) by {
                if 0 <= j && j + pat@.len() <= v@.len() {
                    assert(j <= i);
                }
            }
            return None;
        }
        i = i + 1;
    }
}

/// Index of the last occurrence of `pat` in `v`, if any.
pub fn rfind_sub(v: &[char], pat: &[char]) -> (r: Option<usize>)
    ensures
        match r {
            Some(i) => matches_at(v@, i as int, pat@) && forall|j: int|
                i < j ==> !matches_at(v@, j, pat@),
            None => forall|j: int| !matches_at(v@, j, pat@),
        },
{
    if pat.len() > v.len() {
        return None;
    }
    let mut i: usize = v.len() - pat.len();
    loop
        invariant
            i + pat.len() <= v.len(),
            forall|j: int| i < j ==> !matches_at(v@, j, pat@),
        decreases i,
    {
        if matches_at_exec(v, i, pat) {
            return Some(i);
        }
        if i == 0 {
            return None;
        }
        i = i - 1;
    }
}

/// The first index at which `pat` occurs in `s`, if any.
#[verifier::opaque]
pub open spec fn first_match(s: Seq<char>, pat: Seq<char>) -> Option<int> {
    if exists|i: int| matches_at(s, i, pat) {
        Some(choose|i: int| matches_at(s, i, pat) && forall|j: int| j < i ==> !matches_at(s, j, pat))
    } else {
        None
    }
}

/// The last index at which `pat` occurs in `s`, if any.
#[verifier::opaque]
pub open spec fn last_match(s: Seq<char>, pat: Seq<char>) -> Option<int> {
    if exists|i: int| matches_at(s, i, pat) {
        Some(choose|i: int| matches_at(s, i, pat) && forall|j: int| i < j ==> !matches_at(s, j, pat))
    } else {
        None
    }
}

/// The first occurrence found is the one `first_match` names.
pub proof fn lemma_first_match(s: Seq<char>, pat: Seq<char>, i: int)
    requires
        matches_at(s, i, pat),
        forall|j: int| 0 <= j < i ==> !matches_at(s, j, pat),
    ensures
        first_match(s, pat) == Some(i),
{
    reveal(first_match);
    assert forall|j: int| j < i implies !matches_at(s, j, pat) by {
        if 0 <= j {
        }
    }
    let k = choose|k: int| matches_at(s, k, pat) && forall|j: int| j < k ==> !matches_at(s, j, pat);
    if k < i {
    } else if i < k {
    }
}

/// Where `pat` does not occur, neither `first_match` nor `last_match`
/// names an index.
pub proof fn lemma_no_match(s: Seq<char>, pat: Seq<char>)
    requires
        forall|j: int| !matches_at(s, j, pat),
    ensures
        first_match(s, pat) is None,
        last_match(s, pat) is None,
{
    reveal(first_match);
    reveal(last_match);
}

/// The last occurrence found is the one `last_match` names.
pub proof fn lemma_last_match(s: Seq<char>, pat: Seq<char>, i: int)
    requires
        matches_at(s, i, pat),
        forall|j: int| i < j ==> !matches_at(s, j, pat),
    ensures
        last_match(s, pat) == Some(i),
{
    reveal(last_match);
    let k = choose|k: int| matches_at(s, k, pat) && forall|j: int| k < j ==> !matches_at(s, j, pat);
    if k < i {
    } else if i < k {
    }
}

/// The index of the first occurrence of `pat` in `s`, if any.
pub fn find_str(s: &str, pat: &str) -> (r: Option<usize>)
    ensures
        match r {
            Some(i) => first_match(s@, pat@) == Some(i as int) && i + pat@.len() <= s@.len(),
            None => first_match(s@, pat@) is None,
        },
        s@.len() <= usize::MAX,
{
    let v = chars_of(s);
    let w = chars_of(pat);
    let _n = v.len();
    match find_sub(v.as_slice(), w.as_slice()) {
        Some(i) => {
            proof {
                lemma_first_match(v@, w@, i as int);
            }
            Some(i)
        },
        None => {
            proof {
                lemma_no_match(v@, w@);
            }
            None
        },
    }
}

/// Whether `pat` occurs in `s`.
pub fn contains(s: &str, pat: &str) -> (b: bool)
    ensures
        b == contains_spec(s@, pat@),
{
    let v = chars_of(s);
    let w = chars_of(pat);
    match find_sub(v.as_slice(), w.as_slice()) {
        Some(_) => true,
        None => false,
    }
}


/// Whether `a` and `b` hold the same characters.
pub fn eq_str(a: &str, b: &str) -> (r: bool)
    ensures
        r == (a@ == b@),
{
    let v = chars_of(a);
    let w = chars_of(b);
    if v.len() != w.len() {
        return false;
    }
    let r = matches_at_exec(v.as_slice(), 0, w.as_slice());
    assert(v@.subrange(0, w@.len() as int) == v@);
    r
}

// ---------------------------------------------------------------- replacing

/// `s` with every non-overlapping occurrence of `from`, taken left to
/// right, replaced by `to` (`str::replace`; `from` is not empty).
pub open spec fn replace_spec(s: Seq<char>, from: Seq<char>, to: Seq<char>) -> Seq<char>
    decreases s.len(),
{
    if from.len() == 0 || s.len() == 0 {
        s
    } else if matches_at(s, 0, from) {
        to + replace_spec(s.skip(from.len() as int), from, to)
    } else {
        seq![s[0]] + replace_spec(s.drop_first(), from, to)
    }
}

/// `v` with every occurrence of `from` replaced by `to`.
pub fn replace_chars(v: &[char], from: &[char], to: &[char]) -> (r: Vec<char>)
    requires
        from.len() > 0,
    ensures
        r@ == replace_spec(v@, from@, to@),
{
    let mut r: Vec<char> = Vec::new();
    let n = v.len();
    let mut i: usize = 0;
    assert(v@.skip(0) == v@);
    while i < n
        invariant
            i <= n,
            n == v@.len(),
            from@.len() > 0,
            r@ + replace_spec(v@.skip(i as int), from@, to@) == replace_spec(v@, from@, to@),
        decreases n - i,
    {
        let ghost rest = v@.skip(i as int);
        let ghost before = r@;
        let m = matches_at_exec(v, i, from);
        proof {
            if m {
                assert(rest.subrange(0, from@.len() as int) == v@.subrange(
                    i as int,
                    i + from@.len(),
                ));
                assert(rest.skip(from@.len() as int) == v@.skip(i + from@.len()));
            } else {
                if matches_at(rest, 0, from@) {
                    assert(rest.subrange(0, from@.len() as int) == v@.subrange(
                        i as int,
                        i + from@.len(),
                    ));
                }
                assert(rest.drop_first() == v@.skip(i + 1));
            }
        }
        if m {
            push_vec(&mut r, to);
            i = i + from.len();
        } else {
            r.push(v[i]);
            i = i + 1;
        }
    }
    assert(v@.skip(n as int) == Seq::<char>::empty());
    assert(r@ + Seq::<char>::empty() == r@);
    r
}

/// Appends the characters of `w` to `r`.
pub fn push_vec(r: &mut Vec<char>, w: &[char])
    ensures
        final(r)@ == old(r)@ + w@,
{
    let mut k: usize = 0;
    while k < w.len()
        invariant
            k <= w.len(),
            r@ == old(r)@ + w@.take(k as int),
        decreases w.len() - k,
    {
        r.push(w[k]);
        k = k + 1;
        assert(w@.take(k as int) == w@.take((k - 1) as int).push(w@[k - 1]));
    }
    assert(w@.take(w@.len() as int) == w@);
}

/// `s` with every occurrence of `from` replaced by `to`.
pub fn replace(s: &str, from: &str, to: &str) -> (r: String)
    requires
        from@.len() > 0,
    ensures
        r@ == replace_spec(s@, from@, to@),
{
    let v = chars_of(s);
    let f = chars_of(from);
    let t = chars_of(to);
    let w = replace_chars(v.as_slice(), f.as_slice(), t.as_slice());
    string_of(w.as_slice())
}

// ---------------------------------------------------------------- splitting

/// The pieces of `s` between the occurrences of `c` (`str::split` with a
/// character pattern).
#[verifier::opaque]
pub open spec fn split_spec(s: Seq<char>, c: char) -> Seq<Seq<char>>
    decreases s.len(),
{
    match find_char_spec(s, c) {
        Some(i) => if 0 <= i < s.len() {
            seq![s.take(i)] + split_spec(s.skip(i + 1), c)
        } else {
            seq![s]
        },
        None => seq![s],
    }
}

proof fn lemma_find_char_none(s: Seq<char>, c: char)
    requires
        forall|j: int| 0 <= j < s.len() ==> s[j] != c,
    ensures
        find_char_spec(s, c) is None,
{
}

proof fn lemma_split_step(s: Seq<char>, c: char, start: int, i: int)
    requires
        0 <= start <= i < s.len(),
        forall|j: int| start <= j < i ==> s[j] != c,
        s[i] == c,
    ensures
        split_spec(s.skip(start), c) == seq![s.subrange(start, i)] + split_spec(s.skip(i + 1), c),
{
    reveal(split_spec);
    let rest = s.skip(start);
    assert forall|j: int| 0 <= j < i - start implies rest[j] != c by {
        assert(rest[j] == s[start + j]);
    }
    lemma_find_char_first(rest, c, i - start);
    assert(rest.take(i - start) == s.subrange(start, i));
    assert(rest.skip(i - start + 1) == s.skip(i + 1));
}

proof fn lemma_split_last(s: Seq<char>, c: char, start: int)
    requires
        0 <= start <= s.len(),
        forall|j: int| start <= j < s.len() ==> s[j] != c,
    ensures
        split_spec(s.skip(start), c) == seq![s.skip(start)],
{
    reveal(split_spec);
    let rest = s.skip(start);
    assert forall|j: int| 0 <= j < rest.len() implies rest[j] != c by {
        assert(rest[j] == s[start + j]);
    }
    lemma_find_char_none(rest, c);
}

/// The pieces of `v` between the occurrences of `c`.
pub fn split_chars(v: &[char], c: char) -> (r: Vec<Vec<char>>)
    ensures
        r@.map_values(|p: Vec<char>| p@) == split_spec(v@, c),
{
    let n = v.len();
    let mut r: Vec<Vec<char>> = Vec::new();
    let ghost mut views: Seq<Seq<char>> = Seq::empty();
    let mut start: usize = 0;
    let mut i: usize = 0;
    assert(v@.skip(0) == v@);
    while i < n
        invariant
            start <= i <= n,
            n == v@.len(),
            forall|j: int| start <= j < i ==> v@[j] != c,
            r@.len() == views.len(),
            forall|j: int| 0 <= j < views.len() ==> #[trigger] r@[j]@ == views[j],
            views + split_spec(v@.skip(start as int), c) == split_spec(v@, c),
        decreases n - i,
    {
        if v[i] == c {
            let piece = slice_vec(v, start, i);
            proof {
                lemma_split_step(v@, c, start as int, i as int);
                assert(views.push(piece@) + split_spec(v@.skip(i + 1), c) == views + split_spec(
                    v@.skip(start as int),
                    c,
                ));
                views = views.push(piece@);
            }
            r.push(piece);
            start = i + 1;
        }
        i = i + 1;
    }
    let piece = slice_vec(v, start, n);
    proof {
        lemma_split_last(v@, c, start as int);
        views = views.push(piece@);
    }
    r.push(piece);
    assert(r@.map_values(|p: Vec<char>| p@) =~= views);
    r
}

/// `s` split at its first `c` (`str::split_once`, or `splitn(2, c)` with two
/// pieces): the part before it and the part after it.
pub open spec fn split_once_spec(s: Seq<char>, c: char) -> Option<(Seq<char>, Seq<char>)> {
    match find_char_spec(s, c) {
        Some(i) => Some((s.take(i), s.skip(i + 1))),
        None => None,
    }
}

/// `v` split at its first `c`.
pub fn split_once_chars(v: &[char], c: char) -> (r: Option<(Vec<char>, Vec<char>)>)
    ensures
        match r {
            Some((a, b)) => split_once_spec(v@, c) == Some((a@, b@)),
            None => split_once_spec(v@, c) is None,
        },
{
    match find_char(v, c) {
        Some(i) => Some((slice_vec(v, 0, i), slice_vec(v, i + 1, v.len()))),
        None => None,
    }
}

/// `s` with every leading `c` removed (`trim_start_matches` with a
/// character).
pub open spec fn trim_start_char_spec(s: Seq<char>, c: char) -> Seq<char>
    decreases s.len(),
{
    if s.len() > 0 && s[0] == c {
        trim_start_char_spec(s.drop_first(), c)
    } else {
        s
    }
}

/// `s` with every trailing `c` removed (`trim_end_matches` with a
/// character).
pub open spec fn trim_end_char_spec(s: Seq<char>, c: char) -> Seq<char>
    decreases s.len(),
{
    if s.len() > 0 && s.last() == c {
        trim_end_char_spec(s.drop_last(), c)
    } else {
        s
    }
}

/// `v` with every leading `c` removed.
pub fn trim_start_char(v: &[char], c: char) -> (r: Vec<char>)
    ensures
        r@ == trim_start_char_spec(v@, c),
{
    let mut i: usize = 0;
    assert(v@.skip(0) == v@);
    while i < v.len() && v[i] == c
        invariant
            i <= v.len(),
            trim_start_char_spec(v@.skip(i as int), c) == trim_start_char_spec(v@, c),
        decreases v.len() - i,
    {
        assert(v@.skip(i as int).drop_first() == v@.skip(i + 1));
        i = i + 1;
    }
    slice_vec(v, i, v.len())
}

/// `v` with every trailing `c` removed.
pub fn trim_end_char(v: &[char], c: char) -> (r: Vec<char>)
    ensures
        r@ == trim_end_char_spec(v@, c),
{
    let mut k: usize = v.len();
    assert(v@.take(v@.len() as int) == v@);
    while k > 0 && v[k - 1] == c
        invariant
            k <= v.len(),
            trim_end_char_spec(v@.take(k as int), c) == trim_end_char_spec(v@, c),
        decreases k,
    {
        assert(v@.take(k as int).drop_last() == v@.take(k - 1));
        k = k - 1;
    }
    slice_vec(v, 0, k)
}

// ---------------------------------------------------------------- letter case

/// What `str::to_lowercase` returns for `s`.
pub uninterp spec fn lowercase_of(s: Seq<char>) -> Seq<char>;

/// What `str::to_uppercase` returns for `s`.
pub uninterp spec fn uppercase_of(s: Seq<char>) -> Seq<char>;

/// Whether every character of `s` is ASCII.
pub open spec fn all_ascii(s: Seq<char>) -> bool {
    forall|j: int| 0 <= j < s.len() ==> (s[j] as u32) < 128
}

/// `c` with `A`..`Z` mapped to `a`..`z`.
pub open spec fn ascii_lower_char(c: char) -> char {
    if 65 <= (c as u32) <= 90 {
        ((c as u32) + 32) as char
    } else {
        c
    }
}

/// `c` with `a`..`z` mapped to `A`..`Z`.
pub open spec fn ascii_upper_char(c: char) -> char {
    if 97 <= (c as u32) <= 122 {
        ((c as u32) - 32) as char
    } else {
        c
    }
}

/// `str::to_lowercase`, Unicode lowercase mapping. On text made only of
/// ASCII characters it maps `A`..`Z` to `a`..`z` and keeps the rest, as the
/// Unicode case tables do; for other text only the name is stated.
#[verifier::external_body]
pub(crate) fn to_lowercase(s: &str) -> (r: String)
    ensures
        r@ == lowercase_of(s@),
        all_ascii(s@) ==> r@ == s@.map_values(|c: char| ascii_lower_char(c)),
{
    s.to_lowercase()
}

/// `str::to_uppercase`, Unicode uppercase mapping. On text made only of
/// ASCII characters it maps `a`..`z` to `A`..`Z` and keeps the rest; for
/// other text only the name is stated.
#[verifier::external_body]
pub(crate) fn to_uppercase(s: &str) -> (r: String)
    ensures
        r@ == uppercase_of(s@),
        all_ascii(s@) ==> r@ == s@.map_values(|c: char| ascii_upper_char(c)),
{
    s.to_uppercase()
}

/// Whether `char::is_alphanumeric` holds of `c`.
pub uninterp spec fn alphanumeric(c: char) -> bool;

/// `char::is_alphanumeric`: the Unicode `Alphabetic` or `Numeric`
/// property. Of ASCII characters it holds exactly for letters and digits;
/// for others only the name is stated.
#[verifier::external_body]
pub(crate) fn is_alphanumeric(c: char) -> (b: bool)
    ensures
        b == alphanumeric(c),
        (c as u32) < 128 ==> (b <==> (48 <= (c as u32) <= 57 || 65 <= (c as u32) <= 90 || 97 <= (
        c as u32) <= 122)),
{
    c.is_alphanumeric()
}

} // verus!
