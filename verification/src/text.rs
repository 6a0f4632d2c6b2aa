//! Character-level string operations used by the lexer and the parser, each
//! stated over `Seq<char>` and implemented over vectors of characters.
use vstd::prelude::*;

verus! {

/// Whitespace in the sense of Unicode's `White_Space` property
/// (the characters that `char::is_whitespace` accepts).
pub open spec fn is_ws(c: char) -> bool {
    ||| ('\t' <= c && c <= '\r')
    ||| c == ' '
    ||| c == '\u{85}'
    ||| c == '\u{a0}'
    ||| c == '\u{1680}'
    ||| ('\u{2000}' <= c && c <= '\u{200a}')
    ||| c == '\u{2028}'
    ||| c == '\u{2029}'
    ||| c == '\u{202f}'
    ||| c == '\u{205f}'
    ||| c == '\u{3000}'
}

/// The sequence without its leading whitespace.
pub open spec fn trim_start(s: Seq<char>) -> Seq<char>
    decreases s.len(),
{
    if s.len() > 0 && is_ws(s[0]) {
        trim_start(s.drop_first())
    } else {
        s
    }
}

/// The sequence without its trailing whitespace.
pub open spec fn trim_end(s: Seq<char>) -> Seq<char>
    decreases s.len(),
{
    if s.len() > 0 && is_ws(s.last()) {
        trim_end(s.drop_last())
    } else {
        s
    }
}

/// The sequence without leading and trailing whitespace.
pub open spec fn trim(s: Seq<char>) -> Seq<char> {
    trim_end(trim_start(s))
}

/// ASCII case folding: the code of the character, with `A`..=`Z` mapped to `a`..=`z`.
pub open spec fn ascii_fold(c: char) -> u32 {
    if 65 <= (c as u32) && (c as u32) <= 90 {
        ((c as u32) + 32) as u32
    } else {
        c as u32
    }
}

/// Equality of two character sequences, ignoring ASCII case.
pub open spec fn eq_ic(a: Seq<char>, b: Seq<char>) -> bool {
    &&& a.len() == b.len()
    &&& forall|i: int| 0 <= i < a.len() ==> #[trigger] ascii_fold(a[i]) == ascii_fold(b[i])
}

/// `p` occurs at position `pos` of `s`, ignoring ASCII case.
pub open spec fn matches_ic_at(s: Seq<char>, p: Seq<char>, pos: int) -> bool {
    &&& 0 <= pos
    &&& pos + p.len() <= s.len()
    &&& eq_ic(s.subrange(pos, pos + p.len()), p)
}

/// The first position at or after `i` at which `p` occurs in `s`, ignoring ASCII case.
pub open spec fn find_ic_from(s: Seq<char>, p: Seq<char>, i: int) -> Option<int>
    decreases s.len() - i,
{
    if i < 0 || i + p.len() > s.len() {
        None
    } else if matches_ic_at(s, p, i) {
        Some(i)
    } else {
        find_ic_from(s, p, i + 1)
    }
}

/// The first position at which `p` occurs in `s`, ignoring ASCII case.
pub open spec fn find_ic(s: Seq<char>, p: Seq<char>) -> Option<int> {
    find_ic_from(s, p, 0)
}

/// The first position at or after `i` that holds `c`.
pub open spec fn index_of_from(s: Seq<char>, c: char, i: int) -> Option<int>
    decreases s.len() - i,
{
    if i < 0 || i >= s.len() {
        None
    } else if s[i] == c {
        Some(i)
    } else {
        index_of_from(s, c, i + 1)
    }
}

/// `s` with every occurrence of `from` at or after position `i` replaced by
/// `to`, scanning from the left and never overlapping (the characters before
/// `i` are dropped).
pub open spec fn replace_from(s: Seq<char>, from: Seq<char>, to: Seq<char>, i: int) -> Seq<char>
    decreases s.len() - i,
{
    if i < 0 || i >= s.len() {
        Seq::empty()
    } else if from.len() > 0 && i + from.len() <= s.len() && s.subrange(i, i + from.len()) == from {
        to + replace_from(s, from, to, i + from.len())
    } else {
        seq![s[i]] + replace_from(s, from, to, i + 1)
    }
}

/// `s` with every occurrence of `from` replaced by `to`.
pub open spec fn replace_all(s: Seq<char>, from: Seq<char>, to: Seq<char>) -> Seq<char> {
    replace_from(s, from, to, 0)
}

/// The parts joined with `sep` between each two of them.
pub open spec fn join(parts: Seq<Seq<char>>, sep: Seq<char>) -> Seq<char>
    decreases parts.len(),
{
    if parts.len() == 0 {
        Seq::empty()
    } else if parts.len() == 1 {
        parts[0]
    } else {
        join(parts.drop_last(), sep) + sep + parts.last()
    }
}

/// The views of a sequence of strings.
pub open spec fn views(v: Seq<String>) -> Seq<Seq<char>> {
    v.map_values(|s: String| s@)
}

// ---------------------------------------------------------------- lemmas

pub proof fn lemma_trim_start_skip(s: Seq<char>, k: int)
    requires
        0 <= k <= s.len(),
        forall|i: int| 0 <= i < k ==> is_ws(#[trigger] s[i]),
        k == s.len() || !is_ws(s[k]),
    ensures
        trim_start(s) == s.skip(k),
    decreases k,
{
    if k == 0 {
        assert(s.skip(0) =~= s);
    } else {
        assert(is_ws(s[0]));
        let t = s.drop_first();
        assert forall|i: int| 0 <= i < k - 1 implies is_ws(#[trigger] t[i]) by {
            assert(t[i] == s[i + 1]);
        }
        lemma_trim_start_skip(t, k - 1);
        assert(t.skip(k - 1) =~= s.skip(k));
    }
}

pub proof fn lemma_trim_end_take(s: Seq<char>, k: int)
    requires
        0 <= k <= s.len(),
        forall|i: int| k <= i < s.len() ==> is_ws(#[trigger] s[i]),
        k == 0 || !is_ws(s[k - 1]),
    ensures
        trim_end(s) == s.take(k),
    decreases s.len() - k,
{
    if k == s.len() {
        assert(s.take(k) =~= s);
    } else {
        assert(is_ws(s.last()));
        let t = s.drop_last();
        lemma_trim_end_take(t, k);
        assert(t.take(k) =~= s.take(k));
    }
}

pub proof fn lemma_trim_start_len(s: Seq<char>)
    ensures
        trim_start(s).len() <= s.len(),
    decreases s.len(),
{
    if s.len() > 0 && is_ws(s[0]) {
        lemma_trim_start_len(s.drop_first());
    }
}

pub proof fn lemma_views_push(v: Seq<String>, s: String)
    ensures
        views(v.push(s)) == views(v).push(s@),
{
    assert(views(v.push(s)) =~= views(v).push(s@));
}

// ---------------------------------------------------------------- exec

/// Appends one character to a `String` (`String::push`).
#[verifier::external_body]
pub fn push_char(s: &mut String, c: char)
    ensures
        final(s)@ == old(s)@.push(c),
{
    s.push(c)
}

/// The characters of `s`, in order.
pub fn chars_of(s: &str) -> (v: Vec<char>)
    ensures
        v@ == s@,
{
    let mut v: Vec<char> = Vec::new();
    for c in it: s.chars()
        invariant
            v@ == it.seq().take(it.index() as int),
    {
        v.push(c);
    }
    v
}

/// The string made of the characters `v[lo..hi]`.
pub fn string_of(v: &Vec<char>, lo: usize, hi: usize) -> (s: String)
    requires
        lo <= hi <= v@.len(),
    ensures
        s@ == v@.subrange(lo as int, hi as int),
{
    let mut s = String::new();
    let mut i = lo;
    while i < hi
        invariant
            lo <= i <= hi <= v@.len(),
            s@ == v@.subrange(lo as int, i as int),
        decreases hi - i,
    {
        push_char(&mut s, v[i]);
        assert(v@.subrange(lo as int, i + 1) =~= v@.subrange(lo as int, i as int).push(v@[i as int]));
        i += 1;
    }
    s
}

/// A copy of the characters `v[lo..hi]`.
pub fn copy_range(v: &Vec<char>, lo: usize, hi: usize) -> (r: Vec<char>)
    requires
        lo <= hi <= v@.len(),
    ensures
        r@ == v@.subrange(lo as int, hi as int),
{
    let mut r: Vec<char> = Vec::new();
    let mut i = lo;
    while i < hi
        invariant
            lo <= i <= hi <= v@.len(),
            r@ == v@.subrange(lo as int, i as int),
        decreases hi - i,
    {
        r.push(v[i]);
        assert(v@.subrange(lo as int, i + 1) =~= v@.subrange(lo as int, i as int).push(v@[i as int]));
        i += 1;
    }
    r
}

/// `char::is_whitespace`.
pub fn is_whitespace_char(c: char) -> (b: bool)
    ensures
        b == is_ws(c),
{
    ('\t' <= c && c <= '\r') || c == ' ' || c == '\u{85}' || c == '\u{a0}' || c == '\u{1680}'
        || ('\u{2000}' <= c && c <= '\u{200a}') || c == '\u{2028}' || c == '\u{2029}'
        || c == '\u{202f}' || c == '\u{205f}' || c == '\u{3000}'
}

/// The bounds of `trim(v[lo..hi])` inside `v`.
pub fn trim_bounds(v: &Vec<char>, lo: usize, hi: usize) -> (r: (usize, usize))
    requires
        lo <= hi <= v@.len(),
    ensures
        lo <= r.0 <= r.1 <= hi,
        v@.subrange(r.0 as int, r.1 as int) == trim(v@.subrange(lo as int, hi as int)),
        v@.subrange(r.0 as int, hi as int) == trim_start(v@.subrange(lo as int, hi as int)),
{
    let mut a = lo;
    while a < hi && is_whitespace_char(v[a])
        invariant
            lo <= a <= hi <= v@.len(),
            forall|i: int| lo <= i < a ==> is_ws(#[trigger] v@[i]),
        decreases hi - a,
    {
        a += 1;
    }
    let mut b = hi;
    while b > a && is_whitespace_char(v[b - 1])
        invariant
            lo <= a <= b <= hi <= v@.len(),
            forall|i: int| b <= i < hi ==> is_ws(#[trigger] v@[i]),
        decreases b - a,
    {
        b -= 1;
    }
    proof {
        let s = v@.subrange(lo as int, hi as int);
        assert forall|i: int| 0 <= i < a - lo implies is_ws(#[trigger] s[i]) by {
            assert(s[i] == v@[lo + i]);
        }
        lemma_trim_start_skip(s, a - lo);
        assert(s.skip(a - lo) =~= v@.subrange(a as int, hi as int));
        let t = v@.subrange(a as int, hi as int);
        assert forall|i: int| b - a <= i < t.len() implies is_ws(#[trigger] t[i]) by {
            assert(t[i] == v@[a + i]);
        }
        lemma_trim_end_take(t, b - a);
        assert(t.take(b - a) =~= v@.subrange(a as int, b as int));
    }
    (a, b)
}


/// ASCII case folding of one character.
pub fn fold_char(c: char) -> (r: u32)
    ensures
        r == ascii_fold(c),
{
    let x = c as u32;
    if 65 <= x && x <= 90 {
        x + 32
    } else {
        x
    }
}

/// Whether `p` occurs at position `pos` of `v`, ignoring ASCII case.
pub fn matches_ic_exec(v: &Vec<char>, p: &Vec<char>, pos: usize) -> (b: bool)
    ensures
        b == matches_ic_at(v@, p@, pos as int),
{
    if pos > v.len() || p.len() > v.len() - pos {
        return false;
    }
    let vlen = v.len();
    let mut i: usize = 0;
    while i < p.len()
        invariant
            vlen == v@.len(),
            pos + p@.len() <= v@.len(),
            0 <= i <= p@.len(),
            pos + i <= v@.len(),
            forall|j: int| 0 <= j < i ==> ascii_fold(#[trigger] v@[pos + j]) == ascii_fold(p@[j]),
        decreases p@.len() - i,
    {
        if fold_char(v[pos + i]) != fold_char(p[i]) {
            proof {
                let sub = v@.subrange(pos as int, pos + p@.len());
                assert(sub[i as int] == v@[pos + i]);
            }
            return false;
        }
        i += 1;
    }
    proof {
        let sub = v@.subrange(pos as int, pos + p@.len());
        assert forall|j: int| 0 <= j < sub.len() implies #[trigger] ascii_fold(sub[j]) == ascii_fold(p@[j]) by {
            assert(sub[j] == v@[pos + j]);
        }
    }
    true
}

/// Equality of two strings, ignoring ASCII case (`str::eq_ignore_ascii_case`).
pub fn eq_ic_str(a: &str, b: &str) -> (r: bool)
    ensures
        r == eq_ic(a@, b@),
{
    let va = chars_of(a);
    let vb = chars_of(b);
    if va.len() != vb.len() {
        return false;
    }
    let r = matches_ic_exec(&va, &vb, 0);
    proof {
        assert(va@.subrange(0, vb@.len() as int) =~= va@);
    }
    r
}

/// The first position at which `p` occurs in `v`, ignoring ASCII case.
pub fn find_ic_exec(v: &Vec<char>, p: &Vec<char>) -> (r: Option<usize>)
    ensures
        r matches Some(i) ==> find_ic(v@, p@) == Some(i as int),
        r is None ==> find_ic(v@, p@) is None,
{
    if p.len() > v.len() {
        return None;
    }
    let mut i: usize = 0;
    while i <= v.len() - p.len()
        invariant
            p@.len() <= v@.len(),
            0 <= i <= v@.len() - p@.len() + 1,
            find_ic_from(v@, p@, 0) == find_ic_from(v@, p@, i as int),
        decreases v@.len() - p@.len() + 1 - i,
    {
        if matches_ic_exec(v, p, i) {
            return Some(i);
        }
        i += 1;
    }
    None
}

/// The first position at or after `i` that holds `c`.
pub fn index_of_exec(v: &Vec<char>, c: char, i: usize) -> (r: Option<usize>)
    ensures
        r matches Some(k) ==> index_of_from(v@, c, i as int) == Some(k as int),
        r is None ==> index_of_from(v@, c, i as int) is None,
{
    let mut k = i;
    while k < v.len()
        invariant
            i <= k,
            index_of_from(v@, c, i as int) == index_of_from(v@, c, k as int),
        decreases v@.len() - k,
    {
        if v[k] == c {
            return Some(k);
        }
        k += 1;
    }
    None
}

/// Appends the characters of `s` to `r`.
pub fn append_chars(r: &mut Vec<char>, s: &Vec<char>)
    ensures
        final(r)@ == old(r)@ + s@,
{
    let mut i: usize = 0;
    while i < s.len()
        invariant
            0 <= i <= s@.len(),
            r@ == old(r)@ + s@.take(i as int),
        decreases s@.len() - i,
    {
        r.push(s[i]);
        assert(s@.take(i + 1) =~= s@.take(i as int).push(s@[i as int]));
        i += 1;
    }
    assert(s@.take(i as int) =~= s@);
}

/// Whether `p` occurs exactly at position `pos` of `v`.
pub fn matches_exact(v: &Vec<char>, p: &Vec<char>, pos: usize) -> (b: bool)
    requires
        pos <= v@.len(),
    ensures
        b == (pos + p@.len() <= v@.len() && v@.subrange(pos as int, pos + p@.len()) == p@),
{
    let vlen = v.len();
    if p.len() > vlen - pos {
        return false;
    }
    let mut i: usize = 0;
    while i < p.len()
        invariant
            vlen == v@.len(),
            pos + p@.len() <= v@.len(),
            0 <= i <= p@.len(),
            forall|j: int| 0 <= j < i ==> v@[pos + j] == #[trigger] p@[j],
        decreases p@.len() - i,
    {
        if v[pos + i] != p[i] {
            proof {
                let sub = v@.subrange(pos as int, pos + p@.len());
                assert(sub[i as int] != p@[i as int]);
            }
            return false;
        }
        i += 1;
    }
    assert(v@.subrange(pos as int, pos + p@.len()) =~= p@);
    true
}

/// `v` with every occurrence of `from` replaced by `to` (`str::replace`).
pub fn replace_exec(v: &Vec<char>, from: &Vec<char>, to: &Vec<char>) -> (r: Vec<char>)
    ensures
        r@ == replace_all(v@, from@, to@),
{
    let mut r: Vec<char> = Vec::new();
    let vlen = v.len();
    let mut i: usize = 0;
    while i < vlen
        invariant
            vlen == v@.len(),
            0 <= i <= vlen,
            r@ + replace_from(v@, from@, to@, i as int) == replace_all(v@, from@, to@),
        decreases vlen - i,
    {
        let ghost before = r@;
        if from.len() > 0 && matches_exact(v, from, i) {
            append_chars(&mut r, to);
            proof {
                assert(before + (to@ + replace_from(v@, from@, to@, i + from@.len()))
                    =~= r@ + replace_from(v@, from@, to@, i + from@.len()));
            }
            i = i + from.len();
        } else {
            r.push(v[i]);
            proof {
                assert(before + (seq![v@[i as int]] + replace_from(v@, from@, to@, i + 1))
                    =~= r@ + replace_from(v@, from@, to@, i + 1));
            }
            i += 1;
        }
    }
    assert(r@ + replace_from(v@, from@, to@, i as int) =~= r@);
    r
}

/// The views of a sequence of character vectors.
pub open spec fn vec_views(v: Seq<Vec<char>>) -> Seq<Seq<char>> {
    v.map_values(|p: Vec<char>| p@)
}

/// The parts joined with `sep` between each two of them (`[String]::join`).
pub fn join_exec(parts: &Vec<Vec<char>>, sep: &Vec<char>) -> (r: Vec<char>)
    ensures
        r@ == join(vec_views(parts@), sep@),
{
    let ghost pv = vec_views(parts@);
    let mut r: Vec<char> = Vec::new();
    let mut i: usize = 0;
    while i < parts.len()
        invariant
            pv == vec_views(parts@),
            0 <= i <= parts@.len(),
            r@ == join(pv.take(i as int), sep@),
        decreases parts@.len() - i,
    {
        proof {
            assert(pv.take(i + 1).drop_last() =~= pv.take(i as int));
        }
        if i > 0 {
            append_chars(&mut r, sep);
        } else {
            assert(r@ =~= Seq::<char>::empty());
        }
        append_chars(&mut r, &parts[i]);
        proof {
            if i == 0 {
                assert(r@ =~= pv.take(1)[0]);
            }
        }
        i += 1;
    }
    assert(pv.take(i as int) =~= pv);
    r
}


/// Appends the characters `v[lo..hi]` to `s`.
pub fn push_range(s: &mut String, v: &Vec<char>, lo: usize, hi: usize)
    requires
        lo <= hi <= v@.len(),
    ensures
        final(s)@ == old(s)@ + v@.subrange(lo as int, hi as int),
{
    let mut i = lo;
    while i < hi
        invariant
            lo <= i <= hi <= v@.len(),
            s@ == old(s)@ + v@.subrange(lo as int, i as int),
        decreases hi - i,
    {
        push_char(s, v[i]);
        assert(v@.subrange(lo as int, i + 1) =~= v@.subrange(lo as int, i as int).push(v@[i as int]));
        i += 1;
    }
}

/// Whether `v` holds the character `c`.
pub fn contains_char(v: &Vec<char>, c: char) -> (b: bool)
    ensures
        b == v@.contains(c),
{
    let mut k: usize = 0;
    while k < v.len()
        invariant
            0 <= k <= v@.len(),
            forall|m: int| 0 <= m < k ==> v@[m] != c,
        decreases v@.len() - k,
    {
        if v[k] == c {
            return true;
        }
        k += 1;
    }
    false
}

/// Whether the two character vectors are equal.
pub fn eq_chars(a: &Vec<char>, b: &Vec<char>) -> (r: bool)
    ensures
        r == (a@ == b@),
{
    if a.len() != b.len() {
        return false;
    }
    let r = matches_exact(a, b, 0);
    assert(a@.subrange(0, b@.len() as int) =~= a@);
    r
}


pub proof fn lemma_find_ic_from(s: Seq<char>, p: Seq<char>, i: int)
    ensures
        find_ic_from(s, p, i) matches Some(k) ==> {
            &&& 0 <= i <= k
            &&& k + p.len() <= s.len()
            &&& matches_ic_at(s, p, k)
            &&& forall|m: int| i <= m < k ==> !matches_ic_at(s, p, m)
        },
        find_ic_from(s, p, i) is None ==> forall|m: int| 0 <= i <= m ==> !matches_ic_at(s, p, m),
    decreases s.len() - i,
{
    if 0 <= i && i + p.len() <= s.len() && !matches_ic_at(s, p, i) {
        lemma_find_ic_from(s, p, i + 1);
    }
}


/// Whether the two strings are equal.
pub fn str_eq(a: &str, b: &str) -> (r: bool)
    ensures
        r == (a@ == b@),
{
    let va = chars_of(a);
    let vb = chars_of(b);
    eq_chars(&va, &vb)
}


/// Whether `s` holds a whitespace character.
pub fn contains_ws(s: &str) -> (b: bool)
    ensures
        b == exists|i: int| 0 <= i < s@.len() && is_ws(#[trigger] s@[i]),
{
    let v = chars_of(s);
    let mut k: usize = 0;
    while k < v.len()
        invariant
            v@ == s@,
            0 <= k <= v@.len(),
            forall|m: int| 0 <= m < k ==> !is_ws(#[trigger] v@[m]),
        decreases v@.len() - k,
    {
        if is_whitespace_char(v[k]) {
            return true;
        }
        k += 1;
    }
    false
}

} // verus!
