use vstd::prelude::*;

verus! {

/// The characters surrounding-whitespace trimming removes: the Unicode
/// white-space set, from the ASCII blanks through the non-breaking,
/// typographic and ideographic spaces.
pub open spec fn is_space(c: char) -> bool {
    c == ' ' || c == '\t' || c == '\n' || c == '\r' || c == '\u{000B}' || c == '\u{000C}'
        || c == '\u{0085}' || c == '\u{00A0}' || c == '\u{1680}' || ('\u{2000}' <= c && c
        <= '\u{200A}') || c == '\u{2028}' || c == '\u{2029}' || c == '\u{202F}' || c
        == '\u{205F}' || c == '\u{3000}'
}

fn is_space_char(c: char) -> (r: bool)
    ensures
        r == is_space(c),
{
    c == ' ' || c == '\t' || c == '\n' || c == '\r' || c == '\u{000B}' || c == '\u{000C}'
        || c == '\u{0085}' || c == '\u{00A0}' || c == '\u{1680}' || ('\u{2000}' <= c && c
        <= '\u{200A}') || c == '\u{2028}' || c == '\u{2029}' || c == '\u{202F}' || c
        == '\u{205F}' || c == '\u{3000}'
}

/// The sequence with leading whitespace removed.
pub open spec fn trim_front(s: Seq<char>) -> Seq<char>
    decreases s.len(),
{
    if s.len() > 0 && is_space(s[0]) {
        trim_front(s.drop_first())
    } else {
        s
    }
}

/// The sequence with trailing whitespace removed.
pub open spec fn trim_back(s: Seq<char>) -> Seq<char>
    decreases s.len(),
{
    if s.len() > 0 && is_space(s.last()) {
        trim_back(s.drop_last())
    } else {
        s
    }
}

/// The sequence with surrounding whitespace removed.
pub open spec fn trim_spec(s: Seq<char>) -> Seq<char> {
    trim_back(trim_front(s))
}

proof fn lemma_trim_front_skip(s: Seq<char>, i: int)
    requires
        0 <= i <= s.len(),
        forall|k: int| 0 <= k < i ==> is_space(s[k]),
    ensures
        trim_front(s) == trim_front(s.skip(i)),
    decreases i,
{
    if i > 0 {
        assert(is_space(s[0]));
        assert(s.drop_first() =~= s.skip(1));
        lemma_trim_front_skip(s.skip(1), i - 1);
        assert(s.skip(1).skip(i - 1) =~= s.skip(i));
    } else {
        assert(s.skip(0) =~= s);
    }
}

proof fn lemma_trim_back_take(s: Seq<char>, i: int)
    requires
        0 <= i <= s.len(),
        forall|k: int| i <= k < s.len() ==> is_space(s[k]),
    ensures
        trim_back(s) == trim_back(s.take(i)),
    decreases s.len() - i,
{
    if i < s.len() {
        assert(is_space(s.last()));
        assert(s.drop_last() =~= s.take(s.len() - 1));
        lemma_trim_back_take(s.take(s.len() - 1), i);
        assert(s.take(s.len() - 1).take(i) =~= s.take(i));
    } else {
        assert(s.take(s.len() as int) =~= s);
    }
}

/// Surrounding-whitespace trim.
pub fn trim(s: &str) -> (r: String)
    ensures
        r@ == trim_spec(s@),
{
    let len = s.unicode_len();
    let mut start: usize = 0;
    while start < len && is_space_char(s.get_char(start))
        invariant
            len == s@.len(),
            0 <= start <= len,
            forall|k: int| 0 <= k < start ==> is_space(s@[k]),
        decreases len - start,
    {
        start = start + 1;
    }
    proof {
        lemma_trim_front_skip(s@, start as int);
        if start < len {
            assert(!is_space(s@.skip(start as int)[0]));
        }
        assert(trim_front(s@) == s@.skip(start as int));
    }
    let mut end: usize = len;
    while end > start && is_space_char(s.get_char(end - 1))
        invariant
            len == s@.len(),
            0 <= start <= end <= len,
            trim_front(s@) == s@.skip(start as int),
            forall|k: int| end <= k < len ==> is_space(s@[k]),
        decreases end,
    {
        end = end - 1;
    }
    proof {
        let t = s@.skip(start as int);
        assert(forall|k: int|
            end - start <= k < t.len() ==> is_space(#[trigger] t[k]));
        lemma_trim_back_take(t, end - start);
        if end > start {
            let u = t.take(end - start);
            assert(u.last() == s@[end - 1]);
            assert(!is_space(u.last()));
        }
        assert(trim_back(t) == t.take(end - start));
        assert(t.take(end - start) =~= s@.subrange(start as int, end as int));
    }
    let sub = s.substring_char(start, end);
    String::from_str(sub)
}

/// Whether the pattern occurs at position `i` of the text.
pub open spec fn match_at(s: Seq<char>, p: Seq<char>, i: int) -> bool {
    0 <= i && i + p.len() <= s.len() && s.subrange(i, i + p.len()) == p
}

/// Whether the pattern occurs anywhere in the text, as a contiguous
/// character subsequence.
pub open spec fn contains_sub(s: Seq<char>, p: Seq<char>) -> bool {
    exists|i: int| match_at(s, p, i)
}

/// Substring search: whether `p` occurs contiguously in `s`.
pub fn str_contains(s: &str, p: &str) -> (r: bool)
    ensures
        r == contains_sub(s@, p@),
{
    let n = s.unicode_len();
    let m = p.unicode_len();
    if m > n {
        proof {
            assert(forall|i: int| !match_at(s@, p@, i));
        }
        return false;
    }
    if m == 0 {
        proof {
            assert(s@.subrange(0, 0) =~= p@);
            assert(match_at(s@, p@, 0));
        }
        return true;
    }
    let mut i: usize = 0;
    while i < n - m + 1
        invariant
            n == s@.len(),
            m == p@.len(),
            0 < m <= n,
            0 <= i <= n - m + 1,
            forall|j: int| 0 <= j < i ==> !match_at(s@, p@, j),
        decreases n - m + 1 - i,
    {
        let mut k: usize = 0;
        let mut ok = true;
        while ok && k < m
            invariant
                n == s@.len(),
                m == p@.len(),
                m <= n,
                0 <= i <= n - m,
                0 <= k <= m,
                ok ==> forall|t: int| 0 <= t < k ==> s@[i + t] == p@[t],
                !ok ==> !match_at(s@, p@, i as int),
            decreases m - k + (if ok { 1int } else { 0int }),
        {
            if s.get_char(i + k) != p.get_char(k) {
                proof {
                    if match_at(s@, p@, i as int) {
                        assert(s@.subrange(i as int, i + m)[k as int] == p@[k as int]);
                    }
                }
                ok = false;
            } else {
                k = k + 1;
            }
        }
        if ok {
            proof {
                assert(s@.subrange(i as int, i + m) =~= p@);
                assert(match_at(s@, p@, i as int));
            }
            return true;
        }
        i = i + 1;
    }
    proof {
        assert(forall|j: int| 0 <= j < i ==> !match_at(s@, p@, j));
        assert(forall|j: int| j >= i ==> !match_at(s@, p@, j));
        assert(forall|j: int| j < 0 ==> !match_at(s@, p@, j));
    }
    false
}

/// The first position at or after `from` where the pattern occurs, or -1.
pub open spec fn find_sub(s: Seq<char>, p: Seq<char>, from: int) -> int
    decreases s.len() - from + 1,
{
    if from < 0 || from + p.len() > s.len() {
        -1
    } else if match_at(s, p, from) {
        from
    } else {
        find_sub(s, p, from + 1)
    }
}

/// Whether the pattern occurs at position `i` of the text.
fn match_here(s: &str, p: &str, i: usize) -> (r: bool)
    requires
        i + p@.len() <= s@.len(),
    ensures
        r == match_at(s@, p@, i as int),
{
    let n = s.unicode_len();
    let m = p.unicode_len();
    let mut k: usize = 0;
    while k < m
        invariant
            n == s@.len(),
            m == p@.len(),
            i + m <= s@.len(),
            0 <= k <= m,
            forall|t: int| 0 <= t < k ==> s@[i + t] == p@[t],
        decreases m - k,
    {
        if s.get_char(i + k) != p.get_char(k) {
            proof {
                if match_at(s@, p@, i as int) {
                    assert(s@.subrange(i as int, i + m) [k as int] == p@[k as int]);
                }
            }
            return false;
        }
        k = k + 1;
    }
    proof {
        assert(s@.subrange(i as int, i + m) =~= p@);
    }
    true
}

/// A found position is a match, and the first one at or after `from`.
pub proof fn lemma_find_sub_match(s: Seq<char>, p: Seq<char>, from: int)
    requires
        find_sub(s, p, from) >= 0,
    ensures
        match_at(s, p, find_sub(s, p, from)),
        find_sub(s, p, from) >= from,
    decreases s.len() - from + 1,
{
    if from < 0 || from + p.len() > s.len() {
    } else if match_at(s, p, from) {
    } else {
        lemma_find_sub_match(s, p, from + 1);
    }
}

/// The first occurrence of `p` in `s`, as a character position.
pub fn str_find(s: &str, p: &str) -> (r: Option<usize>)
    ensures
        match r {
            Some(i) => find_sub(s@, p@, 0) == i,
            None => find_sub(s@, p@, 0) == -1,
        },
{
    let n = s.unicode_len();
    let m = p.unicode_len();
    if m > n {
        return None;
    }
    if m == 0 {
        proof {
            assert(s@.subrange(0, 0) =~= p@);
            assert(match_at(s@, p@, 0));
        }
        return Some(0);
    }
    let mut i: usize = 0;
    while i < n - m + 1
        invariant
            n == s@.len(),
            m == p@.len(),
            0 < m <= n,
            0 <= i <= n - m + 1,
            find_sub(s@, p@, 0) == find_sub(s@, p@, i as int),
        decreases n - m + 1 - i,
    {
        if match_here(s, p, i) {
            return Some(i);
        }
        i = i + 1;
    }
    None
}

/// The characters of a string slice, in order.
pub fn str_chars(s: &str) -> (r: Vec<char>)
    ensures
        r@ == s@,
{
    let len = s.unicode_len();
    let mut v: Vec<char> = Vec::new();
    let mut i: usize = 0;
    while i < len
        invariant
            len == s@.len(),
            0 <= i <= len,
            v@ =~= s@.take(i as int),
        decreases len - i,
    {
        v.push(s.get_char(i));
        i = i + 1;
    }
    proof {
        assert(s@.take(len as int) =~= s@);
    }
    v
}

/// Relies on `core::iter::Iterator::collect` for `String`: the collected
/// string holds exactly the given characters, in order.
#[verifier::external_body]
pub fn chars_to_string(v: &Vec<char>) -> (r: String)
    ensures
        r@ == v@,
{
    v.iter().collect()
}

/// Whether two string slices hold the same characters.
pub fn str_eq(a: &str, b: &str) -> (r: bool)
    ensures
        r == (a@ == b@),
{
    let a_len = a.unicode_len();
    let b_len = b.unicode_len();
    if a_len != b_len {
        proof {
            assert(a@.len() != b@.len());
        }
        return false;
    }
    let mut i: usize = 0;
    while i < a_len
        invariant
            a_len == a@.len(),
            b_len == b@.len(),
            a_len == b_len,
            0 <= i <= a_len,
            forall|k: int| 0 <= k < i ==> a@[k] == b@[k],
        decreases a_len - i,
    {
        if a.get_char(i) != b.get_char(i) {
            return false;
        }
        i = i + 1;
    }
    proof {
        assert(a@ =~= b@);
    }
    true
}

} // verus!
