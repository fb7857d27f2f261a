use vstd::prelude::*;

use crate::icsgen::append_str;
use crate::schedule::{scheds_view, SchedView, Schedule};

verus! {

// The snapshot is a JSON array of records, one object per record, with the
// fields `at` (an array of strings), `title`, `org` and `category`. The
// text is written compactly, with no whitespace between tokens. String
// values escape the quote, the backslash, newline, carriage return and
// tab; other characters pass through unchanged.

/// The escape of one string character.
pub open spec fn jesc_char(c: char) -> Seq<char> {
    if c == '"' {
        seq!['\\', '"']
    } else if c == '\\' {
        seq!['\\', '\\']
    } else if c == '\n' {
        seq!['\\', 'n']
    } else if c == '\r' {
        seq!['\\', 'r']
    } else if c == '\t' {
        seq!['\\', 't']
    } else {
        seq![c]
    }
}

/// The escaped body of a string value.
pub open spec fn jesc(s: Seq<char>) -> Seq<char>
    decreases s.len(),
{
    if s.len() == 0 {
        Seq::empty()
    } else {
        jesc_char(s[0]) + jesc(s.drop_first())
    }
}

/// A quoted string value.
pub open spec fn jstr(s: Seq<char>) -> Seq<char> {
    seq!['"'] + jesc(s) + seq!['"']
}

/// Comma-separated string values.
pub open spec fn jlist(items: Seq<Seq<char>>) -> Seq<char>
    decreases items.len(),
{
    if items.len() == 0 {
        Seq::empty()
    } else if items.len() == 1 {
        jstr(items[0])
    } else {
        jstr(items[0]) + seq![','] + jlist(items.drop_first())
    }
}

/// One record as an object.
pub open spec fn jrec(s: SchedView) -> Seq<char> {
    "{\"at\":["@ + jlist(s.at) + "],\"title\":"@ + jstr(s.title) + ",\"org\":"@ + jstr(s.org)
        + ",\"category\":"@ + jstr(s.category) + "}"@
}

/// Comma-separated records.
pub open spec fn jrecs(rs: Seq<SchedView>) -> Seq<char>
    decreases rs.len(),
{
    if rs.len() == 0 {
        Seq::empty()
    } else if rs.len() == 1 {
        jrec(rs[0])
    } else {
        jrec(rs[0]) + seq![','] + jrecs(rs.drop_first())
    }
}

/// A record list as a snapshot document.
pub open spec fn snapshot_text(rs: Seq<SchedView>) -> Seq<char> {
    seq!['['] + jrecs(rs) + seq![']']
}

proof fn lemma_jesc_snoc(s: Seq<char>, c: char)
    ensures
        jesc(s.push(c)) == jesc(s) + jesc_char(c),
    decreases s.len(),
{
    if s.len() == 0 {
        assert(s.push(c)[0] == c);
        assert(s.push(c).drop_first() =~= Seq::<char>::empty());
        assert(jesc(Seq::<char>::empty()) =~= Seq::<char>::empty());
        assert(jesc(s.push(c)) =~= jesc(s) + jesc_char(c));
    } else {
        assert(s.push(c)[0] == s[0]);
        assert(s.push(c).drop_first() =~= s.drop_first().push(c));
        lemma_jesc_snoc(s.drop_first(), c);
        assert(jesc(s.push(c)) =~= jesc(s) + jesc_char(c));
    }
}

proof fn lemma_jlist_snoc(items: Seq<Seq<char>>, s: Seq<char>)
    ensures
        jlist(items.push(s)) == if items.len() == 0 {
            jstr(s)
        } else {
            jlist(items) + seq![','] + jstr(s)
        },
    decreases items.len(),
{
    if items.len() == 0 {
        assert(items.push(s)[0] == s);
        assert(jlist(items.push(s)) == jstr(s));
    } else {
        assert(items.push(s)[0] == items[0]);
        assert(items.push(s).drop_first() =~= items.drop_first().push(s));
        lemma_jlist_snoc(items.drop_first(), s);
        if items.len() == 1 {
            assert(jlist(items.push(s)) =~= jlist(items) + seq![','] + jstr(s));
        } else {
            assert(jlist(items.push(s)) =~= jlist(items) + seq![','] + jstr(s));
        }
    }
}

proof fn lemma_jrecs_snoc(rs: Seq<SchedView>, r: SchedView)
    ensures
        jrecs(rs.push(r)) == if rs.len() == 0 {
            jrec(r)
        } else {
            jrecs(rs) + seq![','] + jrec(r)
        },
    decreases rs.len(),
{
    if rs.len() == 0 {
        assert(rs.push(r)[0] == r);
        assert(jrecs(rs.push(r)) == jrec(r));
    } else {
        assert(rs.push(r)[0] == rs[0]);
        assert(rs.push(r).drop_first() =~= rs.drop_first().push(r));
        lemma_jrecs_snoc(rs.drop_first(), r);
        assert(jrecs(rs.push(r)) =~= jrecs(rs) + seq![','] + jrec(r));
    }
}

/// The character a short escape stands for.
pub open spec fn unesc_short(e: char) -> Option<char> {
    if e == '"' {
        Some('"')
    } else if e == '\\' {
        Some('\\')
    } else if e == 'n' {
        Some('\n')
    } else if e == 'r' {
        Some('\r')
    } else if e == 't' {
        Some('\t')
    } else {
        None
    }
}

/// Parse a string body, from just after its opening quote through its
/// closing quote.
pub open spec fn p_str(v: Seq<char>, i: int) -> Option<(Seq<char>, int)>
    decreases v.len() - i,
{
    if i < 0 || i >= v.len() {
        None
    } else if v[i] == '"' {
        Some((Seq::empty(), i + 1))
    } else if v[i] == '\\' {
        if i + 1 >= v.len() {
            None
        } else {
            match unesc_short(v[i + 1]) {
                Some(c) => match p_str(v, i + 2) {
                    Some(p) => Some((seq![c] + p.0, p.1)),
                    None => None,
                },
                None => None,
            }
        }
    } else {
        match p_str(v, i + 1) {
            Some(p) => Some((seq![v[i]] + p.0, p.1)),
            None => None,
        }
    }
}

/// Parse one or more comma-separated strings; stops before the first
/// character after a string that is not a comma.
pub open spec fn p_elems(v: Seq<char>, i: int, fuel: nat) -> Option<(Seq<Seq<char>>, int)>
    decreases fuel,
{
    if fuel == 0 {
        None
    } else if i < 0 || i >= v.len() || v[i] != '"' {
        None
    } else {
        match p_str(v, i + 1) {
            None => None,
            Some(p) => if p.1 < v.len() && v[p.1] == ',' {
                match p_elems(v, p.1 + 1, (fuel - 1) as nat) {
                    Some(q) => Some((seq![p.0] + q.0, q.1)),
                    None => None,
                }
            } else {
                Some((seq![p.0], p.1))
            },
        }
    }
}

/// Parse a possibly-empty string list: empty when the position does not
/// open a string.
pub open spec fn p_strlist(v: Seq<char>, i: int, fuel: nat) -> Option<(Seq<Seq<char>>, int)> {
    if 0 <= i < v.len() && v[i] == '"' {
        p_elems(v, i, fuel)
    } else {
        Some((Seq::empty(), i))
    }
}

/// Whether the literal occurs at position `i`.
pub open spec fn lit_at(v: Seq<char>, i: int, lit: Seq<char>) -> bool {
    0 <= i && i + lit.len() <= v.len() && v.subrange(i, i + lit.len()) == lit
}

/// Parse a field: the given literal, an opening quote, then a string body.
pub open spec fn p_field(v: Seq<char>, j: int, lit: Seq<char>) -> Option<(Seq<char>, int)> {
    if lit_at(v, j, lit) && j + lit.len() < v.len() && v[j + lit.len()] == '"' {
        p_str(v, j + lit.len() + 1)
    } else {
        None
    }
}

/// Parse one record object.
pub open spec fn p_rec(v: Seq<char>, i: int, fuel: nat) -> Option<(SchedView, int)> {
    if !lit_at(v, i, "{\"at\":["@) {
        None
    } else {
        match p_strlist(v, i + "{\"at\":["@.len(), fuel) {
            None => None,
            Some(pa) => match p_field(v, pa.1, "],\"title\":"@) {
                None => None,
                Some(pt) => match p_field(v, pt.1, ",\"org\":"@) {
                    None => None,
                    Some(po) => match p_field(v, po.1, ",\"category\":"@) {
                        None => None,
                        Some(pc) => if pc.1 < v.len() && v[pc.1] == '}' {
                            Some(
                                (
                                    SchedView {
                                        at: pa.0,
                                        title: pt.0,
                                        org: po.0,
                                        category: pc.0,
                                    },
                                    pc.1 + 1,
                                ),
                            )
                        } else {
                            None
                        },
                    },
                },
            },
        }
    }
}

/// Parse one or more comma-separated records; stops before the first
/// character after a record that is not a comma.
pub open spec fn p_recelems(v: Seq<char>, i: int, fuel: nat) -> Option<(Seq<SchedView>, int)>
    decreases fuel,
{
    if fuel == 0 {
        None
    } else {
        match p_rec(v, i, fuel) {
            None => None,
            Some(pr) => if pr.1 < v.len() && v[pr.1] == ',' {
                match p_recelems(v, pr.1 + 1, (fuel - 1) as nat) {
                    Some(q) => Some((seq![pr.0] + q.0, q.1)),
                    None => None,
                }
            } else {
                Some((seq![pr.0], pr.1))
            },
        }
    }
}

/// The record list a snapshot document denotes: one array of records, with
/// nothing before or after it. Any other text denotes nothing.
pub open spec fn parse_snapshot(v: Seq<char>) -> Option<Seq<SchedView>> {
    if v.len() < 1 || v[0] != '[' {
        None
    } else {
        let q = if 1 < v.len() && v[1] == '{' {
            p_recelems(v, 1, v.len() as nat)
        } else {
            Some((Seq::empty(), 1))
        };
        match q {
            None => None,
            Some(p) => if p.1 < v.len() && v[p.1] == ']' && p.1 + 1 == v.len() {
                Some(p.0)
            } else {
                None
            },
        }
    }
}

/// Append a quoted, escaped string value.
fn append_jstr(v: &mut Vec<char>, s: &str)
    ensures
        final (v)@ == old(v)@ + jstr(s@),
{
    let ghost t0 = v@;
    v.push('"');
    let len = s.unicode_len();
    let mut i: usize = 0;
    proof {
        assert(jesc(s@.take(0)) =~= Seq::<char>::empty());
        assert(v@ =~= t0 + seq!['"'] + jesc(s@.take(0)));
    }
    while i < len
        invariant
            len == s@.len(),
            0 <= i <= len,
            v@ == t0 + seq!['"'] + jesc(s@.take(i as int)),
        decreases len - i,
    {
        let ghost pre = v@;
        let c = s.get_char(i);
        if c == '"' {
            v.push('\\');
            v.push('"');
        } else if c == '\\' {
            v.push('\\');
            v.push('\\');
        } else if c == '\n' {
            v.push('\\');
            v.push('n');
        } else if c == '\r' {
            v.push('\\');
            v.push('r');
        } else if c == '\t' {
            v.push('\\');
            v.push('t');
        } else {
            v.push(c);
        }
        proof {
            assert(v@ =~= pre + jesc_char(s@[i as int]));
            assert(s@.take(i + 1).drop_last() =~= s@.take(i as int));
            assert(s@.take(i + 1).last() == s@[i as int]);
            lemma_jesc_snoc(s@.take(i as int), s@[i as int]);
            assert(s@.take(i as int).push(s@[i as int]) =~= s@.take(i + 1));
            assert(v@ =~= t0 + seq!['"'] + jesc(s@.take(i + 1)));
        }
        i = i + 1;
    }
    v.push('"');
    proof {
        assert(s@.take(len as int) =~= s@);
        assert(v@ =~= t0 + jstr(s@));
    }
}

/// Append one record object.
fn append_jrec(v: &mut Vec<char>, s: &Schedule)
    ensures
        final (v)@ == old(v)@ + jrec(s@),
{
    let ghost t0 = v@;
    append_str(v, "{\"at\":[");
    let ghost at_view = s@.at;
    let mut i: usize = 0;
    proof {
        assert(jlist(at_view.take(0)) =~= Seq::<char>::empty());
        assert(v@ =~= t0 + "{\"at\":["@ + jlist(at_view.take(0)));
    }
    while i < s.at.len()
        invariant
            at_view == s@.at,
            at_view.len() == s.at@.len(),
            0 <= i <= s.at@.len(),
            v@ == t0 + "{\"at\":["@ + jlist(at_view.take(i as int)),
        decreases s.at@.len() - i,
    {
        let ghost pre = v@;
        if i > 0 {
            v.push(',');
        }
        append_jstr(v, s.at[i].as_str());
        proof {
            assert(at_view[i as int] == s.at@[i as int]@);
            lemma_jlist_snoc(at_view.take(i as int), at_view[i as int]);
            assert(at_view.take(i as int).push(at_view[i as int]) =~= at_view.take(i + 1));
            if i == 0 {
                assert(v@ =~= t0 + "{\"at\":["@ + jlist(at_view.take(i + 1)));
            } else {
                assert(v@ =~= t0 + "{\"at\":["@ + jlist(at_view.take(i + 1)));
            }
        }
        i = i + 1;
    }
    proof {
        assert(at_view.take(at_view.len() as int) =~= at_view);
    }
    let ghost p1 = "{\"at\":["@ + jlist(at_view);
    append_str(v, "],\"title\":");
    append_jstr(v, s.title.as_str());
    let ghost p2 = p1 + "],\"title\":"@ + jstr(s@.title);
    proof {
        assert(v@ =~= t0 + p2);
    }
    append_str(v, ",\"org\":");
    append_jstr(v, s.org.as_str());
    let ghost p3 = p2 + ",\"org\":"@ + jstr(s@.org);
    proof {
        assert(v@ =~= t0 + p3);
    }
    append_str(v, ",\"category\":");
    append_jstr(v, s.category.as_str());
    append_str(v, "}");
    proof {
        assert(v@ =~= t0 + (p3 + ",\"category\":"@ + jstr(s@.category) + "}"@));
        assert(p3 + ",\"category\":"@ + jstr(s@.category) + "}"@ =~= jrec(s@));
    }
}

/// Serialize a record list as a snapshot document.
pub fn encode_snapshot(schedules: &Vec<Schedule>) -> (r: String)
    ensures
        r@ == snapshot_text(scheds_view(schedules@)),
{
    let ghost sv = scheds_view(schedules@);
    let mut out: Vec<char> = Vec::new();
    out.push('[');
    let mut i: usize = 0;
    proof {
        assert(jrecs(sv.take(0)) =~= Seq::<char>::empty());
        assert(out@ =~= seq!['['] + jrecs(sv.take(0)));
    }
    while i < schedules.len()
        invariant
            sv == scheds_view(schedules@),
            sv.len() == schedules@.len(),
            0 <= i <= schedules@.len(),
            out@ == seq!['['] + jrecs(sv.take(i as int)),
        decreases schedules@.len() - i,
    {
        if i > 0 {
            out.push(',');
        }
        append_jrec(&mut out, &schedules[i]);
        proof {
            assert(sv[i as int] == schedules@[i as int]@);
            lemma_jrecs_snoc(sv.take(i as int), sv[i as int]);
            assert(sv.take(i as int).push(sv[i as int]) =~= sv.take(i + 1));
            assert(out@ =~= seq!['['] + jrecs(sv.take(i + 1)));
        }
        i = i + 1;
    }
    out.push(']');
    proof {
        assert(sv.take(sv.len() as int) =~= sv);
        assert(out@ =~= snapshot_text(sv));
    }
    crate::text::chars_to_string(&out)
}

/// Parse a string body, mirroring `p_str`.
fn d_str(v: &Vec<char>, i: usize) -> (r: Option<(Vec<char>, usize)>)
    ensures
        match r {
            Some(p) => p_str(v@, i as int) == Some((p.0@, p.1 as int)),
            None => p_str(v@, i as int) is None,
        },
    decreases v@.len() - i,
{
    if i >= v.len() {
        return None;
    }
    let c = v[i];
    if c == '"' {
        let empty: Vec<char> = Vec::new();
        proof {
            assert(empty@ =~= Seq::<char>::empty());
        }
        return Some((empty, i + 1));
    }
    if c == '\\' {
        if i + 1 >= v.len() {
            return None;
        }
        let e = v[i + 1];
        let dec: Option<char> = if e == '"' {
            Some('"')
        } else if e == '\\' {
            Some('\\')
        } else if e == 'n' {
            Some('\n')
        } else if e == 'r' {
            Some('\r')
        } else if e == 't' {
            Some('\t')
        } else {
            None
        };
        match dec {
            None => None,
            Some(d) => match d_str(v, i + 2) {
                None => None,
                Some((mut s, j)) => {
                    let ghost pre = s@;
                    s.insert(0, d);
                    proof {
                        assert(s@ =~= seq![d] + pre);
                    }
                    Some((s, j))
                },
            },
        }
    } else {
        match d_str(v, i + 1) {
            None => None,
            Some((mut s, j)) => {
                let ghost pre = s@;
                s.insert(0, c);
                proof {
                    assert(s@ =~= seq![c] + pre);
                }
                Some((s, j))
            },
        }
    }
}

/// Parse comma-separated strings, mirroring `p_elems`.
fn d_elems(v: &Vec<char>, i: usize, fuel: usize) -> (r: Option<(Vec<String>, usize)>)
    ensures
        match r {
            Some(p) => p_elems(v@, i as int, fuel as nat) == Some(
                (p.0@.map_values(|s: String| s@), p.1 as int),
            ),
            None => p_elems(v@, i as int, fuel as nat) is None,
        },
    decreases fuel,
{
    if fuel == 0 {
        return None;
    }
    if i >= v.len() {
        return None;
    }
    if v[i] != '"' {
        return None;
    }
    match d_str(v, i + 1) {
        None => None,
        Some((sc, j)) => {
            let s = crate::text::chars_to_string(&sc);
            if j < v.len() && v[j] == ',' {
                match d_elems(v, j + 1, fuel - 1) {
                    None => None,
                    Some((mut ss, k)) => {
                        let ghost pre = ss@;
                        ss.insert(0, s);
                        proof {
                            assert(ss@.map_values(|s: String| s@) =~= seq![sc@]
                                + pre.map_values(|s: String| s@));
                        }
                        Some((ss, k))
                    },
                }
            } else {
                let mut ss: Vec<String> = Vec::new();
                ss.push(s);
                proof {
                    assert(ss@.map_values(|s: String| s@) =~= seq![sc@]);
                }
                Some((ss, j))
            }
        },
    }
}

/// Parse a possibly-empty string list, mirroring `p_strlist`.
fn d_strlist(v: &Vec<char>, i: usize, fuel: usize) -> (r: Option<(Vec<String>, usize)>)
    ensures
        match r {
            Some(p) => p_strlist(v@, i as int, fuel as nat) == Some(
                (p.0@.map_values(|s: String| s@), p.1 as int),
            ),
            None => p_strlist(v@, i as int, fuel as nat) is None,
        },
{
    if i < v.len() && v[i] == '"' {
        d_elems(v, i, fuel)
    } else {
        let empty: Vec<String> = Vec::new();
        proof {
            assert(empty@.map_values(|s: String| s@) =~= Seq::<Seq<char>>::empty());
        }
        Some((empty, i))
    }
}

/// Whether the literal occurs at a position, mirroring `lit_at`.
fn lit_check(v: &Vec<char>, i: usize, lit: &str) -> (r: bool)
    ensures
        r == lit_at(v@, i as int, lit@),
{
    let l = lit.unicode_len();
    if i > v.len() || l > v.len() - i {
        return false;
    }
    let mut k: usize = 0;
    while k < l
        invariant
            l == lit@.len(),
            i + l <= v@.len(),
            v@.len() <= usize::MAX,
            0 <= k <= l,
            forall|t: int| 0 <= t < k ==> v@[i + t] == lit@[t],
        decreases l - k,
    {
        if v[i + k] != lit.get_char(k) {
            proof {
                if lit_at(v@, i as int, lit@) {
                    assert(v@.subrange(i as int, i + l)[k as int] == lit@[k as int]);
                }
            }
            return false;
        }
        k = k + 1;
    }
    proof {
        assert(v@.subrange(i as int, i + l) =~= lit@);
    }
    true
}

/// Parse a field, mirroring `p_field`.
fn d_field(v: &Vec<char>, j: usize, lit: &str) -> (r: Option<(Vec<char>, usize)>)
    ensures
        match r {
            Some(p) => p_field(v@, j as int, lit@) == Some((p.0@, p.1 as int)),
            None => p_field(v@, j as int, lit@) is None,
        },
{
    if !lit_check(v, j, lit) {
        return None;
    }
    let l = lit.unicode_len();
    let n = v.len();
    proof {
        assert(j + l <= n);
    }
    if j + l < n && v[j + l] == '"' {
        d_str(v, j + l + 1)
    } else {
        None
    }
}

/// Parse one record object, mirroring `p_rec`.
fn d_rec(v: &Vec<char>, i: usize, fuel: usize) -> (r: Option<(Schedule, usize)>)
    ensures
        match r {
            Some(p) => p_rec(v@, i as int, fuel as nat) == Some((p.0@, p.1 as int)),
            None => p_rec(v@, i as int, fuel as nat) is None,
        },
{
    if !lit_check(v, i, "{\"at\":[") {
        return None;
    }
    let h = "{\"at\":[".unicode_len();
    let n = v.len();
    proof {
        assert(i + h <= n);
    }
    let (at, j) = match d_strlist(v, i + h, fuel) {
        None => {
            return None;
        },
        Some(p) => p,
    };
    let (title, k) = match d_field(v, j, "],\"title\":") {
        None => {
            return None;
        },
        Some(p) => p,
    };
    let (org, l) = match d_field(v, k, ",\"org\":") {
        None => {
            return None;
        },
        Some(p) => p,
    };
    let (cat, m) = match d_field(v, l, ",\"category\":") {
        None => {
            return None;
        },
        Some(p) => p,
    };
    if m < v.len() && v[m] == '}' {
        let rec = Schedule {
            at,
            title: crate::text::chars_to_string(&title),
            org: crate::text::chars_to_string(&org),
            category: crate::text::chars_to_string(&cat),
        };
        Some((rec, m + 1))
    } else {
        None
    }
}

/// Parse comma-separated records, mirroring `p_recelems`.
fn d_recelems(v: &Vec<char>, i: usize, fuel: usize) -> (r: Option<(Vec<Schedule>, usize)>)
    ensures
        match r {
            Some(p) => p_recelems(v@, i as int, fuel as nat) == Some(
                (scheds_view(p.0@), p.1 as int),
            ),
            None => p_recelems(v@, i as int, fuel as nat) is None,
        },
    decreases fuel,
{
    if fuel == 0 {
        return None;
    }
    match d_rec(v, i, fuel) {
        None => None,
        Some((rec, j)) => {
            if j < v.len() && v[j] == ',' {
                match d_recelems(v, j + 1, fuel - 1) {
                    None => None,
                    Some((mut rs, k)) => {
                        let ghost pre = rs@;
                        let ghost recv = rec@;
                        rs.insert(0, rec);
                        proof {
                            assert(scheds_view(rs@) =~= seq![recv] + scheds_view(pre));
                        }
                        Some((rs, k))
                    },
                }
            } else {
                let ghost recv = rec@;
                let mut rs: Vec<Schedule> = Vec::new();
                rs.push(rec);
                proof {
                    assert(scheds_view(rs@) =~= seq![recv]);
                }
                Some((rs, j))
            }
        },
    }
}

/// A window of a concatenation splits into windows of its parts.
proof fn lemma_window(v: Seq<char>, i: int, a: Seq<char>, b: Seq<char>)
    requires
        0 <= i,
        i + a.len() + b.len() <= v.len(),
        v.subrange(i, i + a.len() + b.len()) == a + b,
    ensures
        v.subrange(i, i + a.len()) == a,
        v.subrange(i + a.len(), i + a.len() + b.len()) == b,
{
    let w = v.subrange(i, i + a.len() + b.len());
    assert forall|k: int| 0 <= k < a.len() + b.len() implies v[i + k] == (a + b)[k] by {
        assert(w[k] == v[i + k]);
    }
    assert(v.subrange(i, i + a.len()) =~= a);
    assert forall|k: int|
        0 <= k < b.len() implies v.subrange(i + a.len(), i + a.len() + b.len())[k] == b[k] by {
        assert(v[i + (a.len() + k)] == (a + b)[a.len() + k]);
        assert(v.subrange(i + a.len(), i + a.len() + b.len())[k] == v[i + a.len() + k]);
    }
    assert(v.subrange(i + a.len(), i + a.len() + b.len()) =~= b);
}

/// Parsing inverts escaping: the escaped body followed by a closing quote
/// parses back to the original string.
proof fn lemma_pstr_inv(v: Seq<char>, i: int, s: Seq<char>)
    requires
        0 <= i,
        i + jesc(s).len() + 1 <= v.len(),
        v.subrange(i, i + jesc(s).len() + 1) == jesc(s) + seq!['"'],
    ensures
        p_str(v, i) == Some((s, i + jesc(s).len() + 1)),
    decreases s.len(),
{
    let e = jesc(s);
    let w = v.subrange(i, i + e.len() + 1);
    assert forall|k: int| 0 <= k < e.len() + 1 implies v[i + k] == (e + seq!['"'])[k] by {
        assert(w[k] == v[i + k]);
    }
    if s.len() == 0 {
        assert(e =~= Seq::<char>::empty());
        assert(v[i + 0] == (e + seq!['"'])[0]);
        assert(v[i] == '"');
    } else {
        let c = s[0];
        let s2 = s.drop_first();
        let e2 = jesc(s2);
        assert(e == jesc_char(c) + e2);
        let cw = jesc_char(c).len();
        assert(e + seq!['"'] =~= jesc_char(c) + (e2 + seq!['"']));
        assert(v.subrange(i + cw, i + e.len() + 1) =~= e2 + seq!['"']) by {
            assert forall|k: int| 0 <= k < e2.len() + 1 implies v.subrange(
                i + cw,
                i + e.len() + 1,
            )[k] == (e2 + seq!['"'])[k] by {
                assert(v.subrange(i + cw, i + e.len() + 1)[k] == v[i + cw + k]);
                assert(v[i + cw + k] == (e + seq!['"'])[cw + k]);
                assert((jesc_char(c) + (e2 + seq!['"']))[cw + k] == (e2 + seq!['"'])[k]);
            }
        }
        lemma_pstr_inv(v, i + cw, s2);
        assert(seq![c] + s2 =~= s);
        assert(v[i + 0] == (e + seq!['"'])[0]);
        if c == '"' || c == '\\' || c == '\n' || c == '\r' || c == '\t' {
            assert(jesc_char(c).len() == 2);
            assert(v[i] == jesc_char(c)[0]);
            assert(v[i] == '\\');
            assert(v[i + 1] == (e + seq!['"'])[1]);
            assert(v[i + 1] == jesc_char(c)[1]);
            assert(unesc_short(v[i + 1]) == Some(c));
            assert(p_str(v, i) == Some((s, i + e.len() + 1)));
        } else {
            assert(jesc_char(c) =~= seq![c]);
            assert(v[i] == c);
            assert(p_str(v, i) == Some((s, i + e.len() + 1)));
        }
    }
}

/// Parsing inverts the string-list text, for any position where the text
/// is not followed by a comma.
proof fn lemma_pelems_inv(v: Seq<char>, i: int, items: Seq<Seq<char>>, fuel: nat)
    requires
        items.len() >= 1,
        fuel >= items.len(),
        0 <= i,
        i + jlist(items).len() <= v.len(),
        v.subrange(i, i + jlist(items).len()) == jlist(items),
        i + jlist(items).len() == v.len() || v[i + jlist(items).len()] != ',',
    ensures
        p_elems(v, i, fuel) == Some((items, i + jlist(items).len())),
    decreases items.len(),
{
    let s0 = items[0];
    let l = jlist(items);
    let w = v.subrange(i, i + l.len());
    assert forall|k: int| 0 <= k < l.len() implies v[i + k] == l[k] by {
        assert(w[k] == v[i + k]);
    }
    if items.len() == 1 {
        assert(l == jstr(s0));
        assert(l =~= seq!['"'] + (jesc(s0) + seq!['"']));
        assert(v[i + 0] == l[0]);
        assert(v[i] == '"');
        assert(v.subrange(i + 1, i + l.len()) =~= jesc(s0) + seq!['"']) by {
            assert forall|k: int| 0 <= k < l.len() - 1 implies v.subrange(i + 1, i + l.len())[k]
                == (jesc(s0) + seq!['"'])[k] by {
                assert(v.subrange(i + 1, i + l.len())[k] == v[i + 1 + k]);
                assert(v[i + 1 + k] == l[1 + k]);
                assert((seq!['"'] + (jesc(s0) + seq!['"']))[1 + k] == (jesc(s0) + seq!['"'])[k]);
            }
        }
        lemma_pstr_inv(v, i + 1, s0);
        assert(seq![s0] =~= items);
        assert(p_elems(v, i, fuel) == Some((items, i + l.len())));
    } else {
        let rest = items.drop_first();
        assert(l == jstr(s0) + seq![','] + jlist(rest));
        let a = jstr(s0);
        let b = seq![','] + jlist(rest);
        assert(l =~= a + b);
        lemma_window(v, i, a, b);
        assert(a =~= seq!['"'] + (jesc(s0) + seq!['"']));
        assert(v[i + 0] == l[0]);
        assert(v[i] == '"');
        assert(v.subrange(i + 1, i + a.len()) =~= jesc(s0) + seq!['"']) by {
            assert forall|k: int| 0 <= k < a.len() - 1 implies v.subrange(i + 1, i + a.len())[k]
                == (jesc(s0) + seq!['"'])[k] by {
                assert(v.subrange(i + 1, i + a.len())[k] == v[i + 1 + k]);
                assert(v[i + 1 + k] == l[1 + k]);
                assert((a + b)[1 + k] == a[1 + k]);
                assert((seq!['"'] + (jesc(s0) + seq!['"']))[1 + k] == (jesc(s0) + seq!['"'])[k]);
            }
        }
        lemma_pstr_inv(v, i + 1, s0);
        let j = i + a.len();
        assert(v[j] == l[a.len() as int]);
        assert((a + b)[a.len() as int] == b[0]);
        assert(v[j] == ',');
        assert(v.subrange(j + 1, i + l.len()) =~= jlist(rest)) by {
            assert forall|k: int| 0 <= k < jlist(rest).len() implies v.subrange(
                j + 1,
                i + l.len(),
            )[k] == jlist(rest)[k] by {
                assert(v.subrange(j + 1, i + l.len())[k] == v[j + 1 + k]);
                assert(v[j + 1 + k] == l[a.len() + 1 + k]);
                assert((a + b)[a.len() + 1 + k] == b[1 + k]);
                assert((seq![','] + jlist(rest))[1 + k] == jlist(rest)[k]);
            }
        }
        lemma_pelems_inv(v, j + 1, rest, (fuel - 1) as nat);
        assert(seq![s0] + rest =~= items);
        assert(p_elems(v, i, fuel) == Some((items, i + l.len())));
    }
}

/// Parsing inverts the possibly-empty string-list text.
proof fn lemma_pstrlist_inv(v: Seq<char>, i: int, items: Seq<Seq<char>>, fuel: nat)
    requires
        fuel >= items.len(),
        0 <= i,
        i + jlist(items).len() <= v.len(),
        v.subrange(i, i + jlist(items).len()) == jlist(items),
        i + jlist(items).len() == v.len() || v[i + jlist(items).len()] != ',',
        items.len() == 0 ==> (i >= v.len() || v[i] != '"'),
    ensures
        p_strlist(v, i, fuel) == Some((items, i + jlist(items).len())),
{
    if items.len() == 0 {
        assert(jlist(items).len() == 0);
    } else {
        let l = jlist(items);
        let w = v.subrange(i, i + l.len());
        assert(v[i] == w[0]);
        if items.len() == 1 {
            assert(l == jstr(items[0]));
            assert(l[0] == '"');
        } else {
            assert(l == jstr(items[0]) + seq![','] + jlist(items.drop_first()));
            assert(l[0] == '"');
        }
        lemma_pelems_inv(v, i, items, fuel);
    }
}

/// Peel the opening quote off a quoted string window and parse the body.
proof fn lemma_jstr_at(v: Seq<char>, o: int, s: Seq<char>)
    requires
        0 <= o,
        o + jstr(s).len() <= v.len(),
        v.subrange(o, o + jstr(s).len()) == jstr(s),
    ensures
        v[o] == '"',
        p_str(v, o + 1) == Some((s, o + jstr(s).len())),
{
    let body = jesc(s) + seq!['"'];
    assert(jstr(s) =~= seq!['"'] + body);
    lemma_window(v, o, seq!['"'], body);
    assert(v.subrange(o, o + 1)[0] == v[o + 0]);
    lemma_pstr_inv(v, o + 1, s);
}

/// Parsing inverts the record text.
proof fn lemma_prec_inv(v: Seq<char>, i: int, r: SchedView, fuel: nat)
    requires
        fuel >= r.at.len(),
        0 <= i,
        i + jrec(r).len() <= v.len(),
        v.subrange(i, i + jrec(r).len()) == jrec(r),
    ensures
        p_rec(v, i, fuel) == Some((r, i + jrec(r).len())),
{
    let lh = "{\"at\":["@;
    let lt = "],\"title\":"@;
    let lo = ",\"org\":"@;
    let lc = ",\"category\":"@;
    reveal_strlit("],\"title\":");
    reveal_strlit(",\"org\":");
    reveal_strlit(",\"category\":");
    reveal_strlit("}");
    let x1 = lh;
    let x2 = x1 + jlist(r.at);
    let x3 = x2 + lt;
    let x4 = x3 + jstr(r.title);
    let x5 = x4 + lo;
    let x6 = x5 + jstr(r.org);
    let x7 = x6 + lc;
    let x8 = x7 + jstr(r.category);
    assert(jrec(r) == x8 + "}"@);
    lemma_window(v, i, x8, "}"@);
    lemma_window(v, i, x7, jstr(r.category));
    lemma_window(v, i, x6, lc);
    lemma_window(v, i, x5, jstr(r.org));
    lemma_window(v, i, x4, lo);
    lemma_window(v, i, x3, jstr(r.title));
    lemma_window(v, i, x2, lt);
    lemma_window(v, i, x1, jlist(r.at));
    let o1 = i + lh.len() as int;
    let o2 = o1 + jlist(r.at).len() as int;
    let o3 = o2 + lt.len() as int;
    let o4 = o3 + jstr(r.title).len() as int;
    let o5 = o4 + lo.len() as int;
    let o6 = o5 + jstr(r.org).len() as int;
    let o7 = o6 + lc.len() as int;
    let o8 = o7 + jstr(r.category).len() as int;
    assert(lit_at(v, i, lh));
    assert(v.subrange(o2, o3)[0] == v[o2 + 0]);
    assert(v[o2] == ']');
    lemma_pstrlist_inv(v, o1, r.at, fuel);
    assert(p_strlist(v, o1, fuel) == Some((r.at, o2)));
    assert(lit_at(v, o2, lt));
    lemma_jstr_at(v, o3, r.title);
    assert(p_field(v, o2, lt) == Some((r.title, o4)));
    assert(lit_at(v, o4, lo));
    lemma_jstr_at(v, o5, r.org);
    assert(p_field(v, o4, lo) == Some((r.org, o6)));
    assert(lit_at(v, o6, lc));
    lemma_jstr_at(v, o7, r.category);
    assert(p_field(v, o6, lc) == Some((r.category, o8)));
    assert(v.subrange(o8, o8 + 1)[0] == v[o8 + 0]);
    assert(v[o8] == '}');
    assert(o8 + 1 == i + jrec(r).len());
    assert(SchedView { at: r.at, title: r.title, org: r.org, category: r.category } == r);
    assert(p_rec(v, i, fuel) == Some((r, i + jrec(r).len())));
}

/// The fuel a record list's parse can consume.
pub open spec fn snapshot_fuel(rs: Seq<SchedView>) -> int
    decreases rs.len(),
{
    if rs.len() == 0 {
        0
    } else {
        rs[0].at.len() + 1 + snapshot_fuel(rs.drop_first())
    }
}

proof fn lemma_jlist_len(items: Seq<Seq<char>>)
    ensures
        jlist(items).len() >= items.len(),
    decreases items.len(),
{
    if items.len() > 1 {
        lemma_jlist_len(items.drop_first());
    }
}

proof fn lemma_jrec_len(r: SchedView)
    ensures
        jrec(r).len() >= r.at.len() + 1,
{
    lemma_jlist_len(r.at);
}

proof fn lemma_snapshot_fuel_nonneg(rs: Seq<SchedView>)
    ensures
        snapshot_fuel(rs) >= 0,
    decreases rs.len(),
{
    if rs.len() > 0 {
        lemma_snapshot_fuel_nonneg(rs.drop_first());
    }
}

proof fn lemma_jrecs_len(rs: Seq<SchedView>)
    ensures
        jrecs(rs).len() >= snapshot_fuel(rs),
    decreases rs.len(),
{
    if rs.len() == 1 {
        lemma_jrec_len(rs[0]);
        assert(snapshot_fuel(rs.drop_first()) == 0);
    } else if rs.len() > 1 {
        lemma_jrec_len(rs[0]);
        lemma_jrecs_len(rs.drop_first());
    }
}

/// Parsing inverts the record-list text, for any position where the text
/// is not followed by a comma.
proof fn lemma_precelems_inv(v: Seq<char>, i: int, rs: Seq<SchedView>, fuel: nat)
    requires
        rs.len() >= 1,
        fuel >= snapshot_fuel(rs),
        0 <= i,
        i + jrecs(rs).len() <= v.len(),
        v.subrange(i, i + jrecs(rs).len()) == jrecs(rs),
        i + jrecs(rs).len() == v.len() || v[i + jrecs(rs).len()] != ',',
    ensures
        p_recelems(v, i, fuel) == Some((rs, i + jrecs(rs).len())),
    decreases rs.len(),
{
    let r0 = rs[0];
    let l = jrecs(rs);
    lemma_snapshot_fuel_nonneg(rs.drop_first());
    assert(fuel >= r0.at.len() + 1);
    if rs.len() == 1 {
        assert(l == jrec(r0));
        lemma_prec_inv(v, i, r0, fuel);
        assert(seq![r0] =~= rs);
        assert(p_recelems(v, i, fuel) == Some((rs, i + l.len())));
    } else {
        let rest = rs.drop_first();
        assert(l == jrec(r0) + seq![','] + jrecs(rest));
        let a = jrec(r0);
        let b = seq![','] + jrecs(rest);
        assert(l =~= a + b);
        lemma_window(v, i, a, b);
        lemma_prec_inv(v, i, r0, fuel);
        let j = i + a.len() as int;
        assert(v.subrange(j, i + l.len() as int)[0] == v[j + 0]);
        assert(v[j] == ',');
        lemma_window(v, j, seq![','], jrecs(rest));
        lemma_precelems_inv(v, j + 1, rest, (fuel - 1) as nat);
        assert(seq![r0] + rest =~= rs);
        assert(p_recelems(v, i, fuel) == Some((rs, i + l.len())));
    }
}

/// Law: reading back a written snapshot reproduces the same records, in
/// the same order, with the same dates, titles, organizations and
/// categories.
pub proof fn lemma_snapshot_roundtrip(rs: Seq<SchedView>)
    ensures
        parse_snapshot(snapshot_text(rs)) == Some(rs),
{
    let v = snapshot_text(rs);
    let body = jrecs(rs);
    assert(v == (seq!['['] + body) + seq![']']);
    assert(v.subrange(0, v.len() as int) =~= v);
    lemma_window(v, 0, seq!['['] + body, seq![']']);
    lemma_window(v, 0, seq!['['], body);
    assert(v.subrange(0, 1)[0] == v[0int + 0]);
    assert(v[0] == '[');
    let e = 1 + body.len() as int;
    assert(v.subrange(e, e + 1)[0] == v[e + 0]);
    assert(v[e] == ']');
    if rs.len() == 0 {
        assert(body =~= Seq::<char>::empty());
        assert(v.len() == 2);
        assert(parse_snapshot(v) == Some(rs));
    } else {
        reveal_strlit("{\"at\":[");
        assert(body[0] == jrec(rs[0])[0]) by {
            if rs.len() == 1 {
            } else {
                assert(body == jrec(rs[0]) + seq![','] + jrecs(rs.drop_first()));
                lemma_jrec_len(rs[0]);
            }
        }
        assert(jrec(rs[0])[0] == '{') by {
            let lh = "{\"at\":["@;
            assert(jrec(rs[0])[0] == lh[0]);
        }
        assert(v.subrange(1, e)[0] == v[1int + 0]);
        assert(v[1] == '{');
        lemma_jrecs_len(rs);
        lemma_precelems_inv(v, 1, rs, v.len() as nat);
        assert(p_recelems(v, 1, v.len() as nat) == Some((rs, e)));
        assert(parse_snapshot(v) == Some(rs));
    }
}

/// Read a snapshot document back into its record list; any text that is
/// not exactly one array of records is rejected.
pub fn decode_snapshot(json: &str) -> (r: Option<Vec<Schedule>>)
    ensures
        match r {
            Some(rs) => parse_snapshot(json@) == Some(scheds_view(rs@)),
            None => parse_snapshot(json@) is None,
        },
{
    let v = crate::text::str_chars(json);
    let n = v.len();
    if n < 1 || v[0] != '[' {
        return None;
    }
    let (rs, j) = if 1 < n && v[1] == '{' {
        match d_recelems(&v, 1, n) {
            None => {
                return None;
            },
            Some(p) => p,
        }
    } else {
        let empty: Vec<Schedule> = Vec::new();
        proof {
            assert(scheds_view(empty@) =~= Seq::<SchedView>::empty());
        }
        (empty, 1)
    };
    if j < n && v[j] == ']' && j + 1 == n {
        Some(rs)
    } else {
        None
    }
}

} // verus!
