use vstd::prelude::*;

use crate::text::{chars_to_string, str_chars, trim, trim_spec};

verus! {

/// Every period replaced by a dash; all other characters kept.
pub open spec fn dot_to_dash(s: Seq<char>) -> Seq<char> {
    s.map_values(|c: char| if c == '.' { '-' } else { c })
}

/// One trailing period stripped, if present.
pub open spec fn strip_last_dot(s: Seq<char>) -> Seq<char> {
    if s.len() > 0 && s.last() == '.' {
        s.drop_last()
    } else {
        s
    }
}

/// The canonical form of an institution-local date string: surrounding
/// whitespace trimmed, a trailing period stripped, every period replaced by
/// a dash. Strictly character substitution — no numeric validation; a
/// malformed input yields a malformed output string, never an error.
pub open spec fn normalize_date(s: Seq<char>) -> Seq<char> {
    dot_to_dash(strip_last_dot(trim_spec(s)))
}

/// Canonicalize a dot-separated date string.
pub fn parse_date(date_str: &str) -> (r: String)
    ensures
        r@ == normalize_date(date_str@),
{
    let t = trim(date_str);
    let chars = str_chars(t.as_str());
    let mut keep = chars.len();
    if keep > 0 && chars[keep - 1] == '.' {
        keep = keep - 1;
    }
    proof {
        assert(chars@.take(keep as int) =~= strip_last_dot(t@));
    }
    let mut out: Vec<char> = Vec::new();
    let mut i: usize = 0;
    while i < keep
        invariant
            0 <= i <= keep <= chars@.len(),
            out@.len() == i,
            forall|k: int|
                0 <= k < i ==> out@[k] == (if chars@[k] == '.' {
                    '-'
                } else {
                    chars@[k]
                }),
        decreases keep - i,
    {
        let c = chars[i];
        if c == '.' {
            out.push('-');
        } else {
            out.push(c);
        }
        i = i + 1;
    }
    proof {
        assert(out@ =~= dot_to_dash(chars@.take(keep as int)));
    }
    chars_to_string(&out)
}

/// A calendar date of the proleptic Gregorian calendar, held as plain
/// year, month and day numbers.
#[derive(Clone, Copy, Debug, PartialEq, Eq, Structural)]
pub struct CalDate {
    pub year: u32,
    pub month: u32,
    pub day: u32,
}

pub open spec fn is_leap(y: int) -> bool {
    y % 4 == 0 && (y % 100 != 0 || y % 400 == 0)
}

pub open spec fn days_in_month(y: int, m: int) -> int {
    if m == 1 || m == 3 || m == 5 || m == 7 || m == 8 || m == 10 || m == 12 {
        31
    } else if m == 4 || m == 6 || m == 9 || m == 11 {
        30
    } else if m == 2 {
        if is_leap(y) {
            29
        } else {
            28
        }
    } else {
        0
    }
}

/// A well-formed date: a four-digit year and a real month/day pair.
pub open spec fn date_wf(y: int, m: int, d: int) -> bool {
    0 <= y <= 9999 && 1 <= m <= 12 && 1 <= d <= days_in_month(y, m)
}

impl CalDate {
    pub open spec fn wf(self) -> bool {
        date_wf(self.year as int, self.month as int, self.day as int)
    }
}

pub open spec fn is_digit(c: char) -> bool {
    '0' <= c && c <= '9'
}

pub open spec fn all_digits(s: Seq<char>) -> bool {
    forall|k: int| 0 <= k < s.len() ==> is_digit(#[trigger] s[k])
}

/// The number a digit string denotes.
pub open spec fn digits_val(s: Seq<char>) -> int
    decreases s.len(),
{
    if s.len() == 0 {
        0
    } else {
        digits_val(s.drop_last()) * 10 + (s.last() as int - 48)
    }
}

/// The first position of `c` at or after `from`, or -1.
pub open spec fn find_ch(s: Seq<char>, c: char, from: int) -> int
    decreases s.len() - from,
{
    if from < 0 || from >= s.len() {
        -1
    } else if s[from] == c {
        from
    } else {
        find_ch(s, c, from + 1)
    }
}

/// The year, month and day fields read from a dash-separated date string:
/// exactly three non-empty all-digit parts, the year of at most four
/// digits, month and day of at most two. No calendar validation here.
pub open spec fn spec_parse_ymd(s: Seq<char>) -> Option<(int, int, int)> {
    let i1 = find_ch(s, '-', 0);
    let i2 = find_ch(s, '-', i1 + 1);
    if i1 < 0 || i2 < 0 || find_ch(s, '-', i2 + 1) >= 0 {
        None
    } else {
        let ys = s.subrange(0, i1);
        let ms = s.subrange(i1 + 1, i2);
        let ds = s.subrange(i2 + 1, s.len() as int);
        if 1 <= ys.len() <= 4 && 1 <= ms.len() <= 2 && 1 <= ds.len() <= 2 && all_digits(ys)
            && all_digits(ms) && all_digits(ds) {
            Some((digits_val(ys), digits_val(ms), digits_val(ds)))
        } else {
            None
        }
    }
}

/// The date a canonical string denotes, when its fields form a well-formed
/// calendar date.
pub open spec fn spec_date_of(s: Seq<char>) -> Option<CalDate> {
    match spec_parse_ymd(s) {
        Some((y, m, d)) => if date_wf(y, m, d) {
            Some(CalDate { year: y as u32, month: m as u32, day: d as u32 })
        } else {
            None
        },
        None => None,
    }
}

proof fn lemma_digits_val_bound(s: Seq<char>)
    requires
        all_digits(s),
    ensures
        0 <= digits_val(s),
        s.len() == 0 ==> digits_val(s) == 0,
        s.len() <= 1 ==> digits_val(s) <= 9,
        s.len() <= 2 ==> digits_val(s) <= 99,
        s.len() <= 3 ==> digits_val(s) <= 999,
        s.len() <= 4 ==> digits_val(s) <= 9999,
    decreases s.len(),
{
    if s.len() > 0 {
        assert(all_digits(s.drop_last())) by {
            assert(forall|k: int|
                0 <= k < s.len() - 1 ==> s.drop_last()[k] == #[trigger] s[k]);
        }
        lemma_digits_val_bound(s.drop_last());
        assert(is_digit(s.last()));
        assert(48 <= s.last() as int <= 57);
    }
}

/// The first position of `c` at or after `from` in a character vector.
pub fn find_char_from(v: &Vec<char>, c: char, from: usize) -> (r: Option<usize>)
    ensures
        match r {
            Some(i) => from <= i && i < v@.len() && find_ch(v@, c, from as int) == i,
            None => find_ch(v@, c, from as int) == -1,
        },
{
    let mut i = from;
    while i < v.len()
        invariant
            from <= i,
            i <= v@.len() || from > v@.len(),
            find_ch(v@, c, from as int) == find_ch(v@, c, i as int),
            forall|k: int| from <= k < i ==> v@[k] != c,
        decreases v@.len() - i,
    {
        if v[i] == c {
            return Some(i);
        }
        i = i + 1;
    }
    None
}

/// The number a short all-digit segment `v[lo..hi]` denotes.
fn digits_value(v: &Vec<char>, lo: usize, hi: usize) -> (r: Option<u32>)
    requires
        lo <= hi <= v@.len(),
        hi - lo <= 4,
    ensures
        match r {
            Some(n) => all_digits(v@.subrange(lo as int, hi as int)) && n == digits_val(
                v@.subrange(lo as int, hi as int),
            ),
            None => !all_digits(v@.subrange(lo as int, hi as int)),
        },
{
    let ghost seg = v@.subrange(lo as int, hi as int);
    let mut n: u32 = 0;
    let mut i = lo;
    while i < hi
        invariant
            lo <= i <= hi <= v@.len(),
            hi - lo <= 4,
            seg == v@.subrange(lo as int, hi as int),
            all_digits(seg.take(i - lo)),
            n == digits_val(seg.take(i - lo)),
            n <= 9999,
        decreases hi - i,
    {
        let c = v[i];
        if !('0' <= c && c <= '9') {
            proof {
                assert(seg[i - lo] == c);
                assert(!is_digit(seg[i - lo]));
            }
            return None;
        }
        proof {
            lemma_digits_val_bound(seg.take(i - lo));
            assert(seg.take(i - lo + 1).drop_last() =~= seg.take(i - lo));
            assert(seg.take(i - lo + 1).last() == c);
            lemma_digits_val_bound(seg.take(i - lo + 1));
            assert(seg.take(i - lo + 1).len() <= 4);
        }
        n = n * 10 + ((c as u32) - 48);
        i = i + 1;
    }
    proof {
        assert(seg.take(hi - lo) =~= seg);
    }
    Some(n)
}

/// Read a canonical `year-month-day` string into a date, accepting exactly
/// the strings whose fields form a well-formed calendar date.
pub fn parse_iso_date(s: &str) -> (r: Option<CalDate>)
    ensures
        r == spec_date_of(s@),
{
    let v = str_chars(s);
    let n = v.len();
    let i1 = match find_char_from(&v, '-', 0) {
        Some(i) => i,
        None => {
            return None;
        },
    };
    proof {
        assert(i1 < n);
    }
    let i2 = match find_char_from(&v, '-', i1 + 1) {
        Some(i) => i,
        None => {
            return None;
        },
    };
    proof {
        assert(i2 < n);
    }
    match find_char_from(&v, '-', i2 + 1) {
        Some(_) => {
            return None;
        },
        None => {},
    }
    proof {
        assert(0 <= i1 < v@.len());
        assert(i1 < i2 < v@.len());
    }
    let ylen = i1;
    let mlen = i2 - (i1 + 1);
    let dlen = v.len() - (i2 + 1);
    if !(1 <= ylen && ylen <= 4 && 1 <= mlen && mlen <= 2 && 1 <= dlen && dlen <= 2) {
        return None;
    }
    let y = match digits_value(&v, 0, i1) {
        Some(n) => n,
        None => {
            return None;
        },
    };
    let m = match digits_value(&v, i1 + 1, i2) {
        Some(n) => n,
        None => {
            return None;
        },
    };
    let d = match digits_value(&v, i2 + 1, v.len()) {
        Some(n) => n,
        None => {
            return None;
        },
    };
    proof {
        assert(v@.subrange(i2 + 1, v@.len() as int) == v@.subrange(i2 + 1, v@.len() as int));
        assert(spec_parse_ymd(s@) == Some((y as int, m as int, d as int)));
    }
    let leap = (y % 4 == 0) && (y % 100 != 0 || y % 400 == 0);
    let dim: u32 = if m == 1 || m == 3 || m == 5 || m == 7 || m == 8 || m == 10 || m == 12 {
        31
    } else if m == 4 || m == 6 || m == 9 || m == 11 {
        30
    } else if m == 2 {
        if leap {
            29
        } else {
            28
        }
    } else {
        0
    };
    proof {
        lemma_digits_val_bound(v@.subrange(0, i1 as int));
        assert(y <= 9999);
        assert(is_leap(y as int) == leap);
        assert(days_in_month(y as int, m as int) == dim as int);
    }
    if 1 <= m && m <= 12 && 1 <= d && d <= dim {
        Some(CalDate { year: y, month: m, day: d })
    } else {
        None
    }
}

/// The digit character of a value below ten.
pub open spec fn digit_of(x: int) -> char {
    if x == 0 {
        '0'
    } else if x == 1 {
        '1'
    } else if x == 2 {
        '2'
    } else if x == 3 {
        '3'
    } else if x == 4 {
        '4'
    } else if x == 5 {
        '5'
    } else if x == 6 {
        '6'
    } else if x == 7 {
        '7'
    } else if x == 8 {
        '8'
    } else {
        '9'
    }
}

fn digit_char(x: u32) -> (r: char)
    requires
        x < 10,
    ensures
        r == digit_of(x as int),
{
    if x == 0 {
        '0'
    } else if x == 1 {
        '1'
    } else if x == 2 {
        '2'
    } else if x == 3 {
        '3'
    } else if x == 4 {
        '4'
    } else if x == 5 {
        '5'
    } else if x == 6 {
        '6'
    } else if x == 7 {
        '7'
    } else if x == 8 {
        '8'
    } else {
        '9'
    }
}

/// A date as the eight digits `yyyymmdd`, zero-padded.
pub open spec fn yyyymmdd(d: CalDate) -> Seq<char> {
    seq![
        digit_of(d.year as int / 1000 % 10),
        digit_of(d.year as int / 100 % 10),
        digit_of(d.year as int / 10 % 10),
        digit_of(d.year as int % 10),
        digit_of(d.month as int / 10 % 10),
        digit_of(d.month as int % 10),
        digit_of(d.day as int / 10 % 10),
        digit_of(d.day as int % 10),
    ]
}

/// Format a date as its eight zero-padded digits.
pub fn format_yyyymmdd(d: &CalDate) -> (r: Vec<char>)
    requires
        d.wf(),
    ensures
        r@ == yyyymmdd(*d),
{
    let mut out: Vec<char> = Vec::new();
    out.push(digit_char(d.year / 1000 % 10));
    out.push(digit_char(d.year / 100 % 10));
    out.push(digit_char(d.year / 10 % 10));
    out.push(digit_char(d.year % 10));
    out.push(digit_char(d.month / 10 % 10));
    out.push(digit_char(d.month % 10));
    out.push(digit_char(d.day / 10 % 10));
    out.push(digit_char(d.day % 10));
    proof {
        assert(out@ =~= yyyymmdd(*d));
    }
    out
}

/// A non-negative number as its decimal digits.
pub open spec fn dec_str(n: int) -> Seq<char>
    decreases n,
{
    if n < 0 {
        Seq::empty()
    } else if n < 10 {
        seq![digit_of(n)]
    } else {
        dec_str(n / 10).push(digit_of(n % 10))
    }
}

/// An integer as decimal text, with a leading minus sign when negative.
pub open spec fn int_str(n: int) -> Seq<char> {
    if n < 0 {
        seq!['-'] + dec_str(-n)
    } else {
        dec_str(n)
    }
}

/// The decimal digits of a non-negative number.
fn dec_chars(n0: u64) -> (r: Vec<char>)
    ensures
        r@ == dec_str(n0 as int),
{
    let mut acc: Vec<char> = Vec::new();
    let mut cur = n0;
    while cur >= 10
        invariant
            dec_str(n0 as int) =~= dec_str(cur as int) + acc@.reverse(),
        decreases cur,
    {
        let ghost pre = acc@;
        acc.push(digit_char((cur % 10) as u32));
        proof {
            assert(acc@.reverse() =~= seq![digit_of(cur as int % 10)] + pre.reverse());
            assert(dec_str(cur as int) == dec_str(cur as int / 10).push(
                digit_of(cur as int % 10),
            ));
            assert(dec_str(cur as int / 10) + acc@.reverse() =~= dec_str(cur as int)
                + pre.reverse());
        }
        cur = cur / 10;
    }
    let ghost pre = acc@;
    acc.push(digit_char((cur % 10) as u32));
    proof {
        assert(cur % 10 == cur as int);
        assert(acc@.reverse() =~= seq![digit_of(cur as int)] + pre.reverse());
        assert(dec_str(cur as int) + pre.reverse() =~= acc@.reverse());
    }
    let mut out: Vec<char> = Vec::new();
    let mut i = acc.len();
    while i > 0
        invariant
            0 <= i <= acc@.len(),
            out@ =~= acc@.subrange(i as int, acc@.len() as int).reverse(),
        decreases i,
    {
        let ghost preo = out@;
        i = i - 1;
        out.push(acc[i]);
        proof {
            assert(out@ =~= acc@.subrange(i as int, acc@.len() as int).reverse());
        }
    }
    proof {
        assert(acc@.subrange(0, acc@.len() as int) =~= acc@);
    }
    out
}

/// An unsigned integer as decimal text.
pub fn int_chars_u32(n: u32) -> (r: Vec<char>)
    ensures
        r@ == int_str(n as int),
{
    dec_chars(n as u64)
}

/// An integer as decimal text.
pub fn int_chars(n: i32) -> (r: Vec<char>)
    ensures
        r@ == int_str(n as int),
{
    if n < 0 {
        let mag = (-(n as i64)) as u64;
        let mut out: Vec<char> = Vec::new();
        out.push('-');
        let mut digits = dec_chars(mag);
        out.append(&mut digits);
        proof {
            assert(out@ =~= seq!['-'] + dec_str(-(n as int)));
        }
        out
    } else {
        dec_chars(n as u64)
    }
}

} // verus!
