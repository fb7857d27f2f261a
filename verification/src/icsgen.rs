use vstd::prelude::*;

use crate::dates::{format_yyyymmdd, int_chars, int_str, spec_date_of, yyyymmdd, CalDate};
use crate::schedule::{scheds_view, SchedView, Schedule};

verus! {

pub open spec fn crlf() -> Seq<char> {
    seq!['\r', '\n']
}

/// The octet width of a character in UTF-8.
pub open spec fn char_len8(c: char) -> int {
    if (c as int) < 0x80 {
        1
    } else if (c as int) < 0x800 {
        2
    } else if (c as int) < 0x10000 {
        3
    } else {
        4
    }
}

fn char_width(c: char) -> (r: usize)
    ensures
        r as int == char_len8(c),
{
    let u = c as u32;
    if u < 0x80 {
        1
    } else if u < 0x800 {
        2
    } else if u < 0x10000 {
        3
    } else {
        4
    }
}

/// A content line folded so no physical line exceeds 75 octets: characters
/// are taken greedily against the remaining octet budget; when one does not
/// fit, a line break and a leading space open the continuation line, whose
/// space counts against its budget.
pub open spec fn fold_rec(line: Seq<char>, budget: int) -> Seq<char>
    decreases line.len(),
{
    if line.len() == 0 {
        Seq::empty()
    } else {
        let w = char_len8(line[0]);
        if w <= budget {
            seq![line[0]] + fold_rec(line.drop_first(), budget - w)
        } else {
            seq!['\r', '\n', ' ', line[0]] + fold_rec(line.drop_first(), 74 - w)
        }
    }
}

pub open spec fn fold_line(line: Seq<char>) -> Seq<char> {
    fold_rec(line, 75)
}

/// One content line of the document: folded, with the line break appended.
pub open spec fn out_line(x: Seq<char>) -> Seq<char> {
    fold_line(x) + crlf()
}

/// Calendar text-value escaping: backslash, comma and semicolon get a
/// backslash; a newline becomes the two characters backslash and `n`.
pub open spec fn esc_char(c: char) -> Seq<char> {
    if c == '\\' {
        seq!['\\', '\\']
    } else if c == ',' {
        seq!['\\', ',']
    } else if c == ';' {
        seq!['\\', ';']
    } else if c == '\n' {
        seq!['\\', 'n']
    } else {
        seq![c]
    }
}

pub open spec fn escape_text(s: Seq<char>) -> Seq<char>
    decreases s.len(),
{
    if s.len() == 0 {
        Seq::empty()
    } else {
        escape_text(s.drop_last()) + esc_char(s.last())
    }
}

/// The fixed fallback date substituted for an unparsable record date.
pub open spec fn default_date() -> CalDate {
    CalDate { year: 2024, month: 1, day: 1 }
}

/// The start date of an event: the record's first date, or the fallback
/// when it does not parse as a well-formed calendar date.
pub open spec fn event_start(s: SchedView) -> CalDate {
    if s.at.len() >= 1 {
        match spec_date_of(s.at[0]) {
            Some(d) => d,
            None => default_date(),
        }
    } else {
        default_date()
    }
}

/// The end date of an event: the record's second date when present and
/// well-formed, else the start date. The published end date is used as-is
/// (inclusively), not moved to the exclusive-end convention.
pub open spec fn event_end(s: SchedView) -> CalDate {
    if s.at.len() >= 2 {
        match spec_date_of(s.at[1]) {
            Some(d) => d,
            None => event_start(s),
        }
    } else {
        event_start(s)
    }
}

/// The unescaped description of a record with a non-empty organization.
pub open spec fn desc_text(s: SchedView) -> Seq<char> {
    s.category + " 관련\n주관부서: "@ + s.org
}

/// The text of one event: identifier and stamp lines, date-only start and
/// end, the title verbatim, a description only when the organization is
/// non-empty, and a confirmed status.
pub open spec fn event_text(s: SchedView, uid: Seq<char>, stamp: Seq<char>) -> Seq<char> {
    out_line("BEGIN:VEVENT"@) + out_line("UID:"@ + uid) + out_line("DTSTAMP:"@ + stamp)
        + out_line("DTSTART;VALUE=DATE:"@ + yyyymmdd(event_start(s))) + out_line(
        "DTEND;VALUE=DATE:"@ + yyyymmdd(event_end(s)),
    ) + out_line("SUMMARY:"@ + s.title) + (if s.org.len() > 0 {
        out_line("DESCRIPTION:"@ + escape_text(desc_text(s)))
    } else {
        Seq::empty()
    }) + out_line("STATUS:CONFIRMED"@) + out_line("END:VEVENT"@)
}

/// The concatenated events of a record list, each with its identifier and
/// stamp.
pub open spec fn events_text(ss: Seq<SchedView>, uids: Seq<Seq<char>>, stamps: Seq<Seq<char>>)
    -> Seq<char>
    decreases ss.len(),
{
    if ss.len() == 0 {
        Seq::empty()
    } else {
        events_text(ss.drop_last(), uids.drop_last(), stamps.drop_last()) + event_text(
            ss.last(),
            uids.last(),
            stamps.last(),
        )
    }
}

/// The calendar header: version, a product id embedding the institution
/// name and year, and the fixed UTC+9 timezone block with no daylight rule.
pub open spec fn header_text(univ: Seq<char>, year: int) -> Seq<char> {
    out_line("BEGIN:VCALENDAR"@) + out_line("VERSION:2.0"@) + out_line(
        "PRODID:-//"@ + univ + " "@ + int_str(year) + " 학사일정//KR"@,
    ) + out_line("BEGIN:VTIMEZONE"@) + out_line("TZID:Asia/Seoul"@) + out_line(
        "LAST-MODIFIED:20230615T050000Z"@,
    ) + out_line("BEGIN:STANDARD"@) + out_line("DTSTART:19700101T000000"@) + out_line(
        "TZOFFSETFROM:+0900"@,
    ) + out_line("TZOFFSETTO:+0900"@) + out_line("TZNAME:KST"@) + out_line("END:STANDARD"@)
        + out_line("END:VTIMEZONE"@)
}

/// The whole document: header, events, footer.
pub open spec fn calendar_text(
    ss: Seq<SchedView>,
    univ: Seq<char>,
    year: int,
    uids: Seq<Seq<char>>,
    stamps: Seq<Seq<char>>,
) -> Seq<char> {
    header_text(univ, year) + events_text(ss, uids, stamps) + out_line("END:VCALENDAR"@)
}

/// Append the characters of a string slice.
pub(crate) fn append_str(v: &mut Vec<char>, s: &str)
    ensures
        final (v)@ == old(v)@ + s@,
{
    let len = s.unicode_len();
    let mut i: usize = 0;
    while i < len
        invariant
            len == s@.len(),
            0 <= i <= len,
            v@ == old(v)@ + s@.take(i as int),
        decreases len - i,
    {
        let ghost pre = v@;
        v.push(s.get_char(i));
        proof {
            assert(pre.push(s@[i as int]) =~= old(v)@ + s@.take(i + 1));
        }
        i = i + 1;
    }
    proof {
        assert(old(v)@ + s@.take(len as int) =~= old(v)@ + s@);
    }
}

/// Append the calendar-escaped characters of a string slice.
fn append_escaped(v: &mut Vec<char>, s: &str)
    ensures
        final (v)@ == old(v)@ + escape_text(s@),
{
    let len = s.unicode_len();
    let mut i: usize = 0;
    while i < len
        invariant
            len == s@.len(),
            0 <= i <= len,
            v@ == old(v)@ + escape_text(s@.take(i as int)),
        decreases len - i,
    {
        let ghost pre = v@;
        let c = s.get_char(i);
        if c == '\\' {
            v.push('\\');
            v.push('\\');
        } else if c == ',' {
            v.push('\\');
            v.push(',');
        } else if c == ';' {
            v.push('\\');
            v.push(';');
        } else if c == '\n' {
            v.push('\\');
            v.push('n');
        } else {
            v.push(c);
        }
        proof {
            let t = s@.take(i + 1);
            assert(t.drop_last() =~= s@.take(i as int));
            assert(t.last() == s@[i as int]);
            assert(v@ =~= pre + esc_char(s@[i as int]));
            assert(v@ =~= old(v)@ + escape_text(t));
        }
        i = i + 1;
    }
    proof {
        assert(s@.take(len as int) =~= s@);
    }
}

/// Append one folded content line and its line break.
fn push_folded(out: &mut Vec<char>, line: &Vec<char>)
    ensures
        final (out)@ == old(out)@ + out_line(line@),
{
    let mut budget: usize = 75;
    let mut i: usize = 0;
    proof {
        assert(line@.skip(0) =~= line@);
    }
    while i < line.len()
        invariant
            0 <= i <= line@.len(),
            budget <= 75,
            out@ + fold_rec(line@.skip(i as int), budget as int) == old(out)@ + fold_line(
                line@,
            ),
        decreases line@.len() - i,
    {
        let ghost pre = out@;
        let ghost rest = line@.skip(i as int);
        let c = line[i];
        let w = char_width(c);
        proof {
            assert(rest[0] == line@[i as int]);
            assert(rest.drop_first() =~= line@.skip(i + 1));
        }
        if w <= budget {
            out.push(c);
            budget = budget - w;
            proof {
                assert(out@ + fold_rec(line@.skip(i + 1), budget as int) =~= pre + fold_rec(
                    rest,
                    budget as int + w,
                ));
            }
        } else {
            out.push('\r');
            out.push('\n');
            out.push(' ');
            out.push(c);
            proof {
                assert(fold_rec(rest, budget as int) =~= seq!['\r', '\n', ' ', c] + fold_rec(
                    line@.skip(i + 1),
                    74 - w,
                ));
                assert(out@ + fold_rec(line@.skip(i + 1), 74 - w) =~= pre + fold_rec(
                    rest,
                    budget as int,
                ));
            }
            budget = 74 - w;
        }
        i = i + 1;
    }
    proof {
        assert(line@.skip(line@.len() as int) =~= Seq::<char>::empty());
        assert(out@ + fold_rec(Seq::<char>::empty(), budget as int) =~= out@);
    }
    out.push('\r');
    out.push('\n');
    proof {
        assert(out@ =~= old(out)@ + out_line(line@));
    }
}

/// Append one event's lines.
fn append_event(out: &mut Vec<char>, s: &Schedule, uid: &str, stamp: &str)
    ensures
        final (out)@ == old(out)@ + event_text(s@, uid@, stamp@),
{
    let ghost t0 = out@;
    let mut line: Vec<char> = Vec::new();
    append_str(&mut line, "BEGIN:VEVENT");
    push_folded(out, &line);
    proof {
        assert(line@ =~= "BEGIN:VEVENT"@);
    }
    let ghost p1 = out_line("BEGIN:VEVENT"@);

    let mut line: Vec<char> = Vec::new();
    append_str(&mut line, "UID:");
    append_str(&mut line, uid);
    push_folded(out, &line);
    let ghost p2 = p1 + out_line("UID:"@ + uid@);
    proof {
        assert(out@ =~= t0 + p2);
    }

    let mut line: Vec<char> = Vec::new();
    append_str(&mut line, "DTSTAMP:");
    append_str(&mut line, stamp);
    push_folded(out, &line);
    let ghost p3 = p2 + out_line("DTSTAMP:"@ + stamp@);
    proof {
        assert(out@ =~= t0 + p3);
    }

    let start = if s.at.len() >= 1 {
        match crate::dates::parse_iso_date(s.at[0].as_str()) {
            Some(d) => d,
            None => CalDate { year: 2024, month: 1, day: 1 },
        }
    } else {
        CalDate { year: 2024, month: 1, day: 1 }
    };
    proof {
        assert(start == event_start(s@));
        assert(start.wf());
    }
    let end = if s.at.len() >= 2 {
        match crate::dates::parse_iso_date(s.at[1].as_str()) {
            Some(d) => d,
            None => start,
        }
    } else {
        start
    };
    proof {
        assert(end == event_end(s@));
        assert(end.wf());
    }

    let mut line: Vec<char> = Vec::new();
    append_str(&mut line, "DTSTART;VALUE=DATE:");
    let mut ds = format_yyyymmdd(&start);
    line.append(&mut ds);
    push_folded(out, &line);
    let ghost p4 = p3 + out_line("DTSTART;VALUE=DATE:"@ + yyyymmdd(event_start(s@)));
    proof {
        assert(out@ =~= t0 + p4);
    }

    let mut line: Vec<char> = Vec::new();
    append_str(&mut line, "DTEND;VALUE=DATE:");
    let mut de = format_yyyymmdd(&end);
    line.append(&mut de);
    push_folded(out, &line);
    let ghost p5 = p4 + out_line("DTEND;VALUE=DATE:"@ + yyyymmdd(event_end(s@)));
    proof {
        assert(out@ =~= t0 + p5);
    }

    let mut line: Vec<char> = Vec::new();
    append_str(&mut line, "SUMMARY:");
    append_str(&mut line, s.title.as_str());
    push_folded(out, &line);
    let ghost p6 = p5 + out_line("SUMMARY:"@ + s@.title);
    proof {
        assert(out@ =~= t0 + p6);
    }

    let ghost p7 = if s@.org.len() > 0 {
        p6 + out_line("DESCRIPTION:"@ + escape_text(desc_text(s@)))
    } else {
        p6
    };
    if s.org.as_str().unicode_len() > 0 {
        let mut desc: Vec<char> = Vec::new();
        append_str(&mut desc, s.category.as_str());
        append_str(&mut desc, " 관련\n주관부서: ");
        append_str(&mut desc, s.org.as_str());
        proof {
            assert(desc@ =~= desc_text(s@));
        }
        let desc_s = crate::text::chars_to_string(&desc);
        let mut line: Vec<char> = Vec::new();
        append_str(&mut line, "DESCRIPTION:");
        append_escaped(&mut line, desc_s.as_str());
        push_folded(out, &line);
        proof {
            assert(out@ =~= t0 + p7);
        }
    }

    let mut line: Vec<char> = Vec::new();
    append_str(&mut line, "STATUS:CONFIRMED");
    push_folded(out, &line);
    let ghost p8 = p7 + out_line("STATUS:CONFIRMED"@);
    proof {
        assert(out@ =~= t0 + p8);
    }

    let mut line: Vec<char> = Vec::new();
    append_str(&mut line, "END:VEVENT");
    push_folded(out, &line);
    proof {
        assert(out@ =~= t0 + (p8 + out_line("END:VEVENT"@)));
        assert(p8 + out_line("END:VEVENT"@) =~= event_text(s@, uid@, stamp@));
    }
}

/// Append one constant content line.
fn push_const_line(out: &mut Vec<char>, s: &str)
    ensures
        final (out)@ == old(out)@ + out_line(s@),
{
    let mut line: Vec<char> = Vec::new();
    append_str(&mut line, s);
    push_folded(out, &line);
}

/// Serialize a record list, an institution display name and a target year
/// as a calendar document, one all-day event per record, using the given
/// per-event identifiers and creation stamps.
pub fn render_calendar(
    schedules: &Vec<Schedule>,
    univ: &str,
    year: i32,
    uids: &Vec<String>,
    stamps: &Vec<String>,
) -> (r: String)
    requires
        uids@.len() == schedules@.len(),
        stamps@.len() == schedules@.len(),
    ensures
        r@ == calendar_text(
            scheds_view(schedules@),
            univ@,
            year as int,
            uids@.map_values(|s: String| s@),
            stamps@.map_values(|s: String| s@),
        ),
{
    let ghost uv = uids@.map_values(|s: String| s@);
    let ghost tv = stamps@.map_values(|s: String| s@);
    let mut out: Vec<char> = Vec::new();
    push_const_line(&mut out, "BEGIN:VCALENDAR");
    push_const_line(&mut out, "VERSION:2.0");
    let mut line: Vec<char> = Vec::new();
    append_str(&mut line, "PRODID:-//");
    append_str(&mut line, univ);
    append_str(&mut line, " ");
    let mut yc = int_chars(year);
    line.append(&mut yc);
    append_str(&mut line, " 학사일정//KR");
    push_folded(&mut out, &line);
    push_const_line(&mut out, "BEGIN:VTIMEZONE");
    push_const_line(&mut out, "TZID:Asia/Seoul");
    push_const_line(&mut out, "LAST-MODIFIED:20230615T050000Z");
    push_const_line(&mut out, "BEGIN:STANDARD");
    push_const_line(&mut out, "DTSTART:19700101T000000");
    push_const_line(&mut out, "TZOFFSETFROM:+0900");
    push_const_line(&mut out, "TZOFFSETTO:+0900");
    push_const_line(&mut out, "TZNAME:KST");
    push_const_line(&mut out, "END:STANDARD");
    push_const_line(&mut out, "END:VTIMEZONE");
    proof {
        assert(line@ =~= "PRODID:-//"@ + univ@ + " "@ + int_str(year as int) + " 학사일정//KR"@);
        assert(out@ =~= header_text(univ@, year as int));
    }
    let mut i: usize = 0;
    while i < schedules.len()
        invariant
            uids@.len() == schedules@.len(),
            stamps@.len() == schedules@.len(),
            uv == uids@.map_values(|s: String| s@),
            tv == stamps@.map_values(|s: String| s@),
            0 <= i <= schedules@.len(),
            out@ == header_text(univ@, year as int) + events_text(
                scheds_view(schedules@.take(i as int)),
                uv.take(i as int),
                tv.take(i as int),
            ),
        decreases schedules@.len() - i,
    {
        let ghost pre = out@;
        append_event(&mut out, &schedules[i], uids[i].as_str(), stamps[i].as_str());
        proof {
            let ss1 = scheds_view(schedules@.take(i + 1));
            assert(ss1.drop_last() =~= scheds_view(schedules@.take(i as int)));
            assert(uv.take(i + 1).drop_last() =~= uv.take(i as int));
            assert(tv.take(i + 1).drop_last() =~= tv.take(i as int));
            assert(ss1.last() == schedules@[i as int]@);
            assert(uv.take(i + 1).last() == uids@[i as int]@);
            assert(tv.take(i + 1).last() == stamps@[i as int]@);
            assert(out@ =~= header_text(univ@, year as int) + events_text(
                ss1,
                uv.take(i + 1),
                tv.take(i + 1),
            ));
        }
        i = i + 1;
    }
    push_const_line(&mut out, "END:VCALENDAR");
    proof {
        assert(schedules@.take(schedules@.len() as int) =~= schedules@);
        assert(uv.take(schedules@.len() as int) =~= uv);
        assert(tv.take(schedules@.len() as int) =~= tv);
        assert(scheds_view(schedules@.take(schedules@.len() as int)) =~= scheds_view(
            schedules@,
        ));
        assert(out@ =~= calendar_text(scheds_view(schedules@), univ@, year as int, uv, tv));
    }
    crate::text::chars_to_string(&out)
}

/// Relies on `uuid::Uuid::new_v4` and its default hyphenated text form: a
/// freshly generated globally-unique identifier, 36 characters long.
#[verifier::external_body]
fn new_uid() -> (r: String)
    ensures
        r@.len() == 36,
{
    uuid::Uuid::new_v4().to_string()
}

/// Relies on `chrono::Utc::now`, formatted as a basic UTC timestamp; the
/// value depends on the clock, so nothing is promised of it.
#[verifier::external_body]
fn now_stamp() -> (r: String) {
    chrono::Utc::now().format("%Y%m%dT%H%M%SZ").to_string()
}

/// What a generated document is: the exact calendar text of the records,
/// for some per-event identifiers (36 characters each) and stamps.
pub open spec fn ics_output_for(r: Seq<char>, ss: Seq<SchedView>, univ: Seq<char>, year: int)
    -> bool {
    exists|uids: Seq<Seq<char>>, stamps: Seq<Seq<char>>|
        {
            &&& uids.len() == ss.len()
            &&& stamps.len() == ss.len()
            &&& (forall|i: int| 0 <= i < uids.len() ==> (#[trigger] uids[i]).len() == 36)
            &&& r == #[trigger] calendar_text(ss, univ, year, uids, stamps)
        }
}

/// Serialize a record list as a calendar document, generating a fresh
/// identifier and a creation stamp for each event: the result is the exact
/// document text for the records, for some such identifiers and stamps.
pub fn create_ics(schedules: &Vec<Schedule>, univ: &str, year: i32) -> (r: String)
    ensures
        ics_output_for(r@, scheds_view(schedules@), univ@, year as int),
{
    let mut uids: Vec<String> = Vec::new();
    let mut stamps: Vec<String> = Vec::new();
    let n = schedules.len();
    let mut i: usize = 0;
    while i < n
        invariant
            uids@.len() == i,
            stamps@.len() == i,
            0 <= i <= n,
            forall|k: int| 0 <= k < i ==> (#[trigger] uids@[k])@.len() == 36,
        decreases n - i,
    {
        uids.push(new_uid());
        stamps.push(now_stamp());
        i = i + 1;
    }
    let r = render_calendar(schedules, univ, year, &uids, &stamps);
    proof {
        let uv = uids@.map_values(|s: String| s@);
        let tv = stamps@.map_values(|s: String| s@);
        assert(forall|k: int| 0 <= k < uv.len() ==> (#[trigger] uv[k]).len() == 36);
        assert({
            &&& uv.len() == scheds_view(schedules@).len()
            &&& tv.len() == scheds_view(schedules@).len()
            &&& (forall|i: int| 0 <= i < uv.len() ==> (#[trigger] uv[i]).len() == 36)
            &&& r@ == calendar_text(scheds_view(schedules@), univ@, year as int, uv, tv)
        });
        assert(ics_output_for(r@, scheds_view(schedules@), univ@, year as int));
    }
    r
}

} // verus!
