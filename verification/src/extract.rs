use vstd::prelude::*;

use crate::dates::{find_ch, find_char_from, normalize_date, parse_date};
use crate::schedule::{scheds_view, SchedView, Schedule};
use crate::text::{find_sub, lemma_find_sub_match, str_chars, str_eq, str_find, trim, trim_spec};

verus! {

/// The marker that introduces the owning-department annotation of a
/// description cell.
pub open spec fn org_marker() -> Seq<char> {
    "(주관부서:"@
}

/// One trailing closing parenthesis stripped, if present.
pub open spec fn strip_last_paren(s: Seq<char>) -> Seq<char> {
    if s.len() > 0 && s.last() == ')' {
        s.drop_last()
    } else {
        s
    }
}

/// The dates of a trimmed date cell: split at the first range separator
/// into two normalized dates, or the whole cell normalized as one date.
/// Text after a second separator is dropped.
pub open spec fn row_dates(d: Seq<char>) -> Seq<Seq<char>> {
    let i = find_ch(d, '~', 0);
    if i >= 0 {
        let j = find_ch(d, '~', i + 1);
        let end = if j >= 0 {
            j
        } else {
            d.len() as int
        };
        seq![normalize_date(d.subrange(0, i)), normalize_date(d.subrange(i + 1, end))]
    } else {
        seq![normalize_date(d)]
    }
}

/// The title of a trimmed description cell: the text before the
/// owning-department marker, trimmed; the whole cell when no marker occurs.
pub open spec fn row_title(c: Seq<char>) -> Seq<char> {
    let k = find_sub(c, org_marker(), 0);
    if k >= 0 {
        trim_spec(c.take(k))
    } else {
        c
    }
}

/// The organization of a trimmed description cell: the text after the
/// owning-department marker, with a trailing closing parenthesis stripped
/// and surrounding whitespace trimmed; empty when no marker occurs.
pub open spec fn row_org(c: Seq<char>) -> Seq<char> {
    let k = find_sub(c, org_marker(), 0);
    if k >= 0 {
        trim_spec(strip_last_paren(c.skip(k + org_marker().len())))
    } else {
        Seq::empty()
    }
}

/// The record a two-cell row denotes: cell one read as the date field,
/// cell two as the description field; the category left unset.
pub open spec fn row_record(row: Seq<Seq<char>>) -> SchedView {
    let date_text = trim_spec(row[0]);
    let content = trim_spec(row[1]);
    SchedView {
        at: row_dates(date_text),
        title: row_title(content),
        org: row_org(content),
        category: Seq::empty(),
    }
}

/// The records of a table: one per row with at least two cells, in row
/// order; other rows are skipped.
pub open spec fn schedules_of(rows: Seq<Seq<Seq<char>>>) -> Seq<SchedView>
    decreases rows.len(),
{
    if rows.len() == 0 {
        Seq::empty()
    } else {
        let rest = schedules_of(rows.drop_last());
        if rows.last().len() >= 2 {
            rest.push(row_record(rows.last()))
        } else {
            rest
        }
    }
}

/// The cell texts of a table of rows, as sequences of characters.
pub open spec fn rows_view(rows: Seq<Vec<String>>) -> Seq<Seq<Seq<char>>> {
    rows.map_values(|r: Vec<String>| r@.map_values(|s: String| s@))
}

/// What the fixed schedule-table selector resolves to in a document: for
/// each row of the first matching table, the concatenated text of each of
/// its cells, in document order.
pub uninterp spec fn table_cell_texts(html: Seq<char>) -> Seq<Seq<Seq<char>>>;

/// Relies on scraper's `Html::parse_document`, `Selector::parse`,
/// `Html::select`, `ElementRef::select` and `ElementRef::text`: parses the
/// document, locates the first table the fixed schedule-table selector
/// matches, and hands back each table row's cell texts; an absent table
/// gives no rows. The result is a function of the document text alone.
#[verifier::external_body]
fn table_rows(html: &str) -> (rows: Vec<Vec<String>>)
    ensures
        rows_view(rows@) == table_cell_texts(html@),
{
    let t = scraper::Selector::parse(
        "#content_focus > div > div.cont_group > div.schedule > div > table",
    ).unwrap();
    let tr = scraper::Selector::parse("tr").unwrap();
    let td = scraper::Selector::parse("td").unwrap();
    match scraper::Html::parse_document(html).select(&t).next() {
        None => Vec::new(),
        Some(tb) => tb.select(&tr).map(
            |r| r.select(&td).map(|c| c.text().collect::<String>()).collect(),
        ).collect(),
    }
}

/// Read one two-cell row into a record.
fn read_row(date_cell: &str, content_cell: &str) -> (r: Schedule)
    ensures
        r@ == row_record(seq![date_cell@, content_cell@]),
{
    let date_text = trim(date_cell);
    let content = trim(content_cell);
    let ghost d = date_text@;
    let dchars = str_chars(date_text.as_str());
    let mut at: Vec<String> = Vec::new();
    let dn = dchars.len();
    match find_char_from(&dchars, '~', 0) {
        Some(i) => {
            proof {
                assert(i < dn);
            }
            let end = match find_char_from(&dchars, '~', i + 1) {
                Some(j) => j,
                None => dchars.len(),
            };
            let part0 = date_text.as_str().substring_char(0, i);
            at.push(parse_date(part0));
            let part1 = date_text.as_str().substring_char(i + 1, end);
            at.push(parse_date(part1));
            proof {
                assert(at@.map_values(|s: String| s@) =~= row_dates(d));
            }
        },
        None => {
            at.push(parse_date(date_text.as_str()));
            proof {
                assert(d.subrange(0, d.len() as int) =~= d);
                assert(at@.map_values(|s: String| s@) =~= row_dates(d));
            }
        },
    }
    let ghost c = content@;
    let marker = "(주관부서:";
    let mlen = marker.unicode_len();
    let (title, org) = match str_find(content.as_str(), marker) {
        Some(k) => {
            proof {
                lemma_find_sub_match(c, org_marker(), 0);
            }
            let t = trim(content.as_str().substring_char(0, k));
            let clen = content.as_str().unicode_len();
            let rest = content.as_str().substring_char(k + mlen, clen);
            let rchars = str_chars(rest);
            let rest2 = if rchars.len() > 0 && rchars[rchars.len() - 1] == ')' {
                rest.substring_char(0, rchars.len() - 1)
            } else {
                rest
            };
            let o = trim(rest2);
            proof {
                assert(c.take(k as int) =~= c.subrange(0, k as int));
                assert(c.skip(k + org_marker().len()) =~= c.subrange(
                    k + org_marker().len(),
                    c.len() as int,
                ));
                assert(strip_last_paren(c.skip(k + org_marker().len())) =~= rest2@);
            }
            (t, o)
        },
        None => {
            (content, String::new())
        },
    };
    let r = Schedule { at, title, org, category: String::new() };
    proof {
        assert(r@.at =~= row_record(seq![date_cell@, content_cell@]).at);
        assert(r@ == row_record(seq![date_cell@, content_cell@]));
    }
    r
}

/// Read every two-cell row of a table into a record, skipping the rest.
pub fn rows_to_schedules(rows: &Vec<Vec<String>>) -> (r: Vec<Schedule>)
    ensures
        scheds_view(r@) == schedules_of(rows_view(rows@)),
{
    let mut out: Vec<Schedule> = Vec::new();
    let mut i: usize = 0;
    while i < rows.len()
        invariant
            0 <= i <= rows@.len(),
            scheds_view(out@) == schedules_of(rows_view(rows@.take(i as int))),
        decreases rows@.len() - i,
    {
        let ghost prev = rows_view(rows@.take(i as int));
        let row = &rows[i];
        proof {
            assert(rows_view(rows@.take(i + 1)) =~= prev.push(rows_view(rows@)[i as int]));
            assert(rows_view(rows@.take(i + 1)).drop_last() =~= prev);
            assert(rows_view(rows@)[i as int] == row@.map_values(|s: String| s@));
        }
        if row.len() >= 2 {
            let rec = read_row(row[0].as_str(), row[1].as_str());
            out.push(rec);
            proof {
                let rv = rows_view(rows@)[i as int];
                assert(rv.len() == row@.len());
                assert(rv[0] == row@[0]@);
                assert(rv[1] == row@[1]@);
                let two = seq![row@[0]@, row@[1]@];
                assert(rec@ == row_record(two));
                assert(row_record(two) == row_record(rv));
                assert(scheds_view(out@) =~= schedules_of(rows_view(rows@.take(i + 1))));
            }
        } else {
            proof {
                let rv = rows_view(rows@)[i as int];
                assert(rv.len() == row@.len());
                assert(scheds_view(out@) =~= schedules_of(rows_view(rows@.take(i + 1))));
            }
        }
        i = i + 1;
    }
    proof {
        assert(rows@.take(rows@.len() as int) =~= rows@);
    }
    out
}

/// Extract the schedule records of a raw document: each two-cell row of
/// the fixed schedule table, read as a date span and a description, with
/// the category unset.
pub fn parse_schedule(html: &str) -> (r: Vec<Schedule>)
    ensures
        scheds_view(r@) == schedules_of(table_cell_texts(html@)),
{
    let rows = table_rows(html);
    rows_to_schedules(&rows)
}

/// The extraction strategy a configuration tag selects.
#[derive(Clone, Copy, Debug, PartialEq, Eq, Structural)]
pub enum CrawlerKind {
    Dongguk,
}

/// The extractor for the institution whose page layout this crate models.
pub struct DonggukCrawler;

impl DonggukCrawler {
    /// Extract the schedule records of a raw document.
    pub fn parse(&self, html: &str) -> (r: Vec<Schedule>)
        ensures
            scheds_view(r@) == schedules_of(table_cell_texts(html@)),
    {
        parse_schedule(html)
    }
}

/// The extraction strategy of a configuration tag; an unknown tag selects
/// none.
pub fn get_crawler(crawler_type: &str) -> (r: Option<CrawlerKind>)
    ensures
        r == (if crawler_type@ == "dongguk"@ {
            Some(CrawlerKind::Dongguk)
        } else {
            None::<CrawlerKind>
        }),
{
    if str_eq(crawler_type, "dongguk") {
        Some(CrawlerKind::Dongguk)
    } else {
        None
    }
}

} // verus!
