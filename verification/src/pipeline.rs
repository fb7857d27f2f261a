use vstd::prelude::*;

use crate::dates::int_str;
use crate::icsgen::{create_ics, ics_output_for};
use crate::schedule::{cats_view, scheds_view, sel_from, SchedView, Schedule, ScheduleCategoryList};
use crate::snapshot::{decode_snapshot, parse_snapshot};

verus! {

/// The records whose category occurs in the requested label list, in their
/// original order.
pub open spec fn filter_by_cats(ss: Seq<SchedView>, cats: Seq<Seq<char>>) -> Seq<SchedView>
    decreases ss.len(),
{
    if ss.len() == 0 {
        Seq::empty()
    } else {
        let rest = filter_by_cats(ss.drop_last(), cats);
        if cats.contains(ss.last().category) {
            rest.push(ss.last())
        } else {
            rest
        }
    }
}

/// Keep exactly the records whose category the requested list holds.
pub fn filter_schedules(schedules: Vec<Schedule>, list: &ScheduleCategoryList) -> (r: Vec<
    Schedule,
>)
    ensures
        scheds_view(r@) == filter_by_cats(scheds_view(schedules@), cats_view(list.categories@)),
{
    let ghost orig = scheds_view(schedules@);
    let ghost cv = cats_view(list.categories@);
    let mut rest = schedules;
    let mut out: Vec<Schedule> = Vec::new();
    while rest.len() > 0
        invariant
            cv == cats_view(list.categories@),
            rest@.len() <= orig.len(),
            forall|j: int|
                0 <= j < rest@.len() ==> (#[trigger] rest@[j])@ == orig[orig.len() - rest@.len()
                    + j],
            scheds_view(out@) == filter_by_cats(
                orig.take(orig.len() - rest@.len()),
                cv,
            ),
        decreases rest@.len(),
    {
        let ghost done = orig.len() - rest@.len();
        let s = rest.remove(0);
        proof {
            assert(s@ == orig[done]);
            assert(forall|j: int|
                0 <= j < rest@.len() ==> (#[trigger] rest@[j])@ == orig[done + 1 + j]);
            assert(orig.take(done + 1).drop_last() =~= orig.take(done));
            assert(orig.take(done + 1).last() == orig[done]);
        }
        if list.contains(s.category.as_str()) {
            proof {
                assert(cv.contains(s@.category));
            }
            out.push(s);
            proof {
                assert(scheds_view(out@) =~= filter_by_cats(orig.take(done + 1), cv));
            }
        } else {
            proof {
                assert(scheds_view(out@) =~= filter_by_cats(orig.take(done + 1), cv));
            }
        }
    }
    proof {
        assert(orig.take(orig.len() as int) =~= orig);
    }
    out
}

/// Materialize one filtered calendar from a snapshot document: decode the
/// requested bitmask, keep the records whose category it selects, and
/// serialize them. A text that is not a snapshot yields the empty string.
pub fn json_to_ics(json: &str, univ: &str, year: i32, hash: u32) -> (r: String)
    ensures
        parse_snapshot(json@) is None ==> r@ == Seq::<char>::empty(),
        parse_snapshot(json@) matches Some(rs) ==> ics_output_for(
            r@,
            filter_by_cats(rs, sel_from(hash, 0)),
            univ@,
            year as int,
        ),
{
    let schedules = match decode_snapshot(json) {
        Some(rs) => rs,
        None => {
            return String::new();
        },
    };
    let ghost sv = scheds_view(schedules@);
    let list = ScheduleCategoryList::from_hash(hash);
    let filtered = filter_schedules(schedules, &list);
    let r = create_ics(&filtered, univ, year);
    proof {
        assert(parse_snapshot(json@) == Some(sv));
        assert(scheds_view(filtered@) == filter_by_cats(sv, sel_from(hash, 0)));
    }
    r
}

/// What the orchestrator does for one institution/year unit.
#[derive(Clone, Copy, Debug, PartialEq, Eq, Structural)]
pub enum PipelineAction {
    /// The artifact already exists: no fetch, no re-encode, no write.
    Skip,
    /// Fetch the page, extract, classify, persist, encode.
    Crawl,
}

/// The orchestrator's per-unit decision: artifact presence alone gates the
/// work, so a unit whose artifact exists is left byte-for-byte untouched.
pub fn plan_unit(artifact_exists: bool) -> (r: PipelineAction)
    ensures
        r == (if artifact_exists {
            PipelineAction::Skip
        } else {
            PipelineAction::Crawl
        }),
{
    if artifact_exists {
        PipelineAction::Skip
    } else {
        PipelineAction::Crawl
    }
}

/// The storage key of a year's default calendar artifact.
pub open spec fn artifact_path_spec(prefix: Seq<char>, year: int) -> Seq<char> {
    "public/"@ + prefix + "_"@ + int_str(year) + ".ics"@
}

/// The storage key of a year's classified snapshot.
pub open spec fn snapshot_path_spec(prefix: Seq<char>, year: int) -> Seq<char> {
    "data/"@ + prefix + "_"@ + int_str(year) + ".json"@
}

/// The storage key of a filtered calendar variant, addressed by bitmask.
pub open spec fn variant_path_spec(prefix: Seq<char>, year: int, hash: u32) -> Seq<char> {
    "public/"@ + prefix + "_"@ + int_str(year) + "_"@ + int_str(hash as int) + ".ics"@
}

fn join_path(head: &str, prefix: &str, year: i32, tail: &str) -> (r: Vec<char>)
    ensures
        r@ == head@ + prefix@ + "_"@ + int_str(year as int) + tail@,
{
    let mut out: Vec<char> = Vec::new();
    let ghost e = Seq::<char>::empty();
    proof {
        assert(e + head@ =~= head@);
    }
    crate::icsgen::append_str(&mut out, head);
    crate::icsgen::append_str(&mut out, prefix);
    crate::icsgen::append_str(&mut out, "_");
    let mut yc = crate::dates::int_chars(year);
    out.append(&mut yc);
    crate::icsgen::append_str(&mut out, tail);
    proof {
        assert(out@ =~= head@ + prefix@ + "_"@ + int_str(year as int) + tail@);
    }
    out
}

/// The artifact path of a year's default calendar.
pub fn artifact_path(prefix: &str, year: i32) -> (r: String)
    ensures
        r@ == artifact_path_spec(prefix@, year as int),
{
    let v = join_path("public/", prefix, year, ".ics");
    crate::text::chars_to_string(&v)
}

/// The snapshot path of a year's classified records.
pub fn snapshot_path(prefix: &str, year: i32) -> (r: String)
    ensures
        r@ == snapshot_path_spec(prefix@, year as int),
{
    let v = join_path("data/", prefix, year, ".json");
    crate::text::chars_to_string(&v)
}

/// The artifact path of a filtered calendar variant.
pub fn variant_path(prefix: &str, year: i32, hash: u32) -> (r: String)
    ensures
        r@ == variant_path_spec(prefix@, year as int, hash),
{
    let mut out = join_path("public/", prefix, year, "_");
    proof {
        assert(hash as int <= u32::MAX as int);
    }
    let mut hc = crate::dates::int_chars_u32(hash);
    out.append(&mut hc);
    crate::icsgen::append_str(&mut out, ".ics");
    proof {
        assert(out@ =~= variant_path_spec(prefix@, year as int, hash));
    }
    crate::text::chars_to_string(&out)
}

} // verus!
