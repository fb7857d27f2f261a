use vstd::prelude::*;

use crate::schedule::{label_at, label_string, Schedule};
use crate::text::{contains_sub, str_contains};

verus! {

/// The keyword list of classification group `g`. Groups are scanned in this
/// fixed priority order, which coincides with the bit positions of their
/// labels in the fixed category enumeration; groups 6 (catch-all) and 7
/// have no keywords and are never matched.
pub open spec fn keywords_at(g: int) -> Seq<Seq<char>> {
    if g == 0 {
        seq![
            "수강신청"@,
            "수강 신청"@,
            "시험"@,
            "계절학기"@,
            "개강"@,
            "종강"@,
            "보강"@,
            "기준일"@,
            "성적처리"@,
        ]
    } else if g == 1 {
        seq![
            "휴학"@,
            "복학"@,
            "전과"@,
            "다전공"@,
            "재입학"@,
            "졸업연기"@,
            "전공신청"@,
            "졸업대상자"@,
            "조기졸업"@,
            "등록"@,
            "학점포기"@,
        ]
    } else if g == 2 {
        seq!["대학원"@, "논문"@, "석사"@, "학위"@, "박사"@]
    } else if g == 3 {
        seq!["장학"@]
    } else if g == 4 {
        seq!["교직"@, "교육실습"@, "교육봉사"@, "교원"@, "학교현장실습"@]
    } else if g == 5 {
        seq!["입학식"@, "학위수여식"@, "방학"@, "기념"@, "부처님"@]
    } else {
        Seq::empty()
    }
}

/// Whether any keyword of group `g` occurs in the title.
pub open spec fn title_matches(title: Seq<char>, g: int) -> bool {
    exists|k: int| 0 <= k < keywords_at(g).len() && contains_sub(title, keywords_at(g)[k])
}

/// The category assigned to a title: the label of the first group, in the
/// fixed priority order, with a keyword occurring in the title; the
/// catch-all label when no keyword matches. A spec function of the title
/// and the fixed keyword table alone, so classification is deterministic.
pub open spec fn category_for(title: Seq<char>) -> Seq<char> {
    if title_matches(title, 0) {
        label_at(0)
    } else if title_matches(title, 1) {
        label_at(1)
    } else if title_matches(title, 2) {
        label_at(2)
    } else if title_matches(title, 3) {
        label_at(3)
    } else if title_matches(title, 4) {
        label_at(4)
    } else if title_matches(title, 5) {
        label_at(5)
    } else {
        label_at(6)
    }
}

/// The keyword list of a group, as owned strings.
fn group_keywords(g: usize) -> (r: Vec<String>)
    requires
        g < 6,
    ensures
        r@.map_values(|s: String| s@) == keywords_at(g as int),
{
    let mut v: Vec<String> = Vec::new();
    if g == 0 {
        v.push(String::from_str("수강신청"));
        v.push(String::from_str("수강 신청"));
        v.push(String::from_str("시험"));
        v.push(String::from_str("계절학기"));
        v.push(String::from_str("개강"));
        v.push(String::from_str("종강"));
        v.push(String::from_str("보강"));
        v.push(String::from_str("기준일"));
        v.push(String::from_str("성적처리"));
    } else if g == 1 {
        v.push(String::from_str("휴학"));
        v.push(String::from_str("복학"));
        v.push(String::from_str("전과"));
        v.push(String::from_str("다전공"));
        v.push(String::from_str("재입학"));
        v.push(String::from_str("졸업연기"));
        v.push(String::from_str("전공신청"));
        v.push(String::from_str("졸업대상자"));
        v.push(String::from_str("조기졸업"));
        v.push(String::from_str("등록"));
        v.push(String::from_str("학점포기"));
    } else if g == 2 {
        v.push(String::from_str("대학원"));
        v.push(String::from_str("논문"));
        v.push(String::from_str("석사"));
        v.push(String::from_str("학위"));
        v.push(String::from_str("박사"));
    } else if g == 3 {
        v.push(String::from_str("장학"));
    } else if g == 4 {
        v.push(String::from_str("교직"));
        v.push(String::from_str("교육실습"));
        v.push(String::from_str("교육봉사"));
        v.push(String::from_str("교원"));
        v.push(String::from_str("학교현장실습"));
    } else {
        v.push(String::from_str("입학식"));
        v.push(String::from_str("학위수여식"));
        v.push(String::from_str("방학"));
        v.push(String::from_str("기념"));
        v.push(String::from_str("부처님"));
    }
    proof {
        assert(v@.map_values(|s: String| s@) =~= keywords_at(g as int));
    }
    v
}

/// The category assigned to one title.
pub fn classify_title(title: &str) -> (r: String)
    ensures
        r@ == category_for(title@),
{
    let mut g: usize = 0;
    while g < 6
        invariant
            0 <= g <= 6,
            forall|h: int| 0 <= h < g ==> !title_matches(title@, h),
        decreases 6 - g,
    {
        let kws = group_keywords(g);
        let ghost gkw = keywords_at(g as int);
        let mut k: usize = 0;
        while k < kws.len()
            invariant
                0 <= g < 6,
                forall|h: int| 0 <= h < g ==> !title_matches(title@, h),
                kws@.map_values(|s: String| s@) == gkw,
                gkw == keywords_at(g as int),
                0 <= k <= kws@.len(),
                forall|t: int| 0 <= t < k ==> !contains_sub(title@, gkw[t]),
            decreases kws@.len() - k,
        {
            if str_contains(title, kws[k].as_str()) {
                proof {
                    assert(kws@[k as int]@ == gkw[k as int]);
                    assert(title_matches(title@, g as int));
                }
                return label_string(g);
            }
            proof {
                assert(kws@[k as int]@ == gkw[k as int]);
            }
            k = k + 1;
        }
        proof {
            assert(forall|t: int|
                0 <= t < keywords_at(g as int).len() ==> !contains_sub(
                    title@,
                    #[trigger] keywords_at(g as int)[t],
                ));
            assert(!title_matches(title@, g as int));
        }
        g = g + 1;
    }
    label_string(6)
}

/// Assign a category to every record, in place: each record keeps its
/// dates, title and organization, and gets the category of its title.
pub fn categorize_schedules(schedules: &mut Vec<Schedule>)
    ensures
        final (schedules)@.len() == old(schedules)@.len(),
        forall|i: int|
            0 <= i < old(schedules)@.len() ==> {
                &&& (#[trigger] final (schedules)@[i])@.category == category_for(
                    old(schedules)@[i]@.title,
                )
                &&& final (schedules)@[i]@.at == old(schedules)@[i]@.at
                &&& final (schedules)@[i]@.title == old(schedules)@[i]@.title
                &&& final (schedules)@[i]@.org == old(schedules)@[i]@.org
            },
{
    let ghost orig = schedules@;
    let mut out: Vec<Schedule> = Vec::new();
    while schedules.len() > 0
        invariant
            out@.len() + schedules@.len() == orig.len(),
            forall|j: int|
                0 <= j < schedules@.len() ==> #[trigger] schedules@[j] == orig[out@.len() + j],
            forall|i: int|
                0 <= i < out@.len() ==> {
                    &&& (#[trigger] out@[i])@.category == category_for(orig[i]@.title)
                    &&& out@[i]@.at == orig[i]@.at
                    &&& out@[i]@.title == orig[i]@.title
                    &&& out@[i]@.org == orig[i]@.org
                },
        decreases schedules@.len(),
    {
        let mut s = schedules.remove(0);
        let c = classify_title(s.title.as_str());
        s.category = c;
        out.push(s);
    }
    *schedules = out;
}

/// Law: a title with a keyword match in group `g` and in no other group is
/// assigned group `g`'s label.
pub proof fn lemma_classifier_unique(title: Seq<char>, g: int)
    requires
        0 <= g < 6,
        title_matches(title, g),
        forall|h: int| 0 <= h < 6 && h != g ==> !title_matches(title, h),
    ensures
        category_for(title) == label_at(g),
{
}

/// Law: a title with no keyword match in any group is assigned the
/// catch-all label.
pub proof fn lemma_classifier_catchall(title: Seq<char>)
    requires
        forall|h: int| 0 <= h < 6 ==> !title_matches(title, h),
    ensures
        category_for(title) == label_at(6),
{
}

} // verus!
