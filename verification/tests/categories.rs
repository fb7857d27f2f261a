use unical::classify::{categorize_schedules, classify_title};
use unical::schedule::{Schedule, ScheduleCategoryList};

fn sched(at: Vec<&str>, title: &str, org: &str, category: &str) -> Schedule {
    Schedule {
        at: at.into_iter().map(|s| s.to_string()).collect(),
        title: title.to_string(),
        org: org.to_string(),
        category: category.to_string(),
    }
}

#[test]
fn classify_single_category_titles() {
    assert_eq!(classify_title("수강신청"), "수업");
    assert_eq!(classify_title("휴학 및 복학 신청"), "학적");
    assert_eq!(classify_title("논문 제출"), "대학원");
    assert_eq!(classify_title("국가장학금 신청"), "장학");
    assert_eq!(classify_title("교육실습 운영"), "교직");
    assert_eq!(classify_title("입학식"), "행사");
}

#[test]
fn classify_no_keyword_is_catch_all() {
    assert_eq!(classify_title("아무 관련 없는 제목"), "기타");
    assert_eq!(classify_title(""), "기타");
}

#[test]
fn classify_is_deterministic() {
    let a = classify_title("수강신청 및 장학 안내");
    let b = classify_title("수강신청 및 장학 안내");
    assert_eq!(a, b);
    // the first matching group in the fixed priority order wins
    assert_eq!(a, "수업");
}

#[test]
fn categorize_sets_category_and_keeps_fields() {
    let mut v = vec![
        sched(vec!["2025-03-04"], "개강", "교무처", ""),
        sched(vec!["2025-04-01"], "알 수 없는 행", "", ""),
    ];
    categorize_schedules(&mut v);
    assert_eq!(v.len(), 2);
    assert_eq!(v[0].category, "수업");
    assert_eq!(v[0].title, "개강");
    assert_eq!(v[0].org, "교무처");
    assert_eq!(v[0].at, vec!["2025-03-04".to_string()]);
    assert_eq!(v[1].category, "기타");
}

#[test]
fn mask_round_trip_subset() {
    let list = ScheduleCategoryList::from_categories(vec![
        "수업".to_string(),
        "장학".to_string(),
    ]);
    let mask = list.to_hash();
    assert_eq!(mask, 0b1001);
    let back = ScheduleCategoryList::from_hash(mask);
    assert_eq!(back.categories, vec!["수업".to_string(), "장학".to_string()]);
}

#[test]
fn mask_encoding_is_order_independent() {
    let a = ScheduleCategoryList::from_categories(vec![
        "장학".to_string(),
        "수업".to_string(),
    ]);
    let b = ScheduleCategoryList::from_categories(vec![
        "수업".to_string(),
        "장학".to_string(),
    ]);
    assert_eq!(a.to_hash(), b.to_hash());
}

#[test]
fn mask_empty_and_zero() {
    let empty = ScheduleCategoryList::from_categories(vec![]);
    assert_eq!(empty.to_hash(), 0);
    let decoded = ScheduleCategoryList::from_hash(0);
    assert!(decoded.categories.is_empty());
}

#[test]
fn mask_ignores_unknown_labels_and_high_bits() {
    let list = ScheduleCategoryList::from_categories(vec![
        "없는분류".to_string(),
        "졸업".to_string(),
    ]);
    assert_eq!(list.to_hash(), 0b1000_0000);
    let decoded = ScheduleCategoryList::from_hash(0xFFFF_FF00 | 0b10);
    assert_eq!(decoded.categories, vec!["학적".to_string()]);
}

#[test]
fn all_lists_the_eight_labels_in_bit_order() {
    let all = ScheduleCategoryList::all();
    assert_eq!(
        all.categories,
        vec![
            "수업".to_string(),
            "학적".to_string(),
            "대학원".to_string(),
            "장학".to_string(),
            "교직".to_string(),
            "행사".to_string(),
            "기타".to_string(),
            "졸업".to_string(),
        ]
    );
    assert_eq!(all.to_hash(), 0xFF);
}

#[test]
fn contains_checks_membership() {
    let list = ScheduleCategoryList::from_categories(vec!["수업".to_string()]);
    assert!(list.contains("수업"));
    assert!(!list.contains("장학"));
}
