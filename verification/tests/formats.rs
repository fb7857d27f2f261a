use unical::dates::{parse_date, parse_iso_date};
use unical::schedule::Schedule;
use unical::snapshot::{decode_snapshot, encode_snapshot};

fn sched(at: Vec<&str>, title: &str, org: &str, category: &str) -> Schedule {
    Schedule {
        at: at.into_iter().map(|s| s.to_string()).collect(),
        title: title.to_string(),
        org: org.to_string(),
        category: category.to_string(),
    }
}

#[test]
fn date_normalization_is_character_substitution() {
    assert_eq!(parse_date("2025.03.04."), "2025-03-04");
    assert_eq!(parse_date(" 2025.10.02. "), "2025-10-02");
    assert_eq!(parse_date("2025.3.4."), "2025-3-4");
    // no numeric validation: malformed input gives a malformed string
    assert_eq!(parse_date("해당없음"), "해당없음");
    assert_eq!(parse_date(""), "");
}

#[test]
fn date_normalization_trims_unicode_whitespace() {
    assert_eq!(parse_date("\u{00A0}2025.03.04.\u{3000} "), "2025-03-04");
    assert_eq!(parse_date("\t2025.03.04.\n"), "2025-03-04");
}

#[test]
fn date_parsing_accepts_real_dates_only() {
    let d = parse_iso_date("2025-03-04").unwrap();
    assert_eq!((d.year, d.month, d.day), (2025, 3, 4));
    let d = parse_iso_date("2025-3-4").unwrap();
    assert_eq!((d.year, d.month, d.day), (2025, 3, 4));
    let d = parse_iso_date("2024-02-29").unwrap();
    assert_eq!((d.year, d.month, d.day), (2024, 2, 29));
    assert!(parse_iso_date("2023-02-29").is_none());
    assert!(parse_iso_date("2025-13-01").is_none());
    assert!(parse_iso_date("2025-00-10").is_none());
    assert!(parse_iso_date("2025-04-31").is_none());
    assert!(parse_iso_date("notadate").is_none());
    assert!(parse_iso_date("2025-3-4-5").is_none());
    assert!(parse_iso_date("").is_none());
}

#[test]
fn snapshot_round_trip_plain_records() {
    let v = vec![
        sched(vec!["2025-03-04", "2025-03-07"], "수강신청", "교무처", "수업"),
        sched(vec!["2025-04-01"], "개강", "", "수업"),
    ];
    let json = encode_snapshot(&v);
    let back = decode_snapshot(&json).unwrap();
    assert_eq!(back.len(), 2);
    for (a, b) in v.iter().zip(back.iter()) {
        assert_eq!(a.at, b.at);
        assert_eq!(a.title, b.title);
        assert_eq!(a.org, b.org);
        assert_eq!(a.category, b.category);
    }
}

#[test]
fn snapshot_round_trip_special_characters() {
    let v = vec![
        sched(
            vec!["2025-05-01"],
            "제목에 \"따옴표\"와 \\역슬래시",
            "부서,이름;과\n줄바꿈\t탭",
            "기타",
        ),
    ];
    let json = encode_snapshot(&v);
    let back = decode_snapshot(&json).unwrap();
    assert_eq!(back.len(), 1);
    assert_eq!(back[0].title, v[0].title);
    assert_eq!(back[0].org, v[0].org);
    assert_eq!(back[0].category, v[0].category);
}

#[test]
fn snapshot_round_trip_empty_list() {
    let v: Vec<Schedule> = vec![];
    let json = encode_snapshot(&v);
    assert_eq!(json, "[]");
    let back = decode_snapshot(&json).unwrap();
    assert!(back.is_empty());
}

#[test]
fn snapshot_text_is_canonical_json() {
    let v = vec![sched(vec!["2025-01-02"], "개강", "", "")];
    let json = encode_snapshot(&v);
    assert_eq!(
        json,
        "[{\"at\":[\"2025-01-02\"],\"title\":\"개강\",\"org\":\"\",\"category\":\"\"}]"
    );
}

#[test]
fn snapshot_decode_rejects_malformed_text() {
    assert!(decode_snapshot("").is_none());
    assert!(decode_snapshot("{}").is_none());
    assert!(decode_snapshot("[{\"at\":[]}]").is_none());
    assert!(decode_snapshot("[] ").is_none());
    assert!(decode_snapshot("[{\"at\":[\"x\"],\"title\":\"a\",\"org\":\"\",\"category\":\"\"}").is_none());
}
