use unical::classify::categorize_schedules;
use unical::config::{UnivConfig, YearConfig};
use unical::extract::{get_crawler, parse_schedule, rows_to_schedules, CrawlerKind};
use unical::icsgen::create_ics;
use unical::pipeline::{
    artifact_path, filter_schedules, json_to_ics, plan_unit, snapshot_path, variant_path,
    PipelineAction,
};
use unical::schedule::{Schedule, ScheduleCategoryList};
use unical::snapshot::encode_snapshot;

fn sched(at: Vec<&str>, title: &str, org: &str, category: &str) -> Schedule {
    Schedule {
        at: at.into_iter().map(|s| s.to_string()).collect(),
        title: title.to_string(),
        org: org.to_string(),
        category: category.to_string(),
    }
}

#[test]
fn extraction_scenario_range_row() {
    let rows = vec![vec![
        "2025.03.04. ~ 2025.03.07.".to_string(),
        "수강신청 (주관부서: 교무처)".to_string(),
    ]];
    let recs = rows_to_schedules(&rows);
    assert_eq!(recs.len(), 1);
    assert_eq!(
        recs[0].at,
        vec!["2025-03-04".to_string(), "2025-03-07".to_string()]
    );
    assert_eq!(recs[0].title, "수강신청");
    assert_eq!(recs[0].org, "교무처");
    assert_eq!(recs[0].category, "");
}

#[test]
fn extraction_skips_short_rows_and_keeps_plain_ones() {
    let rows = vec![
        vec!["머리글".to_string()],
        vec!["2025.03.04.".to_string(), "개강".to_string()],
    ];
    let recs = rows_to_schedules(&rows);
    assert_eq!(recs.len(), 1);
    assert_eq!(recs[0].at, vec!["2025-03-04".to_string()]);
    assert_eq!(recs[0].title, "개강");
    assert_eq!(recs[0].org, "");
}

#[test]
fn extraction_from_html_document() {
    let html = "<html><body><div id=\"content_focus\"><div><div class=\"cont_group\">\
<div class=\"schedule\"><div><table>\
<tr><td>2025.03.04. ~ 2025.03.07.</td><td>수강신청 (주관부서: 교무처)</td></tr>\
<tr><td>2025.04.01.</td><td>개강</td></tr>\
</table></div></div></div></div></body></html>";
    let recs = parse_schedule(html);
    assert_eq!(recs.len(), 2);
    assert_eq!(
        recs[0].at,
        vec!["2025-03-04".to_string(), "2025-03-07".to_string()]
    );
    assert_eq!(recs[0].title, "수강신청");
    assert_eq!(recs[0].org, "교무처");
    assert_eq!(recs[1].title, "개강");
}

#[test]
fn extraction_of_document_without_table_is_empty() {
    let recs = parse_schedule("<html><body><p>일정 없음</p></body></html>");
    assert!(recs.is_empty());
}

#[test]
fn crawler_dispatch_is_a_closed_registry() {
    assert_eq!(get_crawler("dongguk"), Some(CrawlerKind::Dongguk));
    assert_eq!(get_crawler("unknown"), None);
}

#[test]
fn encoding_scenario_single_all_day_event() {
    let v = vec![sched(vec!["2025-03-04"], "개강", "", "수업")];
    let ics = create_ics(&v, "동국대학교", 2025);
    assert_eq!(ics.matches("BEGIN:VEVENT").count(), 1);
    assert_eq!(ics.matches("END:VEVENT").count(), 1);
    assert!(ics.contains("DTSTART;VALUE=DATE:20250304"));
    assert!(ics.contains("DTEND;VALUE=DATE:20250304"));
    assert!(ics.contains("SUMMARY:개강"));
    assert!(!ics.contains("DESCRIPTION"));
    assert!(ics.contains("STATUS:CONFIRMED"));
    assert!(ics.contains("BEGIN:VCALENDAR\r\n"));
    assert!(ics.contains("PRODID:-//동국대학교 2025 학사일정//KR"));
    assert!(ics.contains("TZID:Asia/Seoul"));
    assert!(ics.ends_with("END:VCALENDAR\r\n"));
}

#[test]
fn encoding_gives_each_event_a_fresh_uid_and_stamp() {
    let v = vec![
        sched(vec!["2025-03-04"], "개강", "", "수업"),
        sched(vec!["2025-06-20"], "종강", "", "수업"),
    ];
    let ics = create_ics(&v, "동국대학교", 2025);
    let uids: Vec<&str> = ics
        .lines()
        .filter(|l| l.starts_with("UID:"))
        .collect();
    assert_eq!(uids.len(), 2);
    assert_eq!(uids[0].len(), 4 + 36);
    assert_ne!(uids[0], uids[1]);
    assert_eq!(ics.matches("DTSTAMP:").count(), 2);
}

#[test]
fn encoding_escapes_description_and_uses_span() {
    let v = vec![sched(
        vec!["2025-03-04", "2025-03-07"],
        "수강신청",
        "교무처",
        "수업",
    )];
    let ics = create_ics(&v, "동국대학교", 2025);
    assert!(ics.contains("DTSTART;VALUE=DATE:20250304"));
    assert!(ics.contains("DTEND;VALUE=DATE:20250307"));
    assert!(ics.contains("DESCRIPTION:수업 관련\\n주관부서: 교무처"));
}

#[test]
fn encoding_substitutes_the_fallback_date() {
    let v = vec![sched(vec!["일정없음"], "개강", "", "수업")];
    let ics = create_ics(&v, "동국대학교", 2025);
    assert!(ics.contains("DTSTART;VALUE=DATE:20240101"));
    assert!(ics.contains("DTEND;VALUE=DATE:20240101"));
}

#[test]
fn encoding_folds_long_lines_to_75_octets() {
    let long_title = "아주".repeat(40);
    let v = vec![sched(vec!["2025-03-04"], &long_title, "", "기타")];
    let ics = create_ics(&v, "동국대학교", 2025);
    assert!(ics.contains("\r\n "));
    for line in ics.split("\r\n") {
        assert!(line.len() <= 75, "physical line over 75 octets: {:?}", line);
    }
    let unfolded = ics.replace("\r\n ", "");
    assert!(unfolded.contains(&format!("SUMMARY:{}", long_title)));
}

#[test]
fn filter_scenario_mask_selects_two_categories() {
    let mut v = vec![
        sched(vec!["2025-03-04"], "수강신청", "", ""),
        sched(vec!["2025-03-05"], "휴학 신청", "", ""),
        sched(vec!["2025-03-06"], "논문 제출", "", ""),
        sched(vec!["2025-03-07"], "장학 신청", "", ""),
        sched(vec!["2025-03-08"], "교직 안내", "", ""),
        sched(vec!["2025-03-09"], "입학식", "", ""),
        sched(vec!["2025-03-10"], "그 밖의 일정", "", ""),
        sched(vec!["2025-03-11"], "개강", "", ""),
        sched(vec!["2025-03-12"], "종강", "", ""),
        sched(vec!["2025-03-13"], "복학 안내", "", ""),
    ];
    categorize_schedules(&mut v);
    v[9].category = "졸업".to_string();
    let json = encode_snapshot(&v);
    let mask: u32 = 0b1001;
    let ics = json_to_ics(&json, "동국대학교", 2025, mask);
    assert_eq!(ics.matches("BEGIN:VEVENT").count(), 4);
    assert!(ics.contains("SUMMARY:수강신청"));
    assert!(ics.contains("SUMMARY:개강"));
    assert!(ics.contains("SUMMARY:종강"));
    assert!(ics.contains("SUMMARY:장학 신청"));
    assert!(!ics.contains("SUMMARY:논문 제출"));
    assert!(!ics.contains("SUMMARY:입학식"));
}

#[test]
fn filter_keeps_matching_records_in_order() {
    let v = vec![
        sched(vec!["2025-03-04"], "개강", "", "수업"),
        sched(vec!["2025-03-05"], "입학식", "", "행사"),
        sched(vec!["2025-03-06"], "종강", "", "수업"),
    ];
    let list = ScheduleCategoryList::from_categories(vec!["수업".to_string()]);
    let kept = filter_schedules(v, &list);
    assert_eq!(kept.len(), 2);
    assert_eq!(kept[0].title, "개강");
    assert_eq!(kept[1].title, "종강");
}

#[test]
fn bad_snapshot_gives_empty_calendar_text() {
    assert_eq!(json_to_ics("깨진 내용", "동국대학교", 2025, 0xFF), "");
}

#[test]
fn orchestrator_skips_existing_artifacts() {
    assert_eq!(plan_unit(true), PipelineAction::Skip);
    assert_eq!(plan_unit(false), PipelineAction::Crawl);
}

#[test]
fn storage_keys_embed_prefix_year_and_mask() {
    assert_eq!(artifact_path("dongguk", 2025), "public/dongguk_2025.ics");
    assert_eq!(snapshot_path("dongguk", 2025), "data/dongguk_2025.json");
    assert_eq!(variant_path("dongguk", 2025, 9), "public/dongguk_2025_9.ics");
    assert_eq!(artifact_path("x", -7), "public/x_-7.ics");
    assert_eq!(
        variant_path("x", 0, u32::MAX),
        "public/x_0_4294967295.ics"
    );
}

fn demo_configs() -> Vec<UnivConfig> {
    vec![UnivConfig {
        name: "동국대학교".to_string(),
        prefix: "dongguk".to_string(),
        univ_code: "dgu".to_string(),
        years: vec![
            YearConfig {
                year: 2024,
                year_code: "dgu24".to_string(),
                url: "https://example.ac.kr/2024".to_string(),
            },
            YearConfig {
                year: 2025,
                year_code: "dgu25".to_string(),
                url: "https://example.ac.kr/2025".to_string(),
            },
        ],
        crawler_type: "dongguk".to_string(),
    }]
}

#[test]
fn config_lookup_by_codes() {
    let cfgs = demo_configs();
    let c = UnivConfig::get_by_code(&cfgs, "dgu").unwrap();
    assert_eq!(c.prefix, "dongguk");
    assert!(UnivConfig::get_by_code(&cfgs, "none").is_none());
    assert_eq!(UnivConfig::get_name_by_code(&cfgs, "dgu"), Some("동국대학교"));
    assert_eq!(
        UnivConfig::get_year_by_code(&cfgs, "dgu25"),
        Some("https://example.ac.kr/2025")
    );
    assert!(UnivConfig::get_year_by_code(&cfgs, "zzz").is_none());
}
