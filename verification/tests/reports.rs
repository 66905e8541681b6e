use countlogger::counts::DailyCounts;
use countlogger::data::GuildData;
use countlogger::date::Date;
use countlogger::paginate::{paginate, ReportLine, ReportPage, PAGE_LINE_LIMIT};
use countlogger::render::{render_page, HeaderLabels};
use countlogger::report::{generate_log_messages, header_labels, year_counts, years};
use countlogger::sorted_map::SortedMap;
use countlogger::sync::yearly_reports;
use countlogger::words::{get_word, CharaCase, Dictionary, Translation, WordEntry};

fn entry(key: &str, en: &str, jp: &str) -> WordEntry {
    WordEntry {
        key: key.to_string(),
        translations: vec![
            Translation { lang: "en".to_string(), text: en.to_string() },
            Translation { lang: "jp".to_string(), text: jp.to_string() },
        ],
    }
}

fn dictionary() -> Dictionary {
    Dictionary {
        entries: vec![
            entry("YEAR", "Year", "\u{5e74}"),
            entry("COUNT LOG", "Count Log", "\u{30ab}\u{30a6}\u{30f3}\u{30c8}"),
            entry("DATE", "Date", "\u{65e5}\u{4ed8}"),
            entry("SUM", "Sum", "\u{5408}\u{8a08}"),
            entry("5 MINUTES CHANGE", "5 min update", "5\u{5206}\u{66f4}\u{65b0}"),
            WordEntry {
                key: "ONLY FRENCH".to_string(),
                translations: vec![Translation { lang: "fr".to_string(), text: "oui".to_string() }],
            },
        ],
    }
}

fn labels() -> HeaderLabels {
    HeaderLabels {
        year: "Year".to_string(),
        count_log: "Count Log".to_string(),
        date: "Date".to_string(),
        sum: "Sum".to_string(),
        interval: "5 min update".to_string(),
    }
}

/// `n` consecutive days from the first of January, the count growing by 3.
fn days(year: i32, n: usize) -> DailyCounts {
    let mut counts: DailyCounts = SortedMap::new();
    for i in 0..n {
        let month = (i / 28) as u8 + 1;
        let day = (i % 28) as u8 + 1;
        counts.insert(Date::new(year, month, day), 3 * (i as i64 + 1));
    }
    counts
}

fn data_lines(text: &str) -> Vec<String> {
    text.lines().skip(2).filter(|l| !l.starts_with('-')).map(|l| l.to_string()).collect()
}

#[test]
fn a_short_page_is_rendered_whole() {
    let page = ReportPage {
        number: 1,
        lines: vec![
            ReportLine { date: Date::new(2024, 1, 5), count: 10, increment: 10 },
            ReportLine { date: Date::new(2024, 1, 6), count: 25, increment: 15 },
        ],
    };
    let text = render_page(&labels(), 0, &page);
    assert_eq!(
        text,
        "## **\u{1F4CA} `Year 2024 (1)` Count Log**\n`Date (UTC +0) : Sum  (5 min update)`\n\
         01-05 : 10 (+10)\n01-06 : 25 (+15)\n-2-"
    );
}

#[test]
fn a_separator_follows_every_fifth_line() {
    let mut lines = Vec::new();
    for d in 1..=6u8 {
        lines.push(ReportLine { date: Date::new(2023, 12, d), count: d as i64, increment: 1 });
    }
    let six = render_page(&labels(), -3, &ReportPage { number: 2, lines: lines.clone() });
    assert_eq!(
        six,
        "## **\u{1F4CA} `Year 2023 (2)` Count Log**\n`Date (UTC -3) : Sum  (5 min update)`\n\
         12-01 : 1 (+1)\n12-02 : 2 (+1)\n12-03 : 3 (+1)\n12-04 : 4 (+1)\n\
         12-05 : 5 (+1)\n-5-\n12-06 : 6 (+1)\n-6-"
    );
    lines.pop();
    let five = render_page(&labels(), -3, &ReportPage { number: 2, lines });
    assert!(five.ends_with("\n12-05 : 5 (+1)\n-5-"));
    assert_eq!(five.lines().filter(|l| l.starts_with('-')).count(), 1);
}

#[test]
fn a_falling_count_shows_a_negative_increment() {
    let page = ReportPage {
        number: 1,
        lines: vec![ReportLine { date: Date::new(2024, 7, 9), count: -4, increment: -14 }],
    };
    let text = render_page(&labels(), 14, &page);
    assert!(text.ends_with("\n07-09 : -4 (+-14)\n-1-"));
    assert!(text.contains("(UTC +14)"));
}

#[test]
fn years_are_shown_in_four_digits() {
    let line = |year| ReportPage {
        number: 1,
        lines: vec![ReportLine { date: Date::new(year, 1, 1), count: 1, increment: 1 }],
    };
    assert!(render_page(&labels(), 0, &line(987)).contains("`Year 0987 (1)`"));
    assert!(render_page(&labels(), 0, &line(12345)).contains("`Year +12345 (1)`"));
    assert!(render_page(&labels(), 0, &line(-44)).contains("`Year -0044 (1)`"));
}

#[test]
fn pagination_boundary() {
    let exact = paginate(&days(2024, PAGE_LINE_LIMIT), 0);
    assert_eq!(exact.len(), 1);
    assert_eq!(exact[0].number, 1);
    assert_eq!(exact[0].lines.len(), PAGE_LINE_LIMIT);
    let one_more = paginate(&days(2024, PAGE_LINE_LIMIT + 1), 0);
    assert_eq!(one_more.len(), 2);
    assert_eq!(one_more[0].lines.len(), PAGE_LINE_LIMIT);
    assert_eq!(one_more[1].number, 2);
    assert_eq!(one_more[1].lines.len(), 1);
    assert_eq!(paginate(&days(2024, 0), 0).len(), 0);
    assert_eq!(paginate(&days(2024, 1), 0).len(), 1);
    assert_eq!(paginate(&days(2024, 2 * PAGE_LINE_LIMIT), 0).len(), 2);
    assert_eq!(paginate(&days(2024, 2 * PAGE_LINE_LIMIT + 1), 0).len(), 3);
}

#[test]
fn rendered_boundary_pages() {
    let guild = GuildData::default();
    let exact = generate_log_messages(&dictionary(), &guild, &days(2024, PAGE_LINE_LIMIT), None);
    assert_eq!(exact.len(), 1);
    assert_eq!(data_lines(exact.value_at(0)).len(), PAGE_LINE_LIMIT);
    assert!(exact.value_at(0).ends_with("\n-40-"));
    let more = generate_log_messages(&dictionary(), &guild, &days(2024, PAGE_LINE_LIMIT + 1), None);
    assert_eq!(more.len(), 2);
    assert_eq!(more.key_at(0), 1);
    assert_eq!(more.key_at(1), 2);
    assert_eq!(data_lines(more.value_at(1)).len(), 1);
    assert!(more.value_at(1).ends_with(")\n-1-"));
}

#[test]
fn increments_run_on_across_pages() {
    let pages = paginate(&days(2024, 45), 100);
    assert_eq!(pages[0].lines[0].increment, 3 - 100);
    assert_eq!(pages[0].lines[1].increment, 3);
    assert_eq!(pages[1].lines[0].count, 3 * 41);
    assert_eq!(pages[1].lines[0].increment, 3);
}

#[test]
fn round_trip_pagination() {
    let counts = days(2024, 95);
    let pages = paginate(&counts, 0);
    let mut dates = Vec::new();
    for page in &pages {
        for line in &page.lines {
            dates.push(line.date);
        }
    }
    assert_eq!(dates.len(), 95);
    for i in 0..95 {
        assert_eq!(dates[i], counts.key_at(i));
    }
    // the same through the rendered text
    let rendered = generate_log_messages(&dictionary(), &GuildData::default(), &counts, None);
    let mut shown = Vec::new();
    for p in 0..rendered.len() {
        for line in data_lines(rendered.value_at(p)) {
            shown.push(line[0..5].to_string());
        }
    }
    let expected: Vec<String> = (0..95)
        .map(|i| {
            let d = counts.key_at(i);
            format!("{:02}-{:02}", d.month, d.day)
        })
        .collect();
    assert_eq!(shown, expected);
}

#[test]
fn no_counts_give_no_page() {
    let rendered = generate_log_messages(&dictionary(), &GuildData::default(), &days(2024, 0), None);
    assert_eq!(rendered.len(), 0);
}

#[test]
fn the_carry_over_sets_the_first_increment() {
    let guild = GuildData::default();
    let with = generate_log_messages(&dictionary(), &guild, &days(2024, 1), Some(1));
    assert!(with.value_at(0).contains("\n01-01 : 3 (+2)\n"));
    let without = generate_log_messages(&dictionary(), &guild, &days(2024, 1), None);
    assert!(without.value_at(0).contains("\n01-01 : 3 (+3)\n"));
}

#[test]
fn headers_follow_the_languages_of_the_guild() {
    let mut guild = GuildData::default();
    guild.settings.lang = "jp".to_string();
    guild.settings.lang2 = Some("en".to_string());
    guild.settings.utc = 9;
    let rendered = generate_log_messages(&dictionary(), &guild, &days(2024, 1), None);
    assert!(rendered.value_at(0).starts_with(
        "## **\u{1F4CA} `\u{5e74}/Year 2024 (1)` \u{30ab}\u{30a6}\u{30f3}\u{30c8}**\n\
         `\u{65e5}\u{4ed8}/Date (UTC +9) : \u{5408}\u{8a08}/Sum  (5\u{5206}\u{66f4}\u{65b0})`\n"
    ));
    let l = header_labels(&dictionary(), &guild);
    assert_eq!(l.year, "\u{5e74}/Year");
    assert_eq!(l.interval, "5\u{5206}\u{66f4}\u{65b0}");
}

#[test]
fn words_fall_back() {
    let d = dictionary();
    assert_eq!(get_word(&d, "Year", "en", None, CharaCase::Normal), "Year");
    assert_eq!(get_word(&d, "year", "jp", None, CharaCase::Normal), "\u{5e74}");
    // an unknown language falls back to English
    assert_eq!(get_word(&d, "Sum", "de", None, CharaCase::Normal), "Sum");
    assert_eq!(get_word(&d, "Sum", "de", Some("jp"), CharaCase::Normal), "Sum/\u{5408}\u{8a08}");
    // a word without an entry, and an entry without the language or English
    assert_eq!(get_word(&d, "Nothing", "en", Some("jp"), CharaCase::Normal), "<null>");
    assert_eq!(get_word(&d, "Only French", "en", None, CharaCase::Normal), "<null>");
    assert_eq!(get_word(&d, "Only French", "fr", Some("en"), CharaCase::Normal), "oui/<null>");
}

#[test]
fn words_change_case() {
    let d = dictionary();
    assert_eq!(get_word(&d, "Count Log", "en", None, CharaCase::Upper), "COUNT LOG");
    assert_eq!(get_word(&d, "Count Log", "en", None, CharaCase::Lower), "count log");
    assert_eq!(get_word(&d, "Date", "en", Some("en"), CharaCase::Upper), "DATE/DATE");
    assert_eq!(get_word(&d, "Nothing", "en", None, CharaCase::Upper), "<null>");
    assert_eq!(get_word(&d, "Only French", "en", None, CharaCase::Upper), "<NULL>");
}

#[test]
fn years_are_listed_once_in_order() {
    let mut counts = days(2023, 3);
    counts.insert(Date::new(2021, 6, 1), 1);
    counts.insert(Date::new(2024, 1, 1), 100);
    counts.insert(Date::new(2024, 1, 2), 101);
    assert_eq!(years(&counts), vec![2021, 2023, 2024]);
    assert_eq!(years(&days(2024, 0)), Vec::<i32>::new());
    let part = year_counts(&counts, 2023);
    assert_eq!(part.len(), 3);
    assert_eq!(part.key_at(0), Date::new(2023, 1, 1));
    assert_eq!(year_counts(&counts, 2022).len(), 0);
}

#[test]
fn each_year_grows_from_the_year_before() {
    let mut counts: DailyCounts = SortedMap::new();
    counts.insert(Date::new(2023, 12, 30), 90);
    counts.insert(Date::new(2023, 12, 31), 100);
    counts.insert(Date::new(2024, 1, 1), 104);
    counts.insert(Date::new(2025, 3, 1), 110);
    let reports = yearly_reports(&dictionary(), &GuildData::default(), &counts);
    assert_eq!(reports.len(), 3);
    assert_eq!(reports[0].year, 2023);
    assert_eq!(reports[1].year, 2024);
    assert_eq!(reports[2].year, 2025);
    assert!(reports[0].messages.value_at(0).contains("\n12-30 : 90 (+90)\n"));
    assert!(reports[0].messages.value_at(0).contains("\n12-31 : 100 (+10)\n"));
    assert!(reports[1].messages.value_at(0).contains("`Year 2024 (1)`"));
    assert!(reports[1].messages.value_at(0).contains("\n01-01 : 104 (+4)\n"));
    assert!(reports[2].messages.value_at(0).contains("\n03-01 : 110 (+6)\n"));
}

/// The text of a page after its header, which takes two lines.
fn body(text: &str) -> String {
    text.splitn(3, '\n').nth(2).unwrap().to_string()
}

fn march(days: u8) -> DailyCounts {
    let mut counts: DailyCounts = SortedMap::new();
    for d in 1..=days {
        counts.insert(Date::new(2024, 3, d), d as i64);
    }
    counts
}

#[test]
fn lines_are_date_count_and_increment() {
    let mut counts: DailyCounts = SortedMap::new();
    counts.insert(Date::new(2024, 1, 1), 5);
    counts.insert(Date::new(2024, 1, 2), 8);
    let pages = generate_log_messages(&dictionary(), &GuildData::default(), &counts, Some(3));
    assert_eq!(pages.len(), 1);
    assert_eq!(pages.key_at(0), 1);
    assert_eq!(body(pages.value_at(0)), "01-01 : 5 (+2)\n01-02 : 8 (+3)\n-2-");
}

#[test]
fn five_lines_close_with_one_separator() {
    let pages = generate_log_messages(&dictionary(), &GuildData::default(), &march(5), None);
    assert_eq!(pages.len(), 1);
    assert_eq!(
        body(pages.value_at(0)),
        "03-01 : 1 (+1)\n03-02 : 2 (+1)\n03-03 : 3 (+1)\n03-04 : 4 (+1)\n03-05 : 5 (+1)\n-5-"
    );
}

#[test]
fn seven_lines_close_with_a_forced_separator() {
    let pages = generate_log_messages(&dictionary(), &GuildData::default(), &march(7), None);
    assert_eq!(pages.len(), 1);
    assert_eq!(
        body(pages.value_at(0)),
        "03-01 : 1 (+1)\n03-02 : 2 (+1)\n03-03 : 3 (+1)\n03-04 : 4 (+1)\n03-05 : 5 (+1)\n-5-\n\
         03-06 : 6 (+1)\n03-07 : 7 (+1)\n-7-"
    );
}
