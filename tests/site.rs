use mdsite::helper::{
    chinese_time, chinese_weekday, chinese_year, format_calendar_fields, format_date_parts, format_system_time, number_to_chinese,
    ordinal_suffix, weekday_from_monday, DateTimeParts, Weekday,
};
use mdsite::listing::{index_page, newest_first, Card};
use mdsite::page::{extract_title, generate_page, page_html};
use mdsite::store::{Article, ArticleStore};
use mdsite::toc::trim_text;

fn article(slug: &str, title: &str, content: &str, modified: u64, created: u64) -> Article {
    Article {
        slug: slug.to_string(),
        title: title.to_string(),
        content: content.to_string(),
        source_path: format!("articles/{}.md", slug),
        last_modified: modified,
        created_at: created,
    }
}

#[test]
fn ordinal_suffixes() {
    assert_eq!(ordinal_suffix(1), "1st");
    assert_eq!(ordinal_suffix(2), "2nd");
    assert_eq!(ordinal_suffix(3), "3rd");
    assert_eq!(ordinal_suffix(4), "4th");
    assert_eq!(ordinal_suffix(11), "11th");
    assert_eq!(ordinal_suffix(13), "13th");
    assert_eq!(ordinal_suffix(21), "21st");
    assert_eq!(ordinal_suffix(22), "22nd");
    assert_eq!(ordinal_suffix(23), "23rd");
    assert_eq!(ordinal_suffix(31), "31st");
}

#[test]
fn chinese_years() {
    assert_eq!(chinese_year(2025), "二零二五");
    assert_eq!(chinese_year(0), "零");
    assert_eq!(chinese_year(1999), "一九九九");
}

#[test]
fn chinese_numbers() {
    assert_eq!(number_to_chinese(0), "零");
    assert_eq!(number_to_chinese(7), "七");
    assert_eq!(number_to_chinese(10), "十");
    assert_eq!(number_to_chinese(15), "十五");
    assert_eq!(number_to_chinese(20), "二十");
    assert_eq!(number_to_chinese(35), "三十五");
    assert_eq!(number_to_chinese(99), "九十九");
    assert_eq!(number_to_chinese(100), "100");
}

#[test]
fn chinese_times() {
    assert_eq!(chinese_time(15, 20), "中午三点二十分");
    assert_eq!(chinese_time(23, 5), "深夜十一点五分");
    assert_eq!(chinese_time(0, 0), "凌晨零点零分");
    assert_eq!(chinese_time(7, 30), "凌晨七点三十分");
    assert_eq!(chinese_time(8, 1), "上午八点一分");
    assert_eq!(chinese_time(12, 0), "上午十二点零分");
    assert_eq!(chinese_time(18, 45), "下午六点四十五分");
    assert_eq!(chinese_time(20, 10), "傍晚八点十分");
    assert_eq!(chinese_time(22, 59), "晚上十点五十九分");
}

#[test]
fn chinese_weekdays() {
    assert_eq!(chinese_weekday(Weekday::Mon), "星期一");
    assert_eq!(chinese_weekday(Weekday::Sun), "星期日");
}

#[test]
fn date_in_both_languages() {
    let p = DateTimeParts { year: 2025, month: 3, day: 2, weekday: Weekday::Sun, hour: 15, minute: 7 };
    let (en, cn) = format_date_parts(&p);
    assert_eq!(en, "Sunday, 2025, March 2nd. 03:07 PM");
    assert_eq!(cn, "二零二五年三月二日，星期日，中午三点七分");
}

#[test]
fn date_midnight_and_noon() {
    let p = DateTimeParts { year: 987, month: 12, day: 31, weekday: Weekday::Fri, hour: 0, minute: 5 };
    assert_eq!(format_date_parts(&p).0, "Friday, 0987, December 31st. 12:05 AM");
    let p = DateTimeParts { year: 2024, month: 1, day: 11, weekday: Weekday::Thu, hour: 12, minute: 0 };
    assert_eq!(format_date_parts(&p).0, "Thursday, 2024, January 11th. 12:00 PM");
}

#[test]
fn markdown_renders() {
    assert_eq!(extract_title("*a*"), "<p><em>a</em></p>\n");
}

#[test]
fn title_from_first_line() {
    assert_eq!(extract_title("# Hello\nbody"), "<p>Hello</p>\n");
}

#[test]
fn title_skips_blank_lines() {
    assert_eq!(extract_title("\n\r\n## Title  \r\nrest"), "<p>Title</p>\n");
    assert_eq!(extract_title(""), "");
    assert_eq!(extract_title("   \n\t\n# Real title\n"), "<p>Real title</p>\n");
}

#[test]
fn page_template() {
    assert_eq!(
        page_html("<head></head>", "<p>x</p>"),
        "<!DOCTYPE html>\n<html>\n<head></head>\n<body>\n<main class=\"container\">\n<p>x</p>\n</main>\n</body>\n</html>"
    );
    assert_eq!(
        generate_page("<head></head>", "# T"),
        "<!DOCTYPE html>\n<html>\n<head></head>\n<body>\n<main class=\"container\">\n<h1>T</h1>\n\n</main>\n</body>\n</html>"
    );
}

#[test]
fn unknown_slug_not_found() {
    let mut store = ArticleStore::new();
    assert!(store.get("missing").is_none());
    store.insert(article("a", "A", "<p>a</p>", 10, 1));
    assert!(store.get("missing").is_none());
    assert_eq!(store.get("a").unwrap().title, "A");
}

#[test]
fn insert_replaces_same_slug() {
    let mut store = ArticleStore::new();
    store.insert(article("a", "A", "1", 10, 1));
    store.insert(article("a", "B", "2", 20, 1));
    assert_eq!(store.entries.len(), 1);
    assert_eq!(store.get("a").unwrap().content, "2");
}

#[test]
fn stale_refresh_replaces_whole_article() {
    let mut store = ArticleStore::new();
    store.insert(article("a", "Old", "old body", 10, 1));
    assert!(store.is_stale("a", 11));
    assert!(!store.is_stale("a", 10));
    assert!(!store.is_stale("b", 11));
    store.apply_refresh("a", 11, "New".to_string(), "new body".to_string());
    let a = store.get("a").unwrap();
    assert_eq!((a.title.as_str(), a.content.as_str(), a.last_modified), ("New", "new body", 11));
    assert_eq!((a.created_at, a.source_path.as_str()), (1, "articles/a.md"));
}

#[test]
fn fresh_refresh_changes_nothing() {
    let mut store = ArticleStore::new();
    store.insert(article("a", "Old", "old body", 10, 1));
    store.apply_refresh("a", 10, "New".to_string(), "new body".to_string());
    assert_eq!(store.get("a").unwrap(), &article("a", "Old", "old body", 10, 1));
    store.apply_refresh("zz", 99, "New".to_string(), "new body".to_string());
    assert!(store.get("zz").is_none());
}

#[test]
fn sweep_removes_deleted_sources() {
    let mut store = ArticleStore::new();
    store.insert(article("a", "A", "1", 10, 1));
    store.insert(article("b", "B", "2", 10, 2));
    store.insert(article("c", "C", "3", 10, 3));
    store.remove_missing(&vec!["a".to_string(), "c".to_string()]);
    assert!(store.get("b").is_none());
    assert_eq!(store.get("a").unwrap().title, "A");
    assert_eq!(store.get("c").unwrap().title, "C");
    assert_eq!(store.entries.len(), 2);
}

#[test]
fn listing_newest_first() {
    let mut store = ArticleStore::new();
    store.insert(article("a", "A", "1", 10, 5));
    store.insert(article("b", "B", "2", 10, 9));
    store.insert(article("c", "C", "3", 10, 1));
    store.insert(article("d", "D", "4", 10, 7));
    assert_eq!(newest_first(&store), vec![1, 3, 0, 2]);
}

#[test]
fn listing_page() {
    let cards = vec![Card {
        slug: "a".to_string(),
        title: "<p>A</p>\n".to_string(),
        english_time: "E".to_string(),
        chinese_time: "C".to_string(),
    }];
    let expected = "<!DOCTYPE html>\n<html>\nHEAD\n<body>\n<main class=\"container\">\n<h1>Articles</h1><div class=\"card\">\n                <h2><a href=\"/articles/a\"><p>A</p>\n</a></h2>\n                <div class=\"time-container\"><span>E</span> <span>C</span></div>\n            </div></main>\n</body>\n</html>";
    assert_eq!(index_page("HEAD", &cards), expected);
}

#[test]
fn system_time_in_both_languages() {
    // 2025-03-02 12:00 UTC is a Sunday in every time zone within twelve hours of UTC.
    let (en, cn) = format_system_time(1_740_916_800_000_000_000).unwrap();
    assert!(en.contains(", 2025, March "), "{}", en);
    assert!(cn.starts_with("二零二五年三月"), "{}", cn);
    assert!(en.ends_with(" AM") || en.ends_with(" PM"));
}

#[test]
fn weekdays_from_monday() {
    assert_eq!(weekday_from_monday(0), Weekday::Mon);
    assert_eq!(weekday_from_monday(6), Weekday::Sun);
}

#[test]
fn readers_never_see_torn_article() {
    let runtime = tokio::runtime::Builder::new_multi_thread().worker_threads(4).build().unwrap();
    runtime.block_on(async {
        let mut store = ArticleStore::new();
        store.insert(article("s", "old title", "old content", 10, 1));
        let shared = std::sync::Arc::new(tokio::sync::RwLock::new(store));
        let mut readers = Vec::new();
        for _ in 0..8 {
            let shared = shared.clone();
            readers.push(tokio::spawn(async move {
                for _ in 0..200 {
                    let store = shared.read().await;
                    let a = store.get("s").unwrap();
                    let pair = (a.title.as_str(), a.content.as_str(), a.last_modified);
                    assert!(
                        pair == ("old title", "old content", 10) || pair == ("new title", "new content", 20),
                        "{:?}",
                        pair
                    );
                    drop(store);
                    tokio::task::yield_now().await;
                }
            }));
        }
        let writer = shared.clone();
        let refresh = tokio::spawn(async move {
            let mut store = writer.write().await;
            if store.is_stale("s", 20) {
                store.apply_refresh("s", 20, "new title".to_string(), "new content".to_string());
            }
        });
        refresh.await.unwrap();
        for r in readers {
            r.await.unwrap();
        }
        let store = shared.read().await;
        assert_eq!(store.get("s").unwrap().title, "new title");
    });
}

#[test]
fn calendar_fields_formats() {
    let (en, cn) = format_calendar_fields(2025, 3, 2, 6, 15, 7).unwrap();
    assert_eq!(en, "Sunday, 2025, March 2nd. 03:07 PM");
    assert_eq!(cn, "二零二五年三月二日，星期日，中午三点七分");
    assert!(format_calendar_fields(-1, 3, 2, 6, 15, 7).is_none());
    assert!(format_calendar_fields(10000, 3, 2, 6, 15, 7).is_none());
}

#[test]
fn trims_unicode_white_space() {
    assert_eq!(trim_text("  a b \n"), "a b");
    assert_eq!(trim_text("\u{3000}\u{a0}x\u{2029}"), "x");
    assert_eq!(trim_text(" \t "), "");
    assert_eq!(trim_text("\u{200b}y"), "\u{200b}y");
}
