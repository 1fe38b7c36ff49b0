use doubangen::common::Candidate;
use doubangen::input::{
    auto_next, lookup_after, lookup_start, AutoNext, LookupStage,
    candidate_plan, cn_format, cn_media, cn_source, detect, douban_lookup, id_or_zero, parse_i64,
    parse_tmdb_id, plan, split_query_year, tmdb_lookup, IntError, Plan,
};
use doubangen::json::JsonValue;

fn text(s: &str) -> JsonValue {
    JsonValue::Str(s.to_string())
}

fn obj(members: Vec<(&str, JsonValue)>) -> JsonValue {
    JsonValue::Object(members.into_iter().map(|(k, v)| (k.to_string(), v)).collect())
}

#[test]
fn detect_tmdb_url() {
    let i = detect("https://www.themoviedb.org/movie/278-the-shawshank-redemption", "auto");
    assert_eq!(i.kind, "tmdb_url");
    assert_eq!(i.id, "278");
    assert_eq!(i.media_type, "movie");
    let t = detect("https://www.themoviedb.org/tv/1396", "auto");
    assert_eq!(t.kind, "tmdb_url");
    assert_eq!(t.id, "1396");
    assert_eq!(t.media_type, "tv");
}

#[test]
fn detect_douban_link_and_ids() {
    let i = detect("https://movie.douban.com/subject/1292052/", "auto");
    assert_eq!(i.kind, "douban_id");
    assert_eq!(i.id, "1292052");
    let d = detect(" 1292052 ", "auto");
    assert_eq!(d.kind, "douban_id");
    assert_eq!(d.id, "1292052");
    let t = detect("278", "movie");
    assert_eq!(t.kind, "tmdb_id");
    assert_eq!(t.id, "278");
    assert_eq!(t.media_type, "movie");
}

#[test]
fn detect_imdb_id() {
    let i = detect("tt0111161", "auto");
    assert_eq!(i.kind, "imdb");
    assert_eq!(i.id, "tt0111161");
    let not_imdb = detect("tt", "auto");
    assert_eq!(not_imdb.kind, "search");
    let letters = detect("ttx1", "auto");
    assert_eq!(letters.kind, "search");
}

#[test]
fn detect_search_with_year() {
    let i = detect("  肖申克的救赎 1994 ", "auto");
    assert_eq!(i.kind, "search");
    assert_eq!(i.query, "肖申克的救赎");
    assert_eq!(i.year, Some("1994".to_string()));
    let plain = detect("Dune Part Two", "auto");
    assert_eq!(plain.query, "Dune Part Two");
    assert_eq!(plain.year, None);
}

#[test]
fn split_query_year_takes_only_a_four_digit_last_word() {
    assert_eq!(
        split_query_year("Dune Part Two 2024"),
        ("Dune Part Two".to_string(), Some("2024".to_string()))
    );
    assert_eq!(split_query_year("Blade Runner 2049x"), ("Blade Runner 2049x".to_string(), None));
    assert_eq!(split_query_year("1917"), ("1917".to_string(), None));
    assert_eq!(split_query_year("Heat 95"), ("Heat 95".to_string(), None));
    let (q, y) = split_query_year("A B 1999");
    assert_eq!(format!("{} {}", q, y.unwrap()), "A B 1999");
}

#[test]
fn integer_parse_errors_carry_their_messages() {
    assert_eq!(parse_tmdb_id("+42"), Ok(42));
    assert_eq!(parse_tmdb_id("-7"), Ok(-7));
    assert_eq!(parse_tmdb_id(""), Err("cannot parse integer from empty string".to_string()));
    assert_eq!(parse_tmdb_id("12a"), Err("invalid digit found in string".to_string()));
    assert_eq!(parse_tmdb_id("-"), Err("invalid digit found in string".to_string()));
    assert_eq!(
        parse_tmdb_id("99999999999999999999"),
        Err("number too large to fit in target type".to_string())
    );
    assert_eq!(
        parse_tmdb_id("-99999999999999999999"),
        Err("number too small to fit in target type".to_string())
    );
    assert_eq!(parse_tmdb_id("9223372036854775807"), Ok(i64::MAX));
    assert_eq!(parse_tmdb_id("-9223372036854775808"), Ok(i64::MIN));
    assert!(matches!(parse_i64("9223372036854775808"), Err(IntError::PosOverflow)));
    assert!(matches!(parse_i64(" 1"), Err(IntError::InvalidDigit)));
    assert_eq!(id_or_zero("abc"), 0);
    assert_eq!(id_or_zero("550"), 550);
}

#[test]
fn option_labels_in_chinese() {
    assert_eq!(cn_source("auto"), "自动");
    assert_eq!(cn_source("merge"), "聚合");
    assert_eq!(cn_format("json"), "JSON");
    assert_eq!(cn_media("tv"), "剧集");
    assert_eq!(cn_media("x"), "");
}

#[test]
fn plans_follow_the_source_mode() {
    let imdb = detect("tt0111161", "auto");
    assert!(matches!(plan("douban", &imdb, "auto", true),
        Ok(Plan::DoubanDetail { ref id, douban_mode: true }) if id == "tt0111161"));
    assert!(matches!(plan("tmdb", &imdb, "auto", true),
        Ok(Plan::TmdbFind { ref imdb_id }) if imdb_id == "tt0111161"));
    let douban = detect("1292052", "auto");
    assert!(matches!(plan("tmdb", &douban, "auto", true),
        Err(ref e) if e == "tmdb 不支持输入: douban_id"));
    assert!(matches!(plan("xyz", &douban, "auto", true), Err(ref e) if e == "未知 source"));
    let search = detect("Dune 2021", "auto");
    assert!(matches!(plan("auto", &search, "movie", false),
        Ok(Plan::AutoSearch { ref query, ref media_type, year: Some(ref y), fallback: false })
            if query == "Dune" && media_type == "movie" && y == "2021"));
    assert!(matches!(plan("merge", &search, "auto", true),
        Ok(Plan::DoubanSearch { ref query }) if query == "Dune"));
    let url = detect("https://www.themoviedb.org/tv/1396", "auto");
    assert!(matches!(plan("merge", &url, "auto", true),
        Ok(Plan::MergeFromTmdb { id: 1396, ref media_type }) if media_type == "tv"));
    let merge_douban = plan("merge", &imdb, "auto", true);
    assert!(matches!(merge_douban,
        Ok(Plan::MergeFromDouban { ref id, douban_mode: true }) if id == "tt0111161"));
}

fn candidate(source: &str, id: &str, media_type: &str) -> Candidate {
    Candidate {
        source: source.to_string(),
        id: id.to_string(),
        media_type: media_type.to_string(),
        title: String::new(),
        chinese_title: String::new(),
        year: String::new(),
        rating: String::new(),
        region: String::new(),
        genre: vec![],
        poster: String::new(),
    }
}

#[test]
fn candidate_plans_by_source() {
    assert!(matches!(candidate_plan(&candidate("douban", "1292052", "movie"), "merge"),
        Ok(Plan::MergeFromDouban { ref id, douban_mode: false }) if id == "1292052"));
    assert!(matches!(candidate_plan(&candidate("douban", "1292052", "movie"), "auto"),
        Ok(Plan::DoubanDetail { ref id, douban_mode: false }) if id == "1292052"));
    assert!(matches!(candidate_plan(&candidate("tmdb", "550", "movie"), "auto"),
        Ok(Plan::TmdbDetail { id: 550, ref media_type }) if media_type == "movie"));
    assert!(matches!(candidate_plan(&candidate("tmdb", "abc", "movie"), "auto"),
        Err(ref e) if e == "invalid digit found in string"));
    assert!(matches!(candidate_plan(&candidate("imdb", "1", "movie"), "auto"),
        Err(ref e) if e == "未知候选来源"));
}

#[test]
fn lookups_between_sources() {
    let d = obj(vec![
        ("imdb_id", text("")),
        ("chinese_title", text("霸王别姬")),
        ("title", text("霸王别姬 Farewell My Concubine")),
        ("year", text("1993")),
    ]);
    let l = tmdb_lookup(&d);
    assert_eq!(l.imdb_id, None);
    assert_eq!(l.query, "霸王别姬 1993");
    assert_eq!(l.year, Some("1993".to_string()));
    let t = obj(vec![
        ("imdb_id", text("tt0106332")),
        ("original_title", text("Ba wang bie ji")),
        ("title", text("x")),
    ]);
    assert_eq!(
        douban_lookup(&t),
        (Some("tt0106332".to_string()), "Ba wang bie ji".to_string())
    );
    let bare = tmdb_lookup(&obj(vec![("title", text("Up"))]));
    assert_eq!(bare.query, "Up");
    assert_eq!(bare.year, None);
}

#[test]
fn automatic_search_falls_back_only_when_douban_finds_nothing() {
    assert_eq!(auto_next(3, true), AutoNext::ShowDouban);
    assert_eq!(auto_next(3, false), AutoNext::ShowDouban);
    assert_eq!(auto_next(0, true), AutoNext::SearchTmdb);
    assert_eq!(auto_next(0, false), AutoNext::ShowNothing);
}

#[test]
fn lookups_try_the_imdb_id_then_the_title() {
    assert_eq!(lookup_start(true), LookupStage::ByImdb);
    assert_eq!(lookup_start(false), LookupStage::ByTitle);
    assert_eq!(lookup_after(LookupStage::ByImdb, false), LookupStage::ByTitle);
    assert_eq!(lookup_after(LookupStage::ByImdb, true), LookupStage::Finished);
    assert_eq!(lookup_after(LookupStage::ByTitle, false), LookupStage::Finished);
    assert_eq!(lookup_after(LookupStage::Finished, false), LookupStage::Finished);
}
