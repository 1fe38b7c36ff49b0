use doubangen::common::{
    country_cn, country_en_to_cn, join_name, next_step, parse_release_dates, pick_aka,
    release_dates_fit, tmdb_request_url, Attempt, NextStep,
};
use doubangen::doubaninfo::build_url;
use doubangen::json::{JsonNumber, JsonValue};

fn text(s: &str) -> JsonValue {
    JsonValue::Str(s.to_string())
}

fn obj(members: Vec<(&str, JsonValue)>) -> JsonValue {
    JsonValue::Object(members.into_iter().map(|(k, v)| (k.to_string(), v)).collect())
}

fn num(n: u64) -> JsonValue {
    JsonValue::Number(JsonNumber {
        as_u64: Some(n),
        as_i64: Some(n as i64),
        float_text: n.to_string(),
        float_positive: n > 0,
    })
}

#[test]
fn country_codes_map_to_chinese_names() {
    assert_eq!(country_cn("US"), "美国");
    assert_eq!(country_cn("CN"), "中国大陆");
    assert_eq!(country_cn("ZA"), "南非");
    assert_eq!(country_cn("XX"), "XX");
}

#[test]
fn english_country_names_map_to_chinese() {
    assert_eq!(country_en_to_cn("United States of America"), "美国");
    assert_eq!(country_en_to_cn("United States"), "美国");
    assert_eq!(country_en_to_cn("Korea"), "韩国");
    assert_eq!(country_en_to_cn("Russia"), "俄罗斯");
    assert_eq!(country_en_to_cn("Brazil"), "Brazil");
}

#[test]
fn join_name_keeps_one_of_equal_names() {
    assert_eq!(
        join_name("  肖申克的救赎 ", "The Shawshank Redemption"),
        "肖申克的救赎 The Shawshank Redemption"
    );
    assert_eq!(join_name("Up", " Up "), "Up");
    assert_eq!(join_name("Name", "   "), "Name");
    assert_eq!(join_name("", "Only"), " Only");
}

#[test]
fn pick_aka_drops_repeats_blanks_and_stops_at_limit() {
    let titles = vec![
        obj(vec![("title", text("A"))]),
        text("B"),
        obj(vec![("title", text("A"))]),
        text(""),
        num(5),
        obj(vec![("iso", text("US"))]),
        text("C"),
    ];
    assert_eq!(pick_aka(&titles, 2), vec!["A".to_string(), "B".to_string()]);
    assert_eq!(
        pick_aka(&titles, 10),
        vec!["A".to_string(), "B".to_string(), "C".to_string()]
    );
    assert!(pick_aka(&titles, 0).is_empty());
}

fn release(tag: &str, dates: &[&str]) -> JsonValue {
    obj(vec![
        ("iso_3166_1", text(tag)),
        (
            "release_dates",
            JsonValue::Array(
                dates
                    .iter()
                    .map(|d| obj(vec![("release_date", text(d))]))
                    .collect(),
            ),
        ),
    ])
}

#[test]
fn release_dates_keep_the_earliest_per_main_region_in_order() {
    let rd = JsonValue::Array(vec![
        release("US", &["2020-05-01T00:00:00.000Z", "2019-12-25T00:00:00.000Z"]),
        release("FR", &["2018-01-01T00:00:00.000Z"]),
        release("CN", &["2020-06-01T00:00:00.000Z", ""]),
        release("JP", &["2021"]),
    ]);
    assert!(release_dates_fit(&rd));
    assert_eq!(
        parse_release_dates(&rd),
        "2020-06-01(中国大陆) / 2019-12-25(美国) / 2021(日本)"
    );
    assert_eq!(parse_release_dates(&obj(vec![])), "");
}

#[test]
fn release_dates_that_would_split_a_character_are_detected() {
    // the tenth byte falls inside "二" (three bytes)
    let rd = JsonValue::Array(vec![release("CN", &["202年十二月"])]);
    assert!(!release_dates_fit(&rd));
    let other_region = JsonValue::Array(vec![release("FR", &["202年十二月"])]);
    assert!(release_dates_fit(&other_region));
}

#[test]
fn retry_policy_retries_only_rate_limits_and_network_errors() {
    assert_eq!(next_step(0, 2, Attempt::Success), NextStep::ReadBody);
    assert_eq!(next_step(0, 2, Attempt::Status(429)), NextStep::RetryAfter(1));
    assert_eq!(next_step(1, 2, Attempt::Failed), NextStep::RetryAfter(2));
    assert_eq!(next_step(2, 2, Attempt::Status(429)), NextStep::GiveUp);
    assert_eq!(next_step(0, 2, Attempt::Status(500)), NextStep::GiveUp);
    assert_eq!(next_step(2, 2, Attempt::Failed), NextStep::GiveUp);
}

#[test]
fn retries_end_after_the_allowed_number() {
    let retry = 3usize;
    let mut attempts = 0usize;
    let mut i = 0usize;
    loop {
        attempts += 1;
        match next_step(i, retry, Attempt::Failed) {
            NextStep::RetryAfter(secs) => {
                assert_eq!(secs, (i + 1) as u64);
                i += 1;
            }
            _ => break,
        }
    }
    assert_eq!(attempts, retry + 1);
}

#[test]
fn tmdb_request_url_encodes_the_query_and_appends_the_key() {
    let url = tmdb_request_url("/search/movie", &[("query", "肖申克 1"), ("page", "1")], "KEY");
    assert_eq!(
        url,
        Ok("https://api.themoviedb.org/3/search/movie?query=%E8%82%96%E7%94%B3%E5%85%8B+1&page=1&api_key=KEY"
            .to_string())
    );
}

#[test]
fn doubaninfo_url_adds_douban_mode() {
    assert_eq!(
        build_url("K", "tt0111161", true),
        Ok("https://doubaninfo.com/api/v1_douban.php?key=K&url=tt0111161&douban=1".to_string())
    );
    assert_eq!(
        build_url("K", "霸王别姬", false),
        Ok("https://doubaninfo.com/api/v1_douban.php?key=K&url=%E9%9C%B8%E7%8E%8B%E5%88%AB%E5%A7%AC"
            .to_string())
    );
}
