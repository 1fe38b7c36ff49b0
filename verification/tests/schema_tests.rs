use doubangen::config::Merge;
use doubangen::json::{JsonNumber, JsonValue};
use doubangen::schema::{clean_output, is_tv, merge, row, to_bbcode};

fn text(s: &str) -> JsonValue {
    JsonValue::Str(s.to_string())
}

fn texts(v: &[&str]) -> JsonValue {
    JsonValue::Array(v.iter().map(|s| text(s)).collect())
}

fn obj(members: Vec<(&str, JsonValue)>) -> JsonValue {
    JsonValue::Object(members.into_iter().map(|(k, v)| (k.to_string(), v)).collect())
}

fn num(n: u64) -> JsonValue {
    JsonValue::Number(JsonNumber {
        as_u64: Some(n),
        as_i64: Some(n as i64),
        float_text: n.to_string(),
        float_positive: n > 0,
    })
}

fn person(name: &str) -> JsonValue {
    obj(vec![("name", text(name))])
}

#[test]
fn series_are_recognised() {
    assert!(is_tv(&obj(vec![("media_type", text("tv"))])));
    assert!(is_tv(&obj(vec![("season_info", text("2季"))])));
    assert!(is_tv(&obj(vec![("season_count", text("3"))])));
    assert!(is_tv(&obj(vec![("tmdb_link", text("https://www.themoviedb.org/tv/1396"))])));
    assert!(!is_tv(&obj(vec![("media_type", text("movie")), ("season_info", text(""))])));
    assert!(!is_tv(&text("tv")));
}

#[test]
fn rows_pad_labels_to_five_wide() {
    assert_eq!(row("片　名", "霸王别姬"), "◎片　名　　　霸王别姬");
    assert_eq!(row("豆瓣评分", "9.6"), "◎豆瓣评分　　9.6");
    assert_eq!(row("IMDb评分", "x"), "◎IMDb评分　x");
}

#[test]
fn bbcode_of_a_film_record() {
    let d = obj(vec![
        ("chinese_title", text("霸王别姬")),
        ("original_title", text("Farewell My Concubine")),
        ("year", text("1993")),
        ("genre", texts(&["剧情", "爱情"])),
        ("douban_rating", text("9.6")),
        ("douban_votes", text("100")),
        ("cast", texts(&["张国荣", "张丰毅"])),
        ("summary", text("段小楼与程蝶衣")),
        ("region", text("")),
    ]);
    assert_eq!(
        to_bbcode(&d),
        "◎片　名　　　霸王别姬 / Farewell My Concubine\n◎年　代　　　1993\n◎类　别　　　剧情 / 爱情\n◎豆瓣评分　　9.6 /10 (100 人评价)\n◎主　演　　　张国荣\n　　　　　　张丰毅\n\n◎简　介　　　\n　　段小楼与程蝶衣"
    );
}

#[test]
fn bbcode_of_a_series_with_poster_and_awards() {
    let d = obj(vec![
        ("poster", text("https://img/p.jpg")),
        ("chinese_title", text("绝命毒师")),
        ("media_type", text("tv")),
        ("release_date", text("2008-01-20")),
        ("director", texts(&["Vince Gilligan"])),
        (
            "awards",
            JsonValue::Array(vec![obj(vec![
                ("festival", text("艾美奖")),
                ("awards", JsonValue::Array(vec![text("最佳剧集"), num(3)])),
            ])]),
        ),
    ]);
    assert_eq!(
        to_bbcode(&d),
        "[img]https://img/p.jpg[/img]\n\n◎剧　名　　　绝命毒师\n◎首播日期　　2008-01-20\n◎创作者　　　Vince Gilligan\n\n◎获奖情况　　\n\n　　艾美奖\n　　最佳剧集"
    );
    assert_eq!(to_bbcode(&obj(vec![])), "");
}

fn douban_record() -> JsonValue {
    obj(vec![
        ("title", text("霸王别姬")),
        ("chinese_title", text("霸王别姬")),
        ("aka", texts(&["Farewell"])),
        ("original_title", text("")),
        ("douban_rating", text("9.6")),
        ("format", text("old")),
        ("full_celebrities", obj(vec![("导演 Director", JsonValue::Array(vec![person("陈凯歌")]))])),
    ])
}

fn tmdb_record() -> JsonValue {
    obj(vec![
        ("media_type", text("movie")),
        ("tmdb_rating", text("8.2")),
        ("tmdb_votes", text("1000")),
        ("tmdb_link", text("https://www.themoviedb.org/movie/10997")),
        ("aka", texts(&["Adieu ma concubine", "Farewell"])),
        ("original_title", text("霸王別姬")),
        (
            "full_celebrities",
            obj(vec![
                ("导演 Director", JsonValue::Array(vec![person("陈凯歌"), person("Other")])),
                ("演员 Cast", JsonValue::Array(vec![person("张国荣"), person(""), person("")])),
            ]),
        ),
    ])
}

#[test]
fn merge_keeps_douban_first_and_adds_tmdb() {
    let cfg = Merge::default().to_json();
    let douban = douban_record();
    let tmdb = tmdb_record();
    let m = merge(&douban, Some(&tmdb), &cfg);
    assert_eq!(m.get_str("source"), Some("merge"));
    assert_eq!(m.get_str("media_type"), Some("movie"));
    assert_eq!(m.get_str("title"), Some("霸王别姬"));
    assert_eq!(m.get_str("douban_rating"), Some("9.6"));
    assert_eq!(m.get_str("tmdb_rating"), Some("8.2"));
    assert_eq!(m.get_str("tmdb_votes"), Some("1000"));
    assert_eq!(m.get_str("tmdb_link"), Some("https://www.themoviedb.org/movie/10997"));
    assert_eq!(
        m.str_array("aka"),
        vec!["Farewell".to_string(), "Adieu ma concubine".to_string()]
    );
    assert_eq!(m.get_str("original_title"), Some("霸王別姬"));
    let fc = m.get("full_celebrities").unwrap();
    let directors = fc.get_array("导演 Director").unwrap();
    assert_eq!(directors.len(), 2);
    assert_eq!(directors[0].get_str("name"), Some("陈凯歌"));
    assert_eq!(directors[1].get_str("name"), Some("Other"));
    let cast = fc.get_array("演员 Cast").unwrap();
    assert_eq!(cast.len(), 3);
    assert_eq!(m.get_str("format"), Some(to_bbcode(&m).as_str()));
    assert_ne!(m.get_str("format"), Some("old"));
}

#[test]
fn merge_respects_switches_and_douban_original_title() {
    let mut cfg_value = Merge::default();
    cfg_value.enrich_tmdb_aka = false;
    cfg_value.enrich_tmdb_rating = false;
    cfg_value.enrich_celebrities = false;
    let cfg = cfg_value.to_json();
    let mut douban = douban_record();
    douban = douban.with_member("original_title", text("Ba wang bie ji"));
    let m = merge(&douban, Some(&tmdb_record()), &cfg);
    assert_eq!(m.str_array("aka"), vec!["Farewell".to_string()]);
    assert!(m.get("tmdb_rating").is_none());
    assert_eq!(m.get_str("original_title"), Some("Ba wang bie ji"));
    let fc = m.get("full_celebrities").unwrap();
    assert_eq!(fc.get_array("导演 Director").unwrap().len(), 1);
    assert!(fc.get("演员 Cast").is_none());
}

#[test]
fn merge_without_tmdb_only_marks_and_renders() {
    let cfg = Merge::default().to_json();
    let douban = douban_record();
    let m = merge(&douban, None, &cfg);
    assert_eq!(m.get_str("source"), Some("merge"));
    assert_eq!(m.str_array("aka"), vec!["Farewell".to_string()]);
    assert_eq!(m.get_str("format"), Some(to_bbcode(&m).as_str()));
    assert!(m.get("media_type").is_none());
}

#[test]
fn clean_output_drops_empty_fields_recursively() {
    let d = obj(vec![
        ("a", text("")),
        ("b", JsonValue::Array(vec![text(""), JsonValue::Null, obj(vec![])])),
        ("c", obj(vec![("d", text(""))])),
        ("e", text("x")),
        ("f", JsonValue::Array(vec![num(1), texts(&[""])])),
        ("g", JsonValue::Bool(false)),
    ]);
    let expected = obj(vec![
        ("e", text("x")),
        ("f", JsonValue::Array(vec![num(1)])),
        ("g", JsonValue::Bool(false)),
    ]);
    let once = clean_output(d);
    assert_eq!(once, expected);
    assert_eq!(clean_output(once), expected);
    assert_eq!(clean_output(text("")), JsonValue::Null);
}

#[test]
fn clean_output_of_a_list_of_blanks_is_not_idempotent() {
    let once = clean_output(texts(&[""]));
    assert_eq!(once, JsonValue::Array(vec![]));
    assert_eq!(clean_output(once), JsonValue::Null);
}

#[test]
fn merge_keeps_a_douban_media_type() {
    let cfg = Merge::default().to_json();
    let douban = douban_record().with_member("media_type", text("movie"));
    let tmdb = tmdb_record().with_member("media_type", text("tv"));
    let m = merge(&douban, Some(&tmdb), &cfg);
    assert_eq!(m.get_str("media_type"), Some("movie"));
    let empty_type = douban_record().with_member("media_type", text(""));
    let m2 = merge(&empty_type, Some(&tmdb), &cfg);
    assert_eq!(m2.get_str("media_type"), Some("tv"));
}

#[test]
fn empty_and_unread_fields_leave_the_bbcode_alone() {
    let d = obj(vec![("year", text("1993")), ("chinese_title", text("霸王别姬"))]);
    let base = to_bbcode(&d);
    for e in [text(""), JsonValue::Array(vec![]), obj(vec![]), JsonValue::Null] {
        assert_eq!(to_bbcode(&d.copy().with_member("region", e.copy())), base);
        assert_eq!(to_bbcode(&d.copy().with_member("awards", e)), base);
    }
    assert_eq!(to_bbcode(&d.copy().with_member("format", text("x"))), base);
    assert_eq!(to_bbcode(&d.copy().with_member("sid", num(7))), base);
}
