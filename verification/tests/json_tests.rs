use doubangen::doubaninfo::{complete_detail, search_candidates, summarize_douban};
use doubangen::json::{object_of, push_member, texts_in, JsonNumber, JsonValue};

fn text(s: &str) -> JsonValue {
    JsonValue::Str(s.to_string())
}

fn obj(members: Vec<(&str, JsonValue)>) -> JsonValue {
    JsonValue::Object(members.into_iter().map(|(k, v)| (k.to_string(), v)).collect())
}

#[test]
fn members_are_found_at_their_first_occurrence() {
    let d = obj(vec![("a", text("1")), ("b", JsonValue::Bool(true)), ("a", text("2"))]);
    assert_eq!(d.get_str("a"), Some("1"));
    assert_eq!(d.get_bool("b"), Some(true));
    assert_eq!(d.get_str("b"), None);
    assert_eq!(d.str_or_empty("missing"), "");
    assert!(d.is_object());
    assert!(text("x").get("a").is_none());
}

#[test]
fn setting_a_member_replaces_or_appends() {
    let d = obj(vec![("a", text("1")), ("b", text("2"))]);
    let d = d.with_member("a", text("3"));
    assert_eq!(d, obj(vec![("a", text("3")), ("b", text("2"))]));
    let d = d.with_member("c", JsonValue::Null);
    assert_eq!(d, obj(vec![("a", text("3")), ("b", text("2")), ("c", JsonValue::Null)]));
    assert_eq!(text("x").with_member("a", text("1")), text("x"));
    let mut ms = Vec::new();
    push_member(&mut ms, "k", text("v"));
    assert_eq!(object_of(ms), obj(vec![("k", text("v"))]));
}

#[test]
fn string_lists_skip_other_values() {
    let n = JsonValue::Number(JsonNumber { as_u64: Some(1), as_i64: Some(1), float_text: "1".to_string(), float_positive: true });
    let items = vec![text("a"), n, text("b")];
    assert_eq!(texts_in(&items), vec!["a".to_string(), "b".to_string()]);
    let d = obj(vec![("l", JsonValue::Array(items))]);
    assert_eq!(d.str_array("l"), vec!["a".to_string(), "b".to_string()]);
    assert!(d.str_array("m").is_empty());
    assert_eq!(JsonValue::from_strings(&vec!["x".to_string()]), JsonValue::Array(vec![text("x")]));
    assert_eq!(d.copy(), d);
}

#[test]
fn douban_results_become_candidates() {
    let r = obj(vec![
        ("sid", text("1292052")),
        ("title", text("The Shawshank Redemption")),
        ("chinese_title", text("肖申克的救赎")),
        ("year", text("1994")),
        ("douban_rating", text("")),
        ("imdb_rating", text("9.3")),
        ("season_count", text("0")),
        ("genre", JsonValue::Array(vec![text("剧情"), JsonValue::Null])),
        ("region", text("美国")),
        ("poster", text("https://img/p.jpg")),
    ]);
    let c = summarize_douban(&r);
    assert_eq!(c.source, "douban");
    assert_eq!(c.id, "1292052");
    assert_eq!(c.media_type, "movie");
    assert_eq!(c.rating, "9.3");
    assert_eq!(c.genre, vec!["剧情".to_string()]);
    let tv = summarize_douban(&obj(vec![("season_count", text("3")), ("douban_rating", text("9.5"))]));
    assert_eq!(tv.media_type, "tv");
    assert_eq!(tv.rating, "9.5");
    let reply = obj(vec![("success", JsonValue::Bool(true)), ("results", JsonValue::Array(vec![r]))]);
    assert_eq!(search_candidates(&reply).len(), 1);
    let single = obj(vec![("success", JsonValue::Bool(true)), ("sid", text("1"))]);
    assert_eq!(search_candidates(&single)[0].id, "1");
    let failed = obj(vec![("success", JsonValue::Bool(false)), ("sid", text("1"))]);
    assert!(search_candidates(&failed).is_empty());
}

#[test]
fn douban_details_are_completed_where_fields_are_missing() {
    let d = obj(vec![("success", JsonValue::Bool(true)), ("sid", text("1292052")), ("season_count", text(""))]);
    let c = complete_detail(d);
    assert_eq!(c.get_str("source"), Some("douban"));
    assert_eq!(c.get_str("media_type"), Some("movie"));
    assert_eq!(c.get_str("douban_link"), Some("https://movie.douban.com/subject/1292052/"));
    let kept = obj(vec![
        ("success", JsonValue::Bool(true)),
        ("source", text("x")),
        ("media_type", text("tv")),
        ("season_count", text("2")),
    ]);
    let k = complete_detail(kept);
    assert_eq!(k.get_str("source"), Some("x"));
    assert_eq!(k.get_str("media_type"), Some("tv"));
    assert!(k.get("douban_link").is_none());
    let failed = obj(vec![("success", JsonValue::Bool(false))]);
    assert_eq!(complete_detail(failed), obj(vec![("success", JsonValue::Bool(false))]));
}
