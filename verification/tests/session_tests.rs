use doubangen::common::Candidate;
use doubangen::config::{Defaults, Keys};
use doubangen::json::{JsonNumber, JsonValue};
use doubangen::session::{
    bbcode_of, display_title, history_label, remember, usage_hint, AppState, HistoryItem,
    RightState, HISTORY_LIMIT,
};

fn text(s: &str) -> JsonValue {
    JsonValue::Str(s.to_string())
}

fn obj(members: Vec<(&str, JsonValue)>) -> JsonValue {
    JsonValue::Object(members.into_iter().map(|(k, v)| (k.to_string(), v)).collect())
}

fn num(n: u64) -> JsonValue {
    JsonValue::Number(JsonNumber {
        as_u64: Some(n),
        as_i64: Some(n as i64),
        float_text: n.to_string(),
        float_positive: n > 0,
    })
}

fn item(title: &str) -> HistoryItem {
    HistoryItem {
        title: title.to_string(),
        id: "1".to_string(),
        source: "douban".to_string(),
        format: "bbcode".to_string(),
        content: "c".to_string(),
        year: "1993".to_string(),
        timestamp: "0".to_string(),
    }
}

fn keys(d: &str, t: &str) -> Keys {
    Keys { doubaninfo: d.to_string(), tmdb: t.to_string() }
}

fn cand(title: &str, cn: &str, year: &str, media_type: &str, genre: &[&str], region: &str) -> Candidate {
    Candidate {
        source: "douban".to_string(),
        id: "1".to_string(),
        media_type: media_type.to_string(),
        title: title.to_string(),
        chinese_title: cn.to_string(),
        year: year.to_string(),
        rating: "8.0".to_string(),
        region: region.to_string(),
        genre: genre.iter().map(|g| g.to_string()).collect(),
        poster: String::new(),
    }
}

fn state() -> AppState {
    AppState::new(&Defaults::default(), &keys("k", ""), vec![])
}

#[test]
fn history_keeps_the_newest_hundred() {
    let mut h: Vec<HistoryItem> = Vec::new();
    for i in 0..105 {
        remember(&mut h, item(&format!("t{}", i)));
        assert!(h.len() <= HISTORY_LIMIT);
        assert_eq!(h[0].title, format!("t{}", i));
    }
    assert_eq!(h.len(), 100);
    assert_eq!(h[99].title, "t5");
}

#[test]
fn history_labels() {
    assert_eq!(history_label(&item("霸王别姬")), "霸王别姬 (1993) [douban·bbcode]");
}

#[test]
fn starting_state_follows_defaults_and_keys() {
    let s = AppState::new(&Defaults::default(), &keys("", ""), vec![item("x")]);
    assert_eq!(s.source, "auto");
    assert_eq!(s.format, "bbcode");
    assert_eq!(s.media_type, "auto");
    assert_eq!(s.filter_cat, "全部");
    assert_eq!(
        s.right,
        RightState::Error("未找到 config.toml，点右上角 ⚙ 设置填入 API key".to_string())
    );
    assert_eq!(s.history.len(), 1);
    assert_eq!(state().right, RightState::Empty);
    assert_eq!(state().status_line(), "源=auto 格式=bbcode 类型=auto");
}

#[test]
fn searching_needs_input() {
    let mut s = state();
    s.input = "   ".to_string();
    assert!(!s.begin_search());
    assert_eq!(s.right, RightState::Error("请输入片名 / 豆瓣ID / IMDb / TMDB URL".to_string()));
    assert!(!s.searching);
    s.input = " 霸王别姬 ".to_string();
    s.cands = vec![cand("a", "", "", "movie", &[], "")];
    s.selected_idx = Some(0);
    assert!(s.begin_search());
    assert!(s.searching);
    assert!(s.cands.is_empty());
    assert_eq!(s.selected_idx, None);
    assert_eq!(s.right, RightState::Empty);
}

#[test]
fn no_candidates_suggests_a_year() {
    let mut s = state();
    s.input = " 霸王别姬 ".to_string();
    s.begin_search();
    s.receive_candidates(vec![]);
    assert!(!s.searching);
    assert_eq!(
        s.right,
        RightState::Error("未找到「霸王别姬」，试试加年份如「霸王别姬 2025」".to_string())
    );
    s.receive_candidates(vec![cand("a", "", "", "movie", &[], "")]);
    assert_eq!(s.right, RightState::Empty);
    assert_eq!(s.cands.len(), 1);
}

#[test]
fn choosing_a_candidate_shows_loading() {
    let mut s = state();
    s.receive_candidates(vec![
        cand("Farewell My Concubine", "霸王别姬", "1993", "movie", &[], ""),
        cand("Up", "", "2009", "movie", &[], ""),
    ]);
    let c = s.begin_detail(0).unwrap();
    assert_eq!(c.chinese_title, "霸王别姬");
    assert_eq!(s.selected_idx, Some(0));
    assert_eq!(s.right, RightState::Loading("正在取《霸王别姬》详情…".to_string()));
    s.begin_detail(1);
    assert_eq!(s.right, RightState::Loading("正在取《Up》详情…".to_string()));
    assert!(s.begin_detail(2).is_none());
    assert_eq!(s.selected_idx, Some(1));
    assert_eq!(display_title(&s.cands[1]), "Up");
}

#[test]
fn a_record_is_shown_and_remembered() {
    let mut s = state();
    let d = obj(vec![
        ("chinese_title", text("霸王别姬")),
        ("sid", text("1291546")),
        ("source", text("douban")),
        ("year", text("1993")),
        ("format", text("BBCODE")),
        (
            "usage",
            obj(vec![
                ("used", obj(vec![("key_day", num(3))])),
                ("limits", obj(vec![("key_per_day", num(100))])),
            ]),
        ),
    ]);
    s.receive_record(&d, "{json}".to_string(), "1700000000".to_string());
    assert_eq!(s.usage_hint, "豆瓣配额 3/100");
    assert_eq!(
        s.right,
        RightState::Result { bbcode: "BBCODE".to_string(), json: "{json}".to_string() }
    );
    assert_eq!(
        s.history[0],
        HistoryItem {
            title: "霸王别姬".to_string(),
            id: "1291546".to_string(),
            source: "douban".to_string(),
            format: "bbcode".to_string(),
            content: "BBCODE".to_string(),
            year: "1993".to_string(),
            timestamp: "1700000000".to_string(),
        }
    );
    s.format = "json".to_string();
    let e = obj(vec![("title", text("Up"))]);
    s.receive_record(&e, "{up}".to_string(), "1".to_string());
    assert_eq!(s.usage_hint, "豆瓣配额 3/100");
    assert_eq!(s.history[0].title, "Up");
    assert_eq!(s.history[0].content, "{up}");
    assert_eq!(s.history.len(), 2);
}

#[test]
fn usage_hints() {
    let no_used = obj(vec![("usage", obj(vec![("limits", obj(vec![("key_per_day", num(9))]))]))]);
    assert_eq!(usage_hint(&no_used), None);
    let used_not_object = obj(vec![("usage", obj(vec![("used", num(1))]))]);
    assert_eq!(usage_hint(&used_not_object), None);
    let missing = obj(vec![("usage", obj(vec![("used", obj(vec![]))]))]);
    assert_eq!(usage_hint(&missing), Some("豆瓣配额 0/0".to_string()));
}

#[test]
fn bbcode_of_a_record_without_format_is_rendered() {
    let d = obj(vec![("year", text("1993"))]);
    assert_eq!(bbcode_of(&d), "◎年　代　　　1993");
}

#[test]
fn history_entries_show_again_in_their_format() {
    let mut s = state();
    let mut j = item("x");
    j.format = "json".to_string();
    j.content = "{x}".to_string();
    s.history = vec![item("b"), j];
    s.show_history(1);
    assert_eq!(s.format, "json");
    assert_eq!(s.right, RightState::Result { bbcode: String::new(), json: "{x}".to_string() });
    assert_eq!(s.copy_text(), Some("{x}".to_string()));
    assert_eq!(s.status_toast, "已复制");
    s.show_history(0);
    assert_eq!(s.right, RightState::Result { bbcode: "c".to_string(), json: String::new() });
    assert_eq!(s.copy_text(), Some("c".to_string()));
    s.right = RightState::Empty;
    assert_eq!(s.copy_text(), None);
}

#[test]
fn saved_settings_reach_the_search_bar() {
    let mut s = state();
    let d = Defaults {
        source: "merge".to_string(),
        format: "json".to_string(),
        media_type: "tv".to_string(),
        full_celebrities: true,
    };
    s.settings_saved(&d, "/tmp/config.toml");
    assert_eq!(s.source, "merge");
    assert_eq!(s.format, "json");
    assert_eq!(s.media_type, "tv");
    assert!(s.full_celebrities);
    assert_eq!(s.status_toast, "已保存到 /tmp/config.toml");
}

fn wall() -> AppState {
    let mut s = state();
    s.receive_candidates(vec![
        cand("Spirited Away", "千与千寻", "2001", "movie", &["动画", "奇幻"], "日本"),
        cand("Breaking Bad", "绝命毒师", "2008", "tv", &["Drama"], "美国"),
        cand("Dune", "沙丘", "2021", "movie", &["Sci-Fi"], "USA"),
        cand("Attack on Titan", "", "2013", "tv", &["Anime"], ""),
        cand("Old", "", "", "movie", &[], ""),
    ]);
    s
}

#[test]
fn poster_wall_filters() {
    let mut s = wall();
    assert_eq!(s.filtered(), vec![0, 1, 2, 3, 4]);
    s.filter = "SPIRIT".to_string();
    assert_eq!(s.filtered(), vec![0]);
    s.filter = "drama".to_string();
    assert_eq!(s.filtered(), vec![1]);
    s.filter = "200".to_string();
    assert_eq!(s.filtered(), vec![0, 1]);
    s.filter = "usa".to_string();
    assert_eq!(s.filtered(), vec![2]);
    s.filter = String::new();
    s.filter_cat = "动漫".to_string();
    assert_eq!(s.filtered(), vec![0, 3]);
    s.filter_cat = "剧集".to_string();
    assert_eq!(s.filtered(), vec![1, 3]);
    s.filter_cat = "电影".to_string();
    assert_eq!(s.filtered(), vec![0, 2, 4]);
    s.filter_year = "2021".to_string();
    assert_eq!(s.filtered(), vec![2]);
}

#[test]
fn year_choices_are_sorted_and_distinct() {
    let mut s = wall();
    s.cands.push(cand("Dune 2", "", "2021", "movie", &[], ""));
    assert_eq!(
        s.year_options(),
        vec!["2001".to_string(), "2008".to_string(), "2013".to_string(), "2021".to_string()]
    );
    assert!(state().year_options().is_empty());
}

#[test]
fn reusing_the_newest_entry_shows_what_was_generated() {
    let mut s = state();
    let d = obj(vec![("title", text("Up")), ("format", text("BB"))]);
    s.receive_record(&d, "{up}".to_string(), "1".to_string());
    let shown = RightState::Result { bbcode: "BB".to_string(), json: "{up}".to_string() };
    assert_eq!(s.right, shown);
    s.show_history(0);
    assert_eq!(s.right, RightState::Result { bbcode: "BB".to_string(), json: String::new() });
    s.format = "json".to_string();
    s.receive_record(&d, "{up}".to_string(), "2".to_string());
    s.show_history(0);
    assert_eq!(s.right, RightState::Result { bbcode: String::new(), json: "{up}".to_string() });
    assert_eq!(s.format, "json");
}
