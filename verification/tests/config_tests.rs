use doubangen::config::{
    default_10, default_2, default_20, default_auto, default_bbcode, default_douban, default_true,
    Defaults, Keys, Merge, Search,
};
use doubangen::json::JsonValue;

#[test]
fn default_values() {
    assert_eq!(default_auto(), "auto");
    assert_eq!(default_bbcode(), "bbcode");
    assert_eq!(default_douban(), "douban");
    assert!(default_true());
    assert_eq!(default_10(), 10);
    assert_eq!(default_2(), 2);
    assert_eq!(default_20(), 20);
}

#[test]
fn default_sections() {
    let k = Keys::default();
    assert!(k.none_set());
    assert!(!Keys { doubaninfo: String::new(), tmdb: "t".to_string() }.none_set());
    let d = Defaults::default();
    assert_eq!((d.source.as_str(), d.format.as_str(), d.media_type.as_str()), ("auto", "bbcode", "auto"));
    assert!(!d.full_celebrities);
    let s = Search::default();
    assert!(s.fallback_to_tmdb);
    assert_eq!(s.max_candidates, 10);
    assert!(!s.year_strict);
    let m = Merge::default();
    assert_eq!(m.primary, "douban");
    assert!(m.enrich_tmdb_rating && m.enrich_tmdb_aka && m.enrich_celebrities);
}

#[test]
fn merge_options_as_json() {
    let mut m = Merge::default();
    m.enrich_tmdb_aka = false;
    let j = m.to_json();
    assert_eq!(j.get_str("primary"), Some("douban"));
    assert_eq!(j.get_bool("enrich_tmdb_rating"), Some(true));
    assert_eq!(j.get_bool("enrich_tmdb_aka"), Some(false));
    assert_eq!(j.get_bool("enrich_celebrities"), Some(true));
    assert!(matches!(j, JsonValue::Object(ref ms) if ms.len() == 4));
}
