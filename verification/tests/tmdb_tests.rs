use doubangen::json::{JsonNumber, JsonValue};
use doubangen::tmdb::{
    build_fc, creators, credits_list_exec, fc_person_ids, movie_dates_fit, movie_record,
    person_works, search_candidates, search_years_fit, series_runtimes_fit, tv_record, wants_movies,
    wants_series, TMDBClient,
};

fn text(s: &str) -> JsonValue {
    JsonValue::Str(s.to_string())
}

fn texts(v: &[&str]) -> JsonValue {
    JsonValue::Array(v.iter().map(|s| text(s)).collect())
}

fn obj(members: Vec<(&str, JsonValue)>) -> JsonValue {
    JsonValue::Object(members.into_iter().map(|(k, v)| (k.to_string(), v)).collect())
}

fn num(n: u64) -> JsonValue {
    JsonValue::Number(JsonNumber {
        as_u64: Some(n),
        as_i64: Some(n as i64),
        float_text: n.to_string(),
        float_positive: n > 0,
    })
}

fn float(t: &str, positive: bool) -> JsonValue {
    JsonValue::Number(JsonNumber { as_u64: None, as_i64: None, float_text: t.to_string(), float_positive: positive })
}

fn client() -> TMDBClient {
    TMDBClient::new("KEY", 20, 2)
}

#[test]
fn client_keeps_its_limits() {
    let c = client();
    assert_eq!(c.timeout(), 20);
    assert_eq!(c.retry(), 2);
    assert!(wants_movies("auto") && wants_movies("movie") && !wants_movies("tv"));
    assert!(wants_series("auto") && wants_series("tv") && !wants_series("movie"));
}

#[test]
fn search_urls_for_films_and_series() {
    let c = client();
    assert_eq!(
        c.search_url(" 肖申克 ", Some("1994"), false),
        Ok("https://api.themoviedb.org/3/search/movie?query=%E8%82%96%E7%94%B3%E5%85%8B&language=zh-CN&page=1&year=1994&api_key=KEY".to_string())
    );
    assert_eq!(
        c.search_url("Dark", None, true),
        Ok("https://api.themoviedb.org/3/search/tv?query=Dark&language=zh-CN&page=1&api_key=KEY".to_string())
    );
    assert_eq!(
        c.search_url("Dark", Some("2017"), true),
        Ok("https://api.themoviedb.org/3/search/tv?query=Dark&language=zh-CN&page=1&first_air_date_year=2017&api_key=KEY".to_string())
    );
}

#[test]
fn detail_lookup_and_credit_urls() {
    let c = client();
    assert_eq!(
        c.detail_url(278, "movie"),
        Ok("https://api.themoviedb.org/3/movie/278?language=zh-CN&append_to_response=credits%2Calternative_titles%2Cexternal_ids%2Ctranslations%2Crelease_dates%2Cimages&api_key=KEY".to_string())
    );
    assert_eq!(
        c.detail_url(1396, "tv"),
        Ok("https://api.themoviedb.org/3/tv/1396?language=zh-CN&append_to_response=credits%2Calternative_titles%2Cexternal_ids%2Ctranslations%2Ccontent_ratings%2Cimages&api_key=KEY".to_string())
    );
    assert_eq!(
        c.find_url("tt0111161"),
        Ok("https://api.themoviedb.org/3/find/tt0111161?external_source=imdb_id&api_key=KEY".to_string())
    );
    assert_eq!(
        c.person_credits_url(17419, "movie"),
        Ok("https://api.themoviedb.org/3/person/17419/movie_credits?language=zh-CN&api_key=KEY".to_string())
    );
    assert_eq!(
        c.person_credits_url(17419, "tv"),
        Ok("https://api.themoviedb.org/3/person/17419/tv_credits?language=zh-CN&api_key=KEY".to_string())
    );
}

#[test]
fn imdb_lookup_prefers_films() {
    let both = obj(vec![
        ("movie_results", JsonValue::Array(vec![obj(vec![("id", num(278))])])),
        ("tv_results", JsonValue::Array(vec![obj(vec![("id", num(1396))])])),
    ]);
    assert_eq!(TMDBClient::find_by_imdb(&both), Some(("movie".to_string(), 278)));
    let tv = obj(vec![
        ("movie_results", JsonValue::Array(vec![])),
        ("tv_results", JsonValue::Array(vec![obj(vec![("id", num(1396))])])),
    ]);
    assert_eq!(TMDBClient::find_by_imdb(&tv), Some(("tv".to_string(), 1396)));
    assert_eq!(TMDBClient::find_by_imdb(&obj(vec![])), None);
}

fn replies() -> (JsonValue, JsonValue) {
    let movies = obj(vec![(
        "results",
        JsonValue::Array(vec![
            obj(vec![
                ("id", num(278)),
                ("title", text("肖申克的救赎")),
                ("release_date", text("1994-09-23")),
                ("vote_average", float("8.7", true)),
                ("poster_path", text("/p.jpg")),
            ]),
            obj(vec![
                ("id", num(1)),
                ("title", text("Other")),
                ("release_date", text("2001-01-01")),
                ("vote_average", float("0", false)),
            ]),
        ]),
    )]);
    let series = obj(vec![(
        "results",
        JsonValue::Array(vec![obj(vec![
            ("id", num(5)),
            ("name", text("Show")),
            ("first_air_date", text("1994")),
        ])]),
    )]);
    (movies, series)
}

#[test]
fn search_candidates_are_narrowed_by_year_when_it_matches() {
    let (movies, series) = replies();
    assert!(search_years_fit(Some(&movies), Some(&series)));
    let all = search_candidates(Some(&movies), Some(&series), None);
    assert_eq!(all.len(), 3);
    let c = &all[0];
    assert_eq!(c.source, "tmdb");
    assert_eq!(c.id, "278");
    assert_eq!(c.media_type, "movie");
    assert_eq!(c.title, "肖申克的救赎");
    assert_eq!(c.year, "1994");
    assert_eq!(c.rating, "8.7");
    assert_eq!(c.poster, "https://image.tmdb.org/t/p/original/p.jpg");
    assert_eq!(all[1].rating, "");
    assert_eq!(all[2].media_type, "tv");
    assert_eq!(all[2].title, "Show");
    let y = search_candidates(Some(&movies), Some(&series), Some("1994"));
    assert_eq!(y.iter().map(|c| c.id.as_str()).collect::<Vec<_>>(), vec!["278", "5"]);
    let none = search_candidates(Some(&movies), Some(&series), Some("1800"));
    assert_eq!(none.len(), 3);
    assert!(search_candidates(None, None, None).is_empty());
}

#[test]
fn years_that_would_split_a_character_are_detected() {
    let bad = obj(vec![("results", JsonValue::Array(vec![obj(vec![("release_date", text("19年9"))])]))]);
    assert!(!search_years_fit(Some(&bad), None));
    let short = obj(vec![("results", JsonValue::Array(vec![obj(vec![("release_date", text("年"))])]))]);
    assert!(search_years_fit(None, Some(&short)));
}

fn film() -> JsonValue {
    obj(vec![
        ("title", text("The Shawshank Redemption")),
        ("original_title", text("The Shawshank Redemption")),
        ("release_date", text("1994-09-23")),
        ("runtime", num(142)),
        ("genres", JsonValue::Array(vec![obj(vec![("name", text("剧情"))]), obj(vec![("name", text("犯罪"))])])),
        ("production_countries", JsonValue::Array(vec![obj(vec![("name", text("United States of America"))])])),
        ("spoken_languages", JsonValue::Array(vec![obj(vec![("name", text("English"))]), obj(vec![("name", text(""))])])),
        ("overview", text("希望让人自由")),
        ("poster_path", text("/p.jpg")),
        ("vote_average", float("8.7", true)),
        ("vote_count", num(27000)),
        ("external_ids", obj(vec![("imdb_id", text("tt0111161"))])),
        (
            "translations",
            obj(vec![(
                "translations",
                JsonValue::Array(vec![obj(vec![
                    ("iso_639_1", text("zh")),
                    ("iso_3166_1", text("CN")),
                    ("data", obj(vec![("title", text("肖申克的救赎"))])),
                ])]),
            )]),
        ),
        (
            "alternative_titles",
            obj(vec![("titles", JsonValue::Array(vec![obj(vec![("title", text("刺激1995"))]), obj(vec![("title", text("月黑高飞"))])]))]),
        ),
        (
            "release_dates",
            obj(vec![(
                "results",
                JsonValue::Array(vec![obj(vec![
                    ("iso_3166_1", text("US")),
                    ("release_dates", JsonValue::Array(vec![obj(vec![("release_date", text("1994-09-23T00:00:00.000Z"))])])),
                ])]),
            )]),
        ),
        (
            "credits",
            obj(vec![
                (
                    "crew",
                    JsonValue::Array(vec![
                        obj(vec![
                            ("job", text("Director")),
                            ("department", text("Directing")),
                            ("name", text("Frank Darabont")),
                            ("original_name", text("Frank Darabont")),
                            ("id", num(4027)),
                        ]),
                        obj(vec![
                            ("department", text("Writing")),
                            ("name", text("Stephen King")),
                            ("original_name", text("Stephen King")),
                        ]),
                    ]),
                ),
                (
                    "cast",
                    JsonValue::Array(vec![obj(vec![
                        ("name", text("Tim Robbins")),
                        ("original_name", text("Tim Robbins")),
                        ("character", text("Andy Dufresne")),
                        ("id", num(504)),
                    ])]),
                ),
            ]),
        ),
    ])
}

#[test]
fn film_record_fields() {
    let m = film();
    assert!(movie_dates_fit(&m));
    let r = movie_record(&m, 278);
    assert_eq!(r.get_bool("success"), Some(true));
    assert_eq!(r.get_str("source"), Some("tmdb"));
    assert_eq!(r.get_str("media_type"), Some("movie"));
    assert_eq!(r.get_str("sid"), Some("278"));
    assert_eq!(r.get_str("title"), Some("肖申克的救赎 The Shawshank Redemption"));
    assert_eq!(r.get_str("chinese_title"), Some("肖申克的救赎"));
    assert_eq!(r.get_str("year"), Some("1994"));
    assert_eq!(r.str_array("director"), vec!["Frank Darabont".to_string()]);
    assert_eq!(r.str_array("writer"), vec!["Stephen King".to_string()]);
    assert_eq!(r.str_array("cast"), vec!["Tim Robbins (饰 Andy Dufresne)".to_string()]);
    assert_eq!(r.str_array("genre"), vec!["剧情".to_string(), "犯罪".to_string()]);
    assert_eq!(r.get_str("region"), Some("美国"));
    assert_eq!(r.get_str("language"), Some("English"));
    assert_eq!(r.get_str("release_date"), Some("1994-09-23(美国)"));
    assert_eq!(r.get_str("runtime"), Some("142分钟"));
    assert_eq!(r.get_str("duration"), Some("142分钟"));
    assert_eq!(r.get_str("poster"), Some("https://image.tmdb.org/t/p/original/p.jpg"));
    assert_eq!(r.get_str("imdb_id"), Some("tt0111161"));
    assert_eq!(r.get_str("imdb_rating"), Some("8.7"));
    assert_eq!(r.get_str("tmdb_votes"), Some("27000"));
    assert_eq!(r.get_str("tmdb_link"), Some("https://www.themoviedb.org/movie/278"));
    assert_eq!(r.str_array("aka"), vec!["刺激1995".to_string(), "月黑高飞".to_string()]);
    assert!(r.get("usage").unwrap().is_null());
}

#[test]
fn full_cast_and_crew_with_works() {
    let m = film();
    let crew = credits_list_exec(&m, "crew");
    let cast = credits_list_exec(&m, "cast");
    assert_eq!(fc_person_ids(&crew, &cast), vec![Some(4027), Some(504)]);
    let works = obj(vec![(
        "cast",
        JsonValue::Array(vec![
            obj(vec![("title", text("A"))]),
            obj(vec![("name", text("B"))]),
            obj(vec![("original_title", text("C"))]),
            obj(vec![("title", text("D"))]),
        ]),
    )]);
    assert_eq!(person_works(&works), vec!["A".to_string(), "B".to_string(), "C".to_string()]);
    let fc = build_fc(&crew, &cast, &vec![Some(works), None]);
    let d = &fc.get_array("导演 Director").unwrap()[0];
    assert_eq!(d.get_str("name"), Some("Frank Darabont"));
    assert_eq!(d.get_str("link"), Some("https://www.themoviedb.org/person/4027"));
    assert_eq!(d.get_str("role"), Some("导演 Director"));
    assert_eq!(d.str_array("works"), vec!["A".to_string(), "B".to_string(), "C".to_string()]);
    let a = &fc.get_array("演员 Cast").unwrap()[0];
    assert_eq!(a.get_str("role"), Some("演员 Actor (饰 Andy Dufresne)"));
    assert_eq!(a.get_str("character"), Some("Andy Dufresne"));
    assert!(a.str_array("works").is_empty());
    let empty = build_fc(&[], &[], &vec![]);
    assert_eq!(empty, obj(vec![]));
}

fn series() -> JsonValue {
    obj(vec![
        ("name", text("Breaking Bad")),
        ("original_name", text("Breaking Bad")),
        ("first_air_date", text("2008-01-20")),
        ("episode_run_time", JsonValue::Array(vec![num(45), num(47), num(58)])),
        ("number_of_seasons", num(5)),
        ("number_of_episodes", num(62)),
        (
            "created_by",
            JsonValue::Array(vec![obj(vec![
                ("name", text("Vince Gilligan")),
                ("original_name", text("Vince Gilligan")),
                ("id", num(66633)),
            ])]),
        ),
        ("vote_average", float("0", false)),
        ("vote_count", num(0)),
        ("alternative_titles", obj(vec![("results", JsonValue::Array(vec![obj(vec![("title", text("绝命毒师"))])]))])),
    ])
}

#[test]
fn series_record_fields() {
    let m = series();
    assert!(series_runtimes_fit(&m));
    let r = tv_record(&m, 1396);
    assert_eq!(r.get_str("media_type"), Some("tv"));
    assert_eq!(r.get_str("chinese_title"), Some("Breaking Bad"));
    assert_eq!(r.get_str("title"), Some("Breaking Bad Breaking Bad"));
    assert_eq!(r.get_str("year"), Some("2008"));
    assert_eq!(r.get_str("release_date"), Some("2008-01-20"));
    assert_eq!(r.get_str("runtime"), Some("50分钟/集"));
    assert_eq!(r.get_str("season_info"), Some("5季 / 62集"));
    assert_eq!(r.str_array("director"), vec!["Vince Gilligan".to_string()]);
    assert_eq!(r.get_str("imdb_rating"), Some(""));
    assert_eq!(r.get_str("tmdb_votes"), Some(""));
    assert_eq!(r.get_str("tmdb_link"), Some("https://www.themoviedb.org/tv/1396"));
    assert_eq!(r.str_array("aka"), vec!["绝命毒师".to_string()]);
    let cb = creators(&m);
    assert_eq!(cb.len(), 1);
    assert_eq!(cb[0].get_str("job"), Some("Creator"));
    assert_eq!(cb[0].get_u64("id"), Some(66633));
}

#[test]
fn running_times_beyond_u64_are_detected() {
    let m = obj(vec![("episode_run_time", JsonValue::Array(vec![num(u64::MAX), num(1)]))]);
    assert!(!series_runtimes_fit(&m));
    let one = obj(vec![("episode_run_time", JsonValue::Array(vec![num(u64::MAX)]))]);
    assert!(series_runtimes_fit(&one));
}
