//! DoubanInfo data: request addresses, search results and detail records.
use vstd::prelude::*;
use crate::common::{
    Candidate, CandidateData, pair_views, url_result_view, url_with_query, url_with_query_pairs,
};
use crate::json::{
    JsonData, JsonValue, bool_field, field, list_field, text_field, text_list_field, text_or_empty,
    with_member,
};
use crate::text::{concat3, owned, str_eq, views};

verus! {

/// The DoubanInfo API endpoint.
pub const BASE: &'static str = "https://doubaninfo.com/api/v1_douban.php";

/// The DoubanInfo query pairs: `key`, `url`, and `douban=1` in douban mode.
pub open spec fn query_pairs(key: Seq<char>, value: Seq<char>, douban_mode: bool) -> Seq<(Seq<char>, Seq<char>)> {
    let p = seq![("key"@, key), ("url"@, value)];
    if douban_mode {
        p.push(("douban"@, "1"@))
    } else {
        p
    }
}

/// The address of a DoubanInfo call for `url_value` (a title, a Douban ID or
/// link, or an IMDb ID); in douban mode an IMDb ID yields the Douban record.
pub fn build_url(key: &str, url_value: &str, douban_mode: bool) -> (r: Result<String, String>)
    ensures
        url_result_view(r) == url_with_query(BASE@, query_pairs(key@, url_value@, douban_mode)),
{
    let mut pairs: Vec<(String, String)> = Vec::new();
    pairs.push((owned("key"), owned(key)));
    pairs.push((owned("url"), owned(url_value)));
    if douban_mode {
        pairs.push((owned("douban"), owned("1")));
    }
    assert(pair_views(pairs@) =~= query_pairs(key@, url_value@, douban_mode));
    url_with_query_pairs(BASE, &pairs)
}

/// The rating shown for a Douban result: its Douban rating when not empty,
/// else its IMDb rating.
pub open spec fn douban_rating_of(r: JsonData) -> Seq<char> {
    match text_field(r, "douban_rating"@) {
        Some(s) => if s.len() > 0 {
            s
        } else {
            text_or_empty(r, "imdb_rating"@)
        },
        None => text_or_empty(r, "imdb_rating"@),
    }
}

/// A Douban result is a series when its season count is neither empty nor "0".
pub open spec fn douban_media_type(r: JsonData) -> Seq<char> {
    let sc = text_or_empty(r, "season_count"@);
    if sc.len() > 0 && sc != "0"@ {
        "tv"@
    } else {
        "movie"@
    }
}

/// The candidate summary of a Douban result.
pub open spec fn douban_candidate(r: JsonData) -> CandidateData {
    CandidateData {
        source: "douban"@,
        id: text_or_empty(r, "sid"@),
        media_type: douban_media_type(r),
        title: text_or_empty(r, "title"@),
        chinese_title: text_or_empty(r, "chinese_title"@),
        year: text_or_empty(r, "year"@),
        rating: douban_rating_of(r),
        region: text_or_empty(r, "region"@),
        genre: text_list_field(r, "genre"@),
        poster: text_or_empty(r, "poster"@),
    }
}

/// Summarises a Douban result as a search candidate.
pub fn summarize_douban(r: &JsonValue) -> (c: Candidate)
    ensures
        c@ == douban_candidate(r@),
{
    let rating = match r.get_str("douban_rating") {
        Some(s) => if !s.is_empty() {
            owned(s)
        } else {
            r.str_or_empty("imdb_rating")
        },
        None => r.str_or_empty("imdb_rating"),
    };
    let sc = r.str_or_empty("season_count");
    let media_type = if !sc.as_str().is_empty() && !str_eq(sc.as_str(), "0") {
        "tv"
    } else {
        "movie"
    };
    Candidate {
        source: owned("douban"),
        id: r.str_or_empty("sid"),
        media_type: owned(media_type),
        title: r.str_or_empty("title"),
        chinese_title: r.str_or_empty("chinese_title"),
        year: r.str_or_empty("year"),
        rating,
        region: r.str_or_empty("region"),
        genre: r.str_array("genre"),
        poster: r.str_or_empty("poster"),
    }
}

/// The candidates of a DoubanInfo search reply: none unless `success` is
/// true; the `results` list when there is one; the reply itself when it is
/// a single record (has a `sid`).
pub open spec fn search_reply_candidates(raw: JsonData) -> Seq<CandidateData> {
    if bool_field(raw, "success"@) != Some(true) {
        Seq::empty()
    } else {
        match list_field(raw, "results"@) {
            Some(l) => l.map_values(|x: JsonData| douban_candidate(x)),
            None => if field(raw, "sid"@) is Some {
                seq![douban_candidate(raw)]
            } else {
                Seq::empty()
            },
        }
    }
}

/// Reads the candidates out of a DoubanInfo search reply.
pub fn search_candidates(raw: &JsonValue) -> (r: Vec<Candidate>)
    ensures
        r@.map_values(|c: Candidate| c@) == search_reply_candidates(raw@),
{
    let mut out: Vec<Candidate> = Vec::new();
    if raw.get_bool("success") != Some(true) {
        assert(out@.map_values(|c: Candidate| c@) =~= search_reply_candidates(raw@));
        return out;
    }
    match raw.get_array("results") {
        Some(results) => {
            let mut i: usize = 0;
            while i < results.len()
                invariant
                    i <= results@.len(),
                    out@.len() == i,
                    forall|j: int| 0 <= j < i ==> #[trigger] out@[j]@ == douban_candidate(results@[j]@),
                decreases results@.len() - i,
            {
                out.push(summarize_douban(&results[i]));
                i = i + 1;
            }
            assert(out@.map_values(|c: Candidate| c@) =~= search_reply_candidates(raw@));
            out
        },
        None => {
            if raw.get("sid").is_some() {
                out.push(summarize_douban(raw));
            }
            assert(out@.map_values(|c: Candidate| c@) =~= search_reply_candidates(raw@));
            out
        },
    }
}

/// Sets member `k` only when the object does not have it yet
/// (`entry(k).or_insert(v)`).
pub open spec fn with_default(d: JsonData, k: Seq<char>, v: JsonData) -> JsonData {
    if field(d, k) is Some {
        d
    } else {
        with_member(d, k, v)
    }
}

/// A successful detail record completed with the fields the server leaves
/// out: `source` "douban", `media_type` from the season count, and the Douban
/// link from the `sid`; each only where missing. Other replies are unchanged.
pub open spec fn completed_detail(data: JsonData) -> JsonData {
    if bool_field(data, "success"@) == Some(true) {
        let sc = text_or_empty(data, "season_count"@);
        let d1 = with_default(data, "source"@, JsonData::Text("douban"@));
        let d2 = with_default(
            d1,
            "media_type"@,
            JsonData::Text(
                if sc.len() > 0 {
                    "tv"@
                } else {
                    "movie"@
                },
            ),
        );
        match text_field(data, "sid"@) {
            Some(sid) => with_default(
                d2,
                "douban_link"@,
                JsonData::Text("https://movie.douban.com/subject/"@ + sid + "/"@),
            ),
            None => d2,
        }
    } else {
        data
    }
}

fn with_default_exec(d: JsonValue, key: &str, v: JsonValue) -> (r: JsonValue)
    ensures
        r@ == with_default(d@, key@, v@),
{
    if d.get(key).is_some() {
        d
    } else {
        d.with_member(key, v)
    }
}

/// Completes a DoubanInfo detail reply with `source`, `media_type` and
/// `douban_link` where the server left them out.
pub fn complete_detail(data: JsonValue) -> (r: JsonValue)
    ensures
        r@ == completed_detail(data@),
{
    if data.get_bool("success") == Some(true) {
        let sc = data.str_or_empty("season_count");
        let sid: Option<String> = match data.get_str("sid") {
            Some(s) => Some(owned(s)),
            None => None,
        };
        let ghost d0 = data@;
        let d = with_default_exec(data, "source", JsonValue::from_str("douban"));
        let mt = if !sc.as_str().is_empty() {
            "tv"
        } else {
            "movie"
        };
        let d = with_default_exec(d, "media_type", JsonValue::from_str(mt));
        match sid {
            Some(sid) => {
                let link = concat3("https://movie.douban.com/subject/", sid.as_str(), "/");
                with_default_exec(d, "douban_link", JsonValue::from_string(link))
            },
            None => d,
        }
    } else {
        data
    }
}

} // verus!
