//! TMDB data: request addresses, search results, IMDb lookups, and the
//! unified movie and series records built from TMDB details.
use vstd::prelude::*;
use crate::common::{
    Candidate, CandidateData, IMG, ZH, byte_cut, byte_cut_exec, tmdb_request_url, tmdb_url,
    url_result_view,
};
use crate::json::{
    JsonData, JsonNumber, JsonValue, field, list_field, members_view, object_of, push_member,
    text_field, text_or_empty, u64_field,
};
use crate::text::{
    chars_of, concat2, decimal, owned, signed_decimal, starts_with, str_eq, str_starts_with,
    string_from_range, u64_to_text, i64_to_text, utf8_len, utf8_prefix, views,
};

verus! {

/// A TMDB client: the API key and the request limits.
pub struct TMDBClient {
    key: String,
    timeout: u64,
    retry: usize,
}

impl TMDBClient {
    /// The API key.
    pub closed spec fn key_view(&self) -> Seq<char> {
        self.key@
    }

    /// The request timeout in seconds.
    pub closed spec fn timeout_view(&self) -> u64 {
        self.timeout
    }

    /// The number of retries.
    pub closed spec fn retry_view(&self) -> usize {
        self.retry
    }

    /// A client with the given API key, timeout (seconds) and retry count.
    pub fn new(key: &str, timeout: u64, retry: usize) -> (r: Self)
        ensures
            r.key_view() == key@,
            r.timeout_view() == timeout,
            r.retry_view() == retry,
    {
        TMDBClient { key: owned(key), timeout, retry }
    }

    /// The request timeout in seconds.
    pub fn timeout(&self) -> (r: u64)
        ensures
            r == self.timeout_view(),
    {
        self.timeout
    }

    /// The number of retries.
    pub fn retry(&self) -> (r: usize)
        ensures
            r == self.retry_view(),
    {
        self.retry
    }

    /// The address of an API call (`get`): the path under the API root, the
    /// parameters and the API key.
    pub fn request_url(&self, path: &str, params: &[(&str, &str)]) -> (r: Result<String, String>)
        ensures
            url_result_view(r) == tmdb_url(
                path@,
                params@.map_values(|p: (&str, &str)| (p.0@, p.1@)),
                self.key_view(),
            ),
    {
        tmdb_request_url(path, params, self.key.as_str())
    }
}

// ───────── search ─────────

/// Whether a search for this media type covers films.
pub open spec fn searches_movies(media_type: Seq<char>) -> bool {
    media_type == "auto"@ || media_type == "movie"@
}

/// Whether a search for this media type covers series.
pub open spec fn searches_series(media_type: Seq<char>) -> bool {
    media_type == "auto"@ || media_type == "tv"@
}

/// Whether films are searched for this media type.
pub fn wants_movies(media_type: &str) -> (r: bool)
    ensures
        r == searches_movies(media_type@),
{
    str_eq(media_type, "auto") || str_eq(media_type, "movie")
}

/// Whether series are searched for this media type.
pub fn wants_series(media_type: &str) -> (r: bool)
    ensures
        r == searches_series(media_type@),
{
    str_eq(media_type, "auto") || str_eq(media_type, "tv")
}

/// The path of a title search.
pub open spec fn search_path(series: bool) -> Seq<char> {
    if series {
        "/search/tv"@
    } else {
        "/search/movie"@
    }
}

/// The parameters of a title search: the trimmed query, Chinese, first page,
/// and the year (`first_air_date_year` for series).
pub open spec fn search_params(query: Seq<char>, year: Option<Seq<char>>, series: bool) -> Seq<(Seq<char>, Seq<char>)> {
    let p = seq![
        ("query"@, crate::text::trimmed(query)),
        ("language"@, ZH@),
        ("page"@, "1"@),
    ];
    match year {
        Some(y) => p.push((
            if series {
                "first_air_date_year"@
            } else {
                "year"@
            },
            y,
        )),
        None => p,
    }
}

/// The view of an optional text.
pub open spec fn opt_str(o: Option<&str>) -> Option<Seq<char>> {
    match o {
        Some(s) => Some(s@),
        None => None,
    }
}

impl TMDBClient {
    /// The address of a title search for films or series.
    pub fn search_url(&self, query: &str, year: Option<&str>, series: bool) -> (r: Result<String, String>)
        ensures
            url_result_view(r) == tmdb_url(
                search_path(series),
                search_params(query@, opt_str(year), series),
                self.key_view(),
            ),
    {
        let q = crate::text::trim_str(query);
        let path = if series {
            "/search/tv"
        } else {
            "/search/movie"
        };
        let mut p: Vec<(&str, &str)> = Vec::new();
        p.push(("query", q));
        p.push(("language", ZH));
        p.push(("page", "1"));
        match year {
            Some(y) => {
                p.push((
                    if series {
                        "first_air_date_year"
                    } else {
                        "year"
                    },
                    y,
                ));
            },
            None => {},
        }
        assert(p@.map_values(|x: (&str, &str)| (x.0@, x.1@)) =~= search_params(query@, opt_str(year), series));
        self.request_url(path, p.as_slice())
    }
}

/// The date text of a search result: `release_date`, else `first_air_date`.
pub open spec fn item_date(x: JsonData) -> Seq<char> {
    match text_field(x, "release_date"@) {
        Some(d) => d,
        None => text_or_empty(x, "first_air_date"@),
    }
}

/// The year of a search result: the first four bytes of its date, or empty
/// when the date is shorter.
pub open spec fn item_year_of(x: JsonData) -> Seq<char> {
    let d = item_date(x);
    if utf8_len(d) >= 4 {
        utf8_prefix(d, 4)->0
    } else {
        Seq::empty()
    }
}

/// The year of a search result can be cut out without panicking.
pub open spec fn year_cuttable(x: JsonData) -> bool {
    utf8_len(item_date(x)) >= 4 ==> utf8_prefix(item_date(x), 4) is Some
}

/// The year of a search result (`d[..4]` of its date).
fn item_year(x: &JsonValue) -> (r: String)
    requires
        year_cuttable(x@),
    ensures
        r@ == item_year_of(x@),
{
    let d: String = match x.get_str("release_date") {
        Some(s) => owned(s),
        None => x.str_or_empty("first_air_date"),
    };
    let cs = chars_of(d.as_str());
    if crate::common::utf8_len_at_most(&cs, 3) {
        String::new()
    } else {
        match crate::text::utf8_prefix_exec(&cs, 4) {
            Some(k) => {
                assert(cs@.subrange(0, k as int) =~= cs@.take(k as int));
                string_from_range(&cs, 0, k)
            },
            None => String::new(),
        }
    }
}

/// The rating shown for a TMDB result: its `vote_average` as a float's
/// display text, unless that is "0".
pub open spec fn tmdb_rating_of(x: JsonData) -> Seq<char> {
    match field(x, "vote_average"@) {
        Some(JsonData::Number(n)) => if n.float_text != "0"@ {
            n.float_text
        } else {
            Seq::empty()
        },
        _ => Seq::empty(),
    }
}

/// The poster address for a poster path.
pub open spec fn poster_of(x: JsonData, k: Seq<char>) -> Seq<char> {
    match text_field(x, k) {
        Some(p) => IMG@ + p,
        None => Seq::empty(),
    }
}

/// The candidate summary of a TMDB search result.
pub open spec fn tmdb_candidate(media_type: Seq<char>, x: JsonData) -> CandidateData {
    CandidateData {
        source: "tmdb"@,
        id: match u64_field(x, "id"@) {
            Some(i) => decimal(i as nat),
            None => Seq::empty(),
        },
        media_type: media_type,
        title: match text_field(x, "title"@) {
            Some(t) => t,
            None => text_or_empty(x, "name"@),
        },
        chinese_title: Seq::empty(),
        year: item_year_of(x),
        rating: tmdb_rating_of(x),
        region: Seq::empty(),
        genre: Seq::empty(),
        poster: poster_of(x, "poster_path"@),
    }
}

/// The poster address of a member holding a poster path.
fn poster_exec(x: &JsonValue, key: &str) -> (r: String)
    ensures
        r@ == poster_of(x@, key@),
{
    match x.get_str(key) {
        Some(p) => concat2(IMG, p),
        None => String::new(),
    }
}

/// Summarises a TMDB search result as a candidate.
fn summarize_tmdb(media_type: &str, x: &JsonValue) -> (c: Candidate)
    requires
        year_cuttable(x@),
    ensures
        c@ == tmdb_candidate(media_type@, x@),
{
    let poster = poster_exec(x, "poster_path");
    let rating = match x.get("vote_average") {
        Some(JsonValue::Number(n)) => if !str_eq(n.float_text.as_str(), "0") {
            n.float_text.clone()
        } else {
            String::new()
        },
        _ => String::new(),
    };
    let id = match x.get_u64("id") {
        Some(i) => u64_to_text(i),
        None => String::new(),
    };
    let title = match x.get_str("title") {
        Some(t) => owned(t),
        None => x.str_or_empty("name"),
    };
    let c = Candidate {
        source: owned("tmdb"),
        id,
        media_type: owned(media_type),
        title,
        chinese_title: String::new(),
        year: item_year(x),
        rating,
        region: String::new(),
        genre: Vec::new(),
        poster,
    };
    assert(views(c.genre@) =~= Seq::<Seq<char>>::empty());
    c
}

/// The results of a search reply (none for a missing reply).
pub open spec fn reply_results(reply: Option<JsonData>) -> Seq<JsonData> {
    match reply {
        Some(r) => match list_field(r, "results"@) {
            Some(l) => l,
            None => Seq::empty(),
        },
        None => Seq::empty(),
    }
}

/// The results that a year filter keeps: those whose year starts with it,
/// unless none does, then all of them.
pub open spec fn year_filtered(
    items: Seq<(Seq<char>, JsonData)>,
    year: Option<Seq<char>>,
) -> Seq<(Seq<char>, JsonData)> {
    match year {
        Some(y) => {
            let matched = items.filter(|it: (Seq<char>, JsonData)| starts_with(item_year_of(it.1), y));
            if matched.len() > 0 {
                matched
            } else {
                items
            }
        },
        None => items,
    }
}

/// The candidates of a TMDB title search: film results (tagged "movie")
/// then series results (tagged "tv"), narrowed by the year when it matches
/// any of them.
pub open spec fn search_result_candidates(
    movie_reply: Option<JsonData>,
    tv_reply: Option<JsonData>,
    year: Option<Seq<char>>,
) -> Seq<CandidateData> {
    let tagged = reply_results(movie_reply).map_values(|x: JsonData| ("movie"@, x)) + reply_results(
        tv_reply,
    ).map_values(|x: JsonData| ("tv"@, x));
    year_filtered(tagged, year).map_values(|it: (Seq<char>, JsonData)| tmdb_candidate(it.0, it.1))
}

/// Whether the year of a search result can be cut out (`d[..4]` of its
/// date would not panic).
fn year_fits(x: &JsonValue) -> (r: bool)
    ensures
        r == year_cuttable(x@),
{
    let d: String = match x.get_str("release_date") {
        Some(s) => owned(s),
        None => x.str_or_empty("first_air_date"),
    };
    let cs = chars_of(d.as_str());
    if crate::common::utf8_len_at_most(&cs, 3) {
        true
    } else {
        crate::text::utf8_prefix_exec(&cs, 4).is_some()
    }
}

/// Whether every result of a reply has a year that can be cut out.
fn reply_fits(reply: Option<&JsonValue>) -> (r: bool)
    ensures
        r == forall|i: int|
            0 <= i < reply_results(opt_data(reply)).len() ==> year_cuttable(#[trigger] reply_results(opt_data(reply))[i]),
{
    let arr = match reply {
        Some(v) => match v.get_array("results") {
            Some(a) => a,
            None => {
                return true;
            },
        },
        None => {
            return true;
        },
    };
    let ghost rs = reply_results(opt_data(reply));
    assert(rs == arr@.map_values(|x: JsonValue| x@));
    let mut i: usize = 0;
    while i < arr.len()
        invariant
            i <= arr@.len(),
            rs == arr@.map_values(|x: JsonValue| x@),
            rs == reply_results(opt_data(reply)),
            forall|k: int| 0 <= k < i ==> year_cuttable(#[trigger] rs[k]),
        decreases arr@.len() - i,
    {
        assert(rs[i as int] == arr@[i as int]@);
        if !year_fits(&arr[i]) {
            return false;
        }
        i = i + 1;
    }
    true
}

/// Whether `search_candidates` can read the replies without a slicing panic.
pub fn search_years_fit(movie_reply: Option<&JsonValue>, tv_reply: Option<&JsonValue>) -> (r: bool)
    ensures
        r == replies_cuttable(opt_data(movie_reply), opt_data(tv_reply)),
{
    reply_fits(movie_reply) && reply_fits(tv_reply)
}

/// Whether `movie_record` can read the film reply without a slicing panic.
pub fn movie_dates_fit(m: &JsonValue) -> (r: bool)
    ensures
        r == movie_cuttable(m@),
{
    match m.get("release_dates") {
        Some(rd) => match rd.get("results") {
            Some(x) => crate::common::release_dates_fit(x),
            None => true,
        },
        None => true,
    }
}

/// A year narrows a title search: either every candidate's year begins with
/// it, or no result's does and all the candidates are kept.
pub proof fn lemma_search_year_narrows(movie_reply: Option<JsonData>, tv_reply: Option<JsonData>, y: Seq<char>)
    ensures
        ({
            let cs = search_result_candidates(movie_reply, tv_reply, Some(y));
            ||| forall|k: int| 0 <= k < cs.len() ==> starts_with(#[trigger] cs[k].year, y)
            ||| cs == search_result_candidates(movie_reply, tv_reply, None)
        }),
{
    let tagged = reply_results(movie_reply).map_values(|x: JsonData| ("movie"@, x)) + reply_results(
        tv_reply,
    ).map_values(|x: JsonData| ("tv"@, x));
    let pred = |it: (Seq<char>, JsonData)| starts_with(item_year_of(it.1), y);
    let matched = tagged.filter(pred);
    if matched.len() > 0 {
        let cs = search_result_candidates(movie_reply, tv_reply, Some(y));
        assert forall|k: int| 0 <= k < cs.len() implies starts_with(#[trigger] cs[k].year, y) by {
            tagged.lemma_filter_pred(pred, k);
            assert(cs[k] == tmdb_candidate(matched[k].0, matched[k].1));
        }
    }
}

/// The view of an optional value.
pub open spec fn opt_data(o: Option<&JsonValue>) -> Option<JsonData> {
    match o {
        Some(v) => Some(v@),
        None => None,
    }
}

/// Every result of the replies has a year that can be cut out.
pub open spec fn replies_cuttable(movie_reply: Option<JsonData>, tv_reply: Option<JsonData>) -> bool {
    &&& forall|i: int| 0 <= i < reply_results(movie_reply).len() ==> year_cuttable(#[trigger] reply_results(movie_reply)[i])
    &&& forall|i: int| 0 <= i < reply_results(tv_reply).len() ==> year_cuttable(#[trigger] reply_results(tv_reply)[i])
}

/// Appends the results of one reply, tagged with a media type.
fn push_tagged(out: &mut Vec<(String, JsonValue)>, tag: &str, reply: Option<&JsonValue>)
    ensures
        final(out)@.map_values(|it: (String, JsonValue)| (it.0@, it.1@)) == old(out)@.map_values(
            |it: (String, JsonValue)| (it.0@, it.1@),
        ) + reply_results(opt_data(reply)).map_values(|x: JsonData| (tag@, x)),
{
    let ghost before = out@.map_values(|it: (String, JsonValue)| (it.0@, it.1@));
    match reply {
        Some(r) => match r.get_array("results") {
            Some(arr) => {
                let mut i: usize = 0;
                while i < arr.len()
                    invariant
                        i <= arr@.len(),
                        out@.map_values(|it: (String, JsonValue)| (it.0@, it.1@)) == before + arr@.take(
                            i as int,
                        ).map_values(|x: JsonValue| (tag@, x@)),
                    decreases arr@.len() - i,
                {
                    let ghost prev = out@;
                    out.push((owned(tag), arr[i].copy()));
                    assert(arr@.take(i + 1).map_values(|x: JsonValue| (tag@, x@)) =~= arr@.take(
                        i as int,
                    ).map_values(|x: JsonValue| (tag@, x@)).push((tag@, arr@[i as int]@)));
                    assert(out@.map_values(|it: (String, JsonValue)| (it.0@, it.1@)) =~= prev.map_values(
                        |it: (String, JsonValue)| (it.0@, it.1@),
                    ).push((tag@, arr@[i as int]@)));
                    i = i + 1;
                }
                assert(arr@.take(arr@.len() as int) =~= arr@);
                assert(arr@.map_values(|x: JsonValue| (tag@, x@)) =~= arr@.map_values(|x: JsonValue| x@).map_values(
                    |x: JsonData| (tag@, x),
                ));
            },
            None => {
                assert(out@.map_values(|it: (String, JsonValue)| (it.0@, it.1@)) =~= before + reply_results(
                    opt_data(reply),
                ).map_values(|x: JsonData| (tag@, x)));
            },
        },
        None => {
            assert(out@.map_values(|it: (String, JsonValue)| (it.0@, it.1@)) =~= before + reply_results(
                opt_data(reply),
            ).map_values(|x: JsonData| (tag@, x)));
        },
    }
}

/// Turns the replies of a title search into candidates. A reply is `None`
/// when that search was not made or failed.
pub fn search_candidates(
    movie_reply: Option<&JsonValue>,
    tv_reply: Option<&JsonValue>,
    year: Option<&str>,
) -> (r: Vec<Candidate>)
    requires
        replies_cuttable(opt_data(movie_reply), opt_data(tv_reply)),
    ensures
        r@.map_values(|c: Candidate| c@) == search_result_candidates(
            opt_data(movie_reply),
            opt_data(tv_reply),
            opt_str(year),
        ),
{
    let mut results: Vec<(String, JsonValue)> = Vec::new();
    assert(results@.map_values(|it: (String, JsonValue)| (it.0@, it.1@)) =~= Seq::<(Seq<char>, JsonData)>::empty());
    push_tagged(&mut results, "movie", movie_reply);
    push_tagged(&mut results, "tv", tv_reply);
    let ghost all = results@.map_values(|it: (String, JsonValue)| (it.0@, it.1@));
    let ghost mres = reply_results(opt_data(movie_reply));
    let ghost tres = reply_results(opt_data(tv_reply));
    assert(all =~= mres.map_values(|x: JsonData| ("movie"@, x)) + tres.map_values(|x: JsonData| ("tv"@, x)));
    assert forall|i: int| 0 <= i < all.len() implies year_cuttable(#[trigger] all[i].1) by {
        if i < mres.len() {
            assert(all[i].1 == mres[i]);
        } else {
            assert(all[i].1 == tres[i - mres.len()]);
        }
    }
    // the year filter
    let ghost pred = |it: (Seq<char>, JsonData)| starts_with(item_year_of(it.1), opt_str(year)->0);
    let mut chosen: Vec<usize> = Vec::new();
    let mut use_all = true;
    match year {
        Some(y) => {
            let mut i: usize = 0;
            while i < results.len()
                invariant
                    i <= results@.len(),
                    all == results@.map_values(|it: (String, JsonValue)| (it.0@, it.1@)),
                    forall|j: int| 0 <= j < all.len() ==> year_cuttable(#[trigger] all[j].1),
                    opt_str(year) == Some(y@),
                    pred == |it: (Seq<char>, JsonData)| starts_with(item_year_of(it.1), opt_str(year)->0),
                    chosen@.map_values(|j: usize| all[j as int]) == all.take(i as int).filter(pred),
                    forall|k: int| 0 <= k < chosen@.len() ==> #[trigger] chosen@[k] < i,
                decreases results@.len() - i,
            {
                proof {
                    assert(all.take(i + 1).drop_last() =~= all.take(i as int));
                    reveal_with_fuel(Seq::filter, 1);
                }
                assert(all[i as int].1 == results@[i as int].1@);
                let yr = item_year(&results[i].1);
                if str_starts_with(yr.as_str(), y) {
                    let ghost before = chosen@;
                    chosen.push(i);
                    assert(chosen@.map_values(|j: usize| all[j as int]) =~= before.map_values(
                        |j: usize| all[j as int],
                    ).push(all[i as int]));
                }
                i = i + 1;
            }
            assert(all.take(all.len() as int) =~= all);
            use_all = chosen.len() == 0;
        },
        None => {},
    }
    let mut out: Vec<Candidate> = Vec::new();
    if use_all {
        let mut i: usize = 0;
        while i < results.len()
            invariant
                i <= results@.len(),
                all == results@.map_values(|it: (String, JsonValue)| (it.0@, it.1@)),
                forall|j: int| 0 <= j < all.len() ==> year_cuttable(#[trigger] all[j].1),
                out@.len() == i,
                forall|j: int| 0 <= j < i ==> #[trigger] out@[j]@ == tmdb_candidate(all[j].0, all[j].1),
            decreases results@.len() - i,
        {
            assert(all[i as int].1 == results@[i as int].1@);
            out.push(summarize_tmdb(results[i].0.as_str(), &results[i].1));
            i = i + 1;
        }
        assert(out@.map_values(|c: Candidate| c@) =~= all.map_values(
            |it: (Seq<char>, JsonData)| tmdb_candidate(it.0, it.1),
        ));
    } else {
        let ghost kept = chosen@.map_values(|j: usize| all[j as int]);
        let mut i: usize = 0;
        while i < chosen.len()
            invariant
                i <= chosen@.len(),
                all == results@.map_values(|it: (String, JsonValue)| (it.0@, it.1@)),
                forall|j: int| 0 <= j < all.len() ==> year_cuttable(#[trigger] all[j].1),
                forall|k: int| 0 <= k < chosen@.len() ==> #[trigger] chosen@[k] < results@.len(),
                kept == chosen@.map_values(|j: usize| all[j as int]),
                out@.len() == i,
                forall|j: int| 0 <= j < i ==> #[trigger] out@[j]@ == tmdb_candidate(kept[j].0, kept[j].1),
            decreases chosen@.len() - i,
        {
            let k = chosen[i];
            assert(all[k as int].1 == results@[k as int].1@);
            out.push(summarize_tmdb(results[k].0.as_str(), &results[k].1));
            i = i + 1;
        }
        assert(out@.map_values(|c: Candidate| c@) =~= kept.map_values(
            |it: (Seq<char>, JsonData)| tmdb_candidate(it.0, it.1),
        ));
    }
    out
}

// ───────── IMDb lookup ─────────

/// The first element's `id` of the list member `k`, as `u64`.
pub open spec fn first_id(d: JsonData, k: Seq<char>) -> Option<u64> {
    match list_field(d, k) {
        Some(l) => if l.len() > 0 {
            u64_field(l[0], "id"@)
        } else {
            None
        },
        None => None,
    }
}

/// What an IMDb lookup reply gives: the first film, else the first series,
/// as media type and TMDB id (`id as i64`).
pub open spec fn found_by_imdb(d: JsonData) -> Option<(Seq<char>, i64)> {
    match first_id(d, "movie_results"@) {
        Some(id) => Some(("movie"@, id as i64)),
        None => match first_id(d, "tv_results"@) {
            Some(id) => Some(("tv"@, id as i64)),
            None => None,
        },
    }
}

/// The view of a lookup outcome.
pub open spec fn found_view(r: Option<(String, i64)>) -> Option<(Seq<char>, i64)> {
    match r {
        Some((m, i)) => Some((m@, i)),
        None => None,
    }
}

fn first_id_exec(d: &JsonValue, key: &str) -> (r: Option<u64>)
    ensures
        r == first_id(d@, key@),
{
    match d.get_array(key) {
        Some(arr) => if arr.len() > 0 {
            arr[0].get_u64("id")
        } else {
            None
        },
        None => None,
    }
}

impl TMDBClient {
    /// The address of the IMDb lookup for an IMDb ID.
    pub fn find_url(&self, imdb_id: &str) -> (r: Result<String, String>)
        ensures
            url_result_view(r) == tmdb_url(
                "/find/"@ + imdb_id@,
                seq![("external_source"@, "imdb_id"@)],
                self.key_view(),
            ),
    {
        let path = concat2("/find/", imdb_id);
        let p: Vec<(&str, &str)> = vec![("external_source", "imdb_id")];
        assert(p@.map_values(|x: (&str, &str)| (x.0@, x.1@)) =~= seq![("external_source"@, "imdb_id"@)]);
        self.request_url(path.as_str(), p.as_slice())
    }

    /// Locates a title by IMDb ID from the lookup reply: `(media_type,
    /// tmdb_id)` of the first film, else of the first series.
    pub fn find_by_imdb(found: &JsonValue) -> (r: Option<(String, i64)>)
        ensures
            found_view(r) == found_by_imdb(found@),
    {
        match first_id_exec(found, "movie_results") {
            Some(id) => Some((owned("movie"), id as i64)),
            None => match first_id_exec(found, "tv_results") {
                Some(id) => Some((owned("tv"), id as i64)),
                None => None,
            },
        }
    }
}

// ───────── records ─────────

/// The fields of a unified TMDB record.
pub struct RecordView {
    pub sid: Seq<char>,
    pub media_type: Seq<char>,
    pub zh_title: Seq<char>,
    pub original_title: Seq<char>,
    pub year: Seq<char>,
    pub directors: Seq<Seq<char>>,
    pub writers: Seq<Seq<char>>,
    pub cast: Seq<Seq<char>>,
    pub genres: Seq<Seq<char>>,
    pub countries: Seq<Seq<char>>,
    pub languages: Seq<Seq<char>>,
    pub aka: Seq<Seq<char>>,
    pub release_date: Seq<char>,
    pub runtime: Seq<char>,
    pub summary: Seq<char>,
    pub poster: Seq<char>,
    pub imdb_id: Seq<char>,
    pub rating: Seq<char>,
    pub vote_count: u64,
    pub tmdb_link: Seq<char>,
}

/// The fields of a unified TMDB record, as computed.
pub struct BaseData {
    pub sid: String,
    pub media_type: String,
    pub zh_title: String,
    pub original_title: String,
    pub year: String,
    pub directors: Vec<String>,
    pub writers: Vec<String>,
    pub cast: Vec<String>,
    pub genres: Vec<String>,
    pub countries: Vec<String>,
    pub languages: Vec<String>,
    pub aka: Vec<String>,
    pub release_date: String,
    pub runtime: String,
    pub summary: String,
    pub poster: String,
    pub imdb_id: String,
    /// The display of `vote_average` when it is greater than zero, else empty.
    pub rating: String,
    pub vote_count: u64,
    pub tmdb_link: String,
}

impl View for BaseData {
    type V = RecordView;

    open spec fn view(&self) -> RecordView {
        RecordView {
            sid: self.sid@,
            media_type: self.media_type@,
            zh_title: self.zh_title@,
            original_title: self.original_title@,
            year: self.year@,
            directors: views(self.directors@),
            writers: views(self.writers@),
            cast: views(self.cast@),
            genres: views(self.genres@),
            countries: views(self.countries@),
            languages: views(self.languages@),
            aka: views(self.aka@),
            release_date: self.release_date@,
            runtime: self.runtime@,
            summary: self.summary@,
            poster: self.poster@,
            imdb_id: self.imdb_id@,
            rating: self.rating@,
            vote_count: self.vote_count,
            tmdb_link: self.tmdb_link@,
        }
    }
}

/// The unified record of TMDB fields: titles, people, dates, ratings and
/// links, with the rating shown both as IMDb's and TMDB's.
pub open spec fn record_data(b: RecordView) -> JsonData {
    let title = if b.original_title.len() == 0 {
        b.zh_title
    } else {
        b.zh_title + " "@ + b.original_title
    };
    let votes = if b.vote_count > 0 {
        decimal(b.vote_count as nat)
    } else {
        Seq::empty()
    };
    JsonData::Members(
        seq![
            ("success"@, JsonData::Bool(true)),
            ("source"@, JsonData::Text("tmdb"@)),
            ("media_type"@, JsonData::Text(b.media_type)),
            ("sid"@, JsonData::Text(b.sid)),
            ("title"@, JsonData::Text(title)),
            ("chinese_title"@, JsonData::Text(b.zh_title)),
            ("original_title"@, JsonData::Text(b.original_title)),
            ("year"@, JsonData::Text(b.year)),
            ("director"@, crate::json::text_list(b.directors)),
            ("cast"@, crate::json::text_list(b.cast)),
            ("genre"@, crate::json::text_list(b.genres)),
            ("imdb_id"@, JsonData::Text(b.imdb_id)),
            ("writer"@, crate::json::text_list(b.writers)),
            ("release_date"@, JsonData::Text(b.release_date)),
            ("region"@, JsonData::Text(crate::text::join(b.countries, " / "@))),
            ("language"@, JsonData::Text(crate::text::join(b.languages, " / "@))),
            ("duration"@, JsonData::Text(b.runtime)),
            ("aka"@, crate::json::text_list(b.aka)),
            ("runtime"@, JsonData::Text(b.runtime)),
            ("summary"@, JsonData::Text(b.summary)),
            ("poster"@, JsonData::Text(b.poster)),
            ("cover"@, JsonData::Text(b.poster)),
            ("imdb_rating"@, JsonData::Text(b.rating)),
            ("imdb_votes"@, JsonData::Text(votes)),
            ("tmdb_rating"@, JsonData::Text(b.rating)),
            ("tmdb_votes"@, JsonData::Text(votes)),
            ("tmdb_link"@, JsonData::Text(b.tmdb_link)),
            ("full_celebrities"@, JsonData::Members(Seq::empty())),
            ("usage"@, JsonData::Null),
        ],
    )
}

impl BaseData {
    /// The unified record.
    pub fn into_value(self) -> (r: JsonValue)
        ensures
            r@ == record_data(self@),
    {
        let ghost b = self@;
        let title = if self.original_title.as_str().is_empty() {
            self.zh_title.clone()
        } else {
            crate::text::concat3(self.zh_title.as_str(), " ", self.original_title.as_str())
        };
        let votes = if self.vote_count > 0 {
            u64_to_text(self.vote_count)
        } else {
            String::new()
        };
        let region = crate::text::join_strings(&self.countries, " / ");
        let language = crate::text::join_strings(&self.languages, " / ");
        let mut ms: Vec<(String, JsonValue)> = Vec::new();
        assert(members_view(ms@) =~= Seq::<(Seq<char>, JsonData)>::empty());
        push_member(&mut ms, "success", JsonValue::Bool(true));
        push_member(&mut ms, "source", JsonValue::from_str("tmdb"));
        push_member(&mut ms, "media_type", JsonValue::from_str(self.media_type.as_str()));
        push_member(&mut ms, "sid", JsonValue::from_str(self.sid.as_str()));
        push_member(&mut ms, "title", JsonValue::from_string(title));
        push_member(&mut ms, "chinese_title", JsonValue::from_str(self.zh_title.as_str()));
        push_member(&mut ms, "original_title", JsonValue::from_str(self.original_title.as_str()));
        push_member(&mut ms, "year", JsonValue::from_str(self.year.as_str()));
        push_member(&mut ms, "director", JsonValue::from_strings(&self.directors));
        push_member(&mut ms, "cast", JsonValue::from_strings(&self.cast));
        push_member(&mut ms, "genre", JsonValue::from_strings(&self.genres));
        push_member(&mut ms, "imdb_id", JsonValue::from_str(self.imdb_id.as_str()));
        push_member(&mut ms, "writer", JsonValue::from_strings(&self.writers));
        push_member(&mut ms, "release_date", JsonValue::from_str(self.release_date.as_str()));
        push_member(&mut ms, "region", JsonValue::from_string(region));
        push_member(&mut ms, "language", JsonValue::from_string(language));
        push_member(&mut ms, "duration", JsonValue::from_str(self.runtime.as_str()));
        push_member(&mut ms, "aka", JsonValue::from_strings(&self.aka));
        push_member(&mut ms, "runtime", JsonValue::from_str(self.runtime.as_str()));
        push_member(&mut ms, "summary", JsonValue::from_str(self.summary.as_str()));
        push_member(&mut ms, "poster", JsonValue::from_str(self.poster.as_str()));
        push_member(&mut ms, "cover", JsonValue::from_str(self.poster.as_str()));
        push_member(&mut ms, "imdb_rating", JsonValue::from_str(self.rating.as_str()));
        push_member(&mut ms, "imdb_votes", JsonValue::from_str(votes.as_str()));
        push_member(&mut ms, "tmdb_rating", JsonValue::from_str(self.rating.as_str()));
        push_member(&mut ms, "tmdb_votes", JsonValue::from_str(votes.as_str()));
        push_member(&mut ms, "tmdb_link", JsonValue::from_str(self.tmdb_link.as_str()));
        push_member(&mut ms, "full_celebrities", JsonValue::empty_object());
        push_member(&mut ms, "usage", JsonValue::Null);
        let r = object_of(ms);
        assert(r@->Members_0 =~= record_data(b)->Members_0);
        r
    }
}

// ───────── reading a detail reply ─────────

/// A person's name with the original name added when it differs.
pub open spec fn person_name(c: JsonData) -> Seq<char> {
    crate::common::joined_name(text_or_empty(c, "name"@), text_or_empty(c, "original_name"@))
}

/// The names of the people whose member `key` is the text `val`, in order.
pub open spec fn names_where(items: Seq<JsonData>, key: Seq<char>, val: Seq<char>) -> Seq<Seq<char>>
    decreases items.len(),
{
    if items.len() == 0 {
        Seq::empty()
    } else {
        let r = names_where(items.drop_last(), key, val);
        if text_field(items.last(), key) == Some(val) {
            r.push(person_name(items.last()))
        } else {
            r
        }
    }
}

/// A cast member: the name, with ` (饰 character)` when there is a character.
pub open spec fn cast_entry(c: JsonData) -> Seq<char> {
    let ch = text_or_empty(c, "character"@);
    if ch.len() == 0 {
        person_name(c)
    } else {
        person_name(c) + " (饰 "@ + ch + ")"@
    }
}

/// The first 25 cast members.
pub open spec fn cast_texts(cast: Seq<JsonData>) -> Seq<Seq<char>> {
    let n: nat = if cast.len() < 25 {
        cast.len()
    } else {
        25
    };
    Seq::new(n, |i: int| cast_entry(cast[i]))
}

/// The `name` texts of the entries, in order (entries without one skipped).
pub open spec fn member_names(items: Seq<JsonData>) -> Seq<Seq<char>>
    decreases items.len(),
{
    if items.len() == 0 {
        Seq::empty()
    } else {
        let r = member_names(items.drop_last());
        match text_field(items.last(), "name"@) {
            Some(n) => r.push(n),
            None => r,
        }
    }
}

/// The non-empty texts, in order.
pub open spec fn non_empty_texts(s: Seq<Seq<char>>) -> Seq<Seq<char>>
    decreases s.len(),
{
    if s.len() == 0 {
        Seq::empty()
    } else {
        let r = non_empty_texts(s.drop_last());
        if s.last().len() > 0 {
            r.push(s.last())
        } else {
            r
        }
    }
}

/// The index of the first translation at or after `start` that is zh-CN
/// and has a non-empty text at `key`.
pub open spec fn zh_index(ts: Seq<JsonData>, key: Seq<char>, start: int) -> Option<int>
    decreases ts.len() - start,
{
    if start < 0 || start >= ts.len() {
        None
    } else if text_field(ts[start], "iso_639_1"@) == Some("zh"@) && text_field(ts[start], "iso_3166_1"@)
        == Some("CN"@) && zh_text(ts[start], key).len() > 0 {
        Some(start)
    } else {
        zh_index(ts, key, start + 1)
    }
}

/// The text at `data.key` of a translation.
pub open spec fn zh_text(t: JsonData, key: Seq<char>) -> Seq<char> {
    match field(t, "data"@) {
        Some(d) => text_or_empty(d, key),
        None => Seq::empty(),
    }
}

/// The Simplified Chinese title in a `translations` value, or empty.
pub open spec fn zh_title_of(translations: JsonData, key: Seq<char>) -> Seq<char> {
    let ts = crate::schema::list_or_empty(translations, "translations"@);
    match zh_index(ts, key, 0) {
        Some(i) => zh_text(ts[i], key),
        None => Seq::empty(),
    }
}

/// The first four bytes of a date, or empty (`date.get(..4).unwrap_or("")`).
pub open spec fn year4(s: Seq<char>) -> Seq<char> {
    match utf8_prefix(s, 4) {
        Some(p) => p,
        None => Seq::empty(),
    }
}

/// The display of `vote_average` when it is greater than zero, else empty.
pub open spec fn vote_rating(m: JsonData) -> Seq<char> {
    match field(m, "vote_average"@) {
        Some(JsonData::Number(n)) => if n.float_positive {
            n.float_text
        } else {
            Seq::empty()
        },
        _ => Seq::empty(),
    }
}

/// `external_ids.imdb_id`, or empty.
pub open spec fn imdb_of(m: JsonData) -> Seq<char> {
    match field(m, "external_ids"@) {
        Some(e) => text_or_empty(e, "imdb_id"@),
        None => Seq::empty(),
    }
}

/// The alias titles under `alternative_titles.key`, at most 20.
pub open spec fn aka_of(m: JsonData, key: Seq<char>) -> Seq<Seq<char>> {
    match field(m, "alternative_titles"@) {
        Some(a) => match list_field(a, key) {
            Some(l) => crate::common::picked_akas(l, 20),
            None => Seq::empty(),
        },
        None => Seq::empty(),
    }
}

/// The list `credits.key` of a detail reply.
pub open spec fn credits_list(m: JsonData, key: Seq<char>) -> Seq<JsonData> {
    crate::schema::list_or_empty(crate::schema::field_or_empty_object(m, "credits"@), key)
}

/// The value holding a film's release dates (`release_dates.results`).
pub open spec fn release_results(m: JsonData) -> JsonData {
    match field(m, "release_dates"@) {
        Some(rd) => match field(rd, "results"@) {
            Some(x) => x,
            None => JsonData::List(Seq::empty()),
        },
        None => JsonData::List(Seq::empty()),
    }
}

/// The release dates of a film: the dates by region, else its own
/// `release_date`.
pub open spec fn movie_release(m: JsonData) -> Seq<char> {
    let r = crate::common::release_dates_text(release_results(m));
    if r.len() > 0 {
        r
    } else {
        text_or_empty(m, "release_date"@)
    }
}

/// The running time of a film, `N分钟`, when it is known and not zero.
pub open spec fn movie_runtime(m: JsonData) -> Seq<char> {
    match u64_field(m, "runtime"@) {
        Some(n) => if n > 0 {
            decimal(n as nat) + "分钟"@
        } else {
            Seq::empty()
        },
        None => Seq::empty(),
    }
}

/// The title: the Chinese translation, else the member `key`.
pub open spec fn title_or(m: JsonData, zh: Seq<char>, key: Seq<char>) -> Seq<char> {
    if zh.len() > 0 {
        zh
    } else {
        text_or_empty(m, key)
    }
}

/// The TMDB page of a film or series.
pub open spec fn tmdb_link_of(kind: Seq<char>, id: i64) -> Seq<char> {
    "https://www.themoviedb.org/"@ + kind + "/"@ + signed_decimal(id as int)
}

/// The fields of a film's record, read from its detail reply.
pub open spec fn movie_view(m: JsonData, id: i64) -> RecordView {
    let crew = credits_list(m, "crew"@);
    let rel = text_or_empty(m, "release_date"@);
    RecordView {
        sid: signed_decimal(id as int),
        media_type: "movie"@,
        zh_title: title_or(m, zh_title_of(crate::schema::field_or_empty_object(m, "translations"@), "title"@), "title"@),
        original_title: text_or_empty(m, "original_title"@),
        year: year4(rel),
        directors: names_where(crew, "job"@, "Director"@),
        writers: names_where(crew, "department"@, "Writing"@),
        cast: cast_texts(credits_list(m, "cast"@)),
        genres: member_names(crate::schema::list_or_empty(m, "genres"@)),
        countries: member_names(crate::schema::list_or_empty(m, "production_countries"@)).map_values(
            |n: Seq<char>| crate::common::country_name_cn(n),
        ),
        languages: non_empty_texts(member_names(crate::schema::list_or_empty(m, "spoken_languages"@))),
        aka: aka_of(m, "titles"@),
        release_date: movie_release(m),
        runtime: movie_runtime(m),
        summary: text_or_empty(m, "overview"@),
        poster: poster_of(m, "poster_path"@),
        imdb_id: imdb_of(m),
        rating: vote_rating(m),
        vote_count: match u64_field(m, "vote_count"@) {
            Some(c) => c,
            None => 0,
        },
        tmdb_link: tmdb_link_of("movie"@, id),
    }
}

/// The film's region release dates can be cut to ten bytes without
/// panicking.
pub open spec fn movie_cuttable(m: JsonData) -> bool {
    release_results(m) matches JsonData::List(rs) ==> crate::common::dates_cuttable(rs)
}

/// The record of a film, read from its detail reply.
pub open spec fn movie_record_of(m: JsonData, id: i64) -> JsonData {
    record_data(movie_view(m, id))
}

// ───────── reading, computed ─────────

/// A list member of a value, borrowed (an empty list when there is none).
fn list_or_empty_exec<'a>(d: &'a JsonValue, key: &str, empty: &'a Vec<JsonValue>) -> (r: &'a Vec<JsonValue>)
    requires
        empty@.len() == 0,
    ensures
        r@.map_values(|x: JsonValue| x@) == crate::schema::list_or_empty(d@, key@),
{
    match d.get_array(key) {
        Some(a) => a,
        None => {
            assert(empty@.map_values(|x: JsonValue| x@) =~= Seq::<JsonData>::empty());
            empty
        },
    }
}

/// An empty list.
fn empty_list() -> (r: JsonValue)
    ensures
        r@ == JsonData::List(Seq::empty()),
{
    let r = JsonValue::Array(Vec::new());
    assert(r@->List_0 =~= Seq::<JsonData>::empty());
    r
}

/// The person's joined name.
fn person_name_exec(c: &JsonValue) -> (r: String)
    ensures
        r@ == person_name(c@),
{
    let n = c.str_or_empty("name");
    let o = c.str_or_empty("original_name");
    crate::common::join_name(n.as_str(), o.as_str())
}

/// The joined names of the people whose member `key` is `val`.
fn names_where_exec(items: &Vec<JsonValue>, key: &str, val: &str) -> (r: Vec<String>)
    ensures
        views(r@) == names_where(items@.map_values(|x: JsonValue| x@), key@, val@),
{
    let ghost all = items@.map_values(|x: JsonValue| x@);
    let mut r: Vec<String> = Vec::new();
    let mut i: usize = 0;
    while i < items.len()
        invariant
            i <= items@.len(),
            all == items@.map_values(|x: JsonValue| x@),
            views(r@) == names_where(all.take(i as int), key@, val@),
        decreases items@.len() - i,
    {
        assert(all.take(i + 1).drop_last() =~= all.take(i as int));
        assert(all.take(i + 1).last() == items@[i as int]@);
        let matches = match items[i].get_str(key) {
            Some(v) => str_eq(v, val),
            None => false,
        };
        if matches {
            let ghost before = r@;
            r.push(person_name_exec(&items[i]));
            assert(views(r@) =~= views(before).push(person_name(items@[i as int]@)));
        }
        i = i + 1;
    }
    assert(all.take(items@.len() as int) =~= all);
    r
}

/// The first 25 cast members, with their characters.
fn cast_texts_exec(cast: &Vec<JsonValue>) -> (r: Vec<String>)
    ensures
        views(r@) == cast_texts(cast@.map_values(|x: JsonValue| x@)),
{
    let n: usize = if cast.len() < 25 {
        cast.len()
    } else {
        25
    };
    let mut r: Vec<String> = Vec::new();
    let mut i: usize = 0;
    while i < n
        invariant
            i <= n,
            n <= cast@.len(),
            r@.len() == i,
            forall|j: int| 0 <= j < i ==> #[trigger] r@[j]@ == cast_entry(cast@[j]@),
        decreases n - i,
    {
        let c = &cast[i];
        let name = person_name_exec(c);
        let ch = c.str_or_empty("character");
        let e = if ch.as_str().is_empty() {
            name
        } else {
            let mut e = crate::text::concat3(name.as_str(), " (饰 ", ch.as_str());
            crate::text::push_str(&mut e, ")");
            e
        };
        r.push(e);
        i = i + 1;
    }
    assert(views(r@) =~= cast_texts(cast@.map_values(|x: JsonValue| x@)));
    r
}

/// The `name` texts of the entries.
fn member_names_exec(items: &Vec<JsonValue>) -> (r: Vec<String>)
    ensures
        views(r@) == member_names(items@.map_values(|x: JsonValue| x@)),
{
    let ghost all = items@.map_values(|x: JsonValue| x@);
    let mut r: Vec<String> = Vec::new();
    let mut i: usize = 0;
    while i < items.len()
        invariant
            i <= items@.len(),
            all == items@.map_values(|x: JsonValue| x@),
            views(r@) == member_names(all.take(i as int)),
        decreases items@.len() - i,
    {
        assert(all.take(i + 1).drop_last() =~= all.take(i as int));
        assert(all.take(i + 1).last() == items@[i as int]@);
        match items[i].get_str("name") {
            Some(n) => {
                let ghost before = r@;
                r.push(owned(n));
                assert(views(r@) =~= views(before).push(n@));
            },
            None => {},
        }
        i = i + 1;
    }
    assert(all.take(items@.len() as int) =~= all);
    r
}

/// The Chinese names of the countries.
fn country_names_exec(items: &Vec<JsonValue>) -> (r: Vec<String>)
    ensures
        views(r@) == member_names(items@.map_values(|x: JsonValue| x@)).map_values(
            |n: Seq<char>| crate::common::country_name_cn(n),
        ),
{
    let names = member_names_exec(items);
    let mut r: Vec<String> = Vec::new();
    let mut i: usize = 0;
    while i < names.len()
        invariant
            i <= names@.len(),
            r@.len() == i,
            forall|j: int| 0 <= j < i ==> #[trigger] r@[j]@ == crate::common::country_name_cn(names@[j]@),
        decreases names@.len() - i,
    {
        r.push(crate::common::country_en_to_cn(names[i].as_str()));
        i = i + 1;
    }
    assert(views(r@) =~= views(names@).map_values(|n: Seq<char>| crate::common::country_name_cn(n)));
    r
}

/// The non-empty texts.
fn non_empty_exec(v: Vec<String>) -> (r: Vec<String>)
    ensures
        views(r@) == non_empty_texts(views(v@)),
{
    let ghost all = views(v@);
    let mut r: Vec<String> = Vec::new();
    let mut i: usize = 0;
    while i < v.len()
        invariant
            i <= v@.len(),
            all == views(v@),
            views(r@) == non_empty_texts(all.take(i as int)),
        decreases v@.len() - i,
    {
        assert(all.take(i + 1).drop_last() =~= all.take(i as int));
        assert(all.take(i + 1).last() == v@[i as int]@);
        if !v[i].as_str().is_empty() {
            let ghost before = r@;
            r.push(v[i].clone());
            assert(views(r@) =~= views(before).push(v@[i as int]@));
        }
        i = i + 1;
    }
    assert(all.take(v@.len() as int) =~= all);
    r
}

/// The Simplified Chinese title of a `translations` value.
fn zh_title(translations: &JsonValue, key: &str) -> (r: String)
    ensures
        r@ == zh_title_of(translations@, key@),
{
    let empty: Vec<JsonValue> = Vec::new();
    let arr = list_or_empty_exec(translations, "translations", &empty);
    let ghost ts = arr@.map_values(|x: JsonValue| x@);
    let mut i: usize = 0;
    while i < arr.len()
        invariant
            i <= arr@.len(),
            ts == arr@.map_values(|x: JsonValue| x@),
            ts == crate::schema::list_or_empty(translations@, "translations"@),
            zh_index(ts, key@, 0) == zh_index(ts, key@, i as int),
        decreases arr@.len() - i,
    {
        let t = &arr[i];
        let lang_ok = match t.get_str("iso_639_1") {
            Some(l) => str_eq(l, "zh"),
            None => false,
        };
        let region_ok = match t.get_str("iso_3166_1") {
            Some(c) => str_eq(c, "CN"),
            None => false,
        };
        if lang_ok && region_ok {
            let v: String = match t.get("data") {
                Some(d) => d.str_or_empty(key),
                None => String::new(),
            };
            assert(v@ == zh_text(ts[i as int], key@));
            if !v.as_str().is_empty() {
                return v;
            }
        }
        i = i + 1;
    }
    String::new()
}

/// The first four bytes of a date, or empty.
fn year4_exec(s: &str) -> (r: String)
    ensures
        r@ == year4(s@),
{
    let cs = chars_of(s);
    match crate::text::utf8_prefix_exec(&cs, 4) {
        Some(k) => {
            assert(cs@.subrange(0, k as int) =~= cs@.take(k as int));
            string_from_range(&cs, 0, k)
        },
        None => String::new(),
    }
}

/// The alias titles under `alternative_titles.key`.
fn aka_exec(m: &JsonValue, key: &str) -> (r: Vec<String>)
    ensures
        views(r@) == aka_of(m@, key@),
{
    match m.get("alternative_titles") {
        Some(a) => match a.get_array(key) {
            Some(arr) => crate::common::pick_aka(arr.as_slice(), 20),
            None => {
                let r: Vec<String> = Vec::new();
                assert(views(r@) =~= Seq::<Seq<char>>::empty());
                r
            },
        },
        None => {
            let r: Vec<String> = Vec::new();
            assert(views(r@) =~= Seq::<Seq<char>>::empty());
            r
        },
    }
}

/// The display of `vote_average` when greater than zero.
fn vote_rating_exec(m: &JsonValue) -> (r: String)
    ensures
        r@ == vote_rating(m@),
{
    match m.get("vote_average") {
        Some(JsonValue::Number(n)) => if n.float_positive {
            n.float_text.clone()
        } else {
            String::new()
        },
        _ => String::new(),
    }
}

/// `external_ids.imdb_id`.
fn imdb_exec(m: &JsonValue) -> (r: String)
    ensures
        r@ == imdb_of(m@),
{
    match m.get("external_ids") {
        Some(e) => e.str_or_empty("imdb_id"),
        None => String::new(),
    }
}

/// The TMDB page of a film or series.
fn tmdb_link_exec(kind: &str, id: i64) -> (r: String)
    ensures
        r@ == tmdb_link_of(kind@, id),
{
    let mut s = concat2("https://www.themoviedb.org/", kind);
    crate::text::push_str(&mut s, "/");
    let n = i64_to_text(id);
    crate::text::push_str(&mut s, n.as_str());
    s
}

/// `credits.key` of a detail reply, copied.
pub fn credits_list_exec(m: &JsonValue, key: &str) -> (r: Vec<JsonValue>)
    ensures
        r@.map_values(|x: JsonValue| x@) == credits_list(m@, key@),
{
    let credits = match m.get("credits") {
        Some(c) => c.copy(),
        None => JsonValue::empty_object(),
    };
    assert(credits@ == crate::schema::field_or_empty_object(m@, "credits"@));
    let empty: Vec<JsonValue> = Vec::new();
    let l = list_or_empty_exec(&credits, key, &empty);
    let mut out: Vec<JsonValue> = Vec::new();
    let mut i: usize = 0;
    while i < l.len()
        invariant
            i <= l@.len(),
            out@.len() == i,
            forall|j: int| 0 <= j < i ==> #[trigger] out@[j]@ == l@[j]@,
        decreases l@.len() - i,
    {
        out.push(l[i].copy());
        i = i + 1;
    }
    assert(out@.map_values(|x: JsonValue| x@) =~= l@.map_values(|x: JsonValue| x@));
    out
}

/// The record of a film from its detail reply (without the full cast and
/// crew, which `build_fc` adds).
pub fn movie_record(m: &JsonValue, tmdb_id: i64) -> (r: JsonValue)
    requires
        movie_cuttable(m@),
    ensures
        r@ == movie_record_of(m@, tmdb_id),
{
    let crew = credits_list_exec(m, "crew");
    let cast = credits_list_exec(m, "cast");
    let rel = m.str_or_empty("release_date");
    let empty: Vec<JsonValue> = Vec::new();
    let release_date = {
        let rd: JsonValue = match m.get("release_dates") {
            Some(rd) => match rd.get("results") {
                Some(x) => x.copy(),
                None => empty_list(),
            },
            None => empty_list(),
        };
        assert(rd@ == release_results(m@));
        let t = crate::common::parse_release_dates(&rd);
        if !t.as_str().is_empty() {
            t
        } else {
            rel.clone()
        }
    };
    let runtime = match m.get_u64("runtime") {
        Some(n) => if n > 0 {
            let t = u64_to_text(n);
            concat2(t.as_str(), "分钟")
        } else {
            String::new()
        },
        None => String::new(),
    };
    let translations = match m.get("translations") {
        Some(t) => t.copy(),
        None => JsonValue::empty_object(),
    };
    let zh = zh_title(&translations, "title");
    let zh_title = if !zh.as_str().is_empty() {
        zh
    } else {
        m.str_or_empty("title")
    };
    let languages = non_empty_exec(member_names_exec(list_or_empty_exec(m, "spoken_languages", &empty)));
    let data = BaseData {
        sid: i64_to_text(tmdb_id),
        media_type: owned("movie"),
        zh_title,
        original_title: m.str_or_empty("original_title"),
        year: year4_exec(rel.as_str()),
        directors: names_where_exec(&crew, "job", "Director"),
        writers: names_where_exec(&crew, "department", "Writing"),
        cast: cast_texts_exec(&cast),
        genres: member_names_exec(list_or_empty_exec(m, "genres", &empty)),
        countries: country_names_exec(list_or_empty_exec(m, "production_countries", &empty)),
        languages,
        aka: aka_exec(m, "titles"),
        release_date,
        runtime,
        summary: m.str_or_empty("overview"),
        poster: poster_exec(m, "poster_path"),
        imdb_id: imdb_exec(m),
        rating: vote_rating_exec(m),
        vote_count: match m.get_u64("vote_count") {
            Some(c) => c,
            None => 0,
        },
        tmdb_link: tmdb_link_exec("movie", tmdb_id),
    };
    assert(data@ == movie_view(m@, tmdb_id));
    data.into_value()
}

// ───────── series ─────────

/// The `u64` values of a list, in order (other values skipped).
pub open spec fn u64s_of(items: Seq<JsonData>) -> Seq<u64>
    decreases items.len(),
{
    if items.len() == 0 {
        Seq::empty()
    } else {
        let r = u64s_of(items.drop_last());
        match crate::json::u64_of(items.last()) {
            Some(n) => r.push(n),
            None => r,
        }
    }
}

/// The sum of the numbers.
pub open spec fn total(s: Seq<u64>) -> int
    decreases s.len(),
{
    if s.len() == 0 {
        0
    } else {
        total(s.drop_last()) + s.last()
    }
}

/// The episode running time of a series: the integer mean of
/// `episode_run_time`, `N分钟/集`, when there is any.
pub open spec fn tv_runtime(m: JsonData) -> Seq<char> {
    let e = u64s_of(crate::schema::list_or_empty(m, "episode_run_time"@));
    if e.len() > 0 {
        decimal((total(e) / (e.len() as int)) as nat) + "分钟/集"@
    } else {
        Seq::empty()
    }
}

/// The season and episode counts of a series: `S季 / E集`, `S季` or `E集`.
pub open spec fn season_text(m: JsonData) -> Seq<char> {
    let seasons: u64 = match u64_field(m, "number_of_seasons"@) {
        Some(n) => n,
        None => 0,
    };
    let episodes: u64 = match u64_field(m, "number_of_episodes"@) {
        Some(n) => n,
        None => 0,
    };
    let s: Seq<char> = if seasons > 0 {
        decimal(seasons as nat) + "季"@
    } else {
        Seq::empty()
    };
    if episodes > 0 {
        if s.len() > 0 {
            s + " / "@ + decimal(episodes as nat) + "集"@
        } else {
            decimal(episodes as nat) + "集"@
        }
    } else {
        s
    }
}

/// The fields of a series' record, read from its detail reply.
pub open spec fn tv_view(m: JsonData, id: i64) -> RecordView {
    let created_by = crate::schema::list_or_empty(m, "created_by"@);
    let first_air = text_or_empty(m, "first_air_date"@);
    RecordView {
        sid: signed_decimal(id as int),
        media_type: "tv"@,
        zh_title: title_or(m, zh_title_of(crate::schema::field_or_empty_object(m, "translations"@), "name"@), "name"@),
        original_title: text_or_empty(m, "original_name"@),
        year: year4(first_air),
        directors: created_by.map_values(|c: JsonData| person_name(c)),
        writers: names_where(credits_list(m, "crew"@), "department"@, "Writing"@),
        cast: cast_texts(credits_list(m, "cast"@)),
        genres: member_names(crate::schema::list_or_empty(m, "genres"@)),
        countries: member_names(crate::schema::list_or_empty(m, "production_countries"@)).map_values(
            |n: Seq<char>| crate::common::country_name_cn(n),
        ),
        languages: non_empty_texts(member_names(crate::schema::list_or_empty(m, "spoken_languages"@))),
        aka: aka_of(m, "results"@),
        release_date: first_air,
        runtime: tv_runtime(m),
        summary: text_or_empty(m, "overview"@),
        poster: poster_of(m, "poster_path"@),
        imdb_id: imdb_of(m),
        rating: vote_rating(m),
        vote_count: match u64_field(m, "vote_count"@) {
            Some(c) => c,
            None => 0,
        },
        tmdb_link: tmdb_link_of("tv"@, id),
    }
}

/// The episode running times of a series add up within `u64`.
pub open spec fn runtimes_fit(m: JsonData) -> bool {
    total(u64s_of(crate::schema::list_or_empty(m, "episode_run_time"@))) <= u64::MAX
}

/// The record of a series, read from its detail reply, with its season
/// description.
pub open spec fn tv_record_of(m: JsonData, id: i64) -> JsonData {
    crate::json::with_member(record_data(tv_view(m, id)), "season_info"@, JsonData::Text(season_text(m)))
}

proof fn lemma_total_le(s: Seq<u64>, i: int)
    requires
        0 <= i <= s.len(),
    ensures
        total(s.take(i)) <= total(s),
        total(s.take(i)) >= 0,
    decreases s.len() - i,
{
    if i < s.len() {
        lemma_total_le(s, i + 1);
        assert(s.take(i + 1).drop_last() =~= s.take(i));
        lemma_total_nonneg(s.take(i));
    } else {
        assert(s.take(i) =~= s);
        lemma_total_nonneg(s);
    }
}

proof fn lemma_total_nonneg(s: Seq<u64>)
    ensures
        total(s) >= 0,
    decreases s.len(),
{
    if s.len() > 0 {
        lemma_total_nonneg(s.drop_last());
    }
}

/// Whether the episode running times of a series reply add up within `u64`
/// (so that `tv_record` can average them).
pub fn series_runtimes_fit(m: &JsonValue) -> (r: bool)
    ensures
        r == runtimes_fit(m@),
{
    let empty: Vec<JsonValue> = Vec::new();
    let items = list_or_empty_exec(m, "episode_run_time", &empty);
    let ghost all = items@.map_values(|x: JsonValue| x@);
    let ghost e = u64s_of(all);
    let mut sum: u64 = 0;
    let mut i: usize = 0;
    while i < items.len()
        invariant
            i <= items@.len(),
            all == items@.map_values(|x: JsonValue| x@),
            e == u64s_of(all),
            all == crate::schema::list_or_empty(m@, "episode_run_time"@),
            sum == total(u64s_of(all.take(i as int))),
        decreases items@.len() - i,
    {
        assert(all.take(i + 1).drop_last() =~= all.take(i as int));
        assert(all.take(i + 1).last() == items@[i as int]@);
        match items[i].as_u64() {
            Some(n) => {
                match sum.checked_add(n) {
                    Some(t) => {
                        proof {
                            let p = u64s_of(all.take(i + 1));
                            assert(p == u64s_of(all.take(i as int)).push(n));
                            assert(p.drop_last() =~= u64s_of(all.take(i as int)));
                        }
                        sum = t;
                    },
                    None => {
                        proof {
                            let p = u64s_of(all.take(i + 1));
                            assert(p == u64s_of(all.take(i as int)).push(n));
                            assert(p.drop_last() =~= u64s_of(all.take(i as int)));
                            lemma_u64s_of_prefix(all, i + 1);
                            lemma_total_le(e, p.len() as int);
                        }
                        return false;
                    },
                }
            },
            None => {},
        }
        i = i + 1;
    }
    assert(all.take(items@.len() as int) =~= all);
    true
}

/// The numbers of a prefix are a prefix of the numbers.
proof fn lemma_u64s_of_prefix(items: Seq<JsonData>, i: int)
    requires
        0 <= i <= items.len(),
    ensures
        u64s_of(items.take(i)) == u64s_of(items).take(u64s_of(items.take(i)).len() as int),
        u64s_of(items.take(i)).len() <= u64s_of(items).len(),
    decreases items.len() - i,
{
    if i < items.len() {
        lemma_u64s_of_prefix(items, i + 1);
        let a = u64s_of(items.take(i));
        let b = u64s_of(items.take(i + 1));
        assert(items.take(i + 1).drop_last() =~= items.take(i));
        assert(b.take(a.len() as int) =~= a);
        assert(u64s_of(items).take(b.len() as int).take(a.len() as int) =~= u64s_of(items).take(a.len() as int));
    } else {
        assert(items.take(i) =~= items);
        assert(u64s_of(items).take(u64s_of(items).len() as int) =~= u64s_of(items));
    }
}

/// The episode running time of a series, computed.
fn tv_runtime_exec(m: &JsonValue) -> (r: String)
    requires
        runtimes_fit(m@),
    ensures
        r@ == tv_runtime(m@),
{
    let empty: Vec<JsonValue> = Vec::new();
    let items = list_or_empty_exec(m, "episode_run_time", &empty);
    let ghost all = items@.map_values(|x: JsonValue| x@);
    let ghost e = u64s_of(all);
    let mut vals: Vec<u64> = Vec::new();
    let mut i: usize = 0;
    while i < items.len()
        invariant
            i <= items@.len(),
            all == items@.map_values(|x: JsonValue| x@),
            vals@ == u64s_of(all.take(i as int)),
        decreases items@.len() - i,
    {
        assert(all.take(i + 1).drop_last() =~= all.take(i as int));
        assert(all.take(i + 1).last() == items@[i as int]@);
        match items[i].as_u64() {
            Some(n) => {
                vals.push(n);
            },
            None => {},
        }
        i = i + 1;
    }
    assert(all.take(items@.len() as int) =~= all);
    if vals.len() == 0 {
        return String::new();
    }
    let mut sum: u64 = 0;
    let mut k: usize = 0;
    while k < vals.len()
        invariant
            k <= vals@.len(),
            vals@ == e,
            total(e) <= u64::MAX,
            sum == total(e.take(k as int)),
        decreases vals@.len() - k,
    {
        proof {
            assert(e.take(k + 1).drop_last() =~= e.take(k as int));
            lemma_total_le(e, k + 1);
        }
        sum = sum + vals[k];
        k = k + 1;
    }
    assert(e.take(vals@.len() as int) =~= e);
    let avg = sum / (vals.len() as u64);
    let t = u64_to_text(avg);
    concat2(t.as_str(), "分钟/集")
}

/// The season and episode counts of a series, computed.
fn season_text_exec(m: &JsonValue) -> (r: String)
    ensures
        r@ == season_text(m@),
{
    let seasons = match m.get_u64("number_of_seasons") {
        Some(n) => n,
        None => 0,
    };
    let episodes = match m.get_u64("number_of_episodes") {
        Some(n) => n,
        None => 0,
    };
    let s = if seasons > 0 {
        let t = u64_to_text(seasons);
        concat2(t.as_str(), "季")
    } else {
        String::new()
    };
    if episodes > 0 {
        let e = u64_to_text(episodes);
        if !s.as_str().is_empty() {
            let mut r = crate::text::concat3(s.as_str(), " / ", e.as_str());
            crate::text::push_str(&mut r, "集");
            r
        } else {
            concat2(e.as_str(), "集")
        }
    } else {
        s
    }
}

/// The joined names of all the people of a list.
fn all_names_exec(items: &Vec<JsonValue>) -> (r: Vec<String>)
    ensures
        views(r@) == items@.map_values(|x: JsonValue| x@).map_values(|c: JsonData| person_name(c)),
{
    let mut r: Vec<String> = Vec::new();
    let mut i: usize = 0;
    while i < items.len()
        invariant
            i <= items@.len(),
            r@.len() == i,
            forall|j: int| 0 <= j < i ==> #[trigger] r@[j]@ == person_name(items@[j]@),
        decreases items@.len() - i,
    {
        r.push(person_name_exec(&items[i]));
        i = i + 1;
    }
    assert(views(r@) =~= items@.map_values(|x: JsonValue| x@).map_values(|c: JsonData| person_name(c)));
    r
}

/// The record of a series from its detail reply (without the full cast and
/// crew, which `build_fc` adds).
pub fn tv_record(m: &JsonValue, tmdb_id: i64) -> (r: JsonValue)
    requires
        runtimes_fit(m@),
    ensures
        r@ == tv_record_of(m@, tmdb_id),
{
    let crew = credits_list_exec(m, "crew");
    let cast = credits_list_exec(m, "cast");
    let empty: Vec<JsonValue> = Vec::new();
    let created_by = list_or_empty_exec(m, "created_by", &empty);
    let first_air = m.str_or_empty("first_air_date");
    let translations = match m.get("translations") {
        Some(t) => t.copy(),
        None => JsonValue::empty_object(),
    };
    let zh = zh_title(&translations, "name");
    let zh_title = if !zh.as_str().is_empty() {
        zh
    } else {
        m.str_or_empty("name")
    };
    let languages = non_empty_exec(member_names_exec(list_or_empty_exec(m, "spoken_languages", &empty)));
    let data = BaseData {
        sid: i64_to_text(tmdb_id),
        media_type: owned("tv"),
        zh_title,
        original_title: m.str_or_empty("original_name"),
        year: year4_exec(first_air.as_str()),
        directors: all_names_exec(created_by),
        writers: names_where_exec(&crew, "department", "Writing"),
        cast: cast_texts_exec(&cast),
        genres: member_names_exec(list_or_empty_exec(m, "genres", &empty)),
        countries: country_names_exec(list_or_empty_exec(m, "production_countries", &empty)),
        languages,
        aka: aka_exec(m, "results"),
        release_date: first_air.clone(),
        runtime: tv_runtime_exec(m),
        summary: m.str_or_empty("overview"),
        poster: poster_exec(m, "poster_path"),
        imdb_id: imdb_exec(m),
        rating: vote_rating_exec(m),
        vote_count: match m.get_u64("vote_count") {
            Some(c) => c,
            None => 0,
        },
        tmdb_link: tmdb_link_exec("tv", tmdb_id),
    };
    assert(data@ == tv_view(m@, tmdb_id));
    let season_str = season_text_exec(m);
    data.into_value().with_member("season_info", JsonValue::from_string(season_str))
}

// ───────── details ─────────

/// The path of a detail request: `/movie/{id}` for a film, `/tv/{id}`
/// otherwise.
pub open spec fn detail_path(tmdb_id: i64, media_type: Seq<char>) -> Seq<char> {
    if media_type == "movie"@ {
        "/movie/"@ + signed_decimal(tmdb_id as int)
    } else {
        "/tv/"@ + signed_decimal(tmdb_id as int)
    }
}

/// The parts appended to a detail reply.
pub open spec fn detail_append(media_type: Seq<char>) -> Seq<char> {
    if media_type == "movie"@ {
        "credits,alternative_titles,external_ids,translations,release_dates,images"@
    } else {
        "credits,alternative_titles,external_ids,translations,content_ratings,images"@
    }
}

impl TMDBClient {
    /// The address of the detail request of a film (`media_type` "movie")
    /// or a series (anything else).
    pub fn detail_url(&self, tmdb_id: i64, media_type: &str) -> (r: Result<String, String>)
        ensures
            url_result_view(r) == tmdb_url(
                detail_path(tmdb_id, media_type@),
                seq![("language"@, ZH@), ("append_to_response"@, detail_append(media_type@))],
                self.key_view(),
            ),
    {
        let movie = str_eq(media_type, "movie");
        let id = i64_to_text(tmdb_id);
        let path = if movie {
            concat2("/movie/", id.as_str())
        } else {
            concat2("/tv/", id.as_str())
        };
        let app = if movie {
            "credits,alternative_titles,external_ids,translations,release_dates,images"
        } else {
            "credits,alternative_titles,external_ids,translations,content_ratings,images"
        };
        let p: Vec<(&str, &str)> = vec![("language", ZH), ("append_to_response", app)];
        assert(p@.map_values(|x: (&str, &str)| (x.0@, x.1@)) =~= seq![
            ("language"@, ZH@),
            ("append_to_response"@, detail_append(media_type@)),
        ]);
        self.request_url(path.as_str(), p.as_slice())
    }
}

// ───────── full cast and crew ─────────

/// A creator of a series as a crew entry: name, original name, id (`null`
/// when it is not a `u64`), and the job "Creator".
pub open spec fn creator_entry(c: JsonData) -> JsonData {
    JsonData::Members(
        seq![
            ("name"@, JsonData::Text(text_or_empty(c, "name"@))),
            ("original_name"@, JsonData::Text(text_or_empty(c, "original_name"@))),
            ("id"@, match field(c, "id"@) {
                Some(v) => if crate::json::u64_of(v) is Some {
                    v
                } else {
                    JsonData::Null
                },
                None => JsonData::Null,
            }),
            ("job"@, JsonData::Text("Creator"@)),
        ],
    )
}

/// The creators of a series (`created_by`) as crew entries.
pub fn creators(m: &JsonValue) -> (r: Vec<JsonValue>)
    ensures
        r@.map_values(|x: JsonValue| x@) == crate::schema::list_or_empty(m@, "created_by"@).map_values(
            |c: JsonData| creator_entry(c),
        ),
{
    let empty: Vec<JsonValue> = Vec::new();
    let items = list_or_empty_exec(m, "created_by", &empty);
    let mut out: Vec<JsonValue> = Vec::new();
    let mut i: usize = 0;
    while i < items.len()
        invariant
            i <= items@.len(),
            out@.len() == i,
            forall|j: int| 0 <= j < i ==> #[trigger] out@[j]@ == creator_entry(items@[j]@),
        decreases items@.len() - i,
    {
        let c = &items[i];
        let id = match c.get("id") {
            Some(v) => if v.as_u64().is_some() {
                v.copy()
            } else {
                JsonValue::Null
            },
            None => JsonValue::Null,
        };
        let mut ms: Vec<(String, JsonValue)> = Vec::new();
        assert(members_view(ms@) =~= Seq::<(Seq<char>, JsonData)>::empty());
        push_member(&mut ms, "name", JsonValue::from_string(c.str_or_empty("name")));
        push_member(&mut ms, "original_name", JsonValue::from_string(c.str_or_empty("original_name")));
        push_member(&mut ms, "id", id);
        push_member(&mut ms, "job", JsonValue::from_str("Creator"));
        let e = object_of(ms);
        assert(e@->Members_0 =~= creator_entry(items@[i as int]@)->Members_0);
        out.push(e);
        i = i + 1;
    }
    assert(out@.map_values(|x: JsonValue| x@) =~= items@.map_values(|x: JsonValue| x@).map_values(
        |c: JsonData| creator_entry(c),
    ));
    out
}

/// A director (or creator) entry of the crew.
pub open spec fn is_director(c: JsonData) -> bool {
    text_field(c, "job"@) == Some("Director"@) || text_field(c, "job"@) == Some("Creator"@)
}

/// The directors and creators among the entries, in order.
pub open spec fn directors_in(items: Seq<JsonData>) -> Seq<JsonData>
    decreases items.len(),
{
    if items.len() == 0 {
        Seq::empty()
    } else {
        let r = directors_in(items.drop_last());
        if is_director(items.last()) {
            r.push(items.last())
        } else {
            r
        }
    }
}

/// The first `n` entries (all of them when there are fewer).
pub open spec fn first_n(items: Seq<JsonData>, n: nat) -> Seq<JsonData> {
    if items.len() <= n {
        items
    } else {
        items.take(n as int)
    }
}

/// The people of the full cast and crew, in order: the directors among the
/// first five crew entries, then the first twenty cast members.
pub open spec fn fc_people(crew: Seq<JsonData>, cast: Seq<JsonData>) -> Seq<JsonData> {
    directors_in(first_n(crew, 5)) + first_n(cast, 20)
}

/// The role of a cast member: `演员 Actor`, with `(饰 character)` when known.
pub open spec fn cast_role(c: JsonData) -> Seq<char> {
    let ch = text_or_empty(c, "character"@);
    if ch.len() == 0 {
        "演员 Actor"@
    } else {
        "演员 Actor (饰 "@ + ch + ")"@
    }
}

/// The title of a credit: `title`, else `name`, else `original_title`, else
/// `original_name`, else empty.
pub open spec fn work_title(x: JsonData) -> Seq<char> {
    match text_field(x, "title"@) {
        Some(t) => t,
        None => match text_field(x, "name"@) {
            Some(t) => t,
            None => match text_field(x, "original_title"@) {
                Some(t) => t,
                None => text_or_empty(x, "original_name"@),
            },
        },
    }
}

/// A person's known works: the non-empty titles of the first three credits
/// of a credits reply.
pub open spec fn works_of(p: JsonData) -> Seq<Seq<char>> {
    let cs = crate::schema::list_or_empty(p, "cast"@);
    let n: nat = if cs.len() < 3 {
        cs.len()
    } else {
        3
    };
    non_empty_texts(Seq::new(n, |i: int| work_title(cs[i])))
}

/// The view of an optional reply.
pub open spec fn opt_reply(o: Option<JsonValue>) -> Option<JsonData> {
    match o {
        Some(v) => Some(v@),
        None => None,
    }
}

/// A person of the full cast and crew: name, TMDB page, picture, role,
/// character and known works (from the credits reply, when the person has
/// an id and the reply came).
pub open spec fn person_data(c: JsonData, pid: Option<u64>, role: Seq<char>, credits: Option<JsonData>) -> JsonData {
    let link = match pid {
        Some(id) => "https://www.themoviedb.org/person/"@ + decimal(id as nat),
        None => Seq::empty(),
    };
    let works = match pid {
        Some(_) => match credits {
            Some(p) => works_of(p),
            None => Seq::empty(),
        },
        None => Seq::empty(),
    };
    JsonData::Members(
        seq![
            ("name"@, JsonData::Text(person_name(c))),
            ("link"@, JsonData::Text(link)),
            ("image"@, JsonData::Text(poster_of(c, "profile_path"@))),
            ("role"@, JsonData::Text(role)),
            ("character"@, JsonData::Text(text_or_empty(c, "character"@))),
            ("works"@, crate::json::text_list(works)),
        ],
    )
}

/// The full cast and crew: directors under `导演 Director` and cast under
/// `演员 Cast`, each only when there is someone; `credits[i]` is the credits
/// reply of the `i`-th person of `fc_people`.
pub open spec fn fc_data(crew: Seq<JsonData>, cast: Seq<JsonData>, credits: Seq<Option<JsonData>>) -> JsonData {
    let ds = directors_in(first_n(crew, 5));
    let cs = first_n(cast, 20);
    let d_entries = Seq::new(
        ds.len(),
        |i: int| person_data(ds[i], u64_field(ds[i], "id"@), "导演 Director"@, credits[i]),
    );
    let c_entries = Seq::new(
        cs.len(),
        |j: int| person_data(cs[j], u64_field(cs[j], "id"@), cast_role(cs[j]), credits[ds.len() + j]),
    );
    let first: Seq<(Seq<char>, JsonData)> = if d_entries.len() > 0 {
        seq![("导演 Director"@, JsonData::List(d_entries))]
    } else {
        Seq::empty()
    };
    JsonData::Members(
        if c_entries.len() > 0 {
            first.push(("演员 Cast"@, JsonData::List(c_entries)))
        } else {
            first
        },
    )
}

/// The directors among the entries, copied.
fn directors_exec(items: &[JsonValue]) -> (r: Vec<JsonValue>)
    ensures
        r@.map_values(|x: JsonValue| x@) == directors_in(items@.map_values(|x: JsonValue| x@)),
{
    let ghost all = items@.map_values(|x: JsonValue| x@);
    let mut r: Vec<JsonValue> = Vec::new();
    let mut i: usize = 0;
    while i < items.len()
        invariant
            i <= items@.len(),
            all == items@.map_values(|x: JsonValue| x@),
            r@.map_values(|x: JsonValue| x@) == directors_in(all.take(i as int)),
        decreases items@.len() - i,
    {
        assert(all.take(i + 1).drop_last() =~= all.take(i as int));
        assert(all.take(i + 1).last() == items@[i as int]@);
        let job_ok = match items[i].get_str("job") {
            Some(j) => str_eq(j, "Director") || str_eq(j, "Creator"),
            None => false,
        };
        if job_ok {
            let ghost before = r@;
            r.push(items[i].copy());
            assert(r@.map_values(|x: JsonValue| x@) =~= before.map_values(|x: JsonValue| x@).push(items@[i as int]@));
        }
        i = i + 1;
    }
    assert(all.take(items@.len() as int) =~= all);
    r
}

/// The first `n` entries.
fn first_n_exec(items: &[JsonValue], n: usize) -> (r: &[JsonValue])
    ensures
        r@.map_values(|x: JsonValue| x@) == first_n(items@.map_values(|x: JsonValue| x@), n as nat),
{
    if items.len() <= n {
        items
    } else {
        let r = vstd::slice::slice_subrange(items, 0, n);
        assert(r@.map_values(|x: JsonValue| x@) =~= items@.map_values(|x: JsonValue| x@).take(n as int));
        r
    }
}

/// The people of the full cast and crew, in order, copied.
fn fc_people_exec(crew: &[JsonValue], cast: &[JsonValue]) -> (r: Vec<JsonValue>)
    ensures
        r@.map_values(|x: JsonValue| x@) == fc_people(
            crew@.map_values(|x: JsonValue| x@),
            cast@.map_values(|x: JsonValue| x@),
        ),
{
    let mut r = directors_exec(first_n_exec(crew, 5));
    let cs = first_n_exec(cast, 20);
    let ghost d = r@.map_values(|x: JsonValue| x@);
    let mut i: usize = 0;
    while i < cs.len()
        invariant
            i <= cs@.len(),
            r@.map_values(|x: JsonValue| x@) == d + cs@.take(i as int).map_values(|x: JsonValue| x@),
        decreases cs@.len() - i,
    {
        let ghost before = r@;
        r.push(cs[i].copy());
        assert(cs@.take(i + 1).map_values(|x: JsonValue| x@) =~= cs@.take(i as int).map_values(
            |x: JsonValue| x@,
        ).push(cs@[i as int]@));
        assert(r@.map_values(|x: JsonValue| x@) =~= before.map_values(|x: JsonValue| x@).push(cs@[i as int]@));
        i = i + 1;
    }
    assert(cs@.take(cs@.len() as int) =~= cs@);
    r
}

/// The TMDB ids of the people of the full cast and crew, in order; the app
/// fetches each one's credits.
pub fn fc_person_ids(crew: &[JsonValue], cast: &[JsonValue]) -> (r: Vec<Option<u64>>)
    ensures
        r@ == fc_people(crew@.map_values(|x: JsonValue| x@), cast@.map_values(|x: JsonValue| x@)).map_values(
            |c: JsonData| u64_field(c, "id"@),
        ),
{
    let people = fc_people_exec(crew, cast);
    let mut r: Vec<Option<u64>> = Vec::new();
    let mut i: usize = 0;
    while i < people.len()
        invariant
            i <= people@.len(),
            r@.len() == i,
            forall|j: int| 0 <= j < i ==> #[trigger] r@[j] == u64_field(people@[j]@, "id"@),
        decreases people@.len() - i,
    {
        r.push(people[i].get_u64("id"));
        i = i + 1;
    }
    assert(r@ =~= people@.map_values(|x: JsonValue| x@).map_values(|c: JsonData| u64_field(c, "id"@)));
    r
}

/// The path of a person's credits request.
pub open spec fn credits_path(id: u64, media_type: Seq<char>) -> Seq<char> {
    "/person/"@ + decimal(id as nat) + if media_type == "movie"@ {
        "/movie_credits"@
    } else {
        "/tv_credits"@
    }
}

impl TMDBClient {
    /// The address of a person's film credits (for a film) or series credits
    /// (otherwise), in Chinese.
    pub fn person_credits_url(&self, id: u64, media_type: &str) -> (r: Result<String, String>)
        ensures
            url_result_view(r) == tmdb_url(credits_path(id, media_type@), seq![("language"@, ZH@)], self.key_view()),
    {
        let n = u64_to_text(id);
        let path = if str_eq(media_type, "movie") {
            crate::text::concat3("/person/", n.as_str(), "/movie_credits")
        } else {
            crate::text::concat3("/person/", n.as_str(), "/tv_credits")
        };
        let p: Vec<(&str, &str)> = vec![("language", ZH)];
        assert(p@.map_values(|x: (&str, &str)| (x.0@, x.1@)) =~= seq![("language"@, ZH@)]);
        self.request_url(path.as_str(), p.as_slice())
    }
}

/// A person's known works from a credits reply.
pub fn person_works(p: &JsonValue) -> (r: Vec<String>)
    ensures
        views(r@) == works_of(p@),
{
    let empty: Vec<JsonValue> = Vec::new();
    let cs = list_or_empty_exec(p, "cast", &empty);
    let n: usize = if cs.len() < 3 {
        cs.len()
    } else {
        3
    };
    let mut titles: Vec<String> = Vec::new();
    let mut i: usize = 0;
    while i < n
        invariant
            i <= n,
            n <= cs@.len(),
            titles@.len() == i,
            forall|j: int| 0 <= j < i ==> #[trigger] titles@[j]@ == work_title(cs@[j]@),
        decreases n - i,
    {
        let x = &cs[i];
        let w: String = match x.get_str("title") {
            Some(t) => owned(t),
            None => match x.get_str("name") {
                Some(t) => owned(t),
                None => match x.get_str("original_title") {
                    Some(t) => owned(t),
                    None => x.str_or_empty("original_name"),
                },
            },
        };
        titles.push(w);
        i = i + 1;
    }
    let ghost ws = views(titles@);
    assert(ws =~= Seq::new(
        n as nat,
        |i: int| work_title(crate::schema::list_or_empty(p@, "cast"@)[i]),
    ));
    non_empty_exec(titles)
}

/// A person of the full cast and crew, with the works from the credits
/// reply (`None` when the request was not made or failed).
pub fn person_entry(c: &JsonValue, pid: Option<u64>, role: &str, credits: Option<&JsonValue>) -> (r: JsonValue)
    ensures
        r@ == person_data(c@, pid, role@, opt_data(credits)),
{
    let link = match pid {
        Some(id) => {
            let n = u64_to_text(id);
            concat2("https://www.themoviedb.org/person/", n.as_str())
        },
        None => String::new(),
    };
    let works: Vec<String> = match pid {
        Some(_) => match credits {
            Some(p) => person_works(p),
            None => no_texts(),
        },
        None => no_texts(),
    };
    let mut ms: Vec<(String, JsonValue)> = Vec::new();
    assert(members_view(ms@) =~= Seq::<(Seq<char>, JsonData)>::empty());
    push_member(&mut ms, "name", JsonValue::from_string(person_name_exec(c)));
    push_member(&mut ms, "link", JsonValue::from_string(link));
    push_member(&mut ms, "image", JsonValue::from_string(poster_exec(c, "profile_path")));
    push_member(&mut ms, "role", JsonValue::from_str(role));
    push_member(&mut ms, "character", JsonValue::from_string(c.str_or_empty("character")));
    push_member(&mut ms, "works", JsonValue::from_strings(&works));
    let r = object_of(ms);
    assert(r@->Members_0 =~= person_data(c@, pid, role@, opt_data(credits))->Members_0);
    r
}

/// No texts.
fn no_texts() -> (r: Vec<String>)
    ensures
        views(r@) == Seq::<Seq<char>>::empty(),
{
    let r: Vec<String> = Vec::new();
    assert(views(r@) =~= Seq::<Seq<char>>::empty());
    r
}

/// The role of a cast member, computed.
fn cast_role_exec(c: &JsonValue) -> (r: String)
    ensures
        r@ == cast_role(c@),
{
    let ch = c.str_or_empty("character");
    if ch.as_str().is_empty() {
        owned("演员 Actor")
    } else {
        let mut s = concat2("演员 Actor (饰 ", ch.as_str());
        crate::text::push_str(&mut s, ")");
        s
    }
}

/// The views of the credits replies.
pub open spec fn replies_view(v: Seq<Option<JsonValue>>) -> Seq<Option<JsonData>> {
    v.map_values(|o: Option<JsonValue>| opt_reply(o))
}

/// Builds the full cast and crew from the crew, the cast and the credits
/// reply of each person of `fc_person_ids` (in that order).
pub fn build_fc(crew: &[JsonValue], cast: &[JsonValue], credits: &Vec<Option<JsonValue>>) -> (r: JsonValue)
    requires
        credits@.len() == fc_people(crew@.map_values(|x: JsonValue| x@), cast@.map_values(|x: JsonValue| x@)).len(),
    ensures
        r@ == fc_data(crew@.map_values(|x: JsonValue| x@), cast@.map_values(|x: JsonValue| x@), replies_view(credits@)),
{
    let ghost cv = replies_view(credits@);
    let ds = directors_exec(first_n_exec(crew, 5));
    let cs = first_n_exec(cast, 20);
    let ghost dsv = ds@.map_values(|x: JsonValue| x@);
    let ghost csv = cs@.map_values(|x: JsonValue| x@);
    let mut d_arr: Vec<JsonValue> = Vec::new();
    let mut i: usize = 0;
    while i < ds.len()
        invariant
            i <= ds@.len(),
            dsv == ds@.map_values(|x: JsonValue| x@),
            ds@.len() + cs@.len() == credits@.len(),
            cv == replies_view(credits@),
            d_arr@.len() == i,
            forall|j: int|
                0 <= j < i ==> #[trigger] d_arr@[j]@ == person_data(
                    dsv[j],
                    u64_field(dsv[j], "id"@),
                    "导演 Director"@,
                    cv[j],
                ),
        decreases ds@.len() - i,
    {
        let c = &ds[i];
        let reply: Option<&JsonValue> = match &credits[i] {
            Some(p) => Some(p),
            None => None,
        };
        assert(opt_data(reply) == cv[i as int]);
        d_arr.push(person_entry(c, c.get_u64("id"), "导演 Director", reply));
        i = i + 1;
    }
    let nd = ds.len();
    let total = credits.len();
    let mut c_arr: Vec<JsonValue> = Vec::new();
    let mut k: usize = 0;
    while k < cs.len()
        invariant
            k <= cs@.len(),
            nd == ds@.len(),
            csv == cs@.map_values(|x: JsonValue| x@),
            nd + cs@.len() == credits@.len(),
            total == credits@.len(),
            cv == replies_view(credits@),
            c_arr@.len() == k,
            forall|j: int|
                0 <= j < k ==> #[trigger] c_arr@[j]@ == person_data(
                    csv[j],
                    u64_field(csv[j], "id"@),
                    cast_role(csv[j]),
                    cv[nd + j],
                ),
        decreases cs@.len() - k,
    {
        let c = &cs[k];
        let reply: Option<&JsonValue> = match &credits[nd + k] {
            Some(p) => Some(p),
            None => None,
        };
        assert(opt_data(reply) == cv[nd + k]);
        let role = cast_role_exec(c);
        c_arr.push(person_entry(c, c.get_u64("id"), role.as_str(), reply));
        k = k + 1;
    }
    let ghost d_entries = Seq::new(
        dsv.len(),
        |i: int| person_data(dsv[i], u64_field(dsv[i], "id"@), "导演 Director"@, cv[i]),
    );
    let ghost c_entries = Seq::new(
        csv.len(),
        |j: int| person_data(csv[j], u64_field(csv[j], "id"@), cast_role(csv[j]), cv[dsv.len() + j]),
    );
    let mut ms: Vec<(String, JsonValue)> = Vec::new();
    assert(members_view(ms@) =~= Seq::<(Seq<char>, JsonData)>::empty());
    if d_arr.len() > 0 {
        let ghost dv = d_arr@;
        let l = JsonValue::Array(d_arr);
        assert forall|j: int| 0 <= j < dv.len() implies l@->List_0[j] == d_entries[j] by {
            assert(l@->List_0[j] == dv[j]@);
        }
        assert(l@->List_0 =~= d_entries);
        push_member(&mut ms, "导演 Director", l);
    }
    if c_arr.len() > 0 {
        let ghost cv2 = c_arr@;
        let l = JsonValue::Array(c_arr);
        assert forall|j: int| 0 <= j < cv2.len() implies l@->List_0[j] == c_entries[j] by {
            assert(l@->List_0[j] == cv2[j]@);
        }
        assert(l@->List_0 =~= c_entries);
        push_member(&mut ms, "演员 Cast", l);
    }
    let r = object_of(ms);
    assert(r@ =~= fc_data(crew@.map_values(|x: JsonValue| x@), cast@.map_values(|x: JsonValue| x@), cv));
    r
}

// ───────── laws of the Chinese title ─────────

/// `zh_index` finds the first zh-CN translation with a text at `key`.
proof fn lemma_zh_index_first(ts: Seq<JsonData>, key: Seq<char>, start: int)
    requires
        0 <= start,
    ensures
        match zh_index(ts, key, start) {
            Some(i) => {
                &&& start <= i < ts.len()
                &&& text_field(ts[i], "iso_639_1"@) == Some("zh"@)
                &&& text_field(ts[i], "iso_3166_1"@) == Some("CN"@)
                &&& zh_text(ts[i], key).len() > 0
                &&& forall|j: int|
                    start <= j < i ==> !(text_field(#[trigger] ts[j], "iso_639_1"@) == Some("zh"@) && text_field(
                        ts[j],
                        "iso_3166_1"@,
                    ) == Some("CN"@) && zh_text(ts[j], key).len() > 0)
            },
            None => forall|j: int|
                start <= j < ts.len() ==> !(text_field(#[trigger] ts[j], "iso_639_1"@) == Some("zh"@) && text_field(
                    ts[j],
                    "iso_3166_1"@,
                ) == Some("CN"@) && zh_text(ts[j], key).len() > 0),
        },
    decreases ts.len() - start,
{
    if start < ts.len() {
        lemma_zh_index_first(ts, key, start + 1);
    }
}

/// The titles of a unified record: `chinese_title` is the Chinese title, and
/// `title` is it followed by the original title when there is one.
proof fn lemma_record_titles(b: RecordView)
    ensures
        field(record_data(b), "chinese_title"@) == Some(JsonData::Text(b.zh_title)),
        field(record_data(b), "title"@) == Some(
            JsonData::Text(
                if b.original_title.len() == 0 {
                    b.zh_title
                } else {
                    b.zh_title + " "@ + b.original_title
                },
            ),
        ),
        crate::json::is_object(record_data(b)),
{
    reveal_strlit("success");
    reveal_strlit("source");
    reveal_strlit("media_type");
    reveal_strlit("sid");
    reveal_strlit("title");
    reveal_strlit("chinese_title");
    assert("success"@.len() == 7 && "source"@.len() == 6 && "media_type"@.len() == 10);
    assert("sid"@.len() == 3 && "title"@.len() == 5 && "chinese_title"@.len() == 13);
    let ms = record_data(b)->Members_0;
    assert(crate::json::member_index(ms, "title"@, 0) == Some(4int)) by {
        reveal_with_fuel(crate::json::member_index, 6);
    }
    assert(crate::json::member_index(ms, "chinese_title"@, 0) == Some(5int)) by {
        reveal_with_fuel(crate::json::member_index, 7);
    }
}

/// The Chinese title of a film record comes only from a translation into
/// Simplified Chinese for mainland China (`iso_639_1` "zh", `iso_3166_1`
/// "CN"): the first such with a non-empty `data.title`, else the film's own
/// `title`. Translations for other regions (TW, HK, SG, ...) never count.
/// `title` is the Chinese title, then the original title when there is one.
pub proof fn lemma_movie_chinese_title(m: JsonData, id: i64)
    ensures
        ({
            let ts = crate::schema::list_or_empty(crate::schema::field_or_empty_object(m, "translations"@), "translations"@);
            let r = movie_record_of(m, id);
            let ot = text_or_empty(m, "original_title"@);
            &&& field(r, "chinese_title"@) matches Some(JsonData::Text(c)) && field(r, "title"@) == Some(
                JsonData::Text(
                    if ot.len() == 0 {
                        c
                    } else {
                        c + " "@ + ot
                    },
                ),
            )
            &&& forall|i: int|
                0 <= i < ts.len() && text_field(ts[i], "iso_639_1"@) == Some("zh"@) && text_field(ts[i], "iso_3166_1"@)
                    == Some("CN"@) && text_or_empty(crate::schema::field_or_empty_object(ts[i], "data"@), "title"@).len()
                    > 0 && (forall|j: int|
                    0 <= j < i ==> !(text_field(#[trigger] ts[j], "iso_639_1"@) == Some("zh"@) && text_field(
                        ts[j],
                        "iso_3166_1"@,
                    ) == Some("CN"@) && text_or_empty(crate::schema::field_or_empty_object(ts[j], "data"@), "title"@).len()
                        > 0)) ==> field(r, "chinese_title"@) == Some(
                    JsonData::Text(text_or_empty(crate::schema::field_or_empty_object(#[trigger] ts[i], "data"@), "title"@)),
                )
            &&& (forall|j: int|
                0 <= j < ts.len() ==> !(text_field(#[trigger] ts[j], "iso_639_1"@) == Some("zh"@) && text_field(
                    ts[j],
                    "iso_3166_1"@,
                ) == Some("CN"@) && text_or_empty(crate::schema::field_or_empty_object(ts[j], "data"@), "title"@).len()
                    > 0)) ==> field(r, "chinese_title"@) == Some(JsonData::Text(text_or_empty(m, "title"@)))
        }),
{
    let ts = crate::schema::list_or_empty(crate::schema::field_or_empty_object(m, "translations"@), "translations"@);
    lemma_record_titles(movie_view(m, id));
    lemma_zh_index_first(ts, "title"@, 0);
    assert forall|j: int| 0 <= j < ts.len() implies zh_text(ts[j], "title"@) == text_or_empty(
        crate::schema::field_or_empty_object(ts[j], "data"@),
        "title"@,
    ) by {}
    match zh_index(ts, "title"@, 0) {
        Some(k) => {
            assert forall|i: int|
                0 <= i < ts.len() && text_field(ts[i], "iso_639_1"@) == Some("zh"@) && text_field(ts[i], "iso_3166_1"@)
                    == Some("CN"@) && zh_text(ts[i], "title"@).len() > 0 && (forall|j: int|
                    0 <= j < i ==> !(text_field(#[trigger] ts[j], "iso_639_1"@) == Some("zh"@) && text_field(
                        ts[j],
                        "iso_3166_1"@,
                    ) == Some("CN"@) && zh_text(ts[j], "title"@).len() > 0)) implies i == k by {
                if i < k {
                } else if i > k {
                    assert(!(text_field(ts[k], "iso_639_1"@) == Some("zh"@) && text_field(ts[k], "iso_3166_1"@)
                        == Some("CN"@) && zh_text(ts[k], "title"@).len() > 0));
                }
            }
        },
        None => {},
    }
}

/// The Chinese title of a series record comes only from a translation into
/// Simplified Chinese for mainland China: the first such with a non-empty
/// `data.name`, else the series' own `name`; `title` is the Chinese title,
/// then the original name when there is one.
pub proof fn lemma_series_chinese_title(m: JsonData, id: i64)
    ensures
        ({
            let ts = crate::schema::list_or_empty(crate::schema::field_or_empty_object(m, "translations"@), "translations"@);
            let r = tv_record_of(m, id);
            let ot = text_or_empty(m, "original_name"@);
            &&& field(r, "chinese_title"@) matches Some(JsonData::Text(c)) && field(r, "title"@) == Some(
                JsonData::Text(
                    if ot.len() == 0 {
                        c
                    } else {
                        c + " "@ + ot
                    },
                ),
            )
            &&& forall|i: int|
                0 <= i < ts.len() && text_field(ts[i], "iso_639_1"@) == Some("zh"@) && text_field(ts[i], "iso_3166_1"@)
                    == Some("CN"@) && text_or_empty(crate::schema::field_or_empty_object(ts[i], "data"@), "name"@).len()
                    > 0 && (forall|j: int|
                    0 <= j < i ==> !(text_field(#[trigger] ts[j], "iso_639_1"@) == Some("zh"@) && text_field(
                        ts[j],
                        "iso_3166_1"@,
                    ) == Some("CN"@) && text_or_empty(crate::schema::field_or_empty_object(ts[j], "data"@), "name"@).len()
                        > 0)) ==> field(r, "chinese_title"@) == Some(
                    JsonData::Text(text_or_empty(crate::schema::field_or_empty_object(#[trigger] ts[i], "data"@), "name"@)),
                )
            &&& (forall|j: int|
                0 <= j < ts.len() ==> !(text_field(#[trigger] ts[j], "iso_639_1"@) == Some("zh"@) && text_field(
                    ts[j],
                    "iso_3166_1"@,
                ) == Some("CN"@) && text_or_empty(crate::schema::field_or_empty_object(ts[j], "data"@), "name"@).len()
                    > 0)) ==> field(r, "chinese_title"@) == Some(JsonData::Text(text_or_empty(m, "name"@)))
        }),
{
    let ts = crate::schema::list_or_empty(crate::schema::field_or_empty_object(m, "translations"@), "translations"@);
    let b = tv_view(m, id);
    lemma_record_titles(b);
    reveal_strlit("season_info");
    reveal_strlit("title");
    reveal_strlit("chinese_title");
    assert("season_info"@.len() == 11 && "title"@.len() == 5 && "chinese_title"@.len() == 13);
    crate::json::lemma_field_with_member(record_data(b), "season_info"@, JsonData::Text(season_text(m)), "title"@);
    crate::json::lemma_field_with_member(
        record_data(b),
        "season_info"@,
        JsonData::Text(season_text(m)),
        "chinese_title"@,
    );
    lemma_zh_index_first(ts, "name"@, 0);
    assert forall|j: int| 0 <= j < ts.len() implies zh_text(ts[j], "name"@) == text_or_empty(
        crate::schema::field_or_empty_object(ts[j], "data"@),
        "name"@,
    ) by {}
    match zh_index(ts, "name"@, 0) {
        Some(k) => {
            assert forall|i: int|
                0 <= i < ts.len() && text_field(ts[i], "iso_639_1"@) == Some("zh"@) && text_field(ts[i], "iso_3166_1"@)
                    == Some("CN"@) && zh_text(ts[i], "name"@).len() > 0 && (forall|j: int|
                    0 <= j < i ==> !(text_field(#[trigger] ts[j], "iso_639_1"@) == Some("zh"@) && text_field(
                        ts[j],
                        "iso_3166_1"@,
                    ) == Some("CN"@) && zh_text(ts[j], "name"@).len() > 0)) implies i == k by {
                if i > k {
                    assert(!(text_field(ts[k], "iso_639_1"@) == Some("zh"@) && text_field(ts[k], "iso_3166_1"@)
                        == Some("CN"@) && zh_text(ts[k], "name"@).len() > 0));
                }
            }
        },
        None => {},
    }
}

} // verus!
