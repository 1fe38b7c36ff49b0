//! The configuration sections (`config.toml`) and their defaults. Reading and
//! writing the file, and the rate limits (which hold a float), are the
//! application's.
use vstd::prelude::*;
use crate::json::{JsonData, JsonValue};
use crate::text::owned;

verus! {

/// The API keys.
pub struct Keys {
    pub doubaninfo: String,
    pub tmdb: String,
}

/// The defaults of the search bar.
pub struct Defaults {
    pub source: String,
    pub format: String,
    pub media_type: String,
    pub full_celebrities: bool,
}

/// Search options.
pub struct Search {
    pub fallback_to_tmdb: bool,
    pub max_candidates: usize,
    pub year_strict: bool,
}

/// Merge options.
pub struct Merge {
    pub primary: String,
    pub enrich_tmdb_rating: bool,
    pub enrich_tmdb_aka: bool,
    pub enrich_celebrities: bool,
}

/// The default source mode and media type: `"auto"`.
pub fn default_auto() -> (r: String)
    ensures
        r@ == "auto"@,
{
    owned("auto")
}

/// The default output format: `"bbcode"`.
pub fn default_bbcode() -> (r: String)
    ensures
        r@ == "bbcode"@,
{
    owned("bbcode")
}

/// The default primary source of a merge: `"douban"`.
pub fn default_douban() -> (r: String)
    ensures
        r@ == "douban"@,
{
    owned("douban")
}

/// The default of the switches that are on unless set.
pub fn default_true() -> (r: bool)
    ensures
        r,
{
    true
}

/// The default number of candidates.
pub fn default_10() -> (r: usize)
    ensures
        r == 10,
{
    10
}

/// The default number of retries.
pub fn default_2() -> (r: u64)
    ensures
        r == 2,
{
    2
}

/// The default timeout, in seconds.
pub fn default_20() -> (r: u64)
    ensures
        r == 20,
{
    20
}

impl Keys {
    /// Whether no key is set, so that no source can be asked.
    pub fn none_set(&self) -> (r: bool)
        ensures
            r == (self.doubaninfo@.len() == 0 && self.tmdb@.len() == 0),
    {
        self.doubaninfo.as_str().is_empty() && self.tmdb.as_str().is_empty()
    }
}

impl Default for Keys {
    /// Both keys empty.
    fn default() -> (r: Self)
        ensures
            r.doubaninfo@.len() == 0,
            r.tmdb@.len() == 0,
    {
        Keys { doubaninfo: String::new(), tmdb: String::new() }
    }
}

impl Default for Defaults {
    /// Source and media type `"auto"`, format `"bbcode"`, short people lists.
    fn default() -> (r: Self)
        ensures
            r.source@ == "auto"@,
            r.format@ == "bbcode"@,
            r.media_type@ == "auto"@,
            !r.full_celebrities,
    {
        Defaults {
            source: default_auto(),
            format: default_bbcode(),
            media_type: default_auto(),
            full_celebrities: false,
        }
    }
}

impl Default for Search {
    /// Fall back to TMDB, at most 10 candidates, years not strict.
    fn default() -> (r: Self)
        ensures
            r.fallback_to_tmdb,
            r.max_candidates == 10,
            !r.year_strict,
    {
        Search { fallback_to_tmdb: default_true(), max_candidates: default_10(), year_strict: false }
    }
}

impl Default for Merge {
    /// Douban first, every enrichment on.
    fn default() -> (r: Self)
        ensures
            r.primary@ == "douban"@,
            r.enrich_tmdb_rating,
            r.enrich_tmdb_aka,
            r.enrich_celebrities,
    {
        Merge {
            primary: default_douban(),
            enrich_tmdb_rating: default_true(),
            enrich_tmdb_aka: default_true(),
            enrich_celebrities: default_true(),
        }
    }
}

/// The merge options as the JSON object that `schema::merge` reads.
pub open spec fn merge_json(m: Merge) -> JsonData {
    JsonData::Members(
        seq![
            ("primary"@, JsonData::Text(m.primary@)),
            ("enrich_tmdb_rating"@, JsonData::Bool(m.enrich_tmdb_rating)),
            ("enrich_tmdb_aka"@, JsonData::Bool(m.enrich_tmdb_aka)),
            ("enrich_celebrities"@, JsonData::Bool(m.enrich_celebrities)),
        ],
    )
}

impl Merge {
    /// The options as a JSON object, one member per field.
    pub fn to_json(&self) -> (r: JsonValue)
        ensures
            r@ == merge_json(*self),
    {
        let mut ms: Vec<(String, JsonValue)> = Vec::new();
        crate::json::push_member(&mut ms, "primary", JsonValue::from_str(self.primary.as_str()));
        crate::json::push_member(&mut ms, "enrich_tmdb_rating", JsonValue::Bool(self.enrich_tmdb_rating));
        crate::json::push_member(&mut ms, "enrich_tmdb_aka", JsonValue::Bool(self.enrich_tmdb_aka));
        crate::json::push_member(&mut ms, "enrich_celebrities", JsonValue::Bool(self.enrich_celebrities));
        let r = crate::json::object_of(ms);
        assert(r@->Members_0 =~= merge_json(*self)->Members_0);
        r
    }
}

/// Each enrichment switch of the merge options is read back by the merge as
/// it was set.
pub proof fn lemma_merge_options_read_back(m: Merge)
    ensures
        crate::schema::option_on(merge_json(m), "enrich_tmdb_rating"@) == m.enrich_tmdb_rating,
        crate::schema::option_on(merge_json(m), "enrich_tmdb_aka"@) == m.enrich_tmdb_aka,
        crate::schema::option_on(merge_json(m), "enrich_celebrities"@) == m.enrich_celebrities,
{
    let ms = merge_json(m)->Members_0;
    reveal_strlit("primary");
    reveal_strlit("enrich_tmdb_rating");
    reveal_strlit("enrich_tmdb_aka");
    reveal_strlit("enrich_celebrities");
    assert("primary"@.len() == 7);
    assert("enrich_tmdb_rating"@.len() == 18);
    assert("enrich_tmdb_aka"@.len() == 15);
    assert("enrich_celebrities"@.len() == 18);
    assert("enrich_tmdb_rating"@[7] != "enrich_celebrities"@[7]);
    assert(crate::json::member_index(ms, "enrich_tmdb_rating"@, 0) == Some(1int)) by {
        reveal_with_fuel(crate::json::member_index, 3);
    }
    assert(crate::json::member_index(ms, "enrich_tmdb_aka"@, 0) == Some(2int)) by {
        reveal_with_fuel(crate::json::member_index, 4);
    }
    assert(crate::json::member_index(ms, "enrich_celebrities"@, 0) == Some(3int)) by {
        reveal_with_fuel(crate::json::member_index, 5);
    }
}

} // verus!
