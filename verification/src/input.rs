//! Recognising what the user typed (a title, a Douban ID or link, an IMDb
//! ID, a TMDB address or ID) and deciding which requests answer it.
use vstd::prelude::*;
use crate::json::{JsonData, JsonValue, text_field, text_or_empty};
use crate::text::{
    all_digits, all_digits_exec, chars_of, concat3, contains, find_from, is_digit, occurs_at, owned,
    starts_with, starts_with_exec, str_contains, str_eq, string_from_chars, string_from_range, trim_str,
    trimmed,
};

verus! {

// ───────── searching within a text ─────────

/// The first index at or after `start` at which `pat` occurs.
pub open spec fn find_at(s: Seq<char>, pat: Seq<char>, start: int) -> Option<int>
    decreases s.len() + 1 - start,
{
    if start < 0 || start > s.len() {
        None
    } else if occurs_at(s, pat, start) {
        Some(start)
    } else {
        find_at(s, pat, start + 1)
    }
}

proof fn lemma_find_at_first(s: Seq<char>, pat: Seq<char>, start: int, i: int)
    requires
        0 <= start <= i,
        occurs_at(s, pat, i),
        forall|j: int| start <= j < i ==> !occurs_at(s, pat, j),
    ensures
        find_at(s, pat, start) == Some(i),
    decreases i - start,
{
    if start < i {
        lemma_find_at_first(s, pat, start + 1, i);
    }
}

proof fn lemma_find_at_none(s: Seq<char>, pat: Seq<char>, start: int)
    requires
        0 <= start,
        forall|j: int| start <= j ==> !occurs_at(s, pat, j),
    ensures
        find_at(s, pat, start) is None,
    decreases s.len() + 1 - start,
{
    if start <= s.len() {
        lemma_find_at_none(s, pat, start + 1);
    }
}

/// The first index of `pat` in `s` (`str::find`, in characters).
fn find_exec(s: &Vec<char>, pat: &Vec<char>) -> (r: Option<usize>)
    ensures
        match r {
            Some(i) => find_at(s@, pat@, 0) == Some(i as int) && occurs_at(s@, pat@, i as int),
            None => find_at(s@, pat@, 0) is None,
        },
{
    let r = find_from(s, pat, 0);
    proof {
        match r {
            Some(i) => lemma_find_at_first(s@, pat@, 0, i as int),
            None => lemma_find_at_none(s@, pat@, 0),
        }
    }
    r
}

/// The number of leading ASCII digits of `s` from index `i` on, plus `i`.
pub open spec fn digit_run(s: Seq<char>, i: int) -> int
    decreases s.len() - i,
{
    if 0 <= i < s.len() && is_digit(s[i]) {
        digit_run(s, i + 1)
    } else {
        i
    }
}

/// The leading ASCII digits of `s[start..]`.
pub open spec fn leading_digits(s: Seq<char>, start: int) -> Seq<char> {
    s.subrange(start, digit_run(s, start))
}

proof fn lemma_digit_run_bounds(s: Seq<char>, i: int)
    requires
        0 <= i <= s.len(),
    ensures
        i <= digit_run(s, i) <= s.len(),
    decreases s.len() - i,
{
    if i < s.len() && is_digit(s[i]) {
        lemma_digit_run_bounds(s, i + 1);
    }
}

/// The leading digits of `s[start..]`.
fn leading_digits_exec(s: &Vec<char>, start: usize) -> (r: String)
    requires
        start <= s@.len(),
    ensures
        r@ == leading_digits(s@, start as int),
{
    let mut i = start;
    while i < s.len() && s[i] >= '0' && s[i] <= '9'
        invariant
            start <= i <= s@.len(),
            digit_run(s@, start as int) == digit_run(s@, i as int),
        decreases s@.len() - i,
    {
        i = i + 1;
    }
    string_from_range(s, start, i)
}

// ───────── links ─────────

/// What a TMDB or Douban link in the text identifies: `(media type, id)` for
/// a TMDB film or series page, `(id, "")` for a Douban subject page.
pub open spec fn link_ids(t: Seq<char>) -> Option<(Seq<char>, Seq<char>)> {
    let tmdb = match find_at(t, "themoviedb.org/"@, 0) {
        Some(p) => {
            let rest = t.subrange(p + 15, t.len() as int);
            if starts_with(rest, "movie/"@) && leading_digits(rest, 6).len() > 0 {
                Some(("movie"@, leading_digits(rest, 6)))
            } else if starts_with(rest, "tv/"@) && leading_digits(rest, 3).len() > 0 {
                Some(("tv"@, leading_digits(rest, 3)))
            } else {
                None
            }
        },
        None => None,
    };
    match tmdb {
        Some(x) => Some(x),
        None => match find_at(t, "movie.douban.com/subject/"@, 0) {
            Some(p) => {
                let d = leading_digits(t, p + 25);
                if d.len() > 0 {
                    Some((d, Seq::empty()))
                } else {
                    None
                }
            },
            None => None,
        },
    }
}

/// The view of a pair of strings.
pub open spec fn pair_view(o: Option<(String, String)>) -> Option<(Seq<char>, Seq<char>)> {
    match o {
        Some((a, b)) => Some((a@, b@)),
        None => None,
    }
}

proof fn lemma_len_15() ensures "themoviedb.org/"@.len() == 15 { reveal_strlit("themoviedb.org/"); }

proof fn lemma_len_25() ensures "movie.douban.com/subject/"@.len() == 25 { reveal_strlit("movie.douban.com/subject/"); }

/// The film or series page of a TMDB link, or the subject of a Douban link.
fn regex_simple(text: &str) -> (r: Option<(String, String)>)
    ensures
        pair_view(r) == link_ids(text@),
{
    let t = chars_of(text);
    let pat = chars_of("themoviedb.org/");
    proof {
        lemma_len_15();
        lemma_len_25();
        reveal_strlit("movie/");
        reveal_strlit("tv/");
    }
    match find_exec(&t, &pat) {
        Some(p) => {
            let tl = t.len();
            assert(p + 15 <= tl);
            let rest = string_from_range(&t, p + 15, t.len());
            let rc = chars_of(rest.as_str());
            if starts_with_exec(&rc, &chars_of("movie/")) {
                let d = leading_digits_exec(&rc, 6);
                if !d.as_str().is_empty() {
                    return Some((owned("movie"), d));
                }
            }
            if starts_with_exec(&rc, &chars_of("tv/")) {
                let d = leading_digits_exec(&rc, 3);
                if !d.as_str().is_empty() {
                    return Some((owned("tv"), d));
                }
            }
        },
        None => {},
    }
    let pat2 = chars_of("movie.douban.com/subject/");
    match find_exec(&t, &pat2) {
        Some(p) => {
            let tl = t.len();
            assert(p + 25 <= tl);
            let d = leading_digits_exec(&t, p + 25);
            if !d.as_str().is_empty() {
                return Some((d, String::new()));
            }
            None
        },
        None => None,
    }
}

// ───────── query and year ─────────

/// The last index before `n` at which `s` holds `c`.
pub open spec fn last_index_before(s: Seq<char>, c: char, n: int) -> Option<int>
    decreases n,
{
    if n <= 0 || n > s.len() {
        None
    } else if s[n - 1] == c {
        Some(n - 1)
    } else {
        last_index_before(s, c, n - 1)
    }
}

/// A query and an optional year: a last space-separated word of four ASCII
/// digits is taken as the year.
pub open spec fn query_and_year(q: Seq<char>) -> (Seq<char>, Option<Seq<char>>) {
    match last_index_before(q, ' ', q.len() as int) {
        Some(pos) => {
            let y = q.subrange(pos + 1, q.len() as int);
            if y.len() == 4 && all_digits(y) {
                (q.subrange(0, pos), Some(y))
            } else {
                (q, None)
            }
        },
        None => (q, None),
    }
}

/// The last index before `n` holding `c` lies before `n` and holds `c`.
proof fn lemma_last_index_before(s: Seq<char>, c: char, n: int)
    ensures
        last_index_before(s, c, n) matches Some(p) ==> 0 <= p < n && n <= s.len() && s[p] == c,
    decreases n,
{
    if n > 0 && n <= s.len() && s[n - 1] != c {
        lemma_last_index_before(s, c, n - 1);
    }
}

/// Splitting a year off a query loses nothing: the query, a space and the
/// four-digit year give back the text; without a year the query is the text.
pub proof fn lemma_query_year_roundtrip(q: Seq<char>)
    ensures
        match query_and_year(q) {
            (s, Some(y)) => s + " "@ + y == q && y.len() == 4 && all_digits(y),
            (s, None) => s == q,
        },
{
    lemma_last_index_before(q, ' ', q.len() as int);
    reveal_strlit(" ");
    match last_index_before(q, ' ', q.len() as int) {
        Some(pos) => {
            assert(q.subrange(0, pos) + " "@ + q.subrange(pos + 1, q.len() as int) =~= q);
        },
        None => {},
    }
}

/// The view of a query and optional year.
pub open spec fn query_view(r: (String, Option<String>)) -> (Seq<char>, Option<Seq<char>>) {
    (r.0@, match r.1 {
        Some(y) => Some(y@),
        None => None,
    })
}

/// Splits a trailing year off a query: `"Title 2024"` → `("Title", 2024)`.
pub fn split_query_year(q: &str) -> (r: (String, Option<String>))
    ensures
        query_view(r) == query_and_year(q@),
{
    let cs = chars_of(q);
    let mut n = cs.len();
    while n > 0 && cs[n - 1] != ' '
        invariant
            n <= cs@.len(),
            last_index_before(cs@, ' ', cs@.len() as int) == last_index_before(cs@, ' ', n as int),
        decreases n,
    {
        n = n - 1;
    }
    if n > 0 {
        let pos = n - 1;
        let y = string_from_range(&cs, pos + 1, cs.len());
        let yc = chars_of(y.as_str());
        if yc.len() == 4 && all_digits_exec(&yc) {
            return (string_from_range(&cs, 0, pos), Some(y));
        }
    }
    (owned(q), None)
}

// ───────── what was typed ─────────

/// What the input was recognised as.
pub struct Info {
    /// "tmdb_url", "douban_id", "imdb", "tmdb_id" or "search"
    pub kind: String,
    pub id: String,
    pub media_type: String,
    pub query: String,
    pub year: Option<String>,
}

/// The view of a recognised input.
pub struct InfoView {
    pub kind: Seq<char>,
    pub id: Seq<char>,
    pub media_type: Seq<char>,
    pub query: Seq<char>,
    pub year: Option<Seq<char>>,
}

impl View for Info {
    type V = InfoView;

    open spec fn view(&self) -> InfoView {
        InfoView {
            kind: self.kind@,
            id: self.id@,
            media_type: self.media_type@,
            query: self.query@,
            year: match self.year {
                Some(y) => Some(y@),
                None => None,
            },
        }
    }
}

/// An IMDb ID: `tt` followed by at least one ASCII digit and nothing else.
pub open spec fn is_imdb_id(t: Seq<char>) -> bool {
    starts_with(t, "tt"@) && all_digits(t.subrange(2, t.len() as int)) && t.len() >= 3
}

/// A recognised input with no query.
pub open spec fn info_of(kind: Seq<char>, id: Seq<char>, media_type: Seq<char>) -> InfoView {
    InfoView { kind, id, media_type, query: Seq::empty(), year: None }
}

/// What the trimmed input is: a TMDB link (its media type and id), a Douban
/// link (its id), an IMDb ID, a number (a TMDB id when a film or series type
/// is forced, else a Douban ID), or else a title search with an optional
/// trailing year.
pub open spec fn detected(text: Seq<char>, force_type: Seq<char>) -> InfoView {
    let t = trimmed(text);
    match link_ids(t) {
        Some((mt, id)) => if contains(t, "themoviedb.org/"@) {
            info_of("tmdb_url"@, id, mt)
        } else {
            info_of("douban_id"@, mt, Seq::empty())
        },
        None => if is_imdb_id(t) {
            info_of("imdb"@, t, Seq::empty())
        } else if all_digits(t) {
            if force_type == "movie"@ || force_type == "tv"@ {
                info_of("tmdb_id"@, t, force_type)
            } else {
                info_of("douban_id"@, t, Seq::empty())
            }
        } else {
            let (query, year) = query_and_year(t);
            InfoView { kind: "search"@, id: Seq::empty(), media_type: Seq::empty(), query, year }
        },
    }
}

fn info(kind: &str, id: String, media_type: String) -> (r: Info)
    ensures
        r@ == info_of(kind@, id@, media_type@),
{
    Info { kind: owned(kind), id, media_type, query: String::new(), year: None }
}

/// Recognises what was typed; `force_type` is the media type chosen in the
/// interface.
pub fn detect(text: &str, force_type: &str) -> (r: Info)
    ensures
        r@ == detected(text@, force_type@),
{
    let t = trim_str(text);
    match regex_simple(t) {
        Some((mt, id)) => {
            if str_contains(t, "themoviedb.org/") {
                return info("tmdb_url", id, mt);
            }
            return info("douban_id", mt, String::new());
        },
        None => {},
    }
    let tc = chars_of(t);
    let imdb = if str_starts_with_chars(&tc, "tt") && tc.len() >= 3 {
        let rest = string_from_range(&tc, 2, tc.len());
        all_digits_exec(&chars_of(rest.as_str()))
    } else {
        false
    };
    proof {
        reveal_strlit("tt");
    }
    if imdb {
        return info("imdb", owned(t), String::new());
    }
    if all_digits_exec(&tc) {
        if str_eq(force_type, "movie") || str_eq(force_type, "tv") {
            return info("tmdb_id", owned(t), owned(force_type));
        }
        return info("douban_id", owned(t), String::new());
    }
    let (query, year) = split_query_year(t);
    Info { kind: owned("search"), id: String::new(), media_type: String::new(), query, year }
}

/// Whether the characters begin with the text `pat`.
fn str_starts_with_chars(s: &Vec<char>, pat: &str) -> (r: bool)
    ensures
        r == starts_with(s@, pat@),
{
    starts_with_exec(s, &chars_of(pat))
}

// ───────── TMDB ids ─────────

/// Why a text is not an `i64` (`ParseIntError`'s kinds).
#[derive(Clone, Copy, Debug, PartialEq, Eq)]
pub enum IntError {
    Empty,
    InvalidDigit,
    PosOverflow,
    NegOverflow,
}

/// The value of a digit character.
pub open spec fn digit_value(c: char) -> int {
    (c as u32) - ('0' as u32)
}

/// Reading the digits of `s` into `acc` from left to right, with the sign:
/// the first character that is not a digit, or the first digit that takes
/// the value out of `i64`, decides the error.
pub open spec fn scan_digits(s: Seq<char>, neg: bool) -> Result<int, IntError>
    decreases s.len(),
{
    if s.len() == 0 {
        Ok(0)
    } else {
        match scan_digits(s.drop_last(), neg) {
            Err(e) => Err(e),
            Ok(v) => if !is_digit(s.last()) {
                Err(IntError::InvalidDigit)
            } else {
                let nv = if neg {
                    v * 10 - digit_value(s.last())
                } else {
                    v * 10 + digit_value(s.last())
                };
                if nv > i64::MAX {
                    Err(IntError::PosOverflow)
                } else if nv < i64::MIN {
                    Err(IntError::NegOverflow)
                } else {
                    Ok(nv)
                }
            },
        }
    }
}

/// `str::parse::<i64>`: an optional sign, then decimal digits.
pub open spec fn parsed_i64(s: Seq<char>) -> Result<int, IntError> {
    if s.len() == 0 {
        Err(IntError::Empty)
    } else if (s[0] == '+' || s[0] == '-') && s.len() == 1 {
        Err(IntError::InvalidDigit)
    } else if s[0] == '+' {
        scan_digits(s.drop_first(), false)
    } else if s[0] == '-' {
        scan_digits(s.drop_first(), true)
    } else {
        scan_digits(s, false)
    }
}

proof fn lemma_scan_range(s: Seq<char>, neg: bool)
    ensures
        scan_digits(s, neg) matches Ok(v) ==> i64::MIN <= v <= i64::MAX && (neg ==> v <= 0) && (!neg ==> v >= 0),
    decreases s.len(),
{
    if s.len() > 0 {
        lemma_scan_range(s.drop_last(), neg);
    }
}

/// Reads the digits with the sign.
fn scan_digits_exec(s: &Vec<char>, from: usize, neg: bool) -> (r: Result<i64, IntError>)
    requires
        from <= s@.len(),
    ensures
        match r {
            Ok(v) => scan_digits(s@.subrange(from as int, s@.len() as int), neg) == Ok::<int, IntError>(v as int),
            Err(e) => scan_digits(s@.subrange(from as int, s@.len() as int), neg) == Err::<int, IntError>(e),
        },
{
    let ghost full = s@.subrange(from as int, s@.len() as int);
    let mut acc: i64 = 0;
    let mut i = from;
    assert(full.take(0) =~= Seq::<char>::empty());
    while i < s.len()
        invariant
            from <= i <= s@.len(),
            full == s@.subrange(from as int, s@.len() as int),
            scan_digits(full.take(i - from), neg) == Ok::<int, IntError>(acc as int),
        decreases s@.len() - i,
    {
        let ghost k = i - from;
        assert(full.take(k + 1).drop_last() =~= full.take(k));
        assert(full.take(k + 1).last() == s@[i as int]);
        let c = s[i];
        if !(c >= '0' && c <= '9') {
            proof {
                lemma_scan_prefix_err(full, neg, k + 1, IntError::InvalidDigit);
            }
            return Err(IntError::InvalidDigit);
        }
        let d: i64 = (c as u32 - '0' as u32) as i64;
        proof {
            lemma_scan_range(full.take(k), neg);
        }
        if neg {
            if acc < (i64::MIN + d) / 10 || acc * 10 < i64::MIN + d {
                proof {
                    assert(acc * 10 - d < i64::MIN) by (nonlinear_arith)
                        requires
                            acc < (i64::MIN + d) / 10 || acc * 10 < i64::MIN + d,
                            0 <= d <= 9,
                            acc <= 0;
                    lemma_scan_prefix_err(full, neg, k + 1, IntError::NegOverflow);
                }
                return Err(IntError::NegOverflow);
            }
            acc = acc * 10 - d;
        } else {
            if acc > (i64::MAX - d) / 10 || acc * 10 > i64::MAX - d {
                proof {
                    assert(acc * 10 + d > i64::MAX) by (nonlinear_arith)
                        requires
                            acc > (i64::MAX - d) / 10 || acc * 10 > i64::MAX - d,
                            0 <= d <= 9,
                            acc >= 0;
                    lemma_scan_prefix_err(full, neg, k + 1, IntError::PosOverflow);
                }
                return Err(IntError::PosOverflow);
            }
            acc = acc * 10 + d;
        }
        i = i + 1;
    }
    assert(full.take(s@.len() - from) =~= full);
    Ok(acc)
}

/// An error met while reading a prefix stays the result of the whole text.
proof fn lemma_scan_prefix_err(s: Seq<char>, neg: bool, k: int, e: IntError)
    requires
        0 <= k <= s.len(),
        scan_digits(s.take(k), neg) == Err::<int, IntError>(e),
    ensures
        scan_digits(s, neg) == Err::<int, IntError>(e),
    decreases s.len() - k,
{
    if k < s.len() {
        assert(s.take(k + 1).drop_last() =~= s.take(k));
        lemma_scan_prefix_err(s, neg, k + 1, e);
    } else {
        assert(s.take(k) =~= s);
    }
}

/// The view of a parse outcome.
pub open spec fn parse_view(r: Result<i64, IntError>) -> Result<int, IntError> {
    match r {
        Ok(v) => Ok(v as int),
        Err(e) => Err(e),
    }
}

/// Reads an `i64` as `str::parse::<i64>` does.
pub fn parse_i64(s: &str) -> (r: Result<i64, IntError>)
    ensures
        parse_view(r) == parsed_i64(s@),
{
    let cs = chars_of(s);
    if cs.len() == 0 {
        return Err(IntError::Empty);
    }
    if (cs[0] == '+' || cs[0] == '-') && cs.len() == 1 {
        return Err(IntError::InvalidDigit);
    }
    assert(cs@.subrange(1, cs@.len() as int) =~= cs@.drop_first());
    assert(cs@.subrange(0, cs@.len() as int) =~= cs@);
    if cs[0] == '+' {
        scan_digits_exec(&cs, 1, false)
    } else if cs[0] == '-' {
        scan_digits_exec(&cs, 1, true)
    } else {
        scan_digits_exec(&cs, 0, false)
    }
}

/// The message of a parse error (`ParseIntError`'s `Display`).
pub open spec fn int_error_text(e: IntError) -> Seq<char> {
    match e {
        IntError::Empty => "cannot parse integer from empty string"@,
        IntError::InvalidDigit => "invalid digit found in string"@,
        IntError::PosOverflow => "number too large to fit in target type"@,
        IntError::NegOverflow => "number too small to fit in target type"@,
    }
}

impl IntError {
    /// The message of the error.
    pub fn message(&self) -> (r: String)
        ensures
            r@ == int_error_text(*self),
    {
        match self {
            IntError::Empty => owned("cannot parse integer from empty string"),
            IntError::InvalidDigit => owned("invalid digit found in string"),
            IntError::PosOverflow => owned("number too large to fit in target type"),
            IntError::NegOverflow => owned("number too small to fit in target type"),
        }
    }
}

/// A TMDB id from its text, or the parse error's message.
pub fn parse_tmdb_id(s: &str) -> (r: Result<i64, String>)
    ensures
        match r {
            Ok(v) => parsed_i64(s@) == Ok::<int, IntError>(v as int),
            Err(m) => parsed_i64(s@) matches Err(e) && m@ == int_error_text(e),
        },
{
    match parse_i64(s) {
        Ok(v) => Ok(v),
        Err(e) => Err(e.message()),
    }
}

/// A TMDB id from its text, 0 when it does not parse.
pub fn id_or_zero(s: &str) -> (r: i64)
    ensures
        r == match parsed_i64(s@) {
            Ok(v) => v,
            Err(_) => 0,
        },
{
    match parse_i64(s) {
        Ok(v) => v,
        Err(_) => 0,
    }
}

// ───────── display names ─────────

/// The Chinese name of a source option.
pub fn cn_source(v: &str) -> (r: &'static str)
    ensures
        r@ == if v@ == "auto"@ {
            "自动"@
        } else if v@ == "douban"@ {
            "豆瓣"@
        } else if v@ == "tmdb"@ {
            "TMDB"@
        } else if v@ == "merge"@ {
            "聚合"@
        } else {
            ""@
        },
{
    if str_eq(v, "auto") {
        "自动"
    } else if str_eq(v, "douban") {
        "豆瓣"
    } else if str_eq(v, "tmdb") {
        "TMDB"
    } else if str_eq(v, "merge") {
        "聚合"
    } else {
        ""
    }
}

/// The name of an output format option.
pub fn cn_format(v: &str) -> (r: &'static str)
    ensures
        r@ == if v@ == "bbcode"@ {
            "BBCode"@
        } else if v@ == "json"@ {
            "JSON"@
        } else {
            ""@
        },
{
    if str_eq(v, "bbcode") {
        "BBCode"
    } else if str_eq(v, "json") {
        "JSON"
    } else {
        ""
    }
}

/// The Chinese name of a media type option.
pub fn cn_media(v: &str) -> (r: &'static str)
    ensures
        r@ == if v@ == "auto"@ {
            "自动"@
        } else if v@ == "movie"@ {
            "电影"@
        } else if v@ == "tv"@ {
            "剧集"@
        } else {
            ""@
        },
{
    if str_eq(v, "auto") {
        "自动"
    } else if str_eq(v, "movie") {
        "电影"
    } else if str_eq(v, "tv") {
        "剧集"
    } else {
        ""
    }
}

// ───────── what to request ─────────

/// The requests that answer an input.
pub enum Plan {
    /// A DoubanInfo detail (in douban mode for an IMDb ID).
    DoubanDetail { id: String, douban_mode: bool },
    /// A DoubanInfo title search.
    DoubanSearch { query: String },
    /// A TMDB detail.
    TmdbDetail { id: i64, media_type: String },
    /// A TMDB lookup by IMDb ID, then its detail.
    TmdbFind { imdb_id: String },
    /// A TMDB title search.
    TmdbSearch { query: String, media_type: String, year: Option<String> },
    /// A DoubanInfo title search, then a TMDB one when it finds nothing and
    /// `fallback` is set.
    AutoSearch { query: String, media_type: String, year: Option<String>, fallback: bool },
    /// A DoubanInfo detail, the matching TMDB detail, and their merge.
    MergeFromDouban { id: String, douban_mode: bool },
    /// A TMDB detail, the matching Douban detail, and their merge.
    MergeFromTmdb { id: i64, media_type: String },
}

/// The view of a plan.
pub enum PlanView {
    DoubanDetail { id: Seq<char>, douban_mode: bool },
    DoubanSearch { query: Seq<char> },
    TmdbDetail { id: i64, media_type: Seq<char> },
    TmdbFind { imdb_id: Seq<char> },
    TmdbSearch { query: Seq<char>, media_type: Seq<char>, year: Option<Seq<char>> },
    AutoSearch { query: Seq<char>, media_type: Seq<char>, year: Option<Seq<char>>, fallback: bool },
    MergeFromDouban { id: Seq<char>, douban_mode: bool },
    MergeFromTmdb { id: i64, media_type: Seq<char> },
}

/// The view of an optional text.
pub open spec fn opt_text(o: Option<String>) -> Option<Seq<char>> {
    match o {
        Some(s) => Some(s@),
        None => None,
    }
}

impl View for Plan {
    type V = PlanView;

    open spec fn view(&self) -> PlanView {
        match self {
            Plan::DoubanDetail { id, douban_mode } => PlanView::DoubanDetail { id: id@, douban_mode: *douban_mode },
            Plan::DoubanSearch { query } => PlanView::DoubanSearch { query: query@ },
            Plan::TmdbDetail { id, media_type } => PlanView::TmdbDetail { id: *id, media_type: media_type@ },
            Plan::TmdbFind { imdb_id } => PlanView::TmdbFind { imdb_id: imdb_id@ },
            Plan::TmdbSearch { query, media_type, year } => PlanView::TmdbSearch {
                query: query@,
                media_type: media_type@,
                year: opt_text(*year),
            },
            Plan::AutoSearch { query, media_type, year, fallback } => PlanView::AutoSearch {
                query: query@,
                media_type: media_type@,
                year: opt_text(*year),
                fallback: *fallback,
            },
            Plan::MergeFromDouban { id, douban_mode } => PlanView::MergeFromDouban { id: id@, douban_mode: *douban_mode },
            Plan::MergeFromTmdb { id, media_type } => PlanView::MergeFromTmdb { id: *id, media_type: media_type@ },
        }
    }
}

/// The view of a planning outcome.
pub open spec fn plan_result_view(r: Result<Plan, String>) -> Result<PlanView, Seq<char>> {
    match r {
        Ok(p) => Ok(p@),
        Err(e) => Err(e@),
    }
}

/// A TMDB detail of a recognised TMDB id, or the id's parse error.
pub open spec fn tmdb_detail_plan(info: InfoView, merge: bool) -> Result<PlanView, Seq<char>> {
    match parsed_i64(info.id) {
        Ok(v) => Ok(
            if merge {
                PlanView::MergeFromTmdb { id: v as i64, media_type: info.media_type }
            } else {
                PlanView::TmdbDetail { id: v as i64, media_type: info.media_type }
            },
        ),
        Err(e) => Err(int_error_text(e)),
    }
}

/// Which requests answer an input for a source mode: "douban", "tmdb",
/// "auto" (Douban first) or "merge" (Douban and TMDB merged); an input kind
/// a mode cannot answer, or an unknown mode, is an error.
pub open spec fn planned(source: Seq<char>, info: InfoView, media_type: Seq<char>, fallback: bool) -> Result<PlanView, Seq<char>> {
    let k = info.kind;
    let douban_kind = k == "douban_id"@ || k == "imdb"@;
    let tmdb_kind = k == "tmdb_url"@ || k == "tmdb_id"@;
    let search = k == "search"@;
    if source == "douban"@ {
        if douban_kind {
            Ok(PlanView::DoubanDetail { id: info.id, douban_mode: k == "imdb"@ })
        } else if search {
            Ok(PlanView::DoubanSearch { query: info.query })
        } else {
            Err("douban 不支持输入: "@ + k)
        }
    } else if source == "tmdb"@ {
        if tmdb_kind {
            tmdb_detail_plan(info, false)
        } else if k == "imdb"@ {
            Ok(PlanView::TmdbFind { imdb_id: info.id })
        } else if search {
            Ok(PlanView::TmdbSearch { query: info.query, media_type, year: info.year })
        } else {
            Err("tmdb 不支持输入: "@ + k)
        }
    } else if source == "auto"@ {
        if douban_kind {
            Ok(PlanView::DoubanDetail { id: info.id, douban_mode: k == "imdb"@ })
        } else if tmdb_kind {
            tmdb_detail_plan(info, false)
        } else if search {
            Ok(PlanView::AutoSearch { query: info.query, media_type, year: info.year, fallback })
        } else {
            Err("auto 不支持输入: "@ + k)
        }
    } else if source == "merge"@ {
        if douban_kind {
            Ok(PlanView::MergeFromDouban { id: info.id, douban_mode: k == "imdb"@ })
        } else if tmdb_kind {
            tmdb_detail_plan(info, true)
        } else if search {
            Ok(PlanView::DoubanSearch { query: info.query })
        } else {
            Err("merge 不支持输入: "@ + k)
        }
    } else {
        Err("未知 source"@)
    }
}

fn tmdb_detail_plan_exec(info: &Info, merge: bool) -> (r: Result<Plan, String>)
    ensures
        plan_result_view(r) == tmdb_detail_plan(info@, merge),
{
    match parse_tmdb_id(info.id.as_str()) {
        Ok(v) => Ok(
            if merge {
                Plan::MergeFromTmdb { id: v, media_type: info.media_type.clone() }
            } else {
                Plan::TmdbDetail { id: v, media_type: info.media_type.clone() }
            },
        ),
        Err(m) => Err(m),
    }
}

fn copy_opt(o: &Option<String>) -> (r: Option<String>)
    ensures
        opt_text(r) == opt_text(*o),
{
    match o {
        Some(s) => Some(s.clone()),
        None => None,
    }
}

/// Decides which requests answer the recognised input (`phase1`).
pub fn plan(source: &str, info: &Info, media_type: &str, fallback_to_tmdb: bool) -> (r: Result<Plan, String>)
    ensures
        plan_result_view(r) == planned(source@, info@, media_type@, fallback_to_tmdb),
{
    let k = info.kind.as_str();
    let imdb = str_eq(k, "imdb");
    let douban_kind = str_eq(k, "douban_id") || imdb;
    let tmdb_kind = str_eq(k, "tmdb_url") || str_eq(k, "tmdb_id");
    let search = str_eq(k, "search");
    if str_eq(source, "douban") {
        if douban_kind {
            Ok(Plan::DoubanDetail { id: info.id.clone(), douban_mode: imdb })
        } else if search {
            Ok(Plan::DoubanSearch { query: info.query.clone() })
        } else {
            Err(crate::text::concat2("douban 不支持输入: ", k))
        }
    } else if str_eq(source, "tmdb") {
        if tmdb_kind {
            tmdb_detail_plan_exec(info, false)
        } else if imdb {
            Ok(Plan::TmdbFind { imdb_id: info.id.clone() })
        } else if search {
            Ok(Plan::TmdbSearch { query: info.query.clone(), media_type: owned(media_type), year: copy_opt(&info.year) })
        } else {
            Err(crate::text::concat2("tmdb 不支持输入: ", k))
        }
    } else if str_eq(source, "auto") {
        if douban_kind {
            Ok(Plan::DoubanDetail { id: info.id.clone(), douban_mode: imdb })
        } else if tmdb_kind {
            tmdb_detail_plan_exec(info, false)
        } else if search {
            Ok(
                Plan::AutoSearch {
                    query: info.query.clone(),
                    media_type: owned(media_type),
                    year: copy_opt(&info.year),
                    fallback: fallback_to_tmdb,
                },
            )
        } else {
            Err(crate::text::concat2("auto 不支持输入: ", k))
        }
    } else if str_eq(source, "merge") {
        if douban_kind {
            Ok(Plan::MergeFromDouban { id: info.id.clone(), douban_mode: imdb })
        } else if tmdb_kind {
            tmdb_detail_plan_exec(info, true)
        } else if search {
            Ok(Plan::DoubanSearch { query: info.query.clone() })
        } else {
            Err(crate::text::concat2("merge 不支持输入: ", k))
        }
    } else {
        Err(owned("未知 source"))
    }
}

/// Which requests answer a chosen candidate (`phase2`): its Douban detail
/// (merged with TMDB in merge mode) or its TMDB detail.
pub open spec fn candidate_planned(c: crate::common::CandidateData, source: Seq<char>) -> Result<PlanView, Seq<char>> {
    if c.source == "douban"@ {
        if source == "merge"@ {
            Ok(PlanView::MergeFromDouban { id: c.id, douban_mode: false })
        } else {
            Ok(PlanView::DoubanDetail { id: c.id, douban_mode: false })
        }
    } else if c.source == "tmdb"@ {
        match parsed_i64(c.id) {
            Ok(v) => Ok(PlanView::TmdbDetail { id: v as i64, media_type: c.media_type }),
            Err(e) => Err(int_error_text(e)),
        }
    } else {
        Err("未知候选来源"@)
    }
}

/// Decides which requests answer a chosen candidate.
pub fn candidate_plan(c: &crate::common::Candidate, source: &str) -> (r: Result<Plan, String>)
    ensures
        plan_result_view(r) == candidate_planned(c@, source@),
{
    if str_eq(c.source.as_str(), "douban") {
        if str_eq(source, "merge") {
            Ok(Plan::MergeFromDouban { id: c.id.clone(), douban_mode: false })
        } else {
            Ok(Plan::DoubanDetail { id: c.id.clone(), douban_mode: false })
        }
    } else if str_eq(c.source.as_str(), "tmdb") {
        match parse_tmdb_id(c.id.as_str()) {
            Ok(v) => Ok(Plan::TmdbDetail { id: v, media_type: c.media_type.clone() }),
            Err(m) => Err(m),
        }
    } else {
        Err(owned("未知候选来源"))
    }
}

// ───────── matching records across sources ─────────

/// The first of the texts present: `chinese_title`, else `original_title`,
/// else `title`, else empty.
pub open spec fn title_chain(d: JsonData) -> Seq<char> {
    match text_field(d, "chinese_title"@) {
        Some(t) => t,
        None => match text_field(d, "original_title"@) {
            Some(t) => t,
            None => text_or_empty(d, "title"@),
        },
    }
}

fn title_chain_exec(d: &JsonValue) -> (r: String)
    ensures
        r@ == title_chain(d@),
{
    match d.get_str("chinese_title") {
        Some(t) => owned(t),
        None => match d.get_str("original_title") {
            Some(t) => owned(t),
            None => d.str_or_empty("title"),
        },
    }
}

/// How to find the TMDB record of a Douban record: its IMDb ID when it has
/// one, else a title search (with the year, when known).
pub struct TmdbLookup {
    pub imdb_id: Option<String>,
    pub query: String,
    pub year: Option<String>,
}

/// The IMDb ID of a record, when it is not empty.
pub open spec fn imdb_key(d: JsonData) -> Option<Seq<char>> {
    let i = text_or_empty(d, "imdb_id"@);
    if i.len() > 0 {
        Some(i)
    } else {
        None
    }
}

/// The year of a record, when it is not empty.
pub open spec fn year_key(d: JsonData) -> Option<Seq<char>> {
    let y = text_or_empty(d, "year"@);
    if y.len() > 0 {
        Some(y)
    } else {
        None
    }
}

/// The title search for the TMDB record: the title, then the year when known.
pub open spec fn tmdb_query(d: JsonData) -> Seq<char> {
    let y = text_or_empty(d, "year"@);
    if y.len() == 0 {
        title_chain(d)
    } else {
        title_chain(d) + " "@ + y
    }
}

fn imdb_key_exec(d: &JsonValue) -> (r: Option<String>)
    ensures
        opt_text(r) == imdb_key(d@),
{
    let i = d.str_or_empty("imdb_id");
    if !i.as_str().is_empty() {
        Some(i)
    } else {
        None
    }
}

/// How to find the TMDB record of a Douban record (`tmdb_from_douban`).
pub fn tmdb_lookup(d: &JsonValue) -> (r: TmdbLookup)
    ensures
        opt_text(r.imdb_id) == imdb_key(d@),
        r.query@ == tmdb_query(d@),
        opt_text(r.year) == year_key(d@),
{
    let title = title_chain_exec(d);
    let y = d.str_or_empty("year");
    let query = if y.as_str().is_empty() {
        title
    } else {
        concat3(title.as_str(), " ", y.as_str())
    };
    TmdbLookup {
        imdb_id: imdb_key_exec(d),
        query,
        year: if !y.as_str().is_empty() {
            Some(y)
        } else {
            None
        },
    }
}

/// How to find the Douban record of a TMDB record (`douban_from_tmdb`): its
/// IMDb ID when it has one, and the title to search otherwise.
pub fn douban_lookup(t: &JsonValue) -> (r: (Option<String>, String))
    ensures
        opt_text(r.0) == imdb_key(t@),
        r.1@ == title_chain(t@),
{
    (imdb_key_exec(t), title_chain_exec(t))
}

// ───────── steps of the requests ─────────

/// What to do once the Douban search of an automatic search has answered.
#[derive(Clone, Copy, Debug, PartialEq, Eq)]
pub enum AutoNext {
    /// Show the Douban candidates.
    ShowDouban,
    /// Search TMDB and show its candidates.
    SearchTmdb,
    /// Show that nothing was found.
    ShowNothing,
}

/// The next step of an automatic search (`AutoSearch`) after Douban found
/// `found` candidates: show them when there are any; else search TMDB when
/// the plan falls back to it; else show that nothing was found.
pub fn auto_next(found: usize, fallback: bool) -> (r: AutoNext)
    ensures
        r == if found > 0 {
            AutoNext::ShowDouban
        } else if fallback {
            AutoNext::SearchTmdb
        } else {
            AutoNext::ShowNothing
        },
{
    if found > 0 {
        AutoNext::ShowDouban
    } else if fallback {
        AutoNext::SearchTmdb
    } else {
        AutoNext::ShowNothing
    }
}

/// Where a lookup of the same title in the other source stands.
#[derive(Clone, Copy, Debug, PartialEq, Eq)]
pub enum LookupStage {
    /// Look it up by its IMDb ID.
    ByImdb,
    /// Search its title and take the first candidate.
    ByTitle,
    /// Done: found, or nothing more to try.
    Finished,
}

/// The first stage of a lookup: by IMDb ID when the record has one, else by
/// title.
pub fn lookup_start(has_imdb: bool) -> (r: LookupStage)
    ensures
        r == if has_imdb {
            LookupStage::ByImdb
        } else {
            LookupStage::ByTitle
        },
{
    if has_imdb {
        LookupStage::ByImdb
    } else {
        LookupStage::ByTitle
    }
}

/// The stage after one: a record found finishes; a failed IMDb lookup falls
/// back to the title search; a title search finishes either way.
pub fn lookup_after(stage: LookupStage, found: bool) -> (r: LookupStage)
    ensures
        r == stage_after(stage, found),
{
    match stage {
        LookupStage::ByImdb => if found {
            LookupStage::Finished
        } else {
            LookupStage::ByTitle
        },
        _ => LookupStage::Finished,
    }
}

/// The stage after one, as a spec.
pub open spec fn stage_after(stage: LookupStage, found: bool) -> LookupStage {
    match stage {
        LookupStage::ByImdb => if found {
            LookupStage::Finished
        } else {
            LookupStage::ByTitle
        },
        _ => LookupStage::Finished,
    }
}

/// A lookup tries at most two ways: whatever the outcomes, two steps from its
/// first stage finish it, and the IMDb ID, when there is one, is tried first.
pub proof fn lemma_lookup_ends(has_imdb: bool, first: bool, second: bool)
    ensures
        ({
            let s0 = if has_imdb {
                LookupStage::ByImdb
            } else {
                LookupStage::ByTitle
            };
            stage_after(stage_after(s0, first), second) == LookupStage::Finished
        }),
{
}

// ───────── laws of recognition and planning ─────────

/// A pattern whose first character is not a digit occurs nowhere in a text
/// of digits.
proof fn lemma_digits_lack(t: Seq<char>, pat: Seq<char>)
    requires
        forall|i: int| 0 <= i < t.len() ==> '0' <= #[trigger] t[i] <= '9',
        pat.len() > 0,
        !('0' <= pat[0] <= '9'),
    ensures
        find_at(t, pat, 0) is None,
{
    assert forall|j: int| 0 <= j implies !occurs_at(t, pat, j) by {
        if occurs_at(t, pat, j) {
            assert(t.subrange(j, j + pat.len())[0] == t[j]);
        }
    }
    lemma_find_at_none(t, pat, 0);
}

/// A number typed with a film or series type forced is a TMDB id of that
/// type; with any other type it is a Douban ID.
pub proof fn lemma_number_is_tmdb_id_when_typed(t: Seq<char>, f: Seq<char>)
    requires
        t.len() > 0,
        forall|i: int| 0 <= i < t.len() ==> '0' <= #[trigger] t[i] <= '9',
    ensures
        (f == "movie"@ || f == "tv"@) ==> detected(t, f) == (InfoView {
            kind: "tmdb_id"@,
            id: t,
            media_type: f,
            query: Seq::empty(),
            year: None,
        }),
        !(f == "movie"@ || f == "tv"@) ==> detected(t, f) == (InfoView {
            kind: "douban_id"@,
            id: t,
            media_type: Seq::empty(),
            query: Seq::empty(),
            year: None,
        }),
{
    assert(crate::text::trim_start(t) == t);
    assert(crate::text::trim_end(t) == t);
    assert(trimmed(t) == t);
    reveal_strlit("themoviedb.org/");
    reveal_strlit("movie.douban.com/subject/");
    reveal_strlit("tt");
    lemma_digits_lack(t, "themoviedb.org/"@);
    lemma_digits_lack(t, "movie.douban.com/subject/"@);
    assert(!is_imdb_id(t)) by {
        if starts_with(t, "tt"@) {
            assert(t.subrange(0, 2)[0] == t[0]);
        }
    }
    assert(all_digits(t));
}

/// A recognised TMDB address or id whose id reads as an `i64` plans that
/// TMDB detail in the automatic and TMDB modes and the TMDB-first merge in
/// merge mode; only Douban mode refuses it.
pub proof fn lemma_tmdb_inputs_plan_tmdb_details(info: InfoView, media_type: Seq<char>, fallback: bool, v: int)
    requires
        info.kind == "tmdb_url"@ || info.kind == "tmdb_id"@,
        parsed_i64(info.id) == Ok::<int, IntError>(v),
    ensures
        planned("auto"@, info, media_type, fallback) == Ok::<PlanView, Seq<char>>(
            PlanView::TmdbDetail { id: v as i64, media_type: info.media_type },
        ),
        planned("tmdb"@, info, media_type, fallback) == Ok::<PlanView, Seq<char>>(
            PlanView::TmdbDetail { id: v as i64, media_type: info.media_type },
        ),
        planned("merge"@, info, media_type, fallback) == Ok::<PlanView, Seq<char>>(
            PlanView::MergeFromTmdb { id: v as i64, media_type: info.media_type },
        ),
        planned("douban"@, info, media_type, fallback) is Err,
{
    reveal_strlit("tmdb_url");
    reveal_strlit("tmdb_id");
    reveal_strlit("douban_id");
    reveal_strlit("imdb");
    reveal_strlit("search");
    reveal_strlit("auto");
    reveal_strlit("tmdb");
    reveal_strlit("merge");
    reveal_strlit("douban");
    assert("tmdb_url"@ != "douban_id"@ && "tmdb_url"@ != "imdb"@ && "tmdb_url"@ != "search"@) by {
        assert("tmdb_url"@[0] != "douban_id"@[0]);
        assert("tmdb_url"@.len() != "imdb"@.len());
        assert("tmdb_url"@[0] != "search"@[0]);
    }
    assert("tmdb_id"@ != "douban_id"@ && "tmdb_id"@ != "imdb"@ && "tmdb_id"@ != "search"@) by {
        assert("tmdb_id"@[0] != "douban_id"@[0]);
        assert("tmdb_id"@.len() != "imdb"@.len());
        assert("tmdb_id"@[0] != "search"@[0]);
    }
    assert("auto"@ != "douban"@ && "tmdb"@ != "douban"@ && "merge"@ != "douban"@) by {
        assert("auto"@[0] != "douban"@[0]);
        assert("tmdb"@[0] != "douban"@[0]);
        assert("merge"@[0] != "douban"@[0]);
    }
    assert("auto"@ != "tmdb"@ && "merge"@ != "tmdb"@ && "merge"@ != "auto"@) by {
        assert("auto"@[0] != "tmdb"@[0]);
        assert("merge"@[0] != "tmdb"@[0]);
        assert("merge"@[0] != "auto"@[0]);
    }
}

} // verus!
