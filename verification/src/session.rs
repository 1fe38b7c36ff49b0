//! The state of the window and how it answers the user and the results of the
//! requests: starting a search or a detail request, taking in candidates,
//! a record or an error, the history of generated introductions, the filters
//! of the poster wall and the texts shown. Drawing, threads and files are the
//! application's.
use vstd::prelude::*;
use crate::common::{Candidate, CandidateData};
use crate::config::{Defaults, Keys};
use crate::json::{JsonData, JsonValue, field, is_object, text_field, text_or_empty, u64_field};
use crate::schema::{bbcode, to_bbcode};
use crate::text::{concat2, contains, decimal, owned, push_str, str_contains, str_eq, to_lowercase, trim_str, trimmed, u64_to_text, lowercase};

verus! {

/// How many introductions the history keeps.
pub const HISTORY_LIMIT: usize = 100;

/// One generated introduction, kept in the history.
#[derive(Clone, Debug, PartialEq)]
pub struct HistoryItem {
    pub title: String,
    pub id: String,
    pub source: String,
    pub format: String,
    pub content: String,
    pub year: String,
    pub timestamp: String,
}

/// The view of a history item.
pub struct HistoryView {
    pub title: Seq<char>,
    pub id: Seq<char>,
    pub source: Seq<char>,
    pub format: Seq<char>,
    pub content: Seq<char>,
    pub year: Seq<char>,
    pub timestamp: Seq<char>,
}

impl View for HistoryItem {
    type V = HistoryView;

    open spec fn view(&self) -> HistoryView {
        HistoryView {
            title: self.title@,
            id: self.id@,
            source: self.source@,
            format: self.format@,
            content: self.content@,
            year: self.year@,
            timestamp: self.timestamp@,
        }
    }
}

/// The views of a list of history items.
pub open spec fn history_views(s: Seq<HistoryItem>) -> Seq<HistoryView> {
    s.map_values(|h: HistoryItem| h@)
}

/// The history after `h` was generated: `h` first, then the earlier items,
/// the oldest dropped beyond the limit.
pub open spec fn remembered(hs: Seq<HistoryView>, h: HistoryView) -> Seq<HistoryView> {
    let all = seq![h] + hs;
    if all.len() > HISTORY_LIMIT {
        all.take(HISTORY_LIMIT as int)
    } else {
        all
    }
}

/// Puts a new introduction at the head of the history, which keeps the
/// newest `HISTORY_LIMIT` items.
pub fn remember(history: &mut Vec<HistoryItem>, item: HistoryItem)
    ensures
        history_views(final(history)@) == remembered(history_views(old(history)@), item@),
        final(history)@.len() <= HISTORY_LIMIT,
        final(history)@[0]@ == item@,
        forall|i: int|
            0 < i < final(history)@.len() ==> #[trigger] final(history)@[i]@ == old(history)@[i - 1]@,
{
    let ghost before = history@;
    let ghost iv = item@;
    history.insert(0, item);
    assert(history_views(history@) =~= seq![iv] + history_views(before));
    if history.len() > HISTORY_LIMIT {
        history.truncate(HISTORY_LIMIT);
        assert(history_views(history@) =~= (seq![iv] + history_views(before)).take(HISTORY_LIMIT as int));
    }
}

/// The label of a history entry: `title (year) [source·format]`.
pub open spec fn history_label_text(h: HistoryView) -> Seq<char> {
    h.title + " ("@ + h.year + ") ["@ + h.source + "·"@ + h.format + "]"@
}

/// The label of a history entry in the history list.
pub fn history_label(h: &HistoryItem) -> (r: String)
    ensures
        r@ == history_label_text(h@),
{
    let mut s = owned(h.title.as_str());
    push_str(&mut s, " (");
    push_str(&mut s, h.year.as_str());
    push_str(&mut s, ") [");
    push_str(&mut s, h.source.as_str());
    push_str(&mut s, "·");
    push_str(&mut s, h.format.as_str());
    push_str(&mut s, "]");
    s
}

// ───────── the right panel ─────────

/// What the right panel shows.
#[derive(Debug, PartialEq)]
pub enum RightState {
    Empty,
    Loading(String),
    Result { bbcode: String, json: String },
    Error(String),
}

/// The view of the right panel.
pub enum RightView {
    Empty,
    Loading(Seq<char>),
    Result { bbcode: Seq<char>, json: Seq<char> },
    Error(Seq<char>),
}

impl View for RightState {
    type V = RightView;

    open spec fn view(&self) -> RightView {
        match self {
            RightState::Empty => RightView::Empty,
            RightState::Loading(m) => RightView::Loading(m@),
            RightState::Result { bbcode, json } => RightView::Result { bbcode: bbcode@, json: json@ },
            RightState::Error(m) => RightView::Error(m@),
        }
    }
}

// ───────── texts ─────────

/// The title shown for a candidate: its Chinese title, else its title.
pub open spec fn shown_title(c: CandidateData) -> Seq<char> {
    if c.chinese_title.len() == 0 {
        c.title
    } else {
        c.chinese_title
    }
}

/// The title shown for a candidate.
pub fn display_title(c: &Candidate) -> (r: String)
    ensures
        r@ == shown_title(c@),
{
    if c.chinese_title.as_str().is_empty() {
        c.title.clone()
    } else {
        c.chinese_title.clone()
    }
}

/// The message while the detail of a candidate is fetched.
pub open spec fn loading_text(c: CandidateData) -> Seq<char> {
    "正在取《"@ + shown_title(c) + "》详情…"@
}

/// The message shown when a search finds nothing for the query `q`.
pub open spec fn no_results_text(q: Seq<char>) -> Seq<char> {
    "未找到「"@ + q + "」，试试加年份如「"@ + q + " 2025」"@
}

fn no_results_message(q: &str) -> (r: String)
    ensures
        r@ == no_results_text(q@),
{
    let mut s = owned("未找到「");
    push_str(&mut s, q);
    push_str(&mut s, "」，试试加年份如「");
    push_str(&mut s, q);
    push_str(&mut s, " 2025」");
    s
}

/// The DoubanInfo quota in a record's `usage`, when it reports `used` as an
/// object: `豆瓣配额 used/limit`, a missing number counting as 0.
pub open spec fn usage_hint_of(d: JsonData) -> Option<Seq<char>> {
    match field(d, "usage"@) {
        Some(u) => match field(u, "used"@) {
            Some(used) => if is_object(used) {
                let kd = match u64_field(used, "key_day"@) {
                    Some(n) => n,
                    None => 0u64,
                };
                let klim = match field(u, "limits"@) {
                    Some(l) => match u64_field(l, "key_per_day"@) {
                        Some(n) => n,
                        None => 0u64,
                    },
                    None => 0u64,
                };
                Some("豆瓣配额 "@ + decimal(kd as nat) + "/"@ + decimal(klim as nat))
            } else {
                None
            },
            None => None,
        },
        None => None,
    }
}

/// The quota hint of a record (`extract_usage`).
pub fn usage_hint(d: &JsonValue) -> (r: Option<String>)
    ensures
        match r {
            Some(h) => usage_hint_of(d@) == Some(h@),
            None => usage_hint_of(d@) is None,
        },
{
    let u = match d.get("usage") {
        Some(u) => u,
        None => return None,
    };
    let used = match u.get("used") {
        Some(v) => v,
        None => return None,
    };
    if !used.is_object() {
        return None;
    }
    let kd = match used.get_u64("key_day") {
        Some(n) => n,
        None => 0,
    };
    let klim = match u.get("limits") {
        Some(l) => match l.get_u64("key_per_day") {
            Some(n) => n,
            None => 0,
        },
        None => 0,
    };
    let mut s = owned("豆瓣配额 ");
    push_str(&mut s, u64_to_text(kd).as_str());
    push_str(&mut s, "/");
    push_str(&mut s, u64_to_text(klim).as_str());
    Some(s)
}

/// The title of a record for the history: `chinese_title`, else `title`.
pub open spec fn record_title(d: JsonData) -> Seq<char> {
    match text_field(d, "chinese_title"@) {
        Some(t) => t,
        None => text_or_empty(d, "title"@),
    }
}

/// The BBCode of a record: its `format` text, else rendered.
pub open spec fn record_bbcode(d: JsonData) -> Seq<char> {
    match text_field(d, "format"@) {
        Some(t) => t,
        None => bbcode(d),
    }
}

/// The history entry of a record generated in `format`, with its cleaned
/// JSON text `json`.
pub open spec fn history_entry(d: JsonData, format: Seq<char>, json: Seq<char>, timestamp: Seq<char>) -> HistoryView {
    HistoryView {
        title: record_title(d),
        id: text_or_empty(d, "sid"@),
        source: text_or_empty(d, "source"@),
        format,
        content: if format == "bbcode"@ {
            record_bbcode(d)
        } else {
            json
        },
        year: text_or_empty(d, "year"@),
        timestamp,
    }
}

/// The BBCode of a record.
pub fn bbcode_of(d: &JsonValue) -> (r: String)
    ensures
        r@ == record_bbcode(d@),
{
    match d.get_str("format") {
        Some(t) => owned(t),
        None => to_bbcode(d),
    }
}

/// The history entry of a record generated in `format`.
pub fn history_item(d: &JsonValue, format: &str, bbcode: &str, json: &str, timestamp: String) -> (r: HistoryItem)
    requires
        bbcode@ == record_bbcode(d@),
    ensures
        r@ == history_entry(d@, format@, json@, timestamp@),
{
    let title = match d.get_str("chinese_title") {
        Some(t) => owned(t),
        None => d.str_or_empty("title"),
    };
    let content = if str_eq(format, "bbcode") {
        owned(bbcode)
    } else {
        owned(json)
    };
    HistoryItem {
        title,
        id: d.str_or_empty("sid"),
        source: d.str_or_empty("source"),
        format: owned(format),
        content,
        year: d.str_or_empty("year"),
        timestamp,
    }
}

// ───────── the poster wall ─────────

/// The views of a list of candidates.
pub open spec fn cand_views(cs: Seq<Candidate>) -> Seq<CandidateData> {
    cs.map_values(|c: Candidate| c@)
}

/// Some genre of `c`, lower-cased, holds `f`.
pub open spec fn genre_holds(c: CandidateData, f: Seq<char>) -> bool {
    exists|i: int| 0 <= i < c.genre.len() && contains(lowercase(#[trigger] c.genre[i]), f)
}

/// Whether a candidate matches the lower-cased keyword `f`: an empty keyword
/// matches all; else it must occur in the lower-cased title, Chinese title,
/// region or a genre, or in the year.
pub open spec fn keyword_matches(c: CandidateData, f: Seq<char>) -> bool {
    ||| f.len() == 0
    ||| contains(lowercase(c.title), f)
    ||| contains(lowercase(c.chinese_title), f)
    ||| contains(c.year, f)
    ||| contains(lowercase(c.region), f)
    ||| genre_holds(c, f)
}

/// An animation: some genre says so in Chinese, English or Japanese.
pub open spec fn is_anime(c: CandidateData) -> bool {
    exists|i: int|
        0 <= i < c.genre.len() && (contains(#[trigger] c.genre[i], "动画"@) || contains(c.genre[i], "Anime"@)
            || contains(c.genre[i], "アニメ"@))
}

/// Whether a candidate is in the category chip `cat`: `动漫` (animation),
/// `剧集` (series), `电影` (movies); any other chip shows all.
pub open spec fn in_category(c: CandidateData, cat: Seq<char>) -> bool {
    if cat == "动漫"@ {
        is_anime(c)
    } else if cat == "剧集"@ {
        c.media_type == "tv"@
    } else if cat == "电影"@ {
        c.media_type == "movie"@
    } else {
        true
    }
}

/// Whether a candidate passes the keyword, the category and the year (an
/// empty year shows all).
pub open spec fn passes_filters(c: CandidateData, f: Seq<char>, cat: Seq<char>, year: Seq<char>) -> bool {
    &&& keyword_matches(c, f)
    &&& in_category(c, cat)
    &&& (year.len() == 0 || c.year == year)
}

/// The indices of the candidates that pass the filters, in order.
pub open spec fn kept_indices(cs: Seq<CandidateData>, f: Seq<char>, cat: Seq<char>, year: Seq<char>) -> Seq<int>
    decreases cs.len(),
{
    if cs.len() == 0 {
        Seq::empty()
    } else {
        let rest = kept_indices(cs.drop_last(), f, cat, year);
        if passes_filters(cs.last(), f, cat, year) {
            rest.push(cs.len() - 1)
        } else {
            rest
        }
    }
}

fn genre_holds_exec(c: &Candidate, f: &str) -> (r: bool)
    ensures
        r == genre_holds(c@, f@),
{
    let mut i: usize = 0;
    while i < c.genre.len()
        invariant
            i <= c.genre@.len(),
            forall|j: int| 0 <= j < i ==> !contains(lowercase(#[trigger] c@.genre[j]), f@),
        decreases c.genre@.len() - i,
    {
        let g = to_lowercase(c.genre[i].as_str());
        if str_contains(g.as_str(), f) {
            assert(contains(lowercase(c@.genre[i as int]), f@));
            return true;
        }
        i = i + 1;
    }
    false
}

fn is_anime_exec(c: &Candidate) -> (r: bool)
    ensures
        r == is_anime(c@),
{
    let mut i: usize = 0;
    while i < c.genre.len()
        invariant
            i <= c.genre@.len(),
            forall|j: int|
                0 <= j < i ==> !(contains(#[trigger] c@.genre[j], "动画"@) || contains(c@.genre[j], "Anime"@)
                    || contains(c@.genre[j], "アニメ"@)),
        decreases c.genre@.len() - i,
    {
        let g = c.genre[i].as_str();
        if str_contains(g, "动画") || str_contains(g, "Anime") || str_contains(g, "アニメ") {
            assert(c@.genre[i as int] == g@);
            return true;
        }
        i = i + 1;
    }
    false
}

fn passes_filters_exec(c: &Candidate, f: &str, cat: &str, year: &str) -> (r: bool)
    ensures
        r == passes_filters(c@, f@, cat@, year@),
{
    if !f.is_empty() {
        let matches = str_contains(to_lowercase(c.title.as_str()).as_str(), f) || str_contains(
            to_lowercase(c.chinese_title.as_str()).as_str(),
            f,
        ) || str_contains(c.year.as_str(), f) || str_contains(to_lowercase(c.region.as_str()).as_str(), f)
            || genre_holds_exec(c, f);
        if !matches {
            return false;
        }
    }
    proof {
        reveal_strlit("动漫");
        reveal_strlit("剧集");
        reveal_strlit("电影");
        assert("动漫"@[0] != "剧集"@[0]);
        assert("动漫"@[0] != "电影"@[0]);
        assert("剧集"@[0] != "电影"@[0]);
    }
    if str_eq(cat, "动漫") && !is_anime_exec(c) {
        return false;
    }
    if str_eq(cat, "剧集") && !str_eq(c.media_type.as_str(), "tv") {
        return false;
    }
    if str_eq(cat, "电影") && !str_eq(c.media_type.as_str(), "movie") {
        return false;
    }
    if !year.is_empty() && !str_eq(c.year.as_str(), year) {
        return false;
    }
    true
}

/// The distinct non-empty years in ascending order.
pub open spec fn strictly_sorted(s: Seq<Seq<char>>) -> bool {
    forall|i: int, j: int| 0 <= i < j < s.len() ==> crate::text::text_less(#[trigger] s[i], #[trigger] s[j])
}

/// The year of some candidate among the first `n`, when not empty.
pub open spec fn listed_year(cs: Seq<CandidateData>, n: int, y: Seq<char>) -> bool {
    y.len() > 0 && exists|k: int| 0 <= k < n && (#[trigger] cs[k]).year == y
}

/// What the panel shows for a history entry: its content as BBCode or as
/// JSON text, by the format it was generated in.
pub open spec fn history_panel(h: HistoryView) -> RightView {
    RightView::Result {
        bbcode: if h.format == "bbcode"@ {
            h.content
        } else {
            Seq::empty()
        },
        json: if h.format == "json"@ {
            h.content
        } else {
            Seq::empty()
        },
    }
}

/// Reusing the newest history entry shows again what was generated: the
/// record's BBCode when it was generated as BBCode, its JSON text when it was
/// generated as JSON.
pub proof fn lemma_history_reuse(hs: Seq<HistoryView>, d: JsonData, format: Seq<char>, json: Seq<char>, timestamp: Seq<char>)
    requires
        format == "bbcode"@ || format == "json"@,
    ensures
        history_panel(remembered(hs, history_entry(d, format, json, timestamp))[0]) == if format == "bbcode"@ {
            RightView::Result { bbcode: record_bbcode(d), json: Seq::empty() }
        } else {
            RightView::Result { bbcode: Seq::empty(), json: json }
        },
{
    reveal_strlit("bbcode");
    reveal_strlit("json");
    assert("bbcode"@ != "json"@) by {
        assert("bbcode"@.len() != "json"@.len());
    }
}

// ───────── the window state ─────────

/// What the window holds between frames.
pub struct AppState {
    pub input: String,
    pub source: String,
    pub format: String,
    pub media_type: String,
    pub full_celebrities: bool,
    pub cands: Vec<Candidate>,
    pub filter: String,
    pub selected_idx: Option<usize>,
    pub right: RightState,
    pub usage_hint: String,
    pub status_toast: String,
    pub searching: bool,
    pub history: Vec<HistoryItem>,
    pub filter_cat: String,
    pub filter_year: String,
}

/// The search bar (but its format) and the poster-wall filters are the same.
pub open spec fn same_bar(a: AppState, b: AppState) -> bool {
    &&& a.input == b.input
    &&& a.source == b.source
    &&& a.media_type == b.media_type
    &&& a.full_celebrities == b.full_celebrities
    &&& a.filter == b.filter
    &&& a.filter_cat == b.filter_cat
    &&& a.filter_year == b.filter_year
}

/// The search results and the selection are the same.
pub open spec fn same_results(a: AppState, b: AppState) -> bool {
    &&& a.cands == b.cands
    &&& a.selected_idx == b.selected_idx
    &&& a.searching == b.searching
}

/// The status texts and the history are the same.
pub open spec fn same_notes(a: AppState, b: AppState) -> bool {
    &&& a.usage_hint == b.usage_hint
    &&& a.status_toast == b.status_toast
    &&& a.history == b.history
}

/// The message shown when no API key is set.
pub open spec fn missing_keys_text() -> Seq<char> {
    "未找到 config.toml，点右上角 ⚙ 设置填入 API key"@
}

/// The message shown when a search is asked for with nothing typed.
pub open spec fn empty_input_text() -> Seq<char> {
    "请输入片名 / 豆瓣ID / IMDb / TMDB URL"@
}

impl AppState {
    /// The starting state: the search bar set from the defaults, nothing
    /// found yet, the given history, and a notice when no key is set.
    pub fn new(defaults: &Defaults, keys: &Keys, history: Vec<HistoryItem>) -> (r: AppState)
        ensures
            r.input@.len() == 0,
            r.source@ == defaults.source@,
            r.format@ == defaults.format@,
            r.media_type@ == defaults.media_type@,
            r.full_celebrities == defaults.full_celebrities,
            r.cands@.len() == 0,
            r.filter@.len() == 0,
            r.selected_idx is None,
            r.right@ == if keys.doubaninfo@.len() == 0 && keys.tmdb@.len() == 0 {
                RightView::Error(missing_keys_text())
            } else {
                RightView::Empty
            },
            r.usage_hint@.len() == 0,
            r.status_toast@.len() == 0,
            !r.searching,
            r.history == history,
            r.filter_cat@ == "全部"@,
            r.filter_year@.len() == 0,
    {
        let right = if keys.none_set() {
            RightState::Error(owned("未找到 config.toml，点右上角 ⚙ 设置填入 API key"))
        } else {
            RightState::Empty
        };
        AppState {
            input: String::new(),
            source: defaults.source.clone(),
            format: defaults.format.clone(),
            media_type: defaults.media_type.clone(),
            full_celebrities: defaults.full_celebrities,
            cands: Vec::new(),
            filter: String::new(),
            selected_idx: None,
            right,
            usage_hint: String::new(),
            status_toast: String::new(),
            searching: false,
            history,
            filter_cat: owned("全部"),
            filter_year: String::new(),
        }
    }

    /// Starts a search for the typed input (`fetch`): with nothing typed the
    /// panel says so and nothing is asked; else the panel is cleared, the
    /// results dropped and the search marked running. Returns whether the
    /// requests are to be made.
    pub fn begin_search(&mut self) -> (r: bool)
        ensures
            r == (trimmed(old(self).input@).len() > 0),
            same_bar(*final(self), *old(self)),
            final(self).format == old(self).format,
            same_notes(*final(self), *old(self)),
            r ==> final(self).right@ == RightView::Empty,
            r ==> final(self).searching,
            r ==> final(self).cands@.len() == 0,
            r ==> final(self).selected_idx is None,
            !r ==> final(self).right@ == RightView::Error(empty_input_text()),
            !r ==> same_results(*final(self), *old(self)),
    {
        if trim_str(self.input.as_str()).is_empty() {
            self.right = RightState::Error(owned("请输入片名 / 豆瓣ID / IMDb / TMDB URL"));
            return false;
        }
        self.right = RightState::Empty;
        self.searching = true;
        self.cands.clear();
        self.selected_idx = None;
        true
    }

    /// Starts the detail request of candidate `idx` (`select_candidate`):
    /// the candidate is selected and the panel says it is loading. Returns
    /// the candidate to ask for, or `None` when there is no such candidate.
    pub fn begin_detail(&mut self, idx: usize) -> (r: Option<Candidate>)
        ensures
            idx >= old(self).cands@.len() ==> r is None && *final(self) == *old(self),
            idx < old(self).cands@.len() ==> {
                &&& r is Some
                &&& r->0@ == old(self).cands@[idx as int]@
                &&& final(self).selected_idx == Some(idx)
                &&& final(self).right@ == RightView::Loading(loading_text(old(self).cands@[idx as int]@))
                &&& final(self).cands == old(self).cands
                &&& final(self).searching == old(self).searching
                &&& same_bar(*final(self), *old(self))
                &&& final(self).format == old(self).format
                &&& same_notes(*final(self), *old(self))
            },
    {
        if idx >= self.cands.len() {
            return None;
        }
        let cand = self.cands[idx].copy();
        self.selected_idx = Some(idx);
        let title = display_title(&cand);
        let mut msg = owned("正在取《");
        push_str(&mut msg, title.as_str());
        push_str(&mut msg, "》详情…");
        self.right = RightState::Loading(msg);
        Some(cand)
    }

    /// Takes in the candidates of a search: the search is over, and the panel
    /// suggests adding a year when there are none.
    pub fn receive_candidates(&mut self, cs: Vec<Candidate>)
        ensures
            final(self).cands == cs,
            !final(self).searching,
            final(self).selected_idx == old(self).selected_idx,
            final(self).right@ == if cs@.len() == 0 {
                RightView::Error(no_results_text(trimmed(old(self).input@)))
            } else {
                RightView::Empty
            },
            same_bar(*final(self), *old(self)),
            final(self).format == old(self).format,
            same_notes(*final(self), *old(self)),
    {
        self.cands = cs;
        self.searching = false;
        if self.cands.len() == 0 {
            let q = trim_str(self.input.as_str());
            self.right = RightState::Error(no_results_message(q));
        } else {
            self.right = RightState::Empty;
        }
    }

    /// Takes in a record: the quota hint is updated from its `usage`, the
    /// introduction is put at the head of the history in the current format,
    /// and the panel shows its BBCode and its cleaned JSON text `json`.
    pub fn receive_record(&mut self, d: &JsonValue, json: String, timestamp: String)
        ensures
            final(self).usage_hint@ == match usage_hint_of(d@) {
                Some(h) => h,
                None => old(self).usage_hint@,
            },
            history_views(final(self).history@) == remembered(
                history_views(old(self).history@),
                history_entry(d@, old(self).format@, json@, timestamp@),
            ),
            final(self).right@ == (RightView::Result { bbcode: record_bbcode(d@), json: json@ }),
            same_bar(*final(self), *old(self)),
            final(self).format == old(self).format,
            same_results(*final(self), *old(self)),
            final(self).status_toast == old(self).status_toast,
    {
        match usage_hint(d) {
            Some(h) => {
                self.usage_hint = h;
            },
            None => {},
        }
        let bb = bbcode_of(d);
        let item = history_item(d, self.format.as_str(), bb.as_str(), json.as_str(), timestamp);
        remember(&mut self.history, item);
        self.right = RightState::Result { bbcode: bb, json };
    }

    /// Shows history entry `i` again, in the format it was generated in.
    pub fn show_history(&mut self, i: usize)
        requires
            i < old(self).history@.len(),
        ensures
            final(self).right@ == history_panel(old(self).history@[i as int]@),
            final(self).format@ == old(self).history@[i as int]@.format,
            same_bar(*final(self), *old(self)),
            same_results(*final(self), *old(self)),
            same_notes(*final(self), *old(self)),
    {
        let h = &self.history[i];
        let bb = if str_eq(h.format.as_str(), "bbcode") {
            h.content.clone()
        } else {
            String::new()
        };
        let js = if str_eq(h.format.as_str(), "json") {
            h.content.clone()
        } else {
            String::new()
        };
        let f = h.format.clone();
        self.right = RightState::Result { bbcode: bb, json: js };
        self.format = f;
    }

    /// The text to copy: the shown result in the current format; the status
    /// says it was copied. `None` when no result is shown.
    pub fn copy_text(&mut self) -> (r: Option<String>)
        ensures
            match old(self).right@ {
                RightView::Result { bbcode, json } => {
                    &&& r is Some
                    &&& r->0@ == if old(self).format@ == "bbcode"@ {
                        bbcode
                    } else {
                        json
                    }
                    &&& final(self).status_toast@ == "已复制"@
                },
                _ => r is None && final(self).status_toast == old(self).status_toast,
            },
            final(self).right == old(self).right,
            same_bar(*final(self), *old(self)),
            final(self).format == old(self).format,
            same_results(*final(self), *old(self)),
            final(self).usage_hint == old(self).usage_hint,
            final(self).history == old(self).history,
    {
        let text = match &self.right {
            RightState::Result { bbcode, json } => if str_eq(self.format.as_str(), "bbcode") {
                bbcode.clone()
            } else {
                json.clone()
            },
            _ => return None,
        };
        self.status_toast = owned("已复制");
        Some(text)
    }

    /// Takes the saved defaults into the search bar; the status names the
    /// file they were saved to.
    pub fn settings_saved(&mut self, d: &Defaults, path: &str)
        ensures
            final(self).source@ == d.source@,
            final(self).format@ == d.format@,
            final(self).media_type@ == d.media_type@,
            final(self).full_celebrities == d.full_celebrities,
            final(self).status_toast@ == "已保存到 "@ + path@,
            final(self).input == old(self).input,
            final(self).filter == old(self).filter,
            final(self).filter_cat == old(self).filter_cat,
            final(self).filter_year == old(self).filter_year,
            same_results(*final(self), *old(self)),
            final(self).right == old(self).right,
            final(self).usage_hint == old(self).usage_hint,
            final(self).history == old(self).history,
    {
        self.source = d.source.clone();
        self.format = d.format.clone();
        self.media_type = d.media_type.clone();
        self.full_celebrities = d.full_celebrities;
        self.status_toast = concat2("已保存到 ", path);
    }

    /// The indices of the candidates shown on the poster wall: those that
    /// pass the lower-cased keyword, the category chip and the year.
    pub fn filtered(&self) -> (r: Vec<usize>)
        ensures
            r@.map_values(|i: usize| i as int) == kept_indices(
                cand_views(self.cands@),
                lowercase(self.filter@),
                self.filter_cat@,
                self.filter_year@,
            ),
    {
        let f = to_lowercase(self.filter.as_str());
        let ghost cs = cand_views(self.cands@);
        let mut out: Vec<usize> = Vec::new();
        let mut i: usize = 0;
        while i < self.cands.len()
            invariant
                i <= self.cands@.len(),
                cs == cand_views(self.cands@),
                f@ == lowercase(self.filter@),
                out@.map_values(|k: usize| k as int) == kept_indices(
                    cs.take(i as int),
                    f@,
                    self.filter_cat@,
                    self.filter_year@,
                ),
            decreases self.cands@.len() - i,
        {
            assert(cs.take(i + 1).drop_last() =~= cs.take(i as int));
            assert(cs.take(i + 1).last() == self.cands@[i as int]@);
            let ghost before = out@;
            if passes_filters_exec(&self.cands[i], f.as_str(), self.filter_cat.as_str(), self.filter_year.as_str()) {
                out.push(i);
                assert(out@.map_values(|k: usize| k as int) =~= before.map_values(|k: usize| k as int).push(
                    i as int,
                ));
            }
            i = i + 1;
        }
        assert(cs.take(self.cands@.len() as int) =~= cs);
        out
    }

    /// The choices of the year filter: the distinct non-empty years of the
    /// candidates, in ascending order.
    pub fn year_options(&self) -> (r: Vec<String>)
        ensures
            strictly_sorted(crate::text::views(r@)),
            forall|y: Seq<char>|
                crate::text::views(r@).contains(y) <==> listed_year(
                    cand_views(self.cands@),
                    self.cands@.len() as int,
                    y,
                ),
    {
        let ghost cs = cand_views(self.cands@);
        let mut out: Vec<String> = Vec::new();
        let mut i: usize = 0;
        while i < self.cands.len()
            invariant
                i <= self.cands@.len(),
                cs == cand_views(self.cands@),
                strictly_sorted(crate::text::views(out@)),
                forall|y: Seq<char>|
                    crate::text::views(out@).contains(y) <==> listed_year(cs, i as int, y),
            decreases self.cands@.len() - i,
        {
            let y = self.cands[i].year.as_str();
            let ghost yv = y@;
            assert(cs[i as int].year == yv);
            if !y.is_empty() {
                let ghost ov = crate::text::views(out@);
                let mut p: usize = 0;
                while p < out.len() && crate::text::str_less(out[p].as_str(), y)
                    invariant
                        p <= out@.len(),
                        ov == crate::text::views(out@),
                        yv == y@,
                        forall|k: int| 0 <= k < p ==> crate::text::text_less(#[trigger] ov[k], yv),
                    decreases out@.len() - p,
                {
                    assert(ov[p as int] == out@[p as int]@);
                    p = p + 1;
                }
                let present = p < out.len() && str_eq(out[p].as_str(), y);
                if !present {
                    proof {
                        if p < ov.len() {
                            crate::text::lemma_text_less_total(ov[p as int], yv);
                        }
                        assert forall|k: int| 0 <= k < ov.len() implies ov[k] != yv by {
                            if k < p {
                                crate::text::lemma_text_less_irreflexive(yv);
                            } else if k > p {
                                crate::text::lemma_text_less_transitive(yv, ov[p as int], ov[k]);
                                crate::text::lemma_text_less_irreflexive(yv);
                            }
                        }
                    }
                    out.insert(p, self.cands[i].year.clone());
                    let ghost nv = crate::text::views(out@);
                    assert(nv =~= ov.insert(p as int, yv));
                    assert forall|a: int, b: int| 0 <= a < b < nv.len() implies crate::text::text_less(
                        #[trigger] nv[a],
                        #[trigger] nv[b],
                    ) by {
                        if b < p {
                        } else if b == p {
                        } else if a < p {
                            assert(nv[b] == ov[b - 1]);
                        } else if a == p {
                            if b - 1 > p {
                                crate::text::lemma_text_less_transitive(yv, ov[p as int], ov[b - 1]);
                            }
                        } else {
                            assert(nv[a] == ov[a - 1] && nv[b] == ov[b - 1]);
                        }
                    }
                    assert forall|z: Seq<char>| nv.contains(z) <==> listed_year(cs, i + 1, z) by {
                        if nv.contains(z) {
                            let a = choose|a: int| 0 <= a < nv.len() && nv[a] == z;
                            if a == p {
                                assert(cs[i as int].year == z);
                            } else {
                                let b = if a < p { a } else { a - 1 };
                                assert(ov[b] == z);
                                assert(ov.contains(z));
                                assert(listed_year(cs, i as int, z));
                                let k = choose|k: int| 0 <= k < i && (#[trigger] cs[k]).year == z;
                                assert(cs[k].year == z);
                            }
                        }
                        if listed_year(cs, i + 1, z) {
                            let k = choose|k: int| 0 <= k < i + 1 && (#[trigger] cs[k]).year == z;
                            if k == i {
                                assert(nv[p as int] == z);
                            } else {
                                assert(cs[k].year == z);
                                assert(listed_year(cs, i as int, z));
                                assert(ov.contains(z));
                                let a = choose|a: int| 0 <= a < ov.len() && ov[a] == z;
                                if a < p {
                                    assert(nv[a] == z);
                                } else {
                                    assert(nv[a + 1] == z);
                                }
                            }
                        }
                    }
                } else {
                    proof {
                        assert(ov[p as int] == yv);
                        assert forall|z: Seq<char>| ov.contains(z) <==> listed_year(cs, i + 1, z) by {
                            if listed_year(cs, i + 1, z) {
                                let k = choose|k: int| 0 <= k < i + 1 && (#[trigger] cs[k]).year == z;
                                if k < i {
                                    assert(listed_year(cs, i as int, z));
                                }
                            }
                            if ov.contains(z) {
                                assert(listed_year(cs, i as int, z));
                                let k = choose|k: int| 0 <= k < i && (#[trigger] cs[k]).year == z;
                                assert(cs[k].year == z);
                            }
                        }
                    }
                }
            } else {
                proof {
                    let ov = crate::text::views(out@);
                    assert forall|z: Seq<char>| ov.contains(z) <==> listed_year(cs, i + 1, z) by {
                        if listed_year(cs, i + 1, z) {
                            let k = choose|k: int| 0 <= k < i + 1 && (#[trigger] cs[k]).year == z;
                            if k < i {
                                assert(listed_year(cs, i as int, z));
                            }
                        }
                        if ov.contains(z) {
                            assert(listed_year(cs, i as int, z));
                            let k = choose|k: int| 0 <= k < i && (#[trigger] cs[k]).year == z;
                            assert(cs[k].year == z);
                        }
                    }
                }
            }
            i = i + 1;
        }
        out
    }

    /// The status bar: `源=… 格式=… 类型=…`.
    pub fn status_line(&self) -> (r: String)
        ensures
            r@ == "源="@ + self.source@ + " 格式="@ + self.format@ + " 类型="@ + self.media_type@,
    {
        let mut s = owned("源=");
        push_str(&mut s, self.source.as_str());
        push_str(&mut s, " 格式=");
        push_str(&mut s, self.format.as_str());
        push_str(&mut s, " 类型=");
        push_str(&mut s, self.media_type.as_str());
        s
    }
}

} // verus!
