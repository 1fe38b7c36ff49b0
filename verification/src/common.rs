//! Shared data tools: region names, name joining, alias and release-date
//! extraction, the search-candidate summary, request URLs and the retry policy
//! of a GET request.
use vstd::prelude::*;
use crate::json::{
    JsonData, JsonValue, field, is_object, list_field, text_field, text_of, text_or_empty,
};
use crate::text::{
    chars_of, concat2, concat3, join, join_strings, owned, push_str, str_eq,
    string_from_range, trim_str, trimmed, utf8_len, utf8_prefix, views,
};

verus! {

/// Base address of TMDB images.
pub const IMG: &'static str = "https://image.tmdb.org/t/p/original";

/// Language code used for TMDB requests.
pub const ZH: &'static str = "zh-CN";

// ───────── region names ─────────

/// The Chinese name of a region code, or the code itself.
pub open spec fn region_name(code: Seq<char>) -> Seq<char> {
    if code == "US"@ { "美国"@ }
    else if code == "CN"@ { "中国大陆"@ }
    else if code == "HK"@ { "中国香港"@ }
    else if code == "TW"@ { "中国台湾"@ }
    else if code == "JP"@ { "日本"@ }
    else if code == "KR"@ { "韩国"@ }
    else if code == "GB"@ { "英国"@ }
    else if code == "FR"@ { "法国"@ }
    else if code == "DE"@ { "德国"@ }
    else if code == "CA"@ { "加拿大"@ }
    else if code == "AU"@ { "澳大利亚"@ }
    else if code == "IT"@ { "意大利"@ }
    else if code == "ES"@ { "西班牙"@ }
    else if code == "IN"@ { "印度"@ }
    else if code == "RU"@ { "俄罗斯"@ }
    else if code == "TH"@ { "泰国"@ }
    else if code == "SG"@ { "新加坡"@ }
    else if code == "MX"@ { "墨西哥"@ }
    else if code == "BR"@ { "巴西"@ }
    else if code == "NL"@ { "荷兰"@ }
    else if code == "SE"@ { "瑞典"@ }
    else if code == "IE"@ { "爱尔兰"@ }
    else if code == "NZ"@ { "新西兰"@ }
    else if code == "NO"@ { "挪威"@ }
    else if code == "DK"@ { "丹麦"@ }
    else if code == "FI"@ { "芬兰"@ }
    else if code == "PL"@ { "波兰"@ }
    else if code == "TR"@ { "土耳其"@ }
    else if code == "ZA"@ { "南非"@ }
    else { code }
}

/// Main region codes → Chinese name; any other code is returned as it is.
pub fn country_cn(code: &str) -> (r: &str)
    ensures
        r@ == region_name(code@),
{
    if str_eq(code, "US") { "美国" }
    else if str_eq(code, "CN") { "中国大陆" }
    else if str_eq(code, "HK") { "中国香港" }
    else if str_eq(code, "TW") { "中国台湾" }
    else if str_eq(code, "JP") { "日本" }
    else if str_eq(code, "KR") { "韩国" }
    else if str_eq(code, "GB") { "英国" }
    else if str_eq(code, "FR") { "法国" }
    else if str_eq(code, "DE") { "德国" }
    else if str_eq(code, "CA") { "加拿大" }
    else if str_eq(code, "AU") { "澳大利亚" }
    else if str_eq(code, "IT") { "意大利" }
    else if str_eq(code, "ES") { "西班牙" }
    else if str_eq(code, "IN") { "印度" }
    else if str_eq(code, "RU") { "俄罗斯" }
    else if str_eq(code, "TH") { "泰国" }
    else if str_eq(code, "SG") { "新加坡" }
    else if str_eq(code, "MX") { "墨西哥" }
    else if str_eq(code, "BR") { "巴西" }
    else if str_eq(code, "NL") { "荷兰" }
    else if str_eq(code, "SE") { "瑞典" }
    else if str_eq(code, "IE") { "爱尔兰" }
    else if str_eq(code, "NZ") { "新西兰" }
    else if str_eq(code, "NO") { "挪威" }
    else if str_eq(code, "DK") { "丹麦" }
    else if str_eq(code, "FI") { "芬兰" }
    else if str_eq(code, "PL") { "波兰" }
    else if str_eq(code, "TR") { "土耳其" }
    else if str_eq(code, "ZA") { "南非" }
    else { code }
}

/// The Chinese name of an English country name as TMDB writes it, or the
/// name itself.
pub open spec fn country_name_cn(name: Seq<char>) -> Seq<char> {
    if name == "United States of America"@ || name == "United States"@ { "美国"@ }
    else if name == "China"@ { "中国大陆"@ }
    else if name == "Hong Kong"@ { "中国香港"@ }
    else if name == "Taiwan"@ { "中国台湾"@ }
    else if name == "Japan"@ { "日本"@ }
    else if name == "South Korea"@ || name == "Korea"@ { "韩国"@ }
    else if name == "United Kingdom"@ { "英国"@ }
    else if name == "France"@ { "法国"@ }
    else if name == "Germany"@ { "德国"@ }
    else if name == "Canada"@ { "加拿大"@ }
    else if name == "Australia"@ { "澳大利亚"@ }
    else if name == "Italy"@ { "意大利"@ }
    else if name == "Spain"@ { "西班牙"@ }
    else if name == "India"@ { "印度"@ }
    else if name == "Russia"@ { "俄罗斯"@ }
    else { name }
}

/// TMDB `production_countries.name` (English) → Chinese.
pub fn country_en_to_cn(name: &str) -> (r: String)
    ensures
        r@ == country_name_cn(name@),
{
    let mapped = if str_eq(name, "United States of America") || str_eq(name, "United States") { "美国" }
    else if str_eq(name, "China") { "中国大陆" }
    else if str_eq(name, "Hong Kong") { "中国香港" }
    else if str_eq(name, "Taiwan") { "中国台湾" }
    else if str_eq(name, "Japan") { "日本" }
    else if str_eq(name, "South Korea") || str_eq(name, "Korea") { "韩国" }
    else if str_eq(name, "United Kingdom") { "英国" }
    else if str_eq(name, "France") { "法国" }
    else if str_eq(name, "Germany") { "德国" }
    else if str_eq(name, "Canada") { "加拿大" }
    else if str_eq(name, "Australia") { "澳大利亚" }
    else if str_eq(name, "Italy") { "意大利" }
    else if str_eq(name, "Spain") { "西班牙" }
    else if str_eq(name, "India") { "印度" }
    else if str_eq(name, "Russia") { "俄罗斯" }
    else { name };
    owned(mapped)
}

// ───────── names ─────────

/// A name and an original name, trimmed; the original name is added after a
/// space unless it is empty or the same as the name.
pub open spec fn joined_name(name: Seq<char>, original: Seq<char>) -> Seq<char> {
    let n = trimmed(name);
    let o = trimmed(original);
    if o.len() == 0 || o == n {
        n
    } else {
        n + " "@ + o
    }
}

/// A name joined with itself is written once.
pub proof fn lemma_join_name_same(name: Seq<char>)
    ensures
        joined_name(name, name) == trimmed(name),
{
}

/// Joins `name` and `original_name`, keeping only one when they are the same.
pub fn join_name(name: &str, original: &str) -> (r: String)
    ensures
        r@ == joined_name(name@, original@),
{
    let name = trim_str(name);
    let original = trim_str(original);
    if original.is_empty() || str_eq(original, name) {
        return owned(name);
    }
    concat3(name, " ", original)
}

// ───────── aliases ─────────

/// The title an alias entry carries: the `title` string of an object, or the
/// string itself (empty for anything else).
pub open spec fn aka_title(t: JsonData) -> Seq<char> {
    if is_object(t) {
        text_or_empty(t, "title"@)
    } else {
        match text_of(t) {
            Some(s) => s,
            None => Seq::empty(),
        }
    }
}

/// The aliases kept after scanning `titles`, and whether the scan stopped
/// because the limit was reached.
pub open spec fn aka_scan(titles: Seq<JsonData>, limit: nat) -> (Seq<Seq<char>>, bool)
    decreases titles.len(),
{
    if titles.len() == 0 {
        (Seq::empty(), false)
    } else {
        let (acc, done) = aka_scan(titles.drop_last(), limit);
        if done {
            (acc, true)
        } else {
            let t = aka_title(titles.last());
            if t.len() > 0 && !acc.contains(t) {
                (acc.push(t), acc.len() + 1 >= limit)
            } else {
                (acc, false)
            }
        }
    }
}

/// The de-duplicated non-empty alias titles in order, at most `limit` of
/// them: the scan stops once `limit` are kept.
pub open spec fn picked_akas(titles: Seq<JsonData>, limit: nat) -> Seq<Seq<char>> {
    if limit == 0 {
        Seq::empty()
    } else {
        aka_scan(titles, limit).0
    }
}

pub proof fn lemma_aka_scan_props(titles: Seq<JsonData>, limit: nat)
    ensures
        ({
            let (acc, done) = aka_scan(titles, limit);
            &&& forall|i: int, j: int| 0 <= i < j < acc.len() ==> acc[i] != acc[j]
            &&& forall|i: int| 0 <= i < acc.len() ==> acc[i].len() > 0
            &&& limit >= 1 ==> acc.len() <= limit
            &&& !done ==> acc.len() < limit || acc.len() == 0
        }),
    decreases titles.len(),
{
    if titles.len() > 0 {
        lemma_aka_scan_props(titles.drop_last(), limit);
    }
}

/// De-duplicates and truncates a list of aliases. An element is an object
/// with a `title` or a string.
pub fn pick_aka(titles: &[JsonValue], limit: usize) -> (r: Vec<String>)
    ensures
        views(r@) == picked_akas(titles@.map_values(|t: JsonValue| t@), limit as nat),
        forall|i: int, j: int| 0 <= i < j < r@.len() ==> views(r@)[i] != views(r@)[j],
        forall|i: int| 0 <= i < r@.len() ==> views(r@)[i].len() > 0,
        r@.len() <= limit,
{
    let ghost all = titles@.map_values(|t: JsonValue| t@);
    let mut aka: Vec<String> = Vec::new();
    if limit == 0 {
        assert(views(aka@) =~= Seq::<Seq<char>>::empty());
        return aka;
    }
    let mut i: usize = 0;
    while i < titles.len()
        invariant
            i <= titles@.len(),
            all == titles@.map_values(|t: JsonValue| t@),
            limit >= 1,
            aka_scan(all.take(i as int), limit as nat) == (views(aka@), false),
        decreases titles@.len() - i,
    {
        proof {
            assert(all.take(i + 1).drop_last() =~= all.take(i as int));
        }
        let t = &titles[i];
        let title: String = if t.is_object() {
            t.str_or_empty("title")
        } else {
            match t.as_str() {
                Some(s) => owned(s),
                None => String::new(),
            }
        };
        let ghost tv = title@;
        assert(tv == aka_title(all[i as int]));
        if !title.as_str().is_empty() {
            // membership in what was kept so far
            let mut seen = false;
            let mut j: usize = 0;
            while j < aka.len()
                invariant
                    j <= aka@.len(),
                    title@ == tv,
                    seen == exists|k: int| 0 <= k < j && aka@[k]@ == tv,
                decreases aka@.len() - j,
            {
                if str_eq(aka[j].as_str(), title.as_str()) {
                    seen = true;
                }
                j = j + 1;
            }
            proof {
                if seen {
                    let k = choose|k: int| 0 <= k < aka@.len() && aka@[k]@ == tv;
                    assert(views(aka@)[k] == tv);
                } else {
                    assert(!views(aka@).contains(tv));
                }
            }
            if !seen {
                let ghost before = aka@;
                aka.push(title);
                assert(views(aka@) =~= views(before).push(tv));
                if aka.len() >= limit {
                    proof {
                        lemma_aka_scan_props(all.take(i + 1), limit as nat);
                        assert(all.take(titles@.len() as int) =~= all);
                        lemma_aka_scan_done(all, limit as nat, i + 1);
                    }
                    return aka;
                }
            }
        } else {
            proof {
                assert(title@.len() == 0);
            }
        }
        i = i + 1;
    }
    proof {
        assert(all.take(titles@.len() as int) =~= all);
        lemma_aka_scan_props(all, limit as nat);
    }
    aka
}

/// Once the scan has stopped, the later entries change nothing.
proof fn lemma_aka_scan_done(titles: Seq<JsonData>, limit: nat, k: int)
    requires
        0 <= k <= titles.len(),
        aka_scan(titles.take(k), limit).1,
    ensures
        aka_scan(titles, limit) == aka_scan(titles.take(k), limit),
    decreases titles.len() - k,
{
    if k < titles.len() {
        assert(titles.take(k + 1).drop_last() =~= titles.take(k));
        lemma_aka_scan_done(titles, limit, k + 1);
    } else {
        assert(titles.take(k) =~= titles);
    }
}

// ───────── UTF-8 cuts ─────────

/// `&s[..s.len().min(n)]`: the text cut to at most `n` bytes; `None` where
/// the cut falls inside a character (the slicing would panic).
pub open spec fn byte_cut(s: Seq<char>, n: nat) -> Option<Seq<char>> {
    if utf8_len(s) <= n {
        Some(s)
    } else {
        utf8_prefix(s, n)
    }
}

/// Whether the text is at most `n` bytes long in UTF-8.
pub fn utf8_len_at_most(s: &Vec<char>, n: usize) -> (r: bool)
    ensures
        r == (utf8_len(s@) <= n),
{
    let mut k: usize = 0;
    let mut acc: usize = 0;
    assert(s@.take(0) =~= Seq::<char>::empty());
    while k < s.len()
        invariant
            k <= s@.len(),
            acc == utf8_len(s@.take(k as int)),
            acc <= n,
        decreases s@.len() - k,
    {
        proof {
            crate::text::lemma_utf8_len_take_step(s@, k as int);
        }
        let w = crate::text::char_utf8_width(s[k]);
        if w > n - acc {
            proof {
                crate::text::lemma_utf8_len_take_mono(s@, k + 1, s@.len() as int);
                assert(s@.take(s@.len() as int) =~= s@);
            }
            return false;
        }
        acc = acc + w;
        k = k + 1;
    }
    assert(s@.take(s@.len() as int) =~= s@);
    true
}

/// The number of characters of `&s[..s.len().min(n)]`, or `None` where that
/// slicing would panic.
pub fn byte_cut_exec(s: &Vec<char>, n: usize) -> (r: Option<usize>)
    ensures
        match r {
            Some(k) => k <= s@.len() && byte_cut(s@, n as nat) == Some(s@.take(k as int)),
            None => byte_cut(s@, n as nat) is None,
        },
{
    if utf8_len_at_most(s, n) {
        assert(s@.take(s@.len() as int) =~= s@);
        Some(s.len())
    } else {
        crate::text::utf8_prefix_exec(s, n)
    }
}

// ───────── release dates ─────────

/// The release date of an entry cut to ten bytes (`None` when the cut would
/// panic).
pub open spec fn date_of(d: JsonData) -> Option<Seq<char>> {
    byte_cut(text_or_empty(d, "release_date"@), 10)
}

/// Scanning the dates keeps the first non-empty one and replaces it with any
/// later one that compares less.
pub open spec fn earliest_of(dates: Seq<JsonData>, cur: Option<Seq<char>>) -> Option<Seq<char>>
    decreases dates.len(),
{
    if dates.len() == 0 {
        cur
    } else {
        let c = earliest_of(dates.drop_last(), cur);
        match date_of(dates.last()) {
            Some(s) => if s.len() == 0 {
                c
            } else {
                match c {
                    None => Some(s),
                    Some(e) => if crate::text::text_less(s, e) {
                        Some(s)
                    } else {
                        Some(e)
                    },
                }
            },
            None => c,
        }
    }
}

/// The earliest release date recorded for region `tag`.
pub open spec fn earliest_for(results: Seq<JsonData>, tag: Seq<char>) -> Option<Seq<char>>
    decreases results.len(),
{
    if results.len() == 0 {
        None
    } else {
        let prev = earliest_for(results.drop_last(), tag);
        let r = results.last();
        if text_field(r, "iso_3166_1"@) == Some(tag) {
            match list_field(r, "release_dates"@) {
                Some(ds) => earliest_of(ds, prev),
                None => prev,
            }
        } else {
            prev
        }
    }
}

/// The regions whose release dates are shown, in display order.
pub open spec fn priority_regions() -> Seq<Seq<char>> {
    seq!["CN"@, "US"@, "HK"@, "TW"@, "JP"@]
}

/// Every release date that the scan would cut can be cut without panicking.
pub open spec fn dates_cuttable(results: Seq<JsonData>) -> bool {
    forall|i: int, j: int|
        #![trigger results[i], list_field(results[i], "release_dates"@)->0[j]]
        0 <= i < results.len() && priority_regions().contains(
            text_or_empty(results[i], "iso_3166_1"@),
        ) && text_field(results[i], "iso_3166_1"@) is Some && list_field(
            results[i],
            "release_dates"@,
        ) is Some && 0 <= j < list_field(results[i], "release_dates"@)->0.len() ==> date_of(
            list_field(results[i], "release_dates"@)->0[j],
        ) is Some
}

/// The shown entry for a region: `date(region name)`, when it has a date.
pub open spec fn release_entry(results: Seq<JsonData>, tag: Seq<char>) -> Seq<Seq<char>> {
    match earliest_for(results, tag) {
        Some(s) => seq![s + "("@ + region_name(tag) + ")"@],
        None => Seq::empty(),
    }
}

/// `date(region) / date(region) / ...` over the priority regions that have a
/// release date; empty when the value is not a list.
pub open spec fn release_dates_text(rd: JsonData) -> Seq<char> {
    match rd {
        JsonData::List(results) => join(
            release_entry(results, "CN"@) + release_entry(results, "US"@) + release_entry(
                results,
                "HK"@,
            ) + release_entry(results, "TW"@) + release_entry(results, "JP"@),
            " / "@,
        ),
        _ => Seq::empty(),
    }
}

proof fn lemma_regions_distinct()
    ensures
        "CN"@ != "US"@ && "CN"@ != "HK"@ && "CN"@ != "TW"@ && "CN"@ != "JP"@,
        "US"@ != "HK"@ && "US"@ != "TW"@ && "US"@ != "JP"@,
        "HK"@ != "TW"@ && "HK"@ != "JP"@ && "TW"@ != "JP"@,
{
    reveal_strlit("CN");
    reveal_strlit("US");
    reveal_strlit("HK");
    reveal_strlit("TW");
    reveal_strlit("JP");
    assert("CN"@[0] == 'C' && "US"@[0] == 'U' && "HK"@[0] == 'H' && "TW"@[0] == 'T' && "JP"@[0] == 'J');
}

/// Folds one list of dates into the running earliest date.
fn earliest_step(dates: &Vec<JsonValue>, cur: Option<String>) -> (r: Option<String>)
    requires
        forall|j: int| 0 <= j < dates@.len() ==> date_of(#[trigger] dates@[j]@) is Some,
    ensures
        opt_view(r) == earliest_of(dates@.map_values(|x: JsonValue| x@), opt_view(cur)),
{
    let ghost all = dates@.map_values(|x: JsonValue| x@);
    let ghost c0 = opt_view(cur);
    let mut cur = cur;
    let mut i: usize = 0;
    while i < dates.len()
        invariant
            i <= dates@.len(),
            all == dates@.map_values(|x: JsonValue| x@),
            forall|j: int| 0 <= j < dates@.len() ==> date_of(#[trigger] dates@[j]@) is Some,
            opt_view(cur) == earliest_of(all.take(i as int), c0),
        decreases dates@.len() - i,
    {
        proof {
            assert(all.take(i + 1).drop_last() =~= all.take(i as int));
            assert(all.take(i + 1).last() == dates@[i as int]@);
        }
        let s = dates[i].str_or_empty("release_date");
        let cs = chars_of(s.as_str());
        let k = match byte_cut_exec(&cs, 10) {
            Some(k) => k,
            None => {
                assert(date_of(dates@[i as int]@) is Some);
                0
            },
        };
        let cut = string_from_range(&cs, 0, k);
        assert(cs@.subrange(0, k as int) =~= cs@.take(k as int));
        if !cut.as_str().is_empty() {
            cur = match cur {
                None => Some(cut),
                Some(e) => if crate::text::str_less(cut.as_str(), e.as_str()) {
                    Some(cut)
                } else {
                    Some(e)
                },
            };
        }
        i = i + 1;
    }
    assert(all.take(dates@.len() as int) =~= all);
    cur
}

/// The view of an optional `String`.
pub open spec fn opt_view(o: Option<String>) -> Option<Seq<char>> {
    match o {
        Some(s) => Some(s@),
        None => None,
    }
}

/// Appends `date(region name)` to the list when the region has a date.
fn push_entry(out: &mut Vec<String>, date: &Option<String>, tag: &str)
    ensures
        views(final(out)@) == views(old(out)@) + match opt_view(*date) {
            Some(s) => seq![s + "("@ + region_name(tag@) + ")"@],
            None => Seq::<Seq<char>>::empty(),
        },
{
    match date {
        Some(s) => {
            let ghost before = out@;
            let e = concat3(s.as_str(), "(", country_cn(tag));
            let mut e = e;
            push_str(&mut e, ")");
            out.push(e);
            assert(views(out@) =~= views(before) + seq![s@ + "("@ + region_name(tag@) + ")"@]);
        },
        None => {
            assert(views(out@) =~= views(out@) + Seq::<Seq<char>>::empty());
        },
    }
}

/// movie `release_dates.results` → the first release date in each main
/// region, as `date(region) / ...` in region order.
pub fn parse_release_dates(rd: &JsonValue) -> (r: String)
    requires
        rd@ matches JsonData::List(results) ==> dates_cuttable(results),
    ensures
        r@ == release_dates_text(rd@),
{
    let results = match rd.as_array() {
        Some(a) => a,
        None => {
            return String::new();
        },
    };
    let ghost all = results@.map_values(|x: JsonValue| x@);
    let mut cn: Option<String> = None;
    let mut us: Option<String> = None;
    let mut hk: Option<String> = None;
    let mut tw: Option<String> = None;
    let mut jp: Option<String> = None;
    let mut i: usize = 0;
    while i < results.len()
        invariant
            i <= results@.len(),
            all == results@.map_values(|x: JsonValue| x@),
            dates_cuttable(all),
            opt_view(cn) == earliest_for(all.take(i as int), "CN"@),
            opt_view(us) == earliest_for(all.take(i as int), "US"@),
            opt_view(hk) == earliest_for(all.take(i as int), "HK"@),
            opt_view(tw) == earliest_for(all.take(i as int), "TW"@),
            opt_view(jp) == earliest_for(all.take(i as int), "JP"@),
        decreases results@.len() - i,
    {
        proof {
            assert(all.take(i + 1).drop_last() =~= all.take(i as int));
            assert(all.take(i + 1).last() == all[i as int]);
            lemma_regions_distinct();
        }
        let r = &results[i];
        match r.get_str("iso_3166_1") {
            Some(tag) => {
                let which: usize = if str_eq(tag, "CN") { 0 }
                    else if str_eq(tag, "US") { 1 }
                    else if str_eq(tag, "HK") { 2 }
                    else if str_eq(tag, "TW") { 3 }
                    else if str_eq(tag, "JP") { 4 }
                    else { 5 };
                if which < 5 {
                    match r.get_array("release_dates") {
                        Some(dates) => {
                            proof {
                                assert(priority_regions()[which as int] == tag@);
                                assert(priority_regions().contains(text_or_empty(all[i as int], "iso_3166_1"@)));
                                assert forall|j: int| 0 <= j < dates@.len() implies date_of(#[trigger] dates@[j]@) is Some by {
                                    assert(list_field(all[i as int], "release_dates"@)->0[j] == dates@[j]@);
                                }
                            }
                            if which == 0 {
                                cn = earliest_step(dates, cn);
                            } else if which == 1 {
                                us = earliest_step(dates, us);
                            } else if which == 2 {
                                hk = earliest_step(dates, hk);
                            } else if which == 3 {
                                tw = earliest_step(dates, tw);
                            } else {
                                jp = earliest_step(dates, jp);
                            }
                        },
                        None => {},
                    }
                }
            },
            None => {},
        }
        i = i + 1;
    }
    assert(all.take(results@.len() as int) =~= all);
    let mut parts: Vec<String> = Vec::new();
    push_entry(&mut parts, &cn, "CN");
    push_entry(&mut parts, &us, "US");
    push_entry(&mut parts, &hk, "HK");
    push_entry(&mut parts, &tw, "TW");
    push_entry(&mut parts, &jp, "JP");
    assert(views(parts@) =~= release_entry(all, "CN"@) + release_entry(all, "US"@) + release_entry(
        all,
        "HK"@,
    ) + release_entry(all, "TW"@) + release_entry(all, "JP"@));
    join_strings(&parts, " / ")
}

/// Whether `tag` is one of the regions whose dates are shown.
fn is_priority_region(tag: &str) -> (r: bool)
    ensures
        r == priority_regions().contains(tag@),
{
    let r = str_eq(tag, "CN") || str_eq(tag, "US") || str_eq(tag, "HK") || str_eq(tag, "TW") || str_eq(tag, "JP");
    proof {
        let p = priority_regions();
        if r {
            if tag@ == "CN"@ {
                assert(p[0] == tag@);
            } else if tag@ == "US"@ {
                assert(p[1] == tag@);
            } else if tag@ == "HK"@ {
                assert(p[2] == tag@);
            } else if tag@ == "TW"@ {
                assert(p[3] == tag@);
            } else {
                assert(p[4] == tag@);
            }
        } else {
            assert forall|k: int| 0 <= k < p.len() implies p[k] != tag@ by {
                assert(p[0] == "CN"@ && p[1] == "US"@ && p[2] == "HK"@ && p[3] == "TW"@ && p[4] == "JP"@);
            }
        }
    }
    r
}

/// Whether each of the dates can be cut to ten bytes.
fn dates_fit(ds: &Vec<JsonValue>) -> (r: bool)
    ensures
        r == forall|j: int| 0 <= j < ds@.len() ==> date_of(#[trigger] ds@[j]@) is Some,
{
    let mut j: usize = 0;
    while j < ds.len()
        invariant
            j <= ds@.len(),
            forall|k: int| 0 <= k < j ==> date_of(#[trigger] ds@[k]@) is Some,
        decreases ds@.len() - j,
    {
        let s = ds[j].str_or_empty("release_date");
        let cs = crate::text::chars_of(s.as_str());
        if byte_cut_exec(&cs, 10).is_none() {
            assert(date_of(ds@[j as int]@) is None);
            return false;
        }
        j = j + 1;
    }
    true
}

/// The release dates of one entry can be cut where the scan cuts them.
pub open spec fn entry_cuttable(r: JsonData) -> bool {
    (priority_regions().contains(text_or_empty(r, "iso_3166_1"@)) && text_field(r, "iso_3166_1"@) is Some
        && list_field(r, "release_dates"@) is Some) ==> forall|j: int|
        0 <= j < list_field(r, "release_dates"@)->0.len() ==> date_of(
            #[trigger] list_field(r, "release_dates"@)->0[j],
        ) is Some
}

/// Whether `parse_release_dates` can read the reply without a slicing panic
/// (every date it cuts has a character boundary at ten bytes, or is
/// shorter).
pub fn release_dates_fit(rd: &JsonValue) -> (r: bool)
    ensures
        r == (rd@ matches JsonData::List(results) ==> dates_cuttable(results)),
{
    let results = match rd.as_array() {
        Some(a) => a,
        None => {
            return true;
        },
    };
    let ghost all = results@.map_values(|x: JsonValue| x@);
    assert(rd@ == JsonData::List(all));
    let mut i: usize = 0;
    while i < results.len()
        invariant
            i <= results@.len(),
            all == results@.map_values(|x: JsonValue| x@),
            rd@ == JsonData::List(all),
            forall|k: int| 0 <= k < i ==> entry_cuttable(#[trigger] all[k]),
        decreases results@.len() - i,
    {
        let r = &results[i];
        assert(all[i as int] == r@);
        let ok = match r.get_str("iso_3166_1") {
            Some(tag) => if is_priority_region(tag) {
                match r.get_array("release_dates") {
                    Some(ds) => {
                        let f = dates_fit(ds);
                        proof {
                            let l = list_field(r@, "release_dates"@)->0;
                            assert(l == ds@.map_values(|x: JsonValue| x@));
                            assert(l.len() == ds@.len());
                            assert forall|j: int| 0 <= j < l.len() implies l[j] == ds@[j]@ by {}
                            if !f {
                                let j = choose|j: int| 0 <= j < ds@.len() && date_of(#[trigger] ds@[j]@) is None;
                                assert(l[j] == ds@[j]@);
                                assert(!dates_cuttable(all)) by {
                                    assert(all[i as int] == r@);
                                    assert(list_field(all[i as int], "release_dates"@)->0[j] == ds@[j]@);
                                }
                            }
                        }
                        f
                    },
                    None => true,
                }
            } else {
                true
            },
            None => true,
        };
        if !ok {
            return false;
        }
        i = i + 1;
    }
    assert forall|a: int, j: int|
        #![trigger all[a], list_field(all[a], "release_dates"@)->0[j]]
        0 <= a < all.len() && priority_regions().contains(text_or_empty(all[a], "iso_3166_1"@)) && text_field(
            all[a],
            "iso_3166_1"@,
        ) is Some && list_field(all[a], "release_dates"@) is Some && 0 <= j < list_field(
            all[a],
            "release_dates"@,
        )->0.len() implies date_of(list_field(all[a], "release_dates"@)->0[j]) is Some by {
        assert(entry_cuttable(all[a]));
    }
    true
}

// ───────── search candidates ─────────

/// A search-result summary shared by both sources, shown on the poster wall.
#[derive(Clone, Debug, PartialEq, Eq)]
pub struct Candidate {
    /// "douban" / "tmdb"
    pub source: String,
    pub id: String,
    /// "movie" / "tv"
    pub media_type: String,
    pub title: String,
    pub chinese_title: String,
    pub year: String,
    pub rating: String,
    pub region: String,
    pub genre: Vec<String>,
    pub poster: String,
}

/// The mathematical view of a candidate.
pub struct CandidateData {
    pub source: Seq<char>,
    pub id: Seq<char>,
    pub media_type: Seq<char>,
    pub title: Seq<char>,
    pub chinese_title: Seq<char>,
    pub year: Seq<char>,
    pub rating: Seq<char>,
    pub region: Seq<char>,
    pub genre: Seq<Seq<char>>,
    pub poster: Seq<char>,
}

impl View for Candidate {
    type V = CandidateData;

    open spec fn view(&self) -> CandidateData {
        CandidateData {
            source: self.source@,
            id: self.id@,
            media_type: self.media_type@,
            title: self.title@,
            chinese_title: self.chinese_title@,
            year: self.year@,
            rating: self.rating@,
            region: self.region@,
            genre: views(self.genre@),
            poster: self.poster@,
        }
    }
}

impl Candidate {
    /// A copy of the candidate.
    pub fn copy(&self) -> (r: Candidate)
        ensures
            r@ == self@,
    {
        Candidate {
            source: self.source.clone(),
            id: self.id.clone(),
            media_type: self.media_type.clone(),
            title: self.title.clone(),
            chinese_title: self.chinese_title.clone(),
            year: self.year.clone(),
            rating: self.rating.clone(),
            region: self.region.clone(),
            genre: crate::text::copy_strings(&self.genre),
            poster: self.poster.clone(),
        }
    }
}

// ───────── request URLs ─────────

/// Name for what parsing `base` with `reqwest::Url::parse` and appending
/// `pairs` as `application/x-www-form-urlencoded` query pairs gives: the
/// serialised URL, or the text of the parse error.
pub uninterp spec fn url_with_query(base: Seq<char>, pairs: Seq<(Seq<char>, Seq<char>)>) -> Result<
    Seq<char>,
    Seq<char>,
>;

/// The views of a list of text pairs.
pub open spec fn pair_views(v: Seq<(String, String)>) -> Seq<(Seq<char>, Seq<char>)> {
    v.map_values(|p: (String, String)| (p.0@, p.1@))
}

/// `reqwest::Url::parse(base)`, then `query_pairs_mut().extend_pairs(pairs)`,
/// then the URL's serialisation; a parse error becomes its text. Both are
/// functions of `base` and `pairs` alone and are named, not stated.
#[verifier::external_body]
pub(crate) fn url_with_query_pairs(base: &str, pairs: &Vec<(String, String)>) -> (r: Result<String, String>)
    ensures
        match r {
            Ok(u) => url_with_query(base@, pair_views(pairs@)) == Ok::<Seq<char>, Seq<char>>(u@),
            Err(e) => url_with_query(base@, pair_views(pairs@)) == Err::<Seq<char>, Seq<char>>(e@),
        },
{
    let mut url = reqwest::Url::parse(base).map_err(|e| e.to_string())?;
    url.query_pairs_mut().extend_pairs(pairs.iter().map(|p| (p.0.as_str(), p.1.as_str())));
    Ok(url.into())
}

/// The outcome of the URL call, as views.
pub open spec fn url_result_view(r: Result<String, String>) -> Result<Seq<char>, Seq<char>> {
    match r {
        Ok(u) => Ok(u@),
        Err(e) => Err(e@),
    }
}

/// Copies text pairs into owned pairs.
pub fn owned_pairs(params: &[(&str, &str)]) -> (r: Vec<(String, String)>)
    ensures
        pair_views(r@) == params@.map_values(|p: (&str, &str)| (p.0@, p.1@)),
{
    let mut out: Vec<(String, String)> = Vec::new();
    let mut i: usize = 0;
    while i < params.len()
        invariant
            i <= params@.len(),
            out@.len() == i,
            forall|j: int| 0 <= j < i ==> #[trigger] out@[j].0@ == params@[j].0@ && out@[j].1@ == params@[j].1@,
        decreases params@.len() - i,
    {
        out.push((owned(params[i].0), owned(params[i].1)));
        i = i + 1;
    }
    assert(pair_views(out@) =~= params@.map_values(|p: (&str, &str)| (p.0@, p.1@)));
    out
}

/// The TMDB API address of a request: `https://api.themoviedb.org/3{path}`
/// with the parameters and then `api_key` as query pairs.
pub open spec fn tmdb_url(path: Seq<char>, params: Seq<(Seq<char>, Seq<char>)>, key: Seq<char>) -> Result<
    Seq<char>,
    Seq<char>,
> {
    url_with_query("https://api.themoviedb.org/3"@ + path, params.push(("api_key"@, key)))
}

/// The address of a TMDB API call: the API key is appended to the
/// parameters.
pub fn tmdb_request_url(path: &str, params: &[(&str, &str)], key: &str) -> (r: Result<String, String>)
    ensures
        url_result_view(r) == tmdb_url(path@, params@.map_values(|p: (&str, &str)| (p.0@, p.1@)), key@),
{
    let base = concat2("https://api.themoviedb.org/3", path);
    let mut pairs = owned_pairs(params);
    let ghost before = pairs@;
    pairs.push((owned("api_key"), owned(key)));
    assert(pair_views(pairs@) =~= pair_views(before).push(("api_key"@, key@)));
    url_with_query_pairs(base.as_str(), &pairs)
}

// ───────── retries ─────────

/// What one GET attempt gave.
#[derive(Clone, Copy, Debug, PartialEq, Eq)]
pub enum Attempt {
    /// A success status: the body is read as JSON.
    Success,
    /// A response with a non-success status code.
    Status(u16),
    /// No response (a network error).
    Failed,
}

/// What to do after an attempt.
#[derive(Clone, Copy, Debug, PartialEq, Eq)]
pub enum NextStep {
    /// Read the body of the successful response.
    ReadBody,
    /// Report the last error.
    GiveUp,
    /// Wait this many seconds, then try again.
    RetryAfter(u64),
}

/// The retry policy of a GET: a 429 status or a network error is retried
/// after `attempt + 1` seconds until `retry` retries are spent; any other
/// status fails at once.
pub fn next_step(attempt: usize, retry: usize, outcome: Attempt) -> (r: NextStep)
    requires
        attempt <= retry,
    ensures
        r == match outcome {
            Attempt::Success => NextStep::ReadBody,
            Attempt::Status(code) => if code != 429 || attempt == retry {
                NextStep::GiveUp
            } else {
                NextStep::RetryAfter((attempt + 1) as u64)
            },
            Attempt::Failed => if attempt == retry {
                NextStep::GiveUp
            } else {
                NextStep::RetryAfter((attempt + 1) as u64)
            },
        },
        r matches NextStep::RetryAfter(_) ==> attempt < retry,
{
    match outcome {
        Attempt::Success => NextStep::ReadBody,
        Attempt::Status(code) => {
            if code != 429 || attempt == retry {
                NextStep::GiveUp
            } else {
                NextStep::RetryAfter(attempt as u64 + 1)
            }
        },
        Attempt::Failed => {
            if attempt == retry {
                NextStep::GiveUp
            } else {
                NextStep::RetryAfter(attempt as u64 + 1)
            }
        },
    }
}

} // verus!
