//! The unified record schema: BBCode rendering, the Douban-first merge with
//! TMDB data, and the recursive removal of empty fields.
use vstd::prelude::*;
use crate::json::{
    JsonData, JsonValue, field, list_field, text_field, text_list_field, text_of, text_or_empty,
    texts_of,
};
use crate::text::{
    concat2, concat3, contains, join, join_strings, owned, push_str, str_contains, str_eq, views,
};

verus! {

// ───────── kind of record ─────────

/// A record is a TV series when its `media_type` is "tv", it has a season
/// description or count, or its TMDB link points to a series.
pub open spec fn is_series(d: JsonData) -> bool {
    ||| text_field(d, "media_type"@) == Some("tv"@)
    ||| text_or_empty(d, "season_info"@).len() > 0
    ||| text_or_empty(d, "season_count"@).len() > 0
    ||| text_field(d, "tmdb_link"@) matches Some(l) && contains(l, "/tv/"@)
}

/// Whether the record describes a TV series.
pub fn is_tv(d: &JsonValue) -> (r: bool)
    ensures
        r == is_series(d@),
{
    match d.get_str("media_type") {
        Some(mt) => {
            if str_eq(mt, "tv") {
                return true;
            }
        },
        None => {},
    }
    match d.get_str("season_info") {
        Some(s) => {
            if !s.is_empty() {
                return true;
            }
        },
        None => {},
    }
    let sc = d.str_or_empty("season_count");
    if !sc.as_str().is_empty() {
        return true;
    }
    match d.get_str("tmdb_link") {
        Some(l) => {
            if str_contains(l, "/tv/") {
                return true;
            }
        },
        None => {},
    }
    false
}

// ───────── rows ─────────

/// `n` full-width spaces.
pub open spec fn pad(n: nat) -> Seq<char>
    decreases n,
{
    if n == 0 {
        Seq::empty()
    } else {
        pad((n - 1) as nat) + "　"@
    }
}

/// One line: `◎label`, padded with full-width spaces to five characters,
/// one more full-width space, then the value.
pub open spec fn row_text(label: Seq<char>, value: Seq<char>) -> Seq<char> {
    let n: nat = if label.len() < 5 {
        (5 - label.len()) as nat
    } else {
        0
    };
    "◎"@ + label + pad(n) + "　"@ + value
}

/// One line: `◎label` aligned to five full-width characters, then the value.
pub fn row(label: &str, value: &str) -> (r: String)
    ensures
        r@ == row_text(label@, value@),
{
    let mut s = concat2("◎", label);
    let n = label.unicode_len();
    let pad_count: usize = if n < 5 {
        5 - n
    } else {
        0
    };
    let ghost head = s@;
    let mut k: usize = 0;
    while k < pad_count
        invariant
            k <= pad_count,
            s@ == head + pad(k as nat),
        decreases pad_count - k,
    {
        push_str(&mut s, "　");
        assert(head + pad((k + 1) as nat) =~= head + pad(k as nat) + "　"@);
        k = k + 1;
    }
    push_str(&mut s, "　");
    push_str(&mut s, value);
    assert(s@ =~= row_text(label@, value@));
    s
}

// ───────── BBCode sections ─────────

/// A row when the value is not empty.
pub open spec fn text_row(label: Seq<char>, value: Seq<char>) -> Seq<Seq<char>> {
    if value.len() > 0 {
        seq![row_text(label, value)]
    } else {
        Seq::empty()
    }
}

/// A row of the items joined with " / ", when there are items.
pub open spec fn list_row(label: Seq<char>, items: Seq<Seq<char>>) -> Seq<Seq<char>> {
    if items.len() > 0 {
        seq![row_text(label, join(items, " / "@))]
    } else {
        Seq::empty()
    }
}

/// A rating row `rating /10 (votes 人评价)`, when there is a rating.
pub open spec fn rating_row(label: Seq<char>, rating: Seq<char>, votes: Seq<char>) -> Seq<Seq<char>> {
    if rating.len() > 0 {
        seq![row_text(label, rating + " /10 ("@ + votes + " 人评价)"@)]
    } else {
        Seq::empty()
    }
}

/// The non-empty texts among the two, in order.
pub open spec fn non_empty2(a: Seq<char>, b: Seq<char>) -> Seq<Seq<char>> {
    let first: Seq<Seq<char>> = if a.len() > 0 {
        seq![a]
    } else {
        Seq::empty()
    };
    if b.len() > 0 {
        first.push(b)
    } else {
        first
    }
}

/// The poster image and a blank line, when there is a poster.
pub open spec fn poster_lines(d: JsonData) -> Seq<Seq<char>> {
    let p = text_or_empty(d, "poster"@);
    if p.len() > 0 {
        seq!["[img]"@ + p + "[/img]"@, Seq::empty()]
    } else {
        Seq::empty()
    }
}

/// The title row: Chinese and original title, as a series or a film.
pub open spec fn name_lines(d: JsonData, tv: bool) -> Seq<Seq<char>> {
    list_row(
        if tv {
            "剧　名"@
        } else {
            "片　名"@
        },
        non_empty2(text_or_empty(d, "chinese_title"@), text_or_empty(d, "original_title"@)),
    )
}

/// The lines of the cast: the first after the label, the others indented.
pub open spec fn cast_lines(cast: Seq<Seq<char>>) -> Seq<Seq<char>> {
    if cast.len() > 0 {
        seq![row_text("主　演"@, cast[0])] + Seq::new(
            (cast.len() - 1) as nat,
            |i: int| "　　　　　　"@ + cast[i + 1],
        )
    } else {
        Seq::empty()
    }
}

/// The plot summary: a blank line, its label, and the indented text.
pub open spec fn summary_lines(d: JsonData, tv: bool) -> Seq<Seq<char>> {
    let s = text_or_empty(d, "summary"@);
    if s.len() > 0 {
        seq![
            Seq::empty(),
            row_text(
                if tv {
                    "剧情简介"@
                } else {
                    "简　介"@
                },
                Seq::empty(),
            ),
            "　　"@ + s,
        ]
    } else {
        Seq::empty()
    }
}

/// The lines of one award entry: a blank line, the festival, then each of
/// its string awards, indented.
pub open spec fn award_lines(a: JsonData) -> Seq<Seq<char>> {
    let ws = match list_field(a, "awards"@) {
        Some(l) => texts_of(l),
        None => Seq::empty(),
    };
    seq![Seq::empty(), "　　"@ + text_or_empty(a, "festival"@)] + ws.map_values(
        |w: Seq<char>| "　　"@ + w,
    )
}

/// The lines of a list of award entries.
pub open spec fn awards_lines(l: Seq<JsonData>) -> Seq<Seq<char>>
    decreases l.len(),
{
    if l.len() == 0 {
        Seq::empty()
    } else {
        awards_lines(l.drop_last()) + award_lines(l.last())
    }
}

/// The awards section, when the record has a non-empty list of awards.
pub open spec fn awards_section(d: JsonData) -> Seq<Seq<char>> {
    match list_field(d, "awards"@) {
        Some(l) => if l.len() > 0 {
            seq![Seq::empty(), row_text("获奖情况"@, Seq::empty())] + awards_lines(l)
        } else {
            Seq::empty()
        },
        None => Seq::empty(),
    }
}

/// The descriptive rows: aliases to season count.
pub open spec fn info_lines(d: JsonData, tv: bool) -> Seq<Seq<char>> {
    list_row("译　名"@, text_list_field(d, "aka"@)) + text_row("年　代"@, text_or_empty(d, "year"@))
        + text_row("产　地"@, text_or_empty(d, "region"@)) + list_row(
        "类　别"@,
        text_list_field(d, "genre"@),
    ) + text_row("语　言"@, text_or_empty(d, "language"@)) + text_row(
        if tv {
            "首播日期"@
        } else {
            "上映日期"@
        },
        text_or_empty(d, "release_date"@),
    ) + text_row("季　数"@, text_or_empty(d, "season_info"@))
}

/// The rating rows: IMDb, Douban, TMDB.
pub open spec fn rating_lines(d: JsonData) -> Seq<Seq<char>> {
    rating_row("IMDb评分"@, text_or_empty(d, "imdb_rating"@), text_or_empty(d, "imdb_votes"@))
        + rating_row("豆瓣评分"@, text_or_empty(d, "douban_rating"@), text_or_empty(d, "douban_votes"@))
        + rating_row("TMDB评分"@, text_or_empty(d, "tmdb_rating"@), text_or_empty(d, "tmdb_votes"@))
}

/// The link rows: IMDb, Douban, TMDB.
pub open spec fn link_lines(d: JsonData) -> Seq<Seq<char>> {
    let imdb = text_or_empty(d, "imdb_id"@);
    (if imdb.len() > 0 {
        seq![row_text("IMDb链接"@, "https://www.imdb.com/title/"@ + imdb + "/"@)]
    } else {
        Seq::empty()
    }) + text_row("豆瓣链接"@, text_or_empty(d, "douban_link"@)) + text_row(
        "TMDB链接"@,
        text_or_empty(d, "tmdb_link"@),
    )
}

/// The crew rows: running time, director or creator, writers, cast.
pub open spec fn crew_lines(d: JsonData, tv: bool) -> Seq<Seq<char>> {
    text_row(
        if tv {
            "每集时长"@
        } else {
            "片　长"@
        },
        text_or_empty(d, "runtime"@),
    ) + list_row(
        if tv {
            "创作者"@
        } else {
            "导　演"@
        },
        text_list_field(d, "director"@),
    ) + list_row("编　剧"@, text_list_field(d, "writer"@)) + cast_lines(
        text_list_field(d, "cast"@),
    )
}

/// All lines of the BBCode description, empty fields left out.
pub open spec fn bbcode_lines(d: JsonData) -> Seq<Seq<char>> {
    let tv = is_series(d);
    poster_lines(d) + name_lines(d, tv) + info_lines(d, tv) + rating_lines(d) + link_lines(d)
        + crew_lines(d, tv) + summary_lines(d, tv) + awards_section(d)
}

/// The BBCode description of a record: its lines joined with newlines.
pub open spec fn bbcode(d: JsonData) -> Seq<char> {
    join(bbcode_lines(d), "\n"@)
}

// ───────── the TMDB rating line ─────────

/// The beginning of the TMDB rating line.
pub open spec fn tmdb_mark() -> Seq<char> {
    "◎TMDB评分"@
}

/// No line of `s` begins with the TMDB rating mark.
pub open spec fn no_tmdb_line(s: Seq<Seq<char>>) -> bool {
    forall|j: int| 0 <= j < s.len() ==> !crate::text::starts_with(#[trigger] s[j], tmdb_mark())
}

/// A row label that cannot begin the TMDB rating mark.
pub open spec fn plain_label(l: Seq<char>) -> bool {
    l.len() >= 1 && (l[0] != 'T' || (l.len() >= 5 && l[4] != '评'))
}

proof fn lemma_mark_chars()
    ensures
        tmdb_mark().len() == 7,
        tmdb_mark()[0] == '◎',
        tmdb_mark()[1] == 'T',
        tmdb_mark()[5] == '评',
{
    reveal_strlit("◎TMDB评分");
}

/// A line whose first character is not `◎` does not begin the mark.
proof fn lemma_not_mark_first(l: Seq<char>)
    requires
        l.len() == 0 || l[0] != '◎',
    ensures
        !crate::text::starts_with(l, tmdb_mark()),
{
    lemma_mark_chars();
    if crate::text::starts_with(l, tmdb_mark()) {
        assert(l.subrange(0, 7)[0] == l[0]);
    }
}

/// A row with a plain label does not begin the mark.
proof fn lemma_row_not_tmdb(label: Seq<char>, v: Seq<char>)
    requires
        plain_label(label),
    ensures
        !crate::text::starts_with(row_text(label, v), tmdb_mark()),
{
    lemma_mark_chars();
    reveal_strlit("◎");
    let l = row_text(label, v);
    let n: nat = if label.len() < 5 {
        (5 - label.len()) as nat
    } else {
        0
    };
    let head = "◎"@ + label;
    assert(l == head + pad(n) + "　"@ + v);
    assert(head.len() == label.len() + 1);
    assert(l[1] == head[1]);
    assert(head[1] == label[0]);
    if label.len() >= 5 {
        assert(l[5] == head[5]);
        assert(head[5] == label[4]);
    }
    if crate::text::starts_with(l, tmdb_mark()) {
        assert(l.subrange(0, 7)[1] == l[1]);
        assert(l.subrange(0, 7)[5] == l[5]);
    }
}

proof fn lemma_no_tmdb_concat(a: Seq<Seq<char>>, b: Seq<Seq<char>>)
    requires
        no_tmdb_line(a),
        no_tmdb_line(b),
    ensures
        no_tmdb_line(a + b),
{
    assert forall|j: int| 0 <= j < (a + b).len() implies !crate::text::starts_with(#[trigger] (a + b)[j], tmdb_mark()) by {
        if j < a.len() {
            assert((a + b)[j] == a[j]);
        } else {
            assert((a + b)[j] == b[j - a.len()]);
        }
    }
}

proof fn lemma_text_row_no(label: Seq<char>, value: Seq<char>)
    requires
        plain_label(label),
    ensures
        no_tmdb_line(text_row(label, value)),
{
    lemma_row_not_tmdb(label, value);
}

proof fn lemma_list_row_no(label: Seq<char>, items: Seq<Seq<char>>)
    requires
        plain_label(label),
    ensures
        no_tmdb_line(list_row(label, items)),
{
    lemma_row_not_tmdb(label, join(items, " / "@));
}

proof fn lemma_rating_row_no(label: Seq<char>, rating: Seq<char>, votes: Seq<char>)
    requires
        plain_label(label),
    ensures
        no_tmdb_line(rating_row(label, rating, votes)),
{
    lemma_row_not_tmdb(label, rating + " /10 ("@ + votes + " 人评价)"@);
}

proof fn lemma_awards_lines_no(l: Seq<JsonData>)
    ensures
        no_tmdb_line(awards_lines(l)),
    decreases l.len(),
{
    if l.len() > 0 {
        lemma_awards_lines_no(l.drop_last());
        let a = l.last();
        let ws = match list_field(a, "awards"@) {
            Some(x) => texts_of(x),
            None => Seq::empty(),
        };
        reveal_strlit("　　");
        let head: Seq<Seq<char>> = seq![Seq::empty(), "　　"@ + text_or_empty(a, "festival"@)];
        let tail = ws.map_values(|w: Seq<char>| "　　"@ + w);
        assert forall|j: int| 0 <= j < head.len() implies !crate::text::starts_with(#[trigger] head[j], tmdb_mark()) by {
            lemma_not_mark_first(head[j]);
        }
        assert forall|j: int| 0 <= j < tail.len() implies !crate::text::starts_with(#[trigger] tail[j], tmdb_mark()) by {
            assert(tail[j] == "　　"@ + ws[j]);
            lemma_not_mark_first(tail[j]);
        }
        lemma_no_tmdb_concat(head, tail);
        lemma_no_tmdb_concat(awards_lines(l.drop_last()), award_lines(a));
    }
}

/// No section of the BBCode but the rating rows can begin with the TMDB
/// rating mark.
proof fn lemma_other_sections_no(d: JsonData, tv: bool)
    ensures
        no_tmdb_line(poster_lines(d)),
        no_tmdb_line(name_lines(d, tv)),
        no_tmdb_line(info_lines(d, tv)),
        no_tmdb_line(link_lines(d)),
        no_tmdb_line(crew_lines(d, tv)),
        no_tmdb_line(summary_lines(d, tv)),
        no_tmdb_line(awards_section(d)),
        no_tmdb_line(rating_row("IMDb评分"@, text_or_empty(d, "imdb_rating"@), text_or_empty(d, "imdb_votes"@))),
        no_tmdb_line(rating_row("豆瓣评分"@, text_or_empty(d, "douban_rating"@), text_or_empty(d, "douban_votes"@))),
{
    reveal_strlit("[img]");
    reveal_strlit("剧　名");
    reveal_strlit("片　名");
    reveal_strlit("译　名");
    reveal_strlit("年　代");
    reveal_strlit("产　地");
    reveal_strlit("类　别");
    reveal_strlit("语　言");
    reveal_strlit("首播日期");
    reveal_strlit("上映日期");
    reveal_strlit("季　数");
    reveal_strlit("IMDb评分");
    reveal_strlit("豆瓣评分");
    reveal_strlit("IMDb链接");
    reveal_strlit("豆瓣链接");
    reveal_strlit("TMDB链接");
    reveal_strlit("每集时长");
    reveal_strlit("片　长");
    reveal_strlit("创作者");
    reveal_strlit("导　演");
    reveal_strlit("编　剧");
    reveal_strlit("主　演");
    reveal_strlit("剧情简介");
    reveal_strlit("简　介");
    reveal_strlit("获奖情况");
    reveal_strlit("　　");
    reveal_strlit("　　　　　　");
    // poster
    let p = text_or_empty(d, "poster"@);
    assert forall|j: int| 0 <= j < poster_lines(d).len() implies !crate::text::starts_with(
        #[trigger] poster_lines(d)[j],
        tmdb_mark(),
    ) by {
        if j == 0 {
            assert(("[img]"@ + p + "[/img]"@)[0] == '[');
        }
        lemma_not_mark_first(poster_lines(d)[j]);
    }
    // names
    lemma_list_row_no(if tv { "剧　名"@ } else { "片　名"@ }, non_empty2(text_or_empty(d, "chinese_title"@), text_or_empty(d, "original_title"@)));
    // info
    lemma_list_row_no("译　名"@, text_list_field(d, "aka"@));
    lemma_text_row_no("年　代"@, text_or_empty(d, "year"@));
    lemma_text_row_no("产　地"@, text_or_empty(d, "region"@));
    lemma_list_row_no("类　别"@, text_list_field(d, "genre"@));
    lemma_text_row_no("语　言"@, text_or_empty(d, "language"@));
    lemma_text_row_no(if tv { "首播日期"@ } else { "上映日期"@ }, text_or_empty(d, "release_date"@));
    lemma_text_row_no("季　数"@, text_or_empty(d, "season_info"@));
    let i1 = list_row("译　名"@, text_list_field(d, "aka"@));
    let i2 = text_row("年　代"@, text_or_empty(d, "year"@));
    let i3 = text_row("产　地"@, text_or_empty(d, "region"@));
    let i4 = list_row("类　别"@, text_list_field(d, "genre"@));
    let i5 = text_row("语　言"@, text_or_empty(d, "language"@));
    let i6 = text_row(if tv { "首播日期"@ } else { "上映日期"@ }, text_or_empty(d, "release_date"@));
    let i7 = text_row("季　数"@, text_or_empty(d, "season_info"@));
    lemma_no_tmdb_concat(i1, i2);
    lemma_no_tmdb_concat(i1 + i2, i3);
    lemma_no_tmdb_concat(i1 + i2 + i3, i4);
    lemma_no_tmdb_concat(i1 + i2 + i3 + i4, i5);
    lemma_no_tmdb_concat(i1 + i2 + i3 + i4 + i5, i6);
    lemma_no_tmdb_concat(i1 + i2 + i3 + i4 + i5 + i6, i7);
    // ratings other than TMDB
    lemma_rating_row_no("IMDb评分"@, text_or_empty(d, "imdb_rating"@), text_or_empty(d, "imdb_votes"@));
    lemma_rating_row_no("豆瓣评分"@, text_or_empty(d, "douban_rating"@), text_or_empty(d, "douban_votes"@));
    // links
    let imdb = text_or_empty(d, "imdb_id"@);
    let l1: Seq<Seq<char>> = if imdb.len() > 0 {
        seq![row_text("IMDb链接"@, "https://www.imdb.com/title/"@ + imdb + "/"@)]
    } else {
        Seq::empty()
    };
    lemma_row_not_tmdb("IMDb链接"@, "https://www.imdb.com/title/"@ + imdb + "/"@);
    lemma_text_row_no("豆瓣链接"@, text_or_empty(d, "douban_link"@));
    lemma_text_row_no("TMDB链接"@, text_or_empty(d, "tmdb_link"@));
    lemma_no_tmdb_concat(l1, text_row("豆瓣链接"@, text_or_empty(d, "douban_link"@)));
    lemma_no_tmdb_concat(
        l1 + text_row("豆瓣链接"@, text_or_empty(d, "douban_link"@)),
        text_row("TMDB链接"@, text_or_empty(d, "tmdb_link"@)),
    );
    // crew
    let cast = text_list_field(d, "cast"@);
    lemma_text_row_no(if tv { "每集时长"@ } else { "片　长"@ }, text_or_empty(d, "runtime"@));
    lemma_list_row_no(if tv { "创作者"@ } else { "导　演"@ }, text_list_field(d, "director"@));
    lemma_list_row_no("编　剧"@, text_list_field(d, "writer"@));
    if cast.len() > 0 {
        lemma_row_not_tmdb("主　演"@, cast[0]);
        let rest = Seq::new((cast.len() - 1) as nat, |i: int| "　　　　　　"@ + cast[i + 1]);
        assert forall|j: int| 0 <= j < rest.len() implies !crate::text::starts_with(#[trigger] rest[j], tmdb_mark()) by {
            assert(rest[j] == "　　　　　　"@ + cast[j + 1]);
            lemma_not_mark_first(rest[j]);
        }
        lemma_no_tmdb_concat(seq![row_text("主　演"@, cast[0])], rest);
    }
    let c1 = text_row(if tv { "每集时长"@ } else { "片　长"@ }, text_or_empty(d, "runtime"@));
    let c2 = list_row(if tv { "创作者"@ } else { "导　演"@ }, text_list_field(d, "director"@));
    let c3 = list_row("编　剧"@, text_list_field(d, "writer"@));
    lemma_no_tmdb_concat(c1, c2);
    lemma_no_tmdb_concat(c1 + c2, c3);
    lemma_no_tmdb_concat(c1 + c2 + c3, cast_lines(cast));
    // summary
    let sm = text_or_empty(d, "summary"@);
    if sm.len() > 0 {
        lemma_row_not_tmdb(if tv { "剧情简介"@ } else { "简　介"@ }, Seq::empty());
        lemma_not_mark_first(Seq::empty());
        lemma_not_mark_first("　　"@ + sm);
        let ss = summary_lines(d, tv);
        assert forall|j: int| 0 <= j < ss.len() implies !crate::text::starts_with(#[trigger] ss[j], tmdb_mark()) by {}
    }
    // awards
    match list_field(d, "awards"@) {
        Some(l) => if l.len() > 0 {
            lemma_row_not_tmdb("获奖情况"@, Seq::empty());
            lemma_not_mark_first(Seq::empty());
            let h: Seq<Seq<char>> = seq![Seq::empty(), row_text("获奖情况"@, Seq::empty())];
            assert forall|j: int| 0 <= j < h.len() implies !crate::text::starts_with(#[trigger] h[j], tmdb_mark()) by {}
            lemma_awards_lines_no(l);
            lemma_no_tmdb_concat(h, awards_lines(l));
        },
        None => {},
    }
}

/// A text joined from lines holds each of the lines.
proof fn lemma_join_holds(parts: Seq<Seq<char>>, sep: Seq<char>, i: int)
    requires
        0 <= i < parts.len(),
    ensures
        contains(join(parts, sep), parts[i]),
    decreases parts.len(),
{
    let x = parts[i];
    if parts.len() == 1 {
        assert(join(parts, sep).subrange(0, x.len() as int) =~= x);
        assert(occurs_at_witness(join(parts, sep), x, 0));
    } else {
        let a = join(parts.drop_last(), sep);
        let whole = join(parts, sep);
        assert(whole == a + sep + parts.last());
        if i == parts.len() - 1 {
            let p: int = (a.len() + sep.len()) as int;
            assert(whole.subrange(p, p + x.len()) =~= x);
            assert(occurs_at_witness(whole, x, p));
        } else {
            assert(parts.drop_last()[i] == x);
            lemma_join_holds(parts.drop_last(), sep, i);
            let p = choose|p: int| crate::text::occurs_at(a, x, p);
            assert(whole.subrange(p, p + x.len()) =~= a.subrange(p, p + x.len()));
            assert(occurs_at_witness(whole, x, p));
        }
    }
}

/// `occurs_at`, named for use as a witness.
spec fn occurs_at_witness(s: Seq<char>, pat: Seq<char>, i: int) -> bool {
    crate::text::occurs_at(s, pat, i)
}

/// The TMDB rating row is the line `◎TMDB评分　r /10 (v 人评价)` when the
/// rating is not empty, and nothing otherwise.
proof fn lemma_tmdb_row(r: Seq<char>, v: Seq<char>)
    ensures
        r.len() > 0 ==> rating_row("TMDB评分"@, r, v) == seq!["◎TMDB评分　"@ + r + " /10 ("@ + v + " 人评价)"@],
        r.len() == 0 ==> rating_row("TMDB评分"@, r, v) == Seq::<Seq<char>>::empty(),
{
    reveal_strlit("◎");
    reveal_strlit("TMDB评分");
    reveal_strlit("　");
    reveal_strlit("◎TMDB评分　");
    let value = r + " /10 ("@ + v + " 人评价)"@;
    assert(pad(0) =~= Seq::<char>::empty());
    assert(row_text("TMDB评分"@, value) =~= "◎TMDB评分　"@ + r + " /10 ("@ + v + " 人评价)"@);
}

/// The lines of the BBCode: those before the TMDB rating row, the row, and
/// those after it, none of which but the row begins with the mark.
#[verifier::rlimit(60)]
proof fn lemma_bbcode_lines_around_tmdb(d: JsonData) -> (parts: (Seq<Seq<char>>, Seq<Seq<char>>))
    ensures
        bbcode_lines(d) == parts.0 + rating_row("TMDB评分"@, text_or_empty(d, "tmdb_rating"@), text_or_empty(d, "tmdb_votes"@)) + parts.1,
        no_tmdb_line(parts.0),
        no_tmdb_line(parts.1),
{
    let tv = is_series(d);
    lemma_other_sections_no(d, tv);
    let im = rating_row("IMDb评分"@, text_or_empty(d, "imdb_rating"@), text_or_empty(d, "imdb_votes"@));
    let db = rating_row("豆瓣评分"@, text_or_empty(d, "douban_rating"@), text_or_empty(d, "douban_votes"@));
    let tm = rating_row("TMDB评分"@, text_or_empty(d, "tmdb_rating"@), text_or_empty(d, "tmdb_votes"@));
    let pre = poster_lines(d) + name_lines(d, tv) + info_lines(d, tv);
    let front = pre + (im + db);
    let post = link_lines(d) + crew_lines(d, tv) + summary_lines(d, tv) + awards_section(d);
    lemma_no_tmdb_concat(im, db);
    lemma_no_tmdb_concat(poster_lines(d), name_lines(d, tv));
    lemma_no_tmdb_concat(poster_lines(d) + name_lines(d, tv), info_lines(d, tv));
    lemma_no_tmdb_concat(pre, im + db);
    lemma_no_tmdb_concat(link_lines(d), crew_lines(d, tv));
    lemma_no_tmdb_concat(link_lines(d) + crew_lines(d, tv), summary_lines(d, tv));
    lemma_no_tmdb_concat(link_lines(d) + crew_lines(d, tv) + summary_lines(d, tv), awards_section(d));
    assert(rating_lines(d) == im + db + tm);
    assert(bbcode_lines(d) =~= front + tm + post);
    (front, post)
}

/// The TMDB rating line: when `tmdb_rating` is a non-empty text `r`, the
/// BBCode holds the line `◎TMDB评分　r /10 (v 人评价)`, `v` being the
/// `tmdb_votes` text, and no other line begins with `◎TMDB评分`; when it is
/// empty, no line does. The IMDb and Douban ratings play no part in it.
pub proof fn lemma_bbcode_tmdb_rating_line(d: JsonData)
    ensures
        ({
            let r = text_or_empty(d, "tmdb_rating"@);
            let v = text_or_empty(d, "tmdb_votes"@);
            let line = "◎TMDB评分　"@ + r + " /10 ("@ + v + " 人评价)"@;
            &&& r.len() > 0 ==> contains(bbcode(d), line)
            &&& forall|j: int|
                0 <= j < bbcode_lines(d).len() && crate::text::starts_with(#[trigger] bbcode_lines(d)[j], "◎TMDB评分"@)
                    ==> r.len() > 0 && bbcode_lines(d)[j] == line
        }),
{
    let r = text_or_empty(d, "tmdb_rating"@);
    let v = text_or_empty(d, "tmdb_votes"@);
    let line = "◎TMDB评分　"@ + r + " /10 ("@ + v + " 人评价)"@;
    let (front, post) = lemma_bbcode_lines_around_tmdb(d);
    lemma_tmdb_row(r, v);
    let tm = rating_row("TMDB评分"@, r, v);
    let lines = bbcode_lines(d);
    assert forall|j: int|
        0 <= j < lines.len() && crate::text::starts_with(#[trigger] lines[j], tmdb_mark()) implies r.len() > 0
        && lines[j] == line by {
        if j < front.len() {
            assert(lines[j] == front[j]);
        } else if j < front.len() + tm.len() {
            assert(lines[j] == tm[j - front.len()]);
        } else {
            assert(lines[j] == post[j - front.len() - tm.len()]);
        }
    }
    if r.len() > 0 {
        assert(lines[front.len() as int] == line);
        lemma_join_holds(lines, "\n"@, front.len() as int);
    }
}

// ───────── what the BBCode reads ─────────

/// The members the BBCode reads.
pub open spec fn is_bbcode_key(k: Seq<char>) -> bool {
    ||| k == "poster"@ || k == "chinese_title"@ || k == "original_title"@ || k == "aka"@
    ||| k == "year"@ || k == "region"@ || k == "genre"@ || k == "language"@
    ||| k == "release_date"@ || k == "season_info"@ || k == "season_count"@ || k == "media_type"@
    ||| k == "imdb_rating"@ || k == "imdb_votes"@ || k == "douban_rating"@ || k == "douban_votes"@
    ||| k == "tmdb_rating"@ || k == "tmdb_votes"@ || k == "imdb_id"@ || k == "douban_link"@
    ||| k == "tmdb_link"@ || k == "runtime"@ || k == "director"@ || k == "writer"@
    ||| k == "cast"@ || k == "summary"@ || k == "awards"@
}

/// A list member when it holds elements.
pub open spec fn filled_list(d: JsonData, k: Seq<char>) -> Option<Seq<JsonData>> {
    match list_field(d, k) {
        Some(l) => if l.len() > 0 {
            Some(l)
        } else {
            None
        },
        None => None,
    }
}

/// What the BBCode can see of member `k`: its text, its string items,
/// its elements when it is a non-empty list, whether it is the text "tv",
/// and whether it is a text holding "/tv/".
pub open spec fn bbcode_reading(d: JsonData, k: Seq<char>) -> (Seq<char>, Seq<Seq<char>>, Option<Seq<JsonData>>, bool, bool) {
    (
        text_or_empty(d, k),
        text_list_field(d, k),
        filled_list(d, k),
        text_field(d, k) == Some("tv"@),
        text_field(d, k) matches Some(l) && contains(l, "/tv/"@),
    )
}

/// Two records that read alike on every member the BBCode reads render
/// alike.
proof fn lemma_bbcode_by_reading(a: JsonData, b: JsonData)
    requires
        forall|k: Seq<char>| #[trigger] is_bbcode_key(k) ==> bbcode_reading(a, k) == bbcode_reading(b, k),
    ensures
        bbcode(a) == bbcode(b),
{
    assert(is_bbcode_key("poster"@));
    assert(is_bbcode_key("chinese_title"@));
    assert(is_bbcode_key("original_title"@));
    assert(is_bbcode_key("aka"@));
    assert(is_bbcode_key("year"@));
    assert(is_bbcode_key("region"@));
    assert(is_bbcode_key("genre"@));
    assert(is_bbcode_key("language"@));
    assert(is_bbcode_key("release_date"@));
    assert(is_bbcode_key("season_info"@));
    assert(is_bbcode_key("season_count"@));
    assert(is_bbcode_key("media_type"@));
    assert(is_bbcode_key("imdb_rating"@));
    assert(is_bbcode_key("imdb_votes"@));
    assert(is_bbcode_key("douban_rating"@));
    assert(is_bbcode_key("douban_votes"@));
    assert(is_bbcode_key("tmdb_rating"@));
    assert(is_bbcode_key("tmdb_votes"@));
    assert(is_bbcode_key("imdb_id"@));
    assert(is_bbcode_key("douban_link"@));
    assert(is_bbcode_key("tmdb_link"@));
    assert(is_bbcode_key("runtime"@));
    assert(is_bbcode_key("director"@));
    assert(is_bbcode_key("writer"@));
    assert(is_bbcode_key("cast"@));
    assert(is_bbcode_key("summary"@));
    assert(is_bbcode_key("awards"@));
    assert(is_series(a) == is_series(b));
    let tv = is_series(a);
    assert(poster_lines(a) == poster_lines(b));
    assert(name_lines(a, tv) == name_lines(b, tv));
    assert(info_lines(a, tv) == info_lines(b, tv));
    assert(rating_lines(a) == rating_lines(b));
    assert(link_lines(a) == link_lines(b));
    assert(crew_lines(a, tv) == crew_lines(b, tv));
    assert(summary_lines(a, tv) == summary_lines(b, tv));
    assert(awards_section(a) == awards_section(b));
}

/// An empty field (`null`, `""`, `[]` or `{}`) renders exactly like a
/// missing one, whatever its key.
pub proof fn lemma_bbcode_empty_field(d: JsonData, k: Seq<char>, e: JsonData)
    requires
        crate::json::is_object(d),
        field(d, k) is None,
        is_blank(e),
    ensures
        bbcode(crate::json::with_member(d, k, e)) == bbcode(d),
{
    let d1 = crate::json::with_member(d, k, e);
    reveal_strlit("tv");
    reveal_strlit("/tv/");
    assert("tv"@.len() == 2);
    assert("/tv/"@.len() == 4);
    assert forall|x: Seq<char>| #[trigger] is_bbcode_key(x) implies bbcode_reading(d1, x) == bbcode_reading(d, x) by {
        crate::json::lemma_field_with_member(d, k, e, x);
        if x == k {
            match e {
                JsonData::Text(t) => {
                    assert(t =~= Seq::<char>::empty());
                    assert(!contains(t, "/tv/"@));
                    assert(t != "tv"@);
                },
                JsonData::List(l) => {
                    assert(l =~= Seq::<JsonData>::empty());
                },
                _ => {},
            }
        }
    }
    lemma_bbcode_by_reading(d1, d);
}

/// Members the BBCode does not read change nothing in it (such as
/// `format`, `source`, `sid` or `usage`).
pub proof fn lemma_bbcode_other_members(d: JsonData, k: Seq<char>, v: JsonData)
    requires
        crate::json::is_object(d),
        !is_bbcode_key(k),
    ensures
        bbcode(crate::json::with_member(d, k, v)) == bbcode(d),
{
    let d1 = crate::json::with_member(d, k, v);
    assert forall|x: Seq<char>| #[trigger] is_bbcode_key(x) implies bbcode_reading(d1, x) == bbcode_reading(d, x) by {
        crate::json::lemma_field_with_member(d, k, v, x);
    }
    lemma_bbcode_by_reading(d1, d);
}

// ───────── BBCode, computed ─────────

fn push_text_row(lines: &mut Vec<String>, label: &str, value: &str)
    ensures
        views(final(lines)@) == views(old(lines)@) + text_row(label@, value@),
{
    let ghost before = lines@;
    if !value.is_empty() {
        lines.push(row(label, value));
        assert(views(lines@) =~= views(before) + text_row(label@, value@));
    } else {
        assert(views(lines@) =~= views(before) + text_row(label@, value@));
    }
}

fn push_list_row(lines: &mut Vec<String>, label: &str, items: &Vec<String>)
    ensures
        views(final(lines)@) == views(old(lines)@) + list_row(label@, views(items@)),
{
    let ghost before = lines@;
    if items.len() > 0 {
        let j = join_strings(items, " / ");
        lines.push(row(label, j.as_str()));
        assert(views(lines@) =~= views(before) + list_row(label@, views(items@)));
    } else {
        assert(views(lines@) =~= views(before) + list_row(label@, views(items@)));
    }
}

fn push_rating_row(lines: &mut Vec<String>, label: &str, d: &JsonValue, rating_key: &str, votes_key: &str)
    ensures
        views(final(lines)@) == views(old(lines)@) + rating_row(
            label@,
            text_or_empty(d@, rating_key@),
            text_or_empty(d@, votes_key@),
        ),
{
    let ghost before = lines@;
    let rating = d.str_or_empty(rating_key);
    let votes = d.str_or_empty(votes_key);
    if !rating.as_str().is_empty() {
        let mut v = concat3(rating.as_str(), " /10 (", votes.as_str());
        push_str(&mut v, " 人评价)");
        lines.push(row(label, v.as_str()));
    }
    assert(views(lines@) =~= views(before) + rating_row(label@, rating@, votes@));
}

fn push_field_row(lines: &mut Vec<String>, label: &str, d: &JsonValue, key: &str)
    ensures
        views(final(lines)@) == views(old(lines)@) + text_row(label@, text_or_empty(d@, key@)),
{
    let v = d.str_or_empty(key);
    push_text_row(lines, label, v.as_str());
}

fn push_list_field_row(lines: &mut Vec<String>, label: &str, d: &JsonValue, key: &str)
    ensures
        views(final(lines)@) == views(old(lines)@) + list_row(label@, text_list_field(d@, key@)),
{
    let v = d.str_array(key);
    push_list_row(lines, label, &v);
}

fn push_poster(lines: &mut Vec<String>, d: &JsonValue)
    ensures
        views(final(lines)@) == views(old(lines)@) + poster_lines(d@),
{
    let ghost before = lines@;
    let poster = d.str_or_empty("poster");
    if !poster.as_str().is_empty() {
        lines.push(concat3("[img]", poster.as_str(), "[/img]"));
        lines.push(String::new());
    }
    assert(views(lines@) =~= views(before) + poster_lines(d@));
}

fn push_names(lines: &mut Vec<String>, d: &JsonValue, tv: bool)
    ensures
        views(final(lines)@) == views(old(lines)@) + name_lines(d@, tv),
{
    let label = if tv {
        "剧　名"
    } else {
        "片　名"
    };
    let mut names: Vec<String> = Vec::new();
    let a = d.str_or_empty("chinese_title");
    let b = d.str_or_empty("original_title");
    let ghost av = a@;
    let ghost bv = b@;
    if !a.as_str().is_empty() {
        names.push(a);
    }
    if !b.as_str().is_empty() {
        names.push(b);
    }
    assert(views(names@) =~= non_empty2(av, bv));
    push_list_row(lines, label, &names);
}

fn push_cast(lines: &mut Vec<String>, d: &JsonValue)
    ensures
        views(final(lines)@) == views(old(lines)@) + cast_lines(text_list_field(d@, "cast"@)),
{
    let ghost before = lines@;
    let cast = d.str_array("cast");
    let ghost cv = views(cast@);
    if cast.len() > 0 {
        lines.push(row("主　演", cast[0].as_str()));
        let mut i: usize = 1;
        while i < cast.len()
            invariant
                1 <= i <= cast@.len(),
                cv == views(cast@),
                views(lines@) == views(before) + seq![row_text("主　演"@, cv[0])] + Seq::new(
                    (i - 1) as nat,
                    |k: int| "　　　　　　"@ + cv[k + 1],
                ),
            decreases cast@.len() - i,
        {
            let ghost prev = lines@;
            lines.push(concat2("　　　　　　", cast[i].as_str()));
            assert(views(lines@) =~= views(prev).push("　　　　　　"@ + cv[i as int]));
            assert(Seq::new(i as nat, |k: int| "　　　　　　"@ + cv[k + 1]) =~= Seq::new(
                (i - 1) as nat,
                |k: int| "　　　　　　"@ + cv[k + 1],
            ).push("　　　　　　"@ + cv[i as int]));
            i = i + 1;
        }
    }
    assert(views(lines@) =~= views(before) + cast_lines(cv));
}

fn push_summary(lines: &mut Vec<String>, d: &JsonValue, tv: bool)
    ensures
        views(final(lines)@) == views(old(lines)@) + summary_lines(d@, tv),
{
    let ghost before = lines@;
    let s = d.str_or_empty("summary");
    if !s.as_str().is_empty() {
        lines.push(String::new());
        let label = if tv {
            "剧情简介"
        } else {
            "简　介"
        };
        lines.push(row(label, ""));
        lines.push(concat2("　　", s.as_str()));
        proof {
            reveal_strlit("");
        }
    }
    assert(views(lines@) =~= views(before) + summary_lines(d@, tv));
}

fn push_award(lines: &mut Vec<String>, a: &JsonValue)
    ensures
        views(final(lines)@) == views(old(lines)@) + award_lines(a@),
{
    let ghost before = lines@;
    lines.push(String::new());
    let festival = a.str_or_empty("festival");
    lines.push(concat2("　　", festival.as_str()));
    let ws: Vec<String> = match a.get_array("awards") {
        Some(items) => crate::json::texts_in(items),
        None => Vec::new(),
    };
    let ghost wv = views(ws@);
    assert(wv =~= match list_field(a@, "awards"@) {
        Some(l) => texts_of(l),
        None => Seq::<Seq<char>>::empty(),
    });
    let ghost mid = lines@;
    let mut i: usize = 0;
    while i < ws.len()
        invariant
            i <= ws@.len(),
            wv == views(ws@),
            views(lines@) == views(mid) + wv.take(i as int).map_values(|w: Seq<char>| "　　"@ + w),
        decreases ws@.len() - i,
    {
        let ghost prev = lines@;
        lines.push(concat2("　　", ws[i].as_str()));
        assert(wv.take(i + 1).map_values(|w: Seq<char>| "　　"@ + w) =~= wv.take(i as int).map_values(
            |w: Seq<char>| "　　"@ + w,
        ).push("　　"@ + wv[i as int]));
        assert(views(lines@) =~= views(prev).push("　　"@ + wv[i as int]));
        i = i + 1;
    }
    assert(wv.take(ws@.len() as int) =~= wv);
    assert(views(lines@) =~= views(before) + award_lines(a@));
}

fn push_awards(lines: &mut Vec<String>, d: &JsonValue)
    ensures
        views(final(lines)@) == views(old(lines)@) + awards_section(d@),
{
    let ghost before = lines@;
    match d.get_array("awards") {
        Some(awards) => {
            if awards.len() > 0 {
                lines.push(String::new());
                lines.push(row("获奖情况", ""));
                proof {
                    reveal_strlit("");
                }
                let ghost all = awards@.map_values(|x: JsonValue| x@);
                let ghost mid = lines@;
                assert(views(mid) =~= views(before) + seq![Seq::<char>::empty(), row_text("获奖情况"@, Seq::empty())]);
                let mut i: usize = 0;
                while i < awards.len()
                    invariant
                        i <= awards@.len(),
                        all == awards@.map_values(|x: JsonValue| x@),
                        views(lines@) == views(mid) + awards_lines(all.take(i as int)),
                    decreases awards@.len() - i,
                {
                    assert(all.take(i + 1).drop_last() =~= all.take(i as int));
                    let ghost prev = lines@;
                    push_award(lines, &awards[i]);
                    assert(views(lines@) =~= views(mid) + awards_lines(all.take(i + 1)));
                    i = i + 1;
                }
                assert(all.take(awards@.len() as int) =~= all);
            }
        },
        None => {},
    }
    assert(views(lines@) =~= views(before) + awards_section(d@));
}

fn push_info(lines: &mut Vec<String>, d: &JsonValue, tv: bool)
    ensures
        views(final(lines)@) == views(old(lines)@) + info_lines(d@, tv),
{
    let ghost before = views(lines@);
    push_list_field_row(lines, "译　名", d, "aka");
    push_field_row(lines, "年　代", d, "year");
    push_field_row(lines, "产　地", d, "region");
    push_list_field_row(lines, "类　别", d, "genre");
    push_field_row(lines, "语　言", d, "language");
    push_field_row(
        lines,
        if tv {
            "首播日期"
        } else {
            "上映日期"
        },
        d,
        "release_date",
    );
    push_field_row(lines, "季　数", d, "season_info");
    assert(views(lines@) =~= before + info_lines(d@, tv));
}

fn push_ratings(lines: &mut Vec<String>, d: &JsonValue)
    ensures
        views(final(lines)@) == views(old(lines)@) + rating_lines(d@),
{
    let ghost before = views(lines@);
    push_rating_row(lines, "IMDb评分", d, "imdb_rating", "imdb_votes");
    push_rating_row(lines, "豆瓣评分", d, "douban_rating", "douban_votes");
    push_rating_row(lines, "TMDB评分", d, "tmdb_rating", "tmdb_votes");
    assert(views(lines@) =~= before + rating_lines(d@));
}

fn push_links(lines: &mut Vec<String>, d: &JsonValue)
    ensures
        views(final(lines)@) == views(old(lines)@) + link_lines(d@),
{
    let ghost before = views(lines@);
    let imdb_id = d.str_or_empty("imdb_id");
    if !imdb_id.as_str().is_empty() {
        let link = concat3("https://www.imdb.com/title/", imdb_id.as_str(), "/");
        lines.push(row("IMDb链接", link.as_str()));
    }
    let ghost mid = views(lines@);
    assert(mid =~= before + (if imdb_id@.len() > 0 {
        seq![row_text("IMDb链接"@, "https://www.imdb.com/title/"@ + imdb_id@ + "/"@)]
    } else {
        Seq::empty()
    }));
    push_field_row(lines, "豆瓣链接", d, "douban_link");
    push_field_row(lines, "TMDB链接", d, "tmdb_link");
    assert(views(lines@) =~= before + link_lines(d@));
}

fn push_crew(lines: &mut Vec<String>, d: &JsonValue, tv: bool)
    ensures
        views(final(lines)@) == views(old(lines)@) + crew_lines(d@, tv),
{
    let ghost before = views(lines@);
    push_field_row(
        lines,
        if tv {
            "每集时长"
        } else {
            "片　长"
        },
        d,
        "runtime",
    );
    push_list_field_row(
        lines,
        if tv {
            "创作者"
        } else {
            "导　演"
        },
        d,
        "director",
    );
    push_list_field_row(lines, "编　剧", d, "writer");
    push_cast(lines, d);
    assert(views(lines@) =~= before + crew_lines(d@, tv));
}

/// Renders a record as BBCode, for Douban and TMDB fields alike; empty
/// fields are left out.
pub fn to_bbcode(d: &JsonValue) -> (r: String)
    ensures
        r@ == bbcode(d@),
{
    let tv = is_tv(d);
    let mut lines: Vec<String> = Vec::new();
    push_poster(&mut lines, d);
    push_names(&mut lines, d, tv);
    push_info(&mut lines, d, tv);
    push_ratings(&mut lines, d);
    push_links(&mut lines, d);
    push_crew(&mut lines, d, tv);
    push_summary(&mut lines, d, tv);
    push_awards(&mut lines, d);
    assert(views(lines@) =~= bbcode_lines(d@));
    join_strings(&lines, "\n")
}

// ───────── merge ─────────

/// `value.get(k).and_then(|v| v.as_array())`, or an empty list.
pub open spec fn list_or_empty(d: JsonData, k: Seq<char>) -> Seq<JsonData> {
    match list_field(d, k) {
        Some(l) => l,
        None => Seq::empty(),
    }
}

/// The keys of an object, in order (none for other values).
pub open spec fn keys_of(d: JsonData) -> Seq<Seq<char>> {
    match d {
        JsonData::Members(ms) => ms.map_values(|m: (Seq<char>, JsonData)| m.0),
        _ => Seq::empty(),
    }
}

/// `acc` followed by those of `xs` not already present, in order.
pub open spec fn append_missing(acc: Seq<Seq<char>>, xs: Seq<Seq<char>>) -> Seq<Seq<char>>
    decreases xs.len(),
{
    if xs.len() == 0 {
        acc
    } else {
        let a = append_missing(acc, xs.drop_last());
        if a.contains(xs.last()) {
            a
        } else {
            a.push(xs.last())
        }
    }
}

/// The people of a list kept after dropping any whose non-empty `name` was
/// already kept, and the names kept so far.
pub open spec fn by_name_scan(items: Seq<JsonData>) -> (Seq<JsonData>, Seq<Seq<char>>)
    decreases items.len(),
{
    if items.len() == 0 {
        (Seq::empty(), Seq::empty())
    } else {
        let (out, seen) = by_name_scan(items.drop_last());
        let it = items.last();
        let name = text_or_empty(it, "name"@);
        if name.len() > 0 && seen.contains(name) {
            (out, seen)
        } else {
            (out.push(it), if name.len() > 0 {
                seen.push(name)
            } else {
                seen
            })
        }
    }
}

/// The merged people lists: for each key of either side (Douban's first),
/// Douban's people then TMDB's, without repeating a name.
pub open spec fn merged_people(db: JsonData, tmdb: JsonData) -> JsonData {
    if tmdb is Null {
        db
    } else if db is Null {
        tmdb
    } else {
        let keys = append_missing(Seq::empty(), keys_of(db) + keys_of(tmdb));
        JsonData::Members(
            keys.map_values(
                |k: Seq<char>|
                    (k, JsonData::List(by_name_scan(list_or_empty(db, k) + list_or_empty(tmdb, k)).0)),
            ),
        )
    }
}

/// A merge option: `merge_cfg.get(k).and_then(|v| v.as_bool()).unwrap_or(true)`.
pub open spec fn option_on(cfg: JsonData, k: Seq<char>) -> bool {
    match crate::json::bool_field(cfg, k) {
        Some(b) => b,
        None => true,
    }
}

/// Copies the member `k` of `from` into `d` when `from` has it.
pub open spec fn copy_member(d: JsonData, from: JsonData, k: Seq<char>) -> JsonData {
    match field(from, k) {
        Some(v) => crate::json::with_member(d, k, v),
        None => d,
    }
}

/// The value of member `k`, or an empty object.
pub open spec fn field_or_empty_object(d: JsonData, k: Seq<char>) -> JsonData {
    match field(d, k) {
        Some(v) => v,
        None => JsonData::Members(Seq::empty()),
    }
}

/// TMDB's media type, set only where the Douban record has none (the member
/// is missing or its text is empty): Douban's own type stays.
pub open spec fn fill_media_type(base: JsonData, t: JsonData) -> JsonData {
    if text_or_empty(base, "media_type"@).len() == 0 {
        match text_field(t, "media_type"@) {
            Some(mt) => crate::json::with_member(base, "media_type"@, JsonData::Text(mt)),
            None => base,
        }
    } else {
        base
    }
}

/// What TMDB adds to the Douban record: its media type where Douban has
/// none, and, as the options allow, its rating, aliases and people, and an
/// original title where Douban has none.
pub open spec fn enriched(base: JsonData, t: JsonData, cfg: JsonData) -> JsonData {
    let b1 = fill_media_type(base, t);
    let b2 = if option_on(cfg, "enrich_tmdb_rating"@) {
        copy_member(copy_member(copy_member(b1, t, "tmdb_rating"@), t, "tmdb_votes"@), t, "tmdb_link"@)
    } else {
        b1
    };
    let b3 = if option_on(cfg, "enrich_tmdb_aka"@) {
        crate::json::with_member(
            b2,
            "aka"@,
            crate::json::text_list(append_missing(text_list_field(b2, "aka"@), text_list_field(t, "aka"@))),
        )
    } else {
        b2
    };
    let b4 = if option_on(cfg, "enrich_celebrities"@) {
        crate::json::with_member(
            b3,
            "full_celebrities"@,
            merged_people(field_or_empty_object(b3, "full_celebrities"@), field_or_empty_object(t, "full_celebrities"@)),
        )
    } else {
        b3
    };
    if text_or_empty(b4, "original_title"@).len() == 0 && text_or_empty(t, "original_title"@).len() > 0 {
        crate::json::with_member(b4, "original_title"@, JsonData::Text(text_or_empty(t, "original_title"@)))
    } else {
        b4
    }
}

/// The merged record before its BBCode is rendered again.
pub open spec fn merged_body(douban: JsonData, tmdb: Option<JsonData>, cfg: JsonData) -> JsonData {
    let base = crate::json::with_member(douban, "source"@, JsonData::Text("merge"@));
    match tmdb {
        Some(t) => enriched(base, t, cfg),
        None => base,
    }
}

/// The Douban-first merge: the Douban record, marked as merged, enriched
/// from TMDB, with its BBCode rendered anew in `format`.
pub open spec fn merged(douban: JsonData, tmdb: Option<JsonData>, cfg: JsonData) -> JsonData {
    let body = merged_body(douban, tmdb, cfg);
    crate::json::with_member(body, "format"@, JsonData::Text(bbcode(body)))
}

/// Sets a string member of an object; other values are left as they are.
fn set_str(d: JsonValue, key: &str, val: &str) -> (r: JsonValue)
    ensures
        r@ == crate::json::with_member(d@, key@, JsonData::Text(val@)),
{
    d.with_member(key, JsonValue::from_str(val))
}

/// Whether `v` holds the text `x`.
fn contains_text(v: &Vec<String>, x: &str) -> (r: bool)
    ensures
        r == views(v@).contains(x@),
{
    let mut i: usize = 0;
    while i < v.len()
        invariant
            i <= v@.len(),
            forall|j: int| 0 <= j < i ==> v@[j]@ != x@,
        decreases v@.len() - i,
    {
        if str_eq(v[i].as_str(), x) {
            assert(views(v@)[i as int] == x@);
            return true;
        }
        i = i + 1;
    }
    assert forall|j: int| 0 <= j < views(v@).len() implies views(v@)[j] != x@ by {
        assert(views(v@)[j] == v@[j]@);
    }
    false
}

/// Appends to `acc` those of `xs` that are not already in it.
fn append_missing_exec(acc: &mut Vec<String>, xs: &Vec<String>)
    ensures
        views(final(acc)@) == append_missing(views(old(acc)@), views(xs@)),
{
    let ghost a0 = views(acc@);
    let ghost xv = views(xs@);
    let mut i: usize = 0;
    while i < xs.len()
        invariant
            i <= xs@.len(),
            xv == views(xs@),
            views(acc@) == append_missing(a0, xv.take(i as int)),
        decreases xs@.len() - i,
    {
        assert(xv.take(i + 1).drop_last() =~= xv.take(i as int));
        assert(xv.take(i + 1).last() == xs@[i as int]@);
        if !contains_text(acc, xs[i].as_str()) {
            let ghost before = acc@;
            acc.push(xs[i].clone());
            assert(views(acc@) =~= views(before).push(xs@[i as int]@));
        }
        i = i + 1;
    }
    assert(xv.take(xs@.len() as int) =~= xv);
}

/// The object's keys, as owned strings (none for other values).
fn keys_exec(d: &JsonValue) -> (r: Vec<String>)
    ensures
        views(r@) == keys_of(d@),
{
    let mut r: Vec<String> = Vec::new();
    match d {
        JsonValue::Object(ms) => {
            let mut i: usize = 0;
            while i < ms.len()
                invariant
                    i <= ms@.len(),
                    r@.len() == i,
                    forall|j: int| 0 <= j < i ==> #[trigger] r@[j]@ == ms@[j].0@,
                decreases ms@.len() - i,
            {
                r.push(ms[i].0.clone());
                i = i + 1;
            }
            assert(views(r@) =~= keys_of(d@));
        },
        _ => {
            assert(views(r@) =~= keys_of(d@));
        },
    }
    r
}

/// The list member `k` of a value, copied (empty when there is none).
fn list_copy(d: &JsonValue, k: &str) -> (r: Vec<JsonValue>)
    ensures
        r@.map_values(|x: JsonValue| x@) == list_or_empty(d@, k@),
{
    match d.get_array(k) {
        Some(items) => {
            let mut out: Vec<JsonValue> = Vec::new();
            let mut i: usize = 0;
            while i < items.len()
                invariant
                    i <= items@.len(),
                    out@.len() == i,
                    forall|j: int| 0 <= j < i ==> #[trigger] out@[j]@ == items@[j]@,
                decreases items@.len() - i,
            {
                out.push(items[i].copy());
                i = i + 1;
            }
            assert(out@.map_values(|x: JsonValue| x@) =~= items@.map_values(|x: JsonValue| x@));
            out
        },
        None => {
            let out: Vec<JsonValue> = Vec::new();
            assert(out@.map_values(|x: JsonValue| x@) =~= Seq::<JsonData>::empty());
            out
        },
    }
}

/// The people of `items` without repeating a non-empty name.
fn dedup_people(items: Vec<JsonValue>) -> (r: Vec<JsonValue>)
    ensures
        r@.map_values(|x: JsonValue| x@) == by_name_scan(items@.map_values(|x: JsonValue| x@)).0,
{
    let ghost all = items@.map_values(|x: JsonValue| x@);
    let mut out: Vec<JsonValue> = Vec::new();
    let mut seen: Vec<String> = Vec::new();
    let mut i: usize = 0;
    while i < items.len()
        invariant
            i <= items@.len(),
            all == items@.map_values(|x: JsonValue| x@),
            (out@.map_values(|x: JsonValue| x@), views(seen@)) == by_name_scan(all.take(i as int)),
        decreases items@.len() - i,
    {
        assert(all.take(i + 1).drop_last() =~= all.take(i as int));
        assert(all.take(i + 1).last() == items@[i as int]@);
        let item = &items[i];
        let name = item.str_or_empty("name");
        let named = !name.as_str().is_empty();
        if named && contains_text(&seen, name.as_str()) {
        } else {
            let ghost before = out@;
            let ghost seen_before = seen@;
            out.push(item.copy());
            assert(out@.map_values(|x: JsonValue| x@) =~= before.map_values(|x: JsonValue| x@).push(items@[i as int]@));
            if named {
                seen.push(name);
                assert(views(seen@) =~= views(seen_before).push(text_or_empty(items@[i as int]@, "name"@)));
            }
        }
        i = i + 1;
    }
    assert(all.take(items@.len() as int) =~= all);
    out
}

/// Merges the people lists of Douban and TMDB: each list keeps Douban's
/// people first, then TMDB's, without repeating a name.
fn merge_fc(db: &JsonValue, tmdb: &JsonValue) -> (r: JsonValue)
    ensures
        r@ == merged_people(db@, tmdb@),
{
    if tmdb.is_null() {
        return db.copy();
    }
    if db.is_null() {
        return tmdb.copy();
    }
    let mut keys: Vec<String> = Vec::new();
    let dk = keys_exec(db);
    let tk = keys_exec(tmdb);
    assert(views(keys@) =~= Seq::<Seq<char>>::empty());
    append_missing_exec(&mut keys, &dk);
    append_missing_exec(&mut keys, &tk);
    proof {
        lemma_append_missing_concat(Seq::empty(), keys_of(db@), keys_of(tmdb@));
    }
    let ghost kv = views(keys@);
    assert(kv =~= append_missing(Seq::empty(), keys_of(db@) + keys_of(tmdb@)));
    let mut members: Vec<(String, JsonValue)> = Vec::new();
    let mut i: usize = 0;
    while i < keys.len()
        invariant
            i <= keys@.len(),
            kv == views(keys@),
            members@.len() == i,
            forall|j: int|
                #![trigger members@[j]]
                0 <= j < i ==> members@[j].0@ == kv[j] && members@[j].1@ == JsonData::List(
                    by_name_scan(list_or_empty(db@, kv[j]) + list_or_empty(tmdb@, kv[j])).0,
                ),
        decreases keys@.len() - i,
    {
        let k = keys[i].as_str();
        let mut both = list_copy(db, k);
        let mut more = list_copy(tmdb, k);
        let ghost a = both@.map_values(|x: JsonValue| x@);
        let ghost b = more@.map_values(|x: JsonValue| x@);
        both.append(&mut more);
        assert(both@.map_values(|x: JsonValue| x@) =~= a + b);
        let kept = dedup_people(both);
        let ghost kept_view = kept@.map_values(|x: JsonValue| x@);
        let list = JsonValue::Array(kept);
        assert(list@ =~= JsonData::List(kept_view)) by {
            assert(list@->List_0 =~= kept_view);
        }
        members.push((keys[i].clone(), list));
        i = i + 1;
    }
    let r = JsonValue::Object(members);
    assert(r@->Members_0 =~= kv.map_values(
        |k: Seq<char>|
            (k, JsonData::List(by_name_scan(list_or_empty(db@, k) + list_or_empty(tmdb@, k)).0)),
    ));
    r
}

proof fn lemma_append_missing_concat(acc: Seq<Seq<char>>, xs: Seq<Seq<char>>, ys: Seq<Seq<char>>)
    ensures
        append_missing(append_missing(acc, xs), ys) == append_missing(acc, xs + ys),
    decreases ys.len(),
{
    if ys.len() == 0 {
        assert(xs + ys =~= xs);
    } else {
        lemma_append_missing_concat(acc, xs, ys.drop_last());
        assert((xs + ys).drop_last() =~= xs + ys.drop_last());
        assert((xs + ys).last() == ys.last());
    }
}

/// The value of member `key`, copied, or an empty object.
fn field_copy_or_empty(d: &JsonValue, key: &str) -> (r: JsonValue)
    ensures
        r@ == field_or_empty_object(d@, key@),
{
    match d.get(key) {
        Some(v) => v.copy(),
        None => JsonValue::empty_object(),
    }
}

/// Copies the member `key` of `from` into `d` when `from` has it.
fn copy_member_exec(d: JsonValue, from: &JsonValue, key: &str) -> (r: JsonValue)
    ensures
        r@ == copy_member(d@, from@, key@),
{
    match from.get(key) {
        Some(v) => d.with_member(key, v.copy()),
        None => d,
    }
}

/// Whether a merge option is on (on unless set to `false`).
fn option_on_exec(cfg: &JsonValue, key: &str) -> (r: bool)
    ensures
        r == option_on(cfg@, key@),
{
    match cfg.get_bool(key) {
        Some(b) => b,
        None => true,
    }
}

/// What TMDB adds to the Douban record, computed.
fn enrich(base: JsonValue, tmdb: &JsonValue, merge_cfg: &JsonValue) -> (r: JsonValue)
    ensures
        r@ == enriched(base@, tmdb@, merge_cfg@),
{
    let mut base = base;
    if base.str_or_empty("media_type").as_str().is_empty() {
        match tmdb.get_str("media_type") {
            Some(mt) => {
                base = set_str(base, "media_type", mt);
            },
            None => {},
        }
    }
    if option_on_exec(merge_cfg, "enrich_tmdb_rating") {
        base = copy_member_exec(base, tmdb, "tmdb_rating");
        base = copy_member_exec(base, tmdb, "tmdb_votes");
        base = copy_member_exec(base, tmdb, "tmdb_link");
    }
    if option_on_exec(merge_cfg, "enrich_tmdb_aka") {
        let mut aka = base.str_array("aka");
        let more = tmdb.str_array("aka");
        append_missing_exec(&mut aka, &more);
        let list = JsonValue::from_strings(&aka);
        base = base.with_member("aka", list);
    }
    if option_on_exec(merge_cfg, "enrich_celebrities") {
        let db_fc = field_copy_or_empty(&base, "full_celebrities");
        let tmdb_fc = field_copy_or_empty(tmdb, "full_celebrities");
        let merged = merge_fc(&db_fc, &tmdb_fc);
        base = base.with_member("full_celebrities", merged);
    }
    let ot_base = base.str_or_empty("original_title");
    if ot_base.as_str().is_empty() {
        let ot = tmdb.str_or_empty("original_title");
        if !ot.as_str().is_empty() {
            base = set_str(base, "original_title", ot.as_str());
        }
    }
    base
}

/// Douban-first merge: the Douban record is the body; TMDB fills in a
/// missing media type and original title and adds its rating, aliases and
/// people, as `merge_cfg` allows; the BBCode in `format` is rendered again.
pub fn merge(douban: &JsonValue, tmdb: Option<&JsonValue>, merge_cfg: &JsonValue) -> (r: JsonValue)
    requires
        crate::json::is_object(douban@),
    ensures
        r@ == merged(douban@, match tmdb {
            Some(t) => Some(t@),
            None => None,
        }, merge_cfg@),
{
    let base = douban.copy();
    let mut base = set_str(base, "source", "merge");
    match tmdb {
        Some(t) => {
            base = enrich(base, t, merge_cfg);
        },
        None => {},
    }
    let bbcode = to_bbcode(&base);
    base.with_member("format", JsonValue::from_string(bbcode))
}

// ───────── laws of the merge ─────────

/// The member names the merge writes are distinct from one another.
proof fn lemma_merge_key_names()
    ensures
        "source"@.len() == 6,
        "format"@.len() == 6,
        "aka"@.len() == 3,
        "media_type"@.len() == 10,
        "tmdb_rating"@.len() == 11,
        "tmdb_votes"@.len() == 10,
        "tmdb_link"@.len() == 9,
        "full_celebrities"@.len() == 16,
        "original_title"@.len() == 14,
        "source"@ != "format"@,
        "media_type"@ != "tmdb_votes"@,
{
    reveal_strlit("source");
    reveal_strlit("format");
    reveal_strlit("aka");
    reveal_strlit("media_type");
    reveal_strlit("tmdb_rating");
    reveal_strlit("tmdb_votes");
    reveal_strlit("tmdb_link");
    reveal_strlit("full_celebrities");
    reveal_strlit("original_title");
    assert("source"@[0] != "format"@[0]);
    assert("media_type"@[0] != "tmdb_votes"@[0]);
}

/// Copying a member leaves an object an object, and every other member as
/// it was.
proof fn lemma_copy_member_other(d: JsonData, from: JsonData, k: Seq<char>, k2: Seq<char>)
    requires
        crate::json::is_object(d),
        k2 != k,
    ensures
        crate::json::is_object(copy_member(d, from, k)),
        field(copy_member(d, from, k), k2) == field(d, k2),
{
    match field(from, k) {
        Some(v) => crate::json::lemma_field_with_member(d, k, v, k2),
        None => {},
    }
}

/// Filling in the media type keeps an object an object and every other
/// member as it was.
proof fn lemma_fill_media_type_other(base: JsonData, t: JsonData, k: Seq<char>)
    requires
        crate::json::is_object(base),
        k != "media_type"@,
    ensures
        crate::json::is_object(fill_media_type(base, t)),
        field(fill_media_type(base, t), k) == field(base, k),
{
    match text_field(t, "media_type"@) {
        Some(mt) => crate::json::lemma_field_with_member(base, "media_type"@, JsonData::Text(mt), k),
        None => {},
    }
}

/// The enrichment keeps an object an object and leaves every member it does
/// not write as it was.
proof fn lemma_enriched_other(base: JsonData, t: JsonData, cfg: JsonData, k: Seq<char>)
    requires
        crate::json::is_object(base),
        k != "media_type"@,
        k != "tmdb_rating"@,
        k != "tmdb_votes"@,
        k != "tmdb_link"@,
        k != "aka"@,
        k != "full_celebrities"@,
        k != "original_title"@,
    ensures
        crate::json::is_object(enriched(base, t, cfg)),
        field(enriched(base, t, cfg), k) == field(base, k),
{
    let b1 = fill_media_type(base, t);
    lemma_fill_media_type_other(base, t, k);
    let c1 = copy_member(b1, t, "tmdb_rating"@);
    let c2 = copy_member(c1, t, "tmdb_votes"@);
    lemma_copy_member_other(b1, t, "tmdb_rating"@, k);
    lemma_copy_member_other(c1, t, "tmdb_votes"@, k);
    lemma_copy_member_other(c2, t, "tmdb_link"@, k);
    let b2 = if option_on(cfg, "enrich_tmdb_rating"@) {
        copy_member(c2, t, "tmdb_link"@)
    } else {
        b1
    };
    let aka = crate::json::text_list(append_missing(text_list_field(b2, "aka"@), text_list_field(t, "aka"@)));
    crate::json::lemma_field_with_member(b2, "aka"@, aka, k);
    let b3 = if option_on(cfg, "enrich_tmdb_aka"@) {
        crate::json::with_member(b2, "aka"@, aka)
    } else {
        b2
    };
    let fc = merged_people(field_or_empty_object(b3, "full_celebrities"@), field_or_empty_object(t, "full_celebrities"@));
    crate::json::lemma_field_with_member(b3, "full_celebrities"@, fc, k);
    let b4 = if option_on(cfg, "enrich_celebrities"@) {
        crate::json::with_member(b3, "full_celebrities"@, fc)
    } else {
        b3
    };
    crate::json::lemma_field_with_member(
        b4,
        "original_title"@,
        JsonData::Text(text_or_empty(t, "original_title"@)),
        k,
    );
}

/// The merge keeps every member of the Douban record that it does not write
/// (`source`, `media_type`, the TMDB rating, votes and link, `aka`,
/// `full_celebrities`, `original_title`, `format`): Douban comes first.
pub proof fn lemma_merge_keeps_douban(douban: JsonData, tmdb: Option<JsonData>, cfg: JsonData, k: Seq<char>)
    requires
        crate::json::is_object(douban),
        k != "source"@,
        k != "media_type"@,
        k != "tmdb_rating"@,
        k != "tmdb_votes"@,
        k != "tmdb_link"@,
        k != "aka"@,
        k != "full_celebrities"@,
        k != "original_title"@,
        k != "format"@,
    ensures
        field(merged(douban, tmdb, cfg), k) == field(douban, k),
{
    let base = crate::json::with_member(douban, "source"@, JsonData::Text("merge"@));
    crate::json::lemma_field_with_member(douban, "source"@, JsonData::Text("merge"@), k);
    match tmdb {
        Some(t) => lemma_enriched_other(base, t, cfg, k),
        None => {},
    }
    let body = merged_body(douban, tmdb, cfg);
    crate::json::lemma_field_with_member(body, "format"@, JsonData::Text(bbcode(body)), k);
}

/// The merged record is marked as merged, and its `format` is the BBCode of
/// the merged fields.
pub proof fn lemma_merge_marks(douban: JsonData, tmdb: Option<JsonData>, cfg: JsonData)
    requires
        crate::json::is_object(douban),
    ensures
        field(merged(douban, tmdb, cfg), "source"@) == Some(JsonData::Text("merge"@)),
        field(merged(douban, tmdb, cfg), "format"@) == Some(
            JsonData::Text(bbcode(merged_body(douban, tmdb, cfg))),
        ),
{
    lemma_merge_key_names();
    let base = crate::json::with_member(douban, "source"@, JsonData::Text("merge"@));
    crate::json::lemma_field_with_member(douban, "source"@, JsonData::Text("merge"@), "source"@);
    match tmdb {
        Some(t) => lemma_enriched_other(base, t, cfg, "source"@),
        None => {},
    }
    let body = merged_body(douban, tmdb, cfg);
    crate::json::lemma_field_with_member(body, "format"@, JsonData::Text(bbcode(body)), "source"@);
    crate::json::lemma_field_with_member(body, "format"@, JsonData::Text(bbcode(body)), "format"@);
}

/// `acc` stays at the head when missing texts are appended, and every
/// appended text is then held.
proof fn lemma_append_missing_keeps(acc: Seq<Seq<char>>, xs: Seq<Seq<char>>)
    ensures
        acc.len() <= append_missing(acc, xs).len(),
        append_missing(acc, xs).take(acc.len() as int) == acc,
        forall|i: int| 0 <= i < xs.len() ==> append_missing(acc, xs).contains(#[trigger] xs[i]),
    decreases xs.len(),
{
    if xs.len() > 0 {
        lemma_append_missing_keeps(acc, xs.drop_last());
        let a = append_missing(acc, xs.drop_last());
        if !a.contains(xs.last()) {
            assert(a.push(xs.last()).take(acc.len() as int) =~= a.take(acc.len() as int));
            assert forall|j: int| 0 <= j < a.len() && a.contains(a[j]) implies a.push(xs.last()).contains(a[j]) by {
                assert(a.push(xs.last())[j] == a[j]);
            }
        }
        let r = append_missing(acc, xs);
        assert forall|i: int| 0 <= i < xs.len() implies r.contains(#[trigger] xs[i]) by {
            if i < xs.len() - 1 {
                assert(xs.drop_last()[i] == xs[i]);
                assert(a.contains(xs[i]));
                let j = choose|j: int| 0 <= j < a.len() && a[j] == xs[i];
                if !a.contains(xs.last()) {
                    assert(r[j] == xs[i]);
                }
            } else if !a.contains(xs.last()) {
                assert(r[a.len() as int] == xs[i]);
            }
        }
    }
}

/// The texts of a list of texts are the texts themselves.
proof fn lemma_texts_of_text_list(ts: Seq<Seq<char>>)
    ensures
        texts_of(ts.map_values(|t: Seq<char>| JsonData::Text(t))) == ts,
    decreases ts.len(),
{
    if ts.len() > 0 {
        let l = ts.map_values(|t: Seq<char>| JsonData::Text(t));
        lemma_texts_of_text_list(ts.drop_last());
        assert(l.drop_last() =~= ts.drop_last().map_values(|t: Seq<char>| JsonData::Text(t)));
        assert(ts.drop_last().push(ts.last()) =~= ts);
    }
}

/// The merged aliases begin with Douban's, in order; when TMDB aliases are
/// taken, every TMDB alias is among them.
pub proof fn lemma_merge_aka(douban: JsonData, tmdb: Option<JsonData>, cfg: JsonData)
    requires
        crate::json::is_object(douban),
    ensures
        ({
            let a = text_list_field(douban, "aka"@);
            let m = text_list_field(merged(douban, tmdb, cfg), "aka"@);
            &&& a.len() <= m.len()
            &&& m.take(a.len() as int) == a
            &&& match tmdb {
                Some(t) => option_on(cfg, "enrich_tmdb_aka"@) ==> forall|i: int|
                    0 <= i < text_list_field(t, "aka"@).len() ==> m.contains(#[trigger] text_list_field(t, "aka"@)[i]),
                None => true,
            }
        }),
{
    lemma_merge_key_names();
    let base = crate::json::with_member(douban, "source"@, JsonData::Text("merge"@));
    crate::json::lemma_field_with_member(douban, "source"@, JsonData::Text("merge"@), "aka"@);
    let body = merged_body(douban, tmdb, cfg);
    match tmdb {
        Some(t) => {
            let b1 = fill_media_type(base, t);
            lemma_fill_media_type_other(base, t, "aka"@);
            let c1 = copy_member(b1, t, "tmdb_rating"@);
            let c2 = copy_member(c1, t, "tmdb_votes"@);
            lemma_copy_member_other(b1, t, "tmdb_rating"@, "aka"@);
            lemma_copy_member_other(c1, t, "tmdb_votes"@, "aka"@);
            lemma_copy_member_other(c2, t, "tmdb_link"@, "aka"@);
            let b2 = if option_on(cfg, "enrich_tmdb_rating"@) {
                copy_member(c2, t, "tmdb_link"@)
            } else {
                b1
            };
            let xs = append_missing(text_list_field(b2, "aka"@), text_list_field(t, "aka"@));
            let aka = crate::json::text_list(xs);
            crate::json::lemma_field_with_member(b2, "aka"@, aka, "aka"@);
            lemma_texts_of_text_list(xs);
            lemma_append_missing_keeps(text_list_field(b2, "aka"@), text_list_field(t, "aka"@));
            let b3 = if option_on(cfg, "enrich_tmdb_aka"@) {
                crate::json::with_member(b2, "aka"@, aka)
            } else {
                b2
            };
            let fc = merged_people(
                field_or_empty_object(b3, "full_celebrities"@),
                field_or_empty_object(t, "full_celebrities"@),
            );
            crate::json::lemma_field_with_member(b3, "full_celebrities"@, fc, "aka"@);
            let b4 = if option_on(cfg, "enrich_celebrities"@) {
                crate::json::with_member(b3, "full_celebrities"@, fc)
            } else {
                b3
            };
            crate::json::lemma_field_with_member(
                b4,
                "original_title"@,
                JsonData::Text(text_or_empty(t, "original_title"@)),
                "aka"@,
            );
            assert(field(body, "aka"@) == field(b3, "aka"@));
        },
        None => {},
    }
    crate::json::lemma_field_with_member(body, "format"@, JsonData::Text(bbcode(body)), "aka"@);
    let a = text_list_field(douban, "aka"@);
    assert(a.take(a.len() as int) =~= a);
}

/// A Douban original title that is not empty is kept.
pub proof fn lemma_merge_keeps_original_title(douban: JsonData, tmdb: Option<JsonData>, cfg: JsonData)
    requires
        crate::json::is_object(douban),
        text_or_empty(douban, "original_title"@).len() > 0,
    ensures
        field(merged(douban, tmdb, cfg), "original_title"@) == field(douban, "original_title"@),
{
    lemma_merge_key_names();
    let base = crate::json::with_member(douban, "source"@, JsonData::Text("merge"@));
    crate::json::lemma_field_with_member(douban, "source"@, JsonData::Text("merge"@), "original_title"@);
    let body = merged_body(douban, tmdb, cfg);
    match tmdb {
        Some(t) => {
            let b1 = fill_media_type(base, t);
            lemma_fill_media_type_other(base, t, "original_title"@);
            let c1 = copy_member(b1, t, "tmdb_rating"@);
            let c2 = copy_member(c1, t, "tmdb_votes"@);
            lemma_copy_member_other(b1, t, "tmdb_rating"@, "original_title"@);
            lemma_copy_member_other(c1, t, "tmdb_votes"@, "original_title"@);
            lemma_copy_member_other(c2, t, "tmdb_link"@, "original_title"@);
            let b2 = if option_on(cfg, "enrich_tmdb_rating"@) {
                copy_member(c2, t, "tmdb_link"@)
            } else {
                b1
            };
            let aka = crate::json::text_list(
                append_missing(text_list_field(b2, "aka"@), text_list_field(t, "aka"@)),
            );
            crate::json::lemma_field_with_member(b2, "aka"@, aka, "original_title"@);
            let b3 = if option_on(cfg, "enrich_tmdb_aka"@) {
                crate::json::with_member(b2, "aka"@, aka)
            } else {
                b2
            };
            let fc = merged_people(
                field_or_empty_object(b3, "full_celebrities"@),
                field_or_empty_object(t, "full_celebrities"@),
            );
            crate::json::lemma_field_with_member(b3, "full_celebrities"@, fc, "original_title"@);
        },
        None => {},
    }
    crate::json::lemma_field_with_member(body, "format"@, JsonData::Text(bbcode(body)), "original_title"@);
}

/// A Douban media type that is not empty is kept: TMDB's is taken only where
/// Douban has none.
pub proof fn lemma_merge_keeps_media_type(douban: JsonData, tmdb: Option<JsonData>, cfg: JsonData)
    requires
        crate::json::is_object(douban),
        text_or_empty(douban, "media_type"@).len() > 0,
    ensures
        field(merged(douban, tmdb, cfg), "media_type"@) == field(douban, "media_type"@),
{
    lemma_merge_key_names();
    let k = "media_type"@;
    let base = crate::json::with_member(douban, "source"@, JsonData::Text("merge"@));
    crate::json::lemma_field_with_member(douban, "source"@, JsonData::Text("merge"@), k);
    let body = merged_body(douban, tmdb, cfg);
    match tmdb {
        Some(t) => {
            assert(text_or_empty(base, k) == text_or_empty(douban, k));
            let b1 = fill_media_type(base, t);
            assert(b1 == base);
            let c1 = copy_member(b1, t, "tmdb_rating"@);
            let c2 = copy_member(c1, t, "tmdb_votes"@);
            lemma_copy_member_other(b1, t, "tmdb_rating"@, k);
            lemma_copy_member_other(c1, t, "tmdb_votes"@, k);
            lemma_copy_member_other(c2, t, "tmdb_link"@, k);
            let b2 = if option_on(cfg, "enrich_tmdb_rating"@) {
                copy_member(c2, t, "tmdb_link"@)
            } else {
                b1
            };
            let aka = crate::json::text_list(
                append_missing(text_list_field(b2, "aka"@), text_list_field(t, "aka"@)),
            );
            crate::json::lemma_field_with_member(b2, "aka"@, aka, k);
            let b3 = if option_on(cfg, "enrich_tmdb_aka"@) {
                crate::json::with_member(b2, "aka"@, aka)
            } else {
                b2
            };
            let fc = merged_people(
                field_or_empty_object(b3, "full_celebrities"@),
                field_or_empty_object(t, "full_celebrities"@),
            );
            crate::json::lemma_field_with_member(b3, "full_celebrities"@, fc, k);
            let b4 = if option_on(cfg, "enrich_celebrities"@) {
                crate::json::with_member(b3, "full_celebrities"@, fc)
            } else {
                b3
            };
            crate::json::lemma_field_with_member(
                b4,
                "original_title"@,
                JsonData::Text(text_or_empty(t, "original_title"@)),
                k,
            );
        },
        None => {},
    }
    crate::json::lemma_field_with_member(body, "format"@, JsonData::Text(bbcode(body)), k);
}

/// TMDB never replaces a field that Douban already has as a non-empty text,
/// outside the members the merge owns (`source`, `format`, `aka`,
/// `full_celebrities` and the TMDB rating, votes and link).
pub proof fn lemma_merge_keeps_douban_texts(douban: JsonData, tmdb: Option<JsonData>, cfg: JsonData, k: Seq<char>)
    requires
        crate::json::is_object(douban),
        k != "source"@,
        k != "format"@,
        k != "aka"@,
        k != "full_celebrities"@,
        k != "tmdb_rating"@,
        k != "tmdb_votes"@,
        k != "tmdb_link"@,
        text_or_empty(douban, k).len() > 0,
    ensures
        field(merged(douban, tmdb, cfg), k) == field(douban, k),
{
    if k == "media_type"@ {
        lemma_merge_keeps_media_type(douban, tmdb, cfg);
    } else if k == "original_title"@ {
        lemma_merge_keeps_original_title(douban, tmdb, cfg);
    } else {
        lemma_merge_keeps_douban(douban, tmdb, cfg, k);
    }
}

/// The non-empty names of a people list are pairwise different.
pub open spec fn distinct_names(l: Seq<JsonData>) -> bool {
    forall|i: int, j: int|
        0 <= i < j < l.len() && text_or_empty(#[trigger] l[i], "name"@).len() > 0 ==> text_or_empty(l[i], "name"@)
            != text_or_empty(#[trigger] l[j], "name"@)
}

/// The people kept by the scan repeat no non-empty name, and the names seen
/// are exactly the non-empty names kept.
proof fn lemma_by_name_scan_distinct(items: Seq<JsonData>)
    ensures
        distinct_names(by_name_scan(items).0),
        forall|i: int|
            0 <= i < by_name_scan(items).0.len() && text_or_empty(#[trigger] by_name_scan(items).0[i], "name"@).len()
                > 0 ==> by_name_scan(items).1.contains(text_or_empty(by_name_scan(items).0[i], "name"@)),
    decreases items.len(),
{
    if items.len() > 0 {
        lemma_by_name_scan_distinct(items.drop_last());
        let (out, seen) = by_name_scan(items.drop_last());
        let it = items.last();
        let name = text_or_empty(it, "name"@);
        if !(name.len() > 0 && seen.contains(name)) {
            let out2 = out.push(it);
            let seen2 = if name.len() > 0 {
                seen.push(name)
            } else {
                seen
            };
            assert forall|i: int|
                0 <= i < out2.len() && text_or_empty(#[trigger] out2[i], "name"@).len() > 0 implies seen2.contains(
                text_or_empty(out2[i], "name"@),
            ) by {
                if i < out.len() {
                    assert(out2[i] == out[i]);
                    assert(seen.contains(text_or_empty(out[i], "name"@)));
                    let j = choose|j: int| 0 <= j < seen.len() && seen[j] == text_or_empty(out[i], "name"@);
                    assert(seen2[j] == seen[j]);
                } else {
                    assert(seen2[seen.len() as int] == name);
                }
            }
            assert forall|i: int, j: int|
                0 <= i < j < out2.len() && text_or_empty(#[trigger] out2[i], "name"@).len() > 0 implies text_or_empty(
                out2[i],
                "name"@,
            ) != text_or_empty(#[trigger] out2[j], "name"@) by {
                if j < out.len() {
                    assert(out2[i] == out[i] && out2[j] == out[j]);
                } else {
                    assert(out2[i] == out[i]);
                    assert(seen.contains(text_or_empty(out[i], "name"@)));
                }
            }
        }
    }
}

/// In the merged people of Douban and TMDB, no list repeats a non-empty
/// name.
pub proof fn lemma_merged_people_distinct(db: JsonData, tmdb: JsonData)
    requires
        db is Members,
        tmdb is Members,
    ensures
        merged_people(db, tmdb) is Members,
        forall|i: int|
            0 <= i < merged_people(db, tmdb)->Members_0.len() ==> ((#[trigger] merged_people(db, tmdb)->Members_0[i]).1
                matches JsonData::List(l) && distinct_names(l)),
{
    let keys = append_missing(Seq::empty(), keys_of(db) + keys_of(tmdb));
    let ms = merged_people(db, tmdb)->Members_0;
    assert forall|i: int| 0 <= i < ms.len() implies ((#[trigger] ms[i]).1 matches JsonData::List(l) && distinct_names(
        l,
    )) by {
        let k = keys[i];
        lemma_by_name_scan_distinct(list_or_empty(db, k) + list_or_empty(tmdb, k));
    }
}

/// Entry `p` of a people list is the first with its name: its name is empty,
/// or no earlier entry has the same name.
pub open spec fn first_of_its_name(c: Seq<JsonData>, p: int) -> bool {
    text_or_empty(c[p], "name"@).len() == 0 || forall|q: int|
        0 <= q < p ==> text_or_empty(#[trigger] c[q], "name"@) != text_or_empty(c[p], "name"@)
}

/// `out` is the entries of `c` at the increasing positions `idx`, and those
/// are exactly the entries that are first with their name.
pub open spec fn kept_in_order(c: Seq<JsonData>, out: Seq<JsonData>, idx: Seq<int>) -> bool {
    &&& idx.len() == out.len()
    &&& forall|j: int| 0 <= j < idx.len() ==> 0 <= #[trigger] idx[j] < c.len() && out[j] == c[idx[j]]
    &&& forall|j1: int, j2: int| 0 <= j1 < j2 < idx.len() ==> #[trigger] idx[j1] < #[trigger] idx[j2]
    &&& forall|p: int|
        0 <= p < c.len() ==> (first_of_its_name(c, p) <==> exists|j: int| 0 <= j < idx.len() && #[trigger] idx[j] == p)
}

/// The scan keeps exactly the entries first with their name, in order, and
/// has seen exactly the non-empty names of the list.
proof fn lemma_by_name_scan_positions(c: Seq<JsonData>) -> (idx: Seq<int>)
    ensures
        kept_in_order(c, by_name_scan(c).0, idx),
        forall|n: Seq<char>|
            by_name_scan(c).1.contains(n) <==> (n.len() > 0 && exists|q: int|
                0 <= q < c.len() && text_or_empty(#[trigger] c[q], "name"@) == n),
    decreases c.len(),
{
    if c.len() == 0 {
        Seq::empty()
    } else {
        let init = c.drop_last();
        let idx0 = lemma_by_name_scan_positions(init);
        let (out, seen) = by_name_scan(init);
        let x = c.last();
        let nm = text_or_empty(x, "name"@);
        let last = c.len() - 1;
        assert forall|q: int| 0 <= q < init.len() implies #[trigger] init[q] == c[q] by {}
        assert forall|p: int| 0 <= p < init.len() implies first_of_its_name(c, p) == first_of_its_name(init, p) by {
            assert forall|q: int| 0 <= q < p implies init[q] == c[q] by {}
        }
        if nm.len() > 0 && seen.contains(nm) {
            let q0 = choose|q: int| 0 <= q < init.len() && text_or_empty(#[trigger] init[q], "name"@) == nm;
            assert(init[q0] == c[q0]);
            assert(!first_of_its_name(c, last));
            assert forall|p: int| 0 <= p < c.len() implies (first_of_its_name(c, p) <==> exists|j: int|
                0 <= j < idx0.len() && #[trigger] idx0[j] == p) by {
                if p == last {
                    if exists|j: int| 0 <= j < idx0.len() && #[trigger] idx0[j] == p {
                        let j = choose|j: int| 0 <= j < idx0.len() && #[trigger] idx0[j] == p;
                        assert(idx0[j] < init.len());
                    }
                }
            }
            assert forall|n: Seq<char>| seen.contains(n) <==> (n.len() > 0 && exists|q: int|
                0 <= q < c.len() && text_or_empty(#[trigger] c[q], "name"@) == n) by {
                if n.len() > 0 && exists|q: int| 0 <= q < c.len() && text_or_empty(#[trigger] c[q], "name"@) == n {
                    let q = choose|q: int| 0 <= q < c.len() && text_or_empty(#[trigger] c[q], "name"@) == n;
                    if q < last {
                        assert(text_or_empty(init[q], "name"@) == n);
                    }
                }
                if seen.contains(n) {
                    let q = choose|q: int| 0 <= q < init.len() && text_or_empty(#[trigger] init[q], "name"@) == n;
                    assert(c[q] == init[q]);
                }
            }
            idx0
        } else {
            let idx = idx0.push(last);
            let out2 = out.push(x);
            let seen2 = if nm.len() > 0 {
                seen.push(nm)
            } else {
                seen
            };
            assert(first_of_its_name(c, last)) by {
                if nm.len() > 0 {
                    assert forall|q: int| 0 <= q < last implies text_or_empty(#[trigger] c[q], "name"@) != nm by {
                        assert(c[q] == init[q]);
                        if text_or_empty(c[q], "name"@) == nm {
                            assert(seen.contains(nm));
                        }
                    }
                }
            }
            assert forall|j: int| 0 <= j < idx.len() implies 0 <= #[trigger] idx[j] < c.len() && out2[j] == c[idx[j]] by {
                if j < idx0.len() {
                    assert(idx[j] == idx0[j]);
                    assert(out2[j] == out[j]);
                    assert(init[idx0[j]] == c[idx0[j]]);
                }
            }
            assert forall|j1: int, j2: int| 0 <= j1 < j2 < idx.len() implies #[trigger] idx[j1] < #[trigger] idx[j2] by {
                if j2 < idx0.len() {
                    assert(idx[j1] == idx0[j1] && idx[j2] == idx0[j2]);
                } else {
                    assert(idx[j1] == idx0[j1]);
                    assert(idx0[j1] < init.len());
                }
            }
            assert forall|p: int| 0 <= p < c.len() implies (first_of_its_name(c, p) <==> exists|j: int|
                0 <= j < idx.len() && #[trigger] idx[j] == p) by {
                if p == last {
                    assert(idx[idx0.len() as int] == p);
                } else {
                    if exists|j: int| 0 <= j < idx0.len() && #[trigger] idx0[j] == p {
                        let j = choose|j: int| 0 <= j < idx0.len() && #[trigger] idx0[j] == p;
                        assert(idx[j] == p);
                    }
                    if exists|j: int| 0 <= j < idx.len() && #[trigger] idx[j] == p {
                        let j = choose|j: int| 0 <= j < idx.len() && #[trigger] idx[j] == p;
                        assert(j < idx0.len());
                        assert(idx0[j] == p);
                    }
                }
            }
            assert forall|n: Seq<char>| seen2.contains(n) <==> (n.len() > 0 && exists|q: int|
                0 <= q < c.len() && text_or_empty(#[trigger] c[q], "name"@) == n) by {
                if n.len() > 0 && exists|q: int| 0 <= q < c.len() && text_or_empty(#[trigger] c[q], "name"@) == n {
                    let q = choose|q: int| 0 <= q < c.len() && text_or_empty(#[trigger] c[q], "name"@) == n;
                    if q < last {
                        assert(text_or_empty(init[q], "name"@) == n);
                        assert(seen.contains(n));
                        let w = choose|w: int| 0 <= w < seen.len() && seen[w] == n;
                        assert(seen2[w] == n);
                    } else {
                        assert(seen2[seen.len() as int] == n);
                    }
                }
                if seen2.contains(n) {
                    let w = choose|w: int| 0 <= w < seen2.len() && seen2[w] == n;
                    if w < seen.len() {
                        assert(seen[w] == n);
                        assert(seen.contains(n));
                        let q = choose|q: int| 0 <= q < init.len() && text_or_empty(#[trigger] init[q], "name"@) == n;
                        assert(c[q] == init[q]);
                    } else {
                        assert(text_or_empty(c[last], "name"@) == n);
                    }
                }
            }
            idx
        }
    }
}

/// Douban's people come first: for every role key of the merged people of
/// two objects, the list holds the entries of Douban's list for that key
/// followed by TMDB's, in that order, keeping exactly those whose non-empty
/// name no earlier entry has (so Douban's entry wins over a TMDB repeat).
pub proof fn lemma_merged_people_douban_first(db: JsonData, tmdb: JsonData, i: int)
    requires
        db is Members,
        tmdb is Members,
        0 <= i < merged_people(db, tmdb)->Members_0.len(),
    ensures
        ({
            let m = merged_people(db, tmdb)->Members_0[i];
            let c = list_or_empty(db, m.0) + list_or_empty(tmdb, m.0);
            &&& m.1 is List
            &&& exists|idx: Seq<int>| #[trigger] kept_in_order(c, m.1->List_0, idx)
        }),
{
    let keys = append_missing(Seq::empty(), keys_of(db) + keys_of(tmdb));
    let k = keys[i];
    let c = list_or_empty(db, k) + list_or_empty(tmdb, k);
    let idx = lemma_by_name_scan_positions(c);
    let m = merged_people(db, tmdb)->Members_0[i];
    assert(m == (k, JsonData::List(by_name_scan(c).0)));
    assert(m.0 == k);
    assert(list_or_empty(db, m.0) + list_or_empty(tmdb, m.0) == c);
    assert(m.1 == JsonData::List(by_name_scan(c).0));
    assert(kept_in_order(c, by_name_scan(c).0, idx));
    assert(m.1->List_0 == by_name_scan(c).0);
    assert(kept_in_order(list_or_empty(db, m.0) + list_or_empty(tmdb, m.0), m.1->List_0, idx));
}

// ───────── empty fields ─────────

/// An empty field: `null`, `""`, `[]` or `{}`.
pub open spec fn is_blank(d: JsonData) -> bool {
    match d {
        JsonData::Null => true,
        JsonData::Text(s) => s.len() == 0,
        JsonData::List(l) => l.len() == 0,
        JsonData::Members(ms) => ms.len() == 0,
        _ => false,
    }
}

/// A value with its empty fields removed, recursively: an empty value
/// becomes `null`; in lists and objects the cleaned children that are empty
/// are dropped.
pub open spec fn cleaned(d: JsonData) -> JsonData
    decreases d, 1nat,
{
    if is_blank(d) {
        JsonData::Null
    } else {
        match d {
            JsonData::List(l) => JsonData::List(cleaned_list(l)),
            JsonData::Members(ms) => JsonData::Members(cleaned_members(ms)),
            _ => d,
        }
    }
}

/// The cleaned elements of a list that are not empty, in order.
pub open spec fn cleaned_list(l: Seq<JsonData>) -> Seq<JsonData>
    decreases l, 0nat,
{
    if l.len() == 0 {
        Seq::empty()
    } else {
        proof {
            assert(decreases_to!(l => l.subrange(0, l.len() - 1)));
            assert(decreases_to!(l => l[l.len() - 1]));
        }
        let rest = cleaned_list(l.subrange(0, l.len() - 1));
        let c = cleaned(l[l.len() - 1]);
        if is_blank(c) {
            rest
        } else {
            rest.push(c)
        }
    }
}

/// The members of an object with their values cleaned, those left empty
/// dropped, in order.
pub open spec fn cleaned_members(ms: Seq<(Seq<char>, JsonData)>) -> Seq<(Seq<char>, JsonData)>
    decreases ms, 0nat,
{
    if ms.len() == 0 {
        Seq::empty()
    } else {
        proof {
            assert(decreases_to!(ms => ms.subrange(0, ms.len() - 1)));
            assert(decreases_to!(ms => ms[ms.len() - 1]));
            assert(decreases_to!(ms[ms.len() - 1] => ms[ms.len() - 1].1));
        }
        let rest = cleaned_members(ms.subrange(0, ms.len() - 1));
        let c = cleaned(ms[ms.len() - 1].1);
        if is_blank(c) {
            rest
        } else {
            rest.push((ms[ms.len() - 1].0, c))
        }
    }
}

/// `is_empty`: whether a value is an empty field.
fn is_empty(v: &JsonValue) -> (r: bool)
    ensures
        r == is_blank(v@),
{
    match v {
        JsonValue::Null => true,
        JsonValue::Str(s) => s.as_str().is_empty(),
        JsonValue::Array(a) => a.len() == 0,
        JsonValue::Object(m) => m.len() == 0,
        _ => false,
    }
}

/// The value with its empty fields removed, from a borrowed value.
fn clean_ref(data: &JsonValue) -> (r: JsonValue)
    ensures
        r@ == cleaned(data@),
    decreases data,
{
    if is_empty(data) {
        return JsonValue::Null;
    }
    match data {
        JsonValue::Object(ms) => {
            let ghost dms = data@->Members_0;
            let mut out: Vec<(String, JsonValue)> = Vec::new();
            let mut i: usize = 0;
            while i < ms.len()
                invariant
                    *data == JsonValue::Object(*ms),
                    i <= ms@.len(),
                    dms == data@->Members_0,
                    dms.len() == ms@.len(),
                    forall|j: int| 0 <= j < ms@.len() ==> #[trigger] dms[j] == (ms@[j].0@, ms@[j].1@),
                    out@.map_values(|m: (String, JsonValue)| (m.0@, m.1@)) == cleaned_members(dms.take(i as int)),
                decreases ms@.len() - i,
            {
                proof {
                    assert(decreases_to!(*data => data->Object_0));
                    assert(decreases_to!(data->Object_0 => data->Object_0@));
                    assert(decreases_to!(data->Object_0@ => data->Object_0@[i as int]));
                    assert(decreases_to!(data->Object_0@[i as int] => data->Object_0@[i as int].1));
                    let t = dms.take(i + 1);
                    assert(t.subrange(0, t.len() - 1) =~= dms.take(i as int));
                    assert(t[t.len() - 1] == dms[i as int]);
                }
                let c = clean_ref(&ms[i].1);
                if !is_empty(&c) {
                    let ghost before = out@;
                    let ghost cv = c@;
                    out.push((ms[i].0.clone(), c));
                    assert(out@.map_values(|m: (String, JsonValue)| (m.0@, m.1@)) =~= before.map_values(
                        |m: (String, JsonValue)| (m.0@, m.1@),
                    ).push((ms@[i as int].0@, cv)));
                }
                i = i + 1;
            }
            assert(dms.take(ms@.len() as int) =~= dms);
            let r = JsonValue::Object(out);
            assert(r@->Members_0 =~= out@.map_values(|m: (String, JsonValue)| (m.0@, m.1@)));
            r
        },
        JsonValue::Array(items) => {
            let ghost dl = data@->List_0;
            let mut out: Vec<JsonValue> = Vec::new();
            let mut i: usize = 0;
            while i < items.len()
                invariant
                    *data == JsonValue::Array(*items),
                    i <= items@.len(),
                    dl == data@->List_0,
                    dl.len() == items@.len(),
                    forall|j: int| 0 <= j < items@.len() ==> #[trigger] dl[j] == items@[j]@,
                    out@.map_values(|x: JsonValue| x@) == cleaned_list(dl.take(i as int)),
                decreases items@.len() - i,
            {
                proof {
                    assert(decreases_to!(*data => data->Array_0));
                    assert(decreases_to!(data->Array_0 => data->Array_0@));
                    assert(decreases_to!(data->Array_0@ => data->Array_0@[i as int]));
                    let t = dl.take(i + 1);
                    assert(t.subrange(0, t.len() - 1) =~= dl.take(i as int));
                    assert(t[t.len() - 1] == dl[i as int]);
                }
                let c = clean_ref(&items[i]);
                if !is_empty(&c) {
                    let ghost before = out@;
                    let ghost cv = c@;
                    out.push(c);
                    assert(out@.map_values(|x: JsonValue| x@) =~= before.map_values(|x: JsonValue| x@).push(cv));
                }
                i = i + 1;
            }
            assert(dl.take(items@.len() as int) =~= dl);
            let r = JsonValue::Array(out);
            assert(r@->List_0 =~= out@.map_values(|x: JsonValue| x@));
            r
        },
        _ => data.copy(),
    }
}

/// Removes empty fields (`""`, `[]`, `{}`, `null`) recursively, so that the
/// JSON output is clean.
pub fn clean_output(data: JsonValue) -> (r: JsonValue)
    ensures
        r@ == cleaned(data@),
{
    clean_ref(&data)
}

/// Every element of a cleaned list is one of the list's elements cleaned,
/// and is not empty.
proof fn lemma_cleaned_list_elements(l: Seq<JsonData>)
    ensures
        forall|k: int|
            0 <= k < cleaned_list(l).len() ==> !is_blank(#[trigger] cleaned_list(l)[k]) && exists|j: int|
                0 <= j < l.len() && cleaned_list(l)[k] == cleaned(#[trigger] l[j]),
    decreases l.len(),
{
    if l.len() > 0 {
        let init = l.subrange(0, l.len() - 1);
        lemma_cleaned_list_elements(init);
        let rest = cleaned_list(init);
        assert forall|k: int| 0 <= k < cleaned_list(l).len() implies !is_blank(
            #[trigger] cleaned_list(l)[k],
        ) && exists|j: int| 0 <= j < l.len() && cleaned_list(l)[k] == cleaned(#[trigger] l[j]) by {
            if k < rest.len() {
                let j = choose|j: int| 0 <= j < init.len() && rest[k] == cleaned(#[trigger] init[j]);
                assert(init[j] == l[j]);
            } else {
                assert(cleaned_list(l)[k] == cleaned(l[l.len() - 1]));
            }
        }
    }
}

/// Every member of a cleaned object is one of the object's members with its
/// value cleaned, and that value is not empty.
proof fn lemma_cleaned_members_elements(ms: Seq<(Seq<char>, JsonData)>)
    ensures
        forall|k: int|
            0 <= k < cleaned_members(ms).len() ==> !is_blank((#[trigger] cleaned_members(ms)[k]).1) && exists|
                j: int,
            |
                0 <= j < ms.len() && cleaned_members(ms)[k] == (ms[j].0, cleaned((#[trigger] ms[j]).1)),
    decreases ms.len(),
{
    if ms.len() > 0 {
        let init = ms.subrange(0, ms.len() - 1);
        lemma_cleaned_members_elements(init);
        let rest = cleaned_members(init);
        assert forall|k: int| 0 <= k < cleaned_members(ms).len() implies !is_blank(
            (#[trigger] cleaned_members(ms)[k]).1,
        ) && exists|j: int| 0 <= j < ms.len() && cleaned_members(ms)[k] == (ms[j].0, cleaned((#[trigger] ms[j]).1)) by {
            if k < rest.len() {
                let j = choose|j: int|
                    0 <= j < init.len() && rest[k] == (init[j].0, cleaned((#[trigger] init[j]).1));
                assert(init[j] == ms[j]);
            } else {
                assert(cleaned_members(ms)[k] == (ms[ms.len() - 1].0, cleaned(ms[ms.len() - 1].1)));
            }
        }
    }
}

/// A list whose elements are clean and not empty is left as it is.
proof fn lemma_cleaned_list_fixed(l: Seq<JsonData>)
    requires
        forall|k: int| 0 <= k < l.len() ==> !is_blank(#[trigger] l[k]) && cleaned(l[k]) == l[k],
    ensures
        cleaned_list(l) == l,
    decreases l.len(),
{
    if l.len() > 0 {
        let init = l.subrange(0, l.len() - 1);
        assert forall|k: int| 0 <= k < init.len() implies !is_blank(#[trigger] init[k]) && cleaned(init[k])
            == init[k] by {
            assert(init[k] == l[k]);
        }
        lemma_cleaned_list_fixed(init);
        assert(cleaned(l[l.len() - 1]) == l[l.len() - 1]);
        assert(init.push(l[l.len() - 1]) =~= l);
    }
}

/// An object whose member values are clean and not empty is left as it is.
proof fn lemma_cleaned_members_fixed(ms: Seq<(Seq<char>, JsonData)>)
    requires
        forall|k: int| 0 <= k < ms.len() ==> !is_blank((#[trigger] ms[k]).1) && cleaned(ms[k].1) == ms[k].1,
    ensures
        cleaned_members(ms) == ms,
    decreases ms.len(),
{
    if ms.len() > 0 {
        let init = ms.subrange(0, ms.len() - 1);
        assert forall|k: int| 0 <= k < init.len() implies !is_blank((#[trigger] init[k]).1) && cleaned(
            init[k].1,
        ) == init[k].1 by {
            assert(init[k] == ms[k]);
        }
        lemma_cleaned_members_fixed(init);
        let last = ms[ms.len() - 1];
        assert(cleaned(last.1) == last.1);
        assert(init.push((last.0, last.1)) =~= ms);
    }
}

/// The output of `clean_output` holds no empty field below the top: every
/// element of a list and every member value of an object is not empty and
/// is left as it is by cleaning again.
pub proof fn lemma_clean_output_children(d: JsonData)
    ensures
        cleaned(d) matches JsonData::List(l) ==> forall|k: int|
            0 <= k < l.len() ==> !is_blank(#[trigger] l[k]) && cleaned(l[k]) == l[k],
        cleaned(d) matches JsonData::Members(ms) ==> forall|k: int|
            0 <= k < ms.len() ==> !is_blank((#[trigger] ms[k]).1) && cleaned(ms[k].1) == ms[k].1,
    decreases d, 0nat,
{
    if !is_blank(d) {
        match d {
            JsonData::List(l) => {
                lemma_cleaned_list_elements(l);
                let cl = cleaned_list(l);
                assert forall|k: int| 0 <= k < cl.len() implies !is_blank(#[trigger] cl[k]) && cleaned(cl[k])
                    == cl[k] by {
                    let j = choose|j: int| 0 <= j < l.len() && cl[k] == cleaned(#[trigger] l[j]);
                    assert(decreases_to!(d => l[j]));
                    lemma_clean_output_idempotent_nonblank(l[j]);
                }
            },
            JsonData::Members(ms) => {
                lemma_cleaned_members_elements(ms);
                let cm = cleaned_members(ms);
                assert forall|k: int| 0 <= k < cm.len() implies !is_blank((#[trigger] cm[k]).1) && cleaned(
                    cm[k].1,
                ) == cm[k].1 by {
                    let j = choose|j: int| 0 <= j < ms.len() && cm[k] == (ms[j].0, cleaned((#[trigger] ms[j]).1));
                    assert(decreases_to!(d => ms[j].1));
                    lemma_clean_output_idempotent_nonblank(ms[j].1);
                }
            },
            _ => {},
        }
    }
}

/// Cleaning a value whose cleaning is not empty again changes nothing.
proof fn lemma_clean_output_idempotent_nonblank(d: JsonData)
    ensures
        !is_blank(cleaned(d)) ==> cleaned(cleaned(d)) == cleaned(d),
    decreases d, 1nat,
{
    if !is_blank(cleaned(d)) {
        lemma_clean_output_children(d);
        match cleaned(d) {
            JsonData::List(l) => {
                lemma_cleaned_list_fixed(l);
            },
            JsonData::Members(ms) => {
                lemma_cleaned_members_fixed(ms);
            },
            _ => {},
        }
    }
}

/// `clean_output` is idempotent, except where its output is an empty list
/// or object, which cleaning again turns into `null`.
pub proof fn lemma_clean_output_idempotent(d: JsonData)
    requires
        cleaned(d) != JsonData::List(Seq::empty()),
        cleaned(d) != JsonData::Members(Seq::empty()),
    ensures
        cleaned(cleaned(d)) == cleaned(d),
{
    lemma_clean_output_idempotent_nonblank(d);
    if is_blank(cleaned(d)) {
        match cleaned(d) {
            JsonData::List(l) => {
                assert(l =~= Seq::<JsonData>::empty());
            },
            JsonData::Members(ms) => {
                assert(ms =~= Seq::<(Seq<char>, JsonData)>::empty());
            },
            _ => {},
        }
    }
}

} // verus!
