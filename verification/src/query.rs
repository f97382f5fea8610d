//! The SQL statements of the library database that depend on user input.
//! Column names come from whitelists and every user value is bound as a
//! parameter; full-text terms are quoted so FTS5 syntax in them is inert.

use vstd::prelude::*;

use crate::models::{spec_sort_column, Folder, SearchFilters, SortField};
use crate::smart::{param_views, SqlParam, SqlValue};
use crate::text::{
    chars_of, is_whitespace, join, opt_chars, push_char, push_str, spec_is_whitespace, spec_join,
    string_views,
};
use crate::util::{escape_like, spec_escape_like};
use crate::text::{has_prefix, has_suffix};

verus! {

/// The columns selected for every track row, in the order the row reader
/// expects them.
pub const TRACK_COLUMNS: &'static str = "id, path, title, artist, album, album_artist, genre, composer, year, track_no, disc_no, duration_ms, bitrate, sample_rate, channels, format, folder, art_hash, favorite, play_count, last_played, date_added, replay_gain_db, lyrics, lyrics_synced";

// ---------------------------------------------------------------------------
// Full-text terms
// ---------------------------------------------------------------------------

/// The replacement of one character inside a quoted FTS5 string: a double
/// quote is doubled and a line break becomes a space.
pub open spec fn fts_escape_char(c: char) -> Seq<char> {
    if c == '"' {
        seq!['"', '"']
    } else if c == '\n' || c == '\r' {
        seq![' ']
    } else {
        seq![c]
    }
}

/// `s` made safe to stand inside an FTS5 phrase.
pub open spec fn spec_fts_escape(s: Seq<char>) -> Seq<char>
    decreases s.len(),
{
    if s.len() == 0 {
        Seq::empty()
    } else {
        spec_fts_escape(s.drop_last()) + fts_escape_char(s.last())
    }
}

/// Neutralises FTS5 query syntax in a raw user term so it is treated as a
/// literal phrase.
pub fn fts_escape(term: &str) -> (r: String)
    ensures
        r@ == spec_fts_escape(term@),
{
    let cs = chars_of(term);
    let mut r = String::new();
    let mut i: usize = 0;
    while i < cs.len()
        invariant
            i <= cs@.len(),
            cs@ == term@,
            r@ == spec_fts_escape(term@.take(i as int)),
        decreases cs@.len() - i,
    {
        let c = cs[i];
        if c == '"' {
            push_char(&mut r, '"');
            push_char(&mut r, '"');
        } else if c == '\n' || c == '\r' {
            push_char(&mut r, ' ');
        } else {
            push_char(&mut r, c);
        }
        proof {
            assert(term@.take(i + 1).drop_last() =~= term@.take(i as int));
            assert(spec_fts_escape(term@.take(i + 1)) =~= spec_fts_escape(term@.take(i as int))
                + fts_escape_char(c));
        }
        i += 1;
    }
    proof {
        assert(term@.take(cs@.len() as int) =~= term@);
    }
    r
}

/// The words of `s`: its maximal runs of non-whitespace characters, in order
/// (as `str::split_whitespace`).
pub open spec fn spec_words(s: Seq<char>) -> Seq<Seq<char>>
    decreases s.len(),
{
    if s.len() == 0 {
        Seq::empty()
    } else {
        let w = spec_words(s.drop_last());
        let c = s.last();
        if spec_is_whitespace(c) {
            w
        } else if s.len() >= 2 && !spec_is_whitespace(s[s.len() - 2]) && w.len() > 0 {
            w.update(w.len() - 1, w.last().push(c))
        } else {
            w.push(seq![c])
        }
    }
}

/// Splits `s` into its whitespace-separated words.
pub fn split_words(s: &str) -> (r: Vec<String>)
    ensures
        string_views(r@) == spec_words(s@),
{
    let cs = chars_of(s);
    let mut words: Vec<String> = Vec::new();
    let mut cur = String::new();
    let mut in_word = false;
    let mut i: usize = 0;
    while i < cs.len()
        invariant
            i <= cs@.len(),
            cs@ == s@,
            in_word <==> (i > 0 && !spec_is_whitespace(s@[i - 1])),
            in_word ==> cur@.len() > 0 && spec_words(s@.take(i as int)) == string_views(
                words@,
            ).push(cur@),
            !in_word ==> spec_words(s@.take(i as int)) == string_views(words@),
        decreases cs@.len() - i,
    {
        let c = cs[i];
        let ghost prefix = s@.take(i as int);
        let ghost old_words = words@;
        let ghost old_cur = cur@;
        proof {
            assert(s@.take(i + 1).drop_last() =~= prefix);
            assert(s@.take(i + 1).last() == c);
            if i > 0 {
                assert(s@.take(i + 1)[i - 1] == s@[i - 1]);
            }
        }
        if is_whitespace(c) {
            if in_word {
                words.push(cur);
                cur = String::new();
                proof {
                    assert(string_views(words@) =~= string_views(old_words).push(old_cur));
                }
            }
            in_word = false;
        } else {
            if in_word {
                push_char(&mut cur, c);
                proof {
                    assert(string_views(old_words).push(old_cur).update(
                        old_words.len() as int,
                        old_cur.push(c),
                    ) =~= string_views(words@).push(cur@));
                }
            } else {
                cur = String::new();
                push_char(&mut cur, c);
                proof {
                    assert(cur@ =~= seq![c]);
                }
            }
            in_word = true;
        }
        i += 1;
    }
    proof {
        assert(s@.take(cs@.len() as int) =~= s@);
    }
    if in_word {
        let ghost old_words = words@;
        words.push(cur);
        proof {
            assert(string_views(words@) =~= string_views(old_words).push(
                spec_words(s@).last(),
            ));
        }
    }
    words
}

/// One search word as an FTS5 prefix phrase: quoted, escaped, starred.
pub open spec fn quoted_term(t: Seq<char>) -> Seq<char> {
    seq!['"'] + spec_fts_escape(t) + seq!['"', '*']
}

/// The FTS5 MATCH expression of a query: every word as a prefix phrase,
/// separated by spaces (FTS5's implicit AND).
pub open spec fn spec_fts_match(query: Seq<char>) -> Seq<char> {
    spec_join(spec_words(query).map_values(|t: Seq<char>| quoted_term(t)), seq![' '])
}

/// Builds the FTS5 MATCH expression of a user query.
pub fn fts_match(query: &str) -> (r: String)
    ensures
        r@ == spec_fts_match(query@),
{
    let words = split_words(query);
    let ghost ws = spec_words(query@);
    let mut quoted: Vec<String> = Vec::new();
    let mut i: usize = 0;
    while i < words.len()
        invariant
            i <= words@.len(),
            string_views(words@) == ws,
            string_views(quoted@) == ws.take(i as int).map_values(|t: Seq<char>| quoted_term(t)),
        decreases words@.len() - i,
    {
        let mut q = String::new();
        push_char(&mut q, '"');
        let e = fts_escape(words[i].as_str());
        push_str(&mut q, e.as_str());
        push_char(&mut q, '"');
        push_char(&mut q, '*');
        let ghost old_q = quoted@;
        proof {
            assert(ws[i as int] == words@[i as int]@);
            assert(q@ =~= quoted_term(ws[i as int]));
        }
        quoted.push(q);
        proof {
            assert(string_views(quoted@) =~= string_views(old_q).push(quoted_term(ws[i as int])));
            assert(ws.take(i + 1).map_values(|t: Seq<char>| quoted_term(t)) =~= ws.take(
                i as int,
            ).map_values(|t: Seq<char>| quoted_term(t)).push(quoted_term(ws[i as int])));
        }
        i += 1;
    }
    proof {
        assert(ws.take(words@.len() as int) =~= ws);
    }
    let sep = " ";
    proof {
        reveal_strlit(" ");
        assert(sep@ =~= seq![' ']);
    }
    join(&quoted, sep)
}

// ---------------------------------------------------------------------------
// Search
// ---------------------------------------------------------------------------

/// The lowercase form of a string under Unicode's case mapping (the result
/// of std `str::to_lowercase`).
pub uninterp spec fn unicode_lowercase(s: Seq<char>) -> Seq<char>;

/// std `str::to_lowercase`: the Unicode lowercase mapping of `s`. Its result
/// depends on `s` alone and is named, not spelled out.
#[verifier::external_body]
fn to_lowercase(s: &str) -> (r: String)
    ensures
        r@ == unicode_lowercase(s@),
{
    s.to_lowercase()
}

/// The condition that restricts a search to full-text matches.
pub open spec fn fts_condition() -> Seq<char> {
    "id IN (SELECT rowid FROM tracks_fts WHERE tracks_fts MATCH ?)"@
}

/// The statement tail shared by every search: ranking and the row limit.
pub open spec fn search_order_limit() -> Seq<char> {
    " ORDER BY favorite DESC, play_count DESC, title COLLATE NOCASE LIMIT ?"@
}

/// `[c]` when `b` holds, nothing otherwise.
pub open spec fn cond_if(b: bool, c: Seq<char>) -> Seq<Seq<char>> {
    if b {
        seq![c]
    } else {
        Seq::empty()
    }
}

/// The condition of an optional inclusive range on `col`.
pub open spec fn range_condition(col: Seq<char>, min: Option<i64>, max: Option<i64>) -> Seq<
    Seq<char>,
> {
    match (min, max) {
        (Some(_), Some(_)) => seq![col + " BETWEEN ? AND ?"@],
        (Some(_), None) => seq![col + " >= ?"@],
        (None, Some(_)) => seq![col + " <= ?"@],
        (None, None) => Seq::empty(),
    }
}

/// The parameters of an optional inclusive range.
pub open spec fn range_params(min: Option<i64>, max: Option<i64>) -> Seq<SqlParam> {
    match (min, max) {
        (Some(a), Some(b)) => seq![SqlParam::Integer(a), SqlParam::Integer(b)],
        (Some(a), None) => seq![SqlParam::Integer(a)],
        (None, Some(b)) => seq![SqlParam::Integer(b)],
        (None, None) => Seq::empty(),
    }
}

/// A text parameter when the value is present.
pub open spec fn text_param_if(v: Option<Seq<char>>) -> Seq<SqlParam> {
    match v {
        Some(t) => seq![SqlParam::Text(t)],
        None => Seq::empty(),
    }
}

/// `%value%` with LIKE wildcards in the value escaped.
pub open spec fn contains_pattern(v: Seq<char>) -> Seq<char> {
    "%"@ + spec_escape_like(v) + "%"@
}

/// The conditions of the text filters: genre, composer, format, folder.
/// `format_value` is the format filter as bound.
pub open spec fn text_filter_conditions(f: SearchFilters, format_value: Option<Seq<char>>) -> Seq<
    Seq<char>,
> {
    cond_if(f.genre is Some, "genre = ?"@) + cond_if(
        f.composer is Some,
        "composer LIKE ? ESCAPE '\\'"@,
    ) + cond_if(format_value is Some, "format = ?"@) + cond_if(
        f.folder is Some,
        "folder LIKE ? ESCAPE '\\'"@,
    )
}

/// The parameters of the text filters: genre and format match exactly,
/// composer and folder as substrings.
pub open spec fn text_filter_params(f: SearchFilters, format_value: Option<Seq<char>>) -> Seq<
    SqlParam,
> {
    text_param_if(opt_chars(f.genre)) + text_param_if(
        match f.composer {
            Some(c) => Some(contains_pattern(c@)),
            None => None,
        },
    ) + text_param_if(format_value) + text_param_if(
        match f.folder {
            Some(d) => Some(contains_pattern(d@)),
            None => None,
        },
    )
}

/// The conditions of the numeric filters: year range, minimum bitrate,
/// duration range.
pub open spec fn numeric_filter_conditions(f: SearchFilters) -> Seq<Seq<char>> {
    range_condition("year"@, f.year_min, f.year_max) + cond_if(
        f.bitrate_min is Some,
        "bitrate >= ?"@,
    ) + range_condition("duration_ms"@, f.duration_min_ms, f.duration_max_ms)
}

/// The parameters of the numeric filters.
pub open spec fn numeric_filter_params(f: SearchFilters) -> Seq<SqlParam> {
    range_params(f.year_min, f.year_max) + match f.bitrate_min {
        Some(b) => seq![SqlParam::Integer(b)],
        None => Seq::<SqlParam>::empty(),
    } + range_params(f.duration_min_ms, f.duration_max_ms)
}

/// The conditions of a search, in order: full text (when the query has a
/// word), then the text filters, then the numeric filters.
pub open spec fn search_conditions(
    query: Seq<char>,
    f: SearchFilters,
    format_value: Option<Seq<char>>,
) -> Seq<Seq<char>> {
    cond_if(spec_words(query).len() > 0, fts_condition()) + text_filter_conditions(f, format_value)
        + numeric_filter_conditions(f)
}

/// The parameters of a search, one per `?` in condition order, then the
/// row limit.
pub open spec fn search_params(
    query: Seq<char>,
    f: SearchFilters,
    format_value: Option<Seq<char>>,
    limit: i64,
) -> Seq<SqlParam> {
    text_param_if(
        if spec_words(query).len() > 0 {
            Some(spec_fts_match(query))
        } else {
            None
        },
    ) + text_filter_params(f, format_value) + numeric_filter_params(f) + seq![
        SqlParam::Integer(limit),
    ]
}

/// `WHERE` and the conditions joined by AND, or nothing without conditions.
pub open spec fn where_all(conds: Seq<Seq<char>>) -> Seq<char> {
    if conds.len() == 0 {
        Seq::empty()
    } else {
        "WHERE "@ + spec_join(conds, " AND "@)
    }
}

/// The search statement and its parameters.
pub open spec fn spec_search_statement(
    query: Seq<char>,
    f: SearchFilters,
    format_value: Option<Seq<char>>,
    limit: i64,
) -> (Seq<char>, Seq<SqlParam>) {
    (
        "SELECT "@ + TRACK_COLUMNS@ + " FROM tracks "@ + where_all(
            search_conditions(query, f, format_value),
        ) + search_order_limit(),
        search_params(query, f, format_value, limit),
    )
}

/// Appends a condition.
fn push_cond(conds: &mut Vec<String>, c: String)
    ensures
        string_views(final(conds)@) == string_views(old(conds)@).push(c@),
{
    let ghost before = conds@;
    conds.push(c);
    proof {
        assert(string_views(conds@) =~= string_views(before).push(c@));
    }
}

/// Appends a parameter.
fn push_param(params: &mut Vec<SqlValue>, v: SqlValue)
    ensures
        param_views(final(params)@) == param_views(old(params)@).push(v@),
{
    let ghost before = params@;
    params.push(v);
    proof {
        assert(param_views(params@) =~= param_views(before).push(v@));
    }
}

/// A string holding `s`.
fn owned(s: &str) -> (r: String)
    ensures
        r@ == s@,
{
    let mut r = String::new();
    push_str(&mut r, s);
    proof {
        assert(Seq::<char>::empty() + s@ =~= s@);
    }
    r
}

/// Appends the condition and parameters of an optional range on `col`.
fn push_range(
    conds: &mut Vec<String>,
    params: &mut Vec<SqlValue>,
    col: &str,
    min: Option<i64>,
    max: Option<i64>,
)
    ensures
        string_views(final(conds)@) == string_views(old(conds)@) + range_condition(
            col@,
            min,
            max,
        ),
        param_views(final(params)@) == param_views(old(params)@) + range_params(min, max),
{
    let ghost c0 = string_views(conds@);
    let ghost p0 = param_views(params@);
    match (min, max) {
        (Some(a), Some(b)) => {
            let mut c = owned(col);
            push_str(&mut c, " BETWEEN ? AND ?");
            push_cond(conds, c);
            push_param(params, SqlValue::Integer(a));
            push_param(params, SqlValue::Integer(b));
        },
        (Some(a), None) => {
            let mut c = owned(col);
            push_str(&mut c, " >= ?");
            push_cond(conds, c);
            push_param(params, SqlValue::Integer(a));
        },
        (None, Some(b)) => {
            let mut c = owned(col);
            push_str(&mut c, " <= ?");
            push_cond(conds, c);
            push_param(params, SqlValue::Integer(b));
        },
        (None, None) => {},
    }
    proof {
        assert(string_views(conds@) =~= c0 + range_condition(col@, min, max));
        assert(param_views(params@) =~= p0 + range_params(min, max));
    }
}

/// `%value%` with the value's LIKE wildcards escaped.
fn contains_like(v: &str) -> (r: String)
    ensures
        r@ == contains_pattern(v@),
{
    let mut r = owned("%");
    let e = escape_like(v);
    push_str(&mut r, e.as_str());
    push_str(&mut r, "%");
    r
}

/// Appends the conditions and parameters of the text filters.
fn push_text_filters(
    conds: &mut Vec<String>,
    params: &mut Vec<SqlValue>,
    filters: &SearchFilters,
    format_value: Option<&str>,
)
    ensures
        string_views(final(conds)@) == string_views(old(conds)@) + text_filter_conditions(
            *filters,
            match format_value {
                Some(v) => Some(v@),
                None => None,
            },
        ),
        param_views(final(params)@) == param_views(old(params)@) + text_filter_params(
            *filters,
            match format_value {
                Some(v) => Some(v@),
                None => None,
            },
        ),
{
    let ghost fv: Option<Seq<char>> = match format_value {
        Some(v) => Some(v@),
        None => None,
    };
    let ghost c0 = string_views(conds@);
    let ghost p0 = param_views(params@);
    match &filters.genre {
        Some(g) => {
            push_cond(conds, owned("genre = ?"));
            push_param(params, SqlValue::Text(g.clone()));
        },
        None => {},
    }
    let ghost c1 = string_views(conds@);
    let ghost p1 = param_views(params@);
    match &filters.composer {
        Some(c) => {
            push_cond(conds, owned("composer LIKE ? ESCAPE '\\'"));
            push_param(params, SqlValue::Text(contains_like(c.as_str())));
        },
        None => {},
    }
    let ghost c2 = string_views(conds@);
    let ghost p2 = param_views(params@);
    match format_value {
        Some(v) => {
            push_cond(conds, owned("format = ?"));
            push_param(params, SqlValue::Text(owned(v)));
        },
        None => {},
    }
    let ghost c3 = string_views(conds@);
    let ghost p3 = param_views(params@);
    match &filters.folder {
        Some(d) => {
            push_cond(conds, owned("folder LIKE ? ESCAPE '\\'"));
            push_param(params, SqlValue::Text(contains_like(d.as_str())));
        },
        None => {},
    }
    proof {
        assert(c1 =~= c0 + cond_if(filters.genre is Some, "genre = ?"@));
        assert(c2 =~= c1 + cond_if(filters.composer is Some, "composer LIKE ? ESCAPE '\\'"@));
        assert(c3 =~= c2 + cond_if(fv is Some, "format = ?"@));
        assert(string_views(conds@) =~= c3 + cond_if(
            filters.folder is Some,
            "folder LIKE ? ESCAPE '\\'"@,
        ));
        assert(string_views(conds@) =~= c0 + text_filter_conditions(*filters, fv));
        assert(p1 =~= p0 + text_param_if(opt_chars(filters.genre)));
        assert(p2 =~= p1 + text_param_if(
            match filters.composer {
                Some(c) => Some(contains_pattern(c@)),
                None => None,
            },
        ));
        assert(p3 =~= p2 + text_param_if(fv));
        assert(param_views(params@) =~= p3 + text_param_if(
            match filters.folder {
                Some(d) => Some(contains_pattern(d@)),
                None => None,
            },
        ));
        assert(param_views(params@) =~= p0 + text_filter_params(*filters, fv));
    }
}

/// Appends the conditions and parameters of the numeric filters.
fn push_numeric_filters(
    conds: &mut Vec<String>,
    params: &mut Vec<SqlValue>,
    filters: &SearchFilters,
)
    ensures
        string_views(final(conds)@) == string_views(old(conds)@) + numeric_filter_conditions(
            *filters,
        ),
        param_views(final(params)@) == param_views(old(params)@) + numeric_filter_params(
            *filters,
        ),
{
    let ghost c0 = string_views(conds@);
    let ghost p0 = param_views(params@);
    push_range(conds, params, "year", filters.year_min, filters.year_max);
    let ghost c1 = string_views(conds@);
    let ghost p1 = param_views(params@);
    match filters.bitrate_min {
        Some(b) => {
            push_cond(conds, owned("bitrate >= ?"));
            push_param(params, SqlValue::Integer(b));
        },
        None => {},
    }
    let ghost c2 = string_views(conds@);
    let ghost p2 = param_views(params@);
    push_range(conds, params, "duration_ms", filters.duration_min_ms, filters.duration_max_ms);
    proof {
        assert(c2 =~= c1 + cond_if(filters.bitrate_min is Some, "bitrate >= ?"@));
        assert(p2 =~= p1 + match filters.bitrate_min {
            Some(b) => seq![SqlParam::Integer(b)],
            None => Seq::<SqlParam>::empty(),
        });
        assert(string_views(conds@) =~= c0 + numeric_filter_conditions(*filters));
        assert(param_views(params@) =~= p0 + numeric_filter_params(*filters));
    }
}

/// `WHERE` and the conditions joined by AND, or nothing without conditions.
fn where_all_clause(conds: &Vec<String>) -> (r: String)
    ensures
        r@ == where_all(string_views(conds@)),
{
    if conds.len() > 0 {
        let mut w = owned("WHERE ");
        let j = join(conds, " AND ");
        push_str(&mut w, j.as_str());
        w
    } else {
        String::new()
    }
}

/// The search statement with the format filter bound as `format_value`
/// (the caller's normalised form of `filters.format`; `None` drops the
/// format condition).
pub fn search_statement_with_format(
    query: &str,
    filters: &SearchFilters,
    format_value: Option<&str>,
    limit: i64,
) -> (r: (String, Vec<SqlValue>))
    ensures
        (r.0@, param_views(r.1@)) == spec_search_statement(
            query@,
            *filters,
            match format_value {
                Some(v) => Some(v@),
                None => None,
            },
            limit,
        ),
{
    let ghost fv: Option<Seq<char>> = match format_value {
        Some(v) => Some(v@),
        None => None,
    };
    let mut conds: Vec<String> = Vec::new();
    let mut params: Vec<SqlValue> = Vec::new();
    let words = split_words(query);
    if words.len() > 0 {
        push_cond(
            &mut conds,
            owned("id IN (SELECT rowid FROM tracks_fts WHERE tracks_fts MATCH ?)"),
        );
        push_param(&mut params, SqlValue::Text(fts_match(query)));
    }
    let ghost c1 = string_views(conds@);
    let ghost p1 = param_views(params@);
    push_text_filters(&mut conds, &mut params, filters, format_value);
    push_numeric_filters(&mut conds, &mut params, filters);
    push_param(&mut params, SqlValue::Integer(limit));
    proof {
        assert(c1 =~= cond_if(spec_words(query@).len() > 0, fts_condition()));
        assert(p1 =~= text_param_if(
            if spec_words(query@).len() > 0 {
                Some(spec_fts_match(query@))
            } else {
                None
            },
        ));
        assert(string_views(conds@) =~= search_conditions(query@, *filters, fv));
        assert(param_views(params@) =~= search_params(query@, *filters, fv, limit));
    }
    let mut sql = owned("SELECT ");
    push_str(&mut sql, TRACK_COLUMNS);
    push_str(&mut sql, " FROM tracks ");
    let w = where_all_clause(&conds);
    push_str(&mut sql, w.as_str());
    push_str(&mut sql, " ORDER BY favorite DESC, play_count DESC, title COLLATE NOCASE LIMIT ?");
    (sql, params)
}

/// Builds the search statement: every whitespace-separated word of `query`
/// must prefix-match some text field of the track (full-text index), and
/// each set filter narrows the result; the format filter is matched in its
/// lowercase form. The last parameter is the row limit.
pub fn search_statement(query: &str, filters: &SearchFilters, limit: i64) -> (r: (
    String,
    Vec<SqlValue>,
))
    ensures
        (r.0@, param_views(r.1@)) == spec_search_statement(
            query@,
            *filters,
            match filters.format {
                Some(f) => Some(unicode_lowercase(f@)),
                None => None,
            },
            limit,
        ),
{
    match &filters.format {
        Some(f) => {
            let lower = to_lowercase(f.as_str());
            search_statement_with_format(query, filters, Some(lower.as_str()), limit)
        },
        None => search_statement_with_format(query, filters, None, limit),
    }
}

// ---------------------------------------------------------------------------
// Paging, lookups by id, library folders
// ---------------------------------------------------------------------------

/// Whether a sort key orders text, compared without regard to case.
pub open spec fn sorts_text(sort: SortField) -> bool {
    sort == SortField::Title || sort == SortField::Artist || sort == SortField::Album
}

/// The ORDER BY expression of a sort key and direction.
pub open spec fn spec_order_clause(sort: SortField, desc: bool) -> Seq<char> {
    let dir = if desc {
        "DESC"@
    } else {
        "ASC"@
    };
    if sorts_text(sort) {
        spec_sort_column(sort) + " COLLATE NOCASE "@ + dir
    } else {
        spec_sort_column(sort) + " "@ + dir
    }
}

/// The ORDER BY expression for a track listing.
pub fn order_clause(sort: SortField, desc: bool) -> (r: String)
    ensures
        r@ == spec_order_clause(sort, desc),
{
    let dir = if desc {
        "DESC"
    } else {
        "ASC"
    };
    let mut r = owned(sort.column());
    match sort {
        SortField::Title | SortField::Artist | SortField::Album => push_str(
            &mut r,
            " COLLATE NOCASE ",
        ),
        _ => push_str(&mut r, " "),
    }
    push_str(&mut r, dir);
    r
}

/// The statement of one page of the track listing; with `by_folder` its
/// parameters are the folder, the limit and the offset, else the limit and
/// the offset.
pub open spec fn spec_tracks_page_statement(sort: SortField, desc: bool, by_folder: bool) -> Seq<
    char,
> {
    if by_folder {
        "SELECT "@ + TRACK_COLUMNS@ + " FROM tracks WHERE folder = ?1 ORDER BY "@
            + spec_order_clause(sort, desc) + " LIMIT ?2 OFFSET ?3"@
    } else {
        "SELECT "@ + TRACK_COLUMNS@ + " FROM tracks ORDER BY "@ + spec_order_clause(sort, desc)
            + " LIMIT ?1 OFFSET ?2"@
    }
}

/// Builds the statement of one page of the track listing.
pub fn tracks_page_statement(sort: SortField, desc: bool, by_folder: bool) -> (r: String)
    ensures
        r@ == spec_tracks_page_statement(sort, desc, by_folder),
{
    let order = order_clause(sort, desc);
    let mut sql = owned("SELECT ");
    push_str(&mut sql, TRACK_COLUMNS);
    if by_folder {
        push_str(&mut sql, " FROM tracks WHERE folder = ?1 ORDER BY ");
        push_str(&mut sql, order.as_str());
        push_str(&mut sql, " LIMIT ?2 OFFSET ?3");
    } else {
        push_str(&mut sql, " FROM tracks ORDER BY ");
        push_str(&mut sql, order.as_str());
        push_str(&mut sql, " LIMIT ?1 OFFSET ?2");
    }
    sql
}

/// `n` placeholders separated by commas.
pub open spec fn spec_placeholders(n: nat) -> Seq<char>
    decreases n,
{
    if n == 0 {
        Seq::empty()
    } else if n == 1 {
        seq!['?']
    } else {
        spec_placeholders((n - 1) as nat) + seq![',', '?']
    }
}

/// The statement that reads the tracks with `n` given ids.
pub open spec fn spec_tracks_by_ids_statement(n: nat) -> Seq<char> {
    "SELECT "@ + TRACK_COLUMNS@ + " FROM tracks WHERE id IN ("@ + spec_placeholders(n) + ")"@
}

/// Builds the statement that reads the tracks with `n` given ids (one
/// placeholder per id).
pub fn tracks_by_ids_statement(n: usize) -> (r: String)
    ensures
        r@ == spec_tracks_by_ids_statement(n as nat),
{
    let mut sql = owned("SELECT ");
    push_str(&mut sql, TRACK_COLUMNS);
    push_str(&mut sql, " FROM tracks WHERE id IN (");
    let ghost base = sql@;
    let mut i: usize = 0;
    while i < n
        invariant
            i <= n,
            sql@ == base + spec_placeholders(i as nat),
        decreases n - i,
    {
        if i > 0 {
            push_char(&mut sql, ',');
        }
        push_char(&mut sql, '?');
        proof {
            if i == 0 {
                assert(base + spec_placeholders(1) =~= base.push('?'));
            } else {
                assert(base + spec_placeholders((i + 1) as nat) =~= (base + spec_placeholders(
                    i as nat,
                )).push(',').push('?'));
            }
        }
        i += 1;
    }
    push_str(&mut sql, ")");
    sql
}

/// `s` without its trailing `/` characters (as `trim_end_matches('/')`).
pub open spec fn spec_trim_end_slashes(s: Seq<char>) -> Seq<char>
    decreases s.len(),
{
    if s.len() > 0 && s.last() == '/' {
        spec_trim_end_slashes(s.drop_last())
    } else {
        s
    }
}

/// Removes the trailing `/` characters of a path.
pub fn trim_end_slashes(s: &str) -> (r: String)
    ensures
        r@ == spec_trim_end_slashes(s@),
{
    let cs = chars_of(s);
    let mut end = cs.len();
    proof {
        assert(s@.take(end as int) =~= s@);
    }
    while end > 0 && cs[end - 1] == '/'
        invariant
            end <= cs@.len(),
            cs@ == s@,
            spec_trim_end_slashes(s@) == spec_trim_end_slashes(s@.take(end as int)),
        decreases end,
    {
        proof {
            assert(s@.take(end as int).drop_last() =~= s@.take(end - 1));
        }
        end -= 1;
    }
    let mut r = String::new();
    crate::text::push_chars(&mut r, &cs, 0, end);
    proof {
        assert(Seq::<char>::empty() + cs@.subrange(0, end as int) =~= s@.take(end as int));
    }
    r
}

/// The prefix shared by the paths strictly below a folder: the folder
/// without its trailing slashes, then `/`.
pub open spec fn spec_folder_prefix(path: Seq<char>) -> Seq<char> {
    spec_trim_end_slashes(path) + "/"@
}

/// The prefix that the folders stored under `path` start with. It is
/// compared with `instr(folder, ?) = 1`, a case-sensitive prefix test in
/// which no character of the path acts as a wildcard.
pub fn folder_prefix(path: &str) -> (r: String)
    ensures
        r@ == spec_folder_prefix(path@),
{
    let mut r = trim_end_slashes(path);
    push_str(&mut r, "/");
    r
}

/// The conditions that place a track's folder under one of `roots`: two per
/// root, the root itself (`folder = ?`) and the folders that start with the
/// root's prefix (`instr(folder, ?) = 1`).
pub open spec fn root_conditions(roots: Seq<Seq<char>>) -> Seq<Seq<char>>
    decreases roots.len(),
{
    if roots.len() == 0 {
        Seq::empty()
    } else {
        root_conditions(roots.drop_last()) + seq!["folder = ?"@, "instr(folder, ?) = 1"@]
    }
}

/// The parameters of [`root_conditions`]: each root without trailing
/// slashes, then its prefix.
pub open spec fn root_params(roots: Seq<Seq<char>>) -> Seq<SqlParam>
    decreases roots.len(),
{
    if roots.len() == 0 {
        Seq::empty()
    } else {
        root_params(roots.drop_last()) + seq![
            SqlParam::Text(spec_trim_end_slashes(roots.last())),
            SqlParam::Text(spec_folder_prefix(roots.last())),
        ]
    }
}

/// The statement that deletes the stale tracks under `roots` (those whose
/// path is not in the `_keep` table), with its parameters; without roots
/// it deletes nothing.
pub open spec fn spec_stale_tracks_statement(roots: Seq<Seq<char>>) -> (Seq<char>, Seq<SqlParam>) {
    (
        "DELETE FROM tracks WHERE path NOT IN (SELECT path FROM _keep) AND "@ + if roots.len()
            == 0 {
            "0"@
        } else {
            "("@ + spec_join(root_conditions(roots), " OR "@) + ")"@
        },
        root_params(roots),
    )
}

/// Builds the statement that deletes the stale tracks under `roots`.
pub fn stale_tracks_statement(roots: &Vec<String>) -> (r: (String, Vec<SqlValue>))
    ensures
        (r.0@, param_views(r.1@)) == spec_stale_tracks_statement(string_views(roots@)),
{
    let ghost rs = string_views(roots@);
    let mut conds: Vec<String> = Vec::new();
    let mut params: Vec<SqlValue> = Vec::new();
    let mut i: usize = 0;
    while i < roots.len()
        invariant
            i <= roots@.len(),
            rs == string_views(roots@),
            string_views(conds@) == root_conditions(rs.take(i as int)),
            param_views(params@) == root_params(rs.take(i as int)),
        decreases roots@.len() - i,
    {
        proof {
            assert(rs.take(i + 1).drop_last() =~= rs.take(i as int));
            assert(rs.take(i + 1).last() == roots@[i as int]@);
        }
        let root = trim_end_slashes(roots[i].as_str());
        let prefix = folder_prefix(roots[i].as_str());
        push_cond(&mut conds, owned("folder = ?"));
        push_cond(&mut conds, owned("instr(folder, ?) = 1"));
        push_param(&mut params, SqlValue::Text(root));
        push_param(&mut params, SqlValue::Text(prefix));
        proof {
            assert(string_views(conds@) =~= root_conditions(rs.take(i + 1)));
            assert(param_views(params@) =~= root_params(rs.take(i + 1)));
        }
        i += 1;
    }
    proof {
        assert(rs.take(roots@.len() as int) =~= rs);
    }
    let mut sql = owned("DELETE FROM tracks WHERE path NOT IN (SELECT path FROM _keep) AND ");
    if conds.len() == 0 {
        proof {
            if rs.len() > 0 {
                assert(root_conditions(rs).len() >= 2) by {
                    assert(root_conditions(rs) =~= root_conditions(rs.drop_last()) + seq![
                        "folder = ?"@,
                        "instr(folder, ?) = 1"@,
                    ]);
                }
            }
        }
        push_str(&mut sql, "0");
    } else {
        push_str(&mut sql, "(");
        let j = join(&conds, " OR ");
        push_str(&mut sql, j.as_str());
        push_str(&mut sql, ")");
    }
    (sql, params)
}

/// The library folders of loaded settings: the stored list, or the paths of
/// the folders table when the stored list is empty (settings lost or never
/// written), so a damaged settings row never forgets the music folders.
pub open spec fn spec_library_folders(stored: Seq<Seq<char>>, folders: Seq<Folder>) -> Seq<
    Seq<char>,
> {
    if stored.len() == 0 {
        folders.map_values(|f: Folder| f.path@)
    } else {
        stored
    }
}

/// Chooses the library folders of loaded settings.
pub fn library_folders(stored: Vec<String>, folders: &Vec<Folder>) -> (r: Vec<String>)
    ensures
        string_views(r@) == spec_library_folders(string_views(stored@), folders@),
{
    if stored.len() > 0 {
        return stored;
    }
    let mut out: Vec<String> = Vec::new();
    let mut i: usize = 0;
    while i < folders.len()
        invariant
            i <= folders@.len(),
            string_views(out@) == folders@.take(i as int).map_values(|f: Folder| f.path@),
        decreases folders@.len() - i,
    {
        push_cond(&mut out, folders[i].path.clone());
        proof {
            assert(folders@.take(i + 1).map_values(|f: Folder| f.path@) =~= folders@.take(
                i as int,
            ).map_values(|f: Folder| f.path@).push(folders@[i as int].path@));
        }
        i += 1;
    }
    proof {
        assert(folders@.take(folders@.len() as int) =~= folders@);
    }
    out
}

/// Loading settings never loses the music folders while the folders table
/// holds any: the chosen list is empty only when both are.
pub proof fn lemma_library_folders_kept(stored: Seq<Seq<char>>, folders: Seq<Folder>)
    ensures
        spec_library_folders(stored, folders).len() == 0 <==> (stored.len() == 0 && folders.len()
            == 0),
{
}

/// Which parts of a search are present: a full-text word, each filter.
pub open spec fn search_shape(
    query: Seq<char>,
    f: SearchFilters,
    format_value: Option<Seq<char>>,
) -> (bool, bool, bool, bool, bool, bool, bool, bool, bool, bool) {
    (
        spec_words(query).len() > 0,
        f.genre is Some,
        f.composer is Some,
        format_value is Some,
        f.folder is Some,
        f.year_min is Some,
        f.year_max is Some,
        f.bitrate_min is Some,
        f.duration_min_ms is Some,
        f.duration_max_ms is Some,
    )
}

/// Search input never reaches the SQL text: two searches with the same
/// parts present give the same statement, whatever the words and values,
/// and bind the same number of parameters.
pub proof fn lemma_search_sql_ignores_values(
    q1: Seq<char>,
    f1: SearchFilters,
    v1: Option<Seq<char>>,
    l1: i64,
    q2: Seq<char>,
    f2: SearchFilters,
    v2: Option<Seq<char>>,
    l2: i64,
)
    requires
        search_shape(q1, f1, v1) == search_shape(q2, f2, v2),
    ensures
        spec_search_statement(q1, f1, v1, l1).0 == spec_search_statement(q2, f2, v2, l2).0,
        spec_search_statement(q1, f1, v1, l1).1.len() == spec_search_statement(q2, f2, v2, l2).1.len(),
{
    assert(search_conditions(q1, f1, v1) =~= search_conditions(q2, f2, v2));
}


/// The sort direction is honoured for every sort key: the ORDER BY
/// expression starts with the key's column and ends in `DESC` exactly when
/// a descending order is asked for, in `ASC` otherwise; text keys compare
/// without regard to case. A page statement orders by that expression.
pub proof fn lemma_order_direction(sort: SortField, desc: bool, by_folder: bool)
    ensures
        has_suffix(spec_order_clause(sort, desc), " DESC"@) <==> desc,
        has_suffix(spec_order_clause(sort, desc), " ASC"@) <==> !desc,
        has_prefix(spec_order_clause(sort, desc), spec_sort_column(sort)),
        sorts_text(sort) ==> has_prefix(
            spec_order_clause(sort, desc),
            spec_sort_column(sort) + " COLLATE NOCASE "@,
        ),
        has_prefix(
            spec_tracks_page_statement(sort, desc, by_folder).skip(
                spec_tracks_page_statement(sort, desc, by_folder).len() - (
                spec_order_clause(sort, desc).len() + (if by_folder {
                    " LIMIT ?2 OFFSET ?3"@
                } else {
                    " LIMIT ?1 OFFSET ?2"@
                }).len()),
            ),
            spec_order_clause(sort, desc),
        ),
{
    reveal_strlit(" DESC");
    reveal_strlit(" ASC");
    reveal_strlit("DESC");
    reveal_strlit("ASC");
    reveal_strlit(" COLLATE NOCASE ");
    reveal_strlit(" ");
    let c = spec_order_clause(sort, desc);
    let col = spec_sort_column(sort);
    let mid = if sorts_text(sort) {
        " COLLATE NOCASE "@
    } else {
        " "@
    };
    let dir = if desc {
        "DESC"@
    } else {
        "ASC"@
    };
    assert(c =~= col + mid + dir);
    assert(c.subrange(0, col.len() as int) =~= col);
    if sorts_text(sort) {
        assert(c.subrange(0, (col + mid).len() as int) =~= col + mid);
    }
    if desc {
        assert(c.subrange(c.len() - 5, c.len() as int) =~= " DESC"@);
        assert(!has_suffix(c, " ASC"@)) by {
            if has_suffix(c, " ASC"@) {
                assert(c.subrange(c.len() - 4, c.len() as int)[1] == c[c.len() - 3]);
            }
        }
    } else {
        assert(c.subrange(c.len() - 4, c.len() as int) =~= " ASC"@);
        assert(!has_suffix(c, " DESC"@)) by {
            if has_suffix(c, " DESC"@) {
                assert(c.subrange(c.len() - 4, c.len() as int)[0] == ' ');
                assert(c.subrange(c.len() - 5, c.len() as int)[1] == c[c.len() - 4]);
                assert(c.subrange(c.len() - 4, c.len() as int)[0] == c[c.len() - 4]);
            }
        }
    }
    let tail = if by_folder {
        " LIMIT ?2 OFFSET ?3"@
    } else {
        " LIMIT ?1 OFFSET ?2"@
    };
    let st = spec_tracks_page_statement(sort, desc, by_folder);
    let headp = if by_folder {
        "SELECT "@ + TRACK_COLUMNS@ + " FROM tracks WHERE folder = ?1 ORDER BY "@
    } else {
        "SELECT "@ + TRACK_COLUMNS@ + " FROM tracks ORDER BY "@
    };
    assert(st =~= headp + c + tail);
    assert(st.skip(st.len() - (c.len() + tail.len())) =~= c + tail);
    assert((c + tail).subrange(0, c.len() as int) =~= c);
}
} // verus!
