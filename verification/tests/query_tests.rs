use harmonia_core::models::{Folder, SearchFilters, SortField};
use harmonia_core::query::{
    folder_prefix, fts_escape, fts_match, library_folders, order_clause, search_statement,
    search_statement_with_format, split_words, stale_tracks_statement, tracks_by_ids_statement,
    tracks_page_statement, trim_end_slashes, TRACK_COLUMNS,
};
use harmonia_core::smart::SqlValue;
use rusqlite::types::Value;
use rusqlite::{params_from_iter, Connection};

fn no_filters() -> SearchFilters {
    SearchFilters::default()
}

#[test]
fn fts_terms_are_quoted_prefix_phrases() {
    assert_eq!(fts_escape("say \"hi\"\nnow\r"), "say \"\"hi\"\" now ");
    assert_eq!(split_words("  rock \t live\n"), vec!["rock", "live"]);
    assert_eq!(split_words("   "), Vec::<String>::new());
    assert_eq!(fts_match("rock \"live\""), "\"rock\"* \"\"\"live\"\"\"*");
    assert_eq!(fts_match(""), "");
}

#[test]
fn search_without_query_or_filters_only_ranks_and_limits() {
    let (sql, params) = search_statement("  ", &no_filters(), 50);
    assert_eq!(
        sql,
        format!("SELECT {TRACK_COLUMNS} FROM tracks  ORDER BY favorite DESC, play_count DESC, title COLLATE NOCASE LIMIT ?")
    );
    assert_eq!(params, vec![SqlValue::Integer(50)]);
}

#[test]
fn search_combines_every_filter_in_order() {
    let filters = SearchFilters {
        genre: Some("Rock".into()),
        composer: Some("Bach_1".into()),
        format: Some("FLAC".into()),
        folder: Some("50%".into()),
        year_min: Some(1990),
        year_max: Some(1999),
        bitrate_min: Some(256),
        duration_min_ms: None,
        duration_max_ms: Some(300_000),
    };
    let (sql, params) = search_statement("roc", &filters, 10);
    assert_eq!(
        sql,
        format!(
            "SELECT {TRACK_COLUMNS} FROM tracks WHERE id IN (SELECT rowid FROM tracks_fts WHERE tracks_fts MATCH ?) AND genre = ? AND composer LIKE ? ESCAPE '\\' AND format = ? AND folder LIKE ? ESCAPE '\\' AND year BETWEEN ? AND ? AND bitrate >= ? AND duration_ms <= ? ORDER BY favorite DESC, play_count DESC, title COLLATE NOCASE LIMIT ?"
        )
    );
    assert_eq!(
        params,
        vec![
            SqlValue::Text("\"roc\"*".into()),
            SqlValue::Text("Rock".into()),
            SqlValue::Text("%Bach\\_1%".into()),
            SqlValue::Text("flac".into()),
            SqlValue::Text("%50\\%%".into()),
            SqlValue::Integer(1990),
            SqlValue::Integer(1999),
            SqlValue::Integer(256),
            SqlValue::Integer(300_000),
            SqlValue::Integer(10),
        ]
    );
}

#[test]
fn search_format_filter_is_bound_as_given_to_the_inner_builder() {
    let filters = SearchFilters { format: Some("MP3".into()), ..SearchFilters::default() };
    let (_, lowered) = search_statement("", &filters, 5);
    assert_eq!(lowered[0], SqlValue::Text("mp3".into()));
    let (sql, raw) = search_statement_with_format("", &filters, None, 5);
    assert!(!sql.contains("format = ?"));
    assert_eq!(raw, vec![SqlValue::Integer(5)]);
}

#[test]
fn single_sided_ranges_use_one_bound() {
    let filters = SearchFilters {
        year_min: Some(2000),
        duration_min_ms: Some(1000),
        ..SearchFilters::default()
    };
    let (sql, params) = search_statement("", &filters, 1);
    assert!(sql.contains("WHERE year >= ? AND duration_ms >= ? ORDER BY"));
    assert_eq!(
        params,
        vec![SqlValue::Integer(2000), SqlValue::Integer(1000), SqlValue::Integer(1)]
    );
    let filters = SearchFilters { year_max: Some(1980), ..SearchFilters::default() };
    let (sql, _) = search_statement("", &filters, 1);
    assert!(sql.contains("WHERE year <= ? ORDER BY"));
}

#[test]
fn listing_statements() {
    assert_eq!(order_clause(SortField::Artist, false), "artist COLLATE NOCASE ASC");
    assert_eq!(order_clause(SortField::PlayCount, true), "play_count DESC");
    assert_eq!(
        tracks_page_statement(SortField::Year, true, false),
        format!("SELECT {TRACK_COLUMNS} FROM tracks ORDER BY year DESC LIMIT ?1 OFFSET ?2")
    );
    assert_eq!(
        tracks_page_statement(SortField::Title, false, true),
        format!("SELECT {TRACK_COLUMNS} FROM tracks WHERE folder = ?1 ORDER BY title COLLATE NOCASE ASC LIMIT ?2 OFFSET ?3")
    );
    assert_eq!(
        tracks_by_ids_statement(3),
        format!("SELECT {TRACK_COLUMNS} FROM tracks WHERE id IN (?,?,?)")
    );
}

#[test]
fn folder_scopes() {
    assert_eq!(trim_end_slashes("/music//"), "/music");
    assert_eq!(trim_end_slashes("/"), "");
    assert_eq!(folder_prefix("/music/"), "/music/");
    let (sql, params) = stale_tracks_statement(&vec![]);
    assert_eq!(sql, "DELETE FROM tracks WHERE path NOT IN (SELECT path FROM _keep) AND 0");
    assert!(params.is_empty());
    let (sql, params) = stale_tracks_statement(&vec!["/a/".to_string(), "/b".to_string()]);
    assert_eq!(
        sql,
        "DELETE FROM tracks WHERE path NOT IN (SELECT path FROM _keep) AND (folder = ? OR instr(folder, ?) = 1 OR folder = ? OR instr(folder, ?) = 1)"
    );
    assert_eq!(
        params,
        vec![
            SqlValue::Text("/a".into()),
            SqlValue::Text("/a/".into()),
            SqlValue::Text("/b".into()),
            SqlValue::Text("/b/".into()),
        ]
    );
}

#[test]
fn stored_folders_win_over_the_folders_table() {
    let table = vec![Folder::new("/x".to_string()), Folder::new("/y".to_string())];
    assert_eq!(library_folders(vec![], &table), vec!["/x", "/y"]);
    assert_eq!(library_folders(vec!["/m".to_string()], &table), vec!["/m"]);
}

fn to_sql(v: &SqlValue) -> Value {
    match v {
        SqlValue::Integer(n) => Value::Integer(*n),
        SqlValue::Text(s) => Value::Text(s.clone()),
    }
}

fn library() -> Connection {
    let conn = Connection::open_in_memory().unwrap();
    conn.execute_batch(
        "CREATE TABLE tracks (id INTEGER PRIMARY KEY, path TEXT, title TEXT, artist TEXT,
            album TEXT, album_artist TEXT, genre TEXT, composer TEXT, year INTEGER,
            track_no INTEGER, disc_no INTEGER, duration_ms INTEGER, bitrate INTEGER,
            sample_rate INTEGER, channels INTEGER, format TEXT, folder TEXT, art_hash TEXT,
            favorite INTEGER DEFAULT 0, play_count INTEGER DEFAULT 0, last_played INTEGER,
            date_added INTEGER, replay_gain_db REAL, lyrics TEXT, lyrics_synced TEXT);
         CREATE VIRTUAL TABLE tracks_fts USING fts5(title, artist, album, album_artist, genre,
            composer, format, tokenize = 'unicode61');",
    )
    .unwrap();
    let rows = [
        (1, "/m/r1.mp3", "Rock Anthem", "The Band", "Greatest", "Rock", "mp3", "/m"),
        (2, "/m/j1.mp3", "Jazz Mood", "Cool Cats", "Late Night", "Jazz", "flac", "/m/jazz"),
        (3, "/m/u.mp3", "Rock \"Unplugged\" (Live)", "A & B", "Session", "Rock", "mp3", "/m"),
    ];
    for (id, path, title, artist, album, genre, format, folder) in rows {
        conn.execute(
            "INSERT INTO tracks (id, path, title, artist, album, album_artist, genre, composer, duration_ms, format, folder)
             VALUES (?1, ?2, ?3, ?4, ?5, ?4, ?6, '', 1000, ?7, ?8)",
            (id, path, title, artist, album, genre, format, folder),
        )
        .unwrap();
        conn.execute(
            "INSERT INTO tracks_fts (rowid, title, artist, album, album_artist, genre, composer, format)
             VALUES (?1, ?2, ?3, ?4, ?3, ?5, '', ?6)",
            (id, title, artist, album, genre, format),
        )
        .unwrap();
    }
    conn
}

fn run(conn: &Connection, query: &str, filters: &SearchFilters) -> Vec<String> {
    let (sql, params) = search_statement(query, filters, 50);
    let values: Vec<Value> = params.iter().map(to_sql).collect();
    let mut stmt = conn.prepare(&sql).unwrap();
    let rows = stmt
        .query_map(params_from_iter(values.iter()), |r| r.get::<_, String>("path"))
        .unwrap();
    let mut out: Vec<String> = rows.map(|r| r.unwrap()).collect();
    out.sort();
    out
}

#[test]
fn search_statement_runs_against_an_fts_index() {
    let conn = library();
    assert_eq!(run(&conn, "rock", &no_filters()), vec!["/m/r1.mp3", "/m/u.mp3"]);
    assert_eq!(run(&conn, "roc", &no_filters()), vec!["/m/r1.mp3", "/m/u.mp3"]);
    assert_eq!(run(&conn, "unplugged", &no_filters()), vec!["/m/u.mp3"]);
    assert_eq!(run(&conn, "rock live", &no_filters()), vec!["/m/u.mp3"]);
    assert!(run(&conn, "rock jazz", &no_filters()).is_empty());
    let jazz = SearchFilters { genre: Some("Jazz".into()), ..SearchFilters::default() };
    assert_eq!(run(&conn, "", &jazz), vec!["/m/j1.mp3"]);
    let flac = SearchFilters { format: Some("FLAC".into()), ..SearchFilters::default() };
    assert_eq!(run(&conn, "", &flac), vec!["/m/j1.mp3"]);
    let folder = SearchFilters { folder: Some("jazz".into()), ..SearchFilters::default() };
    assert_eq!(run(&conn, "", &folder), vec!["/m/j1.mp3"]);
}

#[test]
fn stale_statement_deletes_only_under_roots() {
    let conn = library();
    conn.execute_batch("CREATE TEMP TABLE _keep (path TEXT PRIMARY KEY); INSERT INTO _keep VALUES ('/m/r1.mp3');")
        .unwrap();
    let (sql, params) = stale_tracks_statement(&vec!["/m/jazz/".to_string()]);
    let values: Vec<Value> = params.iter().map(to_sql).collect();
    let n = conn.execute(&sql, params_from_iter(values.iter())).unwrap();
    assert_eq!(n, 1);
    let left: i64 = conn.query_row("SELECT COUNT(*) FROM tracks", [], |r| r.get(0)).unwrap();
    assert_eq!(left, 2);
}

#[test]
fn search_words_and_values_never_reach_the_sql() {
    let f1 = SearchFilters { genre: Some("Rock'; --".into()), ..SearchFilters::default() };
    let f2 = SearchFilters { genre: Some("Jazz".into()), ..SearchFilters::default() };
    let (a, pa) = search_statement("drop \"table\"", &f1, 5);
    let (b, pb) = search_statement("x", &f2, 7);
    assert_eq!(a, b);
    assert_eq!(pa.len(), pb.len());
}

fn wildcard_library() -> Connection {
    let conn = library();
    let rows = [
        (4, "/w/a_b/1.mp3", "Alpha", "50% Off", "/w/a_b"),
        (5, "/w/axb/2.mp3", "Beta", "500 Offs", "/w/axb"),
        (6, "/W/A_B/3.mp3", "Gamma", "Other", "/W/A_B"),
    ];
    for (id, path, title, composer, folder) in rows {
        conn.execute(
            "INSERT INTO tracks (id, path, title, artist, album, album_artist, genre, composer, duration_ms, format, folder)
             VALUES (?1, ?2, ?3, '', '', '', '', ?4, 1000, 'mp3', ?5)",
            (id, path, title, composer, folder),
        )
        .unwrap();
    }
    conn
}

#[test]
fn composer_and_folder_filters_match_wildcards_literally() {
    let conn = wildcard_library();
    let composer = SearchFilters { composer: Some("50%".into()), ..SearchFilters::default() };
    assert_eq!(run(&conn, "", &composer), vec!["/w/a_b/1.mp3"]);
    let folder = SearchFilters { folder: Some("a_b".into()), ..SearchFilters::default() };
    assert_eq!(run(&conn, "", &folder), vec!["/W/A_B/3.mp3", "/w/a_b/1.mp3"]);
}

#[test]
fn stale_roots_are_case_sensitive_prefixes_without_wildcards() {
    let conn = wildcard_library();
    conn.execute_batch("CREATE TEMP TABLE _keep (path TEXT PRIMARY KEY);").unwrap();
    let (sql, params) = stale_tracks_statement(&vec!["/w/a_b".to_string()]);
    let values: Vec<Value> = params.iter().map(to_sql).collect();
    let n = conn.execute(&sql, params_from_iter(values.iter())).unwrap();
    assert_eq!(n, 1);
    let gone: i64 = conn
        .query_row("SELECT COUNT(*) FROM tracks WHERE id = 4", [], |r| r.get(0))
        .unwrap();
    assert_eq!(gone, 0);
    let kept: i64 = conn
        .query_row("SELECT COUNT(*) FROM tracks WHERE id IN (5, 6)", [], |r| r.get(0))
        .unwrap();
    assert_eq!(kept, 2);
}
