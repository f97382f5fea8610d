//! The logic behind the requests of the user interface that needs no
//! device or window: resuming a session, naming and exporting playlists,
//! serving cached artwork, and the application's directory layout.

use vstd::prelude::*;

use crate::playlist::spec_join_path;
use crate::text::{
    chars_of, opt_chars, parse_i64, parse_u64, push_char, push_str, spec_parse_i64, spec_parse_u64,
    spec_trim, str_equal, trim,
};

verus! {

/// Where a previous session stopped.
#[derive(Debug, Clone, Copy, PartialEq, Eq, Structural)]
pub struct ResumeInfo {
    pub track_id: i64,
    pub position_ms: u64,
}

/// The lyrics stored for a track.
#[derive(Debug, Clone)]
pub struct LyricsData {
    pub plain: Option<String>,
    pub synced: Option<String>,
}

/// The outcome of importing dropped or opened files.
#[derive(Debug, Clone, Copy, PartialEq, Eq, Structural)]
pub struct ImportResult {
    pub added: usize,
    pub failed: usize,
}

/// The result of importing: every touched file counts as added.
pub fn import_result(touched: usize) -> (r: ImportResult)
    ensures
        r.added == touched,
        r.failed == 0,
{
    ImportResult { added: touched, failed: 0 }
}

/// The session to resume from the stored settings: present when the stored
/// track id parses as an integer; the position defaults to 0 when missing
/// or malformed.
pub open spec fn spec_resume_info(track: Option<Seq<char>>, position: Option<Seq<char>>) -> Option<
    ResumeInfo,
> {
    let pos: u64 = match position {
        Some(p) => match spec_parse_u64(p) {
            Some(v) => v,
            None => 0,
        },
        None => 0,
    };
    match track {
        Some(t) => match spec_parse_i64(t) {
            Some(id) => Some(ResumeInfo { track_id: id, position_ms: pos }),
            None => None,
        },
        None => None,
    }
}

/// Reads the resume point from the stored `resume.track_id` and
/// `resume.position_ms` values.
pub fn resume_info_from(track: Option<&str>, position: Option<&str>) -> (r: Option<ResumeInfo>)
    ensures
        r == spec_resume_info(
            match track {
                Some(t) => Some(t@),
                None => None,
            },
            match position {
                Some(p) => Some(p@),
                None => None,
            },
        ),
{
    let pos: u64 = match position {
        Some(p) => match parse_u64(p) {
            Some(v) => v,
            None => 0,
        },
        None => 0,
    };
    match track {
        Some(t) => match parse_i64(t) {
            Some(id) => Some(ResumeInfo { track_id: id, position_ms: pos }),
            None => None,
        },
        None => None,
    }
}

/// A playlist name as stored: trimmed, and rejected when nothing is left.
pub open spec fn spec_playlist_name(name: Seq<char>) -> Result<Seq<char>, Seq<char>> {
    if spec_trim(name).len() == 0 {
        Err("playlist name cannot be empty"@)
    } else {
        Ok(spec_trim(name))
    }
}

/// Validates and trims a playlist name.
pub fn playlist_name(name: &str) -> (r: Result<String, String>)
    ensures
        match r {
            Ok(n) => spec_playlist_name(name@) == Ok::<Seq<char>, Seq<char>>(n@),
            Err(m) => spec_playlist_name(name@) == Err::<Seq<char>, Seq<char>>(m@),
        },
{
    let t = trim(name);
    if t.unicode_len() == 0 {
        let mut m = String::new();
        push_str(&mut m, "playlist name cannot be empty");
        proof {
            assert(Seq::<char>::empty() + "playlist name cannot be empty"@
                =~= "playlist name cannot be empty"@);
        }
        Err(m)
    } else {
        Ok(t)
    }
}

/// Whether a create request asks for a smart playlist (the kind defaults
/// to "static").
pub fn wants_smart(kind: Option<&str>) -> (r: bool)
    ensures
        r == (kind matches Some(k) && k@ == "smart"@),
{
    match kind {
        Some(k) => str_equal(k, "smart"),
        None => false,
    }
}

/// Where a playlist's tracks come from: a smart playlist is evaluated from
/// its rules (an error when it has none), any other kind reads its stored
/// track list (`None`).
pub open spec fn spec_playlist_rules(kind: Seq<char>, rules: Option<Seq<char>>) -> Result<
    Option<Seq<char>>,
    Seq<char>,
> {
    if kind == "smart"@ {
        match rules {
            Some(r) => Ok(Some(r)),
            None => Err("smart playlist has no rules"@),
        }
    } else {
        Ok(None)
    }
}

/// Decides how a playlist is resolved: by its rules or by its track list.
pub fn playlist_rules(kind: &str, rules: Option<String>) -> (r: Result<Option<String>, String>)
    ensures
        match r {
            Ok(Some(x)) => spec_playlist_rules(kind@, opt_chars(rules)) == Ok::<
                Option<Seq<char>>,
                Seq<char>,
            >(Some(x@)),
            Ok(None) => spec_playlist_rules(kind@, opt_chars(rules)) == Ok::<
                Option<Seq<char>>,
                Seq<char>,
            >(None),
            Err(m) => spec_playlist_rules(kind@, opt_chars(rules)) == Err::<
                Option<Seq<char>>,
                Seq<char>,
            >(m@),
        },
{
    if str_equal(kind, "smart") {
        match rules {
            Some(r) => Ok(Some(r)),
            None => {
                let mut m = String::new();
                push_str(&mut m, "smart playlist has no rules");
                proof {
                    assert(Seq::<char>::empty() + "smart playlist has no rules"@
                        =~= "smart playlist has no rules"@);
                }
                Err(m)
            },
        }
    } else {
        Ok(None)
    }
}

/// The file extension offered when exporting in `format`: "m3u" for M3U
/// and M3U8, "pls", "xspf"; other formats are rejected by name.
pub open spec fn spec_export_extension(format: Seq<char>) -> Result<Seq<char>, Seq<char>> {
    if format == "m3u"@ || format == "m3u8"@ {
        Ok("m3u"@)
    } else if format == "pls"@ {
        Ok("pls"@)
    } else if format == "xspf"@ {
        Ok("xspf"@)
    } else {
        Err("unsupported format: "@ + format)
    }
}

/// Chooses the extension of an exported playlist file.
pub fn export_extension(format: &str) -> (r: Result<&'static str, String>)
    ensures
        match r {
            Ok(e) => spec_export_extension(format@) == Ok::<Seq<char>, Seq<char>>(e@),
            Err(m) => spec_export_extension(format@) == Err::<Seq<char>, Seq<char>>(m@),
        },
{
    if str_equal(format, "m3u") || str_equal(format, "m3u8") {
        Ok("m3u")
    } else if str_equal(format, "pls") {
        Ok("pls")
    } else if str_equal(format, "xspf") {
        Ok("xspf")
    } else {
        let mut m = String::new();
        push_str(&mut m, "unsupported format: ");
        push_str(&mut m, format);
        proof {
            assert(Seq::<char>::empty() + "unsupported format: "@ =~= "unsupported format: "@);
        }
        Err(m)
    }
}

// ---------------------------------------------------------------------------
// Artwork
// ---------------------------------------------------------------------------

/// Covers larger than this many bytes are not sent to the interface.
pub const MAX_ARTWORK_BYTES: usize = 512000;

/// The image extensions tried, in order, when looking up cached artwork.
pub open spec fn artwork_exts() -> Seq<Seq<char>> {
    seq!["jpg"@, "png"@, "gif"@, "webp"@]
}

/// The cache file names tried for an artwork key: `{hash}.{ext}` for each
/// image extension in order; none for an empty key.
pub open spec fn spec_artwork_candidates(hash: Seq<char>) -> Seq<Seq<char>> {
    if hash.len() == 0 {
        Seq::empty()
    } else {
        artwork_exts().map_values(|e: Seq<char>| hash + seq!['.'] + e)
    }
}

/// `{hash}.{ext}`.
fn dotted(hash: &str, ext: &str) -> (r: String)
    ensures
        r@ == hash@ + seq!['.'] + ext@,
{
    let mut r = String::new();
    push_str(&mut r, hash);
    push_char(&mut r, '.');
    push_str(&mut r, ext);
    proof {
        assert(Seq::<char>::empty() + hash@ =~= hash@);
    }
    r
}

/// The cache file names to try for an artwork key, with their extensions.
pub fn artwork_candidates(hash: &str) -> (r: Vec<(String, &'static str)>)
    ensures
        r@.len() == spec_artwork_candidates(hash@).len(),
        forall|i: int|
            0 <= i < r@.len() ==> r@[i].0@ == spec_artwork_candidates(hash@)[i] && r@[i].0@
                == hash@ + seq!['.'] + (#[trigger] r@[i]).1@ && r@[i].1@ == artwork_exts()[i],
{
    let mut r: Vec<(String, &'static str)> = Vec::new();
    if hash.unicode_len() == 0 {
        return r;
    }
    proof {
        reveal_strlit("jpg");
        reveal_strlit("png");
        reveal_strlit("gif");
        reveal_strlit("webp");
    }
    r.push((dotted(hash, "jpg"), "jpg"));
    r.push((dotted(hash, "png"), "png"));
    r.push((dotted(hash, "gif"), "gif"));
    r.push((dotted(hash, "webp"), "webp"));
    r
}

/// The character of a 6-bit value in the standard base64 alphabet:
/// `A`-`Z`, `a`-`z`, `0`-`9`, `+`, `/`.
pub open spec fn base64_char(v: int) -> char {
    if v < 26 {
        (65 + v) as char
    } else if v < 52 {
        (97 + v - 26) as char
    } else if v < 62 {
        (48 + v - 52) as char
    } else if v == 62 {
        '+'
    } else {
        '/'
    }
}

/// Standard padded base64 (RFC 4648): each group of three bytes becomes
/// four alphabet characters, six bits each; a last group of one or two
/// bytes is padded with `=` to four characters.
pub open spec fn spec_base64(d: Seq<u8>) -> Seq<char>
    decreases d.len(),
{
    let a = d[0] as int;
    let b = d[1] as int;
    let c = d[2] as int;
    if d.len() == 0 {
        Seq::empty()
    } else if d.len() == 1 {
        seq![base64_char(a / 4), base64_char((a % 4) * 16), '=', '=']
    } else if d.len() == 2 {
        seq![base64_char(a / 4), base64_char((a % 4) * 16 + b / 16), base64_char((b % 16) * 4), '=']
    } else {
        seq![
            base64_char(a / 4),
            base64_char((a % 4) * 16 + b / 16),
            base64_char((b % 16) * 4 + c / 64),
            base64_char(c % 64),
        ] + spec_base64(d.skip(3))
    }
}

/// base64 `STANDARD.encode`: the standard-alphabet, padded base64 text of
/// `data`.
#[verifier::external_body]
fn base64_encode(data: &[u8]) -> (r: String)
    ensures
        r@ == spec_base64(data@),
{
    base64::Engine::encode(&base64::engine::general_purpose::STANDARD, data)
}

/// The data URL of an image whose base64 text is `encoded`.
pub open spec fn spec_data_url(ext: Seq<char>, encoded: Seq<char>) -> Seq<char> {
    "data:image/"@ + ext + ";base64,"@ + encoded
}

/// Builds the data URL of an image from its base64 text.
pub fn data_url(ext: &str, encoded: &str) -> (r: String)
    ensures
        r@ == spec_data_url(ext@, encoded@),
{
    let mut r = String::new();
    push_str(&mut r, "data:image/");
    push_str(&mut r, ext);
    push_str(&mut r, ";base64,");
    push_str(&mut r, encoded);
    proof {
        assert(Seq::<char>::empty() + "data:image/"@ =~= "data:image/"@);
    }
    r
}

/// The data URL under which cached artwork is sent to the interface; none
/// for a cover above 512 000 bytes.
pub fn artwork_data_url(ext: &str, bytes: &[u8]) -> (r: Option<String>)
    ensures
        match r {
            Some(u) => bytes@.len() <= MAX_ARTWORK_BYTES && u@ == spec_data_url(
                ext@,
                spec_base64(bytes@),
            ),
            None => bytes@.len() > MAX_ARTWORK_BYTES,
        },
{
    if bytes.len() > MAX_ARTWORK_BYTES {
        return None;
    }
    let encoded = base64_encode(bytes);
    Some(data_url(ext, encoded.as_str()))
}

// ---------------------------------------------------------------------------
// Directories
// ---------------------------------------------------------------------------

/// The files and directories of the application.
#[derive(Debug, Clone)]
pub struct AppPaths {
    /// The artwork cache: `art` under the cache directory.
    pub art_dir: String,
    /// The library database: `harmonia.db` under the data directory.
    pub db_path: String,
}

impl AppPaths {
    /// Lays out the application's files under its data and cache
    /// directories.
    pub fn from_dirs(data_dir: &str, cache_dir: &str) -> (p: Self)
        ensures
            p.art_dir@ == spec_join_path(cache_dir@, "art"@),
            p.db_path@ == spec_join_path(data_dir@, "harmonia.db"@),
    {
        AppPaths { art_dir: join_dir(cache_dir, "art"), db_path: join_dir(data_dir, "harmonia.db") }
    }
}

/// `rel` under the directory `base`.
fn join_dir(base: &str, rel: &str) -> (r: String)
    ensures
        r@ == spec_join_path(base@, rel@),
{
    let bs = chars_of(base);
    let mut r = String::new();
    push_str(&mut r, base);
    if bs.len() > 0 && bs[bs.len() - 1] != '/' {
        push_char(&mut r, '/');
    }
    push_str(&mut r, rel);
    proof {
        assert(Seq::<char>::empty() + base@ =~= base@);
    }
    r
}

} // verus!
