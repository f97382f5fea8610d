//! Playlist interchange: rendering M3U/M3U8, PLS and XSPF documents, and
//! reading the file paths back from each (relative paths resolved against
//! the playlist's directory, `file://` URIs percent-decoded).

use vstd::prelude::*;
use vstd::utf8::{decode_utf8, encode_utf8, valid_utf8};

use crate::error::CoreError;
use crate::text::{
    ascii_lowercase, chars_of, chars_start_with, has_prefix, push_char, push_chars, push_i64,
    push_str, push_u64, dec_int, dec_nat, leading_ws, spec_ascii_lowercase, spec_is_whitespace,
    spec_trim, str_equal, string_views, trailing_ws, trim, chars_end_with, lemma_trim_indented,
    lemma_trimmed_ends, lemma_trim_first, has_suffix,
};

verus! {

/// One track as written to a playlist file.
#[derive(Debug, Clone)]
pub struct PlaylistEntry {
    pub path: String,
    pub title: String,
    pub artist: String,
    pub album: String,
    pub duration_ms: i64,
}

// ---------------------------------------------------------------------------
// Escaping
// ---------------------------------------------------------------------------

/// The XML rendering of one character: the five XML-special characters
/// become entity references.
pub open spec fn xml_escape_char(c: char) -> Seq<char> {
    if c == '&' {
        "&amp;"@
    } else if c == '<' {
        "&lt;"@
    } else if c == '>' {
        "&gt;"@
    } else if c == '"' {
        "&quot;"@
    } else if c == '\'' {
        "&apos;"@
    } else {
        seq![c]
    }
}

/// `s` escaped for XML text and attribute content.
pub open spec fn spec_xml_escape(s: Seq<char>) -> Seq<char>
    decreases s.len(),
{
    if s.len() == 0 {
        Seq::empty()
    } else {
        spec_xml_escape(s.drop_last()) + xml_escape_char(s.last())
    }
}

/// Escapes `&`, `<`, `>`, `"` and `'` for XML.
pub fn xml_escape(s: &str) -> (r: String)
    ensures
        r@ == spec_xml_escape(s@),
{
    let cs = chars_of(s);
    let mut r = String::new();
    let mut i: usize = 0;
    while i < cs.len()
        invariant
            i <= cs@.len(),
            cs@ == s@,
            r@ == spec_xml_escape(s@.take(i as int)),
        decreases cs@.len() - i,
    {
        let c = cs[i];
        if c == '&' {
            push_str(&mut r, "&amp;");
        } else if c == '<' {
            push_str(&mut r, "&lt;");
        } else if c == '>' {
            push_str(&mut r, "&gt;");
        } else if c == '"' {
            push_str(&mut r, "&quot;");
        } else if c == '\'' {
            push_str(&mut r, "&apos;");
        } else {
            push_char(&mut r, c);
        }
        proof {
            assert(s@.take(i + 1).drop_last() =~= s@.take(i as int));
            assert(spec_xml_escape(s@.take(i + 1)) =~= spec_xml_escape(s@.take(i as int))
                + xml_escape_char(c));
        }
        i += 1;
    }
    proof {
        assert(s@.take(cs@.len() as int) =~= s@);
    }
    r
}

/// The uppercase hexadecimal digit of `d` (0 to 15).
pub open spec fn hex_digit_upper(d: int) -> char {
    if d < 10 {
        (d + 48) as char
    } else {
        (d + 55) as char
    }
}

/// `%XX`: the byte in uppercase hexadecimal after a percent sign.
pub open spec fn percent_triplet(b: u8) -> Seq<char> {
    seq!['%', hex_digit_upper(b as int / 16), hex_digit_upper(b as int % 16)]
}

/// Bytes that a file URI carries percent-encoded: every non-ASCII byte, the
/// ASCII controls, and space `"` `<` `>` `\` `^` `` ` `` `{` `|` `}` `%` `#`
/// `?`. Slashes, colons, dots and the other printable characters stay.
pub open spec fn uri_encodes(b: u8) -> bool {
    ||| b < 0x20
    ||| b >= 0x7f
    ||| b == 0x20
    ||| b == 0x22
    ||| b == 0x3c
    ||| b == 0x3e
    ||| b == 0x5c
    ||| b == 0x5e
    ||| b == 0x60
    ||| b == 0x7b
    ||| b == 0x7c
    ||| b == 0x7d
    ||| b == 0x25
    ||| b == 0x23
    ||| b == 0x3f
}

/// The URI text of a byte sequence: encoded bytes as `%XX`, the others as
/// their ASCII character.
pub open spec fn spec_uri_encode(bytes: Seq<u8>) -> Seq<char>
    decreases bytes.len(),
{
    if bytes.len() == 0 {
        Seq::empty()
    } else {
        spec_uri_encode(bytes.drop_last()) + if uri_encodes(bytes.last()) {
            percent_triplet(bytes.last())
        } else {
            seq![bytes.last() as char]
        }
    }
}

/// The `file://` URI of a path: the path's UTF-8 bytes, URI-encoded.
pub open spec fn spec_file_uri(path: Seq<char>) -> Seq<char> {
    "file://"@ + spec_uri_encode(encode_utf8(path))
}

/// percent-encoding `percent_encode_byte`: the three characters `%XX` for a
/// byte, with XX its value in uppercase hexadecimal.
#[verifier::external_body]
fn percent_encode_byte(b: u8) -> (r: &'static str)
    ensures
        r@ == percent_triplet(b),
{
    percent_encoding::percent_encode_byte(b)
}

/// Whether a byte is percent-encoded in a file URI.
fn uri_encodes_byte(b: u8) -> (r: bool)
    ensures
        r == uri_encodes(b),
{
    b < 0x20 || b >= 0x7f || b == 0x20 || b == 0x22 || b == 0x3c || b == 0x3e || b == 0x5c || b
        == 0x5e || b == 0x60 || b == 0x7b || b == 0x7c || b == 0x7d || b == 0x25 || b == 0x23 || b
        == 0x3f
}

/// The `file://` URI of a local path.
pub fn file_uri(path: &str) -> (r: String)
    ensures
        r@ == spec_file_uri(path@),
{
    let bytes = path.as_bytes();
    let mut r = String::new();
    push_str(&mut r, "file://");
    let ghost head = r@;
    let mut i: usize = 0;
    while i < bytes.len()
        invariant
            i <= bytes@.len(),
            bytes@ == encode_utf8(path@),
            r@ == head + spec_uri_encode(bytes@.take(i as int)),
        decreases bytes@.len() - i,
    {
        let b = bytes[i];
        if uri_encodes_byte(b) {
            push_str(&mut r, percent_encode_byte(b));
        } else {
            push_char(&mut r, b as char);
        }
        proof {
            assert(bytes@.take(i + 1).drop_last() =~= bytes@.take(i as int));
            assert(bytes@.take(i + 1).last() == b);
            assert(head + spec_uri_encode(bytes@.take(i + 1)) =~= head + spec_uri_encode(
                bytes@.take(i as int),
            ) + if uri_encodes(b) {
                percent_triplet(b)
            } else {
                seq![b as char]
            });
        }
        i += 1;
    }
    proof {
        assert(bytes@.take(bytes@.len() as int) =~= bytes@);
        assert(Seq::<char>::empty() + "file://"@ =~= "file://"@);
    }
    r
}

// ---------------------------------------------------------------------------
// Rendering
// ---------------------------------------------------------------------------

/// `a / b` rounded toward zero (Rust's integer division), for `b > 0`.
pub open spec fn trunc_div(a: int, b: int) -> int {
    if a >= 0 {
        a / b
    } else {
        -((-a) / b)
    }
}

/// Whole seconds of a duration in milliseconds, rounded toward zero.
pub open spec fn whole_seconds(ms: i64) -> int {
    trunc_div(ms as int, 1000)
}

/// Whole seconds of a duration in milliseconds, rounded toward zero.
fn seconds_of(ms: i64) -> (r: i64)
    ensures
        r == whole_seconds(ms),
{
    if ms >= 0 {
        ms / 1000
    } else {
        let mag: u64 = ((-(ms + 1)) as u64) + 1;
        let q: u64 = mag / 1000;
        proof {
            assert(mag == -(ms as int));
        }
        -(q as i64)
    }
}

/// The M3U lines of one entry: the `#EXTINF` line (seconds, quoted artist,
/// title) and the path.
pub open spec fn m3u_entry(e: PlaylistEntry) -> Seq<char> {
    "#EXTINF:"@ + dec_int(whole_seconds(e.duration_ms)) + ",\""@ + e.artist@ + "\" - "@ + e.title@
        + "\n"@ + e.path@ + "\n"@
}

/// The entries' blocks, concatenated in order.
pub open spec fn m3u_body(entries: Seq<PlaylistEntry>) -> Seq<char>
    decreases entries.len(),
{
    if entries.len() == 0 {
        Seq::empty()
    } else {
        m3u_body(entries.drop_last()) + m3u_entry(entries.last())
    }
}

/// An extended M3U document (also written for M3U8).
pub open spec fn spec_render_m3u(entries: Seq<PlaylistEntry>) -> Seq<char> {
    "#EXTM3U\n"@ + m3u_body(entries)
}

/// Renders an extended M3U document.
pub fn render_m3u(entries: &Vec<PlaylistEntry>) -> (r: String)
    ensures
        r@ == spec_render_m3u(entries@),
{
    let mut out = String::new();
    push_str(&mut out, "#EXTM3U\n");
    let ghost head = out@;
    let mut i: usize = 0;
    while i < entries.len()
        invariant
            i <= entries@.len(),
            out@ == head + m3u_body(entries@.take(i as int)),
        decreases entries@.len() - i,
    {
        let e = &entries[i];
        let ghost before = out@;
        push_str(&mut out, "#EXTINF:");
        push_i64(&mut out, seconds_of(e.duration_ms));
        push_str(&mut out, ",\"");
        push_str(&mut out, e.artist.as_str());
        push_str(&mut out, "\" - ");
        push_str(&mut out, e.title.as_str());
        push_str(&mut out, "\n");
        push_str(&mut out, e.path.as_str());
        push_str(&mut out, "\n");
        proof {
            assert(entries@.take(i + 1).drop_last() =~= entries@.take(i as int));
            assert(entries@.take(i + 1).last() == *e);
            assert(out@ =~= before + m3u_entry(*e));
            assert(head + m3u_body(entries@.take(i + 1)) =~= before + m3u_entry(*e));
        }
        i += 1;
    }
    proof {
        assert(entries@.take(entries@.len() as int) =~= entries@);
        assert(Seq::<char>::empty() + "#EXTM3U\n"@ =~= "#EXTM3U\n"@);
    }
    out
}

/// The PLS lines of the entry numbered `n`: file, "artist - title", length
/// in seconds.
pub open spec fn pls_entry(n: nat, e: PlaylistEntry) -> Seq<char> {
    "File"@ + dec_nat(n) + "="@ + e.path@ + "\n"@ + "Title"@ + dec_nat(n) + "="@ + e.artist@
        + " - "@ + e.title@ + "\n"@ + "Length"@ + dec_nat(n) + "="@ + dec_int(
        whole_seconds(e.duration_ms),
    ) + "\n"@
}

/// The entries' PLS blocks, numbered from 1.
pub open spec fn pls_body(entries: Seq<PlaylistEntry>) -> Seq<char>
    decreases entries.len(),
{
    if entries.len() == 0 {
        Seq::empty()
    } else {
        pls_body(entries.drop_last()) + pls_entry(entries.len(), entries.last())
    }
}

/// A PLS (version 2) document.
pub open spec fn spec_render_pls(entries: Seq<PlaylistEntry>) -> Seq<char> {
    "[playlist]\n"@ + pls_body(entries) + "NumberOfEntries="@ + dec_nat(entries.len())
        + "\nVersion=2\n"@
}

/// Appends the PLS lines of the entry numbered `n`.
fn push_pls_entry(out: &mut String, n: u64, e: &PlaylistEntry)
    ensures
        final(out)@ == old(out)@ + pls_entry(n as nat, *e),
{
    push_str(out, "File");
    push_u64(out, n);
    push_str(out, "=");
    push_str(out, e.path.as_str());
    push_str(out, "\n");
    push_str(out, "Title");
    push_u64(out, n);
    push_str(out, "=");
    push_str(out, e.artist.as_str());
    push_str(out, " - ");
    push_str(out, e.title.as_str());
    push_str(out, "\n");
    push_str(out, "Length");
    push_u64(out, n);
    push_str(out, "=");
    push_i64(out, seconds_of(e.duration_ms));
    push_str(out, "\n");
    proof {
        assert(out@ =~= old(out)@ + pls_entry(n as nat, *e));
    }
}

/// Renders a PLS document.
pub fn render_pls(entries: &Vec<PlaylistEntry>) -> (r: String)
    ensures
        r@ == spec_render_pls(entries@),
{
    let mut out = String::new();
    push_str(&mut out, "[playlist]\n");
    let ghost head = out@;
    let mut i: usize = 0;
    while i < entries.len()
        invariant
            i <= entries@.len(),
            out@ == head + pls_body(entries@.take(i as int)),
        decreases entries@.len() - i,
    {
        let n: u64 = i as u64 + 1;
        let ghost before = out@;
        push_pls_entry(&mut out, n, &entries[i]);
        proof {
            assert(entries@.take(i + 1).drop_last() =~= entries@.take(i as int));
            assert(entries@.take(i + 1).last() == entries@[i as int]);
            assert(entries@.take(i + 1).len() == n);
            assert(head + pls_body(entries@.take(i + 1)) =~= before + pls_entry(n as nat, entries@[i as int]));
        }
        i += 1;
    }
    proof {
        assert(entries@.take(entries@.len() as int) =~= entries@);
        assert(Seq::<char>::empty() + "[playlist]\n"@ =~= "[playlist]\n"@);
    }
    push_str(&mut out, "NumberOfEntries=");
    push_u64(&mut out, entries.len() as u64);
    push_str(&mut out, "\nVersion=2\n");
    out
}

/// The XSPF `<track>` element of one entry; the duration is in
/// milliseconds.
pub open spec fn xspf_entry(e: PlaylistEntry) -> Seq<char> {
    "    <track>\n"@ + "      <location>"@ + spec_file_uri(e.path@) + "</location>\n"@
        + "      <title>"@ + spec_xml_escape(e.title@) + "</title>\n"@ + "      <creator>"@
        + spec_xml_escape(e.artist@) + "</creator>\n"@ + "      <album>"@ + spec_xml_escape(
        e.album@,
    ) + "</album>\n"@ + "      <duration>"@ + dec_int(e.duration_ms as int) + "</duration>\n"@
        + "    </track>\n"@
}

/// The entries' XSPF elements in order.
pub open spec fn xspf_body(entries: Seq<PlaylistEntry>) -> Seq<char>
    decreases entries.len(),
{
    if entries.len() == 0 {
        Seq::empty()
    } else {
        xspf_body(entries.drop_last()) + xspf_entry(entries.last())
    }
}

/// An XSPF document titled `name`.
pub open spec fn spec_render_xspf(name: Seq<char>, entries: Seq<PlaylistEntry>) -> Seq<char> {
    "<?xml version=\"1.0\" encoding=\"UTF-8\"?>\n"@
        + "<playlist version=\"1\" xmlns=\"http://xspf.org/ns/0/\">\n"@ + "  <title>"@
        + spec_xml_escape(name) + "</title>\n"@ + "  <trackList>\n"@ + xspf_body(entries)
        + "  </trackList>\n</playlist>\n"@
}

/// Appends the XSPF element of one entry.
fn push_xspf_entry(out: &mut String, e: &PlaylistEntry)
    ensures
        final(out)@ == old(out)@ + xspf_entry(*e),
{
    push_str(out, "    <track>\n");
    push_str(out, "      <location>");
    let uri = file_uri(e.path.as_str());
    push_str(out, uri.as_str());
    push_str(out, "</location>\n");
    push_str(out, "      <title>");
    let t = xml_escape(e.title.as_str());
    push_str(out, t.as_str());
    push_str(out, "</title>\n");
    push_str(out, "      <creator>");
    let c = xml_escape(e.artist.as_str());
    push_str(out, c.as_str());
    push_str(out, "</creator>\n");
    push_str(out, "      <album>");
    let a = xml_escape(e.album.as_str());
    push_str(out, a.as_str());
    push_str(out, "</album>\n");
    push_str(out, "      <duration>");
    push_i64(out, e.duration_ms);
    push_str(out, "</duration>\n");
    push_str(out, "    </track>\n");
    proof {
        assert(out@ =~= old(out)@ + xspf_entry(*e));
    }
}

/// Renders an XSPF document.
pub fn render_xspf(name: &str, entries: &Vec<PlaylistEntry>) -> (r: String)
    ensures
        r@ == spec_render_xspf(name@, entries@),
{
    let mut out = String::new();
    push_str(&mut out, "<?xml version=\"1.0\" encoding=\"UTF-8\"?>\n");
    push_str(&mut out, "<playlist version=\"1\" xmlns=\"http://xspf.org/ns/0/\">\n");
    push_str(&mut out, "  <title>");
    let n = xml_escape(name);
    push_str(&mut out, n.as_str());
    push_str(&mut out, "</title>\n");
    push_str(&mut out, "  <trackList>\n");
    let ghost head = out@;
    let mut i: usize = 0;
    while i < entries.len()
        invariant
            i <= entries@.len(),
            out@ == head + xspf_body(entries@.take(i as int)),
        decreases entries@.len() - i,
    {
        let ghost before = out@;
        push_xspf_entry(&mut out, &entries[i]);
        proof {
            assert(entries@.take(i + 1).drop_last() =~= entries@.take(i as int));
            assert(entries@.take(i + 1).last() == entries@[i as int]);
            assert(head + xspf_body(entries@.take(i + 1)) =~= before + xspf_entry(entries@[i as int]));
        }
        i += 1;
    }
    proof {
        assert(entries@.take(entries@.len() as int) =~= entries@);
    }
    push_str(&mut out, "  </trackList>\n</playlist>\n");
    proof {
        assert(out@ =~= spec_render_xspf(name@, entries@));
    }
    out
}

/// The document of a playlist in the named format (compared without regard
/// to ASCII case): "m3u" and "m3u8" give the same M3U text, "pls" a PLS
/// file, "xspf" an XSPF file titled `name`. Any other format is rejected
/// with a message that names it in lowercase.
pub open spec fn spec_render_playlist(
    format: Seq<char>,
    name: Seq<char>,
    entries: Seq<PlaylistEntry>,
) -> Result<Seq<char>, Seq<char>> {
    let f = spec_ascii_lowercase(format);
    if f == "m3u"@ || f == "m3u8"@ {
        Ok(spec_render_m3u(entries))
    } else if f == "pls"@ {
        Ok(spec_render_pls(entries))
    } else if f == "xspf"@ {
        Ok(spec_render_xspf(name, entries))
    } else {
        Err("unsupported playlist format: "@ + f)
    }
}

/// Renders `entries` as a playlist document of the requested format.
pub fn render_playlist(format: &str, name: &str, entries: &Vec<PlaylistEntry>) -> (r: Result<
    String,
    CoreError,
>)
    ensures
        match r {
            Ok(doc) => spec_render_playlist(format@, name@, entries@) == Ok::<Seq<char>, Seq<char>>(
                doc@,
            ),
            Err(CoreError::Invalid(m)) => spec_render_playlist(format@, name@, entries@) == Err::<
                Seq<char>,
                Seq<char>,
            >(m@),
            Err(_) => false,
        },
{
    let f = ascii_lowercase(format);
    if str_equal(f.as_str(), "m3u") || str_equal(f.as_str(), "m3u8") {
        Ok(render_m3u(entries))
    } else if str_equal(f.as_str(), "pls") {
        Ok(render_pls(entries))
    } else if str_equal(f.as_str(), "xspf") {
        Ok(render_xspf(name, entries))
    } else {
        let mut m = String::new();
        push_str(&mut m, "unsupported playlist format: ");
        push_str(&mut m, f.as_str());
        proof {
            assert(Seq::<char>::empty() + "unsupported playlist format: "@
                =~= "unsupported playlist format: "@);
        }
        Err(CoreError::Invalid(m))
    }
}

// ---------------------------------------------------------------------------
// Reading M3U
// ---------------------------------------------------------------------------

/// The pieces of `s` between `\n` characters, in order; the last piece is
/// what follows the last `\n` (empty when `s` ends with one).
pub open spec fn spec_split_newlines(s: Seq<char>) -> Seq<Seq<char>>
    decreases s.len(),
{
    if s.len() == 0 {
        seq![Seq::empty()]
    } else {
        let w = spec_split_newlines(s.drop_last());
        if s.last() == '\n' {
            w.push(Seq::empty())
        } else {
            w.update(w.len() - 1, w.last().push(s.last()))
        }
    }
}

/// Splits `s` at its `\n` characters.
pub fn split_newlines(s: &str) -> (r: Vec<String>)
    ensures
        string_views(r@) == spec_split_newlines(s@),
{
    let cs = chars_of(s);
    let mut lines: Vec<String> = Vec::new();
    let mut cur = String::new();
    let mut i: usize = 0;
    proof {
        assert(s@.take(0) =~= Seq::<char>::empty());
        assert(string_views(lines@).push(cur@) =~= seq![Seq::<char>::empty()]);
    }
    while i < cs.len()
        invariant
            i <= cs@.len(),
            cs@ == s@,
            spec_split_newlines(s@.take(i as int)) == string_views(lines@).push(cur@),
        decreases cs@.len() - i,
    {
        let c = cs[i];
        let ghost old_lines = lines@;
        let ghost old_cur = cur@;
        proof {
            assert(s@.take(i + 1).drop_last() =~= s@.take(i as int));
            assert(s@.take(i + 1).last() == c);
        }
        if c == '\n' {
            lines.push(cur);
            cur = String::new();
            proof {
                assert(string_views(lines@).push(cur@) =~= string_views(old_lines).push(
                    old_cur,
                ).push(Seq::empty()));
            }
        } else {
            push_char(&mut cur, c);
            proof {
                assert(string_views(old_lines).push(old_cur).update(
                    old_lines.len() as int,
                    old_cur.push(c),
                ) =~= string_views(lines@).push(cur@));
            }
        }
        i += 1;
    }
    proof {
        assert(s@.take(cs@.len() as int) =~= s@);
    }
    let ghost old_lines = lines@;
    lines.push(cur);
    proof {
        assert(string_views(lines@) =~= string_views(old_lines).push(cur@));
    }
    lines
}

/// Whether a byte is an ASCII hexadecimal digit (either case).
pub open spec fn is_hex_byte(b: u8) -> bool {
    (0x30 <= b <= 0x39) || (0x41 <= b <= 0x46) || (0x61 <= b <= 0x66)
}

/// The value of an ASCII hexadecimal digit.
pub open spec fn hex_byte_value(b: u8) -> int {
    if b <= 0x39 {
        b - 0x30
    } else if b <= 0x46 {
        b - 0x41 + 10
    } else {
        b - 0x61 + 10
    }
}

/// Percent-decoding of bytes: every `%` followed by two hexadecimal digits
/// becomes the byte they spell; all other bytes, a lone `%` included, stay.
pub open spec fn spec_percent_decode(b: Seq<u8>) -> Seq<u8>
    decreases b.len(),
{
    if b.len() == 0 {
        Seq::empty()
    } else if b[0] == 0x25 && b.len() >= 3 && is_hex_byte(b[1]) && is_hex_byte(b[2]) {
        seq![(hex_byte_value(b[1]) * 16 + hex_byte_value(b[2])) as u8] + spec_percent_decode(
            b.skip(3),
        )
    } else {
        seq![b[0]] + spec_percent_decode(b.skip(1))
    }
}

/// percent-encoding `percent_decode_str(s).decode_utf8()`: percent-decodes
/// the UTF-8 bytes of `s` and returns the text when the decoded bytes are
/// valid UTF-8, `None` (the crate's `Utf8Error`) otherwise.
#[verifier::external_body]
fn percent_decode_utf8(s: &str) -> (r: Option<String>)
    ensures
        match r {
            Some(t) => valid_utf8(spec_percent_decode(encode_utf8(s@))) && t@ == decode_utf8(
                spec_percent_decode(encode_utf8(s@)),
            ),
            None => !valid_utf8(spec_percent_decode(encode_utf8(s@))),
        },
{
    match percent_encoding::percent_decode_str(s).decode_utf8() {
        Ok(t) => Some(t.into_owned()),
        Err(_) => None,
    }
}

/// `rel` appended to the directory `base` (as `Path::join` for a relative
/// `rel` on Unix): a `/` separates them unless `base` is empty or already
/// ends with one.
pub open spec fn spec_join_path(base: Seq<char>, rel: Seq<char>) -> Seq<char> {
    if base.len() == 0 || base.last() == '/' {
        base + rel
    } else {
        base + seq!['/'] + rel
    }
}

/// The path a (trimmed, non-comment) M3U line names: a `file://` URI is
/// percent-decoded (kept raw when the decoded bytes are not UTF-8), an
/// absolute path is kept, a relative one is resolved against `base`.
pub open spec fn spec_resolve_entry(line: Seq<char>, base: Seq<char>) -> Seq<char> {
    if has_prefix(line, "file://"@) {
        let rest = line.skip(7);
        let d = spec_percent_decode(encode_utf8(rest));
        if valid_utf8(d) {
            decode_utf8(d)
        } else {
            rest
        }
    } else if line.len() > 0 && line[0] == '/' {
        line
    } else {
        spec_join_path(base, line)
    }
}

/// Whether a trimmed M3U line names a file: it is neither blank nor a
/// `#` directive or comment.
pub open spec fn names_entry(t: Seq<char>) -> bool {
    t.len() > 0 && t[0] != '#'
}

/// The paths named by M3U lines, in order.
pub open spec fn m3u_paths(lines: Seq<Seq<char>>, base: Seq<char>) -> Seq<Seq<char>>
    decreases lines.len(),
{
    if lines.len() == 0 {
        Seq::empty()
    } else {
        let t = spec_trim(lines.last());
        m3u_paths(lines.drop_last(), base) + if names_entry(t) {
            seq![spec_resolve_entry(t, base)]
        } else {
            Seq::empty()
        }
    }
}

/// The file paths listed by an M3U document whose directory is `base`.
pub open spec fn spec_parse_m3u(content: Seq<char>, base: Seq<char>) -> Seq<Seq<char>> {
    m3u_paths(spec_split_newlines(content), base)
}

/// Resolves one trimmed, non-comment M3U line.
fn resolve_entry(line: &str, base: &str) -> (r: String)
    ensures
        r@ == spec_resolve_entry(line@, base@),
{
    let cs = chars_of(line);
    let prefix = chars_of("file://");
    proof {
        reveal_strlit("file://");
    }
    if chars_start_with(&cs, &prefix) {
        let mut rest = String::new();
        push_chars(&mut rest, &cs, 7, cs.len());
        proof {
            assert(Seq::<char>::empty() + cs@.subrange(7, cs@.len() as int) =~= line@.skip(7));
        }
        match percent_decode_utf8(rest.as_str()) {
            Some(t) => t,
            None => rest,
        }
    } else if cs.len() > 0 && cs[0] == '/' {
        let mut r = String::new();
        push_str(&mut r, line);
        proof {
            assert(Seq::<char>::empty() + line@ =~= line@);
        }
        r
    } else {
        let bs = chars_of(base);
        let mut r = String::new();
        push_str(&mut r, base);
        if bs.len() > 0 && bs[bs.len() - 1] != '/' {
            push_char(&mut r, '/');
        }
        push_str(&mut r, line);
        proof {
            assert(Seq::<char>::empty() + base@ =~= base@);
        }
        r
    }
}

/// Reads the file paths of an M3U/M3U8 document whose directory is `base`:
/// one path per line after trimming whitespace, skipping blank lines and
/// `#` lines, in document order.
pub fn parse_m3u(content: &str, base: &str) -> (r: Vec<String>)
    ensures
        string_views(r@) == spec_parse_m3u(content@, base@),
{
    let lines = split_newlines(content);
    let ghost ls = string_views(lines@);
    let mut out: Vec<String> = Vec::new();
    let mut i: usize = 0;
    while i < lines.len()
        invariant
            i <= lines@.len(),
            ls == string_views(lines@),
            ls == spec_split_newlines(content@),
            string_views(out@) == m3u_paths(ls.take(i as int), base@),
        decreases lines@.len() - i,
    {
        let t = trim(lines[i].as_str());
        let tc = chars_of(t.as_str());
        let ghost before = out@;
        proof {
            assert(ls.take(i + 1).drop_last() =~= ls.take(i as int));
            assert(ls.take(i + 1).last() == lines@[i as int]@);
        }
        if tc.len() > 0 && tc[0] != '#' {
            let p = resolve_entry(t.as_str(), base);
            out.push(p);
            proof {
                assert(string_views(out@) =~= string_views(before).push(
                    spec_resolve_entry(t@, base@),
                ));
            }
        } else {
            proof {
                assert(m3u_paths(ls.take(i + 1), base@) =~= m3u_paths(ls.take(i as int), base@));
            }
        }
        i += 1;
    }
    proof {
        assert(ls.take(lines@.len() as int) =~= ls);
    }
    out
}

// ---------------------------------------------------------------------------
// Reading PLS and XSPF
// ---------------------------------------------------------------------------

/// The paths that `pick` reads from each line, in order; lines it names no
/// path in are skipped.
pub open spec fn collect_lines(
    lines: Seq<Seq<char>>,
    pick: spec_fn(Seq<char>) -> Option<Seq<char>>,
) -> Seq<Seq<char>>
    decreases lines.len(),
{
    if lines.len() == 0 {
        Seq::empty()
    } else {
        collect_lines(lines.drop_last(), pick) + match pick(lines.last()) {
            Some(p) => seq![p],
            None => Seq::empty(),
        }
    }
}

/// Index of the first `=` of `t`.
pub open spec fn first_eq(t: Seq<char>) -> Option<int>
    decreases t.len(),
{
    if t.len() == 0 {
        None
    } else if t[0] == '=' {
        Some(0)
    } else {
        match first_eq(t.skip(1)) {
            Some(k) => Some(k + 1),
            None => None,
        }
    }
}

/// The path a PLS line names: a trimmed line that starts with `File` and
/// holds a `=` names the (trimmed, non-empty) text after its first `=`,
/// resolved as an M3U entry is (a `file://` URI decoded, a relative path
/// joined to `base`).
pub open spec fn pls_line_path(line: Seq<char>, base: Seq<char>) -> Option<Seq<char>> {
    let t = spec_trim(line);
    if has_prefix(t, "File"@) && first_eq(t) is Some {
        let v = spec_trim(t.skip(first_eq(t)->0 + 1));
        if v.len() > 0 {
            Some(spec_resolve_entry(v, base))
        } else {
            None
        }
    } else {
        None
    }
}

/// [`pls_line_path`] for the directory `base`.
pub open spec fn pls_pick(base: Seq<char>) -> spec_fn(Seq<char>) -> Option<Seq<char>> {
    |l: Seq<char>| pls_line_path(l, base)
}

/// The file paths listed by a PLS document whose directory is `base`, in
/// document order.
pub open spec fn spec_parse_pls(content: Seq<char>, base: Seq<char>) -> Seq<Seq<char>> {
    collect_lines(spec_split_newlines(content), pls_pick(base))
}

proof fn lemma_first_eq(s: Seq<char>, i: int)
    requires
        0 <= i <= s.len(),
        forall|q: int| 0 <= q < i ==> s[q] != '=',
        i < s.len() ==> s[i] == '=',
    ensures
        first_eq(s) == if i < s.len() {
            Some(i)
        } else {
            None::<int>
        },
    decreases i,
{
    if i > 0 {
        assert(s[0] != '=');
        lemma_first_eq(s.skip(1), i - 1);
    }
}

/// Index of the first `=` in `cs`.
fn first_eq_index(cs: &[char]) -> (r: Option<usize>)
    ensures
        match r {
            Some(k) => first_eq(cs@) == Some(k as int) && k < cs@.len(),
            None => first_eq(cs@) is None,
        },
{
    let mut i: usize = 0;
    while i < cs.len()
        invariant
            i <= cs@.len(),
            forall|q: int| 0 <= q < i ==> cs@[q] != '=',
        decreases cs@.len() - i,
    {
        if cs[i] == '=' {
            proof {
                lemma_first_eq(cs@, i as int);
            }
            return Some(i);
        }
        i += 1;
    }
    proof {
        lemma_first_eq(cs@, i as int);
    }
    None
}

/// Reads the path of one PLS line.
fn pls_line_value(line: &str, base: &str) -> (r: Option<String>)
    ensures
        match r {
            Some(p) => pls_line_path(line@, base@) == Some(p@),
            None => pls_line_path(line@, base@) is None,
        },
{
    let t = trim(line);
    let tc = chars_of(t.as_str());
    let key = chars_of("File");
    if !chars_start_with(&tc, &key) {
        return None;
    }
    match first_eq_index(&tc) {
        None => None,
        Some(k) => {
            let n = tc.len();
            let mut rest = String::new();
            push_chars(&mut rest, &tc, k + 1, n);
            proof {
                assert(Seq::<char>::empty() + tc@.subrange(k + 1, tc@.len() as int) =~= t@.skip(
                    k + 1,
                ));
            }
            let v = trim(rest.as_str());
            let vc = chars_of(v.as_str());
            if vc.len() > 0 {
                Some(resolve_entry(v.as_str(), base))
            } else {
                None
            }
        },
    }
}

/// Reads the file paths of a PLS document whose directory is `base`: the
/// values of its `File…=` lines, in document order, resolved as M3U
/// entries are.
pub fn parse_pls(content: &str, base: &str) -> (r: Vec<String>)
    ensures
        string_views(r@) == spec_parse_pls(content@, base@),
{
    let lines = split_newlines(content);
    let ghost ls = string_views(lines@);
    let ghost pick = pls_pick(base@);
    let mut out: Vec<String> = Vec::new();
    let mut i: usize = 0;
    while i < lines.len()
        invariant
            i <= lines@.len(),
            ls == string_views(lines@),
            ls == spec_split_newlines(content@),
            pick == pls_pick(base@),
            string_views(out@) == collect_lines(ls.take(i as int), pick),
        decreases lines@.len() - i,
    {
        let ghost before = out@;
        proof {
            assert(ls.take(i + 1).drop_last() =~= ls.take(i as int));
            assert(ls.take(i + 1).last() == lines@[i as int]@);
        }
        match pls_line_value(lines[i].as_str(), base) {
            Some(p) => {
                out.push(p);
                proof {
                    assert(string_views(out@) =~= string_views(before).push(p@));
                }
            },
            None => {
                proof {
                    assert(collect_lines(ls.take(i + 1), pick) =~= collect_lines(
                        ls.take(i as int),
                        pick,
                    ));
                }
            },
        }
        i += 1;
    }
    proof {
        assert(ls.take(lines@.len() as int) =~= ls);
    }
    out
}

/// The path an XSPF line names: a trimmed line
/// `<location>…</location>` with a non-empty location names that
/// location, resolved as an M3U entry is (a `file://` URI decoded, a
/// relative path joined to `base`). The location is taken as written.
pub open spec fn xspf_line_path(line: Seq<char>, base: Seq<char>) -> Option<Seq<char>> {
    let t = spec_trim(line);
    if t.len() > 21 && has_prefix(t, "<location>"@) && has_suffix(t, "</location>"@) {
        Some(spec_resolve_entry(t.subrange(10, t.len() - 11), base))
    } else {
        None
    }
}

/// [`xspf_line_path`] for the directory `base`.
pub open spec fn xspf_pick(base: Seq<char>) -> spec_fn(Seq<char>) -> Option<Seq<char>> {
    |l: Seq<char>| xspf_line_path(l, base)
}

/// The file paths listed by an XSPF document whose directory is `base`:
/// its `<location>` elements, one per line, in document order.
pub open spec fn spec_parse_xspf(content: Seq<char>, base: Seq<char>) -> Seq<Seq<char>> {
    collect_lines(spec_split_newlines(content), xspf_pick(base))
}

/// Reads the path of one XSPF line.
fn xspf_line_value(line: &str, base: &str) -> (r: Option<String>)
    ensures
        match r {
            Some(p) => xspf_line_path(line@, base@) == Some(p@),
            None => xspf_line_path(line@, base@) is None,
        },
{
    let t = trim(line);
    let tc = chars_of(t.as_str());
    let open = chars_of("<location>");
    let close = chars_of("</location>");
    proof {
        reveal_strlit("<location>");
        reveal_strlit("</location>");
    }
    let n = tc.len();
    if n > 21 && chars_start_with(&tc, &open) && chars_end_with(&tc, &close) {
        let mut loc = String::new();
        push_chars(&mut loc, &tc, 10, n - 11);
        proof {
            assert(Seq::<char>::empty() + tc@.subrange(10, n - 11) =~= t@.subrange(
                10,
                t@.len() - 11,
            ));
        }
        Some(resolve_entry(loc.as_str(), base))
    } else {
        None
    }
}

/// Reads the file paths of an XSPF document whose directory is `base`:
/// the `<location>` elements written one per line, as Harmonia writes
/// them, in document order.
pub fn parse_xspf(content: &str, base: &str) -> (r: Vec<String>)
    ensures
        string_views(r@) == spec_parse_xspf(content@, base@),
{
    let lines = split_newlines(content);
    let ghost ls = string_views(lines@);
    let ghost pick = xspf_pick(base@);
    let mut out: Vec<String> = Vec::new();
    let mut i: usize = 0;
    while i < lines.len()
        invariant
            i <= lines@.len(),
            ls == string_views(lines@),
            ls == spec_split_newlines(content@),
            pick == xspf_pick(base@),
            string_views(out@) == collect_lines(ls.take(i as int), pick),
        decreases lines@.len() - i,
    {
        let ghost before = out@;
        proof {
            assert(ls.take(i + 1).drop_last() =~= ls.take(i as int));
            assert(ls.take(i + 1).last() == lines@[i as int]@);
        }
        match xspf_line_value(lines[i].as_str(), base) {
            Some(p) => {
                out.push(p);
                proof {
                    assert(string_views(out@) =~= string_views(before).push(p@));
                }
            },
            None => {
                proof {
                    assert(collect_lines(ls.take(i + 1), pick) =~= collect_lines(
                        ls.take(i as int),
                        pick,
                    ));
                }
            },
        }
        i += 1;
    }
    proof {
        assert(ls.take(lines@.len() as int) =~= ls);
    }
    out
}

// ---------------------------------------------------------------------------
// Export and import agree
// ---------------------------------------------------------------------------

/// Whether `s` holds no line break.
pub open spec fn no_newline(s: Seq<char>) -> bool {
    forall|i: int| 0 <= i < s.len() ==> s[i] != '\n'
}

/// What an M3U export writes for one entry besides its path: the
/// `#EXTINF` line.
pub open spec fn extinf_line(e: PlaylistEntry) -> Seq<char> {
    "#EXTINF:"@ + dec_int(whole_seconds(e.duration_ms)) + ",\""@ + e.artist@ + "\" - "@ + e.title@
}

/// The lines of the entries' M3U blocks: `#EXTINF` line, then path.
pub open spec fn m3u_lines(entries: Seq<PlaylistEntry>) -> Seq<Seq<char>>
    decreases entries.len(),
{
    if entries.len() == 0 {
        Seq::empty()
    } else {
        m3u_lines(entries.drop_last()) + seq![extinf_line(entries.last()), entries.last().path@]
    }
}

/// The paths of the entries, in order.
pub open spec fn entry_paths(entries: Seq<PlaylistEntry>) -> Seq<Seq<char>> {
    entries.map_values(|e: PlaylistEntry| e.path@)
}

/// An entry that an M3U export writes so that reading the file gives its
/// path back: an absolute path without surrounding whitespace, and no line
/// break in the path, the artist or the title.
pub open spec fn m3u_safe(e: PlaylistEntry) -> bool {
    &&& e.path@.len() > 0
    &&& e.path@[0] == '/'
    &&& spec_trim(e.path@) == e.path@
    &&& no_newline(e.path@)
    &&& no_newline(e.artist@)
    &&& no_newline(e.title@)
}

proof fn lemma_dec_nat_no_newline(n: nat)
    ensures
        no_newline(dec_nat(n)),
    decreases n,
{
    if n >= 10 {
        lemma_dec_nat_no_newline(n / 10);
        assert(no_newline(dec_nat(n))) by {
            let d = dec_nat(n);
            assert forall|i: int| 0 <= i < d.len() implies d[i] != '\n' by {
                if i < d.len() - 1 {
                    assert(d[i] == dec_nat(n / 10)[i]);
                } else {
                    assert(d[i] == crate::text::digit_char((n % 10) as int));
                }
            }
        }
    }
}

proof fn lemma_no_newline_concat(a: Seq<char>, b: Seq<char>)
    requires
        no_newline(a),
        no_newline(b),
    ensures
        no_newline(a + b),
{
    assert forall|i: int| 0 <= i < (a + b).len() implies (a + b)[i] != '\n' by {
        if i < a.len() {
            assert((a + b)[i] == a[i]);
        } else {
            assert((a + b)[i] == b[i - a.len()]);
        }
    }
}

proof fn lemma_extinf_line(e: PlaylistEntry)
    requires
        no_newline(e.artist@),
        no_newline(e.title@),
    ensures
        no_newline(extinf_line(e)),
        extinf_line(e).len() > 0,
        extinf_line(e)[0] == '#',
{
    reveal_strlit("#EXTINF:");
    reveal_strlit(",\"");
    reveal_strlit("\" - ");
    let n = whole_seconds(e.duration_ms);
    lemma_dec_nat_no_newline(if n < 0 {
        (-n) as nat
    } else {
        n as nat
    });
    assert(no_newline(dec_int(n))) by {
        if n < 0 {
            lemma_no_newline_concat(seq!['-'], dec_nat((-n) as nat));
        }
    }
    lemma_no_newline_concat("#EXTINF:"@, dec_int(n));
    lemma_no_newline_concat("#EXTINF:"@ + dec_int(n), ",\""@);
    lemma_no_newline_concat("#EXTINF:"@ + dec_int(n) + ",\""@, e.artist@);
    lemma_no_newline_concat("#EXTINF:"@ + dec_int(n) + ",\""@ + e.artist@, "\" - "@);
    lemma_no_newline_concat("#EXTINF:"@ + dec_int(n) + ",\""@ + e.artist@ + "\" - "@, e.title@);
}

/// Appending text without a line break extends the last line.
proof fn lemma_split_append_text(s: Seq<char>, t: Seq<char>)
    requires
        no_newline(t),
    ensures
        spec_split_newlines(s + t) == spec_split_newlines(s).update(
            spec_split_newlines(s).len() - 1,
            spec_split_newlines(s).last() + t,
        ),
        spec_split_newlines(s + t).len() == spec_split_newlines(s).len(),
    decreases t.len(),
{
    lemma_split_len(s);
    if t.len() == 0 {
        assert(s + t =~= s);
        assert(spec_split_newlines(s).last() + t =~= spec_split_newlines(s).last());
        assert(spec_split_newlines(s).update(
            spec_split_newlines(s).len() - 1,
            spec_split_newlines(s).last(),
        ) =~= spec_split_newlines(s));
    } else {
        let t1 = t.drop_last();
        let c = t.last();
        assert(no_newline(t1)) by {
            assert forall|i: int| 0 <= i < t1.len() implies t1[i] != '\n' by {
                assert(t1[i] == t[i]);
            }
        }
        lemma_split_append_text(s, t1);
        assert((s + t).drop_last() =~= s + t1);
        assert((s + t).last() == c);
        assert(c != '\n') by {
            assert(t[t.len() - 1] == c);
        }
        let w = spec_split_newlines(s);
        let w1 = spec_split_newlines(s + t1);
        assert(w1.last() == w.last() + t1);
        assert(w1.last().push(c) =~= w.last() + t);
        assert(w1.update(w1.len() - 1, w1.last().push(c)) =~= w.update(
            w.len() - 1,
            w.last() + t,
        ));
    }
}

proof fn lemma_split_len(s: Seq<char>)
    ensures
        spec_split_newlines(s).len() > 0,
    decreases s.len(),
{
    if s.len() > 0 {
        lemma_split_len(s.drop_last());
    }
}

/// A whole line followed by a line break, appended after a line break,
/// becomes a line of its own.
proof fn lemma_split_append_line(s: Seq<char>, line: Seq<char>)
    requires
        no_newline(line),
        spec_split_newlines(s).last() == Seq::<char>::empty(),
    ensures
        spec_split_newlines(s + line + seq!['\n']) == spec_split_newlines(s).drop_last() + seq![
            line,
            Seq::<char>::empty(),
        ],
{
    lemma_split_len(s);
    lemma_split_append_text(s, line);
    let w = spec_split_newlines(s);
    assert((s + line + seq!['\n']).drop_last() =~= s + line);
    assert((s + line + seq!['\n']).last() == '\n');
    assert(Seq::<char>::empty() + line =~= line);
    assert(w.update(w.len() - 1, line).push(Seq::<char>::empty()) =~= w.drop_last() + seq![
        line,
        Seq::<char>::empty(),
    ]);
}

/// The lines of a rendered M3U document.
proof fn lemma_split_m3u(entries: Seq<PlaylistEntry>)
    requires
        forall|i: int| 0 <= i < entries.len() ==> m3u_safe(#[trigger] entries[i]),
    ensures
        spec_split_newlines(spec_render_m3u(entries)) == seq!["#EXTM3U"@] + m3u_lines(entries)
            + seq![Seq::<char>::empty()],
    decreases entries.len(),
{
    reveal_strlit("#EXTM3U\n");
    reveal_strlit("#EXTM3U");
    if entries.len() == 0 {
        assert(spec_render_m3u(entries) =~= Seq::<char>::empty() + "#EXTM3U"@ + seq!['\n']);
        assert(spec_split_newlines(Seq::<char>::empty()) =~= seq![Seq::<char>::empty()]);
        assert(no_newline("#EXTM3U"@));
        lemma_split_append_line(Seq::<char>::empty(), "#EXTM3U"@);
        assert(seq![Seq::<char>::empty()].drop_last() =~= Seq::<Seq<char>>::empty());
        assert(seq!["#EXTM3U"@] + m3u_lines(entries) + seq![Seq::<char>::empty()] =~= seq![
            "#EXTM3U"@,
            Seq::<char>::empty(),
        ]);
        assert(Seq::<Seq<char>>::empty() + seq!["#EXTM3U"@, Seq::<char>::empty()] =~= seq![
            "#EXTM3U"@,
            Seq::<char>::empty(),
        ]);
    } else {
        let prev = entries.drop_last();
        let e = entries.last();
        assert forall|i: int| 0 <= i < prev.len() implies m3u_safe(#[trigger] prev[i]) by {
            assert(prev[i] == entries[i]);
        }
        assert(m3u_safe(e)) by {
            assert(entries[entries.len() - 1] == e);
        }
        lemma_split_m3u(prev);
        lemma_extinf_line(e);
        let s0 = spec_render_m3u(prev);
        let s1 = s0 + extinf_line(e) + seq!['\n'];
        let s2 = s1 + e.path@ + seq!['\n'];
        reveal_strlit("\n");
        assert(m3u_entry(e) =~= extinf_line(e) + seq!['\n'] + e.path@ + seq!['\n']);
        assert(spec_render_m3u(entries) =~= s2);
        lemma_split_append_line(s0, extinf_line(e));
        let l0 = seq!["#EXTM3U"@] + m3u_lines(prev);
        assert(spec_split_newlines(s0).drop_last() =~= l0);
        assert(spec_split_newlines(s1) =~= l0 + seq![extinf_line(e), Seq::<char>::empty()]);
        lemma_split_append_line(s1, e.path@);
        assert(spec_split_newlines(s1).drop_last() =~= l0 + seq![extinf_line(e)]);
        assert(m3u_lines(entries) =~= m3u_lines(prev) + seq![extinf_line(e), e.path@]);
        assert(spec_split_newlines(s2) =~= seq!["#EXTM3U"@] + m3u_lines(entries) + seq![
            Seq::<char>::empty(),
        ]);
    }
}

/// Reading lines one list after another reads each list in turn.
proof fn lemma_m3u_paths_concat(a: Seq<Seq<char>>, b: Seq<Seq<char>>, base: Seq<char>)
    ensures
        m3u_paths(a + b, base) == m3u_paths(a, base) + m3u_paths(b, base),
    decreases b.len(),
{
    if b.len() == 0 {
        assert(a + b =~= a);
        assert(m3u_paths(a, base) + m3u_paths(b, base) =~= m3u_paths(a, base));
    } else {
        lemma_m3u_paths_concat(a, b.drop_last(), base);
        assert((a + b).drop_last() =~= a + b.drop_last());
        assert((a + b).last() == b.last());
    }
}

/// A line that starts with `#` names no file.
proof fn lemma_hash_line_skipped(s: Seq<char>)
    requires
        s.len() > 0,
        s[0] == '#',
    ensures
        !names_entry(spec_trim(s)),
{
    assert(leading_ws(s) == 0);
    assert(s.skip(0) =~= s);
    lemma_trailing_ws_short(s);
    assert(spec_trim(s)[0] == s[0]);
}

proof fn lemma_trailing_ws_short(s: Seq<char>)
    requires
        s.len() > 0,
        !spec_is_whitespace(s[0]),
    ensures
        trailing_ws(s) < s.len(),
    decreases s.len(),
{
    if s.len() > 1 && spec_is_whitespace(s.last()) {
        assert(s.drop_last()[0] == s[0]);
        lemma_trailing_ws_short(s.drop_last());
    }
}

/// The paths read back from the lines of M3U blocks.
proof fn lemma_m3u_lines_paths(entries: Seq<PlaylistEntry>, base: Seq<char>)
    requires
        forall|i: int| 0 <= i < entries.len() ==> m3u_safe(#[trigger] entries[i]),
    ensures
        m3u_paths(m3u_lines(entries), base) == entry_paths(entries),
    decreases entries.len(),
{
    if entries.len() > 0 {
        let prev = entries.drop_last();
        let e = entries.last();
        assert forall|i: int| 0 <= i < prev.len() implies m3u_safe(#[trigger] prev[i]) by {
            assert(prev[i] == entries[i]);
        }
        assert(m3u_safe(e)) by {
            assert(entries[entries.len() - 1] == e);
        }
        lemma_m3u_lines_paths(prev, base);
        lemma_extinf_line(e);
        lemma_m3u_paths_concat(m3u_lines(prev), seq![extinf_line(e), e.path@], base);
        lemma_hash_line_skipped(extinf_line(e));
        let two = seq![extinf_line(e), e.path@];
        assert(two.drop_last() =~= seq![extinf_line(e)]);
        assert(seq![extinf_line(e)].drop_last() =~= Seq::<Seq<char>>::empty());
        reveal_strlit("file://");
        assert(!has_prefix(e.path@, "file://"@)) by {
            if has_prefix(e.path@, "file://"@) {
                assert(e.path@[0] == "file://"@[0]);
            }
        }
        assert(names_entry(spec_trim(e.path@)));
        assert(spec_resolve_entry(e.path@, base) == e.path@);
        let one = seq![extinf_line(e)];
        assert(one.last() == extinf_line(e));
        assert(m3u_paths(one.drop_last(), base) =~= Seq::<Seq<char>>::empty());
        assert(m3u_paths(one, base) =~= Seq::<Seq<char>>::empty());
        assert(two.last() == e.path@);
        assert(m3u_paths(two, base) =~= m3u_paths(one, base) + seq![e.path@]);
        assert(m3u_paths(two, base) =~= seq![e.path@]);
        assert(entry_paths(entries) =~= entry_paths(prev).push(e.path@));
    }
}

/// Importing an exported M3U playlist gives back the exported paths, in
/// order, for entries with absolute, trimmed paths and no line breaks in
/// their path, artist or title.
pub proof fn lemma_m3u_roundtrip(entries: Seq<PlaylistEntry>, base: Seq<char>)
    requires
        forall|i: int| 0 <= i < entries.len() ==> m3u_safe(#[trigger] entries[i]),
    ensures
        spec_parse_m3u(spec_render_m3u(entries), base) == entry_paths(entries),
{
    lemma_split_m3u(entries);
    let lines = seq!["#EXTM3U"@] + m3u_lines(entries) + seq![Seq::<char>::empty()];
    lemma_m3u_paths_concat(seq!["#EXTM3U"@] + m3u_lines(entries), seq![Seq::<char>::empty()], base);
    lemma_m3u_paths_concat(seq!["#EXTM3U"@], m3u_lines(entries), base);
    lemma_m3u_lines_paths(entries, base);
    reveal_strlit("#EXTM3U");
    lemma_hash_line_skipped("#EXTM3U"@);
    assert(seq!["#EXTM3U"@].drop_last() =~= Seq::<Seq<char>>::empty());
    assert(seq![Seq::<char>::empty()].drop_last() =~= Seq::<Seq<char>>::empty());
    assert(leading_ws(Seq::<char>::empty()) == 0);
    assert(spec_trim(Seq::<char>::empty()) =~= Seq::<char>::empty());
    let last_line = seq![Seq::<char>::empty()];
    assert(last_line.last() == Seq::<char>::empty());
    assert(!names_entry(spec_trim(last_line.last())));
    assert(m3u_paths(last_line.drop_last(), base) =~= Seq::<Seq<char>>::empty());
    assert(m3u_paths(last_line, base) =~= Seq::<Seq<char>>::empty());
    assert(m3u_paths(seq!["#EXTM3U"@], base) =~= Seq::<Seq<char>>::empty());
    assert(Seq::<Seq<char>>::empty() + entry_paths(entries) + Seq::<Seq<char>>::empty()
        =~= entry_paths(entries));
}

// ---------------------------------------------------------------------------
// File URIs read back
// ---------------------------------------------------------------------------

/// The bytes of ASCII text.
pub open spec fn ascii_bytes(s: Seq<char>) -> Seq<u8> {
    s.map_values(|c: char| c as u8)
}

/// The URI text of one byte.
pub open spec fn uri_block(b: u8) -> Seq<char> {
    if uri_encodes(b) {
        percent_triplet(b)
    } else {
        seq![b as char]
    }
}

proof fn lemma_uri_encode_concat(a: Seq<u8>, b: Seq<u8>)
    ensures
        spec_uri_encode(a + b) == spec_uri_encode(a) + spec_uri_encode(b),
    decreases b.len(),
{
    if b.len() == 0 {
        assert(a + b =~= a);
        assert(spec_uri_encode(a) + spec_uri_encode(b) =~= spec_uri_encode(a));
    } else {
        lemma_uri_encode_concat(a, b.drop_last());
        assert((a + b).drop_last() =~= a + b.drop_last());
        assert((a + b).last() == b.last());
        assert(spec_uri_encode(a + b) =~= spec_uri_encode(a) + spec_uri_encode(b));
    }
}

proof fn lemma_uri_encode_first(b: Seq<u8>)
    requires
        b.len() > 0,
    ensures
        spec_uri_encode(b) == uri_block(b[0]) + spec_uri_encode(b.skip(1)),
{
    lemma_uri_encode_concat(seq![b[0]], b.skip(1));
    assert(seq![b[0]] + b.skip(1) =~= b);
    let one = seq![b[0]];
    assert(one.drop_last() =~= Seq::<u8>::empty());
    assert(one.last() == b[0]);
    assert(spec_uri_encode(one.drop_last()) =~= Seq::<char>::empty());
    assert(spec_uri_encode(one) =~= Seq::<char>::empty() + uri_block(b[0]));
    assert(spec_uri_encode(one) =~= uri_block(b[0]));
}

/// The characters a URI is made of: printable ASCII, no space.
pub open spec fn uri_char(c: char) -> bool {
    '!' <= c <= '~'
}

proof fn lemma_hex_digit(d: int)
    requires
        0 <= d < 16,
    ensures
        uri_char(hex_digit_upper(d)),
        is_hex_byte(hex_digit_upper(d) as u8),
        hex_byte_value(hex_digit_upper(d) as u8) == d,
{
}

proof fn lemma_uri_block(b: u8)
    ensures
        forall|i: int| 0 <= i < uri_block(b).len() ==> uri_char(#[trigger] uri_block(b)[i]),
        spec_percent_decode(ascii_bytes(uri_block(b))) == seq![b],
        uri_block(b).len() > 0,
{
    if uri_encodes(b) {
        lemma_hex_digit(b as int / 16);
        lemma_hex_digit(b as int % 16);
        let k = ascii_bytes(uri_block(b));
        assert(k[0] == 0x25);
        assert(k.skip(3) =~= Seq::<u8>::empty());
        assert((hex_byte_value(k[1]) * 16 + hex_byte_value(k[2])) as u8 == b);
        assert(spec_percent_decode(k) =~= seq![b] + spec_percent_decode(k.skip(3)));
    } else {
        let k = ascii_bytes(uri_block(b));
        assert(k[0] == b);
        assert(k.skip(1) =~= Seq::<u8>::empty());
        assert(spec_percent_decode(k) =~= seq![b] + spec_percent_decode(k.skip(1)));
    }
}

proof fn lemma_decode_block_prefix(b: u8, rest: Seq<u8>)
    ensures
        spec_percent_decode(ascii_bytes(uri_block(b)) + rest) == seq![b] + spec_percent_decode(
            rest,
        ),
{
    lemma_uri_block(b);
    let k = ascii_bytes(uri_block(b));
    if uri_encodes(b) {
        lemma_hex_digit(b as int / 16);
        lemma_hex_digit(b as int % 16);
        assert((k + rest).skip(3) =~= rest);
        assert((k + rest)[0] == 0x25);
        assert((k + rest)[1] == k[1]);
        assert((k + rest)[2] == k[2]);
    } else {
        assert((k + rest).skip(1) =~= rest);
        assert((k + rest)[0] == b);
    }
}

proof fn lemma_uri_decode(b: Seq<u8>)
    ensures
        spec_percent_decode(ascii_bytes(spec_uri_encode(b))) == b,
        forall|i: int|
            0 <= i < spec_uri_encode(b).len() ==> uri_char(#[trigger] spec_uri_encode(b)[i]),
    decreases b.len(),
{
    if b.len() == 0 {
        assert(ascii_bytes(spec_uri_encode(b)) =~= Seq::<u8>::empty());
        assert(b =~= Seq::<u8>::empty());
    } else {
        lemma_uri_encode_first(b);
        lemma_uri_decode(b.skip(1));
        lemma_uri_block(b[0]);
        let e = spec_uri_encode(b);
        let blk = uri_block(b[0]);
        let tail = spec_uri_encode(b.skip(1));
        assert(ascii_bytes(e) =~= ascii_bytes(blk) + ascii_bytes(tail));
        lemma_decode_block_prefix(b[0], ascii_bytes(tail));
        assert(seq![b[0]] + b.skip(1) =~= b);
        assert forall|i: int| 0 <= i < e.len() implies uri_char(#[trigger] e[i]) by {
            if i < blk.len() {
                assert(e[i] == blk[i]);
            } else {
                assert(e[i] == tail[i - blk.len()]);
            }
        }
    }
}

/// Importing the file URI written for a path gives back the path, for
/// every path.
pub proof fn lemma_file_uri_roundtrip(path: Seq<char>, base: Seq<char>)
    ensures
        spec_resolve_entry(spec_file_uri(path), base) == path,
{
    reveal_strlit("file://");
    let bytes = encode_utf8(path);
    let e = spec_uri_encode(bytes);
    lemma_uri_decode(bytes);
    let uri = spec_file_uri(path);
    assert(has_prefix(uri, "file://"@)) by {
        assert(uri.take(7) =~= "file://"@);
    }
    assert(uri.skip(7) =~= e);
    assert(vstd::utf8::is_ascii_chars(e)) by {
        assert forall|i: int| 0 <= i < e.len() implies '\0' <= #[trigger] e[i] <= '\u{7f}' by {
            assert(uri_char(e[i]));
        }
    }
    vstd::utf8::is_ascii_chars_encode_utf8(e);
    assert(encode_utf8(e) =~= ascii_bytes(e));
    vstd::utf8::encode_utf8_valid_utf8(path);
    vstd::utf8::encode_utf8_decode_utf8(path);
}

// ---------------------------------------------------------------------------
// Format names
// ---------------------------------------------------------------------------

proof fn lemma_ascii_lowercase_idempotent(f: Seq<char>)
    ensures
        spec_ascii_lowercase(spec_ascii_lowercase(f)) == spec_ascii_lowercase(f),
{
    assert(spec_ascii_lowercase(spec_ascii_lowercase(f)) =~= spec_ascii_lowercase(f));
}

/// The format name is read without regard to ASCII case: a name and its
/// lowercase form give the same document or the same error.
pub proof fn lemma_format_case_insensitive(
    format: Seq<char>,
    name: Seq<char>,
    entries: Seq<PlaylistEntry>,
)
    ensures
        spec_render_playlist(format, name, entries) == spec_render_playlist(
            spec_ascii_lowercase(format),
            name,
            entries,
        ),
{
    lemma_ascii_lowercase_idempotent(format);
}

/// An M3U8 export is byte-identical to an M3U export.
pub proof fn lemma_m3u8_is_m3u(name: Seq<char>, entries: Seq<PlaylistEntry>)
    ensures
        spec_render_playlist("m3u8"@, name, entries) == spec_render_playlist("m3u"@, name, entries),
        spec_render_playlist("m3u"@, name, entries) == Ok::<Seq<char>, Seq<char>>(
            spec_render_m3u(entries),
        ),
{
    reveal_strlit("m3u8");
    reveal_strlit("m3u");
    assert(spec_ascii_lowercase("m3u8"@) =~= "m3u8"@);
    assert(spec_ascii_lowercase("m3u"@) =~= "m3u"@);
}

// ---------------------------------------------------------------------------
// PLS and XSPF exports read back
// ---------------------------------------------------------------------------

/// Text made of `ls`, each line followed by a line break.
pub open spec fn lines_text(ls: Seq<Seq<char>>) -> Seq<char>
    decreases ls.len(),
{
    if ls.len() == 0 {
        Seq::empty()
    } else {
        lines_text(ls.drop_last()) + ls.last() + seq!['\n']
    }
}

proof fn lemma_lines_text_concat(a: Seq<Seq<char>>, b: Seq<Seq<char>>)
    ensures
        lines_text(a + b) == lines_text(a) + lines_text(b),
    decreases b.len(),
{
    if b.len() == 0 {
        assert(a + b =~= a);
        assert(lines_text(a) + lines_text(b) =~= lines_text(a));
    } else {
        lemma_lines_text_concat(a, b.drop_last());
        assert((a + b).drop_last() =~= a + b.drop_last());
        assert((a + b).last() == b.last());
        assert(lines_text(a + b) =~= lines_text(a) + lines_text(b));
    }
}

proof fn lemma_split_lines_text(ls: Seq<Seq<char>>)
    requires
        forall|i: int| 0 <= i < ls.len() ==> no_newline(#[trigger] ls[i]),
    ensures
        spec_split_newlines(lines_text(ls)) == ls.push(Seq::<char>::empty()),
    decreases ls.len(),
{
    if ls.len() == 0 {
        assert(spec_split_newlines(Seq::<char>::empty()) =~= seq![Seq::<char>::empty()]);
        assert(ls.push(Seq::<char>::empty()) =~= seq![Seq::<char>::empty()]);
    } else {
        let prev = ls.drop_last();
        assert forall|i: int| 0 <= i < prev.len() implies no_newline(#[trigger] prev[i]) by {
            assert(prev[i] == ls[i]);
        }
        lemma_split_lines_text(prev);
        assert(no_newline(ls.last())) by {
            assert(ls[ls.len() - 1] == ls.last());
        }
        lemma_split_append_line(lines_text(prev), ls.last());
        assert(prev.push(Seq::<char>::empty()).drop_last() =~= prev);
        assert(prev + seq![ls.last(), Seq::<char>::empty()] =~= ls.push(Seq::<char>::empty()));
    }
}

proof fn lemma_collect_concat(
    a: Seq<Seq<char>>,
    b: Seq<Seq<char>>,
    pick: spec_fn(Seq<char>) -> Option<Seq<char>>,
)
    ensures
        collect_lines(a + b, pick) == collect_lines(a, pick) + collect_lines(b, pick),
    decreases b.len(),
{
    if b.len() == 0 {
        assert(a + b =~= a);
        assert(collect_lines(a, pick) + collect_lines(b, pick) =~= collect_lines(a, pick));
    } else {
        lemma_collect_concat(a, b.drop_last(), pick);
        assert((a + b).drop_last() =~= a + b.drop_last());
        assert((a + b).last() == b.last());
        assert(collect_lines(a + b, pick) =~= collect_lines(a, pick) + collect_lines(b, pick));
    }
}

/// The paths read from lines none of which names one.
proof fn lemma_collect_none(ls: Seq<Seq<char>>, pick: spec_fn(Seq<char>) -> Option<Seq<char>>)
    requires
        forall|i: int| 0 <= i < ls.len() ==> pick(#[trigger] ls[i]) is None,
    ensures
        collect_lines(ls, pick) == Seq::<Seq<char>>::empty(),
    decreases ls.len(),
{
    if ls.len() > 0 {
        let prev = ls.drop_last();
        assert forall|i: int| 0 <= i < prev.len() implies pick(#[trigger] prev[i]) is None by {
            assert(prev[i] == ls[i]);
        }
        lemma_collect_none(prev, pick);
        assert(pick(ls[ls.len() - 1]) is None);
    }
}

/// The paths read from a single line.
proof fn lemma_collect_one(l: Seq<char>, pick: spec_fn(Seq<char>) -> Option<Seq<char>>)
    ensures
        collect_lines(seq![l], pick) == match pick(l) {
            Some(p) => seq![p],
            None => Seq::<Seq<char>>::empty(),
        },
{
    assert(seq![l].drop_last() =~= Seq::<Seq<char>>::empty());
    assert(seq![l].last() == l);
    assert(collect_lines(seq![l], pick) =~= collect_lines(Seq::<Seq<char>>::empty(), pick)
        + match pick(l) {
        Some(p) => seq![p],
        None => Seq::<Seq<char>>::empty(),
    });
}

proof fn lemma_dec_nat_digits(n: nat)
    ensures
        forall|i: int| 0 <= i < dec_nat(n).len() ==> '0' <= #[trigger] dec_nat(n)[i] <= '9',
        dec_nat(n).len() > 0,
    decreases n,
{
    if n >= 10 {
        lemma_dec_nat_digits(n / 10);
        let d = dec_nat(n);
        assert forall|i: int| 0 <= i < d.len() implies '0' <= #[trigger] d[i] <= '9' by {
            if i < d.len() - 1 {
                assert(d[i] == dec_nat(n / 10)[i]);
            } else {
                assert(d[i] == crate::text::digit_char((n % 10) as int));
            }
        }
    }
}

proof fn lemma_dec_int_no_newline(n: int)
    ensures
        no_newline(dec_int(n)),
{
    lemma_dec_nat_no_newline(if n < 0 {
        (-n) as nat
    } else {
        n as nat
    });
    if n < 0 {
        lemma_no_newline_concat(seq!['-'], dec_nat((-n) as nat));
    }
}

/// The `File` line of the PLS entry numbered `n`.
pub open spec fn pls_file_line(n: nat, e: PlaylistEntry) -> Seq<char> {
    "File"@ + dec_nat(n) + "="@ + e.path@
}

/// The three lines of the PLS entry numbered `n`.
pub open spec fn pls_entry_lines(n: nat, e: PlaylistEntry) -> Seq<Seq<char>> {
    seq![
        pls_file_line(n, e),
        "Title"@ + dec_nat(n) + "="@ + e.artist@ + " - "@ + e.title@,
        "Length"@ + dec_nat(n) + "="@ + dec_int(whole_seconds(e.duration_ms)),
    ]
}

/// The lines of the entries' PLS blocks, numbered from 1.
pub open spec fn pls_body_lines(entries: Seq<PlaylistEntry>) -> Seq<Seq<char>>
    decreases entries.len(),
{
    if entries.len() == 0 {
        Seq::empty()
    } else {
        pls_body_lines(entries.drop_last()) + pls_entry_lines(entries.len(), entries.last())
    }
}

/// The lines of a PLS document.
pub open spec fn pls_doc_lines(entries: Seq<PlaylistEntry>) -> Seq<Seq<char>> {
    seq!["[playlist]"@] + pls_body_lines(entries) + seq![
        "NumberOfEntries="@ + dec_nat(entries.len()),
        "Version=2"@,
    ]
}

proof fn lemma_pls_entry_text(n: nat, e: PlaylistEntry)
    ensures
        pls_entry(n, e) == lines_text(pls_entry_lines(n, e)),
{
    reveal_with_fuel(lines_text, 4);
    let ls = pls_entry_lines(n, e);
    assert(ls.drop_last().drop_last().drop_last() =~= Seq::<Seq<char>>::empty());
    reveal_strlit("\n");
    assert(pls_entry(n, e) =~= lines_text(ls));
}

proof fn lemma_pls_body_text(entries: Seq<PlaylistEntry>)
    ensures
        pls_body(entries) == lines_text(pls_body_lines(entries)),
    decreases entries.len(),
{
    if entries.len() > 0 {
        lemma_pls_body_text(entries.drop_last());
        lemma_pls_entry_text(entries.len(), entries.last());
        lemma_lines_text_concat(
            pls_body_lines(entries.drop_last()),
            pls_entry_lines(entries.len(), entries.last()),
        );
    }
}

proof fn lemma_pls_doc_text(entries: Seq<PlaylistEntry>)
    ensures
        spec_render_pls(entries) == lines_text(pls_doc_lines(entries)),
{
    lemma_pls_body_text(entries);
    let head = seq!["[playlist]"@];
    let foot = seq!["NumberOfEntries="@ + dec_nat(entries.len()), "Version=2"@];
    lemma_lines_text_concat(head + pls_body_lines(entries), foot);
    lemma_lines_text_concat(head, pls_body_lines(entries));
    reveal_with_fuel(lines_text, 3);
    assert(head.drop_last() =~= Seq::<Seq<char>>::empty());
    assert(foot.drop_last().drop_last() =~= Seq::<Seq<char>>::empty());
    reveal_strlit("[playlist]\n");
    reveal_strlit("[playlist]");
    reveal_strlit("\nVersion=2\n");
    reveal_strlit("Version=2");
    reveal_strlit("NumberOfEntries=");
    assert(lines_text(head) =~= "[playlist]\n"@);
    assert(lines_text(foot) =~= "NumberOfEntries="@ + dec_nat(entries.len()) + "\nVersion=2\n"@);
    assert(spec_render_pls(entries) =~= lines_text(head) + lines_text(pls_body_lines(entries))
        + lines_text(foot));
}

/// A line whose first character is neither whitespace nor `F` names no
/// PLS file.
proof fn lemma_pls_not_file(l: Seq<char>, base: Seq<char>)
    requires
        l.len() > 0,
        !spec_is_whitespace(l[0]),
        l[0] != 'F',
    ensures
        pls_line_path(l, base) is None,
{
    lemma_trim_first(l);
    reveal_strlit("File");
    let t = spec_trim(l);
    if has_prefix(t, "File"@) {
        assert(t.subrange(0, 4)[0] == t[0]);
    }
}

proof fn lemma_pls_file_line(n: nat, e: PlaylistEntry, base: Seq<char>)
    requires
        m3u_safe(e),
    ensures
        pls_line_path(pls_file_line(n, e), base) == Some(e.path@),
        no_newline(pls_file_line(n, e)),
{
    reveal_strlit("File");
    reveal_strlit("=");
    let p = e.path@;
    let d = dec_nat(n);
    let l = pls_file_line(n, e);
    lemma_dec_nat_digits(n);
    lemma_dec_nat_no_newline(n);
    lemma_trimmed_ends(p);
    assert(l.last() == p.last());
    lemma_trim_indented(Seq::<char>::empty(), l);
    assert(Seq::<char>::empty() + l =~= l);
    assert(l.subrange(0, 4) =~= "File"@);
    let k: int = 4 + d.len() as int;
    assert forall|q: int| 0 <= q < k implies l[q] != '=' by {
        if q >= 4 {
            assert(l[q] == d[q - 4]);
        }
    }
    assert(l[k] == '=');
    lemma_first_eq(l, k);
    assert(l.skip(k + 1) =~= p);
    reveal_strlit("file://");
    assert(!has_prefix(p, "file://"@)) by {
        if has_prefix(p, "file://"@) {
            assert(p.subrange(0, 7)[0] == p[0]);
        }
    }
    lemma_no_newline_concat("File"@, d);
    lemma_no_newline_concat("File"@ + d, "="@);
    lemma_no_newline_concat("File"@ + d + "="@, p);
}

proof fn lemma_pls_entry_paths(n: nat, e: PlaylistEntry, base: Seq<char>)
    requires
        m3u_safe(e),
    ensures
        collect_lines(pls_entry_lines(n, e), pls_pick(base)) == seq![e.path@],
        forall|i: int|
            0 <= i < pls_entry_lines(n, e).len() ==> no_newline(#[trigger] pls_entry_lines(n, e)[i]),
{
    let ls = pls_entry_lines(n, e);
    let pick = pls_pick(base);
    reveal_strlit("Title");
    reveal_strlit("Length");
    reveal_strlit("=");
    reveal_strlit(" - ");
    lemma_pls_file_line(n, e, base);
    lemma_pls_not_file(ls[1], base);
    lemma_pls_not_file(ls[2], base);
    lemma_collect_one(ls[0], pick);
    lemma_collect_none(seq![ls[1], ls[2]], pick);
    lemma_collect_concat(seq![ls[0]], seq![ls[1], ls[2]], pick);
    assert(seq![ls[0]] + seq![ls[1], ls[2]] =~= ls);
    lemma_dec_nat_no_newline(n);
    lemma_dec_int_no_newline(whole_seconds(e.duration_ms));
    lemma_no_newline_concat("Title"@, dec_nat(n));
    lemma_no_newline_concat("Title"@ + dec_nat(n), "="@);
    lemma_no_newline_concat("Title"@ + dec_nat(n) + "="@, e.artist@);
    lemma_no_newline_concat("Title"@ + dec_nat(n) + "="@ + e.artist@, " - "@);
    lemma_no_newline_concat("Title"@ + dec_nat(n) + "="@ + e.artist@ + " - "@, e.title@);
    lemma_no_newline_concat("Length"@, dec_nat(n));
    lemma_no_newline_concat("Length"@ + dec_nat(n), "="@);
    lemma_no_newline_concat(
        "Length"@ + dec_nat(n) + "="@,
        dec_int(whole_seconds(e.duration_ms)),
    );
}

proof fn lemma_pls_body_paths(entries: Seq<PlaylistEntry>, base: Seq<char>)
    requires
        forall|i: int| 0 <= i < entries.len() ==> m3u_safe(#[trigger] entries[i]),
    ensures
        collect_lines(pls_body_lines(entries), pls_pick(base)) == entry_paths(entries),
        forall|i: int|
            0 <= i < pls_body_lines(entries).len() ==> no_newline(
                #[trigger] pls_body_lines(entries)[i],
            ),
    decreases entries.len(),
{
    if entries.len() > 0 {
        let prev = entries.drop_last();
        let e = entries.last();
        assert forall|i: int| 0 <= i < prev.len() implies m3u_safe(#[trigger] prev[i]) by {
            assert(prev[i] == entries[i]);
        }
        assert(m3u_safe(e)) by {
            assert(entries[entries.len() - 1] == e);
        }
        lemma_pls_body_paths(prev, base);
        lemma_pls_entry_paths(entries.len(), e, base);
        let a = pls_body_lines(prev);
        let b = pls_entry_lines(entries.len(), e);
        lemma_collect_concat(a, b, pls_pick(base));
        assert(entry_paths(entries) =~= entry_paths(prev).push(e.path@));
        assert forall|i: int| 0 <= i < (a + b).len() implies no_newline(#[trigger] (a + b)[i]) by {
            if i < a.len() {
                assert((a + b)[i] == a[i]);
            } else {
                assert((a + b)[i] == b[i - a.len()]);
            }
        }
    }
}

/// Importing an exported PLS playlist gives back the exported paths, in
/// order, for entries with absolute, trimmed paths and no line breaks in
/// their path, artist or title.
pub proof fn lemma_pls_roundtrip(entries: Seq<PlaylistEntry>, base: Seq<char>)
    requires
        forall|i: int| 0 <= i < entries.len() ==> m3u_safe(#[trigger] entries[i]),
    ensures
        spec_parse_pls(spec_render_pls(entries), base) == entry_paths(entries),
{
    let pick = pls_pick(base);
    lemma_pls_doc_text(entries);
    lemma_pls_body_paths(entries, base);
    reveal_strlit("[playlist]");
    reveal_strlit("NumberOfEntries=");
    reveal_strlit("Version=2");
    let head = seq!["[playlist]"@];
    let body = pls_body_lines(entries);
    let foot = seq![
        "NumberOfEntries="@ + dec_nat(entries.len()),
        "Version=2"@,
        Seq::<char>::empty(),
    ];
    let doc = pls_doc_lines(entries);
    lemma_dec_nat_no_newline(entries.len());
    lemma_no_newline_concat("NumberOfEntries="@, dec_nat(entries.len()));
    assert forall|i: int| 0 <= i < doc.len() implies no_newline(#[trigger] doc[i]) by {
        if 1 <= i < 1 + body.len() {
            assert(doc[i] == body[i - 1]);
        }
    }
    lemma_split_lines_text(doc);
    assert(doc.push(Seq::<char>::empty()) =~= head + body + foot);
    lemma_pls_not_file(head[0], base);
    lemma_pls_not_file(foot[0], base);
    lemma_pls_not_file(foot[1], base);
    assert(pick(foot[2]) is None) by {
        assert(spec_trim(Seq::<char>::empty()) =~= Seq::<char>::empty());
    }
    lemma_collect_none(head, pick);
    lemma_collect_none(foot, pick);
    lemma_collect_concat(head + body, foot, pick);
    lemma_collect_concat(head, body, pick);
    assert(Seq::<Seq<char>>::empty() + entry_paths(entries) + Seq::<Seq<char>>::empty()
        =~= entry_paths(entries));
}

proof fn lemma_xml_escape_no_newline(s: Seq<char>)
    requires
        no_newline(s),
    ensures
        no_newline(spec_xml_escape(s)),
    decreases s.len(),
{
    if s.len() > 0 {
        assert(no_newline(s.drop_last())) by {
            assert forall|i: int| 0 <= i < s.drop_last().len() implies s.drop_last()[i] != '\n' by {
                assert(s.drop_last()[i] == s[i]);
            }
        }
        lemma_xml_escape_no_newline(s.drop_last());
        let c = s.last();
        assert(c != '\n') by {
            assert(s[s.len() - 1] == c);
        }
        reveal_strlit("&amp;");
        reveal_strlit("&lt;");
        reveal_strlit("&gt;");
        reveal_strlit("&quot;");
        reveal_strlit("&apos;");
        assert(no_newline(xml_escape_char(c)));
        lemma_no_newline_concat(spec_xml_escape(s.drop_last()), xml_escape_char(c));
    }
}

/// The lines of one XSPF `<track>` element.
pub open spec fn xspf_entry_lines(e: PlaylistEntry) -> Seq<Seq<char>> {
    seq![
        "    "@ + "<track>"@,
        "      "@ + ("<location>"@ + spec_file_uri(e.path@) + "</location>"@),
        "      "@ + ("<title>"@ + spec_xml_escape(e.title@) + "</title>"@),
        "      "@ + ("<creator>"@ + spec_xml_escape(e.artist@) + "</creator>"@),
        "      "@ + ("<album>"@ + spec_xml_escape(e.album@) + "</album>"@),
        "      "@ + ("<duration>"@ + dec_int(e.duration_ms as int) + "</duration>"@),
        "    "@ + "</track>"@,
    ]
}

/// The lines of the entries' XSPF elements.
pub open spec fn xspf_body_lines(entries: Seq<PlaylistEntry>) -> Seq<Seq<char>>
    decreases entries.len(),
{
    if entries.len() == 0 {
        Seq::empty()
    } else {
        xspf_body_lines(entries.drop_last()) + xspf_entry_lines(entries.last())
    }
}

/// The first lines of an XSPF document titled `name`.
pub open spec fn xspf_head_lines(name: Seq<char>) -> Seq<Seq<char>> {
    seq![
        "<?xml version=\"1.0\" encoding=\"UTF-8\"?>"@,
        "<playlist version=\"1\" xmlns=\"http://xspf.org/ns/0/\">"@,
        "  "@ + ("<title>"@ + spec_xml_escape(name) + "</title>"@),
        "  "@ + "<trackList>"@,
    ]
}

/// The last lines of an XSPF document.
pub open spec fn xspf_foot_lines() -> Seq<Seq<char>> {
    seq!["  "@ + "</trackList>"@, "</playlist>"@]
}

/// An entry whose XSPF export reads back: no line break in its title,
/// artist or album (the path may be anything).
pub open spec fn xspf_safe(e: PlaylistEntry) -> bool {
    &&& no_newline(e.title@)
    &&& no_newline(e.artist@)
    &&& no_newline(e.album@)
}

proof fn lemma_lines_text_push(ls: Seq<Seq<char>>, l: Seq<char>)
    ensures
        lines_text(ls.push(l)) == lines_text(ls) + (l + seq!['\n']),
{
    assert(ls.push(l).drop_last() =~= ls);
    assert(lines_text(ls) + l + seq!['\n'] =~= lines_text(ls) + (l + seq!['\n']));
}

proof fn lemma_xspf_entry_text(e: PlaylistEntry)
    ensures
        xspf_entry(e) == lines_text(xspf_entry_lines(e)),
{
    let nl = seq!['\n'];
    let ls = xspf_entry_lines(e);
    let uri = spec_file_uri(e.path@);
    let ti = spec_xml_escape(e.title@);
    let ar = spec_xml_escape(e.artist@);
    let al = spec_xml_escape(e.album@);
    let du = dec_int(e.duration_ms as int);
    assert("    <track>\n"@ == ls[0] + nl) by {
        reveal_strlit("    <track>\n");
        reveal_strlit("    ");
        reveal_strlit("<track>");
        assert("    <track>\n"@ =~= "    "@ + "<track>"@ + nl);
    }
    assert("      <location>"@ + uri + "</location>\n"@ == ls[1] + nl) by {
        reveal_strlit("      <location>");
        reveal_strlit("</location>\n");
        reveal_strlit("      ");
        reveal_strlit("<location>");
        reveal_strlit("</location>");
        assert("      <location>"@ + uri + "</location>\n"@ =~= "      "@ + ("<location>"@ + uri
            + "</location>"@) + nl);
    }
    assert("      <title>"@ + ti + "</title>\n"@ == ls[2] + nl) by {
        reveal_strlit("      <title>");
        reveal_strlit("</title>\n");
        reveal_strlit("      ");
        reveal_strlit("<title>");
        reveal_strlit("</title>");
        assert("      <title>"@ + ti + "</title>\n"@ =~= "      "@ + ("<title>"@ + ti
            + "</title>"@) + nl);
    }
    assert("      <creator>"@ + ar + "</creator>\n"@ == ls[3] + nl) by {
        reveal_strlit("      <creator>");
        reveal_strlit("</creator>\n");
        reveal_strlit("      ");
        reveal_strlit("<creator>");
        reveal_strlit("</creator>");
        assert("      <creator>"@ + ar + "</creator>\n"@ =~= "      "@ + ("<creator>"@ + ar
            + "</creator>"@) + nl);
    }
    assert("      <album>"@ + al + "</album>\n"@ == ls[4] + nl) by {
        reveal_strlit("      <album>");
        reveal_strlit("</album>\n");
        reveal_strlit("      ");
        reveal_strlit("<album>");
        reveal_strlit("</album>");
        assert("      <album>"@ + al + "</album>\n"@ =~= "      "@ + ("<album>"@ + al
            + "</album>"@) + nl);
    }
    assert("      <duration>"@ + du + "</duration>\n"@ == ls[5] + nl) by {
        reveal_strlit("      <duration>");
        reveal_strlit("</duration>\n");
        reveal_strlit("      ");
        reveal_strlit("<duration>");
        reveal_strlit("</duration>");
        assert("      <duration>"@ + du + "</duration>\n"@ =~= "      "@ + ("<duration>"@ + du
            + "</duration>"@) + nl);
    }
    assert("    </track>\n"@ == ls[6] + nl) by {
        reveal_strlit("    </track>\n");
        reveal_strlit("    ");
        reveal_strlit("</track>");
        assert("    </track>\n"@ =~= "    "@ + "</track>"@ + nl);
    }
    lemma_xspf_entry_chunks(e);
    lemma_xspf_entry_line_chunks(e);
}

/// The rendered `<track>` element cut into its lines' texts.
proof fn lemma_xspf_entry_chunks(e: PlaylistEntry)
    ensures
        xspf_entry(e) == "    <track>\n"@ + ("      <location>"@ + spec_file_uri(e.path@)
            + "</location>\n"@) + ("      <title>"@ + spec_xml_escape(e.title@) + "</title>\n"@)
            + ("      <creator>"@ + spec_xml_escape(e.artist@) + "</creator>\n"@) + (
        "      <album>"@ + spec_xml_escape(e.album@) + "</album>\n"@) + ("      <duration>"@
            + dec_int(e.duration_ms as int) + "</duration>\n"@) + "    </track>\n"@,
{
    let uri = spec_file_uri(e.path@);
    let ti = spec_xml_escape(e.title@);
    let ar = spec_xml_escape(e.artist@);
    let al = spec_xml_escape(e.album@);
    let du = dec_int(e.duration_ms as int);
    assert(xspf_entry(e) =~= "    <track>\n"@ + ("      <location>"@ + uri + "</location>\n"@) + (
    "      <title>"@ + ti + "</title>\n"@) + ("      <creator>"@ + ar + "</creator>\n"@) + (
    "      <album>"@ + al + "</album>\n"@) + ("      <duration>"@ + du + "</duration>\n"@)
        + "    </track>\n"@);
}

/// The lines of a `<track>` element, each followed by its line break.
proof fn lemma_xspf_entry_line_chunks(e: PlaylistEntry)
    ensures
        ({
            let ls = xspf_entry_lines(e);
            let nl = seq!['\n'];
            lines_text(ls) == (ls[0] + nl) + (ls[1] + nl) + (ls[2] + nl) + (ls[3] + nl) + (ls[4]
                + nl) + (ls[5] + nl) + (ls[6] + nl)
        }),
{
    let ls = xspf_entry_lines(e);
    let nl = seq!['\n'];
    let s0 = Seq::<Seq<char>>::empty();
    let s1 = s0.push(ls[0]);
    let s2 = s1.push(ls[1]);
    let s3 = s2.push(ls[2]);
    let s4 = s3.push(ls[3]);
    let s5 = s4.push(ls[4]);
    let s6 = s5.push(ls[5]);
    let s7 = s6.push(ls[6]);
    lemma_lines_text_push(s0, ls[0]);
    lemma_lines_text_push(s1, ls[1]);
    lemma_lines_text_push(s2, ls[2]);
    lemma_lines_text_push(s3, ls[3]);
    lemma_lines_text_push(s4, ls[4]);
    lemma_lines_text_push(s5, ls[5]);
    lemma_lines_text_push(s6, ls[6]);
    assert(s7 =~= ls);
    assert(lines_text(s0) =~= Seq::<char>::empty());
    assert(lines_text(s1) =~= ls[0] + nl);
}

proof fn lemma_xspf_body_text(entries: Seq<PlaylistEntry>)
    ensures
        xspf_body(entries) == lines_text(xspf_body_lines(entries)),
    decreases entries.len(),
{
    if entries.len() > 0 {
        lemma_xspf_body_text(entries.drop_last());
        lemma_xspf_entry_text(entries.last());
        lemma_lines_text_concat(
            xspf_body_lines(entries.drop_last()),
            xspf_entry_lines(entries.last()),
        );
    }
}

proof fn lemma_xspf_doc_text(name: Seq<char>, entries: Seq<PlaylistEntry>)
    ensures
        spec_render_xspf(name, entries) == lines_text(
            xspf_head_lines(name) + xspf_body_lines(entries) + xspf_foot_lines(),
        ),
{
    lemma_xspf_body_text(entries);
    let head = xspf_head_lines(name);
    let foot = xspf_foot_lines();
    let body = xspf_body_lines(entries);
    lemma_lines_text_concat(head + body, foot);
    lemma_lines_text_concat(head, body);
    lemma_xspf_head_text(name);
    lemma_xspf_foot_text();
    lemma_xspf_doc_chunks(name, entries);
}

/// The rendered document cut into its header, body and footer texts.
proof fn lemma_xspf_doc_chunks(name: Seq<char>, entries: Seq<PlaylistEntry>)
    ensures
        spec_render_xspf(name, entries) == ("<?xml version=\"1.0\" encoding=\"UTF-8\"?>\n"@
            + "<playlist version=\"1\" xmlns=\"http://xspf.org/ns/0/\">\n"@ + ("  <title>"@
            + spec_xml_escape(name) + "</title>\n"@) + "  <trackList>\n"@) + xspf_body(entries)
            + "  </trackList>\n</playlist>\n"@,
{
    assert(spec_render_xspf(name, entries) =~= ("<?xml version=\"1.0\" encoding=\"UTF-8\"?>\n"@
        + "<playlist version=\"1\" xmlns=\"http://xspf.org/ns/0/\">\n"@ + ("  <title>"@
        + spec_xml_escape(name) + "</title>\n"@) + "  <trackList>\n"@) + xspf_body(entries)
        + "  </trackList>\n</playlist>\n"@);
}

proof fn lemma_xspf_head_text(name: Seq<char>)
    ensures
        lines_text(xspf_head_lines(name)) == "<?xml version=\"1.0\" encoding=\"UTF-8\"?>\n"@
            + "<playlist version=\"1\" xmlns=\"http://xspf.org/ns/0/\">\n"@ + ("  <title>"@
            + spec_xml_escape(name) + "</title>\n"@) + "  <trackList>\n"@,
{
    let nl = seq!['\n'];
    let head = xspf_head_lines(name);
    let esc = spec_xml_escape(name);
    let x0 = "<?xml version=\"1.0\" encoding=\"UTF-8\"?>\n"@;
    let x1 = "<playlist version=\"1\" xmlns=\"http://xspf.org/ns/0/\">\n"@;
    let x2 = "  <title>"@ + esc + "</title>\n"@;
    let x3 = "  <trackList>\n"@;
    assert(x0 == head[0] + nl) by {
        reveal_strlit("<?xml version=\"1.0\" encoding=\"UTF-8\"?>\n");
        reveal_strlit("<?xml version=\"1.0\" encoding=\"UTF-8\"?>");
        assert(x0 =~= head[0] + nl);
    }
    assert(x1 == head[1] + nl) by {
        reveal_strlit("<playlist version=\"1\" xmlns=\"http://xspf.org/ns/0/\">\n");
        reveal_strlit("<playlist version=\"1\" xmlns=\"http://xspf.org/ns/0/\">");
        assert(x1 =~= head[1] + nl);
    }
    assert(x2 == head[2] + nl) by {
        reveal_strlit("  <title>");
        reveal_strlit("</title>\n");
        reveal_strlit("  ");
        reveal_strlit("<title>");
        reveal_strlit("</title>");
        assert(x2 =~= "  "@ + ("<title>"@ + esc + "</title>"@) + nl);
    }
    assert(x3 == head[3] + nl) by {
        reveal_strlit("  <trackList>\n");
        reveal_strlit("  ");
        reveal_strlit("<trackList>");
        assert(x3 =~= "  "@ + "<trackList>"@ + nl);
    }
    let h0 = Seq::<Seq<char>>::empty();
    lemma_lines_text_push(h0, head[0]);
    lemma_lines_text_push(h0.push(head[0]), head[1]);
    lemma_lines_text_push(h0.push(head[0]).push(head[1]), head[2]);
    lemma_lines_text_push(h0.push(head[0]).push(head[1]).push(head[2]), head[3]);
    assert(h0.push(head[0]).push(head[1]).push(head[2]).push(head[3]) =~= head);
    assert(lines_text(h0) =~= Seq::<char>::empty());
    assert(lines_text(h0.push(head[0])) =~= x0);
}

proof fn lemma_xspf_foot_text()
    ensures
        lines_text(xspf_foot_lines()) == "  </trackList>\n</playlist>\n"@,
{
    let nl = seq!['\n'];
    let foot = xspf_foot_lines();
    let h0 = Seq::<Seq<char>>::empty();
    lemma_lines_text_push(h0, foot[0]);
    lemma_lines_text_push(h0.push(foot[0]), foot[1]);
    assert(h0.push(foot[0]).push(foot[1]) =~= foot);
    assert(lines_text(h0) =~= Seq::<char>::empty());
    reveal_strlit("  </trackList>\n</playlist>\n");
    reveal_strlit("  ");
    reveal_strlit("</trackList>");
    reveal_strlit("</playlist>");
    assert(lines_text(foot) =~= "  </trackList>\n</playlist>\n"@);
}

/// An indented line whose element name does not start with `l` names no
/// location.
proof fn lemma_xspf_not_location(pre: Seq<char>, core: Seq<char>, base: Seq<char>)
    requires
        forall|i: int| 0 <= i < pre.len() ==> #[trigger] pre[i] == ' ',
        core.len() >= 2,
        core[0] == '<',
        core.last() == '>',
        core[1] != 'l',
    ensures
        xspf_line_path(pre + core, base) is None,
{
    lemma_trim_indented(pre, core);
    reveal_strlit("<location>");
    if has_prefix(core, "<location>"@) {
        assert(core.subrange(0, 10)[1] == core[1]);
    }
}

proof fn lemma_uri_no_newline(path: Seq<char>)
    ensures
        no_newline(spec_file_uri(path)),
        spec_file_uri(path).len() > 0,
{
    reveal_strlit("file://");
    lemma_uri_decode(encode_utf8(path));
    let e = spec_uri_encode(encode_utf8(path));
    assert(no_newline(e)) by {
        assert forall|i: int| 0 <= i < e.len() implies e[i] != '\n' by {
            assert(uri_char(e[i]));
        }
    }
    lemma_no_newline_concat("file://"@, e);
}

proof fn lemma_xspf_location_line(path: Seq<char>, base: Seq<char>)
    ensures
        xspf_line_path("      "@ + ("<location>"@ + spec_file_uri(path) + "</location>"@), base)
            == Some(path),
        no_newline("      "@ + ("<location>"@ + spec_file_uri(path) + "</location>"@)),
{
    reveal_strlit("      ");
    reveal_strlit("<location>");
    reveal_strlit("</location>");
    let uri = spec_file_uri(path);
    let core = "<location>"@ + uri + "</location>"@;
    lemma_uri_no_newline(path);
    lemma_trim_indented("      "@, core);
    assert(core.subrange(0, 10) =~= "<location>"@);
    assert(core.subrange(core.len() - 11, core.len() as int) =~= "</location>"@);
    assert(core.subrange(10, core.len() - 11) =~= uri);
    lemma_file_uri_roundtrip(path, base);
    lemma_no_newline_concat("<location>"@, uri);
    lemma_no_newline_concat("<location>"@ + uri, "</location>"@);
    lemma_no_newline_concat("      "@, core);
}

/// An element line `pre` + `<name>` + `text` + `</name>` with a name that
/// does not start with `l`.
proof fn lemma_xspf_text_line(
    pre: Seq<char>,
    open: Seq<char>,
    text: Seq<char>,
    close: Seq<char>,
    base: Seq<char>,
)
    requires
        forall|i: int| 0 <= i < pre.len() ==> #[trigger] pre[i] == ' ',
        open.len() >= 2,
        open[0] == '<',
        open[1] != 'l',
        close.len() > 0,
        close.last() == '>',
        no_newline(open),
        no_newline(text),
        no_newline(close),
    ensures
        xspf_line_path(pre + (open + text + close), base) is None,
        no_newline(pre + (open + text + close)),
{
    let core = open + text + close;
    assert(core[0] == open[0] && core[1] == open[1]);
    assert(core.last() == close.last());
    lemma_xspf_not_location(pre, core, base);
    lemma_no_newline_concat(open, text);
    lemma_no_newline_concat(open + text, close);
    assert(no_newline(pre)) by {
        assert forall|i: int| 0 <= i < pre.len() implies pre[i] != '\n' by {
            assert(pre[i] == ' ');
        }
    }
    lemma_no_newline_concat(pre, core);
}

proof fn lemma_xspf_entry_paths(e: PlaylistEntry, base: Seq<char>)
    requires
        xspf_safe(e),
    ensures
        collect_lines(xspf_entry_lines(e), xspf_pick(base)) == seq![e.path@],
        forall|i: int|
            0 <= i < xspf_entry_lines(e).len() ==> no_newline(#[trigger] xspf_entry_lines(e)[i]),
{
    let ls = xspf_entry_lines(e);
    let pick = xspf_pick(base);
    reveal_strlit("    ");
    reveal_strlit("      ");
    reveal_strlit("<track>");
    reveal_strlit("</track>");
    reveal_strlit("<title>");
    reveal_strlit("</title>");
    reveal_strlit("<creator>");
    reveal_strlit("</creator>");
    reveal_strlit("<album>");
    reveal_strlit("</album>");
    reveal_strlit("<duration>");
    reveal_strlit("</duration>");
    lemma_xml_escape_no_newline(e.title@);
    lemma_xml_escape_no_newline(e.artist@);
    lemma_xml_escape_no_newline(e.album@);
    lemma_dec_int_no_newline(e.duration_ms as int);
    lemma_xspf_not_location("    "@, "<track>"@, base);
    lemma_xspf_not_location("    "@, "</track>"@, base);
    lemma_xspf_location_line(e.path@, base);
    lemma_xspf_text_line("      "@, "<title>"@, spec_xml_escape(e.title@), "</title>"@, base);
    lemma_xspf_text_line("      "@, "<creator>"@, spec_xml_escape(e.artist@), "</creator>"@, base);
    lemma_xspf_text_line("      "@, "<album>"@, spec_xml_escape(e.album@), "</album>"@, base);
    lemma_xspf_text_line(
        "      "@,
        "<duration>"@,
        dec_int(e.duration_ms as int),
        "</duration>"@,
        base,
    );
    assert(no_newline(ls[0]));
    assert(no_newline(ls[6]));
    let first = seq![ls[0]];
    let rest = seq![ls[2], ls[3], ls[4], ls[5], ls[6]];
    lemma_collect_none(first, pick);
    lemma_collect_one(ls[1], pick);
    lemma_collect_none(rest, pick);
    lemma_collect_concat(first, seq![ls[1]], pick);
    lemma_collect_concat(first + seq![ls[1]], rest, pick);
    assert(first + seq![ls[1]] + rest =~= ls);
}

proof fn lemma_xspf_body_paths(entries: Seq<PlaylistEntry>, base: Seq<char>)
    requires
        forall|i: int| 0 <= i < entries.len() ==> xspf_safe(#[trigger] entries[i]),
    ensures
        collect_lines(xspf_body_lines(entries), xspf_pick(base)) == entry_paths(entries),
        forall|i: int|
            0 <= i < xspf_body_lines(entries).len() ==> no_newline(
                #[trigger] xspf_body_lines(entries)[i],
            ),
    decreases entries.len(),
{
    if entries.len() > 0 {
        let prev = entries.drop_last();
        let e = entries.last();
        assert forall|i: int| 0 <= i < prev.len() implies xspf_safe(#[trigger] prev[i]) by {
            assert(prev[i] == entries[i]);
        }
        assert(xspf_safe(e)) by {
            assert(entries[entries.len() - 1] == e);
        }
        lemma_xspf_body_paths(prev, base);
        lemma_xspf_entry_paths(e, base);
        let a = xspf_body_lines(prev);
        let b = xspf_entry_lines(e);
        lemma_collect_concat(a, b, xspf_pick(base));
        assert(entry_paths(entries) =~= entry_paths(prev).push(e.path@));
        assert forall|i: int| 0 <= i < (a + b).len() implies no_newline(#[trigger] (a + b)[i]) by {
            if i < a.len() {
                assert((a + b)[i] == a[i]);
            } else {
                assert((a + b)[i] == b[i - a.len()]);
            }
        }
    }
}

proof fn lemma_xspf_head_foot(name: Seq<char>, base: Seq<char>)
    requires
        no_newline(name),
    ensures
        collect_lines(xspf_head_lines(name), xspf_pick(base)) == Seq::<Seq<char>>::empty(),
        collect_lines(xspf_foot_lines().push(Seq::<char>::empty()), xspf_pick(base))
            == Seq::<Seq<char>>::empty(),
        forall|i: int|
            0 <= i < xspf_head_lines(name).len() ==> no_newline(#[trigger] xspf_head_lines(name)[i]),
        forall|i: int|
            0 <= i < xspf_foot_lines().len() ==> no_newline(#[trigger] xspf_foot_lines()[i]),
{
    let pick = xspf_pick(base);
    let head = xspf_head_lines(name);
    let foot = xspf_foot_lines().push(Seq::<char>::empty());
    let empty = Seq::<char>::empty();
    lemma_xml_escape_no_newline(name);
    assert(xspf_line_path(head[0], base) is None && no_newline(head[0])) by {
        reveal_strlit("<?xml version=\"1.0\" encoding=\"UTF-8\"?>");
        lemma_xspf_not_location(empty, head[0], base);
        assert(empty + head[0] =~= head[0]);
    }
    assert(xspf_line_path(head[1], base) is None && no_newline(head[1])) by {
        reveal_strlit("<playlist version=\"1\" xmlns=\"http://xspf.org/ns/0/\">");
        lemma_xspf_not_location(empty, head[1], base);
        assert(empty + head[1] =~= head[1]);
    }
    assert(xspf_line_path(head[2], base) is None && no_newline(head[2])) by {
        reveal_strlit("  ");
        reveal_strlit("<title>");
        reveal_strlit("</title>");
        lemma_xspf_text_line("  "@, "<title>"@, spec_xml_escape(name), "</title>"@, base);
    }
    assert(xspf_line_path(head[3], base) is None && no_newline(head[3])) by {
        reveal_strlit("  ");
        reveal_strlit("<trackList>");
        lemma_xspf_not_location("  "@, "<trackList>"@, base);
    }
    assert(xspf_line_path(foot[0], base) is None && no_newline(foot[0])) by {
        reveal_strlit("  ");
        reveal_strlit("</trackList>");
        lemma_xspf_not_location("  "@, "</trackList>"@, base);
    }
    assert(xspf_line_path(foot[1], base) is None && no_newline(foot[1])) by {
        reveal_strlit("</playlist>");
        lemma_xspf_not_location(empty, "</playlist>"@, base);
        assert(empty + "</playlist>"@ =~= "</playlist>"@);
    }
    assert(xspf_line_path(foot[2], base) is None) by {
        assert(spec_trim(empty) =~= empty);
    }
    lemma_collect_none(head, pick);
    lemma_collect_none(foot, pick);
}

/// Importing an exported XSPF playlist gives back the exported paths, in
/// order, whatever the paths, when the playlist name and the entries'
/// titles, artists and albums hold no line break.
pub proof fn lemma_xspf_roundtrip(name: Seq<char>, entries: Seq<PlaylistEntry>, base: Seq<char>)
    requires
        no_newline(name),
        forall|i: int| 0 <= i < entries.len() ==> xspf_safe(#[trigger] entries[i]),
    ensures
        spec_parse_xspf(spec_render_xspf(name, entries), base) == entry_paths(entries),
{
    let pick = xspf_pick(base);
    lemma_xspf_doc_text(name, entries);
    lemma_xspf_body_paths(entries, base);
    lemma_xspf_head_foot(name, base);
    let head = xspf_head_lines(name);
    let body = xspf_body_lines(entries);
    let foot = xspf_foot_lines();
    let doc = head + body + foot;
    assert forall|i: int| 0 <= i < doc.len() implies no_newline(#[trigger] doc[i]) by {
        if 4 <= i < 4 + body.len() {
            assert(doc[i] == body[i - 4]);
        } else if i >= 4 + body.len() {
            assert(doc[i] == foot[i - 4 - body.len()]);
        } else {
            assert(doc[i] == head[i]);
        }
    }
    lemma_split_lines_text(doc);
    let tail = foot.push(Seq::<char>::empty());
    assert(doc.push(Seq::<char>::empty()) =~= head + body + tail);
    lemma_collect_concat(head + body, tail, pick);
    lemma_collect_concat(head, body, pick);
    assert(Seq::<Seq<char>>::empty() + entry_paths(entries) + Seq::<Seq<char>>::empty()
        =~= entry_paths(entries));
}

} // verus!
