//! Small shared helpers: file names and extensions, durations, LIKE
//! escaping, image sniffing, ReplayGain text, the clock.

use std::time::{Duration, SystemTime};
use vstd::prelude::*;

use crate::text::{
    ascii_lowercase, chars_of, dec_nat, dec_pad2, is_digit, push_char, push_chars, push_pad2,
    push_str, push_u64, spec_ascii_lowercase, str_equal,
};

verus! {

/// Extensions recognised by the library scanner and playback layer.
pub const AUDIO_EXTENSIONS: [&'static str; 8] = ["mp3", "flac", "ogg", "opus", "wav", "m4a", "aac", "mp4"];

/// Whether `e` (already lowercase) is one of the audio extensions.
pub open spec fn spec_is_audio_ext(e: Seq<char>) -> bool {
    ||| e == "mp3"@
    ||| e == "flac"@
    ||| e == "ogg"@
    ||| e == "opus"@
    ||| e == "wav"@
    ||| e == "m4a"@
    ||| e == "aac"@
    ||| e == "mp4"@
}

// ---------------------------------------------------------------------------
// Clock
// ---------------------------------------------------------------------------

#[verifier::external_type_specification]
#[verifier::external_body]
pub struct ExSystemTime(SystemTime);

/// The current wall-clock time (`SystemTime::now`).
#[verifier::external_body]
fn system_time_now() -> SystemTime {
    SystemTime::now()
}

/// Time elapsed since the Unix epoch (`SystemTime::duration_since`), or
/// `None` for a clock set before 1970.
#[verifier::external_body]
fn since_unix_epoch(t: SystemTime) -> Option<Duration> {
    t.duration_since(std::time::UNIX_EPOCH).ok()
}

/// Whole seconds of a duration (`Duration::as_secs`).
#[verifier::external_body]
fn whole_seconds(d: &Duration) -> u64 {
    d.as_secs()
}

/// The Unix timestamp for the whole seconds elapsed since the epoch, or 0
/// when the clock reads a time before 1970.
pub fn timestamp_from(elapsed_secs: Option<u64>) -> (r: i64)
    ensures
        r == match elapsed_secs {
            Some(s) => s as i64,
            None => 0,
        },
{
    match elapsed_secs {
        Some(s) => s as i64,
        None => 0,
    }
}

/// Returns the current Unix timestamp in seconds (0 for a clock before
/// 1970). The reading depends on the clock, so nothing is promised of it.
pub fn now_secs() -> i64 {
    let elapsed = match since_unix_epoch(system_time_now()) {
        Some(d) => Some(whole_seconds(&d)),
        None => None,
    };
    timestamp_from(elapsed)
}

// ---------------------------------------------------------------------------
// Paths
// ---------------------------------------------------------------------------

/// Index just past the last `/` of `s` (0 when there is none).
pub open spec fn last_slash_end(s: Seq<char>) -> int
    decreases s.len(),
{
    if s.len() == 0 {
        0
    } else if s.last() == '/' {
        s.len() as int
    } else {
        last_slash_end(s.drop_last())
    }
}

pub proof fn lemma_last_slash_end(s: Seq<char>)
    ensures
        0 <= last_slash_end(s) <= s.len(),
        last_slash_end(s) > 0 ==> s[last_slash_end(s) - 1] == '/',
        forall|k: int| last_slash_end(s) <= k < s.len() ==> s[k] != '/',
    decreases s.len(),
{
    if s.len() > 0 && s.last() != '/' {
        lemma_last_slash_end(s.drop_last());
        assert forall|k: int| last_slash_end(s) <= k < s.len() implies s[k] != '/' by {
            if k < s.len() - 1 {
                assert(s.drop_last()[k] == s[k]);
            }
        }
    }
}

/// The last component of a Unix path, as `Path::file_name` gives it:
/// trailing slashes and `.` components are skipped; the root, `.` alone and
/// a path ending in `..` have none.
pub open spec fn spec_file_name(s: Seq<char>) -> Option<Seq<char>>
    decreases s.len(),
{
    if s.len() == 0 {
        None
    } else if s.last() == '/' {
        spec_file_name(s.drop_last())
    } else {
        proof {
            lemma_last_slash_end(s);
        }
        let k = last_slash_end(s);
        let seg = s.subrange(k, s.len() as int);
        if seg == "."@ {
            if k == 0 {
                None
            } else {
                spec_file_name(s.subrange(0, k))
            }
        } else if seg == ".."@ {
            None
        } else {
            Some(seg)
        }
    }
}

/// Index of the last `.` in `s` (-1 when there is none).
pub open spec fn last_dot(s: Seq<char>) -> int
    decreases s.len(),
{
    if s.len() == 0 {
        -1
    } else if s.last() == '.' {
        s.len() - 1
    } else {
        last_dot(s.drop_last())
    }
}

pub proof fn lemma_last_dot(s: Seq<char>)
    ensures
        -1 <= last_dot(s) < s.len(),
        last_dot(s) >= 0 ==> s[last_dot(s)] == '.',
        forall|k: int| last_dot(s) < k < s.len() ==> s[k] != '.',
    decreases s.len(),
{
    if s.len() > 0 && s.last() != '.' {
        lemma_last_dot(s.drop_last());
        assert forall|k: int| last_dot(s) < k < s.len() implies s[k] != '.' by {
            if k < s.len() - 1 {
                assert(s.drop_last()[k] == s[k]);
            }
        }
    }
}

/// The extension of a file name (`Path::extension`): what follows the last
/// `.`, unless that dot starts the name or there is none.
pub open spec fn spec_extension_of_name(name: Seq<char>) -> Option<Seq<char>> {
    if last_dot(name) > 0 {
        Some(name.skip(last_dot(name) + 1))
    } else {
        None
    }
}

/// The stem of a file name (`Path::file_stem`): the name without its
/// extension.
pub open spec fn spec_stem_of_name(name: Seq<char>) -> Seq<char> {
    if last_dot(name) > 0 {
        name.take(last_dot(name))
    } else {
        name
    }
}

/// Bounds of the file name within `cs`.
pub fn file_name_bounds(cs: &[char]) -> (r: Option<(usize, usize)>)
    ensures
        match r {
            Some((a, b)) => a <= b <= cs@.len() && spec_file_name(cs@) == Some(
                cs@.subrange(a as int, b as int),
            ),
            None => spec_file_name(cs@) is None,
        },
{
    let mut end: usize = cs.len();
    proof {
        assert(cs@.subrange(0, end as int) =~= cs@);
    }
    loop
        invariant
            end <= cs@.len(),
            spec_file_name(cs@) == spec_file_name(cs@.subrange(0, end as int)),
        decreases end,
    {
        let ghost s = cs@.subrange(0, end as int);
        if end == 0 {
            return None;
        }
        if cs[end - 1] == '/' {
            proof {
                assert(s.drop_last() =~= cs@.subrange(0, end - 1));
            }
            end -= 1;
        } else {
            let mut k: usize = end;
            while k > 0 && cs[k - 1] != '/'
                invariant
                    k <= end <= cs@.len(),
                    s == cs@.subrange(0, end as int),
                    forall|j: int| k <= j < end ==> cs@[j] != '/',
                decreases k,
            {
                k -= 1;
            }
            proof {
                lemma_last_slash_end_is(s, k as int);
            }
            let seg_len = end - k;
            let is_dot = seg_len == 1 && cs[k] == '.';
            let is_dotdot = seg_len == 2 && cs[k] == '.' && cs[k + 1] == '.';
            proof {
                let seg = s.subrange(k as int, end as int);
                reveal_strlit(".");
                reveal_strlit("..");
                if is_dot {
                    assert(seg =~= "."@);
                } else {
                    assert(seg != "."@) by {
                        if seg.len() == 1 {
                            assert(seg[0] == cs@[k as int]);
                        }
                    }
                }
                if is_dotdot {
                    assert(seg =~= ".."@);
                } else {
                    assert(seg != ".."@) by {
                        if seg.len() == 2 {
                            assert(seg[0] == cs@[k as int]);
                            assert(seg[1] == cs@[k + 1]);
                        }
                    }
                }
            }
            if is_dot {
                if k == 0 {
                    return None;
                }
                proof {
                    assert(s.subrange(0, k as int) =~= cs@.subrange(0, k as int));
                }
                end = k;
            } else if is_dotdot {
                return None;
            } else {
                proof {
                    assert(s.subrange(k as int, s.len() as int) =~= cs@.subrange(
                        k as int,
                        end as int,
                    ));
                }
                return Some((k, end));
            }
        }
    }
}

proof fn lemma_last_slash_end_is(s: Seq<char>, k: int)
    requires
        0 <= k <= s.len(),
        forall|j: int| k <= j < s.len() ==> s[j] != '/',
        k == 0 || s[k - 1] == '/',
    ensures
        last_slash_end(s) == k,
    decreases s.len(),
{
    if s.len() > k {
        assert(s.drop_last().len() == s.len() - 1);
        lemma_last_slash_end_is(s.drop_last(), k);
    } else if k > 0 {
        assert(s.last() == '/');
    }
}

/// A directory prefix as `Path::parent` hands it out: trailing slashes and
/// trailing `.` components removed, a lone root `/` and a leading `.` kept.
pub open spec fn spec_dir_text(p: Seq<char>) -> Seq<char>
    decreases p.len(),
{
    if p.len() == 0 {
        p
    } else if p.last() == '/' {
        if p.len() == 1 {
            p
        } else {
            spec_dir_text(p.drop_last())
        }
    } else {
        proof {
            lemma_last_slash_end(p);
        }
        let k = last_slash_end(p);
        if p.subrange(k, p.len() as int) == "."@ && k > 0 {
            spec_dir_text(p.subrange(0, k))
        } else {
            p
        }
    }
}

/// The parent of a Unix path, as `Path::parent` gives it: the path without
/// its last component (trailing slashes and non-leading `.` components are
/// not components); `None` for the root and the empty path.
pub open spec fn spec_parent_dir(s: Seq<char>) -> Option<Seq<char>>
    decreases s.len(),
{
    if s.len() == 0 {
        None
    } else if s.last() == '/' {
        spec_parent_dir(s.drop_last())
    } else {
        proof {
            lemma_last_slash_end(s);
        }
        let k = last_slash_end(s);
        if s.subrange(k, s.len() as int) == "."@ && k > 0 {
            spec_parent_dir(s.subrange(0, k))
        } else {
            Some(spec_dir_text(s.subrange(0, k)))
        }
    }
}

/// The folder stored for a track: its path's parent, empty when the path
/// has none.
pub open spec fn spec_folder_of(path: Seq<char>) -> Seq<char> {
    match spec_parent_dir(path) {
        Some(d) => d,
        None => Seq::empty(),
    }
}

/// Start of the last `/`-free segment of `cs[0..end]`, with whether that
/// segment is exactly `.`.
fn last_segment(cs: &[char], end: usize) -> (r: (usize, bool))
    requires
        0 < end <= cs@.len(),
        cs@[end - 1] != '/',
    ensures
        r.0 < end,
        r.0 == last_slash_end(cs@.subrange(0, end as int)),
        r.1 == (cs@.subrange(r.0 as int, end as int) == "."@),
{
    let ghost s = cs@.subrange(0, end as int);
    let mut k: usize = end;
    while k > 0 && cs[k - 1] != '/'
        invariant
            k <= end <= cs@.len(),
            s == cs@.subrange(0, end as int),
            forall|j: int| k <= j < end ==> cs@[j] != '/',
        decreases k,
    {
        k -= 1;
    }
    proof {
        lemma_last_slash_end_is(s, k as int);
    }
    let is_dot = end - k == 1 && cs[k] == '.';
    proof {
        let seg = cs@.subrange(k as int, end as int);
        reveal_strlit(".");
        if is_dot {
            assert(seg =~= "."@);
        } else {
            assert(seg != "."@) by {
                if seg.len() == 1 {
                    assert(seg[0] == cs@[k as int]);
                }
            }
        }
    }
    (k, is_dot)
}

/// Where the parent of `cs` ends: `Some(k)` when the parent is the
/// directory text of `cs[0..k]`.
fn parent_prefix_end(cs: &[char]) -> (r: Option<usize>)
    ensures
        match r {
            Some(k) => k <= cs@.len() && spec_parent_dir(cs@) == Some(
                spec_dir_text(cs@.subrange(0, k as int)),
            ),
            None => spec_parent_dir(cs@) is None,
        },
{
    let mut end: usize = cs.len();
    proof {
        assert(cs@.subrange(0, end as int) =~= cs@);
    }
    loop
        invariant
            end <= cs@.len(),
            spec_parent_dir(cs@) == spec_parent_dir(cs@.subrange(0, end as int)),
        decreases end,
    {
        let ghost s = cs@.subrange(0, end as int);
        if end == 0 {
            return None;
        }
        if cs[end - 1] == '/' {
            proof {
                assert(s.drop_last() =~= cs@.subrange(0, end - 1));
            }
            end -= 1;
        } else {
            let (k, is_dot) = last_segment(cs, end);
            proof {
                assert(s.subrange(k as int, s.len() as int) =~= cs@.subrange(k as int, end as int));
                assert(s.subrange(0, k as int) =~= cs@.subrange(0, k as int));
            }
            if is_dot && k > 0 {
                end = k;
            } else {
                return Some(k);
            }
        }
    }
}

/// Where the directory text of `cs[0..k]` ends.
fn dir_text_end(cs: &[char], k: usize) -> (e: usize)
    requires
        k <= cs@.len(),
    ensures
        e <= k,
        spec_dir_text(cs@.subrange(0, k as int)) == cs@.subrange(0, e as int),
{
    let mut end: usize = k;
    loop
        invariant
            end <= k <= cs@.len(),
            spec_dir_text(cs@.subrange(0, k as int)) == spec_dir_text(
                cs@.subrange(0, end as int),
            ),
        decreases end,
    {
        let ghost s = cs@.subrange(0, end as int);
        if end == 0 {
            return 0;
        }
        if cs[end - 1] == '/' {
            if end == 1 {
                return 1;
            }
            proof {
                assert(s.drop_last() =~= cs@.subrange(0, end - 1));
            }
            end -= 1;
        } else {
            let (j, is_dot) = last_segment(cs, end);
            proof {
                assert(s.subrange(j as int, s.len() as int) =~= cs@.subrange(j as int, end as int));
                assert(s.subrange(0, j as int) =~= cs@.subrange(0, j as int));
            }
            if is_dot && j > 0 {
                end = j;
            } else {
                return end;
            }
        }
    }
}

/// The folder of a track's path (`Path::parent`, or empty when there is
/// none).
pub fn folder_of(path: &str) -> (r: String)
    ensures
        r@ == spec_folder_of(path@),
{
    let cs = chars_of(path);
    let mut r = String::new();
    match parent_prefix_end(&cs) {
        Some(k) => {
            let e = dir_text_end(&cs, k);
            push_chars(&mut r, &cs, 0, e);
            proof {
                assert(Seq::<char>::empty() + cs@.subrange(0, e as int) =~= cs@.subrange(
                    0,
                    e as int,
                ));
            }
        },
        None => {},
    }
    r
}

/// Index of the last `.` of `cs[a..b]`, relative to `a`, if any.
fn last_dot_in(cs: &[char], a: usize, b: usize) -> (r: Option<usize>)
    requires
        a <= b <= cs@.len(),
    ensures
        match r {
            Some(d) => last_dot(cs@.subrange(a as int, b as int)) == d && d < b - a,
            None => last_dot(cs@.subrange(a as int, b as int)) == -1,
        },
{
    let ghost s = cs@.subrange(a as int, b as int);
    proof {
        assert(s.subrange(0, b - a) =~= s);
        lemma_last_dot(s);
    }
    let mut k: usize = b;
    while k > a && cs[k - 1] != '.'
        invariant
            a <= k <= b <= cs@.len(),
            s == cs@.subrange(a as int, b as int),
            last_dot(s) == last_dot(s.subrange(0, k - a)),
        decreases k,
    {
        proof {
            assert(s.subrange(0, k - a).drop_last() =~= s.subrange(0, k - 1 - a));
        }
        k -= 1;
    }
    proof {
        assert(s.subrange(0, s.len() as int) =~= s);
    }
    if k == a {
        proof {
            assert(s.subrange(0, 0) =~= Seq::<char>::empty());
        }
        None
    } else {
        Some(k - 1 - a)
    }
}

/// True when `path` has one of the known audio extensions (ASCII
/// case-insensitive).
pub fn is_audio_file(path: &str) -> (r: bool)
    ensures
        r == (spec_file_name(path@) matches Some(name) && spec_extension_of_name(name) matches Some(
            ext,
        ) && spec_is_audio_ext(spec_ascii_lowercase(ext))),
{
    let cs = chars_of(path);
    match file_name_bounds(&cs) {
        None => false,
        Some((a, b)) => {
            match last_dot_in(&cs, a, b) {
                None => false,
                Some(d) => {
                    if d == 0 {
                        return false;
                    }
                    let mut ext = String::new();
                    push_chars(&mut ext, &cs, a + d + 1, b);
                    proof {
                        let name = cs@.subrange(a as int, b as int);
                        assert(name.skip(d + 1) =~= cs@.subrange(a + d + 1, b as int));
                    }
                    let lower = ascii_lowercase(ext.as_str());
                    is_audio_extension(lower.as_str())
                },
            }
        },
    }
}

/// Whether `ext` is one of `AUDIO_EXTENSIONS`.
pub fn is_audio_extension(ext: &str) -> (r: bool)
    ensures
        r == spec_is_audio_ext(ext@),
{
    str_equal(ext, "mp3") || str_equal(ext, "flac") || str_equal(ext, "ogg") || str_equal(
        ext,
        "opus",
    ) || str_equal(ext, "wav") || str_equal(ext, "m4a") || str_equal(ext, "aac") || str_equal(
        ext,
        "mp4",
    )
}

/// The display name of a file without readable tags: its stem, or
/// "Unknown" when the path has no file name.
pub open spec fn spec_title_from_filename(path: Seq<char>) -> Seq<char> {
    match spec_file_name(path) {
        Some(name) => spec_stem_of_name(name),
        None => "Unknown"@,
    }
}

/// Fallback display name for a file without readable tags.
pub fn title_from_filename(path: &str) -> (r: String)
    ensures
        r@ == spec_title_from_filename(path@),
{
    let cs = chars_of(path);
    let mut r = String::new();
    match file_name_bounds(&cs) {
        None => {
            push_str(&mut r, "Unknown");
        },
        Some((a, b)) => {
            let end = match last_dot_in(&cs, a, b) {
                Some(d) => if d > 0 {
                    a + d
                } else {
                    b
                },
                None => b,
            };
            push_chars(&mut r, &cs, a, end);
            proof {
                let name = cs@.subrange(a as int, b as int);
                if last_dot(name) > 0 {
                    assert(name.take(last_dot(name)) =~= cs@.subrange(a as int, end as int));
                }
            }
        },
    }
    r
}

// ---------------------------------------------------------------------------
// Durations
// ---------------------------------------------------------------------------

/// "m:ss" or "h:mm:ss" for a duration in milliseconds (negative counts as
/// zero; partial seconds are dropped).
pub open spec fn spec_format_duration(ms: int) -> Seq<char> {
    let total: int = if ms < 0 {
        0
    } else {
        ms / 1000
    };
    let h = total / 3600;
    let m = (total % 3600) / 60;
    let s = total % 60;
    if h > 0 {
        dec_nat(h as nat) + ":"@ + dec_pad2(m as nat) + ":"@ + dec_pad2(s as nat)
    } else {
        dec_nat(m as nat) + ":"@ + dec_pad2(s as nat)
    }
}

/// Formats a millisecond duration as "m:ss" or "h:mm:ss".
pub fn format_duration(ms: i64) -> (r: String)
    ensures
        r@ == spec_format_duration(ms as int),
{
    let total: u64 = if ms < 0 {
        0
    } else {
        (ms / 1000) as u64
    };
    let h = total / 3600;
    let m = (total % 3600) / 60;
    let s = total % 60;
    let mut r = String::new();
    if h > 0 {
        push_u64(&mut r, h);
        push_str(&mut r, ":");
        push_pad2(&mut r, m);
        push_str(&mut r, ":");
        push_pad2(&mut r, s);
    } else {
        push_u64(&mut r, m);
        push_str(&mut r, ":");
        push_pad2(&mut r, s);
    }
    proof {
        assert(Seq::<char>::empty() + dec_nat(h as nat) =~= dec_nat(h as nat));
        assert(Seq::<char>::empty() + dec_nat(m as nat) =~= dec_nat(m as nat));
    }
    r
}

// ---------------------------------------------------------------------------
// LIKE escaping
// ---------------------------------------------------------------------------

/// The escaped form of one character inside a LIKE pattern.
pub open spec fn like_escape_char(c: char) -> Seq<char> {
    if c == '\\' {
        seq!['\\', '\\']
    } else if c == '%' {
        seq!['\\', '%']
    } else if c == '_' {
        seq!['\\', '_']
    } else {
        seq![c]
    }
}

/// `s` with `\`, `%` and `_` escaped by a backslash, so that a LIKE pattern
/// matches it literally.
pub open spec fn spec_escape_like(s: Seq<char>) -> Seq<char>
    decreases s.len(),
{
    if s.len() == 0 {
        Seq::empty()
    } else {
        spec_escape_like(s.drop_last()) + like_escape_char(s.last())
    }
}

/// Escapes LIKE wildcards so user input is matched literally.
pub fn escape_like(input: &str) -> (r: String)
    ensures
        r@ == spec_escape_like(input@),
{
    let cs = chars_of(input);
    let mut r = String::new();
    let mut i: usize = 0;
    while i < cs.len()
        invariant
            i <= cs@.len(),
            cs@ == input@,
            r@ == spec_escape_like(input@.take(i as int)),
        decreases cs@.len() - i,
    {
        let c = cs[i];
        if c == '\\' {
            push_char(&mut r, '\\');
            push_char(&mut r, '\\');
        } else if c == '%' {
            push_char(&mut r, '\\');
            push_char(&mut r, '%');
        } else if c == '_' {
            push_char(&mut r, '\\');
            push_char(&mut r, '_');
        } else {
            push_char(&mut r, c);
        }
        proof {
            assert(input@.take(i + 1).drop_last() =~= input@.take(i as int));
            assert(spec_escape_like(input@.take(i + 1)) =~= spec_escape_like(
                input@.take(i as int),
            ) + like_escape_char(c));
        }
        i += 1;
    }
    proof {
        assert(input@.take(cs@.len() as int) =~= input@);
    }
    r
}

// ---------------------------------------------------------------------------
// Image sniffing
// ---------------------------------------------------------------------------

/// The file extension for image bytes, by their magic numbers; "jpg" when
/// nothing matches.
pub open spec fn spec_sniff_image_ext(b: Seq<u8>) -> Seq<char> {
    if b.len() >= 3 && b[0] == 0xFF && b[1] == 0xD8 && b[2] == 0xFF {
        "jpg"@
    } else if b.len() >= 8 && b[0] == 0x89 && b[1] == 0x50 && b[2] == 0x4E && b[3] == 0x47 && b[4]
        == 0x0D && b[5] == 0x0A && b[6] == 0x1A && b[7] == 0x0A {
        "png"@
    } else if b.len() >= 4 && b[0] == 0x47 && b[1] == 0x49 && b[2] == 0x46 && b[3] == 0x38 {
        "gif"@
    } else if b.len() >= 12 && b[0] == 0x52 && b[1] == 0x49 && b[2] == 0x46 && b[3] == 0x46 && b[8]
        == 0x57 && b[9] == 0x45 && b[10] == 0x42 && b[11] == 0x50 {
        "webp"@
    } else {
        "jpg"@
    }
}

/// Sniffs the image container from magic bytes and returns a file extension.
pub fn sniff_image_ext(bytes: &[u8]) -> (r: &'static str)
    ensures
        r@ == spec_sniff_image_ext(bytes@),
{
    let n = bytes.len();
    if n >= 3 && bytes[0] == 0xFF && bytes[1] == 0xD8 && bytes[2] == 0xFF {
        "jpg"
    } else if n >= 8 && bytes[0] == 0x89 && bytes[1] == 0x50 && bytes[2] == 0x4E && bytes[3]
        == 0x47 && bytes[4] == 0x0D && bytes[5] == 0x0A && bytes[6] == 0x1A && bytes[7] == 0x0A {
        "png"
    } else if n >= 4 && bytes[0] == 0x47 && bytes[1] == 0x49 && bytes[2] == 0x46 && bytes[3]
        == 0x38 {
        "gif"
    } else if n >= 12 && bytes[0] == 0x52 && bytes[1] == 0x49 && bytes[2] == 0x46 && bytes[3]
        == 0x46 && bytes[8] == 0x57 && bytes[9] == 0x45 && bytes[10] == 0x42 && bytes[11]
        == 0x50 {
        "webp"
    } else {
        "jpg"
    }
}

// ---------------------------------------------------------------------------
// ReplayGain text
// ---------------------------------------------------------------------------

/// Characters that can be part of a gain value.
pub open spec fn is_gain_char(c: char) -> bool {
    is_digit(c) || c == '.' || c == ',' || c == '-' || c == '+'
}

/// The gain characters of `s`, in order, with `,` read as a decimal point.
pub open spec fn gain_chars(s: Seq<char>) -> Seq<char>
    decreases s.len(),
{
    if s.len() == 0 {
        Seq::empty()
    } else {
        let c = s.last();
        let rest = gain_chars(s.drop_last());
        if c == ',' {
            rest.push('.')
        } else if is_gain_char(c) {
            rest.push(c)
        } else {
            rest
        }
    }
}

/// The number inside a ReplayGain tag such as "+1.23 dB", "-4.5 dB" or
/// "-2,75 dB": its digits, signs and decimal separators (a comma becomes a
/// dot), or `None` when there are none. Units, spaces and any other text
/// are dropped.
pub fn gain_number_text(raw: &str) -> (r: Option<String>)
    ensures
        match r {
            Some(t) => t@ == gain_chars(raw@) && t@.len() > 0,
            None => gain_chars(raw@).len() == 0,
        },
{
    let cs = chars_of(raw);
    let mut t = String::new();
    let mut i: usize = 0;
    while i < cs.len()
        invariant
            i <= cs@.len(),
            cs@ == raw@,
            t@ == gain_chars(raw@.take(i as int)),
        decreases cs@.len() - i,
    {
        let c = cs[i];
        proof {
            assert(raw@.take(i + 1).drop_last() =~= raw@.take(i as int));
        }
        if c == ',' {
            push_char(&mut t, '.');
        } else if ('0' <= c && c <= '9') || c == '.' || c == '-' || c == '+' {
            push_char(&mut t, c);
        }
        i += 1;
    }
    proof {
        assert(raw@.take(cs@.len() as int) =~= raw@);
    }
    if t.unicode_len() == 0 {
        None
    } else {
        Some(t)
    }
}


/// The audio extensions recognised are exactly the entries of
/// [`AUDIO_EXTENSIONS`]: an extension is an audio one precisely when it is
/// listed there.
pub proof fn lemma_audio_ext_is_listed(e: Seq<char>)
    ensures
        spec_is_audio_ext(e) <==> exists|i: int|
            0 <= i < AUDIO_EXTENSIONS@.len() && (#[trigger] AUDIO_EXTENSIONS@[i])@ == e,
{
    let l = AUDIO_EXTENSIONS@;
    assert(l.len() == 8);
    assert(l[0]@ == "mp3"@);
    assert(l[1]@ == "flac"@);
    assert(l[2]@ == "ogg"@);
    assert(l[3]@ == "opus"@);
    assert(l[4]@ == "wav"@);
    assert(l[5]@ == "m4a"@);
    assert(l[6]@ == "aac"@);
    assert(l[7]@ == "mp4"@);
}
} // verus!
