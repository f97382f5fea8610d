//! Track metadata decisions: which tag value wins, the fallbacks used when a
//! tag is missing, the location fields stored for a file, and the
//! content-addressed key of embedded artwork.

use vstd::prelude::*;

use crate::text::{
    ascii_lowercase, chars_of, opt_chars, parse_i64, push_char, push_chars, push_str,
    spec_ascii_lowercase, spec_parse_i64,
};
use crate::util::{
    file_name_bounds, gain_chars, gain_number_text, sniff_image_ext, spec_extension_of_name, spec_file_name,
    spec_sniff_image_ext, spec_title_from_filename, title_from_filename,
};

verus! {

/// The raw values read from a file's tag (all `None` when the file has no
/// tag): text items as the tag stores them, track and disc numbers.
#[derive(Debug, Clone)]
pub struct RawTags {
    pub title: Option<String>,
    pub artist: Option<String>,
    pub album: Option<String>,
    pub genre: Option<String>,
    pub album_artist: Option<String>,
    pub composer: Option<String>,
    pub year: Option<String>,
    pub recording_date: Option<String>,
    pub track: Option<u32>,
    pub disk: Option<u32>,
    pub unsynced_lyrics: Option<String>,
    pub synced_lyrics: Option<String>,
}

/// The tag-derived fields stored for a track.
#[derive(Debug, Clone)]
pub struct TrackTags {
    pub title: String,
    pub artist: String,
    pub album: String,
    pub album_artist: String,
    pub genre: String,
    pub composer: String,
    pub year: Option<i64>,
    pub track_no: Option<i64>,
    pub disc_no: Option<i64>,
    pub lyrics: Option<String>,
    pub lyrics_synced: Option<String>,
}

/// The ReplayGain tag that applies: the track gain when the file has one,
/// else the album gain.
pub open spec fn spec_chosen_gain(track_gain: Option<Seq<char>>, album_gain: Option<Seq<char>>) -> Option<
    Seq<char>,
> {
    if track_gain is Some {
        track_gain
    } else {
        album_gain
    }
}

/// The number text of the ReplayGain adjustment to store: the track gain,
/// falling back to the album gain only when the track gain is absent,
/// reduced to its number by `gain_number_text`; `None` when neither tag is
/// present or the chosen one holds no number characters.
pub fn replay_gain_text(track_gain: Option<&str>, album_gain: Option<&str>) -> (r: Option<String>)
    ensures
        match spec_chosen_gain(opt_str_chars(track_gain), opt_str_chars(album_gain)) {
            Some(g) => match r {
                Some(t) => t@ == gain_chars(g) && t@.len() > 0,
                None => gain_chars(g).len() == 0,
            },
            None => r is None,
        },
{
    let chosen = match track_gain {
        Some(g) => Some(g),
        None => album_gain,
    };
    match chosen {
        Some(g) => gain_number_text(g),
        None => None,
    }
}

/// The characters of an optional text.
pub open spec fn opt_str_chars(v: Option<&str>) -> Option<Seq<char>> {
    match v {
        Some(s) => Some(s@),
        None => None,
    }
}

/// Of two cached files (by index into `files`, each `(size, mtime)`), whether
/// `a` is evicted before `b`: it is older, or as old and listed first.
pub open spec fn evicts_before(files: Seq<(u64, i64)>, a: int, b: int) -> bool {
    files[a].1 < files[b].1 || (files[a].1 == files[b].1 && a < b)
}

/// Total size of the first `n` files that `evicted` does not list.
pub open spec fn kept_size(files: Seq<(u64, i64)>, evicted: Seq<usize>, n: int) -> nat
    decreases n,
{
    if n <= 0 {
        0
    } else {
        kept_size(files, evicted, n - 1) + if evicted.contains((n - 1) as usize) {
            0nat
        } else {
            files[n - 1].0 as nat
        }
    }
}

/// Total size of the files that `evicted` does not list.
pub open spec fn kept_total(files: Seq<(u64, i64)>, evicted: Seq<usize>) -> nat {
    kept_size(files, evicted, files.len() as int)
}

proof fn lemma_kept_size_push(files: Seq<(u64, i64)>, ev: Seq<usize>, b: usize, n: int)
    requires
        !ev.contains(b),
        0 <= n <= files.len(),
        files.len() <= usize::MAX,
    ensures
        kept_size(files, ev.push(b), n) + (if b < n {
            files[b as int].0 as int
        } else {
            0
        }) == kept_size(files, ev, n),
    decreases n,
{
    if n > 0 {
        lemma_kept_size_push(files, ev, b, n - 1);
        let j = (n - 1) as usize;
        assert(ev.push(b).contains(j) <==> (ev.contains(j) || j == b)) by {
            if ev.push(b).contains(j) {
                let q = choose|q: int| 0 <= q < ev.push(b).len() && ev.push(b)[q] == j;
                if q < ev.len() {
                    assert(ev[q] == j);
                }
            }
            if ev.contains(j) {
                let q = choose|q: int| 0 <= q < ev.len() && ev[q] == j;
                assert(ev.push(b)[q] == j);
            }
            if j == b {
                assert(ev.push(b)[ev.len() as int] == j);
            }
        }
    }
}

/// Number of `false` entries.
spec fn count_false(s: Seq<bool>) -> nat
    decreases s.len(),
{
    if s.len() == 0 {
        0
    } else {
        count_false(s.drop_last()) + if s.last() {
            0nat
        } else {
            1nat
        }
    }
}

proof fn lemma_count_false_set(s: Seq<bool>, b: int)
    requires
        0 <= b < s.len(),
        !s[b],
    ensures
        count_false(s.update(b, true)) + 1 == count_false(s),
    decreases s.len(),
{
    let u = s.update(b, true);
    if b == s.len() - 1 {
        assert(u.drop_last() =~= s.drop_last());
    } else {
        assert(u.drop_last() =~= s.drop_last().update(b, true));
        lemma_count_false_set(s.drop_last(), b);
    }
}

proof fn lemma_kept_size_all_evicted(files: Seq<(u64, i64)>, ev: Seq<usize>, n: int)
    requires
        forall|j: usize| 0 <= j < n ==> #[trigger] ev.contains(j),
    ensures
        kept_size(files, ev, n) == 0,
    decreases n,
{
    if n > 0 {
        assert(ev.contains((n - 1) as usize));
        lemma_kept_size_all_evicted(files, ev, n - 1);
    }
}

proof fn lemma_kept_size_none_evicted(files: Seq<(u64, i64)>, n: int)
    requires
        0 <= n <= files.len(),
    ensures
        kept_size(files, Seq::empty(), n) <= n * 0xffff_ffff_ffff_ffff,
    decreases n,
{
    if n > 0 {
        lemma_kept_size_none_evicted(files, n - 1);
    }
}

/// Plans the eviction of cached artwork files (each `(size, mtime)`) so
/// that the kept files total at most `budget` bytes: the oldest files go
/// first (ties in listing order), and eviction stops as soon as the rest
/// fits. Returns the indices of the files to delete, in eviction order.
pub fn plan_cache_eviction(files: &Vec<(u64, i64)>, budget: u64) -> (r: Vec<usize>)
    ensures
        r@.no_duplicates(),
        forall|k: int| 0 <= k < r@.len() ==> (#[trigger] r@[k]) < files@.len(),
        forall|k: int|
            0 <= k < r@.len() - 1 ==> evicts_before(files@, #[trigger] r@[k] as int, r@[k + 1] as int),
        forall|k: int, j: usize|
            #![trigger r@[k], r@.contains(j)]
            0 <= k < r@.len() && j < files@.len() && !r@.contains(j) ==> evicts_before(
                files@,
                r@[k] as int,
                j as int,
            ),
        kept_total(files@, r@) <= budget,
        r@.len() > 0 ==> kept_total(files@, r@) + files@[r@.last() as int].0 > budget,
{
    let n = files.len();
    let mut total: u128 = 0;
    let mut i: usize = 0;
    while i < n
        invariant
            i <= n == files@.len(),
            total == kept_size(files@, Seq::empty(), i as int),
            total <= i * 0xffff_ffff_ffff_ffffu128,
        decreases n - i,
    {
        proof {
            assert(!Seq::<usize>::empty().contains(i));
        }
        total = total + files[i].0 as u128;
        i += 1;
    }
    let mut taken: Vec<bool> = Vec::new();
    let mut t: usize = 0;
    while t < n
        invariant
            t <= n,
            taken@.len() == t,
            forall|j: int| 0 <= j < t ==> !taken@[j],
        decreases n - t,
    {
        taken.push(false);
        t += 1;
    }
    let mut ev: Vec<usize> = Vec::new();
    let mut kept: u128 = total;
    while kept > budget as u128
        invariant
            n == files@.len(),
            taken@.len() == n,
            forall|j: usize| 0 <= j < n ==> (taken@[j as int] <==> #[trigger] ev@.contains(j)),
            forall|k: int| 0 <= k < ev@.len() ==> (#[trigger] ev@[k]) < n,
            ev@.no_duplicates(),
            forall|k: int|
                0 <= k < ev@.len() - 1 ==> evicts_before(files@, #[trigger] ev@[k] as int, ev@[k + 1] as int),
            forall|k: int, j: usize|
                #![trigger ev@[k], ev@.contains(j)]
                0 <= k < ev@.len() && j < n && !ev@.contains(j) ==> evicts_before(
                    files@,
                    ev@[k] as int,
                    j as int,
                ),
            kept == kept_total(files@, ev@),
            ev@.len() > 0 ==> kept + files@[ev@.last() as int].0 > budget,
        ensures
            kept <= budget,
        decreases count_false(taken@),
    {
        let mut best: Option<usize> = None;
        let mut j: usize = 0;
        while j < n
            invariant
                j <= n == files@.len(),
                taken@.len() == n,
                match best {
                    Some(b) => b < j && !taken@[b as int] && forall|q: int|
                        0 <= q < j && !taken@[q] && q != b ==> evicts_before(files@, b as int, q),
                    None => forall|q: int| 0 <= q < j ==> taken@[q],
                },
            decreases n - j,
        {
            if !taken[j] {
                match best {
                    None => {
                        best = Some(j);
                    },
                    Some(b) => {
                        if files[j].1 < files[b].1 {
                            best = Some(j);
                        }
                    },
                }
            }
            j += 1;
        }
        match best {
            None => {
                proof {
                    assert forall|q: usize| 0 <= q < n implies #[trigger] ev@.contains(q) by {
                        assert(taken@[q as int]);
                    }
                    lemma_kept_size_all_evicted(files@, ev@, n as int);
                }
                break;
            },
            Some(b) => {
                let ghost old_ev = ev@;
                proof {
                    assert(!old_ev.contains(b));
                    lemma_kept_size_push(files@, old_ev, b, n as int);
                    lemma_count_false_set(taken@, b as int);
                }
                taken.set(b, true);
                ev.push(b);
                kept = kept - files[b].0 as u128;
                proof {
                    assert forall|q: usize| 0 <= q < n implies (taken@[q as int]
                        <==> #[trigger] ev@.contains(q)) by {
                        if ev@.contains(q) {
                            let w = choose|w: int| 0 <= w < ev@.len() && ev@[w] == q;
                            if w < old_ev.len() {
                                assert(old_ev[w] == q);
                            }
                        }
                        if old_ev.contains(q) {
                            let w = choose|w: int| 0 <= w < old_ev.len() && old_ev[w] == q;
                            assert(ev@[w] == q);
                        }
                        if q == b {
                            assert(ev@[old_ev.len() as int] == b);
                        }
                    }
                    assert forall|k: int, q: usize|
                        #![trigger ev@[k], ev@.contains(q)]
                        0 <= k < ev@.len() && q < n && !ev@.contains(q) implies evicts_before(
                        files@,
                        ev@[k] as int,
                        q as int,
                    ) by {
                        assert(!taken@[q as int]);
                        assert(!old_ev.contains(q)) by {
                            if old_ev.contains(q) {
                                let w = choose|w: int| 0 <= w < old_ev.len() && old_ev[w] == q;
                                assert(ev@[w] == q);
                            }
                        }
                        if k < old_ev.len() {
                            assert(ev@[k] == old_ev[k]);
                        } else {
                            assert(q != b) by {
                                assert(ev@[old_ev.len() as int] == b);
                            }
                            assert(ev@[k] == b);
                        }
                    }
                    assert forall|k: int| 0 <= k < ev@.len() - 1 implies evicts_before(
                        files@,
                        #[trigger] ev@[k] as int,
                        ev@[k + 1] as int,
                    ) by {
                        if k < old_ev.len() - 1 {
                            assert(ev@[k] == old_ev[k] && ev@[k + 1] == old_ev[k + 1]);
                        } else {
                            assert(ev@[k] == old_ev[k]);
                            assert(ev@[k + 1] == b);
                        }
                    }
                    assert forall|p: int, q: int|
                        0 <= p < ev@.len() && 0 <= q < ev@.len() && p != q implies ev@[p]
                        != ev@[q] by {
                        if p == old_ev.len() {
                            assert(old_ev[q] != b);
                        } else if q == old_ev.len() {
                            assert(old_ev[p] != b);
                        }
                    }
                }
            },
        }
    }
    ev
}

/// The text of an optional item, empty when absent.
pub open spec fn text_or_empty(v: Option<String>) -> Seq<char> {
    match v {
        Some(s) => s@,
        None => Seq::empty(),
    }
}

/// The year of a date text: its first four characters read as an integer.
pub open spec fn spec_year_of(date: Seq<char>) -> Option<i64> {
    spec_parse_i64(
        if date.len() <= 4 {
            date
        } else {
            date.take(4)
        },
    )
}

/// The year of a tag: from the year item, or, when that item is absent,
/// from the recording date.
pub open spec fn spec_tag_year(raw: RawTags) -> Option<i64> {
    match raw.year {
        Some(y) => spec_year_of(y@),
        None => match raw.recording_date {
            Some(d) => spec_year_of(d@),
            None => None,
        },
    }
}

/// The album artist: the tag's item when present and not empty, else the
/// track artist.
pub open spec fn spec_album_artist(raw: RawTags) -> Seq<char> {
    match raw.album_artist {
        Some(a) => if a@.len() > 0 {
            a@
        } else {
            text_or_empty(raw.artist)
        },
        None => text_or_empty(raw.artist),
    }
}

/// What [`resolve_tags`] stores: the title falls back to the file's stem,
/// missing text items to the empty string, the album artist to the artist.
pub open spec fn spec_resolve_tags(raw: RawTags, path: Seq<char>, r: TrackTags) -> bool {
    &&& r.title@ == match raw.title {
        Some(t) => t@,
        None => spec_title_from_filename(path),
    }
    &&& r.artist@ == text_or_empty(raw.artist)
    &&& r.album@ == text_or_empty(raw.album)
    &&& r.genre@ == text_or_empty(raw.genre)
    &&& r.composer@ == text_or_empty(raw.composer)
    &&& r.album_artist@ == spec_album_artist(raw)
    &&& r.year == spec_tag_year(raw)
    &&& r.track_no == match raw.track {
        Some(n) => Some(n as i64),
        None => None,
    }
    &&& r.disc_no == match raw.disk {
        Some(n) => Some(n as i64),
        None => None,
    }
    &&& opt_chars(r.lyrics) == opt_chars(raw.unsynced_lyrics)
    &&& opt_chars(r.lyrics_synced) == opt_chars(raw.synced_lyrics)
}

/// A copy of an optional string.
fn copy_opt(v: &Option<String>) -> (r: Option<String>)
    ensures
        opt_chars(r) == opt_chars(*v),
{
    match v {
        Some(s) => Some(s.clone()),
        None => None,
    }
}

/// The text of an optional item, empty when absent.
fn or_empty(v: &Option<String>) -> (r: String)
    ensures
        r@ == text_or_empty(*v),
{
    match v {
        Some(s) => s.clone(),
        None => String::new(),
    }
}

/// The year of a date text (its first four characters as an integer).
pub fn year_of(date: &str) -> (r: Option<i64>)
    ensures
        r == spec_year_of(date@),
{
    let cs = chars_of(date);
    let n: usize = if cs.len() <= 4 {
        cs.len()
    } else {
        4
    };
    let mut head = String::new();
    push_chars(&mut head, &cs, 0, n);
    proof {
        if cs@.len() <= 4 {
            assert(Seq::<char>::empty() + cs@.subrange(0, n as int) =~= date@);
        } else {
            assert(Seq::<char>::empty() + cs@.subrange(0, n as int) =~= date@.take(4));
        }
    }
    parse_i64(head.as_str())
}

/// Resolves the stored tag fields of the file at `path` from its raw tag.
pub fn resolve_tags(raw: &RawTags, path: &str) -> (r: TrackTags)
    ensures
        spec_resolve_tags(*raw, path@, r),
{
    let title = match &raw.title {
        Some(t) => t.clone(),
        None => title_from_filename(path),
    };
    let artist = or_empty(&raw.artist);
    let album_artist = match &raw.album_artist {
        Some(a) => if a.unicode_len() > 0 {
            a.clone()
        } else {
            artist.clone()
        },
        None => artist.clone(),
    };
    let year = match &raw.year {
        Some(y) => year_of(y.as_str()),
        None => match &raw.recording_date {
            Some(d) => year_of(d.as_str()),
            None => None,
        },
    };
    TrackTags {
        title,
        artist,
        album: or_empty(&raw.album),
        album_artist,
        genre: or_empty(&raw.genre),
        composer: or_empty(&raw.composer),
        year,
        track_no: match raw.track {
            Some(n) => Some(n as i64),
            None => None,
        },
        disc_no: match raw.disk {
            Some(n) => Some(n as i64),
            None => None,
        },
        lyrics: copy_opt(&raw.unsynced_lyrics),
        lyrics_synced: copy_opt(&raw.synced_lyrics),
    }
}

/// Chooses the artwork picture: the first front cover, else the first.
pub fn pick_artwork(front: &Vec<bool>) -> (r: Option<usize>)
    ensures
        match r {
            Some(i) => i < front@.len() && (front@[i as int] ==> forall|j: int|
                0 <= j < i ==> !front@[j]) && (!front@[i as int] ==> i == 0 && forall|j: int|
                0 <= j < front@.len() ==> !front@[j]),
            None => front@.len() == 0,
        },
{
    let mut i: usize = 0;
    while i < front.len()
        invariant
            i <= front@.len(),
            forall|j: int| 0 <= j < i ==> !front@[j],
        decreases front@.len() - i,
    {
        if front[i] {
            return Some(i);
        }
        i += 1;
    }
    if front.len() > 0 {
        Some(0)
    } else {
        None
    }
}

// ---------------------------------------------------------------------------
// Artwork keys
// ---------------------------------------------------------------------------

/// The SHA-256 digest of a byte sequence (the result of sha2's `Sha256`).
pub uninterp spec fn sha256_digest(data: Seq<u8>) -> Seq<u8>;

/// sha2 `Sha256::digest`: the SHA-256 hash of `data`, 32 bytes. The digest
/// is named, not spelled out.
#[verifier::external_body]
fn sha256(data: &[u8]) -> (r: Vec<u8>)
    ensures
        r@ == sha256_digest(data@),
        r@.len() == 32,
{
    <sha2::Sha256 as sha2::Digest>::digest(data).to_vec()
}

/// The lowercase hexadecimal digit of `d` (0 to 15).
pub open spec fn hex_digit_lower(d: int) -> char {
    if d < 10 {
        (d + 48) as char
    } else {
        (d + 87) as char
    }
}

/// Bytes in lowercase hexadecimal, two digits per byte.
pub open spec fn spec_hex(bytes: Seq<u8>) -> Seq<char>
    decreases bytes.len(),
{
    if bytes.len() == 0 {
        Seq::empty()
    } else {
        spec_hex(bytes.drop_last()) + seq![
            hex_digit_lower(bytes.last() as int / 16),
            hex_digit_lower(bytes.last() as int % 16),
        ]
    }
}

/// The lowercase hexadecimal digit of a nibble.
fn hex_digit(d: u8) -> (c: char)
    requires
        d < 16,
    ensures
        c == hex_digit_lower(d as int),
{
    if d < 10 {
        (d + 48) as char
    } else {
        (d + 87) as char
    }
}

/// Renders bytes in lowercase hexadecimal.
pub fn hex(bytes: &[u8]) -> (r: String)
    ensures
        r@ == spec_hex(bytes@),
{
    let mut r = String::new();
    let mut i: usize = 0;
    while i < bytes.len()
        invariant
            i <= bytes@.len(),
            r@ == spec_hex(bytes@.take(i as int)),
        decreases bytes@.len() - i,
    {
        let b = bytes[i];
        push_char(&mut r, hex_digit(b / 16));
        push_char(&mut r, hex_digit(b % 16));
        proof {
            assert(bytes@.take(i + 1).drop_last() =~= bytes@.take(i as int));
            assert(bytes@.take(i + 1).last() == b);
        }
        i += 1;
    }
    proof {
        assert(bytes@.take(bytes@.len() as int) =~= bytes@);
    }
    r
}

/// Where cached artwork is stored: its key and its file name in the cache.
#[derive(Debug, Clone)]
pub struct ArtworkKey {
    pub hash: String,
    pub file_name: String,
}

/// The key of an image whose SHA-256 digest is `digest`: the digest in
/// hex, stored as `{hash}.{ext}` with the extension sniffed from the bytes.
pub open spec fn spec_artwork_key(digest: Seq<u8>, image: Seq<u8>, k: ArtworkKey) -> bool {
    &&& k.hash@ == spec_hex(digest)
    &&& k.file_name@ == spec_hex(digest) + seq!['.'] + spec_sniff_image_ext(image)
}

/// The artwork key of `image` given its digest.
pub fn artwork_key_for_digest(digest: &[u8], image: &[u8]) -> (r: ArtworkKey)
    ensures
        spec_artwork_key(digest@, image@, r),
{
    let hash = hex(digest);
    let mut file_name = hash.clone();
    push_char(&mut file_name, '.');
    let ext = sniff_image_ext(image);
    push_str(&mut file_name, ext);
    proof {
        assert(file_name@ =~= spec_hex(digest@) + seq!['.'] + spec_sniff_image_ext(image@));
    }
    ArtworkKey { hash, file_name }
}

/// The content-addressed key of embedded artwork: none for an empty
/// picture, else the SHA-256 of the bytes in hex (identical covers share
/// one cache file).
pub fn artwork_key(image: &[u8]) -> (r: Option<ArtworkKey>)
    ensures
        match r {
            Some(k) => image@.len() > 0 && spec_artwork_key(sha256_digest(image@), image@, k)
                && k.hash@.len() == 64,
            None => image@.len() == 0,
        },
{
    if image.len() == 0 {
        return None;
    }
    let digest = sha256(image);
    let k = artwork_key_for_digest(digest.as_slice(), image);
    proof {
        lemma_hex_len(digest@);
    }
    Some(k)
}

/// Hex doubles the length.
pub proof fn lemma_hex_len(bytes: Seq<u8>)
    ensures
        spec_hex(bytes).len() == 2 * bytes.len(),
    decreases bytes.len(),
{
    if bytes.len() > 0 {
        lemma_hex_len(bytes.drop_last());
    }
}

// ---------------------------------------------------------------------------
// Location fields
// ---------------------------------------------------------------------------

/// The stored format of a file: its extension in ASCII lowercase, empty
/// when it has none.
pub open spec fn spec_track_format(path: Seq<char>) -> Seq<char> {
    match spec_file_name(path) {
        Some(name) => match spec_extension_of_name(name) {
            Some(ext) => spec_ascii_lowercase(ext),
            None => Seq::empty(),
        },
        None => Seq::empty(),
    }
}

/// The format stored for the file at `path`.
pub fn track_format(path: &str) -> (r: String)
    ensures
        r@ == spec_track_format(path@),
{
    let cs = chars_of(path);
    match file_name_bounds(&cs) {
        None => String::new(),
        Some((a, b)) => {
            let mut k: usize = b;
            let ghost name = cs@.subrange(a as int, b as int);
            proof {
                crate::util::lemma_last_dot(name);
                assert(name.subrange(0, (b - a) as int) =~= name);
            }
            while k > a && cs[k - 1] != '.'
                invariant
                    a <= k <= b <= cs@.len(),
                    name == cs@.subrange(a as int, b as int),
                    crate::util::last_dot(name) == crate::util::last_dot(
                        name.subrange(0, k - a),
                    ),
                decreases k,
            {
                proof {
                    assert(name.subrange(0, k - a).drop_last() =~= name.subrange(0, k - 1 - a));
                }
                k -= 1;
            }
            if k - a <= 1 {
                proof {
                    if k == a {
                        assert(name.subrange(0, 0) =~= Seq::<char>::empty());
                    }
                }
                String::new()
            } else {
                let mut ext = String::new();
                push_chars(&mut ext, &cs, k, b);
                proof {
                    assert(name.skip(k - a) =~= cs@.subrange(k as int, b as int));
                }
                ascii_lowercase(ext.as_str())
            }
        },
    }
}

/// Artwork is content-addressed: two images with the same bytes get the
/// same key and the same cache file, so identical covers are stored once.
pub proof fn lemma_same_image_same_key(image: Seq<u8>, k1: ArtworkKey, k2: ArtworkKey)
    requires
        spec_artwork_key(sha256_digest(image), image, k1),
        spec_artwork_key(sha256_digest(image), image, k2),
    ensures
        k1.hash@ == k2.hash@,
        k1.file_name@ == k2.file_name@,
{
}


/// The album artist falls back to the track artist: whenever the file has
/// no album-artist item, or an empty one, the stored album artist is the
/// stored artist; a non-empty album-artist item is stored as it is. Missing
/// artist, album, genre and composer items are stored empty; a title item
/// and the track and disc numbers are stored as read.
pub proof fn lemma_album_artist_falls_back(raw: RawTags, path: Seq<char>, r: TrackTags)
    requires
        spec_resolve_tags(raw, path, r),
    ensures
        (raw.album_artist is None || raw.album_artist->0@.len() == 0) ==> r.album_artist@
            == r.artist@,
        raw.album_artist is Some && raw.album_artist->0@.len() > 0 ==> r.album_artist@
            == raw.album_artist->0@,
        raw.artist is Some ==> r.artist@ == raw.artist->0@,
        raw.artist is None ==> r.artist@.len() == 0,
        raw.album is None ==> r.album@.len() == 0,
        raw.genre is None ==> r.genre@.len() == 0,
        raw.composer is None ==> r.composer@.len() == 0,
        raw.title is Some ==> r.title@ == raw.title->0@,
        raw.track is Some ==> r.track_no == Some(raw.track->0 as i64),
        raw.track is None ==> r.track_no is None,
        raw.disk is Some ==> r.disc_no == Some(raw.disk->0 as i64),
        raw.disk is None ==> r.disc_no is None,
{
}
} // verus!
