//! Validation of user settings that do not involve floating point: accent
//! color, UI language, the equalizer band list, and the library folder
//! changes that a settings update implies.

use vstd::prelude::*;
use vstd::utf8::encode_utf8;

use crate::text::{push_str, str_equal, string_views};

verus! {

/// The accent color used when the stored one is malformed.
pub const DEFAULT_ACCENT: &'static str = "#7c5cff";
/// The UI language used when the stored one is not supported.
pub const DEFAULT_LANGUAGE: &'static str = "en";
/// The number of equalizer bands.
pub const EQ_BAND_COUNT: usize = 10;

/// A well-formed accent color: seven bytes starting with `#`.
pub open spec fn spec_accent_ok(accent: Seq<char>) -> bool {
    encode_utf8(accent).len() == 7 && accent.len() > 0 && accent[0] == '#'
}

/// Whether `accent` has the shape of a `#rrggbb` color (length in bytes 7,
/// leading `#`).
pub fn accent_ok(accent: &str) -> (r: bool)
    ensures
        r == spec_accent_ok(accent@),
{
    let n = accent.as_bytes().len();
    if n != 7 {
        return false;
    }
    if accent.unicode_len() == 0 {
        return false;
    }
    accent.get_char(0) == '#'
}

/// The supported UI languages.
pub open spec fn spec_language_ok(lang: Seq<char>) -> bool {
    lang == "en"@ || lang == "es"@
}

/// Whether `lang` is a supported UI language ("en" or "es").
pub fn language_ok(lang: &str) -> (r: bool)
    ensures
        r == spec_language_ok(lang@),
{
    str_equal(lang, "en") || str_equal(lang, "es")
}

/// The accent kept by a settings update: the given one when well formed,
/// else the default.
pub fn normalize_accent(accent: String) -> (r: String)
    ensures
        r@ == if spec_accent_ok(accent@) {
            accent@
        } else {
            DEFAULT_ACCENT@
        },
{
    if accent_ok(accent.as_str()) {
        accent
    } else {
        let mut d = String::new();
        push_str(&mut d, DEFAULT_ACCENT);
        proof {
            assert(Seq::<char>::empty() + DEFAULT_ACCENT@ =~= DEFAULT_ACCENT@);
        }
        d
    }
}

/// The language kept by a settings update: the given one when supported,
/// else English.
pub fn normalize_language(lang: String) -> (r: String)
    ensures
        r@ == if spec_language_ok(lang@) {
            lang@
        } else {
            DEFAULT_LANGUAGE@
        },
{
    if language_ok(lang.as_str()) {
        lang
    } else {
        let mut d = String::new();
        push_str(&mut d, DEFAULT_LANGUAGE);
        proof {
            assert(Seq::<char>::empty() + DEFAULT_LANGUAGE@ =~= DEFAULT_LANGUAGE@);
        }
        d
    }
}

/// `v` cut or padded with `fill` to exactly `n` values.
pub open spec fn spec_fit_len<T>(v: Seq<T>, n: nat, fill: T) -> Seq<T> {
    if v.len() >= n {
        v.take(n as int)
    } else {
        v + Seq::new((n - v.len()) as nat, |i: int| fill)
    }
}

/// Cuts `v` to its first `n` values or pads it with `fill` up to `n`
/// (the equalizer gains always have one value per band).
pub fn fit_len<T: Copy>(v: Vec<T>, n: usize, fill: T) -> (r: Vec<T>)
    ensures
        r@ == spec_fit_len(v@, n as nat, fill),
{
    let mut v = v;
    let ghost orig = v@;
    if v.len() >= n {
        v.truncate(n);
        proof {
            assert(v@ =~= orig.take(n as int));
        }
        v
    } else {
        while v.len() < n
            invariant
                orig.len() < n,
                orig.len() <= v@.len() <= n,
                v@ == orig + Seq::new((v@.len() - orig.len()) as nat, |i: int| fill),
            decreases n - v@.len(),
        {
            let ghost before = v@;
            v.push(fill);
            proof {
                assert(v@ =~= orig + Seq::new((v@.len() - orig.len()) as nat, |i: int| fill));
            }
        }
        v
    }
}

/// Whether `x` occurs in `xs`.
pub open spec fn contains_text(xs: Seq<Seq<char>>, x: Seq<char>) -> bool {
    exists|i: int| 0 <= i < xs.len() && xs[i] == x
}

/// The entries of `xs` that do not occur in `ys`, in order.
pub open spec fn spec_missing_from(xs: Seq<Seq<char>>, ys: Seq<Seq<char>>) -> Seq<Seq<char>>
    decreases xs.len(),
{
    if xs.len() == 0 {
        Seq::empty()
    } else if contains_text(ys, xs.last()) {
        spec_missing_from(xs.drop_last(), ys)
    } else {
        spec_missing_from(xs.drop_last(), ys).push(xs.last())
    }
}

/// Whether `x` occurs in `xs`.
fn contains_string(xs: &Vec<String>, x: &str) -> (r: bool)
    ensures
        r == contains_text(string_views(xs@), x@),
{
    let mut i: usize = 0;
    while i < xs.len()
        invariant
            i <= xs@.len(),
            forall|k: int| 0 <= k < i ==> xs@[k]@ != x@,
        decreases xs@.len() - i,
    {
        if str_equal(xs[i].as_str(), x) {
            proof {
                assert(string_views(xs@)[i as int] == x@);
            }
            return true;
        }
        i += 1;
    }
    proof {
        assert forall|k: int| 0 <= k < string_views(xs@).len() implies string_views(xs@)[k]
            != x@ by {
            assert(string_views(xs@)[k] == xs@[k]@);
        }
    }
    false
}

/// The entries of `xs` missing from `ys`, in order.
pub fn missing_from(xs: &Vec<String>, ys: &Vec<String>) -> (r: Vec<String>)
    ensures
        string_views(r@) == spec_missing_from(string_views(xs@), string_views(ys@)),
{
    let ghost xv = string_views(xs@);
    let ghost yv = string_views(ys@);
    let mut r: Vec<String> = Vec::new();
    let mut i: usize = 0;
    while i < xs.len()
        invariant
            i <= xs@.len(),
            xv == string_views(xs@),
            yv == string_views(ys@),
            string_views(r@) == spec_missing_from(xv.take(i as int), yv),
        decreases xs@.len() - i,
    {
        proof {
            assert(xv.take(i + 1).drop_last() =~= xv.take(i as int));
            assert(xv.take(i + 1).last() == xs@[i as int]@);
        }
        if !contains_string(ys, xs[i].as_str()) {
            let ghost before = r@;
            r.push(xs[i].clone());
            proof {
                assert(string_views(r@) =~= string_views(before).push(xs@[i as int]@));
            }
        }
        i += 1;
    }
    proof {
        assert(xv.take(xs@.len() as int) =~= xv);
    }
    r
}

/// The library folder changes of a settings update.
#[derive(Debug, Clone)]
pub struct FolderChanges {
    /// Folders no longer configured, in their old order.
    pub removed: Vec<String>,
    /// Folders newly configured, in their new order.
    pub added: Vec<String>,
    /// Whether the configured list changed at all (order included); the
    /// watcher is refreshed and a scan started only then.
    pub changed: bool,
}

/// Element-wise equality of two lists of strings.
fn same_strings(a: &Vec<String>, b: &Vec<String>) -> (r: bool)
    ensures
        r == (string_views(a@) == string_views(b@)),
{
    if a.len() != b.len() {
        proof {
            assert(string_views(a@).len() != string_views(b@).len());
        }
        return false;
    }
    let mut i: usize = 0;
    while i < a.len()
        invariant
            a@.len() == b@.len(),
            i <= a@.len(),
            forall|k: int| 0 <= k < i ==> a@[k]@ == b@[k]@,
        decreases a@.len() - i,
    {
        if !str_equal(a[i].as_str(), b[i].as_str()) {
            proof {
                assert(string_views(a@)[i as int] != string_views(b@)[i as int]);
            }
            return false;
        }
        i += 1;
    }
    proof {
        assert(string_views(a@) =~= string_views(b@));
    }
    true
}

/// Compares the library folders before and after a settings update.
pub fn folder_changes(old: &Vec<String>, new: &Vec<String>) -> (r: FolderChanges)
    ensures
        r.changed == (string_views(old@) != string_views(new@)),
        string_views(r.removed@) == spec_missing_from(string_views(old@), string_views(new@)),
        string_views(r.added@) == spec_missing_from(string_views(new@), string_views(old@)),
{
    FolderChanges {
        removed: missing_from(old, new),
        added: missing_from(new, old),
        changed: !same_strings(old, new),
    }
}

/// A folder list and itself have no changes.
pub proof fn lemma_missing_from_self(xs: Seq<Seq<char>>)
    ensures
        spec_missing_from(xs, xs).len() == 0,
{
    lemma_missing_from_sub(xs, xs);
}

/// No entry of a list is missing from a list that contains all of it.
pub proof fn lemma_missing_from_sub(xs: Seq<Seq<char>>, ys: Seq<Seq<char>>)
    requires
        forall|i: int| 0 <= i < xs.len() ==> contains_text(ys, #[trigger] xs[i]),
    ensures
        spec_missing_from(xs, ys).len() == 0,
    decreases xs.len(),
{
    if xs.len() > 0 {
        assert(contains_text(ys, xs[xs.len() - 1]));
        assert forall|i: int| 0 <= i < xs.drop_last().len() implies contains_text(
            ys,
            #[trigger] xs.drop_last()[i],
        ) by {
            assert(xs.drop_last()[i] == xs[i]);
        }
        lemma_missing_from_sub(xs.drop_last(), ys);
    }
}

} // verus!
