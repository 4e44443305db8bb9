//! Content-addressed names for style sheets and scripts, and the manifest
//! that maps each asset to the URL of its hashed copy.

use vstd::prelude::*;
use crate::sort::{as_ints, is_rising_order, order_rising, rising_order};
use crate::paths::{
    all_segments, is_segment, join, path_text, path_view, push_segment, PathView, SitePath,
};
use crate::text::{
    chars_of, copy_range, ends_with, first_index, first_index_from, forward_slashes,
    last_index_of, leading_end, lemma_first_index_from, lemma_last_index_of, push_chars,
    rfind_char, same_text, starts_with, string_of, trim_leading, with_forward_slashes,
};

verus! {

/// `c` is a hexadecimal digit, in either case.
pub open spec fn is_hex_digit(c: char) -> bool {
    ('0' <= c <= '9') || ('a' <= c <= 'f') || ('A' <= c <= 'F')
}

/// `c` is a hexadecimal digit in lower case.
pub open spec fn is_lower_hex_digit(c: char) -> bool {
    ('0' <= c <= '9') || ('a' <= c <= 'f')
}

/// `h` is a short hash: eight hexadecimal digits.
pub open spec fn is_short_hash(h: Seq<char>) -> bool {
    h.len() == 8 && forall|i: int| 0 <= i < 8 ==> is_hex_digit(#[trigger] h[i])
}

/// The ending `.css`.
pub open spec fn css_suffix() -> Seq<char> {
    seq!['.', 'c', 's', 's']
}

/// The ending `.js`.
pub open spec fn js_suffix() -> Seq<char> {
    seq!['.', 'j', 's']
}

/// `g` ends with a dot and eight hexadecimal digits.
pub open spec fn ends_with_hash(g: Seq<char>) -> bool {
    &&& g.len() >= 9
    &&& g[g.len() - 9] == '.'
    &&& forall|k: int| g.len() - 8 <= k < g.len() ==> is_hex_digit(#[trigger] g[k])
}

/// `name` has the form `<name>.<8 hex digits>.css` or `<name>.<8 hex digits>.js`.
pub open spec fn is_hashed_name(name: Seq<char>) -> bool {
    ||| (css_suffix().is_suffix_of(name) && ends_with_hash(name.take(name.len() - 4)))
    ||| (js_suffix().is_suffix_of(name) && ends_with_hash(name.take(name.len() - 3)))
}

/// `name` is the name of a style sheet or script: it ends in `.css` or `.js`
/// and something stands before that.
pub open spec fn has_asset_extension(name: Seq<char>) -> bool {
    ||| (name.len() > 4 && css_suffix().is_suffix_of(name))
    ||| (name.len() > 3 && js_suffix().is_suffix_of(name))
}

fn is_hex(c: char) -> (r: bool)
    ensures
        r == is_hex_digit(c),
{
    ('0' <= c && c <= '9') || ('a' <= c && c <= 'f') || ('A' <= c && c <= 'F')
}

fn has_hash_before(name: &[char], end: usize) -> (r: bool)
    requires
        end <= name.len(),
    ensures
        r == ends_with_hash(name@.take(end as int)),
{
    if end < 9 {
        return false;
    }
    let ghost g = name@.take(end as int);
    if name[end - 9] != '.' {
        return false;
    }
    let mut k: usize = end - 8;
    while k < end
        invariant
            end - 8 <= k <= end <= name.len(),
            g == name@.take(end as int),
            forall|j: int| end - 8 <= j < k ==> is_hex_digit(#[trigger] g[j]),
        decreases end - k,
    {
        if !is_hex(name[k]) {
            assert(!is_hex_digit(g[k as int]));
            return false;
        }
        k += 1;
    }
    true
}

fn css_chars() -> (v: Vec<char>)
    ensures
        v@ == css_suffix(),
{
    let v = chars_of(".css");
    proof {
        reveal_strlit(".css");
        assert(v@ =~= css_suffix());
    }
    v
}

fn js_chars() -> (v: Vec<char>)
    ensures
        v@ == js_suffix(),
{
    let v = chars_of(".js");
    proof {
        reveal_strlit(".js");
        assert(v@ =~= js_suffix());
    }
    v
}

/// Whether `name` is the name of a hashed copy.
pub fn is_hashed_chars(name: &[char]) -> (r: bool)
    ensures
        r == is_hashed_name(name@),
{
    let css = css_chars();
    let js = js_chars();
    if ends_with(name, css.as_slice()) {
        if has_hash_before(name, name.len() - 4) {
            return true;
        }
    }
    if ends_with(name, js.as_slice()) {
        if has_hash_before(name, name.len() - 3) {
            return true;
        }
    }
    false
}

/// Whether `filename` is the name of a hashed copy from an earlier build:
/// `<name>.<8 hex digits>.css` or `<name>.<8 hex digits>.js`.
pub fn is_hashed_filename(filename: &str) -> (r: bool)
    ensures
        r == is_hashed_name(filename@),
{
    let name = chars_of(filename);
    is_hashed_chars(name.as_slice())
}

/// Whether `name` is the name of a style sheet or script.
pub fn is_asset_name(name: &[char]) -> (r: bool)
    ensures
        r == has_asset_extension(name@),
{
    let css = css_chars();
    let js = js_chars();
    (name.len() > 4 && ends_with(name, css.as_slice())) || (name.len() > 3 && ends_with(
        name,
        js.as_slice(),
    ))
}

/// `original` with `hash` put in before its extension, or at its end where it has none.
pub open spec fn hashed_name(original: Seq<char>, hash: Seq<char>) -> Seq<char> {
    match last_index_of(original, '.') {
        Some(i) => original.take(i) + seq!['.'] + hash + original.skip(i),
        None => original + seq!['.'] + hash,
    }
}

/// The name of the hashed copy of `original`.
pub fn hashed_chars(original: &[char], hash: &[char]) -> (r: Vec<char>)
    ensures
        r@ == hashed_name(original@, hash@),
{
    let mut r: Vec<char> = Vec::new();
    match rfind_char(original, '.') {
        Some(i) => {
            let head = copy_range(original, 0, i);
            let tail = copy_range(original, i, original.len());
            push_chars(&mut r, head.as_slice());
            r.push('.');
            push_chars(&mut r, hash);
            push_chars(&mut r, tail.as_slice());
            assert(r@ == original@.take(i as int) + seq!['.'] + hash@ + original@.skip(i as int));
        },
        None => {
            push_chars(&mut r, original);
            r.push('.');
            push_chars(&mut r, hash);
            assert(r@ == original@ + seq!['.'] + hash@);
        },
    }
    r
}

/// The name of the hashed copy of the file `original`: `style.css` with the
/// hash `a1b2c3d4` gives `style.a1b2c3d4.css`.
pub fn hashed_filename(original: &str, hash: &str) -> (r: String)
    ensures
        r@ == hashed_name(original@, hash@),
{
    let o = chars_of(original);
    let h = chars_of(hash);
    let r = hashed_chars(o.as_slice(), h.as_slice());
    string_of(r.as_slice())
}

/// The hashed copy of an asset is recognised as one: what hashing writes,
/// the next clean-up finds.
pub proof fn lemma_hashed_name_is_recognised(original: Seq<char>, hash: Seq<char>)
    requires
        has_asset_extension(original),
        is_short_hash(hash),
    ensures
        is_hashed_name(hashed_name(original, hash)),
{
    lemma_last_index_of(original, '.');
    let n = original.len() as int;
    let ext: int = if css_suffix().is_suffix_of(original) && n > 4 {
        4
    } else {
        3
    };
    let dot = n - ext;
    let suffix = if ext == 4 {
        css_suffix()
    } else {
        js_suffix()
    };
    assert(original.subrange(dot, n) == suffix);
    assert(original[dot] == suffix[0]);
    assert forall|j: int| dot < j < n implies original[j] != '.' by {
        assert(original[j] == suffix[j - dot]);
    }
    assert(last_index_of(original, '.') == Some(dot));
    let r = hashed_name(original, hash);
    assert(r == original.take(dot) + seq!['.'] + hash + original.skip(dot));
    assert(r.len() == n + 9);
    assert(r.subrange(r.len() - ext, r.len() as int) =~= suffix);
    let g = r.take(r.len() - ext);
    assert(g.len() == dot + 9);
    assert(g[g.len() - 9] == '.');
    assert forall|k: int| g.len() - 8 <= k < g.len() implies is_hex_digit(#[trigger] g[k]) by {
        assert(g[k] == hash[k - dot - 1]);
    }
}

/// The lower-case hexadecimal form of the BLAKE3 hash of `content`.
pub uninterp spec fn blake3_hex_digest(content: Seq<u8>) -> Seq<char>;

/// Calls `blake3::hash` and `Hash::to_hex`. The text returned has 64
/// characters, each a digit or a letter from `a` to `f`.
#[verifier::external_body]
fn blake3_hex(content: &[u8]) -> (r: String)
    ensures
        r@ == blake3_hex_digest(content@),
        r@.len() == 64,
        forall|i: int| 0 <= i < 64 ==> is_lower_hex_digit(#[trigger] r@[i]),
{
    blake3::hash(content).to_hex().to_string()
}

/// The short hash of `content`: the first eight characters of its digest.
pub open spec fn short_hash(content: Seq<u8>) -> Seq<char> {
    blake3_hex_digest(content).take(8)
}

/// The short hash of the bytes of a file. Equal contents give equal hashes.
pub fn compute_file_hash(content: &[u8]) -> (r: String)
    ensures
        r@ == short_hash(content@),
        is_short_hash(r@),
{
    let hex = blake3_hex(content);
    let all = chars_of(hex.as_str());
    let first = copy_range(all.as_slice(), 0, 8);
    assert(first@ == short_hash(content@));
    assert(is_short_hash(first@)) by {
        assert forall|i: int| 0 <= i < 8 implies is_hex_digit(#[trigger] first@[i]) by {
            assert(first@[i] == hex@[i]);
            assert(is_lower_hex_digit(hex@[i]));
        }
    }
    string_of(first.as_slice())
}

/// One line of the manifest: an asset's path below the static directory, and
/// the URL of its hashed copy.
#[derive(Debug)]
pub struct ManifestEntry {
    pub path: String,
    pub url: String,
}

/// The manifest of hashed assets: for each original path, such as
/// `css/style.css`, the URL of its hashed copy, such as
/// `/static/css/style.a1b2c3d4.css`.
#[derive(Debug)]
pub struct AssetManifest {
    pub entries: Vec<ManifestEntry>,
}

/// What a `ManifestEntry` holds, as texts.
pub struct EntryView {
    pub path: Seq<char>,
    pub url: Seq<char>,
}

impl View for ManifestEntry {
    type V = EntryView;

    open spec fn view(&self) -> EntryView {
        EntryView { path: self.path@, url: self.url@ }
    }
}

/// The views of `entries`, in order.
pub open spec fn entry_views(entries: Seq<ManifestEntry>) -> Seq<EntryView> {
    entries.map_values(|e: ManifestEntry| e@)
}

/// The paths of `entries`, in order.
pub open spec fn view_keys(entries: Seq<EntryView>) -> Seq<Seq<char>> {
    entries.map_values(|e: EntryView| e.path)
}

/// `entries` with `url` recorded for `path`: in the place of the first entry
/// for `path` where there is one, else behind the last entry.
pub open spec fn with_entry(entries: Seq<EntryView>, path: Seq<char>, url: Seq<char>) -> Seq<EntryView> {
    match first_index(view_keys(entries), path) {
        Some(i) => entries.update(i, EntryView { path, url }),
        None => entries.push(EntryView { path, url }),
    }
}

/// The paths of `entries`, in order.
pub open spec fn entry_keys(entries: Seq<ManifestEntry>) -> Seq<Seq<char>> {
    entries.map_values(|e: ManifestEntry| e.path@)
}

/// The map that `entries` stand for: each path with the URL of its first entry.
pub open spec fn entries_map(entries: Seq<ManifestEntry>) -> Map<Seq<char>, Seq<char>> {
    Map::new(
        |k: Seq<char>| first_index(entry_keys(entries), k) is Some,
        |k: Seq<char>| entries[first_index(entry_keys(entries), k)->0].url@,
    )
}

impl View for AssetManifest {
    type V = Map<Seq<char>, Seq<char>>;

    open spec fn view(&self) -> Map<Seq<char>, Seq<char>> {
        entries_map(self.entries@)
    }
}

/// A key appended to a list is found last, and only where no earlier member equals it.
pub proof fn lemma_first_index_push(keys: Seq<Seq<char>>, added: Seq<char>, key: Seq<char>)
    ensures
        first_index(keys.push(added), key) == match first_index(keys, key) {
            Some(i) => Some(i),
            None => if key == added {
                Some(keys.len() as int)
            } else {
                None
            },
        },
{
    let more = keys.push(added);
    lemma_first_index_from(keys, key, 0);
    lemma_first_index_from(more, key, 0);
    match first_index(keys, key) {
        Some(i) => {
            assert(more[i] == key);
            assert forall|j: int| 0 <= j < i implies more[j] != key by {
                assert(more[j] == keys[j]);
            }
            crate::text::lemma_first_index_is(more, key, i);
        },
        None => {
            assert forall|j: int| 0 <= j < keys.len() implies more[j] != key by {
                assert(more[j] == keys[j]);
            }
            if key == added {
                crate::text::lemma_first_index_is(more, key, keys.len() as int);
            } else {
                crate::text::lemma_first_index_none(more, key);
            }
        },
    }
}

impl AssetManifest {
    /// No path has two entries.
    pub open spec fn well_formed(&self) -> bool {
        forall|i: int, j: int|
            0 <= i < j < self.entries.len() ==> self.entries[i].path@ != self.entries[j].path@
    }

    /// The manifest without entries.
    pub fn new() -> (m: AssetManifest)
        ensures
            m@ == Map::<Seq<char>, Seq<char>>::empty(),
            m.well_formed(),
            m.entries@.len() == 0,
    {
        let m = AssetManifest { entries: Vec::new() };
        assert(m@ =~= Map::<Seq<char>, Seq<char>>::empty());
        m
    }

    /// The number of entries.
    pub fn len(&self) -> (n: usize)
        ensures
            n == self.entries@.len(),
    {
        self.entries.len()
    }

    fn position(&self, key: &[char]) -> (r: Option<usize>)
        ensures
            match r {
                Some(i) => first_index(entry_keys(self.entries@), key@) == Some(i as int) && i
                    < self.entries.len(),
                None => first_index(entry_keys(self.entries@), key@) is None,
            },
    {
        let ghost keys = entry_keys(self.entries@);
        let mut i: usize = 0;
        while i < self.entries.len()
            invariant
                i <= self.entries.len(),
                keys == entry_keys(self.entries@),
                first_index(keys, key@) == first_index_from(keys, key@, i as int),
            decreases self.entries.len() - i,
        {
            let path = chars_of(self.entries[i].path.as_str());
            assert(keys[i as int] == path@);
            if same_text(path.as_slice(), key) {
                return Some(i);
            }
            i += 1;
        }
        None
    }

    /// Whether `path` has an entry.
    pub fn contains_key(&self, path: &str) -> (r: bool)
        ensures
            r == self@.dom().contains(path@),
    {
        let key = chars_of(path);
        self.position(key.as_slice()).is_some()
    }

    /// The URL of the hashed copy of `path`, where it has one.
    pub fn get(&self, path: &str) -> (r: Option<&String>)
        ensures
            match r {
                Some(url) => self@.dom().contains(path@) && self@[path@] == url@,
                None => !self@.dom().contains(path@),
            },
    {
        let key = chars_of(path);
        match self.position(key.as_slice()) {
            Some(i) => Some(&self.entries[i].url),
            None => None,
        }
    }

    /// Records `url` as the hashed copy of `path`, in place of an earlier entry
    /// for `path` where there is one.
    pub fn insert(&mut self, path: String, url: String)
        ensures
            final(self)@ == old(self)@.insert(path@, url@),
            entry_views(final(self).entries@) == with_entry(
                entry_views(old(self).entries@),
                path@,
                url@,
            ),
            old(self).well_formed() ==> final(self).well_formed(),
    {
        let key = chars_of(path.as_str());
        let ghost before = self.entries@;
        let ghost keys = entry_keys(before);
        let ghost added = path@;
        let ghost value = url@;
        assert(view_keys(entry_views(before)) =~= keys);
        match self.position(key.as_slice()) {
            Some(i) => {
                self.entries.set(i, ManifestEntry { path, url });
                let ghost after = self.entries@;
                proof {
                    lemma_first_index_from(keys, added, 0);
                }
                assert(entry_views(after) =~= entry_views(before).update(
                    i as int,
                    EntryView { path: added, url: value },
                ));
                assert(entry_keys(after) =~= keys);
                assert(entries_map(after) =~= entries_map(before).insert(added, value)) by {
                    assert forall|k: Seq<char>|
                        first_index(keys, k) is Some implies #[trigger] entries_map(after)[k]
                        == entries_map(before).insert(added, value)[k] by {
                        lemma_first_index_from(keys, k, 0);
                        lemma_first_index_from(keys, added, 0);
                    }
                }
                assert(old(self).well_formed() ==> self.well_formed()) by {
                    assert forall|a: int, b: int|
                        old(self).well_formed() && 0 <= a < b < after.len() implies after[a].path@
                        != after[b].path@ by {
                        assert(entry_keys(after)[a] == keys[a]);
                        assert(entry_keys(after)[b] == keys[b]);
                        assert(keys[a] == before[a].path@);
                        assert(keys[b] == before[b].path@);
                    }
                }
            },
            None => {
                self.entries.push(ManifestEntry { path, url });
                let ghost after = self.entries@;
                assert(entry_views(after) =~= entry_views(before).push(
                    EntryView { path: added, url: value },
                ));
                assert(entry_keys(after) =~= keys.push(added));
                assert(entries_map(after) =~= entries_map(before).insert(added, value)) by {
                    assert forall|k: Seq<char>|
                        #![trigger first_index(keys, k)]
                        #![trigger first_index(keys.push(added), k)]
                        true implies first_index(keys.push(added), k) == match first_index(keys, k) {
                            Some(i) => Some(i),
                            None => if k == added {
                                Some(keys.len() as int)
                            } else {
                                None
                            },
                        } && (first_index(keys, k) matches Some(i) ==> 0 <= i < keys.len()) by {
                        lemma_first_index_push(keys, added, k);
                        lemma_first_index_from(keys, k, 0);
                    }
                }
                assert(old(self).well_formed() ==> self.well_formed()) by {
                    lemma_first_index_from(keys, added, 0);
                    assert forall|a: int, b: int|
                        old(self).well_formed() && 0 <= a < b < after.len() implies after[a].path@
                        != after[b].path@ by {
                        assert(keys[a] == before[a].path@);
                        if b < before.len() {
                            assert(keys[b] == before[b].path@);
                        }
                    }
                }
            },
        }
    }
}

/// The leading `static/` of an asset path.
pub open spec fn static_prefix() -> Seq<char> {
    seq!['s', 't', 'a', 't', 'i', 'c', '/']
}

/// The leading `/static/` of an asset URL.
pub open spec fn static_url_prefix() -> Seq<char> {
    seq!['/', 's', 't', 'a', 't', 'i', 'c', '/']
}

/// The key under which the manifest is asked for `path`: `path` without
/// leading slashes and without a leading `static/`.
pub open spec fn manifest_key(path: Seq<char>) -> Seq<char> {
    trim_leading(trim_leading(path, seq!['/']), static_prefix())
}

/// The URL for the asset `path`: that of its hashed copy where the manifest
/// has one, else `path` itself below `/static/`.
pub open spec fn resolved_asset(manifest: Map<Seq<char>, Seq<char>>, path: Seq<char>) -> Seq<char> {
    if manifest.dom().contains(manifest_key(path)) {
        manifest[manifest_key(path)]
    } else if static_url_prefix().is_prefix_of(path) {
        path
    } else if static_prefix().is_prefix_of(path) {
        seq!['/'] + path
    } else {
        static_url_prefix() + path
    }
}

/// The URL to use for the asset at `path`, which may be given as
/// `css/style.css`, `static/css/style.css` or `/static/css/style.css`.
pub fn resolve_asset_path(manifest: &AssetManifest, path: &str) -> (r: String)
    ensures
        r@ == resolved_asset(manifest@, path@),
{
    let text = chars_of(path);
    let slash = chars_of("/");
    let prefix = chars_of("static/");
    let url_prefix = chars_of("/static/");
    proof {
        reveal_strlit("/");
        reveal_strlit("static/");
        reveal_strlit("/static/");
        assert(slash@ =~= seq!['/']);
        assert(prefix@ =~= static_prefix());
        assert(url_prefix@ =~= static_url_prefix());
    }
    let a = leading_end(text.as_slice(), slash.as_slice());
    let unslashed = copy_range(text.as_slice(), a, text.len());
    assert(unslashed@ == text@.skip(a as int));
    let b = leading_end(unslashed.as_slice(), prefix.as_slice());
    let key = copy_range(unslashed.as_slice(), b, unslashed.len());
    assert(key@ == unslashed@.skip(b as int));
    assert(key@ == manifest_key(path@));
    let key_text = string_of(key.as_slice());
    match manifest.get(key_text.as_str()) {
        Some(url) => url.clone(),
        None => {
            let mut out: Vec<char> = Vec::new();
            if starts_with(text.as_slice(), url_prefix.as_slice()) {
            } else if starts_with(text.as_slice(), prefix.as_slice()) {
                out.push('/');
            } else {
                push_chars(&mut out, url_prefix.as_slice());
            }
            push_chars(&mut out, text.as_slice());
            assert(out@ == resolved_asset(manifest@, path@)) by {
                assert(Seq::<char>::empty() + text@ == text@);
            }
            string_of(out.as_slice())
        },
    }
}

/// The last segment of the path `path` is the name of a hashed copy.
pub open spec fn names_hashed_copy(path: Seq<char>) -> bool {
    let segs = crate::paths::segments(path);
    segs.len() > 0 && is_hashed_name(segs.last())
}

/// The members of `paths` that name hashed copies, in order.
pub open spec fn stale_files(paths: Seq<String>) -> Seq<Seq<char>>
    decreases paths.len(),
{
    if paths.len() == 0 {
        Seq::empty()
    } else if names_hashed_copy(paths.last()@) {
        stale_files(paths.drop_last()).push(paths.last()@)
    } else {
        stale_files(paths.drop_last())
    }
}

/// The views of the members of `v`.
pub open spec fn string_views(v: Seq<String>) -> Seq<Seq<char>> {
    v.map_values(|s: String| s@)
}

/// Whether the file at `path` is a hashed copy, by its name.
pub fn is_hashed_path(path: &str) -> (r: bool)
    ensures
        r == names_hashed_copy(path@),
{
    let p = SitePath::from_text(path);
    let n = p.segments.len();
    if n == 0 {
        return false;
    }
    assert(p@.segments.last() == p.segments[n - 1]@);
    is_hashed_chars(p.segments[n - 1].as_slice())
}

/// The hashed copies of an earlier build among `files`, the regular files
/// found below the static directory of the output. These are the files to
/// delete before assets are hashed anew.
pub fn cleanup_old_hashed_files(files: &Vec<String>) -> (stale: Vec<String>)
    ensures
        string_views(stale@) == stale_files(files@),
{
    let mut stale: Vec<String> = Vec::new();
    let mut i: usize = 0;
    assert(string_views(stale@) =~= stale_files(files@.take(0)));
    while i < files.len()
        invariant
            i <= files.len(),
            string_views(stale@) == stale_files(files@.take(i as int)),
        decreases files.len() - i,
    {
        let ghost upto = files@.take(i + 1);
        assert(upto.drop_last() == files@.take(i as int));
        assert(upto.last() == files[i as int]);
        if is_hashed_path(files[i].as_str()) {
            let ghost before = string_views(stale@);
            stale.push(files[i].clone());
            assert(string_views(stale@) =~= before.push(files[i as int]@));
        }
        i += 1;
    }
    assert(files@.take(i as int) == files@);
    stale
}

/// A regular file found below the static directory: its path from there, and its bytes.
#[derive(Debug)]
pub struct StaticFile {
    pub relative_path: String,
    pub content: Vec<u8>,
}

/// One asset to copy under its hashed name.
#[derive(Debug)]
pub struct HashedCopy {
    /// The asset, below the static directory.
    pub source: String,
    /// The hashed copy, below the static directory of the output.
    pub destination: String,
    /// The key of the asset in the manifest.
    pub key: String,
    /// The URL of the hashed copy.
    pub url: String,
}

/// What a `HashedCopy` holds, as texts.
pub struct HashedCopyView {
    pub source: Seq<char>,
    pub destination: Seq<char>,
    pub key: Seq<char>,
    pub url: Seq<char>,
}

impl View for HashedCopy {
    type V = HashedCopyView;

    open spec fn view(&self) -> HashedCopyView {
        HashedCopyView {
            source: self.source@,
            destination: self.destination@,
            key: self.key@,
            url: self.url@,
        }
    }
}

/// What hashing does: the copies to make, and the manifest that results.
#[derive(Debug)]
pub struct AssetPlan {
    pub manifest: AssetManifest,
    pub copies: Vec<HashedCopy>,
}

/// The path `segments` as a relative path.
pub open spec fn relative(segments: Seq<Seq<char>>) -> PathView {
    PathView { absolute: false, segments }
}

/// The directory of the output that holds the static files.
pub open spec fn output_static_dir(output_dir: Seq<char>) -> PathView {
    push_segment(path_view(output_dir), "static"@)
}

/// The hashed copy to make of the file at `relative_path`, where it is a
/// style sheet or a script and not itself a hashed copy.
pub open spec fn hashed_copy_of(
    static_dir: Seq<char>,
    output_dir: Seq<char>,
    relative_path: Seq<char>,
    content: Seq<u8>,
) -> Option<HashedCopyView> {
    let segs = crate::paths::segments(relative_path);
    if segs.len() == 0 || !has_asset_extension(segs.last()) || is_hashed_name(segs.last()) {
        None
    } else {
        let renamed = segs.drop_last().push(hashed_name(segs.last(), short_hash(content)));
        Some(
            HashedCopyView {
                source: path_text(join(path_view(static_dir), relative(segs))),
                destination: path_text(join(output_static_dir(output_dir), relative(renamed))),
                key: with_forward_slashes(path_text(relative(segs))),
                url: static_url_prefix() + with_forward_slashes(path_text(relative(renamed))),
            },
        )
    }
}

/// The hashed copies to make of `files`, in their order.
pub open spec fn planned_copies(static_dir: Seq<char>, output_dir: Seq<char>, files: Seq<StaticFile>) -> Seq<
    HashedCopyView,
>
    decreases files.len(),
{
    if files.len() == 0 {
        Seq::empty()
    } else {
        let head = planned_copies(static_dir, output_dir, files.drop_last());
        match hashed_copy_of(
            static_dir,
            output_dir,
            files.last().relative_path@,
            files.last().content@,
        ) {
            Some(copy) => head.push(copy),
            None => head,
        }
    }
}

/// The manifest that `copies` give: each key with the URL of the last copy that has it.
pub open spec fn manifest_of(copies: Seq<HashedCopyView>) -> Map<Seq<char>, Seq<char>>
    decreases copies.len(),
{
    if copies.len() == 0 {
        Map::empty()
    } else {
        manifest_of(copies.drop_last()).insert(copies.last().key, copies.last().url)
    }
}

/// The entries of the manifest that `copies` give, in their order: one for
/// each key, in the place where the key first came, with the URL of the last
/// copy that has the key.
pub open spec fn manifest_entries(copies: Seq<HashedCopyView>) -> Seq<EntryView>
    decreases copies.len(),
{
    if copies.len() == 0 {
        Seq::empty()
    } else {
        with_entry(manifest_entries(copies.drop_last()), copies.last().key, copies.last().url)
    }
}

/// The views of the members of `v`.
pub open spec fn copy_views(v: Seq<HashedCopy>) -> Seq<HashedCopyView> {
    v.map_values(|c: HashedCopy| c@)
}

/// The hashed name of a file is a path segment.
pub proof fn lemma_hashed_name_is_segment(name: Seq<char>, hash: Seq<char>)
    requires
        is_segment(name),
        is_short_hash(hash),
    ensures
        is_segment(hashed_name(name, hash)),
{
    lemma_last_index_of(name, '.');
    let r = hashed_name(name, hash);
    match last_index_of(name, '.') {
        Some(i) => {
            assert forall|k: int| 0 <= k < r.len() implies r[k] != '/' by {
                if k < i {
                    assert(r[k] == name[k]);
                } else if k == i {
                } else if k < i + 9 {
                    assert(r[k] == hash[k - i - 1]);
                } else {
                    assert(r[k] == name[k - 9]);
                }
            }
        },
        None => {
            assert forall|k: int| 0 <= k < r.len() implies r[k] != '/' by {
                if k < name.len() {
                    assert(r[k] == name[k]);
                } else if k == name.len() {
                } else {
                    assert(r[k] == hash[k - name.len() - 1]);
                }
            }
        },
    }
}

/// The hashed copy to make of one file, where one is to be made.
pub fn plan_hashed_copy(
    static_dir: &str,
    output_dir: &str,
    relative_path: &str,
    content: &[u8],
) -> (r: Option<HashedCopy>)
    ensures
        match r {
            Some(copy) => hashed_copy_of(static_dir@, output_dir@, relative_path@, content@) == Some(
                copy@,
            ),
            None => hashed_copy_of(static_dir@, output_dir@, relative_path@, content@) is None,
        },
{
    let path = SitePath::from_text(relative_path);
    let n = path.segments.len();
    if n == 0 {
        return None;
    }
    let ghost segs = path@.segments;
    assert(segs.last() == path.segments[n - 1]@);
    assert(is_segment(segs.last()));
    if !is_asset_name(path.segments[n - 1].as_slice()) || is_hashed_chars(
        path.segments[n - 1].as_slice(),
    ) {
        return None;
    }
    let hash = compute_file_hash(content);
    let hash_chars = chars_of(hash.as_str());
    let new_name = hashed_chars(path.segments[n - 1].as_slice(), hash_chars.as_slice());
    proof {
        lemma_hashed_name_is_segment(segs.last(), hash@);
    }
    let original = SitePath { absolute: false, segments: path.segments };
    assert(original@ == relative(segs));
    assert(original.well_formed());
    let key_text = original.to_chars();
    let key = forward_slashes(key_text.as_slice());
    let source = SitePath::from_text(static_dir).join(original.duplicate()).to_text();
    let mut renamed_segments = original.segments;
    renamed_segments.pop();
    assert(crate::paths::views(renamed_segments@) == segs.drop_last());
    let ghost kept = crate::paths::views(renamed_segments@);
    renamed_segments.push(new_name);
    assert(crate::paths::views(renamed_segments@) == kept.push(new_name@));
    let renamed = SitePath { absolute: false, segments: renamed_segments };
    assert(renamed.well_formed()) by {
        assert forall|i: int| 0 <= i < renamed@.segments.len() implies is_segment(
            #[trigger] renamed@.segments[i],
        ) by {
            if i < n - 1 {
                assert(renamed@.segments[i] == segs[i]);
            }
        }
    }
    let renamed_text = renamed.to_chars();
    let mut url = chars_of("/static/");
    proof {
        reveal_strlit("/static/");
        assert(url@ =~= static_url_prefix());
    }
    let slashed = forward_slashes(renamed_text.as_slice());
    push_chars(&mut url, slashed.as_slice());
    let static_name = chars_of("static");
    assert(is_segment(static_name@)) by {
        reveal_strlit("static");
    }
    let destination = SitePath::from_text(output_dir).push(static_name).join(renamed).to_text();
    Some(
        HashedCopy {
            source,
            destination,
            key: string_of(key.as_slice()),
            url: string_of(url.as_slice()),
        },
    )
}

/// Plans the hashing of the static assets: for every style sheet and script
/// among `files` that is not itself a hashed copy, a copy under a name that
/// holds the short hash of its bytes, and an entry in the manifest from the
/// asset's path to the URL of that copy. Other files get neither.
pub fn hash_static_assets(static_dir: &str, output_dir: &str, files: &Vec<StaticFile>) -> (plan:
    AssetPlan)
    ensures
        copy_views(plan.copies@) == planned_copies(static_dir@, output_dir@, files@),
        plan.manifest@ == manifest_of(planned_copies(static_dir@, output_dir@, files@)),
        entry_views(plan.manifest.entries@) == manifest_entries(
            planned_copies(static_dir@, output_dir@, files@),
        ),
        plan.manifest.well_formed(),
{
    let mut manifest = AssetManifest::new();
    let mut copies: Vec<HashedCopy> = Vec::new();
    let mut i: usize = 0;
    assert(copy_views(copies@) =~= planned_copies(static_dir@, output_dir@, files@.take(0)));
    assert(entry_views(manifest.entries@) =~= manifest_entries(copy_views(copies@)));
    while i < files.len()
        invariant
            i <= files.len(),
            copy_views(copies@) == planned_copies(static_dir@, output_dir@, files@.take(i as int)),
            manifest@ == manifest_of(copy_views(copies@)),
            entry_views(manifest.entries@) == manifest_entries(copy_views(copies@)),
            manifest.well_formed(),
        decreases files.len() - i,
    {
        let ghost upto = files@.take(i + 1);
        assert(upto.drop_last() == files@.take(i as int));
        assert(upto.last() == files[i as int]);
        let file = &files[i];
        match plan_hashed_copy(
            static_dir,
            output_dir,
            file.relative_path.as_str(),
            file.content.as_slice(),
        ) {
            Some(copy) => {
                let ghost before = copy_views(copies@);
                manifest.insert(copy.key.clone(), copy.url.clone());
                copies.push(copy);
                assert(copy_views(copies@) =~= before.push(copy@));
                assert(copy_views(copies@).drop_last() == before);
            },
            None => {},
        }
        i += 1;
    }
    assert(files@.take(i as int) == files@);
    AssetPlan { manifest, copies }
}

/// The copy made of an asset is itself found as a hashed copy by name, so
/// the clean-up of the next build removes it.
pub proof fn lemma_copy_is_found_stale(
    static_dir: Seq<char>,
    output_dir: Seq<char>,
    relative_path: Seq<char>,
    content: Seq<u8>,
)
    requires
        is_short_hash(short_hash(content)),
        hashed_copy_of(static_dir, output_dir, relative_path, content) is Some,
    ensures
        names_hashed_copy(hashed_copy_of(static_dir, output_dir, relative_path, content)->0.destination),
{
    let segs = crate::paths::segments(relative_path);
    let hash = short_hash(content);
    let new_name = hashed_name(segs.last(), hash);
    let renamed = segs.drop_last().push(new_name);
    let place = join(output_static_dir(output_dir), relative(renamed));
    crate::paths::lemma_split_gives_segments(relative_path, Seq::empty());
    crate::paths::lemma_split_gives_segments(output_dir, Seq::empty());
    assert(is_segment(segs.last()));
    lemma_hashed_name_is_segment(segs.last(), hash);
    lemma_hashed_name_is_recognised(segs.last(), hash);
    assert(is_segment("static"@)) by {
        reveal_strlit("static");
    }
    assert(all_segments(place.segments)) by {
        let root = crate::paths::segments(output_dir);
        assert forall|i: int| 0 <= i < place.segments.len() implies is_segment(
            #[trigger] place.segments[i],
        ) by {
            if i < root.len() {
                assert(place.segments[i] == root[i]);
            } else if i == root.len() {
            } else if i < place.segments.len() - 1 {
                assert(place.segments[i] == segs[i - root.len() - 1]);
            } else {
                assert(place.segments[i] == new_name);
            }
        }
    }
    crate::paths::lemma_path_round_trip(place);
    assert(place.segments.last() == new_name);
}

/// Hashing leaves no orphans: every copy that a plan makes is found as a
/// hashed copy by the clean-up of the next build.
pub proof fn lemma_plan_leaves_no_orphans(
    static_dir: Seq<char>,
    output_dir: Seq<char>,
    files: Seq<StaticFile>,
)
    requires
        forall|i: int| 0 <= i < files.len() ==> is_short_hash(short_hash(#[trigger] files[i].content@)),
    ensures
        forall|k: int|
            0 <= k < planned_copies(static_dir, output_dir, files).len() ==> names_hashed_copy(
                #[trigger] planned_copies(static_dir, output_dir, files)[k].destination,
            ),
    decreases files.len(),
{
    if files.len() > 0 {
        let head = files.drop_last();
        assert forall|i: int| 0 <= i < head.len() implies is_short_hash(
            short_hash(#[trigger] head[i].content@),
        ) by {
            assert(head[i] == files[i]);
        }
        lemma_plan_leaves_no_orphans(static_dir, output_dir, head);
        let last = files.last();
        assert(is_short_hash(short_hash(files[files.len() - 1].content@)));
        if hashed_copy_of(static_dir, output_dir, last.relative_path@, last.content@) is Some {
            lemma_copy_is_found_stale(static_dir, output_dir, last.relative_path@, last.content@);
        }
        let before = planned_copies(static_dir, output_dir, head);
        let all = planned_copies(static_dir, output_dir, files);
        assert forall|k: int| 0 <= k < all.len() implies names_hashed_copy(
            #[trigger] all[k].destination,
        ) by {
            if k < before.len() {
                assert(all[k] == before[k]);
            }
        }
    }
}

/// The hexadecimal digit for `d`, for `d` from 0 to 15.
pub open spec fn hex_digit(d: int) -> char {
    if d < 10 {
        ((48 + d) as u8) as char
    } else {
        ((87 + d) as u8) as char
    }
}

/// What stands for `c` inside a JSON string: quotes and backslashes are
/// escaped, backspace, form feed, line feed, carriage return and tab are
/// written `\b`, `\f`, `\n`, `\r` and `\t`, and other control characters
/// by their code as `\u00XX`.
pub open spec fn json_char(c: char) -> Seq<char> {
    if c == '"' {
        seq!['\\', '"']
    } else if c == '\\' {
        seq!['\\', '\\']
    } else if (c as u32) == 0x08 {
        seq!['\\', 'b']
    } else if (c as u32) == 0x0C {
        seq!['\\', 'f']
    } else if c == '\n' {
        seq!['\\', 'n']
    } else if c == '\r' {
        seq!['\\', 'r']
    } else if c == '\t' {
        seq!['\\', 't']
    } else if (c as u32) < 0x20 {
        seq!['\\', 'u', '0', '0', hex_digit((c as u32) as int / 16), hex_digit((c as u32) as int % 16)]
    } else {
        seq![c]
    }
}

/// The characters of `s` as they stand inside a JSON string.
pub open spec fn json_chars(s: Seq<char>) -> Seq<char>
    decreases s.len(),
{
    if s.len() == 0 {
        Seq::empty()
    } else {
        json_chars(s.drop_last()) + json_char(s.last())
    }
}

/// `s` as a JSON string, with its quotes.
pub open spec fn json_string(s: Seq<char>) -> Seq<char> {
    seq!['"'] + json_chars(s) + seq!['"']
}

/// One member of the JSON object: the path and the URL of an entry.
pub open spec fn json_member(entry: EntryView) -> Seq<char> {
    seq![' ', ' '] + json_string(entry.path) + seq![':', ' '] + json_string(entry.url)
}

/// The members for `entries`, one to a line, with commas between them.
pub open spec fn json_members(entries: Seq<EntryView>) -> Seq<char>
    decreases entries.len(),
{
    if entries.len() == 0 {
        Seq::empty()
    } else if entries.len() == 1 {
        json_member(entries[0])
    } else {
        json_members(entries.drop_last()) + seq![',', '\n'] + json_member(entries.last())
    }
}

/// `entries` in the order of their paths, as a dictionary has them.
pub open spec fn sorted_entries(entries: Seq<EntryView>) -> Seq<EntryView> {
    rising_order(view_keys(entries)).map_values(|k: int| entries[k])
}

/// A JSON object with one member for each of `entries`, in their order.
pub open spec fn json_object(entries: Seq<EntryView>) -> Seq<char> {
    if entries.len() == 0 {
        seq!['{', '}']
    } else {
        seq!['{', '\n'] + json_members(entries) + seq!['\n', '}']
    }
}

/// The manifest as a JSON object with one member for each entry, in the
/// order of the paths.
pub open spec fn manifest_json(entries: Seq<ManifestEntry>) -> Seq<char> {
    json_object(sorted_entries(entry_views(entries)))
}

fn hex_char(d: u8) -> (c: char)
    requires
        d < 16,
    ensures
        c == hex_digit(d as int),
{
    if d < 10 {
        (48u8 + d) as char
    } else {
        (87u8 + d) as char
    }
}

fn push_json_string(out: &mut Vec<char>, s: &str)
    ensures
        final(out)@ == old(out)@ + json_string(s@),
{
    let ghost before = out@;
    let chars = chars_of(s);
    out.push('"');
    let ghost opened = out@;
    let mut i: usize = 0;
    assert(out@ =~= opened + json_chars(chars@.take(0)));
    while i < chars.len()
        invariant
            i <= chars.len(),
            out@ == opened + json_chars(chars@.take(i as int)),
        decreases chars.len() - i,
    {
        let ghost upto = chars@.take(i + 1);
        assert(upto.drop_last() == chars@.take(i as int));
        assert(upto.last() == chars[i as int]);
        let ghost so_far = out@;
        let c = chars[i];
        if c == '"' {
            out.push('\\');
            out.push('"');
        } else if c == '\\' {
            out.push('\\');
            out.push('\\');
        } else if (c as u32) == 0x08 {
            out.push('\\');
            out.push('b');
        } else if (c as u32) == 0x0C {
            out.push('\\');
            out.push('f');
        } else if c == '\n' {
            out.push('\\');
            out.push('n');
        } else if c == '\r' {
            out.push('\\');
            out.push('r');
        } else if c == '\t' {
            out.push('\\');
            out.push('t');
        } else if (c as u32) < 0x20 {
            let code = c as u32;
            out.push('\\');
            out.push('u');
            out.push('0');
            out.push('0');
            out.push(hex_char((code / 16) as u8));
            out.push(hex_char((code % 16) as u8));
        } else {
            out.push(c);
        }
        assert(out@ =~= so_far + json_char(c));
        assert(out@ =~= opened + (json_chars(upto.drop_last()) + json_char(c)));
        i += 1;
    }
    assert(chars@.take(i as int) == chars@);
    out.push('"');
    assert(out@ =~= before + json_string(s@));
}

/// The manifest as JSON: a flat object from each asset's path to the URL of
/// its hashed copy, with the paths in the order of a dictionary.
pub fn export_manifest_to_json(manifest: &AssetManifest) -> (r: String)
    ensures
        r@ == manifest_json(manifest.entries@),
{
    let mut out: Vec<char> = Vec::new();
    out.push('{');
    let n = manifest.entries.len();
    let ghost shown = entry_views(manifest.entries@);
    let ghost sorted = sorted_entries(shown);
    if n == 0 {
        out.push('}');
        assert(out@ =~= manifest_json(manifest.entries@));
        return string_of(out.as_slice());
    }
    let mut keys: Vec<Vec<char>> = Vec::new();
    let mut j: usize = 0;
    while j < n
        invariant
            j <= n,
            n == manifest.entries.len(),
            shown == entry_views(manifest.entries@),
            crate::paths::views(keys@) == view_keys(shown).take(j as int),
        decreases n - j,
    {
        let key = chars_of(manifest.entries[j].path.as_str());
        let ghost before = crate::paths::views(keys@);
        keys.push(key);
        assert(crate::paths::views(keys@) =~= before.push(key@));
        assert(crate::paths::views(keys@) =~= view_keys(shown).take(j + 1));
        j += 1;
    }
    assert(view_keys(shown).take(j as int) == view_keys(shown));
    let order = order_rising(&keys);
    out.push('\n');
    let ghost opened = out@;
    let mut i: usize = 0;
    assert(out@ =~= opened + json_members(sorted.take(0)));
    while i < n
        invariant
            i <= n,
            n == manifest.entries.len(),
            n == order.len(),
            opened == seq!['{', '\n'],
            shown == entry_views(manifest.entries@),
            sorted == sorted_entries(shown),
            as_ints(order@) == rising_order(view_keys(shown)),
            is_rising_order(view_keys(shown), as_ints(order@)),
            out@ == opened + json_members(sorted.take(i as int)),
        decreases n - i,
    {
        let ghost upto = sorted.take(i + 1);
        assert(upto.drop_last() == sorted.take(i as int));
        assert(as_ints(order@)[i as int] == order[i as int]);
        let k = order[i];
        assert(0 <= k < n);
        assert(upto.last() == manifest.entries[k as int]@);
        let ghost so_far = out@;
        if i > 0 {
            out.push(',');
            out.push('\n');
        }
        out.push(' ');
        out.push(' ');
        push_json_string(&mut out, manifest.entries[k].path.as_str());
        out.push(':');
        out.push(' ');
        push_json_string(&mut out, manifest.entries[k].url.as_str());
        proof {
            let member = json_member(manifest.entries[k as int]@);
            if i == 0 {
                assert(upto[0] == upto.last());
                assert(out@ =~= so_far + member);
                assert(json_members(upto.drop_last()) =~= Seq::<char>::empty());
                assert(out@ =~= opened + json_members(upto));
            } else {
                assert(out@ =~= so_far + (seq![',', '\n'] + member));
                assert(out@ =~= opened + (json_members(upto.drop_last()) + seq![',', '\n']
                    + member));
            }
        }
        i += 1;
    }
    assert(sorted.take(i as int) == sorted);
    out.push('\n');
    out.push('}');
    assert(out@ =~= manifest_json(manifest.entries@));
    string_of(out.as_slice())
}

} // verus!
