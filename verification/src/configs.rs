//! Saving and loading configurations: the file name for a configuration's
//! name, the browser-storage key for it, and the sorted list of what is saved.
//!
//! Reading and writing files or browser storage, and the JSON format, stay
//! with the caller; this module decides names, keys and the listing.

use vstd::prelude::*;
use crate::text::{
    alphanumeric, ascii_alphanumeric, is_alphanumeric, lemma_seq_le_trans, lemma_seq_lt_asym, lemma_seq_lt_total,
    lowercase, push_char, seq_le, seq_lt, str_lt, to_lowercase, trim, trimmed,
};

verus! {

/// Punctuation that may stay in a file name.
pub open spec fn kept_punct(c: char) -> bool {
    c == ' ' || c == '-' || c == '_' || c == '(' || c == ')' || c == '.' || c == ','
}

/// A character that may stay in a file name: a letter or digit (among the
/// ASCII characters exactly `A`-`Z`, `a`-`z` and `0`-`9`, which is what
/// `char::is_alphanumeric` gives there) or a little punctuation.
pub open spec fn file_safe(c: char) -> bool {
    if (c as int) < 0x80 {
        ascii_alphanumeric(c) || kept_punct(c)
    } else {
        alphanumeric(c) || kept_punct(c)
    }
}

/// A character of a file name: letters, digits and a little punctuation stay,
/// everything else becomes '_'.
pub open spec fn file_char(c: char) -> char {
    if file_safe(c) {
        c
    } else {
        '_'
    }
}

/// The file name for a configuration name: the trimmed name with unsafe
/// characters replaced, "untitled" if nothing is left, and ".json" appended.
pub open spec fn spec_file_name(name: Seq<char>) -> Seq<char> {
    let clean = trimmed(name).map_values(|c: char| file_char(c));
    (if clean.len() == 0 {
        "untitled"@
    } else {
        clean
    }) + ".json"@
}

fn is_kept_punct(c: char) -> (b: bool)
    ensures
        b == kept_punct(c),
{
    c == ' ' || c == '-' || c == '_' || c == '(' || c == ')' || c == '.' || c == ','
}

/// File name for a configuration name (also used for downloads).
pub fn file_name(name: &str) -> (f: String)
    ensures
        f@ == spec_file_name(name@),
{
    let t = trim(name);
    let ghost tv = t@;
    let ts = t.as_str();
    let n = ts.unicode_len();
    let mut clean = String::new();
    let mut k: usize = 0;
    while k < n
        invariant
            n == tv.len(),
            tv == ts@,
            k <= n,
            clean@ == tv.subrange(0, k as int).map_values(|c: char| file_char(c)),
        decreases n - k,
    {
        let c = ts.get_char(k);
        let keep = is_alphanumeric(c) || is_kept_punct(c);
        push_char(&mut clean, if keep { c } else { '_' });
        assert(tv.subrange(0, k + 1) =~= tv.subrange(0, k as int).push(c));
        assert(clean@ =~= tv.subrange(0, k + 1).map_values(|c: char| file_char(c)));
        k = k + 1;
    }
    assert(tv.subrange(0, n as int) =~= tv);
    let mut f = if n == 0 {
        String::from_str("untitled")
    } else {
        clean
    };
    f.append(".json");
    f
}

/// The beginning of every browser-storage key that holds a configuration.
pub open spec fn key_prefix() -> Seq<char> {
    "optics_bench/config/"@
}

/// The browser-storage key of a configuration name: the prefix and the trimmed name.
pub open spec fn spec_key_for(name: Seq<char>) -> Seq<char> {
    key_prefix() + trimmed(name)
}

/// `key` begins with the configuration prefix.
pub open spec fn has_key_prefix(key: Seq<char>) -> bool {
    key.len() >= key_prefix().len() && key.subrange(0, key_prefix().len() as int) == key_prefix()
}

/// The configuration name in a key that begins with the prefix.
pub open spec fn key_rest(key: Seq<char>) -> Seq<char> {
    key.subrange(key_prefix().len() as int, key.len() as int)
}

/// The browser-storage key under which configuration `name` is kept.
pub fn key_for(name: &str) -> (k: String)
    ensures
        k@ == spec_key_for(name@),
{
    let mut k = String::from_str("optics_bench/config/");
    let t = trim(name);
    k.append(t.as_str());
    k
}

/// The configuration name that a browser-storage key holds: the key without
/// the prefix, or `None` for a key that belongs to something else.
pub fn strip_key_prefix(key: &str) -> (r: Option<String>)
    ensures
        match r {
            Some(name) => has_key_prefix(key@) && name@ == key_rest(key@),
            None => !has_key_prefix(key@),
        },
{
    let prefix = "optics_bench/config/";
    let pn = prefix.unicode_len();
    let kn = key.unicode_len();
    proof {
        assert(prefix@ == key_prefix());
    }
    if kn < pn {
        return None;
    }
    let mut i: usize = 0;
    while i < pn
        invariant
            pn == key_prefix().len(),
            prefix@ == key_prefix(),
            kn == key@.len(),
            pn <= kn,
            i <= pn,
            forall|m: int| 0 <= m < i ==> #[trigger] key@[m] == key_prefix()[m],
        decreases pn - i,
    {
        if key.get_char(i) != prefix.get_char(i) {
            return None;
        }
        i = i + 1;
    }
    assert(key@.subrange(0, pn as int) =~= key_prefix());
    Some(String::from_str(key.substring_char(pn, kn)))
}

/// The name shown for a browser-storage key: the key without the prefix, or
/// the whole key if it lacks the prefix.
pub fn name_of_key(key: &str) -> (name: String)
    ensures
        name@ == if has_key_prefix(key@) {
            key_rest(key@)
        } else {
            key@
        },
{
    match strip_key_prefix(key) {
        Some(n) => n,
        None => String::from_str(key),
    }
}

/// Where the browser keeps configurations (shown in the configurations window).
pub fn location() -> (s: String)
    ensures
        s@ == "Saved in this browser only. Use Download to keep a copy or to share it."@,
{
    String::from_str("Saved in this browser only. Use Download to keep a copy or to share it.")
}

/// Where a configuration was saved in the browser (shown after saving).
pub fn saved_where(key: &str) -> (s: String)
    ensures
        s@ == "in this browser"@,
{
    String::from_str("in this browser")
}

/// A saved configuration: its name and where it lives (the file on the
/// desktop, the storage key in the browser).
pub struct Entry<K> {
    pub name: String,
    pub key: K,
}

/// Position `i` is listed before position `j` when its sort key comes first,
/// or when the keys are equal and `i` came first (the sort is stable).
pub open spec fn listed_before(key: spec_fn(int) -> Seq<char>, i: int, j: int) -> bool {
    seq_lt(key(i), key(j)) || (key(i) == key(j) && i < j)
}

/// `perm` picks positions below `n` in listing order by `key`.
pub open spec fn sorted_by(key: spec_fn(int) -> Seq<char>, perm: Seq<int>, n: int) -> bool {
    &&& forall|k: int| 0 <= k < perm.len() ==> 0 <= #[trigger] perm[k] < n
    &&& forall|k: int, l: int|
        0 <= k < l < perm.len() ==> listed_before(key, #[trigger] perm[k], #[trigger] perm[l])
}

/// Some position of `perm` holds `j`.
pub open spec fn picks(perm: Seq<int>, j: int) -> bool {
    exists|k: int| 0 <= k < perm.len() && #[trigger] perm[k] == j
}

/// The sort key of an entry: its name in lowercase.
pub open spec fn name_key<K>(items: Seq<Entry<K>>) -> spec_fn(int) -> Seq<char> {
    |i: int| lowercase(items[i].name@)
}

proof fn lemma_before_le(key: spec_fn(int) -> Seq<char>, i: int, j: int)
    requires
        listed_before(key, i, j),
    ensures
        seq_le(key(i), key(j)),
{
    lemma_seq_lt_asym(key(i), key(j));
}

/// Sorts entries by lowercase name, keeping the order of equal names; also
/// returns where each entry of the result came from.
fn sort_by_name<K>(items: Vec<Entry<K>>) -> (r: (Vec<Entry<K>>, Ghost<Seq<int>>))
    ensures
        r.0@.len() == items@.len(),
        r.1@.len() == items@.len(),
        sorted_by(name_key(items@), r.1@, items@.len() as int),
        forall|k: int| 0 <= k < r.0@.len() ==> #[trigger] r.0@[k] == items@[r.1@[k]],
        forall|j: int| 0 <= j < items@.len() ==> #[trigger] picks(r.1@, j),
{
    let ghost orig = items@;
    let ghost key = name_key(orig);
    let n = items.len();
    let mut rest = items;
    let mut out: Vec<Entry<K>> = Vec::new();
    let mut out_keys: Vec<String> = Vec::new();
    let ghost mut perm: Seq<int> = Seq::empty();
    let mut i: usize = 0;
    while i < n
        invariant
            n == orig.len(),
            key == name_key(orig),
            i <= n,
            rest@ == orig.subrange(i as int, n as int),
            out@.len() == i,
            out_keys@.len() == i,
            perm.len() == i,
            sorted_by(key, perm, i as int),
            forall|k: int| 0 <= k < i ==> #[trigger] out@[k] == orig[perm[k]],
            forall|k: int| 0 <= k < i ==> #[trigger] out_keys@[k]@ == key(perm[k]),
            forall|j: int| 0 <= j < i ==> #[trigger] picks(perm, j),
        decreases n - i,
    {
        let e = rest.remove(0);
        assert(e == orig[i as int]);
        let ek = to_lowercase(e.name.as_str());
        assert(ek@ == key(i as int));
        let mut p = i;
        while p > 0 && str_lt(ek.as_str(), out_keys[p - 1].as_str())
            invariant
                p <= i,
                out_keys@.len() == i,
                ek@ == key(i as int),
                forall|q: int| p <= q < i ==> seq_lt(ek@, #[trigger] out_keys@[q]@),
            decreases p,
        {
            p = p - 1;
        }
        proof {
            assert forall|q: int| 0 <= q < p implies listed_before(key, #[trigger] perm[q], i as int) by {
                assert(seq_le(out_keys@[p - 1]@, ek@));
                if q < p - 1 {
                    lemma_before_le(key, perm[q], perm[p - 1]);
                    lemma_seq_le_trans(key(perm[q]), key(perm[p - 1]), key(i as int));
                }
                lemma_seq_lt_total(key(perm[q]), key(i as int));
            }
            assert forall|q: int| p <= q < i implies listed_before(key, i as int, #[trigger] perm[q]) by {
                assert(seq_lt(ek@, out_keys@[q]@));
            }
        }
        let ghost old_perm = perm;
        let ghost old_out = out@;
        let ghost old_keys = out_keys@;
        out.insert(p, e);
        out_keys.insert(p, ek);
        proof {
            perm = perm.insert(p as int, i as int);
            assert forall|k: int, l: int| 0 <= k < l < perm.len() implies listed_before(
                key,
                #[trigger] perm[k],
                #[trigger] perm[l],
            ) by {
                if k < p && l < p {
                    assert(perm[k] == old_perm[k] && perm[l] == old_perm[l]);
                } else if k < p && l == p {
                    assert(perm[k] == old_perm[k]);
                } else if k < p && l > p {
                    assert(perm[k] == old_perm[k] && perm[l] == old_perm[l - 1]);
                } else if k == p {
                    assert(perm[l] == old_perm[l - 1]);
                } else {
                    assert(perm[k] == old_perm[k - 1] && perm[l] == old_perm[l - 1]);
                }
            }
            assert forall|k: int| 0 <= k < perm.len() implies 0 <= #[trigger] perm[k] < i + 1 by {
                if k < p {
                    assert(perm[k] == old_perm[k]);
                } else if k > p {
                    assert(perm[k] == old_perm[k - 1]);
                }
            }
            assert forall|k: int| 0 <= k < i + 1 implies #[trigger] out@[k] == orig[perm[k]] by {
                if k < p {
                    assert(out@[k] == old_out[k]);
                } else if k > p {
                    assert(out@[k] == old_out[k - 1]);
                }
            }
            assert forall|k: int| 0 <= k < i + 1 implies #[trigger] out_keys@[k]@ == key(perm[k]) by {
                if k < p {
                    assert(out_keys@[k] == old_keys[k]);
                } else if k > p {
                    assert(out_keys@[k] == old_keys[k - 1]);
                }
            }
            assert(rest@ =~= orig.subrange(i + 1, n as int));
            assert(perm[p as int] == i);
            assert forall|j: int| 0 <= j < i + 1 implies #[trigger] picks(perm, j) by {
                if j < i {
                    assert(picks(old_perm, j));
                    let k0 = choose|k: int| 0 <= k < old_perm.len() && #[trigger] old_perm[k] == j;
                    if k0 < p {
                        assert(perm[k0] == j);
                    } else {
                        assert(perm[k0 + 1] == j);
                    }
                } else {
                    assert(perm[p as int] == j);
                }
            }
        }
        i = i + 1;
    }
    (out, Ghost(perm))
}

/// The sort key of the item at position `i`.
pub open spec fn item_key<T>(items: Seq<T>, key: spec_fn(T) -> Seq<char>) -> spec_fn(int) -> Seq<
    char,
> {
    |i: int| key(items[i])
}

/// `entries` lists `items` in the order `perm` of their positions: exactly the
/// items that `member` admits appear, each once, as an entry that `fits` the
/// item, sorted by the `key` of the item (equal keys in the given order).
pub open spec fn listing<T, K>(
    items: Seq<T>,
    member: spec_fn(T) -> bool,
    fits: spec_fn(T, Entry<K>) -> bool,
    key: spec_fn(T) -> Seq<char>,
    entries: Seq<Entry<K>>,
    perm: Seq<int>,
) -> bool {
    &&& entries.len() == perm.len()
    &&& sorted_by(item_key(items, key), perm, items.len() as int)
    &&& forall|k: int|
        0 <= k < entries.len() ==> member(items[#[trigger] perm[k]]) && fits(items[perm[k]], entries[k])
    &&& forall|i: int| 0 <= i < items.len() && member(items[i]) ==> #[trigger] picks(perm, i)
}

/// Lists the items that `pick` turns into entries, sorted by lowercase name
/// (equal names in the given order). `pick` gives an entry exactly for the
/// items that `member` admits: one that `fits` the item, whose lowercase name
/// is the item's `key`.
fn select_sorted<T, K, F: Fn(T) -> Option<Entry<K>>>(
    items: Vec<T>,
    pick: F,
    Ghost(member): Ghost<spec_fn(T) -> bool>,
    Ghost(fits): Ghost<spec_fn(T, Entry<K>) -> bool>,
    Ghost(key): Ghost<spec_fn(T) -> Seq<char>>,
) -> (entries: Vec<Entry<K>>)
    requires
        forall|t: T| #[trigger] call_requires(pick, (t,)),
        forall|t: T, r: Option<Entry<K>>|
            #[trigger] call_ensures(pick, (t,), r) ==> match r {
                Some(e) => member(t) && fits(t, e) && lowercase(e.name@) == key(t),
                None => !member(t),
            },
    ensures
        exists|perm: Seq<int>| listing(items@, member, fits, key, entries@, perm),
{
    let ghost orig = items@;
    let n = items.len();
    let mut rest = items;
    let mut sel: Vec<Entry<K>> = Vec::new();
    let ghost mut src: Seq<int> = Seq::empty();
    let mut i: usize = 0;
    while i < n
        invariant
            n == orig.len(),
            i <= n,
            rest@ == orig.subrange(i as int, n as int),
            forall|t: T| #[trigger] call_requires(pick, (t,)),
            forall|t: T, r: Option<Entry<K>>|
                #[trigger] call_ensures(pick, (t,), r) ==> match r {
                    Some(e) => member(t) && fits(t, e) && lowercase(e.name@) == key(t),
                    None => !member(t),
                },
            sel@.len() == src.len(),
            forall|j: int| 0 <= j < src.len() ==> 0 <= #[trigger] src[j] < i,
            forall|j: int, l: int| 0 <= j < l < src.len() ==> #[trigger] src[j] < #[trigger] src[l],
            forall|j: int|
                0 <= j < src.len() ==> {
                    &&& member(orig[#[trigger] src[j]])
                    &&& fits(orig[src[j]], sel@[j])
                    &&& lowercase(sel@[j].name@) == key(orig[src[j]])
                },
            forall|m: int| 0 <= m < i && member(orig[m]) ==> #[trigger] picks(src, m),
        decreases n - i,
    {
        let item = rest.remove(0);
        assert(item == orig[i as int]);
        let ghost old_src = src;
        match pick(item) {
            Some(e) => {
                sel.push(e);
                proof {
                    src = src.push(i as int);
                    assert(src[src.len() - 1] == i);
                }
            },
            None => {},
        }
        proof {
            assert(rest@ =~= orig.subrange(i + 1, n as int));
            assert forall|m: int| 0 <= m < i + 1 && member(orig[m]) implies #[trigger] picks(src, m) by {
                if m < i {
                    assert(picks(old_src, m));
                    let k0 = choose|k: int| 0 <= k < old_src.len() && #[trigger] old_src[k] == m;
                    assert(src[k0] == m);
                } else {
                    assert(src[src.len() - 1] == m);
                }
            }
        }
        i = i + 1;
    }
    let ghost sel_view = sel@;
    let (entries, Ghost(p2)) = sort_by_name(sel);
    proof {
        let perm = Seq::new(p2.len(), |k: int| src[p2[k]]);
        let ikey = item_key(orig, key);
        assert forall|k: int, l: int| 0 <= k < l < perm.len() implies listed_before(
            ikey,
            #[trigger] perm[k],
            #[trigger] perm[l],
        ) by {
            assert(listed_before(name_key(sel_view), p2[k], p2[l]));
            assert(name_key(sel_view)(p2[k]) == ikey(perm[k]));
            assert(name_key(sel_view)(p2[l]) == ikey(perm[l]));
            if p2[k] < p2[l] {
                assert(src[p2[k]] < src[p2[l]]);
            }
        }
        assert forall|m: int| 0 <= m < orig.len() && member(orig[m]) implies #[trigger] picks(perm, m) by {
            assert(picks(src, m));
            let j = choose|j: int| 0 <= j < src.len() && #[trigger] src[j] == m;
            assert(picks(p2, j));
            let k = choose|k: int| 0 <= k < p2.len() && #[trigger] p2[k] == j;
            assert(perm[k] == m);
        }
        assert forall|k: int| 0 <= k < entries@.len() implies member(orig[#[trigger] perm[k]]) && fits(
            orig[perm[k]],
            entries@[k],
        ) by {
            assert(entries@[k] == sel_view[p2[k]]);
        }
        assert(listing(orig, member, fits, key, entries@, perm));
    }
    entries
}

/// A browser-storage key that holds a configuration: it has the prefix.
pub open spec fn browser_member() -> spec_fn(String) -> bool {
    |key: String| has_key_prefix(key@)
}

/// The entry of a browser-storage key: the key itself, under the name that
/// follows the prefix.
pub open spec fn browser_fits() -> spec_fn(String, Entry<String>) -> bool {
    |key: String, e: Entry<String>| e.key == key && e.name@ == key_rest(key@)
}

/// The sort key of a browser-storage key: the lowercase configuration name it
/// holds.
pub open spec fn browser_key() -> spec_fn(String) -> Seq<char> {
    |key: String| lowercase(key_rest(key@))
}

/// `entries` lists the configurations among the browser-storage `keys`, in the
/// order `perm` of their positions: every key with the prefix appears once,
/// under the name that follows the prefix, sorted by lowercase name (equal
/// names in storage order).
pub open spec fn browser_listing(keys: Seq<String>, entries: Seq<Entry<String>>, perm: Seq<int>) -> bool {
    listing(keys, browser_member(), browser_fits(), browser_key(), entries, perm)
}

/// The configurations saved in the browser, given all keys of its storage in
/// storage order: those with the configuration prefix, sorted by name.
pub fn list(keys: Vec<String>) -> (entries: Vec<Entry<String>>)
    ensures
        exists|perm: Seq<int>| browser_listing(keys@, entries@, perm),
{
    let pick = |key: String| -> (r: Option<Entry<String>>)
        ensures
            match r {
                Some(e) => has_key_prefix(key@) && e.key == key && e.name@ == key_rest(key@),
                None => !has_key_prefix(key@),
            },
        {
            match strip_key_prefix(key.as_str()) {
                Some(name) => Some(Entry { name, key }),
                None => None,
            }
        };
    let ghost orig = keys@;
    let entries = select_sorted(
        keys,
        pick,
        Ghost(browser_member()),
        Ghost(browser_fits()),
        Ghost(browser_key()),
    );
    proof {
        let perm = choose|perm: Seq<int>|
            listing(orig, browser_member(), browser_fits(), browser_key(), entries@, perm);
        assert(browser_listing(orig, entries@, perm));
    }
    entries
}

/// A file name with the extension "json" (something before ".json").
pub open spec fn is_json_file(f: Seq<char>) -> bool {
    f.len() > 5 && f.subrange(f.len() - 5, f.len() as int) == ".json"@
}

/// The file name without its extension ".json".
pub open spec fn json_stem(f: Seq<char>) -> Seq<char> {
    f.subrange(0, f.len() - 5)
}

/// The configuration name in a file name with the extension "json".
pub fn json_file_stem(file: &str) -> (r: Option<String>)
    ensures
        match r {
            Some(stem) => is_json_file(file@) && stem@ == json_stem(file@),
            None => !is_json_file(file@),
        },
{
    let ext = ".json";
    proof {
        reveal_strlit(".json");
    }
    let en = ext.unicode_len();
    let n = file.unicode_len();
    if n <= en {
        return None;
    }
    let start = n - en;
    let mut i: usize = 0;
    while i < en
        invariant
            en == ext@.len(),
            ext@ == ".json"@,
            n == file@.len(),
            start == n - en,
            i <= en,
            forall|m: int| 0 <= m < i ==> #[trigger] file@[start + m] == ext@[m],
        decreases en - i,
    {
        if file.get_char(start + i) != ext.get_char(i) {
            assert(file@.subrange(start as int, n as int)[i as int] != ext@[i as int]);
            return None;
        }
        i = i + 1;
    }
    assert forall|m: int| 0 <= m < en implies #[trigger] file@.subrange(start as int, n as int)[m]
        == ext@[m] by {
        assert(file@[start + m] == ext@[m]);
    }
    assert(file@.subrange(start as int, n as int) =~= ext@);
    Some(String::from_str(file.substring_char(0, start)))
}

/// A folder entry that holds a configuration: its file name has the extension
/// "json".
pub open spec fn file_member<K>() -> spec_fn((String, K)) -> bool {
    |f: (String, K)| is_json_file(f.0@)
}

/// The entry of a configuration file: its key, under its file name without
/// the extension.
pub open spec fn file_fits<K>() -> spec_fn((String, K), Entry<K>) -> bool {
    |f: (String, K), e: Entry<K>| e.key == f.1 && e.name@ == json_stem(f.0@)
}

/// The sort key of a configuration file: its stem in lowercase.
pub open spec fn file_key<K>() -> spec_fn((String, K)) -> Seq<char> {
    |f: (String, K)| lowercase(json_stem(f.0@))
}

/// `entries` lists the configuration files among `files` (file name, key), in
/// the order `perm` of their positions: every ".json" file appears once, under
/// its name without the extension, sorted by lowercase name (equal names in
/// the given order).
pub open spec fn file_listing<K>(files: Seq<(String, K)>, entries: Seq<Entry<K>>, perm: Seq<int>) -> bool {
    listing(files, file_member(), file_fits(), file_key(), entries, perm)
}

/// The configurations in a folder, given its entries as (file name, key) in
/// the order they were read: the ".json" files, named without the extension
/// and sorted by name.
pub fn entries_from_files<K>(files: Vec<(String, K)>) -> (entries: Vec<Entry<K>>)
    ensures
        exists|perm: Seq<int>| file_listing(files@, entries@, perm),
{
    let pick = |f: (String, K)| -> (r: Option<Entry<K>>)
        ensures
            match r {
                Some(e) => is_json_file(f.0@) && e.key == f.1 && e.name@ == json_stem(f.0@),
                None => !is_json_file(f.0@),
            },
        {
            let (file, key) = f;
            match json_file_stem(file.as_str()) {
                Some(name) => Some(Entry { name, key }),
                None => None,
            }
        };
    let ghost orig = files@;
    let entries = select_sorted(files, pick, Ghost(file_member()), Ghost(file_fits()), Ghost(file_key()));
    proof {
        let perm = choose|perm: Seq<int>|
            listing(orig, file_member(), file_fits(), file_key(), entries@, perm);
        assert(file_listing(orig, entries@, perm));
    }
    entries
}

/// Law: every configuration that is saved as a file is listed: its file name
/// always has the extension "json", and the listed name is the cleaned
/// configuration name (or "untitled").
pub proof fn lemma_saved_file_is_listed(name: Seq<char>)
    ensures
        is_json_file(spec_file_name(name)),
        json_stem(spec_file_name(name)) == ({
            let clean = trimmed(name).map_values(|c: char| file_char(c));
            if clean.len() == 0 {
                "untitled"@
            } else {
                clean
            }
        }),
{
    reveal_strlit(".json");
    reveal_strlit("untitled");
    let clean = trimmed(name).map_values(|c: char| file_char(c));
    let base = if clean.len() == 0 {
        "untitled"@
    } else {
        clean
    };
    let f = spec_file_name(name);
    assert(f == base + ".json"@);
    assert(f.subrange(f.len() - 5, f.len() as int) =~= ".json"@);
    assert(f.subrange(0, f.len() - 5) =~= base);
}

/// Law: a name that is already clean (no surrounding whitespace, only
/// letters, digits and the kept punctuation, not empty) is listed exactly as
/// it was saved.
pub proof fn lemma_clean_name_round_trip(name: Seq<char>)
    requires
        name.len() > 0,
        trimmed(name) == name,
        forall|i: int| 0 <= i < name.len() ==> #[trigger] file_safe(name[i]),
    ensures
        json_stem(spec_file_name(name)) == name,
{
    lemma_saved_file_is_listed(name);
    assert(name.map_values(|c: char| file_char(c)) =~= name);
}

/// Law: the characters that stay in a file name. An ASCII character stays
/// exactly when it is a letter, a digit or one of ' ', '-', '_', '(', ')',
/// '.', ','; another character stays exactly when it is alphanumeric; every
/// other character becomes '_'.
pub proof fn lemma_file_chars(c: char)
    ensures
        (c as int) < 0x80 ==> (file_char(c) == c <==> (0x30 <= c as int <= 0x39 || 0x41 <= c as int
            <= 0x5A || 0x61 <= c as int <= 0x7A || c == ' ' || c == '-' || c == '_' || c == '('
            || c == ')' || c == '.' || c == ',')),
        (c as int) >= 0x80 ==> (file_char(c) == c <==> alphanumeric(c)),
        file_char(c) == c || file_char(c) == '_',
{
}

/// Law: a file name never leaves its folder or names a drive: it holds no
/// '/', no '\\' and no ':'; every character before ".json" is one that may
/// stay in a file name, or '_'.
pub proof fn lemma_file_name_is_safe(name: Seq<char>)
    ensures
        forall|i: int|
            0 <= i < json_stem(spec_file_name(name)).len() ==> ({
                let c = #[trigger] json_stem(spec_file_name(name))[i];
                file_safe(c) || c == '_'
            }),
        forall|i: int|
            0 <= i < spec_file_name(name).len() ==> ({
                let c = #[trigger] spec_file_name(name)[i];
                c != '/' && c != '\\' && c != ':'
            }),
{
    lemma_saved_file_is_listed(name);
    reveal_strlit(".json");
    reveal_strlit("untitled");
    let f = spec_file_name(name);
    let stem = json_stem(f);
    let clean = trimmed(name).map_values(|c: char| file_char(c));
    assert forall|i: int| 0 <= i < stem.len() implies ({
        let c = #[trigger] stem[i];
        file_safe(c) || c == '_'
    }) by {
        if clean.len() > 0 {
            assert(stem[i] == clean[i]);
        }
    }
    assert forall|i: int| 0 <= i < f.len() implies ({
        let c = #[trigger] f[i];
        c != '/' && c != '\\' && c != ':'
    }) by {
        if i < stem.len() {
            assert(f[i] == stem[i]);
        } else {
            assert(f[i] == ".json"@[i - stem.len()]);
        }
    }
}

/// Law: a configuration saved in the browser under `name` is listed under the
/// trimmed name: its key carries the prefix and what follows is that name.
pub proof fn lemma_browser_key_round_trip(name: Seq<char>)
    ensures
        has_key_prefix(spec_key_for(name)),
        key_rest(spec_key_for(name)) == trimmed(name),
{
    let k = spec_key_for(name);
    assert(k.subrange(0, key_prefix().len() as int) =~= key_prefix());
    assert(k.subrange(key_prefix().len() as int, k.len() as int) =~= trimmed(name));
}

proof fn lemma_before_asym(key: spec_fn(int) -> Seq<char>, a: int, b: int)
    ensures
        !listed_before(key, a, a),
        listed_before(key, a, b) ==> !listed_before(key, b, a),
        a != b ==> listed_before(key, a, b) || listed_before(key, b, a),
{
    lemma_seq_lt_asym(key(a), key(b));
    lemma_seq_lt_asym(key(b), key(a));
    lemma_seq_lt_total(key(a), key(b));
}

/// Two orderings by `key` of the same positions are the same ordering.
pub proof fn lemma_sorted_unique(key: spec_fn(int) -> Seq<char>, p1: Seq<int>, p2: Seq<int>, n: int)
    requires
        sorted_by(key, p1, n),
        sorted_by(key, p2, n),
        forall|x: int| #![trigger picks(p1, x)] #![trigger picks(p2, x)] picks(p1, x) <==> picks(p2, x),
    ensures
        p1 == p2,
    decreases p1.len(),
{
    if p1.len() == 0 {
        if p2.len() > 0 {
            assert(picks(p2, p2[0]));
        }
        assert(p1 =~= p2);
    } else {
        assert(picks(p1, p1[0]));
        assert(p2.len() > 0);
        let m1 = p1[0];
        let m2 = p2[0];
        assert(picks(p2, m2));
        assert(picks(p2, m1));
        assert(picks(p1, m2));
        let j = choose|k: int| 0 <= k < p2.len() && #[trigger] p2[k] == m1;
        let i = choose|k: int| 0 <= k < p1.len() && #[trigger] p1[k] == m2;
        if m1 != m2 {
            assert(j > 0 && i > 0);
            assert(listed_before(key, p2[0], p2[j]));
            assert(listed_before(key, p1[0], p1[i]));
            lemma_before_asym(key, m1, m2);
            assert(false);
        }
        let q1 = p1.drop_first();
        let q2 = p2.drop_first();
        assert forall|x: int| #![trigger picks(q1, x)] #![trigger picks(q2, x)] picks(q1, x) <==> picks(q2, x) by {
            if picks(q1, x) {
                let k = choose|k: int| 0 <= k < q1.len() && #[trigger] q1[k] == x;
                assert(p1[k + 1] == x);
                assert(picks(p1, x));
                assert(x != m1) by {
                    lemma_before_asym(key, m1, m1);
                    assert(listed_before(key, p1[0], p1[k + 1]));
                }
                let k2 = choose|k: int| 0 <= k < p2.len() && #[trigger] p2[k] == x;
                assert(k2 > 0);
                assert(q2[k2 - 1] == x);
            }
            if picks(q2, x) {
                let k = choose|k: int| 0 <= k < q2.len() && #[trigger] q2[k] == x;
                assert(p2[k + 1] == x);
                assert(picks(p2, x));
                assert(x != m2) by {
                    lemma_before_asym(key, m2, m2);
                    assert(listed_before(key, p2[0], p2[k + 1]));
                }
                let k1 = choose|k: int| 0 <= k < p1.len() && #[trigger] p1[k] == x;
                assert(k1 > 0);
                assert(q1[k1 - 1] == x);
            }
        }
        assert forall|k: int, l: int| 0 <= k < l < q1.len() implies listed_before(
            key,
            #[trigger] q1[k],
            #[trigger] q1[l],
        ) by {
            assert(listed_before(key, p1[k + 1], p1[l + 1]));
        }
        assert forall|k: int, l: int| 0 <= k < l < q2.len() implies listed_before(
            key,
            #[trigger] q2[k],
            #[trigger] q2[l],
        ) by {
            assert(listed_before(key, p2[k + 1], p2[l + 1]));
        }
        assert(sorted_by(key, q1, n));
        assert(sorted_by(key, q2, n));
        lemma_sorted_unique(key, q1, q2, n);
        assert(m1 == m2);
        assert forall|k: int| 0 <= k < p1.len() implies #[trigger] p1[k] == p2[k] by {
            if k > 0 {
                assert(p1[k] == q1[k - 1]);
                assert(p2[k] == q2[k - 1]);
            }
        }
        assert(p1 =~= p2);
    }
}

/// Law: a listing is determined by its items when an item fits one entry
/// only: two listings of the same items hold the same keys under the same
/// names, in the same order.
pub proof fn lemma_listing_unique<T, K>(
    items: Seq<T>,
    member: spec_fn(T) -> bool,
    fits: spec_fn(T, Entry<K>) -> bool,
    key: spec_fn(T) -> Seq<char>,
    e1: Seq<Entry<K>>,
    p1: Seq<int>,
    e2: Seq<Entry<K>>,
    p2: Seq<int>,
)
    requires
        listing(items, member, fits, key, e1, p1),
        listing(items, member, fits, key, e2, p2),
        forall|t: T, a: Entry<K>, b: Entry<K>|
            #![trigger fits(t, a), fits(t, b)]
            fits(t, a) && fits(t, b) ==> a.key == b.key && a.name@ == b.name@,
    ensures
        e1.len() == e2.len(),
        forall|k: int| 0 <= k < e1.len() ==> (#[trigger] e1[k]).key == e2[k].key,
        forall|k: int| 0 <= k < e1.len() ==> (#[trigger] e1[k]).name@ == e2[k].name@,
{
    assert forall|x: int| #![trigger picks(p1, x)] #![trigger picks(p2, x)] picks(p1, x) <==> picks(p2, x) by {
        if picks(p1, x) {
            let k = choose|k: int| 0 <= k < p1.len() && #[trigger] p1[k] == x;
            assert(member(items[p1[k]]));
        }
        if picks(p2, x) {
            let k = choose|k: int| 0 <= k < p2.len() && #[trigger] p2[k] == x;
            assert(member(items[p2[k]]));
        }
    }
    lemma_sorted_unique(item_key(items, key), p1, p2, items.len() as int);
    assert forall|k: int| 0 <= k < e1.len() implies (#[trigger] e1[k]).key == e2[k].key && e1[k].name@
        == e2[k].name@ by {
        assert(p1[k] == p2[k]);
        assert(fits(items[p1[k]], e1[k]));
        assert(fits(items[p2[k]], e2[k]));
    }
}

/// Law: the browser listing is determined by the stored keys: two listings
/// of the same keys hold the same keys under the same names, in the same order.
pub proof fn lemma_browser_listing_unique(
    keys: Seq<String>,
    e1: Seq<Entry<String>>,
    p1: Seq<int>,
    e2: Seq<Entry<String>>,
    p2: Seq<int>,
)
    requires
        browser_listing(keys, e1, p1),
        browser_listing(keys, e2, p2),
    ensures
        e1.len() == e2.len(),
        forall|k: int| 0 <= k < e1.len() ==> (#[trigger] e1[k]).key == e2[k].key,
        forall|k: int| 0 <= k < e1.len() ==> (#[trigger] e1[k]).name@ == e2[k].name@,
{
    lemma_listing_unique(keys, browser_member(), browser_fits(), browser_key(), e1, p1, e2, p2);
}

/// Law: the folder listing is determined by the files: two listings of the
/// same files hold the same keys under the same names, in the same order.
pub proof fn lemma_file_listing_unique<K>(
    files: Seq<(String, K)>,
    e1: Seq<Entry<K>>,
    p1: Seq<int>,
    e2: Seq<Entry<K>>,
    p2: Seq<int>,
)
    requires
        file_listing(files, e1, p1),
        file_listing(files, e2, p2),
    ensures
        e1.len() == e2.len(),
        forall|k: int| 0 <= k < e1.len() ==> (#[trigger] e1[k]).key == e2[k].key,
        forall|k: int| 0 <= k < e1.len() ==> (#[trigger] e1[k]).name@ == e2[k].name@,
{
    lemma_listing_unique(files, file_member(), file_fits(), file_key(), e1, p1, e2, p2);
}

} // verus!
