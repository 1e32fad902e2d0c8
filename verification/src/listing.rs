//! Which entries of a folder a fence shows, and in what order: folders
//! first, then by name compared without regard to case.

use vstd::prelude::*;
use crate::selection::FolderItem;
use crate::text::{chars_of, lower_chars, lower_seq};

verus! {

/// At most this many entries of a folder are looked at.
pub const MAX_FOLDER_ITEMS: usize = 10_000;

/// Whether a name is `desktop.ini` in any ASCII letter case.
pub open spec fn is_desktop_ini(name: Seq<char>) -> bool {
    lower_seq(name) == "desktop.ini"@
}

/// Whether a folder entry is shown: never `desktop.ini`, and a hidden entry
/// (a leading dot, or the hidden attribute) only when hidden files are shown.
pub open spec fn entry_shown(name: Seq<char>, hidden_attribute: bool, show_hidden_files: bool) -> bool {
    &&& !is_desktop_ini(name)
    &&& show_hidden_files || !((name.len() > 0 && name[0] == '.') || hidden_attribute)
}

pub fn folder_entry_shown(name: &str, hidden_attribute: bool, show_hidden_files: bool) -> (r: bool)
    ensures
        r == entry_shown(name@, hidden_attribute, show_hidden_files),
{
    let chars = chars_of(name);
    let lower = lower_chars(&chars);
    let target = chars_of("desktop.ini");
    proof {
        reveal_strlit("desktop.ini");
    }
    let mut same = lower.len() == target.len();
    if same {
        for i in 0..lower.len()
            invariant
                lower@.len() == target@.len(),
                same == (forall|k: int| 0 <= k < i ==> lower@[k] == target@[k]),
        {
            if lower[i] != target[i] {
                same = false;
            }
        }
    }
    assert(same == (lower@ =~= target@));
    if same {
        return false;
    }
    let dotted = chars.len() > 0 && chars[0] == '.';
    show_hidden_files || !(dotted || hidden_attribute)
}

/// Whether `a[i..]` comes before `b[i..]` (by character code; a proper
/// prefix comes first), the order of `str`'s comparison.
pub open spec fn text_before_from(a: Seq<char>, b: Seq<char>, i: int) -> bool
    decreases a.len() - i,
{
    if i < 0 || i >= a.len() {
        0 <= i < b.len()
    } else if i >= b.len() {
        false
    } else if a[i] != b[i] {
        a[i] < b[i]
    } else {
        text_before_from(a, b, i + 1)
    }
}

pub open spec fn text_before(a: Seq<char>, b: Seq<char>) -> bool {
    text_before_from(a, b, 0)
}

proof fn lemma_text_irreflexive(a: Seq<char>, i: int)
    requires
        0 <= i,
    ensures
        !text_before_from(a, a, i),
    decreases a.len() - i,
{
    if i < a.len() {
        lemma_text_irreflexive(a, i + 1);
    }
}

proof fn lemma_text_total(a: Seq<char>, b: Seq<char>, i: int)
    requires
        0 <= i <= a.len(),
        i <= b.len(),
        forall|k: int| 0 <= k < i ==> a[k] == b[k],
        !text_before_from(a, b, i),
        !text_before_from(b, a, i),
    ensures
        a == b,
    decreases a.len() - i,
{
    if i < a.len() {
        assert(i < b.len());
        assert(a[i] == b[i]);
        assert forall|k: int| 0 <= k < i + 1 implies a[k] == b[k] by {
        }
        lemma_text_total(a, b, i + 1);
    } else {
        assert(a =~= b);
    }
}

proof fn lemma_text_transitive(a: Seq<char>, b: Seq<char>, c: Seq<char>, i: int)
    requires
        0 <= i,
        text_before_from(a, b, i),
        text_before_from(b, c, i),
    ensures
        text_before_from(a, c, i),
    decreases a.len() - i,
{
    if i < a.len() && i < b.len() && i < c.len() && a[i] == b[i] && b[i] == c[i] {
        lemma_text_transitive(a, b, c, i + 1);
    }
}

fn text_before_exec(a: &Vec<char>, b: &Vec<char>) -> (r: bool)
    ensures
        r == text_before(a@, b@),
{
    let mut i: usize = 0;
    while i < a.len() && i < b.len() && a[i] == b[i]
        invariant
            i <= a@.len(),
            i <= b@.len(),
            text_before(a@, b@) == text_before_from(a@, b@, i as int),
        decreases a@.len() - i,
    {
        i = i + 1;
    }
    if i >= a.len() {
        i < b.len()
    } else if i >= b.len() {
        false
    } else {
        a[i] < b[i]
    }
}

/// Stands for what `str::to_lowercase` returns: std's Unicode lower-case
/// mapping of the text, which depends on the text alone.
pub uninterp spec fn lowercase_of(text: Seq<char>) -> Seq<char>;

/// `str::to_lowercase`; the contract only names the result.
#[verifier::external_body]
pub(crate) fn lowercase(text: &str) -> (r: String)
    ensures
        r@ == lowercase_of(text@),
{
    text.to_lowercase()
}

/// Whether an entry (folder or not, with sort key `a_key`) sorts before
/// another: folders before files, then by key.
pub open spec fn key_before_by(a_dir: bool, a_key: Seq<char>, b_dir: bool, b_key: Seq<char>) -> bool {
    ||| a_dir && !b_dir
    ||| a_dir == b_dir && text_before(a_key, b_key)
}

/// Whether entry `a` sorts before entry `b`: folders before files, then by
/// lower-case name.
pub open spec fn key_before(a: FolderItem, b: FolderItem) -> bool {
    key_before_by(a.is_dir, lowercase_of(a.name@), b.is_dir, lowercase_of(b.name@))
}

/// The entries' lower-case names.
pub open spec fn lowered(items: Seq<FolderItem>) -> Seq<Seq<char>> {
    Seq::new(items.len(), |i: int| lowercase_of(items[i].name@))
}

/// Whether the entry at `a` is listed before the one at `b` when the entries
/// sort by `keys`: by folder-first and key, and entries that sort alike in
/// the order they came in.
pub open spec fn listed_before_by(items: Seq<FolderItem>, keys: Seq<Seq<char>>, a: int, b: int) -> bool {
    ||| key_before_by(items[a].is_dir, keys[a], items[b].is_dir, keys[b])
    ||| !key_before_by(items[b].is_dir, keys[b], items[a].is_dir, keys[a]) && a < b
}

/// `listed_before_by` with the lower-case names as keys.
pub open spec fn listed_before(items: Seq<FolderItem>, a: int, b: int) -> bool {
    listed_before_by(items, lowered(items), a, b)
}

/// `perm` lists every entry once, in listing order by `keys`.
pub open spec fn is_listing_order_by(items: Seq<FolderItem>, keys: Seq<Seq<char>>, perm: Seq<int>) -> bool {
    &&& perm.len() == items.len()
    &&& perm.no_duplicates()
    &&& forall|k: int| 0 <= k < perm.len() ==> 0 <= #[trigger] perm[k] < items.len()
    &&& forall|k1: int, k2: int|
        0 <= k1 < k2 < perm.len() ==> listed_before_by(items, keys, #[trigger] perm[k1], #[trigger] perm[k2])
}

/// `perm` lists every entry once, in listing order by lower-case name.
pub open spec fn is_listing_order(items: Seq<FolderItem>, perm: Seq<int>) -> bool {
    is_listing_order_by(items, lowered(items), perm)
}

pub open spec fn permuted(items: Seq<FolderItem>, perm: Seq<int>) -> Seq<FolderItem> {
    Seq::new(perm.len(), |k: int| items[perm[k]])
}

proof fn lemma_key_order(xd: bool, lx: Seq<char>, yd: bool, ly: Seq<char>, zd: bool, lz: Seq<char>)
    ensures
        !key_before_by(xd, lx, xd, lx),
        key_before_by(xd, lx, yd, ly) && key_before_by(yd, ly, zd, lz) ==> key_before_by(xd, lx, zd, lz),
        key_before_by(xd, lx, yd, ly) ==> !key_before_by(yd, ly, xd, lx),
        !key_before_by(xd, lx, yd, ly) && !key_before_by(yd, ly, xd, lx) ==> xd == yd && lx == ly,
{
    lemma_text_irreflexive(lx, 0);
    lemma_text_irreflexive(ly, 0);
    if text_before(lx, ly) && text_before(ly, lz) {
        lemma_text_transitive(lx, ly, lz, 0);
    }
    if text_before(lx, ly) && text_before(ly, lx) {
        lemma_text_transitive(lx, ly, lx, 0);
    }
    if !text_before(lx, ly) && !text_before(ly, lx) {
        lemma_text_total(lx, ly, 0);
    }
}

proof fn lemma_listed_transitive(items: Seq<FolderItem>, keys: Seq<Seq<char>>, a: int, b: int, c: int)
    requires
        listed_before_by(items, keys, a, b),
        listed_before_by(items, keys, b, c),
    ensures
        listed_before_by(items, keys, a, c),
{
    let (ad, bd, cd) = (items[a].is_dir, items[b].is_dir, items[c].is_dir);
    let (ak, bk, ck) = (keys[a], keys[b], keys[c]);
    lemma_key_order(ad, ak, bd, bk, cd, ck);
    lemma_key_order(bd, bk, cd, ck, ad, ak);
    lemma_key_order(cd, ck, ad, ak, bd, bk);
    lemma_key_order(ad, ak, cd, ck, bd, bk);
    lemma_key_order(bd, bk, ad, ak, cd, ck);
    lemma_key_order(cd, ck, bd, bk, ad, ak);
}

fn key_before_exec(a_dir: bool, a_key: &Vec<char>, b_dir: bool, b_key: &Vec<char>) -> (r: bool)
    ensures
        r == ((a_dir && !b_dir) || (a_dir == b_dir && text_before(a_key@, b_key@))),
{
    (a_dir && !b_dir) || (a_dir == b_dir && text_before_exec(a_key, b_key))
}

/// Moving the entry at `i` to `j` moves its index in `perm` the same way.
proof fn lemma_move_entry<A>(s: Seq<A>, f: spec_fn(int) -> A, perm: Seq<int>, i: int, j: int)
    requires
        0 <= j <= i < s.len(),
        perm.len() == s.len(),
        perm[i] == i,
        forall|k: int| 0 <= k < s.len() ==> #[trigger] s[k] == f(perm[k]),
    ensures
        forall|k: int|
            0 <= k < s.len() ==> #[trigger] s.remove(i).insert(j, s[i])[k] == f(perm.remove(i).insert(j, i)[k]),
{
    assert forall|k: int| 0 <= k < s.len() implies #[trigger] s.remove(i).insert(j, s[i])[k] == f(perm.remove(i).insert(j, i)[k]) by {
        if k < j {
            assert(s.remove(i).insert(j, s[i])[k] == s[k]);
            assert(perm.remove(i).insert(j, i)[k] == perm[k]);
        } else if k == j {
        } else if k <= i {
            assert(s.remove(i).insert(j, s[i])[k] == s[k - 1]);
            assert(perm.remove(i).insert(j, i)[k] == perm[k - 1]);
        } else {
            assert(s.remove(i).insert(j, s[i])[k] == s[k]);
            assert(perm.remove(i).insert(j, i)[k] == perm[k]);
        }
    }
}

/// The order facts the sort keeps: `perm` places each entry once, its tail
/// from `i` on is untouched, and its first `i` entries are in listing order.
pub open spec fn sorted_up_to(orig: Seq<FolderItem>, keys: Seq<Seq<char>>, perm: Seq<int>, i: int) -> bool {
    let n = orig.len();
    &&& perm.len() == n
    &&& perm.no_duplicates()
    &&& forall|k: int| 0 <= k < n ==> 0 <= #[trigger] perm[k] < n
    &&& forall|k: int| i <= k < n ==> #[trigger] perm[k] == k
    &&& forall|k1: int, k2: int|
        0 <= k1 < k2 < i ==> listed_before_by(orig, keys, #[trigger] perm[k1], #[trigger] perm[k2])
}

proof fn lemma_prefix_below(orig: Seq<FolderItem>, keys: Seq<Seq<char>>, perm: Seq<int>, i: int)
    requires
        sorted_up_to(orig, keys, perm, i),
        0 <= i < orig.len(),
    ensures
        forall|k: int| 0 <= k < i ==> #[trigger] perm[k] < i,
{
    assert forall|k: int| 0 <= k < i implies #[trigger] perm[k] < i by {
        if perm[k] >= i {
            assert(perm[perm[k]] == perm[k]);
        }
    }
}

proof fn lemma_insertion_step(orig: Seq<FolderItem>, keys: Seq<Seq<char>>, perm: Seq<int>, i: int, j: int)
    requires
        sorted_up_to(orig, keys, perm, i),
        0 <= j <= i < orig.len(),
        j > 0 ==> !key_before_by(orig[i].is_dir, keys[i], orig[perm[j - 1]].is_dir, keys[perm[j - 1]]),
        forall|k: int| j <= k < i ==> key_before_by(orig[i].is_dir, keys[i], (#[trigger] orig[perm[k]]).is_dir, keys[perm[k]]),
    ensures
        sorted_up_to(orig, keys, perm.remove(i).insert(j, i), i + 1),
{
    let n = orig.len();
    let new_perm = perm.remove(i).insert(j, i);
    lemma_prefix_below(orig, keys, perm, i);
    assert forall|k: int| 0 <= k < n implies 0 <= #[trigger] new_perm[k] < n by {
        if k > j && k <= i {
            assert(new_perm[k] == perm[k - 1]);
        } else if k != j {
            assert(new_perm[k] == perm[k]);
        }
    }
    assert(new_perm.no_duplicates()) by {
        assert forall|a: int, b: int| 0 <= a < b < n implies new_perm[a] != new_perm[b] by {
            let pa = if a < j { a } else if a <= i { a - 1 } else { a };
            let pb = if b < j { b } else if b <= i { b - 1 } else { b };
            if a == j {
                assert(new_perm[b] == perm[pb]);
                assert(pb != i);
            } else if b == j {
                assert(new_perm[a] == perm[pa]);
                assert(pa != i);
            } else {
                assert(new_perm[a] == perm[pa]);
                assert(new_perm[b] == perm[pb]);
            }
        }
    }
    assert forall|k: int| i + 1 <= k < n implies #[trigger] new_perm[k] == k by {
        assert(new_perm[k] == perm[k]);
    }
    assert forall|k1: int, k2: int| 0 <= k1 < k2 < i + 1 implies listed_before_by(orig, keys, #[trigger] new_perm[k1], #[trigger] new_perm[k2]) by {
        let p1 = if k1 < j { k1 } else { k1 - 1 };
        let p2 = if k2 < j { k2 } else { k2 - 1 };
        if k1 == j {
            assert(new_perm[k2] == perm[p2]);
            assert(key_before_by(orig[i].is_dir, keys[i], orig[perm[p2]].is_dir, keys[perm[p2]]));
        } else if k2 == j {
            assert(new_perm[k1] == perm[p1]);
            assert(perm[p1] < i);
            assert(perm[j - 1] < i);
            assert(listed_before_by(orig, keys, perm[j - 1], i));
            if p1 < j - 1 {
                assert(listed_before_by(orig, keys, perm[p1], perm[j - 1]));
                lemma_listed_transitive(orig, keys, perm[p1], perm[j - 1], i);
            }
        } else {
            assert(new_perm[k1] == perm[p1]);
            assert(new_perm[k2] == perm[p2]);
            assert(listed_before_by(orig, keys, perm[p1], perm[p2]));
        }
    }
}

pub open spec fn key_texts(keys: Seq<String>) -> Seq<Seq<char>> {
    keys.map_values(|k: String| k@)
}

/// Sorts the entries by the given sort keys, one for each entry in order
/// (the lower-case names that `str::to_lowercase` gave): folders first, then
/// by key; entries that sort alike keep their order.
pub fn sort_folder_items_by_keys(items: &mut Vec<FolderItem>, lower_names: Vec<String>)
    requires
        lower_names@.len() == old(items)@.len(),
    ensures
        exists|perm: Seq<int>|
            is_listing_order_by(old(items)@, key_texts(lower_names@), perm) && final(items)@ == permuted(
                old(items)@,
                perm,
            ),
{
    let ghost orig = items@;
    let ghost given = key_texts(lower_names@);
    let n = items.len();
    let mut keys: Vec<Vec<char>> = Vec::new();
    for k in 0..n
        invariant
            items@ == orig,
            n == orig.len(),
            lower_names@.len() == n,
            given == key_texts(lower_names@),
            keys@.len() == k,
            forall|q: int| 0 <= q < k ==> #[trigger] keys@[q]@ == given[q],
    {
        keys.push(chars_of(lower_names[k].as_str()));
    }
    let ghost mut perm: Seq<int> = Seq::new(n as nat, |k: int| k);
    let ghost key_of = |k: int| given[k];
    let ghost entry_of = |k: int| orig[k];
    assert(perm.no_duplicates());
    for i in 0..n
        invariant
            n == orig.len(),
            items@.len() == n,
            keys@.len() == n,
            key_of == (|k: int| given[k]),
            entry_of == (|k: int| orig[k]),
            forall|k: int| 0 <= k < n ==> #[trigger] items@[k] == entry_of(perm[k]),
            forall|k: int| 0 <= k < n ==> #[trigger] keys@[k]@ == key_of(perm[k]),
            sorted_up_to(orig, given, perm, i as int),
    {
        let ghost before = items@;
        let ghost key_views = keys@.map_values(|v: Vec<char>| v@);
        assert(perm[i as int] == i);
        let x = items.remove(i);
        let kx = keys.remove(i);
        let mut j: usize = i;
        while j > 0 && key_before_exec(x.is_dir, &kx, items[j - 1].is_dir, &keys[j - 1])
            invariant
                j <= i,
                i < n,
                n == orig.len(),
                before.len() == n,
                items@ == before.remove(i as int),
                keys@.len() == n - 1,
                x == orig[i as int],
                kx@ == given[i as int],
                forall|k: int| 0 <= k < n ==> #[trigger] before[k] == orig[perm[k]],
                forall|k: int| 0 <= k < i ==> #[trigger] keys@[k]@ == given[perm[k]],
                forall|k: int|
                    j <= k < i ==> key_before_by(orig[i as int].is_dir, given[i as int], (#[trigger] orig[perm[k]]).is_dir, given[perm[k]]),
            decreases j,
        {
            assert(items@[j - 1] == before[j - 1]);
            j = j - 1;
        }
        proof {
            if j > 0 {
                assert(items@[j - 1] == before[j - 1]);
            }
            lemma_insertion_step(orig, given, perm, i as int, j as int);
            lemma_move_entry(before, entry_of, perm, i as int, j as int);
            lemma_move_entry(key_views, key_of, perm, i as int, j as int);
        }
        items.insert(j, x);
        keys.insert(j, kx);
        proof {
            assert forall|k: int| 0 <= k < n implies #[trigger] keys@[k]@ == key_of(perm.remove(i as int).insert(j as int, i as int)[k]) by {
                assert(keys@[k]@ == key_views.remove(i as int).insert(j as int, key_views[i as int])[k]);
            }
            perm = perm.remove(i as int).insert(j as int, i as int);
        }
    }
    proof {
        assert(items@ =~= permuted(orig, perm));
        assert(is_listing_order_by(orig, given, perm));
    }
}

/// Sorts the entries for showing: folders first, then by name without
/// regard to case; entries that sort alike keep their order.
pub fn sort_folder_items(items: &mut Vec<FolderItem>)
    ensures
        exists|perm: Seq<int>|
            is_listing_order(old(items)@, perm) && final(items)@ == permuted(old(items)@, perm),
{
    let mut lower_names: Vec<String> = Vec::new();
    for k in 0..items.len()
        invariant
            lower_names@.len() == k,
            k <= items@.len(),
            forall|q: int| 0 <= q < k ==> #[trigger] lower_names@[q]@ == lowercase_of(items@[q].name@),
    {
        lower_names.push(lowercase(items[k].name.as_str()));
    }
    assert(key_texts(lower_names@) =~= lowered(items@));
    sort_folder_items_by_keys(items, lower_names);
}

/// The entries listed before entry `e`.
pub open spec fn listed_ahead_of(items: Seq<FolderItem>, keys: Seq<Seq<char>>, e: int) -> Set<int> {
    Set::new(|x: int| 0 <= x < items.len() && listed_before_by(items, keys, x, e))
}

proof fn lemma_listed_order_strict(items: Seq<FolderItem>, keys: Seq<Seq<char>>, a: int, b: int)
    ensures
        !listed_before_by(items, keys, a, a),
        !(listed_before_by(items, keys, a, b) && listed_before_by(items, keys, b, a)),
        a != b ==> listed_before_by(items, keys, a, b) || listed_before_by(items, keys, b, a),
{
    lemma_key_order(items[a].is_dir, keys[a], items[b].is_dir, keys[b], items[a].is_dir, keys[a]);
    lemma_key_order(items[b].is_dir, keys[b], items[a].is_dir, keys[a], items[b].is_dir, keys[b]);
}

/// A listing order holds every entry.
proof fn lemma_order_covers(items: Seq<FolderItem>, keys: Seq<Seq<char>>, perm: Seq<int>, x: int)
    requires
        is_listing_order_by(items, keys, perm),
        0 <= x < items.len(),
    ensures
        perm.contains(x),
{
    let n = items.len() as int;
    perm.unique_seq_to_set();
    if !perm.contains(x) {
        assert forall|y: int| perm.to_set().contains(y) implies vstd::set_lib::set_int_range(0, n).remove(x).contains(y) by {
            let k = choose|k: int| 0 <= k < perm.len() && perm[k] == y;
            assert(0 <= perm[k] < n);
        }
        vstd::set_lib::lemma_int_range(0, n);
        vstd::set_lib::lemma_len_subset(perm.to_set(), vstd::set_lib::set_int_range(0, n).remove(x));
    }
}

/// In a listing order, an entry stands after exactly the entries listed
/// before it.
proof fn lemma_position_is_rank(items: Seq<FolderItem>, keys: Seq<Seq<char>>, perm: Seq<int>, k: int)
    requires
        is_listing_order_by(items, keys, perm),
        0 <= k < perm.len(),
    ensures
        listed_ahead_of(items, keys, perm[k]).finite(),
        listed_ahead_of(items, keys, perm[k]).len() == k,
{
    let n = items.len() as int;
    let e = perm[k];
    let ahead = perm.subrange(0, k);
    assert(ahead.no_duplicates());
    ahead.unique_seq_to_set();
    assert forall|x: int| #[trigger] listed_ahead_of(items, keys, e).contains(x) == ahead.to_set().contains(x) by {
        if listed_ahead_of(items, keys, e).contains(x) {
            lemma_order_covers(items, keys, perm, x);
            let m = choose|m: int| 0 <= m < perm.len() && perm[m] == x;
            lemma_listed_order_strict(items, keys, x, e);
            if m >= k {
                if m > k {
                    assert(listed_before_by(items, keys, perm[k], perm[m]));
                }
                assert(false);
            }
            assert(ahead[m] == x);
        }
        if ahead.to_set().contains(x) {
            let m = choose|m: int| 0 <= m < ahead.len() && ahead[m] == x;
            assert(perm[m] == x);
            assert(listed_before_by(items, keys, perm[m], perm[k]));
        }
    }
    assert(listed_ahead_of(items, keys, e) =~= ahead.to_set());
}

/// There is only one listing order by a given list of keys: sorting
/// settles the order of every entry.
pub proof fn law_listing_order_by_keys_is_unique(
    items: Seq<FolderItem>,
    keys: Seq<Seq<char>>,
    p: Seq<int>,
    q: Seq<int>,
)
    requires
        is_listing_order_by(items, keys, p),
        is_listing_order_by(items, keys, q),
    ensures
        p == q,
{
    assert forall|k: int| 0 <= k < p.len() implies p[k] == q[k] by {
        lemma_position_is_rank(items, keys, p, k);
        lemma_position_is_rank(items, keys, q, k);
        if p[k] != q[k] {
            lemma_listed_order_strict(items, keys, p[k], q[k]);
            let (a, b) = if listed_before_by(items, keys, p[k], q[k]) { (p[k], q[k]) } else { (q[k], p[k]) };
            assert forall|x: int| listed_ahead_of(items, keys, a).contains(x) implies listed_ahead_of(items, keys, b).contains(x) by {
                lemma_listed_transitive(items, keys, x, a, b);
            }
            lemma_listed_order_strict(items, keys, a, a);
            assert(0 <= a < items.len());
            listed_ahead_of(items, keys, a).lemma_subset_not_in_lt(listed_ahead_of(items, keys, b), a);
        }
    }
    assert(p =~= q);
}

/// There is only one listing order: sorting settles the order of every
/// entry.
pub proof fn law_listing_order_is_unique(items: Seq<FolderItem>, p: Seq<int>, q: Seq<int>)
    requires
        is_listing_order(items, p),
        is_listing_order(items, q),
    ensures
        p == q,
{
    law_listing_order_by_keys_is_unique(items, lowered(items), p, q);
}

/// Whether text `a` comes before text `b` in the order of `str`: `a` is a
/// proper prefix of `b`, or at the first place where they differ `a` has
/// the smaller character.
pub open spec fn str_order_before(a: Seq<char>, b: Seq<char>) -> bool {
    ||| a.len() < b.len() && b.take(a.len() as int) =~= a
    ||| exists|k: int| 0 <= k < a.len() && k < b.len() && a.take(k) =~= b.take(k) && #[trigger] a[k] < #[trigger] b[k]
}

proof fn lemma_text_before_from_is_str_order(a: Seq<char>, b: Seq<char>, i: int)
    requires
        0 <= i <= a.len(),
        i <= b.len(),
        forall|k: int| 0 <= k < i ==> a[k] == b[k],
    ensures
        text_before_from(a, b, i) <==> str_order_before(a, b),
    decreases a.len() - i,
{
    if i == a.len() {
        if a.len() < b.len() {
            assert(b.take(a.len() as int) =~= a);
        }
        assert(!exists|k: int| 0 <= k < a.len() && k < b.len() && a.take(k) =~= b.take(k) && #[trigger] a[k] < #[trigger] b[k]);
    } else if i == b.len() {
        assert(!exists|k: int| 0 <= k < a.len() && k < b.len() && a.take(k) =~= b.take(k) && #[trigger] a[k] < #[trigger] b[k]);
        if a.len() < b.len() {
            assert(false);
        }
    } else if a[i] != b[i] {
        if a.len() < b.len() && b.take(a.len() as int) =~= a {
            assert(b.take(a.len() as int)[i] == b[i]);
            assert(false);
        }
        if a[i] < b[i] {
            assert(a.take(i) =~= b.take(i));
            assert(a[i] < b[i]);
        } else {
            assert forall|k: int| 0 <= k < a.len() && k < b.len() && a.take(k) =~= b.take(k) implies !(#[trigger] a[k] < #[trigger] b[k]) by {
                if k > i {
                    assert(a.take(k)[i] == b.take(k)[i]);
                }
            }
        }
    } else {
        assert forall|k: int| 0 <= k < i + 1 implies a[k] == b[k] by {}
        lemma_text_before_from_is_str_order(a, b, i + 1);
    }
}

/// The sort keys are compared as `str` compares them: character by
/// character, with a proper prefix first.
pub proof fn law_keys_compare_as_str(a: Seq<char>, b: Seq<char>)
    ensures
        text_before(a, b) <==> str_order_before(a, b),
{
    lemma_text_before_from_is_str_order(a, b, 0);
}

/// In a listing, every folder comes before every file, and of two folders or
/// two files the one whose key comes first in the order of `str` (see
/// `str_order_before`; a name that is a proper prefix of another comes
/// first) is listed first.
pub proof fn law_listing_follows_folders_then_str_order(
    items: Seq<FolderItem>,
    keys: Seq<Seq<char>>,
    perm: Seq<int>,
    k1: int,
    k2: int,
)
    requires
        is_listing_order_by(items, keys, perm),
        0 <= k1 < perm.len(),
        0 <= k2 < perm.len(),
        (items[perm[k1]].is_dir && !items[perm[k2]].is_dir) || (items[perm[k1]].is_dir == items[perm[k2]].is_dir
            && str_order_before(keys[perm[k1]], keys[perm[k2]])),
    ensures
        k1 < k2,
{
    let (x, y) = (perm[k1], perm[k2]);
    law_keys_compare_as_str(keys[x], keys[y]);
    assert(key_before_by(items[x].is_dir, keys[x], items[y].is_dir, keys[y]));
    lemma_key_order(items[x].is_dir, keys[x], items[y].is_dir, keys[y], items[x].is_dir, keys[x]);
    if k2 < k1 {
        assert(listed_before_by(items, keys, perm[k2], perm[k1]));
    }
}

} // verus!
