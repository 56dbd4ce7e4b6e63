//! The model of a folder listing: its items, split into files and
//! sub-folders, each list sorted by lowercase name.

use vstd::prelude::*;
use crate::order::{
    is_stable_order, key_le, lemma_key_le_reflexive, lemma_key_le_total, lemma_stable_before_strict,
    occurs_in, stable_before, stable_order,
};
use crate::text::{chars_of, lowercase, to_lowercase};

verus! {

/// One entry of a folder listing.
#[derive(Debug)]
pub struct FolderItem {
    pub is_dir: bool,
    pub name: String,
    /// The entry can be read (a folder can be entered).
    pub read_into: bool,
    pub read_only: bool,
    pub full_path: String,
}

/// A folder: its path and its entries, as files, as sub-folders and all together.
#[derive(Debug, Clone)]
pub struct Folder {
    pub path_full: String,
    pub list_files: Vec<FolderItem>,
    pub list_folders: Vec<FolderItem>,
    pub list_all_items: Vec<FolderItem>,
}

/// What is known of one directory entry when the folder is read.
#[derive(Debug)]
pub struct DirEntryInfo {
    pub name: String,
    pub is_dir: bool,
    /// Read access to the entry was granted.
    pub readable: bool,
    /// The entry's permissions mark it read-only.
    pub read_only: bool,
}

impl Clone for FolderItem {
    fn clone(&self) -> (r: Self)
        ensures
            r == *self,
    {
        FolderItem {
            is_dir: self.is_dir,
            name: self.name.clone(),
            read_into: self.read_into,
            read_only: self.read_only,
            full_path: self.full_path.clone(),
        }
    }
}

impl Default for FolderItem {
    fn default() -> (r: Self)
        ensures
            !r.is_dir,
            r.name@ == "Default"@,
            !r.read_into,
            r.read_only,
            r.full_path@ == Seq::<char>::empty(),
    {
        FolderItem {
            is_dir: false,
            name: String::from_str("Default"),
            read_into: false,
            read_only: true,
            full_path: String::new(),
        }
    }
}

impl Default for Folder {
    fn default() -> (r: Self)
        ensures
            r.path_full@ == Seq::<char>::empty(),
            r.list_files@.len() == 0,
            r.list_folders@.len() == 0,
            r.list_all_items@.len() == 0,
    {
        Folder {
            path_full: String::new(),
            list_files: Vec::new(),
            list_folders: Vec::new(),
            list_all_items: Vec::new(),
        }
    }
}

/// A name that starts with `'.'`.
pub open spec fn is_hidden(name: Seq<char>) -> bool {
    name.len() > 0 && name[0] == '.'
}

/// The entry belongs in a list: it is not a hidden one that is ignored,
/// and it is of the kind the list wants (`Some(true)` folders,
/// `Some(false)` files, `None` both).
pub open spec fn listed(e: DirEntryInfo, ignore_hidden: bool, want: Option<bool>) -> bool {
    &&& !(ignore_hidden && is_hidden(e.name@))
    &&& match want {
        Some(d) => e.is_dir == d,
        None => true,
    }
}

/// `item` describes entry `e` of the folder at `path`.
pub open spec fn describes(item: FolderItem, path: Seq<char>, e: DirEntryInfo) -> bool {
    &&& item.is_dir == e.is_dir
    &&& item.name@ == e.name@
    &&& item.read_into == e.readable
    &&& item.read_only == e.read_only
    &&& item.full_path@ == path + e.name@
}

/// The sort keys of the entries: their lowercase names.
pub open spec fn entry_keys(entries: Seq<DirEntryInfo>) -> Seq<Seq<char>> {
    entries.map_values(|e: DirEntryInfo| lowercase(e.name@))
}

/// `items` describes, through the entry indices `idx`, every entry that
/// belongs in the list once, sorted by lowercase name, entries with equal
/// keys in the order they were read.
pub open spec fn listing_via(
    items: Seq<FolderItem>,
    idx: Seq<int>,
    entries: Seq<DirEntryInfo>,
    path: Seq<char>,
    ignore_hidden: bool,
    want: Option<bool>,
) -> bool {
    &&& idx.len() == items.len()
    &&& forall|a: int|
        0 <= a < idx.len() ==> 0 <= #[trigger] idx[a] < entries.len() && listed(
            entries[idx[a]],
            ignore_hidden,
            want,
        ) && describes(items[a], path, entries[idx[a]])
    &&& forall|a: int, b: int|
        0 <= a < b < idx.len() ==> #[trigger] stable_before(entry_keys(entries), idx[a], idx[b])
    &&& forall|j: int|
        0 <= j < entries.len() && listed(entries[j], ignore_hidden, want) ==> #[trigger] occurs_in(
            idx,
            j,
        )
}

/// `items` is the sorted list of the entries that belong in it.
pub open spec fn is_listing(
    items: Seq<FolderItem>,
    entries: Seq<DirEntryInfo>,
    path: Seq<char>,
    ignore_hidden: bool,
    want: Option<bool>,
) -> bool {
    exists|idx: Seq<int>| listing_via(items, idx, entries, path, ignore_hidden, want)
}

/// The item for an entry of the folder at `path`.
fn item_of(path: &String, e: &DirEntryInfo) -> (r: FolderItem)
    ensures
        describes(r, path@, *e),
{
    let mut full = path.clone();
    full.append(e.name.as_str());
    FolderItem {
        is_dir: e.is_dir,
        name: e.name.clone(),
        read_into: e.readable,
        read_only: e.read_only,
        full_path: full,
    }
}

/// Whether an entry belongs in a list.
fn listed_exec(e: &DirEntryInfo, ignore_hidden: bool, want: Option<bool>) -> (r: bool)
    ensures
        r == listed(*e, ignore_hidden, want),
{
    if ignore_hidden {
        let name = chars_of(e.name.as_str());
        if name.len() > 0 && name[0] == '.' {
            return false;
        }
    }
    match want {
        Some(d) => e.is_dir == d,
        None => true,
    }
}

/// The items of the entries that belong in a list, in the order `perm`.
fn collect_listing(
    path: &String,
    entries: &Vec<DirEntryInfo>,
    perm: &Vec<usize>,
    ignore_hidden: bool,
    want: Option<bool>,
) -> (r: Vec<FolderItem>)
    requires
        is_stable_order(entry_keys(entries@), perm@.map_values(|k: usize| k as int)),
    ensures
        is_listing(r@, entries@, path@, ignore_hidden, want),
{
    let ghost p = perm@.map_values(|k: usize| k as int);
    let ghost keys = entry_keys(entries@);
    let mut r: Vec<FolderItem> = Vec::new();
    let ghost mut idx: Seq<int> = Seq::empty();
    let ghost mut at: Seq<int> = Seq::empty();
    let mut t: usize = 0;
    while t < perm.len()
        invariant
            p == perm@.map_values(|k: usize| k as int),
            keys == entry_keys(entries@),
            is_stable_order(keys, p),
            t <= perm.len(),
            idx.len() == r@.len(),
            at.len() == r@.len(),
            forall|a: int|
                0 <= a < at.len() ==> 0 <= #[trigger] at[a] < t && idx[a] == p[at[a]],
            forall|a: int, b: int| 0 <= a < b < at.len() ==> #[trigger] at[a] < #[trigger] at[b],
            forall|a: int|
                0 <= a < idx.len() ==> 0 <= #[trigger] idx[a] < entries.len() && listed(
                    entries@[idx[a]],
                    ignore_hidden,
                    want,
                ) && describes(r@[a], path@, entries@[idx[a]]),
            forall|s: int|
                0 <= s < t && listed(entries@[p[s]], ignore_hidden, want) ==> #[trigger] occurs_in(
                    at,
                    s,
                ),
        decreases perm.len() - t,
    {
        let j = perm[t];
        assert(p[t as int] == j as int);
        if listed_exec(&entries[j], ignore_hidden, want) {
            let item = item_of(path, &entries[j]);
            r.push(item);
            proof {
                let old_at = at;
                idx = idx.push(j as int);
                at = at.push(t as int);
                assert forall|s: int|
                    0 <= s < t + 1 && listed(entries@[p[s]], ignore_hidden, want) implies #[trigger] occurs_in(
                    at,
                    s,
                ) by {
                    if s == t {
                        assert(at[at.len() - 1] == s);
                    } else {
                        assert(occurs_in(old_at, s));
                        let a0 = choose|a: int| 0 <= a < old_at.len() && old_at[a] == s;
                        assert(at[a0] == s);
                    }
                }
            }
        } else {
            proof {
                assert forall|s: int|
                    0 <= s < t + 1 && listed(entries@[p[s]], ignore_hidden, want) implies #[trigger] occurs_in(
                    at,
                    s,
                ) by {}
            }
        }
        t = t + 1;
    }
    proof {
        assert forall|a: int, b: int| 0 <= a < b < idx.len() implies #[trigger] stable_before(
            keys,
            idx[a],
            idx[b],
        ) by {
            assert(at[a] < at[b]);
            assert(stable_before(keys, p[at[a]], p[at[b]]));
        }
        assert forall|j: int|
            0 <= j < entries.len() && listed(entries@[j], ignore_hidden, want) implies #[trigger] occurs_in(
            idx,
            j,
        ) by {
            assert(occurs_in(p, j));
            let s = choose|s: int| 0 <= s < p.len() && p[s] == j;
            assert(occurs_in(at, s));
            let a = choose|a: int| 0 <= a < at.len() && at[a] == s;
            assert(idx[a] == j);
        }
        assert(listing_via(r@, idx, entries@, path@, ignore_hidden, want));
    }
    r
}

/// Builds the listing of the folder at `path` from its entries, as read:
/// hidden entries (name starting with `'.'`) are left out when
/// `ignore_hidden`; each list is sorted by lowercase name, entries with
/// equal keys kept in the order they were read.
pub fn build_folder(path: String, entries: &Vec<DirEntryInfo>, ignore_hidden: bool) -> (r: Folder)
    ensures
        r.path_full@ == path@,
        is_listing(r.list_all_items@, entries@, path@, ignore_hidden, None),
        is_listing(r.list_folders@, entries@, path@, ignore_hidden, Some(true)),
        is_listing(r.list_files@, entries@, path@, ignore_hidden, Some(false)),
{
    let mut keys: Vec<Vec<char>> = Vec::new();
    let mut i: usize = 0;
    while i < entries.len()
        invariant
            i <= entries.len(),
            keys.len() == i,
            forall|a: int| 0 <= a < i ==> #[trigger] keys@[a]@ == lowercase(entries@[a].name@),
        decreases entries.len() - i,
    {
        let name = chars_of(entries[i].name.as_str());
        keys.push(to_lowercase(&name));
        i = i + 1;
    }
    assert forall|a: int| 0 <= a < keys.len() implies #[trigger] keys.deep_view()[a] == entry_keys(
        entries@,
    )[a] by {
        assert(keys.deep_view()[a] == keys@[a]@);
    }
    assert(keys.deep_view() =~= entry_keys(entries@));
    let perm = stable_order(&keys);
    let all = collect_listing(&path, entries, &perm, ignore_hidden, None);
    let dirs = collect_listing(&path, entries, &perm, ignore_hidden, Some(true));
    let files = collect_listing(&path, entries, &perm, ignore_hidden, Some(false));
    Folder { path_full: path, list_files: files, list_folders: dirs, list_all_items: all }
}


/// In a listing every item is of the kind the list wants, no hidden item
/// is there when hidden ones are ignored, and the items are in order of
/// their lowercase names.
pub proof fn lemma_listing_order(
    items: Seq<FolderItem>,
    entries: Seq<DirEntryInfo>,
    path: Seq<char>,
    ignore_hidden: bool,
    want: Option<bool>,
)
    requires
        is_listing(items, entries, path, ignore_hidden, want),
    ensures
        forall|a: int|
            0 <= a < items.len() ==> (want matches Some(d) ==> (#[trigger] items[a]).is_dir == d) && (
            ignore_hidden ==> !is_hidden(items[a].name@)),
        forall|a: int, b: int|
            0 <= a < b < items.len() ==> key_le(
                lowercase((#[trigger] items[a]).name@),
                lowercase((#[trigger] items[b]).name@),
            ),
{
    let idx = choose|idx: Seq<int>| listing_via(items, idx, entries, path, ignore_hidden, want);
    let keys = entry_keys(entries);
    assert forall|a: int| 0 <= a < items.len() implies (want matches Some(d) ==> (
    #[trigger] items[a]).is_dir == d) && (ignore_hidden ==> !is_hidden(items[a].name@)) by {
        assert(0 <= idx[a] < entries.len());
    }
    assert forall|a: int, b: int| 0 <= a < b < items.len() implies key_le(
        lowercase((#[trigger] items[a]).name@),
        lowercase((#[trigger] items[b]).name@),
    ) by {
        assert(0 <= idx[a] < entries.len());
        assert(0 <= idx[b] < entries.len());
        assert(stable_before(keys, idx[a], idx[b]));
        assert(keys[idx[a]] == lowercase(items[a].name@));
        assert(keys[idx[b]] == lowercase(items[b].name@));
        lemma_key_le_total(keys[idx[a]], keys[idx[b]]);
        lemma_key_le_reflexive(keys[idx[a]]);
    }
}

/// The first `k` entry indices of two listings of the same entries agree.
proof fn lemma_listing_prefix(
    items1: Seq<FolderItem>,
    idx1: Seq<int>,
    items2: Seq<FolderItem>,
    idx2: Seq<int>,
    entries: Seq<DirEntryInfo>,
    path: Seq<char>,
    ignore_hidden: bool,
    want: Option<bool>,
    k: int,
)
    requires
        listing_via(items1, idx1, entries, path, ignore_hidden, want),
        listing_via(items2, idx2, entries, path, ignore_hidden, want),
        0 <= k <= idx1.len(),
        k <= idx2.len(),
    ensures
        forall|a: int| 0 <= a < k ==> idx1[a] == idx2[a],
    decreases k,
{
    if k > 0 {
        lemma_listing_prefix(items1, idx1, items2, idx2, entries, path, ignore_hidden, want, k - 1);
        let keys = entry_keys(entries);
        let a = k - 1;
        let x = idx1[a];
        let y = idx2[a];
        assert(0 <= idx1[a] < entries.len());
        assert(0 <= idx2[a] < entries.len());
        assert(occurs_in(idx2, x));
        assert(occurs_in(idx1, y));
        let p = choose|p: int| 0 <= p < idx2.len() && idx2[p] == x;
        let q = choose|q: int| 0 <= q < idx1.len() && idx1[q] == y;
        lemma_stable_before_strict(keys, x, y);
        lemma_stable_before_strict(keys, y, x);
        if p < a {
            assert(idx1[p] == x);
            assert(stable_before(keys, idx1[p], idx1[a]));
            assert(false);
        }
        if q < a {
            assert(idx2[q] == y);
            assert(stable_before(keys, idx2[q], idx2[a]));
            assert(false);
        }
        if p > a && q > a {
            assert(stable_before(keys, idx2[a], idx2[p]));
            assert(stable_before(keys, idx1[a], idx1[q]));
            assert(false);
        }
    }
}

/// Two listings of the same entries go through the same entry indices.
proof fn lemma_listing_indices_unique(
    items1: Seq<FolderItem>,
    idx1: Seq<int>,
    items2: Seq<FolderItem>,
    idx2: Seq<int>,
    entries: Seq<DirEntryInfo>,
    path: Seq<char>,
    ignore_hidden: bool,
    want: Option<bool>,
)
    requires
        listing_via(items1, idx1, entries, path, ignore_hidden, want),
        listing_via(items2, idx2, entries, path, ignore_hidden, want),
    ensures
        idx1 == idx2,
{
    let keys = entry_keys(entries);
    if idx1.len() < idx2.len() {
        let n = idx1.len() as int;
        lemma_listing_prefix(items1, idx1, items2, idx2, entries, path, ignore_hidden, want, n);
        let z = idx2[n];
        assert(0 <= idx2[n] < entries.len());
        assert(occurs_in(idx1, z));
        let p = choose|p: int| 0 <= p < idx1.len() && idx1[p] == z;
        assert(idx2[p] == z);
        assert(stable_before(keys, idx2[p], idx2[n]));
        lemma_stable_before_strict(keys, z, z);
        assert(false);
    } else if idx2.len() < idx1.len() {
        let n = idx2.len() as int;
        lemma_listing_prefix(items1, idx1, items2, idx2, entries, path, ignore_hidden, want, n);
        let z = idx1[n];
        assert(0 <= idx1[n] < entries.len());
        assert(occurs_in(idx2, z));
        let p = choose|p: int| 0 <= p < idx2.len() && idx2[p] == z;
        assert(idx1[p] == z);
        assert(stable_before(keys, idx1[p], idx1[n]));
        lemma_stable_before_strict(keys, z, z);
        assert(false);
    } else {
        lemma_listing_prefix(
            items1,
            idx1,
            items2,
            idx2,
            entries,
            path,
            ignore_hidden,
            want,
            idx1.len() as int,
        );
        assert(idx1 =~= idx2);
    }
}

/// Two items with the same fields.
pub open spec fn same_item(a: FolderItem, b: FolderItem) -> bool {
    &&& a.is_dir == b.is_dir
    &&& a.name@ == b.name@
    &&& a.read_into == b.read_into
    &&& a.read_only == b.read_only
    &&& a.full_path@ == b.full_path@
}

/// Two lists of items that agree item by item.
pub open spec fn same_items(a: Seq<FolderItem>, b: Seq<FolderItem>) -> bool {
    a.len() == b.len() && forall|i: int| 0 <= i < a.len() ==> same_item(#[trigger] a[i], b[i])
}

/// A listing is determined by what was read: two listings of the same
/// entries, for the same path, flag and kind, agree item by item.
pub proof fn lemma_listing_unique(
    items1: Seq<FolderItem>,
    items2: Seq<FolderItem>,
    entries: Seq<DirEntryInfo>,
    path: Seq<char>,
    ignore_hidden: bool,
    want: Option<bool>,
)
    requires
        is_listing(items1, entries, path, ignore_hidden, want),
        is_listing(items2, entries, path, ignore_hidden, want),
    ensures
        same_items(items1, items2),
{
    let idx1 = choose|idx: Seq<int>| listing_via(items1, idx, entries, path, ignore_hidden, want);
    let idx2 = choose|idx: Seq<int>| listing_via(items2, idx, entries, path, ignore_hidden, want);
    lemma_listing_indices_unique(items1, idx1, items2, idx2, entries, path, ignore_hidden, want);
    assert forall|i: int| 0 <= i < items1.len() implies same_item(#[trigger] items1[i], items2[i]) by {
        assert(0 <= idx1[i] < entries.len());
        assert(0 <= idx2[i] < entries.len());
    }
}

/// `f` is the folder at `path` as `build_folder` makes it from `entries`.
pub open spec fn is_folder_of(
    f: Folder,
    entries: Seq<DirEntryInfo>,
    path: Seq<char>,
    ignore_hidden: bool,
) -> bool {
    &&& f.path_full@ == path
    &&& is_listing(f.list_all_items@, entries, path, ignore_hidden, None)
    &&& is_listing(f.list_folders@, entries, path, ignore_hidden, Some(true))
    &&& is_listing(f.list_files@, entries, path, ignore_hidden, Some(false))
}

/// Reading a folder twice, with the same path and flag, over the same
/// entries gives the same folder: the same path and the same three lists,
/// item by item.
pub proof fn lemma_folder_reads_agree(
    f: Folder,
    g: Folder,
    entries: Seq<DirEntryInfo>,
    path: Seq<char>,
    ignore_hidden: bool,
)
    requires
        is_folder_of(f, entries, path, ignore_hidden),
        is_folder_of(g, entries, path, ignore_hidden),
    ensures
        f.path_full@ == g.path_full@,
        same_items(f.list_all_items@, g.list_all_items@),
        same_items(f.list_folders@, g.list_folders@),
        same_items(f.list_files@, g.list_files@),
{
    lemma_listing_unique(f.list_all_items@, g.list_all_items@, entries, path, ignore_hidden, None);
    lemma_listing_unique(f.list_folders@, g.list_folders@, entries, path, ignore_hidden, Some(true));
    lemma_listing_unique(f.list_files@, g.list_files@, entries, path, ignore_hidden, Some(false));
}

} // verus!
