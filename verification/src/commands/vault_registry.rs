//! The list of vaults that were opened, the latest first.

use crate::paths::{
    file_stem, law_file_name_is_the_last_component, law_name_is_stem_and_extension,
    law_path_has_the_stem_of_its_name, path_file_stem,
};
use crate::text::{copy_text, same_text};
use vstd::prelude::*;

verus! {

/// A vault that was opened.
#[derive(Debug, Clone)]
pub struct VaultEntry {
    pub name: String,
    pub path: String,
    /// In seconds since the epoch.
    pub last_opened: u64,
}

/// An entry as plain values: name, path, time.
pub open spec fn entry_row(e: VaultEntry) -> (Seq<char>, Seq<char>, u64) {
    (e.name@, e.path@, e.last_opened)
}

/// Entries as plain values.
pub open spec fn entry_rows(e: Seq<VaultEntry>) -> Seq<(Seq<char>, Seq<char>, u64)> {
    e.map_values(|x: VaultEntry| entry_row(x))
}

/// The latest first.
pub open spec fn latest_first(s: Seq<(Seq<char>, Seq<char>, u64)>) -> bool {
    forall|i: int, j: int| 0 <= i < j < s.len() ==> s[i].2 >= s[j].2
}

/// No path is listed twice.
pub open spec fn paths_unique(s: Seq<(Seq<char>, Seq<char>, u64)>) -> bool {
    forall|i: int, j: int| 0 <= i < j < s.len() ==> s[i].1 != s[j].1
}

/// Puts an entry behind those that are not older.
pub open spec fn insert_entry(
    s: Seq<(Seq<char>, Seq<char>, u64)>,
    e: (Seq<char>, Seq<char>, u64),
) -> Seq<(Seq<char>, Seq<char>, u64)>
    decreases s.len(),
{
    if s.len() == 0 || s[s.len() - 1].2 >= e.2 {
        s.push(e)
    } else {
        insert_entry(s.subrange(0, s.len() - 1), e).push(s[s.len() - 1])
    }
}

/// The entries with the latest first; entries of one time keep their order.
pub open spec fn sorted_entries(s: Seq<(Seq<char>, Seq<char>, u64)>) -> Seq<
    (Seq<char>, Seq<char>, u64),
>
    decreases s.len(),
{
    if s.len() == 0 {
        Seq::empty()
    } else {
        insert_entry(sorted_entries(s.subrange(0, s.len() - 1)), s[s.len() - 1])
    }
}

proof fn lemma_insert_at(
    s: Seq<(Seq<char>, Seq<char>, u64)>,
    e: (Seq<char>, Seq<char>, u64),
    at: int,
)
    requires
        0 <= at <= s.len(),
        at > 0 ==> s[at - 1].2 >= e.2,
        forall|k: int| at <= k < s.len() ==> (#[trigger] s[k]).2 < e.2,
    ensures
        insert_entry(s, e) == s.insert(at, e),
    decreases s.len(),
{
    if at == s.len() {
        assert(s.insert(at, e) =~= s.push(e));
    } else {
        let init = s.subrange(0, s.len() - 1);
        lemma_insert_at(init, e, at);
        assert(s.insert(at, e) =~= init.insert(at, e).push(s[s.len() - 1]));
    }
}

proof fn lemma_insert_sorted(
    s: Seq<(Seq<char>, Seq<char>, u64)>,
    e: (Seq<char>, Seq<char>, u64),
)
    requires
        latest_first(s),
    ensures
        latest_first(insert_entry(s, e)),
        insert_entry(s, e).to_multiset() == s.to_multiset().insert(e),
        forall|k: int|
            0 <= k < insert_entry(s, e).len() ==> #[trigger] insert_entry(s, e)[k] == e
                || s.contains(insert_entry(s, e)[k]),
    decreases s.len(),
{
    broadcast use vstd::multiset::group_multiset_axioms;
    broadcast use vstd::seq_lib::group_to_multiset_ensures;

    let r = insert_entry(s, e);
    if s.len() == 0 || s[s.len() - 1].2 >= e.2 {
        assert forall|k: int| 0 <= k < r.len() implies #[trigger] r[k] == e || s.contains(r[k]) by {
            if k < s.len() {
                assert(r[k] == s[k]);
            }
        }
    } else {
        let init = s.subrange(0, s.len() - 1);
        let last = s[s.len() - 1];
        lemma_insert_sorted(init, e);
        let q = insert_entry(init, e);
        assert(init.push(last) =~= s);
        assert(r == q.push(last));
        assert(r.to_multiset() =~= s.to_multiset().insert(e));
        assert forall|k: int| 0 <= k < r.len() implies #[trigger] r[k] == e || s.contains(r[k]) by {
            if k < q.len() {
                assert(r[k] == q[k]);
                if q[k] != e {
                    let m = choose|m: int| 0 <= m < init.len() && init[m] == q[k];
                    assert(s[m] == q[k]);
                }
            } else {
                assert(s[s.len() - 1] == r[k]);
            }
        }
        assert forall|i: int, j: int| 0 <= i < j < r.len() implies r[i].2 >= r[j].2 by {
            if j == r.len() - 1 {
                assert(r[i] == q[i]);
                if q[i] != e {
                    let m = choose|m: int| 0 <= m < init.len() && init[m] == q[i];
                    assert(s[m] == q[i]);
                }
            } else {
                assert(r[i] == q[i] && r[j] == q[j]);
            }
        }
    }
}

/// Sorting puts the latest first and neither loses nor adds an entry.
pub proof fn law_sorted_latest_first(s: Seq<(Seq<char>, Seq<char>, u64)>)
    ensures
        latest_first(sorted_entries(s)),
        sorted_entries(s).to_multiset() == s.to_multiset(),
    decreases s.len(),
{
    broadcast use vstd::multiset::group_multiset_axioms;
    broadcast use vstd::seq_lib::group_to_multiset_ensures;

    if s.len() == 0 {
        assert(sorted_entries(s) =~= s);
    } else {
        let init = s.subrange(0, s.len() - 1);
        law_sorted_latest_first(init);
        lemma_insert_sorted(sorted_entries(init), s[s.len() - 1]);
        assert(init.push(s[s.len() - 1]) =~= s);
    }
}

/// Sorts entries, the latest first.
fn sort_entries(entries: Vec<VaultEntry>) -> (r: Vec<VaultEntry>)
    ensures
        entry_rows(r@) == sorted_entries(entry_rows(entries@)),
{
    let mut rest: Vec<VaultEntry> = entries;
    let mut ahead: Vec<VaultEntry> = Vec::new();
    let ghost rows = entry_rows(entries@);
    while rest.len() > 0
        invariant
            entry_rows(rest@) == rows.subrange(0, rest@.len() as int),
            rest@.len() <= rows.len(),
            ahead@.len() == rows.len() - rest@.len(),
            forall|k: int|
                0 <= k < ahead@.len() ==> entry_row(#[trigger] ahead@[k]) == rows[rows.len() - 1
                    - k],
        decreases rest@.len(),
    {
        let ghost n = rest@.len();
        let ghost before = rest@;
        let e: VaultEntry = rest.pop().unwrap();
        assert(entry_row(e) == entry_rows(before)[n - 1]);
        assert(entry_rows(rest@) =~= entry_rows(before).subrange(0, n - 1));
        ahead.push(e);
    }
    let mut out: Vec<VaultEntry> = Vec::new();
    let ghost mut i: int = 0;
    assert(entry_rows(out@) =~= sorted_entries(rows.subrange(0, 0)));
    while ahead.len() > 0
        invariant
            i + ahead@.len() == rows.len(),
            0 <= i,
            forall|k: int|
                0 <= k < ahead@.len() ==> entry_row(#[trigger] ahead@[k]) == rows[rows.len() - 1
                    - k],
            entry_rows(out@) == sorted_entries(rows.subrange(0, i)),
        decreases ahead@.len(),
    {
        let ghost upto = rows.subrange(0, i + 1);
        assert(upto.subrange(0, i) =~= rows.subrange(0, i));
        let ghost left = ahead@;
        let e: VaultEntry = ahead.pop().unwrap();
        assert(entry_row(left[left.len() - 1]) == rows[i]);
        assert(upto[i] == entry_row(e));
        let ghost before = entry_rows(out@);
        let mut at: usize = out.len();
        while at > 0 && out[at - 1].last_opened < e.last_opened
            invariant
                at <= out@.len(),
                before == entry_rows(out@),
                forall|k: int|
                    at <= k < out@.len() ==> (#[trigger] before[k]).2 < entry_row(e).2,
            decreases at,
        {
            assert(before[at - 1] == entry_row(out@[at - 1]));
            at = at - 1;
        }
        let ghost row = entry_row(e);
        proof {
            if at > 0 {
                assert(before[at - 1] == entry_row(out@[at - 1]));
            }
            lemma_insert_at(before, row, at as int);
        }
        out.insert(at, e);
        assert(entry_rows(out@) =~= before.insert(at as int, row));
        proof {
            i = i + 1;
        }
    }
    assert(rows.subrange(0, rows.len() as int) =~= rows);
    out
}

/// The name of a vault: the name of its file without extension, or the whole path.
pub open spec fn vault_name_of(path: Seq<char>) -> Seq<char> {
    match path_file_stem(path) {
        Some(n) => n,
        None => path,
    }
}

/// The first entry of a path.
pub open spec fn entry_at(s: Seq<(Seq<char>, Seq<char>, u64)>, path: Seq<char>, i: int) -> bool {
    &&& 0 <= i < s.len()
    &&& s[i].1 == path
    &&& forall|j: int| 0 <= j < i ==> (#[trigger] s[j]).1 != path
}

/// The path is listed.
pub open spec fn has_path(s: Seq<(Seq<char>, Seq<char>, u64)>, path: Seq<char>) -> bool {
    exists|i: int| 0 <= i < s.len() && (#[trigger] s[i]).1 == path
}

/// The entries with one added or brought up to date, before they are sorted.
pub open spec fn with_entry(s: Seq<(Seq<char>, Seq<char>, u64)>, path: Seq<char>, now: u64) -> Seq<
    (Seq<char>, Seq<char>, u64),
> {
    let e = (vault_name_of(path), path, now);
    if has_path(s, path) {
        s.update(choose|i: int| entry_at(s, path, i), e)
    } else {
        s.push(e)
    }
}

fn find_entry(entries: &Vec<VaultEntry>, path: &str) -> (r: Option<usize>)
    ensures
        match r {
            Some(i) => entry_at(entry_rows(entries@), path@, i as int),
            None => !has_path(entry_rows(entries@), path@),
        },
{
    let ghost rows = entry_rows(entries@);
    let mut i: usize = 0;
    while i < entries.len()
        invariant
            i <= entries@.len(),
            rows == entry_rows(entries@),
            forall|j: int| 0 <= j < i ==> (#[trigger] rows[j]).1 != path@,
        decreases entries@.len() - i,
    {
        assert(rows[i as int] == entry_row(entries@[i as int]));
        if same_text(&entries[i].path, path) {
            return Some(i);
        }
        i = i + 1;
    }
    None
}

/// Notes that a vault was opened: its entry is added or brought up to date, and the latest come
/// first.
pub fn register_vault(entries: Vec<VaultEntry>, path_str: &str, now: u64) -> (r: Vec<VaultEntry>)
    ensures
        entry_rows(r@) == sorted_entries(with_entry(entry_rows(entries@), path_str@, now)),
{
    let name: String = match file_stem(path_str) {
        Some(n) => n,
        None => copy_text(path_str),
    };
    let mut list: Vec<VaultEntry> = entries;
    let ghost rows = entry_rows(entries@);
    match find_entry(&list, path_str) {
        Some(i) => {
            proof {
                let k = choose|k: int| entry_at(rows, path_str@, k);
                assert(entry_at(rows, path_str@, i as int));
                if k < i {
                    assert(rows[k].1 != path_str@);
                } else if k > i {
                    assert(rows[i as int].1 != path_str@);
                }
                assert(rows[i as int] == entry_row(list@[i as int]));
            }
            list[i].last_opened = now;
            list[i].name = name;
            assert(entry_rows(list@) =~= with_entry(rows, path_str@, now));
        },
        None => {
            let e: VaultEntry = VaultEntry { name, path: copy_text(path_str), last_opened: now };
            list.push(e);
            assert(entry_rows(list@) =~= with_entry(rows, path_str@, now));
        },
    }
    sort_entries(list)
}

/// The entries of other paths.
pub open spec fn without_path(s: Seq<(Seq<char>, Seq<char>, u64)>, path: Seq<char>) -> Seq<
    (Seq<char>, Seq<char>, u64),
>
    decreases s.len(),
{
    if s.len() == 0 {
        Seq::empty()
    } else {
        let before = without_path(s.subrange(0, s.len() - 1), path);
        let e = s[s.len() - 1];
        if e.1 == path {
            before
        } else {
            before.push(e)
        }
    }
}

fn copy_entry(e: &VaultEntry) -> (r: VaultEntry)
    ensures
        entry_row(r) == entry_row(*e),
{
    VaultEntry { name: copy_text(&e.name), path: copy_text(&e.path), last_opened: e.last_opened }
}

/// Takes a vault off the list.
pub fn remove_vault_from_registry(entries: &Vec<VaultEntry>, path_str: &str) -> (r: Vec<VaultEntry>)
    ensures
        entry_rows(r@) == without_path(entry_rows(entries@), path_str@),
{
    let mut out: Vec<VaultEntry> = Vec::new();
    let ghost rows = entry_rows(entries@);
    let mut i: usize = 0;
    assert(entry_rows(out@) =~= without_path(rows.subrange(0, 0), path_str@));
    while i < entries.len()
        invariant
            i <= entries@.len(),
            rows == entry_rows(entries@),
            entry_rows(out@) == without_path(rows.subrange(0, i as int), path_str@),
        decreases entries@.len() - i,
    {
        let ghost upto = rows.subrange(0, i + 1);
        assert(upto.subrange(0, i as int) =~= rows.subrange(0, i as int));
        assert(upto[i as int] == entry_row(entries@[i as int]));
        if !same_text(&entries[i].path, path_str) {
            let e: VaultEntry = copy_entry(&entries[i]);
            let ghost before = entry_rows(out@);
            out.push(e);
            assert(entry_rows(out@) =~= before.push(entry_row(e)));
        }
        i = i + 1;
    }
    assert(rows.subrange(0, rows.len() as int) =~= rows);
    out
}

/// The entries whose vault is there.
pub open spec fn existing_rows(s: Seq<(Seq<char>, Seq<char>, u64)>, there: Seq<bool>) -> Seq<
    (Seq<char>, Seq<char>, u64),
>
    decreases s.len(),
{
    if s.len() == 0 {
        Seq::empty()
    } else {
        let before = existing_rows(s.subrange(0, s.len() - 1), there);
        if there[s.len() - 1] {
            before.push(s[s.len() - 1])
        } else {
            before
        }
    }
}

/// Keeps the entries whose vault is there. `there` says it of each.
pub fn keep_existing(entries: &Vec<VaultEntry>, there: &Vec<bool>) -> (r: Vec<VaultEntry>)
    requires
        entries@.len() == there@.len(),
    ensures
        entry_rows(r@) == existing_rows(entry_rows(entries@), there@),
{
    let mut out: Vec<VaultEntry> = Vec::new();
    let ghost rows = entry_rows(entries@);
    let mut i: usize = 0;
    assert(entry_rows(out@) =~= existing_rows(rows.subrange(0, 0), there@));
    while i < entries.len()
        invariant
            i <= entries@.len(),
            entries@.len() == there@.len(),
            rows == entry_rows(entries@),
            entry_rows(out@) == existing_rows(rows.subrange(0, i as int), there@),
        decreases entries@.len() - i,
    {
        let ghost upto = rows.subrange(0, i + 1);
        assert(upto.subrange(0, i as int) =~= rows.subrange(0, i as int));
        assert(upto[i as int] == entry_row(entries@[i as int]));
        if there[i] {
            let e: VaultEntry = copy_entry(&entries[i]);
            let ghost before = entry_rows(out@);
            out.push(e);
            assert(entry_rows(out@) =~= before.push(entry_row(e)));
        }
        i = i + 1;
    }
    assert(rows.subrange(0, rows.len() as int) =~= rows);
    out
}

// ── Laws ─────────────────────────────────────────────────────────────────────

/// After a vault was opened it is listed, under the time it was opened and the name of its file.
pub proof fn law_registered_is_listed(s: Seq<(Seq<char>, Seq<char>, u64)>, path: Seq<char>, now: u64)
    ensures
        sorted_entries(with_entry(s, path, now)).contains((vault_name_of(path), path, now)),
{
    broadcast use vstd::seq_lib::group_to_multiset_ensures;

    let t = with_entry(s, path, now);
    let e = (vault_name_of(path), path, now);
    if has_path(s, path) {
        lemma_first_entry(s, path);
        let i = choose|i: int| entry_at(s, path, i);
        assert(t[i] == e);
    } else {
        assert(t[s.len() as int] == e);
    }
    assert(t.contains(e));
    law_sorted_latest_first(t);
    t.to_multiset_ensures();
    let r = sorted_entries(t);
    r.to_multiset_ensures();
    assert(t.to_multiset().count(e) > 0);
    assert(r.to_multiset().count(e) > 0);
}

proof fn lemma_first_entry(s: Seq<(Seq<char>, Seq<char>, u64)>, path: Seq<char>)
    requires
        has_path(s, path),
    ensures
        exists|i: int| entry_at(s, path, i),
    decreases s.len(),
{
    let m = choose|i: int| 0 <= i < s.len() && (#[trigger] s[i]).1 == path;
    let init = s.subrange(0, s.len() - 1);
    if has_path(init, path) {
        lemma_first_entry(init, path);
        let k = choose|i: int| entry_at(init, path, i);
        assert forall|j: int| 0 <= j < k implies (#[trigger] s[j]).1 != path by {
            assert(init[j].1 != path);
        }
        assert(entry_at(s, path, k));
    } else {
        assert forall|j: int| 0 <= j < s.len() - 1 implies (#[trigger] s[j]).1 != path by {
            assert(init[j] == s[j]);
        }
        assert(m == s.len() - 1);
        assert(entry_at(s, path, m));
    }
}

/// A path that was taken off the list is not on it.
pub proof fn law_removed_is_gone(s: Seq<(Seq<char>, Seq<char>, u64)>, path: Seq<char>)
    ensures
        !has_path(without_path(s, path), path),
    decreases s.len(),
{
    if s.len() > 0 {
        let init = s.subrange(0, s.len() - 1);
        law_removed_is_gone(init, path);
        let w = without_path(s, path);
        let before = without_path(init, path);
        if s[s.len() - 1].1 != path {
            assert forall|i: int| 0 <= i < w.len() implies (#[trigger] w[i]).1 != path by {
                if i < before.len() {
                    assert(w[i] == before[i]);
                }
            }
        }
    }
}

/// Opening a vault never lists a path twice.
pub proof fn law_paths_stay_unique(s: Seq<(Seq<char>, Seq<char>, u64)>, path: Seq<char>, now: u64)
    requires
        paths_unique(s),
    ensures
        paths_unique(sorted_entries(with_entry(s, path, now))),
{
    let t = with_entry(s, path, now);
    if has_path(s, path) {
        lemma_first_entry(s, path);
        let k = choose|i: int| entry_at(s, path, i);
        assert forall|i: int, j: int| 0 <= i < j < t.len() implies t[i].1 != t[j].1 by {
            assert(s[i].1 != s[j].1);
        }
    } else {
        assert forall|i: int, j: int| 0 <= i < j < t.len() implies t[i].1 != t[j].1 by {
            if j < s.len() {
                assert(s[i].1 != s[j].1);
            } else {
                assert(s[i].1 != path);
            }
        }
    }
    lemma_sorted_unique(t);
}

proof fn lemma_sorted_unique(t: Seq<(Seq<char>, Seq<char>, u64)>)
    requires
        paths_unique(t),
    ensures
        paths_unique(sorted_entries(t)),
    decreases t.len(),
{
    broadcast use vstd::seq_lib::group_to_multiset_ensures;

    if t.len() > 0 {
        let init = t.subrange(0, t.len() - 1);
        let e = t[t.len() - 1];
        assert forall|i: int, j: int| 0 <= i < j < init.len() implies init[i].1 != init[j].1 by {
            assert(t[i].1 != t[j].1);
        }
        lemma_sorted_unique(init);
        let s = sorted_entries(init);
        law_sorted_latest_first(init);
        s.to_multiset_ensures();
        init.to_multiset_ensures();
        assert forall|k: int| 0 <= k < s.len() implies (#[trigger] s[k]).1 != e.1 by {
            assert(s.contains(s[k]));
            assert(s.to_multiset().count(s[k]) > 0);
            assert(init.to_multiset().count(s[k]) > 0);
            assert(init.contains(s[k]));
            let m = choose|m: int| 0 <= m < init.len() && init[m] == s[k];
            assert(t[m].1 != e.1);
        }
        lemma_insert_unique(s, e);
    }
}

proof fn lemma_insert_unique(
    s: Seq<(Seq<char>, Seq<char>, u64)>,
    e: (Seq<char>, Seq<char>, u64),
)
    requires
        paths_unique(s),
        forall|k: int| 0 <= k < s.len() ==> (#[trigger] s[k]).1 != e.1,
    ensures
        paths_unique(insert_entry(s, e)),
        forall|k: int|
            0 <= k < insert_entry(s, e).len() ==> (#[trigger] insert_entry(s, e)[k]) == e
                || s.contains(insert_entry(s, e)[k]),
    decreases s.len(),
{
    let r = insert_entry(s, e);
    if s.len() == 0 || s[s.len() - 1].2 >= e.2 {
        assert forall|k: int| 0 <= k < r.len() implies #[trigger] r[k] == e || s.contains(r[k]) by {
            if k < s.len() {
                assert(r[k] == s[k]);
            }
        }
    } else {
        let init = s.subrange(0, s.len() - 1);
        let last = s[s.len() - 1];
        lemma_insert_unique(init, e);
        let q = insert_entry(init, e);
        assert forall|k: int| 0 <= k < r.len() implies #[trigger] r[k] == e || s.contains(r[k]) by {
            if k < q.len() {
                assert(r[k] == q[k]);
                if q[k] != e {
                    let m = choose|m: int| 0 <= m < init.len() && init[m] == q[k];
                    assert(s[m] == q[k]);
                }
            } else {
                assert(s[s.len() - 1] == r[k]);
            }
        }
        assert forall|i: int, j: int| 0 <= i < j < r.len() implies r[i].1 != r[j].1 by {
            if j == r.len() - 1 {
                assert(r[i] == q[i]);
                if q[i] != e {
                    let m = choose|m: int| 0 <= m < init.len() && init[m] == q[i];
                    assert(s[m].1 != s[s.len() - 1].1);
                }
            } else {
                assert(r[i] == q[i] && r[j] == q[j]);
            }
        }
    }
}

/// Every vault that is there is listed.
pub proof fn law_existing_vaults_are_kept(
    s: Seq<(Seq<char>, Seq<char>, u64)>,
    there: Seq<bool>,
    i: int,
)
    requires
        s.len() == there.len(),
        0 <= i < s.len(),
        there[i],
    ensures
        existing_rows(s, there).contains(s[i]),
    decreases s.len(),
{
    let n = s.len() - 1;
    let init = s.subrange(0, n);
    let mark = there.subrange(0, n);
    lemma_existing_ignores_further_marks(init, there, mark);
    let before = existing_rows(init, mark);
    let r = existing_rows(s, there);
    if i < n {
        law_existing_vaults_are_kept(init, mark, i);
        let k = choose|k: int| 0 <= k < before.len() && before[k] == init[i];
        assert(r[k] == s[i]);
    } else {
        assert(r[before.len() as int] == s[n]);
    }
}

/// No vault is listed but one that is there.
pub proof fn law_missing_vaults_are_dropped(
    s: Seq<(Seq<char>, Seq<char>, u64)>,
    there: Seq<bool>,
    k: int,
)
    requires
        s.len() == there.len(),
        0 <= k < existing_rows(s, there).len(),
    ensures
        exists|i: int| 0 <= i < s.len() && there[i] && s[i] == existing_rows(s, there)[k],
    decreases s.len(),
{
    let n = s.len() - 1;
    let init = s.subrange(0, n);
    let mark = there.subrange(0, n);
    lemma_existing_ignores_further_marks(init, there, mark);
    let before = existing_rows(init, mark);
    let r = existing_rows(s, there);
    if k < before.len() {
        law_missing_vaults_are_dropped(init, mark, k);
        let i = choose|i: int| 0 <= i < init.len() && mark[i] && init[i] == before[k];
        assert(there[i] && s[i] == r[k]);
    } else {
        assert(there[n] && s[n] == r[k]);
    }
}

/// Where all vaults are there the list stays as it is, and where none is, nothing is left of it.
pub proof fn law_all_or_none_of_the_vaults(
    s: Seq<(Seq<char>, Seq<char>, u64)>,
    there: Seq<bool>,
    all: bool,
)
    requires
        s.len() == there.len(),
        forall|i: int| 0 <= i < there.len() ==> there[i] == all,
    ensures
        all ==> existing_rows(s, there) == s,
        !all ==> existing_rows(s, there).len() == 0,
    decreases s.len(),
{
    if s.len() == 0 {
        assert(existing_rows(s, there) =~= s);
    } else {
        let n = s.len() - 1;
        let init = s.subrange(0, n);
        let mark = there.subrange(0, n);
        lemma_existing_ignores_further_marks(init, there, mark);
        law_all_or_none_of_the_vaults(init, mark, all);
        assert(init.push(s[n]) =~= s);
    }
}

/// The vaults that are there keep their order: the list is that of the entries that are marked,
/// one for each mark.
pub proof fn law_existing_vaults_keep_their_order(
    s: Seq<(Seq<char>, Seq<char>, u64)>,
    there: Seq<bool>,
)
    requires
        s.len() == there.len(),
    ensures
        existing_rows(s, there) == s.zip_with(there).filter(
            |p: ((Seq<char>, Seq<char>, u64), bool)| p.1,
        ).map_values(|p: ((Seq<char>, Seq<char>, u64), bool)| p.0),
        existing_rows(s, there).len() == there.filter(|b: bool| b).len(),
    decreases s.len(),
{
    reveal(Seq::filter);
    let yes = |p: ((Seq<char>, Seq<char>, u64), bool)| p.1;
    let row = |p: ((Seq<char>, Seq<char>, u64), bool)| p.0;
    let marked = |b: bool| b;
    let z = s.zip_with(there);
    lemma_zip_index(s, there);
    if s.len() == 0 {
        assert(z.filter(yes) =~= Seq::empty());
        assert(existing_rows(s, there) =~= z.filter(yes).map_values(row));
    } else {
        let n = s.len() - 1;
        let init = s.subrange(0, n);
        let mark = there.subrange(0, n);
        lemma_existing_ignores_further_marks(init, there, mark);
        lemma_zip_index(init, mark);
        law_existing_vaults_keep_their_order(init, mark);
        let filtered = init.zip_with(mark).filter(yes);
        assert(z.drop_last() =~= init.zip_with(mark));
        assert(there.drop_last() =~= mark);
        if there[n] {
            assert(z.filter(yes) == filtered.push(z.last()));
            assert(filtered.push(z.last()).map_values(row) =~= filtered.map_values(row).push(s[n]));
        }
    }
}

proof fn lemma_zip_index(s: Seq<(Seq<char>, Seq<char>, u64)>, there: Seq<bool>)
    requires
        s.len() == there.len(),
    ensures
        s.zip_with(there).len() == s.len(),
        forall|i: int|
            0 <= i < s.len() ==> #[trigger] s.zip_with(there)[i] == (s[i], there[i]),
{
}

/// What is kept of some entries depends on the marks of these entries alone.
proof fn lemma_existing_ignores_further_marks(
    s: Seq<(Seq<char>, Seq<char>, u64)>,
    a: Seq<bool>,
    b: Seq<bool>,
)
    requires
        s.len() <= a.len() && s.len() <= b.len(),
        forall|i: int| 0 <= i < s.len() ==> a[i] == b[i],
    ensures
        existing_rows(s, a) == existing_rows(s, b),
    decreases s.len(),
{
    if s.len() > 0 {
        lemma_existing_ignores_further_marks(s.subrange(0, s.len() - 1), a, b);
    }
}

/// Taking a vault off the list keeps the entries of all other paths, in their order.
pub proof fn law_others_stay_listed(s: Seq<(Seq<char>, Seq<char>, u64)>, path: Seq<char>)
    ensures
        without_path(s, path) == s.filter(|e: (Seq<char>, Seq<char>, u64)| e.1 != path),
    decreases s.len(),
{
    reveal(Seq::filter);
    if s.len() > 0 {
        law_others_stay_listed(s.subrange(0, s.len() - 1), path);
        assert(s.drop_last() =~= s.subrange(0, s.len() - 1));
    }
}

/// Sorting keeps the order of entries of one time.
pub proof fn law_sorting_is_stable(s: Seq<(Seq<char>, Seq<char>, u64)>, time: u64)
    ensures
        sorted_entries(s).filter(|e: (Seq<char>, Seq<char>, u64)| e.2 == time) == s.filter(
            |e: (Seq<char>, Seq<char>, u64)| e.2 == time,
        ),
    decreases s.len(),
{
    reveal(Seq::filter);
    let now = |e: (Seq<char>, Seq<char>, u64)| e.2 == time;
    if s.len() > 0 {
        let init = s.subrange(0, s.len() - 1);
        law_sorting_is_stable(init, time);
        law_sorted_latest_first(init);
        let sorted = sorted_entries(init);
        lemma_insert_stable(sorted, s[s.len() - 1], time);
        assert(sorted.push(s[s.len() - 1]).drop_last() =~= sorted);
        assert(s.drop_last() =~= init);
    }
}

proof fn lemma_insert_stable(
    s: Seq<(Seq<char>, Seq<char>, u64)>,
    e: (Seq<char>, Seq<char>, u64),
    time: u64,
)
    requires
        latest_first(s),
    ensures
        insert_entry(s, e).filter(|x: (Seq<char>, Seq<char>, u64)| x.2 == time) == s.push(e).filter(
            |x: (Seq<char>, Seq<char>, u64)| x.2 == time,
        ),
    decreases s.len(),
{
    reveal(Seq::filter);
    let now = |x: (Seq<char>, Seq<char>, u64)| x.2 == time;
    if s.len() > 0 && s[s.len() - 1].2 < e.2 {
        let init = s.subrange(0, s.len() - 1);
        let last = s[s.len() - 1];
        lemma_insert_stable(init, e, time);
        let q = insert_entry(init, e);
        assert(insert_entry(s, e) == q.push(last));
        assert(q.push(last).drop_last() =~= q);
        assert(s.push(e).drop_last() =~= s);
        assert(s.drop_last() =~= init);
        assert(init.push(e).drop_last() =~= init);
        assert(init.push(e).filter(now) == if e.2 == time {
            init.filter(now).push(e)
        } else {
            init.filter(now)
        });
        assert(s.filter(now) == if last.2 == time {
            init.filter(now).push(last)
        } else {
            init.filter(now)
        });
    }
}

/// Opening a vault changes the entry of its path alone: every entry of another path stays as it is,
/// and none is added but that of the path.
pub proof fn law_opening_changes_one_entry(
    s: Seq<(Seq<char>, Seq<char>, u64)>,
    path: Seq<char>,
    now: u64,
    other: (Seq<char>, Seq<char>, u64),
)
    requires
        other.1 != path,
    ensures
        sorted_entries(with_entry(s, path, now)).contains(other) <==> s.contains(other),
        sorted_entries(with_entry(s, path, now)).len() == if exists|i: int|
            0 <= i < s.len() && (#[trigger] s[i]).1 == path {
            s.len()
        } else {
            s.len() + 1
        },
{
    let t = with_entry(s, path, now);
    law_sorted_latest_first(t);
    t.to_multiset_ensures();
    sorted_entries(t).to_multiset_ensures();
    if has_path(s, path) {
        lemma_first_entry(s, path);
    }
    let k = choose|i: int| entry_at(s, path, i);
    if s.contains(other) {
        let i = choose|i: int| 0 <= i < s.len() && s[i] == other;
        assert(t[i] == other);
        assert(t.contains(other));
    }
    if t.contains(other) {
        let i = choose|i: int| 0 <= i < t.len() && t[i] == other;
        assert(s[i] == other);
        assert(s.contains(other));
    }
    assert(t.contains(other) <==> t.to_multiset().count(other) > 0);
    assert(sorted_entries(t).contains(other) <==> sorted_entries(t).to_multiset().count(other) > 0);
}

/// An entry is seen with its name, its path and its time, one row for one entry.
pub proof fn law_rows_are_those_of_the_entries(e: Seq<VaultEntry>, i: int)
    ensures
        entry_rows(e).len() == e.len(),
        0 <= i < e.len() ==> entry_rows(e)[i].0 == e[i].name@ && entry_rows(e)[i].1 == e[i].path@
            && entry_rows(e)[i].2 == e[i].last_opened,
{
}

/// A vault is named after its file: what stands before the extension of the last component of its
/// path.
pub proof fn law_vault_is_named_after_its_file(dir: Seq<char>, stem: Seq<char>, ext: Seq<char>)
    requires
        stem.len() > 0,
        ext.len() > 0,
        !stem.contains('/') && !ext.contains('/') && !ext.contains('.'),
    ensures
        vault_name_of(dir.push('/') + (stem.push('.') + ext)) == stem,
{
    reveal_strlit(".");
    reveal_strlit("..");
    let name = stem.push('.') + ext;
    assert(!name.contains('/')) by {
        assert forall|i: int| 0 <= i < name.len() implies name[i] != '/' by {
            if i < stem.len() {
                assert(stem.contains(stem[i]));
            } else if i > stem.len() {
                assert(name[i] == ext[i - stem.len() - 1]);
                assert(ext.contains(ext[i - stem.len() - 1]));
            }
        }
    }
    assert("."@.len() == 1 && ".."@.len() == 2);
    let path = dir.push('/') + name;
    law_file_name_is_the_last_component(dir, name, path);
    law_path_has_the_stem_of_its_name(path);
    law_name_is_stem_and_extension(name, stem, ext);
}

} // verus!
