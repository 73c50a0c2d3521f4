//! Decisions of the viewer: when plaintext may stay unpinned, and how it is overwritten.

use crate::paths::{after_last_slash, last_component, optional_text};
use crate::text::{
    around, chars_of, concat, copy_text, lines, lines_spec, same_text, split_whitespace,
    starts_with, trim, trim_spec, views, words_spec,
};
use vstd::prelude::*;

verus! {

/// The first word of each line that has one.
pub open spec fn first_words(l: Seq<Seq<char>>) -> Seq<Seq<char>>
    decreases l.len(),
{
    if l.len() == 0 {
        Seq::empty()
    } else {
        let before = first_words(l.subrange(0, l.len() - 1));
        let w = words_spec(l[l.len() - 1]);
        if w.len() == 0 {
            before
        } else {
            before.push(w[0])
        }
    }
}

/// The lines behind the first.
pub open spec fn below_header(l: Seq<Seq<char>>) -> Seq<Seq<char>> {
    if l.len() == 0 {
        l
    } else {
        l.subrange(1, l.len() as int)
    }
}

/// The swap devices that a swap table names: the first field of each row under the header.
pub fn swap_devices(swaps: &str) -> (r: Vec<String>)
    ensures
        views(r@) == first_words(below_header(lines_spec(swaps@))),
{
    let all: Vec<String> = lines(swaps);
    let ghost l = lines_spec(swaps@);
    let ghost rows = below_header(l);
    let mut out: Vec<String> = Vec::new();
    let mut i: usize = 1;
    assert(views(out@) =~= first_words(rows.subrange(0, 0)));
    assert(l.len() == all@.len());
    if all.len() == 0 {
        return out;
    }
    while i < all.len()
        invariant
            1 <= i <= all@.len(),
            views(all@) == l,
            l.len() == all@.len(),
            rows == l.subrange(1, l.len() as int),
            views(out@) == first_words(rows.subrange(0, i - 1)),
        decreases all@.len() - i,
    {
        let words: Vec<String> = split_whitespace(&all[i]);
        proof {
            let upto = rows.subrange(0, i as int);
            assert(upto.subrange(0, i - 1) =~= rows.subrange(0, i - 1));
            assert(upto[i - 1] == l[i as int]);
            assert(l[i as int] == all@[i as int]@);
            assert(views(words@).len() == words@.len());
        }
        if words.len() > 0 {
            let ghost before = views(out@);
            let first: String = copy_text(&words[0]);
            assert(views(words@)[0] == words@[0]@);
            out.push(first);
            assert(views(out@) =~= before.push(first@));
        }
        i = i + 1;
    }
    assert(rows.subrange(0, rows.len() as int) =~= rows);
    out
}

/// The name of a device: the text behind the last slash.
pub fn device_name(dev: &str) -> (r: String)
    ensures
        r@ == last_component(dev@),
{
    after_last_slash(&chars_of(dev))
}

/// A compressed RAM device by its name.
pub open spec fn is_zram(dev: Seq<char>) -> bool {
    "zram"@.is_prefix_of(last_component(dev))
}

/// The file that says what backs a compressed RAM device; none for any other device.
pub fn backing_file(dev: &str) -> (r: Option<String>)
    ensures
        match r {
            Some(p) => is_zram(dev@) && p@ == "/sys/block/"@ + last_component(dev@)
                + "/backing_dev"@,
            None => !is_zram(dev@),
        },
{
    let name: String = device_name(dev);
    if starts_with(&name, "zram") {
        Some(around("/sys/block/", &name, "/backing_dev"))
    } else {
        None
    }
}

/// The backing of a device that never spills to a disk.
pub open spec fn unbacked(backing: Seq<char>) -> bool {
    trim_spec(backing) == "none"@
}

/// A device that lives in RAM alone: a compressed RAM device of which it is known that nothing
/// backs it.
pub open spec fn ram_only(dev: Seq<char>, backing: Option<Seq<char>>) -> bool {
    &&& is_zram(dev)
    &&& backing matches Some(b)
    &&& unbacked(b)
}

/// Whether a device lives in RAM alone.
pub fn is_ram_only_zram(dev: &str, backing: &Option<String>) -> (r: bool)
    ensures
        r == ram_only(dev@, optional_text(*backing)),
{
    if !starts_with(&device_name(dev), "zram") {
        return false;
    }
    match backing {
        Some(b) => same_text(&trim(b), "none"),
        None => false,
    }
}

/// Some device does not live in RAM alone.
pub open spec fn some_reaches_disk(devices: Seq<String>, backing: Seq<Option<String>>) -> bool {
    exists|i: int|
        0 <= i < devices.len() && !ram_only(
            (#[trigger] devices[i])@,
            optional_text(backing[i]),
        )
}

/// Whether plaintext in RAM could reach a disk: some swap device does not live in RAM alone. What
/// cannot be read counts as the worst.
pub fn disk_persistence_possible(devices: &Option<Vec<String>>, backing: &Vec<Option<String>>) -> (r:
    bool)
    requires
        devices matches Some(d) ==> d@.len() == backing@.len(),
    ensures
        *devices is None ==> r,
        *devices matches Some(d) ==> r == some_reaches_disk(d@, backing@),
{
    match devices {
        None => true,
        Some(d) => any_reaches_disk(d, backing),
    }
}

fn any_reaches_disk(d: &Vec<String>, backing: &Vec<Option<String>>) -> (r: bool)
    requires
        d@.len() == backing@.len(),
    ensures
        r == some_reaches_disk(d@, backing@),
{
    let mut i: usize = 0;
    while i < d.len()
        invariant
            i <= d@.len(),
            d@.len() == backing@.len(),
            forall|k: int|
                0 <= k < i ==> ram_only(
                    (#[trigger] d@[k])@,
                    optional_text(backing@[k]),
                ),
        decreases d@.len() - i,
    {
        if !is_ram_only_zram(&d[i], &backing[i]) {
            return true;
        }
        i = i + 1;
    }
    false
}

/// Whether a viewer may open although its memory could not be pinned: only where the limit on
/// pinned memory was the reason, and where nothing in RAM can reach a disk.
pub fn may_stay_unpinned(limit_reached: bool, persistence_possible: bool) -> (r: bool)
    ensures
        r == (limit_reached && !persistence_possible),
{
    limit_reached && !persistence_possible
}

/// The size of the piece that overwrites plaintext.
pub const ZERO_PAGE: u64 = 4096;

/// How many zeros to write next, of a file of `size` bytes of which `written` are overwritten.
pub fn next_zero_write(size: u64, written: u64) -> (r: usize)
    requires
        written <= size,
    ensures
        r == if size - written < ZERO_PAGE {
            size - written
        } else {
            ZERO_PAGE as int
        },
        r == if size - written < 4096 {
            size - written
        } else {
            4096
        },
        r == 0 <==> written == size,
        written + r <= size,
{
    let left: u64 = size - written;
    if left < ZERO_PAGE {
        left as usize
    } else {
        ZERO_PAGE as usize
    }
}

/// The limit on pinned memory that a process can raise its own to: the hard limit, where it is
/// above the soft one.
pub fn raised_limit(soft: u64, hard: u64) -> (r: Option<u64>)
    ensures
        r == if soft < hard {
            Some(hard)
        } else {
            None
        },
{
    if soft < hard {
        Some(hard)
    } else {
        None
    }
}

/// The name of the anonymous file that holds a file's plaintext.
pub fn memfd_name(vfs_name: &str) -> (r: String)
    ensures
        r@ == "atom_vault_memfd_"@ + vfs_name@,
{
    concat("atom_vault_memfd_", vfs_name)
}

// ── Laws ─────────────────────────────────────────────────────────────────────

/// The first word of every line that has one is taken, in the order of the lines.
pub proof fn law_first_words_of_the_lines(l: Seq<Seq<char>>)
    ensures
        first_words(l) == l.map_values(|x: Seq<char>| words_spec(x)).filter(
            |w: Seq<Seq<char>>| w.len() > 0,
        ).map_values(|w: Seq<Seq<char>>| w[0]),
    decreases l.len(),
{
    reveal(Seq::filter);
    let split = |x: Seq<char>| words_spec(x);
    let some = |w: Seq<Seq<char>>| w.len() > 0;
    let head = |w: Seq<Seq<char>>| w[0];
    let m = l.map_values(split);
    if l.len() == 0 {
        assert(m.filter(some).map_values(head) =~= Seq::empty());
    } else {
        let init = l.subrange(0, l.len() - 1);
        law_first_words_of_the_lines(init);
        let before = init.map_values(split);
        assert(m.drop_last() =~= before);
        let last = words_spec(l[l.len() - 1]);
        assert(m.last() == last);
        if last.len() > 0 {
            assert(m.filter(some) == before.filter(some).push(last));
            assert(before.filter(some).push(last).map_values(head) =~= before.filter(
                some,
            ).map_values(head).push(last[0]));
        }
    }
}

/// The heading is left out, and every line below it is kept.
pub proof fn law_heading_is_left_out(heading: Seq<char>, l: Seq<Seq<char>>)
    ensures
        below_header(seq![heading] + l) == l,
        below_header(Seq::empty()) == Seq::<Seq<char>>::empty(),
{
    let all = seq![heading] + l;
    assert(all.subrange(1, all.len() as int) =~= l);
}

/// A device is a compressed RAM device by the beginning of its last component, and lives in RAM
/// alone exactly where it is one and its backing is known to be none.
pub proof fn law_devices_that_live_in_ram(dev: Seq<char>, backing: Option<Seq<char>>)
    ensures
        ram_only(dev, backing) <==> ("zram"@.is_prefix_of(last_component(dev)) && backing is Some
            && trim_spec(backing->Some_0) == "none"@),
        ram_only(dev, None) == false,
{
}

/// Data may reach a disk as soon as one device does not live in RAM alone.
pub proof fn law_one_device_is_enough(devices: Seq<String>, backing: Seq<Option<String>>, i: int)
    requires
        0 <= i < devices.len(),
    ensures
        !("zram"@.is_prefix_of(last_component(devices[i]@))) ==> some_reaches_disk(devices, backing),
        backing[i] is None ==> some_reaches_disk(devices, backing),
        backing[i] matches Some(b) ==> trim_spec(b@) != "none"@ ==> some_reaches_disk(
            devices,
            backing,
        ),
{
    if !ram_only(devices[i]@, optional_text(backing[i])) {
        assert(some_reaches_disk(devices, backing));
    }
}

/// Nothing reaches a disk where every device is a compressed RAM device whose backing is none.
pub proof fn law_ram_alone_reaches_no_disk(devices: Seq<String>, backing: Seq<Option<String>>)
    requires
        forall|i: int|
            0 <= i < devices.len() ==> "zram"@.is_prefix_of(
                last_component((#[trigger] devices[i])@),
            ) && backing[i] is Some && trim_spec(backing[i]->Some_0@) == "none"@,
    ensures
        !some_reaches_disk(devices, backing),
{
    if some_reaches_disk(devices, backing) {
        let i = choose|i: int|
            0 <= i < devices.len() && !ram_only((#[trigger] devices[i])@, optional_text(backing[i]));
        assert("zram"@.is_prefix_of(last_component(devices[i]@)));
        assert(ram_only(devices[i]@, optional_text(backing[i])));
    }
}

} // verus!
