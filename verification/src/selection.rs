//! The list of bundles as the user works on it: the filter that hides what
//! cannot be trimmed, the cursor that walks the visible entries, and the
//! marks that choose what a trim will work on.

use crate::scanner::{entries_of, AppInfo, Entry};
use vstd::prelude::*;

verus! {

/// Whether the filter shows an entry: all are shown, or only those that
/// hold the removable architecture.
pub open spec fn is_visible(e: Entry, show_all: bool) -> bool {
    show_all || e.has_removable()
}

/// The positions of the visible entries among the first `n`, ascending.
pub open spec fn visible_upto(entries: Seq<Entry>, show_all: bool, n: int) -> Seq<int>
    decreases n,
{
    if n <= 0 {
        Seq::empty()
    } else if is_visible(entries[n - 1], show_all) {
        visible_upto(entries, show_all, n - 1).push(n - 1)
    } else {
        visible_upto(entries, show_all, n - 1)
    }
}

/// The filtered view: the positions of the visible entries, in the order of
/// the list.
pub open spec fn visible_indices(entries: Seq<Entry>, show_all: bool) -> Seq<int> {
    visible_upto(entries, show_all, entries.len() as int)
}

/// The positions held in a vector, as integers.
pub open spec fn positions(v: Seq<usize>) -> Seq<int> {
    v.map_values(|i: usize| i as int)
}

/// The filtered view holds the positions of the visible entries and no
/// others, each once and in ascending order.
pub proof fn lemma_visible_upto(entries: Seq<Entry>, show_all: bool, n: int)
    requires
        0 <= n <= entries.len(),
    ensures
        forall|k: int|
            0 <= k < visible_upto(entries, show_all, n).len() ==> {
                let i = #[trigger] visible_upto(entries, show_all, n)[k];
                0 <= i < n && is_visible(entries[i], show_all)
            },
        forall|k: int, l: int|
            0 <= k < l < visible_upto(entries, show_all, n).len() ==> visible_upto(
                entries,
                show_all,
                n,
            )[k] < visible_upto(entries, show_all, n)[l],
        forall|i: int|
            0 <= i < n && is_visible(#[trigger] entries[i], show_all) ==> visible_upto(
                entries,
                show_all,
                n,
            ).contains(i),
        visible_upto(entries, show_all, n).len() <= n,
    decreases n,
{
    if n > 0 {
        lemma_visible_upto(entries, show_all, n - 1);
        let before = visible_upto(entries, show_all, n - 1);
        let now = visible_upto(entries, show_all, n);
        assert forall|i: int| 0 <= i < n && is_visible(#[trigger] entries[i], show_all) implies now.contains(
            i,
        ) by {
            if i < n - 1 {
                let k = choose|k: int| 0 <= k < before.len() && before[k] == i;
                assert(now[k] == i);
            } else {
                assert(now[now.len() - 1] == i);
            }
        }
    }
}

/// Lists the positions of the visible entries.
pub fn visible_positions(apps: &Vec<AppInfo>, show_all: bool) -> (r: Vec<usize>)
    ensures
        positions(r@) == visible_indices(entries_of(apps@), show_all),
{
    let mut out: Vec<usize> = Vec::new();
    let n = apps.len();
    let mut i: usize = 0;
    while i < n
        invariant
            i <= n == apps@.len(),
            positions(out@) == visible_upto(entries_of(apps@), show_all, i as int),
        decreases n - i,
    {
        if show_all || apps[i].has_x86_64() {
            out.push(i);
        }
        i += 1;
    }
    out
}

/// Whether the entry at `position` stands at place `k` of the filtered
/// view.
pub open spec fn is_place_of(entries: Seq<Entry>, show_all: bool, position: int, k: int) -> bool {
    0 <= k < visible_indices(entries, show_all).len() && visible_indices(entries, show_all)[k]
        == position
}

/// Finds the place in the filtered view of the entry at `position`; `None`
/// where the view does not show it.
pub fn place_in_view(apps: &Vec<AppInfo>, show_all: bool, position: usize) -> (r: Option<usize>)
    ensures
        match r {
            Some(k) => is_place_of(entries_of(apps@), show_all, position as int, k as int),
            None => forall|k: int| !is_place_of(entries_of(apps@), show_all, position as int, k),
        },
{
    let shown = visible_positions(apps, show_all);
    let n = shown.len();
    let mut k: usize = 0;
    while k < n
        invariant
            k <= n == shown@.len(),
            positions(shown@) == visible_indices(entries_of(apps@), show_all),
            forall|j: int| 0 <= j < k ==> positions(shown@)[j] != position,
        decreases n - k,
    {
        if shown[k] == position {
            return Some(k);
        }
        k += 1;
    }
    None
}

/// Whether `i` is the position of the first entry that holds the removable
/// architecture.
pub open spec fn is_first_eligible(entries: Seq<Entry>, i: int) -> bool {
    &&& 0 <= i < entries.len()
    &&& entries[i].has_removable()
    &&& forall|j: int| 0 <= j < i ==> !(#[trigger] entries[j]).has_removable()
}

/// Where the cursor rests when the list is shown afresh: on the first entry
/// that holds the removable architecture, or on the first entry where
/// there is none.
pub open spec fn home(entries: Seq<Entry>) -> int {
    if exists|i: int| is_first_eligible(entries, i) {
        choose|i: int| is_first_eligible(entries, i)
    } else {
        0
    }
}

/// Finds where the cursor rests when the list is shown afresh.
pub fn home_position(apps: &Vec<AppInfo>) -> (r: usize)
    ensures
        r == home(entries_of(apps@)),
        apps@.len() > 0 ==> r < apps@.len(),
{
    let n = apps.len();
    let mut i: usize = 0;
    while i < n
        invariant
            i <= n == apps@.len(),
            forall|j: int| 0 <= j < i ==> !(#[trigger] entries_of(apps@)[j]).has_removable(),
        decreases n - i,
    {
        if apps[i].has_x86_64() {
            assert(is_first_eligible(entries_of(apps@), i as int));
            return i;
        }
        i += 1;
    }
    0
}

/// The two ways in which the cursor moves.
#[derive(Debug, Clone, Copy, PartialEq, Eq, Structural)]
pub enum Direction {
    /// Towards the end of the list, and from the last entry to the first.
    Down,
    /// Towards the beginning of the list, and from the first entry to the
    /// last.
    Up,
}

/// The position `k` steps from `c` in a ring of `n` positions, for `c` in
/// the ring and `k` no more than `n`.
pub open spec fn stepped(c: int, k: int, n: int, dir: Direction) -> int {
    match dir {
        Direction::Down => if c + k < n {
            c + k
        } else {
            c + k - n
        },
        Direction::Up => if c >= k {
            c - k
        } else {
            c + n - k
        },
    }
}

/// Whether the first visible entry that is met from the cursor in the given
/// direction, the cursor's own entry not counted, lies `k` steps away.
pub open spec fn is_nearest_visible(
    entries: Seq<Entry>,
    show_all: bool,
    c: int,
    dir: Direction,
    k: int,
) -> bool {
    let n = entries.len() as int;
    &&& 1 <= k < n
    &&& is_visible(entries[stepped(c, k, n, dir)], show_all)
    &&& forall|j: int| 1 <= j < k ==> !is_visible(#[trigger] entries[stepped(c, j, n, dir)], show_all)
}

/// Where a move takes the cursor: to the nearest visible entry in the given
/// direction, going round the ends of the list. The cursor stays where no
/// other entry is visible, and where it does not lie in the list.
pub open spec fn moved(entries: Seq<Entry>, show_all: bool, c: int, dir: Direction) -> int {
    if 0 <= c < entries.len() && exists|k: int| is_nearest_visible(entries, show_all, c, dir, k) {
        stepped(
            c,
            choose|k: int| is_nearest_visible(entries, show_all, c, dir, k),
            entries.len() as int,
            dir,
        )
    } else {
        c
    }
}

/// A move keeps the cursor in the list, and takes it to a visible entry
/// unless it stays.
pub proof fn lemma_moved(entries: Seq<Entry>, show_all: bool, c: int, dir: Direction)
    requires
        0 <= c < entries.len(),
    ensures
        0 <= moved(entries, show_all, c, dir) < entries.len(),
        moved(entries, show_all, c, dir) != c ==> is_visible(
            entries[moved(entries, show_all, c, dir)],
            show_all,
        ),
        visible_indices(entries, show_all).len() == 0 ==> moved(entries, show_all, c, dir) == c,
{
    lemma_visible_upto(entries, show_all, entries.len() as int);
}

/// Moves a cursor to the nearest visible entry in the given direction.
pub fn move_cursor(apps: &Vec<AppInfo>, show_all: bool, cursor: usize, dir: Direction) -> (r: usize)
    ensures
        r == moved(entries_of(apps@), show_all, cursor as int, dir),
{
    let n = apps.len();
    if cursor >= n {
        return cursor;
    }
    let ghost entries = entries_of(apps@);
    let mut at: usize = cursor;
    let mut k: usize = 1;
    while k < n
        invariant
            1 <= k <= n == apps@.len(),
            cursor < n,
            entries == entries_of(apps@),
            at == stepped(cursor as int, k - 1, n as int, dir),
            at < n,
            forall|j: int|
                1 <= j < k ==> !is_visible(
                    #[trigger] entries[stepped(cursor as int, j, n as int, dir)],
                    show_all,
                ),
        decreases n - k,
    {
        at = match dir {
            Direction::Down => if at + 1 == n {
                0
            } else {
                at + 1
            },
            Direction::Up => if at == 0 {
                n - 1
            } else {
                at - 1
            },
        };
        if show_all || apps[at].has_x86_64() {
            assert(is_nearest_visible(entries, show_all, cursor as int, dir, k as int));
            return at;
        }
        k += 1;
    }
    cursor
}

/// The list after the mark of entry `i` is turned over. Only an entry that
/// holds the removable architecture has a mark to turn over.
pub open spec fn toggled(entries: Seq<Entry>, i: int) -> Seq<Entry> {
    if 0 <= i < entries.len() && entries[i].has_removable() {
        entries.update(i, entries[i].with_selected(!entries[i].selected))
    } else {
        entries
    }
}

/// Whether every entry that holds the removable architecture is marked.
pub open spec fn all_eligible_selected(entries: Seq<Entry>) -> bool {
    forall|i: int|
        0 <= i < entries.len() && (#[trigger] entries[i]).has_removable() ==> entries[i].selected
}

/// The list with every entry that holds the removable architecture marked
/// as given, and the others as they were.
pub open spec fn with_all_selected(entries: Seq<Entry>, selected: bool) -> Seq<Entry> {
    entries.map_values(
        |e: Entry|
            if e.has_removable() {
                e.with_selected(selected)
            } else {
                e
            },
    )
}

/// The list after all marks are turned over at once: where all eligible
/// entries were marked, none is; otherwise all are.
pub open spec fn toggled_all(entries: Seq<Entry>) -> Seq<Entry> {
    with_all_selected(entries, !all_eligible_selected(entries))
}

/// Turns over the mark of entry `i`, if it has one.
pub fn toggle_at(apps: &mut Vec<AppInfo>, i: usize)
    ensures
        entries_of(final(apps)@) == toggled(entries_of(old(apps)@), i as int),
{
    if i < apps.len() && apps[i].has_x86_64() {
        let now = apps[i].selected;
        apps[i].selected = !now;
    }
}

/// Tells whether every entry that holds the removable architecture is
/// marked.
pub fn all_selected(apps: &Vec<AppInfo>) -> (r: bool)
    ensures
        r == all_eligible_selected(entries_of(apps@)),
{
    let n = apps.len();
    let mut i: usize = 0;
    while i < n
        invariant
            i <= n == apps@.len(),
            forall|j: int|
                0 <= j < i && (#[trigger] entries_of(apps@)[j]).has_removable() ==> entries_of(
                    apps@,
                )[j].selected,
        decreases n - i,
    {
        if apps[i].has_x86_64() && !apps[i].selected {
            assert(entries_of(apps@)[i as int].has_removable());
            return false;
        }
        i += 1;
    }
    true
}

/// Turns over all marks at once.
pub fn toggle_all(apps: &mut Vec<AppInfo>)
    ensures
        entries_of(final(apps)@) == toggled_all(entries_of(old(apps)@)),
{
    let target = !all_selected(apps);
    let ghost before = entries_of(apps@);
    let n = apps.len();
    let mut i: usize = 0;
    while i < n
        invariant
            i <= n == apps@.len() == before.len(),
            forall|j: int|
                0 <= j < i ==> entries_of(apps@)[j] == with_all_selected(before, target)[j],
            forall|j: int| i <= j < n ==> entries_of(apps@)[j] == before[j],
        decreases n - i,
    {
        if apps[i].has_x86_64() {
            apps[i].selected = target;
        }
        i += 1;
    }
}

/// Whether a trim works on an entry: it is marked and holds the removable
/// architecture.
pub open spec fn is_target(e: Entry) -> bool {
    e.selected && e.has_removable()
}

/// The entries that a trim works on, in the order of the list.
pub open spec fn targets(entries: Seq<Entry>) -> Seq<Entry> {
    entries.filter(|e: Entry| is_target(e))
}

/// Copies out the entries that a trim works on.
pub fn selected_targets(apps: &Vec<AppInfo>) -> (r: Vec<AppInfo>)
    ensures
        entries_of(r@) == targets(entries_of(apps@)),
{
    let ghost entries = entries_of(apps@);
    let mut out: Vec<AppInfo> = Vec::new();
    let n = apps.len();
    let mut i: usize = 0;
    assert(entries.take(0).filter(|e: Entry| is_target(e)) =~= Seq::<Entry>::empty()) by {
        broadcast use vstd::seq_lib::group_filter_ensures;

    }
    while i < n
        invariant
            i <= n == apps@.len(),
            entries == entries_of(apps@),
            entries_of(out@) == targets(entries.take(i as int)),
        decreases n - i,
    {
        assert(entries.take(i + 1).drop_last() == entries.take(i as int));
        reveal(Seq::filter);
        if apps[i].selected && apps[i].has_x86_64() {
            let copy = apps[i].clone();
            out.push(copy);
        }
        i += 1;
    }
    assert(entries.take(n as int) == entries);
    out
}

/// Turning over the mark of an entry that does not hold the removable
/// architecture changes nothing, whatever its mark was.
pub proof fn lemma_toggle_needs_removable(entries: Seq<Entry>, i: int)
    requires
        0 <= i < entries.len(),
        !entries[i].has_removable(),
    ensures
        toggled(entries, i) == entries,
{
}

/// Turning over one mark or all of them changes nothing but marks, and no
/// mark of an entry that does not hold the removable architecture.
pub proof fn lemma_toggles_keep_ineligible(entries: Seq<Entry>, i: int, j: int)
    requires
        0 <= j < entries.len(),
    ensures
        toggled(entries, i).len() == entries.len(),
        toggled_all(entries).len() == entries.len(),
        toggled(entries, i)[j].with_selected(entries[j].selected) == entries[j],
        toggled_all(entries)[j].with_selected(entries[j].selected) == entries[j],
        !entries[j].has_removable() ==> toggled(entries, i)[j] == entries[j] && toggled_all(
            entries,
        )[j] == entries[j],
        j != i ==> toggled(entries, i)[j] == entries[j],
{
}

/// Turning over the same mark twice restores the list.
pub proof fn lemma_toggle_twice(entries: Seq<Entry>, i: int)
    ensures
        toggled(toggled(entries, i), i) == entries,
{
}

/// Turning over all marks twice gives every eligible entry the mark that
/// says whether all of them were marked at first.
pub proof fn lemma_toggle_all_twice(entries: Seq<Entry>)
    ensures
        toggled_all(toggled_all(entries)) == with_all_selected(
            entries,
            all_eligible_selected(entries),
        ),
{
    let once = toggled_all(entries);
    assert forall|j: int| 0 <= j < entries.len() implies (#[trigger] once[j]).has_removable()
        == entries[j].has_removable() by {}
}

/// Whether the eligible entries all bear the same mark.
pub open spec fn marks_agree(entries: Seq<Entry>) -> bool {
    forall|i: int, j: int|
        0 <= i < entries.len() && 0 <= j < entries.len() && (#[trigger] entries[i]).has_removable()
            && (#[trigger] entries[j]).has_removable() ==> entries[i].selected
            == entries[j].selected
}

/// Turning over all marks is its own inverse on a list whose eligible
/// entries all bear the same mark: doing it twice restores every mark.
pub proof fn lemma_toggle_all_is_involution(entries: Seq<Entry>)
    requires
        marks_agree(entries),
    ensures
        toggled_all(toggled_all(entries)) == entries,
{
    lemma_toggle_all_twice(entries);
    let twice = with_all_selected(entries, all_eligible_selected(entries));
    assert forall|j: int| 0 <= j < entries.len() implies twice[j] == entries[j] by {}
}

/// The cursor's resting place lies in the list.
pub proof fn lemma_home_in_list(entries: Seq<Entry>)
    ensures
        0 <= home(entries),
        entries.len() > 0 ==> home(entries) < entries.len(),
        entries.len() == 0 ==> home(entries) == 0,
        home(entries) != 0 ==> entries[home(entries)].has_removable(),
{
}

/// Every entry that a trim works on is marked and holds the removable
/// architecture, and every such entry of the list is worked on.
pub proof fn lemma_targets(entries: Seq<Entry>)
    ensures
        forall|k: int| 0 <= k < targets(entries).len() ==> is_target(#[trigger] targets(entries)[k]),
        forall|i: int|
            0 <= i < entries.len() && is_target(#[trigger] entries[i]) ==> targets(entries).contains(
                entries[i],
            ),
        targets(entries).len() <= entries.len(),
{
    broadcast use vstd::seq_lib::group_filter_ensures;

}

} // verus!
