//! The two orders in which the list of bundles is shown, and a stable sort
//! into either.

use crate::scanner::{entries_of, lemma_sized_is_removable, AppInfo, Entry};
use crate::text::{
    bytes_lt, lemma_bytes_lt_irreflexive, lemma_bytes_lt_total, lemma_bytes_lt_transitive, str_lt,
    text_lt,
};
use vstd::prelude::*;
use vstd::utf8::encode_utf8;

verus! {

/// The order in which the list is shown.
#[derive(Debug, Clone, Copy, PartialEq, Eq, Structural)]
pub enum SortMode {
    /// By the size of the removable architecture, largest first.
    Size,
    /// By name.
    Alphabetical,
}

/// The three classes into which the order by size divides the entries: 0
/// for an entry whose removable size is known, 1 for an entry that holds
/// the removable architecture with no known size, 2 for an entry that does
/// not hold the removable architecture.
pub open spec fn size_class(e: Entry) -> int {
    if e.removable_size() is Some {
        0
    } else if e.has_removable() {
        1
    } else {
        2
    }
}

/// Whether `a` must stand before `b` in the given order. By name, the name
/// decides. By size, the entries whose removable size is known stand first,
/// the larger size before the smaller; after them stand the entries that
/// hold the removable architecture with no known size; at the end stand
/// the entries that do not hold the removable architecture. Within each of
/// the last two classes the name decides.
pub open spec fn precedes(a: Entry, b: Entry, mode: SortMode) -> bool {
    match mode {
        SortMode::Alphabetical => text_lt(a.name, b.name),
        SortMode::Size => if size_class(a) != size_class(b) {
            size_class(a) < size_class(b)
        } else if size_class(a) == 0 {
            a.removable_size()->0 > b.removable_size()->0
        } else {
            text_lt(a.name, b.name)
        },
    }
}

/// Whether no entry of the list must stand before an earlier one.
pub open spec fn is_ordered(s: Seq<Entry>, mode: SortMode) -> bool {
    forall|i: int, j: int| 0 <= i < j < s.len() ==> !precedes(s[j], s[i], mode)
}

/// The list `t` with `x` put in after the leading entries that must stand
/// before it.
pub open spec fn insert_sorted(x: Entry, t: Seq<Entry>, mode: SortMode) -> Seq<Entry>
    decreases t.len(),
{
    if t.len() > 0 && precedes(t[0], x, mode) {
        seq![t[0]] + insert_sorted(x, t.skip(1), mode)
    } else {
        seq![x] + t
    }
}

/// The list in the given order. Entries of which neither must stand before
/// the other keep the order in which they came.
pub open spec fn sorted(s: Seq<Entry>, mode: SortMode) -> Seq<Entry>
    decreases s.len(),
{
    if s.len() == 0 {
        s
    } else {
        insert_sorted(s[0], sorted(s.skip(1), mode), mode)
    }
}

/// Tells the class of an entry in the order by size.
fn class_of(a: &AppInfo) -> (r: u8)
    ensures
        r == size_class(a@),
{
    if a.x86_64_size().is_some() {
        0
    } else if a.has_x86_64() {
        1
    } else {
        2
    }
}

/// Tells whether `a` must stand before `b` in the given order.
pub fn comes_before(a: &AppInfo, b: &AppInfo, mode: SortMode) -> (r: bool)
    ensures
        r == precedes(a@, b@, mode),
{
    match mode {
        SortMode::Alphabetical => str_lt(a.name.as_str(), b.name.as_str()),
        SortMode::Size => {
            let class_a = class_of(a);
            let class_b = class_of(b);
            if class_a != class_b {
                class_a < class_b
            } else {
                match (a.x86_64_size(), b.x86_64_size()) {
                    (Some(x), Some(y)) => x > y,
                    _ => str_lt(a.name.as_str(), b.name.as_str()),
                }
            }
        },
    }
}

/// Putting an entry into a list leaves the entries before its place and
/// those from its place on as they were.
proof fn lemma_insert_at(x: Entry, t: Seq<Entry>, mode: SortMode, p: int)
    requires
        0 <= p <= t.len(),
        forall|i: int| 0 <= i < p ==> precedes(t[i], x, mode),
        p < t.len() ==> !precedes(t[p], x, mode),
    ensures
        insert_sorted(x, t, mode) == t.take(p) + seq![x] + t.skip(p),
    decreases p,
{
    if p > 0 {
        lemma_insert_at(x, t.skip(1), mode, p - 1);
        assert(seq![t[0]] + (t.skip(1).take(p - 1) + seq![x] + t.skip(1).skip(p - 1)) =~= t.take(p)
            + seq![x] + t.skip(p));
    }
}

/// Puts the list into the given order.
pub fn sort_entries(apps: Vec<AppInfo>, mode: SortMode) -> (r: Vec<AppInfo>)
    ensures
        entries_of(r@) == sorted(entries_of(apps@), mode),
{
    let ghost all = entries_of(apps@);
    let mut rest = apps;
    let mut out: Vec<AppInfo> = Vec::new();
    while rest.len() > 0
        invariant
            entries_of(rest@) == all.take(rest@.len() as int),
            rest@.len() <= all.len(),
            entries_of(out@) == sorted(all.skip(rest@.len() as int), mode),
        decreases rest@.len(),
    {
        let ghost k = rest@.len() - 1;
        let ghost unsorted = rest@;
        let x = rest.pop().unwrap();
        assert(all.take(unsorted.len() as int)[k] == all[k]);
        let m = out.len();
        let mut p: usize = 0;
        while p < m && comes_before(&out[p], &x, mode)
            invariant
                p <= m == out@.len(),
                forall|i: int| 0 <= i < p ==> precedes(entries_of(out@)[i], x@, mode),
            decreases m - p,
        {
            p += 1;
        }
        proof {
            lemma_insert_at(x@, entries_of(out@), mode, p as int);
            assert(all.skip(k).skip(1) == all.skip(k + 1));
        }
        out.insert(p, x);
    }
    assert(all.skip(0) == all);
    out
}

/// The order of texts is irreflexive and total, and it is transitive also
/// where it does not hold: if `a` does not come before `b`, nor `b` before
/// `c`, then `a` does not come before `c`.
pub proof fn lemma_text_order(a: Seq<char>, b: Seq<char>, c: Seq<char>)
    ensures
        !text_lt(a, a),
        text_lt(a, b) ==> !text_lt(b, a),
        text_lt(a, b) && text_lt(b, c) ==> text_lt(a, c),
        !text_lt(a, b) && !text_lt(b, c) ==> !text_lt(a, c),
        !text_lt(a, b) && !text_lt(b, a) ==> a == b,
{
    let x = encode_utf8(a);
    let y = encode_utf8(b);
    let z = encode_utf8(c);
    lemma_bytes_lt_irreflexive(x);
    lemma_bytes_lt_total(x, y);
    lemma_bytes_lt_total(y, z);
    lemma_bytes_lt_total(x, z);
    if bytes_lt(x, y) && bytes_lt(y, z) {
        lemma_bytes_lt_transitive(x, y, z);
    }
    if !bytes_lt(x, y) && !bytes_lt(y, z) && bytes_lt(x, z) && x != y && y != z {
        lemma_bytes_lt_transitive(z, y, x);
    }
    if !text_lt(a, b) && !text_lt(b, a) {
        vstd::utf8::encode_utf8_decode_utf8(a);
        vstd::utf8::encode_utf8_decode_utf8(b);
    }
}

/// Either order is a strict weak order: nothing stands before itself, two
/// entries are never each before the other, and the relation is transitive
/// both where it holds and where it does not.
pub proof fn lemma_precedes_is_strict_weak_order(a: Entry, b: Entry, c: Entry, mode: SortMode)
    ensures
        !precedes(a, a, mode),
        precedes(a, b, mode) ==> !precedes(b, a, mode),
        precedes(a, b, mode) && precedes(b, c, mode) ==> precedes(a, c, mode),
        !precedes(a, b, mode) && !precedes(b, c, mode) ==> !precedes(a, c, mode),
{
    lemma_text_order(a.name, b.name, c.name);
    lemma_text_order(b.name, c.name, a.name);
}

/// Putting an entry into a list adds that entry and nothing else.
pub proof fn lemma_insert_sorted_multiset(x: Entry, t: Seq<Entry>, mode: SortMode)
    ensures
        insert_sorted(x, t, mode).to_multiset() == t.to_multiset().insert(x),
        insert_sorted(x, t, mode).len() == t.len() + 1,
    decreases t.len(),
{
    broadcast use vstd::seq_lib::group_to_multiset_ensures;

    if t.len() > 0 && precedes(t[0], x, mode) {
        lemma_insert_sorted_multiset(x, t.skip(1), mode);
        let r = insert_sorted(x, t.skip(1), mode);
        assert(t =~= seq![t[0]] + t.skip(1));
        vstd::seq_lib::lemma_multiset_commutative(seq![t[0]], r);
        vstd::seq_lib::lemma_multiset_commutative(seq![t[0]], t.skip(1));
    } else {
        vstd::seq_lib::lemma_multiset_commutative(seq![x], t);
    }
}

/// Sorting rearranges: the sorted list holds the entries of the list it was
/// made from, each as often as that list does.
pub proof fn lemma_sorted_is_permutation(s: Seq<Entry>, mode: SortMode)
    ensures
        sorted(s, mode).to_multiset() == s.to_multiset(),
        sorted(s, mode).len() == s.len(),
    decreases s.len(),
{
    broadcast use vstd::seq_lib::group_to_multiset_ensures;

    if s.len() > 0 {
        lemma_sorted_is_permutation(s.skip(1), mode);
        lemma_insert_sorted_multiset(s[0], sorted(s.skip(1), mode), mode);
        assert(s =~= seq![s[0]] + s.skip(1));
        vstd::seq_lib::lemma_multiset_commutative(seq![s[0]], s.skip(1));
    }
}

/// Each entry of a list into which `x` was put is `x` or an entry of the
/// list.
proof fn lemma_insert_sorted_members(x: Entry, t: Seq<Entry>, mode: SortMode, j: int)
    requires
        0 <= j < insert_sorted(x, t, mode).len(),
    ensures
        insert_sorted(x, t, mode)[j] == x || exists|k: int|
            0 <= k < t.len() && insert_sorted(x, t, mode)[j] == t[k],
    decreases t.len(),
{
    if t.len() > 0 && precedes(t[0], x, mode) && j > 0 {
        lemma_insert_sorted_members(x, t.skip(1), mode, j - 1);
    }
}

/// An ordered list without its first entry is ordered.
proof fn lemma_is_ordered_skip(s: Seq<Entry>, mode: SortMode)
    requires
        is_ordered(s, mode),
        s.len() > 0,
    ensures
        is_ordered(s.skip(1), mode),
{
    let t = s.skip(1);
    assert forall|i: int, j: int| 0 <= i < j < t.len() implies !precedes(t[j], t[i], mode) by {
        assert(t[i] == s[i + 1] && t[j] == s[j + 1]);
    }
}

/// Putting an entry into an ordered list gives an ordered list.
pub proof fn lemma_insert_sorted_is_ordered(x: Entry, t: Seq<Entry>, mode: SortMode)
    requires
        is_ordered(t, mode),
    ensures
        is_ordered(insert_sorted(x, t, mode), mode),
    decreases t.len(),
{
    let r = insert_sorted(x, t, mode);
    if t.len() > 0 && precedes(t[0], x, mode) {
        lemma_is_ordered_skip(t, mode);
        lemma_insert_sorted_is_ordered(x, t.skip(1), mode);
        assert forall|i: int, j: int| 0 <= i < j < r.len() implies !precedes(r[j], r[i], mode) by {
            if i == 0 {
                lemma_insert_sorted_members(x, t.skip(1), mode, j - 1);
                lemma_precedes_is_strict_weak_order(t[0], x, x, mode);
            }
        }
    } else {
        assert forall|i: int, j: int| 0 <= i < j < r.len() implies !precedes(r[j], r[i], mode) by {
            if i == 0 && j > 1 {
                lemma_precedes_is_strict_weak_order(t[j - 1], t[0], x, mode);
            }
        }
    }
}

/// A sorted list is ordered: no entry must stand before an earlier one.
pub proof fn lemma_sorted_is_ordered(s: Seq<Entry>, mode: SortMode)
    ensures
        is_ordered(sorted(s, mode), mode),
    decreases s.len(),
{
    if s.len() > 0 {
        lemma_sorted_is_ordered(s.skip(1), mode);
        lemma_insert_sorted_is_ordered(s[0], sorted(s.skip(1), mode), mode);
    }
}

/// A list that is ordered already stays as it is.
pub proof fn lemma_sorted_keeps_ordered(s: Seq<Entry>, mode: SortMode)
    requires
        is_ordered(s, mode),
    ensures
        sorted(s, mode) == s,
    decreases s.len(),
{
    if s.len() > 0 {
        lemma_is_ordered_skip(s, mode);
        lemma_sorted_keeps_ordered(s.skip(1), mode);
    }
}

/// Sorting a second time changes nothing.
pub proof fn lemma_sorted_is_idempotent(s: Seq<Entry>, mode: SortMode)
    ensures
        sorted(sorted(s, mode), mode) == sorted(s, mode),
{
    lemma_sorted_is_ordered(s, mode);
    lemma_sorted_keeps_ordered(sorted(s, mode), mode);
}

/// In the order by size no entry whose removable size is known stands
/// after one whose size is not known, and no entry that holds the removable
/// architecture stands after one that does not. Known sizes never
/// increase, and within the entries of unknown size that hold the
/// architecture, and within those that do not hold it, names never
/// decrease.
pub proof fn lemma_sorted_by_size(s: Seq<Entry>, i: int, j: int)
    requires
        0 <= i < j < s.len(),
    ensures
        ({
            let r = sorted(s, SortMode::Size);
            &&& r.len() == s.len()
            &&& size_class(r[i]) <= size_class(r[j])
            &&& r[i].removable_size() is None ==> r[j].removable_size() is None
            &&& !r[i].has_removable() ==> !r[j].has_removable()
            &&& r[i].removable_size() is Some && r[j].removable_size() is Some
                ==> r[i].removable_size()->0 >= r[j].removable_size()->0
            &&& r[i].removable_size() is None && r[i].has_removable() == r[j].has_removable()
                ==> !text_lt(r[j].name, r[i].name)
        }),
{
    lemma_sorted_is_permutation(s, SortMode::Size);
    lemma_sorted_is_ordered(s, SortMode::Size);
    let r = sorted(s, SortMode::Size);
    assert(!precedes(r[j], r[i], SortMode::Size));
    lemma_sized_is_removable(r[i]);
    lemma_sized_is_removable(r[j]);
}

/// In the order by name the names never decrease, and the order of names
/// is total: of two different names one comes before the other.
pub proof fn lemma_sorted_by_name(s: Seq<Entry>, i: int, j: int)
    requires
        0 <= i < j < s.len(),
    ensures
        ({
            let r = sorted(s, SortMode::Alphabetical);
            &&& r.len() == s.len()
            &&& !text_lt(r[j].name, r[i].name)
            &&& text_lt(r[i].name, r[j].name) || r[i].name == r[j].name
        }),
{
    lemma_sorted_is_permutation(s, SortMode::Alphabetical);
    lemma_sorted_is_ordered(s, SortMode::Alphabetical);
    let r = sorted(s, SortMode::Alphabetical);
    assert(!precedes(r[j], r[i], SortMode::Alphabetical));
    lemma_text_order(r[i].name, r[j].name, r[i].name);
}

/// Whether neither of two entries must stand before the other.
pub open spec fn ties(a: Entry, b: Entry, mode: SortMode) -> bool {
    !precedes(a, b, mode) && !precedes(b, a, mode)
}

/// What is left of a list of one entry when only the entries that satisfy
/// `keep` are kept.
proof fn lemma_filter_one(a: Entry, keep: spec_fn(Entry) -> bool)
    ensures
        seq![a].filter(keep) == if keep(a) {
            seq![a]
        } else {
            Seq::<Entry>::empty()
        },
{
    reveal_with_fuel(Seq::filter, 2);
    assert(seq![a].filter(keep) =~= if keep(a) {
        seq![a]
    } else {
        Seq::<Entry>::empty()
    });
}

/// Putting an entry into a list puts it before the entries that tie with
/// it.
proof fn lemma_insert_sorted_is_stable(y: Entry, t: Seq<Entry>, mode: SortMode, x: Entry)
    ensures
        insert_sorted(y, t, mode).filter(|e: Entry| ties(e, x, mode)) == (seq![y] + t).filter(
            |e: Entry| ties(e, x, mode),
        ),
    decreases t.len(),
{
    let keep = |e: Entry| ties(e, x, mode);
    if t.len() > 0 && precedes(t[0], y, mode) {
        let rest = t.skip(1);
        lemma_insert_sorted_is_stable(y, rest, mode, x);
        Seq::filter_distributes_over_add(seq![t[0]], insert_sorted(y, rest, mode), keep);
        Seq::filter_distributes_over_add(seq![y], rest, keep);
        Seq::filter_distributes_over_add(seq![y], t, keep);
        Seq::filter_distributes_over_add(seq![t[0]], rest, keep);
        assert(t =~= seq![t[0]] + rest);
        lemma_filter_one(t[0], keep);
        lemma_filter_one(y, keep);
        lemma_precedes_is_strict_weak_order(t[0], x, y, mode);
        assert(seq![t[0]].filter(keep) + (seq![y].filter(keep) + rest.filter(keep)) =~= seq![
            y,
        ].filter(keep) + (seq![t[0]].filter(keep) + rest.filter(keep)));
    }
}

/// Sorting is stable: entries that tie stand in the sorted list in the
/// order in which they stood before. For every entry `x`, the entries that
/// tie with `x` form the same sequence before and after.
pub proof fn lemma_sorted_is_stable(s: Seq<Entry>, mode: SortMode, x: Entry)
    ensures
        sorted(s, mode).filter(|e: Entry| ties(e, x, mode)) == s.filter(
            |e: Entry| ties(e, x, mode),
        ),
    decreases s.len(),
{
    let keep = |e: Entry| ties(e, x, mode);
    if s.len() > 0 {
        let rest = s.skip(1);
        lemma_sorted_is_stable(rest, mode, x);
        lemma_insert_sorted_is_stable(s[0], sorted(rest, mode), mode, x);
        Seq::filter_distributes_over_add(seq![s[0]], sorted(rest, mode), keep);
        Seq::filter_distributes_over_add(seq![s[0]], rest, keep);
        assert(s =~= seq![s[0]] + rest);
    }
}

} // verus!
