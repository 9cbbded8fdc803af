//! Finding the bundles of the applications directory: which directory
//! entries are bundles, which file of a bundle is its executable, and the
//! course of a scan, with the progress that it reports.

use crate::order::{lemma_sorted_is_permutation, sort_entries, sorted, SortMode};
use crate::scanner::{entries_of, AppInfo, Entry};
use crate::text::{chars_of, ends_with, string_of};
use vstd::prelude::*;
use vstd::slice::slice_subrange;

verus! {

/// The directory that is scanned.
pub const APPLICATIONS_DIR: &'static str = "/Applications";

/// What the name of a bundle's directory ends with.
pub const BUNDLE_SUFFIX: &'static str = ".app";

/// The two directories that lead from a bundle to its executables.
pub const CONTENTS_DIR: &'static str = "Contents";

pub const MACOS_DIR: &'static str = "MacOS";

/// The name reported for a bundle whose own name cannot be shown.
pub const UNKNOWN_NAME: &'static str = "Unknown";

/// The permission bits that let the owner, the group or anyone execute a
/// file.
pub const EXECUTE_BITS: u32 = 0o111;

/// Whether a directory entry of this name is a bundle.
pub open spec fn is_bundle_name(name: Seq<char>) -> bool {
    BUNDLE_SUFFIX@.is_suffix_of(name)
}

/// The name of a bundle without its suffix: the name under which it is
/// shown, and the name of its main executable.
pub open spec fn bundle_stem(name: Seq<char>) -> Seq<char> {
    name.take(name.len() - BUNDLE_SUFFIX@.len())
}

/// Returns the name of a bundle without its suffix, and `None` for a name
/// that is not a bundle's.
pub fn bundle_name(file_name: &str) -> (r: Option<String>)
    ensures
        match r {
            Some(stem) => is_bundle_name(file_name@) && stem@ == bundle_stem(file_name@),
            None => !is_bundle_name(file_name@),
        },
{
    let chars = chars_of(file_name);
    let suffix = chars_of(BUNDLE_SUFFIX);
    if ends_with(chars.as_slice(), suffix.as_slice()) {
        let stem = slice_subrange(chars.as_slice(), 0, chars.len() - suffix.len());
        Some(string_of(stem))
    } else {
        None
    }
}

/// Whether a file mode lets anyone execute the file.
pub open spec fn grants_execution(mode: u32) -> bool {
    mode & EXECUTE_BITS != 0
}

/// Tells whether a file mode lets anyone execute the file.
pub fn is_executable(mode: u32) -> (r: bool)
    ensures
        r == grants_execution(mode),
{
    mode & EXECUTE_BITS != 0
}

/// What is known of one entry of a bundle's directory of executables.
#[derive(Debug, Clone, Copy, PartialEq, Eq, Structural)]
pub struct FileStat {
    /// Whether it is a regular file.
    pub is_file: bool,
    /// Its permission bits, 0 where they could not be read.
    pub mode: u32,
}

/// The file of a bundle that is taken for its executable.
#[derive(Debug, Clone, Copy, PartialEq, Eq, Structural)]
pub enum Executable {
    /// The file named like the bundle.
    Named,
    /// The entry of the directory at this position.
    Listed(usize),
}

/// Whether an entry can stand for the executable: a regular file that
/// someone may execute.
pub open spec fn is_runnable(c: FileStat) -> bool {
    c.is_file && grants_execution(c.mode)
}

/// Chooses a bundle's executable, given whether the bundle has a directory
/// of executables, whether that holds a file named like the bundle, and
/// what else it holds, in the order of the listing. The choice is the file
/// named like the bundle where it exists, else the first entry of the
/// directory that is a regular file and executable. `None` where the
/// directory is missing or holds neither: the bundle is left out.
pub fn choose_executable(dir_exists: bool, named_exists: bool, files: &Vec<FileStat>) -> (r:
    Option<Executable>)
    ensures
        match r {
            Some(Executable::Named) => dir_exists && named_exists,
            Some(Executable::Listed(i)) => {
                &&& dir_exists
                &&& !named_exists
                &&& i < files@.len()
                &&& is_runnable(files@[i as int])
                &&& forall|j: int| 0 <= j < i ==> !is_runnable(#[trigger] files@[j])
            },
            None => !dir_exists || (!named_exists && forall|j: int|
                0 <= j < files@.len() ==> !is_runnable(#[trigger] files@[j])),
        },
{
    if !dir_exists {
        return None;
    }
    if named_exists {
        return Some(Executable::Named);
    }
    let n = files.len();
    let mut i: usize = 0;
    while i < n
        invariant
            i <= n == files@.len(),
            dir_exists,
            !named_exists,
            forall|j: int| 0 <= j < i ==> !is_runnable(#[trigger] files@[j]),
        decreases n - i,
    {
        if files[i].is_file && is_executable(files[i].mode) {
            return Some(Executable::Listed(i));
        }
        i += 1;
    }
    None
}

/// How far a scan has come: `completed` of `total` directory entries.
#[derive(Debug, Clone, Copy, PartialEq, Eq, Structural)]
pub struct ScanProgress {
    pub completed: usize,
    pub total: usize,
}

/// One entry of the listing of the applications directory.
#[derive(Debug)]
pub struct Listed {
    /// The entry's name.
    pub name: String,
    /// Whether the entry is a directory.
    pub is_dir: bool,
}

/// The mathematical value of a `Listed`.
pub struct Item {
    pub name: Seq<char>,
    pub is_dir: bool,
}

impl View for Listed {
    type V = Item;

    open spec fn view(&self) -> Item {
        Item { name: self.name@, is_dir: self.is_dir }
    }
}

/// The values of a listing.
pub open spec fn items_of(v: Seq<Listed>) -> Seq<Item> {
    v.map_values(|e: Listed| e@)
}

/// Whether an entry of the listing is a candidate: a directory with a
/// bundle's name.
pub open spec fn is_candidate(item: Item) -> bool {
    item.is_dir && is_bundle_name(item.name)
}

/// A candidate bundle: where it stands in the listing, and its name without
/// the suffix.
#[derive(Debug)]
pub struct Candidate {
    pub position: usize,
    pub name: String,
}

/// The mathematical value of a `Candidate`.
pub struct Bundle {
    pub position: int,
    pub name: Seq<char>,
}

impl View for Candidate {
    type V = Bundle;

    open spec fn view(&self) -> Bundle {
        Bundle { position: self.position as int, name: self.name@ }
    }
}

/// The values of a sequence of candidates.
pub open spec fn bundles_of(v: Seq<Candidate>) -> Seq<Bundle> {
    v.map_values(|c: Candidate| c@)
}

/// The candidates among the first `n` entries of a listing, in the order of
/// the listing.
pub open spec fn candidates_upto(listing: Seq<Item>, n: int) -> Seq<Bundle>
    decreases n,
{
    if n <= 0 {
        Seq::empty()
    } else if is_candidate(listing[n - 1]) {
        candidates_upto(listing, n - 1).push(
            Bundle { position: n - 1, name: bundle_stem(listing[n - 1].name) },
        )
    } else {
        candidates_upto(listing, n - 1)
    }
}

/// The candidates of a listing, in the order of the listing.
pub open spec fn candidates(listing: Seq<Item>) -> Seq<Bundle> {
    candidates_upto(listing, listing.len() as int)
}

/// The candidates of a listing are its directories with a bundle's name and
/// no other entries, each once, in the order of the listing and under its
/// name without the suffix.
pub proof fn lemma_candidates(listing: Seq<Item>, n: int)
    requires
        0 <= n <= listing.len(),
    ensures
        candidates_upto(listing, n).len() <= n,
        forall|k: int|
            0 <= k < candidates_upto(listing, n).len() ==> {
                let c = #[trigger] candidates_upto(listing, n)[k];
                &&& 0 <= c.position < n
                &&& is_candidate(listing[c.position])
                &&& c.name == bundle_stem(listing[c.position].name)
            },
        forall|k: int, l: int|
            0 <= k < l < candidates_upto(listing, n).len() ==> candidates_upto(
                listing,
                n,
            )[k].position < candidates_upto(listing, n)[l].position,
        forall|i: int|
            0 <= i < n && is_candidate(#[trigger] listing[i]) ==> exists|k: int|
                0 <= k < candidates_upto(listing, n).len() && candidates_upto(
                    listing,
                    n,
                )[k].position == i,
    decreases n,
{
    if n > 0 {
        lemma_candidates(listing, n - 1);
        let before = candidates_upto(listing, n - 1);
        let now = candidates_upto(listing, n);
        assert forall|i: int| 0 <= i < n && is_candidate(#[trigger] listing[i]) implies exists|
            k: int,
        | 0 <= k < now.len() && now[k].position == i by {
            if i < n - 1 {
                let k = choose|k: int| 0 <= k < before.len() && before[k].position == i;
                assert(now[k].position == i);
            } else {
                assert(now[now.len() - 1].position == i);
            }
        }
    }
}

/// Finds the candidates of a listing.
pub fn find_candidates(listing: &Vec<Listed>) -> (r: Vec<Candidate>)
    ensures
        bundles_of(r@) == candidates(items_of(listing@)),
{
    let mut out: Vec<Candidate> = Vec::new();
    let n = listing.len();
    let mut i: usize = 0;
    while i < n
        invariant
            i <= n == listing@.len(),
            bundles_of(out@) == candidates_upto(items_of(listing@), i as int),
        decreases n - i,
    {
        if listing[i].is_dir {
            match bundle_name(listing[i].name.as_str()) {
                Some(name) => {
                    out.push(Candidate { position: i, name });
                },
                None => {},
            }
        }
        i += 1;
    }
    out
}

/// A candidate that a scan has come to, and that is to be examined next.
#[derive(Debug)]
pub struct Sighting {
    /// The progress to report before the bundle is examined: the number of
    /// this candidate, counted from 1, and the number of all candidates.
    pub progress: ScanProgress,
    /// The bundle's name, without the suffix.
    pub name: String,
    /// Where the bundle stands in the listing.
    pub position: usize,
}

/// The mathematical value of a `Sighting`.
pub struct Notice {
    pub completed: nat,
    pub total: nat,
    pub name: Seq<char>,
    pub position: int,
}

impl View for Sighting {
    type V = Notice;

    open spec fn view(&self) -> Notice {
        Notice {
            completed: self.progress.completed as nat,
            total: self.progress.total as nat,
            name: self.name@,
            position: self.position as int,
        }
    }
}

/// A scan of the applications directory in progress. It is made from the
/// listing of the directory, names the candidates one after the other, and
/// is handed what the examination of each found; at the end it gives the
/// list of bundles.
pub struct Scan {
    candidates: Vec<Candidate>,
    completed: usize,
    found: Vec<AppInfo>,
}

/// The mathematical value of a `Scan`.
pub struct ScanState {
    /// The candidates, in the order of the listing.
    pub candidates: Seq<Bundle>,
    /// The number of candidates that the scan has come to: the number of
    /// completed candidates in the progress last reported.
    pub completed: nat,
    /// The bundles kept so far, in the order in which they were handed in.
    pub found: Seq<Entry>,
}

/// Whether every entry holds the required architecture.
pub open spec fn all_required(entries: Seq<Entry>) -> bool {
    forall|i: int| 0 <= i < entries.len() ==> (#[trigger] entries[i]).has_required()
}

impl ScanState {
    /// The scan as it begins on a listing.
    pub open spec fn initial(listing: Seq<Item>) -> ScanState {
        ScanState { candidates: candidates(listing), completed: 0, found: Seq::empty() }
    }

    /// The number of candidates.
    pub open spec fn total(self) -> nat {
        self.candidates.len()
    }

    /// What holds of a scan from its beginning on: it has come to no more
    /// candidates than there are, and every bundle that it keeps holds the
    /// required architecture.
    pub open spec fn wf(self) -> bool {
        self.completed <= self.total() && all_required(self.found)
    }

    /// The candidate that the scan comes to next, with the progress to
    /// report for it: candidate number `k` of `n` is reported as `k` of `n`.
    /// `None` where every candidate has been come to.
    pub open spec fn next_notice(self) -> Option<Notice> {
        if self.completed < self.total() {
            Some(
                Notice {
                    completed: self.completed + 1,
                    total: self.total(),
                    name: self.candidates[self.completed as int].name,
                    position: self.candidates[self.completed as int].position,
                },
            )
        } else {
            None
        }
    }

    /// The scan after it has come to the next candidate.
    pub open spec fn after_next(self) -> ScanState {
        if self.completed < self.total() {
            ScanState { completed: self.completed + 1, ..self }
        } else {
            self
        }
    }

    /// The scan after an examined bundle is handed in: it is kept if it holds
    /// the required architecture.
    pub open spec fn after_record(self, entry: Entry) -> ScanState {
        if entry.has_required() {
            ScanState { found: self.found.push(entry), ..self }
        } else {
            self
        }
    }

    /// The list that the scan gives at its end: the bundles kept, sorted by
    /// name.
    pub open spec fn result(self) -> Seq<Entry> {
        sorted(self.found, SortMode::Alphabetical)
    }
}

impl View for Scan {
    type V = ScanState;

    closed spec fn view(&self) -> ScanState {
        ScanState {
            candidates: bundles_of(self.candidates@),
            completed: self.completed as nat,
            found: entries_of(self.found@),
        }
    }
}

impl Scan {
    /// Begins the scan of a directory, given its listing.
    pub fn new(listing: &Vec<Listed>) -> (r: Scan)
        ensures
            r@ == ScanState::initial(items_of(listing@)),
            r@.wf(),
    {
        let r = Scan { candidates: find_candidates(listing), completed: 0, found: Vec::new() };
        assert(entries_of(r.found@) =~= Seq::<Entry>::empty());
        r
    }

    /// The progress last reported: the number of candidates come to, and the
    /// number of all candidates.
    pub fn progress(&self) -> (r: ScanProgress)
        ensures
            r.completed == self@.completed,
            r.total == self@.total(),
    {
        ScanProgress { completed: self.completed, total: self.candidates.len() }
    }

    /// Comes to the next candidate. The result holds the progress to report
    /// before the candidate is examined, its name, and its place in the
    /// listing; `None` where no candidate is left.
    pub fn next(&mut self) -> (r: Option<Sighting>)
        ensures
            final(self)@ == old(self)@.after_next(),
            old(self)@.wf() ==> final(self)@.wf(),
            match r {
                Some(sighting) => old(self)@.next_notice() == Some(sighting@),
                None => old(self)@.next_notice() is None,
            },
    {
        let total = self.candidates.len();
        if self.completed < total {
            let candidate = &self.candidates[self.completed];
            let sighting = Sighting {
                progress: ScanProgress { completed: self.completed + 1, total },
                name: candidate.name.clone(),
                position: candidate.position,
            };
            self.completed = self.completed + 1;
            Some(sighting)
        } else {
            None
        }
    }

    /// Hands in a bundle that was examined. It is kept if its executable
    /// holds the required architecture.
    pub fn record(&mut self, info: AppInfo)
        ensures
            final(self)@ == old(self)@.after_record(info@),
            old(self)@.wf() ==> final(self)@.wf(),
    {
        if info.has_arm64() {
            let ghost before = entries_of(self.found@);
            self.found.push(info);
            assert(entries_of(self.found@) =~= before.push(info@));
        }
    }

    /// Ends the scan: the bundles kept, sorted by name. Each of them holds
    /// the required architecture.
    pub fn finish(self) -> (r: Vec<AppInfo>)
        ensures
            entries_of(r@) == self@.result(),
            self@.wf() ==> all_required(entries_of(r@)),
    {
        proof {
            lemma_result_is_required(self@);
        }
        sort_entries(self.found, SortMode::Alphabetical)
    }
}

/// The list that a scan gives holds the bundles that it kept and no others,
/// and with them only bundles that hold the required architecture.
pub proof fn lemma_result_is_required(s: ScanState)
    ensures
        s.result().to_multiset() == s.found.to_multiset(),
        s.wf() ==> all_required(s.result()),
{
    broadcast use vstd::seq_lib::group_to_multiset_ensures;

    lemma_sorted_is_permutation(s.found, SortMode::Alphabetical);
    if s.wf() {
        assert forall|i: int| 0 <= i < s.result().len() implies (#[trigger] s.result()[i]).has_required() by {
            let e = s.result()[i];
            assert(s.result().to_multiset().count(e) > 0);
        }
    }
}

/// One step of a scan.
pub enum ScanStep {
    /// The scan comes to the next candidate.
    Next,
    /// The scan is handed an examined bundle.
    Record(Entry),
}

/// The scan after the given steps.
pub open spec fn after_steps(s: ScanState, steps: Seq<ScanStep>) -> ScanState
    decreases steps.len(),
{
    if steps.len() == 0 {
        s
    } else {
        let before = after_steps(s, steps.drop_last());
        match steps.last() {
            ScanStep::Next => before.after_next(),
            ScanStep::Record(entry) => before.after_record(entry),
        }
    }
}

/// Whatever the steps of a scan, its invariant holds throughout, the
/// candidates and their number stay as they are, and the progress never
/// recedes and never exceeds the total: of two moments of a scan the later
/// has come to at least as many candidates as the earlier, and to no more
/// than there are.
pub proof fn lemma_progress_is_monotonic(s: ScanState, steps: Seq<ScanStep>, i: int, j: int)
    requires
        s.wf(),
        0 <= i <= j <= steps.len(),
    ensures
        after_steps(s, steps.take(j)).wf(),
        after_steps(s, steps.take(j)).candidates == s.candidates,
        s.completed <= after_steps(s, steps.take(i)).completed <= after_steps(
            s,
            steps.take(j),
        ).completed <= s.total(),
    decreases j,
{
    if j > 0 {
        lemma_progress_is_monotonic(
            s,
            steps,
            if i == j {
                i - 1
            } else {
                i
            },
            j - 1,
        );
        assert(steps.take(j).drop_last() =~= steps.take(j - 1));
    }
}

/// The number of times that the steps come to a next candidate.
pub open spec fn count_next(steps: Seq<ScanStep>) -> nat
    decreases steps.len(),
{
    if steps.len() == 0 {
        0
    } else if steps.last() is Next {
        count_next(steps.drop_last()) + 1
    } else {
        count_next(steps.drop_last())
    }
}

/// A scan reports each candidate once, in the order of the listing: when a
/// scan that began on a listing of `n` candidates comes to a candidate for
/// time number `k`, with `k` no more than `n`, it reports `k` of `n` and
/// names candidate number `k`; after that it reports nothing more.
pub proof fn lemma_kth_report(listing: Seq<Item>, steps: Seq<ScanStep>)
    ensures
        ({
            let s = after_steps(ScanState::initial(listing), steps);
            let n = candidates(listing).len();
            let k = count_next(steps) + 1;
            &&& s.completed == if count_next(steps) <= n {
                count_next(steps)
            } else {
                n
            }
            &&& k <= n ==> s.next_notice() == Some(
                Notice {
                    completed: k,
                    total: n,
                    name: candidates(listing)[k - 1].name,
                    position: candidates(listing)[k - 1].position,
                },
            )
            &&& k > n ==> s.next_notice() is None
        }),
    decreases steps.len(),
{
    if steps.len() > 0 {
        lemma_kth_report(listing, steps.drop_last());
        lemma_progress_is_monotonic(
            ScanState::initial(listing),
            steps.drop_last(),
            0,
            steps.len() - 1,
        );
        assert(steps.drop_last().take(steps.len() - 1) =~= steps.drop_last());
    }
}

} // verus!
