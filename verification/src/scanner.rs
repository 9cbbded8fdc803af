//! Application bundles and the architectures of their executables: the data
//! model, and the reading of what the architecture tool reports.

use crate::text::{
    chars_of, contains, decimal_u64, has_substring, lines, nth_word, parse_u64, second_piece,
    split_lines, split_second, starts_with, string_of, trim, trimmed, views, word,
};
use vstd::prelude::*;
use vstd::slice::slice_subrange;
use vstd::string::*;

verus! {

/// The architecture that trimming removes.
pub const REMOVABLE_ARCH: &'static str = "x86_64";

/// The beginning of the names of the architecture that an application must
/// hold to be listed.
pub const REQUIRED_ARCH: &'static str = "arm64";

/// What separates the names in a list of architectures.
pub const LIST_SEPARATOR: &'static str = ", ";

/// What the line that opens an architecture's block begins with, in the
/// report on a universal file.
pub const ARCHITECTURE_TAG: &'static str = "architecture ";

/// What the line that gives an architecture's size begins with.
pub const SIZE_TAG: &'static str = "size ";

/// A size is sought in this many lines after the line that opens a block.
pub const SIZE_LOOKAHEAD: usize = 9;

/// What stands before the architecture's name in the report on a file of a
/// single architecture.
pub const ARCHITECTURE_MARKER: &'static str = "is architecture:";

/// The two phrases by which the tool says that a file has a single
/// architecture.
pub const NOT_FAT_PHRASE: &'static str = "is not a fat file";

pub const NON_FAT_PHRASE: &'static str = "Non-fat file";

/// One architecture found in an executable.
#[derive(Debug)]
pub struct ArchInfo {
    /// The name of the architecture.
    pub cpu_type: String,
    /// The size of its code in bytes, where the tool reported one.
    pub size_bytes: Option<u64>,
}

/// The mathematical value of an `ArchInfo`.
pub struct Slice {
    pub name: Seq<char>,
    pub size: Option<u64>,
}

impl View for ArchInfo {
    type V = Slice;

    open spec fn view(&self) -> Slice {
        Slice { name: self.cpu_type@, size: self.size_bytes }
    }
}

impl Clone for ArchInfo {
    fn clone(&self) -> (r: Self)
        ensures
            r == *self,
    {
        ArchInfo { cpu_type: self.cpu_type.clone(), size_bytes: self.size_bytes }
    }
}

/// The values of a sequence of `ArchInfo`.
pub open spec fn slices_of(v: Seq<ArchInfo>) -> Seq<Slice> {
    v.map_values(|a: ArchInfo| a@)
}

/// The first slice of the given name, if there is one.
pub open spec fn first_named(slices: Seq<Slice>, name: Seq<char>) -> Option<Slice>
    decreases slices.len(),
{
    if slices.len() == 0 {
        None
    } else if slices[0].name == name {
        Some(slices[0])
    } else {
        first_named(slices.skip(1), name)
    }
}

/// The texts joined, with `sep` between each two neighbours.
pub open spec fn joined(parts: Seq<Seq<char>>, sep: Seq<char>) -> Seq<char>
    decreases parts.len(),
{
    if parts.len() == 0 {
        Seq::empty()
    } else if parts.len() == 1 {
        parts[0]
    } else {
        joined(parts.drop_last(), sep) + sep + parts.last()
    }
}

/// One discovered application bundle.
#[derive(Debug)]
pub struct AppInfo {
    /// The name shown for the bundle.
    pub name: String,
    /// Where the bundle lies.
    pub path: String,
    /// Where its executable lies.
    pub binary_path: String,
    /// The architectures of the executable, in the order reported.
    pub architectures: Vec<ArchInfo>,
    /// Whether the user has marked the bundle for trimming.
    pub selected: bool,
}

/// The mathematical value of an `AppInfo`.
pub struct Entry {
    pub name: Seq<char>,
    pub path: Seq<char>,
    pub binary_path: Seq<char>,
    pub slices: Seq<Slice>,
    pub selected: bool,
}

impl Entry {
    /// Whether the executable holds the removable architecture: such an entry
    /// is eligible for trimming.
    pub open spec fn has_removable(self) -> bool {
        exists|i: int| 0 <= i < self.slices.len() && #[trigger] self.slices[i].name == REMOVABLE_ARCH@
    }

    /// Whether the executable holds the required architecture.
    pub open spec fn has_required(self) -> bool {
        exists|i: int|
            0 <= i < self.slices.len() && REQUIRED_ARCH@.is_prefix_of(#[trigger] self.slices[i].name)
    }

    /// The size of the removable architecture: that of the first slice that
    /// bears its name, where that slice has a size.
    pub open spec fn removable_size(self) -> Option<u64> {
        match first_named(self.slices, REMOVABLE_ARCH@) {
            Some(slice) => slice.size,
            None => None,
        }
    }

    /// The names of the architectures, separated by a comma and a space.
    pub open spec fn architectures_display(self) -> Seq<char> {
        joined(self.slices.map_values(|s: Slice| s.name), LIST_SEPARATOR@)
    }

    /// The entry with its mark set as given.
    pub open spec fn with_selected(self, selected: bool) -> Entry {
        Entry { selected, ..self }
    }
}

impl View for AppInfo {
    type V = Entry;

    open spec fn view(&self) -> Entry {
        Entry {
            name: self.name@,
            path: self.path@,
            binary_path: self.binary_path@,
            slices: slices_of(self.architectures@),
            selected: self.selected,
        }
    }
}

impl Clone for AppInfo {
    fn clone(&self) -> (r: Self)
        ensures
            r@ == self@,
    {
        let architectures = self.architectures.clone();
        AppInfo {
            name: self.name.clone(),
            path: self.path.clone(),
            binary_path: self.binary_path.clone(),
            architectures,
            selected: self.selected,
        }
    }
}

/// The values of a sequence of `AppInfo`.
pub open spec fn entries_of(v: Seq<AppInfo>) -> Seq<Entry> {
    v.map_values(|a: AppInfo| a@)
}

impl AppInfo {
    /// A bundle as a scan finds it: not selected.
    pub fn new(name: String, path: String, binary_path: String, architectures: Vec<ArchInfo>) -> (r:
        Self)
        ensures
            r@ == (Entry {
                name: name@,
                path: path@,
                binary_path: binary_path@,
                slices: slices_of(architectures@),
                selected: false,
            }),
    {
        AppInfo { name, path, binary_path, architectures, selected: false }
    }

    /// Tells whether the executable holds the removable architecture.
    pub fn has_x86_64(&self) -> (r: bool)
        ensures
            r == self@.has_removable(),
    {
        let wanted = REMOVABLE_ARCH.to_owned();
        let n = self.architectures.len();
        let mut i: usize = 0;
        while i < n
            invariant
                i <= n == self.architectures@.len(),
                wanted@ == REMOVABLE_ARCH@,
                forall|j: int| 0 <= j < i ==> self@.slices[j].name != REMOVABLE_ARCH@,
            decreases n - i,
        {
            if self.architectures[i].cpu_type == wanted {
                assert(self@.slices[i as int].name == REMOVABLE_ARCH@);
                return true;
            }
            i += 1;
        }
        false
    }

    /// Tells whether the executable holds the required architecture.
    pub fn has_arm64(&self) -> (r: bool)
        ensures
            r == self@.has_required(),
    {
        let wanted = chars_of(REQUIRED_ARCH);
        let n = self.architectures.len();
        let mut i: usize = 0;
        while i < n
            invariant
                i <= n == self.architectures@.len(),
                wanted@ == REQUIRED_ARCH@,
                forall|j: int| 0 <= j < i ==> !REQUIRED_ARCH@.is_prefix_of(self@.slices[j].name),
            decreases n - i,
        {
            let name = chars_of(self.architectures[i].cpu_type.as_str());
            if starts_with(name.as_slice(), wanted.as_slice()) {
                assert(REQUIRED_ARCH@.is_prefix_of(self@.slices[i as int].name));
                return true;
            }
            i += 1;
        }
        false
    }

    /// The size in bytes of the removable architecture, where it is known.
    pub fn x86_64_size(&self) -> (r: Option<u64>)
        ensures
            r == self@.removable_size(),
    {
        let wanted = REMOVABLE_ARCH.to_owned();
        let n = self.architectures.len();
        let mut i: usize = 0;
        assert(self@.slices.skip(0) == self@.slices);
        while i < n
            invariant
                i <= n == self.architectures@.len(),
                wanted@ == REMOVABLE_ARCH@,
                first_named(self@.slices, REMOVABLE_ARCH@) == first_named(
                    self@.slices.skip(i as int),
                    REMOVABLE_ARCH@,
                ),
            decreases n - i,
        {
            if self.architectures[i].cpu_type == wanted {
                return self.architectures[i].size_bytes;
            }
            assert(self@.slices.skip(i as int).skip(1) == self@.slices.skip(i as int + 1));
            i += 1;
        }
        None
    }

    /// The names of the architectures, separated by a comma and a space.
    pub fn architectures_display(&self) -> (r: String)
        ensures
            r@ == self@.architectures_display(),
    {
        let ghost names = self@.slices.map_values(|s: Slice| s.name);
        let mut out = String::new();
        let n = self.architectures.len();
        let mut i: usize = 0;
        while i < n
            invariant
                i <= n == self.architectures@.len(),
                names == self@.slices.map_values(|s: Slice| s.name),
                out@ == joined(names.take(i as int), LIST_SEPARATOR@),
            decreases n - i,
        {
            if i > 0 {
                out.append(LIST_SEPARATOR);
            }
            out.append(self.architectures[i].cpu_type.as_str());
            assert(names.take(i + 1).drop_last() == names.take(i as int));
            i += 1;
        }
        assert(names.take(n as int) == names);
        out
    }
}

/// Whether a line, trimmed, opens an architecture's block.
pub open spec fn is_architecture_line(line: Seq<char>) -> bool {
    ARCHITECTURE_TAG@.is_prefix_of(trim(line))
}

/// The architecture that a block's first line names: what follows the tag,
/// trimmed.
pub open spec fn architecture_name(line: Seq<char>) -> Seq<char> {
    trim(trim(line).skip(ARCHITECTURE_TAG@.len() as int))
}

/// The size that a line gives: the line, trimmed, begins with the size tag
/// and its second word is a decimal number of 64 bits.
pub open spec fn line_size(line: Seq<char>) -> Option<u64> {
    let t = trim(line);
    if SIZE_TAG@.is_prefix_of(t) {
        match nth_word(t, 1) {
            Some(w) => decimal_u64(w),
            None => None,
        }
    } else {
        None
    }
}

/// The size given by the first of the lines from `from` up to `to` that
/// gives one.
pub open spec fn first_size(rows: Seq<Seq<char>>, from: int, to: int) -> Option<u64>
    decreases to - from,
{
    if from >= to {
        None
    } else if line_size(rows[from]) is Some {
        line_size(rows[from])
    } else {
        first_size(rows, from + 1, to)
    }
}

/// Where the search for the size of the block opened in line `i` ends, in a
/// text of `n` lines.
pub open spec fn window_end(i: int, n: int) -> int {
    if i + 1 + SIZE_LOOKAHEAD < n {
        i + 1 + SIZE_LOOKAHEAD
    } else {
        n
    }
}

/// The slice that the block opened in line `i` describes.
pub open spec fn slice_at(rows: Seq<Seq<char>>, i: int) -> Slice {
    Slice {
        name: architecture_name(rows[i]),
        size: first_size(rows, i + 1, window_end(i, rows.len() as int)),
    }
}

/// The slices described by the blocks that open in the first `n` lines.
pub open spec fn slices_upto(rows: Seq<Seq<char>>, n: int) -> Seq<Slice>
    decreases n,
{
    if n <= 0 {
        Seq::empty()
    } else if is_architecture_line(rows[n - 1]) {
        slices_upto(rows, n - 1).push(slice_at(rows, n - 1))
    } else {
        slices_upto(rows, n - 1)
    }
}

/// The slices that the report on a universal file describes, in the order
/// of their blocks.
pub open spec fn fat_slices(report: Seq<char>) -> Seq<Slice> {
    slices_upto(lines(report), lines(report).len() as int)
}

/// Reads the size that a line gives.
fn size_of_line(line: &[char]) -> (r: Option<u64>)
    ensures
        r == line_size(line@),
{
    let t = trimmed(line);
    let tag = chars_of(SIZE_TAG);
    if starts_with(t, tag.as_slice()) {
        match word(t, 1) {
            Some(w) => parse_u64(w),
            None => None,
        }
    } else {
        None
    }
}

/// Finds the first size given in the lines from `from` up to `to`.
fn size_in_window(rows: &Vec<&[char]>, from: usize, to: usize) -> (r: Option<u64>)
    requires
        from <= to <= rows@.len(),
    ensures
        r == first_size(views(rows@), from as int, to as int),
{
    let mut j = from;
    while j < to
        invariant
            from <= j <= to <= rows@.len(),
            first_size(views(rows@), from as int, to as int) == first_size(
                views(rows@),
                j as int,
                to as int,
            ),
        decreases to - j,
    {
        let size = size_of_line(rows[j]);
        if size.is_some() {
            return size;
        }
        j += 1;
    }
    None
}

/// Reads the report on a universal file: one slice for each block, in the
/// order of the blocks, and `None` where the report holds no block.
pub fn parse_lipo_output(output: &str) -> (r: Option<Vec<ArchInfo>>)
    ensures
        match r {
            Some(v) => v@.len() > 0 && slices_of(v@) == fat_slices(output@),
            None => fat_slices(output@).len() == 0,
        },
{
    let chars = chars_of(output);
    let rows = split_lines(chars.as_slice());
    let tag = chars_of(ARCHITECTURE_TAG);
    let mut found: Vec<ArchInfo> = Vec::new();
    let n = rows.len();
    let mut i: usize = 0;
    while i < n
        invariant
            i <= n == rows@.len(),
            tag@ == ARCHITECTURE_TAG@,
            slices_of(found@) == slices_upto(views(rows@), i as int),
        decreases n - i,
    {
        let t = trimmed(rows[i]);
        if starts_with(t, tag.as_slice()) {
            let rest = slice_subrange(t, tag.len(), t.len());
            let name = string_of(trimmed(rest));
            let end = if n - i - 1 > SIZE_LOOKAHEAD {
                i + 1 + SIZE_LOOKAHEAD
            } else {
                n
            };
            let size = size_in_window(&rows, i + 1, end);
            found.push(ArchInfo { cpu_type: name, size_bytes: size });
        }
        i += 1;
    }
    if found.len() == 0 {
        None
    } else {
        Some(found)
    }
}

/// The architecture that a line names: what stands between the first
/// marker and the next one, or the end of the line, trimmed and not empty.
pub open spec fn line_architecture(line: Seq<char>) -> Option<Seq<char>> {
    match second_piece(line, ARCHITECTURE_MARKER@) {
        Some(piece) => if trim(piece).len() > 0 {
            Some(trim(piece))
        } else {
            None
        },
        None => None,
    }
}

/// The architecture named by the first of the lines from `from` on that
/// names one.
pub open spec fn first_architecture(rows: Seq<Seq<char>>, from: int) -> Option<Seq<char>>
    decreases rows.len() - from,
{
    if from >= rows.len() {
        None
    } else if line_architecture(rows[from]) is Some {
        line_architecture(rows[from])
    } else {
        first_architecture(rows, from + 1)
    }
}

/// The architecture that the report on a file of a single architecture
/// names.
pub open spec fn named_architecture(report: Seq<char>) -> Option<Seq<char>> {
    first_architecture(lines(report), 0)
}

/// Reads the architecture's name from the report on a file of a single
/// architecture.
pub fn parse_architecture_from_stderr(stderr: &str) -> (r: Option<String>)
    ensures
        match r {
            Some(name) => named_architecture(stderr@) == Some(name@),
            None => named_architecture(stderr@) is None,
        },
{
    let chars = chars_of(stderr);
    let rows = split_lines(chars.as_slice());
    let marker = chars_of(ARCHITECTURE_MARKER);
    let n = rows.len();
    let mut i: usize = 0;
    while i < n
        invariant
            i <= n == rows@.len(),
            marker@ == ARCHITECTURE_MARKER@,
            views(rows@) == lines(stderr@),
            first_architecture(views(rows@), 0) == first_architecture(views(rows@), i as int),
        decreases n - i,
    {
        match split_second(rows[i], marker.as_slice()) {
            Some(piece) => {
                let name = trimmed(piece);
                if name.len() > 0 {
                    return Some(string_of(name));
                }
            },
            None => {},
        }
        i += 1;
    }
    None
}

/// The one slice of a file of a single architecture: its size is not known.
pub open spec fn single_slice(name: Seq<char>) -> Seq<Slice> {
    seq![Slice { name, size: None }]
}

/// Makes the list of architectures of a file of a single architecture.
fn single_architecture(name: String) -> (r: Vec<ArchInfo>)
    ensures
        slices_of(r@) == single_slice(name@),
{
    let mut v: Vec<ArchInfo> = Vec::new();
    v.push(ArchInfo { cpu_type: name, size_bytes: None });
    v
}

/// Reads the report on a file of a single architecture: the one slice that
/// it names, and `None` where it names none, so that the architecture has
/// to be asked for in another way.
pub fn extract_single_architecture(report: &str) -> (r: Option<Vec<ArchInfo>>)
    ensures
        match r {
            Some(v) => named_architecture(report@) is Some && slices_of(v@) == single_slice(
                named_architecture(report@)->0,
            ),
            None => named_architecture(report@) is None,
        },
{
    match parse_architecture_from_stderr(report) {
        Some(name) => Some(single_architecture(name)),
        None => None,
    }
}

/// What a listing of a file's architectures gives for a file of a single
/// architecture: the listing, trimmed, is the name, provided that the tool
/// succeeded and the name is not empty.
pub open spec fn listed_slices(success: bool, listing: Seq<char>) -> Option<Seq<Slice>> {
    if success && trim(listing).len() > 0 {
        Some(single_slice(trim(listing)))
    } else {
        None
    }
}

/// Reads the listing of a file's architectures, asked for where the report
/// named none.
pub fn architecture_from_listing(success: bool, listing: &str) -> (r: Option<Vec<ArchInfo>>)
    ensures
        match r {
            Some(v) => listed_slices(success, listing@) == Some(slices_of(v@)),
            None => listed_slices(success, listing@) is None,
        },
{
    if !success {
        return None;
    }
    let chars = chars_of(listing);
    let name = trimmed(chars.as_slice());
    if name.len() == 0 {
        None
    } else {
        Some(single_architecture(string_of(name)))
    }
}

/// What the architecture tool's report on an executable amounts to.
#[derive(Debug)]
pub enum Extraction {
    /// The architectures of the executable.
    Slices(Vec<ArchInfo>),
    /// The file has a single architecture that the report does not name: its
    /// architectures have to be listed.
    NeedsListing,
    /// Nothing is known of the executable, and its bundle is left out.
    Failed,
}

/// The mathematical value of an `Extraction`.
pub enum Report {
    Slices(Seq<Slice>),
    NeedsListing,
    Failed,
}

impl View for Extraction {
    type V = Report;

    open spec fn view(&self) -> Report {
        match self {
            Extraction::Slices(v) => Report::Slices(slices_of(v@)),
            Extraction::NeedsListing => Report::NeedsListing,
            Extraction::Failed => Report::Failed,
        }
    }
}

/// Whether a text says that the file has a single architecture.
pub open spec fn says_non_fat(text: Seq<char>) -> bool {
    contains(text, NOT_FAT_PHRASE@) || contains(text, NON_FAT_PHRASE@)
}

/// What the tool's report amounts to. Where either output says that the
/// file has a single architecture, its name is read from the standard
/// output, or from the standard error where the standard output is empty.
/// Otherwise the tool must have succeeded, and its standard output must
/// describe at least one slice.
pub open spec fn report_of(stdout: Seq<char>, stderr: Seq<char>, success: bool) -> Report {
    if says_non_fat(stdout) || says_non_fat(stderr) {
        let text = if stdout.len() > 0 {
            stdout
        } else {
            stderr
        };
        match named_architecture(text) {
            Some(name) => Report::Slices(single_slice(name)),
            None => Report::NeedsListing,
        }
    } else if !success {
        Report::Failed
    } else if fat_slices(stdout).len() > 0 {
        Report::Slices(fat_slices(stdout))
    } else {
        Report::Failed
    }
}

/// Tells whether a text says that the file has a single architecture.
fn is_non_fat(text: &str) -> (r: bool)
    ensures
        r == says_non_fat(text@),
{
    let chars = chars_of(text);
    let first = chars_of(NOT_FAT_PHRASE);
    let second = chars_of(NON_FAT_PHRASE);
    has_substring(chars.as_slice(), first.as_slice()) || has_substring(
        chars.as_slice(),
        second.as_slice(),
    )
}

/// Reads what the architecture tool printed about an executable, given
/// its two outputs and whether it succeeded.
pub fn extract_architectures(stdout: &str, stderr: &str, success: bool) -> (r: Extraction)
    ensures
        r@ == report_of(stdout@, stderr@, success),
{
    if is_non_fat(stdout) || is_non_fat(stderr) {
        let text = if !stdout.is_empty() {
            stdout
        } else {
            stderr
        };
        return match extract_single_architecture(text) {
            Some(v) => Extraction::Slices(v),
            None => Extraction::NeedsListing,
        };
    }
    if !success {
        return Extraction::Failed;
    }
    match parse_lipo_output(stdout) {
        Some(v) => Extraction::Slices(v),
        None => Extraction::Failed,
    }
}

/// The first slice of a name bears that name and is one of the slices.
proof fn lemma_first_named(slices: Seq<Slice>, name: Seq<char>)
    ensures
        first_named(slices, name) is Some ==> exists|i: int|
            0 <= i < slices.len() && slices[i] == first_named(slices, name)->0
                && #[trigger] slices[i].name == name,
        first_named(slices, name) is None ==> forall|i: int|
            0 <= i < slices.len() ==> #[trigger] slices[i].name != name,
    decreases slices.len(),
{
    if slices.len() > 0 && slices[0].name != name {
        lemma_first_named(slices.skip(1), name);
        if first_named(slices, name) is Some {
            let i = choose|i: int|
                0 <= i < slices.skip(1).len() && slices.skip(1)[i] == first_named(
                    slices.skip(1),
                    name,
                )->0 && #[trigger] slices.skip(1)[i].name == name;
            assert(slices[i + 1].name == name);
        } else {
            assert forall|i: int| 0 <= i < slices.len() implies #[trigger] slices[i].name
                != name by {
                if i > 0 {
                    assert(slices.skip(1)[i - 1].name != name);
                }
            }
        }
    }
}

/// An entry whose removable size is known holds the removable
/// architecture, and an entry that does not hold it has no removable size.
pub proof fn lemma_sized_is_removable(e: Entry)
    ensures
        e.removable_size() is Some ==> e.has_removable(),
{
    lemma_first_named(e.slices, REMOVABLE_ARCH@);
}

} // verus!
