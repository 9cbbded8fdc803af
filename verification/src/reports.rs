//! What holds of the reading of reports: a report of well-formed blocks
//! gives one slice for each block, and a report on a file of a single
//! architecture gives the one slice that it names.

use crate::scanner::{
    architecture_name, fat_slices, first_size, is_architecture_line, line_size, report_of,
    says_non_fat, single_slice, slice_at, slices_upto, window_end, Report, Slice,
    ARCHITECTURE_MARKER, ARCHITECTURE_TAG, SIZE_LOOKAHEAD, SIZE_TAG,
};
use crate::text::{
    contains, decimal_digits, first_occurrence, is_space, lemma_decimal_digits,
    lemma_decimal_round_trip, lemma_position, line_end, lines, nth_word, trim, trim_start,
    word_len,
};
use vstd::prelude::*;

verus! {

/// Whether the lines hold well-formed blocks, and no other line that opens
/// a block: block `k` opens in line `starts[k]`, and line `sizes[k]` is the
/// first after it that gives a size, within the lines that are searched.
/// The blocks are numbered in the order of their lines.
pub open spec fn well_formed_blocks(rows: Seq<Seq<char>>, starts: Seq<int>, sizes: Seq<int>) -> bool {
    &&& starts.len() == sizes.len()
    &&& forall|k: int|
        0 <= k < starts.len() ==> {
            &&& 0 <= #[trigger] starts[k] < sizes[k] < rows.len()
            &&& sizes[k] <= starts[k] + SIZE_LOOKAHEAD
            &&& is_architecture_line(rows[starts[k]])
            &&& line_size(rows[sizes[k]]) is Some
            &&& forall|j: int| starts[k] < j < sizes[k] ==> line_size(#[trigger] rows[j]) is None
        }
    &&& forall|k: int, l: int| 0 <= k < l < starts.len() ==> starts[k] < starts[l]
    &&& forall|i: int|
        0 <= i < rows.len() && is_architecture_line(#[trigger] rows[i]) ==> starts.contains(i)
}

/// The slice that a well-formed block describes: the name in its first
/// line, and the number in its size line.
pub open spec fn block_slice(rows: Seq<Seq<char>>, start: int, size: int) -> Slice {
    Slice { name: architecture_name(rows[start]), size: line_size(rows[size]) }
}

/// The search for a size finds the first line that gives one.
proof fn lemma_first_size(rows: Seq<Seq<char>>, from: int, to: int, at: int)
    requires
        from <= at < to,
        line_size(rows[at]) is Some,
        forall|j: int| from <= j < at ==> line_size(#[trigger] rows[j]) is None,
    ensures
        first_size(rows, from, to) == line_size(rows[at]),
    decreases at - from,
{
    if from < at {
        lemma_first_size(rows, from + 1, to, at);
    }
}

/// The first `n` lines of well-formed blocks describe the blocks that open
/// in them; the result is their number.
proof fn lemma_blocks_upto(rows: Seq<Seq<char>>, starts: Seq<int>, sizes: Seq<int>, n: int) -> (c:
    int)
    requires
        well_formed_blocks(rows, starts, sizes),
        0 <= n <= rows.len(),
    ensures
        0 <= c <= starts.len(),
        forall|k: int| 0 <= k < c ==> starts[k] < n,
        forall|k: int| c <= k < starts.len() ==> starts[k] >= n,
        slices_upto(rows, n).len() == c,
        forall|k: int|
            0 <= k < c ==> #[trigger] slices_upto(rows, n)[k] == block_slice(
                rows,
                starts[k],
                sizes[k],
            ),
    decreases n,
{
    if n == 0 {
        0
    } else {
        let c = lemma_blocks_upto(rows, starts, sizes, n - 1);
        let i = n - 1;
        if is_architecture_line(rows[i]) {
            lemma_first_size(rows, i + 1, window_end(i, rows.len() as int), sizes[c]);
            assert(slice_at(rows, i) == block_slice(rows, starts[c], sizes[c]));
            c + 1
        } else {
            c
        }
    }
}

/// A report of well-formed blocks gives one slice for each block, in the
/// order of the blocks, each with the name that the block's first line
/// gives and the size that its size line gives.
pub proof fn lemma_well_formed_report(report: Seq<char>, starts: Seq<int>, sizes: Seq<int>)
    requires
        well_formed_blocks(lines(report), starts, sizes),
    ensures
        fat_slices(report).len() == starts.len(),
        forall|k: int|
            0 <= k < starts.len() ==> {
                &&& #[trigger] fat_slices(report)[k] == block_slice(
                    lines(report),
                    starts[k],
                    sizes[k],
                )
                &&& fat_slices(report)[k].size is Some
            },
{
    let rows = lines(report);
    let c = lemma_blocks_upto(rows, starts, sizes, rows.len() as int);
    if c < starts.len() {
        assert(starts[c] >= rows.len());
    }
}

/// A name as a report gives it: not empty, with no white space at either
/// end and no line feed within.
pub open spec fn is_plain_name(name: Seq<char>) -> bool {
    &&& name.len() > 0
    &&& !is_space(name[0])
    &&& !is_space(name.last())
    &&& forall|i: int| 0 <= i < name.len() ==> name[i] != '\n'
}

/// The line that opens the block of an architecture.
pub open spec fn opening_line(name: Seq<char>) -> Seq<char> {
    ARCHITECTURE_TAG@ + name
}

/// The line that gives a size.
pub open spec fn size_line(size: u64) -> Seq<char> {
    SIZE_TAG@ + decimal_digits(size as nat)
}

/// A report written block by block: for each slice the line that opens its
/// block and the line that gives its size, each ended by a line feed.
pub open spec fn written(blocks: Seq<Slice>) -> Seq<char>
    decreases blocks.len(),
{
    if blocks.len() == 0 {
        Seq::empty()
    } else {
        opening_line(blocks[0].name) + seq!['\n'] + size_line(blocks[0].size->0) + seq!['\n']
            + written(blocks.skip(1))
    }
}

/// The lines of a report written block by block.
pub open spec fn written_rows(blocks: Seq<Slice>) -> Seq<Seq<char>> {
    Seq::new(
        2 * blocks.len(),
        |i: int|
            if i % 2 == 0 {
                opening_line(blocks[i / 2].name)
            } else {
                size_line(blocks[i / 2].size->0)
            },
    )
}

/// A line that holds no line feed ends where the line feed after it
/// stands.
proof fn lemma_line_end_of_line(a: Seq<char>, rest: Seq<char>)
    requires
        forall|i: int| 0 <= i < a.len() ==> a[i] != '\n',
    ensures
        line_end(a + seq!['\n'] + rest) == a.len(),
    decreases a.len(),
{
    let s = a + seq!['\n'] + rest;
    if a.len() > 0 {
        assert(s.skip(1) =~= a.skip(1) + seq!['\n'] + rest);
        lemma_line_end_of_line(a.skip(1), rest);
    }
}

/// A line that holds no line feed and ends with no carriage return is the
/// first line of the text that continues after its line feed.
proof fn lemma_lines_of_line(a: Seq<char>, rest: Seq<char>)
    requires
        forall|i: int| 0 <= i < a.len() ==> a[i] != '\n',
        a.len() > 0 && a.last() != '\r',
    ensures
        lines(a + seq!['\n'] + rest) == seq![a] + lines(rest),
{
    let s = a + seq!['\n'] + rest;
    lemma_line_end_of_line(a, rest);
    assert(s.take(a.len() as int) =~= a);
    assert(s.skip(a.len() as int + 1) =~= rest);
}

/// A run of characters that are no white space is a word.
proof fn lemma_word_len(w: Seq<char>, rest: Seq<char>)
    requires
        forall|i: int| 0 <= i < w.len() ==> !is_space(w[i]),
        rest.len() == 0 || is_space(rest[0]),
    ensures
        word_len(w + rest) == w.len(),
    decreases w.len(),
{
    let s = w + rest;
    if w.len() > 0 {
        assert(s.skip(1) =~= w.skip(1) + rest);
        lemma_word_len(w.skip(1), rest);
    }
}

/// A text that neither begins nor ends with white space is trimmed
/// already.
proof fn lemma_trim_of_trimmed(s: Seq<char>)
    requires
        s.len() > 0,
        !is_space(s[0]),
        !is_space(s.last()),
    ensures
        trim(s) == s,
{
}

/// The line that opens a block is read as such, and gives the name.
proof fn lemma_opening_line(name: Seq<char>)
    requires
        is_plain_name(name),
    ensures
        is_architecture_line(opening_line(name)),
        architecture_name(opening_line(name)) == name,
        forall|i: int| 0 <= i < opening_line(name).len() ==> opening_line(name)[i] != '\n',
        opening_line(name).len() > 0 && opening_line(name).last() != '\r',
{
    reveal_strlit("architecture ");
    lemma_trim_of_trimmed(opening_line(name));
    lemma_trim_of_trimmed(name);
}

/// The line that gives a size is read as such, gives the size, and opens no
/// block.
proof fn lemma_size_line(size: u64)
    ensures
        line_size(size_line(size)) == Some(size),
        !is_architecture_line(size_line(size)),
        forall|i: int| 0 <= i < size_line(size).len() ==> size_line(size)[i] != '\n',
        size_line(size).len() > 0 && size_line(size).last() != '\r',
{
    reveal_strlit("size ");
    reveal_strlit("architecture ");
    let digits = decimal_digits(size as nat);
    let line = size_line(size);
    lemma_decimal_digits(size as nat);
    lemma_decimal_round_trip(size);
    lemma_trim_of_trimmed(line);
    assert(!ARCHITECTURE_TAG@.is_prefix_of(line)) by {
        if ARCHITECTURE_TAG@.is_prefix_of(line) {
            assert(line.subrange(0, 13)[0] == ARCHITECTURE_TAG@[0]);
        }
    }
    let head = seq!['s', 'i', 'z', 'e'];
    let tail = seq![' '] + digits;
    assert(line =~= head + tail);
    lemma_word_len(head, tail);
    assert(line.skip(4) =~= tail);
    assert(tail.skip(1) =~= digits);
    assert(trim_start(digits) == digits);
    lemma_word_len(digits, Seq::<char>::empty());
    assert(nth_word(tail, 0) == Some(digits));
}

/// A report written block by block has two lines for each block.
proof fn lemma_written_rows(blocks: Seq<Slice>)
    requires
        forall|k: int| 0 <= k < blocks.len() ==> is_plain_name(#[trigger] blocks[k].name),
    ensures
        lines(written(blocks)) == written_rows(blocks),
    decreases blocks.len(),
{
    if blocks.len() > 0 {
        let first = opening_line(blocks[0].name);
        let second = size_line(blocks[0].size->0);
        let rest = blocks.skip(1);
        lemma_written_rows(rest);
        lemma_opening_line(blocks[0].name);
        lemma_size_line(blocks[0].size->0);
        lemma_lines_of_line(second, written(rest));
        lemma_lines_of_line(first, second + seq!['\n'] + written(rest));
        assert(written(blocks) =~= first + seq!['\n'] + (second + seq!['\n'] + written(rest)));
    }
}

/// A report written block by block reads back as its blocks: as many
/// slices as blocks, in the order of the blocks, each with the name and
/// the size that its block gives.
pub proof fn lemma_written_report(blocks: Seq<Slice>)
    requires
        forall|k: int|
            0 <= k < blocks.len() ==> is_plain_name(#[trigger] blocks[k].name)
                && blocks[k].size is Some,
    ensures
        fat_slices(written(blocks)) == blocks,
{
    let rows = written_rows(blocks);
    let n = blocks.len() as int;
    let starts = Seq::new(blocks.len(), |k: int| 2 * k);
    let sizes = Seq::new(blocks.len(), |k: int| 2 * k + 1);
    lemma_written_rows(blocks);
    assert forall|k: int| 0 <= k < n implies is_architecture_line(#[trigger] rows[2 * k])
        && architecture_name(rows[2 * k]) == blocks[k].name && line_size(rows[2 * k + 1])
        == blocks[k].size by {
        lemma_opening_line(blocks[k].name);
        lemma_size_line(blocks[k].size->0);
    }
    assert forall|i: int| 0 <= i < rows.len() && is_architecture_line(
        #[trigger] rows[i],
    ) implies starts.contains(i) by {
        if i % 2 != 0 {
            lemma_size_line(blocks[i / 2].size->0);
        }
        assert(starts[i / 2] == i);
    }
    lemma_well_formed_report(written(blocks), starts, sizes);
}

/// A text without a line feed ends where it ends.
proof fn lemma_line_end_of_single_line(s: Seq<char>)
    requires
        forall|i: int| 0 <= i < s.len() ==> s[i] != '\n',
    ensures
        line_end(s) == s.len(),
    decreases s.len(),
{
    if s.len() > 0 {
        lemma_line_end_of_single_line(s.skip(1));
    }
}

/// What a report of one line names: `name_at` is where the marker ends that
/// stands first in the line, no marker follows it, and what follows it is
/// the name, once trimmed.
pub open spec fn names_at(report: Seq<char>, name_at: int) -> bool {
    &&& forall|i: int| 0 <= i < report.len() ==> report[i] != '\n'
    &&& first_occurrence(report, ARCHITECTURE_MARKER@, name_at - ARCHITECTURE_MARKER@.len())
    &&& !contains(report.skip(name_at), ARCHITECTURE_MARKER@)
    &&& trim(report.skip(name_at)).len() > 0
}

/// A report of one line that says that the file has a single architecture,
/// and names it, gives exactly one slice: its name is the name given, and
/// its size is not known. Neither the other output nor the tool's success
/// matters.
pub proof fn lemma_single_architecture_report(
    report: Seq<char>,
    stderr: Seq<char>,
    success: bool,
    name_at: int,
)
    requires
        says_non_fat(report),
        names_at(report, name_at),
    ensures
        report_of(report, stderr, success) == Report::Slices(
            single_slice(trim(report.skip(name_at))),
        ),
        report_of(Seq::empty(), report, success) == Report::Slices(
            single_slice(trim(report.skip(name_at))),
        ),
        single_slice(trim(report.skip(name_at))).len() == 1,
        single_slice(trim(report.skip(name_at)))[0].size is None,
{
    let marker = ARCHITECTURE_MARKER@;
    lemma_position(report, marker, name_at - marker.len());
    lemma_line_end_of_single_line(report);
}

} // verus!
