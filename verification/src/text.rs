//! The character-level model of a source buffer: where its lines begin,
//! how long each line is, and how a one-indexed (line, column) pair maps
//! to a character offset.

use vstd::prelude::*;

verus! {

/// The character offsets at which the lines of `s` begin: offset 0, then
/// one past each newline character, in ascending order.
pub open spec fn line_starts_of(s: Seq<char>) -> Seq<int>
    decreases s.len(),
{
    if s.len() == 0 {
        seq![0int]
    } else {
        let pre = line_starts_of(s.drop_last());
        if s.last() == '\n' {
            pre.push(s.len() as int)
        } else {
            pre
        }
    }
}

/// How many lines `s` has; a buffer without newlines has one line.
pub open spec fn num_lines(s: Seq<char>) -> int {
    line_starts_of(s).len() as int
}

/// The character offset at which the zero-indexed line `k` of `s` begins.
pub open spec fn line_start(s: Seq<char>, k: int) -> int {
    line_starts_of(s)[k]
}

/// The length of the zero-indexed line `k` of `s`, not counting the
/// newline that ends it.
pub open spec fn line_len_at(s: Seq<char>, k: int) -> int {
    if k + 1 < num_lines(s) {
        line_starts_of(s)[k + 1] - line_starts_of(s)[k] - 1
    } else {
        s.len() - line_starts_of(s)[k]
    }
}

/// The character offset addressed by a one-indexed (line, column) pair
/// when it names the first character of a span.
pub open spec fn start_offset(s: Seq<char>, line: int, col: int) -> int {
    line_start(s, line - 1) + col - 1
}

/// The character offset one past the character addressed by a one-indexed
/// (line, column) pair when it names the last character of a span.
pub open spec fn end_offset(s: Seq<char>, line: int, col: int) -> int {
    line_start(s, line - 1) + col
}

/// A one-indexed (line, column) pair that may begin a span of `s`: its
/// column may stand anywhere on its line, or one past the line's end.
pub open spec fn valid_start(s: Seq<char>, line: int, col: int) -> bool {
    &&& 1 <= line <= num_lines(s)
    &&& 1 <= col
    &&& col - 1 <= line_len_at(s, line - 1)
}

/// A one-indexed (line, column) pair that may end a span of `s`,
/// inclusively; column 0 names the empty end of a line.
pub open spec fn valid_end(s: Seq<char>, line: int, col: int) -> bool {
    &&& 1 <= line <= num_lines(s)
    &&& 0 <= col <= line_len_at(s, line - 1)
}

/// The basic shape of the line-start table: it begins with 0, ascends
/// strictly, stays within the buffer, has a newline just before each
/// later line's start, and lists every newline.
pub proof fn lemma_line_starts(s: Seq<char>)
    ensures
        line_starts_of(s).len() >= 1,
        line_starts_of(s)[0] == 0,
        forall|k: int|
            0 <= k < line_starts_of(s).len() ==> 0 <= #[trigger] line_starts_of(s)[k] <= s.len(),
        forall|i: int, j: int|
            0 <= i < j < line_starts_of(s).len() ==> line_starts_of(s)[i] < line_starts_of(s)[j],
        forall|k: int|
            1 <= k < line_starts_of(s).len() ==> s[#[trigger] line_starts_of(s)[k] - 1] == '\n',
        forall|i: int| 0 <= i < s.len() && s[i] == '\n' ==> line_starts_of(s).contains(i + 1),
    decreases s.len(),
{
    if s.len() == 0 {
    } else {
        let pre = s.drop_last();
        let pls = line_starts_of(pre);
        let ls = line_starts_of(s);
        lemma_line_starts(pre);
        assert(forall|i: int| 0 <= i < pre.len() ==> pre[i] == s[i]);
        if s.last() == '\n' {
            assert(ls == pls.push(s.len() as int));
            assert forall|i: int| 0 <= i < s.len() && s[i] == '\n' implies ls.contains(i + 1) by {
                if i < s.len() - 1 {
                    assert(pls.contains(i + 1));
                    let w = choose|w: int| 0 <= w < pls.len() && pls[w] == i + 1;
                    assert(ls[w] == i + 1);
                } else {
                    assert(ls[ls.len() - 1] == i + 1);
                }
            }
        } else {
            assert(ls == pls);
            assert forall|i: int| 0 <= i < s.len() && s[i] == '\n' implies ls.contains(i + 1) by {
                assert(i < s.len() - 1);
                assert(pls.contains(i + 1));
            }
        }
    }
}

/// Each line lies within the buffer: its start plus its length does not
/// pass the buffer's end.
pub proof fn lemma_line_in_bounds(s: Seq<char>, k: int)
    requires
        0 <= k < num_lines(s),
    ensures
        0 <= line_start(s, k),
        line_start(s, k) + line_len_at(s, k) <= s.len(),
{
    lemma_line_starts(s);
}

/// A valid end column on a valid line addresses an offset inside the
/// buffer, at or after the offset of any valid start at or before it.
pub proof fn lemma_offsets_in_bounds(s: Seq<char>, line: int, col: int)
    requires
        1 <= line <= num_lines(s),
        0 <= col <= line_len_at(s, line - 1) + 1,
    ensures
        0 <= line_start(s, line - 1),
        line_start(s, line - 1) + col <= s.len() + 1,
        col <= line_len_at(s, line - 1) ==> line_start(s, line - 1) + col <= s.len(),
{
    lemma_line_starts(s);
    lemma_line_in_bounds(s, line - 1);
}

} // verus!

verus! {

/// A well-formed span's start line never comes after its end line.
pub proof fn lemma_span_lines_ordered(s: Seq<char>, sl: int, sc: int, el: int, ec: int)
    requires
        valid_start(s, sl, sc),
        valid_end(s, el, ec),
        start_offset(s, sl, sc) <= end_offset(s, el, ec),
    ensures
        sl <= el,
{
    lemma_line_starts(s);
    if el < sl {
        if el < num_lines(s) {
            assert(line_starts_of(s)[el] <= line_starts_of(s)[sl - 1]);
        }
        assert(false);
    }
}

} // verus!
