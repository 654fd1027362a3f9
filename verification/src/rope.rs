//! The text buffer behind the reflow editor, held in a `ropey::Rope`, and
//! the mathematical model of its line structure.
//!
//! The rope is built without ropey's extended line-break features, so the
//! only line break is the linefeed character.  A line index is the number
//! of linefeeds before a position; a line starts right after the linefeed
//! that ends the previous one; the final line has no terminator.

use vstd::prelude::*;

verus! {

#[verifier::external_type_specification]
#[verifier::external_body]
pub struct ExRope(ropey::Rope);

/// The characters a rope holds, in order.
pub uninterp spec fn rope_chars(r: ropey::Rope) -> Seq<char>;

/// How many linefeeds occur strictly before position `i`.
pub open spec fn count_newlines_up_to(s: Seq<char>, i: int) -> int
    decreases i,
{
    if i <= 0 {
        0
    } else {
        count_newlines_up_to(s, i - 1) + if s[i - 1] == '\n' {
            1int
        } else {
            0int
        }
    }
}

/// The line a character position belongs to: the number of linefeeds
/// before it.  A linefeed is the last character of the line it ends.
pub open spec fn line_of_spec(s: Seq<char>, i: int) -> int {
    count_newlines_up_to(s, i)
}

/// How many lines a text has: one more than its linefeed count.
pub open spec fn num_lines_spec(s: Seq<char>) -> int {
    count_newlines_up_to(s, s.len() as int) + 1
}

/// The first linefeed position at or after `from`, or the text length if
/// there is none.
pub open spec fn next_newline(s: Seq<char>, from: int) -> int
    decreases s.len() - from,
{
    if !(0 <= from < s.len()) {
        s.len() as int
    } else if s[from] == '\n' {
        from
    } else {
        next_newline(s, from + 1)
    }
}

/// The character position where line `l` starts: position 0 for line 0,
/// and one past the linefeed that ends line `l - 1` otherwise.  One past
/// the last line it is the text length.
pub open spec fn line_start_spec(s: Seq<char>, l: int) -> int
    decreases l,
{
    if l <= 0 {
        0
    } else {
        let p = next_newline(s, line_start_spec(s, l - 1));
        if p >= s.len() {
            s.len() as int
        } else {
            p + 1
        }
    }
}

/// The characters of line `l`, its terminating linefeed included.
pub open spec fn line_chars(s: Seq<char>, l: int) -> Seq<char> {
    s.subrange(line_start_spec(s, l), line_start_spec(s, l + 1))
}

// ---------------------------------------------------------------------
// Facts about the line model.
// ---------------------------------------------------------------------

/// Linefeed counts are nonnegative and at most the position counted to.
pub proof fn lemma_count_nonneg(s: Seq<char>, i: int)
    requires
        0 <= i,
    ensures
        0 <= count_newlines_up_to(s, i) <= i,
    decreases i,
{
    if i > 0 {
        lemma_count_nonneg(s, i - 1);
    }
}

/// Linefeed counts lie between 0 and the position counted to, and grow
/// with it.
pub proof fn lemma_count_bounds(s: Seq<char>, i: int, j: int)
    requires
        0 <= i <= j,
    ensures
        0 <= count_newlines_up_to(s, i) <= count_newlines_up_to(s, j) <= count_newlines_up_to(
            s,
            i,
        ) + (j - i),
    decreases j - i,
{
    lemma_count_nonneg(s, i);
    if i < j {
        lemma_count_bounds(s, i, j - 1);
    }
}

/// Over a stretch with no linefeed the count does not change.
pub proof fn lemma_count_constant(s: Seq<char>, i: int, j: int)
    requires
        0 <= i <= j,
        forall|k: int| i <= k < j ==> s[k] != '\n',
    ensures
        count_newlines_up_to(s, j) == count_newlines_up_to(s, i),
    decreases j - i,
{
    if i < j {
        lemma_count_constant(s, i, j - 1);
    }
}

/// The next linefeed at or after `from` lies between `from` and the end;
/// nothing before it is a linefeed, and it is one unless the end was
/// reached.
pub proof fn lemma_next_newline(s: Seq<char>, from: int)
    requires
        0 <= from <= s.len(),
    ensures
        from <= next_newline(s, from) <= s.len(),
        forall|k: int| from <= k < next_newline(s, from) ==> s[k] != '\n',
        next_newline(s, from) < s.len() ==> s[next_newline(s, from)] == '\n',
    decreases s.len() - from,
{
    if from < s.len() && s[from] != '\n' {
        lemma_next_newline(s, from + 1);
    }
}

/// If nothing in `[from, j)` is a linefeed and `s[j]` is one, then `j` is
/// the next linefeed after `from`.
pub proof fn lemma_next_newline_exact(s: Seq<char>, from: int, j: int)
    requires
        0 <= from <= j < s.len(),
        forall|k: int| from <= k < j ==> s[k] != '\n',
        s[j] == '\n',
    ensures
        next_newline(s, from) == j,
    decreases j - from,
{
    if from < j {
        lemma_next_newline_exact(s, from + 1, j);
    }
}

/// Line starts are valid positions, grow with the line index, and the
/// count of linefeeds before the start of line `l` is exactly `l` for
/// every real line.
pub proof fn lemma_line_start(s: Seq<char>, l: int)
    requires
        0 <= l,
    ensures
        0 <= line_start_spec(s, l) <= s.len(),
        l <= count_newlines_up_to(s, s.len() as int) ==> count_newlines_up_to(
            s,
            line_start_spec(s, l),
        ) == l,
        l > count_newlines_up_to(s, s.len() as int) ==> line_start_spec(s, l) == s.len(),
    decreases l,
{
    let total = count_newlines_up_to(s, s.len() as int);
    lemma_count_nonneg(s, s.len() as int);
    if l == 0 {
    } else {
        lemma_line_start(s, l - 1);
        let prev = line_start_spec(s, l - 1);
        let p = next_newline(s, prev);
        lemma_next_newline(s, prev);
        lemma_count_constant(s, prev, p);
        if p < s.len() {
            // Crossing the linefeed at p raises the count by one.
            assert(count_newlines_up_to(s, p + 1) == count_newlines_up_to(s, p) + 1);
            lemma_count_bounds(s, p + 1, s.len() as int);
            if l - 1 > total {
                // Line l - 1 already starts at the end, where no
                // linefeed can follow.
                assert(false);
            } else if l - 1 == total {
                // The count just before p is already the whole total.
                assert(false);
            }
            assert(l <= total);
            assert(count_newlines_up_to(s, line_start_spec(s, l)) == l);
        } else {
            // No linefeed at or after prev: line l starts at the end,
            // and the total count is the count at prev.
            if l <= total {
                lemma_count_bounds(s, prev, s.len() as int);
                assert(count_newlines_up_to(s, s.len() as int) == count_newlines_up_to(s, prev));
                assert(false);
            }
        }
    }
}

/// Monotonicity of line starts in the line index.
pub proof fn lemma_line_start_monotone(s: Seq<char>, l1: int, l2: int)
    requires
        0 <= l1 <= l2,
    ensures
        line_start_spec(s, l1) <= line_start_spec(s, l2),
    decreases l2 - l1,
{
    if l1 < l2 {
        lemma_line_start_monotone(s, l1, l2 - 1);
        lemma_line_start(s, l2 - 1);
        lemma_next_newline(s, line_start_spec(s, l2 - 1));
    }
}

/// Every position lies inside the line it is counted into: the start of
/// line `line_of(i)` is at or before `i`, and the start of the next line
/// is after `i`.
pub proof fn lemma_position_in_line(s: Seq<char>, i: int)
    requires
        0 <= i <= s.len(),
    ensures
        line_start_spec(s, line_of_spec(s, i)) <= i,
        i < s.len() ==> i < line_start_spec(s, line_of_spec(s, i) + 1),
{
    let l = line_of_spec(s, i);
    let total = count_newlines_up_to(s, s.len() as int);
    lemma_count_bounds(s, i, s.len() as int);
    lemma_count_nonneg(s, i);
    lemma_line_start(s, l);
    let ls = line_start_spec(s, l);
    if ls > i {
        // The character just before a positive line start is a linefeed,
        // so the count at ls exceeds the count at i: contradiction.
        let prev = line_start_spec(s, l - 1);
        lemma_line_start(s, l - 1);
        let p = next_newline(s, prev);
        lemma_next_newline(s, prev);
        if p >= s.len() {
            lemma_count_constant(s, prev, s.len() as int);
            assert(false);
        } else {
            assert(ls == p + 1 && s[p] == '\n');
            assert(count_newlines_up_to(s, p + 1) == count_newlines_up_to(s, p) + 1);
            lemma_count_bounds(s, i, p);
            assert(false);
        }
    }
    if i < s.len() {
        let nl = line_start_spec(s, l + 1);
        lemma_line_start(s, l + 1);
        if nl <= i {
            if l + 1 <= total {
                // count(nl) == l + 1 yet counts grow towards i.
                lemma_count_bounds(s, nl, i);
                assert(false);
            } else {
                // Line l + 1 starts at the end, past i.
                assert(false);
            }
        }
    }
}


/// How the linefeed count changes when a character is inserted: counts
/// before the insertion point are unchanged, counts after it gain the
/// inserted character's contribution.
pub proof fn lemma_count_insert(s: Seq<char>, k: int, ch: char, i: int)
    requires
        0 <= k <= s.len(),
        0 <= i <= s.len() + 1,
    ensures
        i <= k ==> count_newlines_up_to(s.insert(k, ch), i) == count_newlines_up_to(s, i),
        i > k ==> count_newlines_up_to(s.insert(k, ch), i) == count_newlines_up_to(s, i - 1)
            + if ch == '\n' {
            1int
        } else {
            0int
        },
    decreases i,
{
    let s2 = s.insert(k, ch);
    if i > 0 {
        lemma_count_insert(s, k, ch, i - 1);
        if i - 1 < k {
            assert(s2[i - 1] == s[i - 1]);
        } else if i - 1 == k {
            assert(s2[k] == ch);
        } else {
            assert(s2[i - 1] == s[i - 2]);
        }
    }
}


/// Linefeed counts agree on texts that agree up to the counted
/// position.
pub proof fn lemma_count_congruent(s1: Seq<char>, s2: Seq<char>, i: int)
    requires
        forall|j: int| 0 <= j < i ==> s1[j] == s2[j],
    ensures
        count_newlines_up_to(s1, i) == count_newlines_up_to(s2, i),
    decreases i,
{
    if i > 0 {
        lemma_count_congruent(s1, s2, i - 1);
    }
}

/// A real line past the first starts right after a linefeed.
pub proof fn lemma_line_start_preceded(s: Seq<char>, l: int)
    requires
        1 <= l <= count_newlines_up_to(s, s.len() as int),
    ensures
        1 <= line_start_spec(s, l) <= s.len(),
        s[line_start_spec(s, l) - 1] == '\n',
{
    let total = count_newlines_up_to(s, s.len() as int);
    lemma_line_start(s, l - 1);
    let prev = line_start_spec(s, l - 1);
    let p = next_newline(s, prev);
    lemma_next_newline(s, prev);
    if p >= s.len() {
        // No linefeed from the previous start on: the whole count would
        // already be reached one line early.
        lemma_count_constant(s, prev, s.len() as int);
        assert(false);
    }
}

/// A position with `l` linefeeds before it, sitting right after a
/// linefeed (or at the very front), is exactly where line `l` starts.
pub proof fn lemma_line_start_char(s: Seq<char>, l: int, p: int)
    requires
        0 <= p <= s.len(),
        count_newlines_up_to(s, p) == l,
        p == 0 || s[p - 1] == '\n',
    ensures
        line_start_spec(s, l) == p,
{
    lemma_count_nonneg(s, p);
    lemma_position_in_line(s, p);
    let ls = line_start_spec(s, l);
    assert(ls <= p);
    if ls < p {
        lemma_count_bounds(s, p, s.len() as int);
        lemma_line_start(s, l);
        assert(count_newlines_up_to(s, ls) == l);
        if p == 0 {
            assert(false);
        }
        assert(count_newlines_up_to(s, p) == count_newlines_up_to(s, p - 1) + 1);
        lemma_count_bounds(s, ls, p - 1);
        assert(false);
    }
}

// ---------------------------------------------------------------------
// Trusted access to the rope.
// ---------------------------------------------------------------------

/// Relies on ropey's `Rope::from_str`: builds a rope holding exactly the
/// characters of the text.
#[verifier::external_body]
pub(crate) fn rope_from_str(text: &str) -> (r: ropey::Rope)
    ensures
        rope_chars(r) == text@,
{
    ropey::Rope::from_str(text)
}

/// Relies on ropey's `Rope::len_chars`: the number of characters held.
#[verifier::external_body]
pub(crate) fn rope_len_chars(r: &ropey::Rope) -> (n: usize)
    ensures
        n == rope_chars(*r).len(),
{
    r.len_chars()
}

/// Relies on ropey's `Rope::len_lines`: one more than the number of line
/// breaks, which with only the linefeed break recognized is the linefeed
/// count.
#[verifier::external_body]
pub(crate) fn rope_len_lines(r: &ropey::Rope) -> (n: usize)
    requires
        rope_chars(*r).len() < usize::MAX,
    ensures
        n == num_lines_spec(rope_chars(*r)),
{
    r.len_lines()
}

/// Relies on ropey's `Rope::char_to_line`: the index of the line holding
/// the position, which equals the count of line breaks before it; one
/// past the end gives the last line.
#[verifier::external_body]
pub(crate) fn rope_char_to_line(r: &ropey::Rope, char_idx: usize) -> (l: usize)
    requires
        char_idx <= rope_chars(*r).len(),
    ensures
        l == line_of_spec(rope_chars(*r), char_idx as int),
{
    r.char_to_line(char_idx)
}

/// Relies on ropey's `Rope::line_to_char`: the position of the first
/// character of the line; one past the last line gives the text length.
#[verifier::external_body]
pub(crate) fn rope_line_to_char(r: &ropey::Rope, line_idx: usize) -> (i: usize)
    requires
        line_idx <= num_lines_spec(rope_chars(*r)),
    ensures
        i == line_start_spec(rope_chars(*r), line_idx as int),
{
    r.line_to_char(line_idx)
}

/// Relies on ropey's `Rope::char`: the character at the position.
#[verifier::external_body]
pub(crate) fn rope_char_at(r: &ropey::Rope, char_idx: usize) -> (c: char)
    requires
        char_idx < rope_chars(*r).len(),
    ensures
        c == rope_chars(*r)[char_idx as int],
{
    r.char(char_idx)
}

/// Relies on ropey's `Rope::insert_char`: places the character at the
/// position, shifting what follows.
#[verifier::external_body]
pub(crate) fn rope_insert_char(r: &mut ropey::Rope, char_idx: usize, ch: char)
    requires
        char_idx <= rope_chars(*old(r)).len(),
        rope_chars(*old(r)).len() < usize::MAX,
    ensures
        rope_chars(*final(r)) == rope_chars(*old(r)).insert(char_idx as int, ch),
{
    r.insert_char(char_idx, ch);
}

/// Relies on ropey's `Rope::remove`: removes the character at the
/// position, shifting what follows.
#[verifier::external_body]
pub(crate) fn rope_remove_char(r: &mut ropey::Rope, char_idx: usize)
    requires
        char_idx < rope_chars(*old(r)).len(),
    ensures
        rope_chars(*final(r)) == rope_chars(*old(r)).remove(char_idx as int),
{
    r.remove(char_idx..char_idx + 1);
}

} // verus!
