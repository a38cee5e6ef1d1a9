//! What splitting a text into lines keeps and what it drops.

use vstd::prelude::*;
use crate::widget::split_lines;

verus! {

/// The lines put together again, with one line break between each two.
pub open spec fn join_lines(lines: Seq<Seq<char>>) -> Seq<char>
    decreases lines.len(),
{
    if lines.len() == 0 {
        Seq::empty()
    } else if lines.len() == 1 {
        lines[0]
    } else {
        join_lines(lines.drop_last()).push('\n') + lines.last()
    }
}

/// Splitting loses nothing but the line breaks: a text has at least one line,
/// no line holds a line break, and the lines joined by line breaks are the
/// text again.
pub proof fn lemma_split_lines(text: Seq<char>)
    ensures
        split_lines(text).len() >= 1,
        forall|i: int, j: int|
            0 <= i < split_lines(text).len() && 0 <= j < split_lines(text)[i].len()
                ==> split_lines(text)[i][j] != '\n',
        join_lines(split_lines(text)) == text,
    decreases text.len(),
{
    if text.len() > 0 {
        let before = split_lines(text.drop_last());
        let lines = split_lines(text);
        let c = text.last();
        lemma_split_lines(text.drop_last());
        assert(text.drop_last().push(c) =~= text);
        if c == '\n' {
            assert(lines.drop_last() =~= before);
            assert(join_lines(lines) =~= join_lines(before).push('\n'));
        } else {
            assert(lines.last() == before.last().push(c));
            if before.len() == 1 {
                assert(join_lines(lines) =~= join_lines(before).push(c));
            } else {
                assert(lines.drop_last() =~= before.drop_last());
                assert(join_lines(lines) =~= join_lines(before).push(c));
            }
        }
        assert forall|i: int, j: int|
            0 <= i < lines.len() && 0 <= j < lines[i].len() implies lines[i][j] != '\n' by {
            if i < lines.len() - 1 {
                assert(lines[i] == before[i]);
            } else if c != '\n' && j < lines[i].len() - 1 {
                assert(lines[i][j] == before.last()[j]);
            }
        }
    } else {
        assert(join_lines(split_lines(text)) =~= text);
    }
}

} // verus!
