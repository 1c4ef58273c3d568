//! The layout of the log on stable storage: one entry per line.
//!
//! A flush appends each entry's text followed by a line feed. A load cuts the
//! stored bytes back into lines at the line feeds, dropping a carriage return
//! that stands right before one; bytes after the last line feed, if there are
//! any, form a last line of their own.

use vstd::prelude::*;

verus! {

/// The byte that ends a line.
pub const LINE_FEED: u8 = 10;

/// The byte that some writers put before a line feed.
pub const CARRIAGE_RETURN: u8 = 13;

/// The contents of a list of byte strings.
pub open spec fn contents(lines: Seq<Vec<u8>>) -> Seq<Seq<u8>> {
    lines.map_values(|line: Vec<u8>| line@)
}

/// The stored form of a run of lines: each line, followed by a line feed.
pub open spec fn framed(lines: Seq<Seq<u8>>) -> Seq<u8>
    decreases lines.len(),
{
    if lines.len() == 0 {
        Seq::empty()
    } else {
        framed(lines.drop_last()) + lines.last().push(LINE_FEED)
    }
}

/// A line without the carriage return at its end, if it has one.
pub open spec fn without_carriage_return(line: Seq<u8>) -> Seq<u8> {
    if line.len() > 0 && line.last() == CARRIAGE_RETURN {
        line.drop_last()
    } else {
        line
    }
}

/// The bytes that follow the last line feed: the line that is still open.
pub open spec fn open_line(bytes: Seq<u8>) -> Seq<u8>
    decreases bytes.len(),
{
    if bytes.len() == 0 || bytes.last() == LINE_FEED {
        Seq::empty()
    } else {
        open_line(bytes.drop_last()).push(bytes.last())
    }
}

/// The lines that a line feed has closed, first to last.
pub open spec fn closed_lines(bytes: Seq<u8>) -> Seq<Seq<u8>>
    decreases bytes.len(),
{
    if bytes.len() == 0 {
        Seq::empty()
    } else if bytes.last() == LINE_FEED {
        closed_lines(bytes.drop_last()).push(
            without_carriage_return(open_line(bytes.drop_last())),
        )
    } else {
        closed_lines(bytes.drop_last())
    }
}

/// The lines of stored bytes: the closed ones, and the open one where it is
/// not empty.
pub open spec fn split(bytes: Seq<u8>) -> Seq<Seq<u8>> {
    if open_line(bytes).len() > 0 {
        closed_lines(bytes).push(open_line(bytes))
    } else {
        closed_lines(bytes)
    }
}

/// Whether a line can be stored and read back as it is: it holds no line
/// feed and does not end in a carriage return.
pub open spec fn storable(line: Seq<u8>) -> bool {
    &&& !line.contains(LINE_FEED)
    &&& without_carriage_return(line) == line
}

/// Lays out lines for stable storage: each line, followed by a line feed.
pub fn frame_lines(lines: &Vec<Vec<u8>>) -> (bytes: Vec<u8>)
    ensures
        bytes@ == framed(contents(lines@)),
{
    let mut bytes: Vec<u8> = Vec::new();
    let mut i: usize = 0;
    while i < lines.len()
        invariant
            i <= lines@.len(),
            bytes@ == framed(contents(lines@).take(i as int)),
        decreases lines@.len() - i,
    {
        let line = &lines[i];
        let ghost before = bytes@;
        let mut j: usize = 0;
        while j < line.len()
            invariant
                j <= line@.len(),
                bytes@ == before + line@.take(j as int),
            decreases line@.len() - j,
        {
            bytes.push(line[j]);
            j += 1;
        }
        bytes.push(LINE_FEED);
        assert(contents(lines@).take(i + 1).drop_last() =~= contents(lines@).take(i as int));
        i += 1;
    }
    assert(contents(lines@).take(lines@.len() as int) =~= contents(lines@));
    bytes
}

/// Cuts stored bytes into lines.
pub fn split_lines(bytes: &[u8]) -> (lines: Vec<Vec<u8>>)
    ensures
        contents(lines@) == split(bytes@),
{
    let mut lines: Vec<Vec<u8>> = Vec::new();
    let mut current: Vec<u8> = Vec::new();
    let mut i: usize = 0;
    while i < bytes.len()
        invariant
            i <= bytes@.len(),
            contents(lines@) == closed_lines(bytes@.take(i as int)),
            current@ == open_line(bytes@.take(i as int)),
        decreases bytes@.len() - i,
    {
        assert(bytes@.take(i + 1).drop_last() =~= bytes@.take(i as int));
        if bytes[i] == LINE_FEED {
            if current.len() > 0 && current[current.len() - 1] == CARRIAGE_RETURN {
                current.pop();
            }
            lines.push(current);
            current = Vec::new();
        } else {
            current.push(bytes[i]);
        }
        i += 1;
    }
    assert(bytes@.take(bytes@.len() as int) =~= bytes@);
    if current.len() > 0 {
        lines.push(current);
    }
    lines
}

/// Bytes without a line feed, put behind stored bytes, close no line and
/// lengthen the open one.
pub proof fn lemma_append_within_line(bytes: Seq<u8>, more: Seq<u8>)
    requires
        !more.contains(LINE_FEED),
    ensures
        closed_lines(bytes + more) == closed_lines(bytes),
        open_line(bytes + more) == open_line(bytes) + more,
    decreases more.len(),
{
    if more.len() > 0 {
        let fewer = more.drop_last();
        assert(fewer.contains(LINE_FEED) ==> more[fewer.index_of(LINE_FEED)] == LINE_FEED);
        lemma_append_within_line(bytes, fewer);
        assert((bytes + more).drop_last() =~= bytes + fewer);
    }
}

/// Appending to the log is appending to its lines: the stored form of two
/// runs of lines, one written after the other, is the stored form of the two
/// runs joined.
pub proof fn lemma_framed_concat(first: Seq<Seq<u8>>, second: Seq<Seq<u8>>)
    ensures
        framed(first + second) == framed(first) + framed(second),
    decreases second.len(),
{
    if second.len() > 0 {
        lemma_framed_concat(first, second.drop_last());
        assert((first + second).drop_last() =~= first + second.drop_last());
    }
}

/// What was laid out for storage reads back as it was: cutting the stored
/// form of a run of storable lines gives those lines.
pub proof fn lemma_split_framed(lines: Seq<Seq<u8>>)
    requires
        forall|i: int| 0 <= i < lines.len() ==> storable(#[trigger] lines[i]),
    ensures
        split(framed(lines)) == lines,
        open_line(framed(lines)).len() == 0,
    decreases lines.len(),
{
    if lines.len() > 0 {
        let earlier = lines.drop_last();
        let stored = framed(earlier) + lines.last();
        assert forall|i: int| 0 <= i < earlier.len() implies storable(#[trigger] earlier[i]) by {
            assert(earlier[i] == lines[i]);
        }
        lemma_split_framed(earlier);
        lemma_append_within_line(framed(earlier), lines.last());
        assert(stored.push(LINE_FEED).drop_last() =~= stored);
    }
}

/// No line that comes out of a cut holds a line feed.
pub proof fn lemma_split_lines_hold_no_line_feed(bytes: Seq<u8>)
    ensures
        !open_line(bytes).contains(LINE_FEED),
        forall|i: int|
            0 <= i < closed_lines(bytes).len() ==> !(#[trigger] closed_lines(bytes)[i]).contains(
                LINE_FEED,
            ),
        forall|i: int| 0 <= i < split(bytes).len() ==> !(#[trigger] split(bytes)[i]).contains(
            LINE_FEED,
        ),
    decreases bytes.len(),
{
    if bytes.len() > 0 {
        let rest = bytes.drop_last();
        let open = open_line(rest);
        lemma_split_lines_hold_no_line_feed(rest);
        if bytes.last() == LINE_FEED {
            let closed = without_carriage_return(open);
            assert(closed.contains(LINE_FEED) ==> open[closed.index_of(LINE_FEED)] == LINE_FEED);
            assert forall|i: int| 0 <= i < closed_lines(bytes).len() implies !(#[trigger] closed_lines(
                bytes,
            )[i]).contains(LINE_FEED) by {
                if i < closed_lines(rest).len() {
                    assert(closed_lines(bytes)[i] == closed_lines(rest)[i]);
                }
            }
        } else {
            let longer = open.push(bytes.last());
            assert(longer.contains(LINE_FEED) ==> open[longer.index_of(LINE_FEED)] == LINE_FEED);
        }
    }
    assert forall|i: int| 0 <= i < split(bytes).len() implies !(#[trigger] split(bytes)[i]).contains(
        LINE_FEED,
    ) by {
        if i < closed_lines(bytes).len() {
            assert(split(bytes)[i] == closed_lines(bytes)[i]);
        }
    }
}

} // verus!
