//! The lines of a byte stream: where each ends, what reading them one by one
//! gives, and how that relates to the stream as a whole.

use crate::text::concat;
use crate::text::lemma_concat_first;
use vstd::prelude::*;
use vstd::utf8::decode_utf8;
use vstd::utf8::decode_utf8_split;
use vstd::utf8::is_char_boundary;
use vstd::utf8::is_char_boundary_iff_not_is_continuation_byte;
use vstd::utf8::is_char_boundary_start_end_of_seq;
use vstd::utf8::length_of_first_scalar;
use vstd::utf8::pop_first_scalar;
use vstd::utf8::valid_utf8;
use vstd::utf8::valid_utf8_concat;
use vstd::utf8::valid_utf8_split;

verus! {

/// The line feed, which ends a line.
pub const LINE_FEED: u8 = 0x0A;

/// Where the line that begins at `start` ends: just behind the first line
/// feed at or after `start`, or at the end of `bytes` where there is none.
pub open spec fn line_end(bytes: Seq<u8>, start: int) -> int
    decreases bytes.len() - start,
{
    if start < 0 || start >= bytes.len() {
        bytes.len() as int
    } else if bytes[start] == LINE_FEED {
        start + 1
    } else {
        line_end(bytes, start + 1)
    }
}

/// A line takes up at least one byte and ends within the stream.
pub proof fn lemma_line_end_bounds(bytes: Seq<u8>, start: int)
    requires
        0 <= start < bytes.len(),
    ensures
        start < line_end(bytes, start) <= bytes.len(),
    decreases bytes.len() - start,
{
    if bytes[start] != LINE_FEED {
        if start + 1 < bytes.len() {
            lemma_line_end_bounds(bytes, start + 1);
        } else {
            assert(line_end(bytes, start + 1) == bytes.len());
        }
    }
}

/// What reading a stream line by line gives.
pub struct Reading {
    /// The lines read, each with its terminator.
    pub lines: Seq<Seq<char>>,
    /// Whether reading stopped at a line that was not valid UTF-8.
    pub broken: bool,
}

/// What reading `bytes` line by line gives: the lines in order, up to the end
/// or to the first line that is not valid UTF-8.
pub open spec fn reading(bytes: Seq<u8>) -> Reading
    decreases bytes.len(),
{
    if bytes.len() == 0 {
        Reading { lines: Seq::empty(), broken: false }
    } else {
        let end = line_end(bytes, 0);
        let first = bytes.take(end);
        if valid_utf8(first) {
            proof {
                lemma_line_end_bounds(bytes, 0);
            }
            let rest = reading(bytes.skip(end));
            Reading { lines: seq![decode_utf8(first)] + rest.lines, broken: rest.broken }
        } else {
            Reading { lines: Seq::empty(), broken: true }
        }
    }
}

/// How many line feeds `bytes` hold.
pub open spec fn line_feeds(bytes: Seq<u8>) -> nat
    decreases bytes.len(),
{
    if bytes.len() == 0 {
        0
    } else {
        line_feeds(bytes.drop_last()) + if bytes.last() == LINE_FEED {
            1nat
        } else {
            0nat
        }
    }
}

/// Whether `bytes` end in a line without a line feed.
pub open spec fn ends_unfinished(bytes: Seq<u8>) -> bool {
    bytes.len() > 0 && bytes.last() != LINE_FEED
}

/// A line holds no line feed but the one that may end it.
pub proof fn lemma_line_has_one_feed(bytes: Seq<u8>, start: int)
    requires
        0 <= start < bytes.len(),
    ensures
        ({
            let end = line_end(bytes, start);
            let line = bytes.subrange(start, end);
            line_feeds(line) == if line.last() == LINE_FEED {
                1nat
            } else {
                0nat
            }
        }),
        line_end(bytes, start) < bytes.len() ==> bytes[line_end(bytes, start) - 1] == LINE_FEED,
    decreases bytes.len() - start,
{
    let end = line_end(bytes, start);
    let line = bytes.subrange(start, end);
    lemma_line_end_bounds(bytes, start);
    reveal_with_fuel(line_feeds, 2);
    if bytes[start] != LINE_FEED && start + 1 < bytes.len() {
        // The line is its first byte, which is no line feed, and then the
        // line that begins behind it.
        lemma_line_has_one_feed(bytes, start + 1);
        let tail = bytes.subrange(start + 1, end);
        assert(line =~= seq![bytes[start]] + tail);
        lemma_line_feeds_add(seq![bytes[start]], tail);
    }
}

/// The line feeds of two streams, one behind the other.
proof fn lemma_line_feeds_add(a: Seq<u8>, b: Seq<u8>)
    ensures
        line_feeds(a + b) == line_feeds(a) + line_feeds(b),
    decreases b.len(),
{
    if b.len() > 0 {
        lemma_line_feeds_add(a, b.drop_last());
        assert((a + b).drop_last() =~= a + b.drop_last());
    }
}

/// As many lines are read as the stream holds line feeds, and one more where
/// it ends in a line without one.
pub proof fn lemma_lines_read(bytes: Seq<u8>)
    requires
        !reading(bytes).broken,
    ensures
        reading(bytes).lines.len() == line_feeds(bytes) + if ends_unfinished(bytes) {
            1nat
        } else {
            0nat
        },
    decreases bytes.len(),
{
    if bytes.len() > 0 {
        let end = line_end(bytes, 0);
        lemma_line_end_bounds(bytes, 0);
        lemma_line_has_one_feed(bytes, 0);
        let first = bytes.take(end);
        let rest = bytes.skip(end);
        assert(first + rest =~= bytes);
        lemma_line_feeds_add(first, rest);
        lemma_lines_read(rest);
    }
}

/// Behind a character that begins at a boundary lies a boundary.
proof fn lemma_next_boundary(bytes: Seq<u8>, i: int)
    requires
        valid_utf8(bytes),
        is_char_boundary(bytes, i),
        0 <= i < bytes.len(),
    ensures
        is_char_boundary(bytes, i + length_of_first_scalar(bytes.subrange(i, bytes.len() as int))),
    decreases bytes.len(),
{
    reveal_with_fuel(is_char_boundary, 2);
    if i > 0 {
        // The boundary lies behind the first character: look for it there.
        lemma_next_boundary(pop_first_scalar(bytes), i - length_of_first_scalar(bytes));
    }
}

/// A line ends at a boundary between characters.
pub proof fn lemma_line_ends_at_boundary(bytes: Seq<u8>)
    requires
        valid_utf8(bytes),
    ensures
        is_char_boundary(bytes, line_end(bytes, 0)),
{
    let end = line_end(bytes, 0);
    if bytes.len() > 0 {
        lemma_line_end_bounds(bytes, 0);
        if end == bytes.len() {
            is_char_boundary_start_end_of_seq(bytes);
        } else {
            // The line feed is a character of one byte, and the line ends behind it.
            lemma_line_has_one_feed(bytes, 0);
            is_char_boundary_iff_not_is_continuation_byte(bytes, end - 1);
            lemma_next_boundary(bytes, end - 1);
        }
    }
}

/// A stream that ends with a line feed encodes a text that ends with one.
pub proof fn lemma_feed_ends_text(bytes: Seq<u8>)
    requires
        valid_utf8(bytes),
        bytes.len() > 0,
        bytes.last() == LINE_FEED,
    ensures
        decode_utf8(bytes).len() > 0,
        decode_utf8(bytes).last() == '\n',
{
    // The line feed is a character of its own: split the stream in front of
    // it, and decode the two parts.
    let k = bytes.len() - 1;
    is_char_boundary_iff_not_is_continuation_byte(bytes, k);
    valid_utf8_split(bytes, k);
    decode_utf8_split(bytes, k);
    assert((0x0Au8 & 0x7F) == 0x0A) by (bit_vector);
    reveal_with_fuel(decode_utf8, 2);
}

/// Reading a stream line by line breaks off just where the stream as a whole
/// is not valid UTF-8; and where it is, the lines put together are the text
/// that the stream encodes.
pub proof fn lemma_reading_whole_stream(bytes: Seq<u8>)
    ensures
        reading(bytes).broken <==> !valid_utf8(bytes),
        valid_utf8(bytes) ==> concat(reading(bytes).lines) == decode_utf8(bytes),
    decreases bytes.len(),
{
    if bytes.len() > 0 {
        let end = line_end(bytes, 0);
        lemma_line_end_bounds(bytes, 0);
        let first = bytes.take(end);
        let rest = bytes.skip(end);
        lemma_reading_whole_stream(rest);
        assert(first + rest =~= bytes);
        if valid_utf8(bytes) {
            lemma_line_ends_at_boundary(bytes);
            valid_utf8_split(bytes, end);
            decode_utf8_split(bytes, end);
            lemma_concat_first(decode_utf8(first), reading(rest).lines);
        } else if valid_utf8(first) {
            if valid_utf8(rest) {
                valid_utf8_concat(first, rest);
            }
        }
    }
}

} // verus!
