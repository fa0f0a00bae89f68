//! Where input comes from: what a file name refers to, what opening it gives,
//! and a byte stream held in memory, read one line or one block of bytes at a
//! time.

use crate::lines::LINE_FEED;
use crate::lines::line_end;
use vstd::prelude::*;
use vstd::slice::slice_subrange;
use vstd::string::StrSliceExecFns;
use vstd::utf8::decode_utf8;
use vstd::utf8::valid_utf8;

verus! {

/// The name that stands for standard input.
pub open spec fn dash() -> Seq<char> {
    seq!['-']
}

/// The inputs of a run for which `files` were named: these, or standard
/// input where none was named.
pub open spec fn inputs(files: Seq<Seq<char>>) -> Seq<Seq<char>> {
    if files.len() > 0 {
        files
    } else {
        seq![dash()]
    }
}

/// The text of `name`, if there is one.
pub open spec fn text_of(name: Option<String>) -> Option<Seq<char>> {
    match name {
        Some(text) => Some(text@),
        None => None,
    }
}

/// `files`, or the name of standard input where there are none.
pub fn inputs_or_standard(files: Vec<String>) -> (named: Vec<String>)
    ensures
        named.deep_view() == inputs(files.deep_view()),
        named.len() > 0,
{
    let mut named = files;
    if named.len() == 0 {
        proof {
            reveal_strlit("-");
        }
        named.push("-".to_owned());
        assert(named[0]@ =~= dash());
    }
    named
}

/// What a file name refers to.
#[derive(Debug, PartialEq, Eq)]
pub enum InputRef {
    /// Standard input.
    Standard,
    /// The file at this path.
    Named(String),
}

impl InputRef {
    /// What `name` refers to: standard input for a single dash, and else the
    /// file of that name.
    pub fn resolve(name: &str) -> (input: InputRef)
        ensures
            name@ == dash() ==> input is Standard,
            name@ != dash() ==> (input matches InputRef::Named(path) && path@ == name@),
    {
        if is_dash(name) {
            InputRef::Standard
        } else {
            InputRef::Named(name.to_owned())
        }
    }
}

/// Whether `name` is the single dash that stands for standard input.
pub fn is_dash(name: &str) -> (b: bool)
    ensures
        b == (name@ == dash()),
{
    if name.unicode_len() == 1 {
        let same = name.get_char(0) == '-';
        assert(same ==> name@ =~= dash());
        same
    } else {
        false
    }
}

/// What came of opening one input.
#[derive(Debug, PartialEq, Eq)]
pub enum Source {
    /// It could not be opened; the text says why.
    Unreadable(String),
    /// It was opened, and these are the bytes it will give.
    Stream(Vec<u8>),
}

/// Why reading a line failed.
#[derive(Debug, PartialEq, Eq, Structural, Clone, Copy)]
pub enum ReadError {
    /// The line was not valid UTF-8.
    InvalidUtf8,
}

impl ReadError {
    /// The failure in words.
    pub fn message(&self) -> (text: String)
        ensures
            text@ == "stream did not contain valid UTF-8"@,
    {
        "stream did not contain valid UTF-8".to_owned()
    }
}

/// The text that `bytes` encode, where they are valid UTF-8.
///
/// Calls `core::str::from_utf8`, which accepts exactly the valid encodings
/// and gives back the same bytes seen as a string slice.
#[verifier::external_body]
fn decode<'a>(bytes: &'a [u8]) -> (text: Option<&'a str>)
    ensures
        text is Some <==> valid_utf8(bytes@),
        text matches Some(s) ==> s@ == decode_utf8(bytes@),
{
    core::str::from_utf8(bytes).ok()
}

/// A byte stream held in memory, read from front to back.
pub struct Cursor<'a> {
    bytes: &'a [u8],
    pos: usize,
}

impl<'a> Cursor<'a> {
    #[verifier::type_invariant]
    spec fn in_bounds(self) -> bool {
        self.pos <= self.bytes@.len()
    }

    /// The bytes that have not been read yet.
    pub closed spec fn remaining(self) -> Seq<u8> {
        self.bytes@.skip(self.pos as int)
    }

    /// A cursor at the start of `bytes`.
    pub fn new(bytes: &'a [u8]) -> (cursor: Cursor<'a>)
        ensures
            cursor.remaining() == bytes@,
    {
        Cursor { bytes, pos: 0 }
    }

    /// Reads one line, terminator included: `None` at the end of the stream,
    /// an error where the line is not valid UTF-8.
    pub fn read_line(&mut self) -> (res: Result<Option<&'a str>, ReadError>)
        ensures
            ({
                let rest = old(self).remaining();
                let first = rest.take(line_end(rest, 0));
                match res {
                    Ok(None) => rest.len() == 0 && final(self).remaining() == rest,
                    Ok(Some(line)) => {
                        &&& rest.len() > 0
                        &&& valid_utf8(first)
                        &&& line@ == decode_utf8(first)
                        &&& final(self).remaining() == rest.skip(line_end(rest, 0))
                    },
                    Err(_) => rest.len() > 0 && !valid_utf8(first) && final(self).remaining()
                        == rest,
                }
            }),
    {
        proof {
            use_type_invariant(&*self);
        }
        let bytes = self.bytes;
        let start: usize = self.pos;
        let len: usize = bytes.len();
        if start == len {
            return Ok(None);
        }
        let ghost rest = bytes@.skip(start as int);
        let mut end: usize = start;
        while end < len && bytes[end] != LINE_FEED
            invariant
                start <= end <= len,
                len == bytes@.len(),
                rest == bytes@.skip(start as int),
                line_end(rest, 0) == line_end(rest, end - start),
            decreases len - end,
        {
            end = end + 1;
        }
        if end < len {
            end = end + 1;
        }
        let raw = slice_subrange(bytes, start, end);
        assert(raw@ =~= rest.take(end - start));
        match decode(raw) {
            Some(line) => {
                self.pos = end;
                Ok(Some(line))
            },
            None => Err(ReadError::InvalidUtf8),
        }
    }

    /// Reads one block of at most `limit` bytes: as many as are left, where
    /// that is fewer.
    pub fn read(&mut self, limit: usize) -> (block: &'a [u8])
        ensures
            ({
                let rest = old(self).remaining();
                let n = if limit <= rest.len() {
                    limit as int
                } else {
                    rest.len() as int
                };
                block@ == rest.take(n) && final(self).remaining() == rest.skip(n)
            }),
    {
        proof {
            use_type_invariant(&*self);
        }
        let bytes = self.bytes;
        let start: usize = self.pos;
        let left: usize = bytes.len() - start;
        let n: usize = if limit <= left {
            limit
        } else {
            left
        };
        let block = slice_subrange(bytes, start, start + n);
        self.pos = start + n;
        block
    }
}

} // verus!
