//! Copying the start of each input: its first lines, or its first bytes.

use crate::cli::ArgsError;
use crate::cli::all_values;
use crate::cli::first_value;
use crate::cli::held;
use crate::cli::matched;
use crate::cli::usage;
use crate::cli::value_of;
use crate::cli::values;
use crate::driver::Transcript;
use crate::driver::in_turn;
use crate::driver::lemma_diagnostic_appears;
use crate::driver::lemma_in_turn_stays_failed;
use crate::driver::lemma_in_turn_step;
use crate::driver::lemma_silent_part;
use crate::driver::names;
use crate::driver::notice;
use crate::driver::occurs_in;
use crate::driver::push_notice;
use crate::driver::unopened;
use crate::input::Cursor;
use crate::input::ReadError;
use crate::input::Source;
use crate::input::inputs;
use crate::input::inputs_or_standard;
use crate::input::text_of;
use crate::lines::reading;
use crate::text::concat;
use clap::App;
use clap::Arg;
use clap::ArgMatches;
use vstd::prelude::*;
use vstd::string::StringExecFns;
use vstd::utf8::decode_utf8;
use vstd::utf8::valid_utf8;

verus! {

/// How many lines are copied where nothing else is asked.
pub const DEFAULT_LINES: usize = 10;

/// Which inputs to copy the start of, and how much of each.
#[derive(Debug, PartialEq, Eq)]
pub struct Config {
    /// The names of the inputs, in order; a dash stands for standard input.
    pub files: Vec<String>,
    /// How many lines to copy, where no number of bytes is set.
    pub lines: usize,
    /// How many bytes to copy instead of lines.
    pub bytes: Option<usize>,
}

/// How much of an input is copied.
#[derive(Debug, PartialEq, Eq, Structural, Clone, Copy)]
pub enum Extent {
    /// This many lines.
    Lines(usize),
    /// This many bytes.
    Bytes(usize),
}

impl Config {
    /// Whether the configuration is one that a command line gives: an input
    /// is named, and the numbers of lines and of bytes are positive.
    pub open spec fn well_formed(&self) -> bool {
        &&& self.files.len() > 0
        &&& self.lines > 0
        &&& self.bytes matches Some(limit) ==> limit > 0
    }

    /// How much of each input is copied: the number of bytes where one is
    /// set, and else the number of lines.
    pub open spec fn extent(&self) -> Extent {
        match self.bytes {
            Some(limit) => Extent::Bytes(limit),
            None => Extent::Lines(self.lines),
        }
    }

    /// How much of each input is copied.
    pub fn limit(&self) -> (extent: Extent)
        ensures
            extent == self.extent(),
    {
        match self.bytes {
            Some(limit) => Extent::Bytes(limit),
            None => Extent::Lines(self.lines),
        }
    }
}

/// Why a choice of options is refused.
#[derive(Debug, PartialEq, Eq)]
pub enum ConfigError {
    /// A number of lines and a number of bytes were both given.
    LinesWithBytes,
    /// The number of lines, as given, is no positive integer.
    IllegalLineCount(String),
    /// The number of bytes, as given, is no positive integer.
    IllegalByteCount(String),
}

impl ConfigError {
    /// The refusal in words, naming the value that was refused.
    pub fn message(&self) -> (text: String)
        ensures
            text@ == match *self {
                ConfigError::LinesWithBytes =>
                    "the argument '--lines <LINES>' cannot be used with '--bytes <BYTES>'"@,
                ConfigError::IllegalLineCount(value) => "illegal line count -- "@ + value@,
                ConfigError::IllegalByteCount(value) => "illegal byte count -- "@ + value@,
            },
    {
        match self {
            ConfigError::LinesWithBytes => {
                "the argument '--lines <LINES>' cannot be used with '--bytes <BYTES>'".to_owned()
            },
            ConfigError::IllegalLineCount(value) => {
                let mut text = "illegal line count -- ".to_owned();
                text.append(value.as_str());
                text
            },
            ConfigError::IllegalByteCount(value) => {
                let mut text = "illegal byte count -- ".to_owned();
                text.append(value.as_str());
                text
            },
        }
    }
}

/// Whether `c` is a decimal digit.
pub open spec fn is_digit(c: char) -> bool {
    '0' <= c <= '9'
}

/// The value of the decimal digit `c`.
pub open spec fn digit_value(c: char) -> nat {
    if is_digit(c) {
        (c as u32 - '0' as u32) as nat
    } else {
        0
    }
}

/// The number that `digits` write in decimal.
pub open spec fn number(digits: Seq<char>) -> nat
    decreases digits.len(),
{
    if digits.len() == 0 {
        0
    } else {
        number(digits.drop_last()) * 10 + digit_value(digits.last())
    }
}

/// `text` without the plus sign that may stand in front.
pub open spec fn unsigned_part(text: Seq<char>) -> Seq<char> {
    if text.len() > 0 && text[0] == '+' {
        text.skip(1)
    } else {
        text
    }
}

/// The number that `text` denotes: one or more decimal digits, with or
/// without a plus sign in front, and nothing else.
pub open spec fn denoted(text: Seq<char>) -> Option<nat> {
    let digits = unsigned_part(text);
    if digits.len() > 0 && (forall|i: int| 0 <= i < digits.len() ==> is_digit(#[trigger] digits[i])) {
        Some(number(digits))
    } else {
        None
    }
}

/// The positive integer that `text` denotes, where it denotes one that fits
/// in a `usize`.
pub open spec fn positive_int(text: Seq<char>) -> Option<usize> {
    match denoted(text) {
        Some(n) => if 0 < n <= usize::MAX {
            Some(n as usize)
        } else {
            None
        },
        None => None,
    }
}

/// Digits written behind a number do not make it smaller.
proof fn lemma_number_prefix(digits: Seq<char>, k: int)
    requires
        0 <= k <= digits.len(),
    ensures
        number(digits.take(k)) <= number(digits),
    decreases digits.len() - k,
{
    if k < digits.len() {
        lemma_number_prefix(digits, k + 1);
        assert(digits.take(k + 1).drop_last() =~= digits.take(k));
    } else {
        assert(digits.take(k) =~= digits);
    }
}

/// The positive integer that `value` denotes; where it denotes none, the
/// value itself comes back as the error.
pub fn parse_positive_int(value: &str) -> (res: Result<usize, String>)
    ensures
        match res {
            Ok(n) => positive_int(value@) == Some(n),
            Err(text) => positive_int(value@) is None && text@ == value@,
        },
{
    let mut acc: usize = 0;
    let mut any_digit: bool = false;
    let mut signed: bool = false;
    let ghost text = value@;
    for c in it: value.chars()
        invariant
            it.seq() == text,
            text == value@,
            signed == (it.index() > 0 && text[0] == '+'),
            any_digit == (it.index() > sign_len(signed)),
            sign_len(signed) <= it.index(),
            forall|i: int| sign_len(signed) <= i < it.index() ==> is_digit(#[trigger] text[i]),
            acc == number(text.subrange(sign_len(signed), it.index() as int)),
    {
        let ghost at = it.index() as int;
        if c == '+' && !any_digit && !signed {
            signed = true;
        } else if '0' <= c && c <= '9' {
            let d: usize = (c as u32 - '0' as u32) as usize;
            proof {
                let from = sign_len(signed);
                assert(text.subrange(from, at + 1).drop_last() =~= text.subrange(from, at));
                assert(unsigned_part(text) =~= text.skip(from));
                lemma_number_prefix(text.skip(from), at + 1 - from);
                assert(text.skip(from).take(at + 1 - from) =~= text.subrange(from, at + 1));
            }
            let next = match acc.checked_mul(10) {
                Some(tens) => tens.checked_add(d),
                None => None,
            };
            match next {
                Some(n) => {
                    acc = n;
                    any_digit = true;
                },
                None => {
                    return Err(value.to_owned());
                },
            }
        } else {
            proof {
                let from = sign_len(signed);
                assert(text.skip(from)[at - from] == c);
            }
            return Err(value.to_owned());
        }
    }
    proof {
        let from = sign_len(signed);
        assert(unsigned_part(text) =~= text.skip(from));
    }
    if !any_digit || acc == 0 {
        Err(value.to_owned())
    } else {
        Ok(acc)
    }
}

/// How many characters a sign takes up.
spec fn sign_len(signed: bool) -> int {
    if signed {
        1
    } else {
        0
    }
}

/// Whether `res` is what configuring gives for the inputs `files` and the
/// numbers given. A number of lines and a number of bytes exclude each
/// other, and each has to denote a positive integer. With no input named,
/// standard input is read; with neither number given, ten lines are copied.
pub open spec fn configured(
    files: Seq<Seq<char>>,
    lines: Option<Seq<char>>,
    bytes: Option<Seq<char>>,
    res: Result<Config, ConfigError>,
) -> bool {
    match res {
        Err(ConfigError::LinesWithBytes) => lines is Some && bytes is Some,
        Err(ConfigError::IllegalLineCount(value)) => {
            &&& bytes is None
            &&& lines == Some(value@)
            &&& positive_int(value@) is None
        },
        Err(ConfigError::IllegalByteCount(value)) => {
            &&& lines is None
            &&& bytes == Some(value@)
            &&& positive_int(value@) is None
        },
        Ok(config) => {
            &&& !(lines is Some && bytes is Some)
            &&& config.files.deep_view() == inputs(files)
            &&& match lines {
                Some(value) => positive_int(value) == Some(config.lines),
                None => config.lines == DEFAULT_LINES,
            }
            &&& match bytes {
                Some(value) => positive_int(value) == config.bytes && config.bytes is Some,
                None => config.bytes is None,
            }
        },
    }
}

/// The configuration for the inputs named and the numbers given.
pub fn configure(files: Vec<String>, lines: Option<String>, bytes: Option<String>) -> (res: Result<
    Config,
    ConfigError,
>)
    ensures
        configured(files.deep_view(), text_of(lines), text_of(bytes), res),
        res matches Ok(config) ==> config.well_formed(),
{
    if lines.is_some() && bytes.is_some() {
        return Err(ConfigError::LinesWithBytes);
    }
    let line_count: usize = match &lines {
        Some(value) => match parse_positive_int(value.as_str()) {
            Ok(n) => n,
            Err(text) => {
                return Err(ConfigError::IllegalLineCount(text));
            },
        },
        None => DEFAULT_LINES,
    };
    let byte_count: Option<usize> = match &bytes {
        Some(value) => match parse_positive_int(value.as_str()) {
            Ok(n) => Some(n),
            Err(text) => {
                return Err(ConfigError::IllegalByteCount(text));
            },
        },
        None => None,
    };
    let files = inputs_or_standard(files);
    Ok(Config { files, lines: line_count, bytes: byte_count })
}

/// The name of the command.
pub open spec fn command() -> Seq<char> {
    "headr"@
}

/// What clap matches on the command line `args`, the name of the program
/// first.
///
/// Describes the command to clap, with the inputs as `files` and the two
/// numbers as `lines` and `bytes`, and calls `App::get_matches_from_safe` on
/// `args`. What is matched depends on the command and on `args` alone.
#[verifier::external_body]
fn matches(args: Vec<String>) -> (res: Result<ArgMatches<'static>, clap::Error>)
    ensures
        res is Ok <==> matched(command(), args.deep_view()) is Some,
        res matches Ok(found) ==> Some(held(found)) == matched(command(), args.deep_view()),
{
    App::new("headr")
        .version("0.1.0")
        .about("Copies the first lines or bytes of each input")
        .arg(Arg::with_name("files").value_name("FILES").help("Input files").multiple(true))
        .arg(Arg::with_name("lines").short("n").long("lines").value_name("LINES").help("Number of lines, 10 by default"))
        .arg(Arg::with_name("bytes").short("c").long("bytes").value_name("BYTES").help("Number of bytes").conflicts_with("lines"))
        .get_matches_from_safe(args)
}

/// The configuration that the command line `args` gives, the name of the
/// program first; or what there is to tell the user instead, where clap does
/// not match the command line; or why the options on it are refused.
///
/// The inputs are the arguments that are no options; `-n` or `--lines` sets
/// the number of lines, and `-c` or `--bytes` the number of bytes.
pub fn get_args(args: Vec<String>) -> (res: Result<Config, ArgsError<ConfigError>>)
    ensures
        match matched(command(), args.deep_view()) {
            Some(found) => match res {
                Ok(config) => configured(
                    values(found, "files"@),
                    first_value(found, "lines"@),
                    first_value(found, "bytes"@),
                    Ok(config),
                ),
                Err(ArgsError::Options(refused)) => configured(
                    values(found, "files"@),
                    first_value(found, "lines"@),
                    first_value(found, "bytes"@),
                    Err(refused),
                ),
                Err(ArgsError::Usage(_)) => false,
            },
            None => res matches Err(ArgsError::Usage(_)),
        },
        res matches Ok(config) ==> config.well_formed(),
{
    match matches(args) {
        Err(failure) => Err(ArgsError::Usage(usage(failure))),
        Ok(found) => {
            let files = all_values(&found, "files");
            let lines = value_of(&found, "lines");
            let bytes = value_of(&found, "bytes");
            match configure(files, lines, bytes) {
                Ok(config) => Ok(config),
                Err(refused) => Err(ArgsError::Options(refused)),
            }
        },
    }
}

/// What stands in front of the output of the input `name`, the `index`-th of
/// `count`: a blank line for every input but the first, and a header with the
/// name where there is more than one input.
pub open spec fn banner(count: nat, index: nat, name: Seq<char>) -> Seq<char> {
    let gap = if index > 0 {
        seq!['\n']
    } else {
        Seq::empty()
    };
    let header = if count > 1 {
        "==> "@ + name + " <==\n"@
    } else {
        Seq::empty()
    };
    gap + header
}

/// Appends to `out` what stands in front of the output of the input `name`,
/// the `index`-th of `count`.
pub fn push_banner(out: &mut String, count: usize, index: usize, name: &str)
    ensures
        final(out)@ == old(out)@ + banner(count as nat, index as nat, name@),
{
    proof {
        reveal_strlit("\n");
    }
    if index > 0 {
        out.append("\n");
    }
    if count > 1 {
        out.append("==> ");
        out.append(name);
        out.append(" <==\n");
    }
}

/// Lets through the first lines of one input, up to a limit.
pub struct Truncator {
    /// How many more lines may pass.
    pub remaining: usize,
}

impl Truncator {
    /// A truncator that lets `limit` lines pass.
    pub fn new(limit: usize) -> (truncator: Truncator)
        ensures
            truncator.remaining == limit,
    {
        Truncator { remaining: limit }
    }

    /// Whether another line may pass; where none may, none is to be read.
    pub fn wants_line(&self) -> (wanted: bool)
        ensures
            wanted == (self.remaining > 0),
    {
        self.remaining > 0
    }

    /// Writes `line` to `out` where another line may pass, and says whether
    /// it did.
    pub fn take_line(&mut self, line: &str, out: &mut String) -> (taken: bool)
        ensures
            taken == (old(self).remaining > 0),
            taken ==> final(out)@ == old(out)@ + line@ && final(self).remaining == old(
                self,
            ).remaining - 1,
            !taken ==> final(out)@ == old(out)@ && final(self).remaining == old(self).remaining,
    {
        if self.remaining == 0 {
            return false;
        }
        self.remaining = self.remaining - 1;
        out.append(line);
        true
    }
}

/// The first `limit` of `lines`, or all of them where there are fewer.
pub open spec fn first_lines(lines: Seq<Seq<char>>, limit: nat) -> Seq<Seq<char>> {
    if limit <= lines.len() {
        lines.take(limit as int)
    } else {
        lines
    }
}

/// Copies the first `limit` lines of the stream `input` to `out`, reading no
/// further; a line among them that is not valid UTF-8 ends the copy with an
/// error, the lines before it written.
pub fn head_lines(limit: usize, input: &[u8], out: &mut String) -> (res: Result<(), ReadError>)
    ensures
        final(out)@ == old(out)@ + concat(first_lines(reading(input@).lines, limit as nat)),
        res is Err <==> reading(input@).broken && reading(input@).lines.len() < limit,
{
    let mut cursor = Cursor::new(input);
    let mut truncator = Truncator::new(limit);
    let ghost mut done: Seq<Seq<char>> = Seq::empty();
    while truncator.wants_line()
        invariant
            reading(input@).lines == done + reading(cursor.remaining()).lines,
            reading(input@).broken == reading(cursor.remaining()).broken,
            out@ == old(out)@ + concat(done),
            done.len() + truncator.remaining == limit,
        decreases truncator.remaining,
    {
        match cursor.read_line() {
            Err(e) => {
                return Err(e);
            },
            Ok(None) => {
                return Ok(());
            },
            Ok(Some(line)) => {
                let taken = truncator.take_line(line, out);
                assert(taken);
                proof {
                    assert(done.push(line@).drop_last() =~= done);
                    done = done.push(line@);
                }
            },
        }
    }
    assert((done + reading(cursor.remaining()).lines).take(limit as int) =~= done);
    Ok(())
}

/// The text that `bytes` are shown as: what they encode where they are valid
/// UTF-8, and else that text with a replacement character for each part that
/// is not.
pub uninterp spec fn lossy_text(bytes: Seq<u8>) -> Seq<char>;

/// `bytes` as text for display.
///
/// Calls `String::from_utf8_lossy`, which leaves valid UTF-8 as it is and
/// puts a replacement character in place of what is not.
#[verifier::external_body]
fn decode_lossy(bytes: &[u8]) -> (text: String)
    ensures
        text@ == lossy_text(bytes@),
        valid_utf8(bytes@) ==> text@ == decode_utf8(bytes@),
{
    String::from_utf8_lossy(bytes).into_owned()
}

/// The first `limit` of `bytes`, or all of them where there are fewer.
pub open spec fn first_bytes(bytes: Seq<u8>, limit: nat) -> Seq<u8> {
    if limit <= bytes.len() {
        bytes.take(limit as int)
    } else {
        bytes
    }
}

/// Appends `block`, the bytes that one read gave, to `out` as text.
pub fn push_bytes(out: &mut String, block: &[u8])
    ensures
        final(out)@ == old(out)@ + lossy_text(block@),
        valid_utf8(block@) ==> final(out)@ == old(out)@ + decode_utf8(block@),
{
    let text = decode_lossy(block);
    out.append(text.as_str());
}

/// Copies the first `limit` bytes of the stream `input` to `out` as text,
/// got in one read.
pub fn head_bytes(limit: usize, input: &[u8], out: &mut String)
    ensures
        final(out)@ == old(out)@ + lossy_text(first_bytes(input@, limit as nat)),
        valid_utf8(first_bytes(input@, limit as nat)) ==> final(out)@ == old(out)@ + decode_utf8(
            first_bytes(input@, limit as nat),
        ),
{
    let mut cursor = Cursor::new(input);
    let block = cursor.read(limit);
    assert(block@ =~= first_bytes(input@, limit as nat));
    push_bytes(out, block);
}

/// What the start of a stream is written as.
pub open spec fn start_of(extent: Extent, bytes: Seq<u8>) -> Seq<char> {
    match extent {
        Extent::Bytes(limit) => lossy_text(first_bytes(bytes, limit as nat)),
        Extent::Lines(limit) => concat(first_lines(reading(bytes).lines, limit as nat)),
    }
}

/// Whether copying the start of a stream meets a line that cannot be read.
pub open spec fn start_breaks(extent: Extent, bytes: Seq<u8>) -> bool {
    match extent {
        Extent::Bytes(_) => false,
        Extent::Lines(limit) => reading(bytes).broken && reading(bytes).lines.len() < limit,
    }
}

/// Copies the start of the stream `input` to `out`; a line that cannot be
/// read ends the copy with an error, the lines before it written.
pub fn copy_start(extent: Extent, input: &[u8], out: &mut String) -> (res: Result<(), ReadError>)
    ensures
        final(out)@ == old(out)@ + start_of(extent, input@),
        res is Err <==> start_breaks(extent, input@),
{
    match extent {
        Extent::Bytes(limit) => {
            head_bytes(limit, input, out);
            Ok(())
        },
        Extent::Lines(limit) => head_lines(limit, input, out),
    }
}

/// What the input `name`, the `index`-th of `count`, contributes to a run: a
/// diagnostic where it could not be opened, and else what stands in front of
/// its output and then its start.
pub open spec fn file_report(
    extent: Extent,
    count: nat,
    index: nat,
    name: Seq<char>,
    source: Source,
) -> Transcript {
    match source {
        Source::Unreadable(reason) => unopened(name, reason@),
        Source::Stream(bytes) => Transcript {
            stdout: banner(count, index, name) + start_of(extent, bytes@),
            stderr: Seq::empty(),
            failed: start_breaks(extent, bytes@),
        },
    }
}

/// What each of the inputs `names` contributes, `sources` being what came of
/// opening them.
pub open spec fn reports(extent: Extent, names: Seq<Seq<char>>, sources: Seq<Source>) -> Seq<
    Transcript,
> {
    Seq::new(
        names.len(),
        |i: int| file_report(extent, names.len(), i as nat, names[i], sources[i]),
    )
}

/// What a whole run writes: the contribution of each input in turn.
pub open spec fn transcript(config: &Config, sources: Seq<Source>) -> Transcript {
    in_turn(reports(config.extent(), names(config.files@), sources))
}

/// An input that could not be opened contributes its diagnostic and nothing
/// else: the output is what the other inputs contribute, each as it does
/// with that input in its place. The diagnostic stands in the diagnostics,
/// unless the run broke off before it; and the run breaks off where it would
/// without that input.
pub proof fn lemma_unreadable_input_is_skipped(
    extent: Extent,
    names: Seq<Seq<char>>,
    sources: Seq<Source>,
    k: int,
)
    requires
        names.len() == sources.len(),
        0 <= k < names.len(),
        sources[k] is Unreadable,
    ensures
        reports(extent, names, sources)[k] == unopened(names[k], sources[k]->Unreadable_0@),
        in_turn(reports(extent, names, sources).remove(k)).stdout == in_turn(
            reports(extent, names, sources),
        ).stdout,
        in_turn(reports(extent, names, sources).remove(k)).failed == in_turn(
            reports(extent, names, sources),
        ).failed,
        !in_turn(reports(extent, names, sources).take(k)).failed ==> occurs_in(
            notice(names[k], sources[k]->Unreadable_0@),
            in_turn(reports(extent, names, sources)).stderr,
        ),
{
    let parts = reports(extent, names, sources);
    lemma_silent_part(parts, k);
    if !in_turn(parts.take(k)).failed {
        lemma_diagnostic_appears(parts, k);
    }
}

/// Copies the start of each input in turn to `stdout`, behind a blank line
/// for every input but the first and a header where more than one input was
/// named; an input that could not be opened gets a diagnostic on `stderr`
/// instead, and the run goes on. A line that cannot be read ends the run with
/// an error.
///
/// `sources[i]` is what came of opening `config.files[i]`.
pub fn run(config: &Config, sources: &Vec<Source>, stdout: &mut String, stderr: &mut String) -> (res:
    Result<(), ReadError>)
    requires
        sources.len() == config.files.len(),
    ensures
        final(stdout)@ == old(stdout)@ + transcript(config, sources@).stdout,
        final(stderr)@ == old(stderr)@ + transcript(config, sources@).stderr,
        res is Err <==> transcript(config, sources@).failed,
{
    let extent = config.limit();
    let n: usize = sources.len();
    let ghost parts = reports(extent, names(config.files@), sources@);
    let mut i: usize = 0;
    while i < n
        invariant
            i <= n,
            n == sources.len(),
            n == config.files.len(),
            extent == config.extent(),
            parts == reports(extent, names(config.files@), sources@),
            !in_turn(parts.take(i as int)).failed,
            stdout@ == old(stdout)@ + in_turn(parts.take(i as int)).stdout,
            stderr@ == old(stderr)@ + in_turn(parts.take(i as int)).stderr,
        decreases n - i,
    {
        proof {
            lemma_in_turn_step(parts, i as int);
        }
        match &sources[i] {
            Source::Unreadable(reason) => {
                push_notice(stderr, config.files[i].as_str(), reason.as_str());
            },
            Source::Stream(bytes) => {
                push_banner(stdout, n, i, config.files[i].as_str());
                let copied = copy_start(extent, bytes.as_slice(), stdout);
                if let Err(e) = copied {
                    proof {
                        lemma_in_turn_stays_failed(parts, i as int + 1);
                    }
                    return Err(e);
                }
            },
        }
        i = i + 1;
    }
    assert(parts.take(n as int) =~= parts);
    Ok(())
}

} // verus!
