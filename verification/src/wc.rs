//! Counting lines, words, bytes and characters, and laying the counts out in
//! rows.

use crate::cli::ArgsError;
use crate::cli::all_values;
use crate::cli::given;
use crate::cli::held;
use crate::cli::matched;
use crate::cli::is_given;
use crate::cli::usage;
use crate::cli::values;
use crate::driver::Transcript;
use crate::driver::in_turn;
use crate::driver::lemma_diagnostic_appears;
use crate::driver::lemma_in_turn_stays_failed;
use crate::driver::lemma_in_turn_step;
use crate::driver::lemma_silent_part;
use crate::driver::names;
use crate::driver::notice;
use crate::driver::occurs_in;
use crate::driver::push_notice;
use crate::driver::unopened;
use crate::input::Cursor;
use crate::input::ReadError;
use crate::input::Source;
use crate::input::dash;
use crate::input::inputs;
use crate::input::inputs_or_standard;
use crate::input::is_dash;
use crate::lines::ends_unfinished;
use crate::lines::lemma_feed_ends_text;
use crate::lines::lemma_line_end_bounds;
use crate::lines::lemma_line_ends_at_boundary;
use crate::lines::lemma_line_has_one_feed;
use crate::lines::lemma_lines_read;
use crate::lines::lemma_reading_whole_stream;
use crate::lines::line_end;
use crate::lines::line_feeds;
use crate::lines::reading;
use crate::text::column;
use crate::text::decimal;
use crate::text::lemma_chars_fit_in_bytes;
use crate::text::lemma_word_count_add;
use crate::text::lemma_words_fit_in_chars;
use crate::text::measure;
use crate::text::push_column;
use crate::text::right_justified;
use crate::text::word_count;
use clap::App;
use clap::Arg;
use clap::ArgMatches;
use vstd::prelude::*;
use vstd::string::StringExecFns;
use vstd::utf8::decode_utf8;
use vstd::utf8::decode_utf8_encode_utf8;
use vstd::utf8::decode_utf8_split;
use vstd::utf8::encode_utf8;
use vstd::utf8::valid_utf8;
use vstd::utf8::valid_utf8_split;

verus! {

/// The width of a count's column.
pub const COLUMN_WIDTH: usize = 8;

/// What to count, and in which inputs.
#[derive(Debug, PartialEq, Eq)]
pub struct Config {
    /// The names of the inputs, in order; a dash stands for standard input.
    pub files: Vec<String>,
    /// Whether rows show the number of lines.
    pub lines: bool,
    /// Whether rows show the number of words.
    pub words: bool,
    /// Whether rows show the number of bytes.
    pub bytes: bool,
    /// Whether rows show the number of characters.
    pub chars: bool,
}

/// Why a choice of options is refused.
#[derive(Debug, PartialEq, Eq, Structural, Clone, Copy)]
pub enum ConfigError {
    /// Bytes and characters were both asked for.
    BytesWithChars,
}

impl ConfigError {
    /// The refusal in words.
    pub fn message(&self) -> (text: String)
        ensures
            text@ == "the argument '--chars' cannot be used with '--bytes'"@,
    {
        "the argument '--chars' cannot be used with '--bytes'".to_owned()
    }
}

impl Config {
    /// Whether the configuration is one that a command line gives: an input
    /// is named, some count is shown, and bytes and characters are not both.
    pub open spec fn well_formed(&self) -> bool {
        &&& self.files.len() > 0
        &&& (self.lines || self.words || self.bytes || self.chars)
        &&& !(self.bytes && self.chars)
    }
}

/// Whether `res` is what configuring gives for the inputs `files` and the
/// counts asked for. Bytes and characters exclude each other. With no input
/// named, standard input is read. With no count asked for, lines, words and
/// bytes are shown.
pub open spec fn configured(
    files: Seq<Seq<char>>,
    lines: bool,
    words: bool,
    bytes: bool,
    chars: bool,
    res: Result<Config, ConfigError>,
) -> bool {
    match res {
        Err(ConfigError::BytesWithChars) => bytes && chars,
        Ok(config) => {
            &&& !(bytes && chars)
            &&& config.files.deep_view() == inputs(files)
            &&& if lines || words || bytes || chars {
                &&& config.lines == lines
                &&& config.words == words
                &&& config.bytes == bytes
                &&& config.chars == chars
            } else {
                &&& config.lines
                &&& config.words
                &&& config.bytes
                &&& !config.chars
            }
        },
    }
}

/// The configuration for the inputs named and the counts asked for.
pub fn configure(files: Vec<String>, lines: bool, words: bool, bytes: bool, chars: bool) -> (res:
    Result<Config, ConfigError>)
    ensures
        configured(files.deep_view(), lines, words, bytes, chars, res),
        res matches Ok(config) ==> config.well_formed(),
{
    if bytes && chars {
        return Err(ConfigError::BytesWithChars);
    }
    let files = inputs_or_standard(files);
    if lines || words || bytes || chars {
        Ok(Config { files, lines, words, bytes, chars })
    } else {
        Ok(Config { files, lines: true, words: true, bytes: true, chars: false })
    }
}

/// The name of the command.
pub open spec fn command() -> Seq<char> {
    "wcr"@
}

/// What clap matches on the command line `args`, the name of the program
/// first.
///
/// Describes the command to clap, with the inputs as `files` and the four
/// flags as `lines`, `words`, `bytes` and `chars`, and calls
/// `App::get_matches_from_safe` on `args`. What is matched depends on the
/// command and on `args` alone.
#[verifier::external_body]
fn matches(args: Vec<String>) -> (res: Result<ArgMatches<'static>, clap::Error>)
    ensures
        res is Ok <==> matched(command(), args.deep_view()) is Some,
        res matches Ok(found) ==> Some(held(found)) == matched(command(), args.deep_view()),
{
    App::new("wcr")
        .version("0.1.0")
        .about("Counts the lines, words, bytes and characters of each input")
        .arg(Arg::with_name("files").value_name("FILES").help("Input files").multiple(true))
        .arg(Arg::with_name("lines").short("l").long("lines").help("Show the number of lines"))
        .arg(Arg::with_name("words").short("w").long("words").help("Show the number of words"))
        .arg(Arg::with_name("bytes").short("c").long("bytes").help("Show the number of bytes"))
        .arg(Arg::with_name("chars").short("m").long("chars").help("Show the number of characters").conflicts_with("bytes"))
        .get_matches_from_safe(args)
}

/// The configuration that the command line `args` gives, the name of the
/// program first; or what there is to tell the user instead, where clap does
/// not match the command line; or why the options on it are refused.
///
/// The inputs are the arguments that are no options; `-l` or `--lines`, `-w`
/// or `--words`, `-c` or `--bytes` and `-m` or `--chars` each ask for one
/// count.
pub fn get_args(args: Vec<String>) -> (res: Result<Config, ArgsError<ConfigError>>)
    ensures
        match matched(command(), args.deep_view()) {
            Some(found) => match res {
                Ok(config) => configured(
                    values(found, "files"@),
                    given(found, "lines"@),
                    given(found, "words"@),
                    given(found, "bytes"@),
                    given(found, "chars"@),
                    Ok(config),
                ),
                Err(ArgsError::Options(refused)) => configured(
                    values(found, "files"@),
                    given(found, "lines"@),
                    given(found, "words"@),
                    given(found, "bytes"@),
                    given(found, "chars"@),
                    Err(refused),
                ),
                Err(ArgsError::Usage(_)) => false,
            },
            None => res matches Err(ArgsError::Usage(_)),
        },
        res matches Ok(config) ==> config.well_formed(),
{
    match matches(args) {
        Err(failure) => Err(ArgsError::Usage(usage(failure))),
        Ok(found) => {
            let files = all_values(&found, "files");
            let lines = is_given(&found, "lines");
            let words = is_given(&found, "words");
            let bytes = is_given(&found, "bytes");
            let chars = is_given(&found, "chars");
            match configure(files, lines, words, bytes, chars) {
                Ok(config) => Ok(config),
                Err(refused) => Err(ArgsError::Options(refused)),
            }
        },
    }
}

/// Four counts, as mathematical integers.
pub struct Tally {
    /// How many lines.
    pub lines: nat,
    /// How many words.
    pub words: nat,
    /// How many bytes.
    pub bytes: nat,
    /// How many characters.
    pub chars: nat,
}

impl Tally {
    /// Nothing counted.
    pub open spec fn zero() -> Tally {
        Tally { lines: 0, words: 0, bytes: 0, chars: 0 }
    }

    /// What one line counts for: one line, its words, the bytes of its UTF-8
    /// encoding and its characters, the terminator included in each.
    pub open spec fn of_line(line: Seq<char>) -> Tally {
        Tally {
            lines: 1,
            words: word_count(line),
            bytes: encode_utf8(line).len(),
            chars: line.len(),
        }
    }

    /// The sum, count by count.
    pub open spec fn plus(self, other: Tally) -> Tally {
        Tally {
            lines: self.lines + other.lines,
            words: self.words + other.words,
            bytes: self.bytes + other.bytes,
            chars: self.chars + other.chars,
        }
    }

    /// Whether each count fits in a `usize`.
    pub open spec fn fits(self) -> bool {
        &&& self.lines <= usize::MAX
        &&& self.words <= usize::MAX
        &&& self.bytes <= usize::MAX
        &&& self.chars <= usize::MAX
    }
}

/// What a sequence of lines counts for.
pub open spec fn tally(lines: Seq<Seq<char>>) -> Tally
    decreases lines.len(),
{
    if lines.len() == 0 {
        Tally::zero()
    } else {
        tally(lines.drop_last()).plus(Tally::of_line(lines.last()))
    }
}

/// What a stream of valid UTF-8 counts for as a whole: as many lines as it
/// holds line feeds, and one more where it ends in a line without one; the
/// words and the characters of the text that it encodes; and its bytes.
pub open spec fn counts(bytes: Seq<u8>) -> Tally {
    Tally {
        lines: line_feeds(bytes) + if ends_unfinished(bytes) {
            1nat
        } else {
            0nat
        },
        words: word_count(decode_utf8(bytes)),
        bytes: bytes.len(),
        chars: decode_utf8(bytes).len(),
    }
}

/// The counts of one stream.
#[derive(Debug, PartialEq, Eq, Structural, Clone, Copy)]
pub struct FileInfo {
    /// How many lines were read.
    pub lines: usize,
    /// How many words they hold.
    pub words: usize,
    /// How many bytes, terminators included.
    pub bytes: usize,
    /// How many characters, terminators included.
    pub chars: usize,
}

impl View for FileInfo {
    type V = Tally;

    open spec fn view(&self) -> Tally {
        Tally {
            lines: self.lines as nat,
            words: self.words as nat,
            bytes: self.bytes as nat,
            chars: self.chars as nat,
        }
    }
}

impl FileInfo {
    /// Nothing counted.
    pub fn new() -> (info: FileInfo)
        ensures
            info@ == Tally::zero(),
    {
        FileInfo { lines: 0, words: 0, bytes: 0, chars: 0 }
    }

    /// Adds `other`, count by count, and says whether it did: where a sum does
    /// not fit in a `usize`, nothing changes.
    pub fn add(&mut self, other: &FileInfo) -> (added: bool)
        ensures
            added == old(self)@.plus(other@).fits(),
            added ==> final(self)@ == old(self)@.plus(other@),
            !added ==> *final(self) == *old(self),
    {
        let lines = self.lines.checked_add(other.lines);
        let words = self.words.checked_add(other.words);
        let bytes = self.bytes.checked_add(other.bytes);
        let chars = self.chars.checked_add(other.chars);
        match (lines, words, bytes, chars) {
            (Some(lines), Some(words), Some(bytes), Some(chars)) => {
                self.lines = lines;
                self.words = words;
                self.bytes = bytes;
                self.chars = chars;
                true
            },
            _ => false,
        }
    }

    /// Counts one more line, terminator included, and says whether it did:
    /// where a count would not fit in a `usize`, nothing changes.
    pub fn add_line(&mut self, line: &str) -> (added: bool)
        ensures
            added == old(self)@.plus(Tally::of_line(line@)).fits(),
            added ==> final(self)@ == old(self)@.plus(Tally::of_line(line@)),
            !added ==> *final(self) == *old(self),
    {
        let m = measure(line);
        let one = FileInfo { lines: 1, words: m.words, bytes: m.bytes, chars: m.chars };
        self.add(&one)
    }
}

/// The counts of the stream `input`, read line by line; an error where a line
/// is not valid UTF-8. What the lines count for one by one is what the stream
/// counts for as a whole.
pub fn count(input: &[u8]) -> (res: Result<FileInfo, ReadError>)
    ensures
        res is Err <==> reading(input@).broken,
        res is Err <==> !valid_utf8(input@),
        res matches Ok(info) ==> info@ == tally(reading(input@).lines),
        res matches Ok(info) ==> info@ == counts(input@),
{
    proof {
        lemma_reading_whole_stream(input@);
        if valid_utf8(input@) {
            lemma_count_of_whole_stream(input@);
        }
    }
    let total: usize = input.len();
    let mut cursor = Cursor::new(input);
    let mut info = FileInfo::new();
    let ghost mut done: Seq<Seq<char>> = Seq::empty();
    loop
        invariant
            reading(input@).broken <==> !valid_utf8(input@),
            valid_utf8(input@) ==> tally(reading(input@).lines) == counts(input@),
            reading(input@).lines == done + reading(cursor.remaining()).lines,
            reading(input@).broken == reading(cursor.remaining()).broken,
            info@ == tally(done),
            info.bytes + cursor.remaining().len() == total,
            info.lines <= info.bytes,
            info.words <= info.bytes,
            info.chars <= info.bytes,
        decreases cursor.remaining().len(),
    {
        let ghost rest = cursor.remaining();
        match cursor.read_line() {
            Err(e) => {
                return Err(e);
            },
            Ok(None) => {
                return Ok(info);
            },
            Ok(Some(line)) => {
                proof {
                    let end = line_end(rest, 0);
                    lemma_line_end_bounds(rest, 0);
                    decode_utf8_encode_utf8(rest.take(end));
                    lemma_chars_fit_in_bytes(line@);
                    lemma_words_fit_in_chars(line@, line@.len() as int);
                    assert(done.push(line@).drop_last() =~= done);
                    done = done.push(line@);
                }
                let added = info.add_line(line);
                assert(added);
            },
        }
    }
}

/// One count as a cell of a row: `value` at the right edge of a column eight
/// wide where it is shown, and nothing where it is not.
pub open spec fn cell(value: nat, show: bool) -> Seq<char> {
    if show {
        column(value, COLUMN_WIDTH as nat)
    } else {
        Seq::empty()
    }
}

/// What follows the cells of a row: a space and the label, or nothing where
/// the label is empty.
pub open spec fn labelled(label: Seq<char>) -> Seq<char> {
    if label.len() == 0 {
        Seq::empty()
    } else {
        seq![' '] + label
    }
}

/// `value` as a cell of a row: at the right edge of a column eight wide
/// where it is shown, and the empty text where it is not.
pub fn format_value(value: usize, show: bool) -> (text: String)
    ensures
        text@ == cell(value as nat, show),
        show ==> text@ == right_justified(decimal(value as nat), 8),
        !show ==> text@ == Seq::<char>::empty(),
{
    let mut text = String::new();
    if show {
        push_column(&mut text, value, COLUMN_WIDTH);
    }
    text
}

/// The four cells of a row and its label, joined into one line.
pub fn format_row(lines: String, words: String, bytes: String, chars: String, suffix: String) -> (row:
    String)
    ensures
        row@ == lines@ + words@ + bytes@ + chars@ + labelled(suffix@),
{
    let mut row = lines;
    row.append(words.as_str());
    row.append(bytes.as_str());
    row.append(chars.as_str());
    if !suffix.as_str().is_empty() {
        proof {
            reveal_strlit(" ");
        }
        row.append(" ");
        row.append(suffix.as_str());
    }
    row
}

/// The row that shows `counts` under `config`, with `label` behind it.
pub open spec fn row(config: &Config, counts: Tally, label: Seq<char>) -> Seq<char> {
    cell(counts.lines, config.lines) + cell(counts.words, config.words) + cell(
        counts.bytes,
        config.bytes,
    ) + cell(counts.chars, config.chars) + labelled(label)
}

/// The name under which an input is shown: nothing for standard input.
pub open spec fn shown_name(name: Seq<char>) -> Seq<char> {
    if name == dash() {
        Seq::empty()
    } else {
        name
    }
}

/// The label of the row of totals.
pub open spec fn total_label() -> Seq<char> {
    "total"@
}

/// Appends the row of the input `name`, whose counts are `info`, and a line
/// feed, to `out`.
pub fn push_row(out: &mut String, config: &Config, info: &FileInfo, name: &str)
    ensures
        final(out)@ == old(out)@ + row(config, info@, shown_name(name@)) + seq!['\n'],
{
    let label = if is_dash(name) {
        String::new()
    } else {
        name.to_owned()
    };
    push_labelled(out, config, info, label);
}

/// The row of totals with its line feed where `inputs` inputs were named:
/// nothing unless they were more than one.
pub open spec fn total_row(config: &Config, inputs: nat, totals: Tally) -> Seq<char> {
    if inputs > 1 {
        row(config, totals, total_label()) + seq!['\n']
    } else {
        Seq::empty()
    }
}

/// Appends the row of totals and a line feed to `out`, where more than one
/// input was named; with one input there is no such row.
pub fn push_total(out: &mut String, config: &Config, totals: &FileInfo)
    ensures
        final(out)@ == old(out)@ + total_row(config, config.files.len() as nat, totals@),
{
    if config.files.len() > 1 {
        push_labelled(out, config, totals, "total".to_owned());
    }
}

fn push_labelled(out: &mut String, config: &Config, info: &FileInfo, label: String)
    ensures
        final(out)@ == old(out)@ + row(config, info@, label@) + seq!['\n'],
{
    let line = format_row(
        format_value(info.lines, config.lines),
        format_value(info.words, config.words),
        format_value(info.bytes, config.bytes),
        format_value(info.chars, config.chars),
        label,
    );
    proof {
        reveal_strlit("\n");
    }
    out.append(line.as_str());
    out.append("\n");
}

/// What the input `name` contributes to a run: a diagnostic where it could
/// not be opened, its row where it was read to the end, and the end of the
/// run where a line of it could not be read.
pub open spec fn file_report(config: &Config, name: Seq<char>, source: Source) -> Transcript {
    match source {
        Source::Unreadable(reason) => unopened(name, reason@),
        Source::Stream(bytes) => {
            let read = reading(bytes@);
            if read.broken {
                Transcript { stdout: Seq::empty(), stderr: Seq::empty(), failed: true }
            } else {
                Transcript {
                    stdout: row(config, tally(read.lines), shown_name(name)) + seq!['\n'],
                    stderr: Seq::empty(),
                    failed: false,
                }
            }
        },
    }
}

/// What each of the inputs `names` contributes, `sources` being what came of
/// opening them.
pub open spec fn reports(config: &Config, names: Seq<Seq<char>>, sources: Seq<Source>) -> Seq<
    Transcript,
> {
    Seq::new(names.len(), |i: int| file_report(config, names[i], sources[i]))
}

/// What an input adds to the totals: its counts where it was read to the
/// end, and nothing otherwise.
pub open spec fn counted(source: Source) -> Tally {
    match source {
        Source::Unreadable(_) => Tally::zero(),
        Source::Stream(bytes) => {
            let read = reading(bytes@);
            if read.broken {
                Tally::zero()
            } else {
                tally(read.lines)
            }
        },
    }
}

/// The totals over `sources`: the sum of what each adds.
pub open spec fn totals(sources: Seq<Source>) -> Tally
    decreases sources.len(),
{
    if sources.len() == 0 {
        Tally::zero()
    } else {
        totals(sources.drop_last()).plus(counted(sources.last()))
    }
}

/// What a whole run writes: the contribution of each input in turn and then,
/// where more than one input was named, the row of totals.
pub open spec fn transcript(config: &Config, sources: Seq<Source>) -> Transcript {
    let names = names(config.files@);
    in_turn(reports(config, names, sources)).followed_by(
        Transcript {
            stdout: total_row(config, names.len(), totals(sources)),
            stderr: Seq::empty(),
            failed: false,
        },
    )
}

/// The number of bytes in the streams among `sources`.
pub open spec fn stream_bytes(sources: Seq<Source>) -> nat
    decreases sources.len(),
{
    if sources.len() == 0 {
        0
    } else {
        stream_bytes(sources.drop_last()) + match sources.last() {
            Source::Unreadable(_) => 0nat,
            Source::Stream(bytes) => bytes@.len(),
        }
    }
}

/// Counts each input in turn and writes its row to `stdout`; an input that
/// could not be opened gets a diagnostic on `stderr` instead, and the run goes
/// on. A row of totals follows where more than one input was named. A line
/// that cannot be read ends the run with an error.
///
/// `sources[i]` is what came of opening `config.files[i]`. The streams among
/// them hold no more bytes than a `usize` can count.
pub fn run(config: &Config, sources: &Vec<Source>, stdout: &mut String, stderr: &mut String) -> (res:
    Result<(), ReadError>)
    requires
        sources.len() == config.files.len(),
        stream_bytes(sources@) <= usize::MAX,
    ensures
        final(stdout)@ == old(stdout)@ + transcript(config, sources@).stdout,
        final(stderr)@ == old(stderr)@ + transcript(config, sources@).stderr,
        res is Err <==> transcript(config, sources@).failed,
{
    let mut sum = FileInfo::new();
    let n: usize = sources.len();
    let ghost parts = reports(config, names(config.files@), sources@);
    let mut i: usize = 0;
    while i < n
        invariant
            i <= n,
            n == sources.len(),
            n == config.files.len(),
            stream_bytes(sources@) <= usize::MAX,
            parts == reports(config, names(config.files@), sources@),
            !in_turn(parts.take(i as int)).failed,
            stdout@ == old(stdout)@ + in_turn(parts.take(i as int)).stdout,
            stderr@ == old(stderr)@ + in_turn(parts.take(i as int)).stderr,
            sum@ == totals(sources@.take(i as int)),
            sum.bytes <= stream_bytes(sources@.take(i as int)),
            sum.lines <= sum.bytes,
            sum.words <= sum.bytes,
            sum.chars <= sum.bytes,
        decreases n - i,
    {
        proof {
            lemma_in_turn_step(parts, i as int);
            lemma_stream_bytes_grow(sources@, i as int + 1);
            assert(sources@.take(i as int + 1).drop_last() =~= sources@.take(i as int));
        }
        match &sources[i] {
            Source::Unreadable(reason) => {
                push_notice(stderr, config.files[i].as_str(), reason.as_str());
            },
            Source::Stream(bytes) => {
                match count(bytes.as_slice()) {
                    Err(e) => {
                        proof {
                            lemma_in_turn_stays_failed(parts, i as int + 1);
                        }
                        return Err(e);
                    },
                    Ok(info) => {
                        proof {
                            lemma_tally_within_bytes(bytes@);
                        }
                        push_row(stdout, config, &info, config.files[i].as_str());
                        let added = sum.add(&info);
                        assert(added);
                    },
                }
            },
        }
        i = i + 1;
    }
    assert(parts.take(n as int) =~= parts);
    assert(sources@.take(n as int) =~= sources@);
    push_total(stdout, config, &sum);
    Ok(())
}

/// The streams among the first `m` inputs hold no more bytes than those
/// among all.
proof fn lemma_stream_bytes_grow(sources: Seq<Source>, m: int)
    requires
        0 <= m <= sources.len(),
    ensures
        stream_bytes(sources.take(m)) <= stream_bytes(sources),
    decreases sources.len() - m,
{
    if m < sources.len() {
        lemma_stream_bytes_grow(sources, m + 1);
        assert(sources.take(m + 1).drop_last() =~= sources.take(m));
    } else {
        assert(sources.take(m) =~= sources);
    }
}

/// A stream that was read to the end has as many bytes as its lines count,
/// and no more lines, words or characters than bytes.
pub proof fn lemma_tally_within_bytes(bytes: Seq<u8>)
    requires
        !reading(bytes).broken,
    ensures
        tally(reading(bytes).lines).bytes == bytes.len(),
        tally(reading(bytes).lines).lines <= bytes.len(),
        tally(reading(bytes).lines).words <= bytes.len(),
        tally(reading(bytes).lines).chars <= bytes.len(),
{
    lemma_tally_of_reading(bytes, Seq::empty());
}

/// The counts of some lines followed by those of a stream read to the end.
proof fn lemma_tally_of_reading(bytes: Seq<u8>, before: Seq<Seq<char>>)
    requires
        !reading(bytes).broken,
    ensures
        ({
            let all = tally(before + reading(bytes).lines);
            let part = tally(before);
            &&& all.bytes == part.bytes + bytes.len()
            &&& part.lines <= all.lines <= part.lines + bytes.len()
            &&& part.words <= all.words <= part.words + bytes.len()
            &&& part.chars <= all.chars <= part.chars + bytes.len()
        }),
    decreases bytes.len(),
{
    if bytes.len() > 0 {
        let end = line_end(bytes, 0);
        lemma_line_end_bounds(bytes, 0);
        let first = bytes.take(end);
        let line = decode_utf8(first);
        let rest = bytes.skip(end);
        decode_utf8_encode_utf8(first);
        lemma_chars_fit_in_bytes(line);
        lemma_words_fit_in_chars(line, line.len() as int);
        lemma_tally_of_reading(rest, before.push(line));
        assert(before.push(line) + reading(rest).lines =~= before + reading(bytes).lines);
        assert(before.push(line).drop_last() =~= before);
    }
}

/// With one input, a run writes what that input contributes and no row of
/// totals.
pub proof fn lemma_one_input_no_total(config: &Config, sources: Seq<Source>)
    requires
        config.files.len() == 1,
        sources.len() == 1,
    ensures
        transcript(config, sources).stdout == file_report(
            config,
            config.files[0]@,
            sources[0],
        ).stdout,
        transcript(config, sources).stderr == file_report(
            config,
            config.files[0]@,
            sources[0],
        ).stderr,
        transcript(config, sources).failed == file_report(
            config,
            config.files[0]@,
            sources[0],
        ).failed,
{
    reveal_with_fuel(in_turn, 2);
}

/// With two inputs, both read to the end, a run writes a row for each and
/// then the row of totals, whose counts are the sums of theirs.
pub proof fn lemma_two_inputs_total(config: &Config, sources: Seq<Source>)
    requires
        config.files.len() == 2,
        sources.len() == 2,
        sources[0] is Stream,
        sources[1] is Stream,
        !reading(sources[0]->Stream_0@).broken,
        !reading(sources[1]->Stream_0@).broken,
    ensures
        ({
            let first = tally(reading(sources[0]->Stream_0@).lines);
            let second = tally(reading(sources[1]->Stream_0@).lines);
            transcript(config, sources).stdout == row(
                config,
                first,
                shown_name(config.files[0]@),
            ) + seq!['\n'] + row(config, second, shown_name(config.files[1]@)) + seq!['\n'] + row(
                config,
                first.plus(second),
                total_label(),
            ) + seq!['\n']
        }),
{
    reveal_with_fuel(in_turn, 3);
    reveal_with_fuel(totals, 3);
}

/// An input that could not be opened adds nothing to the totals.
pub proof fn lemma_totals_skip_unreadable(sources: Seq<Source>, k: int)
    requires
        0 <= k < sources.len(),
        sources[k] is Unreadable,
    ensures
        totals(sources.remove(k)) == totals(sources),
    decreases sources.len(),
{
    if k < sources.len() - 1 {
        lemma_totals_skip_unreadable(sources.drop_last(), k);
        assert(sources.remove(k).drop_last() =~= sources.drop_last().remove(k));
    }
}

/// An input that could not be opened has no row: the rows are those that the
/// other inputs alone give, and so are the totals. Its diagnostic stands in
/// the diagnostics, unless the run broke off before it; and the run breaks
/// off where it would with the other inputs alone.
pub proof fn lemma_unreadable_input_is_skipped(
    config: &Config,
    names: Seq<Seq<char>>,
    sources: Seq<Source>,
    k: int,
)
    requires
        names.len() == sources.len(),
        0 <= k < names.len(),
        sources[k] is Unreadable,
    ensures
        in_turn(reports(config, names.remove(k), sources.remove(k))).stdout == in_turn(
            reports(config, names, sources),
        ).stdout,
        in_turn(reports(config, names.remove(k), sources.remove(k))).failed == in_turn(
            reports(config, names, sources),
        ).failed,
        totals(sources.remove(k)) == totals(sources),
        !in_turn(reports(config, names, sources).take(k)).failed ==> occurs_in(
            notice(names[k], sources[k]->Unreadable_0@),
            in_turn(reports(config, names, sources)).stderr,
        ),
{
    let parts = reports(config, names, sources);
    assert(reports(config, names.remove(k), sources.remove(k)) =~= parts.remove(k));
    lemma_silent_part(parts, k);
    lemma_totals_skip_unreadable(sources, k);
    if !in_turn(parts.take(k)).failed {
        lemma_diagnostic_appears(parts, k);
    }
}

/// The counts of lines with one in front.
proof fn lemma_tally_first(first: Seq<char>, rest: Seq<Seq<char>>)
    ensures
        tally(seq![first] + rest) == Tally::of_line(first).plus(tally(rest)),
    decreases rest.len(),
{
    let all = seq![first] + rest;
    if rest.len() == 0 {
        reveal_with_fuel(tally, 2);
    } else {
        lemma_tally_first(first, rest.drop_last());
        assert(all.drop_last() =~= seq![first] + rest.drop_last());
    }
}

/// Counting a stream of valid UTF-8 line by line gives what it counts for
/// as a whole.
pub proof fn lemma_count_of_whole_stream(bytes: Seq<u8>)
    requires
        valid_utf8(bytes),
    ensures
        !reading(bytes).broken,
        tally(reading(bytes).lines) == counts(bytes),
{
    lemma_reading_whole_stream(bytes);
    lemma_lines_read(bytes);
    lemma_tally_within_bytes(bytes);
    lemma_words_and_chars_read(bytes);
    lemma_tally_counts_lines(reading(bytes).lines);
}

/// Each line counts for one.
proof fn lemma_tally_counts_lines(lines: Seq<Seq<char>>)
    ensures
        tally(lines).lines == lines.len(),
    decreases lines.len(),
{
    if lines.len() > 0 {
        lemma_tally_counts_lines(lines.drop_last());
    }
}

/// The words and characters counted line by line are those of the whole
/// text.
proof fn lemma_words_and_chars_read(bytes: Seq<u8>)
    requires
        valid_utf8(bytes),
    ensures
        tally(reading(bytes).lines).words == word_count(decode_utf8(bytes)),
        tally(reading(bytes).lines).chars == decode_utf8(bytes).len(),
    decreases bytes.len(),
{
    if bytes.len() > 0 {
        let end = line_end(bytes, 0);
        lemma_line_end_bounds(bytes, 0);
        lemma_line_has_one_feed(bytes, 0);
        let first = bytes.take(end);
        let rest = bytes.skip(end);
        lemma_line_ends_at_boundary(bytes);
        valid_utf8_split(bytes, end);
        decode_utf8_split(bytes, end);
        lemma_words_and_chars_read(rest);
        lemma_tally_first(decode_utf8(first), reading(rest).lines);
        if rest.len() > 0 {
            // The first line ends with a line feed, so that no word goes on
            // behind it.
            lemma_feed_ends_text(first);
            lemma_word_count_add(decode_utf8(first), decode_utf8(rest));
        }
    }
}

} // verus!
