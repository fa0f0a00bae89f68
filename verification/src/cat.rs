//! Copying lines, with a running number in front of each where asked.

use crate::cli::Usage;
use crate::cli::all_values;
use crate::cli::given;
use crate::cli::held;
use crate::cli::matched;
use crate::cli::is_given;
use crate::cli::usage;
use crate::cli::values;
use crate::driver::Transcript;
use crate::driver::in_turn;
use crate::driver::lemma_diagnostic_appears;
use crate::driver::lemma_in_turn_stays_failed;
use crate::driver::lemma_in_turn_step;
use crate::driver::lemma_silent_part;
use crate::driver::names;
use crate::driver::notice;
use crate::driver::occurs_in;
use crate::driver::push_notice;
use crate::driver::unopened;
use crate::input::Cursor;
use crate::input::ReadError;
use crate::input::Source;
use crate::input::inputs;
use crate::input::inputs_or_standard;
use crate::lines::lemma_line_end_bounds;
use crate::lines::lemma_reading_whole_stream;
use crate::lines::reading;
use crate::text::column;
use crate::text::concat;
use crate::text::is_blank;
use crate::text::line_is_blank;
use crate::text::push_column;
use clap::App;
use clap::Arg;
use clap::ArgMatches;
use vstd::prelude::*;
use vstd::string::StringExecFns;
use vstd::utf8::decode_utf8;
use vstd::utf8::valid_utf8;

verus! {

/// The width of the column that holds a line's number.
pub const NUMBER_WIDTH: usize = 6;

/// Which inputs to copy, and which of their lines to number.
#[derive(Debug, PartialEq, Eq)]
pub struct Config {
    /// The names of the inputs, in order; a dash stands for standard input.
    pub files: Vec<String>,
    /// Whether every line gets a number.
    pub number_lines: bool,
    /// Whether the lines that are not blank get a number.
    pub number_nonblank_lines: bool,
}

/// Which lines get a number.
#[derive(Debug, PartialEq, Eq, Structural, Clone, Copy)]
pub enum Numbering {
    /// None.
    Off,
    /// Every line.
    All,
    /// The lines that hold more than their terminator.
    NonBlank,
}

impl Config {
    /// Whether the configuration is one that a command line gives: an input
    /// is named, and at most one way of numbering is set.
    pub open spec fn well_formed(&self) -> bool {
        &&& self.files.len() > 0
        &&& !(self.number_lines && self.number_nonblank_lines)
    }

    /// Which lines get a number: numbering the lines that are not blank comes
    /// before numbering all.
    pub open spec fn numbering(&self) -> Numbering {
        if self.number_nonblank_lines {
            Numbering::NonBlank
        } else if self.number_lines {
            Numbering::All
        } else {
            Numbering::Off
        }
    }

    /// Which lines get a number.
    pub fn mode(&self) -> (mode: Numbering)
        ensures
            mode == self.numbering(),
    {
        if self.number_nonblank_lines {
            Numbering::NonBlank
        } else if self.number_lines {
            Numbering::All
        } else {
            Numbering::Off
        }
    }
}

/// Whether `config` is the configuration for the inputs `files` and the two
/// options. With no input named, standard input is read. Asking to number
/// the lines that are not blank overrides asking to number all, so that at
/// most one of the two is set.
pub open spec fn configured(
    files: Seq<Seq<char>>,
    number_lines: bool,
    number_nonblank_lines: bool,
    config: Config,
) -> bool {
    &&& config.files.deep_view() == inputs(files)
    &&& config.number_nonblank_lines == number_nonblank_lines
    &&& config.number_lines == (number_lines && !number_nonblank_lines)
}

/// The configuration for the inputs named and the options given.
pub fn configure(files: Vec<String>, number_lines: bool, number_nonblank_lines: bool) -> (config:
    Config)
    ensures
        configured(files.deep_view(), number_lines, number_nonblank_lines, config),
        config.well_formed(),
{
    let files = inputs_or_standard(files);
    Config { files, number_lines: number_lines && !number_nonblank_lines, number_nonblank_lines }
}

/// The name of the command.
pub open spec fn command() -> Seq<char> {
    "catr"@
}

/// What clap matches on the command line `args`, the name of the program
/// first.
///
/// Describes the command to clap, with the inputs as `files` and the two
/// flags as `number_lines` and `number_nonblank_lines`, and calls
/// `App::get_matches_from_safe` on `args`. What is matched depends on the
/// command and on `args` alone.
#[verifier::external_body]
fn matches(args: Vec<String>) -> (res: Result<ArgMatches<'static>, clap::Error>)
    ensures
        res is Ok <==> matched(command(), args.deep_view()) is Some,
        res matches Ok(found) ==> Some(held(found)) == matched(command(), args.deep_view()),
{
    App::new("catr")
        .version("0.1.0")
        .about("Copies inputs, numbering their lines where asked")
        .arg(Arg::with_name("files").value_name("FILES").help("Input files").multiple(true))
        .arg(Arg::with_name("number_lines").short("n").long("number").help("Number all output lines"))
        .arg(Arg::with_name("number_nonblank_lines").short("b").long("number-nonblank").help("Number nonempty output lines, overrides -n"))
        .get_matches_from_safe(args)
}

/// The configuration that the command line `args` gives, the name of the
/// program first; or what there is to tell the user instead, where clap does
/// not match the command line.
///
/// The inputs are the arguments that are no options, `-n` or `--number` asks
/// to number all lines, and `-b` or `--number-nonblank` to number those that
/// are not blank.
pub fn get_args(args: Vec<String>) -> (res: Result<Config, Usage>)
    ensures
        match matched(command(), args.deep_view()) {
            Some(found) => res matches Ok(config) && configured(
                values(found, "files"@),
                given(found, "number_lines"@),
                given(found, "number_nonblank_lines"@),
                config,
            ),
            None => res is Err,
        },
        res matches Ok(config) ==> config.well_formed(),
{
    match matches(args) {
        Err(failure) => Err(usage(failure)),
        Ok(found) => {
            let files = all_values(&found, "files");
            let number_lines = is_given(&found, "number_lines");
            let number_nonblank_lines = is_given(&found, "number_nonblank_lines");
            Ok(configure(files, number_lines, number_nonblank_lines))
        },
    }
}

/// Whether `line` gets a number under `mode`.
pub open spec fn gets_number(mode: Numbering, line: Seq<char>) -> bool {
    match mode {
        Numbering::Off => false,
        Numbering::All => true,
        Numbering::NonBlank => !is_blank(line),
    }
}

/// How many of `lines` get a number under `mode`.
pub open spec fn numbered_among(mode: Numbering, lines: Seq<Seq<char>>) -> nat
    decreases lines.len(),
{
    if lines.len() == 0 {
        0
    } else {
        numbered_among(mode, lines.drop_last()) + if gets_number(mode, lines.last()) {
            1nat
        } else {
            0nat
        }
    }
}

/// `line` as it is written when `before` lines have been numbered ahead of
/// it: behind its number in a column six wide and a tab where it gets one,
/// and unchanged where it does not. Its terminator stays as it was read.
pub open spec fn rendered(mode: Numbering, before: nat, line: Seq<char>) -> Seq<char> {
    if gets_number(mode, line) {
        column(before + 1, NUMBER_WIDTH as nat) + seq!['\t'] + line
    } else {
        line
    }
}

/// `lines` as they are written, one after the other; the numbers start at one
/// and go up by one with each line that gets one.
pub open spec fn numbered_text(mode: Numbering, lines: Seq<Seq<char>>) -> Seq<char>
    decreases lines.len(),
{
    if lines.len() == 0 {
        Seq::empty()
    } else {
        numbered_text(mode, lines.drop_last()) + rendered(
            mode,
            numbered_among(mode, lines.drop_last()),
            lines.last(),
        )
    }
}

/// No more lines get a number than there are.
pub proof fn lemma_numbered_among_bound(mode: Numbering, lines: Seq<Seq<char>>)
    ensures
        numbered_among(mode, lines) <= lines.len(),
    decreases lines.len(),
{
    if lines.len() > 0 {
        lemma_numbered_among_bound(mode, lines.drop_last());
    }
}

/// Without numbering, a stream of valid UTF-8 is written as the text that it
/// encodes, unchanged.
pub proof fn lemma_plain_copy(bytes: Seq<u8>)
    requires
        valid_utf8(bytes),
    ensures
        !reading(bytes).broken,
        numbered_text(Numbering::Off, reading(bytes).lines) == decode_utf8(bytes),
{
    lemma_reading_whole_stream(bytes);
    lemma_unnumbered_text(reading(bytes).lines);
}

/// Without numbering, lines are written one after the other as they are.
proof fn lemma_unnumbered_text(lines: Seq<Seq<char>>)
    ensures
        numbered_text(Numbering::Off, lines) == concat(lines),
    decreases lines.len(),
{
    if lines.len() > 0 {
        lemma_unnumbered_text(lines.drop_last());
    }
}

/// Numbers the lines of one input as they come.
pub struct Numberer {
    /// Which lines get a number.
    pub mode: Numbering,
    /// How many lines have got a number so far.
    pub numbered: usize,
}

impl Numberer {
    /// A numberer that has seen no line yet.
    pub fn new(mode: Numbering) -> (numberer: Numberer)
        ensures
            numberer.mode == mode,
            numberer.numbered == 0,
    {
        Numberer { mode, numbered: 0 }
    }

    /// Writes `line` to `out`, behind its number where it gets one, and says
    /// whether it did: where the number would not fit in a `usize`, nothing
    /// changes.
    pub fn emit(&mut self, line: &str, out: &mut String) -> (written: bool)
        ensures
            written == !(gets_number(old(self).mode, line@) && old(self).numbered == usize::MAX),
            final(self).mode == old(self).mode,
            written ==> final(out)@ == old(out)@ + rendered(
                old(self).mode,
                old(self).numbered as nat,
                line@,
            ),
            written ==> final(self).numbered == old(self).numbered + if gets_number(
                old(self).mode,
                line@,
            ) {
                1int
            } else {
                0int
            },
            !written ==> final(out)@ == old(out)@ && final(self).numbered == old(self).numbered,
    {
        let numbers = match self.mode {
            Numbering::Off => false,
            Numbering::All => true,
            Numbering::NonBlank => !line_is_blank(line),
        };
        if numbers {
            if self.numbered == usize::MAX {
                return false;
            }
            self.numbered = self.numbered + 1;
            proof {
                reveal_strlit("\t");
            }
            push_column(out, self.numbered, NUMBER_WIDTH);
            out.append("\t");
        }
        out.append(line);
        true
    }
}

/// Copies the stream `input` to `out` line by line, numbering under `mode`;
/// a line that is not valid UTF-8 ends the copy with an error, the lines
/// before it written.
pub fn number_stream(mode: Numbering, input: &[u8], out: &mut String) -> (res: Result<
    (),
    ReadError,
>)
    ensures
        final(out)@ == old(out)@ + numbered_text(mode, reading(input@).lines),
        res is Err <==> reading(input@).broken,
{
    let total: usize = input.len();
    let mut cursor = Cursor::new(input);
    let mut numberer = Numberer::new(mode);
    let ghost mut done: Seq<Seq<char>> = Seq::empty();
    loop
        invariant
            reading(input@).lines == done + reading(cursor.remaining()).lines,
            reading(input@).broken == reading(cursor.remaining()).broken,
            out@ == old(out)@ + numbered_text(mode, done),
            numberer.mode == mode,
            numberer.numbered == numbered_among(mode, done),
            done.len() + cursor.remaining().len() <= total,
        decreases cursor.remaining().len(),
    {
        let ghost rest = cursor.remaining();
        match cursor.read_line() {
            Err(e) => {
                return Err(e);
            },
            Ok(None) => {
                return Ok(());
            },
            Ok(Some(line)) => {
                proof {
                    lemma_line_end_bounds(rest, 0);
                    lemma_numbered_among_bound(mode, done);
                    assert(done.push(line@).drop_last() =~= done);
                }
                let written = numberer.emit(line, out);
                assert(written);
                proof {
                    done = done.push(line@);
                }
            },
        }
    }
}

/// What the input `name` contributes to a run: a diagnostic where it could
/// not be opened, and else its lines as they are written, up to one that
/// could not be read.
pub open spec fn file_report(mode: Numbering, name: Seq<char>, source: Source) -> Transcript {
    match source {
        Source::Unreadable(reason) => unopened(name, reason@),
        Source::Stream(bytes) => Transcript {
            stdout: numbered_text(mode, reading(bytes@).lines),
            stderr: Seq::empty(),
            failed: reading(bytes@).broken,
        },
    }
}

/// What each of the inputs `names` contributes, `sources` being what came of
/// opening them.
pub open spec fn reports(mode: Numbering, names: Seq<Seq<char>>, sources: Seq<Source>) -> Seq<
    Transcript,
> {
    Seq::new(names.len(), |i: int| file_report(mode, names[i], sources[i]))
}

/// What a whole run writes: the contribution of each input in turn, the
/// numbers starting at one in each.
pub open spec fn transcript(config: &Config, sources: Seq<Source>) -> Transcript {
    in_turn(reports(config.numbering(), names(config.files@), sources))
}

/// An input that could not be opened is left out of the output, which is
/// what the other inputs alone give; its diagnostic stands in the
/// diagnostics, unless the run broke off before it; and the run breaks off
/// where it would with the other inputs alone.
pub proof fn lemma_unreadable_input_is_skipped(
    mode: Numbering,
    names: Seq<Seq<char>>,
    sources: Seq<Source>,
    k: int,
)
    requires
        names.len() == sources.len(),
        0 <= k < names.len(),
        sources[k] is Unreadable,
    ensures
        in_turn(reports(mode, names.remove(k), sources.remove(k))).stdout == in_turn(
            reports(mode, names, sources),
        ).stdout,
        in_turn(reports(mode, names.remove(k), sources.remove(k))).failed == in_turn(
            reports(mode, names, sources),
        ).failed,
        !in_turn(reports(mode, names, sources).take(k)).failed ==> occurs_in(
            notice(names[k], sources[k]->Unreadable_0@),
            in_turn(reports(mode, names, sources)).stderr,
        ),
{
    let parts = reports(mode, names, sources);
    assert(reports(mode, names.remove(k), sources.remove(k)) =~= parts.remove(k));
    lemma_silent_part(parts, k);
    if !in_turn(parts.take(k)).failed {
        lemma_diagnostic_appears(parts, k);
    }
}

/// Copies each input in turn to `stdout`, numbering its lines as `config`
/// asks, each input from one; an input that could not be opened gets a
/// diagnostic on `stderr` instead, and the run goes on. A line that cannot be
/// read ends the run with an error.
///
/// `sources[i]` is what came of opening `config.files[i]`.
pub fn run(config: &Config, sources: &Vec<Source>, stdout: &mut String, stderr: &mut String) -> (res:
    Result<(), ReadError>)
    requires
        sources.len() == config.files.len(),
    ensures
        final(stdout)@ == old(stdout)@ + transcript(config, sources@).stdout,
        final(stderr)@ == old(stderr)@ + transcript(config, sources@).stderr,
        res is Err <==> transcript(config, sources@).failed,
{
    let mode = config.mode();
    let n: usize = sources.len();
    let ghost parts = reports(mode, names(config.files@), sources@);
    let mut i: usize = 0;
    while i < n
        invariant
            i <= n,
            n == sources.len(),
            n == config.files.len(),
            mode == config.numbering(),
            parts == reports(mode, names(config.files@), sources@),
            !in_turn(parts.take(i as int)).failed,
            stdout@ == old(stdout)@ + in_turn(parts.take(i as int)).stdout,
            stderr@ == old(stderr)@ + in_turn(parts.take(i as int)).stderr,
        decreases n - i,
    {
        proof {
            lemma_in_turn_step(parts, i as int);
        }
        match &sources[i] {
            Source::Unreadable(reason) => {
                push_notice(stderr, config.files[i].as_str(), reason.as_str());
            },
            Source::Stream(bytes) => {
                let copied = number_stream(mode, bytes.as_slice(), stdout);
                if let Err(e) = copied {
                    proof {
                        lemma_in_turn_stays_failed(parts, i as int + 1);
                    }
                    return Err(e);
                }
            },
        }
        i = i + 1;
    }
    assert(parts.take(n as int) =~= parts);
    Ok(())
}

} // verus!
