//! Folding each run of adjacent lines with the same content into one line,
//! with the length of the run in front where asked.

use crate::cli::Usage;
use crate::cli::first_value;
use crate::cli::given;
use crate::cli::held;
use crate::cli::matched;
use crate::cli::is_given;
use crate::cli::usage;
use crate::cli::value_of;
use crate::driver::Transcript;
use crate::driver::push_notice;
use crate::driver::unopened;
use crate::input::Cursor;
use crate::input::ReadError;
use crate::input::Source;
use crate::input::dash;
use crate::input::text_of;
use crate::lines::lemma_line_end_bounds;
use crate::lines::reading;
use crate::text::column;
use crate::text::content;
use crate::text::push_column;
use crate::text::same_content;
use clap::App;
use clap::Arg;
use clap::ArgMatches;
use vstd::prelude::*;
use vstd::string::StringExecFns;

verus! {

/// The width of the column that holds a run's length.
pub const COUNT_WIDTH: usize = 4;

/// Which input to fold, where to write, and whether to show the lengths.
#[derive(Debug, PartialEq, Eq)]
pub struct Config {
    /// The name of the input; a dash stands for standard input.
    pub in_file: String,
    /// The name of the file to write to; standard output where there is none.
    pub out_file: Option<String>,
    /// Whether each line is written behind the length of its run.
    pub count: bool,
}

/// Whether `config` is the configuration for the names and the option
/// given. With no input named, standard input is read.
pub open spec fn configured(
    in_file: Option<Seq<char>>,
    out_file: Option<Seq<char>>,
    count: bool,
    config: Config,
) -> bool {
    &&& config.in_file@ == match in_file {
        Some(name) => name,
        None => dash(),
    }
    &&& text_of(config.out_file) == out_file
    &&& config.count == count
}

/// The configuration for the names and the option given.
pub fn configure(in_file: Option<String>, out_file: Option<String>, count: bool) -> (config: Config)
    ensures
        configured(text_of(in_file), text_of(out_file), count, config),
{
    let in_file = match in_file {
        Some(name) => name,
        None => {
            proof {
                reveal_strlit("-");
            }
            let name = "-".to_owned();
            assert(name@ =~= dash());
            name
        },
    };
    Config { in_file, out_file, count }
}

/// The name of the command.
pub open spec fn command() -> Seq<char> {
    "uniqr"@
}

/// What clap matches on the command line `args`, the name of the program
/// first.
///
/// Describes the command to clap, with the input as `input_file`, the output
/// as `output_file` and the flag as `count`, and calls
/// `App::get_matches_from_safe` on `args`. What is matched depends on the
/// command and on `args` alone.
#[verifier::external_body]
fn matches(args: Vec<String>) -> (res: Result<ArgMatches<'static>, clap::Error>)
    ensures
        res is Ok <==> matched(command(), args.deep_view()) is Some,
        res matches Ok(found) ==> Some(held(found)) == matched(command(), args.deep_view()),
{
    App::new("uniqr")
        .version("0.1.0")
        .about("Folds adjacent lines that repeat into one")
        .arg(Arg::with_name("input_file").value_name("INPUT_FILE").help("Input file, - by default"))
        .arg(Arg::with_name("output_file").value_name("OUTPUT_FILE").help("Output file"))
        .arg(Arg::with_name("count").short("c").long("count").help("Show the length of each run"))
        .get_matches_from_safe(args)
}

/// The configuration that the command line `args` gives, the name of the
/// program first; or what there is to tell the user instead, where clap does
/// not match the command line.
///
/// The first argument that is no option names the input and the second the
/// output; `-c` or `--count` asks for the lengths of the runs.
pub fn get_args(args: Vec<String>) -> (res: Result<Config, Usage>)
    ensures
        match matched(command(), args.deep_view()) {
            Some(found) => res matches Ok(config) && configured(
                first_value(found, "input_file"@),
                first_value(found, "output_file"@),
                given(found, "count"@),
                config,
            ),
            None => res is Err,
        },
{
    match matches(args) {
        Err(failure) => Err(usage(failure)),
        Ok(found) => {
            let in_file = value_of(&found, "input_file");
            let out_file = value_of(&found, "output_file");
            let count = is_given(&found, "count");
            Ok(configure(in_file, out_file, count))
        },
    }
}

/// Where the output goes.
#[derive(Debug, PartialEq, Eq)]
pub enum Destination {
    /// To standard output.
    Standard,
    /// To the file at this path.
    Named(String),
}

impl Config {
    /// Where the output goes: to the file named, and to standard output where
    /// none is.
    pub fn destination(&self) -> (output: Destination)
        ensures
            match self.out_file {
                Some(name) => output matches Destination::Named(path) && path@ == name@,
                None => output is Standard,
            },
    {
        match &self.out_file {
            Some(name) => Destination::Named(name.clone()),
            None => Destination::Standard,
        }
    }
}

/// A run of adjacent lines with the same content.
pub struct Run {
    /// How many lines the run holds.
    pub count: nat,
    /// The first line of the run, as it was read.
    pub text: Seq<char>,
}

/// The runs of `lines`, in order: a line whose content, its terminator set
/// aside, is that of the run before it makes that run longer, and any other
/// line begins a run. Each run is as long as it can be, and shows its first
/// line.
pub open spec fn runs(lines: Seq<Seq<char>>) -> Seq<Run>
    decreases lines.len(),
{
    if lines.len() == 0 {
        Seq::empty()
    } else {
        let before = runs(lines.drop_last());
        let line = lines.last();
        if before.len() > 0 && content(before.last().text) == content(line) {
            before.drop_last().push(Run { count: before.last().count + 1, text: before.last().text })
        } else {
            before.push(Run { count: 1, text: line })
        }
    }
}

/// How many lines the first `r` of `runs` hold together, which is where the
/// next run begins.
pub open spec fn lines_before(runs: Seq<Run>, r: int) -> nat
    decreases r,
{
    if r <= 0 {
        0
    } else {
        lines_before(runs, r - 1) + runs[r - 1].count
    }
}

/// Whether `runs` are the runs of adjacent lines with the same content that
/// `lines` fall into, each as long as it can be: the runs hold all the lines,
/// in order; each run shows the line it begins with; the lines of a run have
/// the content of that line; and a run has not the content of the run before.
pub open spec fn splits_into_runs(lines: Seq<Seq<char>>, runs: Seq<Run>) -> bool {
    &&& lines_before(runs, runs.len() as int) == lines.len()
    &&& forall|r: int|
        0 <= r < runs.len() ==> (#[trigger] runs[r]).count >= 1 && runs[r].text
            == lines[lines_before(runs, r) as int]
    &&& forall|r: int, j: int|
        0 <= r < runs.len() && lines_before(runs, r) <= j < lines_before(runs, r + 1) ==> content(
            #[trigger] lines[j],
        ) == content((#[trigger] runs[r]).text)
    &&& forall|r: int|
        0 < r < runs.len() ==> content(runs[r - 1].text) != content((#[trigger] runs[r]).text)
}

/// Where a run begins depends on the runs before it alone.
proof fn lemma_lines_before_prefix(a: Seq<Run>, b: Seq<Run>, r: int)
    requires
        0 <= r <= a.len(),
        r <= b.len(),
        forall|i: int| 0 <= i < r ==> a[i] == b[i],
    ensures
        lines_before(a, r) == lines_before(b, r),
    decreases r,
{
    if r > 0 {
        lemma_lines_before_prefix(a, b, r - 1);
    }
}

/// A later run begins no earlier.
proof fn lemma_lines_before_grows(runs: Seq<Run>, r: int, s: int)
    requires
        0 <= r <= s,
    ensures
        lines_before(runs, r) <= lines_before(runs, s),
    decreases s - r,
{
    if r < s {
        lemma_lines_before_grows(runs, r, s - 1);
    }
}

/// Whether the last of `lines` makes the last run of the lines before it
/// longer.
spec fn extends_last_run(lines: Seq<Seq<char>>) -> bool {
    let before = runs(lines.drop_last());
    before.len() > 0 && content(before.last().text) == content(lines.last())
}

/// How the runs of some lines come from the runs of all but the last.
proof fn lemma_runs_step(lines: Seq<Seq<char>>)
    requires
        lines.len() > 0,
    ensures
        ({
            let before = runs(lines.drop_last());
            let after = runs(lines);
            let n = before.len() as int;
            if extends_last_run(lines) {
                &&& after.len() == n
                &&& forall|r: int| 0 <= r < n - 1 ==> after[r] == before[r]
                &&& forall|r: int| 0 <= r < n ==> lines_before(after, r) == lines_before(before, r)
                &&& after[n - 1].text == before[n - 1].text
                &&& after[n - 1].count == before[n - 1].count + 1
            } else {
                &&& after.len() == n + 1
                &&& forall|r: int| 0 <= r < n ==> after[r] == before[r]
                &&& forall|r: int| 0 <= r <= n ==> lines_before(after, r) == lines_before(before, r)
                &&& after[n].text == lines.last()
                &&& after[n].count == 1
            }
        }),
{
    let before = runs(lines.drop_last());
    let after = runs(lines);
    let n = before.len() as int;
    if extends_last_run(lines) {
        assert forall|r: int| 0 <= r < n implies lines_before(after, r) == lines_before(
            before,
            r,
        ) by {
            lemma_lines_before_prefix(after, before, r);
        }
    } else {
        assert forall|r: int| 0 <= r <= n implies lines_before(after, r) == lines_before(
            before,
            r,
        ) by {
            lemma_lines_before_prefix(after, before, r);
        }
    }
}

/// The runs hold all the lines.
pub proof fn lemma_runs_hold_all_lines(lines: Seq<Seq<char>>)
    ensures
        lines_before(runs(lines), runs(lines).len() as int) == lines.len(),
    decreases lines.len(),
{
    if lines.len() > 0 {
        let before = runs(lines.drop_last());
        let after = runs(lines);
        let n = before.len() as int;
        lemma_runs_hold_all_lines(lines.drop_last());
        lemma_runs_step(lines);
        if extends_last_run(lines) {
            assert(lines_before(after, n - 1) == lines_before(before, n - 1));
        }
    }
}

/// A run holds at least one line, and shows the line it begins with.
pub proof fn lemma_run_shows_its_first_line(lines: Seq<Seq<char>>, r: int)
    requires
        0 <= r < runs(lines).len(),
    ensures
        runs(lines)[r].count >= 1,
        lines_before(runs(lines), r) < lines.len(),
        runs(lines)[r].text == lines[lines_before(runs(lines), r) as int],
    decreases lines.len(),
{
    if lines.len() > 0 {
        let shorter = lines.drop_last();
        let n = runs(shorter).len() as int;
        lemma_runs_step(lines);
        lemma_runs_hold_all_lines(shorter);
        if r < n {
            lemma_run_shows_its_first_line(shorter, r);
        }
    }
}

/// The lines of a run have the content of the line it shows.
pub proof fn lemma_run_has_one_content(lines: Seq<Seq<char>>, r: int, j: int)
    requires
        0 <= r < runs(lines).len(),
        lines_before(runs(lines), r) <= j < lines_before(runs(lines), r + 1),
    ensures
        0 <= j < lines.len(),
        content(lines[j]) == content(runs(lines)[r].text),
    decreases lines.len(),
{
    lemma_runs_hold_all_lines(lines);
    if lines.len() > 0 {
        let shorter = lines.drop_last();
        let n = runs(shorter).len() as int;
        lemma_runs_step(lines);
        if extends_last_run(lines) {
            if r < n - 1 || j < shorter.len() {
                lemma_run_has_one_content(shorter, r, j);
            }
        } else if r < n {
            lemma_run_has_one_content(shorter, r, j);
        }
    }
}

/// A run has not the content of the run before it: else the two were one.
pub proof fn lemma_neighbouring_runs_differ(lines: Seq<Seq<char>>, r: int)
    requires
        0 < r < runs(lines).len(),
    ensures
        content(runs(lines)[r - 1].text) != content(runs(lines)[r].text),
    decreases lines.len(),
{
    if lines.len() > 0 {
        let shorter = lines.drop_last();
        let n = runs(shorter).len() as int;
        if r < n {
            lemma_neighbouring_runs_differ(shorter, r);
        }
    }
}

/// Each line belongs to exactly one run, and every run is as long as it can
/// be and shows the line it begins with.
pub proof fn lemma_runs_are_maximal(lines: Seq<Seq<char>>)
    ensures
        splits_into_runs(lines, runs(lines)),
{
    let all = runs(lines);
    lemma_runs_hold_all_lines(lines);
    assert forall|r: int| 0 <= r < all.len() implies (#[trigger] all[r]).count >= 1 && all[r].text
        == lines[lines_before(all, r) as int] by {
        lemma_run_shows_its_first_line(lines, r);
    }
    assert forall|r: int, j: int|
        0 <= r < all.len() && lines_before(all, r) <= j < lines_before(all, r + 1) implies content(
        #[trigger] lines[j],
    ) == content((#[trigger] all[r]).text) by {
        lemma_run_has_one_content(lines, r, j);
    }
    assert forall|r: int| 0 < r < all.len() implies content(all[r - 1].text) != content(
        (#[trigger] all[r]).text,
    ) by {
        lemma_neighbouring_runs_differ(lines, r);
    }
}

/// A run as it is written: its first line, behind the length of the run in a
/// column four wide and a space where lengths are shown.
pub open spec fn run_text(show_counts: bool, run: Run) -> Seq<char> {
    if show_counts {
        column(run.count, COUNT_WIDTH as nat) + seq![' '] + run.text
    } else {
        run.text
    }
}

/// `runs` as they are written, one after the other.
pub open spec fn runs_text(show_counts: bool, runs: Seq<Run>) -> Seq<char>
    decreases runs.len(),
{
    if runs.len() == 0 {
        Seq::empty()
    } else {
        runs_text(show_counts, runs.drop_last()) + run_text(show_counts, runs.last())
    }
}

/// The runs that are certain to be over: all of them once the input has
/// ended, and all but the last while it may still go on.
pub open spec fn closed_runs(runs: Seq<Run>, ended: bool) -> Seq<Run> {
    if ended || runs.len() == 0 {
        runs
    } else {
        runs.drop_last()
    }
}

/// Folds the lines of one input as they come.
pub struct Deduplicator {
    /// Whether each line is written behind the length of its run.
    pub show_counts: bool,
    /// The first line of the run that is open; of no meaning while none is.
    pub previous: String,
    /// The length of the run that is open so far; zero while none is.
    pub count: usize,
}

impl Deduplicator {
    /// The run that is open, if any.
    pub open spec fn open_run(&self) -> Option<Run> {
        if self.count > 0 {
            Some(Run { count: self.count as nat, text: self.previous@ })
        } else {
            None
        }
    }

    /// What closing the open run writes: the run, or nothing while none is
    /// open.
    pub open spec fn flushed(&self) -> Seq<char> {
        match self.open_run() {
            Some(run) => run_text(self.show_counts, run),
            None => Seq::empty(),
        }
    }

    /// Whether `line` goes on with the open run.
    pub open spec fn continues(&self, line: Seq<char>) -> bool {
        self.count > 0 && content(self.previous@) == content(line)
    }

    /// A deduplicator that has seen no line yet.
    pub fn new(show_counts: bool) -> (dedup: Deduplicator)
        ensures
            dedup.show_counts == show_counts,
            dedup.open_run() is None,
    {
        Deduplicator { show_counts, previous: String::new(), count: 0 }
    }

    /// Takes in `line`. Where it goes on with the open run, the run gets one
    /// longer and nothing is written. Where it does not, the open run is
    /// closed and written to `out`, and `line` opens a run of its own. Says
    /// whether the line was taken in: where the length of the run would not
    /// fit in a `usize`, nothing changes.
    pub fn feed(&mut self, line: &str, out: &mut String) -> (taken: bool)
        ensures
            taken == !(old(self).continues(line@) && old(self).count == usize::MAX),
            final(self).show_counts == old(self).show_counts,
            taken && old(self).continues(line@) ==> {
                &&& final(out)@ == old(out)@
                &&& final(self).previous@ == old(self).previous@
                &&& final(self).count == old(self).count + 1
            },
            taken && !old(self).continues(line@) ==> {
                &&& final(out)@ == old(out)@ + old(self).flushed()
                &&& final(self).previous@ == line@
                &&& final(self).count == 1
            },
            !taken ==> final(out)@ == old(out)@ && *final(self) == *old(self),
    {
        if self.count > 0 && same_content(self.previous.as_str(), line) {
            if self.count == usize::MAX {
                return false;
            }
            self.count = self.count + 1;
        } else {
            self.flush(out);
            self.previous = line.to_owned();
            self.count = 1;
        }
        true
    }

    /// Closes the open run and writes it to `out`; nothing is written while
    /// none is open. To be called once, when the input has ended.
    pub fn finish(&mut self, out: &mut String)
        ensures
            final(out)@ == old(out)@ + old(self).flushed(),
            final(self).show_counts == old(self).show_counts,
            final(self).open_run() is None,
    {
        self.flush(out);
        self.count = 0;
    }

    fn flush(&self, out: &mut String)
        ensures
            final(out)@ == old(out)@ + self.flushed(),
    {
        if self.count > 0 {
            if self.show_counts {
                proof {
                    reveal_strlit(" ");
                }
                push_column(out, self.count, COUNT_WIDTH);
                out.append(" ");
            }
            out.append(self.previous.as_str());
        }
    }
}

/// What folding a stream writes: the runs of its lines. Where a line could
/// not be read, the run that was open at that point is not written.
pub open spec fn folded(show_counts: bool, bytes: Seq<u8>) -> Seq<char> {
    let read = reading(bytes);
    runs_text(show_counts, closed_runs(runs(read.lines), !read.broken))
}

/// No run is longer than the lines are many.
pub proof fn lemma_run_within_lines(lines: Seq<Seq<char>>)
    ensures
        runs(lines).len() <= lines.len(),
        lines.len() > 0 ==> runs(lines).len() > 0 && runs(lines).last().count <= lines.len(),
    decreases lines.len(),
{
    if lines.len() > 0 {
        lemma_run_within_lines(lines.drop_last());
    }
}

/// Folds the stream `input` to `out`; a line that is not valid UTF-8 ends it
/// with an error, the runs before the open one written.
pub fn fold_stream(show_counts: bool, input: &[u8], out: &mut String) -> (res: Result<
    (),
    ReadError,
>)
    ensures
        final(out)@ == old(out)@ + folded(show_counts, input@),
        res is Err <==> reading(input@).broken,
{
    let total: usize = input.len();
    let mut cursor = Cursor::new(input);
    let mut dedup = Deduplicator::new(show_counts);
    let ghost mut done: Seq<Seq<char>> = Seq::empty();
    loop
        invariant
            reading(input@).lines == done + reading(cursor.remaining()).lines,
            reading(input@).broken == reading(cursor.remaining()).broken,
            dedup.show_counts == show_counts,
            out@ == old(out)@ + runs_text(show_counts, closed_runs(runs(done), false)),
            done.len() == 0 ==> dedup.open_run() is None,
            done.len() > 0 ==> runs(done).len() > 0 && dedup.open_run() == Some(runs(done).last()),
            done.len() + cursor.remaining().len() <= total,
        decreases cursor.remaining().len(),
    {
        let ghost rest = cursor.remaining();
        match cursor.read_line() {
            Err(e) => {
                return Err(e);
            },
            Ok(None) => {
                dedup.finish(out);
                return Ok(());
            },
            Ok(Some(line)) => {
                proof {
                    lemma_line_end_bounds(rest, 0);
                    lemma_run_within_lines(done);
                    assert(done.push(line@).drop_last() =~= done);
                }
                let taken = dedup.feed(line, out);
                assert(taken);
                proof {
                    // The line makes the last run longer, or closes it and
                    // opens its own.
                    let before = runs(done);
                    let after = runs(done.push(line@));
                    if before.len() > 0 && content(before.last().text) == content(line@) {
                        assert(after.drop_last() =~= before.drop_last());
                    } else {
                        assert(after.drop_last() =~= before);
                    }
                    done = done.push(line@);
                }
            },
        }
    }
}

/// What a run writes: a diagnostic where the input could not be opened,
/// and else the runs of its lines, up to a line that could not be read.
pub open spec fn transcript(config: &Config, source: Source) -> Transcript {
    match source {
        Source::Unreadable(reason) => unopened(config.in_file@, reason@),
        Source::Stream(bytes) => Transcript {
            stdout: folded(config.count, bytes@),
            stderr: Seq::empty(),
            failed: reading(bytes@).broken,
        },
    }
}

/// Folds the input to `stdout`, which stands for the destination that
/// `config` names. An input that could not be opened gets a diagnostic on
/// `stderr` instead. A line that cannot be read ends the run with an error,
/// the runs before the open one written.
///
/// `source` is what came of opening `config.in_file`.
pub fn run(config: &Config, source: &Source, stdout: &mut String, stderr: &mut String) -> (res:
    Result<(), ReadError>)
    ensures
        final(stdout)@ == old(stdout)@ + transcript(config, *source).stdout,
        final(stderr)@ == old(stderr)@ + transcript(config, *source).stderr,
        res is Err <==> transcript(config, *source).failed,
{
    match source {
        Source::Unreadable(reason) => {
            push_notice(stderr, config.in_file.as_str(), reason.as_str());
            Ok(())
        },
        Source::Stream(bytes) => {
            fold_stream(config.count, bytes.as_slice(), stdout)
        },
    }
}

} // verus!
