//! What a run over several inputs writes: the contribution of each input in
//! turn, until one of them breaks the run off.

use vstd::prelude::*;
use vstd::string::StringExecFns;

verus! {

/// What a run, or a part of one, has written.
pub struct Transcript {
    /// What went to the output.
    pub stdout: Seq<char>,
    /// What went to the diagnostics.
    pub stderr: Seq<char>,
    /// Whether the run broke off at a line that could not be read.
    pub failed: bool,
}

impl Transcript {
    /// Nothing written.
    pub open spec fn empty() -> Transcript {
        Transcript { stdout: Seq::empty(), stderr: Seq::empty(), failed: false }
    }

    /// This transcript with `next` behind it; a run that has broken off
    /// writes nothing more.
    pub open spec fn followed_by(self, next: Transcript) -> Transcript {
        if self.failed {
            self
        } else {
            Transcript {
                stdout: self.stdout + next.stdout,
                stderr: self.stderr + next.stderr,
                failed: next.failed,
            }
        }
    }
}

/// What a run writes whose inputs contribute `parts`, in this order.
pub open spec fn in_turn(parts: Seq<Transcript>) -> Transcript
    decreases parts.len(),
{
    if parts.len() == 0 {
        Transcript::empty()
    } else {
        in_turn(parts.drop_last()).followed_by(parts.last())
    }
}

/// The names of `files` as texts.
pub open spec fn names(files: Seq<String>) -> Seq<Seq<char>> {
    Seq::new(files.len(), |i: int| files[i]@)
}

/// Whether `part` stands somewhere in `whole`, unbroken.
pub open spec fn occurs_in(part: Seq<char>, whole: Seq<char>) -> bool {
    exists|before: Seq<char>, after: Seq<char>| whole == before + part + after
}

/// The diagnostic for an input that could not be opened: the name, a colon
/// and a space, the reason, and a line feed.
pub open spec fn notice(name: Seq<char>, reason: Seq<char>) -> Seq<char> {
    name + seq![':', ' '] + reason + seq!['\n']
}

/// What an input that could not be opened contributes: its diagnostic, and
/// nothing else.
pub open spec fn unopened(name: Seq<char>, reason: Seq<char>) -> Transcript {
    Transcript { stdout: Seq::empty(), stderr: notice(name, reason), failed: false }
}

/// Appends the diagnostic for the input `name`, which could not be opened
/// for `reason`, to `err`.
pub fn push_notice(err: &mut String, name: &str, reason: &str)
    ensures
        final(err)@ == old(err)@ + notice(name@, reason@),
{
    proof {
        reveal_strlit(": ");
        reveal_strlit("\n");
    }
    err.append(name);
    err.append(": ");
    err.append(reason);
    err.append("\n");
}

/// The first `i + 1` inputs write what the first `i` write, and then what
/// the next one contributes.
pub proof fn lemma_in_turn_step(parts: Seq<Transcript>, i: int)
    requires
        0 <= i < parts.len(),
    ensures
        in_turn(parts.take(i + 1)) == in_turn(parts.take(i)).followed_by(parts[i]),
{
    assert(parts.take(i + 1).drop_last() =~= parts.take(i));
}

/// A run that has broken off after `m` inputs writes nothing more.
pub proof fn lemma_in_turn_stays_failed(parts: Seq<Transcript>, m: int)
    requires
        0 <= m <= parts.len(),
        in_turn(parts.take(m)).failed,
    ensures
        in_turn(parts) == in_turn(parts.take(m)),
    decreases parts.len() - m,
{
    if m < parts.len() {
        lemma_in_turn_step(parts, m);
        lemma_in_turn_stays_failed(parts, m + 1);
    } else {
        assert(parts.take(m) =~= parts);
    }
}

/// An input that contributes no output and does not break the run off might
/// as well not have been named: the output is what the other inputs alone
/// give, and the run breaks off where it would with them alone.
pub proof fn lemma_silent_part(parts: Seq<Transcript>, k: int)
    requires
        0 <= k < parts.len(),
        parts[k].stdout.len() == 0,
        !parts[k].failed,
    ensures
        in_turn(parts.remove(k)).stdout == in_turn(parts).stdout,
        in_turn(parts.remove(k)).failed == in_turn(parts).failed,
    decreases parts.len(),
{
    if k < parts.len() - 1 {
        lemma_silent_part(parts.drop_last(), k);
        assert(parts.remove(k).drop_last() =~= parts.drop_last().remove(k));
    }
}

/// Unless the run has broken off before it, what an input contributes to the
/// diagnostics stands in the diagnostics of the whole run.
pub proof fn lemma_diagnostic_appears(parts: Seq<Transcript>, k: int)
    requires
        0 <= k < parts.len(),
        !in_turn(parts.take(k)).failed,
    ensures
        occurs_in(parts[k].stderr, in_turn(parts).stderr),
    decreases parts.len(),
{
    if k == parts.len() - 1 {
        let before = in_turn(parts.drop_last()).stderr;
        assert(in_turn(parts).stderr == before + parts[k].stderr + Seq::<char>::empty());
    } else {
        let shorter = parts.drop_last();
        assert(shorter.take(k) =~= parts.take(k));
        lemma_diagnostic_appears(shorter, k);
        let (before, after) = choose|before: Seq<char>, after: Seq<char>|
            in_turn(shorter).stderr == before + shorter[k].stderr + after;
        if !in_turn(shorter).failed {
            let longer = after + parts.last().stderr;
            assert(in_turn(parts).stderr =~= before + parts[k].stderr + longer);
        }
    }
}

} // verus!
