//! The synthesis plan: what to hand the external renderer and player, and
//! the per-request control that guarantees the temporary audio artifact is
//! removed on every exit path.
//!
//! Per request the daemon renders the utterance to a temporary audio file
//! with one external tool, plays the file with another, and deletes the
//! file whether or not either tool succeeded. The argument lists, the
//! artifact's name and the order of those steps are computed and proved
//! here; the daemon only spawns the processes and reports the outcome.

use vstd::prelude::*;
use crate::text::{copy_chars, dec_digits, format_u32};

verus! {

/// The external speech renderer's program name.
pub open spec fn renderer_program_name() -> Seq<char> {
    seq!['e', 's', 'p', 'e', 'a', 'k']
}

/// The external audio player's program name.
pub open spec fn player_program_name() -> Seq<char> {
    seq!['p', 'a', 'p', 'l', 'a', 'y']
}

/// The artifact file name's stem, before the process id.
pub open spec fn artifact_prefix() -> Seq<char> {
    seq!['t', 't', 's', '_', 'o', 'v', 'e', 'r', 'l', 'a', 'y', '_', 't', 't', 's', '_']
}

/// The artifact file name's extension.
pub open spec fn wav_suffix() -> Seq<char> {
    seq!['.', 'w', 'a', 'v']
}

/// The temporary artifact's file name, disambiguated by the daemon's own
/// process identity so concurrent daemons never collide.
pub open spec fn artifact_name_model(pid: int) -> Seq<char> {
    artifact_prefix() + dec_digits(pid) + wav_suffix()
}

pub fn renderer_program() -> (out: Vec<char>)
    ensures
        out@ == renderer_program_name(),
{
    let mut out: Vec<char> = Vec::new();
    out.push('e');
    out.push('s');
    out.push('p');
    out.push('e');
    out.push('a');
    out.push('k');
    proof {
        assert(out@ =~= renderer_program_name());
    }
    out
}

pub fn player_program() -> (out: Vec<char>)
    ensures
        out@ == player_program_name(),
{
    let mut out: Vec<char> = Vec::new();
    out.push('p');
    out.push('a');
    out.push('p');
    out.push('l');
    out.push('a');
    out.push('y');
    proof {
        assert(out@ =~= player_program_name());
    }
    out
}

/// Names the temporary artifact for the process with the given id.
pub fn artifact_name(pid: u32) -> (out: Vec<char>)
    ensures
        out@ == artifact_name_model(pid as int),
{
    let mut out: Vec<char> = Vec::new();
    out.push('t');
    out.push('t');
    out.push('s');
    out.push('_');
    out.push('o');
    out.push('v');
    out.push('e');
    out.push('r');
    out.push('l');
    out.push('a');
    out.push('y');
    out.push('_');
    out.push('t');
    out.push('t');
    out.push('s');
    out.push('_');
    proof {
        assert(out@ =~= artifact_prefix());
    }
    let digits = format_u32(pid);
    crate::text::append_chars(&mut out, &digits);
    out.push('.');
    out.push('w');
    out.push('a');
    out.push('v');
    proof {
        assert(out@ =~= artifact_name_model(pid as int));
    }
    out
}

/// The renderer's argument list: the write-output option with the artifact
/// path, then the raw rendered utterance as the final argument.
pub fn renderer_args(artifact: &Vec<char>, utterance: &Vec<char>) -> (args: Vec<Vec<char>>)
    ensures
        args@.len() == 3,
        args@[0]@ == seq!['-', 'w'],
        args@[1]@ == artifact@,
        args@[2]@ == utterance@,
{
    let mut flag: Vec<char> = Vec::new();
    flag.push('-');
    flag.push('w');
    proof {
        assert(flag@ =~= seq!['-', 'w']);
    }
    let mut args: Vec<Vec<char>> = Vec::new();
    args.push(flag);
    args.push(copy_chars(artifact));
    args.push(copy_chars(utterance));
    args
}

/// The player's argument list: the artifact path alone.
pub fn player_args(artifact: &Vec<char>) -> (args: Vec<Vec<char>>)
    ensures
        args@.len() == 1,
        args@[0]@ == artifact@,
{
    let mut args: Vec<Vec<char>> = Vec::new();
    args.push(copy_chars(artifact));
    args
}

/// Where one request stands in the synthesis pipeline. A `bool` carries
/// whether the request has succeeded so far.
#[derive(Clone, Copy, Debug, PartialEq, Eq, Structural)]
pub enum SynthPhase {
    /// The renderer is being run.
    Rendering,
    /// Rendering succeeded; the player is being run.
    Playing,
    /// Both tool runs are over; the artifact is being removed.
    Cleaning(bool),
    /// The request is over, successfully or not.
    Done(bool),
}

/// What the daemon does next for this request.
#[derive(Clone, Copy, Debug, PartialEq, Eq, Structural)]
pub enum SynthAction {
    /// Run the player on the artifact.
    RunPlayer,
    /// Remove the artifact, best effort.
    RemoveArtifact,
    /// Report the outcome to the connection handler and stop.
    Report,
}

/// One step of the pipeline, fed with whether the step just performed
/// succeeded. A failed render skips playback; cleaning happens regardless of
/// either tool's outcome, and its own result is ignored (deletion is best
/// effort); failures are reported once, never retried.
pub open spec fn synth_next(phase: SynthPhase, ok: bool) -> (SynthPhase, SynthAction) {
    match phase {
        SynthPhase::Rendering => if ok {
            (SynthPhase::Playing, SynthAction::RunPlayer)
        } else {
            (SynthPhase::Cleaning(false), SynthAction::RemoveArtifact)
        },
        SynthPhase::Playing => (SynthPhase::Cleaning(ok), SynthAction::RemoveArtifact),
        SynthPhase::Cleaning(outcome) => (SynthPhase::Done(outcome), SynthAction::Report),
        SynthPhase::Done(outcome) => (SynthPhase::Done(outcome), SynthAction::Report),
    }
}

pub fn synth_step(phase: SynthPhase, ok: bool) -> (r: (SynthPhase, SynthAction))
    ensures
        r == synth_next(phase, ok),
{
    match phase {
        SynthPhase::Rendering => if ok {
            (SynthPhase::Playing, SynthAction::RunPlayer)
        } else {
            (SynthPhase::Cleaning(false), SynthAction::RemoveArtifact)
        },
        SynthPhase::Playing => (SynthPhase::Cleaning(ok), SynthAction::RemoveArtifact),
        SynthPhase::Cleaning(outcome) => (SynthPhase::Done(outcome), SynthAction::Report),
        SynthPhase::Done(outcome) => (SynthPhase::Done(outcome), SynthAction::Report),
    }
}

/// The phase reached from the start of a request after the given step
/// outcomes.
pub open spec fn synth_run(events: Seq<bool>) -> SynthPhase
    decreases events.len(),
{
    if events.len() == 0 {
        SynthPhase::Rendering
    } else {
        synth_next(synth_run(events.drop_last()), events.last()).0
    }
}

/// A request never finishes without first cleaning up: the only way into
/// `Done` is through `Cleaning`, so the artifact is removed on every exit
/// path, success or failure.
pub proof fn lemma_no_finish_without_cleanup(phase: SynthPhase, ok: bool)
    ensures
        (synth_next(phase, ok).0 is Done) ==> (phase is Cleaning || phase is Done),
{
}

/// Any three step outcomes finish the request; it succeeds exactly when
/// rendering and playback both succeeded, and the cleanup step was taken
/// on the way whether they did or not.
pub proof fn lemma_synthesis_outcome(render_ok: bool, play_ok: bool, last: bool)
    ensures
        synth_run(seq![render_ok, play_ok, last]) == SynthPhase::Done(render_ok && play_ok),
        synth_run(seq![render_ok]) is Cleaning || synth_run(seq![render_ok, play_ok]) is Cleaning,
{
    let e3 = seq![render_ok, play_ok, last];
    let e2 = seq![render_ok, play_ok];
    let e1 = seq![render_ok];
    assert(e3.drop_last() =~= e2);
    assert(e2.drop_last() =~= e1);
    assert(e1.drop_last() =~= Seq::<bool>::empty());
    assert(synth_run(Seq::<bool>::empty()) == SynthPhase::Rendering);
    assert(e1.last() == render_ok);
    assert(synth_run(e1) == synth_next(SynthPhase::Rendering, render_ok).0);
    assert(synth_run(e2) == synth_next(synth_run(e1), play_ok).0);
    assert(synth_run(e3) == synth_next(synth_run(e2), last).0);
}

} // verus!
