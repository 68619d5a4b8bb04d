use tts_overlay::synth::{
    artifact_name, player_args, player_program, renderer_args, renderer_program, synth_step,
    SynthAction, SynthPhase,
};

fn cv(s: &str) -> Vec<char> {
    s.chars().collect()
}

fn sv(v: &[char]) -> String {
    v.iter().collect()
}

#[test]
fn artifact_name_carries_process_id() {
    assert_eq!(sv(&artifact_name(1234)), "tts_overlay_tts_1234.wav");
    assert_eq!(sv(&artifact_name(0)), "tts_overlay_tts_0.wav");
}

#[test]
fn renderer_invocation_writes_to_artifact_then_takes_text() {
    assert_eq!(sv(&renderer_program()), "espeak");
    let args = renderer_args(&cv("/tmp/out.wav"), &cv("be right back"));
    assert_eq!(args.len(), 3);
    assert_eq!(sv(&args[0]), "-w");
    assert_eq!(sv(&args[1]), "/tmp/out.wav");
    assert_eq!(sv(&args[2]), "be right back");
}

#[test]
fn player_invocation_takes_artifact_alone() {
    assert_eq!(sv(&player_program()), "paplay");
    let args = player_args(&cv("/tmp/out.wav"));
    assert_eq!(args.len(), 1);
    assert_eq!(sv(&args[0]), "/tmp/out.wav");
}

#[test]
fn successful_request_cleans_up_then_reports_success() {
    let (p1, a1) = synth_step(SynthPhase::Rendering, true);
    assert_eq!(p1, SynthPhase::Playing);
    assert_eq!(a1, SynthAction::RunPlayer);
    let (p2, a2) = synth_step(p1, true);
    assert_eq!(p2, SynthPhase::Cleaning(true));
    assert_eq!(a2, SynthAction::RemoveArtifact);
    let (p3, a3) = synth_step(p2, true);
    assert_eq!(p3, SynthPhase::Done(true));
    assert_eq!(a3, SynthAction::Report);
}

#[test]
fn failed_render_skips_playback_but_still_cleans_up() {
    let (p1, a1) = synth_step(SynthPhase::Rendering, false);
    assert_eq!(p1, SynthPhase::Cleaning(false));
    assert_eq!(a1, SynthAction::RemoveArtifact);
    let (p2, a2) = synth_step(p1, true);
    assert_eq!(p2, SynthPhase::Done(false));
    assert_eq!(a2, SynthAction::Report);
}

#[test]
fn failed_playback_cleans_up_and_reports_failure() {
    let (p1, _) = synth_step(SynthPhase::Rendering, true);
    let (p2, a2) = synth_step(p1, false);
    assert_eq!(p2, SynthPhase::Cleaning(false));
    assert_eq!(a2, SynthAction::RemoveArtifact);
    let (p3, _) = synth_step(p2, false);
    assert_eq!(p3, SynthPhase::Done(false));
}

#[test]
fn failed_cleanup_does_not_change_the_outcome() {
    let (p, a) = synth_step(SynthPhase::Cleaning(true), false);
    assert_eq!(p, SynthPhase::Done(true));
    assert_eq!(a, SynthAction::Report);
}

#[test]
fn finished_request_stays_finished() {
    let (p, a) = synth_step(SynthPhase::Done(false), true);
    assert_eq!(p, SynthPhase::Done(false));
    assert_eq!(a, SynthAction::Report);
}
