use tts_overlay::server::{
    accept_step, retry_delay_millis, shutdown_steps, socket_path_chars, startup_steps,
    AcceptAction, AcceptEvent, LifecycleStep, ACCEPT_BACKOFF_MILLIS, ACCEPT_POLL_MILLIS,
};
use tts_overlay::text::format_u32;

fn cv(s: &str) -> Vec<char> {
    s.chars().collect()
}

fn sv(v: &[char]) -> String {
    v.iter().collect()
}

#[test]
fn socket_path_prefers_runtime_directory() {
    let dir = cv("/run/user/1000");
    let path = socket_path_chars(Some(&dir), 1000);
    assert_eq!(sv(&path), "/run/user/1000/tts-overlay.sock");
}

#[test]
fn socket_path_falls_back_to_tmp_with_uid() {
    let path = socket_path_chars(None, 1000);
    assert_eq!(sv(&path), "/tmp/tts-overlay-1000.sock");
    let other = socket_path_chars(None, 0);
    assert_eq!(sv(&other), "/tmp/tts-overlay-0.sock");
}

#[test]
fn decimal_formatting_is_exact() {
    assert_eq!(sv(&format_u32(0)), "0");
    assert_eq!(sv(&format_u32(7)), "7");
    assert_eq!(sv(&format_u32(42)), "42");
    assert_eq!(sv(&format_u32(100500)), "100500");
    assert_eq!(sv(&format_u32(u32::MAX)), "4294967295");
}

#[test]
fn accept_loop_dispatches_and_retries() {
    assert_eq!(accept_step(false, AcceptEvent::Connection), AcceptAction::Dispatch);
    assert_eq!(accept_step(false, AcceptEvent::WouldBlock), AcceptAction::RetryShort);
    assert_eq!(accept_step(false, AcceptEvent::Failure), AcceptAction::RetryLong);
}

#[test]
fn cancellation_stops_the_loop_on_any_event() {
    assert_eq!(accept_step(true, AcceptEvent::Connection), AcceptAction::Stop);
    assert_eq!(accept_step(true, AcceptEvent::WouldBlock), AcceptAction::Stop);
    assert_eq!(accept_step(true, AcceptEvent::Failure), AcceptAction::Stop);
}

#[test]
fn retry_delays_are_bounded() {
    assert_eq!(retry_delay_millis(&AcceptAction::RetryShort), ACCEPT_POLL_MILLIS);
    assert_eq!(retry_delay_millis(&AcceptAction::RetryLong), ACCEPT_BACKOFF_MILLIS);
    assert_eq!(retry_delay_millis(&AcceptAction::Dispatch), 0);
    assert_eq!(retry_delay_millis(&AcceptAction::Stop), 0);
    assert!(ACCEPT_POLL_MILLIS <= ACCEPT_BACKOFF_MILLIS);
}

#[test]
fn startup_removes_stale_endpoint_before_binding() {
    let plan = startup_steps(true);
    assert_eq!(
        plan,
        vec![LifecycleStep::RemoveEndpointFile, LifecycleStep::BindEndpoint]
    );
}

#[test]
fn startup_without_stale_file_just_binds() {
    let plan = startup_steps(false);
    assert_eq!(plan, vec![LifecycleStep::BindEndpoint]);
}

#[test]
fn shutdown_removes_endpoint_after_loop_exit() {
    let plan = shutdown_steps();
    assert_eq!(
        plan,
        vec![
            LifecycleStep::SetCancelFlag,
            LifecycleStep::AwaitAcceptLoop,
            LifecycleStep::RemoveEndpointFile,
        ]
    );
    assert_eq!(plan.last(), Some(&LifecycleStep::RemoveEndpointFile));
}
