//! Socket-server decisions: endpoint path resolution, the accept-loop step,
//! and the startup and shutdown plans for the endpoint's lifecycle.
//!
//! The daemon runs the loops and touches the real socket; every decision it
//! takes — what the endpoint path is, how one accept-loop iteration reacts
//! to its event, in what order startup and shutdown handle the endpoint
//! file — is computed here.

use vstd::prelude::*;
use crate::text::{copy_chars, dec_digits, format_u32};

verus! {

/// Sleep before the next poll when an accept would block, in milliseconds.
pub const ACCEPT_POLL_MILLIS: u64 = 50;

/// Longer sleep after an unexpected accept failure, in milliseconds.
pub const ACCEPT_BACKOFF_MILLIS: u64 = 100;

/// What one non-blocking accept attempt came back with.
#[derive(Clone, Copy, Debug, PartialEq, Eq, Structural)]
pub enum AcceptEvent {
    /// A connection was accepted.
    Connection,
    /// No connection was pending.
    WouldBlock,
    /// Any other accept error.
    Failure,
}

/// What the accept loop does next.
#[derive(Clone, Copy, Debug, PartialEq, Eq, Structural)]
pub enum AcceptAction {
    /// Hand the connection to its own handler and loop again at once.
    Dispatch,
    /// Sleep for `ACCEPT_POLL_MILLIS`, then loop again.
    RetryShort,
    /// Sleep for `ACCEPT_BACKOFF_MILLIS`, then loop again.
    RetryLong,
    /// Leave the loop.
    Stop,
}

/// One accept-loop iteration: the cancellation flag alone stops the loop;
/// otherwise a connection is dispatched, a would-block pause is short, and
/// any other error backs off longer — no event ever stops the loop.
pub open spec fn accept_decision(cancelled: bool, event: AcceptEvent) -> AcceptAction {
    if cancelled {
        AcceptAction::Stop
    } else {
        match event {
            AcceptEvent::Connection => AcceptAction::Dispatch,
            AcceptEvent::WouldBlock => AcceptAction::RetryShort,
            AcceptEvent::Failure => AcceptAction::RetryLong,
        }
    }
}

pub fn accept_step(cancelled: bool, event: AcceptEvent) -> (a: AcceptAction)
    ensures
        a == accept_decision(cancelled, event),
{
    if cancelled {
        AcceptAction::Stop
    } else {
        match event {
            AcceptEvent::Connection => AcceptAction::Dispatch,
            AcceptEvent::WouldBlock => AcceptAction::RetryShort,
            AcceptEvent::Failure => AcceptAction::RetryLong,
        }
    }
}

/// Once the cancellation flag is set, the next iteration stops whatever the
/// accept attempt returned: the loop exits within one polling interval and
/// never dispatches or sleeps again.
pub proof fn lemma_cancellation_stops_accept_loop(event: AcceptEvent)
    ensures
        accept_decision(true, event) == AcceptAction::Stop,
{
}

/// How long the loop sleeps before polling again after each action; bounded
/// by the backoff interval, so cancellation is observed promptly.
pub fn retry_delay_millis(a: &AcceptAction) -> (ms: u64)
    ensures
        (a is RetryShort) ==> ms == ACCEPT_POLL_MILLIS,
        (a is RetryLong) ==> ms == ACCEPT_BACKOFF_MILLIS,
        (a is Dispatch || a is Stop) ==> ms == 0,
        ms <= ACCEPT_BACKOFF_MILLIS,
{
    match a {
        AcceptAction::RetryShort => ACCEPT_POLL_MILLIS,
        AcceptAction::RetryLong => ACCEPT_BACKOFF_MILLIS,
        AcceptAction::Dispatch => 0,
        AcceptAction::Stop => 0,
    }
}

/// One step of the endpoint's lifecycle, performed by the daemon.
#[derive(Clone, Copy, Debug, PartialEq, Eq, Structural)]
pub enum LifecycleStep {
    /// Remove the endpoint file at the resolved path.
    RemoveEndpointFile,
    /// Create, bind and set non-blocking the listening endpoint.
    BindEndpoint,
    /// Set the shared cancellation flag.
    SetCancelFlag,
    /// Wait for the accept-loop thread to observe the flag and exit.
    AwaitAcceptLoop,
}

/// The startup plan: a stale endpoint file left by a prior unclean exit is
/// always removed before binding, so rebinding succeeds instead of failing
/// with an address-in-use error; binding is always the final step, so at
/// most one bound endpoint ever exists under the path.
pub open spec fn startup_model(stale_file: bool) -> Seq<LifecycleStep> {
    if stale_file {
        seq![LifecycleStep::RemoveEndpointFile, LifecycleStep::BindEndpoint]
    } else {
        seq![LifecycleStep::BindEndpoint]
    }
}

pub fn startup_steps(stale_file: bool) -> (plan: Vec<LifecycleStep>)
    ensures
        plan@ == startup_model(stale_file),
{
    let mut plan: Vec<LifecycleStep> = Vec::new();
    if stale_file {
        plan.push(LifecycleStep::RemoveEndpointFile);
    }
    plan.push(LifecycleStep::BindEndpoint);
    proof {
        assert(plan@ =~= startup_model(stale_file));
    }
    plan
}

/// The shutdown plan: set the cancellation flag, wait for the accept loop
/// to exit, then remove the endpoint file — so once shutdown completes the
/// file no longer exists. In-flight connection handlers are not waited on.
pub open spec fn shutdown_model() -> Seq<LifecycleStep> {
    seq![
        LifecycleStep::SetCancelFlag,
        LifecycleStep::AwaitAcceptLoop,
        LifecycleStep::RemoveEndpointFile,
    ]
}

pub fn shutdown_steps() -> (plan: Vec<LifecycleStep>)
    ensures
        plan@ == shutdown_model(),
{
    let mut plan: Vec<LifecycleStep> = Vec::new();
    plan.push(LifecycleStep::SetCancelFlag);
    plan.push(LifecycleStep::AwaitAcceptLoop);
    plan.push(LifecycleStep::RemoveEndpointFile);
    proof {
        assert(plan@ =~= shutdown_model());
    }
    plan
}

/// Whatever the prior state of the path, startup always ends with the bind,
/// and a stale endpoint file is removed before it: rebinding over a prior
/// unclean exit succeeds instead of failing with an address-in-use error.
pub proof fn lemma_startup_clears_stale_before_rebind(stale_file: bool)
    ensures
        startup_model(stale_file).last() == LifecycleStep::BindEndpoint,
        stale_file ==> startup_model(stale_file).first() == LifecycleStep::RemoveEndpointFile,
{
}

/// Shutdown's final step removes the endpoint file: once shutdown completes
/// the file no longer exists, and only after the accept loop was seen to
/// exit.
pub proof fn lemma_shutdown_removes_endpoint_last()
    ensures
        shutdown_model().last() == LifecycleStep::RemoveEndpointFile,
        shutdown_model().first() == LifecycleStep::SetCancelFlag,
{
}

/// The endpoint file's name under the runtime directory.
pub open spec fn sock_file_name() -> Seq<char> {
    seq!['t', 't', 's', '-', 'o', 'v', 'e', 'r', 'l', 'a', 'y', '.', 's', 'o', 'c', 'k']
}

/// The shared-temporary-directory fallback path up to the user id.
pub open spec fn tmp_sock_prefix() -> Seq<char> {
    seq!['/', 't', 'm', 'p', '/', 't', 't', 's', '-', 'o', 'v', 'e', 'r', 'l', 'a', 'y', '-']
}

/// The fallback path's extension.
pub open spec fn sock_suffix() -> Seq<char> {
    seq!['.', 's', 'o', 'c', 'k']
}

fn push_sock_file_name(out: &mut Vec<char>)
    ensures
        final(out)@ == old(out)@ + sock_file_name(),
{
    let ghost base = out@;
    out.push('t');
    out.push('t');
    out.push('s');
    out.push('-');
    out.push('o');
    out.push('v');
    out.push('e');
    out.push('r');
    out.push('l');
    out.push('a');
    out.push('y');
    out.push('.');
    out.push('s');
    out.push('o');
    out.push('c');
    out.push('k');
    proof {
        assert(out@ =~= base + sock_file_name());
    }
}

fn push_tmp_sock_prefix(out: &mut Vec<char>)
    ensures
        final(out)@ == old(out)@ + tmp_sock_prefix(),
{
    let ghost base = out@;
    out.push('/');
    out.push('t');
    out.push('m');
    out.push('p');
    out.push('/');
    out.push('t');
    out.push('t');
    out.push('s');
    out.push('-');
    out.push('o');
    out.push('v');
    out.push('e');
    out.push('r');
    out.push('l');
    out.push('a');
    out.push('y');
    out.push('-');
    proof {
        assert(out@ =~= base + tmp_sock_prefix());
    }
}

/// Resolves the endpoint path: `<runtime-dir>/tts-overlay.sock` when a
/// runtime directory is configured, else a path in the shared temporary
/// directory disambiguated by the invoking user's numeric identity, so
/// users on the same machine never collide.
pub fn socket_path_chars(runtime_dir: Option<&Vec<char>>, uid: u32) -> (out: Vec<char>)
    ensures
        (runtime_dir matches Some(d) ==> out@ == d@ + seq!['/'] + sock_file_name()),
        (runtime_dir is None ==> out@ == tmp_sock_prefix() + dec_digits(uid as int)
            + sock_suffix()),
{
    match runtime_dir {
        Some(d) => {
            let mut out = copy_chars(d);
            out.push('/');
            proof {
                assert(out@ =~= d@ + seq!['/']);
            }
            push_sock_file_name(&mut out);
            out
        },
        None => {
            let mut out: Vec<char> = Vec::new();
            proof {
                assert(out@ =~= Seq::<char>::empty() + Seq::<char>::empty());
            }
            push_tmp_sock_prefix(&mut out);
            proof {
                assert(out@ =~= tmp_sock_prefix());
            }
            let digits = format_u32(uid);
            crate::text::append_chars(&mut out, &digits);
            out.push('.');
            out.push('s');
            out.push('o');
            out.push('c');
            out.push('k');
            proof {
                assert(out@ =~= tmp_sock_prefix() + dec_digits(uid as int) + sock_suffix());
            }
            out
        },
    }
}

} // verus!
