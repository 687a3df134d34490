use openmeters::capture::{CaptureView, PublicState};
use openmeters::links::{OwnedLinks, RESOURCE_RETRY_MIN_NS};
use openmeters::routing::{CaptureConfig, CaptureMode};
use openmeters::session::{
    absorb_command, follow_selected_device, open_wait, CaptureSchedule, Command, CommandPoll,
    Retry, SessionBackoff, StreamStatus, SESSION_RETRY_MAX_NS, SESSION_RETRY_MIN_NS,
};
use std::sync::Arc;
use openmeters::session::{
    registry_iteration, session_command, session_iteration, IterationVerdict, PassAction,
    PassEvent, SessionStep,
};
use openmeters::routing::StreamIdentity;

const SECOND: u64 = 1_000_000_000;

fn device_config(device: &str) -> CaptureConfig {
    CaptureConfig {
        mode: CaptureMode::Device,
        device: Some(device.into()),
        disabled_streams: Vec::new(),
    }
}

#[test]
fn waits_settle_on_the_latest_configuration() {
    assert_eq!(open_wait(CommandPoll::Empty).err(), Some(Retry::Timeout));
    assert_eq!(open_wait(CommandPoll::Disconnected).err(), Some(Retry::Stop));
    assert_eq!(
        open_wait(CommandPoll::Received(Command::Shutdown)).err(),
        Some(Retry::Stop)
    );
    let mut next = open_wait(CommandPoll::Received(Command::Configure(device_config("a"))))
        .ok()
        .expect("a configuration opens the wait");
    assert_eq!(next.device.as_deref(), Some("a"));

    assert_eq!(
        absorb_command(
            &mut next,
            CommandPoll::Received(Command::Configure(device_config("b")))
        ),
        None
    );
    assert_eq!(next.device.as_deref(), Some("b"));
    assert_eq!(absorb_command(&mut next, CommandPoll::Empty), Some(Retry::Configured));
    assert_eq!(next.device.as_deref(), Some("b"));
    assert_eq!(
        absorb_command(&mut next, CommandPoll::Received(Command::Shutdown)),
        Some(Retry::Stop)
    );
    assert_eq!(absorb_command(&mut next, CommandPoll::Disconnected), Some(Retry::Stop));
}

#[test]
fn session_back_off_doubles_to_its_maximum_and_resets() {
    let mut backoff = SessionBackoff::new();
    assert_eq!(backoff.session_failed(false), (SESSION_RETRY_MIN_NS, true));
    assert_eq!(backoff.session_failed(false), (2 * SESSION_RETRY_MIN_NS, false));
    for _ in 0..10 {
        backoff.session_failed(false);
    }
    assert_eq!(backoff.retry_delay, SESSION_RETRY_MAX_NS);
    assert_eq!(backoff.session_failed(false), (SESSION_RETRY_MAX_NS, false));

    backoff.wait_ended(Retry::Timeout);
    assert_eq!(backoff.retry_delay, SESSION_RETRY_MAX_NS);
    backoff.wait_ended(Retry::Configured);
    assert_eq!(backoff.retry_delay, SESSION_RETRY_MIN_NS);
    assert!(backoff.outage);

    backoff.session_failed(false);
    assert_eq!(backoff.session_failed(true), (SESSION_RETRY_MIN_NS, true));
    assert_eq!(backoff.retry_delay, 2 * SESSION_RETRY_MIN_NS);
}

#[test]
fn capture_reconciliation_preserves_retry_and_publication_boundaries() {
    let now = 100 * SECOND;
    let deadline = now + RESOURCE_RETRY_MIN_NS;
    let mut schedule = CaptureSchedule::new();
    let mut links = OwnedLinks::new();
    let mut public = PublicState::new();

    schedule.stream_retry_at = Some(deadline);
    let initial = public.view();
    schedule.observe_status(None, &mut links, deadline - 1);
    assert!(!schedule.begin_pass(&links, deadline - 1));
    assert!(schedule.dirty);
    assert!(Arc::ptr_eq(&initial, &public.view()));

    assert!(schedule.begin_pass(&links, deadline));
    schedule.stream_configured();
    assert_eq!(schedule.stream_retry_at, None);
    public.publish(CaptureView {
        default_sink: "sink".into(),
        ..Default::default()
    });
    assert!(!Arc::ptr_eq(&initial, &public.view()));

    for status in [StreamStatus::Paused, StreamStatus::Streaming] {
        schedule.dirty = true;
        schedule.stream_retry_at = Some(deadline);
        schedule.stream_retry_delay = 8 * SECOND;
        assert!(!schedule.observe_status(Some(status), &mut links, now));
        assert!(!schedule.begin_pass(&links, now));
        assert_eq!(schedule.stream_retry_delay, RESOURCE_RETRY_MIN_NS);
        assert_eq!(schedule.stream_retry_at, Some(deadline));
        assert!(schedule.dirty);
    }
    for status in [StreamStatus::Failed, StreamStatus::Stopped] {
        let published = public.view();
        links.retry_at = Some(now);
        links.retry_delay = 8 * SECOND;
        schedule.stream_retry_delay = 8 * SECOND;
        schedule.dirty = false;
        assert!(schedule.observe_status(Some(status), &mut links, now));
        assert!(!schedule.begin_pass(&links, now));
        assert_eq!(links.retry_at, None);
        assert_eq!(links.retry_delay, RESOURCE_RETRY_MIN_NS);
        assert_eq!(schedule.stream_retry_at, Some(now + 8 * SECOND));
        assert_eq!(schedule.stream_retry_delay, 16 * SECOND);

        assert!(!schedule.observe_status(None, &mut links, now + SECOND));
        assert!(!schedule.begin_pass(&links, now + SECOND));
        assert_eq!(schedule.stream_retry_at, Some(now + 8 * SECOND));
        assert_eq!(schedule.stream_retry_delay, 16 * SECOND);
        assert!(schedule.dirty);
        assert!(Arc::ptr_eq(&published, &public.view()));

        schedule.dirty = false;
        schedule.configuration_changed();
        assert_eq!(schedule.stream_retry_at, None);
        assert_eq!(schedule.stream_retry_delay, RESOURCE_RETRY_MIN_NS);
        assert!(schedule.dirty);
        assert!(schedule.begin_pass(&links, now));
        schedule.stream_configured();
    }

    assert!(!schedule.begin_pass(&links, now));
    let published = public.view();
    links.retry_at = Some(deadline);
    assert!(!schedule.begin_pass(&links, now));
    assert!(Arc::ptr_eq(&published, &public.view()));
    assert!(schedule.begin_pass(&links, deadline));
    let step = links.apply(&Vec::new(), Vec::new(), deadline);
    assert!(step.create.is_empty());
    assert_eq!(links.retry_at, None);
    public.publish(CaptureView {
        default_sink: "unpublished".into(),
        ..Default::default()
    });
    assert!(!Arc::ptr_eq(&published, &public.view()));
}

#[test]
fn configuration_follows_the_selected_device() {
    let mut config = CaptureConfig::default();
    follow_selected_device(&mut config, &CaptureView::default());
    assert_eq!(config.device, None);
    follow_selected_device(
        &mut config,
        &CaptureView {
            selected_device: Some("Speakers".into()),
            ..Default::default()
        },
    );
    assert_eq!(config.device.as_deref(), Some("Speakers"));
    assert_eq!(config.mode, CaptureMode::Applications);
    follow_selected_device(&mut config, &CaptureView::default());
    assert_eq!(config.device.as_deref(), Some("Speakers"));
}

#[test]
fn main_loops_pause_longer_after_each_failure_and_give_up() {
    let mut errors = 0;
    let pauses: Vec<_> = (0..9).map(|_| session_iteration(&mut errors, true)).collect();
    assert_eq!(
        pauses,
        vec![
            IterationVerdict::Pause(50),
            IterationVerdict::Pause(100),
            IterationVerdict::Pause(200),
            IterationVerdict::Pause(400),
            IterationVerdict::Pause(800),
            IterationVerdict::Pause(800),
            IterationVerdict::Pause(800),
            IterationVerdict::Pause(800),
            IterationVerdict::Pause(800),
        ]
    );
    assert_eq!(session_iteration(&mut errors, true), IterationVerdict::GiveUp);

    let mut errors = 3;
    assert_eq!(session_iteration(&mut errors, false), IterationVerdict::Continue);
    assert_eq!(errors, 0);

    let mut errors = 0;
    assert_eq!(registry_iteration(&mut errors, true), IterationVerdict::Pause(100));
    assert_eq!(registry_iteration(&mut errors, true), IterationVerdict::Pause(200));
    let mut errors = 5;
    assert_eq!(registry_iteration(&mut errors, true), IterationVerdict::Pause(800));
    let mut errors = 9;
    assert_eq!(registry_iteration(&mut errors, true), IterationVerdict::GiveUp);
}

#[test]
fn a_session_takes_only_configurations_that_change_something() {
    let mut config = device_config("alsa_output.usb");

    let same = device_config("alsa_output.usb");
    assert_eq!(
        session_command(&mut config, CommandPoll::Received(Command::Configure(same))),
        SessionStep::Configured(false)
    );
    assert_eq!(config.device.as_deref(), Some("alsa_output.usb"));

    let other = device_config("alsa_output.hdmi");
    assert_eq!(
        session_command(&mut config, CommandPoll::Received(Command::Configure(other))),
        SessionStep::Configured(true)
    );
    assert_eq!(config.device.as_deref(), Some("alsa_output.hdmi"));

    let mut muted = device_config("alsa_output.hdmi");
    muted.disabled_streams.push(StreamIdentity::new("firefox"));
    assert_eq!(
        session_command(&mut config, CommandPoll::Received(Command::Configure(muted))),
        SessionStep::Configured(true)
    );
    assert_eq!(config.disabled_streams.len(), 1);

    assert_eq!(session_command(&mut config, CommandPoll::Empty), SessionStep::Idle);
    assert_eq!(
        session_command(&mut config, CommandPoll::Received(Command::Shutdown)),
        SessionStep::Stop
    );
    assert_eq!(session_command(&mut config, CommandPoll::Disconnected), SessionStep::Stop);
    assert_eq!(config.device.as_deref(), Some("alsa_output.hdmi"));
    assert_eq!(config.disabled_streams.len(), 1);
}

#[test]
fn configurations_compare_by_what_they_say() {
    let mut a = device_config("sink");
    let mut b = device_config("sink");
    assert!(a.same_as(&b));
    a.disabled_streams.push(StreamIdentity::new("mpv"));
    assert!(!a.same_as(&b));
    b.disabled_streams.push(StreamIdentity::new("mpv"));
    assert!(a.same_as(&b));
    b.mode = CaptureMode::Applications;
    assert!(!a.same_as(&b));
    b.mode = CaptureMode::Device;
    b.device = None;
    assert!(!a.same_as(&b));
}

#[test]
fn a_reconcile_pass_checks_the_stream_then_links() {
    let mut schedule = CaptureSchedule::new();
    let mut links = OwnedLinks::new();
    let now = 10 * SECOND;

    assert_eq!(
        schedule.pass_step(&mut links, PassEvent::Begin(Some(StreamStatus::Streaming)), now),
        PassAction::CheckPlan { reset_stream: false }
    );
    assert!(!schedule.dirty);
    assert_eq!(
        schedule.pass_step(&mut links, PassEvent::PlanChecked(true), now),
        PassAction::Link
    );

    assert_eq!(
        schedule.pass_step(&mut links, PassEvent::Begin(Some(StreamStatus::Streaming)), now),
        PassAction::Stop { reset_stream: false }
    );

    schedule.configuration_changed();
    assert_eq!(
        schedule.pass_step(&mut links, PassEvent::Begin(None), now),
        PassAction::CheckPlan { reset_stream: false }
    );
    assert_eq!(
        schedule.pass_step(&mut links, PassEvent::PlanChecked(false), now),
        PassAction::Reconfigure
    );
    assert_eq!(
        schedule.pass_step(&mut links, PassEvent::Configured(false), now),
        PassAction::GiveUp
    );
    assert_eq!(schedule.stream_retry_at, Some(now + RESOURCE_RETRY_MIN_NS));
    assert_eq!(schedule.stream_retry_delay, 2 * RESOURCE_RETRY_MIN_NS);

    assert_eq!(
        schedule.pass_step(&mut links, PassEvent::Begin(None), now + 1),
        PassAction::Stop { reset_stream: false }
    );
    let later = now + RESOURCE_RETRY_MIN_NS;
    assert_eq!(
        schedule.pass_step(&mut links, PassEvent::Begin(None), later),
        PassAction::CheckPlan { reset_stream: false }
    );
    assert_eq!(
        schedule.pass_step(&mut links, PassEvent::PlanChecked(false), later),
        PassAction::Reconfigure
    );
    assert_eq!(
        schedule.pass_step(&mut links, PassEvent::Configured(true), later),
        PassAction::Link
    );
    assert_eq!(schedule.stream_retry_at, None);

    assert_eq!(
        schedule.pass_step(&mut links, PassEvent::Begin(Some(StreamStatus::Failed)), later),
        PassAction::Stop { reset_stream: true }
    );
    assert!(schedule.dirty);
    assert_eq!(schedule.stream_retry_at, Some(later + 2 * RESOURCE_RETRY_MIN_NS));
}
