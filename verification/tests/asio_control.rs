use prism_llae::asio_control::{
    channel_line, driver_text, plan_session, AsioChannelInfo, DriverFacts,
};
use prism_llae::asio_lifecycle::{
    failure_error, rate_error, Control, Failure, RateChange, RateFailure, RateStep, Step,
};
use prism_llae::{Backend, EngineConfig, EngineError, SampleFormat, ShareMode};

fn facts() -> DriverFacts {
    DriverFacts {
        n_in: 6,
        n_out: 4,
        rate: 48_000,
        min_buffer: 16,
        max_buffer: 1024,
        preferred_buffer: 128,
        sample_type: 27,
    }
}

#[test]
fn default_session() {
    let s = plan_session(&EngineConfig::default(), &facts());
    assert_eq!((s.channels, s.buffer_size, s.sample_type), (2, 128, 27));
    let b: Vec<(bool, i32)> = s.buffers.iter().map(|b| (b.is_input, b.channel)).collect();
    assert_eq!(b, vec![(true, 0), (true, 1), (false, 0), (false, 1)]);
    assert_eq!((s.info.backend, s.info.share_mode), (Backend::Asio, ShareMode::Exclusive));
    let f = s.info.render_format;
    assert_eq!((f.sample_rate, f.channels, f.valid_bits), (48_000, 2, 24));
    assert_eq!(f.sample_format, SampleFormat::I32);
    assert_eq!(s.info.capture_format, Some(f));
    assert_eq!((s.info.period_frames, s.info.capture_period_frames), (128, 128));
}

#[test]
fn wishes_are_kept_within_the_driver() {
    let wish = |channels, frames, input, output| {
        let c = EngineConfig {
            channels,
            buffer_frames: frames,
            input_channel: input,
            output_channel: output,
            output_only: true,
            ..EngineConfig::default()
        };
        plan_session(&c, &facts())
    };
    let s = wish(8, 8, 9, 9);
    assert_eq!((s.channels, s.buffer_size), (4, 16));
    assert_eq!(s.buffers[0].channel, 2);
    assert_eq!(s.buffers[4].channel, 0);
    assert_eq!((s.info.capture_format, s.info.capture_period_frames), (None, 0));
    let s = wish(1, 9_999, 3, 2);
    assert_eq!((s.channels, s.buffer_size), (1, 1024));
    assert_eq!((s.buffers[0].channel, s.buffers[1].channel), (3, 2));
    assert_eq!(wish(1, 0x8000_0000, 0, 0).buffer_size, 16);
    let none = DriverFacts { n_in: 0, n_out: 0, min_buffer: 0, max_buffer: 0, preferred_buffer: 0, ..facts() };
    let s = plan_session(&EngineConfig::default(), &none);
    assert_eq!((s.channels, s.buffer_size, s.buffers.len()), (1, 1, 2));
}

#[test]
fn texts_of_the_driver() {
    assert_eq!(driver_text(b"no device\0\0junk"), "no device");
    assert_eq!(driver_text(b"whole"), "whole");
    let mut info = AsioChannelInfo::default();
    assert!(info.name.iter().all(|b| *b == 0));
    info.channel = 3;
    info.is_input = 1;
    info.name[..4].copy_from_slice(b"Mic1");
    assert_eq!(channel_line(&info), "[dbg] in  ch 3: Mic1");
    info.is_input = 0;
    assert_eq!(channel_line(&info), "[dbg] out ch 3: Mic1");
}

fn run(fail_at: Option<Step>) -> Vec<Step> {
    let mut c = Control::new();
    let mut steps = Vec::new();
    while c.step != Step::Finished {
        steps.push(c.step);
        c.done(Some(c.step) != fail_at);
    }
    steps
}

#[test]
fn a_stream_from_start_to_end() {
    assert_eq!(
        run(None),
        vec![
            Step::InitCom, Step::Pick, Step::Create, Step::InitDriver, Step::Configure, Step::CreateBuffers, Step::Publish, Step::Start,
            Step::ReportInfo, Step::Park, Step::StopDriver, Step::Unpublish, Step::Settle, Step::DisposeBuffers, Step::Release, Step::DropRuntime,
            Step::UninitCom, Step::FreeSlot,
        ]
    );
}

#[test]
fn every_failure_is_cleaned_up() {
    let tail = |at: Step| {
        let steps = run(Some(at));
        let i = steps.iter().position(|s| *s == at).unwrap();
        steps[i + 1..].to_vec()
    };
    assert_eq!(tail(Step::Pick), vec![Step::ReportError, Step::UninitCom, Step::FreeSlot]);
    assert_eq!(tail(Step::Create), vec![Step::ReportError, Step::UninitCom, Step::FreeSlot]);
    assert_eq!(tail(Step::InitDriver), vec![Step::ReadError, Step::Release, Step::ReportError, Step::UninitCom, Step::FreeSlot]);
    assert_eq!(tail(Step::CreateBuffers), vec![Step::ReadError, Step::Release, Step::ReportError, Step::UninitCom, Step::FreeSlot]);
    assert_eq!(
        tail(Step::Start),
        vec![
            Step::ReadError, Step::Unpublish, Step::DropRuntime, Step::DisposeBuffers, Step::Release, Step::ReportError, Step::UninitCom,
            Step::FreeSlot,
        ]
    );
    // exactly one report, whatever happens
    for at in [None, Some(Step::Pick), Some(Step::Create), Some(Step::InitDriver), Some(Step::CreateBuffers), Some(Step::Start)] {
        let reports = run(at).iter().filter(|s| matches!(s, Step::ReportInfo | Step::ReportError)).count();
        assert_eq!(reports, 1);
    }
}

fn backend_text(e: EngineError) -> String {
    match e {
        EngineError::Backend(s) => s,
        _ => panic!("another error"),
    }
}

#[test]
fn reported_failures() {
    let spare = || EngineError::PinNotFound;
    assert!(matches!(failure_error(Failure::Pick, 0, "", spare()), EngineError::NoDevice));
    assert!(matches!(failure_error(Failure::Create, 0, "", spare()), EngineError::PinNotFound));
    assert_eq!(
        backend_text(failure_error(Failure::InitDriver, 0, "gone", spare())),
        "ASIO init failed: gone"
    );
    assert_eq!(
        backend_text(failure_error(Failure::CreateBuffers, -997, "mode", spare())),
        "ASIO createBuffers failed (-997): mode"
    );
    assert_eq!(
        backend_text(failure_error(Failure::Start, 0, "busy", spare())),
        "ASIO start failed: busy"
    );
}

#[test]
fn rate_changes() {
    let run = |fail_at: Option<RateStep>| {
        let mut c = RateChange::new();
        let mut steps = Vec::new();
        while c.step != RateStep::Finished {
            steps.push(c.step);
            c.done(Some(c.step) != fail_at);
        }
        (steps, c.failure)
    };
    assert_eq!(
        run(None),
        (vec![RateStep::InitCom, RateStep::Pick, RateStep::Create, RateStep::InitDriver, RateStep::Ask, RateStep::Change, RateStep::Get, RateStep::Release, RateStep::UninitCom], None)
    );
    assert_eq!(run(Some(RateStep::Pick)), (vec![RateStep::InitCom, RateStep::Pick, RateStep::UninitCom], Some(RateFailure::Pick)));
    assert_eq!(run(Some(RateStep::Create)).0, vec![RateStep::InitCom, RateStep::Pick, RateStep::Create, RateStep::UninitCom]);
    assert_eq!(
        run(Some(RateStep::InitDriver)).0,
        vec![RateStep::InitCom, RateStep::Pick, RateStep::Create, RateStep::InitDriver, RateStep::ReadError, RateStep::Release, RateStep::UninitCom]
    );
    assert_eq!(
        run(Some(RateStep::Ask)),
        (vec![RateStep::InitCom, RateStep::Pick, RateStep::Create, RateStep::InitDriver, RateStep::Ask, RateStep::Release, RateStep::UninitCom], Some(RateFailure::Ask))
    );
    assert_eq!(run(Some(RateStep::Change)).1, Some(RateFailure::Change));
    let spare = || EngineError::PinNotFound;
    assert!(matches!(rate_error(RateFailure::Pick, 0, "", spare()), EngineError::NoDevice));
    assert!(matches!(rate_error(RateFailure::Create, 0, "", spare()), EngineError::PinNotFound));
    assert_eq!(
        backend_text(rate_error(RateFailure::InitDriver, 0, "x", spare())),
        "ASIO init failed: x"
    );
    match rate_error(RateFailure::Ask, 96_000, "", spare()) {
        EngineError::FormatNotSupported(s) => {
            assert_eq!(s, "ASIO driver does not support 96000 Hz")
        }
        _ => panic!("another error"),
    }
    assert_eq!(
        backend_text(rate_error(RateFailure::Change, 96_000, "", spare())),
        "ASIO setSampleRate(96000) failed"
    );
}
