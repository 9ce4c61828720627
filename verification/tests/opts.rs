use prism_llae::opts::{
    backend_name, command, find_device, listing, stream_banner, Command, Opts,
};
use prism_llae::{
    Backend, DeviceInfo, EngineError, SampleFormat, ShareMode, StreamFormat, StreamInfo,
};

fn args(s: &str) -> Vec<String> {
    s.split_whitespace().map(String::from).collect()
}

fn opts(s: &str) -> Opts {
    Opts::parse(&args(s))
}

fn devices() -> Vec<DeviceInfo> {
    let d = |id: &str, name: &str, is_capture| DeviceInfo {
        id: id.to_string(),
        name: name.to_string(),
        is_capture,
    };
    vec![
        d("{0.0.0}.a", "Speakers (Realtek)", false),
        d("{0.0.1}.b", "Virtual 7/8", false),
        d("{0.1.0}.c", "Microphone", true),
        d("{0.1.1}.d", "Loopback Main 7/8", true),
    ]
}

#[test]
fn commands() {
    assert_eq!(command(&args("list --backend ks")), Command::List);
    assert_eq!(command(&args("monitor")), Command::Monitor);
    assert_eq!(command(&args("latency")), Command::Latency);
    assert_eq!(command(&args("sweep")), Command::Sweep);
    for s in ["", "help", "--help", "-h"] {
        assert_eq!(command(&args(s)), Command::Help);
    }
    assert_eq!(command(&args("List")), Command::Unknown);
}

#[test]
fn options_without_arguments() {
    let o = opts("latency");
    assert_eq!((o.backend, o.mode), (Backend::Wasapi, ShareMode::Shared));
    assert_eq!((o.rate, o.channels, o.frames, o.seconds), (0, 0, 0, 0));
    assert_eq!((o.trials, o.in_ch, o.out_ch), (10, 0, 0));
    assert_eq!(o.csv, "sweep.csv");
    assert!(o.gain.is_none() && o.report.is_none() && o.asio_sel.is_none());
    assert!(o.in_sel.is_none() && o.out_sel.is_none() && o.ks_in.is_none() && o.ks_out.is_none());
}

#[test]
fn every_option_is_read() {
    let o = opts(
        "sweep --backend wdm --mode excl --rate 96000 --channels 4 --frames +64 --gain 0.5 \
         --trials 7 --seconds 3 --in Mic --out Spk --ks-in ki --ks-out ko --in-ch 5 --out-ch 6 \
         --csv log.csv --report r.xlsx --asio Mini",
    );
    assert_eq!((o.backend, o.mode), (Backend::WdmKs, ShareMode::Exclusive));
    assert_eq!((o.rate, o.channels, o.frames, o.seconds), (96_000, 4, 64, 3));
    assert_eq!((o.trials, o.in_ch, o.out_ch), (7, 5, 6));
    assert_eq!(o.gain.as_deref(), Some("0.5"));
    assert_eq!((o.in_sel.as_deref(), o.out_sel.as_deref()), (Some("Mic"), Some("Spk")));
    assert_eq!((o.ks_in.as_deref(), o.ks_out.as_deref()), (Some("ki"), Some("ko")));
    assert_eq!((o.csv.as_str(), o.report.as_deref()), ("log.csv", Some("r.xlsx")));
    assert_eq!(o.asio_sel.as_deref(), Some("Mini"));
}

#[test]
fn numbers_that_do_not_read_fall_back() {
    assert_eq!(opts("--rate x").rate, 0);
    assert_eq!(opts("--rate -5").rate, 0);
    assert_eq!(opts("--rate 4294967295").rate, u32::MAX);
    assert_eq!(opts("--rate 4294967296").rate, 0);
    assert_eq!(opts("--channels 65536").channels, 0);
    assert_eq!(opts("--trials").trials, 10);
    assert_eq!(opts("--trials 1_0").trials, 10);
    assert_eq!(opts("--trials +").trials, 10);
    assert_eq!(opts("--frames 007").frames, 7);
    assert_eq!(opts("--rate 99999999999999999999999").rate, 0);
}

#[test]
fn a_flag_takes_the_next_word_and_the_last_one_wins() {
    assert_eq!(opts("--in --out x").in_sel.as_deref(), Some("--out"));
    assert!(opts("--in --out x").out_sel.is_none());
    assert_eq!(opts("--in").in_sel.as_deref(), Some(""));
    assert_eq!(opts("--rate 1 --rate 2").rate, 2);
    assert_eq!(opts("--backend asio --backend foo").backend, Backend::Wasapi);
    assert_eq!(opts("--mode exclusive").mode, ShareMode::Exclusive);
    assert_eq!(opts("--mode x").mode, ShareMode::Shared);
}

#[test]
fn devices_are_found_by_a_part_of_id_or_name() {
    let d = devices();
    assert_eq!(find_device(&d, "virtual", false), Some(1));
    assert_eq!(find_device(&d, "7/8", true), Some(3));
    assert_eq!(find_device(&d, "}.A", false), Some(0));
    assert_eq!(find_device(&d, "micro", false), None);
    assert_eq!(find_device(&d, "", true), Some(2));
}

#[test]
fn configurations() {
    let d = devices();
    let o = opts("latency --in LOOPBACK --out virtual --rate 48000 --frames 128 --in-ch 1 --out-ch 2");
    assert!(o.needs_devices());
    let r = o.resolve_devices(&d);
    assert_eq!((r.capture, r.render), (Some(3), Some(1)));
    let c = o.config(&d);
    assert_eq!(c.capture_device.as_deref(), Some("{0.1.1}.d"));
    assert_eq!(c.render_device.as_deref(), Some("{0.0.1}.b"));
    assert_eq!((c.sample_rate, c.buffer_frames), (48_000, 128));
    assert_eq!((c.input_channel, c.output_channel), (1, 2));
    assert!(c.force_format.is_none() && !c.output_only);

    let c = opts("latency --out nothing --in mic").config(&d);
    assert_eq!((c.render_device, c.capture_device.as_deref()), (None, Some("{0.1.0}.c")));
    let o = opts("latency --backend asio --asio MiniFuse");
    assert!(!o.needs_devices());
    assert_eq!(o.config(&[]).render_device.as_deref(), Some("MiniFuse"));
    let c = opts("latency --asio MiniFuse --out virtual").config(&d);
    assert_eq!(c.render_device.as_deref(), Some("{0.0.1}.b"));
}

#[test]
fn devices_have_to_be_named() {
    let message = |s: &str| match opts(s).require_devices() {
        Ok(()) => "ok".to_string(),
        Err(EngineError::Backend(s)) => s,
        Err(_) => panic!("another error"),
    };
    assert_eq!(message("--in a --out b"), "ok");
    assert_eq!(message("--in a"), "specify both --in and --out device names");
    assert_eq!(message("--backend ks --out a"), "specify both --in and --out device names");
    assert_eq!(message("--backend asio --asio a"), "ok");
    assert_eq!(message("--backend asio --out a"), "ok");
    assert_eq!(
        message("--backend asio --in a"),
        "ASIO needs a driver name: pass --asio <driver> (or --out <driver>)"
    );
}

#[test]
fn listings() {
    assert_eq!(backend_name(Backend::WdmKs), "WDM/KS");
    let d = devices();
    assert_eq!(
        listing(Backend::Wasapi, &d[1..3]),
        "WASAPI endpoints:\n  [out] Virtual 7/8\n        id: {0.0.1}.b\n  [in ] Microphone\n        id: {0.1.0}.c\n"
    );
    assert_eq!(listing(Backend::Asio, &[]), "ASIO endpoints:\n");
}

#[test]
fn banners() {
    let f = StreamFormat::new(48_000, 2, SampleFormat::F32);
    let mut info = StreamInfo {
        backend: Backend::Wasapi,
        share_mode: ShareMode::Shared,
        capture_format: Some(StreamFormat::new(48_000, 1, SampleFormat::I16)),
        render_format: f,
        channels: 2,
        period_frames: 480,
        capture_period_frames: 448,
    };
    assert_eq!(
        stream_banner(&info, "19.33"),
        "engine: WASAPI (shared)\n  capture: 48000 Hz, 1 ch, i16\n  render : 48000 Hz, 2 ch, f32\n  period : 480 frames (render), 448 frames (capture)\n  engine buffering: ~19.33 ms one-way"
    );
    info.capture_format = None;
    info.capture_period_frames = 0;
    info.share_mode = ShareMode::Exclusive;
    assert!(stream_banner(&info, "10.00")
        .starts_with("engine: WASAPI (exclusive)\n  capture: none (render-only)\n"));
}
