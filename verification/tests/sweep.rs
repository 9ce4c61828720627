use prism_llae::opts::Opts;
use prism_llae::probe::HitStats;
use prism_llae::sweep::{
    csv, csv_line, fmt_from_str, fmt_label, jobs_at_rate, plan_sweep, record_job, report_device,
    report_rows, resolve_device, status_name, Figures, Outcome, Record, Status, SweepDevices,
    SweepStep, SweepWalk, Verdict, CSV_HEADER,
};
use prism_llae::sysinfo::{os_version, ram_gb, registry_string, tested_on};
use prism_llae::{
    Backend, DeviceInfo, EngineError, SampleFormat, ShareMode, StreamFormat, StreamInfo,
};

fn text(s: &str) -> String {
    s.to_string()
}

fn opts(s: &str) -> Opts {
    let args: Vec<String> = s.split_whitespace().map(String::from).collect();
    Opts::parse(&args)
}

#[test]
fn format_labels() {
    assert_eq!(fmt_label(SampleFormat::I32, 24), "i32/24");
    assert_eq!(fmt_label(SampleFormat::I32, 32), "i32");
    assert_eq!(fmt_label(SampleFormat::F32, 32), "f32");
    for f in [SampleFormat::I16, SampleFormat::I24, SampleFormat::I32, SampleFormat::F32] {
        assert_eq!(fmt_from_str(&fmt_label(f, f.bits())), Some(f));
    }
    assert_eq!(fmt_from_str("auto"), None);
    assert_eq!(fmt_from_str("I16"), None);
}

#[test]
fn devices_go_by_name_alone() {
    let d = |id: &str, name: &str, is_capture| DeviceInfo { id: text(id), name: text(name), is_capture };
    let all = vec![d("mic", "Speakers", false), d("x", "USB Mic", true), d("y", "Mic 2", true)];
    assert_eq!(resolve_device(&all, "MIC", true), Some(1));
    assert_eq!(resolve_device(&all, "mic", false), None);
}

#[test]
fn a_device_goes_by_any_part_of_its_name() {
    let name = "Ausgänge aab aaac";
    let all = vec![DeviceInfo { id: text("x"), name: text(name), is_capture: false }];
    let known = |part: &str| resolve_device(&all, part, false).is_some();
    for part in ["", "ausgänge", "gä", "aac", "c", "AAB AAA", name] {
        assert!(known(part), "{part}");
    }
    for part in ["aad", "ausgange", "ab  a", "aaaac", "ausgänge aab aaacc"] {
        assert!(!known(part), "{part}");
    }
}

#[test]
fn plans() {
    let p = plan_sweep(&opts("--asio Mini")).ok().unwrap();
    assert_eq!(p.rates, vec![44_100, 48_000, 88_200, 96_000, 176_400, 192_000]);
    assert_eq!((p.wasapi, p.ks, p.asio, p.total()), (false, false, true, 54));
    let p = plan_sweep(&opts("--in a --out b --ks-in c --ks-out d --asio e --rate 48000")).ok().unwrap();
    assert_eq!((p.rates.clone(), p.total()), (vec![48_000], 66));
    let p = plan_sweep(&opts("--in a --out b --ks-in c --rate 1")).ok().unwrap();
    assert_eq!((p.wasapi, p.ks, p.asio, p.total()), (true, false, false, 33));
    let message = |s: &str| match plan_sweep(&opts(s)) {
        Err(EngineError::Backend(s)) => s,
        _ => panic!("another outcome"),
    };
    assert_eq!(
        message("--in a --ks-out b --rate 48000"),
        "nothing to sweep: pass --out/--in (WASAPI), --ks-out/--ks-in (KS), and/or --asio"
    );
    assert_eq!(
        message("--in a --out b"),
        "multi-rate sweep needs --asio to change the device rate; or pass --rate for one rate"
    );
}

fn all_devices() -> SweepDevices {
    SweepDevices {
        wasapi_out: Some(text("wo")),
        wasapi_in: Some(text("wi")),
        ks_out: Some(text("ko")),
        ks_in: Some(text("ki")),
        asio: Some(text("drv")),
        asio_channel: 6,
    }
}

#[test]
fn jobs_of_a_rate() {
    let jobs = jobs_at_rate(&all_devices(), true, 96_000);
    assert_eq!(jobs.len(), 66);
    let j = &jobs[0];
    assert_eq!((j.mode, j.req_format, j.req_block, j.config.sample_rate), ("shared", "auto", 0, 0));
    assert_eq!(j.config.share_mode, ShareMode::Shared);
    assert_eq!(j.config.force_format, None);
    let blocks: Vec<u32> = jobs[1..9].iter().map(|j| j.req_block).collect();
    assert_eq!(blocks, vec![0, 128, 192, 256, 384, 512, 768, 1024]);
    let formats: Vec<&str> = jobs[1..33].iter().step_by(8).map(|j| j.req_format).collect();
    assert_eq!(formats, vec!["i16", "i24", "i32", "f32"]);
    let j = &jobs[17];
    assert_eq!((j.mode, j.config.sample_rate), ("exclusive", 96_000));
    assert_eq!(j.config.force_format, Some(SampleFormat::I32));
    assert_eq!(j.config.capture_device.as_deref(), Some("wi"));
    assert_eq!(j.config.render_device.as_deref(), Some("wo"));
    let j = &jobs[33];
    assert_eq!((j.backend, j.mode, j.req_format, j.req_block), (Backend::WdmKs, "-", "i16", 16));
    assert_eq!(j.config.render_device.as_deref(), Some("ko"));
    let j = &jobs[56];
    assert_eq!((j.req_format, j.req_block), ("i32", 2048));
    let j = &jobs[57];
    assert_eq!((j.backend, j.req_format, j.req_block), (Backend::Asio, "auto", 8));
    assert_eq!((j.config.input_channel, j.config.output_channel), (6, 6));
    assert_eq!(j.config.render_device.as_deref(), Some("drv"));
    assert!(j.config.capture_device.is_none());
    for j in &jobs {
        assert_eq!((j.config.backend, j.config.buffer_frames), (j.backend, j.req_block));
        assert_eq!((j.req_rate, j.config.channels), (96_000, 2));
    }
}

#[test]
fn missing_devices_leave_their_jobs_out() {
    let lost = SweepDevices { wasapi_in: None, asio: None, ..all_devices() };
    assert_eq!(jobs_at_rate(&lost, true, 48_000).len(), 24);
    assert_eq!(jobs_at_rate(&lost, false, 48_000).len(), 0);
}

#[test]
fn the_way_through_the_rates() {
    let walk = |o: &str, report: bool, bad: Option<(usize, SweepStep)>| {
        let p = plan_sweep(&opts(o)).ok().unwrap();
        let mut w = SweepWalk::new(&p);
        let mut steps = Vec::new();
        while w.step != SweepStep::Finished {
            steps.push((w.at, w.step));
            w.done(&p, report, Some((w.at, w.step)) != bad);
        }
        steps
    };
    let steps = walk("--in a --out b --rate 48000", true, None);
    let names: Vec<SweepStep> = steps.iter().map(|s| s.1).collect();
    assert_eq!(
        names,
        vec![SweepStep::Locate, SweepStep::Run, SweepStep::WriteLog, SweepStep::WriteReport]
    );
    // every rate is tuned, located and run, in order
    let steps = walk("--asio a", false, None);
    assert_eq!(steps.len(), 6 * 3 + 1);
    let runs: Vec<usize> = steps.iter().filter(|s| s.1 == SweepStep::Run).map(|s| s.0).collect();
    assert_eq!(runs, vec![0, 1, 2, 3, 4, 5]);
    // a rate that cannot be set is passed over
    let steps = walk("--asio a", false, Some((2, SweepStep::Tune)));
    let runs: Vec<usize> = steps.iter().filter(|s| s.1 == SweepStep::Run).map(|s| s.0).collect();
    assert_eq!(runs, vec![0, 1, 3, 4, 5]);
    // without a log there is no report
    let steps = walk("--asio a --rate 1", true, Some((1, SweepStep::WriteLog)));
    assert_eq!(steps.last(), Some(&(1, SweepStep::WriteLog)));
}

fn figures(h: HitStats, rate: u32) -> Figures {
    let mean = if h.count > 0 { h.sum as f64 / h.count as f64 } else { 0.0 };
    let ms = |f: f64| format!("{:.3}", f / rate.max(1) as f64 * 1000.0);
    Figures {
        mean_f: format!("{mean}"),
        min_ms: ms(h.min as f64),
        median_ms: ms(h.median as f64),
        mean_ms: ms(mean),
        max_ms: ms(h.max as f64),
    }
}

fn outcome(rate: u32, period: u32, hits: &[u32]) -> Outcome {
    Outcome {
        info: StreamInfo {
            backend: Backend::Wasapi,
            share_mode: ShareMode::Exclusive,
            capture_format: None,
            render_format: StreamFormat {
                valid_bits: 24,
                ..StreamFormat::new(rate, 2, SampleFormat::I32)
            },
            channels: 2,
            period_frames: period,
            capture_period_frames: 0,
        },
        hits: hits.to_vec(),
        misses: 1,
        delivery: text("100.0"),
        underruns: 0,
        overruns: 2,
        glitches: 3,
    }
}

fn sample_records() -> (Vec<Record>, Vec<String>) {
    let jobs = jobs_at_rate(&all_devices(), true, 48_000);
    let (mut out, mut seen) = (Vec::new(), Vec::new());
    let mut run = |i: usize, o: Result<Outcome, String>| {
        record_job(&jobs[i], 4, &o, &figures, &mut out, &mut seen)
    };
    assert_eq!(run(1, Ok(outcome(48_000, 144, &[457, 455, 456]))), Verdict::Recorded);
    // the same actual configuration again
    assert_eq!(run(2, Ok(outcome(48_000, 144, &[1]))), Verdict::Duplicate);
    // the same, but on another backend
    assert_eq!(run(33, Ok(outcome(48_000, 144, &[]))), Verdict::Recorded);
    assert_eq!(run(3, Err(text("no, not\nthis"))), Verdict::Unsupported);
    (out, seen)
}

#[test]
fn records_of_runs() {
    let (out, seen) = sample_records();
    assert_eq!(seen, vec![text("WASAPI|exclusive|48000|i32/24|144"), text("WDM/KS|-|48000|i32/24|144")]);
    assert_eq!(out.len(), 3);
    assert_eq!(out[0].status, Status::Detected);
    assert_eq!((out[0].min_f, out[0].median_f, out[0].max_f, out[0].jitter), (455, 456, 457, 2));
    assert_eq!(out[1].status, Status::Silent);
    assert_eq!((out[1].hits, out[1].min_f), (0, 0));
    assert_eq!((out[2].status, out[2].act_rate), (Status::Failed, 0));
    assert_eq!(out[2].detail, "no  not this");
    let names: Vec<&str> = out.iter().map(|r| status_name(r.status)).collect();
    assert_eq!(names, vec!["ok", "no-detect", "error"]);
}

#[test]
fn the_log() {
    let (out, _) = sample_records();
    let first = "WASAPI,exclusive,48000,i16,0,ok,48000,i32/24,144,2,4,3,1,100.0,0,2,3,455,456,456,457,9.479,9.500,9.500,9.521,2,";
    assert_eq!(csv_line(&out[0]), first);
    let second = "WDM/KS,-,48000,i16,16,no-detect,48000,i32/24,144,2,4,0,1,100.0,0,2,3,0,0,0,0,0.000,0.000,0.000,0.000,0,";
    let third = "WASAPI,exclusive,48000,i16,192,error,0,,0,2,4,0,0,0.0,0,0,0,0,0,0,0,0.000,0.000,0.000,0.000,0,no  not this";
    let log = csv(&out);
    assert_eq!(log, format!("{CSV_HEADER}\r\n{first}\r\n{second}\r\n{third}\r\n"));
    let columns = CSV_HEADER.split(',').count();
    assert_eq!(columns, 27);
    for line in log.lines() {
        assert_eq!(line.split(',').count(), columns);
    }
    assert_eq!(csv(&[]), format!("{CSV_HEADER}\r\n"));
}

#[test]
fn the_report_shows_the_successful_runs() {
    let (out, _) = sample_records();
    let rows = report_rows(&out);
    assert_eq!(rows.len(), 1);
    let r = &rows[0];
    assert_eq!((r.rate, r.backend.as_str(), r.mode.as_str()), (48_000, "WASAPI", "exclusive"));
    assert_eq!((r.req_format.as_str(), r.act_format.as_str()), ("i16", "i32/24"));
    assert_eq!((r.req_block, r.act_block, r.jitter), (0, 144, 2));
    assert_eq!((r.mean_f.as_str(), r.max_ms.as_str()), ("456", "9.521"));
}

#[test]
fn the_device_of_a_report() {
    assert_eq!(report_device(&opts("--asio a --out b")), "a");
    assert_eq!(report_device(&opts("--out b --ks-out c")), "b");
    assert_eq!(report_device(&opts("--ks-out c")), "c");
    assert_eq!(report_device(&opts("")), "unknown");
}

#[test]
fn what_it_was_tested_on() {
    assert_eq!(
        tested_on("MiniFuse", Some("Ryzen 7"), Some(32), Some("Windows 11 23H2 | Build: 22631.1")),
        vec![
            "Tested on",
            "CPU: Ryzen 7",
            "RAM: 32 GB",
            "OS: Windows 11 23H2 | Build: 22631.1",
            "Audio Device: MiniFuse",
            "Test Method: Loopback",
        ]
    );
    let lines = tested_on("x", None, None, None);
    assert_eq!(lines[1..4], ["CPU: unknown", "RAM: unknown GB", "OS: unknown"]);
}

#[test]
fn systems_and_memory() {
    assert_eq!(
        os_version(Some("22631"), Some("23H2"), Some(3447)),
        "Windows 11 23H2 | Build: 22631.3447"
    );
    assert_eq!(os_version(Some("19045"), None, None), "Windows 10  | Build: 19045.0");
    assert_eq!(os_version(Some("x"), Some("22H2"), None), "Windows 10 22H2 | Build: 0.0");
    assert_eq!(os_version(None, None, Some(1)), "Windows 10  | Build: 0.1");
    for total in [0u64, 536_870_911, 536_870_912, 34_267_783_168, 17_179_869_184, 1 << 53, u64::MAX, (1 << 62) + 12_345] {
        let want = (total as f64 / (1024.0 * 1024.0 * 1024.0)).round() as u64;
        assert_eq!(ram_gb(total), want, "{total}");
    }
}

#[test]
fn registry_strings_lose_their_end_and_their_margins() {
    let wide: Vec<u16> = "  Intel(R)  \0junk".encode_utf16().collect();
    assert_eq!(registry_string(&wide, 26), "Intel(R)");
    assert_eq!(registry_string(&wide, 10), "In");
    assert_eq!(registry_string(&wide, 0), "");
    assert_eq!(registry_string(&wide, 1), "");
}
