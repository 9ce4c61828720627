//! The command line of the latency test: commands, options, and how devices are
//! selected by name.

use vstd::prelude::*;

use crate::engine::{Backend, DeviceInfo, EngineConfig, ShareMode, StreamInfo};
use crate::error::{EngineError, Result};
use crate::text::{
    contains, decimal, has_substring, is_digit, joined, law_numerals_read_back, law_substrings_nest,
    lemma_part_at_end, lemma_part_of_part, lemma_part_stays, lemma_regroup, lower_text,
    numeral_digits, parse_unsigned, push_decimal, same_text, to_lowercase, unsigned_value,
};

verus! {

/// What the latency test is to do.
#[derive(Clone, Copy, PartialEq, Eq, Debug, Structural)]
pub enum Command {
    List,
    Monitor,
    Latency,
    Sweep,
    Help,
    Unknown,
}

/// The command that a word stands for.
pub open spec fn command_of(word: Seq<char>) -> Command {
    if word == "list"@ {
        Command::List
    } else if word == "monitor"@ {
        Command::Monitor
    } else if word == "latency"@ {
        Command::Latency
    } else if word == "sweep"@ {
        Command::Sweep
    } else if word == "help"@ || word == "--help"@ || word == "-h"@ {
        Command::Help
    } else {
        Command::Unknown
    }
}

/// The command: the first argument, and help without one.
pub fn command(args: &[String]) -> (r: Command)
    ensures
        r == if args@.len() > 0 {
            command_of(args@[0]@)
        } else {
            Command::Help
        },
{
    if args.len() == 0 {
        return Command::Help;
    }
    let word: &str = args[0].as_str();
    if same_text(word, "list") {
        Command::List
    } else if same_text(word, "monitor") {
        Command::Monitor
    } else if same_text(word, "latency") {
        Command::Latency
    } else if same_text(word, "sweep") {
        Command::Sweep
    } else if same_text(word, "help") || same_text(word, "--help") || same_text(word, "-h") {
        Command::Help
    } else {
        Command::Unknown
    }
}

/// The options of the latency test.
pub struct Opts {
    pub backend: Backend,
    pub mode: ShareMode,
    pub rate: u32,
    pub channels: u16,
    pub frames: u32,
    /// The monitor's gain as it was written, if it was.
    pub gain: Option<String>,
    pub trials: usize,
    pub seconds: u32,
    pub in_sel: Option<String>,
    pub out_sel: Option<String>,
    pub ks_in: Option<String>,
    pub ks_out: Option<String>,
    pub in_ch: u16,
    pub out_ch: u16,
    pub csv: String,
    pub report: Option<String>,
    pub asio_sel: Option<String>,
}

/// What the options say.
pub struct OptsView {
    pub backend: Backend,
    pub mode: ShareMode,
    pub rate: nat,
    pub channels: nat,
    pub frames: nat,
    pub gain: Option<Seq<char>>,
    pub trials: nat,
    pub seconds: nat,
    pub in_sel: Option<Seq<char>>,
    pub out_sel: Option<Seq<char>>,
    pub ks_in: Option<Seq<char>>,
    pub ks_out: Option<Seq<char>>,
    pub in_ch: nat,
    pub out_ch: nat,
    pub csv: Seq<char>,
    pub report: Option<Seq<char>>,
    pub asio_sel: Option<Seq<char>>,
}

/// The characters of a text, if there is one.
pub open spec fn chars(s: Option<String>) -> Option<Seq<char>> {
    match s {
        Some(text) => Some(text@),
        None => None,
    }
}

impl View for Opts {
    type V = OptsView;

    open spec fn view(&self) -> OptsView {
        OptsView {
            backend: self.backend,
            mode: self.mode,
            rate: self.rate as nat,
            channels: self.channels as nat,
            frames: self.frames as nat,
            gain: chars(self.gain),
            trials: self.trials as nat,
            seconds: self.seconds as nat,
            in_sel: chars(self.in_sel),
            out_sel: chars(self.out_sel),
            ks_in: chars(self.ks_in),
            ks_out: chars(self.ks_out),
            in_ch: self.in_ch as nat,
            out_ch: self.out_ch as nat,
            csv: self.csv@,
            report: chars(self.report),
            asio_sel: chars(self.asio_sel),
        }
    }
}

/// The options without any argument.
pub open spec fn default_opts() -> OptsView {
    OptsView {
        backend: Backend::Wasapi,
        mode: ShareMode::Shared,
        rate: 0,
        channels: 0,
        frames: 0,
        gain: None,
        trials: 10,
        seconds: 0,
        in_sel: None,
        out_sel: None,
        ks_in: None,
        ks_out: None,
        in_ch: 0,
        out_ch: 0,
        csv: "sweep.csv"@,
        report: None,
        asio_sel: None,
    }
}

/// The backend that a word stands for; WASAPI for a word that stands for none.
pub open spec fn backend_of(word: Seq<char>) -> Backend {
    if word == "ks"@ || word == "wdmks"@ || word == "wdm"@ {
        Backend::WdmKs
    } else if word == "asio"@ {
        Backend::Asio
    } else {
        Backend::Wasapi
    }
}

/// The share mode that a word stands for; shared for a word that stands for none.
pub open spec fn mode_of(word: Seq<char>) -> ShareMode {
    if word == "exclusive"@ || word == "excl"@ {
        ShareMode::Exclusive
    } else {
        ShareMode::Shared
    }
}

/// The number that a word stands for, or `fallback`.
pub open spec fn number_or(word: Seq<char>, max: nat, fallback: nat) -> nat {
    match unsigned_value(word, max) {
        Some(v) => v,
        None => fallback,
    }
}

/// The options after `flag` with the word `v`; `None` where there is no such
/// flag.
pub open spec fn with_flag(o: OptsView, flag: Seq<char>, v: Seq<char>) -> Option<OptsView> {
    if flag == "--backend"@ {
        Some(OptsView { backend: backend_of(v), ..o })
    } else if flag == "--mode"@ {
        Some(OptsView { mode: mode_of(v), ..o })
    } else if flag == "--rate"@ {
        Some(OptsView { rate: number_or(v, u32::MAX as nat, 0), ..o })
    } else if flag == "--channels"@ {
        Some(OptsView { channels: number_or(v, u16::MAX as nat, 0), ..o })
    } else if flag == "--frames"@ {
        Some(OptsView { frames: number_or(v, u32::MAX as nat, 0), ..o })
    } else if flag == "--gain"@ {
        Some(OptsView { gain: Some(v), ..o })
    } else if flag == "--trials"@ {
        Some(OptsView { trials: number_or(v, usize::MAX as nat, 10), ..o })
    } else if flag == "--seconds"@ {
        Some(OptsView { seconds: number_or(v, u32::MAX as nat, 0), ..o })
    } else if flag == "--in"@ {
        Some(OptsView { in_sel: Some(v), ..o })
    } else if flag == "--out"@ {
        Some(OptsView { out_sel: Some(v), ..o })
    } else if flag == "--ks-in"@ {
        Some(OptsView { ks_in: Some(v), ..o })
    } else if flag == "--ks-out"@ {
        Some(OptsView { ks_out: Some(v), ..o })
    } else if flag == "--in-ch"@ {
        Some(OptsView { in_ch: number_or(v, u16::MAX as nat, 0), ..o })
    } else if flag == "--out-ch"@ {
        Some(OptsView { out_ch: number_or(v, u16::MAX as nat, 0), ..o })
    } else if flag == "--csv"@ {
        Some(OptsView { csv: v, ..o })
    } else if flag == "--report"@ {
        Some(OptsView { report: Some(v), ..o })
    } else if flag == "--asio"@ {
        Some(OptsView { asio_sel: Some(v), ..o })
    } else {
        None
    }
}

/// Argument `i`; nothing where there are not so many.
pub open spec fn word_at(args: Seq<String>, i: int) -> Seq<char> {
    if 0 <= i < args.len() {
        args[i]@
    } else {
        Seq::empty()
    }
}

/// What the arguments from `i` on make of the options. A flag takes the word
/// behind it, whatever that is; other words are passed over.
pub open spec fn opts_from(args: Seq<String>, i: int, o: OptsView) -> OptsView
    decreases args.len() + 1 - i,
{
    if i >= args.len() {
        o
    } else {
        match with_flag(o, args[i]@, word_at(args, i + 1)) {
            Some(next) => opts_from(args, i + 2, next),
            None => opts_from(args, i + 1, o),
        }
    }
}

fn word(args: &[String], i: usize) -> (r: String)
    ensures
        r@ == word_at(args@, i as int),
{
    if i < args.len() {
        args[i].clone()
    } else {
        String::new()
    }
}

fn number(word: &str, max: u64, fallback: u64) -> (r: u64)
    requires
        fallback <= max,
    ensures
        r == number_or(word@, max as nat, fallback as nat),
        r <= max,
{
    match parse_unsigned(word, max) {
        Some(v) => v,
        None => fallback,
    }
}

impl Opts {
    fn defaults() -> (r: Self)
        ensures
            r@ == default_opts(),
    {
        Opts {
            backend: Backend::Wasapi,
            mode: ShareMode::Shared,
            rate: 0,
            channels: 0,
            frames: 0,
            gain: None,
            trials: 10,
            seconds: 0,
            in_sel: None,
            out_sel: None,
            ks_in: None,
            ks_out: None,
            in_ch: 0,
            out_ch: 0,
            csv: "sweep.csv".to_owned(),
            report: None,
            asio_sel: None,
        }
    }

    /// Takes in a flag and its word; returns whether there is such a flag.
    fn set(&mut self, flag: &str, v: String) -> (known: bool)
        ensures
            known == (with_flag(old(self)@, flag@, v@) is Some),
            known ==> with_flag(old(self)@, flag@, v@) == Some(final(self)@),
            !known ==> *final(self) == *old(self),
    {
        let w: &str = v.as_str();
        if same_text(flag, "--backend") {
            self.backend = if same_text(w, "ks") || same_text(w, "wdmks") || same_text(w, "wdm") {
                Backend::WdmKs
            } else if same_text(w, "asio") {
                Backend::Asio
            } else {
                Backend::Wasapi
            };
        } else if same_text(flag, "--mode") {
            self.mode = if same_text(w, "exclusive") || same_text(w, "excl") {
                ShareMode::Exclusive
            } else {
                ShareMode::Shared
            };
        } else if same_text(flag, "--rate") {
            self.rate = number(w, 0xFFFF_FFFF, 0) as u32;
        } else if same_text(flag, "--channels") {
            self.channels = number(w, 0xFFFF, 0) as u16;
        } else if same_text(flag, "--frames") {
            self.frames = number(w, 0xFFFF_FFFF, 0) as u32;
        } else if same_text(flag, "--gain") {
            self.gain = Some(v);
        } else if same_text(flag, "--trials") {
            self.trials = number(w, usize::MAX as u64, 10) as usize;
        } else if same_text(flag, "--seconds") {
            self.seconds = number(w, 0xFFFF_FFFF, 0) as u32;
        } else if same_text(flag, "--in") {
            self.in_sel = Some(v);
        } else if same_text(flag, "--out") {
            self.out_sel = Some(v);
        } else if same_text(flag, "--ks-in") {
            self.ks_in = Some(v);
        } else if same_text(flag, "--ks-out") {
            self.ks_out = Some(v);
        } else if same_text(flag, "--in-ch") {
            self.in_ch = number(w, 0xFFFF, 0) as u16;
        } else if same_text(flag, "--out-ch") {
            self.out_ch = number(w, 0xFFFF, 0) as u16;
        } else if same_text(flag, "--csv") {
            self.csv = v;
        } else if same_text(flag, "--report") {
            self.report = Some(v);
        } else if same_text(flag, "--asio") {
            self.asio_sel = Some(v);
        } else {
            return false;
        }
        true
    }

    /// Reads the options from the arguments.
    pub fn parse(args: &[String]) -> (r: Self)
        ensures
            r@ == opts_from(args@, 0, default_opts()),
    {
        let n: usize = args.len();
        let mut o = Opts::defaults();
        let mut i: usize = 0;
        while i < n
            invariant
                i <= n == args@.len(),
                opts_from(args@, 0, default_opts()) == opts_from(args@, i as int, o@),
            decreases n - i,
        {
            let v = word(args, i + 1);
            let known: bool = o.set(args[i].as_str(), v);
            i = i + 1;
            if known && i < n {
                i = i + 1;
            }
            assert(opts_from(args@, n + 1, o@) == opts_from(args@, n as int, o@));
        }
        o
    }
}

/// Whether a device answers to `want`, in the wanted direction: by a part of its
/// identifier or of its name, in any case.
pub open spec fn device_answers(d: DeviceInfo, want: Seq<char>, capture: bool) -> bool {
    d.is_capture == capture && (has_substring(lower_text(d.id@), lower_text(want)) || has_substring(
        lower_text(d.name@),
        lower_text(want),
    ))
}

/// Whether `r` is the first device that answers, if one does.
pub open spec fn is_first_answer(
    devices: Seq<DeviceInfo>,
    want: Seq<char>,
    capture: bool,
    r: Option<usize>,
) -> bool {
    match r {
        Some(i) => i < devices.len() && device_answers(devices[i as int], want, capture)
            && forall|k: int| 0 <= k < i ==> !device_answers(#[trigger] devices[k], want, capture),
        None => forall|k: int|
            0 <= k < devices.len() ==> !device_answers(#[trigger] devices[k], want, capture),
    }
}

/// Finds the first device that answers to `want`.
pub fn find_device(devices: &[DeviceInfo], want: &str, capture: bool) -> (r: Option<usize>)
    ensures
        is_first_answer(devices@, want@, capture, r),
{
    let lower = to_lowercase(want);
    let mut i: usize = 0;
    while i < devices.len()
        invariant
            i <= devices@.len(),
            lower@ == lower_text(want@),
            forall|k: int| 0 <= k < i ==> !device_answers(#[trigger] devices@[k], want@, capture),
        decreases devices@.len() - i,
    {
        let d: &DeviceInfo = &devices[i];
        if d.is_capture == capture {
            let id = to_lowercase(d.id.as_str());
            let name = to_lowercase(d.name.as_str());
            if contains(id.as_str(), lower.as_str()) || contains(name.as_str(), lower.as_str()) {
                return Some(i);
            }
        }
        i = i + 1;
    }
    None
}

/// The device that a selection comes to: none without a selection.
pub open spec fn is_resolved(
    devices: Seq<DeviceInfo>,
    sel: Option<String>,
    capture: bool,
    r: Option<usize>,
) -> bool {
    match sel {
        Some(want) => is_first_answer(devices, want@, capture, r),
        None => r is None,
    }
}

fn resolve(devices: &[DeviceInfo], sel: &Option<String>, capture: bool) -> (r: Option<usize>)
    ensures
        is_resolved(devices@, *sel, capture, r),
{
    match sel {
        Some(want) => find_device(devices, want.as_str(), capture),
        None => None,
    }
}

/// The identifier of device `r`, if there is one.
pub open spec fn id_of(devices: Seq<DeviceInfo>, r: Option<usize>) -> Option<Seq<char>> {
    match r {
        Some(i) => Some(devices[i as int].id@),
        None => None,
    }
}

fn device_id(devices: &[DeviceInfo], r: Option<usize>) -> (id: Option<String>)
    requires
        r matches Some(i) ==> i < devices@.len(),
    ensures
        chars(id) == id_of(devices@, r),
{
    match r {
        Some(i) => Some(devices[i].id.clone()),
        None => None,
    }
}

/// The devices that the selections of the options come to.
pub struct Resolved {
    pub capture: Option<usize>,
    pub render: Option<usize>,
}

impl Opts {
    /// Whether devices have to be listed to make sense of the options.
    pub fn needs_devices(&self) -> (r: bool)
        ensures
            r == (self.in_sel is Some || self.out_sel is Some),
    {
        self.in_sel.is_some() || self.out_sel.is_some()
    }

    /// Finds the selected devices.
    pub fn resolve_devices(&self, devices: &[DeviceInfo]) -> (r: Resolved)
        ensures
            is_resolved(devices@, self.in_sel, true, r.capture),
            is_resolved(devices@, self.out_sel, false, r.render),
    {
        Resolved {
            capture: resolve(devices, &self.in_sel, true),
            render: resolve(devices, &self.out_sel, false),
        }
    }

    /// The name of the render device: for ASIO, which is one driver for both
    /// sides, the driver's name comes first.
    pub open spec fn render_name(self, found: Option<Seq<char>>) -> Option<Seq<char>> {
        if self.backend == Backend::Asio && self.asio_sel is Some {
            chars(self.asio_sel)
        } else {
            found
        }
    }

    /// The configuration that the options stand for, given the devices there are.
    pub fn config(&self, devices: &[DeviceInfo]) -> (r: EngineConfig)
        ensures
            exists|capture: Option<usize>, render: Option<usize>|
                {
                    &&& #[trigger] is_resolved(devices@, self.in_sel, true, capture)
                    &&& #[trigger] is_resolved(devices@, self.out_sel, false, render)
                    &&& chars(r.capture_device) == id_of(devices@, capture)
                    &&& chars(r.render_device) == self.render_name(id_of(devices@, render))
                },
            r.backend == self.backend,
            r.share_mode == self.mode,
            r.sample_rate == self.rate,
            r.channels == self.channels,
            r.buffer_frames == self.frames,
            r.input_channel == self.in_ch,
            r.output_channel == self.out_ch,
            r.force_format is None,
            !r.output_only,
    {
        let found: Resolved = self.resolve_devices(devices);
        let capture_device: Option<String> = device_id(devices, found.capture);
        let rendered: Option<String> = device_id(devices, found.render);
        let render_device: Option<String> = match (self.backend, &self.asio_sel) {
            (Backend::Asio, Some(driver)) => Some(driver.clone()),
            _ => rendered,
        };
        EngineConfig {
            backend: self.backend,
            share_mode: self.mode,
            sample_rate: self.rate,
            channels: self.channels,
            buffer_frames: self.frames,
            capture_device,
            render_device,
            input_channel: self.in_ch,
            output_channel: self.out_ch,
            force_format: None,
            output_only: false,
        }
    }

    /// Devices are named, not guessed: ASIO needs a driver, the other backends
    /// need both devices.
    pub fn require_devices(&self) -> (r: Result<()>)
        ensures
            r is Ok <==> if self.backend == Backend::Asio {
                self.asio_sel is Some || self.out_sel is Some
            } else {
                self.in_sel is Some && self.out_sel is Some
            },
            r matches Err(e) ==> e matches EngineError::Backend(s) && s@ == if self.backend
                == Backend::Asio {
                "ASIO needs a driver name: pass --asio <driver> (or --out <driver>)"@
            } else {
                "specify both --in and --out device names"@
            },
    {
        match self.backend {
            Backend::Asio => {
                if self.asio_sel.is_none() && self.out_sel.is_none() {
                    return Err(
                        EngineError::Backend(
                            "ASIO needs a driver name: pass --asio <driver> (or --out <driver>)".to_owned(),
                        ),
                    );
                }
            },
            _ => {
                if self.in_sel.is_none() || self.out_sel.is_none() {
                    return Err(
                        EngineError::Backend("specify both --in and --out device names".to_owned()),
                    );
                }
            },
        }
        Ok(())
    }
}

/// The name of a backend.
pub open spec fn backend_text(b: Backend) -> Seq<char> {
    match b {
        Backend::Wasapi => "WASAPI"@,
        Backend::WdmKs => "WDM/KS"@,
        Backend::Asio => "ASIO"@,
    }
}

pub fn backend_name(b: Backend) -> (r: &'static str)
    ensures
        r@ == backend_text(b),
{
    match b {
        Backend::Wasapi => "WASAPI",
        Backend::WdmKs => "WDM/KS",
        Backend::Asio => "ASIO",
    }
}

/// The lines of a listed device.
pub open spec fn device_lines(d: DeviceInfo) -> Seq<char> {
    "  ["@ + (if d.is_capture {
        "in "@
    } else {
        "out"@
    }) + "] "@ + d.name@ + "\n        id: "@ + d.id@ + "\n"@
}

/// Lists the devices of a backend.
pub fn listing(backend: Backend, devices: &[DeviceInfo]) -> (r: String)
    ensures
        r@ == backend_text(backend) + " endpoints:\n"@ + joined(
            devices@.len(),
            |i: int| device_lines(devices@[i]),
        ),
{
    let ghost part = |i: int| device_lines(devices@[i]);
    let mut body = String::new();
    let mut i: usize = 0;
    while i < devices.len()
        invariant
            i <= devices@.len(),
            part == (|i: int| device_lines(devices@[i])),
            body@ == joined(i as nat, part),
        decreases devices@.len() - i,
    {
        let d: &DeviceInfo = &devices[i];
        let mut line = "  [".to_owned();
        line.append(
            if d.is_capture {
                "in "
            } else {
                "out"
            },
        );
        line.append("] ");
        line.append(d.name.as_str());
        line.append("\n        id: ");
        line.append(d.id.as_str());
        line.append("\n");
        body.append(line.as_str());
        i = i + 1;
    }
    let mut s = backend_name(backend).to_owned();
    s.append(" endpoints:\n");
    s.append(body.as_str());
    s
}

/// What a stream was opened with; `ms` is its buffering in milliseconds.
pub open spec fn banner_text(info: StreamInfo, ms: Seq<char>) -> Seq<char> {
    "engine: "@ + backend_text(info.backend) + " ("@ + (match info.share_mode {
        ShareMode::Shared => "shared"@,
        ShareMode::Exclusive => "exclusive"@,
    }) + ")\n  capture: "@ + (match info.capture_format {
        Some(f) => f.description(),
        None => "none (render-only)"@,
    }) + "\n  render : "@ + info.render_format.description() + "\n  period : "@ + decimal(
        info.period_frames as nat,
    ) + " frames (render), "@ + decimal(info.capture_period_frames as nat)
        + " frames (capture)\n  engine buffering: ~"@ + ms + " ms one-way"@
}

/// Describes an opened stream; `ms` is its buffering in milliseconds.
pub fn stream_banner(info: &StreamInfo, ms: &str) -> (r: String)
    ensures
        r@ == banner_text(*info, ms@),
{
    let mut s = "engine: ".to_owned();
    s.append(backend_name(info.backend));
    s.append(" (");
    s.append(
        match info.share_mode {
            ShareMode::Shared => "shared",
            ShareMode::Exclusive => "exclusive",
        },
    );
    s.append(")\n  capture: ");
    let capture = match info.capture_format {
        Some(f) => f.describe(),
        None => "none (render-only)".to_owned(),
    };
    s.append(capture.as_str());
    s.append("\n  render : ");
    s.append(info.render_format.describe().as_str());
    s.append("\n  period : ");
    push_decimal(&mut s, info.period_frames as u64);
    s.append(" frames (render), ");
    push_decimal(&mut s, info.capture_period_frames as u64);
    s.append(" frames (capture)\n  engine buffering: ~");
    s.append(ms);
    s.append(" ms one-way");
    s
}

/// A flag that is given twice counts as given once, with its later word.
pub proof fn law_later_flag_wins(o: OptsView, flag: Seq<char>, first: Seq<char>, second: Seq<char>)
    requires
        with_flag(o, flag, first) is Some,
    ensures
        with_flag(with_flag(o, flag, first)->0, flag, second) == with_flag(o, flag, second),
{
}

/// The letters of the flags, which tell them apart.
proof fn lemma_flags_differ()
    ensures
        "--backend"@.len() == 9,
        "--backend"@[2] == 'b',
        "--backend"@[3] == 'a',
        "--backend"@[4] == 'c',
        "--backend"@[5] == 'k',
        "--backend"@[6] == 'e',
        "--backend"@[7] == 'n',
        "--backend"@[8] == 'd',
        "--mode"@.len() == 6,
        "--mode"@[2] == 'm',
        "--mode"@[3] == 'o',
        "--mode"@[4] == 'd',
        "--mode"@[5] == 'e',
        "--rate"@.len() == 6,
        "--rate"@[2] == 'r',
        "--rate"@[3] == 'a',
        "--rate"@[4] == 't',
        "--rate"@[5] == 'e',
        "--channels"@.len() == 10,
        "--channels"@[2] == 'c',
        "--channels"@[3] == 'h',
        "--channels"@[4] == 'a',
        "--channels"@[5] == 'n',
        "--channels"@[6] == 'n',
        "--channels"@[7] == 'e',
        "--channels"@[8] == 'l',
        "--channels"@[9] == 's',
        "--frames"@.len() == 8,
        "--frames"@[2] == 'f',
        "--frames"@[3] == 'r',
        "--frames"@[4] == 'a',
        "--frames"@[5] == 'm',
        "--frames"@[6] == 'e',
        "--frames"@[7] == 's',
        "--gain"@.len() == 6,
        "--gain"@[2] == 'g',
        "--gain"@[3] == 'a',
        "--gain"@[4] == 'i',
        "--gain"@[5] == 'n',
        "--trials"@.len() == 8,
        "--trials"@[2] == 't',
        "--trials"@[3] == 'r',
        "--trials"@[4] == 'i',
        "--trials"@[5] == 'a',
        "--trials"@[6] == 'l',
        "--trials"@[7] == 's',
        "--seconds"@.len() == 9,
        "--seconds"@[2] == 's',
        "--seconds"@[3] == 'e',
        "--seconds"@[4] == 'c',
        "--seconds"@[5] == 'o',
        "--seconds"@[6] == 'n',
        "--seconds"@[7] == 'd',
        "--seconds"@[8] == 's',
        "--in"@.len() == 4,
        "--in"@[2] == 'i',
        "--in"@[3] == 'n',
        "--out"@.len() == 5,
        "--out"@[2] == 'o',
        "--out"@[3] == 'u',
        "--out"@[4] == 't',
        "--ks-in"@.len() == 7,
        "--ks-in"@[2] == 'k',
        "--ks-in"@[3] == 's',
        "--ks-in"@[4] == '-',
        "--ks-in"@[5] == 'i',
        "--ks-in"@[6] == 'n',
        "--ks-out"@.len() == 8,
        "--ks-out"@[2] == 'k',
        "--ks-out"@[3] == 's',
        "--ks-out"@[4] == '-',
        "--ks-out"@[5] == 'o',
        "--ks-out"@[6] == 'u',
        "--ks-out"@[7] == 't',
        "--in-ch"@.len() == 7,
        "--in-ch"@[2] == 'i',
        "--in-ch"@[3] == 'n',
        "--in-ch"@[4] == '-',
        "--in-ch"@[5] == 'c',
        "--in-ch"@[6] == 'h',
        "--out-ch"@.len() == 8,
        "--out-ch"@[2] == 'o',
        "--out-ch"@[3] == 'u',
        "--out-ch"@[4] == 't',
        "--out-ch"@[5] == '-',
        "--out-ch"@[6] == 'c',
        "--out-ch"@[7] == 'h',
        "--csv"@.len() == 5,
        "--csv"@[2] == 'c',
        "--csv"@[3] == 's',
        "--csv"@[4] == 'v',
        "--report"@.len() == 8,
        "--report"@[2] == 'r',
        "--report"@[3] == 'e',
        "--report"@[4] == 'p',
        "--report"@[5] == 'o',
        "--report"@[6] == 'r',
        "--report"@[7] == 't',
        "--asio"@.len() == 6,
        "--asio"@[2] == 'a',
        "--asio"@[3] == 's',
        "--asio"@[4] == 'i',
        "--asio"@[5] == 'o',
{
    reveal_strlit("--backend");
    reveal_strlit("--mode");
    reveal_strlit("--rate");
    reveal_strlit("--channels");
    reveal_strlit("--frames");
    reveal_strlit("--gain");
    reveal_strlit("--trials");
    reveal_strlit("--seconds");
    reveal_strlit("--in");
    reveal_strlit("--out");
    reveal_strlit("--ks-in");
    reveal_strlit("--ks-out");
    reveal_strlit("--in-ch");
    reveal_strlit("--out-ch");
    reveal_strlit("--csv");
    reveal_strlit("--report");
    reveal_strlit("--asio");
}

/// The words that the help text gives for `--backend` and `--mode` select the
/// backends and the share modes that they name, whatever was selected before, and
/// leave every other option alone. The short forms mean the same as the long ones.
pub proof fn law_documented_words_select(o: OptsView)
    ensures
        with_flag(o, "--backend"@, "wasapi"@) == Some(OptsView { backend: Backend::Wasapi, ..o }),
        with_flag(o, "--backend"@, "ks"@) == Some(OptsView { backend: Backend::WdmKs, ..o }),
        with_flag(o, "--backend"@, "asio"@) == Some(OptsView { backend: Backend::Asio, ..o }),
        with_flag(o, "--backend"@, "wdmks"@) == with_flag(o, "--backend"@, "ks"@),
        with_flag(o, "--backend"@, "wdm"@) == with_flag(o, "--backend"@, "ks"@),
        with_flag(o, "--mode"@, "shared"@) == Some(OptsView { mode: ShareMode::Shared, ..o }),
        with_flag(o, "--mode"@, "exclusive"@) == Some(
            OptsView { mode: ShareMode::Exclusive, ..o },
        ),
        with_flag(o, "--mode"@, "excl"@) == with_flag(o, "--mode"@, "exclusive"@),
{
    lemma_flags_differ();
    reveal_strlit("wasapi");
    reveal_strlit("ks");
    reveal_strlit("wdmks");
    reveal_strlit("wdm");
    reveal_strlit("asio");
    reveal_strlit("shared");
    reveal_strlit("exclusive");
    reveal_strlit("excl");
    assert("wasapi"@.len() == 6 && "asio"@.len() == 4 && "ks"@.len() == 2);
    assert("shared"@.len() == 6 && "exclusive"@.len() == 9 && "excl"@.len() == 4);
    assert("wdm"@.len() == 3 && "wdmks"@.len() == 5);
}

/// A word that names no backend selects WASAPI, and one that names no share mode
/// selects the shared mode: no word selects anything by a part of its letters.
pub proof fn law_other_words_select_the_defaults(o: OptsView, v: Seq<char>)
    ensures
        with_flag(o, "--backend"@, v) matches Some(n) && (n.backend == Backend::WdmKs ==> v
            == "ks"@ || v == "wdmks"@ || v == "wdm"@) && (n.backend == Backend::Asio ==> v
            == "asio"@),
        with_flag(o, "--mode"@, v) matches Some(n) && (n.mode == ShareMode::Exclusive ==> v
            == "exclusive"@ || v == "excl"@),
{
    lemma_flags_differ();
}

/// A flag that takes a text sets its own option to that text, word for word, and
/// leaves every other option alone.
pub proof fn law_text_flags_set_their_option(o: OptsView, v: Seq<char>)
    ensures
        with_flag(o, "--in"@, v) == Some(OptsView { in_sel: Some(v), ..o }),
        with_flag(o, "--out"@, v) == Some(OptsView { out_sel: Some(v), ..o }),
        with_flag(o, "--ks-in"@, v) == Some(OptsView { ks_in: Some(v), ..o }),
        with_flag(o, "--ks-out"@, v) == Some(OptsView { ks_out: Some(v), ..o }),
        with_flag(o, "--asio"@, v) == Some(OptsView { asio_sel: Some(v), ..o }),
        with_flag(o, "--csv"@, v) == Some(OptsView { csv: v, ..o }),
        with_flag(o, "--report"@, v) == Some(OptsView { report: Some(v), ..o }),
        with_flag(o, "--gain"@, v) == Some(OptsView { gain: Some(v), ..o }),
{
    lemma_flags_differ();
}

/// A flag that takes a number sets its own option to the number whose numeral
/// stands behind it, as far as the option can hold it, and leaves every other
/// option alone.
pub proof fn law_number_flags_set_their_option(o: OptsView, n: nat)
    ensures
        n <= u32::MAX ==> {
            &&& with_flag(o, "--rate"@, decimal(n)) == Some(OptsView { rate: n, ..o })
            &&& with_flag(o, "--frames"@, decimal(n)) == Some(OptsView { frames: n, ..o })
            &&& with_flag(o, "--seconds"@, decimal(n)) == Some(OptsView { seconds: n, ..o })
        },
        n <= u16::MAX ==> {
            &&& with_flag(o, "--channels"@, decimal(n)) == Some(OptsView { channels: n, ..o })
            &&& with_flag(o, "--in-ch"@, decimal(n)) == Some(OptsView { in_ch: n, ..o })
            &&& with_flag(o, "--out-ch"@, decimal(n)) == Some(OptsView { out_ch: n, ..o })
        },
        n <= usize::MAX ==> with_flag(o, "--trials"@, decimal(n)) == Some(
            OptsView { trials: n, ..o },
        ),
{
    lemma_flags_differ();
    if n <= u32::MAX {
        law_numerals_read_back(n, u32::MAX as nat);
    }
    if n <= u16::MAX {
        law_numerals_read_back(n, u16::MAX as nat);
    }
    if n <= usize::MAX {
        law_numerals_read_back(n, usize::MAX as nat);
    }
}

/// A word that is no number leaves a numeric option at what it is without the flag
/// at all.
pub proof fn law_bad_numbers_count_as_unset(o: OptsView, v: Seq<char>, i: int)
    requires
        0 < i < v.len(),
        !is_digit(v[i]),
    ensures
        with_flag(o, "--rate"@, v) == Some(OptsView { rate: default_opts().rate, ..o }),
        with_flag(o, "--channels"@, v) == Some(OptsView { channels: default_opts().channels, ..o }),
        with_flag(o, "--frames"@, v) == Some(OptsView { frames: default_opts().frames, ..o }),
        with_flag(o, "--trials"@, v) == Some(OptsView { trials: default_opts().trials, ..o }),
        with_flag(o, "--seconds"@, v) == Some(OptsView { seconds: default_opts().seconds, ..o }),
        with_flag(o, "--in-ch"@, v) == Some(OptsView { in_ch: default_opts().in_ch, ..o }),
        with_flag(o, "--out-ch"@, v) == Some(OptsView { out_ch: default_opts().out_ch, ..o }),
{
    lemma_flags_differ();
    let d = numeral_digits(v);
    if v[0] == '+' {
        assert(d[i - 1] == v[i]);
    } else {
        assert(d[i] == v[i]);
    }
}

/// The arguments are read from left to right: a flag takes the word behind it and
/// reading goes on behind that word, and any other argument changes nothing.
pub proof fn law_arguments_are_read_in_order(args: Seq<String>, i: int, o: OptsView)
    requires
        0 <= i < args.len(),
    ensures
        with_flag(o, args[i]@, word_at(args, i + 1)) matches Some(next) ==> opts_from(args, i, o)
            == opts_from(args, i + 2, next),
        with_flag(o, args[i]@, word_at(args, i + 1)) is None ==> opts_from(args, i, o)
            == opts_from(args, i + 1, o),
        i + 1 < args.len() ==> word_at(args, i + 1) == args[i + 1]@,
        i + 1 == args.len() ==> word_at(args, i + 1).len() == 0,
        opts_from(args, args.len() as int, o) == o,
{
}

/// Only a word that starts with two dashes is a flag, so that commands and device
/// names are never taken for one.
pub proof fn law_flags_start_with_dashes(o: OptsView, f: Seq<char>, v: Seq<char>)
    requires
        with_flag(o, f, v) is Some,
    ensures
        f.len() > 2,
        f[0] == '-',
        f[1] == '-',
{
    reveal_strlit("--backend");
    reveal_strlit("--mode");
    reveal_strlit("--rate");
    reveal_strlit("--channels");
    reveal_strlit("--frames");
    reveal_strlit("--gain");
    reveal_strlit("--trials");
    reveal_strlit("--seconds");
    reveal_strlit("--in");
    reveal_strlit("--out");
    reveal_strlit("--ks-in");
    reveal_strlit("--ks-out");
    reveal_strlit("--in-ch");
    reveal_strlit("--out-ch");
    reveal_strlit("--csv");
    reveal_strlit("--report");
    reveal_strlit("--asio");
}

/// Whatever follows the command, each command goes by its name, and no other word
/// is a command.
pub proof fn law_commands_go_by_their_names(word: Seq<char>)
    ensures
        command_of(word) == Command::List <==> word == "list"@,
        command_of(word) == Command::Monitor <==> word == "monitor"@,
        command_of(word) == Command::Latency <==> word == "latency"@,
        command_of(word) == Command::Sweep <==> word == "sweep"@,
        command_of(word) == Command::Help <==> word == "help"@ || word == "--help"@ || word
            == "-h"@,
{
    reveal_strlit("list");
    reveal_strlit("monitor");
    reveal_strlit("latency");
    reveal_strlit("sweep");
    reveal_strlit("help");
    reveal_strlit("--help");
    reveal_strlit("-h");
    assert("list"@[0] == 'l' && "help"@[0] == 'h' && "list"@.len() == 4 && "help"@.len() == 4);
    assert("monitor"@[0] == 'm' && "latency"@[0] == 'l' && "monitor"@.len() == 7);
    assert("latency"@.len() == 7 && "sweep"@.len() == 5);
    assert("--help"@.len() == 6 && "-h"@.len() == 2);
}

/// A device answers to its own name, to its own identifier, and to any part of
/// either, in its own direction and in no other. Texts that differ in case alone
/// ask for the same devices.
pub proof fn law_devices_answer_to_their_names(d: DeviceInfo, want: Seq<char>, other: Seq<char>)
    ensures
        device_answers(d, d.name@, d.is_capture),
        device_answers(d, d.id@, d.is_capture),
        !device_answers(d, want, !d.is_capture),
        has_substring(lower_text(d.name@), lower_text(want)) ==> device_answers(
            d,
            want,
            d.is_capture,
        ),
        has_substring(lower_text(d.id@), lower_text(want)) ==> device_answers(
            d,
            want,
            d.is_capture,
        ),
        lower_text(want) == lower_text(other) ==> device_answers(d, want, d.is_capture)
            == device_answers(d, other, d.is_capture),
        device_answers(d, want, d.is_capture) ==> has_substring(
            lower_text(d.name@),
            lower_text(want),
        ) || has_substring(lower_text(d.id@), lower_text(want)),
{
    law_substrings_nest(lower_text(d.name@), Seq::empty(), Seq::empty());
    law_substrings_nest(lower_text(d.id@), Seq::empty(), Seq::empty());
}

/// A selection comes to at most one device, so that the same options always open
/// the same device; it is one of the wanted direction, and none stands before it
/// that would do.
pub proof fn law_selections_are_settled(
    devices: Seq<DeviceInfo>,
    sel: Option<String>,
    capture: bool,
    a: Option<usize>,
    b: Option<usize>,
)
    requires
        is_resolved(devices, sel, capture, a),
        is_resolved(devices, sel, capture, b),
    ensures
        a == b,
        sel is None ==> a is None,
        a matches Some(i) ==> i < devices.len() && devices[i as int].is_capture == capture,
{
    if let Some(i) = a {
        if let Some(k) = b {
            if i < k {
                assert(!device_answers(devices[i as int], sel->0@, capture));
            } else if k < i {
                assert(!device_answers(devices[k as int], sel->0@, capture));
            }
        } else {
            assert(!device_answers(devices[i as int], sel->0@, capture));
        }
    } else if let Some(k) = b {
        assert(!device_answers(devices[k as int], sel->0@, capture));
    }
}

/// For ASIO a named driver is what is opened; on the other backends it changes
/// nothing.
pub proof fn law_driver_name_counts_for_asio_alone(o: Opts, found: Option<Seq<char>>)
    ensures
        o.backend != Backend::Asio ==> o.render_name(found) == found,
        o.backend == Backend::Asio ==> match o.asio_sel {
            Some(driver) => o.render_name(found) == Some(driver@),
            None => o.render_name(found) == found,
        },
{
}

/// The backends have different names.
pub proof fn law_backend_names_differ(a: Backend, b: Backend)
    requires
        backend_text(a) == backend_text(b),
    ensures
        a == b,
{
    reveal_strlit("WASAPI");
    reveal_strlit("WDM/KS");
    reveal_strlit("ASIO");
    assert("WASAPI"@[1] == 'A' && "WDM/KS"@[1] == 'D' && "ASIO"@.len() == 4);
    assert("WASAPI"@.len() == 6 && "WDM/KS"@.len() == 6);
}

/// The listing of a device shows its name and its identifier, and which direction
/// it has.
pub proof fn law_listing_shows_the_device(d: DeviceInfo)
    ensures
        has_substring(device_lines(d), d.name@),
        has_substring(device_lines(d), d.id@),
        d.is_capture ==> has_substring(device_lines(d), "[in ] "@ + d.name@),
        !d.is_capture ==> has_substring(device_lines(d), "[out] "@ + d.name@),
{
    let way = if d.is_capture {
        "in "@
    } else {
        "out"@
    };
    let a = "  ["@ + way + "] "@ + d.name@;
    let b = a + "\n        id: "@;
    reveal_strlit("  [");
    reveal_strlit("in ");
    reveal_strlit("out");
    reveal_strlit("] ");
    reveal_strlit("[in ] ");
    reveal_strlit("[out] ");
    let tag = if d.is_capture {
        "[in ] "@
    } else {
        "[out] "@
    };
    assert(a =~= seq![' ', ' '] + (tag + d.name@)) by {
        assert("  ["@ + way + "] "@ =~= seq![' ', ' '] + tag);
    }
    lemma_part_at_end(seq![' ', ' '], tag + d.name@);
    lemma_part_at_end(tag, d.name@);
    lemma_part_of_part(a, tag + d.name@, d.name@);
    lemma_part_stays(a, "\n        id: "@, d.name@);
    lemma_part_stays(a, "\n        id: "@, tag + d.name@);
    lemma_part_stays(b, d.id@, d.name@);
    lemma_part_stays(b, d.id@, tag + d.name@);
    lemma_part_at_end(b, d.id@);
    lemma_part_stays(b + d.id@, "\n"@, d.name@);
    lemma_part_stays(b + d.id@, "\n"@, tag + d.name@);
    lemma_part_stays(b + d.id@, "\n"@, d.id@);
}

proof fn lemma_plain_words_change_nothing(args: Seq<String>, i: int, o: OptsView)
    requires
        0 <= i <= args.len(),
        forall|k: int|
            0 <= k < args.len() ==> (#[trigger] args[k])@.len() == 0 || args[k]@[0] != '-',
    ensures
        opts_from(args, i, o) == o,
    decreases args.len() - i,
{
    if i < args.len() {
        let v = word_at(args, i + 1);
        if with_flag(o, args[i]@, v) is Some {
            law_flags_start_with_dashes(o, args[i]@, v);
        }
        lemma_plain_words_change_nothing(args, i + 1, o);
    }
}

/// What no flag sets is left to the device: arguments without a flag among them ask
/// for a shared WASAPI stream at the device's own rate, channel count and period,
/// for ten trials, for no end of the monitor, for the log `sweep.csv`, and name no
/// device.
pub proof fn law_unset_options_are_left_to_the_device(args: Seq<String>)
    requires
        forall|k: int|
            0 <= k < args.len() ==> (#[trigger] args[k])@.len() == 0 || args[k]@[0] != '-',
    ensures
        ({
            let o = opts_from(args, 0, default_opts());
            &&& o.backend == Backend::Wasapi && o.mode == ShareMode::Shared
            &&& o.rate == 0 && o.channels == 0 && o.frames == 0
            &&& o.trials == 10 && o.seconds == 0 && o.gain is None
            &&& o.in_sel is None && o.out_sel is None && o.ks_in is None && o.ks_out is None
            &&& o.asio_sel is None && o.in_ch == 0 && o.out_ch == 0
            &&& o.csv == "sweep.csv"@ && o.report is None
        }),
{
    lemma_plain_words_change_nothing(args, 0, default_opts());
}

/// The banner of a stream names its backend and its mode, its two formats, each on the
/// line of its own side, its two periods, and its buffering.
pub proof fn law_banner_shows_the_stream(info: StreamInfo, ms: Seq<char>)
    ensures
        ({
            let t = banner_text(info, ms);
            let capture = match info.capture_format {
                Some(f) => f.description(),
                None => "none (render-only)"@,
            };
            &&& has_substring(t, "engine: "@ + backend_text(info.backend))
            &&& info.share_mode == ShareMode::Exclusive ==> has_substring(t, "exclusive"@)
            &&& info.share_mode == ShareMode::Shared ==> has_substring(t, "shared"@)
            &&& has_substring(t, ")\n  capture: "@ + capture)
            &&& has_substring(t, "\n  render : "@ + info.render_format.description())
            &&& has_substring(t, decimal(info.period_frames as nat) + " frames (render), "@)
            &&& has_substring(
                t,
                decimal(info.capture_period_frames as nat)
                    + " frames (capture)\n  engine buffering: ~"@,
            )
            &&& has_substring(t, ms + " ms one-way"@)
        }),
{
    let capture = match info.capture_format {
        Some(f) => f.description(),
        None => "none (render-only)"@,
    };
    let mode = match info.share_mode {
        ShareMode::Shared => "shared"@,
        ShareMode::Exclusive => "exclusive"@,
    };
    let s1 = "engine: "@ + backend_text(info.backend);
    let s2 = s1 + " ("@;
    let s3 = s2 + mode;
    let s4 = s3 + ")\n  capture: "@;
    let s5 = s4 + capture;
    let s6 = s5 + "\n  render : "@;
    let s7 = s6 + info.render_format.description();
    let s8 = s7 + "\n  period : "@;
    let s9 = s8 + decimal(info.period_frames as nat);
    let sa = s9 + " frames (render), "@;
    let sb = sa + decimal(info.capture_period_frames as nat);
    let sc = sb + " frames (capture)\n  engine buffering: ~"@;
    let sd = sc + ms;
    let t = sd + " ms one-way"@;
    assert(t == banner_text(info, ms));
    let p3 = ")\n  capture: "@ + capture;
    let p4 = "\n  render : "@ + info.render_format.description();
    let p5 = decimal(info.period_frames as nat) + " frames (render), "@;
    let p6 = decimal(info.capture_period_frames as nat)
        + " frames (capture)\n  engine buffering: ~"@;
    let p7 = ms + " ms one-way"@;
    lemma_regroup(s3, ")\n  capture: "@, capture);
    lemma_regroup(s5, "\n  render : "@, info.render_format.description());
    lemma_regroup(s8, decimal(info.period_frames as nat), " frames (render), "@);
    lemma_regroup(
        sa,
        decimal(info.capture_period_frames as nat),
        " frames (capture)\n  engine buffering: ~"@,
    );
    lemma_regroup(sc, ms, " ms one-way"@);
    lemma_part_at_end(Seq::empty(), s1);
    assert(Seq::<char>::empty() + s1 =~= s1);
    lemma_part_stays(s1, " ("@, s1);
    lemma_part_stays(s2, mode, s1);
    lemma_part_at_end(s2, mode);
    lemma_part_stays(s3, p3, s1);
    lemma_part_stays(s3, p3, mode);
    lemma_part_at_end(s3, p3);
    lemma_part_stays(s5, p4, s1);
    lemma_part_stays(s5, p4, mode);
    lemma_part_stays(s5, p4, p3);
    lemma_part_at_end(s5, p4);
    lemma_part_stays(s7, "\n  period : "@, s1);
    lemma_part_stays(s7, "\n  period : "@, mode);
    lemma_part_stays(s7, "\n  period : "@, p3);
    lemma_part_stays(s7, "\n  period : "@, p4);
    lemma_part_stays(s8, p5, s1);
    lemma_part_stays(s8, p5, mode);
    lemma_part_stays(s8, p5, p3);
    lemma_part_stays(s8, p5, p4);
    lemma_part_at_end(s8, p5);
    lemma_part_stays(sa, p6, s1);
    lemma_part_stays(sa, p6, mode);
    lemma_part_stays(sa, p6, p3);
    lemma_part_stays(sa, p6, p4);
    lemma_part_stays(sa, p6, p5);
    lemma_part_at_end(sa, p6);
    lemma_part_stays(sc, p7, s1);
    lemma_part_stays(sc, p7, mode);
    lemma_part_stays(sc, p7, p3);
    lemma_part_stays(sc, p7, p4);
    lemma_part_stays(sc, p7, p5);
    lemma_part_stays(sc, p7, p6);
    lemma_part_at_end(sc, p7);
}

} // verus!
