//! What a report says of the machine it was made on.

use vstd::prelude::*;

use crate::float32::{round_to, rounded};
use crate::text::{
    decimal, decimal_string, from_utf16_lossy, has_substring, law_numerals_read_back,
    lemma_part_at_end, lemma_part_stays, lemma_regroup, parse_unsigned, push_decimal, trim,
    trimmed_text, unsigned_value, utf16_text,
};

verus! {

/// How many code units of a registry string to take: all but the NUL at its end.
/// `cb` is its size in bytes.
pub open spec fn string_units(cb: u32) -> nat {
    if cb / 2 > 0 {
        (cb / 2 - 1) as nat
    } else {
        0
    }
}

/// The text of a registry string of `cb` bytes in `buf`.
pub fn registry_string(buf: &[u16], cb: u32) -> (r: String)
    requires
        string_units(cb) <= buf@.len(),
    ensures
        r@ == trimmed_text(utf16_text(buf@.take(string_units(cb) as int))),
{
    let n: usize = if cb / 2 > 0 {
        (cb / 2 - 1) as usize
    } else {
        0
    };
    let text = from_utf16_lossy(vstd::slice::slice_subrange(buf, 0, n));
    assert(buf@.subrange(0, n as int) =~= buf@.take(n as int));
    trim(text.as_str()).to_owned()
}

/// A memory size in gibibytes: in double precision, to the nearest, halves up.
pub open spec fn gibibytes(bytes: nat) -> nat {
    (round_to(bytes, 53) + 0x2000_0000) / 0x4000_0000
}

/// A memory size in gibibytes, to the nearest.
pub fn ram_gb(bytes: u64) -> (r: u64)
    ensures
        r == gibibytes(bytes as nat),
{
    let near: u128 = rounded(bytes, 53);
    ((near + 0x2000_0000) / 0x4000_0000) as u64
}

/// The build number that a text stands for; 0 for none.
pub open spec fn build_number(build: Option<&str>) -> nat {
    match build {
        Some(s) => match unsigned_value(s@, u32::MAX as nat) {
            Some(n) => n,
            None => 0,
        },
        None => 0,
    }
}

/// Release, edition and build of the system.
pub open spec fn os_text(build: Option<&str>, display: Option<&str>, ubr: Option<u32>) -> Seq<
    char,
> {
    "Windows "@ + (if build_number(build) >= 22000 {
        "11"@
    } else {
        "10"@
    }) + " "@ + (match display {
        Some(s) => s@,
        None => Seq::empty(),
    }) + " | Build: "@ + decimal(build_number(build)) + "."@ + decimal(
        match ubr {
            Some(n) => n as nat,
            None => 0,
        },
    )
}

/// Describes the system, given what the registry says of it.
pub fn os_version(build: Option<&str>, display: Option<&str>, ubr: Option<u32>) -> (r: String)
    ensures
        r@ == os_text(build, display, ubr),
{
    let number: u64 = match build {
        Some(s) => match parse_unsigned(s, 0xFFFF_FFFF) {
            Some(n) => n,
            None => 0,
        },
        None => 0,
    };
    let mut s = "Windows ".to_owned();
    s.append(
        if number >= 22000 {
            "11"
        } else {
            "10"
        },
    );
    s.append(" ");
    if let Some(d) = display {
        s.append(d);
    } else {
        assert(s@ + Seq::<char>::empty() =~= s@);
    }
    s.append(" | Build: ");
    push_decimal(&mut s, number);
    s.append(".");
    push_decimal(
        &mut s,
        match ubr {
            Some(n) => n as u64,
            None => 0,
        },
    );
    s
}

/// A text, or `unknown`.
pub open spec fn or_unknown(s: Option<Seq<char>>) -> Seq<char> {
    match s {
        Some(text) => text,
        None => "unknown"@,
    }
}

fn labelled(label: &str, text: &str) -> (r: String)
    ensures
        r@ == label@ + text@,
{
    let mut s = label.to_owned();
    s.append(text);
    s
}

/// The views of the lines.
pub open spec fn line_views(lines: Seq<String>) -> Seq<Seq<char>> {
    Seq::new(lines.len(), |i: int| lines[i]@)
}

/// The notes of a report: what it was tested on.
pub open spec fn tested_on_text(
    device: Seq<char>,
    cpu: Option<Seq<char>>,
    ram: Option<u64>,
    os: Option<Seq<char>>,
) -> Seq<Seq<char>> {
    seq![
        "Tested on"@,
        "CPU: "@ + or_unknown(cpu),
        "RAM: "@ + or_unknown(
            match ram {
                Some(n) => Some(decimal(n as nat)),
                None => None,
            },
        ) + " GB"@,
        "OS: "@ + or_unknown(os),
        "Audio Device: "@ + device,
        "Test Method: Loopback"@,
    ]
}

/// The characters of a text, if there is one.
pub open spec fn text_of(s: Option<&str>) -> Option<Seq<char>> {
    match s {
        Some(text) => Some(text@),
        None => None,
    }
}

/// The notes of a report, given what the machine says of itself.
pub fn tested_on(device: &str, cpu: Option<&str>, ram: Option<u64>, os: Option<&str>) -> (r: Vec<
    String,
>)
    ensures
        line_views(r@) == tested_on_text(device@, text_of(cpu), ram, text_of(os)),
{
    let cpu_text: &str = match cpu {
        Some(s) => s,
        None => "unknown",
    };
    let ram_text = match ram {
        Some(n) => decimal_string(n),
        None => "unknown".to_owned(),
    };
    let os_name: &str = match os {
        Some(s) => s,
        None => "unknown",
    };
    let mut out: Vec<String> = Vec::new();
    out.push("Tested on".to_owned());
    out.push(labelled("CPU: ", cpu_text));
    let mut ram_line = labelled("RAM: ", ram_text.as_str());
    ram_line.append(" GB");
    out.push(ram_line);
    out.push(labelled("OS: ", os_name));
    out.push(labelled("Audio Device: ", device));
    out.push("Test Method: Loopback".to_owned());
    assert(line_views(out@) =~= tested_on_text(device@, text_of(cpu), ram, text_of(os)));
    out
}

/// A memory size is given in the gibibytes that are nearest to it.
pub proof fn law_memory_is_rounded_to_the_nearest(bytes: nat)
    requires
        bytes < 0x20_0000_0000_0000,
    ensures
        2 * gibibytes(bytes) * 0x4000_0000 <= 2 * bytes + 0x4000_0000,
        2 * bytes < 2 * gibibytes(bytes) * 0x4000_0000 + 0x4000_0000,
        bytes % 0x4000_0000 == 0 ==> gibibytes(bytes) * 0x4000_0000 == bytes,
{
    vstd::arithmetic::power2::lemma2_to64_rest();
    if bytes > 0 {
        crate::float32::lemma_msb_below(bytes, 53);
    }
    assert(round_to(bytes, 53) == bytes);
}

/// The release follows from the build: Windows 11 from build 22000 on, Windows 10
/// before it and where the build is not known. The text holds the build and its
/// revision.
pub proof fn law_build_decides_the_release(
    build: Option<&str>,
    display: Option<&str>,
    ubr: Option<u32>,
    n: nat,
)
    requires
        n <= u32::MAX,
        build matches Some(s) && s@ == decimal(n),
    ensures
        build_number(build) == n,
        n >= 22000 ==> has_substring(os_text(build, display, ubr), "Windows "@ + "11"@),
        n < 22000 ==> has_substring(os_text(build, display, ubr), "Windows "@ + "10"@),
        display matches Some(d) ==> has_substring(os_text(build, display, ubr), d@),
        ubr matches Some(u) ==> has_substring(
            os_text(build, display, ubr),
            decimal(n) + ("."@ + decimal(u as nat)),
        ),
{
    law_numerals_read_back(n, u32::MAX as nat);
    let release = if n >= 22000 {
        "11"@
    } else {
        "10"@
    };
    let shown = match display {
        Some(s) => s@,
        None => Seq::empty(),
    };
    let revision = decimal(
        match ubr {
            Some(u) => u as nat,
            None => 0,
        },
    );
    let a = "Windows "@ + release;
    let b = a + " "@;
    let c = b + shown;
    let d = c + " | Build: "@;
    let e = d + decimal(n);
    let f = e + "."@;
    let t = os_text(build, display, ubr);
    assert(t == f + revision);
    lemma_part_at_end(Seq::empty(), a);
    assert(Seq::<char>::empty() + a =~= a);
    lemma_part_stays(a, " "@, a);
    lemma_part_stays(b, shown, a);
    lemma_part_stays(c, " | Build: "@, a);
    lemma_part_stays(d, decimal(n), a);
    lemma_part_stays(e, "."@, a);
    lemma_part_stays(f, revision, a);
    lemma_part_at_end(b, shown);
    lemma_part_stays(c, " | Build: "@, shown);
    lemma_part_stays(d, decimal(n), shown);
    lemma_part_stays(e, "."@, shown);
    lemma_part_stays(f, revision, shown);
    lemma_regroup(e, "."@, revision);
    lemma_regroup(d, decimal(n), "."@ + revision);
    lemma_part_at_end(d, decimal(n) + ("."@ + revision));
}

/// The notes of a report name the processor, the memory, the system and the device,
/// each behind its own label and in this order; what is not known is said to be so.
pub proof fn law_notes_label_what_they_name(
    device: Seq<char>,
    cpu: Option<Seq<char>>,
    ram: Option<u64>,
    os: Option<Seq<char>>,
)
    ensures
        ({
            let notes = tested_on_text(device, cpu, ram, os);
            &&& notes.len() == 6
            &&& cpu matches Some(s) ==> notes[1] == "CPU: "@ + s
            &&& ram matches Some(n) ==> notes[2] == "RAM: "@ + decimal(n as nat) + " GB"@
            &&& os matches Some(s) ==> notes[3] == "OS: "@ + s
            &&& notes[4] == "Audio Device: "@ + device
            &&& cpu is None ==> notes[1] == "CPU: "@ + "unknown"@
            &&& ram is None ==> notes[2] == "RAM: "@ + "unknown"@ + " GB"@
            &&& os is None ==> notes[3] == "OS: "@ + "unknown"@
        }),
{
}

/// A registry string is taken without the NUL at its end, which takes two bytes as
/// every code unit does.
pub proof fn law_registry_string_leaves_out_its_end(units: nat, odd: nat)
    requires
        odd < 2,
        2 * (units + 1) + odd <= u32::MAX,
    ensures
        string_units((2 * (units + 1) + odd) as u32) == units,
        string_units(0) == 0,
{
}

} // verus!
