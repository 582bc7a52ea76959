//! Temperature readings from the text report of the `sensors` command.
//!
//! The report is a run of chip sections: a line that is not empty, does not
//! start with whitespace and holds no colon names a chip, and the lines after
//! it belong to that chip. The motherboard reading is the `temp1:` line of
//! an `asus` or `acpitz` chip, the CPU reading the `temp1:` line of a
//! `k10temp` chip, and the GPU reading the `edge:` line of an `amdgpu` chip,
//! names and labels compared in lower case.
use vstd::prelude::*;
use crate::number::{Decimal, decimal_of, parse_decimal};
use crate::text::{
    chars_of, contains, contains_exec, first_containing, is_whitespace, is_ws, lines, split_lines,
    split_words, trim, trim_exec, views, words,
};

verus! {

/// The lower-case form of `s`, as `str::to_lowercase` gives it.
pub uninterp spec fn lower_of(s: Seq<char>) -> Seq<char>;

/// Relies on `str::to_lowercase`, whose result depends on the characters
/// alone.
#[verifier::external_body]
fn lowercase(s: &Vec<char>) -> (r: Vec<char>)
    ensures
        r@ == lower_of(s@),
{
    let text: String = s.iter().collect();
    text.to_lowercase().chars().collect()
}

/// Which reading a sensor line gives.
#[derive(Clone, Copy, Debug, PartialEq, Eq, Structural)]
pub enum Slot {
    Motherboard,
    Cpu,
    Gpu,
}

/// The temperatures found in a `sensors` report; each is absent when its
/// line was not found or did not hold a readable value.
#[derive(Clone, Copy, Debug, PartialEq, Eq, Structural)]
pub struct TempData {
    pub motherboard_temp: Option<Decimal>,
    pub cpu_temp: Option<Decimal>,
    pub gpu_temp: Option<Decimal>,
}

/// The reading that a line gives, from the lower-case chip name `lc` and the
/// lower-case trimmed line `ll`.
pub open spec fn slot_of(lc: Seq<char>, ll: Seq<char>) -> Option<Slot> {
    if (contains(lc, "asus"@) || contains(lc, "acpitz"@)) && contains(ll, "temp1:"@) {
        Some(Slot::Motherboard)
    } else if contains(lc, "k10temp"@) && contains(ll, "temp1:"@) {
        Some(Slot::Cpu)
    } else if contains(lc, "amdgpu"@) && contains(ll, "edge:"@) {
        Some(Slot::Gpu)
    } else {
        None
    }
}

/// The temperature on a sensor line: its first word that holds `°C`, with
/// the `+`, `°` and `C` at either end taken off, read as a number.
pub open spec fn temp_of(line: Seq<char>) -> Option<Decimal> {
    let ws = words(line);
    match first_containing(ws, "\u{b0}C"@, 0) {
        Some(k) => decimal_of(trim(ws[k], false)),
        None => None,
    }
}

/// A line that opens a chip section.
pub open spec fn is_chip_header(l: Seq<char>) -> bool {
    l.len() > 0 && !is_ws(l[0]) && !contains(l, ":"@)
}

/// A report line with the two lower-case forms that the scan compares: the
/// whole line (its chip name, when it opens a chip) and the trimmed line.
pub struct SensorLine {
    pub text: Vec<char>,
    pub lower: Vec<char>,
    pub lower_trimmed: Vec<char>,
}

/// A line, its lower-case form, and its trimmed lower-case form.
pub type LineForms = (Seq<char>, Seq<char>, Seq<char>);

pub open spec fn line_forms(v: Seq<SensorLine>) -> Seq<LineForms> {
    v.map_values(|l: SensorLine| (l.text@, l.lower@, l.lower_trimmed@))
}

/// The lines of a report with their lower-case forms.
pub open spec fn lowered_forms(ls: Seq<Seq<char>>) -> Seq<LineForms> {
    ls.map_values(|l: Seq<char>| (l, lower_of(l), lower_of(trim(l, true))))
}

/// The scan of a report: the lower-case name of the current chip, and the
/// readings so far.
pub type SensorScan = (Option<Seq<char>>, TempData);

pub open spec fn sensors_step(st: SensorScan, e: LineForms) -> SensorScan {
    let chip = if is_chip_header(e.0) {
        Some(e.1)
    } else {
        st.0
    };
    let t = st.1;
    match chip {
        Some(c) => match slot_of(c, e.2) {
            Some(Slot::Motherboard) => (chip, TempData { motherboard_temp: temp_of(e.0), ..t }),
            Some(Slot::Cpu) => (chip, TempData { cpu_temp: temp_of(e.0), ..t }),
            Some(Slot::Gpu) => (chip, TempData { gpu_temp: temp_of(e.0), ..t }),
            None => (chip, t),
        },
        None => (chip, t),
    }
}

pub open spec fn no_temps() -> TempData {
    TempData { motherboard_temp: None, cpu_temp: None, gpu_temp: None }
}

pub open spec fn sensors_scan(ls: Seq<LineForms>) -> SensorScan
    decreases ls.len(),
{
    if ls.len() == 0 {
        (None, no_temps())
    } else {
        sensors_step(sensors_scan(ls.drop_last()), ls.last())
    }
}

/// The readings of a whole report; a later matching line replaces an
/// earlier one's reading.
pub open spec fn sensors_of(out: Seq<char>) -> TempData {
    sensors_scan(lowered_forms(lines(out))).1
}

fn slot_for(lc: &Vec<char>, ll: &Vec<char>) -> (r: Option<Slot>)
    ensures
        r == slot_of(lc@, ll@),
{
    let temp1 = contains_exec(ll, &chars_of("temp1:"));
    if (contains_exec(lc, &chars_of("asus")) || contains_exec(lc, &chars_of("acpitz"))) && temp1 {
        Some(Slot::Motherboard)
    } else if contains_exec(lc, &chars_of("k10temp")) && temp1 {
        Some(Slot::Cpu)
    } else if contains_exec(lc, &chars_of("amdgpu")) && contains_exec(ll, &chars_of("edge:")) {
        Some(Slot::Gpu)
    } else {
        None
    }
}

/// The reading that a line of the chip `lower_chip` gives, where both are
/// already in lower case and the line is trimmed.
pub fn reading_slot(lower_chip: &str, lower_line: &str) -> (r: Option<Slot>)
    ensures
        r == slot_of(lower_chip@, lower_line@),
{
    slot_for(&chars_of(lower_chip), &chars_of(lower_line))
}

fn temp_for(line: &Vec<char>) -> (r: Option<Decimal>)
    ensures
        r == temp_of(line@),
{
    let ws = split_words(line);
    let mark = chars_of("\u{b0}C");
    let mut k: usize = 0;
    while k < ws.len()
        invariant
            k <= ws.len(),
            views(ws@) == words(line@),
            mark@ == "\u{b0}C"@,
            first_containing(views(ws@), mark@, 0) == first_containing(views(ws@), mark@, k as int),
        decreases ws.len() - k,
    {
        assert(views(ws@)[k as int] == ws[k as int]@);
        if contains_exec(&ws[k], &mark) {
            let clean = trim_exec(&ws[k], false);
            return parse_decimal(&clean);
        }
        k = k + 1;
    }
    None
}

/// Reads the temperature on one line of a `sensors` report.
pub fn parse_temp_line(line: &str) -> (r: Option<Decimal>)
    ensures
        r == temp_of(line@),
{
    temp_for(&chars_of(line))
}

/// Scans report lines, each given with its lower-case forms, for the
/// motherboard, CPU and GPU temperatures.
pub fn scan_sensor_lines(ls: &Vec<SensorLine>) -> (r: TempData)
    ensures
        r == sensors_scan(line_forms(ls@)).1,
{
    let colon = chars_of(":");
    let mut lower_chip: Option<Vec<char>> = None;
    let ghost chip: Option<Seq<char>> = None;
    let mut temps = TempData { motherboard_temp: None, cpu_temp: None, gpu_temp: None };
    let mut i: usize = 0;
    while i < ls.len()
        invariant
            i <= ls.len(),
            colon@ == ":"@,
            sensors_scan(line_forms(ls@).take(i as int)) == (chip, temps),
            match lower_chip {
                Some(lc) => chip == Some(lc@),
                None => chip is None,
            },
        decreases ls.len() - i,
    {
        let entry = &ls[i];
        let line = &entry.text;
        assert(line_forms(ls@).take(i + 1).drop_last() =~= line_forms(ls@).take(i as int));
        assert(line_forms(ls@).take(i + 1).last() == (
            line@,
            entry.lower@,
            entry.lower_trimmed@,
        ));
        if line.len() > 0 && !is_whitespace(line[0]) && !contains_exec(line, &colon) {
            lower_chip = Some(entry.lower.clone());
            proof { chip = Some(entry.lower@); }
        }
        match &lower_chip {
            Some(lc) => {
                match slot_for(lc, &entry.lower_trimmed) {
                    Some(Slot::Motherboard) => {
                        temps.motherboard_temp = temp_for(line);
                    },
                    Some(Slot::Cpu) => {
                        temps.cpu_temp = temp_for(line);
                    },
                    Some(Slot::Gpu) => {
                        temps.gpu_temp = temp_for(line);
                    },
                    None => {},
                }
            },
            None => {},
        }
        i = i + 1;
    }
    assert(line_forms(ls@).take(ls.len() as int) =~= line_forms(ls@));
    temps
}

/// Reads the motherboard, CPU and GPU temperatures from a `sensors` report.
pub fn parse_sensors(output: &str) -> (r: TempData)
    ensures
        r == sensors_of(output@),
{
    let text = chars_of(output);
    let ls = split_lines(&text);
    let mut forms: Vec<SensorLine> = Vec::new();
    let mut i: usize = 0;
    while i < ls.len()
        invariant
            i <= ls.len(),
            views(ls@) == lines(text@),
            text@ == output@,
            line_forms(forms@) == lowered_forms(views(ls@)).take(i as int),
        decreases ls.len() - i,
    {
        let line = &ls[i];
        assert(views(ls@)[i as int] == line@);
        let entry = SensorLine {
            text: line.clone(),
            lower: lowercase(line),
            lower_trimmed: lowercase(&trim_exec(line, true)),
        };
        assert(entry.text@ =~= line@);
        let ghost before = forms@;
        forms.push(entry);
        assert(line_forms(forms@) =~= line_forms(before).push(
            (line@, lower_of(line@), lower_of(trim(line@, true))),
        ));
        i = i + 1;
        assert(line_forms(forms@) =~= lowered_forms(views(ls@)).take(i as int));
    }
    assert(lowered_forms(views(ls@)).take(ls.len() as int) =~= lowered_forms(views(ls@)));
    scan_sensor_lines(&forms)
}

} // verus!
