//! Frame composition.
//!
//! One frame is the whole display of one refresh tick: a fixed sequence of
//! lines built from the sampled values.  The composer neither samples nor
//! prints; it is handed the values and hands back the finished lines.

use crate::sensors::Reading;
use crate::text::{
    decimal, pad_end, pad_start, push_decimal, push_number, push_pad_end, push_pad_start,
};
use crate::units::{
    lowest, max_of, min_of, peak, percent, percent_of, push_tenths_short, ratio_bar_percent,
    rounded_ratio, tenths_short, GIB,
};
use crate::visual::{
    bars, bars_text, capacity_text, clock_text, mem_bar, mem_usage, mhz, usage_text, Palette,
};
use vstd::prelude::*;

verus! {

/// The speed of one fan.
#[derive(Clone, Copy, Debug)]
pub struct Fan {
    /// Share of the top speed, in percent.
    pub percent: u32,
    /// Revolutions per minute.
    pub rpm: u32,
}

/// A clock and the highest value it can take, both in MHz.
#[derive(Clone, Copy, Debug)]
pub struct Clock {
    pub current: u32,
    pub ceiling: u32,
}

/// The processor's sampled values.
#[derive(Debug)]
pub struct Processor {
    /// Utilisation of the whole processor, in percent.
    pub usage: u32,
    /// Utilisation of each core, in percent.
    pub core_usage: Vec<u32>,
    /// Frequency of each core, in MHz.
    pub core_frequency: Vec<u64>,
    /// Rated top frequency of each core, in MHz.
    pub core_rating: Vec<u32>,
}

/// Main memory and swap space, in bytes.
#[derive(Clone, Copy, Debug)]
pub struct Memory {
    pub used: u64,
    pub total: u64,
    pub swap_used: u64,
    pub swap_total: u64,
}

/// The graphics accelerator's sampled values.
#[derive(Debug)]
pub struct Accelerator {
    /// Utilisation, in percent.
    pub usage: u32,
    /// Temperature, in degrees Celsius.
    pub temperature: u32,
    /// Utilisation of the memory controller, in percent.
    pub memory_percent: u32,
    /// Power draw, in milliwatts.
    pub power: u32,
    /// Power limit, in milliwatts.
    pub power_limit: u32,
    /// Memory in use, in bytes.
    pub memory_used: u64,
    /// Memory in all, in bytes.
    pub memory_total: u64,
    pub graphics_clock: Clock,
    pub memory_clock: Clock,
    pub shader_clock: Clock,
    pub video_clock: Clock,
    pub fans: Vec<Fan>,
    /// Data received over the bus, in KB/s.
    pub bus_received: u32,
    /// Data sent over the bus, in KB/s.
    pub bus_sent: u32,
    /// Generation of the bus link.
    pub link_generation: u32,
    /// Number of lanes of the bus link.
    pub link_width: u32,
}

/// The counters of one network interface.
#[derive(Debug)]
pub struct Interface {
    pub name: String,
    /// Bytes received since the last sample.
    pub received: u64,
    /// Bytes sent since the last sample.
    pub transmitted: u64,
    /// Packets received since the last sample.
    pub packets_received: u64,
    /// Packets sent since the last sample.
    pub packets_transmitted: u64,
    /// Bytes received in all.
    pub total_received: u64,
    /// Bytes sent in all.
    pub total_transmitted: u64,
}

/// The counters of one disk, in bytes.
#[derive(Debug)]
pub struct Disk {
    /// The device path of the disk.
    pub name: String,
    pub total: u64,
    pub free: u64,
    /// Bytes read since the last sample.
    pub read: u64,
    /// Bytes written since the last sample.
    pub written: u64,
    /// Bytes read in all.
    pub total_read: u64,
    /// Bytes written in all.
    pub total_written: u64,
}

/// Everything one frame is composed from.
#[derive(Debug)]
pub struct FrameInputs {
    pub processor: Processor,
    pub memory: Memory,
    pub accelerator: Accelerator,
    pub readings: Vec<Reading>,
    pub interfaces: Vec<Interface>,
    pub disks: Vec<Disk>,
    /// Whether the table of all device groups is shown.
    pub extended: bool,
}

/// The cells that a capacity bar of the frame has.
pub const BAR_WIDTH: u32 = 14;

/// Disks of this size or less, in bytes, are not listed.
pub const SMALL_DISK: u64 = 8 * GIB;

/// The first value, 0 if there is none.
pub open spec fn first_or_zero(values: Seq<u32>) -> u32 {
    if values.len() > 0 {
        values[0]
    } else {
        0
    }
}

/// A value shown in the colour of its own grade: the number right-justified
/// in `width` characters, then its unit.
pub open spec fn graded(p: Palette, value: nat, grade: nat, width: nat, unit: Seq<char>) -> Seq<
    char,
> {
    p.percent_color(grade) + pad_start(decimal(value), width) + unit + p.reset@
}

/// The processor line: utilisation and package temperature.
#[verifier::opaque]
pub open spec fn processor_line(p: Palette, usage: u32, temperature: u32) -> Seq<char> {
    " "@ + p.green@ + "CPU"@ + p.reset@ + graded(p, usage as nat, usage as nat, 3, "%"@) + graded(
        p,
        temperature as nat,
        temperature as nat,
        4,
        "°C"@,
    )
}

/// The accelerator line: utilisation, temperature, and power draw against
/// the power limit, both in watts.
#[verifier::opaque]
pub open spec fn accelerator_line(p: Palette, a: Accelerator) -> Seq<char> {
    let draw = (a.power / 1000) as nat;
    let limit = (a.power_limit / 1000) as nat;
    let grade = percent(draw, limit);
    " "@ + p.magenta@ + "GPU"@ + p.reset@ + graded(p, a.usage as nat, a.usage as nat, 3, "%"@)
        + graded(p, a.temperature as nat, a.temperature as nat, 4, "°C "@) + graded(
        p,
        draw,
        grade,
        3,
        "W"@,
    ) + p.dim@ + "/"@ + p.reset@ + graded(p, limit, grade, 0, "W"@)
}

/// The memory line: a capacity bar for main memory, then the swap space.
#[verifier::opaque]
pub open spec fn memory_line(p: Palette, m: Memory) -> Seq<char> {
    " "@ + p.red@ + "RAM"@ + p.reset@ + " "@ + capacity_text(
        p,
        m.used as nat,
        m.total as nat,
        BAR_WIDTH as nat,
    ) + "  "@ + usage_text(p, m.swap_used as nat, m.swap_total as nat)
}

/// The accelerator memory line: a capacity bar, then the utilisation of the
/// memory controller.
#[verifier::opaque]
pub open spec fn accelerator_memory_line(p: Palette, a: Accelerator) -> Seq<char> {
    p.red@ + "VRAM "@ + p.reset@ + capacity_text(
        p,
        a.memory_used as nat,
        a.memory_total as nat,
        BAR_WIDTH as nat,
    ) + "     "@ + graded(p, a.memory_percent as nat, a.memory_percent as nat, 0, "%"@)
}

/// Appends a value in the colour of its grade.
pub fn push_graded(out: &mut String, p: &Palette, value: u32, grade: u32, width: usize, unit: &str)
    ensures
        final(out)@ == old(out)@ + graded(*p, value as nat, grade as nat, width as nat, unit@),
{
    let mut part = String::new();
    part.append(p.percent_col(grade));
    assert(part@ == p.percent_color(grade as nat));
    push_number(&mut part, value as u64, width);
    part.append(unit);
    part.append(p.reset);
    out.append(part.as_str());
}

/// The processor line: utilisation and package temperature.
pub fn compose_processor_line(p: &Palette, usage: u32, temperature: u32) -> (line: String)
    ensures
        line@ == processor_line(*p, usage, temperature),
{
    reveal(processor_line);
    let mut line = String::new();
    line.append(" ");
    assert(line@ == " "@);
    line.append(p.green);
    line.append("CPU");
    line.append(p.reset);
    push_graded(&mut line, p, usage, usage, 3, "%");
    push_graded(&mut line, p, temperature, temperature, 4, "°C");
    line
}

/// The accelerator line: utilisation, temperature and power.
pub fn compose_accelerator_line(p: &Palette, a: &Accelerator) -> (line: String)
    ensures
        line@ == accelerator_line(*p, *a),
{
    reveal(accelerator_line);
    let draw: u32 = a.power / 1000;
    let limit: u32 = a.power_limit / 1000;
    let grade = percent_of(draw as u64, limit as u64);
    let mut line = String::new();
    line.append(" ");
    assert(line@ == " "@);
    line.append(p.magenta);
    line.append("GPU");
    line.append(p.reset);
    push_graded(&mut line, p, a.usage, a.usage, 3, "%");
    push_graded(&mut line, p, a.temperature, a.temperature, 4, "°C ");
    push_graded(&mut line, p, draw, grade, 3, "W");
    line.append(p.dim);
    line.append("/");
    line.append(p.reset);
    push_graded(&mut line, p, limit, grade, 0, "W");
    line
}

/// The memory line: a capacity bar for main memory, then the swap space.
pub fn compose_memory_line(p: &Palette, m: &Memory) -> (line: String)
    ensures
        line@ == memory_line(*p, *m),
{
    reveal(memory_line);
    let mut line = String::new();
    line.append(" ");
    assert(line@ == " "@);
    line.append(p.red);
    line.append("RAM");
    line.append(p.reset);
    line.append(" ");
    line.append(mem_bar(p, m.used, m.total, BAR_WIDTH).as_str());
    line.append("  ");
    line.append(mem_usage(p, m.swap_used, m.swap_total).as_str());
    line
}

/// The accelerator memory line.
pub fn compose_accelerator_memory_line(p: &Palette, a: &Accelerator) -> (line: String)
    ensures
        line@ == accelerator_memory_line(*p, *a),
{
    reveal(accelerator_memory_line);
    let mut line = String::new();
    line.append(p.red);
    assert(line@ == p.red@);
    line.append("VRAM ");
    line.append(p.reset);
    line.append(mem_bar(p, a.memory_used, a.memory_total, BAR_WIDTH).as_str());
    line.append("     ");
    push_graded(&mut line, p, a.memory_percent, a.memory_percent, 0, "%");
    line
}

/// How far each core runs towards its rated frequency, in percent.  Cores
/// without a rating, and ratings without a core, are left out.
pub open spec fn frequency_percents(frequency: Seq<u64>, rating: Seq<u32>) -> Seq<u32> {
    Seq::new(
        if frequency.len() < rating.len() {
            frequency.len()
        } else {
            rating.len()
        },
        |i: int| percent(frequency[i] as nat, rating[i] as nat) as u32,
    )
}

/// The rated frequencies in short: the lowest, and the highest if it is
/// another.
pub open spec fn rating_text(rating: Seq<u32>) -> Seq<char> {
    if lowest(rating) == peak(rating) {
        decimal(lowest(rating) as nat) + "MHz"@
    } else {
        decimal(lowest(rating) as nat) + "-"@ + decimal(peak(rating) as nat) + "MHz"@
    }
}

/// The colour code of a peak value, right-justified in `width` characters.
pub open spec fn peak_color(p: Palette, value: u32, width: nat) -> Seq<char> {
    pad_start(p.percent_color(value as nat), width)
}

/// The line of core utilisations: a bar for each core, then the highest.
#[verifier::opaque]
pub open spec fn core_line(p: Palette, usage: Seq<u32>) -> Seq<char> {
    p.blue@ + "CORE"@ + p.reset@ + " "@ + bars_text(p, usage) + peak_color(p, peak(usage), 5)
        + " "@ + decimal(peak(usage) as nat) + "%"@ + p.reset@
}

/// The line of core frequencies: a bar for each core, the highest, and
/// the rated range.
#[verifier::opaque]
pub open spec fn frequency_line(p: Palette, frequency: Seq<u64>, rating: Seq<u32>) -> Seq<char> {
    let shares = frequency_percents(frequency, rating);
    p.blue@ + "FREQ"@ + p.reset@ + " "@ + bars_text(p, shares) + peak_color(p, peak(shares), 5)
        + " "@ + pad_end(decimal(peak(shares) as nat) + "%"@, 5) + p.reset@ + p.dim@ + rating_text(
        rating,
    ) + p.reset@
}

/// How wide the colour code of the peak temperature is made, so that the
/// peak stands below that of the core line when fewer temperatures than
/// utilisations are shown.
pub open spec fn temperature_gap(cores: nat, temperatures: nat) -> nat {
    if 5 + cores >= temperatures {
        (5 + cores - temperatures) as nat
    } else {
        0
    }
}

/// The line of core temperatures: a bar for each value, then the highest.
#[verifier::opaque]
pub open spec fn temperature_line(p: Palette, temperatures: Seq<u32>, cores: nat) -> Seq<char> {
    p.blue@ + "TEMP"@ + p.reset@ + " "@ + bars_text(p, temperatures) + peak_color(
        p,
        peak(temperatures),
        temperature_gap(cores, temperatures.len()),
    ) + " "@ + decimal(peak(temperatures) as nat) + "C"@ + p.reset@
}

/// One clock of the clock line: its name dimmed, then its indicator.
pub open spec fn clock_part(p: Palette, name: Seq<char>, clock: Clock) -> Seq<char> {
    p.dim@ + name + p.reset@ + clock_text(p, clock.current as nat, clock.ceiling as nat)
}

/// The line of accelerator clocks.
#[verifier::opaque]
pub open spec fn clock_line(p: Palette, a: Accelerator) -> Seq<char> {
    p.blue@ + "CLCK"@ + p.reset@ + " "@ + clock_part(p, "GFX"@, a.graphics_clock) + "  "@
        + clock_part(p, "MEM"@, a.memory_clock) + "  "@ + clock_part(p, "SM"@, a.shader_clock)
        + "  "@ + clock_part(p, "VID"@, a.video_clock)
}

/// One fan: its speed in percent, then its revolutions.
pub open spec fn fan_text(p: Palette, fan: Fan) -> Seq<char> {
    graded(p, fan.percent as nat, fan.percent as nat, 0, "%"@) + " "@ + p.dim@ + pad_start(
        decimal(fan.rpm as nat),
        4,
    ) + "rpm"@ + p.reset@
}

/// The fans, separated by commas.
pub open spec fn fans_text(p: Palette, fans: Seq<Fan>) -> Seq<char>
    decreases fans.len(),
{
    if fans.len() == 0 {
        Seq::empty()
    } else if fans.len() == 1 {
        fan_text(p, fans[0])
    } else {
        fans_text(p, fans.drop_last()) + ", "@ + fan_text(p, fans.last())
    }
}

/// The fan line.
#[verifier::opaque]
pub open spec fn fan_line(p: Palette, fans: Seq<Fan>) -> Seq<char> {
    p.sky@ + "FANS"@ + p.reset@ + " "@ + fans_text(p, fans)
}

/// What one lane of the bus carries, in MB/s, by the link's generation.  An
/// unknown generation counts as the fourth.
pub open spec fn lane_rate(generation: u32) -> nat {
    if generation == 1 {
        250
    } else if generation == 2 {
        500
    } else if generation == 3 {
        985
    } else if generation == 5 {
        3938
    } else {
        1969
    }
}

/// What the bus link carries at most, in MB/s.
pub open spec fn bus_ceiling(a: Accelerator) -> nat {
    lane_rate(a.link_generation) * (a.link_width as nat)
}

/// The bus line: received and sent data in MB/s, each graded against the
/// ceiling of the link, then the ceiling in GB/s.
#[verifier::opaque]
pub open spec fn bus_line(p: Palette, a: Accelerator) -> Seq<char> {
    let received = (a.bus_received / 1000) as nat;
    let sent = (a.bus_sent / 1000) as nat;
    let ceiling = bus_ceiling(a);
    p.sky@ + "PCIE"@ + p.reset@ + " "@ + p.green@ + "▼"@ + p.reset@ + graded(
        p,
        received,
        percent(received, ceiling),
        4,
        "M"@,
    ) + "  "@ + p.magenta@ + "▲"@ + p.reset@ + graded(p, sent, percent(sent, ceiling), 4, "M"@)
        + "   "@ + p.dim@ + tenths_short(rounded_ratio(ceiling, 100)) + "GB/s"@ + p.reset@
}

/// How far each core runs towards its rated frequency, in percent.
pub fn core_frequency_percents(frequency: &Vec<u64>, rating: &Vec<u32>) -> (shares: Vec<u32>)
    ensures
        shares@ == frequency_percents(frequency@, rating@),
{
    let count: usize = if frequency.len() < rating.len() {
        frequency.len()
    } else {
        rating.len()
    };
    let mut shares: Vec<u32> = Vec::new();
    let mut i: usize = 0;
    while i < count
        invariant
            i <= count,
            count <= frequency.len(),
            count <= rating.len(),
            shares.len() == i,
            forall|k: int|
                0 <= k < i ==> shares[k] == percent(frequency[k] as nat, rating[k] as nat) as u32,
        decreases count - i,
    {
        shares.push(ratio_bar_percent(frequency[i], rating[i] as u64));
        i += 1;
    }
    assert(shares@ =~= frequency_percents(frequency@, rating@));
    shares
}

/// Appends the rated frequencies in short.
fn push_rating(out: &mut String, rating: &Vec<u32>)
    ensures
        final(out)@ == old(out)@ + rating_text(rating@),
{
    let low = min_of(rating);
    let high = max_of(rating);
    let mut part = String::new();
    push_decimal(&mut part, low as u64);
    assert(part@ == decimal(low as nat));
    if low != high {
        part.append("-");
        push_decimal(&mut part, high as u64);
    }
    part.append("MHz");
    out.append(part.as_str());
}

/// The line of core utilisations.
pub fn compose_core_line(p: &Palette, usage: &Vec<u32>) -> (line: String)
    ensures
        line@ == core_line(*p, usage@),
{
    reveal(core_line);
    let high = max_of(usage);
    let mut line = String::new();
    line.append(p.blue);
    assert(line@ == p.blue@);
    line.append("CORE");
    line.append(p.reset);
    line.append(" ");
    line.append(bars(p, usage).as_str());
    push_pad_start(&mut line, p.percent_col(high), 5);
    line.append(" ");
    push_decimal(&mut line, high as u64);
    line.append("%");
    line.append(p.reset);
    line
}

/// The line of core frequencies.
pub fn compose_frequency_line(p: &Palette, frequency: &Vec<u64>, rating: &Vec<u32>) -> (line:
    String)
    ensures
        line@ == frequency_line(*p, frequency@, rating@),
{
    reveal(frequency_line);
    let shares = core_frequency_percents(frequency, rating);
    let high = max_of(&shares);
    let mut share = String::new();
    push_decimal(&mut share, high as u64);
    assert(share@ == decimal(high as nat));
    share.append("%");
    let mut line = String::new();
    line.append(p.blue);
    assert(line@ == p.blue@);
    line.append("FREQ");
    line.append(p.reset);
    line.append(" ");
    line.append(bars(p, &shares).as_str());
    push_pad_start(&mut line, p.percent_col(high), 5);
    line.append(" ");
    push_pad_end(&mut line, share.as_str(), 5);
    line.append(p.reset);
    line.append(p.dim);
    push_rating(&mut line, rating);
    line.append(p.reset);
    line
}

/// The line of core temperatures, for a display that shows `cores` core
/// utilisations.
pub fn compose_temperature_line(p: &Palette, temperatures: &Vec<u32>, cores: usize) -> (line:
    String)
    requires
        cores + 5 <= usize::MAX,
    ensures
        line@ == temperature_line(*p, temperatures@, cores as nat),
{
    reveal(temperature_line);
    let high = max_of(temperatures);
    let gap: usize = if cores >= temperatures.len() {
        cores - temperatures.len() + 5
    } else if temperatures.len() - cores <= 5 {
        5 - (temperatures.len() - cores)
    } else {
        0
    };
    let mut line = String::new();
    line.append(p.blue);
    assert(line@ == p.blue@);
    line.append("TEMP");
    line.append(p.reset);
    line.append(" ");
    line.append(bars(p, temperatures).as_str());
    push_pad_start(&mut line, p.percent_col(high), gap);
    line.append(" ");
    push_decimal(&mut line, high as u64);
    line.append("C");
    line.append(p.reset);
    line
}

/// Appends one clock of the clock line.
fn push_clock(out: &mut String, p: &Palette, name: &str, clock: Clock)
    ensures
        final(out)@ == old(out)@ + clock_part(*p, name@, clock),
{
    let mut part = String::new();
    part.append(p.dim);
    assert(part@ == p.dim@);
    part.append(name);
    part.append(p.reset);
    part.append(mhz(p, clock.current, clock.ceiling).as_str());
    out.append(part.as_str());
}

/// The line of accelerator clocks.
pub fn compose_clock_line(p: &Palette, a: &Accelerator) -> (line: String)
    ensures
        line@ == clock_line(*p, *a),
{
    reveal(clock_line);
    let mut line = String::new();
    line.append(p.blue);
    assert(line@ == p.blue@);
    line.append("CLCK");
    line.append(p.reset);
    line.append(" ");
    push_clock(&mut line, p, "GFX", a.graphics_clock);
    line.append("  ");
    push_clock(&mut line, p, "MEM", a.memory_clock);
    line.append("  ");
    push_clock(&mut line, p, "SM", a.shader_clock);
    line.append("  ");
    push_clock(&mut line, p, "VID", a.video_clock);
    line
}

/// One fan: its speed in percent, then its revolutions.
fn compose_fan(p: &Palette, fan: Fan) -> (part: String)
    ensures
        part@ == fan_text(*p, fan),
{
    let mut part = String::new();
    push_graded(&mut part, p, fan.percent, fan.percent, 0, "%");
    assert(part@ == graded(*p, fan.percent as nat, fan.percent as nat, 0, "%"@));
    part.append(" ");
    part.append(p.dim);
    push_number(&mut part, fan.rpm as u64, 4);
    part.append("rpm");
    part.append(p.reset);
    part
}

/// The fan line.
pub fn compose_fan_line(p: &Palette, fans: &Vec<Fan>) -> (line: String)
    ensures
        line@ == fan_line(*p, fans@),
{
    reveal(fan_line);
    let mut all = String::new();
    let mut i: usize = 0;
    assert(fans@.take(0) == Seq::<Fan>::empty());
    while i < fans.len()
        invariant
            i <= fans.len(),
            all@ == fans_text(*p, fans@.take(i as int)),
        decreases fans.len() - i,
    {
        proof {
            assert(fans@.take(i + 1).drop_last() == fans@.take(i as int));
            assert(fans@.take(i + 1).last() == fans@[i as int]);
            assert(fans@.take(i + 1)[0] == fans@[0]);
        }
        if i > 0 {
            all.append(", ");
        }
        all.append(compose_fan(p, fans[i]).as_str());
        assert(all@ == fans_text(*p, fans@.take(i + 1)));
        i += 1;
    }
    assert(fans@.take(i as int) == fans@);
    let mut line = String::new();
    line.append(p.sky);
    assert(line@ == p.sky@);
    line.append("FANS");
    line.append(p.reset);
    line.append(" ");
    line.append(all.as_str());
    line
}

/// What one lane of the bus carries, in MB/s.
pub fn lane_throughput(generation: u32) -> (rate: u32)
    ensures
        rate == lane_rate(generation),
{
    match generation {
        1 => 250,
        2 => 500,
        3 => 985,
        5 => 3938,
        _ => 1969,
    }
}

/// The bus line.
pub fn compose_bus_line(p: &Palette, a: &Accelerator) -> (line: String)
    ensures
        line@ == bus_line(*p, *a),
{
    reveal(bus_line);
    let received: u32 = a.bus_received / 1000;
    let sent: u32 = a.bus_sent / 1000;
    let rate = lane_throughput(a.link_generation);
    assert((rate as nat) * (a.link_width as nat) <= 3938 * 0xFFFF_FFFF) by (nonlinear_arith)
        requires
            rate <= 3938,
            a.link_width <= 0xFFFF_FFFF,
    ;
    let ceiling: u64 = (rate as u64) * (a.link_width as u64);
    let mut line = String::new();
    line.append(p.sky);
    assert(line@ == p.sky@);
    line.append("PCIE");
    line.append(p.reset);
    line.append(" ");
    line.append(p.green);
    line.append("▼");
    line.append(p.reset);
    push_graded(&mut line, p, received, percent_of(received as u64, ceiling), 4, "M");
    line.append("  ");
    line.append(p.magenta);
    line.append("▲");
    line.append(p.reset);
    push_graded(&mut line, p, sent, percent_of(sent as u64, ceiling), 4, "M");
    line.append("   ");
    line.append(p.dim);
    push_tenths_short(&mut line, (2 * ceiling + 100) / 200);
    line.append("GB/s");
    line.append(p.reset);
    line
}

} // verus!
