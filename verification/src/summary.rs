//! The inventory of the hardware.
//!
//! The inventory is written once, in place of frames: the processor, each
//! accelerator with its memory and clock ceilings, the board, the devices
//! that report a temperature, and the network interfaces with their
//! addresses.

use crate::composer::joined_lines;
use crate::listing::{interface_is_listed, is_listed};
use crate::names::{devices_among, inventory_devices, name_views, sort_names};
use crate::text::{
    chars_of, decimal, digit_char, push_chars, push_decimal, replace, replace_all, string_of,
    texts_of,
};
use crate::units::{push_tenths_short, rounded_ratio, tenths_short, GIB};
use crate::visual::Palette;
use vstd::prelude::*;

verus! {

/// What is known of one accelerator.
#[derive(Debug)]
pub struct AcceleratorInfo {
    pub name: String,
    /// Memory in all, in bytes.
    pub memory_total: u64,
    /// Ceiling of the memory clock, in MHz.
    pub memory_clock: u32,
    /// Ceiling of the graphics clock, in MHz.
    pub graphics_clock: u32,
    /// Ceiling of the shader clock, in MHz.
    pub shader_clock: u32,
    /// Ceiling of the video clock, in MHz.
    pub video_clock: u32,
    /// Number of cores.
    pub cores: u32,
    /// Energy consumed since the driver was loaded, in millijoules.
    pub energy: u64,
    /// Version of the driver.
    pub driver: String,
    /// Performance state, from 0, the highest, to 15.
    pub performance_state: u32,
    /// Version of the compute interface.
    pub compute_version: i32,
}

/// One address of a network interface.
#[derive(Debug)]
pub struct Address {
    pub text: String,
    /// Length of the network prefix, in bits.
    pub prefix: u8,
}

/// What is known of one network interface.
#[derive(Debug)]
pub struct InterfaceInfo {
    pub name: String,
    pub addresses: Vec<Address>,
    /// Hardware address.
    pub mac: String,
    /// Bytes received in all.
    pub total_received: u64,
    /// Bytes sent in all.
    pub total_transmitted: u64,
}

/// Everything the inventory is written from.
#[derive(Debug)]
pub struct Inventory {
    /// The processor's brand name.
    pub processor: String,
    /// The number of processor cores.
    pub cores: u64,
    pub accelerators: Vec<AcceleratorInfo>,
    /// The board's name.
    pub board: String,
    /// The labels of the sensors that report a temperature.
    pub sensor_labels: Vec<String>,
    pub interfaces: Vec<InterfaceInfo>,
}

/// The processor's brand without trade mark signs and the vendor's
/// prefixes.
pub open spec fn short_brand(brand: Seq<char>) -> Seq<char> {
    replace_all(
        replace_all(
            replace_all(replace_all(brand, "(R)"@, Seq::empty()), "(TM)"@, Seq::empty()),
            "Intel "@,
            Seq::empty(),
        ),
        "Core "@,
        Seq::empty(),
    )
}

/// The accelerator's name without the vendor's prefixes.
pub open spec fn short_model(name: Seq<char>) -> Seq<char> {
    replace_all(replace_all(name, "NVIDIA "@, Seq::empty()), "GeForce "@, Seq::empty())
}

/// A number of hundredths with as many decimal places as are not 0, two at
/// most.
pub open spec fn hundredths_short(hundredths: nat) -> Seq<char> {
    if hundredths % 100 == 0 {
        decimal(hundredths / 100)
    } else if hundredths % 10 == 0 {
        decimal(hundredths / 100).push('.').push(digit_char(hundredths / 10 % 10))
    } else {
        decimal(hundredths / 100).push('.').push(digit_char(hundredths / 10 % 10)).push(
            digit_char(hundredths % 10),
        )
    }
}

/// The decimal numeral of a number that may be negative.
pub open spec fn signed_decimal(n: int) -> Seq<char> {
    if n < 0 {
        seq!['-'] + decimal((-n) as nat)
    } else {
        decimal(n as nat)
    }
}

/// The mark before an entry of a list that has more entries.
pub open spec fn branch(p: Palette, color: Seq<char>) -> Seq<char> {
    p.dim@ + color + "├─"@ + p.reset@
}

/// The mark before the last entry of a list.
pub open spec fn last_branch(p: Palette, color: Seq<char>) -> Seq<char> {
    p.dim@ + color + "└─"@ + p.reset@
}

/// The entries of a list, each behind its mark.
pub open spec fn tree_lines(p: Palette, color: Seq<char>, entries: Seq<Seq<char>>) -> Seq<
    Seq<char>,
> {
    Seq::new(
        entries.len(),
        |i: int|
            if i == entries.len() - 1 {
                last_branch(p, color) + " "@ + entries[i]
            } else {
                branch(p, color) + " "@ + entries[i]
            },
    )
}

/// The processor line: brand and number of cores.
#[verifier::opaque]
pub open spec fn processor_summary(p: Palette, brand: Seq<char>, cores: u64) -> Seq<char> {
    p.sky@ + "CPU"@ + p.reset@ + " "@ + short_brand(brand) + " "@ + p.blue@ + "x"@ + decimal(
        cores as nat,
    ) + " Cores"@ + p.reset@
}

/// A clock ceiling of the accelerator: its name dimmed, then the value.
pub open spec fn ceiling_text(p: Palette, name: Seq<char>, mhz: u32) -> Seq<char> {
    p.dim@ + name + p.reset@ + " "@ + p.blue@ + decimal(mhz as nat) + "MHz"@ + p.reset@
}

/// The lines of one accelerator: its name, then its memory in GiB and the
/// ceiling of the memory clock, the other clock ceilings, the number of
/// cores, the energy consumed in MJ, the driver, the performance state and
/// the version of the compute interface.
#[verifier::opaque]
pub open spec fn accelerator_summary(p: Palette, a: AcceleratorInfo) -> Seq<Seq<char>> {
    let mark = branch(p, p.magenta@);
    seq![
        p.magenta@ + "GPU"@ + p.reset@ + " "@ + short_model(a.name@),
        mark + " VRAM "@ + p.green@ + tenths_short(
            rounded_ratio(10 * (a.memory_total as nat), GIB as nat),
        ) + "GB"@ + p.reset@ + " "@ + p.blue@ + decimal(a.memory_clock as nat) + "MHz"@ + p.reset@,
        mark + " Clock "@ + ceiling_text(p, "Gfx"@, a.graphics_clock) + "  "@ + ceiling_text(
            p,
            "SM"@,
            a.shader_clock,
        ) + "  "@ + ceiling_text(p, "Vid"@, a.video_clock),
        mark + " Cores "@ + p.blue@ + decimal(a.cores as nat) + p.reset@,
        mark + " Consumed "@ + p.blue@ + hundredths_short(
            rounded_ratio(a.energy as nat, 10_000_000),
        ) + "MJ"@ + p.reset@,
        mark + " Driver "@ + p.blue@ + a.driver@ + p.reset@,
        mark + " Perf "@ + p.blue@ + decimal(a.performance_state as nat) + p.reset@ + " "@ + p.dim@
            + "(0-15, 0 = max)"@ + p.reset@,
        last_branch(p, p.magenta@) + " CUDA "@ + p.blue@ + signed_decimal(
            a.compute_version as int,
        ) + p.reset@,
    ]
}

/// The lines of all accelerators.
pub open spec fn accelerators_summary(p: Palette, all: Seq<AcceleratorInfo>) -> Seq<Seq<char>>
    decreases all.len(),
{
    if all.len() == 0 {
        Seq::empty()
    } else {
        accelerators_summary(p, all.drop_last()) + accelerator_summary(p, all.last())
    }
}

/// One address: the family by the length of its prefix, then the address.
pub open spec fn address_text(p: Palette, address: Address) -> Seq<char> {
    if address.prefix == 24 {
        "ipv4["@ + p.dim@ + address.text@ + p.reset@ + "]"@
    } else {
        "ipv6["@ + p.dim@ + address.text@ + p.reset@ + "]"@
    }
}

/// The addresses of an interface, separated by commas.
pub open spec fn addresses_text(p: Palette, addresses: Seq<Address>) -> Seq<char>
    decreases addresses.len(),
{
    if addresses.len() == 0 {
        Seq::empty()
    } else if addresses.len() == 1 {
        address_text(p, addresses[0])
    } else {
        addresses_text(p, addresses.drop_last()) + ", "@ + address_text(p, addresses.last())
    }
}

/// The entry of an interface: its name, its addresses and its hardware
/// address.
pub open spec fn interface_entry(p: Palette, i: InterfaceInfo) -> Seq<char> {
    p.blue@ + i.name@ + p.reset@ + " "@ + addresses_text(p, i.addresses@) + p.reset@ + " mac["@
        + p.dim@ + i.mac@ + p.reset@ + "]"@
}

/// The entries of the interfaces that are listed.
pub open spec fn interface_entries(p: Palette, interfaces: Seq<InterfaceInfo>) -> Seq<Seq<char>>
    decreases interfaces.len(),
{
    if interfaces.len() == 0 {
        Seq::empty()
    } else {
        let before = interface_entries(p, interfaces.drop_last());
        let last = interfaces.last();
        if is_listed(last.name@, last.total_received, last.total_transmitted) {
            before.push(interface_entry(p, last))
        } else {
            before
        }
    }
}

/// The lines of the inventory.
pub open spec fn summary_lines(p: Palette, inventory: Inventory) -> Seq<Seq<char>> {
    seq![processor_summary(p, inventory.processor@, inventory.cores)] + accelerators_summary(
        p,
        inventory.accelerators@,
    ) + seq![p.red@ + "MOBO"@ + p.reset@ + " "@ + inventory.board@] + tree_lines(
        p,
        p.red@,
        inventory_devices(texts_of(inventory.sensor_labels@)),
    ) + seq![p.cyan@ + "Networks"@ + p.reset@ + " "@] + tree_lines(
        p,
        p.cyan@,
        interface_entries(p, inventory.interfaces@),
    )
}

/// Appends a number of hundredths with as many decimal places as are not 0.
fn push_hundredths_short(out: &mut String, hundredths: u64)
    ensures
        final(out)@ == old(out)@ + hundredths_short(hundredths as nat),
{
    push_decimal(out, hundredths / 100);
    if hundredths % 100 != 0 {
        out.push('.');
        out.push((48u8 + (hundredths / 10 % 10) as u8) as char);
        if hundredths % 10 != 0 {
            out.push((48u8 + (hundredths % 10) as u8) as char);
        }
    }
    assert(out@ =~= old(out)@ + hundredths_short(hundredths as nat));
}

/// Appends the decimal numeral of a number that may be negative.
fn push_signed(out: &mut String, n: i32)
    ensures
        final(out)@ == old(out)@ + signed_decimal(n as int),
{
    if n < 0 {
        out.push('-');
        push_decimal(out, (-(n as i64)) as u64);
        assert(out@ =~= old(out)@ + signed_decimal(n as int));
    } else {
        push_decimal(out, n as u64);
    }
}

/// The text of `chars` with two patterns removed, one after the other.
fn without(text: &Vec<char>, first: &str, second: &str) -> (out: Vec<char>)
    ensures
        out@ == replace_all(
            replace_all(text@, first@, Seq::empty()),
            second@,
            Seq::empty(),
        ),
{
    let nothing: Vec<char> = Vec::new();
    let once = replace(text, &chars_of(first), &nothing);
    replace(&once, &chars_of(second), &nothing)
}

/// The processor line.
pub fn compose_processor_summary(p: &Palette, brand: &str, cores: u64) -> (line: String)
    ensures
        line@ == processor_summary(*p, brand@, cores),
{
    reveal(processor_summary);
    let short = without(&without(&chars_of(brand), "(R)", "(TM)"), "Intel ", "Core ");
    let mut line = String::new();
    line.append(p.sky);
    assert(line@ == p.sky@);
    line.append("CPU");
    line.append(p.reset);
    line.append(" ");
    push_chars(&mut line, &short);
    line.append(" ");
    line.append(p.blue);
    line.append("x");
    push_decimal(&mut line, cores);
    line.append(" Cores");
    line.append(p.reset);
    line
}

/// The mark before an entry of a list.
fn compose_branch(p: &Palette, color: &str, last: bool) -> (mark: String)
    ensures
        mark@ == if last {
            last_branch(*p, color@)
        } else {
            branch(*p, color@)
        },
{
    let mut mark = String::new();
    mark.append(p.dim);
    assert(mark@ == p.dim@);
    mark.append(color);
    if last {
        mark.append("└─");
    } else {
        mark.append("├─");
    }
    mark.append(p.reset);
    mark
}

/// Appends a clock ceiling of the accelerator.
fn push_ceiling(out: &mut String, p: &Palette, name: &str, mhz: u32)
    ensures
        final(out)@ == old(out)@ + ceiling_text(*p, name@, mhz),
{
    let mut part = String::new();
    part.append(p.dim);
    assert(part@ == p.dim@);
    part.append(name);
    part.append(p.reset);
    part.append(" ");
    part.append(p.blue);
    push_decimal(&mut part, mhz as u64);
    part.append("MHz");
    part.append(p.reset);
    out.append(part.as_str());
}

/// The line of the accelerator's memory.
fn compose_memory_summary(p: &Palette, mark: &str, a: &AcceleratorInfo) -> (line: String)
    ensures
        line@ == mark@ + " VRAM "@ + p.green@ + tenths_short(
            rounded_ratio(10 * (a.memory_total as nat), GIB as nat),
        ) + "GB"@ + p.reset@ + " "@ + p.blue@ + decimal(a.memory_clock as nat) + "MHz"@ + p.reset@,
{
    let tenths: u128 = (20 * (a.memory_total as u128) + GIB as u128) / (2 * (GIB as u128));
    assert(tenths == rounded_ratio(10 * (a.memory_total as nat), GIB as nat));
    assert(tenths <= u64::MAX) by {
        let total = a.memory_total as int;
        assert((20 * total + 1_073_741_824) / 2_147_483_648 <= 0xFFFF_FFFF_FFFF_FFFF)
            by (nonlinear_arith)
            requires
                0 <= total <= 0xFFFF_FFFF_FFFF_FFFF,
        ;
    }
    let mut line = String::new();
    line.append(mark);
    assert(line@ == mark@);
    line.append(" VRAM ");
    line.append(p.green);
    push_tenths_short(&mut line, tenths as u64);
    line.append("GB");
    line.append(p.reset);
    line.append(" ");
    line.append(p.blue);
    push_decimal(&mut line, a.memory_clock as u64);
    line.append("MHz");
    line.append(p.reset);
    line
}

/// The line of the accelerator's clock ceilings.
fn compose_ceilings(p: &Palette, mark: &str, a: &AcceleratorInfo) -> (line: String)
    ensures
        line@ == mark@ + " Clock "@ + ceiling_text(*p, "Gfx"@, a.graphics_clock) + "  "@
            + ceiling_text(*p, "SM"@, a.shader_clock) + "  "@ + ceiling_text(
            *p,
            "Vid"@,
            a.video_clock,
        ),
{
    let mut line = String::new();
    line.append(mark);
    assert(line@ == mark@);
    line.append(" Clock ");
    push_ceiling(&mut line, p, "Gfx", a.graphics_clock);
    line.append("  ");
    push_ceiling(&mut line, p, "SM", a.shader_clock);
    line.append("  ");
    push_ceiling(&mut line, p, "Vid", a.video_clock);
    line
}

/// The line of the energy that the accelerator has consumed.
fn compose_energy(p: &Palette, mark: &str, a: &AcceleratorInfo) -> (line: String)
    ensures
        line@ == mark@ + " Consumed "@ + p.blue@ + hundredths_short(
            rounded_ratio(a.energy as nat, 10_000_000),
        ) + "MJ"@ + p.reset@,
{
    let hundredths: u128 = (2 * (a.energy as u128) + 10_000_000) / 20_000_000;
    let mut line = String::new();
    line.append(mark);
    assert(line@ == mark@);
    line.append(" Consumed ");
    line.append(p.blue);
    push_hundredths_short(&mut line, hundredths as u64);
    line.append("MJ");
    line.append(p.reset);
    line
}

/// A line that holds a mark, a caption and a text in blue.
fn compose_entry(p: &Palette, mark: &str, caption: &str, text: &str) -> (line: String)
    ensures
        line@ == mark@ + caption@ + p.blue@ + text@ + p.reset@,
{
    let mut line = String::new();
    line.append(mark);
    assert(line@ == mark@);
    line.append(caption);
    line.append(p.blue);
    line.append(text);
    line.append(p.reset);
    line
}

/// The lines of one accelerator.
pub fn compose_accelerator_summary(p: &Palette, a: &AcceleratorInfo) -> (lines: Vec<String>)
    ensures
        texts_of(lines@) == accelerator_summary(*p, *a),
{
    reveal(accelerator_summary);
    let mark = compose_branch(p, p.magenta, false);
    let last_mark = compose_branch(p, p.magenta, true);
    let model = without(&chars_of(a.name.as_str()), "NVIDIA ", "GeForce ");
    let mut title = String::new();
    title.append(p.magenta);
    assert(title@ == p.magenta@);
    title.append("GPU");
    title.append(p.reset);
    title.append(" ");
    push_chars(&mut title, &model);
    let mut cores = String::new();
    push_decimal(&mut cores, a.cores as u64);
    assert(cores@ == decimal(a.cores as nat));
    let mut state = String::new();
    push_decimal(&mut state, a.performance_state as u64);
    assert(state@ == decimal(a.performance_state as nat));
    let mut perf = compose_entry(p, mark.as_str(), " Perf ", state.as_str());
    perf.append(" ");
    perf.append(p.dim);
    perf.append("(0-15, 0 = max)");
    perf.append(p.reset);
    let mut version = String::new();
    push_signed(&mut version, a.compute_version);
    assert(version@ == signed_decimal(a.compute_version as int));
    let mut lines: Vec<String> = Vec::new();
    lines.push(title);
    lines.push(compose_memory_summary(p, mark.as_str(), a));
    lines.push(compose_ceilings(p, mark.as_str(), a));
    lines.push(compose_entry(p, mark.as_str(), " Cores ", cores.as_str()));
    lines.push(compose_energy(p, mark.as_str(), a));
    lines.push(compose_entry(p, mark.as_str(), " Driver ", a.driver.as_str()));
    lines.push(perf);
    lines.push(compose_entry(p, last_mark.as_str(), " CUDA ", version.as_str()));
    proof {
        let texts = texts_of(lines@);
        let wanted = accelerator_summary(*p, *a);
        assert(texts.len() == 8);
        assert(texts[0] == wanted[0]);
        assert(texts[1] == wanted[1]);
        assert(texts[2] == wanted[2]);
        assert(texts[3] == wanted[3]);
        assert(texts[4] == wanted[4]);
        assert(texts[5] == wanted[5]);
        assert(texts[6] == wanted[6]);
        assert(texts[7] == wanted[7]);
        assert(texts =~= wanted);
    }
    lines
}

/// The entries of a list, each behind its mark.
pub fn compose_tree(p: &Palette, color: &str, entries: &Vec<String>) -> (lines: Vec<String>)
    ensures
        texts_of(lines@) == tree_lines(*p, color@, texts_of(entries@)),
{
    let mut lines: Vec<String> = Vec::new();
    let mut i: usize = 0;
    while i < entries.len()
        invariant
            i <= entries.len(),
            lines.len() == i,
            forall|k: int|
                0 <= k < i ==> (#[trigger] lines[k])@ == tree_lines(
                    *p,
                    color@,
                    texts_of(entries@),
                )[k],
        decreases entries.len() - i,
    {
        let mut line = compose_branch(p, color, i == entries.len() - 1);
        line.append(" ");
        line.append(entries[i].as_str());
        assert(texts_of(entries@)[i as int] == entries@[i as int]@);
        lines.push(line);
        i += 1;
    }
    assert(texts_of(lines@) =~= tree_lines(*p, color@, texts_of(entries@)));
    lines
}

/// One address.
fn compose_address(p: &Palette, address: &Address) -> (text: String)
    ensures
        text@ == address_text(*p, *address),
{
    let mut text = String::new();
    if address.prefix == 24 {
        text.append("ipv4[");
        assert(text@ == "ipv4["@);
    } else {
        text.append("ipv6[");
        assert(text@ == "ipv6["@);
    }
    text.append(p.dim);
    text.append(address.text.as_str());
    text.append(p.reset);
    text.append("]");
    text
}

/// The entry of an interface.
pub fn compose_interface_entry(p: &Palette, i: &InterfaceInfo) -> (entry: String)
    ensures
        entry@ == interface_entry(*p, *i),
{
    let mut all = String::new();
    let mut k: usize = 0;
    assert(i.addresses@.take(0) == Seq::<Address>::empty());
    while k < i.addresses.len()
        invariant
            k <= i.addresses.len(),
            all@ == addresses_text(*p, i.addresses@.take(k as int)),
        decreases i.addresses.len() - k,
    {
        proof {
            assert(i.addresses@.take(k + 1).drop_last() == i.addresses@.take(k as int));
            assert(i.addresses@.take(k + 1).last() == i.addresses@[k as int]);
            assert(i.addresses@.take(k + 1)[0] == i.addresses@[0]);
        }
        if k > 0 {
            all.append(", ");
        }
        all.append(compose_address(p, &i.addresses[k]).as_str());
        assert(all@ == addresses_text(*p, i.addresses@.take(k + 1)));
        k += 1;
    }
    assert(i.addresses@.take(k as int) == i.addresses@);
    let mut entry = String::new();
    entry.append(p.blue);
    assert(entry@ == p.blue@);
    entry.append(i.name.as_str());
    entry.append(p.reset);
    entry.append(" ");
    entry.append(all.as_str());
    entry.append(p.reset);
    entry.append(" mac[");
    entry.append(p.dim);
    entry.append(i.mac.as_str());
    entry.append(p.reset);
    entry.append("]");
    entry
}

/// The entries of the interfaces that are listed.
pub fn compose_interface_entries(p: &Palette, interfaces: &Vec<InterfaceInfo>) -> (entries: Vec<
    String,
>)
    ensures
        texts_of(entries@) == interface_entries(*p, interfaces@),
{
    let mut entries: Vec<String> = Vec::new();
    let mut i: usize = 0;
    assert(interfaces@.take(0) == Seq::<InterfaceInfo>::empty());
    assert(texts_of(entries@) =~= interface_entries(*p, interfaces@.take(0)));
    while i < interfaces.len()
        invariant
            i <= interfaces.len(),
            texts_of(entries@) == interface_entries(*p, interfaces@.take(i as int)),
        decreases interfaces.len() - i,
    {
        proof {
            assert(interfaces@.take(i + 1).drop_last() == interfaces@.take(i as int));
            assert(interfaces@.take(i + 1).last() == interfaces@[i as int]);
        }
        let interface = &interfaces[i];
        if interface_is_listed(
            interface.name.as_str(),
            interface.total_received,
            interface.total_transmitted,
        ) {
            let ghost before = texts_of(entries@);
            entries.push(compose_interface_entry(p, interface));
            assert(texts_of(entries@) =~= before.push(interface_entry(*p, *interface)));
        }
        i += 1;
    }
    assert(interfaces@.take(i as int) == interfaces@);
    entries
}

/// The device names of the inventory for the given sensor labels.
pub fn device_names(labels: &Vec<String>) -> (names: Vec<String>)
    ensures
        texts_of(names@) == inventory_devices(texts_of(labels@)),
{
    let sorted = sort_names(devices_among(labels));
    let mut names: Vec<String> = Vec::new();
    let mut i: usize = 0;
    while i < sorted.len()
        invariant
            i <= sorted.len(),
            names.len() == i,
            forall|k: int| 0 <= k < i ==> (#[trigger] names[k])@ == sorted[k]@,
        decreases sorted.len() - i,
    {
        names.push(string_of(&sorted[i]));
        i += 1;
    }
    assert(texts_of(names@) =~= name_views(sorted@));
    names
}

/// Moves the lines of `more` behind those of `lines`.
fn extend_lines(lines: &mut Vec<String>, more: Vec<String>)
    ensures
        texts_of(final(lines)@) == texts_of(old(lines)@) + texts_of(more@),
{
    let mut more = more;
    let ghost added = more@;
    lines.append(&mut more);
    assert(texts_of(lines@) =~= texts_of(old(lines)@) + texts_of(added));
}

/// The lines of all accelerators.
fn compose_accelerators(p: &Palette, all: &Vec<AcceleratorInfo>) -> (lines: Vec<String>)
    ensures
        texts_of(lines@) == accelerators_summary(*p, all@),
{
    let mut lines: Vec<String> = Vec::new();
    let mut i: usize = 0;
    assert(all@.take(0) == Seq::<AcceleratorInfo>::empty());
    assert(texts_of(lines@) =~= accelerators_summary(*p, all@.take(0)));
    while i < all.len()
        invariant
            i <= all.len(),
            texts_of(lines@) == accelerators_summary(*p, all@.take(i as int)),
        decreases all.len() - i,
    {
        proof {
            assert(all@.take(i + 1).drop_last() == all@.take(i as int));
            assert(all@.take(i + 1).last() == all@[i as int]);
        }
        extend_lines(&mut lines, compose_accelerator_summary(p, &all[i]));
        i += 1;
    }
    assert(all@.take(i as int) == all@);
    lines
}

/// The lines of the inventory.
pub fn compose_summary(p: &Palette, inventory: &Inventory) -> (lines: Vec<String>)
    ensures
        texts_of(lines@) == summary_lines(*p, *inventory),
{
    let mut board = String::new();
    board.append(p.red);
    assert(board@ == p.red@);
    board.append("MOBO");
    board.append(p.reset);
    board.append(" ");
    board.append(inventory.board.as_str());
    let mut networks = String::new();
    networks.append(p.cyan);
    assert(networks@ == p.cyan@);
    networks.append("Networks");
    networks.append(p.reset);
    networks.append(" ");
    let mut lines: Vec<String> = Vec::new();
    lines.push(compose_processor_summary(p, inventory.processor.as_str(), inventory.cores));
    assert(texts_of(lines@) =~= seq![
        processor_summary(*p, inventory.processor@, inventory.cores),
    ]);
    extend_lines(&mut lines, compose_accelerators(p, &inventory.accelerators));
    let ghost above = texts_of(lines@);
    lines.push(board);
    assert(texts_of(lines@) =~= above + seq![
        p.red@ + "MOBO"@ + p.reset@ + " "@ + inventory.board@,
    ]);
    extend_lines(&mut lines, compose_tree(p, p.red, &device_names(&inventory.sensor_labels)));
    let ghost above = texts_of(lines@);
    lines.push(networks);
    assert(texts_of(lines@) =~= above + seq![p.cyan@ + "Networks"@ + p.reset@ + " "@]);
    extend_lines(
        &mut lines,
        compose_tree(p, p.cyan, &compose_interface_entries(p, &inventory.interfaces)),
    );
    lines
}

/// The inventory as one text, each line ended by a line feed.
pub fn render_static_summary(p: &Palette, inventory: &Inventory) -> (text: String)
    ensures
        text@ == joined_lines(summary_lines(*p, *inventory)),
{
    let lines = compose_summary(p, inventory);
    let ghost texts = texts_of(lines@);
    let mut text = String::new();
    let mut i: usize = 0;
    assert(texts.take(0) == Seq::<Seq<char>>::empty());
    while i < lines.len()
        invariant
            i <= lines.len(),
            texts == texts_of(lines@),
            text@ == joined_lines(texts.take(i as int)),
        decreases lines.len() - i,
    {
        proof {
            assert(texts.take(i + 1).drop_last() == texts.take(i as int));
            assert(texts.take(i + 1).last() == lines@[i as int]@);
        }
        text.append(lines[i].as_str());
        text.push('\n');
        assert(text@ == joined_lines(texts.take(i + 1)));
        i += 1;
    }
    assert(texts.take(i as int) == texts);
    text
}

} // verus!
