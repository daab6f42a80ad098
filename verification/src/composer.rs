//! The frame as a whole.
//!
//! A frame is composed in one piece and handed out as one text, so that a
//! display is never seen half drawn.

use crate::frame::{
    accelerator_line, accelerator_memory_line, bus_line, clock_line, compose_accelerator_line,
    compose_accelerator_memory_line, compose_bus_line, compose_clock_line, compose_core_line,
    compose_fan_line, compose_frequency_line, compose_memory_line, compose_processor_line,
    compose_temperature_line, core_line, fan_line, first_or_zero, frequency_line, memory_line,
    processor_line, temperature_line, FrameInputs,
};
use crate::listing::{
    compose_disk_rows, compose_network_line, compose_sensor_rows, disk_rows, dominant,
    dominant_interface, network_line, sensor_rows,
};
use crate::sensors::{classification, classify, Classification};
use crate::table::{aligned_lines, column_widths, is_uniform, table_lines, table_of, uniform_cells};
use crate::text::texts_of;
use crate::visual::Palette;
use vstd::prelude::*;

verus! {

/// The lines of one frame, in display order.  A frame cannot be changed once
/// it is composed.
#[derive(Debug)]
pub struct Frame {
    lines: Vec<String>,
}

impl View for Frame {
    type V = Seq<Seq<char>>;

    closed spec fn view(&self) -> Seq<Seq<char>> {
        texts_of(self.lines@)
    }
}

/// The lines one after the other, each ended by a line feed.
pub open spec fn joined_lines(lines: Seq<Seq<char>>) -> Seq<char>
    decreases lines.len(),
{
    if lines.len() == 0 {
        Seq::empty()
    } else {
        joined_lines(lines.drop_last()) + lines.last() + seq!['\n']
    }
}

impl Frame {
    /// The number of lines.
    pub fn len(&self) -> (n: usize)
        ensures
            n == self@.len(),
    {
        self.lines.len()
    }

    /// Whether the frame has no line at all.
    pub fn is_empty(&self) -> (b: bool)
        ensures
            b == (self@.len() == 0),
    {
        self.lines.len() == 0
    }

    /// The lines, in display order.
    pub fn lines(&self) -> (lines: &Vec<String>)
        ensures
            texts_of(lines@) == self@,
    {
        &self.lines
    }

    /// The whole frame as one text.
    pub fn text(&self) -> (text: String)
        ensures
            text@ == joined_lines(self@),
    {
        let ghost lines = texts_of(self.lines@);
        let mut text = String::new();
        let mut i: usize = 0;
        assert(lines.take(0) == Seq::<Seq<char>>::empty());
        while i < self.lines.len()
            invariant
                i <= self.lines.len(),
                lines == texts_of(self.lines@),
                text@ == joined_lines(lines.take(i as int)),
            decreases self.lines.len() - i,
        {
            proof {
                assert(lines.take(i + 1).drop_last() == lines.take(i as int));
                assert(lines.take(i + 1).last() == self.lines@[i as int]@);
            }
            text.append(self.lines[i].as_str());
            text.push('\n');
            assert(text@ == joined_lines(lines.take(i + 1)));
            i += 1;
        }
        assert(lines.take(i as int) == lines);
        text
    }
}

/// The lines that are always shown, from the processor line to the bus
/// line.
pub open spec fn gauge_lines(p: Palette, inputs: FrameInputs) -> Seq<Seq<char>> {
    let sensors = classification(inputs.readings@);
    seq![
        processor_line(p, inputs.processor.usage, first_or_zero(sensors.cpu)),
        accelerator_line(p, inputs.accelerator),
        memory_line(p, inputs.memory),
        accelerator_memory_line(p, inputs.accelerator),
        core_line(p, inputs.processor.core_usage@),
        frequency_line(p, inputs.processor.core_frequency@, inputs.processor.core_rating@),
        temperature_line(p, sensors.core, inputs.processor.core_usage@.len()),
        clock_line(p, inputs.accelerator),
        fan_line(p, inputs.accelerator.fans@),
        bus_line(p, inputs.accelerator),
    ]
}

/// The network line, if an interface is listed.
pub open spec fn network_lines(p: Palette, inputs: FrameInputs) -> Seq<Seq<char>> {
    match dominant(inputs.interfaces@) {
        Some(i) => seq![network_line(p, inputs.interfaces@[i])],
        None => Seq::empty(),
    }
}

/// The table of disks, laid out.
pub open spec fn disk_lines(p: Palette, inputs: FrameInputs) -> Seq<Seq<char>> {
    let table = table_of(disk_rows(p, inputs.disks@));
    table_lines(table, column_widths(table))
}

/// The table of device groups, laid out and followed by an empty line, if
/// the frame is extended.
pub open spec fn sensor_lines(p: Palette, inputs: FrameInputs) -> Seq<Seq<char>> {
    if inputs.extended {
        let table = table_of(sensor_rows(p, classification(inputs.readings@).groups));
        table_lines(table, column_widths(table)).push(Seq::empty())
    } else {
        Seq::empty()
    }
}

/// The lines of the frame for `inputs`.
pub open spec fn frame_lines(p: Palette, inputs: FrameInputs) -> Seq<Seq<char>> {
    gauge_lines(p, inputs) + network_lines(p, inputs) + disk_lines(p, inputs) + sensor_lines(
        p,
        inputs,
    )
}

/// A frame has ten lines of gauges, one more if an interface is listed, one
/// for each listed disk and, if it is extended, one for each device group
/// and an empty one.
pub proof fn lemma_frame_line_count(p: Palette, inputs: FrameInputs)
    ensures
        frame_lines(p, inputs).len() == 10 + (if dominant(inputs.interfaces@) is Some {
            1nat
        } else {
            0nat
        }) + disk_rows(p, inputs.disks@).len() + (if inputs.extended {
            classification(inputs.readings@).groups.len() + 1
        } else {
            0nat
        }),
{
}

/// A frame can be composed for `inputs`: the rows of each of its tables have
/// the same number of cells, and the number of cores leaves room for the
/// gap of the temperature line.
pub open spec fn composable(p: Palette, inputs: FrameInputs) -> bool {
    &&& inputs.processor.core_usage@.len() + 5 <= usize::MAX
    &&& is_uniform(table_of(disk_rows(p, inputs.disks@)))
    &&& inputs.extended ==> is_uniform(
        table_of(sensor_rows(p, classification(inputs.readings@).groups)),
    )
}

/// Can a frame be composed for `inputs`?
pub fn can_compose(p: &Palette, inputs: &FrameInputs) -> (ok: bool)
    ensures
        ok == composable(*p, *inputs),
{
    if inputs.processor.core_usage.len() > usize::MAX - 5 {
        return false;
    }
    let disks = compose_disk_rows(p, &inputs.disks);
    if !uniform_cells(disks.as_slice()) {
        return false;
    }
    if inputs.extended {
        let sensors = classify(&inputs.readings);
        let rows = compose_sensor_rows(p, &sensors.groups);
        uniform_cells(rows.as_slice())
    } else {
        true
    }
}

/// The lines that are always shown.
fn compose_gauge_lines(p: &Palette, inputs: &FrameInputs, sensors: &Classification) -> (lines: Vec<
    String,
>)
    requires
        sensors@ == classification(inputs.readings@),
        inputs.processor.core_usage@.len() + 5 <= usize::MAX,
    ensures
        texts_of(lines@) == gauge_lines(*p, *inputs),
{
    let package: u32 = if sensors.cpu.len() > 0 {
        sensors.cpu[0]
    } else {
        0
    };
    let mut lines: Vec<String> = Vec::new();
    lines.push(compose_processor_line(p, inputs.processor.usage, package));
    lines.push(compose_accelerator_line(p, &inputs.accelerator));
    lines.push(compose_memory_line(p, &inputs.memory));
    lines.push(compose_accelerator_memory_line(p, &inputs.accelerator));
    lines.push(compose_core_line(p, &inputs.processor.core_usage));
    lines.push(
        compose_frequency_line(p, &inputs.processor.core_frequency, &inputs.processor.core_rating),
    );
    lines.push(compose_temperature_line(p, &sensors.core, inputs.processor.core_usage.len()));
    lines.push(compose_clock_line(p, &inputs.accelerator));
    lines.push(compose_fan_line(p, &inputs.accelerator.fans));
    lines.push(compose_bus_line(p, &inputs.accelerator));
    proof {
        let texts = texts_of(lines@);
        let wanted = gauge_lines(*p, *inputs);
        assert(texts.len() == 10);
        assert(wanted.len() == 10);
        assert(texts[0] == wanted[0]);
        assert(texts[1] == wanted[1]);
        assert(texts[2] == wanted[2]);
        assert(texts[3] == wanted[3]);
        assert(texts[4] == wanted[4]);
        assert(texts[5] == wanted[5]);
        assert(texts[6] == wanted[6]);
        assert(texts[7] == wanted[7]);
        assert(texts[8] == wanted[8]);
        assert(texts[9] == wanted[9]);
        assert(texts =~= wanted);
    }
    lines
}

/// The network line, if an interface is listed.
fn compose_network_lines(p: &Palette, inputs: &FrameInputs) -> (lines: Vec<String>)
    ensures
        texts_of(lines@) == network_lines(*p, *inputs),
{
    let mut lines: Vec<String> = Vec::new();
    match dominant_interface(&inputs.interfaces) {
        Some(i) => {
            lines.push(compose_network_line(p, &inputs.interfaces[i]));
        },
        None => {},
    }
    assert(texts_of(lines@) =~= network_lines(*p, *inputs));
    lines
}

/// The table of disks, laid out.
fn compose_disk_lines(p: &Palette, inputs: &FrameInputs) -> (lines: Vec<String>)
    requires
        is_uniform(table_of(disk_rows(*p, inputs.disks@))),
    ensures
        texts_of(lines@) == disk_lines(*p, *inputs),
{
    let rows = compose_disk_rows(p, &inputs.disks);
    aligned_lines(rows.as_slice())
}

/// The table of device groups, if the frame is extended.
fn compose_sensor_lines(p: &Palette, inputs: &FrameInputs, sensors: &Classification) -> (lines:
    Vec<String>)
    requires
        sensors@ == classification(inputs.readings@),
        inputs.extended ==> is_uniform(
            table_of(sensor_rows(*p, classification(inputs.readings@).groups)),
        ),
    ensures
        texts_of(lines@) == sensor_lines(*p, *inputs),
{
    if inputs.extended {
        let rows = compose_sensor_rows(p, &sensors.groups);
        let mut lines = aligned_lines(rows.as_slice());
        let ghost table = texts_of(lines@);
        lines.push(String::new());
        assert(texts_of(lines@) =~= table.push(Seq::empty()));
        lines
    } else {
        let lines: Vec<String> = Vec::new();
        assert(texts_of(lines@) =~= Seq::<Seq<char>>::empty());
        lines
    }
}

/// Moves the lines of `more` behind those of `lines`.
fn extend_lines(lines: &mut Vec<String>, more: Vec<String>)
    ensures
        texts_of(final(lines)@) == texts_of(old(lines)@) + texts_of(more@),
{
    let mut more = more;
    let ghost added = more@;
    lines.append(&mut more);
    assert(texts_of(lines@) =~= texts_of(old(lines)@) + texts_of(added));
}

/// Composes the frame for `inputs`.
///
/// The frame holds the processor and accelerator lines, the two capacity
/// bars, the core lines, the clocks, the fans and the bus; then the network
/// line, if an interface is listed; then the table of disks; then, if the
/// frame is extended, the table of device groups and an empty line.
pub fn compose_frame(p: &Palette, inputs: &FrameInputs) -> (frame: Frame)
    requires
        composable(*p, *inputs),
    ensures
        frame@ == frame_lines(*p, *inputs),
{
    let sensors = classify(&inputs.readings);
    let mut lines = compose_gauge_lines(p, inputs, &sensors);
    extend_lines(&mut lines, compose_network_lines(p, inputs));
    extend_lines(&mut lines, compose_disk_lines(p, inputs));
    extend_lines(&mut lines, compose_sensor_lines(p, inputs, &sensors));
    Frame { lines }
}

} // verus!
