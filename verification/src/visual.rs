//! Visual encoding.
//!
//! A percentage falls into one of eight tiers.  A tier picks a glyph, from a
//! set of bars that grow taller or from a set of sliders that grow wider, and
//! one of four colours of rising severity.  A capacity bar shows a ratio as
//! full cells, one partial cell and blanks, in a fixed number of cells.

use crate::metric::Metric;
use crate::text::{push_repeated, push_spaces, repeated, spaces};
use crate::units::{percent, percent_of, push_size, size_text, squared_percent, squared_ratio_percent};
use vstd::prelude::*;

verus! {

/// The tier of a percentage: the bins end at 12, 25, 37, 50, 62, 75 and 87,
/// and everything above 87 is in the last one.
pub open spec fn tier_of(percent: nat) -> nat {
    if percent <= 12 {
        0
    } else if percent <= 25 {
        1
    } else if percent <= 37 {
        2
    } else if percent <= 50 {
        3
    } else if percent <= 62 {
        4
    } else if percent <= 75 {
        5
    } else if percent <= 87 {
        6
    } else {
        7
    }
}

/// The severity of a tier: two neighbouring tiers share one colour.
pub open spec fn severity_of(tier: nat) -> Severity {
    if tier <= 1 {
        Severity::Calm
    } else if tier <= 3 {
        Severity::Mild
    } else if tier <= 5 {
        Severity::Warm
    } else {
        Severity::Hot
    }
}

/// The bar glyph of a tier: the higher the tier, the taller the block.
pub open spec fn bar_glyph(tier: nat) -> char {
    if tier == 0 {
        '▁'
    } else if tier == 1 {
        '▂'
    } else if tier == 2 {
        '▃'
    } else if tier == 3 {
        '▄'
    } else if tier == 4 {
        '▅'
    } else if tier == 5 {
        '▆'
    } else if tier == 6 {
        '▇'
    } else {
        '█'
    }
}

/// The slider glyph of a tier: the higher the tier, the wider the block.
pub open spec fn slider_glyph(tier: nat) -> char {
    if tier == 0 {
        '▏'
    } else if tier == 1 {
        '▎'
    } else if tier == 2 {
        '▍'
    } else if tier == 3 {
        '▌'
    } else if tier == 4 {
        '▋'
    } else if tier == 5 {
        '▊'
    } else if tier == 6 {
        '▉'
    } else {
        '█'
    }
}

/// The four colour grades, from calm to hot.
#[derive(Clone, Copy, Debug, PartialEq, Eq, Structural)]
pub enum Severity {
    Calm,
    Mild,
    Warm,
    Hot,
}

impl Severity {
    /// The place of the grade in the order from calm to hot.
    pub open spec fn rank(self) -> nat {
        match self {
            Severity::Calm => 0,
            Severity::Mild => 1,
            Severity::Warm => 2,
            Severity::Hot => 3,
        }
    }

    /// The place of the grade in the order from calm to hot.
    pub fn level(self) -> (n: u8)
        ensures
            n == self.rank(),
    {
        match self {
            Severity::Calm => 0,
            Severity::Mild => 1,
            Severity::Warm => 2,
            Severity::Hot => 3,
        }
    }
}

/// One of the eight tiers, numbered 0 to 7.
#[derive(Clone, Copy, Debug)]
pub struct VisualTier {
    level: u8,
}

impl View for VisualTier {
    type V = nat;

    closed spec fn view(&self) -> nat {
        self.level as nat
    }
}

impl VisualTier {
    #[verifier::type_invariant]
    spec fn in_range(self) -> bool {
        self.level <= 7
    }

    /// The tier of a percentage.  A percentage above 100 counts as 100.
    pub fn of_percent(percent: u32) -> (tier: VisualTier)
        ensures
            tier@ == tier_of(percent as nat),
            tier@ <= 7,
    {
        let level: u8 = if percent <= 12 {
            0
        } else if percent <= 25 {
            1
        } else if percent <= 37 {
            2
        } else if percent <= 50 {
            3
        } else if percent <= 62 {
            4
        } else if percent <= 75 {
            5
        } else if percent <= 87 {
            6
        } else {
            7
        };
        VisualTier { level }
    }

    /// The number of the tier.
    pub fn level(&self) -> (n: u8)
        ensures
            n == self@,
            n <= 7,
    {
        proof {
            use_type_invariant(self);
        }
        self.level
    }

    /// The colour grade of the tier.
    pub fn severity(&self) -> (s: Severity)
        ensures
            s == severity_of(self@),
    {
        if self.level <= 1 {
            Severity::Calm
        } else if self.level <= 3 {
            Severity::Mild
        } else if self.level <= 5 {
            Severity::Warm
        } else {
            Severity::Hot
        }
    }

    /// The bar glyph of the tier.
    pub fn bar(&self) -> (g: &'static str)
        ensures
            g@ == seq![bar_glyph(self@)],
    {
        proof {
            reveal_strlit("▁");
            reveal_strlit("▂");
            reveal_strlit("▃");
            reveal_strlit("▄");
            reveal_strlit("▅");
            reveal_strlit("▆");
            reveal_strlit("▇");
            reveal_strlit("█");
        }
        let g = if self.level == 0 {
            "▁"
        } else if self.level == 1 {
            "▂"
        } else if self.level == 2 {
            "▃"
        } else if self.level == 3 {
            "▄"
        } else if self.level == 4 {
            "▅"
        } else if self.level == 5 {
            "▆"
        } else if self.level == 6 {
            "▇"
        } else {
            "█"
        };
        assert(g@ =~= seq![bar_glyph(self@)]);
        g
    }

    /// The slider glyph of the tier.
    pub fn slider(&self) -> (g: &'static str)
        ensures
            g@ == seq![slider_glyph(self@)],
    {
        proof {
            reveal_strlit("▏");
            reveal_strlit("▎");
            reveal_strlit("▍");
            reveal_strlit("▌");
            reveal_strlit("▋");
            reveal_strlit("▊");
            reveal_strlit("▉");
            reveal_strlit("█");
        }
        let g = if self.level == 0 {
            "▏"
        } else if self.level == 1 {
            "▎"
        } else if self.level == 2 {
            "▍"
        } else if self.level == 3 {
            "▌"
        } else if self.level == 4 {
            "▋"
        } else if self.level == 5 {
            "▊"
        } else if self.level == 6 {
            "▉"
        } else {
            "█"
        };
        assert(g@ =~= seq![slider_glyph(self@)]);
        g
    }
}

/// The glyph of a full-height indicator bar for a percentage.
pub fn percent_bar(percent: u32) -> (g: &'static str)
    ensures
        g@ == seq![bar_glyph(tier_of(percent as nat))],
{
    VisualTier::of_percent(percent).bar()
}

/// The glyph of a partly filled cell for a percentage.
pub fn percent_slider(percent: u32) -> (g: &'static str)
    ensures
        g@ == seq![slider_glyph(tier_of(percent as nat))],
{
    VisualTier::of_percent(percent).slider()
}

/// The colour and style codes that the rendering uses.  The plain palette
/// holds an empty text for each of them.
#[derive(Clone, Copy, Debug)]
pub struct Palette {
    pub red: &'static str,
    pub green: &'static str,
    pub magenta: &'static str,
    pub cyan: &'static str,
    pub sky: &'static str,
    pub blue: &'static str,
    pub reset: &'static str,
    pub dim: &'static str,
}

impl Palette {
    /// The code for a colour grade: blue, sky, magenta and red, from calm to
    /// hot.
    pub open spec fn grade(self, severity: Severity) -> Seq<char> {
        match severity {
            Severity::Calm => self.blue@,
            Severity::Mild => self.sky@,
            Severity::Warm => self.magenta@,
            Severity::Hot => self.red@,
        }
    }

    /// The code for the colour of a percentage.
    pub open spec fn percent_color(self, percent: nat) -> Seq<char> {
        self.grade(severity_of(tier_of(percent)))
    }

    /// Every code of the palette is empty.
    pub open spec fn is_plain(self) -> bool {
        &&& self.red@.len() == 0
        &&& self.green@.len() == 0
        &&& self.magenta@.len() == 0
        &&& self.cyan@.len() == 0
        &&& self.sky@.len() == 0
        &&& self.blue@.len() == 0
        &&& self.reset@.len() == 0
        &&& self.dim@.len() == 0
    }

    /// The palette of ANSI escape sequences.
    pub open spec fn ansi_codes() -> Palette {
        Palette {
            red: "\x1b[31m",
            green: "\x1b[32m",
            magenta: "\x1b[35m",
            cyan: "\x1b[36m",
            sky: "\x1b[96m",
            blue: "\x1b[94m",
            reset: "\x1b[0m",
            dim: "\x1b[2m",
        }
    }

    /// The palette of ANSI escape sequences.
    pub fn ansi() -> (p: Palette)
        ensures
            p == Palette::ansi_codes(),
    {
        Palette {
            red: "\x1b[31m",
            green: "\x1b[32m",
            magenta: "\x1b[35m",
            cyan: "\x1b[36m",
            sky: "\x1b[96m",
            blue: "\x1b[94m",
            reset: "\x1b[0m",
            dim: "\x1b[2m",
        }
    }

    /// The palette without any colour.
    pub fn plain() -> (p: Palette)
        ensures
            p.is_plain(),
    {
        proof {
            reveal_strlit("");
        }
        Palette {
            red: "",
            green: "",
            magenta: "",
            cyan: "",
            sky: "",
            blue: "",
            reset: "",
            dim: "",
        }
    }

    /// The code for a colour grade.
    pub fn color(&self, severity: Severity) -> (code: &'static str)
        ensures
            code@ == self.grade(severity),
    {
        match severity {
            Severity::Calm => self.blue,
            Severity::Mild => self.sky,
            Severity::Warm => self.magenta,
            Severity::Hot => self.red,
        }
    }

    /// The code for the colour of a percentage.  A percentage above 100
    /// counts as 100.
    pub fn percent_col(&self, percent: u32) -> (code: &'static str)
        ensures
            code@ == self.percent_color(percent as nat),
    {
        self.color(VisualTier::of_percent(percent).severity())
    }

    /// The bar glyph and the colour code of a percentage.
    pub fn encode(&self, percent: u32) -> (pair: (&'static str, &'static str))
        ensures
            pair.0@ == seq![bar_glyph(tier_of(percent as nat))],
            pair.1@ == self.percent_color(percent as nat),
    {
        let tier = VisualTier::of_percent(percent);
        (tier.bar(), self.color(tier.severity()))
    }
}

/// A used and a total size, each in the colour of their ratio.
pub open spec fn usage_text(p: Palette, used: nat, total: nat) -> Seq<char> {
    let col = p.percent_color(percent(used, total));
    col + size_text(used) + p.reset@ + "/"@ + col + size_text(total) + p.reset@
}

/// A clock indicator: a blank, then the bar glyph of the squared ratio in
/// its colour.
pub open spec fn clock_text(p: Palette, clock: nat, max_clock: nat) -> Seq<char> {
    let pct = squared_percent(clock, max_clock);
    " "@ + p.percent_color(pct) + seq![bar_glyph(tier_of(pct))] + p.reset@
}

/// One coloured bar glyph per percentage.
pub open spec fn bars_text(p: Palette, percentages: Seq<u32>) -> Seq<char>
    decreases percentages.len(),
{
    if percentages.len() == 0 {
        Seq::empty()
    } else {
        let pct = percentages.last() as nat;
        bars_text(p, percentages.drop_last()) + p.percent_color(pct) + seq![
            bar_glyph(tier_of(pct)),
        ] + p.reset@
    }
}

/// The part of `total` that is in use, for a bar: never more than all of it.
pub open spec fn filled_part(used: nat, total: nat) -> nat {
    if used < total {
        used
    } else {
        total
    }
}

/// The number of full cells of a capacity bar of `width` cells.
pub open spec fn full_cells(used: nat, total: nat, width: nat) -> nat {
    if total == 0 {
        0
    } else {
        filled_part(used, total) * width / total
    }
}

/// What is left of the ratio beyond the full cells, as a percentage of one
/// cell.
pub open spec fn partial_percent(used: nat, total: nat, width: nat) -> nat {
    if total == 0 {
        0
    } else {
        percent((filled_part(used, total) * width) % total, total)
    }
}

/// The cells of a capacity bar that hold a glyph: the full cells and, unless
/// every cell is full, one partial cell.
pub open spec fn bar_filled(used: nat, total: nat, width: nat) -> Seq<char> {
    let full = full_cells(used, total, width);
    if full >= width {
        repeated('█', width)
    } else {
        repeated('█', full).push(slider_glyph(tier_of(partial_percent(used, total, width))))
    }
}

/// The blank cells that bring a capacity bar to its width.
pub open spec fn bar_blank(used: nat, total: nat, width: nat) -> Seq<char> {
    spaces((width - bar_filled(used, total, width).len()) as nat)
}

/// A capacity bar: its cells in colour between brackets, then the sizes.
pub open spec fn capacity_text(p: Palette, used: nat, total: nat, width: nat) -> Seq<char> {
    "["@ + p.percent_color(percent(used, total)) + bar_filled(used, total, width) + p.reset@
        + bar_blank(used, total, width) + "] "@ + usage_text(p, used, total)
}

/// Tiers and colour grades never fall as the percentage rises, and every
/// percentage above 100 is graded like 100.
pub proof fn lemma_tiers_rise(lower: nat, higher: nat)
    requires
        lower <= higher,
    ensures
        tier_of(lower) <= tier_of(higher) <= 7,
        severity_of(tier_of(lower)).rank() <= severity_of(tier_of(higher)).rank(),
        higher >= 100 ==> tier_of(higher) == tier_of(100),
{
}

/// Each tier has a bar glyph and a slider glyph of its own; the glyphs of
/// the bars stand in the order of their tiers, those of the sliders in the
/// opposite order, and both end in the full block.
pub proof fn lemma_glyphs_in_order(lower: nat, higher: nat)
    requires
        lower < higher <= 7,
    ensures
        (bar_glyph(lower) as u32) < (bar_glyph(higher) as u32),
        (slider_glyph(lower) as u32) > (slider_glyph(higher) as u32),
        bar_glyph(7) == slider_glyph(7),
{
}

/// A capacity bar never has more full cells than cells.
pub proof fn lemma_full_cells_bound(used: nat, total: nat, width: nat)
    ensures
        full_cells(used, total, width) <= width,
{
    if total > 0 {
        let part = filled_part(used, total);
        assert(part * width / total <= width) by (nonlinear_arith)
            requires
                part <= total,
                total > 0,
        ;
    }
}

/// A capacity bar is exactly as wide as asked, whatever the sizes are.
pub proof fn lemma_bar_width(used: nat, total: nat, width: nat)
    ensures
        (bar_filled(used, total, width) + bar_blank(used, total, width)).len() == width,
        bar_filled(used, total, width).len() <= width,
{
    lemma_full_cells_bound(used, total, width);
}

/// The cells of a capacity bar, one by one: the full cells come first; if
/// they do not fill the bar, one partial cell follows, whose glyph shows what
/// is left of the ratio; all cells behind it are blank.
pub proof fn lemma_bar_layout(used: nat, total: nat, width: nat, cell: int)
    requires
        0 <= cell < width,
    ensures
        ({
            let bar = bar_filled(used, total, width) + bar_blank(used, total, width);
            let full = full_cells(used, total, width);
            if cell < full {
                bar[cell] == '█'
            } else if cell == full {
                bar[cell] == slider_glyph(tier_of(partial_percent(used, total, width)))
            } else {
                bar[cell] == ' '
            }
        }),
{
    lemma_full_cells_bound(used, total, width);
}

/// Where nothing is left free, every cell of the bar is full.
pub proof fn lemma_full_bar(used: nat, total: nat, width: nat)
    requires
        used >= total > 0,
    ensures
        full_cells(used, total, width) == width,
        bar_filled(used, total, width) + bar_blank(used, total, width) == repeated('█', width),
{
    assert(total * width / total == width) by (nonlinear_arith)
        requires
            total > 0,
    ;
    assert(bar_filled(used, total, width) + bar_blank(used, total, width) =~= repeated(
        '█',
        width,
    ));
}

/// A used and a total size, each in the colour of their ratio.
pub fn mem_usage(p: &Palette, used: u64, total: u64) -> (text: String)
    ensures
        text@ == usage_text(*p, used as nat, total as nat),
{
    let in_use = Metric::from_pair(used, total);
    let mut text = in_use.paint(p);
    text.append("/");
    text.append(p.percent_col(in_use.percent()));
    push_size(&mut text, total);
    text.append(p.reset);
    text
}

/// A clock indicator for a clock against its ceiling.
pub fn mhz(p: &Palette, clock: u32, max_clock: u32) -> (text: String)
    ensures
        text@ == clock_text(*p, clock as nat, max_clock as nat),
{
    let (glyph, color) = p.encode(squared_ratio_percent(clock, max_clock));
    let mut text = String::new();
    text.append(" ");
    assert(text@ == " "@);
    text.append(color);
    text.append(glyph);
    text.append(p.reset);
    text
}

/// One coloured bar glyph per percentage.
pub fn bars(p: &Palette, percentages: &Vec<u32>) -> (text: String)
    ensures
        text@ == bars_text(*p, percentages@),
{
    let mut text = String::new();
    let mut i: usize = 0;
    assert(percentages@.take(0) == Seq::<u32>::empty());
    while i < percentages.len()
        invariant
            i <= percentages.len(),
            text@ == bars_text(*p, percentages@.take(i as int)),
        decreases percentages.len() - i,
    {
        let pct = percentages[i];
        proof {
            assert(percentages@.take(i + 1).drop_last() == percentages@.take(i as int));
            assert(percentages@.take(i + 1).last() == pct);
        }
        let (glyph, color) = p.encode(pct);
        text.append(color);
        text.append(glyph);
        text.append(p.reset);
        i += 1;
    }
    assert(percentages@.take(i as int) == percentages@);
    text
}

/// A capacity bar of `width` cells for `used` out of `total`, followed by
/// the two sizes.
pub fn mem_bar(p: &Palette, used: u64, total: u64, width: u32) -> (text: String)
    ensures
        text@ == capacity_text(*p, used as nat, total as nat, width as nat),
{
    let ghost u = used as nat;
    let ghost t = total as nat;
    let ghost w = width as nat;
    proof {
        lemma_full_cells_bound(u, t, w);
    }
    let part: u64 = if used < total {
        used
    } else {
        total
    };
    let mut text = String::new();
    text.append("[");
    assert(text@ == "["@);
    text.append(p.percent_col(percent_of(used, total)));
    if total == 0 {
        if width == 0 {
            assert(text@ + repeated('█', 0) == text@);
            assert(bar_filled(u, t, w) == repeated('█', 0));
        } else {
            text.append(percent_slider(0));
            assert(bar_filled(u, t, w) =~= seq![slider_glyph(0)]);
        }
        text.append(p.reset);
        if width > 0 {
            push_spaces(&mut text, (width - 1) as usize);
        } else {
            assert(text@ + spaces(0) == text@);
        }
    } else {
        assert((part as nat) * (width as nat) <= 0xFFFF_FFFF_FFFF_FFFF * 0xFFFF_FFFF)
            by (nonlinear_arith)
            requires
                part <= 0xFFFF_FFFF_FFFF_FFFF,
                width <= 0xFFFF_FFFF,
        ;
        let scaled: u128 = (part as u128) * (width as u128);
        assert(scaled == filled_part(u, t) * w);
        let full: u128 = scaled / (total as u128);
        assert(full == full_cells(u, t, w));
        push_repeated(&mut text, '█', full as usize);
        if full == width as u128 {
        } else {
            let rest: u64 = (scaled % (total as u128)) as u64;
            text.append(percent_slider(percent_of(rest, total)));
            assert(bar_filled(u, t, w) =~= repeated('█', full as nat) + seq![
                slider_glyph(tier_of(partial_percent(u, t, w))),
            ]);
        }
        text.append(p.reset);
        if full == width as u128 {
            assert(text@ + spaces(0) == text@);
        } else {
            push_spaces(&mut text, (width as u128 - full - 1) as usize);
        }
    }
    text.append("] ");
    let usage = mem_usage(p, used, total);
    text.append(usage.as_str());
    assert(text@ =~= capacity_text(*p, u, t, w));
    text
}

} // verus!
