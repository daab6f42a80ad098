use hwgauge::driver::{next_phase, Phase, RunMode};
use hwgauge::rating::{parse_number, rated_frequency, trim};

fn chars(text: &str) -> Vec<char> {
    text.chars().collect()
}

fn run(mode: &RunMode, steps: usize) -> Vec<Phase> {
    let mut phases = vec![Phase::Init];
    for _ in 0..steps {
        let next = next_phase(*phases.last().unwrap(), mode);
        phases.push(next);
    }
    phases
}

#[test]
fn interactive_run_repeats_without_end() {
    let phases = run(&RunMode::interactive(), 300);
    assert_eq!(
        phases[..8],
        [
            Phase::Init,
            Phase::RefreshSample,
            Phase::Compose,
            Phase::Emit,
            Phase::RefreshSample,
            Phase::Compose,
            Phase::Emit,
            Phase::RefreshSample
        ]
    );
    assert!(!phases.contains(&Phase::Done));
    assert!(!phases.contains(&Phase::Inventory));
    assert_eq!(phases.iter().filter(|&&p| p == Phase::Emit).count(), 100);
}

#[test]
fn plain_run_emits_one_frame() {
    let plain = RunMode { plain: true, static_info: false, extended: true };
    let phases = run(&plain, 10);
    assert_eq!(
        phases[..6],
        [Phase::Init, Phase::RefreshSample, Phase::Compose, Phase::Emit, Phase::Done, Phase::Done]
    );
    assert_eq!(phases.iter().filter(|&&p| p == Phase::Emit).count(), 1);
    assert!(plain.single_shot());
    assert!(!RunMode::interactive().single_shot());
}

#[test]
fn inventory_run_never_samples() {
    for plain in [false, true] {
        let mode = RunMode { plain, static_info: true, extended: false };
        let phases = run(&mode, 6);
        assert_eq!(phases[..4], [Phase::Init, Phase::Inventory, Phase::Done, Phase::Done]);
        assert!(!phases.contains(&Phase::RefreshSample));
    }
}

#[test]
fn palette_follows_the_mode() {
    let plain = RunMode { plain: true, static_info: false, extended: false };
    assert_eq!(plain.palette().red, "");
    assert_eq!(plain.palette().reset, "");
    assert_eq!(RunMode::interactive().palette().red, "\x1b[31m");
    assert_eq!(RunMode::interactive().palette().dim, "\x1b[2m");
}

#[test]
fn rated_frequency_reads_khz_as_mhz() {
    assert_eq!(rated_frequency("3600000\n"), 3600);
    assert_eq!(rated_frequency("  4799999 "), 4799);
    assert_eq!(rated_frequency("999"), 0);
    assert_eq!(rated_frequency("+1000"), 1);
    assert_eq!(rated_frequency("4294967295"), 4294967);
}

#[test]
fn rated_frequency_is_zero_for_what_is_no_number() {
    for text in ["", " ", "\n", "abc", "12a", "-5", "+", "1 2", "4294967296", "99999999999999999999", "1.5"] {
        assert_eq!(rated_frequency(text), 0, "{:?}", text);
    }
}

#[test]
fn parse_number_agrees_with_the_standard_parser() {
    for text in ["0", "007", "+0", "42", "4294967295", "4294967296", "", "+", "++1", "1+", "٣", " 1"] {
        assert_eq!(parse_number(&chars(text)), text.parse::<u32>().ok(), "{:?}", text);
    }
}

#[test]
fn trim_agrees_with_the_standard_trim() {
    for text in ["", " ", "a", " a ", "\t\na b\r\n", "\u{a0}x\u{3000}", "\u{200b}x", "x\u{85}"] {
        let trimmed: String = trim(&chars(text)).iter().collect();
        assert_eq!(trimmed, text.trim(), "{:?}", text);
    }
}
