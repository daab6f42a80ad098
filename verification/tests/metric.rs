use hwgauge::metric::Metric;
use hwgauge::sensors::{Reading, ReadingKind};
use hwgauge::visual::Palette;

#[test]
fn metric_of_a_pair_is_graded_by_the_share() {
    let metric = Metric::from_pair(3 << 30, 4 << 30);
    assert_eq!(metric.raw(), 3 << 30);
    assert_eq!(metric.unit_string(), "3G");
    assert_eq!(metric.percent(), 75);
    assert_eq!(metric.paint(&Palette::ansi()), "\x1b[35m3G\x1b[0m");
    assert_eq!(Metric::from_pair(5, 0).percent(), 0);
    assert_eq!(Metric::from_pair(5, 1).percent(), 100);
}

#[test]
fn metric_of_a_value_has_the_unit_of_its_kind() {
    let kinds = [
        (ReadingKind::Temperature, "55°C"),
        (ReadingKind::Usage, "55%"),
        (ReadingKind::Frequency, "55MHz"),
        (ReadingKind::Power, "55W"),
        (ReadingKind::Other, "55"),
    ];
    for (kind, text) in kinds {
        let metric = Metric::from_value(55, kind);
        assert_eq!(metric.raw(), 55);
        assert_eq!(metric.unit_string(), text);
        assert_eq!(metric.percent(), 55);
    }
    assert_eq!(Metric::from_value(4200, ReadingKind::Frequency).percent(), 100);
    assert_eq!(Metric::from_value(101, ReadingKind::Temperature).paint(&Palette::plain()), "101°C");
}

#[test]
fn metric_of_a_reading_rounds_its_value() {
    let warm = Reading { label: "x".to_string(), value: Some(61_500), kind: ReadingKind::Temperature };
    let metric = Metric::from_reading(&warm);
    assert_eq!(metric.raw(), 62);
    assert_eq!(metric.unit_string(), "62°C");
    assert_eq!(metric.percent(), 62);
    assert_eq!(metric.paint(&Palette::ansi()), "\x1b[35m62°C\x1b[0m");
    let missing = Reading { label: "x".to_string(), value: None, kind: ReadingKind::Power };
    assert_eq!(Metric::from_reading(&missing).unit_string(), "0W");
    assert_eq!(Metric::from_reading(&missing).percent(), 0);
}
