use hwgauge::sensors::{classify, Reading, ReadingKind};
use hwgauge::table::rows;
use hwgauge::units::{format_size, percent_of};
use hwgauge::visual::{mem_bar, Palette, VisualTier};

fn temperature(label: &str, degrees: i64) -> Reading {
    Reading { label: label.to_string(), value: Some(degrees * 1000), kind: ReadingKind::Temperature }
}

#[test]
fn format_size_at_the_unit_boundaries() {
    assert_eq!(format_size(1023), "1023B");
    assert_eq!(format_size(1024), "1K");
    assert_eq!(format_size(1536), "2K");
    assert_eq!(format_size(1 << 20), "1M");
    assert_eq!(format_size(1 << 30), "1G");
}

#[test]
fn percent_of_stays_within_bounds() {
    for total in [1u64, 2, 3, 7, 10, 99, 100, 101, 1 << 40, u64::MAX] {
        for used in [0, 1, total / 3, total / 2, total - 1, total] {
            let percent = percent_of(used, total);
            assert!(percent <= 100);
            assert!(used != total || percent == 100);
            assert!(used != 0 || percent == 0);
        }
    }
    assert_eq!(percent_of(0, 0), 0);
    assert_eq!(percent_of(1, 0), 0);
}

#[test]
fn tiers_change_right_behind_each_edge() {
    let edges = [12, 25, 37, 50, 62, 75, 87];
    for (tier, edge) in edges.iter().enumerate() {
        assert_eq!(VisualTier::of_percent(*edge).level() as usize, tier);
        assert_eq!(VisualTier::of_percent(*edge + 1).level() as usize, tier + 1);
    }
    let palette = Palette::ansi();
    for percent in 0..=100u32 {
        let (glyph, color) = palette.encode(percent);
        assert_eq!(glyph, VisualTier::of_percent(percent).bar());
        assert_eq!(color, palette.percent_col(percent));
    }
}

#[test]
fn table_of_two_rows_and_two_columns() {
    let lines = vec!["a;bb".to_string(), "ccc;d".to_string()];
    assert_eq!(rows(&lines), "a   bb\nccc d\n");
}

#[test]
fn bar_of_ten_cells_half_in_use() {
    let bar: Vec<char> = mem_bar(&Palette::plain(), 5, 10, 10).chars().skip(1).take(10).collect();
    assert_eq!(bar.len(), 10);
    assert!(bar[..5].iter().all(|&cell| cell == '█'));
    assert_eq!(bar[5], '▏');
    assert!(bar[6..].iter().all(|&cell| cell == ' '));
}

#[test]
fn cores_and_package_of_one_processor() {
    let readings = vec![
        temperature("Core 0", 40),
        temperature("Core 1", 60),
        temperature("coretemp Package id 0", 55),
    ];
    let sensors = classify(&readings);
    assert_eq!(sensors.core, vec![40, 60]);
    assert_eq!(sensors.cpu, vec![55]);
    assert_eq!(sensors.core.iter().max(), Some(&60));
}
