use hwgauge::sensors::{
    canonical_device_name, classify, find_related, priority_of, rank, role, stripped_label, take_in,
    whole, Classification, ComponentGroup, Reading, ReadingKind, Role,
};

fn temperature(label: &str, degrees: i64) -> Reading {
    Reading { label: label.to_string(), value: Some(degrees * 1000), kind: ReadingKind::Temperature }
}

fn names(c: &Classification) -> Vec<&str> {
    c.groups.iter().map(|g| g.canonical_name.as_str()).collect()
}

#[test]
fn cores_and_package_are_carved_out() {
    let readings = vec![
        temperature("Core 0", 40),
        temperature("Core 1", 60),
        temperature("coretemp Package id 0", 55),
    ];
    let c = classify(&readings);
    assert_eq!(c.core, vec![40, 60]);
    assert_eq!(c.cpu, vec![55]);
    assert!(c.groups.is_empty());
    assert_eq!(c.core.iter().copied().max(), Some(60));
}

#[test]
fn a_bare_package_label_is_a_device() {
    let readings =
        vec![temperature("Core 0", 40), temperature("Core 1", 60), temperature("Package id 0", 55)];
    let c = classify(&readings);
    assert_eq!(c.core, vec![40, 60]);
    assert_eq!(c.core.iter().copied().max(), Some(60));
    assert!(c.cpu.is_empty());
    assert_eq!(names(&c), vec!["Package id 0"]);
    assert_eq!(c.groups[0].values, vec![55]);
}

#[test]
fn names_related_by_prefix_merge() {
    let readings =
        vec![temperature("nvme Composite Composite", 41), temperature("Composite Variant", 43)];
    let c = classify(&readings);
    assert_eq!(names(&c), vec!["Composite"]);
    assert_eq!(c.groups[0].values, vec![41, 43]);
}

#[test]
fn unrelated_names_do_not_merge() {
    let readings = vec![temperature("spd5118", 38), temperature("iwlwifi_1", 47)];
    let c = classify(&readings);
    assert_eq!(names(&c), vec!["Wi-Fi", "RAM"]);
    assert_eq!(c.groups[0].values, vec![47]);
    assert_eq!(c.groups[1].values, vec![38]);
}

#[test]
fn classifying_twice_gives_the_same_groups() {
    let readings = vec![
        temperature("acpitz temp1", 28),
        temperature("nvme Composite WD SSD 1TB", 39),
        temperature("nvme Sensor 1 WD SSD 1TB", 45),
        temperature("Core 2", 51),
        temperature("spd5118", 33),
    ];
    let first = classify(&readings);
    let second = classify(&readings);
    assert_eq!(names(&first), names(&second));
    assert_eq!(first.cpu, second.cpu);
    assert_eq!(first.core, second.core);
    for (a, b) in first.groups.iter().zip(second.groups.iter()) {
        assert_eq!(a.values, b.values);
        assert_eq!(a.priority_key, b.priority_key);
    }
}

#[test]
fn composite_groups_come_first_then_the_hottest() {
    let readings = vec![
        temperature("acpitz temp1", 28),
        temperature("spd5118", 33),
        temperature("nvme Composite WD SSD 1TB", 39),
        temperature("nvme Sensor 1 WD SSD 1TB", 45),
        temperature("amdgpu edge", 62),
    ];
    let c = classify(&readings);
    assert_eq!(names(&c), vec!["WD 1TB", "amdgpu edge", "RAM", "Motherboard"]);
    assert_eq!(c.groups[0].values, vec![39, 45]);
    assert_eq!(c.groups[0].priority_key, 0);
    assert_eq!(c.groups[1].priority_key, 1 + (u32::MAX as u64 - 62));
}

#[test]
fn a_missing_value_counts_as_zero() {
    let readings = vec![
        Reading { label: "Core 0".to_string(), value: None, kind: ReadingKind::Temperature },
        Reading { label: "fan".to_string(), value: None, kind: ReadingKind::Other },
    ];
    let c = classify(&readings);
    assert_eq!(c.core, vec![0]);
    assert_eq!(c.groups[0].values, vec![0]);
}

#[test]
fn values_are_rounded_to_whole_units() {
    let of = |v: i64| {
        let r = Reading { label: "x".to_string(), value: Some(v), kind: ReadingKind::Temperature };
        classify(&vec![r]).groups[0].values[0]
    };
    assert_eq!(of(41_499), 41);
    assert_eq!(of(41_500), 42);
    assert_eq!(of(499), 0);
    assert_eq!(of(-3_000), 0);
    assert_eq!(of(i64::MAX), u32::MAX);
}

fn chars(text: &str) -> Vec<char> {
    text.chars().collect()
}

fn device(label: &str) -> String {
    canonical_device_name(&chars(label)).iter().collect()
}

fn group(name: &str, values: &[u32], priority_key: u64) -> ComponentGroup {
    ComponentGroup { canonical_name: name.to_string(), values: values.to_vec(), priority_key }
}

#[test]
fn vendor_spellings_are_unified() {
    let stripped = |label: &str| stripped_label(label).iter().collect::<String>();
    assert_eq!(stripped("Core 3"), "core 3");
    assert_eq!(stripped("coretemp Package id 0"), "core Package id 0");
    assert_eq!(stripped("coretemp Core 3"), "core core 3");
    assert_eq!(stripped("nvme Composite X"), "nvme Composite X");
    assert_eq!(stripped(""), "");
}

#[test]
fn roles_follow_the_stripped_label() {
    assert_eq!(role(&chars("core Package id 0")), Role::Package);
    assert_eq!(role(&chars("x core Package")), Role::Package);
    assert_eq!(role(&chars("core 0")), Role::Core);
    assert_eq!(role(&chars("core 15")), Role::Core);
    assert_eq!(role(&chars("core ")), Role::Core);
    assert_eq!(role(&chars("core 1a")), Role::Device);
    assert_eq!(role(&chars("core")), Role::Device);
    assert_eq!(role(&chars("Package id 0")), Role::Device);
    assert_eq!(role(&chars("acpitz")), Role::Device);
    assert_eq!(role(&chars("")), Role::Device);
}

#[test]
fn device_names_are_cleaned_in_order() {
    assert_eq!(device("nvme Sensor 1 WD Black"), "WD Black");
    assert_eq!(device("nvme Sensor 12  3 Samsung SSD 980"), "Samsung 980");
    assert_eq!(device("nvme Sensor "), "");
    assert_eq!(device("nvme Composite WD Black"), "WD Black");
    assert_eq!(device("nvme Composite SSD temp1"), "temp1");
    assert_eq!(device("amdgpu edge temp1"), "amdgpu edge");
    assert_eq!(device("acpitz temp1"), "Motherboard");
    assert_eq!(device("acpitz"), "Motherboard");
    assert_eq!(device("spd5118 temp1"), "RAM");
    assert_eq!(device("iwlwifi_1 temp1"), "Wi-Fi");
    assert_eq!(device("mt7921_phy0 wifi"), "Wi-Fi");
    assert_eq!(device("k10temp Tctl"), "k10temp Tctl");
    assert_eq!(device("x nvme Sensor 1 y"), "x nvme Sensor 1 y");
}

#[test]
fn whole_units_round_half_away_from_zero() {
    assert_eq!(whole(None), 0);
    assert_eq!(whole(Some(0)), 0);
    assert_eq!(whole(Some(499)), 0);
    assert_eq!(whole(Some(500)), 1);
    assert_eq!(whole(Some(1_499)), 1);
    assert_eq!(whole(Some(1_500)), 2);
    assert_eq!(whole(Some(-1)), 0);
    assert_eq!(whole(Some(i64::MIN)), 0);
    assert_eq!(whole(Some(4_294_967_294_499)), 4_294_967_294);
    assert_eq!(whole(Some(4_294_967_294_500)), u32::MAX);
    assert_eq!(whole(Some(4_294_967_295_500)), u32::MAX);
}

#[test]
fn priority_puts_composite_sensors_first() {
    assert_eq!(priority_of("nvme Composite X", 30), 0);
    assert_eq!(priority_of("Composite", u32::MAX), 0);
    assert_eq!(priority_of("composite", 30), 1 + (u32::MAX as u64 - 30));
    assert_eq!(priority_of("x", 0), 1 << 32);
    assert_eq!(priority_of("x", u32::MAX), 1);
}

#[test]
fn a_reading_joins_the_first_related_group() {
    let mut groups = vec![group("AB", &[1], 9), group("AC", &[2], 5), group("A", &[3], 7)];
    assert_eq!(find_related(&groups, &chars("A")), 0);
    assert_eq!(find_related(&groups, &chars("ACD")), 1);
    assert_eq!(find_related(&groups, &chars("B")), 3);
    assert_eq!(find_related(&groups, &chars("")), 0);
    take_in(&mut groups, &chars("ACD"), 8, 2);
    take_in(&mut groups, &chars("B"), 4, 6);
    take_in(&mut groups, &chars("A"), 6, 11);
    let seen: Vec<(&str, &[u32], u64)> =
        groups.iter().map(|g| (g.canonical_name.as_str(), &g.values[..], g.priority_key)).collect();
    assert_eq!(
        seen,
        vec![("AB", &[1, 6][..], 9), ("AC", &[2, 8][..], 2), ("A", &[3][..], 7), ("B", &[4][..], 6)]
    );
}

#[test]
fn ranking_is_stable() {
    let groups = vec![
        group("d", &[1], 7),
        group("a", &[2], 0),
        group("c", &[3], 7),
        group("b", &[4], 0),
        group("e", &[5], 3),
    ];
    let ranked: Vec<String> = rank(groups).into_iter().map(|g| g.canonical_name).collect();
    assert_eq!(ranked, vec!["a", "b", "e", "d", "c"]);
    assert!(rank(vec![]).is_empty());
}

#[test]
fn every_reading_lands_in_one_bucket() {
    let labels = [
        "Core 0", "Core 1", "coretemp Package id 0", "coretemp Package id 1", "acpitz temp1",
        "acpitz temp2", "nvme Composite A", "nvme Sensor 1 A", "nvme Sensor 2 A", "spd5118", "",
        "A", "AB", "B",
    ];
    let readings: Vec<Reading> =
        labels.iter().enumerate().map(|(i, label)| temperature(label, 30 + i as i64)).collect();
    let c = classify(&readings);
    let grouped: usize = c.groups.iter().map(|g| g.values.len()).sum();
    assert_eq!(c.cpu.len() + c.core.len() + grouped, readings.len());
    assert_eq!(c.cpu, vec![32, 33]);
    for (i, a) in c.groups.iter().enumerate() {
        assert!(!a.values.is_empty());
        for b in &c.groups[i + 1..] {
            assert!(a.priority_key <= b.priority_key);
            assert!(!a.canonical_name.starts_with(&b.canonical_name));
            assert!(!b.canonical_name.starts_with(&a.canonical_name));
        }
    }
}
