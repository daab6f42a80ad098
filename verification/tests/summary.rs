use hwgauge::names::{devices_among, precedes, sort_names};
use hwgauge::summary::{
    compose_accelerator_summary, compose_interface_entries, compose_processor_summary,
    compose_summary, compose_tree, device_names, render_static_summary, AcceleratorInfo, Address,
    InterfaceInfo, Inventory,
};
use hwgauge::visual::Palette;

const GIB: u64 = 1 << 30;

fn owned(lines: &[&str]) -> Vec<String> {
    lines.iter().map(|line| line.to_string()).collect()
}

fn chars(text: &str) -> Vec<char> {
    text.chars().collect()
}

fn accelerator() -> AcceleratorInfo {
    AcceleratorInfo {
        name: "NVIDIA GeForce RTX 3070".to_string(),
        memory_total: 8 * GIB,
        memory_clock: 7001,
        graphics_clock: 2100,
        shader_clock: 2100,
        video_clock: 1950,
        cores: 5888,
        energy: 1_234_567_890_123,
        driver: "550.54.14".to_string(),
        performance_state: 8,
        compute_version: 12040,
    }
}

fn interface(name: &str, addresses: &[(&str, u8)], total: u64) -> InterfaceInfo {
    InterfaceInfo {
        name: name.to_string(),
        addresses: addresses
            .iter()
            .map(|&(text, prefix)| Address { text: text.to_string(), prefix })
            .collect(),
        mac: "aa:bb:cc:dd:ee:ff".to_string(),
        total_received: total,
        total_transmitted: 0,
    }
}

fn inventory() -> Inventory {
    Inventory {
        processor: "Intel(R) Core(TM) i7-10700K CPU @ 3.80GHz".to_string(),
        cores: 16,
        accelerators: vec![accelerator()],
        board: "MAG B460M".to_string(),
        sensor_labels: owned(&[
            "coretemp Package id 0",
            "Core 0",
            "spd5118",
            "nvme Composite WD SSD 1TB",
            "nvme Sensor 1 WD SSD 1TB",
            "acpitz temp1",
            "iwlwifi_1 temp1",
            "amdgpu edge",
        ]),
        interfaces: vec![
            interface("lo", &[("127.0.0.1", 8)], 5),
            interface("eth0", &[("192.168.1.5", 24), ("fe80::1", 64)], 5),
            interface("docker0", &[], 0),
            interface("wlan0", &[], 9),
        ],
    }
}

#[test]
fn inventory_in_plain_text() {
    let expected = vec![
        "CPU i7-10700K CPU @ 3.80GHz x16 Cores",
        "GPU RTX 3070",
        "├─ VRAM 8GB 7001MHz",
        "├─ Clock Gfx 2100MHz  SM 2100MHz  Vid 1950MHz",
        "├─ Cores 5888",
        "├─ Consumed 1234.57MJ",
        "├─ Driver 550.54.14",
        "├─ Perf 8 (0-15, 0 = max)",
        "└─ CUDA 12040",
        "MOBO MAG B460M",
        "├─ RAM",
        "├─ WD 1TB",
        "├─ Wi-Fi",
        "└─ amdgpu edge",
        "Networks ",
        "├─ eth0 ipv4[192.168.1.5], ipv6[fe80::1] mac[aa:bb:cc:dd:ee:ff]",
        "└─ wlan0  mac[aa:bb:cc:dd:ee:ff]",
    ];
    let plain = Palette::plain();
    assert_eq!(compose_summary(&plain, &inventory()), expected);
    assert_eq!(render_static_summary(&plain, &inventory()), expected.join("\n") + "\n");
}

#[test]
fn inventory_of_nothing() {
    let empty = Inventory {
        processor: String::new(),
        cores: 0,
        accelerators: vec![],
        board: String::new(),
        sensor_labels: vec![],
        interfaces: vec![],
    };
    assert_eq!(render_static_summary(&Palette::plain(), &empty), "CPU  x0 Cores\nMOBO \nNetworks \n");
}

#[test]
fn processor_summary_in_colour() {
    assert_eq!(
        compose_processor_summary(&Palette::ansi(), "AMD Ryzen 7", 8),
        "\x1b[96mCPU\x1b[0m AMD Ryzen 7 \x1b[94mx8 Cores\x1b[0m"
    );
}

#[test]
fn accelerator_summary_in_colour() {
    let lines = compose_accelerator_summary(&Palette::ansi(), &accelerator());
    assert_eq!(lines.len(), 8);
    assert_eq!(lines[0], "\x1b[35mGPU\x1b[0m RTX 3070");
    assert_eq!(
        lines[1],
        "\x1b[2m\x1b[35m├─\x1b[0m VRAM \x1b[32m8GB\x1b[0m \x1b[94m7001MHz\x1b[0m"
    );
    assert_eq!(
        lines[6],
        "\x1b[2m\x1b[35m├─\x1b[0m Perf \x1b[94m8\x1b[0m \x1b[2m(0-15, 0 = max)\x1b[0m"
    );
    assert_eq!(lines[7], "\x1b[2m\x1b[35m└─\x1b[0m CUDA \x1b[94m12040\x1b[0m");
}

#[test]
fn accelerator_memory_and_energy_are_rounded() {
    let plain = Palette::plain();
    let mut a = accelerator();
    a.memory_total = 12 * GIB - 8 * (1 << 20);
    a.energy = 5_000_000;
    let lines = compose_accelerator_summary(&plain, &a);
    assert_eq!(lines[1], "├─ VRAM 12GB 7001MHz");
    assert_eq!(lines[4], "├─ Consumed 0.01MJ");
    a.memory_total = 11 * GIB + GIB / 2;
    a.energy = 4_999_999;
    a.compute_version = -1;
    let lines = compose_accelerator_summary(&plain, &a);
    assert_eq!(lines[1], "├─ VRAM 11.5GB 7001MHz");
    assert_eq!(lines[4], "├─ Consumed 0MJ");
    assert_eq!(lines[7], "└─ CUDA -1");
    a.energy = 2_500_000_000;
    a.compute_version = i32::MIN;
    a.memory_total = u64::MAX;
    let lines = compose_accelerator_summary(&plain, &a);
    assert_eq!(lines[1], "├─ VRAM 17179869184GB 7001MHz");
    assert_eq!(lines[4], "├─ Consumed 2.5MJ");
    assert_eq!(lines[7], "└─ CUDA -2147483648");
}

#[test]
fn tree_marks_the_last_entry() {
    let plain = Palette::plain();
    assert!(compose_tree(&plain, "", &vec![]).is_empty());
    assert_eq!(compose_tree(&plain, "", &owned(&["only"])), vec!["└─ only"]);
    assert_eq!(
        compose_tree(&Palette::ansi(), "\x1b[31m", &owned(&["a", "b"])),
        vec!["\x1b[2m\x1b[31m├─\x1b[0m a", "\x1b[2m\x1b[31m└─\x1b[0m b"]
    );
}

#[test]
fn interfaces_of_the_inventory_are_filtered() {
    let entries = compose_interface_entries(&Palette::ansi(), &inventory().interfaces);
    assert_eq!(entries.len(), 2);
    assert_eq!(
        entries[0],
        "\x1b[94meth0\x1b[0m ipv4[\x1b[2m192.168.1.5\x1b[0m], ipv6[\x1b[2mfe80::1\x1b[0m]\x1b[0m mac[\x1b[2maa:bb:cc:dd:ee:ff\x1b[0m]"
    );
}

#[test]
fn devices_are_named_once_and_in_order() {
    let labels = owned(&["zeta", "nvme Composite Disk", "alpha", "Disk two", "alp", "acpitz", "Core 1"]);
    let found: Vec<String> = devices_among(&labels).iter().map(|n| n.iter().collect()).collect();
    assert_eq!(found, vec!["zeta", "Disk", "alpha"]);
    assert_eq!(device_names(&labels), vec!["Disk", "alpha", "zeta"]);
}

#[test]
fn names_are_ordered_character_by_character() {
    assert!(precedes(&chars(""), &chars("")));
    assert!(precedes(&chars(""), &chars("a")));
    assert!(!precedes(&chars("a"), &chars("")));
    assert!(precedes(&chars("abc"), &chars("abd")));
    assert!(precedes(&chars("ab"), &chars("abc")));
    assert!(!precedes(&chars("b"), &chars("abc")));
    assert!(precedes(&chars("Z"), &chars("a")));
    assert!(precedes(&chars("same"), &chars("same")));
    let mut expected = vec!["pear", "Apple", "fig", "apple", "", "figs", "°C"];
    let sorted: Vec<String> =
        sort_names(expected.iter().map(|n| chars(n)).collect()).iter().map(|n| n.iter().collect()).collect();
    expected.sort();
    assert_eq!(sorted, expected);
}
