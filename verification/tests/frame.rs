use hwgauge::composer::{can_compose, compose_frame};
use hwgauge::frame::{
    compose_accelerator_line, compose_bus_line, compose_core_line, compose_fan_line,
    compose_frequency_line, compose_processor_line, compose_temperature_line,
    core_frequency_percents, lane_throughput, Accelerator, Clock, Disk, Fan, FrameInputs, Interface,
    Memory, Processor,
};
use hwgauge::listing::{
    compose_disk_rows, compose_network_line, compose_sensor_rows, dominant_interface,
    label_of_disk, net_filter,
};
use hwgauge::sensors::{classify, Reading, ReadingKind};
use hwgauge::visual::Palette;

const GIB: u64 = 1 << 30;

fn temperature(label: &str, degrees: i64) -> Reading {
    Reading { label: label.to_string(), value: Some(degrees * 1000), kind: ReadingKind::Temperature }
}

fn interface(name: &str, total: u64) -> Interface {
    Interface {
        name: name.to_string(),
        received: 2048,
        transmitted: 10 * 1024 + 1023,
        packets_received: 12,
        packets_transmitted: 7,
        total_received: total,
        total_transmitted: 0,
    }
}

fn disk(name: &str, total: u64, free: u64) -> Disk {
    Disk {
        name: name.to_string(),
        total,
        free,
        read: 1536,
        written: 0,
        total_read: 3 * GIB,
        total_written: 5 * (1 << 20),
    }
}

fn accelerator() -> Accelerator {
    Accelerator {
        usage: 5,
        temperature: 41,
        memory_percent: 12,
        power: 35_500,
        power_limit: 170_000,
        memory_used: 2 * GIB,
        memory_total: 8 * GIB,
        graphics_clock: Clock { current: 210, ceiling: 2100 },
        memory_clock: Clock { current: 4000, ceiling: 8000 },
        shader_clock: Clock { current: 2100, ceiling: 2100 },
        video_clock: Clock { current: 0, ceiling: 0 },
        fans: vec![Fan { percent: 30, rpm: 1200 }, Fan { percent: 95, rpm: 12345 }],
        bus_received: 1_500_000,
        bus_sent: 2_000,
        link_generation: 4,
        link_width: 16,
    }
}

fn inputs(extended: bool) -> FrameInputs {
    FrameInputs {
        processor: Processor {
            usage: 37,
            core_usage: vec![10, 90],
            core_frequency: vec![1800, 3600],
            core_rating: vec![3600, 3600],
        },
        memory: Memory { used: 8 * GIB, total: 16 * GIB, swap_used: 0, swap_total: 0 },
        accelerator: accelerator(),
        readings: vec![
            temperature("Core 0", 40),
            temperature("Core 1", 60),
            temperature("coretemp Package id 0", 55),
            temperature("acpitz temp1", 28),
            temperature("nvme Composite WD SSD 1TB", 39),
        ],
        interfaces: vec![interface("lo", 900), interface("eth0", 500), interface("wlan0", 100)],
        disks: vec![disk("/dev/nvme0n1p2", 500 * GIB, 125 * GIB), disk("/dev/sda1", 8 * GIB, GIB)],
        extended,
    }
}

#[test]
fn frame_in_plain_text() {
    let frame = compose_frame(&Palette::plain(), &inputs(false));
    let expected = vec![
        " CPU 37%  55°C",
        " GPU  5%  41°C  35W/170W",
        " RAM [███████▏      ] 8G/16G  0B/0B",
        "VRAM [███▌          ] 2G/8G     12%",
        "CORE ▁█      90%",
        "FREQ ▄█      100% 3600MHz",
        "TEMP ▄▅      60C",
        "CLCK GFX ▁  MEM ▂  SM █  VID ▁",
        "FANS 30% 1200rpm, 95% 12345rpm",
        "PCIE ▼1500M  ▲   2M   31.5GB/s",
        "NETW ▼   2K  ▲  10K   12/7    pkt/s  eth0",
        "nvme0n1p2 375G/500G   2K/0B   Tot 3G/5M",
    ];
    assert_eq!(frame.lines(), &expected);
    assert_eq!(frame.len(), 12);
    assert!(!frame.is_empty());
    assert_eq!(frame.text(), expected.join("\n") + "\n");
}

#[test]
fn extended_frame_lists_the_device_groups() {
    let frame = compose_frame(&Palette::plain(), &inputs(true));
    let lines = frame.lines();
    assert_eq!(lines.len(), 15);
    assert_eq!(lines[12], "WD 1TB       39°C");
    assert_eq!(lines[13], "Motherboard  28°C");
    assert_eq!(lines[14], "");
    assert!(frame.text().ends_with("Motherboard  28°C\n\n"));
}

#[test]
fn frame_without_interfaces_and_disks() {
    let mut bare = inputs(false);
    bare.interfaces.clear();
    bare.disks.clear();
    bare.readings.clear();
    let frame = compose_frame(&Palette::plain(), &bare);
    assert_eq!(frame.len(), 10);
    assert_eq!(frame.lines()[0], " CPU 37%   0°C");
    assert_eq!(frame.lines()[6], "TEMP         0C");
}

#[test]
fn frame_with_a_ragged_table_cannot_be_composed() {
    let plain = Palette::plain();
    assert!(can_compose(&plain, &inputs(false)));
    assert!(can_compose(&plain, &inputs(true)));
    let mut odd = inputs(false);
    odd.disks.push(disk("/dev/a;b", 100 * GIB, 0));
    assert!(!can_compose(&plain, &odd));
    let mut named = inputs(true);
    named.readings.push(temperature("a;b", 30));
    assert!(!can_compose(&plain, &named));
    named.extended = false;
    assert!(can_compose(&plain, &named));
}

#[test]
fn processor_line_in_colour() {
    let line = compose_processor_line(&Palette::ansi(), 37, 88);
    assert_eq!(line, " \x1b[32mCPU\x1b[0m\x1b[96m 37%\x1b[0m\x1b[31m  88°C\x1b[0m");
}

#[test]
fn accelerator_line_grades_power_against_the_limit() {
    let mut a = accelerator();
    a.power = 169_999;
    let line = compose_accelerator_line(&Palette::ansi(), &a);
    assert_eq!(
        line,
        " \x1b[35mGPU\x1b[0m\x1b[94m  5%\x1b[0m\x1b[96m  41°C \x1b[0m\x1b[31m169W\x1b[0m\x1b[2m/\x1b[0m\x1b[31m170W\x1b[0m"
    );
    a.power_limit = 0;
    assert!(compose_accelerator_line(&Palette::plain(), &a).ends_with("169W/0W"));
}

#[test]
fn core_line_pads_the_colour_code_not_the_number() {
    assert_eq!(compose_core_line(&Palette::plain(), &vec![]), "CORE       0%");
    assert_eq!(
        compose_core_line(&Palette::ansi(), &vec![100]),
        "\x1b[94mCORE\x1b[0m \x1b[31m█\x1b[0m\x1b[31m 100%\x1b[0m"
    );
}

#[test]
fn frequency_line_shows_the_rated_range() {
    let plain = Palette::plain();
    assert_eq!(
        compose_frequency_line(&plain, &vec![800, 5000], &vec![3200, 4800]),
        "FREQ ▂█      100% 3200-4800MHz"
    );
    assert_eq!(compose_frequency_line(&plain, &vec![], &vec![]), "FREQ       0%   0MHz");
    assert_eq!(core_frequency_percents(&vec![1, 2, 3], &vec![4, 0]), vec![25, 0]);
}

#[test]
fn temperature_line_stands_below_the_core_line() {
    let plain = Palette::plain();
    assert_eq!(compose_temperature_line(&plain, &vec![40, 60], 4), "TEMP ▄▅        60C");
    assert_eq!(compose_temperature_line(&plain, &vec![40, 60], 0), "TEMP ▄▅    60C");
    assert_eq!(compose_temperature_line(&plain, &vec![1, 2, 3, 4, 5, 6, 7], 1), "TEMP ▁▁▁▁▁▁▁ 7C");
}

#[test]
fn fan_line_separates_fans_by_commas() {
    let plain = Palette::plain();
    assert_eq!(compose_fan_line(&plain, &vec![]), "FANS ");
    assert_eq!(compose_fan_line(&plain, &vec![Fan { percent: 0, rpm: 0 }]), "FANS 0%    0rpm");
    assert_eq!(
        compose_fan_line(&Palette::ansi(), &vec![Fan { percent: 80, rpm: 900 }]),
        "\x1b[96mFANS\x1b[0m \x1b[31m80%\x1b[0m \x1b[2m 900rpm\x1b[0m"
    );
}

#[test]
fn bus_ceiling_follows_generation_and_width() {
    assert_eq!(lane_throughput(1), 250);
    assert_eq!(lane_throughput(2), 500);
    assert_eq!(lane_throughput(3), 985);
    assert_eq!(lane_throughput(4), 1969);
    assert_eq!(lane_throughput(5), 3938);
    assert_eq!(lane_throughput(0), 1969);
    assert_eq!(lane_throughput(6), 1969);
    let plain = Palette::plain();
    let mut a = accelerator();
    a.link_generation = 3;
    a.link_width = 8;
    assert!(compose_bus_line(&plain, &a).ends_with("   7.9GB/s"));
    a.link_generation = 1;
    a.link_width = 4;
    assert!(compose_bus_line(&plain, &a).ends_with("   1GB/s"));
    a.link_width = 0;
    assert!(compose_bus_line(&plain, &a).ends_with("   0GB/s"));
    a.link_generation = 5;
    a.link_width = u32::MAX;
    assert!(compose_bus_line(&plain, &a).ends_with("   16913581207.7GB/s"));
}

#[test]
fn bus_line_in_colour() {
    let mut a = accelerator();
    a.bus_received = 31_504_000;
    let line = compose_bus_line(&Palette::ansi(), &a);
    assert_eq!(
        line,
        "\x1b[96mPCIE\x1b[0m \x1b[32m▼\x1b[0m\x1b[31m31504M\x1b[0m  \x1b[35m▲\x1b[0m\x1b[94m   2M\x1b[0m   \x1b[2m31.5GB/s\x1b[0m"
    );
}

#[test]
fn interfaces_that_carry_nothing_or_are_virtual_are_not_listed() {
    assert!(net_filter(&interface("eth0", 1)));
    assert!(!net_filter(&interface("eth0", 0)));
    assert!(!net_filter(&interface("lo", 1)));
    assert!(net_filter(&interface("lo0", 1)));
    assert!(!net_filter(&interface("br-1234", 1)));
    assert!(net_filter(&interface("xbr-1234", 1)));
    assert!(!net_filter(&interface("veth12", 1)));
    assert!(!net_filter(&interface("myveth", 1)));
    let mut sender = interface("eth1", 0);
    sender.total_transmitted = 5;
    assert!(net_filter(&sender));
}

#[test]
fn the_interface_with_the_most_traffic_is_shown() {
    assert_eq!(dominant_interface(&vec![]), None);
    assert_eq!(dominant_interface(&vec![interface("lo", 9), interface("veth0", 9)]), None);
    let some = vec![interface("a", 5), interface("lo", 900), interface("b", 7), interface("c", 6)];
    assert_eq!(dominant_interface(&some), Some(2));
    let tied = vec![interface("a", 7), interface("b", 7), interface("c", 0)];
    assert_eq!(dominant_interface(&tied), Some(1));
    let mut huge = vec![interface("a", u64::MAX), interface("b", u64::MAX)];
    huge[0].total_transmitted = 1;
    assert_eq!(dominant_interface(&huge), Some(0));
}

#[test]
fn network_line_in_colour() {
    let line = compose_network_line(&Palette::ansi(), &interface("eth0", 1));
    assert_eq!(
        line,
        "\x1b[96mNETW\x1b[0m \x1b[32m▼\x1b[0m\x1b[94m   2K\x1b[0m  \x1b[35m▲\x1b[0m\x1b[94m  10K\x1b[0m \x1b[32m  12\x1b[0m/\x1b[35m7    \x1b[36mpkt/s\x1b[0m  \x1b[2meth0\x1b[0m"
    );
}

#[test]
fn disks_are_listed_by_their_device_name() {
    assert_eq!(label_of_disk("/dev/sda1"), "sda1");
    assert_eq!(label_of_disk("/dev/"), "");
    assert_eq!(label_of_disk("tmpfs"), "");
    assert_eq!(label_of_disk("x/dev/sda"), "");
}

#[test]
fn small_disks_are_left_out() {
    let plain = Palette::plain();
    let disks = vec![
        disk("/dev/a", 8 * GIB, 0),
        disk("/dev/b", 8 * GIB + 1, 8 * GIB + 1),
        disk("c", 9 * GIB, 10 * GIB),
    ];
    assert_eq!(
        compose_disk_rows(&plain, &disks),
        vec!["b;0B/8G;  2K/0B  ;Tot 3G/5M", ";0B/9G;  2K/0B  ;Tot 3G/5M"]
    );
    assert_eq!(
        compose_disk_rows(&Palette::ansi(), &disks[1..2].iter().map(|d| disk(&d.name, d.total, 0)).collect()),
        vec!["\x1b[96mb\x1b[0m;\x1b[31m8G\x1b[0m/\x1b[31m8G\x1b[0m;\x1b[32m  2K\x1b[0m/\x1b[35m0B  \x1b[0m;Tot \x1b[32m3G\x1b[0m/\x1b[35m5M\x1b[0m"]
    );
}

#[test]
fn device_groups_are_listed_with_all_their_values() {
    let readings = vec![
        temperature("nvme Composite WD", 39),
        temperature("nvme Sensor 1 WD", 45),
        temperature("nvme Sensor 2 WD", 91),
        temperature("spd5118", 33),
    ];
    let groups = classify(&readings).groups;
    assert_eq!(
        compose_sensor_rows(&Palette::plain(), &groups),
        vec!["WD ;39°C, 45°C, 91°C", "RAM ;33°C"]
    );
    assert_eq!(
        compose_sensor_rows(&Palette::ansi(), &groups)[1],
        "\x1b[94mRAM\x1b[0m ;\x1b[96m33°C\x1b[0m"
    );
}
