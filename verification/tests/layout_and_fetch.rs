use slasher_horrorscripts::fetch::{
    cpu_model, current_shell, disk_usage, fetch_lines, linux_locale, local_ip, uptime_string,
    username, DiskInfo, IpAddress, NetInterface, SystemInfo,
};
use slasher_horrorscripts::layout::{print_fetch, print_with_left_block_writer, sixel_frame};

fn strings(v: &[&str]) -> Vec<String> {
    v.iter().map(|s| s.to_string()).collect()
}

fn sample_info() -> SystemInfo {
    SystemInfo {
        user: Some("jason".to_string()),
        host_name: Some("crystal-lake".to_string()),
        os_name: Some("NixOS".to_string()),
        kernel_version: None,
        arch: "x86_64".to_string(),
        uptime: 90061,
        shell: Some("/run/current-system/sw/bin/zsh".to_string()),
        cpu_brands: vec!["Ryzen 7".to_string(), "Ryzen 7".to_string()],
        cpu_usage: "12.5".to_string(),
        used_memory: 3 * 1048576 + 5,
        total_memory: 16 * 1048576,
        disks: vec![DiskInfo {
            mount_point: Some("/".to_string()),
            total_space: 100 * 1073741824,
            available_space: 40 * 1073741824 + 7,
        }],
        process_count: 321,
        lc_all: None,
        lang: Some("en_US.UTF-8".to_string()),
        interfaces: vec![NetInterface {
            name: "eth0".to_string(),
            addresses: vec![IpAddress::V4(10, 0, 0, 13)],
        }],
    }
}

#[test]
fn fetch_lines_without_colour() {
    colored::control::set_override(false);
    let lines = fetch_lines(&sample_info());
    assert_eq!(
        lines,
        strings(&[
            "jason@crystal-lake",
            "────────────────────────",
            "OS        : NixOS",
            "Kernel    : ",
            "Arch      : x86_64",
            "Uptime    : 1d 1h 1m",
            "Shell     : zsh",
            "CPU       : Ryzen 7",
            "CPU Usage : 1%",
            "Memory    : 3 / 16 MiB",
            "Disk (/)  : 60 / 100 GiB",
            "Processes : 321",
            "Locale    : en_US.UTF-8",
            "Local IP  : 10.0.0.13",
        ])
    );
}

#[test]
fn fetch_lines_with_colour() {
    colored::control::set_override(true);
    let lines = fetch_lines(&sample_info());
    assert_eq!(lines[0], "\x1b[1;31mjason\x1b[0m@\x1b[37mcrystal-lake\x1b[0m");
    assert_eq!(lines[2], "\x1b[1;31mOS        \x1b[0m: \x1b[37mNixOS\x1b[0m");
    assert_eq!(lines[8], "\x1b[1;31mCPU Usage \x1b[0m: \x1b[33m1\x1b[0m%");
    assert_eq!(
        lines[9],
        "\x1b[1;31mMemory    \x1b[0m: \x1b[33m3\x1b[0m / \x1b[37m16\x1b[0m MiB"
    );
    assert_eq!(lines[11], "\x1b[1;31mProcesses \x1b[0m: \x1b[35m321\x1b[0m");
    assert_eq!(lines[13], "\x1b[1;31mLocal IP  \x1b[0m: \x1b[36m10.0.0.13\x1b[0m");
}

#[test]
fn fallbacks_for_missing_values() {
    assert_eq!(username(&None), "victim");
    assert_eq!(username(&Some("freddy".to_string())), "freddy");
    assert_eq!(linux_locale(&None, &None), "C");
    assert_eq!(linux_locale(&None, &Some("de_DE".to_string())), "de_DE");
    assert_eq!(
        linux_locale(&Some("fr_FR".to_string()), &Some("de_DE".to_string())),
        "fr_FR"
    );
    assert_eq!(current_shell(&None), "unknown");
    assert_eq!(cpu_model(&vec![]), "Unknown CPU");
    assert_eq!(local_ip(&vec![]), "N/A");
    assert_eq!(disk_usage(&vec![]), "N/A");
}

#[test]
fn shell_is_last_path_component() {
    assert_eq!(current_shell(&Some("/bin/zsh".to_string())), "zsh");
    assert_eq!(current_shell(&Some("fish".to_string())), "fish");
    assert_eq!(current_shell(&Some("/bin/".to_string())), "");
    assert_eq!(current_shell(&Some("".to_string())), "");
}

#[test]
fn local_ip_skips_loopback_and_ipv6() {
    let ifaces = vec![
        NetInterface {
            name: "lo".to_string(),
            addresses: vec![IpAddress::V4(10, 1, 1, 1)],
        },
        NetInterface {
            name: "lowpan0".to_string(),
            addresses: vec![IpAddress::V4(10, 2, 2, 2)],
        },
        NetInterface {
            name: "wlan0".to_string(),
            addresses: vec![IpAddress::V6, IpAddress::V4(127, 0, 0, 1)],
        },
        NetInterface {
            name: "eth1".to_string(),
            addresses: vec![IpAddress::V4(192, 168, 1, 200), IpAddress::V4(10, 0, 0, 1)],
        },
    ];
    assert_eq!(local_ip(&ifaces), "192.168.1.200");
}

#[test]
fn disk_usage_of_root_partition() {
    let gib = 1073741824u64;
    let disks = vec![
        DiskInfo {
            mount_point: Some("/boot".to_string()),
            total_space: 1 * gib,
            available_space: 0,
        },
        DiskInfo {
            mount_point: None,
            total_space: 5 * gib,
            available_space: 0,
        },
        DiskInfo {
            mount_point: Some("/".to_string()),
            total_space: 10 * gib + 1,
            available_space: 12 * gib,
        },
    ];
    assert_eq!(disk_usage(&disks), "0 / 10 GiB");
}

#[test]
fn uptime_formats() {
    assert_eq!(uptime_string(0), "0h 0m");
    assert_eq!(uptime_string(59), "0h 0m");
    assert_eq!(uptime_string(3661), "1h 1m");
    assert_eq!(uptime_string(86399), "23h 59m");
    assert_eq!(uptime_string(86400), "1d 0h 0m");
    assert_eq!(uptime_string(90061), "1d 1h 1m");
}

#[test]
fn side_by_side_layout() {
    let info = strings(&["x", "y", "z"]);
    let out = print_with_left_block_writer("ab\ncd", 5, &info, 40);
    assert_eq!(out, "\nab    x\ncd    y\n      z\n\n");
}

#[test]
fn side_by_side_cuts_long_information() {
    let info = strings(&["0123456789abcdef"]);
    let out = print_with_left_block_writer("img", 3, &info, 16);
    assert_eq!(out, "\nimg 0123456789a\x1b[0m…\n\n");
}

#[test]
fn narrow_terminal_stacks_blocks() {
    let info = strings(&["x", "y"]);
    let out = print_with_left_block_writer("ab\ncd\n", 5, &info, 17);
    assert_eq!(out, "\nab\ncd\n\nx\ny\n\n");
}

#[test]
fn logo_fetch_rows() {
    colored::control::set_override(false);
    let info = strings(&["a", "b"]);
    let out = print_fetch(&info);
    assert_eq!(out.len(), 8);
    assert_eq!(out[0], "");
    assert_eq!(out[1], "     _______           a");
    assert_eq!(out[2], "    /      /|          b");
    assert_eq!(out[6], "   |______|            ");
    assert_eq!(out[7], "");
}

#[test]
fn sixel_frame_places_text_right_of_image() {
    let info = strings(&["x", "y"]);
    let (before, after) = sixel_frame(100, 10, 80, &info);
    let mut expected = "\n".repeat(30);
    expected.push_str("\x1b[30A\x1b[1G\x1b[s");
    expected.push_str("\x1b[12Gx\x1b[1B\x1b[1G\x1b[12Gy\x1b[1B\x1b[1G");
    expected.push_str("\x1b[u");
    assert_eq!(before, expected);
    assert_eq!(after, "\x1b[u\x1b[30B\x1b[1G\n");
}

#[test]
fn sixel_frame_without_room_for_text() {
    let info = strings(&["x"]);
    let (before, _) = sixel_frame(101, 10, 20, &info);
    let mut expected = "\n".repeat(30);
    expected.push_str("\x1b[30A\x1b[1G\x1b[s\x1b[u");
    assert_eq!(before, expected);
}

#[test]
fn fetch_lines_for_a_bare_system() {
    colored::control::set_override(false);
    let info = SystemInfo {
        user: None,
        host_name: None,
        os_name: None,
        kernel_version: Some("6.6.1".to_string()),
        arch: "aarch64".to_string(),
        uptime: 0,
        shell: None,
        cpu_brands: vec![],
        cpu_usage: "0".to_string(),
        used_memory: 0,
        total_memory: 0,
        disks: vec![],
        process_count: 0,
        lc_all: None,
        lang: None,
        interfaces: vec![],
    };
    let lines = fetch_lines(&info);
    assert_eq!(lines[0], "victim@");
    assert_eq!(lines[2], "OS        : ");
    assert_eq!(lines[3], "Kernel    : 6.6.1");
    assert_eq!(lines[5], "Uptime    : 0h 0m");
    assert_eq!(lines[6], "Shell     : unknown");
    assert_eq!(lines[7], "CPU       : Unknown CPU");
    assert_eq!(lines[8], "CPU Usage : 0%");
    assert_eq!(lines[9], "Memory    : 0 / 0 MiB");
    assert_eq!(lines[10], "Disk (/)  : N/A");
    assert_eq!(lines[12], "Locale    : C");
    assert_eq!(lines[13], "Local IP  : N/A");
}

fn strip_escapes(s: &str) -> String {
    let mut out = String::new();
    let mut chars = s.chars().peekable();
    while let Some(c) = chars.next() {
        if c == '\x1b' {
            if chars.peek() == Some(&'[') {
                chars.next();
                for inner in chars.by_ref() {
                    if inner.is_ascii_alphabetic() {
                        break;
                    }
                }
            }
            continue;
        }
        out.push(c);
    }
    out
}

#[test]
fn coloured_lines_read_as_plain_lines() {
    colored::control::set_override(true);
    let coloured = fetch_lines(&sample_info());
    colored::control::set_override(false);
    let plain = fetch_lines(&sample_info());
    assert_ne!(coloured, plain);
    for (c, p) in coloured.iter().zip(plain.iter()) {
        assert_eq!(&strip_escapes(c), p);
    }
}

#[test]
fn side_by_side_rows_fit_the_terminal() {
    let info = strings(&[
        "\x1b[1;31mOS\x1b[0m: \x1b[33mSome Linux Distribution 24.04 LTS\x1b[0m",
        "\x1b[1;31mHost\x1b[0m: \x1b[35mhost\x1b[0m",
        "plain information that is rather long",
    ]);
    let image = "#####\n## ##\n#####\n#";
    for cols in 18..60 {
        let out = print_with_left_block_writer(image, 5, &info, cols);
        for row in out.split('\n') {
            assert!(ansi_width::ansi_width(row) <= cols, "{cols}: {row:?}");
        }
    }
}
