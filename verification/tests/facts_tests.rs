use hostfacts::services::docker::{parse_docker_ps, parse_docker_status};
use hostfacts::services::systemd::{unit_name_from_path, UnitState};
use hostfacts::sys::disks::{
    parse_mounts, rotational_disk_type, trim_partition_digits, DiskType,
};
use hostfacts::sys::os_release::{distro, DistroMarkers, OsRelease};
use hostfacts::sys::process::process_by_user;
use hostfacts::sys::uptime::format_duration;
use hostfacts::sys::{
    cpu_info_from, cpu_parse, parse_meminfo, strip_trailing_newline, truncate_at_nul, Error,
};

const EXAMPLE_OSRELEASE: &str = r#"NAME="Pop!_OS"
    VERSION="18.04 LTS"
    ID=ubuntu
    ID_LIKE=debian
    PRETTY_NAME="Pop!_OS 18.04 LTS"
    VERSION_ID="18.04"
    HOME_URL="https://system76.com/pop"
    SUPPORT_URL="http://support.system76.com"
    BUG_REPORT_URL="https://github.com/pop-os/pop/issues"
    PRIVACY_POLICY_URL="https://system76.com/privacy"
    VERSION_CODENAME=bionic
    EXTRA_KEY=thing
    ANOTHER_KEY="#;

#[test]
fn test_os_release() {
    let os_release = OsRelease::from_iter(EXAMPLE_OSRELEASE.lines().map(|x| x.into()).collect());

    assert_eq!(
        os_release,
        OsRelease {
            name: "Pop!_OS".into(),
            version: "18.04 LTS".into(),
            id: "ubuntu".into(),
            id_like: "debian".into(),
            pretty_name: "Pop!_OS 18.04 LTS".into(),
            version_id: "18.04".into(),
            home_url: "https://system76.com/pop".into(),
            support_url: "http://support.system76.com".into(),
            bug_report_url: "https://github.com/pop-os/pop/issues".into(),
            privacy_policy_url: "https://system76.com/privacy".into(),
            version_codename: "bionic".into(),
            extra: vec![("EXTRA_KEY".to_owned(), "thing".to_owned())],
        }
    )
}

#[test]
fn test_distro() {
    let markers = DistroMarkers {
        os_release_pretty: Some("Pop!_OS 18.04 LTS".to_string()),
        redstar: false,
        siduction: false,
        gobolinux: false,
        pcbsd: false,
        trueos: false,
        bedrock: false,
        pacbsd: false,
    };
    let distro = distro(&markers);
    assert_ne!(distro, "Unknown".to_string());
}

#[test]
fn distro_markers_priority() {
    let mut markers = DistroMarkers {
        os_release_pretty: None,
        redstar: false,
        siduction: false,
        gobolinux: false,
        pcbsd: false,
        trueos: false,
        bedrock: false,
        pacbsd: false,
    };
    assert_eq!(distro(&markers), String::from("Unknown"));
    markers.bedrock = true;
    assert_eq!(distro(&markers), String::from("Bedrock Linux"));
    markers.redstar = true;
    assert_eq!(distro(&markers), String::from("Red Star OS"));
    markers.os_release_pretty = Some("Debian GNU/Linux 12".to_string());
    assert_eq!(distro(&markers), String::from("Debian GNU/Linux 12"));
}

#[test]
fn uptime_test_format_duration() {
    assert_eq!(format_duration(864_000_000).len() == 65, true);
    assert_eq!(
        format_duration(864_000_000)
            == "27 years, 4 months, 16 days, 11 hours, 45 minutes, and 36 seconds",
        true
    );
}

#[test]
fn mod_test_format_duration() {
    assert_eq!(format_duration(864_000_000).len() == 65, true);
    assert_eq!(
        format_duration(864_000_000)
            == String::from("27 years, 4 months, 16 days, 11 hours, 45 minutes, and 36 seconds"),
        true
    );
}

#[test]
fn format_duration_small_values() {
    assert_eq!(format_duration(1), String::from("1 second"));
    assert_eq!(format_duration(59), String::from("59 seconds"));
    assert_eq!(format_duration(60), String::from("1 minute"));
    assert_eq!(format_duration(61), String::from("1 minute, and 1 second"));
    assert_eq!(format_duration(3600), String::from("1 hour"));
    assert_eq!(format_duration(3661), String::from("1 hour, 1 minute, and 1 second"));
    assert_eq!(format_duration(86520), String::from("1 day, 0 hour, and 2 minutes"));
}

#[test]
fn meminfo_parses_fields() {
    let text = "MemTotal:       16256332 kB\n\
                MemFree:         8237968 kB\n\
                Buffers:          433408 kB\n\
                Cached:          4396948 kB\n\
                SReclaimable:     318344 kB\n\
                SwapTotal:       2097148 kB\n\
                SwapFree:        2097148 kB\n";
    let mem = parse_meminfo(text).unwrap();
    assert_eq!(mem.total, 16_256_332);
    assert_eq!(mem.free, 8_237_968);
    assert_eq!(mem.buffers, 433_408);
    assert_eq!(mem.cached, 4_396_948);
    assert_eq!(mem.sreclaimable, 318_344);
    assert_eq!(mem.swap_total, 2_097_148);
    assert_eq!(mem.swap_free, 2_097_148);
}

#[test]
fn meminfo_missing_key_is_unknown() {
    assert_eq!(parse_meminfo("MemTotal: 1 kB\n"), Err(Error::Unknown));
    assert_eq!(parse_meminfo(""), Err(Error::Unknown));
}

#[test]
fn empty_mounts_text_has_no_entries() {
    assert_eq!(parse_mounts("").len(), 0);
}

#[test]
fn meminfo_bad_value_is_unknown() {
    let text = "MemTotal: abc kB\nMemFree: 1 kB\n";
    assert_eq!(parse_meminfo(text), Err(Error::Unknown));
}

#[test]
fn meminfo_last_line_wins() {
    let text = "MemTotal: 1 kB\nMemFree: 2 kB\nCached: 3 kB\nBuffers: 4 kB\n\
                SReclaimable: 5 kB\nSwapTotal: 6 kB\nSwapFree: 7 kB\nMemTotal: 9 kB\n";
    let mem = parse_meminfo(text).unwrap();
    assert_eq!(mem.total, 9);
}

#[test]
fn cpuinfo_parses_fields() {
    let text = "processor\t: 0\n\
                model name\t: Intel(R) Core(TM) i7-8565U CPU @ 1.80GHz\n\
                cpu MHz\t\t: 1992.002\n\
                siblings\t: 8\n\
                cpu cores\t: 4\n";
    let cpu = cpu_info_from(text).unwrap();
    assert_eq!(cpu.speed, 1992);
    assert_eq!(cpu.logical_cores, 8);
    assert_eq!(cpu.physical_cores, 4);
    assert_eq!(cpu.name, String::from("Intel Core i7-8565U "));
}

#[test]
fn cpuinfo_falls_back_to_bogomips() {
    let text = "model name\t: ARMv7 Processor rev 4 (v7l)\n\
                BogoMIPS\t: 38.40\n\
                siblings\t: 4\n\
                cpu cores\t: 4\n";
    let cpu = cpu_info_from(text).unwrap();
    assert_eq!(cpu.speed, 38);
}

#[test]
fn cpuinfo_missing_line_is_unknown() {
    assert_eq!(cpu_info_from(""), Err(Error::Unknown));
}

#[test]
fn cpu_parse_strips_noise() {
    assert_eq!(
        cpu_parse("AMD Ryzen 7 3700X Eight-Core Processor"),
        String::from("AMD Ryzen 7 3700X  ")
    );
    assert_eq!(cpu_parse("Intel Core2 Duo"), String::from("Intel Core 2 Duo"));
}

#[test]
fn unit_states_from_wire_words() {
    assert_eq!(UnitState::new("enabled"), UnitState::Enabled);
    assert_eq!(UnitState::new("masked-runtime"), UnitState::MaskedRuntime);
    assert_eq!(UnitState::new("static"), UnitState::Static);
    assert!(UnitState::is_known("generated"));
    assert!(!UnitState::is_known("strange"));
}

#[test]
fn unit_names_from_paths() {
    assert_eq!(
        unit_name_from_path("/lib/systemd/system/sshd.service"),
        String::from("sshd")
    );
    assert_eq!(
        unit_name_from_path("/lib/systemd/system/getty@.service"),
        String::from("getty")
    );
    assert_eq!(unit_name_from_path("plain"), String::from("plain"));
}

#[test]
fn docker_ps_images() {
    let text = "CONTAINER ID   IMAGE          COMMAND   CREATED   STATUS    PORTS   NAMES\n\
                1a2b3c4d5e6f   nginx:latest   \"nginx\"   2 days    Up 2 days  80/tcp  web\n\
                9f8e7d6c5b4a   repo/img:tag   \"run\"     3 days    Exited     -       old\n";
    let images = parse_docker_ps(text);
    assert_eq!(images, vec![String::from("nginx latest"), String::from("img tag")]);
}

#[test]
fn docker_status_pairs() {
    let text = "first:#: Up 1 hour\nnginx:#: Up 2 days\nbroken line\nredis:#: Exited (0)\n";
    let pairs = parse_docker_status(text);
    assert_eq!(
        pairs,
        vec![
            (String::from("nginx"), String::from(" Up 2 days")),
            (String::from("redis"), String::from(" Exited (0)")),
        ]
    );
}

#[test]
fn mounts_filter_and_fields() {
    let text = "/dev/sda1 / ext4 rw,relatime 0 0\n\
                proc /proc proc rw,nosuid 0 0\n\
                /dev/nvme0n1p2 /home ext4 rw 0 0\n\
                tmpfs /tmp tmpfs rw 0 0\n";
    let entries = parse_mounts(text);
    assert_eq!(entries.len(), 2);
    assert_eq!(entries[0].device, String::from("sda1"));
    assert_eq!(entries[0].mount_point, String::from("/"));
    assert_eq!(entries[0].file_system, String::from("ext4"));
    assert_eq!(entries[1].device, String::from("nvme0n1p2"));
    assert_eq!(entries[1].mount_point, String::from("/home"));
}

#[test]
fn disk_types() {
    assert_eq!(rotational_disk_type("0\n"), DiskType::HDD);
    assert_eq!(rotational_disk_type("1\n"), DiskType::SSD);
    assert_eq!(rotational_disk_type("whatever"), DiskType::Unknown(-1));
    assert_eq!(DiskType::from(0), DiskType::HDD);
    assert_eq!(DiskType::from(7), DiskType::Unknown(7));
    assert_eq!(trim_partition_digits("sda1"), "sda");
    assert_eq!(trim_partition_digits("mmcblk0p2"), "mmcblk0p");
    assert_eq!(trim_partition_digits("7"), "7");
}

#[test]
fn processes_by_owner() {
    let owners: Vec<u32> = vec![0, 0, 1000, 1000, 1000, 500];
    let counts = process_by_user(&owners, 1000);
    assert_eq!(counts.root, 2);
    assert_eq!(counts.user, 3);
    assert_eq!(counts.all, 6);
}

#[test]
fn small_collector_helpers() {
    assert_eq!(strip_trailing_newline("5.15.0-91-generic\n"), "5.15.0-91-generic");
    assert_eq!(strip_trailing_newline("plain"), "plain");
    assert_eq!(truncate_at_nul(&vec![104u8, 105, 0, 120]), vec![104u8, 105]);
    assert_eq!(truncate_at_nul(&vec![104u8, 105]), vec![104u8, 105]);
    assert_eq!(Error::Unknown.description(), "unknown error");
    assert_eq!(Error::IO.description(), "io error");
}
