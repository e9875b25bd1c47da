use wsl_keeper::disk::mount_outcome;
use wsl_keeper::config::DiskRule;
use wsl_keeper::disk::{
    already_mounted_error, find_partition, json_mountpoints, mount_command, parse_disk_info,
    parse_probe_output, partition_index, paths_equal, probe_command, DiskRecord, LsblkDevice,
    LsblkPartition, PartitionError, PartitionPresence, PartitionRecord,
};

#[test]
fn treats_same_path_already_mounted_as_success() {
    let err = "WSL exec failed (exit code: 32): mount: /mnt/wsl/disk2-1: /dev/sdd1 already mounted on /mnt/wsl/disk2-1.";
    assert!(already_mounted_error(err, "/mnt/wsl/disk2-1"));
}

#[test]
fn ignores_already_mounted_on_a_different_path() {
    let err = "mount: /mnt/wsl/disk2-1: /dev/sdd1 already mounted on /mnt/other.";
    assert!(!already_mounted_error(err, "/mnt/wsl/disk2-1"));
}

#[test]
fn parses_lsblk_mountpoint_and_mountpoints() {
    let json: serde_json::Value = serde_json::from_str(
        r#"{"mountpoint": "/mnt/wsl/disk2-1", "mountpoints": ["/mnt/wsl/disk2-1", ""]}"#,
    )
    .unwrap();
    let mountpoint = json["mountpoint"].as_str().map(|s| s.to_string());
    let listed: Vec<String> = json["mountpoints"]
        .as_array()
        .unwrap()
        .iter()
        .filter_map(|v| v.as_str().map(|s| s.to_string()))
        .collect();
    assert_eq!(json_mountpoints(&mountpoint, &listed), vec!["/mnt/wsl/disk2-1"]);
}

#[test]
fn already_mounted_ignores_ascii_case_of_the_phrase() {
    let err = "mount: ALREADY MOUNTED on /mnt/wsl/data";
    assert!(already_mounted_error(err, "/mnt/wsl/data"));
    assert!(!already_mounted_error("mount failed on /mnt/wsl/data", "/mnt/wsl/data"));
}

#[test]
fn mountpoints_are_sorted_and_deduplicated() {
    let listed = vec![
        "/b".to_string(),
        "".to_string(),
        "/a".to_string(),
        "/b".to_string(),
    ];
    assert_eq!(
        json_mountpoints(&Some("/c".to_string()), &listed),
        vec!["/a", "/b", "/c"]
    );
    assert!(json_mountpoints(&None, &vec![]).is_empty());
    assert!(json_mountpoints(&Some(String::new()), &vec![String::new()]).is_empty());
}

#[test]
fn partition_index_reads_trailing_digits() {
    assert_eq!(partition_index("/dev/sdd1"), Some(1));
    assert_eq!(partition_index("/dev/nvme0n1p12"), Some(12));
    assert_eq!(partition_index("/dev/sdd"), None);
    assert_eq!(partition_index(""), None);
    assert_eq!(partition_index("/dev/x99999999999"), None);
}

#[test]
fn paths_compare_without_trailing_slashes() {
    assert!(paths_equal("/mnt/wsl/a/", "/mnt/wsl/a"));
    assert!(paths_equal("/mnt/wsl/a//", "/mnt/wsl/a/"));
    assert!(!paths_equal("/mnt/wsl/a", "/mnt/wsl/b"));
}

#[test]
fn presence_checks_each_mountpoint() {
    let p = PartitionPresence {
        device: "/dev/sdd1".to_string(),
        mountpoints: vec!["/mnt/x".to_string(), "/mnt/wsl/disk2-1/".to_string()],
    };
    assert!(p.mounted_at("/mnt/wsl/disk2-1"));
    assert!(!p.mounted_at("/mnt/wsl/disk3-1"));
}

fn rule(disk: u32, partition: u32, name: &str) -> DiskRule {
    DiskRule {
        id: "r1".to_string(),
        disk_number: disk,
        friendly_name: "Data".to_string(),
        partition,
        fs_type: "ext4".to_string(),
        mount_name: name.to_string(),
        enabled: true,
    }
}

#[test]
fn rule_paths() {
    let r = rule(2, 1, "disk2-1");
    assert_eq!(r.physical_drive_path(), r"\\.\PHYSICALDRIVE2");
    assert_eq!(r.mount_point(), "/mnt/wsl/disk2-1");
    assert_eq!(rule(10, 1, "x").physical_drive_path(), r"\\.\PHYSICALDRIVE10");
}

#[test]
fn mount_command_quotes_paths() {
    let r = rule(2, 1, "disk2-1");
    assert_eq!(
        mount_command(&r, "/dev/sdd1"),
        "mkdir -p '/mnt/wsl/disk2-1' && mount -t ext4 '/dev/sdd1' '/mnt/wsl/disk2-1'"
    );
    assert_eq!(
        mount_command(&r, "/dev/it's"),
        "mkdir -p '/mnt/wsl/disk2-1' && mount -t ext4 '/dev/it'\\''s' '/mnt/wsl/disk2-1'"
    );
}

#[test]
fn probe_output_reports_first_mounted_device() {
    let p = parse_probe_output("noise\r\nMOUNTED /dev/sdd1\nMOUNTED /dev/sde1\n");
    assert!(p.mounted);
    assert_eq!(p.device.as_deref(), Some("/dev/sdd1"));
    let q = parse_probe_output("NOTMOUNTED\n");
    assert!(!q.mounted);
    assert!(q.device.is_none());
    let e = parse_probe_output("MOUNTED   \n");
    assert!(!e.mounted);
}

#[test]
fn probe_command_inserts_quoted_mount_point() {
    let cmd = probe_command("/mnt/wsl/it's");
    assert!(cmd.starts_with("mp='/mnt/wsl/it'\\''s'"));
    assert!(!cmd.contains("__MP__"));
    assert!(cmd.ends_with("fi"));
}

fn part(name: &str, mp: Option<&str>) -> LsblkPartition {
    LsblkPartition {
        name: Some(name.to_string()),
        mountpoint: mp.map(|s| s.to_string()),
        mountpoints: vec![],
    }
}

#[test]
fn find_partition_prefers_serial_then_size() {
    let devices = vec![
        LsblkDevice {
            name: Some("/dev/sdc".into()),
            kind: Some("disk".into()),
            serial: Some("OTHER".into()),
            children: Some(vec![part("/dev/sdc1", None)]),
        },
        LsblkDevice {
            name: Some("/dev/sdd".into()),
            kind: Some("disk".into()),
            serial: Some("  abc123 ".into()),
            children: Some(vec![part("/dev/sdd1", Some("/mnt/wsl/disk2-1")), part("/dev/sdd2", None)]),
        },
    ];
    let r = rule(2, 1, "disk2-1");
    let found = find_partition(&devices, &r, &Some("ABC123".into()), &vec![true, false]).unwrap();
    assert_eq!(found.device, "/dev/sdd1");
    assert_eq!(found.mountpoints, vec!["/mnt/wsl/disk2-1"]);
    let by_size = find_partition(&devices, &r, &None, &vec![true, false]).unwrap();
    assert_eq!(by_size.device, "/dev/sdc1");
    match find_partition(&devices, &r, &None, &vec![false, false]) {
        Err(e) => {
            assert!(matches!(e, PartitionError::DiskNotFound(2)));
            assert_eq!(
                e.message(),
                "Could not find PHYSICALDRIVE2 inside WSL. Is the disk attached with --bare?"
            );
        }
        Ok(_) => panic!("no disk should match"),
    }
    let r3 = rule(2, 3, "disk2-3");
    match find_partition(&devices, &r3, &Some("abc123".into()), &vec![false, false]) {
        Err(e) => {
            assert!(matches!(e, PartitionError::PartitionMissing(2, 3)));
            assert_eq!(e.message(), "Found disk PHYSICALDRIVE2 but partition 3 is missing");
        }
        Ok(_) => panic!("partition 3 does not exist"),
    }
}

#[test]
fn find_partition_falls_back_to_position() {
    let devices = vec![LsblkDevice {
        name: Some("/dev/sdd".into()),
        kind: Some("disk".into()),
        serial: None,
        children: Some(vec![part("/dev/mapper/a", None), part("/dev/mapper/b", None)]),
    }];
    let found = find_partition(&devices, &rule(2, 2, "x"), &None, &vec![true]).unwrap();
    assert_eq!(found.device, "/dev/mapper/b");
}

#[test]
fn disk_records_get_defaults() {
    let rec = DiskRecord {
        number: 2,
        friendly_name: Some(String::new()),
        size: 1000,
        partition_style: None,
        health_status: Some("Healthy".into()),
        operational_status: Some("Online".into()),
        serial_number: Some("  SN1 ".into()),
        partitions: vec![PartitionRecord {
            number: 1,
            size: 500,
            partition_type: None,
            drive_letter: Some("E".into()),
        }],
    };
    let d = parse_disk_info(&rec);
    assert_eq!(d.friendly_name, "Unknown");
    assert_eq!(d.partition_style, "Unknown");
    assert_eq!(d.health_status, "Healthy");
    assert_eq!(d.serial.as_deref(), Some("SN1"));
    assert_eq!(d.partitions[0].partition_type, "Unknown");
    assert_eq!(d.partitions[0].drive_letter.as_deref(), Some("E"));
    let blank = DiskRecord { serial_number: Some("   ".into()), ..rec };
    assert!(parse_disk_info(&blank).serial.is_none());
}

#[test]
fn mount_outcome_accepts_already_mounted_here() {
    assert_eq!(mount_outcome(None, "/mnt/wsl/data"), Ok(()));
    assert_eq!(
        mount_outcome(Some("mount: /dev/sdb1 already mounted on /mnt/wsl/data.".into()), "/mnt/wsl/data"),
        Ok(())
    );
    assert_eq!(
        mount_outcome(Some("mount: wrong fs type".into()), "/mnt/wsl/data"),
        Err("mount: wrong fs type".to_string())
    );
}
