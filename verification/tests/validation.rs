//! Tests of the validating transformation from raw options to a plan.

use jimmy::data::{
    zoneinfo_path, ConfigError, FileSystem, InstallOptions, Kernel, ParsedInstallOptions,
    ParsedPartition, ParsedUser, Warning,
};

fn raw_partition(format: Option<&str>, disk: Option<&str>, size: Option<&str>, mount: Option<&str>)
    -> ParsedPartition {
    ParsedPartition {
        format: format.map(|s| s.to_string()),
        disk: disk.map(|s| s.to_string()),
        size: size.map(|s| s.to_string()),
        mount: mount.map(|s| s.to_string()),
    }
}

fn raw_options() -> ParsedInstallOptions {
    ParsedInstallOptions {
        hostname: Some("archlinux".to_string()),
        region: Some("Europe".to_string()),
        city: Some("London".to_string()),
        locales: Some(vec!["en_US.UTF-8".to_string()]),
        kernel: Some("latest".to_string()),
        extra: Some("vim".to_string()),
        bootloader: Some("grub".to_string()),
        partitions: Some(vec![raw_partition(Some("ext4"), Some("/dev/sda"), None, Some("/"))]),
        users: None,
    }
}

#[test]
fn valid_options_build_a_plan() {
    let mut ws: Vec<Warning> = Vec::new();
    let o = InstallOptions::from_parsed(raw_options(), true, &mut ws).unwrap();
    assert_eq!(o.hostname, "archlinux");
    assert_eq!(o.region, "Europe");
    assert_eq!(o.city, "London");
    assert_eq!(o.kernel, Kernel::Latest);
    assert_eq!(o.extra, "vim");
    assert_eq!(o.bootloader, "grub");
    assert_eq!(o.partitions.len(), 1);
    assert_eq!(o.partitions[0].format, FileSystem::Ext4);
    assert_eq!(o.partitions[0].disk, "/dev/sda");
    assert_eq!(o.partitions[0].size, "");
    assert_eq!(o.partitions[0].mount, "/");
    assert!(o.users.is_empty());
    assert!(ws.is_empty());
}

#[test]
fn kernel_defaults_to_lts() {
    let mut ws: Vec<Warning> = Vec::new();
    let mut raw = raw_options();
    raw.kernel = None;
    let o = InstallOptions::from_parsed(raw, true, &mut ws).unwrap();
    assert_eq!(o.kernel, Kernel::Lts);
    let mut raw2 = raw_options();
    raw2.kernel = Some("zen".to_string());
    let o2 = InstallOptions::from_parsed(raw2, true, &mut ws).unwrap();
    assert_eq!(o2.kernel, Kernel::Lts);
}

#[test]
fn absent_locales_default_with_a_warning() {
    let mut ws: Vec<Warning> = Vec::new();
    let mut raw = raw_options();
    raw.locales = None;
    let o = InstallOptions::from_parsed(raw, true, &mut ws).unwrap();
    assert_eq!(o.locales, vec!["en_US.UTF-8".to_string()]);
    assert_eq!(ws, vec![Warning::LocalesDefaulted]);
}

#[test]
fn empty_locales_default_with_a_warning() {
    let mut ws: Vec<Warning> = Vec::new();
    let mut raw = raw_options();
    raw.locales = Some(vec![]);
    let o = InstallOptions::from_parsed(raw, true, &mut ws).unwrap();
    assert_eq!(o.locales, vec!["en_US.UTF-8".to_string()]);
    assert_eq!(ws, vec![Warning::LocalesDefaulted]);
}

#[test]
fn given_locales_pass_through_unchanged() {
    let mut ws: Vec<Warning> = Vec::new();
    let mut raw = raw_options();
    raw.locales = Some(vec!["de_DE.UTF-8".to_string(), "en_US.UTF-8".to_string()]);
    let o = InstallOptions::from_parsed(raw, true, &mut ws).unwrap();
    assert_eq!(o.locales, vec!["de_DE.UTF-8".to_string(), "en_US.UTF-8".to_string()]);
    assert!(ws.is_empty());
}

#[test]
fn invalid_timezone_is_fatal() {
    let mut ws: Vec<Warning> = Vec::new();
    let r = InstallOptions::from_parsed(raw_options(), false, &mut ws);
    assert_eq!(r.err(), Some(ConfigError::InvalidTimezone));
}

#[test]
fn missing_hostname_is_fatal() {
    let mut ws: Vec<Warning> = Vec::new();
    let mut raw = raw_options();
    raw.hostname = None;
    let r = InstallOptions::from_parsed(raw, true, &mut ws);
    assert_eq!(r.err(), Some(ConfigError::MissingHostname));
}

#[test]
fn missing_bootloader_is_fatal() {
    let mut ws: Vec<Warning> = Vec::new();
    let mut raw = raw_options();
    raw.bootloader = None;
    let r = InstallOptions::from_parsed(raw, true, &mut ws);
    assert_eq!(r.err(), Some(ConfigError::MissingBootloader));
}

#[test]
fn missing_or_empty_partitions_are_fatal() {
    let mut ws: Vec<Warning> = Vec::new();
    let mut raw = raw_options();
    raw.partitions = None;
    assert_eq!(
        InstallOptions::from_parsed(raw, true, &mut ws).err(),
        Some(ConfigError::MissingPartitions)
    );
    let mut raw2 = raw_options();
    raw2.partitions = Some(vec![]);
    assert_eq!(
        InstallOptions::from_parsed(raw2, true, &mut ws).err(),
        Some(ConfigError::MissingPartitions)
    );
}

#[test]
fn missing_disk_is_fatal() {
    let mut ws: Vec<Warning> = Vec::new();
    let mut raw = raw_options();
    raw.partitions = Some(vec![raw_partition(Some("ext4"), None, None, Some("/"))]);
    assert_eq!(
        InstallOptions::from_parsed(raw, true, &mut ws).err(),
        Some(ConfigError::MissingDisk)
    );
}

#[test]
fn missing_format_defaults_with_a_warning() {
    let mut ws: Vec<Warning> = Vec::new();
    let mut raw = raw_options();
    raw.partitions = Some(vec![
        raw_partition(None, Some("/dev/sda"), None, Some("/")),
        raw_partition(Some(""), Some("/dev/sda"), None, Some("/boot")),
    ]);
    let o = InstallOptions::from_parsed(raw, true, &mut ws).unwrap();
    assert_eq!(o.partitions[0].format, FileSystem::Ext4);
    assert_eq!(o.partitions[1].format, FileSystem::Ext4);
    assert_eq!(ws, vec![Warning::FormatDefaulted, Warning::FormatDefaulted]);
}

#[test]
fn unrecognized_format_is_kept_without_warning() {
    let mut ws: Vec<Warning> = Vec::new();
    let mut raw = raw_options();
    raw.partitions = Some(vec![raw_partition(Some("btrfs"), Some("/dev/sda"), None, Some("/"))]);
    let o = InstallOptions::from_parsed(raw, true, &mut ws).unwrap();
    assert_eq!(o.partitions[0].format, FileSystem::Unrecognized);
    assert!(ws.is_empty());
}

#[test]
fn missing_mount_only_warns() {
    let mut ws: Vec<Warning> = Vec::new();
    let mut raw = raw_options();
    raw.partitions = Some(vec![raw_partition(Some("ext4"), Some("/dev/sda"), None, None)]);
    let o = InstallOptions::from_parsed(raw, true, &mut ws).unwrap();
    assert_eq!(o.partitions[0].mount, "");
    assert_eq!(ws, vec![Warning::MountMissing]);
}

#[test]
fn relative_mount_path_is_fatal_not_a_warning() {
    let mut ws: Vec<Warning> = Vec::new();
    let mut raw = raw_options();
    raw.partitions = Some(vec![raw_partition(Some("ext4"), Some("/dev/sda"), None, Some("boot"))]);
    let r = InstallOptions::from_parsed(raw, true, &mut ws);
    assert_eq!(r.err(), Some(ConfigError::RelativeMountPath));
    assert!(ws.is_empty());
}

#[test]
fn users_default_to_empty_and_need_a_name() {
    let mut ws: Vec<Warning> = Vec::new();
    let mut raw = raw_options();
    raw.users = Some(vec![ParsedUser {
        name: Some("alice".to_string()),
        groups: Some(vec!["wheel".to_string()]),
        shell: None,
    }]);
    let o = InstallOptions::from_parsed(raw, true, &mut ws).unwrap();
    assert_eq!(o.users.len(), 1);
    assert_eq!(o.users[0].name, "alice");
    assert_eq!(o.users[0].groups, vec!["wheel".to_string()]);
    assert_eq!(o.users[0].shell, "");

    let mut raw2 = raw_options();
    raw2.users = Some(vec![ParsedUser { name: None, groups: None, shell: None }]);
    assert_eq!(
        InstallOptions::from_parsed(raw2, true, &mut ws).err(),
        Some(ConfigError::MissingUserName)
    );
}

#[test]
fn zoneinfo_path_forms() {
    assert_eq!(
        zoneinfo_path(&Some("Europe".to_string()), &Some("London".to_string())),
        "/usr/share/zoneinfo/Europe/London"
    );
    assert_eq!(zoneinfo_path(&Some("UTC".to_string()), &None), "/usr/share/zoneinfo/UTC");
    assert_eq!(zoneinfo_path(&None, &None), "/usr/share/zoneinfo/");
}

#[test]
fn diagnostics_have_messages() {
    assert_eq!(
        Warning::LocalesDefaulted.message(),
        "warning: locales not specified; defaulting to 'en_US.UTF-8'"
    );
    assert_eq!(ConfigError::UnknownBootloader.message(), "error: invalid bootloader");
    assert_eq!(
        ConfigError::MissingBootPartition.message(),
        "error: using efistub, but no boot partition was detected"
    );
}

#[test]
fn sample_input_is_available() {
    let s = jimmy::data::sample_input_file();
    assert!(s.contains("bootloader: grub"));
    assert!(s.contains("partitions:"));
}

#[test]
fn warnings_are_kept_when_a_later_check_fails() {
    // The locales default warns before the missing hostname is fatal; the
    // warning is not lost.
    let mut ws: Vec<Warning> = Vec::new();
    let mut raw = raw_options();
    raw.locales = None;
    raw.hostname = None;
    let r = InstallOptions::from_parsed(raw, true, &mut ws);
    assert_eq!(r.err(), Some(ConfigError::MissingHostname));
    assert_eq!(ws, vec![Warning::LocalesDefaulted]);
}
