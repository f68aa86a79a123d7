//! Tests of layout resolution, command synthesis and script assembly.

use jimmy::data::{ConfigError, FileSystem, InstallOptions, Kernel, Partition, User};
use jimmy::install::{map_snd, PartOp};

fn part(format: FileSystem, disk: &str, size: &str, mount: &str) -> Partition {
    Partition {
        format,
        disk: disk.to_string(),
        size: size.to_string(),
        mount: mount.to_string(),
    }
}

fn options(bootloader: &str, kernel: Kernel, partitions: Vec<Partition>) -> InstallOptions {
    InstallOptions {
        hostname: "archlinux".to_string(),
        region: "Europe".to_string(),
        city: "London".to_string(),
        locales: vec!["en_US.UTF-8".to_string()],
        kernel,
        extra: "vim".to_string(),
        bootloader: bootloader.to_string(),
        partitions,
        users: vec![],
    }
}

#[test]
fn device_path_plain_disk() {
    let p = part(FileSystem::Ext4, "/dev/sda", "", "/");
    assert_eq!(p.get_partition_file(0), "/dev/sda1");
    assert_eq!(p.get_partition_file(4), "/dev/sda5");
}

#[test]
fn device_path_nvme_disk_inserts_separator() {
    let p = part(FileSystem::Swap, "/dev/nvme0n1", "", "");
    assert_eq!(p.get_partition_file(0), "/dev/nvme0n1p1");
    assert_eq!(p.get_partition_file(11), "/dev/nvme0n1p12");
}

#[test]
fn nvme_swap_partition_commands() {
    let p = part(FileSystem::Swap, "/dev/nvme0n1", "", "");
    assert_eq!(p.mkfs_cmd(0), Some("mkswap /dev/nvme0n1p1".to_string()));
    assert_eq!(p.mount_cmd(0), Some("swapon /dev/nvme0n1p1".to_string()));
}

#[test]
fn mkfs_commands_per_filesystem() {
    assert_eq!(
        part(FileSystem::Ext2, "/dev/sda", "", "").mkfs_cmd(0),
        Some("mkfs.ext2 /dev/sda1".to_string())
    );
    assert_eq!(
        part(FileSystem::Ext3, "/dev/sda", "", "").mkfs_cmd(1),
        Some("mkfs.ext3 /dev/sda2".to_string())
    );
    assert_eq!(
        part(FileSystem::Ext4, "/dev/sda", "", "").mkfs_cmd(0),
        Some("mkfs.ext4 /dev/sda1".to_string())
    );
    assert_eq!(
        part(FileSystem::Fat32, "/dev/sda", "", "").mkfs_cmd(1),
        Some("mkfs.fat -F 32 /dev/sda2".to_string())
    );
    assert_eq!(part(FileSystem::Unrecognized, "/dev/sda", "", "").mkfs_cmd(0), None);
}

#[test]
fn mount_commands() {
    let p = part(FileSystem::Ext4, "/dev/sda", "", "/home");
    assert_eq!(
        p.mount_cmd(2),
        Some("mkdir -p /mnt/home && mount /dev/sda3 /mnt/home".to_string())
    );
    let unmounted = part(FileSystem::Ext4, "/dev/sda", "", "");
    assert_eq!(unmounted.mount_cmd(0), None);
}

#[test]
fn fdisk_script_first_partition_omits_number_token() {
    let p = part(FileSystem::Ext4, "/dev/sda", "", "/");
    assert_eq!(p.fdisk_script_string(1), "n\\n1\\n\\n\\nt\\nlinux\\n");
}

#[test]
fn fdisk_script_later_partition_with_size_and_type() {
    let p = part(FileSystem::Fat32, "/dev/sda", "500M", "/boot");
    assert_eq!(p.fdisk_script_string(2), "n\\n2\\n\\n+500M\\nt\\n2\\nuefi\\n");
    let s = part(FileSystem::Swap, "/dev/sda", "8G", "");
    assert_eq!(s.fdisk_script_string(3), "n\\n3\\n\\n+8G\\nt\\n3\\nswap\\n");
}

#[test]
fn unique_disks_sorted_and_deduplicated() {
    let o = options(
        "grub",
        Kernel::Lts,
        vec![
            part(FileSystem::Ext4, "/dev/sdb", "", "/data"),
            part(FileSystem::Ext4, "/dev/sda", "", "/"),
            part(FileSystem::Swap, "/dev/sdb", "", ""),
        ],
    );
    assert_eq!(o.unique_disks_used(), vec!["/dev/sda".to_string(), "/dev/sdb".to_string()]);
}

#[test]
fn partitions_on_disk_keeps_original_order() {
    let o = options(
        "grub",
        Kernel::Lts,
        vec![
            part(FileSystem::Ext4, "/dev/sdb", "1G", "/data"),
            part(FileSystem::Ext4, "/dev/sda", "", "/"),
            part(FileSystem::Swap, "/dev/sdb", "", ""),
        ],
    );
    let on_b = o.partitions_on_disk("/dev/sdb");
    assert_eq!(on_b.len(), 2);
    assert_eq!(on_b[0].size, "1G");
    assert_eq!(on_b[1].format, FileSystem::Swap);
}

#[test]
fn partition_numbers_contiguous_per_disk() {
    // Disks interleaved in the configuration: numbering restarts at 1 on
    // each disk and follows the original order inside a disk.
    let o = options(
        "grub",
        Kernel::Lts,
        vec![
            part(FileSystem::Ext4, "/dev/sdb", "", "/data"),
            part(FileSystem::Ext4, "/dev/sda", "", "/"),
            part(FileSystem::Swap, "/dev/sdb", "", ""),
        ],
    );
    let resolved = o.map_partitions(PartOp::DevPath);
    let paths: Vec<String> = map_snd(resolved);
    // /dev/sda sorts before /dev/sdb, so its single partition comes first.
    assert_eq!(
        paths,
        vec![
            "/dev/sda1".to_string(),
            "/dev/sdb1".to_string(),
            "/dev/sdb2".to_string(),
        ]
    );
}

#[test]
fn map_snd_drops_missing_values() {
    let l: Vec<(u32, Option<u32>)> = vec![(1, None), (2, Some(20)), (3, None), (4, Some(40))];
    assert_eq!(map_snd(l), vec![20, 40]);
}

#[test]
fn packages_include_bootloader_except_efistub() {
    let grub = options("grub", Kernel::Latest, vec![part(FileSystem::Ext4, "/dev/sda", "", "/")]);
    assert_eq!(
        grub.packages(),
        vec!["base", "linux", "linux-firmware", "vim", "grub", "efibootmgr", "networkmanager"]
    );
    let stub = options("efistub", Kernel::Lts, vec![part(FileSystem::Ext4, "/dev/sda", "", "/")]);
    assert_eq!(
        stub.packages(),
        vec!["base", "linux-lts", "linux-firmware", "vim", "", "efibootmgr", "networkmanager"]
    );
}

#[test]
fn locales_cmd_sets_first_locale_as_language() {
    let mut o = options("grub", Kernel::Lts, vec![part(FileSystem::Ext4, "/dev/sda", "", "/")]);
    o.locales = vec!["de_DE.UTF-8".to_string(), "en_US.UTF-8".to_string()];
    let cmds = o.locales_cmd();
    assert_eq!(cmds.len(), 2);
    assert_eq!(
        cmds[0],
        "sed \\\n    --expression 's/^#de_DE.UTF-8$/de_DE.UTF-8/' \\\n    --expression 's/^#en_US.UTF-8$/en_US.UTF-8/' \\\n    --in-place /etc/locale.gen"
    );
    assert_eq!(cmds[1], "echo 'LANG=de_DE.UTF-8' >/etc/locale.conf");
}

#[test]
fn local_hostname_cmd_writes_etc_hosts() {
    let o = options("grub", Kernel::Lts, vec![part(FileSystem::Ext4, "/dev/sda", "", "/")]);
    assert_eq!(
        o.local_hostname_cmd(),
        "cat <<END_ETC_HOSTS >/etc/hosts\n127.0.0.1\tlocalhost\n::1\tlocalhost\n127.0.1.1\tarchlinux\nEND_ETC_HOSTS"
    );
}

#[test]
fn grub_bootloader_commands() {
    let o = options("grub", Kernel::Lts, vec![part(FileSystem::Ext4, "/dev/sda", "", "/")]);
    assert_eq!(
        o.install_bootloader(),
        Ok(vec![
            "grub-install --target=x86_64-efi --bootloader-id=GRUB --recheck".to_string(),
            "grub-mkconfig -o /boot/grub/grub.cfg".to_string(),
        ])
    );
}

#[test]
fn efistub_bootloader_embeds_disk_index_and_root() {
    let o = options(
        "efistub",
        Kernel::Lts,
        vec![
            part(FileSystem::Ext4, "/dev/sda", "", "/"),
            part(FileSystem::Fat32, "/dev/sda", "500M", "/boot"),
        ],
    );
    let cmds = o.install_bootloader().unwrap();
    assert_eq!(cmds.len(), 1);
    assert_eq!(
        cmds[0],
        "efibootmgr --disk /dev/sda --part 2 --create --label \"Arch Linux LTS\" --loader /vmlinuz-linux-lts --unicode 'root=/dev/sda1 rw initrd=\\initramfs-linux-lts.img' --verbose"
    );
}

#[test]
fn efistub_latest_kernel_has_no_lts_suffixes() {
    let o = options(
        "efistub",
        Kernel::Latest,
        vec![
            part(FileSystem::Fat32, "/dev/sda", "500M", "/efi"),
            part(FileSystem::Ext4, "/dev/sda", "", "/"),
        ],
    );
    let cmds = o.install_bootloader().unwrap();
    assert_eq!(
        cmds[0],
        "efibootmgr --disk /dev/sda --part 1 --create --label \"Arch Linux\" --loader /vmlinuz-linux --unicode 'root=/dev/sda2 rw initrd=\\initramfs-linux.img' --verbose"
    );
}

#[test]
fn efistub_without_boot_partition_fails() {
    let o = options("efistub", Kernel::Lts, vec![part(FileSystem::Ext4, "/dev/sda", "", "/")]);
    assert_eq!(o.install_bootloader(), Err(ConfigError::MissingBootPartition));
}

#[test]
fn efistub_without_root_partition_fails() {
    let o = options(
        "efistub",
        Kernel::Lts,
        vec![part(FileSystem::Fat32, "/dev/sda", "", "/boot")],
    );
    assert_eq!(o.install_bootloader(), Err(ConfigError::MissingRootPartition));
}

#[test]
fn unknown_bootloader_is_fatal_at_generation() {
    let o = options("lilo", Kernel::Lts, vec![part(FileSystem::Ext4, "/dev/sda", "", "/")]);
    assert_eq!(o.install_bootloader(), Err(ConfigError::UnknownBootloader));
    assert_eq!(o.generate_shellscript(), Err(ConfigError::UnknownBootloader));
}

#[test]
fn root_mount_comes_first_in_mount_section() {
    // The root partition is configured last, and on a disk that sorts last:
    // its mount command must still open the mount section.
    let o = options(
        "grub",
        Kernel::Lts,
        vec![
            part(FileSystem::Fat32, "/dev/sda", "500M", "/boot"),
            part(FileSystem::Ext4, "/dev/sdb", "", "/"),
        ],
    );
    let script = o.generate_shellscript().unwrap();
    let mount_at = script.find("mkdir -p /mnt/ && mount /dev/sdb1 /mnt/").unwrap();
    let boot_at = script.find("mkdir -p /mnt/boot && mount /dev/sda1 /mnt/boot").unwrap();
    assert!(mount_at < boot_at);
}

#[test]
fn full_script_for_two_partition_grub_plan() {
    // One disk, ext4 at the root and fat32 at /boot, installed with GRUB.
    let o = options(
        "grub",
        Kernel::Latest,
        vec![
            part(FileSystem::Ext4, "/dev/sda", "", "/"),
            part(FileSystem::Fat32, "/dev/sda", "500M", "/boot"),
        ],
    );
    let script = o.generate_shellscript().unwrap();

    // A single fdisk block for /dev/sda with both creation fragments in order.
    let fdisk = "echo -e \"g\\nn\\n1\\n\\n\\nt\\nlinux\\nn\\n2\\n\\n+500M\\nt\\n2\\nuefi\\n\\nw\" | fdisk /dev/sda &>/dev/null";
    assert!(script.contains(fdisk));
    assert_eq!(script.matches("| fdisk ").count(), 1);

    // Both format commands, in partition order.
    let e4 = script.find("mkfs.ext4 /dev/sda1").unwrap();
    let f32 = script.find("mkfs.fat -F 32 /dev/sda2").unwrap();
    assert!(e4 < f32);

    // Mounts: root first.
    let m1 = script.find("mkdir -p /mnt/ && mount /dev/sda1 /mnt/").unwrap();
    let m2 = script.find("mkdir -p /mnt/boot && mount /dev/sda2 /mnt/boot").unwrap();
    assert!(m1 < m2);

    // The GRUB two-command install block, inside the chroot script.
    assert!(script.contains(
        "grub-install --target=x86_64-efi --bootloader-id=GRUB --recheck\ngrub-mkconfig -o /boot/grub/grub.cfg"
    ));

    // Package installation names grub.
    assert!(script.contains("pacstrap /mnt base linux linux-firmware vim grub efibootmgr networkmanager"));

    // The chroot script is embedded between the here-document markers.
    assert!(script.contains("cat <<END_OF_SECOND_SCRIPT > /mnt/jimmy_part2.sh"));
    assert!(script.contains("arch-chroot /mnt ./jimmy_part2.sh"));

    // Phases of the chroot stage, in order.
    let tz = script.find("ln -sf /usr/share/zoneinfo/Europe/London /etc/localtime").unwrap();
    let lg = script.find("locale-gen").unwrap();
    let hn = script.find("echo 'archlinux' >/etc/hostname").unwrap();
    let nm = script.find("systemctl enable NetworkManager.service").unwrap();
    let pw = script.find("while true; do if passwd; then break; fi; done").unwrap();
    let bl = script.find("grub-install").unwrap();
    assert!(tz < lg && lg < hn && hn < nm && nm < pw && pw < bl);
}

#[test]
fn echo_status_prefixes_message() {
    assert_eq!(
        jimmy::install::echo_status("hello", "true\nfalse"),
        "echo 'hello'\ntrue\nfalse"
    );
}

#[test]
fn user_command_with_and_without_groups() {
    let plain = User {
        name: "alice".to_string(),
        groups: vec![],
        shell: String::new(),
    };
    assert_eq!(plain.to_command(), "useradd -m alice");
    let grouped = User {
        name: "bob".to_string(),
        groups: vec!["wheel".to_string(), "audio".to_string()],
        shell: "/bin/zsh".to_string(),
    };
    assert_eq!(grouped.to_command(), "useradd -m bob -G wheel,audio");
}

#[test]
fn nvme_swap_plan_script() {
    // One controller-namespace disk with a single swap partition: the device
    // path gets the separator, the partition is made swap and activated
    // without any directory creation.
    let o = options("grub", Kernel::Lts, vec![part(FileSystem::Swap, "/dev/nvme0n1", "", "")]);
    let script = o.generate_shellscript().unwrap();
    assert!(script.contains("| fdisk /dev/nvme0n1 &>/dev/null"));
    assert!(script.contains("mkswap /dev/nvme0n1p1"));
    assert!(script.contains("echo '<-> mounting partitions...'\nswapon /dev/nvme0n1p1"));
    assert!(!script.contains("mkdir -p /mnt && mount /dev/nvme0n1p1"));
}

#[test]
fn chroot_script_phases() {
    let o = options(
        "grub",
        Kernel::Lts,
        vec![part(FileSystem::Ext4, "/dev/sda", "", "/")],
    );
    let chroot = o.chroot_script().unwrap();
    assert!(chroot.starts_with("#!/bin/sh\n# arch-chroot script automatically generated by jimmy-rs"));
    assert!(chroot.contains("hwclock --systohc"));
    assert!(chroot.contains("locale-gen"));
    assert!(chroot.contains("echo 'LANG=en_US.UTF-8' >/etc/locale.conf"));
    assert!(chroot.ends_with("echo '<chroot> exiting...'\nexit\n"));
}
