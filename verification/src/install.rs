//! The installation-plan compiler: partition layout resolution, command
//! fragment synthesis, and assembly of the two-stage installation script.

use crate::data::{ConfigError, FileSystem, InstallOptions, InstallOptionsV, Kernel, Partition,
    PartitionV, User};
use crate::pattern::{find_trailing_digits, is_nvme_disk, nvme_disk_match, trailing_digits_of};
use crate::text::{join_strings, seq_char_lt, spec_decimal, spec_join, str_eq, str_lt, swap_front,
    u32_to_string};
use vstd::prelude::*;

verus! {

/// OS-level device path of a partition: the disk path, then `p` when the
/// disk follows the controller-namespace naming scheme (that family inserts
/// a separator before the partition index), then the 1-based partition
/// number in decimal.
pub open spec fn spec_device_path(disk: Seq<char>, number: nat) -> Seq<char> {
    disk + (if nvme_disk_match(disk) {
        "p"@
    } else {
        Seq::<char>::empty()
    }) + spec_decimal(number)
}

/// The partition type token handed to fdisk for a filesystem: the EFI system
/// type for `fat32`, the swap type for `swap`, the generic Linux filesystem
/// type for everything else.
pub open spec fn spec_fdisk_type(fs: FileSystem) -> Seq<char> {
    match fs {
        FileSystem::Fat32 => "uefi"@,
        FileSystem::Swap => "swap"@,
        _ => "linux"@,
    }
}

/// The fdisk input fragment that creates one partition: new partition at the
/// given number, default start sector, the size only when one was given,
/// then a type change. The first partition on a disk is selected by fdisk
/// itself, so only later partitions name their number in the type change.
pub open spec fn spec_fdisk_frag(p: PartitionV, number: nat) -> Seq<char> {
    "n\\n"@ + spec_decimal(number) + "\\n\\n"@ + (if p.size.len() == 0 {
        Seq::<char>::empty()
    } else {
        "+"@ + p.size
    }) + "\\nt"@ + (if number == 1 {
        Seq::<char>::empty()
    } else {
        "\\n"@ + spec_decimal(number)
    }) + "\\n"@ + spec_fdisk_type(p.format) + "\\n"@
}

/// The formatting command for a partition, or nothing when the filesystem is
/// unrecognized (such a partition is deliberately left unformatted). The
/// number is the 0-based index of the partition on its disk.
pub open spec fn spec_mkfs_cmd(p: PartitionV, number: nat) -> Option<Seq<char>> {
    match p.format {
        FileSystem::Ext2 => Some("mkfs.ext2 "@ + spec_device_path(p.disk, number + 1)),
        FileSystem::Ext3 => Some("mkfs.ext3 "@ + spec_device_path(p.disk, number + 1)),
        FileSystem::Ext4 => Some("mkfs.ext4 "@ + spec_device_path(p.disk, number + 1)),
        FileSystem::Fat32 => Some("mkfs.fat -F 32 "@ + spec_device_path(p.disk, number + 1)),
        FileSystem::Swap => Some("mkswap "@ + spec_device_path(p.disk, number + 1)),
        FileSystem::Unrecognized => None,
    }
}

/// The mount command for a partition: swap partitions are activated, an
/// empty mount path mounts nothing, and anything else creates the target
/// directory under `/mnt` and mounts the device there. The number is the
/// 0-based index of the partition on its disk.
pub open spec fn spec_mount_cmd(p: PartitionV, number: nat) -> Option<Seq<char>> {
    if p.format == FileSystem::Swap {
        Some("swapon "@ + spec_device_path(p.disk, number + 1))
    } else if p.mount.len() == 0 {
        None
    } else {
        Some(
            "mkdir -p /mnt"@ + p.mount + " && mount "@ + spec_device_path(p.disk, number + 1)
                + " /mnt"@ + p.mount,
        )
    }
}

impl Partition {
    /// The string that can be `echo`ed into `fdisk` to create this
    /// partition, given its 1-based partition number on its disk.
    pub fn fdisk_script_string(&self, number: u32) -> (r: String)
        ensures
            r@ == spec_fdisk_frag(self@, number as nat),
    {
        let mut r = String::from_str("n\\n");
        let num = u32_to_string(number);
        r.append(num.as_str());
        r.append("\\n\\n");
        if !self.size.as_str().is_empty() {
            r.append("+");
            r.append(self.size.as_str());
        }
        r.append("\\nt");
        if number != 1 {
            r.append("\\n");
            r.append(num.as_str());
        }
        r.append("\\n");
        r.append(self.fdisk_partition_type());
        r.append("\\n");
        proof {
            assert(r@ =~= spec_fdisk_frag(self@, number as nat));
        }
        r
    }

    /// The path to the partition's device file (`/dev/sda1` when given `0`,
    /// for the 0th partition of `/dev/sda`).
    pub fn get_partition_file(&self, number: u32) -> (r: String)
        requires
            number < u32::MAX,
        ensures
            r@ == spec_device_path(self@.disk, (number + 1) as nat),
    {
        let mut d = self.disk.clone();
        if is_nvme_disk(self.disk.as_str()) {
            d.append("p");
        }
        let num = u32_to_string(number + 1);
        d.append(num.as_str());
        proof {
            assert(d@ =~= spec_device_path(self@.disk, (number + 1) as nat));
        }
        d
    }

    /// The `mkfs` command that formats this partition, or `None` when the
    /// filesystem is unrecognized.
    pub fn mkfs_cmd(&self, number: u32) -> (r: Option<String>)
        requires
            number < u32::MAX,
        ensures
            r.deep_view() == spec_mkfs_cmd(self@, number as nat),
    {
        let cmd = match self.format {
            FileSystem::Ext2 => "mkfs.ext2 ",
            FileSystem::Ext3 => "mkfs.ext3 ",
            FileSystem::Ext4 => "mkfs.ext4 ",
            FileSystem::Fat32 => "mkfs.fat -F 32 ",
            FileSystem::Swap => "mkswap ",
            FileSystem::Unrecognized => {
                return None;
            },
        };
        let mut r = String::from_str(cmd);
        let dev = self.get_partition_file(number);
        r.append(dev.as_str());
        proof {
            assert(Some(r@) =~= spec_mkfs_cmd(self@, number as nat));
        }
        Some(r)
    }

    /// The shell command that mounts this partition, or `None` when it has
    /// no mount path.
    pub fn mount_cmd(&self, number: u32) -> (r: Option<String>)
        requires
            number < u32::MAX,
        ensures
            r.deep_view() == spec_mount_cmd(self@, number as nat),
    {
        if self.format == FileSystem::Swap {
            let mut r = String::from_str("swapon ");
            let dev = self.get_partition_file(number);
            r.append(dev.as_str());
            proof {
                assert(Some(r@) =~= spec_mount_cmd(self@, number as nat));
            }
            Some(r)
        } else if self.mount.as_str().is_empty() {
            None
        } else {
            let mut r = String::from_str("mkdir -p /mnt");
            r.append(self.mount.as_str());
            r.append(" && mount ");
            let dev = self.get_partition_file(number);
            r.append(dev.as_str());
            r.append(" /mnt");
            r.append(self.mount.as_str());
            proof {
                assert(Some(r@) =~= spec_mount_cmd(self@, number as nat));
            }
            Some(r)
        }
    }

    /// The fdisk partition type used for this partition's filesystem.
    pub fn fdisk_partition_type(&self) -> (r: &'static str)
        ensures
            r@ == spec_fdisk_type(self@.format),
    {
        match self.format {
            FileSystem::Fat32 => "uefi",
            FileSystem::Swap => "swap",
            _ => "linux",
        }
    }
}

/// Insertion into a strictly sorted sequence of distinct keys: before the
/// first larger key, and not at all when the key is already present.
pub open spec fn insert_sorted(d: Seq<char>, ds: Seq<Seq<char>>) -> Seq<Seq<char>>
    decreases ds.len(),
{
    if ds.len() == 0 {
        seq![d]
    } else if seq_char_lt(d, ds[0]) {
        seq![d] + ds
    } else if d == ds[0] {
        ds
    } else {
        seq![ds[0]] + insert_sorted(d, ds.drop_first())
    }
}

/// The disks the partitions name, without duplicates, in lexicographic
/// order of the disk path. This order, not configuration order, governs the
/// order of the per-disk command blocks in the script.
pub open spec fn spec_unique_disks(ps: Seq<PartitionV>) -> Seq<Seq<char>>
    decreases ps.len(),
{
    if ps.len() == 0 {
        Seq::<Seq<char>>::empty()
    } else {
        insert_sorted(ps.last().disk, spec_unique_disks(ps.drop_last()))
    }
}

/// A strictly ascending sequence of keys.
pub open spec fn strictly_sorted(ds: Seq<Seq<char>>) -> bool {
    forall|i: int, j: int| 0 <= i < j < ds.len() ==> seq_char_lt(ds[i], ds[j])
}

/// Where the first `j` keys are all below the inserted key, insertion
/// happens in the remainder.
pub proof fn lemma_insert_sorted_split(d: Seq<char>, ds: Seq<Seq<char>>, j: int)
    requires
        0 <= j <= ds.len(),
        forall|k: int| 0 <= k < j ==> seq_char_lt(#[trigger] ds[k], d),
    ensures
        insert_sorted(d, ds) == ds.take(j) + insert_sorted(d, ds.skip(j)),
    decreases j,
{
    if j == 0 {
        assert(ds.skip(0) =~= ds);
        assert(ds.take(0) + insert_sorted(d, ds) =~= insert_sorted(d, ds));
    } else {
        crate::text::lemma_lt_asymmetric(ds[0], d);
        crate::text::lemma_lt_irreflexive(d);
        assert(!seq_char_lt(d, ds[0]) && d != ds[0]);
        assert(forall|k: int|
            0 <= k < j - 1 ==> seq_char_lt(#[trigger] ds.drop_first()[k], d));
        lemma_insert_sorted_split(d, ds.drop_first(), j - 1);
        assert(ds.drop_first().take(j - 1) =~= ds.subrange(1, j));
        assert(ds.drop_first().skip(j - 1) =~= ds.skip(j));
        assert(seq![ds[0]] + (ds.subrange(1, j) + insert_sorted(d, ds.skip(j))) =~= ds.take(j)
            + insert_sorted(d, ds.skip(j)));
    }
}

/// Insertion keeps a strictly sorted sequence strictly sorted, and its
/// members are exactly the old members plus the inserted key.
pub proof fn lemma_insert_sorted_props(d: Seq<char>, ds: Seq<Seq<char>>)
    requires
        strictly_sorted(ds),
    ensures
        strictly_sorted(insert_sorted(d, ds)),
        forall|x: Seq<char>| #[trigger]
            insert_sorted(d, ds).contains(x) <==> (ds.contains(x) || x == d),
    decreases ds.len(),
{
    let out = insert_sorted(d, ds);
    if ds.len() == 0 {
        assert(out =~= seq![d]);
        assert forall|x: Seq<char>| #[trigger] out.contains(x) implies (ds.contains(x) || x == d) by {
            let i = choose|i: int| 0 <= i < out.len() && out[i] == x;
            assert(out[0] == d);
        }
        assert(out.contains(d)) by {
            assert(out[0] == d);
        }
    } else if seq_char_lt(d, ds[0]) {
        assert(out =~= seq![d] + ds);
        assert forall|i: int, j: int| 0 <= i < j < out.len() implies seq_char_lt(
            out[i],
            out[j],
        ) by {
            if i == 0 {
                if j > 1 {
                    crate::text::lemma_lt_transitive(d, ds[0], ds[j - 1]);
                }
            }
        }
        assert forall|x: Seq<char>| #[trigger] out.contains(x) implies (ds.contains(x) || x == d) by {
            let i = choose|i: int| 0 <= i < out.len() && out[i] == x;
            if i > 0 {
                assert(ds[i - 1] == x);
            }
        }
        assert forall|x: Seq<char>| ds.contains(x) || x == d implies #[trigger] out.contains(x) by {
            if x == d {
                assert(out[0] == x);
            } else {
                let i = choose|i: int| 0 <= i < ds.len() && ds[i] == x;
                assert(out[i + 1] == x);
            }
        }
    } else if d == ds[0] {
        assert forall|x: Seq<char>| ds.contains(x) || x == d implies #[trigger] out.contains(x) by {
            if x == d {
                assert(out[0] == x);
            }
        }
    } else {
        crate::text::lemma_lt_connected(d, ds[0]);
        assert(seq_char_lt(ds[0], d));
        assert(forall|i: int, j: int|
            0 <= i < j < ds.drop_first().len() ==> seq_char_lt(
                #[trigger] ds.drop_first()[i],
                #[trigger] ds.drop_first()[j],
            ));
        lemma_insert_sorted_props(d, ds.drop_first());
        let rest = insert_sorted(d, ds.drop_first());
        assert(out =~= seq![ds[0]] + rest);
        assert forall|i: int, j: int| 0 <= i < j < out.len() implies seq_char_lt(
            out[i],
            out[j],
        ) by {
            if i == 0 {
                assert(rest.contains(rest[j - 1]));
                let x = rest[j - 1];
                if x == d {
                    assert(seq_char_lt(ds[0], d));
                } else {
                    assert(ds.drop_first().contains(x));
                    let k = choose|k: int|
                        0 <= k < ds.drop_first().len() && ds.drop_first()[k] == x;
                    assert(ds[k + 1] == x);
                    assert(seq_char_lt(ds[0], ds[k + 1]));
                }
            } else {
                assert(seq_char_lt(rest[i - 1], rest[j - 1]));
            }
        }
        assert forall|x: Seq<char>| #[trigger] out.contains(x) implies (ds.contains(x) || x == d) by {
            let i = choose|i: int| 0 <= i < out.len() && out[i] == x;
            if i == 0 {
                assert(ds[0] == x);
            } else {
                assert(rest.contains(rest[i - 1]));
                if rest[i - 1] != d {
                    assert(ds.drop_first().contains(rest[i - 1]));
                    let k = choose|k: int|
                        0 <= k < ds.drop_first().len() && ds.drop_first()[k] == x;
                    assert(ds[k + 1] == x);
                }
            }
        }
        assert forall|x: Seq<char>| ds.contains(x) || x == d implies #[trigger] out.contains(x) by {
            if x == d || ds.contains(x) {
                if x == ds[0] {
                    assert(out[0] == x);
                } else if x == d {
                    assert(rest.contains(x));
                    let k = choose|k: int| 0 <= k < rest.len() && rest[k] == x;
                    assert(out[k + 1] == x);
                } else {
                    let i = choose|i: int| 0 <= i < ds.len() && ds[i] == x;
                    assert(ds.drop_first()[i - 1] == x);
                    assert(rest.contains(x));
                    let k = choose|k: int| 0 <= k < rest.len() && rest[k] == x;
                    assert(out[k + 1] == x);
                }
            }
        }
    }
}

/// The resolved disk list is strictly sorted and holds exactly the disks the
/// partitions name.
pub proof fn lemma_unique_disks_props(ps: Seq<PartitionV>)
    ensures
        strictly_sorted(spec_unique_disks(ps)),
        forall|x: Seq<char>| #[trigger]
            spec_unique_disks(ps).contains(x) <==> exists|i: int|
                0 <= i < ps.len() && ps[i].disk == x,
    decreases ps.len(),
{
    let out = spec_unique_disks(ps);
    if ps.len() > 0 {
        lemma_unique_disks_props(ps.drop_last());
        lemma_insert_sorted_props(ps.last().disk, spec_unique_disks(ps.drop_last()));
        assert forall|x: Seq<char>| #[trigger] out.contains(x) implies exists|i: int|
            0 <= i < ps.len() && ps[i].disk == x by {
            if x == ps.last().disk {
                assert(ps[ps.len() - 1].disk == x);
            } else {
                assert(spec_unique_disks(ps.drop_last()).contains(x));
                let i = choose|i: int| 0 <= i < ps.drop_last().len() && ps.drop_last()[i].disk == x;
                assert(ps[i].disk == x);
            }
        }
        assert forall|x: Seq<char>| (exists|i: int| 0 <= i < ps.len() && ps[i].disk == x)
            implies #[trigger] out.contains(x) by {
            let i = choose|i: int| 0 <= i < ps.len() && ps[i].disk == x;
            if i == ps.len() - 1 {
            } else {
                assert(ps.drop_last()[i].disk == x);
            }
        }
    }
}

/// The partitions that sit on one disk, in their original order.
pub open spec fn spec_on_disk(ps: Seq<PartitionV>, disk: Seq<char>) -> Seq<PartitionV> {
    ps.filter(|p: PartitionV| p.disk == disk)
}

/// A group never holds more partitions than the whole list.
pub proof fn lemma_on_disk_len(ps: Seq<PartitionV>, disk: Seq<char>)
    ensures
        spec_on_disk(ps, disk).len() <= ps.len(),
{
    ps.lemma_filter_len(|p: PartitionV| p.disk == disk);
}

/// Which fragment an operation produces for one partition, given its
/// 0-based index on its disk.
#[derive(Clone, Copy, Debug, PartialEq, Eq, Structural)]
pub enum PartOp {
    /// The formatting command ([`Partition::mkfs_cmd`]).
    Mkfs,
    /// The mount command ([`Partition::mount_cmd`]).
    Mount,
    /// The resolved device path ([`Partition::get_partition_file`]).
    DevPath,
}

/// The fragment an operation produces for one partition.
pub open spec fn spec_apply_op(op: PartOp, p: PartitionV, idx: nat) -> Option<Seq<char>> {
    match op {
        PartOp::Mkfs => spec_mkfs_cmd(p, idx),
        PartOp::Mount => spec_mount_cmd(p, idx),
        PartOp::DevPath => Some(spec_device_path(p.disk, idx + 1)),
    }
}

/// One disk's partitions paired with their fragments, indexed in original
/// order so that the partition at position `i` gets number `i + 1`.
pub open spec fn spec_enumerate_ops(group: Seq<PartitionV>, op: PartOp) -> Seq<
    (PartitionV, Option<Seq<char>>),
> {
    Seq::new(group.len(), |i: int| (group[i], spec_apply_op(op, group[i], i as nat)))
}

/// All partitions paired with their fragments: disk by disk in lexicographic
/// disk order, and inside a disk in original order.
pub open spec fn spec_map_disks(
    ps: Seq<PartitionV>,
    disks: Seq<Seq<char>>,
    op: PartOp,
) -> Seq<(PartitionV, Option<Seq<char>>)>
    decreases disks.len(),
{
    if disks.len() == 0 {
        Seq::<(PartitionV, Option<Seq<char>>)>::empty()
    } else {
        spec_map_disks(ps, disks.drop_last(), op) + spec_enumerate_ops(
            spec_on_disk(ps, disks.last()),
            op,
        )
    }
}

/// The resolved fragment list for an operation over the whole plan.
pub open spec fn spec_map_partitions(ps: Seq<PartitionV>, op: PartOp) -> Seq<
    (PartitionV, Option<Seq<char>>),
> {
    spec_map_disks(ps, spec_unique_disks(ps), op)
}

impl InstallOptions {
    /// All unique disks the partitions name, in lexicographic order.
    pub fn unique_disks_used(&self) -> (r: Vec<String>)
        ensures
            r.deep_view() == spec_unique_disks(self.partitions.deep_view()),
    {
        let ghost pv = self.partitions.deep_view();
        let mut disks: Vec<String> = Vec::new();
        let mut i: usize = 0;
        proof {
            assert(pv.take(0) =~= Seq::<PartitionV>::empty());
            assert(disks.deep_view() =~= spec_unique_disks(pv.take(0)));
        }
        while i < self.partitions.len()
            invariant
                i <= self.partitions@.len(),
                pv == self.partitions.deep_view(),
                pv.len() == self.partitions@.len(),
                disks.deep_view() == spec_unique_disks(pv.take(i as int)),
            decreases self.partitions@.len() - i,
        {
            let d = &self.partitions[i].disk;
            let ghost dv = d@;
            let ghost ds = disks.deep_view();
            let mut j: usize = 0;
            loop
                invariant_except_break
                    j <= disks@.len(),
                    dv == d@,
                    ds == disks.deep_view(),
                    ds.len() == disks@.len(),
                    forall|k: int| 0 <= k < j ==> seq_char_lt(#[trigger] ds[k], dv),
                ensures
                    j <= disks@.len(),
                    dv == d@,
                    ds == disks.deep_view(),
                    ds.len() == disks@.len(),
                    forall|k: int| 0 <= k < j ==> seq_char_lt(#[trigger] ds[k], dv),
                    j == disks@.len() || !seq_char_lt(ds[j as int], dv),
                decreases disks@.len() - j,
            {
                if j >= disks.len() {
                    break ;
                }
                if !str_lt(disks[j].as_str(), d.as_str()) {
                    proof {
                        assert(ds[j as int] == disks@[j as int]@);
                    }
                    break ;
                }
                proof {
                    assert(ds[j as int] == disks@[j as int]@);
                    assert(seq_char_lt(ds[j as int], dv));
                }
                j = j + 1;
            }
            proof {
                lemma_insert_sorted_split(dv, ds, j as int);
            }
            if j < disks.len() && str_eq(disks[j].as_str(), d.as_str()) {
                proof {
                    crate::text::lemma_lt_irreflexive(dv);
                    assert(ds.skip(j as int)[0] == dv);
                    assert(insert_sorted(dv, ds.skip(j as int)) == ds.skip(j as int));
                    assert(ds.take(j as int) + ds.skip(j as int) =~= ds);
                    assert(insert_sorted(dv, ds) == ds);
                }
            } else {
                proof {
                    if j < disks@.len() {
                        assert(!seq_char_lt(ds[j as int], dv));
                        assert(ds[j as int] != dv);
                        crate::text::lemma_lt_connected(dv, ds[j as int]);
                        assert(seq_char_lt(dv, ds.skip(j as int)[0]));
                        assert(insert_sorted(dv, ds.skip(j as int)) =~= seq![dv] + ds.skip(
                            j as int,
                        ));
                    } else {
                        assert(ds.skip(j as int).len() == 0);
                        assert(insert_sorted(dv, ds.skip(j as int)) =~= seq![dv]);
                    }
                    assert(insert_sorted(dv, ds) =~= ds.take(j as int) + seq![dv] + ds.skip(
                        j as int,
                    ));
                    assert(ds.insert(j as int, dv) =~= ds.take(j as int) + seq![dv] + ds.skip(
                        j as int,
                    ));
                }
                disks.insert(j, d.clone());
                proof {
                    assert(disks.deep_view() =~= ds.insert(j as int, dv));
                }
            }
            proof {
                assert(pv.take(i + 1).drop_last() =~= pv.take(i as int));
                assert(pv.take(i + 1).last() == pv[i as int]);
                assert(pv[i as int].disk == dv);
                assert(disks.deep_view() =~= spec_unique_disks(pv.take(i + 1)));
            }
            i = i + 1;
        }
        proof {
            assert(pv.take(pv.len() as int) =~= pv);
        }
        disks
    }

    /// The partitions that would sit on the given disk, in original order.
    pub fn partitions_on_disk(&self, disk: &str) -> (r: Vec<Partition>)
        ensures
            r.deep_view() == spec_on_disk(self.partitions.deep_view(), disk@),
    {
        let ghost pv = self.partitions.deep_view();
        let ghost pred = |p: PartitionV| p.disk == disk@;
        let mut r: Vec<Partition> = Vec::new();
        let mut i: usize = 0;
        proof {
            reveal(Seq::filter);
            assert(pv.take(0) =~= Seq::<PartitionV>::empty());
            assert(r.deep_view() =~= pv.take(0).filter(pred));
        }
        while i < self.partitions.len()
            invariant
                i <= self.partitions@.len(),
                pv == self.partitions.deep_view(),
                pv.len() == self.partitions@.len(),
                pred == (|p: PartitionV| p.disk == disk@),
                r.deep_view() == pv.take(i as int).filter(pred),
            decreases self.partitions@.len() - i,
        {
            let p = &self.partitions[i];
            proof {
                reveal(Seq::filter);
                assert(pv.take(i + 1).drop_last() =~= pv.take(i as int));
                assert(pv.take(i + 1).last() == pv[i as int]);
            }
            if str_eq(p.disk.as_str(), disk) {
                r.push(p.clone());
                proof {
                    assert(r.deep_view() =~= pv.take(i + 1).filter(pred));
                }
            } else {
                proof {
                    assert(r.deep_view() =~= pv.take(i + 1).filter(pred));
                }
            }
            i = i + 1;
        }
        proof {
            assert(pv.take(pv.len() as int) =~= pv);
        }
        r
    }

    /// Apply an operation to every partition, in resolved order: disks in
    /// lexicographic order, and on each disk the partitions in original
    /// order, numbered from the start of the disk. Each partition is paired
    /// with the fragment the operation produced for it, if any.
    pub fn map_partitions(&self, op: PartOp) -> (r: Vec<(Partition, Option<String>)>)
        requires
            self.partitions.deep_view().len() <= u32::MAX,
        ensures
            r.deep_view() == spec_map_partitions(self.partitions.deep_view(), op),
    {
        let ghost pv = self.partitions.deep_view();
        let disks = self.unique_disks_used();
        let ghost dsv = disks.deep_view();
        let mut r: Vec<(Partition, Option<String>)> = Vec::new();
        let mut di: usize = 0;
        proof {
            assert(dsv.take(0) =~= Seq::<Seq<char>>::empty());
            assert(r.deep_view() =~= spec_map_disks(pv, dsv.take(0), op));
        }
        while di < disks.len()
            invariant
                di <= disks@.len(),
                pv == self.partitions.deep_view(),
                pv.len() <= u32::MAX,
                dsv == disks.deep_view(),
                dsv.len() == disks@.len(),
                r.deep_view() == spec_map_disks(pv, dsv.take(di as int), op),
            decreases disks@.len() - di,
        {
            let group = self.partitions_on_disk(disks[di].as_str());
            let ghost gv = group.deep_view();
            proof {
                lemma_on_disk_len(pv, dsv[di as int]);
            }
            let mut idx: usize = 0;
            proof {
                assert(spec_enumerate_ops(gv, op).take(0) =~= Seq::<
                    (PartitionV, Option<Seq<char>>),
                >::empty());
                assert(r.deep_view() =~= spec_map_disks(pv, dsv.take(di as int), op)
                    + spec_enumerate_ops(gv, op).take(0));
            }
            while idx < group.len()
                invariant
                    idx <= group@.len(),
                    pv == self.partitions.deep_view(),
                    pv.len() <= u32::MAX,
                    dsv == disks.deep_view(),
                    dsv.len() == disks@.len(),
                    di < dsv.len(),
                    gv == group.deep_view(),
                    gv.len() == group@.len(),
                    gv.len() <= pv.len(),
                    r.deep_view() == spec_map_disks(pv, dsv.take(di as int), op)
                        + spec_enumerate_ops(gv, op).take(idx as int),
                decreases group@.len() - idx,
            {
                let p = group[idx].clone();
                proof {
                    assert(gv[idx as int] == group@[idx as int]@);
                    assert(p@ == gv[idx as int]);
                }
                let frag: Option<String> = match op {
                    PartOp::Mkfs => p.mkfs_cmd(idx as u32),
                    PartOp::Mount => p.mount_cmd(idx as u32),
                    PartOp::DevPath => Some(p.get_partition_file(idx as u32)),
                };
                proof {
                    assert((idx as u32) as nat == idx as nat);
                    assert(frag.deep_view() == spec_apply_op(op, gv[idx as int], idx as nat));
                }
                let ghost rold = r.deep_view();
                let ghost pairv: (PartitionV, Option<Seq<char>>) = (p@, frag.deep_view());
                r.push((p, frag));
                proof {
                    assert(r.deep_view() =~= rold.push(pairv));
                    assert(spec_enumerate_ops(gv, op).take(idx + 1) =~= spec_enumerate_ops(
                        gv,
                        op,
                    ).take(idx as int).push(pairv));
                    assert(r.deep_view() =~= spec_map_disks(pv, dsv.take(di as int), op)
                        + spec_enumerate_ops(gv, op).take(idx + 1));
                }
                idx = idx + 1;
            }
            proof {
                assert(spec_enumerate_ops(gv, op).take(gv.len() as int) =~= spec_enumerate_ops(
                    gv,
                    op,
                ));
                assert(dsv.take(di + 1).drop_last() =~= dsv.take(di as int));
                assert(dsv.take(di + 1).last() == dsv[di as int]);
                assert(r.deep_view() =~= spec_map_disks(pv, dsv.take(di + 1), op));
            }
            di = di + 1;
        }
        proof {
            assert(dsv.take(dsv.len() as int) =~= dsv);
        }
        r
    }

    /// The fdisk invocations that create all partitions: one per disk, in
    /// lexicographic disk order, each echoing that disk's creation fragments
    /// in partition-number order and committing with `w`.
    pub fn fdisk_cmds(&self) -> (r: Vec<String>)
        requires
            self.partitions.deep_view().len() <= u32::MAX,
        ensures
            r.deep_view() == spec_fdisk_cmds(self.partitions.deep_view()),
    {
        let ghost pv = self.partitions.deep_view();
        let disks = self.unique_disks_used();
        let ghost dsv = disks.deep_view();
        let mut r: Vec<String> = Vec::new();
        let mut di: usize = 0;
        proof {
            assert(r.deep_view() =~= spec_fdisk_cmds(pv).take(0));
        }
        while di < disks.len()
            invariant
                di <= disks@.len(),
                pv == self.partitions.deep_view(),
                pv.len() <= u32::MAX,
                dsv == disks.deep_view(),
                dsv.len() == disks@.len(),
                dsv == spec_unique_disks(pv),
                r.deep_view() == spec_fdisk_cmds(pv).take(di as int),
            decreases disks@.len() - di,
        {
            let group = self.partitions_on_disk(disks[di].as_str());
            let ghost gv = group.deep_view();
            proof {
                lemma_on_disk_len(pv, dsv[di as int]);
            }
            let mut cmd = String::from_str("echo -e \"g\\n");
            let mut idx: usize = 0;
            proof {
                assert(gv.take(0) =~= Seq::<PartitionV>::empty());
                assert(cmd@ =~= "echo -e \"g\\n"@ + spec_fdisk_frags(gv.take(0)));
            }
            while idx < group.len()
                invariant
                    idx <= group@.len(),
                    gv == group.deep_view(),
                    gv.len() == group@.len(),
                    gv.len() <= pv.len(),
                    pv.len() <= u32::MAX,
                    cmd@ == "echo -e \"g\\n"@ + spec_fdisk_frags(gv.take(idx as int)),
                decreases group@.len() - idx,
            {
                let frag = group[idx].fdisk_script_string((idx as u32) + 1);
                cmd.append(frag.as_str());
                proof {
                    assert(gv.take(idx + 1).drop_last() =~= gv.take(idx as int));
                    assert(gv.take(idx + 1).last() == gv[idx as int]);
                    assert(cmd@ =~= "echo -e \"g\\n"@ + spec_fdisk_frags(gv.take(idx + 1)));
                }
                idx = idx + 1;
            }
            proof {
                assert(gv.take(gv.len() as int) =~= gv);
            }
            cmd.append("\\nw\" | fdisk ");
            cmd.append(disks[di].as_str());
            cmd.append(" &>/dev/null");
            proof {
                assert(dsv[di as int] == disks@[di as int]@);
                assert(gv == spec_on_disk(pv, dsv[di as int]));
                assert(spec_fdisk_frags(gv.take(gv.len() as int)) == spec_fdisk_frags(gv));
                assert(cmd@ == spec_fdisk_cmd(pv, dsv[di as int]));
                assert(spec_fdisk_cmds(pv)[di as int] == spec_fdisk_cmd(pv, dsv[di as int]));
            }
            let ghost rold = r.deep_view();
            let ghost cmdv = cmd@;
            r.push(cmd);
            proof {
                assert(r.deep_view() =~= rold.push(cmdv));
                assert(spec_fdisk_cmds(pv).take(di + 1) =~= spec_fdisk_cmds(pv).take(
                    di as int,
                ).push(cmdv));
                assert(r.deep_view() =~= spec_fdisk_cmds(pv).take(di + 1));
            }
            di = di + 1;
        }
        proof {
            assert(spec_fdisk_cmds(pv).take(spec_fdisk_cmds(pv).len() as int) =~= spec_fdisk_cmds(
                pv,
            ));
        }
        r
    }
}

/// The fdisk creation fragments of one disk's partitions, concatenated in
/// order, the partition at position `i` numbered `i + 1`.
pub open spec fn spec_fdisk_frags(group: Seq<PartitionV>) -> Seq<char>
    decreases group.len(),
{
    if group.len() == 0 {
        Seq::<char>::empty()
    } else {
        spec_fdisk_frags(group.drop_last()) + spec_fdisk_frag(group.last(), group.len())
    }
}

/// One disk's complete fdisk invocation.
pub open spec fn spec_fdisk_cmd(ps: Seq<PartitionV>, disk: Seq<char>) -> Seq<char> {
    "echo -e \"g\\n"@ + spec_fdisk_frags(spec_on_disk(ps, disk)) + "\\nw\" | fdisk "@ + disk
        + " &>/dev/null"@
}

/// The fdisk invocations for every disk, in lexicographic disk order.
pub open spec fn spec_fdisk_cmds(ps: Seq<PartitionV>) -> Seq<Seq<char>> {
    Seq::new(spec_unique_disks(ps).len(), |i: int| spec_fdisk_cmd(ps, spec_unique_disks(ps)[i]))
}

/// A status line followed by the commands it announces.
pub open spec fn spec_echo_status(msg: Seq<char>, cmds: Seq<char>) -> Seq<char> {
    "echo '"@ + msg + "'\n"@ + cmds
}

/// Given a message and a list of commands, prepend an echo command printing
/// the message to the list of commands.
pub fn echo_status(msg: &str, cmds: &str) -> (r: String)
    ensures
        r@ == spec_echo_status(msg@, cmds@),
{
    let mut r = String::from_str("echo '");
    r.append(msg);
    r.append("'\n");
    r.append(cmds);
    r
}

/// The second elements of the pairs whose second element is present.
pub open spec fn spec_map_snd<A, B>(l: Seq<(A, Option<B>)>) -> Seq<B>
    decreases l.len(),
{
    if l.len() == 0 {
        Seq::<B>::empty()
    } else {
        let rest = spec_map_snd(l.drop_last());
        match l.last().1 {
            Some(b) => rest.push(b),
            None => rest,
        }
    }
}

/// Take the second element of each of the pairs in the input, keeping only
/// those that are present.
pub fn map_snd<A, B>(tuples: Vec<(A, Option<B>)>) -> (r: Vec<B>)
    ensures
        r@ == spec_map_snd(tuples@),
{
    let ghost orig = tuples@;
    let mut tuples = tuples;
    let n0 = tuples.len();
    proof {
        assert(orig.len() == n0);
    }
    let mut r: Vec<B> = Vec::new();
    let mut i: usize = 0;
    proof {
        assert(orig.take(0) =~= Seq::<(A, Option<B>)>::empty());
        assert(orig.skip(0) =~= orig);
    }
    while tuples.len() > 0
        invariant
            i <= orig.len(),
            orig.len() == n0,
            tuples@ == orig.skip(i as int),
            r@ == spec_map_snd(orig.take(i as int)),
        decreases tuples@.len(),
    {
        let t = tuples.remove(0);
        proof {
            assert(t == orig[i as int]);
            assert(orig.skip(i as int).remove(0) =~= orig.skip(i + 1));
            assert(orig.take(i + 1).drop_last() =~= orig.take(i as int));
            assert(orig.take(i + 1).last() == orig[i as int]);
        }
        match t.1 {
            Some(b) => {
                r.push(b);
            },
            None => {},
        }
        proof {
            assert(r@ =~= spec_map_snd(orig.take(i + 1)));
            assert(i < orig.len());
        }
        i = i + 1;
    }
    proof {
        assert(orig.take(i as int) =~= orig);
    }
    r
}

/// The view of each string in a sequence of strings.
pub open spec fn views_of(s: Seq<String>) -> Seq<Seq<char>> {
    Seq::new(s.len(), |i: int| s[i]@)
}

/// The present fragments of a resolved pair list, at the view level.
pub open spec fn spec_snds(l: Seq<(PartitionV, Option<Seq<char>>)>) -> Seq<Seq<char>>
    decreases l.len(),
{
    if l.len() == 0 {
        Seq::<Seq<char>>::empty()
    } else {
        let rest = spec_snds(l.drop_last());
        match l.last().1 {
            Some(b) => rest.push(b),
            None => rest,
        }
    }
}

/// Collecting present fragments commutes with taking views.
pub proof fn lemma_map_snd_views(l: Seq<(Partition, Option<String>)>, lv: Seq<
    (PartitionV, Option<Seq<char>>),
>)
    requires
        lv.len() == l.len(),
        forall|i: int| 0 <= i < l.len() ==> #[trigger] lv[i] == ((l[i].0@, l[i].1.deep_view())),
    ensures
        views_of(spec_map_snd(l)) == spec_snds(lv),
    decreases l.len(),
{
    if l.len() == 0 {
        assert(views_of(spec_map_snd(l)) =~= spec_snds(lv));
    } else {
        assert(forall|i: int|
            0 <= i < l.drop_last().len() ==> #[trigger] lv.drop_last()[i] == ((l.drop_last()[i].0@,
            l.drop_last()[i].1.deep_view())));
        lemma_map_snd_views(l.drop_last(), lv.drop_last());
        assert(lv.last() == (l.last().0@, l.last().1.deep_view()));
        match l.last().1 {
            Some(b) => {
                assert(lv.last().1 == Some(b@));
                assert(views_of(spec_map_snd(l.drop_last()).push(b)) =~= views_of(
                    spec_map_snd(l.drop_last()),
                ).push(b@));
            },
            None => {
                assert(lv.last().1 is None);
            },
        }
        assert(views_of(spec_map_snd(l)) =~= spec_snds(lv));
    }
}

/// Index of the first pair whose partition is mounted at the root, or a
/// negative value when there is none.
pub open spec fn first_root_idx(l: Seq<(PartitionV, Option<Seq<char>>)>) -> int
    decreases l.len(),
{
    if l.len() == 0 {
        -1
    } else if l[0].0.mount == "/"@ {
        0
    } else {
        let r = first_root_idx(l.drop_first());
        if r < 0 {
            -1
        } else {
            r + 1
        }
    }
}

/// What [`first_root_idx`] means: a negative result says no pair is mounted
/// at the root; otherwise the result points at the first such pair.
pub proof fn lemma_first_root_idx(l: Seq<(PartitionV, Option<Seq<char>>)>)
    ensures
        ({
            let r = first_root_idx(l);
            &&& r == -1 ==> (forall|i: int|
                0 <= i < l.len() ==> (#[trigger] l[i]).0.mount != "/"@)
            &&& r != -1 ==> 0 <= r < l.len() && l[r].0.mount == "/"@ && (forall|i: int|
                0 <= i < r ==> (#[trigger] l[i]).0.mount != "/"@)
        }),
    decreases l.len(),
{
    if l.len() > 0 && l[0].0.mount != "/"@ {
        lemma_first_root_idx(l.drop_first());
        assert(forall|i: int| 1 <= i < l.len() ==> (#[trigger] l[i]) == l.drop_first()[i - 1]);
    }
}

/// Whether a partition is mounted where a boot partition lives.
pub open spec fn spec_is_boot(p: PartitionV) -> bool {
    p.mount == "/boot"@ || p.mount == "/efi"@
}

/// Index of the first pair whose partition is mounted at `/boot` or `/efi`,
/// or a negative value when there is none.
pub open spec fn first_boot_idx(l: Seq<(PartitionV, Option<Seq<char>>)>) -> int
    decreases l.len(),
{
    if l.len() == 0 {
        -1
    } else if spec_is_boot(l[0].0) {
        0
    } else {
        let r = first_boot_idx(l.drop_first());
        if r < 0 {
            -1
        } else {
            r + 1
        }
    }
}

/// What [`first_boot_idx`] means, as for [`lemma_first_root_idx`].
pub proof fn lemma_first_boot_idx(l: Seq<(PartitionV, Option<Seq<char>>)>)
    ensures
        ({
            let r = first_boot_idx(l);
            &&& r == -1 ==> (forall|i: int| 0 <= i < l.len() ==> !spec_is_boot((#[trigger] l[i]).0))
            &&& r != -1 ==> 0 <= r < l.len() && spec_is_boot(l[r].0) && (forall|i: int|
                0 <= i < r ==> !spec_is_boot((#[trigger] l[i]).0))
        }),
    decreases l.len(),
{
    if l.len() > 0 && !spec_is_boot(l[0].0) {
        lemma_first_boot_idx(l.drop_first());
        assert(forall|i: int| 1 <= i < l.len() ==> (#[trigger] l[i]) == l.drop_first()[i - 1]);
    }
}

/// Every entry of the device-path resolution carries a path.
pub proof fn lemma_map_disks_some(ps: Seq<PartitionV>, disks: Seq<Seq<char>>)
    ensures
        forall|i: int|
            0 <= i < spec_map_disks(ps, disks, PartOp::DevPath).len() ==> (#[trigger] spec_map_disks(
                ps,
                disks,
                PartOp::DevPath,
            )[i]).1 is Some,
    decreases disks.len(),
{
    if disks.len() > 0 {
        lemma_map_disks_some(ps, disks.drop_last());
    }
}

/// How many partitions name a disk in the given list.
pub open spec fn count_on_disks(ps: Seq<PartitionV>, disks: Seq<Seq<char>>) -> int
    decreases ps.len(),
{
    if ps.len() == 0 {
        0
    } else {
        count_on_disks(ps.drop_last(), disks) + if disks.contains(ps.last().disk) {
            1int
        } else {
            0int
        }
    }
}

/// Splitting a fresh disk off the disk list splits the count.
pub proof fn lemma_count_split(ps: Seq<PartitionV>, disks: Seq<Seq<char>>)
    requires
        disks.len() > 0,
        !disks.drop_last().contains(disks.last()),
    ensures
        count_on_disks(ps, disks) == count_on_disks(ps, disks.drop_last()) + spec_on_disk(
            ps,
            disks.last(),
        ).len(),
    decreases ps.len(),
{
    reveal(Seq::filter);
    if ps.len() > 0 {
        lemma_count_split(ps.drop_last(), disks);
        let d = ps.last().disk;
        assert(disks.contains(d) <==> (disks.drop_last().contains(d) || d == disks.last())) by {
            if disks.contains(d) {
                let i = choose|i: int| 0 <= i < disks.len() && disks[i] == d;
                if i < disks.len() - 1 {
                    assert(disks.drop_last()[i] == d);
                }
            }
            if disks.drop_last().contains(d) {
                let i = choose|i: int| 0 <= i < disks.drop_last().len() && disks.drop_last()[i]
                    == d;
                assert(disks[i] == d);
            }
        }
        if disks.drop_last().contains(d) && d == disks.last() {
            assert(false);
        }
    }
}

/// A count over no disks is zero.
pub proof fn lemma_count_empty(ps: Seq<PartitionV>)
    ensures
        count_on_disks(ps, Seq::<Seq<char>>::empty()) == 0,
    decreases ps.len(),
{
    if ps.len() > 0 {
        lemma_count_empty(ps.drop_last());
    }
}

/// When the disk list holds every disk the partitions name, the count is the
/// number of partitions.
pub proof fn lemma_count_full(ps: Seq<PartitionV>, disks: Seq<Seq<char>>)
    requires
        forall|i: int| 0 <= i < ps.len() ==> disks.contains((#[trigger] ps[i]).disk),
    ensures
        count_on_disks(ps, disks) == ps.len(),
    decreases ps.len(),
{
    if ps.len() > 0 {
        assert forall|i: int|
            0 <= i < ps.drop_last().len() implies disks.contains(
            (#[trigger] ps.drop_last()[i]).disk,
        ) by {
            assert(ps.drop_last()[i] == ps[i]);
        }
        lemma_count_full(ps.drop_last(), disks);
        assert(disks.contains(ps[ps.len() - 1].disk));
    }
}

/// Resolution over a duplicate-free disk list yields one entry per
/// partition counted.
pub proof fn lemma_map_disks_len(ps: Seq<PartitionV>, disks: Seq<Seq<char>>, op: PartOp)
    requires
        strictly_sorted(disks),
    ensures
        spec_map_disks(ps, disks, op).len() == count_on_disks(ps, disks),
    decreases disks.len(),
{
    if disks.len() == 0 {
        assert(disks =~= Seq::<Seq<char>>::empty());
        lemma_count_empty(ps);
    } else {
        assert forall|i: int, j: int|
            0 <= i < j < disks.drop_last().len() implies seq_char_lt(
            #[trigger] disks.drop_last()[i],
            #[trigger] disks.drop_last()[j],
        ) by {
            assert(disks.drop_last()[i] == disks[i]);
            assert(disks.drop_last()[j] == disks[j]);
        }
        lemma_map_disks_len(ps, disks.drop_last(), op);
        assert(spec_map_disks(ps, disks, op).len() == spec_map_disks(ps, disks.drop_last(),
        op).len() + spec_on_disk(ps, disks.last()).len());
        assert(!disks.drop_last().contains(disks.last())) by {
            if disks.drop_last().contains(disks.last()) {
                let i = choose|i: int|
                    0 <= i < disks.drop_last().len() && disks.drop_last()[i] == disks.last();
                assert(seq_char_lt(disks[i], disks[disks.len() - 1]));
                crate::text::lemma_lt_irreflexive(disks.last());
            }
        }
        lemma_count_split(ps, disks);
    }
}

/// Every partition appears exactly once in the resolved fragment list.
pub proof fn lemma_map_partitions_len(ps: Seq<PartitionV>, op: PartOp)
    ensures
        spec_map_partitions(ps, op).len() == ps.len(),
{
    let ud = spec_unique_disks(ps);
    lemma_unique_disks_props(ps);
    lemma_map_disks_len(ps, ud, op);
    assert(forall|i: int| 0 <= i < ps.len() ==> ud.contains((#[trigger] ps[i]).disk));
    lemma_count_full(ps, ud);
}

/// The resolved mount list with the first root-mounted entry swapped to the
/// front, so that the root filesystem is mounted before anything under it.
pub open spec fn spec_mount_list(ps: Seq<PartitionV>) -> Seq<(PartitionV, Option<Seq<char>>)> {
    let l = spec_map_partitions(ps, PartOp::Mount);
    let r0 = first_root_idx(l);
    let ri = if r0 >= 0 {
        r0
    } else {
        0
    };
    if l.len() == 0 {
        l
    } else {
        l.update(0, l[ri]).update(ri, l[0])
    }
}

/// The network manager enablement commands of the chroot stage.
pub open spec fn spec_networkmanager_cmds() -> Seq<Seq<char>> {
    seq!["systemctl enable --now systemd-resolved"@, "systemctl enable NetworkManager.service"@]
}

/// The sed invocation lines that uncomment every requested locale in the
/// locale generation config, followed by the file argument.
pub open spec fn spec_sed_parts(locales: Seq<Seq<char>>) -> Seq<Seq<char>> {
    seq!["sed "@] + Seq::new(
        locales.len(),
        |i: int| "    --expression 's/^#"@ + locales[i] + "$/"@ + locales[i] + "/' "@,
    ) + seq!["    --in-place /etc/locale.gen"@]
}

/// The locale activation commands: one sed invocation uncommenting every
/// requested locale, then the command that makes the first locale the
/// default system language.
pub open spec fn spec_locales_cmd(locales: Seq<Seq<char>>) -> Seq<Seq<char>> {
    seq![
        spec_join(spec_sed_parts(locales), "\\\n"@),
        "echo 'LANG="@ + locales[0] + "' >/etc/locale.conf"@,
    ]
}

/// The command that writes the local hostname information to `/etc/hosts`.
pub open spec fn spec_local_hostname_cmd(hostname: Seq<char>) -> Seq<char> {
    "cat <<END_ETC_HOSTS >/etc/hosts\n"@ + spec_join(
        seq!["127.0.0.1\tlocalhost"@, "::1\tlocalhost"@, "127.0.1.1\t"@ + hostname],
        "\n"@,
    ) + "\nEND_ETC_HOSTS"@
}

/// The packages handed to pacstrap: the base system, the chosen kernel,
/// firmware, the free-form extras, the bootloader package (except for the
/// EFI stub, which needs no boot-manager package), the boot-entry tool and
/// the network manager.
pub open spec fn spec_packages(o: InstallOptionsV) -> Seq<Seq<char>> {
    seq![
        "base"@,
        (if o.kernel == Kernel::Latest {
            "linux"@
        } else {
            "linux-lts"@
        }),
        "linux-firmware"@,
        o.extra,
        (if o.bootloader != "efistub"@ {
            o.bootloader
        } else {
            Seq::<char>::empty()
        }),
        "efibootmgr"@,
        "networkmanager"@,
    ]
}

/// The kernel-dependent suffix of image names: `-lts` for the LTS kernel.
pub open spec fn spec_lts_suffix(k: Kernel) -> Seq<char> {
    if k == Kernel::Lts {
        "-lts"@
    } else {
        Seq::<char>::empty()
    }
}

/// The EFI boot-entry registration command, parameterized by the boot
/// partition's disk, its numeric partition index, and the root partition's
/// device path; the label and the image names carry the LTS suffixes when
/// the LTS kernel is installed.
pub open spec fn spec_efistub_cmd(
    kernel: Kernel,
    boot_disk: Seq<char>,
    part_index: Seq<char>,
    root_dev: Seq<char>,
) -> Seq<char> {
    "efibootmgr --disk "@ + boot_disk + " --part "@ + part_index
        + " --create --label \"Arch Linux"@ + (if kernel == Kernel::Lts {
        " LTS"@
    } else {
        Seq::<char>::empty()
    }) + "\" --loader /vmlinuz-linux"@ + spec_lts_suffix(kernel) + " --unicode 'root="@ + root_dev
        + " rw initrd=\\initramfs-linux"@ + spec_lts_suffix(kernel) + ".img' --verbose"@
}

/// The bootloader installation commands, or the fatal error: `grub` gets
/// its fixed two-command sequence; `efistub` needs a partition mounted at
/// `/boot` or `/efi` and one mounted at `/`, and registers a boot entry for
/// them; any other bootloader name is a fatal configuration error.
pub open spec fn spec_bootloader_result(o: InstallOptionsV) -> Result<Seq<Seq<char>>, ConfigError> {
    if o.bootloader == "grub"@ {
        Ok(
            seq![
                "grub-install --target=x86_64-efi --bootloader-id=GRUB --recheck"@,
                "grub-mkconfig -o /boot/grub/grub.cfg"@,
            ],
        )
    } else if o.bootloader == "efistub"@ {
        let l = spec_map_partitions(o.partitions, PartOp::DevPath);
        let bi = first_boot_idx(l);
        let ri = first_root_idx(l);
        if bi < 0 {
            Err(ConfigError::MissingBootPartition)
        } else if ri < 0 {
            Err(ConfigError::MissingRootPartition)
        } else {
            Ok(
                seq![
                    spec_efistub_cmd(
                        o.kernel,
                        l[bi].0.disk,
                        trailing_digits_of(l[bi].1->0),
                        l[ri].1->0,
                    ),
                ],
            )
        }
    } else {
        Err(ConfigError::UnknownBootloader)
    }
}

/// Find the first pair mounted at the root, or the length when none is.
fn find_first_root(pd: &Vec<(Partition, Option<String>)>) -> (r: usize)
    ensures
        ({
            let l = pd.deep_view();
            if first_root_idx(l) >= 0 {
                r == first_root_idx(l)
            } else {
                r == l.len()
            }
        }),
{
    let ghost l = pd.deep_view();
    let mut i: usize = 0;
    loop
        invariant_except_break
            i <= pd@.len(),
            l == pd.deep_view(),
            l.len() == pd@.len(),
            forall|k: int| 0 <= k < i ==> (#[trigger] l[k]).0.mount != "/"@,
        ensures
            i <= pd@.len(),
            l == pd.deep_view(),
            l.len() == pd@.len(),
            forall|k: int| 0 <= k < i ==> (#[trigger] l[k]).0.mount != "/"@,
            i == pd@.len() || l[i as int].0.mount == "/"@,
        decreases pd@.len() - i,
    {
        if i >= pd.len() {
            break ;
        }
        let hit = str_eq(pd[i].0.mount.as_str(), "/");
        proof {
            assert(l[i as int].0.mount == pd@[i as int].0@.mount);
        }
        if hit {
            break ;
        }
        i = i + 1;
    }
    proof {
        lemma_first_root_idx(l);
    }
    i
}

/// Find the first pair mounted at `/boot` or `/efi`, or the length when
/// none is.
fn find_first_boot(pd: &Vec<(Partition, Option<String>)>) -> (r: usize)
    ensures
        ({
            let l = pd.deep_view();
            if first_boot_idx(l) >= 0 {
                r == first_boot_idx(l)
            } else {
                r == l.len()
            }
        }),
{
    let ghost l = pd.deep_view();
    let mut i: usize = 0;
    loop
        invariant_except_break
            i <= pd@.len(),
            l == pd.deep_view(),
            l.len() == pd@.len(),
            forall|k: int| 0 <= k < i ==> !spec_is_boot((#[trigger] l[k]).0),
        ensures
            i <= pd@.len(),
            l == pd.deep_view(),
            l.len() == pd@.len(),
            forall|k: int| 0 <= k < i ==> !spec_is_boot((#[trigger] l[k]).0),
            i == pd@.len() || spec_is_boot(l[i as int].0),
        decreases pd@.len() - i,
    {
        if i >= pd.len() {
            break ;
        }
        let hit = str_eq(pd[i].0.mount.as_str(), "/boot") || str_eq(pd[i].0.mount.as_str(), "/efi");
        proof {
            assert(l[i as int].0.mount == pd@[i as int].0@.mount);
        }
        if hit {
            break ;
        }
        i = i + 1;
    }
    proof {
        lemma_first_boot_idx(l);
    }
    i
}

impl InstallOptions {
    /// The commands that get the configured bootloader up and running, or
    /// the fatal error §[`spec_bootloader_result`] assigns to this plan.
    pub fn install_bootloader(&self) -> (r: Result<Vec<String>, ConfigError>)
        requires
            self.partitions.deep_view().len() <= u32::MAX,
        ensures
            match r {
                Ok(v) => spec_bootloader_result(self@) matches Ok(c) && c == v.deep_view(),
                Err(e) => spec_bootloader_result(self@) matches Err(e2) && e2 == e,
            },
    {
        if str_eq(self.bootloader.as_str(), "grub") {
            let mut v: Vec<String> = Vec::new();
            v.push(String::from_str("grub-install --target=x86_64-efi --bootloader-id=GRUB --recheck"));
            v.push(String::from_str("grub-mkconfig -o /boot/grub/grub.cfg"));
            proof {
                assert(v.deep_view() =~= seq![
                    "grub-install --target=x86_64-efi --bootloader-id=GRUB --recheck"@,
                    "grub-mkconfig -o /boot/grub/grub.cfg"@,
                ]);
            }
            Ok(v)
        } else if str_eq(self.bootloader.as_str(), "efistub") {
            let ghost pv = self.partitions.deep_view();
            let ghost l = spec_map_partitions(pv, PartOp::DevPath);
            let pd = self.map_partitions(PartOp::DevPath);
            proof {
                lemma_first_boot_idx(l);
                lemma_first_root_idx(l);
                lemma_map_disks_some(pv, spec_unique_disks(pv));
            }
            let bi = find_first_boot(&pd);
            if bi >= pd.len() {
                return Err(ConfigError::MissingBootPartition);
            }
            let ri = find_first_root(&pd);
            if ri >= pd.len() {
                return Err(ConfigError::MissingRootPartition);
            }
            let bdev = match &pd[bi].1 {
                Some(d) => d.clone(),
                None => vstd::pervasive::unreached(),
            };
            let rdev = match &pd[ri].1 {
                Some(d) => d.clone(),
                None => vstd::pervasive::unreached(),
            };
            proof {
                assert(bdev@ == l[bi as int].1->0);
                assert(rdev@ == l[ri as int].1->0);
            }
            let digits = find_trailing_digits(bdev.as_str());
            let lts = match self.kernel {
                Kernel::Lts => true,
                Kernel::Latest => false,
            };
            let mut cmd = String::from_str("efibootmgr --disk ");
            cmd.append(pd[bi].0.disk.as_str());
            cmd.append(" --part ");
            cmd.append(digits.as_str());
            cmd.append(" --create --label \"Arch Linux");
            if lts {
                cmd.append(" LTS");
            }
            cmd.append("\" --loader /vmlinuz-linux");
            if lts {
                cmd.append("-lts");
            }
            cmd.append(" --unicode 'root=");
            cmd.append(rdev.as_str());
            cmd.append(" rw initrd=\\initramfs-linux");
            if lts {
                cmd.append("-lts");
            }
            cmd.append(".img' --verbose");
            proof {
                assert(pd@[bi as int].0@.disk == l[bi as int].0.disk);
                assert(cmd@ =~= spec_efistub_cmd(
                    self.kernel,
                    l[bi as int].0.disk,
                    trailing_digits_of(l[bi as int].1->0),
                    l[ri as int].1->0,
                ));
            }
            let mut v: Vec<String> = Vec::new();
            v.push(cmd);
            proof {
                assert(v.deep_view() =~= seq![
                    spec_efistub_cmd(
                        self.kernel,
                        l[bi as int].0.disk,
                        trailing_digits_of(l[bi as int].1->0),
                        l[ri as int].1->0,
                    ),
                ]);
            }
            Ok(v)
        } else {
            Err(ConfigError::UnknownBootloader)
        }
    }

    /// The command that creates `/etc/hosts` with the local hostname.
    pub fn local_hostname_cmd(&self) -> (r: String)
        ensures
            r@ == spec_local_hostname_cmd(self@.hostname),
    {
        let mut lines: Vec<String> = Vec::new();
        lines.push(String::from_str("127.0.0.1\tlocalhost"));
        lines.push(String::from_str("::1\tlocalhost"));
        let mut hl = String::from_str("127.0.1.1\t");
        hl.append(self.hostname.as_str());
        lines.push(hl);
        proof {
            assert(lines.deep_view() =~= seq![
                "127.0.0.1\tlocalhost"@,
                "::1\tlocalhost"@,
                "127.0.1.1\t"@ + self@.hostname,
            ]);
        }
        let joined = join_strings(&lines, "\n");
        let mut r = String::from_str("cat <<END_ETC_HOSTS >/etc/hosts\n");
        r.append(joined.as_str());
        r.append("\nEND_ETC_HOSTS");
        proof {
            assert(r@ =~= spec_local_hostname_cmd(self@.hostname));
        }
        r
    }

    /// The commands that enable the network manager on the target system.
    pub fn configure_networkmanager() -> (r: Vec<String>)
        ensures
            r.deep_view() == spec_networkmanager_cmds(),
    {
        let mut r: Vec<String> = Vec::new();
        r.push(String::from_str("systemctl enable --now systemd-resolved"));
        r.push(String::from_str("systemctl enable NetworkManager.service"));
        proof {
            assert(r.deep_view() =~= spec_networkmanager_cmds());
        }
        r
    }

    /// The locale activation commands: the sed invocation that uncomments
    /// every requested locale, and the command that makes the first locale
    /// the default system language.
    pub fn locales_cmd(&self) -> (r: Vec<String>)
        requires
            self@.locales.len() > 0,
        ensures
            r.deep_view() == spec_locales_cmd(self@.locales),
    {
        let ghost lv = self.locales.deep_view();
        let mut fst: Vec<String> = Vec::new();
        fst.push(String::from_str("sed "));
        let mut i: usize = 0;
        proof {
            assert(fst.deep_view() =~= seq!["sed "@] + Seq::new(
                0,
                |k: int| "    --expression 's/^#"@ + lv[k] + "$/"@ + lv[k] + "/' "@,
            ));
        }
        while i < self.locales.len()
            invariant
                i <= self.locales@.len(),
                lv == self.locales.deep_view(),
                lv.len() == self.locales@.len(),
                fst.deep_view() == seq!["sed "@] + Seq::new(
                    i as nat,
                    |k: int| "    --expression 's/^#"@ + lv[k] + "$/"@ + lv[k] + "/' "@,
                ),
            decreases self.locales@.len() - i,
        {
            let l = &self.locales[i];
            let mut e = String::from_str("    --expression 's/^#");
            e.append(l.as_str());
            e.append("$/");
            e.append(l.as_str());
            e.append("/' ");
            proof {
                assert(e@ == "    --expression 's/^#"@ + lv[i as int] + "$/"@ + lv[i as int]
                    + "/' "@);
            }
            let ghost ev = e@;
            let ghost fold = fst.deep_view();
            fst.push(e);
            proof {
                assert(fst.deep_view() =~= fold.push(ev));
                assert(fst.deep_view() =~= seq!["sed "@] + Seq::new(
                    (i + 1) as nat,
                    |k: int| "    --expression 's/^#"@ + lv[k] + "$/"@ + lv[k] + "/' "@,
                ));
            }
            i = i + 1;
        }
        fst.push(String::from_str("    --in-place /etc/locale.gen"));
        proof {
            assert(fst.deep_view() =~= spec_sed_parts(lv));
        }
        let joined = join_strings(&fst, "\\\n");
        let mut lang = String::from_str("echo 'LANG=");
        lang.append(self.locales[0].as_str());
        lang.append("' >/etc/locale.conf");
        let mut r: Vec<String> = Vec::new();
        r.push(joined);
        r.push(lang);
        proof {
            assert(r.deep_view() =~= spec_locales_cmd(lv));
        }
        r
    }

    /// The packages installed onto the new system with pacstrap.
    pub fn packages(&self) -> (r: Vec<String>)
        ensures
            r.deep_view() == spec_packages(self@),
    {
        let mut r: Vec<String> = Vec::new();
        r.push(String::from_str("base"));
        r.push(
            match self.kernel {
                Kernel::Latest => String::from_str("linux"),
                Kernel::Lts => String::from_str("linux-lts"),
            },
        );
        r.push(String::from_str("linux-firmware"));
        r.push(self.extra.clone());
        if !str_eq(self.bootloader.as_str(), "efistub") {
            r.push(self.bootloader.clone());
        } else {
            r.push(String::new());
        }
        r.push(String::from_str("efibootmgr"));
        r.push(String::from_str("networkmanager"));
        proof {
            assert(r.deep_view() =~= spec_packages(self@));
        }
        r
    }

    /// The script that runs inside the chroot session to configure the
    /// installed system, or the fatal bootloader error. Its phases run in
    /// this order: timezone, locales, hostname, network manager, root
    /// password (repeated until it succeeds), bootloader, exit.
    pub fn chroot_script(&self) -> (r: Result<String, ConfigError>)
        requires
            self@.wf(),
            self.partitions.deep_view().len() <= u32::MAX,
        ensures
            match r {
                Ok(s) => spec_bootloader_result(self@) matches Ok(bc) && s@ == spec_chroot_script(
                    self@,
                    bc,
                ),
                Err(e) => spec_bootloader_result(self@) matches Err(e2) && e2 == e,
            },
    {
        let bootcmds = match self.install_bootloader() {
            Ok(v) => v,
            Err(e) => {
                return Err(e);
            },
        };
        let mut pieces: Vec<String> = Vec::new();
        pieces.push(
            String::from_str("#!/bin/sh\n# arch-chroot script automatically generated by jimmy-rs"),
        );
        let mut tz = String::from_str("ln -sf /usr/share/zoneinfo/");
        tz.append(self.region.as_str());
        tz.append("/");
        tz.append(self.city.as_str());
        tz.append(" /etc/localtime\nhwclock --systohc");
        let p_tz = echo_status("<chroot> setting timezone...", tz.as_str());
        pieces.push(p_tz);
        let lc = self.locales_cmd();
        let mut lcs = join_strings(&lc, "\n");
        lcs.append("\n");
        lcs.append("locale-gen");
        let p_lc = echo_status("<chroot> configuring locales on target system...", lcs.as_str());
        pieces.push(p_lc);
        let mut hn = String::from_str("echo '");
        hn.append(self.hostname.as_str());
        hn.append("' >/etc/hostname");
        hn.append("\n");
        let lh = self.local_hostname_cmd();
        hn.append(lh.as_str());
        let p_hn = echo_status("<chroot> setting hostname...", hn.as_str());
        pieces.push(p_hn);
        let nm = InstallOptions::configure_networkmanager();
        let nmj = join_strings(&nm, "\n");
        let p_nm = echo_status("<chroot> configuring networkmanager...", nmj.as_str());
        pieces.push(p_nm);
        let p_pw = echo_status(
            "<chroot> set password for root user (repeats until success):",
            "while true; do if passwd; then break; fi; done",
        );
        pieces.push(p_pw);
        let bj = join_strings(&bootcmds, "\n");
        let p_bl = echo_status("<chroot> setting up bootloader...", bj.as_str());
        pieces.push(p_bl);
        let p_ex = echo_status("<chroot> exiting...", "exit");
        pieces.push(p_ex);
        let ghost bc = spec_bootloader_result(self@)->Ok_0;
        proof {
            assert(pieces.deep_view() =~= spec_chroot_pieces(self@, bc));
        }
        let mut out = join_strings(&pieces, "\n\n");
        out.append("\n");
        proof {
            assert(out@ =~= spec_chroot_script(self@, bc));
        }
        Ok(out)
    }

    /// The complete installation script, or the first fatal error met while
    /// generating it. The script synchronizes the clock, partitions each
    /// disk, formats and mounts the partitions (the root mount first),
    /// installs the packages, writes the filesystem table, then embeds the
    /// chroot-stage script, runs it inside the new root, and cleans up.
    pub fn generate_shellscript(&self) -> (r: Result<String, ConfigError>)
        requires
            self@.wf(),
            self.partitions.deep_view().len() <= u32::MAX,
        ensures
            match r {
                Ok(s) => spec_generate(self@) matches Ok(t) && s@ == t,
                Err(e) => spec_generate(self@) matches Err(e2) && e2 == e,
            },
    {
        let ghost pv = self.partitions.deep_view();
        let chroot = match self.chroot_script() {
            Ok(s) => s,
            Err(e) => {
                return Err(e);
            },
        };
        let mut pieces: Vec<String> = Vec::new();
        pieces.push(
            String::from_str("#!/bin/sh\n# arch-chroot script automatically generated by jimmy-rs"),
        );
        let p_time = echo_status(
            "<-> synchronizing time with the internet...",
            "timedatectl set-ntp true",
        );
        pieces.push(p_time);
        let fd = self.fdisk_cmds();
        let fdj = join_strings(&fd, "\n");
        let p_fd = echo_status("<-> creating partitions using fdisk...", fdj.as_str());
        pieces.push(p_fd);
        let mk_pairs = self.map_partitions(PartOp::Mkfs);
        proof {
            lemma_map_snd_views(mk_pairs@, mk_pairs.deep_view());
        }
        let mk = map_snd(mk_pairs);
        let mkj = join_strings(&mk, "\n");
        proof {
            assert(mk.deep_view() =~= views_of(mk@));
        }
        let p_mk = echo_status("<-> formatting partitions...", mkj.as_str());
        pieces.push(p_mk);
        let mut ms = self.map_partitions(PartOp::Mount);
        let ghost ml = spec_map_partitions(pv, PartOp::Mount);
        proof {
            lemma_map_partitions_len(pv, PartOp::Mount);
            lemma_first_root_idx(ml);
        }
        let mut ri = find_first_root(&ms);
        if ri >= ms.len() {
            ri = 0;
        }
        swap_front(&mut ms, ri);
        proof {
            assert(ms.deep_view() =~= spec_mount_list(pv));
            lemma_map_snd_views(ms@, ms.deep_view());
        }
        let mo = map_snd(ms);
        let moj = join_strings(&mo, "\n");
        proof {
            assert(mo.deep_view() =~= views_of(mo@));
            assert(mo.deep_view() == spec_snds(spec_mount_list(pv)));
        }
        let p_mo = echo_status("<-> mounting partitions...", moj.as_str());
        pieces.push(p_mo);
        let pk = self.packages();
        let pkj = join_strings(&pk, " ");
        let mut pac = String::from_str("pacstrap /mnt ");
        pac.append(pkj.as_str());
        pieces.push(pac);
        let p_fs = echo_status(
            "<-> generating the filesystem table...",
            "genfstab -U /mnt >> /mnt/etc/fstab",
        );
        pieces.push(p_fs);
        let mut cc = String::from_str("cat <<END_OF_SECOND_SCRIPT > /mnt/jimmy_part2.sh");
        cc.append("\n");
        cc.append(chroot.as_str());
        cc.append("END_OF_SECOND_SCRIPT");
        cc.append("\n");
        cc.append("chmod +x /mnt/jimmy_part2.sh");
        let p_cc = echo_status("<-> creating the arch-chroot script...", cc.as_str());
        pieces.push(p_cc);
        let p_run = echo_status("<-> running arch-chroot script...", "arch-chroot /mnt ./jimmy_part2.sh");
        pieces.push(p_run);
        let p_rm = echo_status("<-> cleanup: removing arch-chroot script...", "rm -f /mnt/jimmy_part2.sh");
        pieces.push(p_rm);
        let p_um = echo_status(
            "<-> cleanup: unmounting all filesystems on /mnt...",
            "umount -R /mnt",
        );
        pieces.push(p_um);
        pieces.push(String::from_str("echo -e '\\n<-> done; you may reboot now"));
        let ghost bc = spec_bootloader_result(self@)->Ok_0;
        proof {
            assert(pieces.deep_view() =~= spec_script_pieces(self@, bc));
        }
        let mut out = join_strings(&pieces, "\n\n");
        out.append("\n");
        proof {
            assert(out@ =~= spec_shellscript(self@, bc));
        }
        Ok(out)
    }
}

/// The pieces of the chroot-stage script, in phase order.
pub open spec fn spec_chroot_pieces(o: InstallOptionsV, bootcmds: Seq<Seq<char>>) -> Seq<
    Seq<char>,
> {
    seq![
        "#!/bin/sh\n# arch-chroot script automatically generated by jimmy-rs"@,
        spec_echo_status(
            "<chroot> setting timezone..."@,
            "ln -sf /usr/share/zoneinfo/"@ + o.region + "/"@ + o.city
                + " /etc/localtime\nhwclock --systohc"@,
        ),
        spec_echo_status(
            "<chroot> configuring locales on target system..."@,
            spec_join(spec_locales_cmd(o.locales), "\n"@) + "\n"@ + "locale-gen"@,
        ),
        spec_echo_status(
            "<chroot> setting hostname..."@,
            "echo '"@ + o.hostname + "' >/etc/hostname"@ + "\n"@ + spec_local_hostname_cmd(
                o.hostname,
            ),
        ),
        spec_echo_status(
            "<chroot> configuring networkmanager..."@,
            spec_join(spec_networkmanager_cmds(), "\n"@),
        ),
        spec_echo_status(
            "<chroot> set password for root user (repeats until success):"@,
            "while true; do if passwd; then break; fi; done"@,
        ),
        spec_echo_status("<chroot> setting up bootloader..."@, spec_join(bootcmds, "\n"@)),
        spec_echo_status("<chroot> exiting..."@, "exit"@),
    ]
}

/// The chroot-stage script: its pieces joined by blank lines, with a final
/// newline.
pub open spec fn spec_chroot_script(o: InstallOptionsV, bootcmds: Seq<Seq<char>>) -> Seq<char> {
    spec_join(spec_chroot_pieces(o, bootcmds), "\n\n"@) + "\n"@
}

/// The pieces of the host-side script, in phase order.
pub open spec fn spec_script_pieces(o: InstallOptionsV, bootcmds: Seq<Seq<char>>) -> Seq<
    Seq<char>,
> {
    seq![
        "#!/bin/sh\n# arch-chroot script automatically generated by jimmy-rs"@,
        spec_echo_status("<-> synchronizing time with the internet..."@, "timedatectl set-ntp true"@),
        spec_echo_status(
            "<-> creating partitions using fdisk..."@,
            spec_join(spec_fdisk_cmds(o.partitions), "\n"@),
        ),
        spec_echo_status(
            "<-> formatting partitions..."@,
            spec_join(spec_snds(spec_map_partitions(o.partitions, PartOp::Mkfs)), "\n"@),
        ),
        spec_echo_status(
            "<-> mounting partitions..."@,
            spec_join(spec_snds(spec_mount_list(o.partitions)), "\n"@),
        ),
        "pacstrap /mnt "@ + spec_join(spec_packages(o), " "@),
        spec_echo_status(
            "<-> generating the filesystem table..."@,
            "genfstab -U /mnt >> /mnt/etc/fstab"@,
        ),
        spec_echo_status(
            "<-> creating the arch-chroot script..."@,
            "cat <<END_OF_SECOND_SCRIPT > /mnt/jimmy_part2.sh"@ + "\n"@ + spec_chroot_script(
                o,
                bootcmds,
            ) + "END_OF_SECOND_SCRIPT"@ + "\n"@ + "chmod +x /mnt/jimmy_part2.sh"@,
        ),
        spec_echo_status("<-> running arch-chroot script..."@, "arch-chroot /mnt ./jimmy_part2.sh"@),
        spec_echo_status("<-> cleanup: removing arch-chroot script..."@, "rm -f /mnt/jimmy_part2.sh"@),
        spec_echo_status("<-> cleanup: unmounting all filesystems on /mnt..."@, "umount -R /mnt"@),
        "echo -e '\\n<-> done; you may reboot now"@,
    ]
}

/// The host-side script: its pieces joined by blank lines, with a final
/// newline.
pub open spec fn spec_shellscript(o: InstallOptionsV, bootcmds: Seq<Seq<char>>) -> Seq<char> {
    spec_join(spec_script_pieces(o, bootcmds), "\n\n"@) + "\n"@
}

/// The whole generation: the script text, or the first fatal error.
pub open spec fn spec_generate(o: InstallOptionsV) -> Result<Seq<char>, ConfigError> {
    match spec_bootloader_result(o) {
        Ok(bc) => Ok(spec_shellscript(o, bc)),
        Err(e) => Err(e),
    }
}

impl User {
    /// The command that creates this user, with its supplementary groups
    /// when it has any.
    pub fn to_command(&self) -> (r: String)
        ensures
            r@ == "useradd -m "@ + self@.name + (if self@.groups.len() == 0 {
                Seq::<char>::empty()
            } else {
                " -G "@ + spec_join(self@.groups, ","@)
            }),
    {
        let mut r = String::from_str("useradd -m ");
        r.append(self.name.as_str());
        if self.groups.len() > 0 {
            r.append(" -G ");
            let g = join_strings(&self.groups, ",");
            r.append(g.as_str());
        }
        proof {
            assert(r@ =~= "useradd -m "@ + self@.name + (if self@.groups.len() == 0 {
                Seq::<char>::empty()
            } else {
                " -G "@ + spec_join(self@.groups, ","@)
            }));
        }
        r
    }
}

} // verus!
