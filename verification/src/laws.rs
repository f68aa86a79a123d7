//! Laws of the plan compiler, stated and proved over the same spec
//! functions that the executable functions' contracts use.

use crate::data::{canonical_locale, spec_validate, spec_validate_partition,
    spec_validate_partitions, ConfigError, InstallOptionsV, ParsedInstallOptionsV,
    ParsedPartitionV, PartitionV, Warning};
use crate::install::{first_boot_idx, first_root_idx, lemma_first_boot_idx, lemma_first_root_idx,
    lemma_map_partitions_len, lemma_unique_disks_props, spec_apply_op, spec_bootloader_result,
    spec_device_path, spec_efistub_cmd, spec_enumerate_ops, spec_is_boot, spec_locales_cmd,
    spec_map_disks, spec_map_partitions, spec_mount_cmd, spec_mount_list, spec_on_disk, spec_snds,
    spec_unique_disks, PartOp};
use crate::pattern::{nvme_disk_match, trailing_digits_of};
use crate::text::spec_decimal;
use vstd::prelude::*;

verus! {

/// Positions in the original partition list of the partitions on one disk,
/// in ascending order.
pub open spec fn disk_indices(ps: Seq<PartitionV>, d: Seq<char>) -> Seq<int>
    decreases ps.len(),
{
    if ps.len() == 0 {
        Seq::<int>::empty()
    } else if ps.last().disk == d {
        disk_indices(ps.drop_last(), d).push(ps.len() - 1)
    } else {
        disk_indices(ps.drop_last(), d)
    }
}

/// Law: on one disk, resolved partition numbers are a contiguous sequence
/// starting at 1, assigned in original list order. The group of a disk holds
/// exactly the partitions that name it, in the order they stand in the
/// configuration (the positions `disk_indices` are strictly ascending), and
/// the entry at position `i` is numbered `i + 1`: its resolved device path
/// ends in that number.
pub proof fn lemma_partition_numbering(ps: Seq<PartitionV>, d: Seq<char>)
    ensures
        ({
            let group = spec_on_disk(ps, d);
            let idxs = disk_indices(ps, d);
            &&& idxs.len() == group.len()
            &&& forall|i: int| 0 <= i < idxs.len() ==> 0 <= #[trigger] idxs[i] < ps.len()
            &&& forall|i: int| 0 <= i < idxs.len() ==> ps[#[trigger] idxs[i]] == group[i]
            &&& forall|i: int, j: int| 0 <= i < j < idxs.len() ==> idxs[i] < idxs[j]
            &&& forall|i: int|
                0 <= i < group.len() ==> (#[trigger] spec_enumerate_ops(group, PartOp::DevPath)[i]).1
                    == Some(spec_device_path(group[i].disk, (i + 1) as nat))
        }),
    decreases ps.len(),
{
    reveal(Seq::filter);
    let group = spec_on_disk(ps, d);
    let idxs = disk_indices(ps, d);
    if ps.len() > 0 {
        lemma_partition_numbering(ps.drop_last(), d);
        let pg = spec_on_disk(ps.drop_last(), d);
        let pi = disk_indices(ps.drop_last(), d);
        if ps.last().disk == d {
            assert(group =~= pg.push(ps.last()));
            assert(idxs =~= pi.push(ps.len() - 1));
            assert forall|i: int| 0 <= i < idxs.len() implies ps[#[trigger] idxs[i]]
                == group[i] by {
                if i < idxs.len() - 1 {
                    assert(ps.drop_last()[pi[i]] == pg[i]);
                }
            }
        } else {
            assert(group =~= pg);
            assert(idxs =~= pi);
            assert forall|i: int| 0 <= i < idxs.len() implies ps[#[trigger] idxs[i]]
                == group[i] by {
                assert(ps.drop_last()[pi[i]] == pg[i]);
            }
        }
    }
}

/// Some partition of the list stands in its disk's group.
pub proof fn lemma_on_disk_contains(ps: Seq<PartitionV>, k: int)
    requires
        0 <= k < ps.len(),
    ensures
        exists|j: int|
            0 <= j < spec_on_disk(ps, ps[k].disk).len() && #[trigger] spec_on_disk(
                ps,
                ps[k].disk,
            )[j] == ps[k],
    decreases ps.len(),
{
    reveal(Seq::filter);
    if k == ps.len() - 1 {
        let g = spec_on_disk(ps, ps[k].disk);
        assert(g.last() == ps[k]);
        assert(g[g.len() - 1] == ps[k]);
    } else {
        lemma_on_disk_contains(ps.drop_last(), k);
        let d = ps[k].disk;
        assert(ps.drop_last()[k] == ps[k]);
        let j = choose|j: int|
            0 <= j < spec_on_disk(ps.drop_last(), d).len() && spec_on_disk(ps.drop_last(), d)[j]
                == ps[k];
        if ps.last().disk == d {
            assert(spec_on_disk(ps, d)[j] == ps[k]);
        } else {
            assert(spec_on_disk(ps, d)[j] == ps[k]);
        }
    }
}

/// Every member of a disk's group reaches the resolved list, with its
/// position in the group as its index.
pub proof fn lemma_map_disks_covers(
    ps: Seq<PartitionV>,
    disks: Seq<Seq<char>>,
    op: PartOp,
    d: Seq<char>,
    k: int,
)
    requires
        disks.contains(d),
        0 <= k < spec_on_disk(ps, d).len(),
    ensures
        exists|i: int|
            0 <= i < spec_map_disks(ps, disks, op).len() && #[trigger] spec_map_disks(
                ps,
                disks,
                op,
            )[i] == (spec_on_disk(ps, d)[k], spec_apply_op(op, spec_on_disk(ps, d)[k], k as nat)),
    decreases disks.len(),
{
    let l = spec_map_disks(ps, disks, op);
    if disks.last() == d {
        let i = spec_map_disks(ps, disks.drop_last(), op).len() + k;
        assert(l[i as int] == (spec_on_disk(ps, d)[k], spec_apply_op(
            op,
            spec_on_disk(ps, d)[k],
            k as nat,
        )));
    } else {
        let j = choose|j: int| 0 <= j < disks.len() && disks[j] == d;
        assert(disks.drop_last()[j] == d);
        assert(disks.drop_last().contains(d));
        lemma_map_disks_covers(ps, disks.drop_last(), op, d, k);
        let i = choose|i: int|
            0 <= i < spec_map_disks(ps, disks.drop_last(), op).len() && spec_map_disks(
                ps,
                disks.drop_last(),
                op,
            )[i] == (spec_on_disk(ps, d)[k], spec_apply_op(op, spec_on_disk(ps, d)[k], k as nat));
        assert(l[i] == (spec_on_disk(ps, d)[k], spec_apply_op(op, spec_on_disk(ps, d)[k], k as nat)));
    }
}

/// Whether a resolved entry's partition is one of the plan's partitions.
pub open spec fn entry_of_plan(ps: Seq<PartitionV>, e: (PartitionV, Option<Seq<char>>)) -> bool {
    exists|k: int| 0 <= k < ps.len() && e.0 == #[trigger] ps[k]
}

/// Every entry of the resolved list is a partition of the plan.
pub proof fn lemma_map_disks_entries_from(ps: Seq<PartitionV>, disks: Seq<Seq<char>>, op: PartOp)
    ensures
        forall|i: int|
            0 <= i < spec_map_disks(ps, disks, op).len() ==> entry_of_plan(
                ps,
                #[trigger] spec_map_disks(ps, disks, op)[i],
            ),
    decreases disks.len(),
{
    if disks.len() > 0 {
        lemma_map_disks_entries_from(ps, disks.drop_last(), op);
        let prefix = spec_map_disks(ps, disks.drop_last(), op);
        let g = spec_on_disk(ps, disks.last());
        assert forall|i: int|
            0 <= i < spec_map_disks(ps, disks, op).len() implies entry_of_plan(
            ps,
            #[trigger] spec_map_disks(ps, disks, op)[i],
        ) by {
            if i < prefix.len() {
                assert(spec_map_disks(ps, disks, op)[i] == prefix[i]);
                assert(entry_of_plan(ps, prefix[i]));
            } else {
                let j = i - prefix.len();
                assert(spec_map_disks(ps, disks, op)[i].0 == g[j]);
                lemma_on_disk_member(ps, disks.last(), j);
                let k = choose|k: int| 0 <= k < ps.len() && #[trigger] ps[k] == g[j];
                assert(spec_map_disks(ps, disks, op)[i].0 == ps[k]);
                assert(entry_of_plan(ps, spec_map_disks(ps, disks, op)[i]));
            }
        }
    }
}

/// A member of a disk's group is a partition of the plan.
pub proof fn lemma_on_disk_member(ps: Seq<PartitionV>, d: Seq<char>, j: int)
    requires
        0 <= j < spec_on_disk(ps, d).len(),
    ensures
        exists|k: int| 0 <= k < ps.len() && #[trigger] ps[k] == spec_on_disk(ps, d)[j],
    decreases ps.len(),
{
    reveal(Seq::filter);
    if ps.len() > 0 {
        let g = spec_on_disk(ps, d);
        let pg = spec_on_disk(ps.drop_last(), d);
        if ps.last().disk == d && j == g.len() - 1 {
            assert(ps[ps.len() - 1] == g[j]);
        } else {
            lemma_on_disk_member(ps.drop_last(), d, j);
            let k = choose|k: int| 0 <= k < ps.drop_last().len() && ps.drop_last()[k] == pg[j];
            assert(ps[k] == g[j]);
        }
    }
}

/// A plan partition mounted at the root makes the resolved list hold a
/// root entry, whatever the operation.
pub proof fn lemma_root_reachable(ps: Seq<PartitionV>, k: int, op: PartOp)
    requires
        0 <= k < ps.len(),
        ps[k].mount == "/"@,
    ensures
        first_root_idx(spec_map_partitions(ps, op)) >= 0,
{
    let d = ps[k].disk;
    lemma_unique_disks_props(ps);
    assert(spec_unique_disks(ps).contains(d));
    lemma_on_disk_contains(ps, k);
    let j = choose|j: int|
        0 <= j < spec_on_disk(ps, d).len() && #[trigger] spec_on_disk(ps, d)[j] == ps[k];
    lemma_map_disks_covers(ps, spec_unique_disks(ps), op, d, j);
    let l = spec_map_partitions(ps, op);
    lemma_first_root_idx(l);
    if first_root_idx(l) == -1 {
        let i = choose|i: int|
            0 <= i < l.len() && #[trigger] l[i] == (spec_on_disk(ps, d)[j], spec_apply_op(
                op,
                spec_on_disk(ps, d)[j],
                j as nat,
            ));
        assert(l[i].0.mount == "/"@);
    }
}

/// A plan partition mounted at `/boot` or `/efi` makes the resolved list
/// hold a boot entry.
pub proof fn lemma_boot_reachable(ps: Seq<PartitionV>, k: int)
    requires
        0 <= k < ps.len(),
        spec_is_boot(ps[k]),
    ensures
        first_boot_idx(spec_map_partitions(ps, PartOp::DevPath)) >= 0,
{
    let d = ps[k].disk;
    lemma_unique_disks_props(ps);
    assert(spec_unique_disks(ps).contains(d));
    lemma_on_disk_contains(ps, k);
    let j = choose|j: int|
        0 <= j < spec_on_disk(ps, d).len() && #[trigger] spec_on_disk(ps, d)[j] == ps[k];
    lemma_map_disks_covers(ps, spec_unique_disks(ps), PartOp::DevPath, d, j);
    let l = spec_map_partitions(ps, PartOp::DevPath);
    lemma_first_boot_idx(l);
    if first_boot_idx(l) == -1 {
        let i = choose|i: int|
            0 <= i < l.len() && #[trigger] l[i] == (spec_on_disk(ps, d)[j], spec_apply_op(
                PartOp::DevPath,
                spec_on_disk(ps, d)[j],
                j as nat,
            ));
        assert(spec_is_boot(l[i].0));
    }
}

/// A resolved mount entry for a root-mounted partition always carries a
/// fragment.
pub proof fn lemma_mount_root_some(ps: Seq<PartitionV>, disks: Seq<Seq<char>>)
    ensures
        forall|i: int|
            0 <= i < spec_map_disks(ps, disks, PartOp::Mount).len() && (#[trigger] spec_map_disks(
                ps,
                disks,
                PartOp::Mount,
            )[i]).0.mount == "/"@ ==> spec_map_disks(ps, disks, PartOp::Mount)[i].1 is Some,
    decreases disks.len(),
{
    reveal_strlit("/");
    if disks.len() > 0 {
        lemma_mount_root_some(ps, disks.drop_last());
        let l = spec_map_disks(ps, disks, PartOp::Mount);
        let prefix = spec_map_disks(ps, disks.drop_last(), PartOp::Mount);
        let g = spec_on_disk(ps, disks.last());
        assert forall|i: int|
            0 <= i < l.len() && (#[trigger] l[i]).0.mount == "/"@ implies l[i].1 is Some by {
            if i < prefix.len() {
                assert(l[i] == prefix[i]);
            } else {
                let j = i - prefix.len();
                assert(l[i] == (g[j], spec_mount_cmd(g[j], j as nat)));
                assert("/"@.len() == 1);
            }
        }
    }
}

/// The first present fragment of a list whose first entry carries one.
pub proof fn lemma_snds_first(l: Seq<(PartitionV, Option<Seq<char>>)>)
    requires
        l.len() > 0,
        l[0].1 is Some,
    ensures
        spec_snds(l).len() > 0,
        spec_snds(l)[0] == l[0].1->0,
    decreases l.len(),
{
    if l.len() == 1 {
        reveal_with_fuel(spec_snds, 2);
        assert(spec_snds(l) =~= spec_snds(l.drop_last()).push(l[0].1->0));
        assert(l.drop_last().len() == 0);
    } else {
        assert(l.drop_last()[0] == l[0]);
        lemma_snds_first(l.drop_last());
    }
}

/// Law: the root mount fragment always appears before any other mount
/// fragment in the assembled mount section, regardless of its position in
/// the configuration. Whenever some partition is mounted at `/`, the first
/// entry of the assembled mount list is mounted at `/`, it carries a
/// fragment, and that fragment opens the mount section.
pub proof fn lemma_root_mount_first(ps: Seq<PartitionV>, k: int)
    requires
        0 <= k < ps.len(),
        ps[k].mount == "/"@,
    ensures
        spec_mount_list(ps).len() == ps.len(),
        spec_mount_list(ps)[0].0.mount == "/"@,
        spec_mount_list(ps)[0].1 is Some,
        spec_snds(spec_mount_list(ps)).len() > 0,
        spec_snds(spec_mount_list(ps))[0] == spec_mount_list(ps)[0].1->0,
{
    lemma_map_partitions_len(ps, PartOp::Mount);
    lemma_root_reachable(ps, k, PartOp::Mount);
    let l = spec_map_partitions(ps, PartOp::Mount);
    lemma_first_root_idx(l);
    lemma_mount_root_some(ps, spec_unique_disks(ps));
    let ri = first_root_idx(l);
    let sw = spec_mount_list(ps);
    assert(sw[0] == l[ri]);
    lemma_snds_first(sw);
}

/// Law: resolved device paths insert the separator exactly for disks that
/// match the controller-namespace naming pattern.
pub proof fn lemma_device_path_separator(disk: Seq<char>, number: nat)
    ensures
        nvme_disk_match(disk) ==> spec_device_path(disk, number) == disk + "p"@ + spec_decimal(
            number,
        ),
        !nvme_disk_match(disk) ==> spec_device_path(disk, number) == disk + spec_decimal(number),
{
    if nvme_disk_match(disk) {
        assert(spec_device_path(disk, number) =~= disk + "p"@ + spec_decimal(number));
    } else {
        assert(spec_device_path(disk, number) =~= disk + spec_decimal(number));
    }
}

/// The warnings of partition validation concern formats and mounts only.
pub proof fn lemma_partition_warning_kinds(ps: Seq<ParsedPartitionV>)
    ensures
        forall|i: int|
            0 <= i < spec_validate_partitions(ps).0.len() ==> #[trigger] spec_validate_partitions(
                ps,
            ).0[i] != Warning::LocalesDefaulted,
    decreases ps.len(),
{
    if ps.len() > 0 {
        lemma_partition_warning_kinds(ps.drop_last());
    }
}

/// Law: an empty or absent locales list yields exactly one canonical
/// default locale and a warning; a non-empty list is passed through
/// unchanged, no such warning is emitted, and its first element becomes the
/// default system language (the second locale activation command sets it).
pub proof fn lemma_locales_defaulting(raw: ParsedInstallOptionsV, zoneinfo_ok: bool)
    ensures
        ({
            let v = spec_validate(raw, zoneinfo_ok);
            &&& (raw.locales is None || raw.locales->0.len() == 0) ==> v.0.contains(
                Warning::LocalesDefaulted,
            ) && (v.1 matches Ok(o) ==> o.locales == seq![canonical_locale()])
            &&& (raw.locales is Some && raw.locales->0.len() > 0) ==> !v.0.contains(
                Warning::LocalesDefaulted,
            ) && (v.1 matches Ok(o) ==> o.locales == raw.locales->0)
            &&& (v.1 matches Ok(o) ==> o.locales.len() > 0 && spec_locales_cmd(o.locales)[1]
                == "echo 'LANG="@ + o.locales[0] + "' >/etc/locale.conf"@)
        }),
{
    let v = spec_validate(raw, zoneinfo_ok);
    let defaulted = raw.locales is None || raw.locales->0.len() == 0;
    if defaulted {
        assert(v.0[0] == Warning::LocalesDefaulted);
        assert(v.0.contains(Warning::LocalesDefaulted));
    } else {
        if v.0.contains(Warning::LocalesDefaulted) {
            let i = choose|i: int| 0 <= i < v.0.len() && v.0[i] == Warning::LocalesDefaulted;
            if raw.partitions is Some && raw.partitions->0.len() > 0 {
                lemma_partition_warning_kinds(raw.partitions->0);
                let ws = Seq::<Warning>::empty();
                assert(v.0 == ws + spec_validate_partitions(raw.partitions->0).0 || v.0 == ws);
                assert(spec_validate_partitions(raw.partitions->0).0[i] != Warning::LocalesDefaulted);
            }
        }
    }
}

/// Once some partition has a bad mount path, partition validation fails.
pub proof fn lemma_validate_partitions_bad_mount(ps: Seq<ParsedPartitionV>, k: int)
    requires
        0 <= k < ps.len(),
        ps[k].mount is Some,
        ps[k].mount->0.len() > 0,
        ps[k].mount->0[0] != '/',
    ensures
        spec_validate_partitions(ps).1 is Err,
    decreases ps.len(),
{
    if k == ps.len() - 1 {
        assert(spec_validate_partition(ps.last()).1 is Err);
    } else {
        assert(ps.drop_last()[k] == ps[k]);
        lemma_validate_partitions_bad_mount(ps.drop_last(), k);
    }
}

/// Law: a partition whose `mount` is a non-empty, non-absolute string
/// always aborts generation with a fatal error, never a warning: whatever
/// the rest of the configuration holds, validation returns an error.
pub proof fn lemma_relative_mount_fatal(raw: ParsedInstallOptionsV, zoneinfo_ok: bool, k: int)
    requires
        raw.partitions is Some,
        0 <= k < raw.partitions->0.len(),
        raw.partitions->0[k].mount is Some,
        raw.partitions->0[k].mount->0.len() > 0,
        raw.partitions->0[k].mount->0[0] != '/',
    ensures
        spec_validate(raw, zoneinfo_ok).1 is Err,
{
    if zoneinfo_ok && raw.hostname is Some && raw.bootloader is Some && raw.partitions->0.len()
        > 0 {
        lemma_validate_partitions_bad_mount(raw.partitions->0, k);
    }
}

/// Law: with the EFI-stub bootloader, a plan without a partition mounted at
/// `/boot` or `/efi`, or without one mounted at `/`, aborts generation; with
/// both present, the single boot-entry command embeds the boot partition's
/// disk, the digits that end its device path, the kernel-variant suffixes
/// and the root partition's device path.
pub proof fn lemma_efistub(o: InstallOptionsV)
    requires
        o.bootloader == "efistub"@,
    ensures
        ({
            let l = spec_map_partitions(o.partitions, PartOp::DevPath);
            &&& (forall|k: int|
                0 <= k < o.partitions.len() ==> !spec_is_boot(#[trigger] o.partitions[k]))
                ==> spec_bootloader_result(o) == Err::<Seq<Seq<char>>, ConfigError>(
                ConfigError::MissingBootPartition,
            )
            &&& ((exists|k: int| 0 <= k < o.partitions.len() && spec_is_boot(#[trigger] o.partitions[k]))
                && (forall|k: int|
                0 <= k < o.partitions.len() ==> (#[trigger] o.partitions[k]).mount != "/"@))
                ==> spec_bootloader_result(o) == Err::<Seq<Seq<char>>, ConfigError>(
                ConfigError::MissingRootPartition,
            )
            &&& ((exists|k: int| 0 <= k < o.partitions.len() && spec_is_boot(#[trigger] o.partitions[k]))
                && (exists|k: int|
                0 <= k < o.partitions.len() && (#[trigger] o.partitions[k]).mount == "/"@))
                ==> (first_boot_idx(l) >= 0 && first_root_idx(l) >= 0 && spec_bootloader_result(o)
                == Ok::<Seq<Seq<char>>, ConfigError>(
                seq![
                    spec_efistub_cmd(
                        o.kernel,
                        l[first_boot_idx(l)].0.disk,
                        trailing_digits_of(l[first_boot_idx(l)].1->0),
                        l[first_root_idx(l)].1->0,
                    ),
                ],
            ))
        }),
{
    reveal_strlit("grub");
    reveal_strlit("efistub");
    assert("grub"@.len() == 4);
    assert("efistub"@.len() == 7);
    assert(o.bootloader != "grub"@);
    let ps = o.partitions;
    let l = spec_map_partitions(ps, PartOp::DevPath);
    lemma_first_boot_idx(l);
    lemma_first_root_idx(l);
    lemma_map_disks_entries_from(ps, spec_unique_disks(ps), PartOp::DevPath);
    if forall|k: int| 0 <= k < ps.len() ==> !spec_is_boot(#[trigger] ps[k]) {
        if first_boot_idx(l) >= 0 {
            let i = first_boot_idx(l);
            assert(entry_of_plan(ps, l[i]));
            let k = choose|k: int| 0 <= k < ps.len() && (l[i]).0 == #[trigger] ps[k];
            assert(!spec_is_boot(ps[k]));
            assert(false);
        }
    }
    if exists|k: int| 0 <= k < ps.len() && spec_is_boot(#[trigger] ps[k]) {
        let k = choose|k: int| 0 <= k < ps.len() && spec_is_boot(#[trigger] ps[k]);
        lemma_boot_reachable(ps, k);
        if forall|k2: int| 0 <= k2 < ps.len() ==> (#[trigger] ps[k2]).mount != "/"@ {
            if first_root_idx(l) >= 0 {
                let i = first_root_idx(l);
                assert(entry_of_plan(ps, l[i]));
                let k2 = choose|k2: int| 0 <= k2 < ps.len() && (l[i]).0 == #[trigger] ps[k2];
                assert(ps[k2].mount != "/"@);
                assert(false);
            }
        }
        if exists|k2: int| 0 <= k2 < ps.len() && (#[trigger] ps[k2]).mount == "/"@ {
            let k2 = choose|k2: int| 0 <= k2 < ps.len() && (#[trigger] ps[k2]).mount == "/"@;
            lemma_root_reachable(ps, k2, PartOp::DevPath);
        }
    }
}

} // verus!
