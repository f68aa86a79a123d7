//! The configuration model: raw decoded options, the validated plan, and the
//! validating transformation between them.
//!
//! Raw options arrive with every field optional; validation either produces a
//! fully-defaulted [`InstallOptions`] plan (collecting warnings for each
//! default it substitutes) or stops at the first fatal configuration error.

use crate::text::str_eq;
use vstd::prelude::*;

verus! {

/// Which kernel the installation uses.
#[derive(Clone, Copy, Debug, PartialEq, Eq, Structural)]
pub enum Kernel {
    Latest,
    Lts,
}

/// Recognized partition filesystems. An unrecognized name is kept as
/// `Unrecognized`: such a partition gets a generic partition type and is
/// deliberately left unformatted.
#[derive(Clone, Copy, Debug, PartialEq, Eq, Structural)]
pub enum FileSystem {
    Ext2,
    Ext3,
    Ext4,
    Fat32,
    Swap,
    Unrecognized,
}

/// A recoverable default substituted during validation.
#[derive(Clone, Copy, Debug, PartialEq, Eq, Structural)]
pub enum Warning {
    /// No locales were given; the canonical default locale was substituted.
    LocalesDefaulted,
    /// A partition gave no filesystem; `ext4` was substituted.
    FormatDefaulted,
    /// A partition gave no mount path; it will not be mounted.
    MountMissing,
}

/// A fatal configuration error: generation aborts and no script is emitted.
#[derive(Clone, Copy, Debug, PartialEq, Eq, Structural)]
pub enum ConfigError {
    /// The region/city pair names no timezone database entry.
    InvalidTimezone,
    /// No hostname was given.
    MissingHostname,
    /// No bootloader was given.
    MissingBootloader,
    /// No partitions were given.
    MissingPartitions,
    /// A partition names no disk.
    MissingDisk,
    /// A partition's mount path is non-empty but not absolute.
    RelativeMountPath,
    /// A user entry names no user.
    MissingUserName,
    /// The bootloader name is neither `grub` nor `efistub`.
    UnknownBootloader,
    /// The EFI-stub bootloader needs a partition mounted at `/boot` or `/efi`.
    MissingBootPartition,
    /// The EFI-stub bootloader needs a partition mounted at `/`.
    MissingRootPartition,
}

impl Warning {
    /// Human-readable description of the warning.
    pub open spec fn spec_message(self) -> Seq<char> {
        match self {
            Warning::LocalesDefaulted => "warning: locales not specified; defaulting to 'en_US.UTF-8'"@,
            Warning::FormatDefaulted => "warning: partition format not specified; defaulting to 'ext4'"@,
            Warning::MountMissing => "warning: partition mount not specified; it's not going to be mounted"@,
        }
    }

    /// Human-readable description of the warning.
    pub fn message(&self) -> (r: String)
        ensures
            r@ == self.spec_message(),
    {
        match self {
            Warning::LocalesDefaulted => String::from_str(
                "warning: locales not specified; defaulting to 'en_US.UTF-8'",
            ),
            Warning::FormatDefaulted => String::from_str(
                "warning: partition format not specified; defaulting to 'ext4'",
            ),
            Warning::MountMissing => String::from_str(
                "warning: partition mount not specified; it's not going to be mounted",
            ),
        }
    }
}

impl ConfigError {
    /// Human-readable description of the error.
    pub open spec fn spec_message(self) -> Seq<char> {
        match self {
            ConfigError::InvalidTimezone => "error: invalid zoneinfo"@,
            ConfigError::MissingHostname => "error: hostname not specified"@,
            ConfigError::MissingBootloader => "error: no bootloader specified"@,
            ConfigError::MissingPartitions => "error: no partitions specified"@,
            ConfigError::MissingDisk => "error: partition disk not specified"@,
            ConfigError::RelativeMountPath => "error: partition mount path is not absolute"@,
            ConfigError::MissingUserName => "error: user name not specified"@,
            ConfigError::UnknownBootloader => "error: invalid bootloader"@,
            ConfigError::MissingBootPartition => "error: using efistub, but no boot partition was detected"@,
            ConfigError::MissingRootPartition => "error: using efistub, but no root partition was detected"@,
        }
    }

    /// Human-readable description of the error.
    pub fn message(&self) -> (r: String)
        ensures
            r@ == self.spec_message(),
    {
        match self {
            ConfigError::InvalidTimezone => String::from_str("error: invalid zoneinfo"),
            ConfigError::MissingHostname => String::from_str("error: hostname not specified"),
            ConfigError::MissingBootloader => String::from_str("error: no bootloader specified"),
            ConfigError::MissingPartitions => String::from_str("error: no partitions specified"),
            ConfigError::MissingDisk => String::from_str("error: partition disk not specified"),
            ConfigError::RelativeMountPath => String::from_str(
                "error: partition mount path is not absolute",
            ),
            ConfigError::MissingUserName => String::from_str("error: user name not specified"),
            ConfigError::UnknownBootloader => String::from_str("error: invalid bootloader"),
            ConfigError::MissingBootPartition => String::from_str(
                "error: using efistub, but no boot partition was detected",
            ),
            ConfigError::MissingRootPartition => String::from_str(
                "error: using efistub, but no root partition was detected",
            ),
        }
    }
}

/// *Potentially* valid partition options, as decoded from the configuration
/// file; every property may be absent.
pub struct ParsedPartition {
    pub format: Option<String>,
    pub disk: Option<String>,
    pub size: Option<String>,
    pub mount: Option<String>,
}

/// Mathematical view of [`ParsedPartition`].
#[verifier::ext_equal]
pub struct ParsedPartitionV {
    pub format: Option<Seq<char>>,
    pub disk: Option<Seq<char>>,
    pub size: Option<Seq<char>>,
    pub mount: Option<Seq<char>>,
}

impl View for ParsedPartition {
    type V = ParsedPartitionV;

    open spec fn view(&self) -> ParsedPartitionV {
        ParsedPartitionV {
            format: self.format.deep_view(),
            disk: self.disk.deep_view(),
            size: self.size.deep_view(),
            mount: self.mount.deep_view(),
        }
    }
}

impl DeepView for ParsedPartition {
    type V = ParsedPartitionV;

    open spec fn deep_view(&self) -> ParsedPartitionV {
        self.view()
    }
}

/// *Potentially* valid user options; every property may be absent.
pub struct ParsedUser {
    pub name: Option<String>,
    pub groups: Option<Vec<String>>,
    pub shell: Option<String>,
}

/// Mathematical view of [`ParsedUser`].
#[verifier::ext_equal]
pub struct ParsedUserV {
    pub name: Option<Seq<char>>,
    pub groups: Option<Seq<Seq<char>>>,
    pub shell: Option<Seq<char>>,
}

impl View for ParsedUser {
    type V = ParsedUserV;

    open spec fn view(&self) -> ParsedUserV {
        ParsedUserV {
            name: self.name.deep_view(),
            groups: self.groups.deep_view(),
            shell: self.shell.deep_view(),
        }
    }
}

impl DeepView for ParsedUser {
    type V = ParsedUserV;

    open spec fn deep_view(&self) -> ParsedUserV {
        self.view()
    }
}

/// *Potentially* valid installation options, as decoded from the
/// configuration file; every property may be absent.
pub struct ParsedInstallOptions {
    pub hostname: Option<String>,
    pub region: Option<String>,
    pub city: Option<String>,
    pub locales: Option<Vec<String>>,
    pub kernel: Option<String>,
    pub extra: Option<String>,
    pub bootloader: Option<String>,
    pub partitions: Option<Vec<ParsedPartition>>,
    pub users: Option<Vec<ParsedUser>>,
}

/// Mathematical view of [`ParsedInstallOptions`].
#[verifier::ext_equal]
pub struct ParsedInstallOptionsV {
    pub hostname: Option<Seq<char>>,
    pub region: Option<Seq<char>>,
    pub city: Option<Seq<char>>,
    pub locales: Option<Seq<Seq<char>>>,
    pub kernel: Option<Seq<char>>,
    pub extra: Option<Seq<char>>,
    pub bootloader: Option<Seq<char>>,
    pub partitions: Option<Seq<ParsedPartitionV>>,
    pub users: Option<Seq<ParsedUserV>>,
}

impl View for ParsedInstallOptions {
    type V = ParsedInstallOptionsV;

    open spec fn view(&self) -> ParsedInstallOptionsV {
        ParsedInstallOptionsV {
            hostname: self.hostname.deep_view(),
            region: self.region.deep_view(),
            city: self.city.deep_view(),
            locales: self.locales.deep_view(),
            kernel: self.kernel.deep_view(),
            extra: self.extra.deep_view(),
            bootloader: self.bootloader.deep_view(),
            partitions: self.partitions.deep_view(),
            users: self.users.deep_view(),
        }
    }
}

/// A validated partition: what is needed to create one partition on disk.
pub struct Partition {
    pub format: FileSystem,
    pub disk: String,
    pub size: String,
    pub mount: String,
}

/// Mathematical view of [`Partition`].
#[verifier::ext_equal]
pub struct PartitionV {
    pub format: FileSystem,
    pub disk: Seq<char>,
    pub size: Seq<char>,
    pub mount: Seq<char>,
}

impl View for Partition {
    type V = PartitionV;

    open spec fn view(&self) -> PartitionV {
        PartitionV {
            format: self.format,
            disk: self.disk@,
            size: self.size@,
            mount: self.mount@,
        }
    }
}

impl DeepView for Partition {
    type V = PartitionV;

    open spec fn deep_view(&self) -> PartitionV {
        self.view()
    }
}

impl Clone for Partition {
    fn clone(&self) -> (r: Self)
        ensures
            r@ == self@,
    {
        Partition {
            format: self.format,
            disk: self.disk.clone(),
            size: self.size.clone(),
            mount: self.mount.clone(),
        }
    }
}

/// A validated user entry. The root user is implicit and never stored here.
pub struct User {
    pub name: String,
    pub groups: Vec<String>,
    pub shell: String,
}

/// Mathematical view of [`User`].
#[verifier::ext_equal]
pub struct UserV {
    pub name: Seq<char>,
    pub groups: Seq<Seq<char>>,
    pub shell: Seq<char>,
}

impl View for User {
    type V = UserV;

    open spec fn view(&self) -> UserV {
        UserV { name: self.name@, groups: self.groups.deep_view(), shell: self.shell@ }
    }
}

impl DeepView for User {
    type V = UserV;

    open spec fn deep_view(&self) -> UserV {
        self.view()
    }
}

/// The validated, fully-defaulted installation plan. Built once by
/// [`InstallOptions::from_parsed`] and read-only thereafter.
pub struct InstallOptions {
    pub hostname: String,
    pub region: String,
    pub city: String,
    pub locales: Vec<String>,
    pub kernel: Kernel,
    pub extra: String,
    pub bootloader: String,
    pub partitions: Vec<Partition>,
    pub users: Vec<User>,
}

/// Mathematical view of [`InstallOptions`].
#[verifier::ext_equal]
pub struct InstallOptionsV {
    pub hostname: Seq<char>,
    pub region: Seq<char>,
    pub city: Seq<char>,
    pub locales: Seq<Seq<char>>,
    pub kernel: Kernel,
    pub extra: Seq<char>,
    pub bootloader: Seq<char>,
    pub partitions: Seq<PartitionV>,
    pub users: Seq<UserV>,
}

impl View for InstallOptions {
    type V = InstallOptionsV;

    open spec fn view(&self) -> InstallOptionsV {
        InstallOptionsV {
            hostname: self.hostname@,
            region: self.region@,
            city: self.city@,
            locales: self.locales.deep_view(),
            kernel: self.kernel,
            extra: self.extra@,
            bootloader: self.bootloader@,
            partitions: self.partitions.deep_view(),
            users: self.users.deep_view(),
        }
    }
}

impl InstallOptionsV {
    /// Invariants that validation establishes: the locale list and the
    /// partition list are never empty.
    pub open spec fn wf(self) -> bool {
        &&& self.locales.len() > 0
        &&& self.partitions.len() > 0
    }
}

/// The canonical locale substituted when the configuration names none.
pub open spec fn canonical_locale() -> Seq<char> {
    "en_US.UTF-8"@
}

/// The characters of an optional string, empty when absent.
pub open spec fn or_empty(s: Option<Seq<char>>) -> Seq<char> {
    match s {
        Some(t) => t,
        None => Seq::empty(),
    }
}

/// Path of the timezone database entry for a region and an optional city:
/// `/usr/share/zoneinfo/<region>[/<city>]`.
pub open spec fn spec_zoneinfo_path(region: Option<Seq<char>>, city: Option<Seq<char>>) -> Seq<
    char,
> {
    "/usr/share/zoneinfo/"@ + or_empty(region) + match city {
        Some(c) => "/"@ + c,
        None => Seq::empty(),
    }
}

/// The path whose existence decides whether the region/city pair names a
/// valid timezone. The caller checks the filesystem and passes the verdict to
/// [`InstallOptions::from_parsed`].
pub fn zoneinfo_path(region: &Option<String>, city: &Option<String>) -> (r: String)
    ensures
        r@ == spec_zoneinfo_path(region.deep_view(), city.deep_view()),
{
    let mut r = String::from_str("/usr/share/zoneinfo/");
    match region {
        Some(s) => r.append(s.as_str()),
        None => (),
    }
    match city {
        Some(c) => {
            r.append("/");
            r.append(c.as_str());
        },
        None => (),
    }
    proof {
        assert(r@ =~= spec_zoneinfo_path(region.deep_view(), city.deep_view()));
    }
    r
}

/// Kernel named by the configuration: exactly `latest` selects the latest
/// kernel; anything else, a missing entry included, selects the LTS kernel.
pub open spec fn spec_kernel(k: Option<Seq<char>>) -> Kernel {
    if k == Some("latest"@) {
        Kernel::Latest
    } else {
        Kernel::Lts
    }
}

/// Filesystem named by a non-empty format string.
pub open spec fn spec_filesystem(f: Seq<char>) -> FileSystem {
    if f == "ext2"@ {
        FileSystem::Ext2
    } else if f == "ext3"@ {
        FileSystem::Ext3
    } else if f == "ext4"@ {
        FileSystem::Ext4
    } else if f == "fat32"@ {
        FileSystem::Fat32
    } else if f == "swap"@ {
        FileSystem::Swap
    } else {
        FileSystem::Unrecognized
    }
}

/// Validation of one partition: the warnings it emits and either the
/// validated partition or the first fatal error. A missing disk is fatal; a
/// missing or empty format defaults to `ext4` with a warning; a missing or
/// empty mount path only warns, but a non-empty mount path that is not
/// absolute is fatal.
pub open spec fn spec_validate_partition(p: ParsedPartitionV) -> (Seq<Warning>, Result<
    PartitionV,
    ConfigError,
>) {
    if p.disk is None {
        (Seq::<Warning>::empty(), Err(ConfigError::MissingDisk))
    } else {
        let defaulted = p.format is None || p.format->0.len() == 0;
        let format = if defaulted {
            FileSystem::Ext4
        } else {
            spec_filesystem(p.format->0)
        };
        let ws = if defaulted {
            seq![Warning::FormatDefaulted]
        } else {
            Seq::<Warning>::empty()
        };
        let mount = or_empty(p.mount);
        let part = PartitionV { format, disk: p.disk->0, size: or_empty(p.size), mount };
        if mount.len() == 0 {
            (ws.push(Warning::MountMissing), Ok(part))
        } else if mount[0] != '/' {
            (ws, Err(ConfigError::RelativeMountPath))
        } else {
            (ws, Ok(part))
        }
    }
}

/// Validation of the partition list, in order, stopping at the first fatal
/// error; warnings of the partitions up to and including the failing one are
/// kept.
pub open spec fn spec_validate_partitions(ps: Seq<ParsedPartitionV>) -> (Seq<Warning>, Result<
    Seq<PartitionV>,
    ConfigError,
>)
    decreases ps.len(),
{
    if ps.len() == 0 {
        (Seq::<Warning>::empty(), Ok(Seq::<PartitionV>::empty()))
    } else {
        let prev = spec_validate_partitions(ps.drop_last());
        match prev.1 {
            Err(e) => prev,
            Ok(done) => {
                let cur = spec_validate_partition(ps.last());
                match cur.1 {
                    Err(e) => (prev.0 + cur.0, Err(e)),
                    Ok(pv) => (prev.0 + cur.0, Ok(done.push(pv))),
                }
            },
        }
    }
}

/// Once a prefix of the partition list fails validation, the whole list
/// fails the same way: later partitions are never reached.
pub proof fn lemma_validate_partitions_err(ps: Seq<ParsedPartitionV>, k: int)
    requires
        0 <= k <= ps.len(),
        spec_validate_partitions(ps.take(k)).1 is Err,
    ensures
        spec_validate_partitions(ps) == spec_validate_partitions(ps.take(k)),
    decreases ps.len() - k,
{
    if k < ps.len() {
        assert(ps.take(k + 1).drop_last() =~= ps.take(k));
        assert(spec_validate_partitions(ps.take(k + 1)) == spec_validate_partitions(ps.take(k)));
        lemma_validate_partitions_err(ps, k + 1);
    } else {
        assert(ps.take(k) =~= ps);
    }
}

/// Validation of one user entry: the name is required; groups default to
/// none and the shell to the system default.
pub open spec fn spec_validate_user(u: ParsedUserV) -> Result<UserV, ConfigError> {
    match u.name {
        None => Err(ConfigError::MissingUserName),
        Some(n) => Ok(
            UserV {
                name: n,
                groups: match u.groups {
                    Some(g) => g,
                    None => Seq::<Seq<char>>::empty(),
                },
                shell: or_empty(u.shell),
            },
        ),
    }
}

/// Validation of the user list, in order, stopping at the first fatal error.
pub open spec fn spec_validate_users(us: Seq<ParsedUserV>) -> Result<Seq<UserV>, ConfigError>
    decreases us.len(),
{
    if us.len() == 0 {
        Ok(Seq::<UserV>::empty())
    } else {
        match spec_validate_users(us.drop_last()) {
            Err(e) => Err(e),
            Ok(done) => match spec_validate_user(us.last()) {
                Err(e) => Err(e),
                Ok(uv) => Ok(done.push(uv)),
            },
        }
    }
}

/// Once a prefix of the user list fails validation, the whole list fails the
/// same way.
pub proof fn lemma_validate_users_err(us: Seq<ParsedUserV>, k: int)
    requires
        0 <= k <= us.len(),
        spec_validate_users(us.take(k)) is Err,
    ensures
        spec_validate_users(us) == spec_validate_users(us.take(k)),
    decreases us.len() - k,
{
    if k < us.len() {
        assert(us.take(k + 1).drop_last() =~= us.take(k));
        lemma_validate_users_err(us, k + 1);
    } else {
        assert(us.take(k) =~= us);
    }
}

/// The whole validating transformation: the warnings it emits, and either
/// the validated plan or the first fatal error, checked in this order:
/// kernel and locales are resolved (with a warning when locales default),
/// then an invalid timezone, a missing hostname, a missing bootloader, an
/// absent or empty partition list, each partition in order, and finally each
/// user entry.
pub open spec fn spec_validate(raw: ParsedInstallOptionsV, zoneinfo_ok: bool) -> (Seq<Warning>,
    Result<InstallOptionsV, ConfigError>,
) {
    let kernel = spec_kernel(raw.kernel);
    let defaulted = raw.locales is None || raw.locales->0.len() == 0;
    let locales = if defaulted {
        seq![canonical_locale()]
    } else {
        raw.locales->0
    };
    let ws = if defaulted {
        seq![Warning::LocalesDefaulted]
    } else {
        Seq::<Warning>::empty()
    };
    if !zoneinfo_ok {
        (ws, Err(ConfigError::InvalidTimezone))
    } else if raw.hostname is None {
        (ws, Err(ConfigError::MissingHostname))
    } else if raw.bootloader is None {
        (ws, Err(ConfigError::MissingBootloader))
    } else if raw.partitions is None || raw.partitions->0.len() == 0 {
        (ws, Err(ConfigError::MissingPartitions))
    } else {
        let pr = spec_validate_partitions(raw.partitions->0);
        match pr.1 {
            Err(e) => (ws + pr.0, Err(e)),
            Ok(parts) => {
                let users = match raw.users {
                    Some(us) => us,
                    None => Seq::<ParsedUserV>::empty(),
                };
                match spec_validate_users(users) {
                    Err(e) => (ws + pr.0, Err(e)),
                    Ok(uvs) => (
                        ws + pr.0,
                        Ok(
                            InstallOptionsV {
                                hostname: raw.hostname->0,
                                region: or_empty(raw.region),
                                city: or_empty(raw.city),
                                locales,
                                kernel,
                                extra: or_empty(raw.extra),
                                bootloader: raw.bootloader->0,
                                partitions: parts,
                                users: uvs,
                            },
                        ),
                    ),
                }
            },
        }
    }
}

/// Filesystem named by a non-empty format string.
fn parse_filesystem(f: &str) -> (r: FileSystem)
    ensures
        r == spec_filesystem(f@),
{
    if str_eq(f, "ext2") {
        FileSystem::Ext2
    } else if str_eq(f, "ext3") {
        FileSystem::Ext3
    } else if str_eq(f, "ext4") {
        FileSystem::Ext4
    } else if str_eq(f, "fat32") {
        FileSystem::Fat32
    } else if str_eq(f, "swap") {
        FileSystem::Swap
    } else {
        FileSystem::Unrecognized
    }
}

impl InstallOptions {
    /// Validate raw decoded options into a plan, or fail with the first
    /// fatal configuration error. `zoneinfo_ok` reports whether the path
    /// given by [`zoneinfo_path`] exists in the timezone database; the
    /// caller checks the filesystem, since this library performs no I/O.
    /// Each substituted default appends its warning to the diagnostics sink.
    #[verifier::loop_isolation(false)]
    #[verifier::rlimit(60)]
    pub fn from_parsed(
        raw: ParsedInstallOptions,
        zoneinfo_ok: bool,
        warnings: &mut Vec<Warning>,
    ) -> (r: Result<InstallOptions, ConfigError>)
        ensures
            ({
                let sv = spec_validate(raw@, zoneinfo_ok);
                &&& final(warnings)@ == old(warnings)@ + sv.0
                &&& match r {
                    Ok(o) => sv.1 matches Ok(ov) && o@ == ov && o@.wf(),
                    Err(e) => sv.1 matches Err(e2) && e == e2,
                }
            }),
    {
        let ghost rawv = raw@;
        let ParsedInstallOptions {
            hostname,
            region,
            city,
            locales,
            kernel,
            extra,
            bootloader,
            partitions,
            users,
        } = raw;
        let kernel = match &kernel {
            Some(k) => if str_eq(k.as_str(), "latest") {
                Kernel::Latest
            } else {
                Kernel::Lts
            },
            None => Kernel::Lts,
        };
        assert(kernel == spec_kernel(rawv.kernel));
        let locales: Vec<String> = match locales {
            Some(l) => {
                if l.len() == 0 {
                    warnings.push(Warning::LocalesDefaulted);
                    let mut v: Vec<String> = Vec::new();
                    v.push(String::from_str("en_US.UTF-8"));
                    v
                } else {
                    l
                }
            },
            None => {
                warnings.push(Warning::LocalesDefaulted);
                let mut v: Vec<String> = Vec::new();
                v.push(String::from_str("en_US.UTF-8"));
                v
            },
        };
        let ghost sv = spec_validate(rawv, zoneinfo_ok);
        proof {
            let defaulted = rawv.locales is None || rawv.locales->0.len() == 0;
            if defaulted {
                assert(locales.deep_view() =~= seq![canonical_locale()]);
                assert(warnings@ =~= old(warnings)@ + seq![Warning::LocalesDefaulted]);
            } else {
                assert(warnings@ =~= old(warnings)@ + Seq::<Warning>::empty());
            }
        }
        let ghost lws = warnings@;
        if !zoneinfo_ok {
            return Err(ConfigError::InvalidTimezone);
        }
        let hostname = match hostname {
            Some(h) => h,
            None => {
                return Err(ConfigError::MissingHostname);
            },
        };
        let bootloader = match bootloader {
            Some(b) => b,
            None => {
                return Err(ConfigError::MissingBootloader);
            },
        };
        let rparts = match partitions {
            Some(p) => p,
            None => {
                return Err(ConfigError::MissingPartitions);
            },
        };
        if rparts.len() == 0 {
            return Err(ConfigError::MissingPartitions);
        }
        let ghost rpv = rawv.partitions->0;
        assert(rpv == rparts.deep_view());
        let mut parts: Vec<Partition> = Vec::new();
        let mut i: usize = 0;
        proof {
            assert(rpv.take(0) =~= Seq::<ParsedPartitionV>::empty());
        }
        while i < rparts.len()
            invariant
                i <= rparts@.len(),
                rpv == rparts.deep_view(),
                rpv.len() == rparts@.len(),
                spec_validate_partitions(rpv.take(i as int)).1 is Ok,
                parts.deep_view() == spec_validate_partitions(rpv.take(i as int)).1->Ok_0,
                warnings@ == lws + spec_validate_partitions(rpv.take(i as int)).0,
            decreases rparts@.len() - i,
        {
            let ghost prev = spec_validate_partitions(rpv.take(i as int));
            proof {
                assert(rpv.take(i + 1).drop_last() =~= rpv.take(i as int));
                assert(rpv.take(i + 1).last() == rpv[i as int]);
            }
            let ghost cur = spec_validate_partition(rpv[i as int]);
            let p = &rparts[i];
            assert(p@ == rpv[i as int]);
            let disk = match &p.disk {
                Some(d) => d.clone(),
                None => {
                    proof {
                        assert(spec_validate_partitions(rpv.take(i + 1)).1 is Err);
                        lemma_validate_partitions_err(rpv, i + 1);
                        assert(warnings@ =~= lws + spec_validate_partitions(rpv).0);
                        assert(warnings@ =~= old(warnings)@ + spec_validate(rawv,
                        zoneinfo_ok).0);
                        assert(spec_validate(rawv, zoneinfo_ok).1 matches Err(e2) && e2
                            == ConfigError::MissingDisk);
                    }
                    return Err(ConfigError::MissingDisk);
                },
            };
            let format = match &p.format {
                Some(f) => {
                    if f.as_str().is_empty() {
                        warnings.push(Warning::FormatDefaulted);
                        FileSystem::Ext4
                    } else {
                        parse_filesystem(f.as_str())
                    }
                },
                None => {
                    warnings.push(Warning::FormatDefaulted);
                    FileSystem::Ext4
                },
            };
            let mount = match &p.mount {
                Some(m) => m.clone(),
                None => String::new(),
            };
            if mount.as_str().is_empty() {
                warnings.push(Warning::MountMissing);
            } else {
                if mount.as_str().get_char(0) != '/' {
                    proof {
                        assert(cur.1 is Err);
                        assert(spec_validate_partitions(rpv.take(i + 1)).1 is Err);
                        lemma_validate_partitions_err(rpv, i + 1);
                        assert(warnings@ =~= lws + spec_validate_partitions(rpv).0);
                        assert(warnings@ =~= old(warnings)@ + spec_validate(rawv,
                        zoneinfo_ok).0);
                        assert(spec_validate(rawv, zoneinfo_ok).1 matches Err(e2) && e2
                            == ConfigError::RelativeMountPath);
                    }
                    return Err(ConfigError::RelativeMountPath);
                }
            }
            let size = match &p.size {
                Some(s) => s.clone(),
                None => String::new(),
            };
            parts.push(Partition { format, disk, size, mount });
            proof {
                assert(cur.1 is Ok);
                assert(parts.deep_view() =~= spec_validate_partitions(rpv.take(i + 1)).1->Ok_0);
                assert(warnings@ =~= lws + spec_validate_partitions(rpv.take(i + 1)).0);
            }
            i = i + 1;
        }
        proof {
            assert(rpv.take(rpv.len() as int) =~= rpv);
        }
        let ghost pws = warnings@;
        let rusers = match users {
            Some(u) => u,
            None => Vec::new(),
        };
        let ghost ruv = match rawv.users {
            Some(us) => us,
            None => Seq::<ParsedUserV>::empty(),
        };
        proof {
            assert(rusers.deep_view() =~= ruv);
        }
        let mut vusers: Vec<User> = Vec::new();
        let mut j: usize = 0;
        proof {
            assert(ruv.take(0) =~= Seq::<ParsedUserV>::empty());
        }
        while j < rusers.len()
            invariant
                j <= rusers@.len(),
                ruv == rusers.deep_view(),
                ruv.len() == rusers@.len(),
                warnings@ == pws,
                spec_validate_users(ruv.take(j as int)) is Ok,
                vusers.deep_view() == spec_validate_users(ruv.take(j as int))->Ok_0,
            decreases rusers@.len() - j,
        {
            proof {
                assert(ruv.take(j + 1).drop_last() =~= ruv.take(j as int));
                assert(ruv.take(j + 1).last() == ruv[j as int]);
            }
            let u = &rusers[j];
            assert(u@ == ruv[j as int]);
            let name = match &u.name {
                Some(n) => n.clone(),
                None => {
                    proof {
                        assert(spec_validate_users(ruv.take(j + 1)) is Err);
                        lemma_validate_users_err(ruv, j + 1);
                        assert(warnings@ =~= old(warnings)@ + spec_validate(rawv,
                        zoneinfo_ok).0);
                        assert(spec_validate(rawv, zoneinfo_ok).1 matches Err(e2) && e2
                            == ConfigError::MissingUserName);
                    }
                    return Err(ConfigError::MissingUserName);
                },
            };
            let groups = match &u.groups {
                Some(g) => g.clone(),
                None => Vec::new(),
            };
            let shell = match &u.shell {
                Some(s) => s.clone(),
                None => String::new(),
            };
            let user = User { name, groups, shell };
            proof {
                assert(user@ =~= spec_validate_user(ruv[j as int])->Ok_0);
            }
            vusers.push(user);
            proof {
                assert(vusers.deep_view() =~= spec_validate_users(ruv.take(j + 1))->Ok_0);
            }
            j = j + 1;
        }
        proof {
            assert(ruv.take(ruv.len() as int) =~= ruv);
        }
        let region = match region {
            Some(r) => r,
            None => String::new(),
        };
        let city = match city {
            Some(c) => c,
            None => String::new(),
        };
        let extra = match extra {
            Some(e) => e,
            None => String::new(),
        };
        let o = InstallOptions {
            hostname,
            region,
            city,
            locales,
            kernel,
            extra,
            bootloader,
            partitions: parts,
            users: vusers,
        };
        proof {
            assert(sv.1 is Ok);
            assert(o@ =~= sv.1->Ok_0);
        }
        Ok(o)
    }
}

/// An example configuration file, in the format the binary decodes.
pub fn sample_input_file() -> &'static str {
    r"# Basic arch installation; latest kernel with a single root partition, booted
# with GRUB
# It uses /dev/sda for its partition

hostname: archlinux

# user preferences
bootloader: grub
extra: vim

# Timezone info, as per /usr/share/zoneinfo/*Region*/*City*
# For example purpoeses, use London, Europe
region: Europe
city: London

# List of locales to use and generate. By default, when nothing is specified,
# 'en_US.UTF-8' is assumed.
locales:
  - en_US.UTF-8

# alternatively: `lts`
kernel: latest

# you have to configure partitions manually
partitions:
  # the name of the array serves no purpose other than readability
  - root:
    format: ext4
    mount: /
    disk: /dev/sda
    # when there's no `size` property, it's assumed you want the remaining space
    # on the disk
"
}

} // verus!
