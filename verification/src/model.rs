//! Core data types shared by the scanner, the analysis passes and the UI.
//!
//! Everything in this module is pure data. Each type that holds text has a
//! view in which the text is a sequence of characters.
use vstd::prelude::*;

use crate::janitor;
use crate::janitor::Target;
use crate::number;
use crate::text;
use crate::text::copy_texts;
use crate::textmap::TextMap;

verus! {

/// Why pacman believes a package is installed.
///
/// A local database entry with no `%REASON%` section was installed
/// explicitly, which is why that is the default.
#[derive(Clone, Copy, Debug, PartialEq, Eq, Structural)]
pub enum InstallReason {
    /// Requested directly by the user.
    Explicit,
    /// Pulled in to satisfy another package's dependency.
    Dependency,
}

impl Default for InstallReason {
    fn default() -> (r: InstallReason)
        ensures
            r == InstallReason::Explicit,
    {
        InstallReason::Explicit
    }
}

impl InstallReason {
    /// Short label used in table cells.
    pub fn label(self) -> (r: &'static str)
        ensures
            r@ == (match self {
                InstallReason::Explicit => "explicit"@,
                InstallReason::Dependency => "dep"@,
            }),
    {
        match self {
            InstallReason::Explicit => "explicit",
            InstallReason::Dependency => "dep",
        }
    }
}

/// Where a package came from.
#[derive(Debug, PartialEq, Eq)]
pub enum Origin {
    /// Present in a configured sync repository, e.g. `extra` or `multilib`.
    Repository(String),
    /// Not in any sync repository: an AUR build, or a locally built package.
    Foreign,
    /// Repository membership could not be determined on this system.
    Unknown,
}

/// The view of an [`Origin`].
pub enum OriginView {
    /// See [`Origin::Repository`].
    Repository(Seq<char>),
    /// See [`Origin::Foreign`].
    Foreign,
    /// See [`Origin::Unknown`].
    Unknown,
}

impl View for Origin {
    type V = OriginView;

    open spec fn view(&self) -> OriginView {
        match *self {
            Origin::Repository(name) => OriginView::Repository(name@),
            Origin::Foreign => OriginView::Foreign,
            Origin::Unknown => OriginView::Unknown,
        }
    }
}

impl Clone for Origin {
    fn clone(&self) -> (r: Origin)
        ensures
            r@ == self@,
    {
        match self {
            Origin::Repository(name) => Origin::Repository(name.clone()),
            Origin::Foreign => Origin::Foreign,
            Origin::Unknown => Origin::Unknown,
        }
    }
}

impl OriginView {
    /// The label of an origin.
    pub open spec fn label(self) -> Seq<char> {
        match self {
            OriginView::Repository(name) => name,
            OriginView::Foreign => "aur/local"@,
            OriginView::Unknown => "?"@,
        }
    }
}

impl Origin {
    /// Short label used in table cells.
    pub fn label(&self) -> (r: &str)
        ensures
            r@ == self@.label(),
    {
        match self {
            Origin::Repository(name) => name.as_str(),
            Origin::Foreign => "aur/local",
            Origin::Unknown => "?",
        }
    }

    /// Whether the package is foreign (AUR or locally built).
    pub fn is_foreign(&self) -> (r: bool)
        ensures
            r == (self is Foreign),
    {
        match self {
            Origin::Foreign => true,
            Origin::Repository(_) => false,
            Origin::Unknown => false,
        }
    }
}

/// A single installed package as recorded in the local pacman database.
#[derive(Debug, PartialEq, Eq)]
pub struct Package {
    /// Package name, e.g. `ripgrep`.
    pub name: String,
    /// Full version string including the pkgrel, e.g. `14.1.1-1`.
    pub version: String,
    /// Installed size in bytes, as recorded by pacman.
    pub size: u64,
    /// Unix timestamp of installation, when recorded.
    pub install_date: Option<i64>,
    /// Unix timestamp of the upstream build, when recorded.
    pub build_date: Option<i64>,
    /// Install reason.
    pub reason: InstallReason,
    /// One-line description.
    pub description: String,
    /// Upstream URL.
    pub url: String,
    /// Person or service that built the package.
    pub packager: String,
    /// Groups the package belongs to, e.g. `base-devel`.
    pub groups: Vec<String>,
    /// Hard dependencies, with version constraints still attached.
    pub depends: Vec<String>,
    /// Optional dependencies, with their trailing `: reason` still attached.
    pub optdepends: Vec<String>,
    /// Virtual names this package provides.
    pub provides: Vec<String>,
    /// Packages this one replaces.
    pub replaces: Vec<String>,
    /// Directory holding this package's entry in the local database.
    pub db_dir: String,
}

/// The view of a [`Package`].
#[verifier::ext_equal]
pub struct PackageView {
    /// See [`Package::name`].
    pub name: Seq<char>,
    /// See [`Package::version`].
    pub version: Seq<char>,
    /// See [`Package::size`].
    pub size: u64,
    /// See [`Package::install_date`].
    pub install_date: Option<i64>,
    /// See [`Package::build_date`].
    pub build_date: Option<i64>,
    /// See [`Package::reason`].
    pub reason: InstallReason,
    /// See [`Package::description`].
    pub description: Seq<char>,
    /// See [`Package::url`].
    pub url: Seq<char>,
    /// See [`Package::packager`].
    pub packager: Seq<char>,
    /// See [`Package::groups`].
    pub groups: Seq<Seq<char>>,
    /// See [`Package::depends`].
    pub depends: Seq<Seq<char>>,
    /// See [`Package::optdepends`].
    pub optdepends: Seq<Seq<char>>,
    /// See [`Package::provides`].
    pub provides: Seq<Seq<char>>,
    /// See [`Package::replaces`].
    pub replaces: Seq<Seq<char>>,
    /// See [`Package::db_dir`].
    pub db_dir: Seq<char>,
}

impl View for Package {
    type V = PackageView;

    open spec fn view(&self) -> PackageView {
        PackageView {
            name: self.name@,
            version: self.version@,
            size: self.size,
            install_date: self.install_date,
            build_date: self.build_date,
            reason: self.reason,
            description: self.description@,
            url: self.url@,
            packager: self.packager@,
            groups: text::texts(self.groups@),
            depends: text::texts(self.depends@),
            optdepends: text::texts(self.optdepends@),
            provides: text::texts(self.provides@),
            replaces: text::texts(self.replaces@),
            db_dir: self.db_dir@,
        }
    }
}

impl PackageView {
    /// A package of which nothing is known.
    pub open spec fn blank() -> PackageView {
        PackageView {
            name: Seq::empty(),
            version: Seq::empty(),
            size: 0,
            install_date: None,
            build_date: None,
            reason: InstallReason::Explicit,
            description: Seq::empty(),
            url: Seq::empty(),
            packager: Seq::empty(),
            groups: Seq::empty(),
            depends: Seq::empty(),
            optdepends: Seq::empty(),
            provides: Seq::empty(),
            replaces: Seq::empty(),
            db_dir: Seq::empty(),
        }
    }
}

impl Default for Package {
    fn default() -> (r: Package)
        ensures
            r@ == PackageView::blank(),
    {
        let r = Package {
            name: String::new(),
            version: String::new(),
            size: 0,
            install_date: None,
            build_date: None,
            reason: InstallReason::Explicit,
            description: String::new(),
            url: String::new(),
            packager: String::new(),
            groups: Vec::new(),
            depends: Vec::new(),
            optdepends: Vec::new(),
            provides: Vec::new(),
            replaces: Vec::new(),
            db_dir: String::new(),
        };
        assert(r@ =~= PackageView::blank());
        r
    }
}

impl Clone for Package {
    fn clone(&self) -> (r: Package)
        ensures
            r@ == self@,
    {
        Package {
            name: self.name.clone(),
            version: self.version.clone(),
            size: self.size,
            install_date: self.install_date,
            build_date: self.build_date,
            reason: self.reason,
            description: self.description.clone(),
            url: self.url.clone(),
            packager: self.packager.clone(),
            groups: copy_texts(&self.groups),
            depends: copy_texts(&self.depends),
            optdepends: copy_texts(&self.optdepends),
            provides: copy_texts(&self.provides),
            replaces: copy_texts(&self.replaces),
            db_dir: self.db_dir.clone(),
        }
    }
}

/// The views of a list of packages.
pub open spec fn package_views(packages: Seq<Package>) -> Seq<PackageView> {
    Seq::new(packages.len(), |i: int| packages[i]@)
}

/// What the atime probe was able to establish about a package's last use.
#[derive(Debug, PartialEq, Eq)]
pub enum UsageEvidence {
    /// A witness file was read more recently than the package was installed.
    Used {
        /// Unix timestamp of the most recent access.
        at: i64,
        /// The file that produced that timestamp, relative to the root.
        witness: String,
    },
    /// The application wrote state in the user's home directory.
    ///
    /// Independent of access times entirely, so this is the only evidence
    /// available on a `noatime` filesystem — and it is stronger evidence than
    /// an access time even where both exist, because a program writing its own
    /// configuration back means a person ran it, not that something read it.
    UsedFromHome {
        /// Unix timestamp of the most recent write.
        at: i64,
        /// Absolute path that carried the timestamp.
        witness: String,
    },
    /// Witness files exist, but none has been read since install time.
    NeverSinceInstall {
        /// Most recent access seen, which tracks installation.
        at: i64,
    },
    /// The package ships no file whose access time would mean anything.
    NoWitness,
    /// The filesystem holding the witnesses is mounted `noatime`.
    AtimeDisabled,
    /// This package was outside the probe budget.
    NotProbed,
}

/// The view of a [`UsageEvidence`].
#[verifier::ext_equal]
pub enum UsageView {
    /// See [`UsageEvidence::Used`].
    Used {
        /// When.
        at: i64,
        /// By what file.
        witness: Seq<char>,
    },
    /// See [`UsageEvidence::UsedFromHome`].
    UsedFromHome {
        /// When.
        at: i64,
        /// By what file.
        witness: Seq<char>,
    },
    /// See [`UsageEvidence::NeverSinceInstall`].
    NeverSinceInstall {
        /// When.
        at: i64,
    },
    /// See [`UsageEvidence::NoWitness`].
    NoWitness,
    /// See [`UsageEvidence::AtimeDisabled`].
    AtimeDisabled,
    /// See [`UsageEvidence::NotProbed`].
    NotProbed,
}

impl View for UsageEvidence {
    type V = UsageView;

    open spec fn view(&self) -> UsageView {
        match *self {
            UsageEvidence::Used { at, witness } => UsageView::Used { at, witness: witness@ },
            UsageEvidence::UsedFromHome { at, witness } => UsageView::UsedFromHome {
                at,
                witness: witness@,
            },
            UsageEvidence::NeverSinceInstall { at } => UsageView::NeverSinceInstall { at },
            UsageEvidence::NoWitness => UsageView::NoWitness,
            UsageEvidence::AtimeDisabled => UsageView::AtimeDisabled,
            UsageEvidence::NotProbed => UsageView::NotProbed,
        }
    }
}

impl Clone for UsageEvidence {
    fn clone(&self) -> (r: UsageEvidence)
        ensures
            r@ == self@,
    {
        match self {
            UsageEvidence::Used { at, witness } => UsageEvidence::Used {
                at: *at,
                witness: witness.clone(),
            },
            UsageEvidence::UsedFromHome { at, witness } => UsageEvidence::UsedFromHome {
                at: *at,
                witness: witness.clone(),
            },
            UsageEvidence::NeverSinceInstall { at } => UsageEvidence::NeverSinceInstall {
                at: *at,
            },
            UsageEvidence::NoWitness => UsageEvidence::NoWitness,
            UsageEvidence::AtimeDisabled => UsageEvidence::AtimeDisabled,
            UsageEvidence::NotProbed => UsageEvidence::NotProbed,
        }
    }
}

impl UsageView {
    /// The timestamp that the evidence carries.
    pub open spec fn timestamp(self) -> Option<i64> {
        match self {
            UsageView::Used { at, .. } => Some(at),
            UsageView::UsedFromHome { at, .. } => Some(at),
            UsageView::NeverSinceInstall { at } => Some(at),
            _ => None,
        }
    }

    /// Whether the evidence shows use.
    pub open spec fn is_used(self) -> bool {
        self is Used || self is UsedFromHome
    }
}

impl UsageEvidence {
    /// The observed timestamp, when there was one.
    pub fn timestamp(&self) -> (r: Option<i64>)
        ensures
            r == self@.timestamp(),
    {
        match self {
            UsageEvidence::Used { at, witness: _ } => Some(*at),
            UsageEvidence::UsedFromHome { at, witness: _ } => Some(*at),
            UsageEvidence::NeverSinceInstall { at } => Some(*at),
            UsageEvidence::NoWitness => None,
            UsageEvidence::AtimeDisabled => None,
            UsageEvidence::NotProbed => None,
        }
    }

    /// Whether the evidence positively shows the package being used.
    pub fn is_used(&self) -> (r: bool)
        ensures
            r == self@.is_used(),
    {
        match self {
            UsageEvidence::Used { at: _, witness: _ } => true,
            UsageEvidence::UsedFromHome { at: _, witness: _ } => true,
            UsageEvidence::NeverSinceInstall { at: _ } => false,
            UsageEvidence::NoWitness => false,
            UsageEvidence::AtimeDisabled => false,
            UsageEvidence::NotProbed => false,
        }
    }

    /// Whether the evidence positively shows the package going unused.
    pub fn is_unused(&self) -> (r: bool)
        ensures
            r == (self@ is NeverSinceInstall),
    {
        match self {
            UsageEvidence::NeverSinceInstall { at: _ } => true,
            UsageEvidence::Used { at: _, witness: _ } => false,
            UsageEvidence::UsedFromHome { at: _, witness: _ } => false,
            UsageEvidence::NoWitness => false,
            UsageEvidence::AtimeDisabled => false,
            UsageEvidence::NotProbed => false,
        }
    }
}

/// Everything derived about one package beyond its raw database entry.
#[derive(Debug, PartialEq, Eq)]
pub struct Facts {
    /// Installed packages that hard-depend on this one.
    pub required_by: Vec<String>,
    /// Installed packages that list this one as an optional dependency.
    pub optional_for: Vec<String>,
    /// Repository membership.
    pub origin: Origin,
    /// Result of the last-use probe.
    pub usage: UsageEvidence,
    /// Bytes this package's own files occupy, plus the bytes of dependencies
    /// that only it keeps alive. This is what removing it actually frees.
    pub reclaimable: u64,
    /// Packages that would become orphans if this one were removed.
    pub frees: Vec<String>,
    /// Whether removing this package is considered unsafe.
    pub protected: bool,
}

/// The view of [`Facts`].
#[verifier::ext_equal]
pub struct FactsView {
    /// See [`Facts::required_by`].
    pub required_by: Seq<Seq<char>>,
    /// See [`Facts::optional_for`].
    pub optional_for: Seq<Seq<char>>,
    /// See [`Facts::origin`].
    pub origin: OriginView,
    /// See [`Facts::usage`].
    pub usage: UsageView,
    /// See [`Facts::reclaimable`].
    pub reclaimable: u64,
    /// See [`Facts::frees`].
    pub frees: Seq<Seq<char>>,
    /// See [`Facts::protected`].
    pub protected: bool,
}

impl View for Facts {
    type V = FactsView;

    open spec fn view(&self) -> FactsView {
        FactsView {
            required_by: text::texts(self.required_by@),
            optional_for: text::texts(self.optional_for@),
            origin: self.origin@,
            usage: self.usage@,
            reclaimable: self.reclaimable,
            frees: text::texts(self.frees@),
            protected: self.protected,
        }
    }
}

impl Clone for Facts {
    fn clone(&self) -> (r: Facts)
        ensures
            r@ == self@,
    {
        Facts {
            required_by: copy_texts(&self.required_by),
            optional_for: copy_texts(&self.optional_for),
            origin: self.origin.clone(),
            usage: self.usage.clone(),
            reclaimable: self.reclaimable,
            frees: copy_texts(&self.frees),
            protected: self.protected,
        }
    }
}

impl Facts {
    /// Whether nothing hard-depends on the package. For one installed as a
    /// dependency that makes it an orphan.
    pub fn is_orphan(&self) -> (r: bool)
        ensures
            r == (self@.required_by.len() == 0),
    {
        self.required_by.len() == 0
    }

    /// An orphan whose only remaining tie is an optional dependency.
    pub fn is_optional_orphan(&self) -> (r: bool)
        ensures
            r == (self@.required_by.len() == 0 && self@.optional_for.len() > 0),
    {
        self.required_by.len() == 0 && self.optional_for.len() > 0
    }
}

/// A package together with everything derived about it.
#[derive(Debug, PartialEq, Eq)]
pub struct Entry {
    /// The raw database record.
    pub package: Package,
    /// Derived analysis.
    pub facts: Facts,
}

/// The view of an [`Entry`].
#[verifier::ext_equal]
pub struct EntryView {
    /// See [`Entry::package`].
    pub package: PackageView,
    /// See [`Entry::facts`].
    pub facts: FactsView,
}

impl View for Entry {
    type V = EntryView;

    open spec fn view(&self) -> EntryView {
        EntryView { package: self.package@, facts: self.facts@ }
    }
}

impl Clone for Entry {
    fn clone(&self) -> (r: Entry)
        ensures
            r@ == self@,
    {
        Entry { package: self.package.clone(), facts: self.facts.clone() }
    }
}

/// The views of a list of entries.
pub open spec fn entry_views(entries: Seq<Entry>) -> Seq<EntryView> {
    Seq::new(entries.len(), |i: int| entries[i]@)
}

/// The packages of a list of entries.
pub open spec fn packages_of(entries: Seq<EntryView>) -> Seq<PackageView> {
    Seq::new(entries.len(), |i: int| entries[i].package)
}

/// The installed sizes of a list of entries, added up.
pub open spec fn size_sum(entries: Seq<EntryView>) -> nat
    decreases entries.len(),
{
    if entries.len() == 0 {
        0
    } else {
        size_sum(entries.drop_last()) + entries.last().package.size as nat
    }
}

/// Whether access-time data can be trusted on this system.
#[derive(Clone, Copy, Debug, PartialEq, Eq, Structural)]
pub enum AtimeSupport {
    /// atime updates at most daily. The normal Arch default, and good enough.
    Relatime,
    /// atime updates on every read. Ideal.
    Strict,
    /// atime is frozen. Last-use data is meaningless.
    Disabled,
    /// The mount table could not be read.
    Unknown,
}

impl AtimeSupport {
    /// What the mode means for the last-use column.
    pub open spec fn caveat_text(self) -> Seq<char> {
        match self {
            AtimeSupport::Relatime =>
                "relatime: access times update at most once a day, which is enough to tell used from unused"@,
            AtimeSupport::Strict => "strictatime: access times are exact"@,
            AtimeSupport::Disabled =>
                "noatime: access times are frozen on this mount, so last-use data is NOT meaningful"@,
            AtimeSupport::Unknown => "mount options unknown: treat last-use data with care"@,
        }
    }

    /// A sentence explaining what the mode means for the last-use column.
    pub fn caveat(self) -> (r: &'static str)
        ensures
            r@ == self.caveat_text(),
    {
        match self {
            AtimeSupport::Relatime =>
                "relatime: access times update at most once a day, which is enough to tell used from unused",
            AtimeSupport::Strict => "strictatime: access times are exact",
            AtimeSupport::Disabled =>
                "noatime: access times are frozen on this mount, so last-use data is NOT meaningful",
            AtimeSupport::Unknown => "mount options unknown: treat last-use data with care",
        }
    }

    /// Whether last-use figures should be shown at all.
    pub fn is_meaningful(self) -> (r: bool)
        ensures
            r == (self != AtimeSupport::Disabled),
    {
        match self {
            AtimeSupport::Relatime => true,
            AtimeSupport::Strict => true,
            AtimeSupport::Unknown => true,
            AtimeSupport::Disabled => false,
        }
    }
}

/// The complete result of a scan.
#[derive(Clone, Debug)]
pub struct Inventory {
    /// Every installed package, in database order.
    pub entries: Vec<Entry>,
    /// Index from package name to its position in `entries`.
    pub index: TextMap<usize>,
    /// Reclaimable space found outside the package set.
    pub targets: Vec<Target>,
    /// Whether access times mean anything on this system.
    pub atime_support: AtimeSupport,
    /// Unix timestamp the scan was taken at.
    pub scanned_at: i64,
    /// Number of packages whose access times were probed.
    pub probed: usize,
    /// Non-fatal problems encountered during the scan.
    pub warnings: Vec<String>,
}

/// The view of an [`Inventory`].
#[verifier::ext_equal]
pub struct InventoryView {
    /// See [`Inventory::entries`].
    pub entries: Seq<EntryView>,
    /// See [`Inventory::index`].
    pub index: Map<Seq<char>, usize>,
    /// See [`Inventory::targets`].
    pub targets: Seq<janitor::TargetView>,
    /// See [`Inventory::atime_support`].
    pub atime_support: AtimeSupport,
    /// See [`Inventory::scanned_at`].
    pub scanned_at: i64,
    /// See [`Inventory::probed`].
    pub probed: usize,
    /// See [`Inventory::warnings`].
    pub warnings: Seq<Seq<char>>,
}

impl View for Inventory {
    type V = InventoryView;

    open spec fn view(&self) -> InventoryView {
        InventoryView {
            entries: entry_views(self.entries@),
            index: self.index@,
            targets: janitor::target_views(self.targets@),
            atime_support: self.atime_support,
            scanned_at: self.scanned_at,
            probed: self.probed,
            warnings: text::texts(self.warnings@),
        }
    }
}

impl InventoryView {
    /// The packages of the inventory.
    pub open spec fn packages(self) -> Seq<PackageView> {
        packages_of(self.entries)
    }
}

impl Inventory {
    /// Total installed size of every package.
    pub fn total_size(&self) -> (r: u64)
        ensures
            r == number::saturated(size_sum(entry_views(self.entries@))),
    {
        let ghost all = entry_views(self.entries@);
        let mut sum: u64 = 0;
        let mut i: usize = 0;
        assert(all.take(0) =~= Seq::empty());
        while i < self.entries.len()
            invariant
                i <= self.entries.len(),
                all == entry_views(self.entries@),
                sum == number::saturated(size_sum(all.take(i as int))),
            decreases self.entries.len() - i,
        {
            assert(all.take(i + 1).drop_last() =~= all.take(i as int));
            sum = sum.saturating_add(self.entries[i].package.size);
            i += 1;
        }
        assert(all.take(all.len() as int) =~= all);
        sum
    }

    /// Look up an entry by package name.
    pub fn get(&self, name: &str) -> (r: Option<&Entry>)
        ensures
            match r {
                Some(entry) => {
                    &&& self.index@.contains_key(name@)
                    &&& self.index@[name@] < self.entries.len()
                    &&& *entry == self.entries[self.index@[name@] as int]
                },
                None => self.index@.contains_key(name@) ==> self.index@[name@]
                    >= self.entries.len(),
            },
    {
        match self.index.get(name) {
            Some(position) => if *position < self.entries.len() {
                Some(&self.entries[*position])
            } else {
                None
            },
            None => None,
        }
    }
}

} // verus!
