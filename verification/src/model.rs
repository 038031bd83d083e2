//! The data that flows between the package backends, the job executor and the
//! user interface.
use crate::cancel::CancelToken;
use std::time::SystemTime;
use vstd::prelude::*;

verus! {

#[verifier::external_type_specification]
#[verifier::external_body]
pub struct ExSystemTime(SystemTime);

/// Where a package comes from.
#[derive(Clone, Copy, Debug, PartialEq, Eq, Hash, Structural)]
pub enum Source {
    Repo,
    Aur,
    Flatpak,
    AppImage,
}

#[derive(Debug, Hash)]
pub struct PackageId {
    pub name: String,
    pub source: Source,
    pub repo: Option<String>,
}

#[derive(Debug)]
pub struct PackageSummary {
    pub id: PackageId,
    pub version: String,
    pub description: String,
    pub installed: bool,
    pub popular: Option<u32>,
    /// Seconds since the Unix epoch.
    pub last_updated: Option<u64>,
}

#[derive(Debug)]
pub struct PackageDetails {
    pub summary: PackageSummary,
    pub description: Option<String>,
    pub depends: Vec<String>,
    pub opt_depends: Vec<String>,
    pub homepage: Option<String>,
    pub license: Option<String>,
    pub maintainer: Option<String>,
    pub developer: Option<String>,
    pub size_install: Option<u64>,
    pub size_download: Option<u64>,
}

#[derive(Clone, Copy, Debug, PartialEq, Eq, Structural)]
pub enum Stage {
    Queued,
    Refreshing,
    Searching,
    Resolving,
    Downloading,
    Building,
    Installing,
    Removing,
    Verifying,
    Cleaning,
    Finished,
    Failed,
}

#[derive(Clone, Debug)]
pub enum Event {
    SearchResults { query: String, items: Vec<PackageSummary> },
    Details { item: PackageDetails },
    Upgrades { items: Vec<PackageSummary> },
    SystemChanged,
    Error(String),
}

#[derive(Clone, Debug)]
pub enum Error {
    Network(String),
    Alpm(String),
    Aur(String),
    Flatpak(String),
    PackageKit(String),
    AppImage(String),
    Priv(String),
    Cancelled,
    Internal(String),
}

/// What kind of operation to perform.
#[derive(Clone, Debug, PartialEq, Eq, Hash, Structural)]
pub enum OperationKind {
    Install,
    Remove { purge_data: bool },
    Update,
    Refresh,
}

/// A package management operation.
#[derive(Clone, Debug)]
pub struct Operation {
    pub kind: OperationKind,
    pub backend_name: String,
    pub package_ids: Vec<PackageId>,
}

#[derive(Clone, Copy, Debug, PartialEq, Eq, Structural)]
pub enum JobKind {
    Refresh,
    Search,
    Details,
    Install,
    Remove,
    Upgrades,
    Upgrade,
    UpgradeAll,
    InstallFile,
}

#[derive(Clone, Debug)]
pub enum JobPayload {
    NoPayload,
    Query(String),
    Package(PackageId),
    InstallFile(String),
}

#[derive(Debug)]
pub struct Job {
    pub id: u64,
    pub kind: JobKind,
    pub payload: JobPayload,
    pub created_at: SystemTime,
    pub cancel: CancelToken,
}

/// Which sources are shown and which are included in "upgrade all".
#[derive(Clone, Copy, Debug, PartialEq, Eq, Structural)]
pub struct Settings {
    pub enable_repo: bool,
    pub enable_aur: bool,
    pub enable_flatpak: bool,
    pub enable_appimage: bool,
    pub upgrade_repo: bool,
    pub upgrade_aur: bool,
    pub upgrade_flatpak: bool,
    pub upgrade_appimage: bool,
}

impl Default for Settings {
    fn default() -> (s: Self)
        ensures
            s == (Settings {
                enable_repo: true,
                enable_aur: true,
                enable_flatpak: true,
                enable_appimage: true,
                upgrade_repo: true,
                upgrade_aur: false,
                upgrade_flatpak: true,
                upgrade_appimage: true,
            }),
    {
        Settings {
            enable_repo: true,
            enable_aur: true,
            enable_flatpak: true,
            enable_appimage: true,
            upgrade_repo: true,
            upgrade_aur: false,
            upgrade_flatpak: true,
            upgrade_appimage: true,
        }
    }
}

/// A path below the home folder, as `PathBuf::from(home).join(rel)` builds it
/// for a relative `rel`: a separator is put between them unless `home` is
/// empty or already ends with one.
pub open spec fn home_path(home: Seq<char>, rel: Seq<char>) -> Seq<char> {
    if home.len() == 0 {
        rel
    } else if home.last() == '/' {
        home + rel
    } else {
        home + "/"@ + rel
    }
}

/// `PathBuf::from(home).join(rel)` as text.
pub fn join_home(home: &str, rel: &str) -> (r: String)
    ensures
        r@ == home_path(home@, rel@),
{
    let h = crate::text::chars_of(home);
    if h.len() == 0 {
        rel.to_owned()
    } else if h[h.len() - 1] == '/' {
        crate::text::join2(home, rel)
    } else {
        crate::text::join3(home, "/", rel)
    }
}

impl Settings {
    /// Where the settings are stored: under the home folder, or `/tmp` when
    /// `$HOME` is not set.
    pub fn path_for(home: Option<&str>) -> (r: String)
        ensures
            r@ == home_path(
                match home {
                    Some(h) => h@,
                    None => "/tmp"@,
                },
                ".config/soredowe/settings.json"@,
            ),
    {
        match home {
            Some(h) => join_home(h, ".config/soredowe/settings.json"),
            None => join_home("/tmp", ".config/soredowe/settings.json"),
        }
    }
}

/// Metadata of one application from an AppStream catalogue.
#[derive(Debug)]
pub struct AppstreamMeta {
    pub name: String,
    pub summary: String,
    pub description: String,
    pub version: Option<String>,
    pub license: Option<String>,
    pub developer: Option<String>,
    pub homepage: Option<String>,
}

impl AppstreamMeta {
    pub fn empty() -> (m: Self)
        ensures
            m.name@ == Seq::<char>::empty(),
            m.summary@ == Seq::<char>::empty(),
            m.description@ == Seq::<char>::empty(),
            m.version is None,
            m.license is None,
            m.developer is None,
            m.homepage is None,
    {
        AppstreamMeta {
            name: String::new(),
            summary: String::new(),
            description: String::new(),
            version: None,
            license: None,
            developer: None,
            homepage: None,
        }
    }
}

/// One package as the AUR RPC interface describes it.
#[derive(Clone, Debug)]
pub struct AurPkg {
    pub name: String,
    pub version: String,
    pub description: Option<String>,
    pub votes: Option<u32>,
    pub maintainer: Option<String>,
    pub last_modified: Option<u64>,
    pub url: Option<String>,
    pub license: Option<Vec<String>>,
    pub depends: Option<Vec<String>>,
    pub makedepends: Option<Vec<String>>,
    pub optdepends: Option<Vec<String>>,
    pub conflicts: Option<Vec<String>>,
    pub package_base: Option<String>,
}

/// Packages installed as AppImage files in the user's application folders.
pub struct AppImageBackend;

impl AppImageBackend {
    pub fn new() -> (b: Self) {
        AppImageBackend
    }
}

/// Packages of the Arch User Repository, built locally.
pub struct AurBackend;

impl AurBackend {
    pub fn new() -> (b: Self) {
        AurBackend
    }
}

/// Repository packages handled through the pacman command line and its helper.
pub struct PacmanCli;

impl PacmanCli {
    pub fn new() -> (b: Self) {
        PacmanCli
    }
}

impl Default for PacmanCli {
    /// The same backend as `new`.
    fn default() -> (b: Self)
        ensures
            b == PacmanCli,
    {
        PacmanCli::new()
    }
}

/// The text that `Display` shows for an error.
pub open spec fn error_text(e: Error) -> Seq<char> {
    match e {
        Error::Network(m) => "network: "@ + m@,
        Error::Alpm(m) => "alpm: "@ + m@,
        Error::Aur(m) => "aur: "@ + m@,
        Error::Flatpak(m) => "flatpak: "@ + m@,
        Error::PackageKit(m) => "packagekit: "@ + m@,
        Error::AppImage(m) => "appimage: "@ + m@,
        Error::Priv(m) => "privilege: "@ + m@,
        Error::Cancelled => "cancelled"@,
        Error::Internal(m) => "internal: "@ + m@,
    }
}

impl Error {
    /// The error as text, e.g. `network: timed out`.
    pub fn message(&self) -> (r: String)
        ensures
            r@ == error_text(*self),
    {
        match self {
            Error::Network(m) => crate::text::join2("network: ", m.as_str()),
            Error::Alpm(m) => crate::text::join2("alpm: ", m.as_str()),
            Error::Aur(m) => crate::text::join2("aur: ", m.as_str()),
            Error::Flatpak(m) => crate::text::join2("flatpak: ", m.as_str()),
            Error::PackageKit(m) => crate::text::join2("packagekit: ", m.as_str()),
            Error::AppImage(m) => crate::text::join2("appimage: ", m.as_str()),
            Error::Priv(m) => crate::text::join2("privilege: ", m.as_str()),
            Error::Cancelled => "cancelled".to_owned(),
            Error::Internal(m) => crate::text::join2("internal: ", m.as_str()),
        }
    }
}

pub open spec fn opt_view(o: Option<String>) -> Option<Seq<char>> {
    match o {
        Some(s) => Some(s@),
        None => None,
    }
}

impl PackageId {
    /// Two ids name the same package.
    pub open spec fn same(self, other: PackageId) -> bool {
        &&& self.name@ == other.name@
        &&& self.source == other.source
        &&& opt_view(self.repo) == opt_view(other.repo)
    }

    /// `==` on ids: same name, source and repository.
    pub fn same_as(&self, other: &PackageId) -> (r: bool)
        ensures
            r == self.same(*other),
    {
        if !crate::text::str_eq(self.name.as_str(), other.name.as_str()) || self.source != other.source {
            return false;
        }
        match (&self.repo, &other.repo) {
            (Some(a), Some(b)) => crate::text::str_eq(a.as_str(), b.as_str()),
            (None, None) => true,
            _ => false,
        }
    }
}

pub fn clone_opt_string(o: &Option<String>) -> (r: Option<String>)
    ensures
        r == *o,
{
    match o {
        Some(s) => Some(s.clone()),
        None => None,
    }
}

pub fn clone_strings(v: &Vec<String>) -> (r: Vec<String>)
    ensures
        r@ == v@,
{
    let mut r: Vec<String> = Vec::new();
    let mut i: usize = 0;
    while i < v.len()
        invariant
            i <= v.len(),
            r@ == v@.take(i as int),
        decreases v.len() - i,
    {
        r.push(v[i].clone());
        assert(r@ =~= v@.take(i + 1));
        i = i + 1;
    }
    assert(v@.take(v.len() as int) =~= v@);
    r
}

impl PartialEq for PackageId {
    fn eq(&self, other: &Self) -> (r: bool) {
        self.same_as(other)
    }
}

impl vstd::std_specs::cmp::PartialEqSpecImpl for PackageId {
    open spec fn obeys_eq_spec() -> bool {
        true
    }

    open spec fn eq_spec(&self, other: &Self) -> bool {
        self.same(*other)
    }
}

impl Eq for PackageId {
}

impl Clone for PackageId {
    fn clone(&self) -> (r: Self)
        ensures
            r == *self,
    {
        PackageId { name: self.name.clone(), source: self.source, repo: clone_opt_string(&self.repo) }
    }
}

impl Clone for PackageSummary {
    fn clone(&self) -> (r: Self)
        ensures
            r == *self,
    {
        PackageSummary {
            id: self.id.clone(),
            version: self.version.clone(),
            description: self.description.clone(),
            installed: self.installed,
            popular: self.popular,
            last_updated: self.last_updated,
        }
    }
}

impl PackageDetails {
    /// Same contents, with the lists compared by their elements.
    pub open spec fn same(self, o: PackageDetails) -> bool {
        &&& self.summary == o.summary
        &&& self.description == o.description
        &&& self.depends@ == o.depends@
        &&& self.opt_depends@ == o.opt_depends@
        &&& self.homepage == o.homepage
        &&& self.license == o.license
        &&& self.maintainer == o.maintainer
        &&& self.developer == o.developer
        &&& self.size_install == o.size_install
        &&& self.size_download == o.size_download
    }
}

impl Clone for PackageDetails {
    fn clone(&self) -> (r: Self)
        ensures
            r.same(*self),
    {
        PackageDetails {
            summary: self.summary.clone(),
            description: clone_opt_string(&self.description),
            depends: clone_strings(&self.depends),
            opt_depends: clone_strings(&self.opt_depends),
            homepage: clone_opt_string(&self.homepage),
            license: clone_opt_string(&self.license),
            maintainer: clone_opt_string(&self.maintainer),
            developer: clone_opt_string(&self.developer),
            size_install: self.size_install,
            size_download: self.size_download,
        }
    }
}

impl Clone for AppstreamMeta {
    fn clone(&self) -> (r: Self)
        ensures
            r == *self,
    {
        AppstreamMeta {
            name: self.name.clone(),
            summary: self.summary.clone(),
            description: self.description.clone(),
            version: clone_opt_string(&self.version),
            license: clone_opt_string(&self.license),
            developer: clone_opt_string(&self.developer),
            homepage: clone_opt_string(&self.homepage),
        }
    }
}

} // verus!
