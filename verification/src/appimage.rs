//! AppImage files in the user's application folders: where they are looked
//! for, which files count as installed applications, the search over them,
//! and the paths and errors of downloads and removals.
use crate::executor::{name_extension, name_extension_of, name_stem, name_stem_of};
use crate::model::{AppImageBackend, Error, PackageDetails, PackageId, PackageSummary, Source};
use crate::text::{chars_of, contains, contains_chars, eq_chars, join2, join3, lowercase, string_from_chars, to_lowercase};
use crate::aur::views;
use vstd::prelude::*;

verus! {

/// The folders searched for AppImages under the home folder `home`.
pub open spec fn dirs_of(home: Seq<char>) -> Seq<Seq<char>> {
    seq![home + "/Applications"@, home + "/.local/bin"@, home + "/Applications/AppImage"@]
}

/// The file of the AppImage `name` in the folder `dir`.
pub open spec fn candidate(dir: Seq<char>, name: Seq<char>) -> Seq<char> {
    dir + "/"@ + name + ".AppImage"@
}

impl AppImageBackend {
    /// The folders where AppImages live.
    pub fn appimage_dirs(home: &str) -> (r: Vec<String>)
        ensures
            views(r@) == dirs_of(home@),
    {
        let mut v: Vec<String> = Vec::new();
        v.push(join2(home, "/Applications"));
        v.push(join2(home, "/.local/bin"));
        v.push(join2(home, "/Applications/AppImage"));
        assert(views(v@) =~= dirs_of(home@));
        v
    }

    /// The files that may hold the AppImage `name`, one per folder, in order.
    pub fn appimage_candidates(home: &str, name: &str) -> (r: Vec<String>)
        ensures
            views(r@) == seq![
                candidate(dirs_of(home@)[0], name@),
                candidate(dirs_of(home@)[1], name@),
                candidate(dirs_of(home@)[2], name@),
            ],
    {
        let dirs = Self::appimage_dirs(home);
        let file = join2(name, ".AppImage");
        proof {
            assert(views(dirs@).len() == dirs@.len());
            assert(dirs_of(home@).len() == 3);
        }
        let mut v: Vec<String> = Vec::new();
        v.push(join3(dirs[0].as_str(), "/", file.as_str()));
        v.push(join3(dirs[1].as_str(), "/", file.as_str()));
        v.push(join3(dirs[2].as_str(), "/", file.as_str()));
        proof {
            assert(views(dirs@)[0] == dirs@[0]@);
            assert(views(dirs@)[1] == dirs@[1]@);
            assert(views(dirs@)[2] == dirs@[2]@);
            assert(v@[0]@ =~= candidate(dirs_of(home@)[0], name@));
            assert(v@[1]@ =~= candidate(dirs_of(home@)[1], name@));
            assert(v@[2]@ =~= candidate(dirs_of(home@)[2], name@));
            assert(views(v@) =~= seq![
                candidate(dirs_of(home@)[0], name@),
                candidate(dirs_of(home@)[1], name@),
                candidate(dirs_of(home@)[2], name@),
            ]);
        }
        v
    }

    /// The first candidate file that exists (`exists[i]` tells for `candidates[i]`).
    pub fn find_appimage(candidates: &Vec<String>, exists: &Vec<bool>) -> (r: Option<String>)
        requires
            exists@.len() == candidates@.len(),
        ensures
            match r {
                Some(p) => exists|i: int|
                    0 <= i < candidates@.len() && exists@[i] && p == candidates@[i] && forall|j: int|
                        0 <= j < i ==> !#[trigger] exists@[j],
                None => forall|j: int| 0 <= j < exists@.len() ==> !#[trigger] exists@[j],
            },
    {
        let mut i: usize = 0;
        while i < candidates.len()
            invariant
                i <= candidates.len(),
                exists@.len() == candidates@.len(),
                forall|j: int| 0 <= j < i ==> !#[trigger] exists@[j],
            decreases candidates.len() - i,
        {
            if exists[i] {
                return Some(candidates[i].clone());
            }
            i = i + 1;
        }
        None
    }

    /// The error for an AppImage that is not there.
    pub fn not_found(name: &str) -> (e: Error)
        ensures
            e matches Error::AppImage(m) && m@ == name@ + " not found"@,
    {
        Error::AppImage(join2(name, " not found"))
    }
}

/// An installed AppImage: a file with the extension `AppImage` and a
/// non-empty stem, which is the application's name.
pub open spec fn entry_name(file_name: Seq<char>) -> Option<Seq<char>> {
    if name_extension(file_name) == Some("AppImage"@) && name_stem(file_name).len() > 0 {
        Some(name_stem(file_name))
    } else {
        None
    }
}

impl AppImageBackend {
    /// The summary of a file of an application folder, when it is an AppImage
    /// (`modified` is its modification time in seconds since the epoch, if known).
    pub fn entry_summary(file_name: &str, modified: Option<u64>) -> (r: Option<PackageSummary>)
        ensures
            match entry_name(file_name@) {
                Some(n) => r matches Some(s) && {
                    &&& s.id.name@ == n
                    &&& s.id.source == Source::AppImage
                    &&& s.id.repo is None
                    &&& s.version@.len() == 0
                    &&& s.description@.len() == 0
                    &&& s.installed
                    &&& s.popular is None
                    &&& s.last_updated == modified
                },
                None => r is None,
            },
    {
        let f = chars_of(file_name);
        let is_app = match name_extension_of(&f) {
            Some(e) => eq_chars(&e, &chars_of("AppImage")),
            None => false,
        };
        if !is_app {
            return None;
        }
        let stem = name_stem_of(&f);
        if stem.len() == 0 {
            return None;
        }
        Some(PackageSummary {
            id: PackageId { name: string_from_chars(&stem), source: Source::AppImage, repo: None },
            version: String::new(),
            description: String::new(),
            installed: true,
            popular: None,
            last_updated: modified,
        })
    }

    /// The installed AppImages whose lowercased name contains the lowercased query, in order.
    pub fn search(q: &str, installed: Vec<PackageSummary>) -> (r: Vec<PackageSummary>)
        ensures
            r@ == name_hits(installed@, lowercase(q@)),
    {
        let qc = chars_of(to_lowercase(q).as_str());
        let mut out: Vec<PackageSummary> = Vec::new();
        let mut i: usize = 0;
        while i < installed.len()
            invariant
                i <= installed.len(),
                qc@ == lowercase(q@),
                out@ == name_hits(installed@.take(i as int), lowercase(q@)),
            decreases installed.len() - i,
        {
            proof {
                let t = installed@.take(i + 1);
                assert(t.drop_last() =~= installed@.take(i as int));
                assert(t.last() == installed@[i as int]);
            }
            if contains_chars(&chars_of(to_lowercase(installed[i].id.name.as_str()).as_str()), &qc) {
                out.push(installed[i].clone());
            }
            i = i + 1;
        }
        assert(installed@.take(installed.len() as int) =~= installed@);
        out
    }

    /// The details of an installed AppImage of `size` bytes.
    pub fn details_of(id: &PackageId, size: u64) -> (d: PackageDetails)
        ensures
            d.summary.id == *id,
            d.summary.version@.len() == 0,
            d.summary.description@.len() == 0,
            d.summary.installed,
            d.summary.popular is None,
            d.summary.last_updated is None,
            d.description is None,
            d.depends@.len() == 0,
            d.opt_depends@.len() == 0,
            d.homepage is None,
            d.license is None,
            d.maintainer is None,
            d.developer is None,
            d.size_install == Some(size),
            d.size_download is None,
    {
        PackageDetails {
            summary: PackageSummary {
                id: id.clone(),
                version: String::new(),
                description: String::new(),
                installed: true,
                popular: None,
                last_updated: None,
            },
            description: None,
            depends: Vec::new(),
            opt_depends: Vec::new(),
            homepage: None,
            license: None,
            maintainer: None,
            developer: None,
            size_install: Some(size),
            size_download: None,
        }
    }

    /// Where a download goes: the folder, the final file and the partial file.
    pub fn install_paths(home: &str, name: &str) -> (r: (String, String, String))
        ensures
            r.0@ == home@ + "/Applications"@,
            r.1@ == home@ + "/Applications"@ + "/"@ + name@ + ".AppImage"@,
            r.2@ == home@ + "/Applications"@ + "/."@ + name@ + ".AppImage.part"@,
    {
        let dir = join2(home, "/Applications");
        let dest = join3(dir.as_str(), "/", join2(name, ".AppImage").as_str());
        let tmp = join3(dir.as_str(), "/.", join2(name, ".AppImage.part").as_str());
        (dir, dest, tmp)
    }

    /// The URL to download an AppImage from, which its id keeps as the repository.
    pub fn download_url(id: &PackageId) -> (r: Result<String, Error>)
        ensures
            match id.repo {
                Some(u) => r matches Ok(x) && x == u,
                None => r matches Err(Error::AppImage(m)) && m@ == "no download URL"@,
            },
    {
        match &id.repo {
            Some(u) => Ok(u.clone()),
            None => Err(Error::AppImage("no download URL".to_owned())),
        }
    }

    /// The byte counts to report after a chunk of a download: only when the total is known.
    pub fn download_progress(downloaded: u64, total: u64) -> (r: Option<(u64, u64)>)
        ensures
            r == if total > 0 {
                Some((downloaded, total))
            } else {
                None
            },
    {
        if total > 0 {
            Some((downloaded, total))
        } else {
            None
        }
    }

    /// The installed AppImages that can be upgraded: those whose id keeps a URL.
    pub fn upgradable(installed: &Vec<PackageSummary>) -> (r: Vec<PackageId>)
        ensures
            r@ == ids_with_url(installed@),
    {
        let mut out: Vec<PackageId> = Vec::new();
        let mut i: usize = 0;
        while i < installed.len()
            invariant
                i <= installed.len(),
                out@ == ids_with_url(installed@.take(i as int)),
            decreases installed.len() - i,
        {
            proof {
                let t = installed@.take(i + 1);
                assert(t.drop_last() =~= installed@.take(i as int));
                assert(t.last() == installed@[i as int]);
            }
            if installed[i].id.repo.is_some() {
                out.push(installed[i].id.clone());
            }
            i = i + 1;
        }
        assert(installed@.take(installed.len() as int) =~= installed@);
        out
    }
}

/// The packages whose lowercased name contains `q`, in order.
pub open spec fn name_hits(s: Seq<PackageSummary>, q: Seq<char>) -> Seq<PackageSummary>
    decreases s.len(),
{
    if s.len() == 0 {
        seq![]
    } else {
        let rest = name_hits(s.drop_last(), q);
        if contains(lowercase(s.last().id.name@), q) {
            rest.push(s.last())
        } else {
            rest
        }
    }
}

/// The ids that keep a URL, in order.
pub open spec fn ids_with_url(s: Seq<PackageSummary>) -> Seq<PackageId>
    decreases s.len(),
{
    if s.len() == 0 {
        seq![]
    } else {
        let rest = ids_with_url(s.drop_last());
        if s.last().id.repo is Some {
            rest.push(s.last().id)
        } else {
            rest
        }
    }
}

} // verus!
