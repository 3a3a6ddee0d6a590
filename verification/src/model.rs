//! The data model: configuration, attached files, raw event records, and
//! the release entity that the pipeline emits.
use vstd::prelude::*;

verus! {

/// Architecture filter mode.
#[derive(Clone, Copy, Debug, PartialEq, Eq, Structural)]
pub enum Arch {
    X86_64,
    Aarch64,
    All,
}

/// Output encoding chosen by the caller.
#[derive(Clone, Copy, Debug, PartialEq, Eq, Structural)]
pub enum OutputFormat {
    Json,
    Csv,
}

/// The run configuration, as handed in by the caller.
pub struct Args {
    pub start_time: String,
    pub end_time: String,
    pub format: OutputFormat,
    pub output: String,
    pub include_checksums: bool,
    pub arch: Arch,
}

/// A file attached to a release: its name and where to fetch it.
/// A field the event record lacks is carried as the empty string.
pub struct Asset {
    pub name: String,
    pub download_url: String,
}

/// Mathematical image of an `Asset`.
pub struct AssetV {
    pub name: Seq<char>,
    pub download_url: Seq<char>,
}

impl View for Asset {
    type V = AssetV;

    open spec fn view(&self) -> AssetV {
        AssetV { name: self.name@, download_url: self.download_url@ }
    }
}

impl Clone for Asset {
    fn clone(&self) -> (r: Self)
        ensures
            r@ == self@,
    {
        Asset { name: self.name.clone(), download_url: self.download_url.clone() }
    }
}

/// The views of a run of assets.
pub open spec fn asset_views(s: Seq<Asset>) -> Seq<AssetV> {
    Seq::new(s.len(), |i: int| s[i]@)
}

/// The view of an optional string.
pub open spec fn opt_view(o: Option<String>) -> Option<Seq<char>> {
    match o {
        Some(s) => Some(s@),
        None => None,
    }
}

/// One emitted download candidate: all derived fields are computed at
/// construction and never mutated afterwards.
pub struct AppImageRelease {
    pub repo: String,
    pub release_name: Option<String>,
    pub tag_name: Option<String>,
    pub published_at: String,
    pub appimage_name: String,
    pub download_url: String,
    pub architecture: Option<String>,
    pub package_name: String,
    pub version: String,
}

/// Mathematical image of an `AppImageRelease`.
pub struct ReleaseV {
    pub repo: Seq<char>,
    pub release_name: Option<Seq<char>>,
    pub tag_name: Option<Seq<char>>,
    pub published_at: Seq<char>,
    pub appimage_name: Seq<char>,
    pub download_url: Seq<char>,
    pub architecture: Option<Seq<char>>,
    pub package_name: Seq<char>,
    pub version: Seq<char>,
}

impl View for AppImageRelease {
    type V = ReleaseV;

    open spec fn view(&self) -> ReleaseV {
        ReleaseV {
            repo: self.repo@,
            release_name: opt_view(self.release_name),
            tag_name: opt_view(self.tag_name),
            published_at: self.published_at@,
            appimage_name: self.appimage_name@,
            download_url: self.download_url@,
            architecture: opt_view(self.architecture),
            package_name: self.package_name@,
            version: self.version@,
        }
    }
}

impl Clone for AppImageRelease {
    fn clone(&self) -> (r: Self)
        ensures
            r@ == self@,
    {
        AppImageRelease {
            repo: self.repo.clone(),
            release_name: clone_opt_string(&self.release_name),
            tag_name: clone_opt_string(&self.tag_name),
            published_at: self.published_at.clone(),
            appimage_name: self.appimage_name.clone(),
            download_url: self.download_url.clone(),
            architecture: clone_opt_string(&self.architecture),
            package_name: self.package_name.clone(),
            version: self.version.clone(),
        }
    }
}

/// Copies an optional string, keeping its view.
pub fn clone_opt_string(o: &Option<String>) -> (r: Option<String>)
    ensures
        opt_view(r) == opt_view(*o),
{
    match o {
        Some(s) => Some(s.clone()),
        None => None,
    }
}

/// The views of a run of release entities.
pub open spec fn entity_views(s: Seq<AppImageRelease>) -> Seq<ReleaseV> {
    Seq::new(s.len(), |i: int| s[i]@)
}

/// One event line as far as the pipeline reads it; a missing or
/// differently-typed field is `None`.
pub struct EventRecord {
    pub event_type: Option<String>,
    pub created_at: Option<String>,
    pub repo_name: Option<String>,
    pub release: Option<ReleaseRecord>,
}

/// The release payload of an event record.
pub struct ReleaseRecord {
    pub name: Option<String>,
    pub tag_name: Option<String>,
    pub published_at: Option<String>,
    pub assets: Option<Vec<Asset>>,
}

/// Mathematical image of an `EventRecord`.
pub struct EventRecordV {
    pub event_type: Option<Seq<char>>,
    pub created_at: Option<Seq<char>>,
    pub repo_name: Option<Seq<char>>,
    pub release: Option<ReleaseRecordV>,
}

/// Mathematical image of a `ReleaseRecord`.
pub struct ReleaseRecordV {
    pub name: Option<Seq<char>>,
    pub tag_name: Option<Seq<char>>,
    pub published_at: Option<Seq<char>>,
    pub assets: Option<Seq<AssetV>>,
}

impl View for ReleaseRecord {
    type V = ReleaseRecordV;

    open spec fn view(&self) -> ReleaseRecordV {
        ReleaseRecordV {
            name: opt_view(self.name),
            tag_name: opt_view(self.tag_name),
            published_at: opt_view(self.published_at),
            assets: match self.assets {
                Some(v) => Some(asset_views(v@)),
                None => None,
            },
        }
    }
}

impl View for EventRecord {
    type V = EventRecordV;

    open spec fn view(&self) -> EventRecordV {
        EventRecordV {
            event_type: opt_view(self.event_type),
            created_at: opt_view(self.created_at),
            repo_name: opt_view(self.repo_name),
            release: match self.release {
                Some(r) => Some(r@),
                None => None,
            },
        }
    }
}

} // verus!
