//! Entity types of the pipeline and the name-derived classification and
//! pairing rules that connect a media file to its metadata sidecar.

use vstd::prelude::*;
use vstd::string::StrSliceExecFns;

verus! {

/// Lifecycle of one remote compressed export.
#[derive(Debug, Clone)]
pub enum ArchiveStatus {
    New,
    Downloading,
    Downloaded,
    DownloadFailed(String),
    ExaminingZip,
    ProcessedZip,
    ExtractionFailed(String),
}

/// Lifecycle of one file unpacked from an archive.
#[derive(Debug, Clone)]
pub enum EntryStatus {
    Unassociated,
    Associated,
    Processing,
    Processed,
    NoDate,
    NoPair,
    Failed(String),
}

/// A file is either a media file or a metadata sidecar describing one.
#[derive(Debug, Clone, Copy, PartialEq, Eq, Structural)]
pub enum FileKind {
    Media,
    Sidecar,
}

/// One remote compressed export bundle.
#[derive(Debug, Clone)]
pub struct Archive {
    pub id: u64,
    pub external_id: String,
    pub display_name: String,
    pub local_staging_path: String,
    pub status: ArchiveStatus,
}

/// One file unpacked from an archive.
#[derive(Debug, Clone)]
pub struct FileEntry {
    pub id: u64,
    pub archive_id: u64,
    pub name: String,
    pub path: String,
    pub kind: FileKind,
    pub status: EntryStatus,
    pub related_entry_id: Option<u64>,
}

/// The durable artifact of one fully processed media/sidecar pair.
#[derive(Debug, Clone)]
pub struct MediaRecord {
    pub file_name: String,
    pub final_path: String,
    pub raw_metadata: String,
}

impl Archive {
    /// The staging path is recorded exactly while a downloaded archive
    /// awaits or undergoes extraction.
    pub open spec fn wf(self) -> bool {
        (self.local_staging_path@.len() > 0) <==> (self.status is Downloaded
            || self.status is ExaminingZip)
    }

    /// Field-wise copy; the derived clone says nothing about its result.
    pub fn duplicate(&self) -> (r: Archive)
        ensures
            r == *self,
    {
        Archive {
            id: self.id,
            external_id: self.external_id.clone(),
            display_name: self.display_name.clone(),
            local_staging_path: self.local_staging_path.clone(),
            status: self.status.duplicate(),
        }
    }
}

impl ArchiveStatus {
    /// Field-wise copy; the derived clone says nothing about its result.
    pub fn duplicate(&self) -> (r: ArchiveStatus)
        ensures
            r == *self,
    {
        match self {
            ArchiveStatus::New => ArchiveStatus::New,
            ArchiveStatus::Downloading => ArchiveStatus::Downloading,
            ArchiveStatus::Downloaded => ArchiveStatus::Downloaded,
            ArchiveStatus::DownloadFailed(m) => ArchiveStatus::DownloadFailed(m.clone()),
            ArchiveStatus::ExaminingZip => ArchiveStatus::ExaminingZip,
            ArchiveStatus::ProcessedZip => ArchiveStatus::ProcessedZip,
            ArchiveStatus::ExtractionFailed(m) => ArchiveStatus::ExtractionFailed(m.clone()),
        }
    }
}

impl EntryStatus {
    /// Field-wise copy; the derived clone says nothing about its result.
    pub fn duplicate(&self) -> (r: EntryStatus)
        ensures
            r == *self,
    {
        match self {
            EntryStatus::Unassociated => EntryStatus::Unassociated,
            EntryStatus::Associated => EntryStatus::Associated,
            EntryStatus::Processing => EntryStatus::Processing,
            EntryStatus::Processed => EntryStatus::Processed,
            EntryStatus::NoDate => EntryStatus::NoDate,
            EntryStatus::NoPair => EntryStatus::NoPair,
            EntryStatus::Failed(m) => EntryStatus::Failed(m.clone()),
        }
    }
}

impl FileEntry {
    /// Field-wise copy; the derived clone says nothing about its result.
    pub fn duplicate(&self) -> (r: FileEntry)
        ensures
            r == *self,
    {
        FileEntry {
            id: self.id,
            archive_id: self.archive_id,
            name: self.name.clone(),
            path: self.path.clone(),
            kind: self.kind,
            status: self.status.duplicate(),
            related_entry_id: self.related_entry_id,
        }
    }

    /// The key under which this entry meets its counterpart of the
    /// opposite kind within the same archive.
    pub open spec fn spec_key(self) -> Seq<char> {
        spec_pairing_key(self.name@)
    }

    pub open spec fn opposite_kind(self) -> FileKind {
        opposite(self.kind)
    }
}

pub open spec fn opposite(k: FileKind) -> FileKind {
    match k {
        FileKind::Media => FileKind::Sidecar,
        FileKind::Sidecar => FileKind::Media,
    }
}

/// A name denotes a metadata sidecar when it carries the sidecar suffix
/// `.json`.
pub open spec fn is_sidecar_name(s: Seq<char>) -> bool {
    &&& s.len() >= 5
    &&& s[s.len() - 5] == '.'
    &&& s[s.len() - 4] == 'j'
    &&& s[s.len() - 3] == 's'
    &&& s[s.len() - 2] == 'o'
    &&& s[s.len() - 1] == 'n'
}

pub open spec fn spec_kind_of(s: Seq<char>) -> FileKind {
    if is_sidecar_name(s) {
        FileKind::Sidecar
    } else {
        FileKind::Media
    }
}

/// The pairing key: a sidecar's name with the sidecar suffix stripped, a
/// media file's name unchanged.
pub open spec fn spec_pairing_key(s: Seq<char>) -> Seq<char> {
    if is_sidecar_name(s) {
        s.subrange(0, s.len() - 5)
    } else {
        s
    }
}

/// Derives the kind of an entry from its name.
pub fn classify_name(name: &str) -> (k: FileKind)
    ensures
        k == spec_kind_of(name@),
{
    let n = name.unicode_len();
    if n >= 5 && name.get_char(n - 5) == '.' && name.get_char(n - 4) == 'j' && name.get_char(
        n - 3,
    ) == 's' && name.get_char(n - 2) == 'o' && name.get_char(n - 1) == 'n' {
        FileKind::Sidecar
    } else {
        FileKind::Media
    }
}

/// Computes the pairing key of a name.
pub fn pairing_key_of(name: &str) -> (r: String)
    ensures
        r@ == spec_pairing_key(name@),
{
    let n = name.unicode_len();
    if matches!(classify_name(name), FileKind::Sidecar) {
        let stem = name.substring_char(0, n - 5);
        stem.to_owned()
    } else {
        name.to_owned()
    }
}

} // verus!
