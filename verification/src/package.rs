//! Bounded extraction of DeviceInfo from an FDI container.

use std::collections::BTreeMap;
use std::io::{Cursor, Read};

use vstd::prelude::*;
use zip::ZipArchive;

use crate::device::catalog::{
    CatalogLimits, CatalogLoadError, DeviceCatalog, DeviceKey, DeviceProfile,
};
use crate::device::schema::SchemaError;
use crate::ordered::{holds, put, KeySet};
use crate::strings::{byte_length, chars_of, text_bytes};

verus! {

/// Hard upper bound for a compressed package container.
pub const MAXIMUM_PACKAGE_ARCHIVE_BYTES: usize = 256 * 1024 * 1024;

/// Hard upper bound for archive entry count.
pub const MAXIMUM_PACKAGE_FILES: usize = 65_536;

/// Hard upper bound for an archive entry name.
pub const MAXIMUM_PACKAGE_FILE_NAME_BYTES: usize = 16 * 1024;

/// Hard upper bound for aggregate declared uncompressed content.
pub const MAXIMUM_PACKAGE_UNCOMPRESSED_BYTES: u64 = 1024 * 1024 * 1024;

/// Hard upper bound for one uncompressed entry.
pub const MAXIMUM_PACKAGE_FILE_BYTES: u64 = 64 * 1024 * 1024;

/// A ZIP archive of the `zip` crate.
#[verifier::external_type_specification]
#[verifier::external_body]
#[verifier::reject_recursive_types(R)]
pub struct ExZipArchive<R>(zip::ZipArchive<R>);

/// A reading position in memory.
#[verifier::external_type_specification]
#[verifier::external_body]
#[verifier::reject_recursive_types(T)]
pub struct ExCursor<T>(std::io::Cursor<T>);

/// An error of the `zip` crate.
#[verifier::external_type_specification]
#[verifier::external_body]
pub struct ExZipError(zip::result::ZipError);

/// A read error.
#[verifier::external_type_specification]
#[verifier::external_body]
pub struct ExIoError(std::io::Error);

/// The container that an archive was opened on.
pub uninterp spec fn archive_image(archive: ZipArchive<Cursor<&[u8]>>) -> Seq<u8>;

/// Number of entries of a container, unless it is invalid.
pub uninterp spec fn zip_count(container: Seq<u8>) -> Option<usize>;

/// What the entry of a container at an index declares, unless it is invalid:
/// its name, whether its path stays below the root, its uncompressed size, and
/// whether it is a file.
pub uninterp spec fn zip_entry(container: Seq<u8>, index: int) -> Option<
    (Seq<char>, bool, u64, bool),
>;

/// Uncompressed content of the entry of a container at an index, up to a
/// limit, unless it cannot be read.
pub uninterp spec fn zip_content(container: Seq<u8>, index: int, limit: u64) -> Option<Seq<u8>>;

/// Opens a container with `zip::ZipArchive::new`. Claimed is that the archive
/// stands for the container, and that whether it opens and how many entries it
/// has depends on the container alone.
#[verifier::external_body]
fn open_archive(container: &[u8]) -> (result: Result<
    ZipArchive<Cursor<&[u8]>>,
    zip::result::ZipError,
>)
    ensures
        match result {
            Ok(archive) => archive_image(archive) == container@ && zip_count(container@) is Some,
            Err(_) => zip_count(container@) is None,
        },
{
    ZipArchive::new(Cursor::new(container))
}

/// Counts the entries of an archive with `zip::ZipArchive::len`.
#[verifier::external_body]
fn entry_count(archive: &ZipArchive<Cursor<&[u8]>>) -> (count: usize)
    ensures
        zip_count(archive_image(*archive)) == Some(count),
{
    archive.len()
}

/// Looks at an entry with `zip::ZipArchive::by_index` and the accessors of
/// `zip::read::ZipFile`. Claimed is that the entry is the one that the
/// container has at the index, and that the container stays as it is.
#[verifier::external_body]
fn look_at_entry(archive: &mut ZipArchive<Cursor<&[u8]>>, index: usize) -> (result: Result<
    PackageEntry,
    zip::result::ZipError,
>)
    ensures
        archive_image(*final(archive)) == archive_image(*old(archive)),
        match result {
            Ok(entry) => zip_entry(archive_image(*old(archive)), index as int) == Some(
                (entry.name@, entry.enclosed, entry.size, entry.is_file),
            ),
            Err(_) => zip_entry(archive_image(*old(archive)), index as int) is None,
        },
{
    let file = archive.by_index(index)?;
    Ok(
        PackageEntry {
            name: file.name().to_owned(),
            enclosed: file.enclosed_name().is_some(),
            size: file.size(),
            is_file: file.is_file(),
        },
    )
}

/// Reads an entry with `zip::ZipArchive::by_index` and `std::io::Read::take`.
/// Claimed is that the content is what the container has at the index, that it
/// is no longer than the limit, and that the container stays as it is.
#[verifier::external_body]
fn read_entry(archive: &mut ZipArchive<Cursor<&[u8]>>, index: usize, limit: u64) -> (result: Result<
    Vec<u8>,
    std::io::Error,
>)
    ensures
        archive_image(*final(archive)) == archive_image(*old(archive)),
        match result {
            Ok(content) => zip_content(archive_image(*old(archive)), index as int, limit) == Some(
                content@,
            ) && content@.len() <= limit,
            Err(_) => zip_content(archive_image(*old(archive)), index as int, limit) is None,
        },
{
    let mut content = Vec::new();
    archive.by_index(index)?.take(limit).read_to_end(&mut content)?;
    Ok(content)
}

/// Extraction limits for an untrusted package.
#[derive(Debug, Clone, Copy, PartialEq, Eq, Structural)]
pub struct PackageLimits {
    /// Maximum size of the complete ZIP container.
    pub archive_bytes: usize,
    /// Maximum number of files in the archive.
    pub files: usize,
    /// Maximum UTF-8 byte length of one archive entry name.
    pub file_name_bytes: usize,
    /// Maximum total uncompressed size.
    pub uncompressed_bytes: u64,
    /// Maximum size of a single file.
    pub file_bytes: u64,
}

impl Default for PackageLimits {
    fn default() -> (limits: Self)
        ensures
            limits.archive_bytes == 67_108_864,
            limits.files == 1024,
            limits.file_name_bytes == 1024,
            limits.uncompressed_bytes == 67_108_864,
            limits.file_bytes == 8_388_608,
            limits.violation() is None,
    {
        PackageLimits {
            archive_bytes: 64 * 1024 * 1024,
            files: 1024,
            file_name_bytes: 1024,
            uncompressed_bytes: 64 * 1024 * 1024,
            file_bytes: 8 * 1024 * 1024,
        }
    }
}

impl PackageLimits {
    /// What is wrong with the limits, if anything.
    pub open spec fn violation(self) -> Option<ErrorView> {
        if self.archive_bytes == 0 || self.files == 0 || self.file_name_bytes == 0
            || self.uncompressed_bytes == 0 || self.file_bytes == 0 {
            Some(ErrorView::ZeroLimit)
        } else if self.archive_bytes > MAXIMUM_PACKAGE_ARCHIVE_BYTES {
            Some(ErrorView::LimitTooLarge("archive_bytes"))
        } else if self.files > MAXIMUM_PACKAGE_FILES {
            Some(ErrorView::LimitTooLarge("files"))
        } else if self.file_name_bytes > MAXIMUM_PACKAGE_FILE_NAME_BYTES {
            Some(ErrorView::LimitTooLarge("file_name_bytes"))
        } else if self.uncompressed_bytes > MAXIMUM_PACKAGE_UNCOMPRESSED_BYTES {
            Some(ErrorView::LimitTooLarge("uncompressed_bytes"))
        } else if self.file_bytes > MAXIMUM_PACKAGE_FILE_BYTES {
            Some(ErrorView::LimitTooLarge("file_bytes"))
        } else {
            None
        }
    }

    /// Rejects limits that cannot admit any useful package content.
    pub fn validate(self) -> (result: Result<(), PackageError>)
        ensures
            match self.violation() {
                Some(problem) => result matches Err(error) && error@ == problem,
                None => result is Ok,
            },
    {
        if self.archive_bytes == 0 || self.files == 0 || self.file_name_bytes == 0
            || self.uncompressed_bytes == 0 || self.file_bytes == 0 {
            return Err(PackageError::ZeroLimit);
        }
        if self.archive_bytes > MAXIMUM_PACKAGE_ARCHIVE_BYTES {
            return Err(PackageError::LimitTooLarge("archive_bytes"));
        }
        if self.files > MAXIMUM_PACKAGE_FILES {
            return Err(PackageError::LimitTooLarge("files"));
        }
        if self.file_name_bytes > MAXIMUM_PACKAGE_FILE_NAME_BYTES {
            return Err(PackageError::LimitTooLarge("file_name_bytes"));
        }
        if self.uncompressed_bytes > MAXIMUM_PACKAGE_UNCOMPRESSED_BYTES {
            return Err(PackageError::LimitTooLarge("uncompressed_bytes"));
        }
        if self.file_bytes > MAXIMUM_PACKAGE_FILE_BYTES {
            return Err(PackageError::LimitTooLarge("file_bytes"));
        }
        Ok(())
    }

    /// Sets the complete compressed-container byte limit.
    pub fn with_archive_bytes(self, archive_bytes: usize) -> (limits: Self)
        ensures
            limits == (PackageLimits { archive_bytes, ..self }),
    {
        PackageLimits { archive_bytes, ..self }
    }

    /// Sets the archive entry-count limit.
    pub fn with_files(self, files: usize) -> (limits: Self)
        ensures
            limits == (PackageLimits { files, ..self }),
    {
        PackageLimits { files, ..self }
    }

    /// Sets the maximum encoded entry-name length.
    pub fn with_file_name_bytes(self, file_name_bytes: usize) -> (limits: Self)
        ensures
            limits == (PackageLimits { file_name_bytes, ..self }),
    {
        PackageLimits { file_name_bytes, ..self }
    }

    /// Sets the aggregate uncompressed-size limit.
    pub fn with_uncompressed_bytes(self, uncompressed_bytes: u64) -> (limits: Self)
        ensures
            limits == (PackageLimits { uncompressed_bytes, ..self }),
    {
        PackageLimits { uncompressed_bytes, ..self }
    }

    /// Sets the per-file uncompressed-size limit.
    pub fn with_file_bytes(self, file_bytes: u64) -> (limits: Self)
        ensures
            limits == (PackageLimits { file_bytes, ..self }),
    {
        PackageLimits { file_bytes, ..self }
    }
}

/// Result of importing one package.
#[derive(Debug, Clone, PartialEq, Eq)]
pub struct PackageReport {
    /// Loaded device profiles.
    pub devices: Vec<DeviceKey>,
    /// Number of archive entries inspected.
    pub inspected_files: usize,
    /// JSON entries that did not match a valid HartLink DeviceInfo-style profile.
    pub skipped_json: Vec<String>,
}

/// Error produced while reading a package with enforced limits.
#[derive(Debug)]
pub enum PackageError {
    /// Package extraction limits must permit forward progress.
    ZeroLimit,
    /// A configured extraction limit exceeds its hard safety bound.
    LimitTooLarge(&'static str),
    /// The complete compressed container exceeds its configured limit.
    ArchiveSize {
        /// Actual compressed-container length.
        actual: usize,
        /// Configured maximum.
        maximum: usize,
    },
    /// The ZIP container is invalid.
    Zip(zip::result::ZipError),
    /// An extracted entry could not be read.
    Io(std::io::Error),
    /// The archive has too many entries.
    FileCount,
    /// An entry name is too large to retain safely in diagnostics.
    FileNameSize(usize),
    /// A single file exceeds its limit.
    FileSize(String),
    /// The total extracted size exceeds its limit.
    TotalSize,
    /// An entry path attempts to escape the archive root.
    UnsafePath(String),
    /// A DeviceInfo profile failed validation.
    Device(CatalogLoadError),
    /// Two package entries claim the same exact device revision.
    DuplicateDevice {
        /// Expanded device type.
        expanded_type: u16,
        /// Device revision.
        device_revision: u8,
    },
}

/// What a package error says, without the words of a reader.
pub enum ErrorView {
    ZeroLimit,
    LimitTooLarge(&'static str),
    ArchiveSize { actual: usize, maximum: usize },
    Zip,
    Io,
    FileCount,
    FileNameSize(usize),
    FileSize(Seq<char>),
    TotalSize,
    UnsafePath(Seq<char>),
    Device(CatalogLoadError),
    DuplicateDevice { expanded_type: u16, device_revision: u8 },
}

impl View for PackageError {
    type V = ErrorView;

    open spec fn view(&self) -> ErrorView {
        match self {
            PackageError::ZeroLimit => ErrorView::ZeroLimit,
            PackageError::LimitTooLarge(limit) => ErrorView::LimitTooLarge(limit),
            PackageError::ArchiveSize { actual, maximum } => ErrorView::ArchiveSize {
                actual: *actual,
                maximum: *maximum,
            },
            PackageError::Zip(_) => ErrorView::Zip,
            PackageError::Io(_) => ErrorView::Io,
            PackageError::FileCount => ErrorView::FileCount,
            PackageError::FileNameSize(length) => ErrorView::FileNameSize(*length),
            PackageError::FileSize(name) => ErrorView::FileSize(name@),
            PackageError::TotalSize => ErrorView::TotalSize,
            PackageError::UnsafePath(name) => ErrorView::UnsafePath(name@),
            PackageError::Device(error) => ErrorView::Device(*error),
            PackageError::DuplicateDevice { expanded_type, device_revision } =>
            ErrorView::DuplicateDevice {
                expanded_type: *expanded_type,
                device_revision: *device_revision,
            },
        }
    }
}

/// What an archive says of one of its entries.
#[derive(Debug, Clone, PartialEq, Eq)]
pub struct PackageEntry {
    /// Path in the archive.
    pub name: String,
    /// Whether the path stays below the archive root.
    pub enclosed: bool,
    /// Declared uncompressed size.
    pub size: u64,
    /// Whether the entry is a file, not a directory or a link.
    pub is_file: bool,
}

/// The lower-case form of an ASCII letter; any other character as it is.
pub open spec fn ascii_lower(character: char) -> char {
    if 'A' <= character && character <= 'Z' {
        (character as u32 + 32) as char
    } else {
        character
    }
}

/// Whether a name ends in `.json` in any mix of cases.
pub open spec fn names_json(name: Seq<char>) -> bool {
    let n = name.len();
    n >= 5 && name[n - 5] == '.' && ascii_lower(name[n - 4]) == 'j' && ascii_lower(name[n - 3])
        == 's' && ascii_lower(name[n - 2]) == 'o' && ascii_lower(name[n - 1]) == 'n'
}

fn is_letter(character: char, upper: char, lower: char) -> (same: bool)
    requires
        'A' <= upper && upper <= 'Z',
        lower == (upper as u32 + 32) as char,
    ensures
        same == (ascii_lower(character) == lower),
{
    proof {
        crate::strings::lemma_char_range(character);
        crate::strings::lemma_char_range(upper);
        crate::strings::lemma_char_range(lower);
        if 'A' <= character && character <= 'Z' {
            crate::strings::lemma_char_range((character as u32 + 32) as char);
        }
    }
    character == upper || character == lower
}

fn is_json_name(name: &str) -> (result: bool)
    ensures
        result == names_json(name@),
{
    let characters = chars_of(name);
    let n: usize = characters.len();
    n >= 5 && characters[n - 5] == '.' && is_letter(characters[n - 4], 'J', 'j') && is_letter(
        characters[n - 3],
        'S',
        's',
    ) && is_letter(characters[n - 2], 'O', 'o') && is_letter(characters[n - 1], 'N', 'n')
}

/// The texts of strings.
pub open spec fn texts(strings: Seq<String>) -> Seq<Seq<char>> {
    Seq::new(strings.len(), |index: int| strings[index]@)
}

/// How far an import has come.
#[verifier::ext_equal]
pub struct ImportView {
    /// Profiles of the catalog and of the package so far.
    pub catalog: Map<u32, DeviceProfile>,
    /// Declared size of the entries so far.
    pub total: nat,
    /// Size of the JSON content so far.
    pub json_bytes: nat,
    /// Keys of the loaded profiles, in order.
    pub devices: Seq<DeviceKey>,
    /// Names of the JSON entries that hold no valid profile, in order.
    pub skipped: Seq<Seq<char>>,
    /// Numbers of the keys of the loaded profiles.
    pub keys: Set<u32>,
}

impl ImportView {
    /// An import that has not looked at any entry.
    pub open spec fn fresh(catalog: Map<u32, DeviceProfile>) -> ImportView {
        ImportView {
            catalog,
            total: 0,
            json_bytes: 0,
            devices: Seq::empty(),
            skipped: Seq::empty(),
            keys: Set::empty(),
        }
    }

    /// The import after the declaration of an entry.
    pub open spec fn inspecting(
        self,
        limits: PackageLimits,
        name: Seq<char>,
        enclosed: bool,
        size: u64,
    ) -> Result<ImportView, ErrorView> {
        if text_bytes(name).len() > limits.file_name_bytes {
            Err(ErrorView::FileNameSize(text_bytes(name).len() as usize))
        } else if !enclosed {
            Err(ErrorView::UnsafePath(name))
        } else if size > limits.file_bytes {
            Err(ErrorView::FileSize(name))
        } else if self.total + size > limits.uncompressed_bytes {
            Err(ErrorView::TotalSize)
        } else {
            Ok(ImportView { total: self.total + size as nat, ..self })
        }
    }

    /// The import after the content of a JSON entry was read.
    pub open spec fn measuring(self, limits: PackageLimits, name: Seq<char>, length: nat) -> Result<
        ImportView,
        ErrorView,
    > {
        if length > limits.file_bytes {
            Err(ErrorView::FileSize(name))
        } else if self.json_bytes + length > limits.uncompressed_bytes {
            Err(ErrorView::TotalSize)
        } else {
            Ok(ImportView { json_bytes: self.json_bytes + length, ..self })
        }
    }

    /// The import after a JSON entry was parsed. An entry without a valid
    /// profile is skipped; one that the catalog has no room for, or that comes
    /// twice, ends the import.
    pub open spec fn loading(
        self,
        bounds: CatalogLimits,
        name: Seq<char>,
        length: nat,
        parsed: Result<DeviceProfile, String>,
    ) -> Result<ImportView, ErrorView> {
        if length > bounds.json_bytes {
            Err(
                ErrorView::Device(
                    CatalogLoadError::JsonLimit {
                        actual: length as usize,
                        maximum: bounds.json_bytes,
                    },
                ),
            )
        } else {
            let skipping = ImportView { skipped: self.skipped.push(name), ..self };
            match parsed {
                Err(_) => Ok(skipping),
                Ok(profile) => {
                    let index = profile.key.index();
                    if !profile.usable() {
                        Ok(skipping)
                    } else if !self.catalog.contains_key(index) && self.catalog.len()
                        >= bounds.profiles {
                        Err(
                            ErrorView::Device(
                                CatalogLoadError::Schema(
                                    SchemaError::CatalogProfileLimit(bounds.profiles),
                                ),
                            ),
                        )
                    } else if self.keys.contains(index) {
                        Err(
                            ErrorView::DuplicateDevice {
                                expanded_type: profile.key.expanded_type,
                                device_revision: profile.key.device_revision,
                            },
                        )
                    } else {
                        Ok(
                            ImportView {
                                catalog: self.catalog.insert(index, profile),
                                devices: self.devices.push(profile.key),
                                keys: self.keys.insert(index),
                                ..self
                            },
                        )
                    }
                },
            }
        }
    }

    /// The import after the entry of a container at an index, given what the
    /// parser makes of its content.
    pub open spec fn importing(
        self,
        limits: PackageLimits,
        bounds: CatalogLimits,
        container: Seq<u8>,
        index: int,
        parsed: Result<DeviceProfile, String>,
    ) -> Result<ImportView, ErrorView> {
        match zip_entry(container, index) {
            None => Err(ErrorView::Zip),
            Some((name, enclosed, size, is_file)) => match self.inspecting(
                limits,
                name,
                enclosed,
                size,
            ) {
                Err(error) => Err(error),
                Ok(inspected) => if !is_file || !names_json(name) {
                    Ok(inspected)
                } else {
                    match zip_content(container, index, (limits.file_bytes + 1) as u64) {
                        None => Err(ErrorView::Io),
                        Some(content) => match inspected.measuring(limits, name, content.len()) {
                            Err(error) => Err(error),
                            Ok(measured) => measured.loading(
                                bounds,
                                name,
                                content.len(),
                                parsed,
                            ),
                        },
                    }
                },
            },
        }
    }

    /// The import after the first entries of a container, given what the
    /// parser makes of their contents.
    pub open spec fn importing_all(
        self,
        limits: PackageLimits,
        bounds: CatalogLimits,
        container: Seq<u8>,
        parses: Seq<Result<DeviceProfile, String>>,
        count: nat,
    ) -> Result<ImportView, ErrorView>
        decreases count,
    {
        if count == 0 {
            Ok(self)
        } else {
            match self.importing_all(limits, bounds, container, parses, (count - 1) as nat) {
                Err(error) => Err(error),
                Ok(state) => state.importing(
                    limits,
                    bounds,
                    container,
                    count - 1,
                    parses[count - 1],
                ),
            }
        }
    }
}

proof fn lemma_later_parses_are_irrelevant(
    start: ImportView,
    limits: PackageLimits,
    bounds: CatalogLimits,
    container: Seq<u8>,
    left: Seq<Result<DeviceProfile, String>>,
    right: Seq<Result<DeviceProfile, String>>,
    count: nat,
)
    requires
        count <= left.len(),
        count <= right.len(),
        forall|index: int| 0 <= index < count ==> left[index] == right[index],
    ensures
        start.importing_all(limits, bounds, container, left, count) == start.importing_all(
            limits,
            bounds,
            container,
            right,
            count,
        ),
    decreases count,
{
    if count > 0 {
        lemma_later_parses_are_irrelevant(
            start,
            limits,
            bounds,
            container,
            left,
            right,
            (count - 1) as nat,
        );
    }
}

proof fn lemma_errors_end_the_import(
    start: ImportView,
    limits: PackageLimits,
    bounds: CatalogLimits,
    container: Seq<u8>,
    parses: Seq<Result<DeviceProfile, String>>,
    early: nat,
    late: nat,
)
    requires
        early <= late,
        start.importing_all(limits, bounds, container, parses, early) is Err,
    ensures
        start.importing_all(limits, bounds, container, parses, late) == start.importing_all(
            limits,
            bounds,
            container,
            parses,
            early,
        ),
    decreases late,
{
    if early < late {
        lemma_errors_end_the_import(
            start,
            limits,
            bounds,
            container,
            parses,
            early,
            (late - 1) as nat,
        );
    }
}

/// An import in progress. It works on a copy of the catalog, so that an import
/// that ends early leaves no trace.
#[derive(Debug)]
pub struct PackageImport {
    limits: PackageLimits,
    staging: DeviceCatalog,
    total: u64,
    json_bytes: u64,
    devices: Vec<DeviceKey>,
    skipped_json: Vec<String>,
    package_keys: KeySet<u32>,
}

impl View for PackageImport {
    type V = ImportView;

    closed spec fn view(&self) -> ImportView {
        ImportView {
            catalog: self.staging@,
            total: self.total as nat,
            json_bytes: self.json_bytes as nat,
            devices: self.devices@,
            skipped: texts(self.skipped_json@),
            keys: self.package_keys@.dom(),
        }
    }
}

impl PackageImport {
    /// The limits of the package.
    pub closed spec fn package_limits(&self) -> PackageLimits {
        self.limits
    }

    /// The limits of the catalog.
    pub closed spec fn catalog_limits(&self) -> CatalogLimits {
        self.staging.bounds()
    }

    /// The catalog and the limits are usable, and no size exceeds its limit.
    pub closed spec fn well_formed(&self) -> bool {
        &&& self.limits.violation() is None
        &&& self.staging.well_formed()
        &&& self.total <= self.limits.uncompressed_bytes
        &&& self.json_bytes <= self.limits.uncompressed_bytes
    }

    /// Starts the import of a container with some size, unless the limits are
    /// invalid or the container is too large.
    pub fn begin(catalog: &DeviceCatalog, limits: PackageLimits, container_bytes: usize) -> (result:
        Result<Self, PackageError>)
        requires
            catalog.well_formed(),
        ensures
            match limits.violation() {
                Some(problem) => result matches Err(error) && error@ == problem,
                None => if container_bytes > limits.archive_bytes {
                    result matches Err(error) && error@ == (ErrorView::ArchiveSize {
                        actual: container_bytes,
                        maximum: limits.archive_bytes,
                    })
                } else {
                    result matches Ok(import) && import.well_formed() && import@
                        == ImportView::fresh(catalog@) && import.package_limits() == limits
                        && import.catalog_limits() == catalog.bounds()
                },
            },
    {
        limits.validate()?;
        if container_bytes > limits.archive_bytes {
            return Err(
                PackageError::ArchiveSize {
                    actual: container_bytes,
                    maximum: limits.archive_bytes,
                },
            );
        }
        let import = PackageImport {
            limits,
            staging: catalog.clone(),
            total: 0,
            json_bytes: 0,
            devices: Vec::new(),
            skipped_json: Vec::new(),
            package_keys: BTreeMap::new(),
        };
        assert(import@ =~= ImportView::fresh(catalog@));
        Ok(import)
    }

    /// Takes over how many entries the container has.
    pub fn admit_count(&self, count: usize) -> (result: Result<(), PackageError>)
        ensures
            if count > self.package_limits().files {
                result matches Err(error) && error@ == ErrorView::FileCount
            } else {
                result is Ok
            },
    {
        if count > self.limits.files {
            return Err(PackageError::FileCount);
        }
        Ok(())
    }

    /// Takes over the declaration of an entry, and tells whether its content
    /// is to be read.
    pub fn inspect(self, entry: &PackageEntry) -> (result: Result<(Self, bool), PackageError>)
        requires
            self.well_formed(),
        ensures
            match self@.inspecting(
                self.package_limits(),
                entry.name@,
                entry.enclosed,
                entry.size,
            ) {
                Err(problem) => result matches Err(error) && error@ == problem,
                Ok(state) => result matches Ok((import, wanted)) && import.well_formed() && import@
                    == state && import.package_limits() == self.package_limits()
                    && import.catalog_limits() == self.catalog_limits() && wanted == (entry.is_file
                    && names_json(entry.name@)),
            },
    {
        let length: usize = byte_length(&entry.name);
        if length > self.limits.file_name_bytes {
            return Err(PackageError::FileNameSize(length));
        }
        if !entry.enclosed {
            return Err(PackageError::UnsafePath(copy_text(&entry.name)));
        }
        if entry.size > self.limits.file_bytes {
            return Err(PackageError::FileSize(copy_text(&entry.name)));
        }
        if entry.size > self.limits.uncompressed_bytes - self.total {
            return Err(PackageError::TotalSize);
        }
        let total: u64 = self.total + entry.size;
        let wanted = entry.is_file && is_json_name(&entry.name);
        Ok((PackageImport { total, ..self }, wanted))
    }

    /// Takes over how long the content of a JSON entry is.
    pub fn measure(self, name: &str, length: usize) -> (result: Result<Self, PackageError>)
        requires
            self.well_formed(),
        ensures
            match self@.measuring(self.package_limits(), name@, length as nat) {
                Err(problem) => result matches Err(error) && error@ == problem,
                Ok(state) => result matches Ok(import) && import.well_formed() && import@ == state
                    && import.package_limits() == self.package_limits() && import.catalog_limits()
                    == self.catalog_limits(),
            },
    {
        if length as u64 > self.limits.file_bytes {
            return Err(PackageError::FileSize(copy_text(name)));
        }
        if length as u64 > self.limits.uncompressed_bytes - self.json_bytes {
            return Err(PackageError::TotalSize);
        }
        let json_bytes: u64 = self.json_bytes + length as u64;
        Ok(PackageImport { json_bytes, ..self })
    }

    /// Tells whether a JSON content is short enough for the catalog to be parsed.
    pub fn parses(&self, length: usize) -> (wanted: bool)
        ensures
            wanted == (length <= self.catalog_limits().json_bytes),
    {
        self.staging.admit_json(length).is_ok()
    }

    /// Takes over what the parser made of a JSON entry.
    pub fn load(self, name: &str, content: &[u8], parsed: Result<DeviceProfile, String>) -> (result:
        Result<Self, PackageError>)
        requires
            self.well_formed(),
        ensures
            match self@.loading(self.catalog_limits(), name@, content@.len(), parsed) {
                Err(problem) => result matches Err(error) && error@ == problem,
                Ok(state) => result matches Ok(import) && import.well_formed() && import@ == state
                    && import.package_limits() == self.package_limits() && import.catalog_limits()
                    == self.catalog_limits(),
            },
    {
        let ghost before = self@;
        let ghost given = parsed;
        let mut import = self;
        match import.staging.load_json(content, parsed) {
            Ok(key) => {
                if holds(&import.package_keys, key.number()) {
                    return Err(
                        PackageError::DuplicateDevice {
                            expanded_type: key.expanded_type,
                            device_revision: key.device_revision,
                        },
                    );
                }
                put(&mut import.package_keys, key.number(), ());
                import.devices.push(key);
                assert(import@.keys =~= before.keys.insert(key.index()));
            },
            Err(CatalogLoadError::JsonLimit { actual, maximum }) => {
                return Err(PackageError::Device(CatalogLoadError::JsonLimit { actual, maximum }));
            },
            Err(CatalogLoadError::Schema(SchemaError::CatalogProfileLimit(limit))) => {
                proof {
                    if let Ok(profile) = given {
                        let problem = SchemaError::CatalogProfileLimit(limit)@;
                        if profile.refused_with(problem) {
                            crate::device::catalog::lemma_profile_is_not_a_full_catalog(
                                profile,
                                problem,
                            );
                        }
                    }
                }
                return Err(
                    PackageError::Device(
                        CatalogLoadError::Schema(SchemaError::CatalogProfileLimit(limit)),
                    ),
                );
            },
            Err(_) => {
                import.skipped_json.push(copy_text(name));
                assert(import@.skipped =~= before.skipped.push(name@));
            },
        }
        Ok(import)
    }

    /// Ends the import after all entries.
    pub fn finish(self, inspected_files: usize) -> (result: (DeviceCatalog, PackageReport))
        requires
            self.well_formed(),
        ensures
            result.0.well_formed(),
            result.0@ == self@.catalog,
            result.0.bounds() == self.catalog_limits(),
            result.1.devices@ == self@.devices,
            result.1.inspected_files == inspected_files,
            texts(result.1.skipped_json@) == self@.skipped,
    {
        (
            self.staging,
            PackageReport {
                devices: self.devices,
                inspected_files,
                skipped_json: self.skipped_json,
            },
        )
    }
}

fn copy_text(text: &str) -> (copy: String)
    ensures
        copy@ == text@,
{
    String::from_str(text)
}

/// Whether the parser is asked about a content of an entry.
pub open spec fn asks(
    state: ImportView,
    limits: PackageLimits,
    bounds: CatalogLimits,
    container: Seq<u8>,
    index: int,
    content: Seq<u8>,
) -> bool {
    &&& zip_entry(container, index) matches Some((name, enclosed, size, is_file))
    &&& state.inspecting(limits, name, enclosed, size) matches Ok(inspected)
    &&& is_file
    &&& names_json(name)
    &&& zip_content(container, index, (limits.file_bytes + 1) as u64) == Some(content)
    &&& inspected.measuring(limits, name, content.len()) is Ok
    &&& content.len() <= bounds.json_bytes
}

/// Whether the parser is asked about a content of an entry, after the entries
/// before it.
pub open spec fn consulted(
    start: ImportView,
    limits: PackageLimits,
    bounds: CatalogLimits,
    container: Seq<u8>,
    parses: Seq<Result<DeviceProfile, String>>,
    index: int,
    content: Seq<u8>,
) -> bool {
    start.importing_all(limits, bounds, container, parses, index as nat) matches Ok(state) && asks(
        state,
        limits,
        bounds,
        container,
        index,
        content,
    )
}

/// Whether a parser may have said something of a content.
pub open spec fn parsed_as<F: Fn(&[u8]) -> Result<DeviceProfile, String>>(
    parse: F,
    content: Seq<u8>,
    parsed: Result<DeviceProfile, String>,
) -> bool {
    exists|bytes: &[u8]| bytes@ == content && #[trigger] call_ensures(parse, (bytes,), parsed)
}

/// Loads JSON profiles from a package without extracting the archive to disk.
///
/// `parse` turns the content of a JSON entry into the profile that it stands
/// for, or into a message. An import that fails leaves the catalog as it was.
pub fn import_package<F: Fn(&[u8]) -> Result<DeviceProfile, String>>(
    bytes: &[u8],
    catalog: &mut DeviceCatalog,
    limits: PackageLimits,
    parse: F,
) -> (result: Result<PackageReport, PackageError>)
    requires
        old(catalog).well_formed(),
        forall|content: &[u8]| call_requires(parse, (content,)),
    ensures
        final(catalog).well_formed(),
        final(catalog).bounds() == old(catalog).bounds(),
        result is Err ==> final(catalog)@ == old(catalog)@,
        if limits.violation() is Some {
            result matches Err(error) && error@ == limits.violation()->0
        } else if bytes@.len() > limits.archive_bytes {
            result matches Err(error) && error@ == (ErrorView::ArchiveSize {
                actual: bytes@.len() as usize,
                maximum: limits.archive_bytes,
            })
        } else {
            match zip_count(bytes@) {
                None => result matches Err(error) && error@ == ErrorView::Zip,
                Some(count) => if count > limits.files {
                    result matches Err(error) && error@ == ErrorView::FileCount
                } else {
                    let start = ImportView::fresh(old(catalog)@);
                    let bounds = old(catalog).bounds();
                    exists|parses: Seq<Result<DeviceProfile, String>>|
                        {
                            &&& forall|index: int, content: Seq<u8>|
                                0 <= index < count && #[trigger] consulted(
                                    start,
                                    limits,
                                    bounds,
                                    bytes@,
                                    parses,
                                    index,
                                    content,
                                ) ==> parsed_as(parse, content, parses[index])
                            &&& match #[trigger] start.importing_all(
                                limits,
                                bounds,
                                bytes@,
                                parses,
                                count as nat,
                            ) {
                                Err(problem) => result matches Err(error) && error@ == problem,
                                Ok(state) => result matches Ok(report) && final(catalog)@
                                    == state.catalog && report.devices@ == state.devices
                                    && report.inspected_files == count && texts(
                                    report.skipped_json@,
                                ) == state.skipped,
                            }
                        }
                },
            }
        },
{
    let mut import = PackageImport::begin(catalog, limits, bytes.len())?;
    let mut archive = match open_archive(bytes) {
        Ok(archive) => archive,
        Err(error) => return Err(PackageError::Zip(error)),
    };
    let count: usize = entry_count(&archive);
    import.admit_count(count)?;
    let ghost start = import@;
    let ghost bounds = catalog.bounds();
    let ghost mut parses: Seq<Result<DeviceProfile, String>> = Seq::empty();
    let mut index: usize = 0;
    while index < count
        invariant
            index <= count,
            forall|content: &[u8]| call_requires(parse, (content,)),
            *catalog == *old(catalog),
            old(catalog).well_formed(),
            start == ImportView::fresh(old(catalog)@),
            bounds == old(catalog).bounds(),
            limits.violation() is None,
            bytes@.len() <= limits.archive_bytes,
            zip_count(bytes@) == Some(count),
            count <= limits.files,
            archive_image(archive) == bytes@,
            import.well_formed(),
            import.package_limits() == limits,
            import.catalog_limits() == bounds,
            parses.len() == index,
            start.importing_all(limits, bounds, bytes@, parses, index as nat) == Ok::<
                ImportView,
                ErrorView,
            >(import@),
            forall|at: int, content: Seq<u8>|
                0 <= at < index && #[trigger] consulted(
                    start,
                    limits,
                    bounds,
                    bytes@,
                    parses,
                    at,
                    content,
                ) ==> parsed_as(parse, content, parses[at]),
        decreases count - index,
    {
        let ghost state = import@;
        let ghost earlier = parses;
        let outcome = import_entry(import, &mut archive, index, &parse);
        proof {
            let parsed = choose|parsed: Result<DeviceProfile, String>|
                entry_imported(state, limits, bounds, bytes@, index as int, parse, parsed, outcome);
            parses = earlier.push(parsed);
            lemma_later_parses_are_irrelevant(
                start,
                limits,
                bounds,
                bytes@,
                earlier,
                parses,
                index as nat,
            );
            assert forall|at: int, content: Seq<u8>|
                0 <= at < index + 1 && #[trigger] consulted(
                    start,
                    limits,
                    bounds,
                    bytes@,
                    parses,
                    at,
                    content,
                ) implies parsed_as(parse, content, parses[at]) by {
                if at < index {
                    lemma_later_parses_are_irrelevant(
                        start,
                        limits,
                        bounds,
                        bytes@,
                        earlier,
                        parses,
                        at as nat,
                    );
                    assert(consulted(start, limits, bounds, bytes@, earlier, at, content));
                }
            }
        }
        match outcome {
            Ok(next) => {
                import = next;
            },
            Err(error) => {
                proof {
                    let rest = Seq::new(
                        count as nat,
                        |at: int|
                            if at < parses.len() {
                                parses[at]
                            } else {
                                arbitrary()
                            },
                    );
                    lemma_later_parses_are_irrelevant(
                        start,
                        limits,
                        bounds,
                        bytes@,
                        parses,
                        rest,
                        (index + 1) as nat,
                    );
                    lemma_errors_end_the_import(
                        start,
                        limits,
                        bounds,
                        bytes@,
                        rest,
                        (index + 1) as nat,
                        count as nat,
                    );
                    assert forall|at: int, content: Seq<u8>|
                        0 <= at < count && #[trigger] consulted(
                            start,
                            limits,
                            bounds,
                            bytes@,
                            rest,
                            at,
                            content,
                        ) implies parsed_as(parse, content, rest[at]) by {
                        if at <= index {
                            lemma_later_parses_are_irrelevant(
                                start,
                                limits,
                                bounds,
                                bytes@,
                                parses,
                                rest,
                                at as nat,
                            );
                            assert(consulted(start, limits, bounds, bytes@, parses, at, content));
                        } else {
                            lemma_errors_end_the_import(
                                start,
                                limits,
                                bounds,
                                bytes@,
                                rest,
                                (index + 1) as nat,
                                at as nat,
                            );
                        }
                    }
                }
                return Err(error);
            },
        }
        index += 1;
    }
    let (staging, report) = import.finish(count);
    *catalog = staging;
    Ok(report)
}

/// Whether an entry was imported as the container and the parser say.
pub open spec fn entry_imported<F: Fn(&[u8]) -> Result<DeviceProfile, String>>(
    state: ImportView,
    limits: PackageLimits,
    bounds: CatalogLimits,
    container: Seq<u8>,
    index: int,
    parse: F,
    parsed: Result<DeviceProfile, String>,
    outcome: Result<PackageImport, PackageError>,
) -> bool {
    &&& match state.importing(limits, bounds, container, index, parsed) {
        Err(problem) => outcome matches Err(error) && error@ == problem,
        Ok(next) => outcome matches Ok(import) && import@ == next,
    }
    &&& forall|content: Seq<u8>| #[trigger]
        asks(state, limits, bounds, container, index, content) ==> parsed_as(parse, content, parsed)
}

fn import_entry<F: Fn(&[u8]) -> Result<DeviceProfile, String>>(
    import: PackageImport,
    archive: &mut ZipArchive<Cursor<&[u8]>>,
    index: usize,
    parse: &F,
) -> (result: Result<PackageImport, PackageError>)
    requires
        import.well_formed(),
        forall|content: &[u8]| call_requires(*parse, (content,)),
    ensures
        archive_image(*final(archive)) == archive_image(*old(archive)),
        result matches Ok(next) ==> next.well_formed() && next.package_limits()
            == import.package_limits() && next.catalog_limits() == import.catalog_limits(),
        exists|parsed: Result<DeviceProfile, String>|
            entry_imported(
                import@,
                import.package_limits(),
                import.catalog_limits(),
                archive_image(*old(archive)),
                index as int,
                *parse,
                parsed,
                result,
            ),
{
    let ghost container = archive_image(*archive);
    let ghost any: Result<DeviceProfile, String> = arbitrary();
    let ghost state = import@;
    let ghost limits = import.package_limits();
    let ghost bounds = import.catalog_limits();
    let entry = match look_at_entry(archive, index) {
        Ok(entry) => entry,
        Err(error) => {
            let result = Err(PackageError::Zip(error));
            assert(entry_imported(state, limits, bounds, container, index as int, *parse, any, result));
            return result;
        },
    };
    let (import, wanted) = match import.inspect(&entry) {
        Ok(inspected) => inspected,
        Err(error) => {
            let result = Err(error);
            assert(entry_imported(state, limits, bounds, container, index as int, *parse, any, result));
            return result;
        },
    };
    if !wanted {
        let result = Ok(import);
        assert(entry_imported(state, limits, bounds, container, index as int, *parse, any, result));
        return result;
    }
    let content = match read_entry(archive, index, import.limits.file_bytes + 1) {
        Ok(content) => content,
        Err(error) => {
            let result = Err(PackageError::Io(error));
            assert(entry_imported(state, limits, bounds, container, index as int, *parse, any, result));
            return result;
        },
    };
    let import = match import.measure(&entry.name, content.len()) {
        Ok(measured) => measured,
        Err(error) => {
            let result = Err(error);
            assert(entry_imported(state, limits, bounds, container, index as int, *parse, any, result));
            return result;
        },
    };
    let parsed = if import.parses(content.len()) {
        let slice: &[u8] = content.as_slice();
        let parsed = parse(slice);
        assert(parsed_as(*parse, content@, parsed)) by {
            assert(slice@ == content@);
        }
        parsed
    } else {
        Err(String::new())
    };
    let ghost given = parsed;
    let result = import.load(&entry.name, &content, parsed);
    assert(entry_imported(state, limits, bounds, container, index as int, *parse, given, result));
    result
}

/// A file name is that of a description exactly when it ends in a dot and the
/// four letters, in whichever case.
pub proof fn lemma_description_names(name: Seq<char>)
    ensures
        names_json(name) <==> name.len() >= 5 && name[name.len() - 5] == '.' && (name[name.len() - 4]
            == 'j' || name[name.len() - 4] == 'J') && (name[name.len() - 3] == 's' || name[name.len()
            - 3] == 'S') && (name[name.len() - 2] == 'o' || name[name.len() - 2] == 'O') && (
        name[name.len() - 1] == 'n' || name[name.len() - 1] == 'N'),
{
}

/// An entry passes exactly when its name is not too long and stays below the
/// root, it is not too large, and all entries so far fit together; its size is
/// added to them.
pub proof fn lemma_entry_passes(
    import: ImportView,
    limits: PackageLimits,
    name: Seq<char>,
    enclosed: bool,
    size: u64,
)
    ensures
        import.inspecting(limits, name, enclosed, size) is Ok <==> text_bytes(name).len()
            <= limits.file_name_bytes && enclosed && size <= limits.file_bytes && import.total + size
            <= limits.uncompressed_bytes,
        import.inspecting(limits, name, enclosed, size) matches Ok(after) ==> after.total
            == import.total + size && after.catalog == import.catalog && after.devices
            == import.devices && after.skipped == import.skipped && after.keys == import.keys,
        import.measuring(limits, name, size as nat) is Ok <==> size <= limits.file_bytes
            && import.json_bytes + size <= limits.uncompressed_bytes,
        import.measuring(limits, name, size as nat) matches Ok(after) ==> after.json_bytes
            == import.json_bytes + size && after.catalog == import.catalog,
{
}

/// A description that is valid and fits is put into the catalog and listed, and
/// no other device changes; one that is not valid is skipped by name and
/// changes nothing else. The same device twice in one package is an error,
/// whether or not the catalog knew it.
pub proof fn lemma_description_is_loaded(
    import: ImportView,
    bounds: CatalogLimits,
    name: Seq<char>,
    length: nat,
    parsed: Result<DeviceProfile, String>,
    other: u32,
)
    requires
        length <= bounds.json_bytes,
        import.catalog.len() < bounds.profiles,
    ensures
        match parsed {
            Ok(profile) => if profile.usable() {
                let index = profile.key.index();
                match import.loading(bounds, name, length, parsed) {
                    Ok(after) => !import.keys.contains(index) && after.catalog.contains_key(index)
                        && after.catalog[index] == profile && after.devices
                        == import.devices.push(profile.key) && after.keys.contains(index)
                        && after.skipped == import.skipped && (other != index ==> (
                    after.catalog.contains_key(other) <==> import.catalog.contains_key(other)) && (
                    import.catalog.contains_key(other) ==> after.catalog[other]
                        == import.catalog[other])),
                    Err(error) => import.keys.contains(index) && error == (
                    ErrorView::DuplicateDevice {
                        expanded_type: profile.key.expanded_type,
                        device_revision: profile.key.device_revision,
                    }),
                }
            } else {
                import.loading(bounds, name, length, parsed) matches Ok(after) && after.catalog
                    == import.catalog && after.devices == import.devices && after.keys
                    == import.keys && after.skipped == import.skipped.push(name)
            },
            Err(_) => import.loading(bounds, name, length, parsed) matches Ok(after)
                && after.catalog == import.catalog && after.devices == import.devices
                && after.skipped == import.skipped.push(name),
        },
{
}

/// The limits of an import are positive and at most their fixed maxima.
pub proof fn lemma_package_limits(limits: PackageLimits)
    ensures
        limits.violation() is None <==> 1 <= limits.archive_bytes <= MAXIMUM_PACKAGE_ARCHIVE_BYTES
            && 1 <= limits.files <= MAXIMUM_PACKAGE_FILES && 1 <= limits.file_name_bytes
            <= MAXIMUM_PACKAGE_FILE_NAME_BYTES && 1 <= limits.uncompressed_bytes
            <= MAXIMUM_PACKAGE_UNCOMPRESSED_BYTES && 1 <= limits.file_bytes
            <= MAXIMUM_PACKAGE_FILE_BYTES,
{
}

/// Whatever a container holds, an import that succeeds stays within its limits
/// and reports each device once: every reported device is in the catalog under
/// its own key, no two have the same key, and a catalog entry that the
/// container does not bring stays as it was. An entry is a device, a skipped
/// description or neither.
#[verifier::spinoff_prover]
#[verifier::rlimit(40)]
pub proof fn lemma_import_reports_its_devices(
    start: ImportView,
    limits: PackageLimits,
    bounds: CatalogLimits,
    container: Seq<u8>,
    parses: Seq<Result<DeviceProfile, String>>,
    count: nat,
)
    requires
        start == ImportView::fresh(start.catalog),
    ensures
        start.importing_all(limits, bounds, container, parses, count) matches Ok(state) ==> {
            &&& state.total <= limits.uncompressed_bytes
            &&& state.json_bytes <= limits.uncompressed_bytes
            &&& state.devices.len() + state.skipped.len() <= count
            &&& forall|i: int|
                0 <= i < state.devices.len() ==> state.keys.contains(
                    (#[trigger] state.devices[i]).index(),
                ) && state.catalog.contains_key(state.devices[i].index())
                    && state.catalog[state.devices[i].index()].key == state.devices[i]
            &&& forall|i: int, j: int|
                0 <= i < j < state.devices.len() ==> (#[trigger] state.devices[i]).index() != (
                #[trigger] state.devices[j]).index()
            &&& forall|key: u32|
                !(#[trigger] state.keys.contains(key)) ==> (state.catalog.contains_key(key)
                    <==> start.catalog.contains_key(key)) && (start.catalog.contains_key(key)
                    ==> state.catalog[key] == start.catalog[key])
        },
    decreases count,
{
    if count > 0 {
        lemma_import_reports_its_devices(
            start,
            limits,
            bounds,
            container,
            parses,
            (count - 1) as nat,
        );
    }
}

} // verus!
