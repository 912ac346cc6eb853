use vstd::prelude::*;
use vstd::string::StringExecFns;
use crate::utils::{first_match, DoubleVecIndex};
use ata::{ATABus, BusDrive};
use fat16::{sectors_of, BootSector, ReadCursor};

pub mod ata;
pub mod fat16;
pub mod io;
pub mod names;

verus! {

/// Bytes in one sector of the block device.
pub const SECTOR_SIZE: usize = 512;

/// A creation time as the directory record packs it, field by field and
/// without any check of the ranges.
#[derive(Debug, Clone, Copy, PartialEq, Eq, Structural)]
pub struct TimeStamp {
    pub second: u8,
    pub minute: u8,
    pub hour: u8,
    pub day: u8,
    pub month: u8,
    pub year: u16,
}

impl Default for TimeStamp {
    fn default() -> (stamp: Self)
        ensures
            stamp == (TimeStamp { second: 0, minute: 0, hour: 0, day: 0, month: 0, year: 0 }),
    {
        TimeStamp { second: 0, minute: 0, hour: 0, day: 0, month: 0, year: 0 }
    }
}

/// An entry that a directory files under a name until the name is asked
/// for.
pub trait StorageEntry: Sized {
    /// The name under which a directory files the entry.
    spec fn spec_key(&self) -> Seq<char>;

    /// The name under which a directory files the entry.
    fn key(&self) -> (name: String)
        ensures
            name@ == self.spec_key(),
    ;
}

/// A file that a directory has looked up: where its bytes begin, and how
/// many they are.
#[derive(Debug)]
pub struct File {
    pub name: String,
    pub ext: String,
    pub start_sector: usize,
    pub start_cluster: u16,
    pub size: u32,
    pub time_stamp: TimeStamp,
}

/// What a file descriptor holds, its strings as text.
pub struct FileView {
    pub name: Seq<char>,
    pub ext: Seq<char>,
    pub start_sector: usize,
    pub start_cluster: u16,
    pub size: u32,
    pub time_stamp: TimeStamp,
}

impl View for File {
    type V = FileView;

    open spec fn view(&self) -> FileView {
        FileView {
            name: self.name@,
            ext: self.ext@,
            start_sector: self.start_sector,
            start_cluster: self.start_cluster,
            size: self.size,
            time_stamp: self.time_stamp,
        }
    }
}

impl File {
    /// Base and extension with a dot between them.
    pub fn name(&self) -> (full: String)
        ensures
            full@ == self.name@ + "."@ + self.ext@,
    {
        let mut full = self.name.clone();
        full.append(".");
        full.append(self.ext.as_str());
        full
    }
}

/// What became of a name that was looked up in a directory: the place, from
/// 1, that it took in the list of the directory's loaded sub-directories or
/// in that of its loaded files, or that the directory holds no such name.
#[derive(Debug, Clone, Copy, PartialEq, Eq, Structural)]
pub enum LoadChildResult {
    Directory(usize),
    File(usize),
    NotFound,
}

/// A directory: the entries that nobody has asked for yet, filed by name,
/// and the files and sub-directories that were made of the others.
#[derive(Debug)]
pub struct Directory<T: StorageEntry> {
    pub files: Vec<File>,
    pub directories: Vec<Box<Directory<T>>>,
    contents: DoubleVecIndex<String, T>,
    name: String,
}

impl<T: StorageEntry> Directory<T> {
    /// The entries that nobody has asked for yet, in the order of the
    /// volume.
    pub closed spec fn unresolved(&self) -> Seq<T> {
        self.contents@
    }

    /// The directory's own name.
    pub closed spec fn spec_name(&self) -> Seq<char> {
        self.name@
    }

    /// The files that were made of entries, in the order in which they were
    /// asked for.
    pub closed spec fn spec_files(&self) -> Seq<File> {
        self.files@
    }

    /// The sub-directories that were made of entries, in the order in which
    /// they were asked for.
    pub closed spec fn spec_directories(&self) -> Seq<Box<Directory<T>>> {
        self.directories@
    }

    /// The entries are filed under their own names.
    pub closed spec fn wf(&self) -> bool {
        self.contents.wf()
    }

    /// A directory of which nothing has been asked for yet.
    pub fn new(name: String, entries: Vec<T>) -> (directory: Self)
        ensures
            directory.wf(),
            directory.unresolved() == entries@,
            directory.spec_name() == name@,
            directory.spec_files().len() == 0,
            directory.spec_directories().len() == 0,
    {
        Directory {
            contents: DoubleVecIndex::new(entries),
            files: Vec::new(),
            directories: Vec::new(),
            name,
        }
    }

    /// Takes the first entry that goes by `key` out of those that nobody has
    /// asked for yet.
    pub fn take(&mut self, key: String) -> (found: Option<T>)
        requires
            old(self).wf(),
        ensures
            final(self).wf(),
            final(self).spec_files() == old(self).spec_files(),
            final(self).spec_directories() == old(self).spec_directories(),
            final(self).spec_name() == old(self).spec_name(),
            ({
                let at = first_match(old(self).unresolved(), key@);
                if at < old(self).unresolved().len() {
                    found == Some(old(self).unresolved()[at]) && final(self).unresolved() == old(
                        self,
                    ).unresolved().remove(at)
                } else {
                    found is None && final(self).unresolved() == old(self).unresolved()
                }
            }),
    {
        self.contents.take(key)
    }

    /// The first entry that goes by `key` among those that nobody has asked
    /// for yet, left where it is.
    pub fn peek(&self, key: &String) -> (found: Option<&T>)
        requires
            self.wf(),
        ensures
            ({
                let at = first_match(self.unresolved(), key@);
                if at < self.unresolved().len() {
                    found == Some(&self.unresolved()[at])
                } else {
                    found is None
                }
            }),
    {
        self.contents.get(key)
    }

    /// The directory's own name.
    pub fn name(&self) -> (name: &String)
        ensures
            name@ == self.spec_name(),
    {
        &self.name
    }

    /// Puts `file` behind the files that the directory has loaded, and says
    /// how many they are then.
    pub fn push_file(&mut self, file: File) -> (count: usize)
        ensures
            final(self).spec_files() == old(self).spec_files().push(file),
            final(self).spec_directories() == old(self).spec_directories(),
            final(self).unresolved() == old(self).unresolved(),
            final(self).spec_name() == old(self).spec_name(),
            final(self).wf() == old(self).wf(),
            count == final(self).spec_files().len(),
    {
        self.files.push(file);
        self.files.len()
    }

    /// Puts `directory` behind the sub-directories that the directory has
    /// loaded, and says how many they are then.
    pub fn push_directory(&mut self, directory: Directory<T>) -> (count: usize)
        ensures
            final(self).spec_directories() == old(self).spec_directories().push(
                Box::new(directory),
            ),
            final(self).spec_files() == old(self).spec_files(),
            final(self).unresolved() == old(self).unresolved(),
            final(self).spec_name() == old(self).spec_name(),
            final(self).wf() == old(self).wf(),
            count == final(self).spec_directories().len(),
    {
        self.directories.push(Box::new(directory));
        self.directories.len()
    }

    /// The names that nobody has asked for yet.
    pub fn unloaded(&self) -> (names: Vec<String>)
        requires
            self.wf(),
        ensures
            names@.len() == self.unresolved().len(),
            forall|i: int|
                0 <= i < names@.len() ==> (#[trigger] names@[i])@
                    == self.unresolved()[i].spec_key(),
    {
        self.contents.keys()
    }
}

/// A format of volumes: how a device's sectors make a tree of directories
/// and files. The format reads nothing itself; it is handed the sectors
/// that it needs.
pub trait StorageFormat: Sized {
    type Entry: StorageEntry;

    /// The volume on `drive` whose first sector is `boot`.
    spec fn spec_new(ata_bus: ATABus, drive: BusDrive, boot: Seq<u8>) -> Self;

    /// Mounts the volume on `drive` whose first sector is `boot`.
    fn new(ata_bus: &ATABus, drive: BusDrive, boot: &[u8; SECTOR_SIZE]) -> (volume: Self)
        ensures
            volume == Self::spec_new(*ata_bus, drive, boot@),
    ;

    /// The geometry of the volume.
    spec fn spec_boot_sector(&self) -> BootSector;

    /// The geometry of the volume.
    fn boot_sector(&self) -> (boot: BootSector)
        ensures
            boot == self.spec_boot_sector(),
    ;

    /// Bytes that the sectors of the root directory hold; none where the
    /// volume's geometry gives the root no place.
    spec fn root_len(&self) -> Option<int>;

    /// `root` is the root directory that `sectors` hold.
    spec fn spec_root(&self, sectors: Seq<u8>, root: Directory<Self::Entry>) -> bool;

    /// The root directory, whose sectors `sectors` holds.
    fn get_root(&self, sectors: &[u8]) -> (root: Directory<Self::Entry>)
        requires
            self.root_len() == Some(sectors.len() as int),
        ensures
            root.wf(),
            self.spec_root(sectors@, root),
    ;

    /// `child` can be loaded from `directory` with `len` bytes of sectors
    /// at hand.
    spec fn child_ready(
        &self,
        child: Seq<char>,
        directory: Directory<Self::Entry>,
        len: int,
    ) -> bool;

    /// What loading `child` from the directory `before` reports.
    spec fn spec_load_result(
        &self,
        child: Seq<char>,
        before: Directory<Self::Entry>,
    ) -> LoadChildResult;

    /// `after` is the directory `before` with `child` loaded.
    spec fn spec_loaded(
        &self,
        child: Seq<char>,
        before: Directory<Self::Entry>,
        sectors: Seq<u8>,
        after: Directory<Self::Entry>,
    ) -> bool;

    /// Moves `child` from the entries of `directory` that nobody has asked
    /// for yet to its loaded files or its loaded sub-directories.
    fn load_child(
        &self,
        child: String,
        directory: &mut Directory<Self::Entry>,
        sectors: &[u8],
    ) -> (result: LoadChildResult)
        requires
            old(directory).wf(),
            self.child_ready(child@, *old(directory), sectors.len() as int),
        ensures
            final(directory).wf(),
            result == self.spec_load_result(child@, *old(directory)),
            self.spec_loaded(child@, *old(directory), sectors@, *final(directory)),
    ;

    /// Whether `entry` stands for a directory.
    spec fn spec_is_directory(entry: &Self::Entry) -> bool;

    /// Whether `entry` stands for a directory.
    fn is_directory(entry: &Self::Entry) -> (directory: bool)
        ensures
            directory == Self::spec_is_directory(entry),
    ;

    /// The bytes of `file`, of whose sectors `sectors` holds at least as
    /// many bytes as the file has: what stands behind the file's size is cut
    /// off, whatever it is.
    fn get_content(&self, file: &File, sectors: Vec<u8>) -> (content: Vec<u8>)
        requires
            sectors@.len() >= file.size,
        ensures
            content@ == sectors@.take(file.size as int),
    ;

    /// A read of `len` bytes of `file`, from its byte `offset` on, before
    /// its first sector.
    fn read_bytes(&self, file: &File, len: usize, offset: usize) -> (cursor: ReadCursor)
        requires
            offset + len <= usize::MAX,
            file.start_sector + sectors_of(offset + len) <= usize::MAX,
        ensures
            cursor == (ReadCursor {
                sector: (file.start_sector + offset / SECTOR_SIZE) as usize,
                sector_offset: offset % SECTOR_SIZE,
                remaining: len,
                dst_offset: 0,
            }),
            cursor.wf(),
    ;
}

/// Why a name could not be loaded as what it was asked for.
#[derive(Debug, Clone, Copy, PartialEq, Eq, Structural)]
pub enum FsError {
    /// The directory holds no such name among the entries that nobody has
    /// asked for yet.
    NotFound,
    /// A directory was asked for, and the name is a file's.
    ExpectedDirectory,
    /// A file was asked for, and the name is a directory's.
    ExpectedFile,
}

/// A volume of some format.
#[derive(Debug)]
pub struct FileSystem<T: StorageFormat> {
    pub storage_format: T,
}

impl<T: StorageFormat> FileSystem<T> {
    /// The file system on the volume of `drive` whose first sector is
    /// `boot`.
    pub fn new(ata: &ATABus, drive: BusDrive, boot: &[u8; SECTOR_SIZE]) -> (file_system: Self)
        ensures
            file_system.storage_format == T::spec_new(*ata, drive, boot@),
    {
        let storage_format = T::new(ata, drive, boot);
        FileSystem { storage_format }
    }

    /// The root directory, whose sectors `sectors` holds.
    pub fn root(&self, sectors: &[u8]) -> (root: Directory<T::Entry>)
        requires
            self.storage_format.root_len() == Some(sectors.len() as int),
        ensures
            root.wf(),
            self.storage_format.spec_root(sectors@, root),
    {
        self.storage_format.get_root(sectors)
    }

    /// Loads `child` and reports whether it is a directory. The entry is
    /// loaded as what it is even where that is a file.
    pub fn load_directory(
        &self,
        child: String,
        directory: &mut Directory<T::Entry>,
        sectors: &[u8],
    ) -> (result: Result<(), FsError>)
        requires
            old(directory).wf(),
            self.storage_format.child_ready(child@, *old(directory), sectors.len() as int),
        ensures
            final(directory).wf(),
            self.storage_format.spec_loaded(child@, *old(directory), sectors@, *final(directory)),
            result == match self.storage_format.spec_load_result(child@, *old(directory)) {
                LoadChildResult::Directory(_) => Ok::<(), FsError>(()),
                LoadChildResult::File(_) => Err(FsError::ExpectedDirectory),
                LoadChildResult::NotFound => Err(FsError::NotFound),
            },
    {
        match self.storage_format.load_child(child, directory, sectors) {
            LoadChildResult::Directory(_) => Ok(()),
            LoadChildResult::File(_) => Err(FsError::ExpectedDirectory),
            LoadChildResult::NotFound => Err(FsError::NotFound),
        }
    }

    /// The bytes of `file`, of whose sectors `sectors` holds at least as
    /// many bytes as the file has.
    pub fn get_content(&self, file: &File, sectors: Vec<u8>) -> (content: Vec<u8>)
        requires
            sectors@.len() >= file.size,
        ensures
            content@ == sectors@.take(file.size as int),
    {
        self.storage_format.get_content(file, sectors)
    }

    /// Loads `child` and reports whether it is a file. The entry is loaded
    /// as what it is even where that is a directory.
    pub fn load_file(
        &self,
        child: String,
        directory: &mut Directory<T::Entry>,
        sectors: &[u8],
    ) -> (result: Result<(), FsError>)
        requires
            old(directory).wf(),
            self.storage_format.child_ready(child@, *old(directory), sectors.len() as int),
        ensures
            final(directory).wf(),
            self.storage_format.spec_loaded(child@, *old(directory), sectors@, *final(directory)),
            result == match self.storage_format.spec_load_result(child@, *old(directory)) {
                LoadChildResult::File(_) => Ok::<(), FsError>(()),
                LoadChildResult::Directory(_) => Err(FsError::ExpectedFile),
                LoadChildResult::NotFound => Err(FsError::NotFound),
            },
    {
        match self.storage_format.load_child(child, directory, sectors) {
            LoadChildResult::File(_) => Ok(()),
            LoadChildResult::Directory(_) => Err(FsError::ExpectedFile),
            LoadChildResult::NotFound => Err(FsError::NotFound),
        }
    }
}

} // verus!
