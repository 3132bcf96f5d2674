//! Packing a directory of files into numbered chunks of content.
use vstd::prelude::*;
use crate::common::FRAGMENT_SIZE;

verus! {

/// The last component of a path, as `std::path::Path::file_name` gives it.
pub uninterp spec fn spec_path_file_name(path: Seq<char>) -> Option<Seq<char>>;

/// `std::path::Path::file_name` of `path`, as text; none when the path ends
/// in `..` or has no component, or when the name is not valid text. The
/// contract names the result as a function of the path.
#[verifier::external_body]
fn path_file_name(path: &str) -> (r: Option<String>)
    ensures
        match r {
            Some(n) => spec_path_file_name(path@) == Some(n@),
            None => spec_path_file_name(path@) is None,
        },
{
    match std::path::Path::new(path).file_name() {
        Some(n) => match n.to_str() {
            Some(s) => Some(s.to_string()),
            None => None,
        },
        None => None,
    }
}

/// Splits the files of a directory into chunks of `chunk_size` bytes.
pub struct Packer {
    chunk_size: u16,
    src_dir: String,
    dest_dir: String,
    name: String,
    files: Vec<(String, u64)>,
}

/// The number of chunk slots a file of `size` bytes takes in a packing: none
/// for an empty file, one for a file smaller than a chunk, and otherwise one
/// more than the whole chunks, and one more again for a remainder.
pub open spec fn spec_packer_offset(size: u64, chunk_size: u16) -> nat {
    if size < chunk_size {
        if size != 0 {
            1
        } else {
            0
        }
    } else {
        let whole = size / (chunk_size as u64);
        let remainder = size % (chunk_size as u64);
        (whole + 1 + if remainder > 0 {
            1nat
        } else {
            0nat
        }) as nat
    }
}

/// The number of chunk slots `offset` gives a file of `size` bytes, at most
/// the largest `u64`.
pub open spec fn saturated_offset(size: u64, chunk_size: u16) -> nat {
    if spec_packer_offset(size, chunk_size) <= u64::MAX {
        spec_packer_offset(size, chunk_size)
    } else {
        u64::MAX as nat
    }
}

/// The offset a packing records for a file of `size` bytes: its slots, less
/// one when it has any.
pub open spec fn publish_slot(size: u64, chunk_size: u16) -> nat {
    if saturated_offset(size, chunk_size) != 0 {
        (saturated_offset(size, chunk_size) - 1) as nat
    } else {
        0
    }
}

/// The offsets a packing records for files of the sizes `sizes`, added up.
pub open spec fn publish_total(sizes: Seq<u64>, chunk_size: u16) -> nat
    decreases sizes.len(),
{
    if sizes.len() == 0 {
        0
    } else {
        publish_total(sizes.drop_last(), chunk_size) + publish_slot(sizes.last(), chunk_size)
    }
}

/// The sizes of the listed files.
pub open spec fn packed_sizes(files: Seq<(String, u64)>) -> Seq<u64> {
    Seq::new(files.len(), |i: int| files[i].1)
}

impl Packer {
    /// The chunk size.
    pub closed spec fn spec_chunk_size(&self) -> u16 {
        self.chunk_size
    }

    /// The source directory.
    pub closed spec fn spec_src_dir(&self) -> Seq<char> {
        self.src_dir@
    }

    /// The destination directory.
    pub closed spec fn spec_dest_dir(&self) -> Seq<char> {
        self.dest_dir@
    }

    /// The name of the content.
    pub closed spec fn spec_name(&self) -> Seq<char> {
        self.name@
    }

    /// The files and their sizes.
    pub closed spec fn spec_files(&self) -> Seq<(String, u64)> {
        self.files@
    }

    /// A packer of the files `files` (with their sizes) found under
    /// `source_dir`, writing to `dest_dir`, naming the content after the last
    /// component of `source_dir`, with chunks of a fragment's size. The path
    /// must have a last component.
    pub fn new(source_dir: &str, dest_dir: &str, files: Vec<(String, u64)>) -> (r: Self)
        requires
            spec_path_file_name(source_dir@) is Some,
        ensures
            r.spec_name() == spec_path_file_name(source_dir@)->0,
            r.spec_src_dir() == source_dir@,
            r.spec_dest_dir() == dest_dir@,
            r.spec_files() == files@,
            r.spec_chunk_size() == FRAGMENT_SIZE,
    {
        let name = match path_file_name(source_dir) {
            Some(name) => name,
            None => {
                // The requires rules this out.
                proof {
                    assert(false);
                }
                String::new()
            },
        };
        Self { chunk_size: 1024, src_dir: source_dir.to_owned(), dest_dir: dest_dir.to_owned(), name, files }
    }

    /// `new`, where `source_dir` has a last component to name the content
    /// by; none otherwise.
    pub fn checked_new(source_dir: &str, dest_dir: &str, files: Vec<(String, u64)>) -> (r: Option<Self>)
        ensures
            match spec_path_file_name(source_dir@) {
                Some(n) => r matches Some(p) && p.spec_name() == n && p.spec_src_dir() == source_dir@
                    && p.spec_dest_dir() == dest_dir@ && p.spec_files() == files@
                    && p.spec_chunk_size() == FRAGMENT_SIZE,
                None => r is None,
            },
    {
        match path_file_name(source_dir) {
            Some(_) => Some(Self::new(source_dir, dest_dir, files)),
            None => None,
        }
    }

    /// This packer reading from `dir`.
    pub fn src_dir(self, dir: &str) -> (r: Self)
        ensures
            r.spec_src_dir() == dir@,
            r.spec_dest_dir() == self.spec_dest_dir(),
            r.spec_name() == self.spec_name(),
            r.spec_chunk_size() == self.spec_chunk_size(),
            r.spec_files() == self.spec_files(),
    {
        let mut s = self;
        s.src_dir = dir.to_owned();
        s
    }

    /// This packer writing to `dir`.
    pub fn dest_dir(self, dir: &str) -> (r: Self)
        ensures
            r.spec_dest_dir() == dir@,
            r.spec_src_dir() == self.spec_src_dir(),
            r.spec_name() == self.spec_name(),
            r.spec_chunk_size() == self.spec_chunk_size(),
            r.spec_files() == self.spec_files(),
    {
        let mut s = self;
        s.dest_dir = dir.to_owned();
        s
    }

    /// This packer with chunks of `chunk_size` bytes.
    pub fn chunk_size(self, chunk_size: u16) -> (r: Self)
        ensures
            r.spec_chunk_size() == chunk_size,
            r.spec_src_dir() == self.spec_src_dir(),
            r.spec_dest_dir() == self.spec_dest_dir(),
            r.spec_name() == self.spec_name(),
            r.spec_files() == self.spec_files(),
    {
        let mut s = self;
        s.chunk_size = chunk_size;
        s
    }

    /// This packer naming the content `name`.
    pub fn name(self, name: String) -> (r: Self)
        ensures
            r.spec_name() == name@,
            r.spec_src_dir() == self.spec_src_dir(),
            r.spec_dest_dir() == self.spec_dest_dir(),
            r.spec_chunk_size() == self.spec_chunk_size(),
            r.spec_files() == self.spec_files(),
    {
        let mut s = self;
        s.name = name;
        s
    }

    /// The offsets a packing records for each file, in order, and their sum.
    pub fn publish_offsets(&self) -> (r: (Vec<u64>, u64))
        requires
            self.spec_chunk_size() > 0,
            publish_total(packed_sizes(self.spec_files()), self.spec_chunk_size()) <= u64::MAX,
        ensures
            r.0@.len() == self.spec_files().len(),
            forall|i: int| 0 <= i < r.0@.len() ==> #[trigger] r.0@[i] == publish_slot(
                self.spec_files()[i].1,
                self.spec_chunk_size(),
            ),
            r.1 == publish_total(packed_sizes(self.spec_files()), self.spec_chunk_size()),
    {
        let ghost sizes = packed_sizes(self.files@);
        let mut slots: Vec<u64> = Vec::new();
        let mut total: u64 = 0;
        let mut i: usize = 0;
        while i < self.files.len()
            invariant
                self.chunk_size > 0,
                i <= self.files@.len(),
                sizes == packed_sizes(self.files@),
                publish_total(sizes, self.chunk_size) <= u64::MAX,
                total == publish_total(sizes.take(i as int), self.chunk_size),
                slots@.len() == i,
                forall|k: int| 0 <= k < i ==> #[trigger] slots@[k] == publish_slot(self.files@[k].1, self.chunk_size),
            decreases self.files@.len() - i,
        {
            assert(sizes.take(i + 1).drop_last() =~= sizes.take(i as int));
            assert(sizes.take(i + 1).last() == self.files@[i as int].1);
            proof {
                lemma_publish_total_grows(sizes, self.chunk_size, i + 1);
            }
            let mut slot = self.offset(&self.files[i].1);
            if slot != 0 {
                slot = slot - 1;
            }
            slots.push(slot);
            total = total + slot;
            i = i + 1;
        }
        assert(sizes.take(i as int) =~= sizes);
        (slots, total)
    }

    /// The number of chunk slots a file of `size` bytes takes (at most the
    /// largest `u64`).
    pub fn offset(&self, size: &u64) -> (r: u64)
        requires
            self.spec_chunk_size() > 0,
        ensures
            r == if spec_packer_offset(*size, self.spec_chunk_size()) <= u64::MAX {
                spec_packer_offset(*size, self.spec_chunk_size())
            } else {
                u64::MAX as nat
            },
    {
        let size = *size;
        let chunk = self.chunk_size as u64;
        if size < chunk {
            if size != 0 {
                1
            } else {
                0
            }
        } else {
            let remainder = size % chunk;
            let mut offset = size / chunk;
            offset = offset.saturating_add(1);
            if remainder > 0 && remainder < chunk {
                offset = offset.saturating_add(1);
            }
            offset
        }
    }
}

/// The offsets of the first files never add up to more than those of all.
pub proof fn lemma_publish_total_grows(sizes: Seq<u64>, chunk_size: u16, k: int)
    requires
        0 <= k <= sizes.len(),
    ensures
        publish_total(sizes.take(k), chunk_size) <= publish_total(sizes, chunk_size),
    decreases sizes.len() - k,
{
    if k < sizes.len() {
        lemma_publish_total_grows(sizes, chunk_size, k + 1);
        assert(sizes.take(k + 1).drop_last() =~= sizes.take(k));
    } else {
        assert(sizes.take(k) =~= sizes);
    }
}

} // verus!
