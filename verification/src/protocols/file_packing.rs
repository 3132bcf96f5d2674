//! The layout of published files in frames: frame 0 holds the manifest, the
//! files follow, then the file manifest.
use vstd::prelude::*;
use vstd::string::StringExecFns;

verus! {

/// Where the file manifest lies: its first and last frame.
#[derive(Clone, Copy, Debug, PartialEq, Eq, Structural)]
pub struct Manifest {
    pub start: u64,
    pub end: u64,
}

/// Each published file's relative path and its first and last frame; a
/// path is listed once.
#[derive(Clone, Debug)]
pub struct FileManifest {
    pub files: Vec<(String, (u64, u64))>,
}

/// Whether no two entries share a name.
pub open spec fn names_distinct(files: Seq<(String, (u64, u64))>) -> bool {
    forall|a: int, b: int| 0 <= a < b < files.len() ==> (#[trigger] files[a]).0@ != (#[trigger] files[b]).0@
}

/// Why a file could not be fetched.
#[derive(Clone, Copy, Debug, PartialEq, Eq, Structural)]
pub enum FileError {
    /// The file manifest names no such file.
    FileNotPresent,
}

/// The index of the first entry named `name`, if any.
pub open spec fn first_named(files: Seq<(String, (u64, u64))>, name: Seq<char>) -> Option<int> {
    if exists|i: int| 0 <= i < files.len() && (#[trigger] files[i]).0@ == name {
        Some(choose|i: int| 0 <= i < files.len() && (#[trigger] files[i]).0@ == name && forall|k: int|
            0 <= k < i ==> (#[trigger] files[k]).0@ != name)
    } else {
        None
    }
}

impl FileManifest {
    /// The names of the published files, in the manifest's order.
    pub fn file_names(&self) -> (r: Vec<String>)
        ensures
            r@.len() == self.files@.len(),
            forall|i: int| 0 <= i < r@.len() ==> #[trigger] r@[i]@ == self.files@[i].0@,
    {
        let mut names: Vec<String> = Vec::new();
        let mut i: usize = 0;
        while i < self.files.len()
            invariant
                i <= self.files@.len(),
                names@.len() == i,
                forall|k: int| 0 <= k < i ==> #[trigger] names@[k]@ == self.files@[k].0@,
            decreases self.files@.len() - i,
        {
            names.push(self.files[i].0.clone());
            i = i + 1;
        }
        names
    }

    /// The first and last frame of the file named `name`; an error when the
    /// manifest names no such file.
    pub fn file(&self, name: &str) -> (r: Result<(u64, u64), FileError>)
        ensures
            match first_named(self.files@, name@) {
                Some(i) => r == Ok::<(u64, u64), FileError>(self.files@[i].1),
                None => r == Err::<(u64, u64), FileError>(FileError::FileNotPresent),
            },
    {
        let target = String::from_str(name);
        let mut i: usize = 0;
        while i < self.files.len()
            invariant
                i <= self.files@.len(),
                target@ == name@,
                forall|k: int| 0 <= k < i ==> (#[trigger] self.files@[k]).0@ != name@,
            decreases self.files@.len() - i,
        {
            if self.files[i].0 == target {
                proof {
                    let j = i as int;
                    assert(0 <= j < self.files@.len() && self.files@[j].0@ == name@);
                    let c = first_named(self.files@, name@).unwrap();
                    if c < j {
                        assert(self.files@[c].0@ != name@);
                    }
                    if c > j {
                        assert(self.files@[j].0@ != name@);
                    }
                }
                return Ok(self.files[i].1);
            }
            i = i + 1;
        }
        Err(FileError::FileNotPresent)
    }
}

/// The number of frames that `size` bytes take in chunks of `chunk_size`.
pub open spec fn frame_count(size: nat, chunk_size: nat) -> nat {
    if size == 0 {
        0
    } else {
        (size / chunk_size + if size % chunk_size > 0 {
            1nat
        } else {
            0nat
        }) as nat
    }
}

/// The frames of `size` bytes placed from `current_offset` on: the first
/// frame, the last frame (zero for no bytes) and the number of frames.
pub open spec fn spec_offset(current_offset: u64, size: u64, chunk_size: u64) -> (u64, u64, u64) {
    if size == 0 {
        (current_offset, 0, 0)
    } else {
        let n = frame_count(size as nat, chunk_size as nat);
        (current_offset, (current_offset + n - 1) as u64, n as u64)
    }
}

/// Places `size` bytes in frames of `chunk_size` bytes from `current_offset`
/// on; see `spec_offset`.
pub fn offset(current_offset: u64, size: u64, chunk_size: u64) -> (r: Result<(u64, u64, u64), ()>)
    requires
        size == 0 || chunk_size > 0,
        current_offset + frame_count(size as nat, chunk_size as nat) <= u64::MAX + 1,
    ensures
        r == Ok::<(u64, u64, u64), ()>(spec_offset(current_offset, size, chunk_size)),
{
    if size == 0 {
        Ok((current_offset, 0, 0))
    } else if size <= chunk_size {
        proof {
            if size < chunk_size {
                assert(size / chunk_size == 0 && size % chunk_size == size) by (nonlinear_arith)
                    requires size < chunk_size, chunk_size > 0;
            } else {
                assert(size / chunk_size == 1 && size % chunk_size == 0) by (nonlinear_arith)
                    requires size == chunk_size, chunk_size > 0;
            }
        }
        Ok((current_offset, current_offset, 1))
    } else {
        let remainder = size % chunk_size;
        let mut count = size / chunk_size;
        assert(count >= 1) by (nonlinear_arith)
            requires count == size / chunk_size, size > chunk_size, chunk_size > 0;
        if remainder > 0 {
            assert(count < size) by (nonlinear_arith)
                requires count == size / chunk_size, remainder == size % chunk_size,
                    remainder > 0, chunk_size > 0;
            count = count + 1;
        }
        assert(count == frame_count(size as nat, chunk_size as nat));
        Ok((current_offset, current_offset + (count - 1), count))
    }
}

/// The frames that files of the sizes `sizes` take together.
pub open spec fn total_frames(sizes: Seq<u64>, chunk_size: u64) -> nat
    decreases sizes.len(),
{
    if sizes.len() == 0 {
        0
    } else {
        total_frames(sizes.drop_last(), chunk_size) + frame_count(sizes.last() as nat, chunk_size as nat)
    }
}

/// The sizes of the listed files.
pub open spec fn file_sizes(files: Seq<(String, u64)>) -> Seq<u64> {
    Seq::new(files.len(), |i: int| files[i].1)
}

/// The first and last frame of file `i` when files of the sizes `sizes` are
/// laid out one after the other from frame `first` on (last frame zero for
/// an empty file).
pub open spec fn spec_file_range(sizes: Seq<u64>, chunk_size: u64, first: u64, i: int) -> (u64, u64) {
    let (start, end, _count) = spec_offset(
        (first + total_frames(sizes.take(i), chunk_size)) as u64,
        sizes[i],
        chunk_size,
    );
    (start, end)
}

/// A file's frames are never fewer than those of the files before it: the
/// frames before file `j` include those of file `i < j`.
pub proof fn lemma_total_frames_grow(sizes: Seq<u64>, chunk_size: u64, i: int, j: int)
    requires
        0 <= i < j <= sizes.len(),
    ensures
        total_frames(sizes.take(j), chunk_size) >= total_frames(sizes.take(i), chunk_size) + frame_count(
            sizes[i] as nat,
            chunk_size as nat,
        ),
    decreases j - i,
{
    assert(sizes.take(j).drop_last() =~= sizes.take(j - 1));
    assert(sizes.take(j).last() == sizes[j - 1]);
    if j == i + 1 {
    } else {
        lemma_total_frames_grow(sizes, chunk_size, i, j - 1);
    }
}

/// Files laid out one after the other never share a frame: every frame of a
/// nonempty file comes before every frame of a later nonempty file, and each
/// file has as many frames as its chunks.
pub proof fn lemma_layout_disjoint(sizes: Seq<u64>, chunk_size: u64, first: u64, i: int, j: int)
    requires
        chunk_size > 0,
        0 <= i < j < sizes.len(),
        sizes[i] > 0,
        sizes[j] > 0,
        first + total_frames(sizes, chunk_size) <= u64::MAX,
    ensures
        spec_file_range(sizes, chunk_size, first, i).1 < spec_file_range(sizes, chunk_size, first, j).0,
        spec_file_range(sizes, chunk_size, first, i).1 - spec_file_range(sizes, chunk_size, first, i).0
            + 1 == frame_count(sizes[i] as nat, chunk_size as nat),
{
    lemma_total_frames_grow(sizes, chunk_size, i, j);
    lemma_total_frames_grow(sizes, chunk_size, j, sizes.len() as int);
    assert(sizes.take(sizes.len() as int) =~= sizes);
    lemma_frame_count_positive(sizes[i] as nat, chunk_size as nat);
    lemma_frame_count_positive(sizes[j] as nat, chunk_size as nat);
    let ti = total_frames(sizes.take(i), chunk_size);
    let tj = total_frames(sizes.take(j), chunk_size);
    let fi = frame_count(sizes[i] as nat, chunk_size as nat);
    assert(first + tj <= u64::MAX);
    assert(spec_file_range(sizes, chunk_size, first, j).0 == first + tj);
    assert(spec_file_range(sizes, chunk_size, first, i).0 == first + ti);
    assert(spec_file_range(sizes, chunk_size, first, i).1 == first + ti + fi - 1);
}

/// A nonempty file takes at least one frame.
pub proof fn lemma_frame_count_positive(size: nat, chunk_size: nat)
    requires
        size > 0,
        chunk_size > 0,
    ensures
        frame_count(size, chunk_size) >= 1,
{
    if size / chunk_size == 0 {
        assert(size % chunk_size == size) by (nonlinear_arith)
            requires size / chunk_size == 0, chunk_size > 0, size > 0;
    }
}

/// The position of the entry named `name` in `out`, if there is one.
fn find_name(out: &Vec<(String, (u64, u64))>, name: &String) -> (r: Option<usize>)
    ensures
        r matches Some(j) ==> j < out@.len() && out@[j as int].0@ == name@,
        r is None ==> forall|k: int| 0 <= k < out@.len() ==> (#[trigger] out@[k]).0@ != name@,
{
    let mut k: usize = 0;
    while k < out.len()
        invariant
            k <= out@.len(),
            forall|m: int| 0 <= m < k ==> (#[trigger] out@[m]).0@ != name@,
        decreases out@.len() - k,
    {
        if out[k].0 == *name {
            return Some(k);
        }
        k = k + 1;
    }
    None
}

/// While files are laid out, up to file `i`: every entry of `out` names a
/// distinct path, taken from the file `owner` gives for it, which is the
/// last file of that path so far, and holds that file's frames.
#[verifier::opaque]
pub open spec fn owned_entries(
    files: Seq<(String, u64)>,
    chunk_size: u64,
    first: u64,
    out: Seq<(String, (u64, u64))>,
    owner: Seq<int>,
    i: int,
) -> bool {
    &&& names_distinct(out)
    &&& owner.len() == out.len()
    &&& forall|j: int|
        0 <= j < out.len() ==> 0 <= #[trigger] owner[j] < i && out[j].0@ == files[owner[j]].0@ && out[j].1
            == spec_file_range(file_sizes(files), chunk_size, first, owner[j])
    &&& forall|j: int, k: int|
        0 <= j < out.len() && owner[j] < k < i ==> (#[trigger] files[k]).0@ != (#[trigger] out[j]).0@
}

/// While files are laid out, up to file `i`: each file's path has the entry
/// that `slot` gives for it.
#[verifier::opaque]
pub open spec fn covered_files(
    files: Seq<(String, u64)>,
    out: Seq<(String, (u64, u64))>,
    slot: Seq<int>,
    i: int,
) -> bool {
    &&& slot.len() == i
    &&& forall|m: int| 0 <= m < i ==> 0 <= #[trigger] slot[m] < out.len() && out[slot[m]].0@ == files[m].0@
}

/// Giving file `i` the entry `j` of its path, which exists already, keeps
/// the layout in order.
proof fn lemma_layout_replace(
    files: Seq<(String, u64)>,
    chunk_size: u64,
    first: u64,
    before: Seq<(String, (u64, u64))>,
    out: Seq<(String, (u64, u64))>,
    owner: Seq<int>,
    slot: Seq<int>,
    i: int,
    j: int,
)
    requires
        0 <= i < files.len(),
        owned_entries(files, chunk_size, first, before, owner, i),
        covered_files(files, before, slot, i),
        0 <= j < before.len(),
        before[j].0@ == files[i].0@,
        out.len() == before.len(),
        out[j].0@ == files[i].0@,
        out[j].1 == spec_file_range(file_sizes(files), chunk_size, first, i),
        forall|m: int| 0 <= m < out.len() && m != j ==> out[m] == before[m],
    ensures
        owned_entries(files, chunk_size, first, out, owner.update(j, i), i + 1),
        covered_files(files, out, slot.push(j), i + 1),
{
    reveal(owned_entries);
    reveal(covered_files);
    let o2 = owner.update(j, i);
    let s2 = slot.push(j);
    assert forall|a: int, b: int| 0 <= a < b < out.len() implies (#[trigger] out[a]).0@ != (#[trigger] out[b]).0@ by {
        assert(before[a].0@ != before[b].0@);
    }
    assert forall|jj: int| 0 <= jj < out.len() implies 0 <= #[trigger] o2[jj] < i + 1 && out[jj].0@
        == files[o2[jj]].0@ && out[jj].1 == spec_file_range(file_sizes(files), chunk_size, first, o2[jj]) by {
        if jj != j {
            assert(owner[jj] == o2[jj]);
        }
    }
    assert forall|jj: int, k: int| 0 <= jj < out.len() && o2[jj] < k < i + 1 implies (#[trigger] files[k]).0@
        != (#[trigger] out[jj]).0@ by {
        if jj != j {
            assert(owner[jj] == o2[jj]);
            if k == i {
                assert(before[jj].0@ != before[j].0@);
            } else {
                assert(files[k].0@ != before[jj].0@);
            }
        }
    }
    assert forall|m: int| 0 <= m < i + 1 implies 0 <= #[trigger] s2[m] < out.len() && out[s2[m]].0@
        == files[m].0@ by {
        if m < i {
            assert(s2[m] == slot[m]);
            assert(out[slot[m]].0@ == before[slot[m]].0@);
        }
    }
}

/// Giving file `i`, whose path has no entry yet, a new entry keeps the
/// layout in order.
proof fn lemma_layout_push(
    files: Seq<(String, u64)>,
    chunk_size: u64,
    first: u64,
    before: Seq<(String, (u64, u64))>,
    out: Seq<(String, (u64, u64))>,
    owner: Seq<int>,
    slot: Seq<int>,
    i: int,
)
    requires
        0 <= i < files.len(),
        owned_entries(files, chunk_size, first, before, owner, i),
        covered_files(files, before, slot, i),
        forall|k: int| 0 <= k < before.len() ==> (#[trigger] before[k]).0@ != files[i].0@,
        out.len() == before.len() + 1,
        out.drop_last() == before,
        out.last().0@ == files[i].0@,
        out.last().1 == spec_file_range(file_sizes(files), chunk_size, first, i),
    ensures
        owned_entries(files, chunk_size, first, out, owner.push(i), i + 1),
        covered_files(files, out, slot.push(before.len() as int), i + 1),
{
    reveal(owned_entries);
    reveal(covered_files);
    let o2 = owner.push(i);
    let s2 = slot.push(before.len() as int);
    let n = before.len() as int;
    assert forall|m: int| 0 <= m < n implies out[m] == before[m] by {
        assert(out.drop_last()[m] == before[m]);
    }
    assert forall|a: int, b: int| 0 <= a < b < out.len() implies (#[trigger] out[a]).0@ != (#[trigger] out[b]).0@ by {
        if b < n {
            assert(before[a].0@ != before[b].0@);
        } else {
            assert(before[a].0@ != files[i].0@);
        }
    }
    assert forall|jj: int| 0 <= jj < out.len() implies 0 <= #[trigger] o2[jj] < i + 1 && out[jj].0@
        == files[o2[jj]].0@ && out[jj].1 == spec_file_range(file_sizes(files), chunk_size, first, o2[jj]) by {
        if jj < n {
            assert(owner[jj] == o2[jj]);
        }
    }
    assert forall|jj: int, k: int| 0 <= jj < out.len() && o2[jj] < k < i + 1 implies (#[trigger] files[k]).0@
        != (#[trigger] out[jj]).0@ by {
        if jj < n {
            assert(owner[jj] == o2[jj]);
            if k == i {
                assert(before[jj].0@ != files[i].0@);
            } else {
                assert(files[k].0@ != before[jj].0@);
            }
        }
    }
    assert forall|m: int| 0 <= m < i + 1 implies 0 <= #[trigger] s2[m] < out.len() && out[s2[m]].0@
        == files[m].0@ by {
        if m < i {
            assert(s2[m] == slot[m]);
        }
    }
}

/// Whether the manifest entry `e` holds the path of one of `files`, the last
/// file given under that path, and that file's frames.
pub open spec fn from_last_file(
    files: Seq<(String, u64)>,
    chunk_size: u64,
    first: u64,
    e: (String, (u64, u64)),
) -> bool {
    exists|i: int|
        #![trigger files[i]]
        0 <= i < files.len() && e.0@ == files[i].0@ && (forall|k: int|
            i < k < files.len() ==> (#[trigger] files[k]).0@ != files[i].0@) && e.1 == spec_file_range(
            file_sizes(files),
            chunk_size,
            first,
            i,
        )
}

/// Whether some manifest entry of `out` holds the path `name`.
pub open spec fn has_entry(out: Seq<(String, (u64, u64))>, name: Seq<char>) -> bool {
    exists|j: int| #![trigger out[j]] 0 <= j < out.len() && out[j].0@ == name
}

/// Before any file is laid out, the empty layout is in order.
proof fn lemma_layout_start(files: Seq<(String, u64)>, chunk_size: u64, first: u64)
    ensures
        owned_entries(files, chunk_size, first, Seq::empty(), Seq::empty(), 0),
        covered_files(files, Seq::empty(), Seq::empty(), 0),
{
    reveal(owned_entries);
    reveal(covered_files);
}

/// A layout in order over all the files gives the file manifest's
/// properties.
proof fn lemma_layout_done(
    files: Seq<(String, u64)>,
    chunk_size: u64,
    first: u64,
    out: Seq<(String, (u64, u64))>,
    owner: Seq<int>,
    slot: Seq<int>,
)
    requires
        owned_entries(files, chunk_size, first, out, owner, files.len() as int),
        covered_files(files, out, slot, files.len() as int),
    ensures
        names_distinct(out),
        forall|j: int| 0 <= j < out.len() ==> from_last_file(files, chunk_size, first, #[trigger] out[j]),
        forall|i: int| 0 <= i < files.len() ==> has_entry(out, (#[trigger] files[i]).0@),
{
    reveal(owned_entries);
    reveal(covered_files);
    assert forall|j: int| 0 <= j < out.len() implies from_last_file(files, chunk_size, first, #[trigger] out[j]) by {
        let i = owner[j];
        assert forall|k: int| i < k < files.len() implies (#[trigger] files[k]).0@ != files[i].0@ by {
            assert(files[k].0@ != out[j].0@);
        }
        assert(out[j].0@ == files[i].0@);
    }
    assert forall|m: int| 0 <= m < files.len() implies has_entry(out, (#[trigger] files[m]).0@) by {
        assert(out[slot[m]].0@ == files[m].0@);
    }
}

/// Lays the files out one after the other from frame `first` on, in the
/// order given, and returns the file manifest and the first frame after
/// them. Every file takes its frames; the manifest lists each path once,
/// with the frames of the last file given under that path (a later file
/// replaces an earlier one of the same path).
pub fn layout_files(files: &Vec<(String, u64)>, chunk_size: u64, first: u64) -> (r: (FileManifest, u64))
    requires
        chunk_size > 0,
        first + total_frames(file_sizes(files@), chunk_size) <= u64::MAX,
    ensures
        names_distinct(r.0.files@),
        forall|j: int|
            0 <= j < r.0.files@.len() ==> from_last_file(files@, chunk_size, first, #[trigger] r.0.files@[j]),
        forall|i: int| 0 <= i < files@.len() ==> has_entry(r.0.files@, (#[trigger] files@[i]).0@),
        r.1 == first + total_frames(file_sizes(files@), chunk_size),
{
    let ghost sizes = file_sizes(files@);
    let mut out: Vec<(String, (u64, u64))> = Vec::new();
    let ghost mut owner: Seq<int> = Seq::empty();
    let ghost mut slot: Seq<int> = Seq::empty();
    let mut total: u64 = first;
    let mut i: usize = 0;
    assert(sizes.take(0) =~= Seq::<u64>::empty());
    proof {
        lemma_layout_start(files@, chunk_size, first);
    }
    while i < files.len()
        invariant
            chunk_size > 0,
            i <= files@.len(),
            sizes == file_sizes(files@),
            first + total_frames(sizes, chunk_size) <= u64::MAX,
            total == first + total_frames(sizes.take(i as int), chunk_size),
            owned_entries(files@, chunk_size, first, out@, owner, i as int),
            covered_files(files@, out@, slot, i as int),
        decreases files@.len() - i,
    {
        assert(sizes.take(i + 1).drop_last() =~= sizes.take(i as int));
        assert(sizes.take(i + 1).last() == files@[i as int].1);
        proof {
            lemma_total_frames_grow(sizes, chunk_size, i as int, files@.len() as int);
            assert(sizes.take(files@.len() as int) =~= sizes);
        }
        let size = files[i].1;
        let placed = offset(total, size, chunk_size);
        let (start, end, count) = match placed {
            Ok(t) => t,
            Err(_) => (total, 0, 0),
        };
        assert(count == frame_count(size as nat, chunk_size as nat));
        assert((start, end) == spec_file_range(sizes, chunk_size, first, i as int));
        let ghost before = out@;
        match find_name(&out, &files[i].0) {
            Some(j) => {
                out.set(j, (files[i].0.clone(), (start, end)));
                proof {
                    lemma_layout_replace(files@, chunk_size, first, before, out@, owner, slot, i as int, j as int);
                    owner = owner.update(j as int, i as int);
                    slot = slot.push(j as int);
                }
            },
            None => {
                out.push((files[i].0.clone(), (start, end)));
                assert(out@.drop_last() =~= before);
                proof {
                    lemma_layout_push(files@, chunk_size, first, before, out@, owner, slot, i as int);
                    owner = owner.push(i as int);
                    slot = slot.push(before.len() as int);
                }
            },
        }
        total = total + count;
        i = i + 1;
    }
    assert(sizes.take(i as int) =~= sizes);
    proof {
        lemma_layout_done(files@, chunk_size, first, out@, owner, slot);
    }
    (FileManifest { files: out }, total)
}

/// The bytes of `chunks`, joined in order.
pub open spec fn joined(chunks: Seq<Seq<u8>>) -> Seq<u8>
    decreases chunks.len(),
{
    if chunks.len() == 0 {
        Seq::empty()
    } else {
        joined(chunks.drop_last()) + chunks.last()
    }
}

/// The byte views of a sequence of chunks.
pub open spec fn chunk_views(v: Seq<Vec<u8>>) -> Seq<Seq<u8>> {
    Seq::new(v.len(), |i: int| v[i]@)
}

/// The chunk of `bytes` that the `k`-th frame of a file holds, in chunks of
/// `chunk_size` bytes: the bytes from `k * chunk_size` on, at most a chunk.
pub open spec fn spec_chunk(bytes: Seq<u8>, chunk_size: nat, k: int) -> Seq<u8> {
    let start = k * chunk_size;
    let end = if start + chunk_size < bytes.len() {
        start + chunk_size
    } else {
        bytes.len() as int
    };
    bytes.subrange(start, end)
}

/// Cuts the bytes of a file into the chunks its frames hold, in frame
/// order: as many as `offset` gives the file frames, each `chunk_size`
/// bytes but the last. Joined, the chunks give the bytes back.
pub fn file_chunks(bytes: &[u8], chunk_size: u64) -> (r: Vec<Vec<u8>>)
    requires
        chunk_size > 0,
    ensures
        r@.len() == frame_count(bytes@.len(), chunk_size as nat),
        forall|k: int| 0 <= k < r@.len() ==> (#[trigger] r@[k])@ == spec_chunk(bytes@, chunk_size as nat, k),
        joined(chunk_views(r@)) == bytes@,
{
    let n = bytes.len();
    let mut r: Vec<Vec<u8>> = Vec::new();
    let mut pos: usize = 0;
    assert(joined(chunk_views(r@)) =~= bytes@.take(0));
    while pos < n
        invariant
            n == bytes@.len(),
            chunk_size > 0,
            pos <= n,
            pos < n ==> pos == r@.len() * chunk_size,
            pos == n && n > 0 ==> r@.len() == frame_count(n as nat, chunk_size as nat),
            pos == 0 ==> r@.len() == 0,
            forall|k: int| 0 <= k < r@.len() ==> (#[trigger] r@[k])@ == spec_chunk(bytes@, chunk_size as nat, k),
            joined(chunk_views(r@)) == bytes@.take(pos as int),
        decreases n - pos,
    {
        let k = r.len();
        let end: usize = if ((n - pos) as u64) <= chunk_size {
            n
        } else {
            pos + chunk_size as usize
        };
        let chunk = vstd::slice::slice_to_vec(vstd::slice::slice_subrange(bytes, pos, end));
        assert(chunk@ == spec_chunk(bytes@, chunk_size as nat, k as int));
        let ghost before = r@;
        r.push(chunk);
        proof {
            assert(chunk_views(r@).drop_last() =~= chunk_views(before));
            assert(bytes@.take(pos as int) + chunk@ =~= bytes@.take(end as int));
            if end == n {
                let q = k as int;
                let c = chunk_size as int;
                let m = n as int;
                assert(pos == q * c);
                assert(m - q * c <= c);
                assert(m > q * c);
                if m == q * c + c {
                    assert(m / c == q + 1 && m % c == 0) by (nonlinear_arith)
                        requires m == q * c + c, c > 0, q >= 0;
                } else {
                    assert(m / c == q && m % c > 0) by (nonlinear_arith)
                        requires m > q * c, m < q * c + c, c > 0, q >= 0;
                }
            } else {
                assert(end == (k + 1) * chunk_size) by (nonlinear_arith)
                    requires end == pos + chunk_size, pos == k * chunk_size;
            }
        }
        pos = end;
    }
    assert(bytes@.take(pos as int) =~= bytes@);
    r
}

} // verus!
