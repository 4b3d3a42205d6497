use crate::buffer::frozen_contents;
use crate::text::{padded_decimal, push_padded_decimal};
use bytes::Bytes;
use vstd::prelude::*;
use vstd::string::*;

verus! {

/// How log files are written: the number of bytes after which a file is rotated and
/// the compression level of each frame.
#[derive(Clone, Copy, Debug, PartialEq, Eq, Structural)]
pub struct StorageConfig {
    pub rotation_threshold: usize,
    pub compression_level: i32,
}

/// One gigabyte.
pub const DEFAULT_ROTATION_THRESHOLD: usize = 1073741824;

/// The fastest zstd level.
pub const DEFAULT_COMPRESSION_LEVEL: i32 = 1;

impl StorageConfig {
    /// Rotation after one gigabyte, frames at the fastest level.
    pub fn standard() -> (r: StorageConfig)
        ensures
            r.rotation_threshold == DEFAULT_ROTATION_THRESHOLD,
            r.compression_level == DEFAULT_COMPRESSION_LEVEL,
    {
        StorageConfig {
            rotation_threshold: DEFAULT_ROTATION_THRESHOLD,
            compression_level: DEFAULT_COMPRESSION_LEVEL,
        }
    }
}

/// Why a log file cannot take a write.
#[derive(Debug, Clone, Copy, PartialEq, Eq, Structural)]
pub enum StorageError {
    /// The compressor failed.
    Compression,
    /// The rotation index cannot grow any further.
    IndexExhausted,
}

/// The error of std's I/O, which the compressor reports.
#[verifier::external_type_specification]
#[verifier::external_body]
pub struct ExIoError(std::io::Error);

/// The zstd frame that holds `data`, compressed at `level`, or none when the
/// compressor refuses them.
pub uninterp spec fn zstd_frame(data: Seq<u8>, level: i32) -> Option<Seq<u8>>;

/// Relies on zstd::stream::encode_all: the bytes compressed in memory into one
/// complete zstd frame; whether it succeeds, and the frame, depend on the bytes and
/// the level alone (the level is clamped to the supported range).
#[verifier::external_body]
fn compress_frame(data: &Bytes, level: i32) -> (r: Result<Vec<u8>, std::io::Error>)
    ensures
        r is Ok <==> zstd_frame(frozen_contents(*data), level) is Some,
        r matches Ok(f) ==> zstd_frame(frozen_contents(*data), level) == Some(f@),
{
    zstd::stream::encode_all(&data[..], level)
}

/// `name` placed in the directory `dir`: a separator is added unless `dir` is empty or
/// already ends with one.
pub open spec fn joined(dir: Seq<char>, name: Seq<char>) -> Seq<char> {
    if dir.len() == 0 {
        name
    } else if dir.last() == '/' {
        dir + name
    } else {
        dir + seq!['/'] + name
    }
}

/// The suffix of the file of rotation `index`: a dot, the index in at least two
/// digits, and the `.ioym` extension.
pub open spec fn rotation_suffix(index: nat) -> Seq<char> {
    seq!['.'] + padded_decimal(index, 2) + seq!['.', 'i', 'o', 'y', 'm']
}

/// The name of the archive directory inside a log directory.
pub open spec fn archive_dir_of(dir: Seq<char>) -> Seq<char> {
    joined(dir, seq!['a', 'r', 'c', 'h', 'i', 'v', 'e', 'd'])
}

/// `name` placed in the directory `dir`.
pub fn join_path(dir: &str, name: &str) -> (r: String)
    ensures
        r@ == joined(dir@, name@),
{
    let n = dir.unicode_len();
    let mut r = String::from_str(dir);
    if n > 0 && dir.get_char(n - 1) != '/' {
        proof {
            reveal_strlit("/");
        }
        r.append("/");
    }
    r.append(name);
    r
}

/// The file of rotation `index` for the base path `base_name`.
pub fn generate_filename(base_name: &str, index: usize) -> (r: String)
    ensures
        r@ == base_name@ + rotation_suffix(index as nat),
{
    let mut r = String::from_str(base_name);
    proof {
        reveal_strlit(".");
        reveal_strlit(".ioym");
    }
    r.append(".");
    push_padded_decimal(&mut r, index as u64, 2);
    r.append(".ioym");
    assert(r@ =~= base_name@ + rotation_suffix(index as nat));
    r
}

/// The move of a closed file into the archive directory, which is created first when
/// it is missing.
pub struct ArchiveMove {
    pub from: String,
    pub archive_dir: String,
    pub to: String,
}

/// The rotation that a write triggered: the next file to create, then the move of the
/// previous one.
pub struct Rotation {
    pub new_file: String,
    pub archive: ArchiveMove,
}

/// What a write asks of the file system: append `frame` to `target`, then carry out
/// the rotation, if any.
pub struct WritePlan {
    pub frame: Vec<u8>,
    pub target: String,
    pub rotation: Option<Rotation>,
}

/// The logical state of a log file: the bytes taken since the last rotation and the
/// rotation index of the open file.
pub struct LogFileState {
    pub consumed: nat,
    pub index: nat,
}

/// The state after taking `len` more bytes: past the threshold the file rotates, the
/// index grows by one and the count starts again from zero.
pub open spec fn after_write(s: LogFileState, len: nat, threshold: nat) -> LogFileState {
    if rotates(s, len, threshold) {
        LogFileState { consumed: 0, index: s.index + 1 }
    } else {
        LogFileState { consumed: s.consumed + len, index: s.index }
    }
}

/// Whether taking `len` more bytes reaches the threshold.
pub open spec fn rotates(s: LogFileState, len: nat, threshold: nat) -> bool {
    s.consumed + len >= threshold
}

/// The state of a freshly opened log file.
pub open spec fn opened_state() -> LogFileState {
    LogFileState { consumed: 0, index: 1 }
}

/// A file that a run of writes archived: its rotation index and the bytes it took.
pub struct ArchivedFile {
    pub index: nat,
    pub bytes: nat,
}

/// The state after writes of the lengths `lens`, in order, and the files they
/// archived, in the order of archiving.
pub open spec fn run_writes(s: LogFileState, lens: Seq<nat>, threshold: nat) -> (LogFileState, Seq<
    ArchivedFile,
>)
    decreases lens.len(),
{
    if lens.len() == 0 {
        (s, Seq::empty())
    } else {
        let (s1, a1) = run_writes(s, lens.drop_last(), threshold);
        let len = lens.last();
        let a = if rotates(s1, len, threshold) {
            a1.push(ArchivedFile { index: s1.index, bytes: s1.consumed + len })
        } else {
            a1
        };
        (after_write(s1, len, threshold), a)
    }
}

/// The sum of some lengths.
pub open spec fn total(lens: Seq<nat>) -> nat
    decreases lens.len(),
{
    if lens.len() == 0 {
        0
    } else {
        total(lens.drop_last()) + lens.last()
    }
}

/// The bytes that some archived files took.
pub open spec fn archived_total(a: Seq<ArchivedFile>) -> nat
    decreases a.len(),
{
    if a.len() == 0 {
        0
    } else {
        archived_total(a.drop_last()) + a.last().bytes
    }
}

/// Writes into a freshly opened file archive one file per threshold crossing: the
/// archived rotation indices run 1, 2, 3, ... without gap or repeat, each archived
/// file took at least the threshold, the open file's index follows the last archived
/// one and holds less than the threshold (nothing, for a threshold of zero), and every
/// byte is in exactly one file.
pub proof fn lemma_rotation_accounting(lens: Seq<nat>, threshold: nat)
    ensures
        ({
            let (s, a) = run_writes(opened_state(), lens, threshold);
            &&& forall|i: int| 0 <= i < a.len() ==> #[trigger] a[i].index == i + 1
            &&& forall|i: int| 0 <= i < a.len() ==> #[trigger] a[i].bytes >= threshold
            &&& s.index == a.len() + 1
            &&& s.consumed < threshold || (threshold == 0 && s.consumed == 0)
            &&& total(lens) == archived_total(a) + s.consumed
        }),
    decreases lens.len(),
{
    if lens.len() > 0 {
        lemma_rotation_accounting(lens.drop_last(), threshold);
        let (s1, a1) = run_writes(opened_state(), lens.drop_last(), threshold);
        let (s, a) = run_writes(opened_state(), lens, threshold);
        if rotates(s1, lens.last(), threshold) {
            assert(a.drop_last() =~= a1);
            assert forall|i: int| 0 <= i < a.len() implies #[trigger] a[i].index == i + 1 by {
                if i < a1.len() {
                    assert(a[i] == a1[i]);
                }
            }
            assert forall|i: int| 0 <= i < a.len() implies #[trigger] a[i].bytes >= threshold by {
                if i < a1.len() {
                    assert(a[i] == a1[i]);
                }
            }
        }
    }
}

/// Successive writes into a freshly opened file, each moving the state as a
/// successful write does, pass through exactly the states that the run of their
/// lengths predicts: after the first `k` writes the state is that of the run of the
/// first `k` lengths.
pub proof fn lemma_successive_writes(states: Seq<LogFileState>, lens: Seq<nat>, threshold: nat)
    requires
        states.len() == lens.len() + 1,
        states[0] == opened_state(),
        forall|k: int|
            0 <= k < lens.len() ==> #[trigger] states[k + 1] == after_write(
                states[k],
                lens[k],
                threshold,
            ),
    ensures
        forall|k: int|
            0 <= k <= lens.len() ==> #[trigger] states[k] == run_writes(
                opened_state(),
                lens.subrange(0, k),
                threshold,
            ).0,
{
    assert forall|k: int| 0 <= k <= lens.len() implies #[trigger] states[k] == run_writes(
        opened_state(),
        lens.subrange(0, k),
        threshold,
    ).0 by {
        lemma_successive_writes_prefix(states, lens, threshold, k);
    }
}

proof fn lemma_successive_writes_prefix(
    states: Seq<LogFileState>,
    lens: Seq<nat>,
    threshold: nat,
    k: int,
)
    requires
        states.len() == lens.len() + 1,
        states[0] == opened_state(),
        forall|k: int|
            0 <= k < lens.len() ==> #[trigger] states[k + 1] == after_write(
                states[k],
                lens[k],
                threshold,
            ),
        0 <= k <= lens.len(),
    ensures
        states[k] == run_writes(opened_state(), lens.subrange(0, k), threshold).0,
    decreases k,
{
    if k > 0 {
        lemma_successive_writes_prefix(states, lens, threshold, k - 1);
        let pre = lens.subrange(0, k);
        assert(pre.drop_last() =~= lens.subrange(0, k - 1));
        assert(pre.last() == lens[k - 1]);
        let j = k - 1;
        assert(states[j + 1] == after_write(states[j], lens[j], threshold));
        assert(j + 1 == k);
    }
}

/// One destination of the daemon: compressed frames go to the file of the current
/// rotation, which is archived when it rotates or is closed.
pub struct LogFile {
    directory: String,
    name: String,
    base_filename: String,
    config: StorageConfig,
    consumed_data: usize,
    index: usize,
}

impl View for LogFile {
    type V = LogFileState;

    closed spec fn view(&self) -> LogFileState {
        LogFileState { consumed: self.consumed_data as nat, index: self.index as nat }
    }
}

/// What a write of `data` into `before` promises, given that it left `after` and
/// returned `r`: it succeeds exactly when the compressor takes the data and the write
/// need not rotate past the largest index; the compressor's refusal and the exhausted
/// index are the two failures, and on failure nothing changed; on success the plan holds the
/// compressed frame for the current file, the state advanced by the write's length,
/// and a rotation happened exactly when the threshold was reached.
pub open spec fn write_done(
    before: LogFile,
    after: LogFile,
    data: Seq<u8>,
    r: Result<WritePlan, StorageError>,
) -> bool {
    let threshold = before.config().rotation_threshold as nat;
    let must_rotate = rotates(before@, data.len(), threshold);
    &&& after.wf()
    &&& after.directory() == before.directory()
    &&& after.name() == before.name()
    &&& after.config() == before.config()
    &&& r is Err ==> after@ == before@
    &&& r == Err::<WritePlan, StorageError>(StorageError::IndexExhausted) ==> must_rotate
        && before@.index == usize::MAX
    &&& r == Err::<WritePlan, StorageError>(StorageError::Compression) <==> zstd_frame(
        data,
        before.config().compression_level,
    ) is None
    &&& r is Ok <==> zstd_frame(data, before.config().compression_level) is Some && !(
    must_rotate && before@.index == usize::MAX)
    &&& r matches Ok(plan) ==> {
        &&& zstd_frame(data, before.config().compression_level) == Some(plan.frame@)
        &&& plan.target@ == before.path_of(before@.index)
        &&& after@ == after_write(before@, data.len(), threshold)
        &&& must_rotate <==> plan.rotation is Some
        &&& plan.rotation matches Some(rot) ==> {
            &&& rot.new_file@ == before.path_of(before@.index + 1)
            &&& before.archives(rot.archive, before@.index)
        }
    }
}

impl LogFile {
    /// The directory that holds the file.
    pub closed spec fn directory(&self) -> Seq<char> {
        self.directory@
    }

    /// The destination name that the file was opened for.
    pub closed spec fn name(&self) -> Seq<char> {
        self.name@
    }

    /// The settings that the file was opened with.
    pub closed spec fn config(&self) -> StorageConfig {
        self.config
    }

    /// The invariant: the base path is the name in the directory, the count stays
    /// below the threshold (a threshold of zero rotates on every write), and rotation
    /// indices start at one.
    pub closed spec fn wf(&self) -> bool {
        &&& self.base_filename@ == joined(self.directory@, self.name@)
        &&& self.consumed_data < self.config.rotation_threshold || self.consumed_data == 0
        &&& self.index >= 1
    }

    /// The base path: the name in the directory.
    pub open spec fn base(&self) -> Seq<char> {
        joined(self.directory(), self.name())
    }

    /// The path of the file of rotation `index`.
    pub open spec fn path_of(&self, index: nat) -> Seq<char> {
        self.base() + rotation_suffix(index)
    }

    /// The path that the file of rotation `index` has once archived.
    pub open spec fn archived_path_of(&self, index: nat) -> Seq<char> {
        joined(archive_dir_of(self.directory()), self.name() + rotation_suffix(index))
    }

    /// Whether `m` moves the file of rotation `index` into the archive.
    pub open spec fn archives(&self, m: ArchiveMove, index: nat) -> bool {
        &&& m.from@ == self.path_of(index)
        &&& m.archive_dir@ == archive_dir_of(self.directory())
        &&& m.to@ == self.archived_path_of(index)
    }

    /// Opens the destination `name` in `directory`: its first file is that of rotation
    /// one, with nothing taken yet. Creating the file is the caller's part.
    pub fn open(directory: &str, name: &str, config: StorageConfig) -> (r: LogFile)
        ensures
            r.wf(),
            r@ == opened_state(),
            r.directory() == directory@,
            r.name() == name@,
            r.config() == config,
    {
        LogFile {
            directory: String::from_str(directory),
            name: String::from_str(name),
            base_filename: join_path(directory, name),
            config,
            consumed_data: 0,
            index: 1,
        }
    }

    /// The base path: the name in the directory.
    pub fn base_filename(&self) -> (r: &str)
        requires
            self.wf(),
        ensures
            r@ == self.base(),
    {
        self.base_filename.as_str()
    }

    /// The path of the file that takes the next write.
    pub fn current_filename(&self) -> (r: String)
        requires
            self.wf(),
        ensures
            r@ == self.path_of(self@.index),
    {
        generate_filename(self.base_filename.as_str(), self.index)
    }

    /// The move of the file of rotation `index` into the archive.
    fn archive_move(&self, index: usize) -> (r: ArchiveMove)
        requires
            self.wf(),
        ensures
            self.archives(r, index as nat),
    {
        let archive_dir = join_path(self.directory.as_str(), "archived");
        proof {
            reveal_strlit("archived");
            assert("archived"@ =~= seq!['a', 'r', 'c', 'h', 'i', 'v', 'e', 'd']);
        }
        let mut file_name = String::from_str(self.name.as_str());
        let suffix = generate_filename("", index);
        proof {
            reveal_strlit("");
            assert(""@ =~= Seq::<char>::empty());
        }
        file_name.append(suffix.as_str());
        let to = join_path(archive_dir.as_str(), file_name.as_str());
        assert(suffix@ =~= rotation_suffix(index as nat));
        assert(file_name@ =~= self.name@ + rotation_suffix(index as nat));
        ArchiveMove { from: generate_filename(self.base_filename.as_str(), index), archive_dir, to }
    }

    /// Compresses `data` into one frame for the current file and counts its bytes;
    /// when the count reaches the threshold the file rotates once: the next index is
    /// opened and the previous file archived. On failure nothing changes.
    pub fn write(&mut self, data: &Bytes) -> (r: Result<WritePlan, StorageError>)
        requires
            old(self).wf(),
        ensures
            write_done(*old(self), *final(self), frozen_contents(*data), r),
    {
        let frame = match compress_frame(data, self.config.compression_level) {
            Ok(f) => f,
            Err(_) => {
                return Err(StorageError::Compression);
            },
        };
        let target = generate_filename(self.base_filename.as_str(), self.index);
        let len = data.len();
        let room = self.config.rotation_threshold - self.consumed_data;
        if len < room {
            self.consumed_data = self.consumed_data + len;
            Ok(WritePlan { frame, target, rotation: None })
        } else {
            if self.index == usize::MAX {
                return Err(StorageError::IndexExhausted);
            }
            let archive = self.archive_move(self.index);
            self.index = self.index + 1;
            self.consumed_data = 0;
            let new_file = generate_filename(self.base_filename.as_str(), self.index);
            Ok(WritePlan { frame, target, rotation: Some(Rotation { new_file, archive }) })
        }
    }

    /// Closes the file: the move that archives the current file, whether or not it
    /// ever rotated.
    pub fn close(self) -> (r: ArchiveMove)
        requires
            self.wf(),
        ensures
            self.archives(r, self@.index),
    {
        self.archive_move(self.index)
    }
}

} // verus!
