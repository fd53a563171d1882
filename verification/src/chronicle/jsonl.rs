//! Append-only JSON Lines with size-based rotation.
//!
//! The default journal is a file, not a database, on purpose. A JSONL stream
//! can be tailed, grepped and shipped without tooling; it has no schema to
//! migrate; and interrupted power costs at most the unflushed tail. On the
//! flash budgets of embedded devices rotation is not optional, so it is built
//! in.
//!
//! What is done to files is decided here, as steps; whoever holds the files
//! takes them.

use super::lines;
use super::lines::{byte_lines, split_bytes};
use crate::json;
use crate::json::Json;
use crate::text;
use crate::text::append_decimal;
use serde_json::Value;
use vstd::prelude::*;
use vstd::utf8::{decode_utf8, encode_utf8, valid_utf8};

verus! {

/// When and how to rotate.
#[derive(Debug, Clone, Copy)]
pub struct RotationPolicy {
    /// Rotate once the active file exceeds this many bytes.
    pub max_bytes: u64,
    /// Keep this many rotated files besides the active one; the oldest is
    /// deleted.
    pub max_files: u32,
}

impl Default for RotationPolicy {
    /// 1 MiB active and three rotated: sized for an embedded flash budget, not
    /// a workstation.
    fn default() -> (r: Self)
        ensures
            r.max_bytes == 1024 * 1024,
            r.max_files == 3,
    {
        RotationPolicy { max_bytes: 1_048_576, max_files: 3 }
    }
}

// ---------------------------------------------------------------------------
// Writing
// ---------------------------------------------------------------------------

/// The line that an entry takes up in the journal, given as JSON.
pub fn frame(entry: String) -> (r: String)
    ensures
        r@ == entry@.push('\n'),
{
    let mut line = entry;
    line.push('\n');
    line
}

/// How many bytes a line takes up.
pub fn line_bytes(line: &str) -> (r: u64)
    ensures
        r == encode_utf8(line@).len(),
{
    line.as_bytes().len() as u64
}

/// What is appended to the journal's name for a rotated file.
pub fn rotated_suffix(n: u32) -> (r: String)
    ensures
        r@ == "."@ + text::decimal(n as nat),
{
    let mut suffix = ".".to_owned();
    append_decimal(&mut suffix, n as u64);
    suffix
}

/// A file of the journal.
#[derive(Debug, Clone, Copy, PartialEq, Eq, Structural)]
pub enum JournalFile {
    /// The one that is written to.
    Active,
    /// One that was rotated; the highest number is the oldest.
    Rotated(u32),
}

/// One step of a rotation.
#[derive(Debug, Clone, Copy, PartialEq, Eq, Structural)]
pub enum FileStep {
    /// Delete a rotated file; it may be missing.
    Discard(u32),
    /// Give a rotated file the next number; it may be missing.
    Shift(u32),
    /// Make the active file the first rotated one.
    Retire,
    /// Delete the active file.
    Drop,
}

/// The shifts of a rotation, from the oldest file that stays down to the
/// newest.
pub open spec fn shifts(below: int) -> Seq<FileStep>
    decreases below,
{
    if below <= 1 {
        seq![]
    } else {
        seq![FileStep::Shift((below - 1) as u32)] + shifts(below - 1)
    }
}

/// A rotation: the oldest file goes, the others move on, and the active file
/// becomes the newest of them, or goes where none is kept.
pub open spec fn rotation_steps(max_files: u32) -> Seq<FileStep> {
    seq![FileStep::Discard(max_files)] + shifts(max_files as int).push(
        if max_files > 0 {
            FileStep::Retire
        } else {
            FileStep::Drop
        },
    )
}

/// Whether a line makes the journal rotate first. One that is larger than the
/// limit by itself still has to be written, so an empty file never rotates.
pub open spec fn rotates(written: nat, bytes: nat, max_bytes: nat) -> bool {
    written > 0 && written + bytes > max_bytes
}

/// How far a journal got.
#[derive(Debug, Clone, Copy)]
pub struct Journal {
    pub policy: RotationPolicy,
    /// How many bytes the active file has.
    pub written: u64,
}

impl Journal {
    /// Go on with a journal whose active file has `existing` bytes: a restart
    /// continues the story.
    pub fn resume(policy: RotationPolicy, existing: u64) -> (r: Self)
        ensures
            r.policy == policy,
            r.written == existing,
    {
        Journal { policy, written: existing }
    }

    /// Whether a line makes the journal rotate first.
    pub fn needs_rotation(&self, bytes: u64) -> (r: bool)
        ensures
            r == rotates(self.written as nat, bytes as nat, self.policy.max_bytes as nat),
    {
        self.written > 0 && (bytes > self.policy.max_bytes || self.written > self.policy.max_bytes
            - bytes)
    }

    /// The steps of a rotation. The active file has to be closed before them
    /// and opened again after.
    pub fn rotation(&self) -> (r: Vec<FileStep>)
        ensures
            r@ == rotation_steps(self.policy.max_files),
    {
        let max_files: u32 = self.policy.max_files;
        let mut steps: Vec<FileStep> = Vec::new();
        steps.push(FileStep::Discard(max_files));
        let mut below: u32 = max_files;
        proof {
            assert(steps@ + shifts(below as int) =~= seq![FileStep::Discard(max_files)] + shifts(
                max_files as int,
            ));
        }
        while below > 1
            invariant
                below <= max_files,
                steps@ + shifts(below as int) == seq![FileStep::Discard(max_files)] + shifts(
                    max_files as int,
                ),
            decreases below,
        {
            let ghost before = steps@;
            steps.push(FileStep::Shift(below - 1));
            proof {
                assert(steps@ + shifts(below - 1) =~= before + shifts(below as int));
            }
            below = below - 1;
        }
        proof {
            assert(steps@ + shifts(below as int) =~= steps@);
        }
        if max_files > 0 {
            steps.push(FileStep::Retire);
        } else {
            steps.push(FileStep::Drop);
        }
        proof {
            assert(steps@ =~= rotation_steps(max_files));
        }
        steps
    }

    /// A rotation is done: the active file is new.
    pub fn rotated(&mut self)
        ensures
            final(self).policy == old(self).policy,
            final(self).written == 0,
    {
        self.written = 0;
    }

    /// A line was appended to the active file.
    pub fn appended(&mut self, bytes: u64)
        requires
            old(self).written + bytes <= u64::MAX,
        ensures
            final(self).policy == old(self).policy,
            final(self).written == old(self).written + bytes,
    {
        self.written = self.written + bytes;
    }
}

// ---------------------------------------------------------------------------
// Reading
// ---------------------------------------------------------------------------

/// The newest entries of a journal, in the order of time, and how many lines
/// were torn.
#[derive(Debug)]
pub struct JsonlRead {
    pub entries: Vec<Value>,
    pub invalid_lines: usize,
}

/// What was read of a journal so far, the newest entry first.
#[verifier::ext_equal]
pub struct ReadModel {
    pub newest_first: Seq<Json>,
    pub invalid_lines: int,
}

/// Count one more line, as far as it can be counted.
pub open spec fn one_more(count: int) -> int {
    if count < usize::MAX {
        count + 1
    } else {
        usize::MAX as int
    }
}

/// What was read after one more line. A torn line is counted and hides nothing
/// else.
pub open spec fn taken(so_far: ReadModel, line: Result<Json, Seq<char>>) -> ReadModel {
    match line {
        Ok(entry) => ReadModel {
            newest_first: so_far.newest_first.push(entry),
            invalid_lines: so_far.invalid_lines,
        },
        Err(_) => ReadModel {
            newest_first: so_far.newest_first,
            invalid_lines: one_more(so_far.invalid_lines),
        },
    }
}

/// What a line reads as. One that ends inside a character is no text, and torn
/// like any other that is no entry.
pub open spec fn line_read(line: Seq<u8>) -> Result<Json, Seq<char>> {
    if valid_utf8(line) {
        json::read(decode_utf8(line))
    } else {
        Err("the line is no text"@)
    }
}

/// `std::str::from_utf8` gives the text that bytes encode in UTF-8, and an error
/// where they encode none.
#[verifier::external_body]
fn decoded(bytes: &[u8]) -> (r: Option<String>)
    ensures
        match r {
            Some(text) => valid_utf8(bytes@) && text@ == decode_utf8(bytes@),
            None => !valid_utf8(bytes@),
        },
{
    match std::str::from_utf8(bytes) {
        Ok(text) => Some(text.to_owned()),
        Err(_) => None,
    }
}

fn read_line(line: &[u8]) -> (r: Result<Value, String>)
    ensures
        match r {
            Ok(value) => line_read(line@) == Ok::<Json, Seq<char>>(json::content(value)),
            Err(error) => line_read(line@) == Err::<Json, Seq<char>>(error@),
        },
{
    match decoded(line) {
        Some(text) => json::parse(text.as_str()),
        None => Err("the line is no text".to_owned()),
    }
}

/// What was read after the lines of one more file, from the last one back to
/// the first, until there are `max` entries.
pub open spec fn take_lines(lines: Seq<Seq<u8>>, so_far: ReadModel, max: nat) -> ReadModel
    decreases lines.len(),
{
    if lines.len() == 0 || so_far.newest_first.len() >= max {
        so_far
    } else {
        take_lines(lines.drop_last(), taken(so_far, line_read(lines.last())), max)
    }
}

/// What was read after more files, the newest first.
pub open spec fn take_files(files: Seq<Seq<Seq<u8>>>, so_far: ReadModel, max: nat) -> ReadModel
    decreases files.len(),
{
    if files.len() == 0 || so_far.newest_first.len() >= max {
        so_far
    } else {
        take_files(files.drop_first(), take_lines(files[0], so_far, max), max)
    }
}

/// What was read of no file.
pub open spec fn nothing_read() -> ReadModel {
    ReadModel { newest_first: seq![], invalid_lines: 0 }
}

/// The lines of files.
pub open spec fn file_lines(files: Seq<Vec<u8>>) -> Seq<Seq<Seq<u8>>> {
    files.map_values(|file: Vec<u8>| byte_lines(file@))
}

/// Reads a journal file by file, the newest first.
pub struct JsonlReader {
    newest_first: Vec<Value>,
    invalid_lines: usize,
    max_entries: usize,
}

impl View for JsonlReader {
    type V = ReadModel;

    closed spec fn view(&self) -> ReadModel {
        ReadModel {
            newest_first: json::contents(self.newest_first@),
            invalid_lines: self.invalid_lines as int,
        }
    }
}

impl JsonlReader {
    /// How many entries are wanted.
    pub closed spec fn limit(&self) -> nat {
        self.max_entries as nat
    }

    /// Start to read a journal.
    pub fn new(max_entries: usize) -> (r: Self)
        ensures
            r@ == nothing_read(),
            r.limit() == max_entries,
    {
        let r = JsonlReader { newest_first: Vec::new(), invalid_lines: 0, max_entries };
        proof {
            assert(json::contents(r.newest_first@) =~= seq![]);
        }
        r
    }

    /// Whether no more files are needed.
    pub fn is_full(&self) -> (r: bool)
        ensures
            r == (self@.newest_first.len() >= self.limit()),
    {
        self.newest_first.len() >= self.max_entries
    }

    /// Take in what was read in one more line.
    pub fn take_line(&mut self, line: Result<Value, String>)
        ensures
            final(self)@ == taken(
                old(self)@,
                match line {
                    Ok(entry) => Ok(json::content(entry)),
                    Err(error) => Err(error@),
                },
            ),
            final(self).limit() == old(self).limit(),
    {
        let ghost before = self@;
        match line {
            Ok(entry) => {
                self.newest_first.push(entry);
                proof {
                    assert(self@.newest_first =~= before.newest_first.push(json::content(entry)));
                }
            },
            Err(_) => {
                if self.invalid_lines < usize::MAX {
                    self.invalid_lines = self.invalid_lines + 1;
                }
                proof {
                    assert(self@.newest_first =~= before.newest_first);
                }
            },
        }
    }

    /// Read what one more file holds.
    pub fn absorb(&mut self, contents: &[u8])
        ensures
            final(self)@ == take_lines(byte_lines(contents@), old(self)@, old(self).limit()),
            final(self).limit() == old(self).limit(),
    {
        let lines = split_bytes(contents);
        let ghost all = byte_lines(contents@);
        let mut left: usize = lines.len();
        proof {
            assert(all.take(left as int) =~= all);
        }
        while left > 0 && self.newest_first.len() < self.max_entries
            invariant
                left <= lines@.len(),
                lines@.len() == all.len(),
                forall|i: int| 0 <= i < lines@.len() ==> (#[trigger] lines@[i])@ == all[i],
                self.limit() == old(self).limit(),
                take_lines(all, old(self)@, self.limit()) == take_lines(
                    all.take(left as int),
                    self@,
                    self.limit(),
                ),
            decreases left,
        {
            proof {
                assert(all.take(left as int).last() == lines@[left - 1]@);
                assert(all.take(left as int).drop_last() =~= all.take(left - 1));
                assert(self@.newest_first.len() == self.newest_first@.len());
            }
            self.take_line(read_line(lines[left - 1]));
            left = left - 1;
        }
        proof {
            assert(json::contents(self.newest_first@).len() == self.newest_first@.len());
        }
    }

    /// Put what was read into the order of time.
    pub fn finish(self) -> (r: JsonlRead)
        ensures
            json::contents(r.entries@) == self@.newest_first.reverse(),
            r.invalid_lines == self@.invalid_lines,
    {
        let mut left = self.newest_first;
        let ghost all = left@;
        let mut entries: Vec<Value> = Vec::new();
        proof {
            assert(all.reverse().take(0) =~= seq![]);
        }
        while left.len() > 0
            invariant
                left@ == all.take(left@.len() as int),
                left@.len() + entries@.len() == all.len(),
                entries@ == all.reverse().take(entries@.len() as int),
            decreases left@.len(),
        {
            let ghost before = entries@;
            let ghost n = left@.len();
            match left.pop() {
                Some(entry) => {
                    entries.push(entry);
                    proof {
                        assert(entry == all[n - 1]);
                        assert(all.reverse()[before.len() as int] == all[n - 1]);
                        assert(entries@ =~= all.reverse().take(entries@.len() as int));
                        assert(left@ =~= all.take(left@.len() as int));
                    }
                },
                None => {},
            }
        }
        proof {
            assert(entries@ =~= all.reverse());
            assert(json::contents(entries@) =~= json::contents(all).reverse());
        }
        JsonlRead { entries, invalid_lines: self.invalid_lines }
    }
}

/// Read the newest entries out of the files of a journal, the active one first
/// and the oldest last, and give them back in the order of time. A torn line is
/// counted rather than hiding the rest of the journal.
pub fn read_recent_jsonl(files: &Vec<Vec<u8>>, max_entries: usize) -> (r: JsonlRead)
    ensures
        ({
            let read = take_files(file_lines(files@), nothing_read(), max_entries as nat);
            &&& json::contents(r.entries@) == read.newest_first.reverse()
            &&& r.invalid_lines == read.invalid_lines
        }),
{
    let mut reader = JsonlReader::new(max_entries);
    let ghost all = file_lines(files@);
    let mut i: usize = 0;
    proof {
        assert(all.skip(0) =~= all);
    }
    while i < files.len() && !reader.is_full()
        invariant
            i <= files@.len(),
            all == file_lines(files@),
            reader.limit() == max_entries,
            take_files(all, nothing_read(), max_entries as nat) == take_files(
                all.skip(i as int),
                reader@,
                max_entries as nat,
            ),
        decreases files@.len() - i,
    {
        proof {
            assert(all.skip(i as int)[0] == byte_lines(files@[i as int]@));
            assert(all.skip(i as int).drop_first() =~= all.skip(i + 1));
        }
        reader.absorb(files[i].as_slice());
        i = i + 1;
    }
    proof {
        if i == files@.len() {
            assert(all.skip(i as int).len() == 0);
        }
    }
    reader.finish()
}

// ---------------------------------------------------------------------------
// Laws of writing
// ---------------------------------------------------------------------------

/// The files of a journal, each with its lines.
pub type Disk = Map<JournalFile, Seq<Seq<char>>>;

/// The files after a step.
pub open spec fn stepped(step: FileStep, disk: Disk) -> Disk {
    match step {
        FileStep::Discard(n) => disk.remove(JournalFile::Rotated(n)),
        FileStep::Shift(n) => if disk.dom().contains(JournalFile::Rotated(n)) {
            disk.insert(JournalFile::Rotated((n + 1) as u32), disk[JournalFile::Rotated(n)]).remove(
                JournalFile::Rotated(n),
            )
        } else {
            disk
        },
        FileStep::Retire => disk.insert(
            JournalFile::Rotated(1),
            disk[JournalFile::Active],
        ).remove(JournalFile::Active),
        FileStep::Drop => disk.remove(JournalFile::Active),
    }
}

/// The files after steps, one after the other.
pub open spec fn all_stepped(steps: Seq<FileStep>, disk: Disk) -> Disk
    decreases steps.len(),
{
    if steps.len() == 0 {
        disk
    } else {
        all_stepped(steps.drop_first(), stepped(steps[0], disk))
    }
}

proof fn lemma_steps_add(a: Seq<FileStep>, b: Seq<FileStep>, disk: Disk)
    ensures
        all_stepped(a + b, disk) == all_stepped(b, all_stepped(a, disk)),
    decreases a.len(),
{
    if a.len() == 0 {
        assert(a + b =~= b);
    } else {
        assert((a + b).drop_first() =~= a.drop_first() + b);
        lemma_steps_add(a.drop_first(), b, stepped(a[0], disk));
    }
}

/// What the shifts of a rotation do where the file that they end in is gone.
proof fn lemma_shifts(below: int, disk: Disk)
    requires
        0 < below <= u32::MAX,
        !disk.dom().contains(JournalFile::Rotated(below as u32)),
    ensures
        ({
            let after = all_stepped(shifts(below), disk);
            &&& !after.dom().contains(JournalFile::Rotated(1))
            &&& after.dom().contains(JournalFile::Active) == disk.dom().contains(
                JournalFile::Active,
            )
            &&& after[JournalFile::Active] == disk[JournalFile::Active]
            &&& forall|n: u32|
                #![trigger after.dom().contains(JournalFile::Rotated(n))]
                #![trigger after[JournalFile::Rotated(n)]]
                1 < n <= below ==> (after.dom().contains(JournalFile::Rotated(n))
                    == disk.dom().contains(JournalFile::Rotated((n - 1) as u32))
                    && (after.dom().contains(JournalFile::Rotated(n)) ==> after[
                JournalFile::Rotated(n)] == disk[JournalFile::Rotated((n - 1) as u32)]))
            &&& forall|n: u32|
                #![trigger after.dom().contains(JournalFile::Rotated(n))]
                #![trigger after[JournalFile::Rotated(n)]]
                n == 0 || n > below ==> (after.dom().contains(JournalFile::Rotated(n))
                    == disk.dom().contains(JournalFile::Rotated(n)) && after[JournalFile::Rotated(
                    n,
                )] == disk[JournalFile::Rotated(n)])
        }),
    decreases below,
{
    if below > 1 {
        let steps = shifts(below);
        let first = FileStep::Shift((below - 1) as u32);
        let next = stepped(first, disk);
        assert(steps[0] == first);
        assert(steps.drop_first() =~= shifts(below - 1));
        lemma_shifts(below - 1, next);
    }
}

/// A rotation keeps every file but the oldest, moves each to the next number,
/// and makes room for a new active file.
pub proof fn lemma_rotation_moves_files_on(max_files: u32, disk: Disk, n: u32)
    requires
        max_files > 0,
        disk.dom().contains(JournalFile::Active),
    ensures
        ({
            let after = all_stepped(rotation_steps(max_files), disk);
            &&& !after.dom().contains(JournalFile::Active)
            &&& after.dom().contains(JournalFile::Rotated(1))
            &&& after[JournalFile::Rotated(1)] == disk[JournalFile::Active]
            &&& 0 < n < max_files ==> after.dom().contains(JournalFile::Rotated((n + 1) as u32))
                == disk.dom().contains(JournalFile::Rotated(n))
            &&& 0 < n < max_files && disk.dom().contains(JournalFile::Rotated(n)) ==> after[
            JournalFile::Rotated((n + 1) as u32)] == disk[JournalFile::Rotated(n)]
            &&& n > max_files ==> after.dom().contains(JournalFile::Rotated(n))
                == disk.dom().contains(JournalFile::Rotated(n))
        }),
{
    let steps = rotation_steps(max_files);
    let discarded = stepped(FileStep::Discard(max_files), disk);
    let tail = shifts(max_files as int).push(FileStep::Retire);
    assert(steps[0] == FileStep::Discard(max_files));
    assert(steps.drop_first() =~= tail);
    assert(tail =~= shifts(max_files as int) + seq![FileStep::Retire]);
    lemma_steps_add(shifts(max_files as int), seq![FileStep::Retire], discarded);
    lemma_shifts(max_files as int, discarded);
    let shifted = all_stepped(shifts(max_files as int), discarded);
    assert(seq![FileStep::Retire].drop_first() =~= seq![]);
    assert(all_stepped(seq![FileStep::Retire], shifted) == stepped(FileStep::Retire, shifted)) by {
        reveal_with_fuel(all_stepped, 2);
    }
    if 0 < n < max_files {
        let next = (n + 1) as u32;
        assert(shifted.dom().contains(JournalFile::Rotated(next)) == discarded.dom().contains(
            JournalFile::Rotated((next - 1) as u32),
        ));
    }
    if n > max_files {
        assert(shifted.dom().contains(JournalFile::Rotated(n)) == discarded.dom().contains(
            JournalFile::Rotated(n),
        ));
    }
}

/// Whether no file has a number above the limit.
pub open spec fn capped(disk: Disk, max_files: u32) -> bool {
    forall|n: u32| #[trigger] disk.dom().contains(JournalFile::Rotated(n)) ==> 0 < n <= max_files
}

/// The number of files never grows beyond the limit, however often the journal
/// rotates.
pub proof fn lemma_rotation_caps_the_files(max_files: u32, disk: Disk)
    requires
        disk.dom().contains(JournalFile::Active),
        capped(disk, max_files),
    ensures
        capped(all_stepped(rotation_steps(max_files), disk), max_files),
        !all_stepped(rotation_steps(max_files), disk).dom().contains(JournalFile::Active),
{
    let after = all_stepped(rotation_steps(max_files), disk);
    if max_files == 0 {
        let steps = rotation_steps(0);
        assert(steps =~= seq![FileStep::Discard(0), FileStep::Drop]);
        assert(steps.drop_first() =~= seq![FileStep::Drop]);
        assert(steps.drop_first().drop_first() =~= seq![]);
        assert(after =~= disk.remove(JournalFile::Rotated(0)).remove(JournalFile::Active)) by {
            reveal_with_fuel(all_stepped, 3);
        }
    } else {
        lemma_rotation_moves_files_on(max_files, disk, 1);
        assert forall|n: u32| #[trigger]
            after.dom().contains(JournalFile::Rotated(n)) implies 0 < n <= max_files by {
            if n > max_files {
                lemma_rotation_moves_files_on(max_files, disk, n);
            }
            if n == 0 {
                let discarded = stepped(FileStep::Discard(max_files), disk);
                let tail = shifts(max_files as int).push(FileStep::Retire);
                let steps = rotation_steps(max_files);
                assert(steps.drop_first() =~= tail);
                assert(tail =~= shifts(max_files as int) + seq![FileStep::Retire]);
                lemma_steps_add(shifts(max_files as int), seq![FileStep::Retire], discarded);
                lemma_shifts(max_files as int, discarded);
                let shifted = all_stepped(shifts(max_files as int), discarded);
                assert(seq![FileStep::Retire].drop_first() =~= seq![]);
                assert(all_stepped(seq![FileStep::Retire], shifted) == stepped(
                    FileStep::Retire,
                    shifted,
                )) by {
                    reveal_with_fuel(all_stepped, 2);
                }
                assert(shifted.dom().contains(JournalFile::Rotated(0)) == discarded.dom().contains(
                    JournalFile::Rotated(0),
                ));
            }
        }
    }
}

/// How many bytes the active file has after a line was written.
pub open spec fn after_line(written: nat, bytes: nat, max_bytes: nat) -> nat {
    if rotates(written, bytes, max_bytes) {
        bytes
    } else {
        written + bytes
    }
}

/// A file stays within the limit, but for one whose only line is larger than
/// that; such a line is written all the same, and only once.
pub proof fn lemma_files_stay_within_the_limit(written: nat, bytes: nat, max_bytes: nat)
    ensures
        after_line(written, bytes, max_bytes) <= max_bytes || after_line(written, bytes, max_bytes)
            == bytes,
        !rotates(0, bytes, max_bytes),
{
}

// ---------------------------------------------------------------------------
// Laws of reading
// ---------------------------------------------------------------------------

/// The bytes of a file that lines were written to, one after the other.
pub open spec fn joined(lines: Seq<Seq<u8>>) -> Seq<u8>
    decreases lines.len(),
{
    if lines.len() == 0 {
        seq![]
    } else {
        lines[0].push(10) + joined(lines.drop_first())
    }
}

/// Whether a line can stand in the journal: it has no line feed, and no
/// carriage return at its end.
pub open spec fn is_line(line: Seq<u8>) -> bool {
    !line.contains(10) && (line.len() > 0 ==> line.last() != 13)
}

/// Writing one more line appends its frame.
pub proof fn lemma_lines_are_appended(lines: Seq<Seq<u8>>, line: Seq<u8>)
    ensures
        joined(lines.push(line)) == joined(lines) + line.push(10),
    decreases lines.len(),
{
    if lines.len() == 0 {
        assert(lines.push(line).drop_first() =~= seq![]);
        assert(joined(lines.push(line)) =~= joined(lines) + line.push(10)) by {
            reveal_with_fuel(joined, 2);
        }
    } else {
        assert(lines.push(line).drop_first() =~= lines.drop_first().push(line));
        lemma_lines_are_appended(lines.drop_first(), line);
        assert(joined(lines.push(line)) =~= joined(lines) + line.push(10));
    }
}

/// What is written for an entry is the entry's line in the file, and a line that
/// is read gives the text that was written.
pub proof fn lemma_text_is_read_as_written(entry: Seq<char>)
    requires
        !entry.contains('\n'),
        entry.len() > 0 ==> entry.last() != '\r',
    ensures
        encode_utf8(entry.push('\n')) == encode_utf8(entry).push(10),
        is_line(encode_utf8(entry)),
        line_read(encode_utf8(entry)) == json::read(entry),
{
    lines::lemma_framed_bytes(entry);
    lines::lemma_bytes_of_a_line(entry);
}

/// The lines of a file are those that were written to it.
pub proof fn lemma_lines_read_back(lines: Seq<Seq<u8>>)
    requires
        forall|i: int| 0 <= i < lines.len() ==> is_line(#[trigger] lines[i]),
    ensures
        byte_lines(joined(lines)) == lines,
    decreases lines.len(),
{
    if lines.len() > 0 {
        let s = joined(lines);
        let line = lines[0];
        let rest = joined(lines.drop_first());
        assert forall|i: int| 0 <= i < lines.drop_first().len() implies is_line(
            #[trigger] lines.drop_first()[i],
        ) by {
            assert(lines.drop_first()[i] == lines[i + 1]);
        }
        lemma_lines_read_back(lines.drop_first());
        lines::lemma_line_end(s, 0);
        assert(s[line.len() as int] == 10);
        assert forall|j: int| 0 <= j < line.len() implies s[j] != 10 by {
            assert(s[j] == line[j]);
            assert(line.contains(line[j]));
        }
        assert(lines::line_end(s, 0) == line.len());
        assert(s.take(line.len() as int) =~= line);
        assert(s.skip((line.len() + 1) as int) =~= rest);
        assert(byte_lines(s) =~= lines);
    }
}

/// The entries that lines hold, without the torn ones.
pub open spec fn intact(lines: Seq<Seq<u8>>) -> Seq<Json>
    decreases lines.len(),
{
    if lines.len() == 0 {
        seq![]
    } else {
        match line_read(lines.last()) {
            Ok(entry) => intact(lines.drop_last()).push(entry),
            Err(_) => intact(lines.drop_last()),
        }
    }
}

/// The lines of files in the order of time; the files come newest first.
pub open spec fn chronological(files: Seq<Seq<Seq<u8>>>) -> Seq<Seq<u8>>
    decreases files.len(),
{
    if files.len() == 0 {
        seq![]
    } else {
        chronological(files.drop_first()) + files[0]
    }
}

/// At most `max` of the first elements.
pub open spec fn at_most(s: Seq<Json>, max: nat) -> Seq<Json> {
    if s.len() <= max {
        s
    } else {
        s.take(max as int)
    }
}

/// At most `max` of the last elements.
pub open spec fn newest(s: Seq<Json>, max: nat) -> Seq<Json> {
    if s.len() <= max {
        s
    } else {
        s.skip(s.len() - max)
    }
}

proof fn lemma_take_lines(lines: Seq<Seq<u8>>, so_far: ReadModel, max: nat)
    requires
        so_far.newest_first.len() <= max,
    ensures
        take_lines(lines, so_far, max).newest_first == at_most(
            so_far.newest_first + intact(lines).reverse(),
            max,
        ),
        take_lines(lines, so_far, max).newest_first.len() <= max,
    decreases lines.len(),
{
    let wanted = so_far.newest_first + intact(lines).reverse();
    if lines.len() == 0 || so_far.newest_first.len() >= max {
        assert(at_most(wanted, max) =~= so_far.newest_first);
    } else {
        match line_read(lines.last()) {
            Ok(entry) => {
                let next = ReadModel {
                    newest_first: so_far.newest_first.push(entry),
                    invalid_lines: so_far.invalid_lines,
                };
                lemma_take_lines(lines.drop_last(), next, max);
                assert(wanted =~= next.newest_first + intact(lines.drop_last()).reverse());
            },
            Err(_) => {
                let next = ReadModel {
                    newest_first: so_far.newest_first,
                    invalid_lines: one_more(so_far.invalid_lines),
                };
                lemma_take_lines(lines.drop_last(), next, max);
            },
        }
    }
}

proof fn lemma_intact_adds(a: Seq<Seq<u8>>, b: Seq<Seq<u8>>)
    ensures
        intact(a + b) == intact(a) + intact(b),
    decreases b.len(),
{
    if b.len() == 0 {
        assert(a + b =~= a);
        assert(intact(a) + intact(b) =~= intact(a));
    } else {
        assert((a + b).drop_last() =~= a + b.drop_last());
        lemma_intact_adds(a, b.drop_last());
        match line_read(b.last()) {
            Ok(entry) => {
                assert(intact(a) + intact(b) =~= (intact(a) + intact(b.drop_last())).push(entry));
            },
            Err(_) => {},
        }
    }
}

proof fn lemma_take_files(files: Seq<Seq<Seq<u8>>>, so_far: ReadModel, max: nat)
    requires
        so_far.newest_first.len() <= max,
    ensures
        take_files(files, so_far, max).newest_first == at_most(
            so_far.newest_first + intact(chronological(files)).reverse(),
            max,
        ),
    decreases files.len(),
{
    let wanted = so_far.newest_first + intact(chronological(files)).reverse();
    if files.len() == 0 || so_far.newest_first.len() >= max {
        assert(at_most(wanted, max) =~= so_far.newest_first);
    } else {
        let next = take_lines(files[0], so_far, max);
        let older = intact(chronological(files.drop_first()));
        lemma_take_lines(files[0], so_far, max);
        lemma_take_files(files.drop_first(), next, max);
        lemma_intact_adds(chronological(files.drop_first()), files[0]);
        assert(wanted =~= (so_far.newest_first + intact(files[0]).reverse()) + older.reverse());
        assert(at_most(next.newest_first + older.reverse(), max) =~= at_most(wanted, max));
    }
}

/// Reading a journal gives its newest entries in the order of time, however
/// they are spread over its files; torn lines hide none of them.
pub proof fn lemma_reading_gives_the_newest(files: Seq<Seq<Seq<u8>>>, max: nat)
    ensures
        take_files(files, nothing_read(), max).newest_first.reverse() == newest(
            intact(chronological(files)),
            max,
        ),
{
    lemma_take_files(files, nothing_read(), max);
    let all = intact(chronological(files));
    assert(nothing_read().newest_first + all.reverse() =~= all.reverse());
    assert(at_most(all.reverse(), max).reverse() =~= newest(all, max));
}

/// What was written to the files of a journal is what is read of them.
pub proof fn lemma_journal_reads_back(files: Seq<Vec<u8>>, written: Seq<Seq<Seq<u8>>>, max: nat)
    requires
        files.len() == written.len(),
        forall|i: int| 0 <= i < files.len() ==> (#[trigger] files[i])@ == joined(written[i]),
        forall|i: int, j: int|
            0 <= i < written.len() && 0 <= j < written[i].len() ==> is_line(
                #[trigger] written[i][j],
            ),
    ensures
        take_files(file_lines(files), nothing_read(), max).newest_first.reverse() == newest(
            intact(chronological(written)),
            max,
        ),
{
    assert forall|i: int| 0 <= i < files.len() implies #[trigger] file_lines(files)[i]
        == written[i] by {
        assert(files[i]@ == joined(written[i]));
        assert forall|j: int| 0 <= j < written[i].len() implies is_line(
            #[trigger] written[i][j],
        ) by {}
        lemma_lines_read_back(written[i]);
    }
    assert(file_lines(files) =~= written);
    lemma_reading_gives_the_newest(written, max);
}

/// A line that was torn at the end of a file, inside a character or elsewhere,
/// is one line: it is counted, and the lines before it are read as they would
/// be without it.
pub proof fn lemma_a_torn_line_costs_no_other(lines: Seq<Seq<u8>>, torn: Seq<u8>, max: nat)
    requires
        forall|i: int| 0 <= i < lines.len() ==> is_line(#[trigger] lines[i]),
        torn.len() > 0,
        !torn.contains(10),
        line_read(torn) is Err,
        max > 0,
    ensures
        byte_lines(joined(lines) + torn) == lines.push(torn),
        take_lines(byte_lines(joined(lines) + torn), nothing_read(), max) == take_lines(
            lines,
            (ReadModel { invalid_lines: 1, ..nothing_read() }),
            max,
        ),
        take_lines(byte_lines(joined(lines) + torn), nothing_read(), max).newest_first
            == take_lines(lines, nothing_read(), max).newest_first,
{
    lemma_torn_line_is_a_line(lines, torn);
    assert(lines.push(torn).drop_last() =~= lines);
    assert(lines.push(torn).last() == torn);
    lemma_take_lines(lines, nothing_read(), max);
    lemma_take_lines(lines, ReadModel { invalid_lines: 1, ..nothing_read() }, max);
}

proof fn lemma_torn_line_is_a_line(lines: Seq<Seq<u8>>, torn: Seq<u8>)
    requires
        forall|i: int| 0 <= i < lines.len() ==> is_line(#[trigger] lines[i]),
        torn.len() > 0,
        !torn.contains(10),
    ensures
        byte_lines(joined(lines) + torn) == lines.push(torn),
    decreases lines.len(),
{
    let s = joined(lines) + torn;
    lines::lemma_line_end(s, 0);
    if lines.len() == 0 {
        assert(s =~= torn);
        let k = lines::line_end(s, 0);
        if k < s.len() {
            assert(torn.contains(s[k]));
        }
        assert(byte_lines(s) =~= lines.push(torn));
    } else {
        let line = lines[0];
        let later = lines.drop_first();
        assert forall|i: int| 0 <= i < later.len() implies is_line(#[trigger] later[i]) by {
            assert(later[i] == lines[i + 1]);
        }
        lemma_torn_line_is_a_line(later, torn);
        let rest = joined(later) + torn;
        assert(s =~= line.push(10) + rest);
        assert(s[line.len() as int] == 10);
        assert forall|j: int| 0 <= j < line.len() implies s[j] != 10 by {
            assert(s[j] == line[j]);
            assert(line.contains(line[j]));
        }
        assert(lines::line_end(s, 0) == line.len());
        assert(s.take(line.len() as int) =~= line);
        assert(s.skip((line.len() + 1) as int) =~= rest);
        assert(byte_lines(s) =~= lines.push(torn));
    }
}

/// A line is its entry and a line feed, rotated files are told apart by their
/// number, and a journal goes on with the size that it finds.
pub proof fn lemma_journals_go_on(
    entry: String,
    line: String,
    n: u32,
    suffix: String,
    policy: RotationPolicy,
    existing: u64,
    journal: Journal,
)
    requires
        call_ensures(frame, (entry,), line),
        call_ensures(rotated_suffix, (n,), suffix),
        call_ensures(Journal::resume, (policy, existing), journal),
    ensures
        line@.len() == entry@.len() + 1,
        line@.last() == '\n',
        line@.drop_last() == entry@,
        suffix@.len() > 0 && suffix@[0] == '.',
        text::digits_value(suffix@.skip(1), 10) == Some(n as nat),
        journal.policy == policy,
        journal.written == existing,
{
    reveal_strlit(".");
    assert(line@.drop_last() =~= entry@);
    text::lemma_decimal_reads_back(n as nat);
    assert(suffix@.skip(1) =~= text::decimal(n as nat));
}

/// A line rotates the journal exactly where the active file is not empty and
/// would grow beyond the limit.
pub proof fn lemma_journals_rotate_at_the_limit(journal: Journal, bytes: u64, rotate: bool)
    requires
        call_ensures(Journal::needs_rotation, (&journal, bytes), rotate),
    ensures
        journal.written == 0 ==> !rotate,
        journal.written > 0 ==> (rotate <==> journal.written + bytes > journal.policy.max_bytes),
{
}

} // verus!
