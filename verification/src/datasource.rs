//! Named blobs of data held in memory, read through a small table of open files as a byte
//! stream is read: open, read, seek, tell, read a line, close.

use vstd::prelude::*;

verus! {

/// Number of files that can be open at a time.
pub const MAX_OPEN_FILES: usize = 8;

/// A blob of data and the name under which it is opened.
#[derive(Debug, Clone, Copy)]
pub struct EmbeddedFile {
    pub name: &'static [u8],
    pub data: &'static [u8],
}

/// An open file: its data and the position of the next byte to read.
#[derive(Debug, Clone, Copy)]
pub struct MemFile {
    pub data: &'static [u8],
    pub pos: usize,
}

/// Whether `needle` occurs in `haystack` at the offset `at`.
pub open spec fn occurs_at(haystack: Seq<u8>, needle: Seq<u8>, at: int) -> bool {
    0 <= at && at + needle.len() <= haystack.len() && haystack.subrange(
        at,
        at + needle.len(),
    ) == needle
}

/// Whether `needle` occurs somewhere in `haystack`.
pub open spec fn contains_seq(haystack: Seq<u8>, needle: Seq<u8>) -> bool {
    exists|at: int| occurs_at(haystack, needle, at)
}

/// Index of the first file from `from` on whose name occurs in a path.
pub open spec fn first_named_in(files: Seq<EmbeddedFile>, path: Seq<u8>, from: int) -> Option<int>
    decreases files.len() - from,
{
    if from < 0 || from >= files.len() {
        None
    } else if contains_seq(path, files[from].name@) {
        Some(from)
    } else {
        first_named_in(files, path, from + 1)
    }
}

/// Whether `needle` occurs in `haystack` at the offset `at`.
pub fn matches_at(haystack: &[u8], needle: &[u8], at: usize) -> (r: bool)
    requires
        at + needle@.len() <= haystack@.len(),
    ensures
        r == occurs_at(haystack@, needle@, at as int),
{
    let n: usize = needle.len();
    let h: usize = haystack.len();
    let mut k: usize = 0;
    while k < n
        invariant
            n == needle@.len(),
            h == haystack@.len(),
            k <= needle@.len(),
            at + needle@.len() <= haystack@.len(),
            forall|i: int| 0 <= i < k ==> haystack@[at + i] == needle@[i],
        decreases needle@.len() - k,
    {
        if haystack[at + k] != needle[k] {
            assert(haystack@.subrange(at as int, at + needle@.len())[k as int] != needle@[k as int]);
            return false;
        }
        k += 1;
    }
    assert(haystack@.subrange(at as int, at + needle@.len()) =~= needle@);
    true
}

/// Whether `needle` occurs somewhere in `haystack`.
pub fn contains_bytes(haystack: &[u8], needle: &[u8]) -> (r: bool)
    ensures
        r == contains_seq(haystack@, needle@),
{
    if needle.len() > haystack.len() {
        return false;
    }
    let h: usize = haystack.len();
    let last: usize = h - needle.len();
    let mut at: usize = 0;
    while at <= last
        invariant
            at <= last + 1,
            h == haystack@.len(),
            last == haystack@.len() - needle@.len(),
            forall|i: int| 0 <= i < at ==> !occurs_at(haystack@, needle@, i),
        decreases last + 1 - at,
    {
        if matches_at(haystack, needle, at) {
            return true;
        }
        if at == last {
            assert forall|i: int| !occurs_at(haystack@, needle@, i) by {
                if occurs_at(haystack@, needle@, i) {
                    assert(0 <= i <= last);
                }
            }
            return false;
        }
        at += 1;
    }
    false
}

/// The data of the first file whose name occurs in a path.
pub fn match_embedded_file(path: &[u8], files: &[EmbeddedFile]) -> (found: Option<&'static [u8]>)
    ensures
        match first_named_in(files@, path@, 0) {
            Some(i) => found == Some(files@[i].data),
            None => found.is_none(),
        },
{
    let mut i: usize = 0;
    while i < files.len()
        invariant
            i <= files@.len(),
            first_named_in(files@, path@, 0) == first_named_in(files@, path@, i as int),
        decreases files@.len() - i,
    {
        if contains_bytes(path, files[i].name) {
            return Some(files[i].data);
        }
        i += 1;
    }
    None
}

/// The table of open files. A file is known by a handle: eight times the number, counted
/// from 1, of the slot that holds it, so that no handle is zero.
pub struct FileTable {
    slots: [Option<MemFile>; 8],
}

/// Slot that a handle names, if it names one.
pub open spec fn slot_of_handle(handle: int) -> Option<int> {
    if handle >= 8 && handle / 8 - 1 < MAX_OPEN_FILES {
        Some(handle / 8 - 1)
    } else {
        None
    }
}

/// Handle of the file in a slot.
pub open spec fn handle_of_slot(slot: int) -> int {
    (slot + 1) * 8
}

/// The open file that a handle names, if it names one.
pub open spec fn file_at(slots: Seq<Option<MemFile>>, handle: int) -> Option<MemFile> {
    match slot_of_handle(handle) {
        Some(i) => if i < slots.len() {
            slots[i]
        } else {
            None
        },
        None => None,
    }
}

/// The slots with the file that a handle names replaced.
pub open spec fn with_file(slots: Seq<Option<MemFile>>, handle: int, file: Option<MemFile>) -> Seq<
    Option<MemFile>,
> {
    match slot_of_handle(handle) {
        Some(i) => if i < slots.len() {
            slots.update(i, file)
        } else {
            slots
        },
        None => slots,
    }
}

/// Index of the first free slot from `from` on.
pub open spec fn first_free(slots: Seq<Option<MemFile>>, from: int) -> Option<int>
    decreases slots.len() - from,
{
    if from < 0 || from >= slots.len() {
        None
    } else if slots[from].is_none() {
        Some(from)
    } else {
        first_free(slots, from + 1)
    }
}

/// Number of bytes left to read in a file.
pub open spec fn available(file: MemFile) -> int {
    if file.pos < file.data@.len() {
        file.data@.len() - file.pos
    } else {
        0
    }
}

/// Number of bytes that a read of `nmemb` items of `size` bytes takes from a file: all that
/// is asked for, or all that is left.
pub open spec fn read_len(file: MemFile, size: int, nmemb: int) -> int {
    if size * nmemb < available(file) {
        size * nmemb
    } else {
        available(file)
    }
}

/// Position to which a seek moves: `offset` bytes from the start of the file, from the
/// current position or from the end, as `whence` is 0, 1 or 2; none for another `whence` or
/// a position that is negative or beyond `isize::MAX`.
pub open spec fn seek_target(file: MemFile, offset: int, whence: int) -> Option<int> {
    let base: Option<int> = if whence == 0 {
        Some(0)
    } else if whence == 1 {
        Some(file.pos as int)
    } else if whence == 2 {
        Some(file.data@.len() as int)
    } else {
        None
    };
    match base {
        Some(b) => if 0 <= b + offset <= isize::MAX {
            Some(b + offset)
        } else {
            None
        },
        None => None,
    }
}

/// Number of bytes of the line that starts at `pos`: up to and with the next newline, to the
/// end of the data, or `max` bytes, whichever comes first.
pub open spec fn line_len(data: Seq<u8>, pos: int, max: int) -> int
    decreases max,
{
    if max <= 0 || pos < 0 || pos >= data.len() {
        0
    } else if data[pos] == 10 {
        1
    } else {
        1 + line_len(data, pos + 1, max - 1)
    }
}

/// A file as it is after `n` bytes more were read.
pub open spec fn advanced(file: MemFile, n: int) -> MemFile {
    MemFile { data: file.data, pos: (file.pos + n) as usize }
}

impl View for FileTable {
    type V = Seq<Option<MemFile>>;

    closed spec fn view(&self) -> Seq<Option<MemFile>> {
        self.slots@
    }
}

impl FileTable {
    /// A table with no file open.
    pub fn new() -> (table: FileTable)
        ensures
            table@.len() == MAX_OPEN_FILES,
            forall|i: int| 0 <= i < MAX_OPEN_FILES ==> table@[i].is_none(),
    {
        FileTable { slots: [None, None, None, None, None, None, None, None] }
    }

    /// The slot that a handle names.
    pub fn slot_for(handle: usize) -> (slot: Option<usize>)
        ensures
            match slot {
                Some(i) => slot_of_handle(handle as int) == Some(i as int) && i < MAX_OPEN_FILES,
                None => slot_of_handle(handle as int).is_none(),
            },
    {
        if handle >= 8 && handle / 8 - 1 < MAX_OPEN_FILES {
            Some(handle / 8 - 1)
        } else {
            None
        }
    }

    /// The open file that a handle names.
    pub fn file(&self, handle: usize) -> (file: Option<MemFile>)
        ensures
            file == file_at(self@, handle as int),
            self@.len() == MAX_OPEN_FILES,
    {
        match Self::slot_for(handle) {
            Some(i) => self.slots[i],
            None => None,
        }
    }

    /// Opens data in the first free slot and returns its handle; zero when no slot is free.
    pub fn open(&mut self, data: &'static [u8]) -> (handle: usize)
        ensures
            final(self)@.len() == MAX_OPEN_FILES,
            match first_free(old(self)@, 0) {
                Some(i) => handle == handle_of_slot(i) && final(self)@ == old(self)@.update(
                    i,
                    Some(MemFile { data, pos: 0 }),
                ),
                None => handle == 0 && final(self)@ == old(self)@,
            },
    {
        let mut i: usize = 0;
        while i < MAX_OPEN_FILES
            invariant
                i <= MAX_OPEN_FILES,
                self.slots@.len() == MAX_OPEN_FILES,
                self.slots@ == old(self).slots@,
                first_free(self.slots@, 0) == first_free(self.slots@, i as int),
            decreases MAX_OPEN_FILES - i,
        {
            if self.slots[i].is_none() {
                self.slots[i] = Some(MemFile { data, pos: 0 });
                return (i + 1) * 8;
            }
            i += 1;
        }
        0
    }

    /// Opens the first of the files whose name occurs in a path; zero when there is none or
    /// no slot is free.
    pub fn fopen(&mut self, path: &[u8], files: &[EmbeddedFile]) -> (handle: usize)
        ensures
            final(self)@.len() == MAX_OPEN_FILES,
            match (first_named_in(files@, path@, 0), first_free(old(self)@, 0)) {
                (Some(f), Some(i)) => handle == handle_of_slot(i) && final(self)@ == old(
                    self,
                )@.update(i, Some(MemFile { data: files@[f].data, pos: 0 })),
                _ => handle == 0 && final(self)@ == old(self)@,
            },
    {
        match match_embedded_file(path, files) {
            Some(data) => self.open(data),
            None => 0,
        }
    }

    /// Closes the file that a handle names, if it names one. Returns zero.
    pub fn close(&mut self, handle: usize) -> (status: i32)
        ensures
            status == 0,
            final(self)@.len() == MAX_OPEN_FILES,
            final(self)@ == with_file(old(self)@, handle as int, None),
    {
        match Self::slot_for(handle) {
            Some(i) => {
                self.slots[i] = None;
            },
            None => {},
        }
        0
    }

    /// Reads up to `nmemb` items of `size` bytes from a file and moves its position past
    /// them. Returns the bytes read and the number of whole items among them.
    pub fn read(&mut self, handle: usize, size: usize, nmemb: usize) -> (out: (&'static [u8], usize))
        ensures
            final(self)@.len() == MAX_OPEN_FILES,
            match file_at(old(self)@, handle as int) {
                Some(f) => {
                    let n = read_len(f, size as int, nmemb as int);
                    &&& out.0@.len() == n
                    &&& n > 0 ==> out.0@ == f.data@.subrange(f.pos as int, f.pos + n)
                    &&& out.1 == if n == 0 {
                        0
                    } else {
                        n / (size as int)
                    }
                    &&& final(self)@ == with_file(old(self)@, handle as int, Some(advanced(f, n)))
                },
                None => out.0@.len() == 0 && out.1 == 0 && final(self)@ == old(self)@,
            },
    {
        let empty: &'static [u8] = &[];
        let idx: usize = match Self::slot_for(handle) {
            Some(i) => i,
            None => {
                return (empty, 0);
            },
        };
        let f: MemFile = match self.slots[idx] {
            Some(f) => f,
            None => {
                return (empty, 0);
            },
        };
        let len: usize = f.data.len();
        let avail: usize = if f.pos < len {
            len - f.pos
        } else {
            0
        };
        let to_read: usize = match size.checked_mul(nmemb) {
            Some(total) => if total < avail {
                total
            } else {
                avail
            },
            None => avail,
        };
        if to_read == 0 {
            assert(self.slots@ =~= with_file(self.slots@, handle as int, Some(advanced(f, 0))));
            return (empty, 0);
        }
        assert(size > 0) by (nonlinear_arith)
            requires
                size * nmemb > 0 || size * nmemb > usize::MAX,
                size >= 0,
                nmemb >= 0,
        ;
        let bytes: &'static [u8] = &f.data[f.pos..f.pos + to_read];
        self.slots[idx] = Some(MemFile { data: f.data, pos: f.pos + to_read });
        (bytes, to_read / size)
    }

    /// Moves the position of a file. Returns zero, or -1 where the handle names no open file
    /// or the seek has no target.
    pub fn seek(&mut self, handle: usize, offset: i64, whence: i32) -> (status: i32)
        ensures
            final(self)@.len() == MAX_OPEN_FILES,
            match file_at(old(self)@, handle as int) {
                Some(f) => match seek_target(f, offset as int, whence as int) {
                    Some(p) => status == 0 && final(self)@ == with_file(
                        old(self)@,
                        handle as int,
                        Some(MemFile { data: f.data, pos: p as usize }),
                    ),
                    None => status == -1 && final(self)@ == old(self)@,
                },
                None => status == -1 && final(self)@ == old(self)@,
            },
    {
        let idx: usize = match Self::slot_for(handle) {
            Some(i) => i,
            None => {
                return -1;
            },
        };
        let f: MemFile = match self.slots[idx] {
            Some(f) => f,
            None => {
                return -1;
            },
        };
        let base: i128 = match whence {
            0 => 0,
            1 => f.pos as i128,
            2 => f.data.len() as i128,
            _ => {
                return -1;
            },
        };
        let new_pos: i128 = base + offset as i128;
        if new_pos < 0 || new_pos > isize::MAX as i128 {
            return -1;
        }
        self.slots[idx] = Some(MemFile { data: f.data, pos: new_pos as usize });
        0
    }

    /// Moves the position of a file back to its start.
    pub fn rewind(&mut self, handle: usize)
        ensures
            final(self)@.len() == MAX_OPEN_FILES,
            match file_at(old(self)@, handle as int) {
                Some(f) => final(self)@ == with_file(
                    old(self)@,
                    handle as int,
                    Some(MemFile { data: f.data, pos: 0 }),
                ),
                None => final(self)@ == old(self)@,
            },
    {
        self.seek(handle, 0, 0);
    }

    /// The position of a file; none where the handle names no open file.
    pub fn tell(&self, handle: usize) -> (pos: Option<usize>)
        ensures
            pos == match file_at(self@, handle as int) {
                Some(f) => Some(f.pos),
                None => None,
            },
    {
        match self.file(handle) {
            Some(f) => Some(f.pos),
            None => None,
        }
    }

    /// Reads a line of at most `n - 1` bytes from a file, up to and with its newline, and
    /// moves the position past it. None where the handle names no open file, `n` is not
    /// positive or nothing is left to read.
    pub fn gets(&mut self, handle: usize, n: i32) -> (line: Option<&'static [u8]>)
        ensures
            final(self)@.len() == MAX_OPEN_FILES,
            match file_at(old(self)@, handle as int) {
                Some(f) => {
                    let k = line_len(f.data@, f.pos as int, n - 1);
                    if n > 0 && k > 0 {
                        &&& line matches Some(bytes) && bytes@ == f.data@.subrange(
                            f.pos as int,
                            f.pos + k,
                        )
                        &&& final(self)@ == with_file(
                            old(self)@,
                            handle as int,
                            Some(advanced(f, k)),
                        )
                    } else {
                        line.is_none() && final(self)@ == old(self)@
                    }
                },
                None => line.is_none() && final(self)@ == old(self)@,
            },
    {
        let idx: usize = match Self::slot_for(handle) {
            Some(i) => i,
            None => {
                return None;
            },
        };
        if n <= 0 {
            return None;
        }
        let f: MemFile = match self.slots[idx] {
            Some(f) => f,
            None => {
                return None;
            },
        };
        let max: usize = (n - 1) as usize;
        let len: usize = f.data.len();
        let mut i: usize = 0;
        let mut pos: usize = f.pos;
        while i < max && pos < len
            invariant_except_break
                line_len(f.data@, f.pos as int, max as int) == i + line_len(
                    f.data@,
                    pos as int,
                    max - i,
                ),
            invariant
                i <= max,
                max == n - 1,
                len == f.data@.len(),
                pos == f.pos + i,
                pos <= len || i == 0,
            ensures
                line_len(f.data@, f.pos as int, max as int) == i,
                pos == f.pos + i,
                i == 0 || pos <= len,
            decreases max - i,
        {
            let c: u8 = f.data[pos];
            pos += 1;
            i += 1;
            if c == 10 {
                break;
            }
        }
        if i == 0 {
            return None;
        }
        let bytes: &'static [u8] = &f.data[f.pos..pos];
        self.slots[idx] = Some(MemFile { data: f.data, pos });
        Some(bytes)
    }
}

} // verus!
