//! Decoding of the variable-length directory-entry records that the
//! operating system writes into a buffer of 64-bit words.
//!
//! A record starts on a word boundary. Its first word is the inode number
//! and its second the offset of the next record. The third word holds the
//! record's length in bytes in its two lowest bytes and the type tag in the
//! next one; the name starts at byte 19, ends with a zero byte and is padded
//! up to the next word boundary. Bytes are counted in the memory order of a
//! little-endian machine, lowest byte of a word first.

use crate::path::no_nul;
use vstd::prelude::*;

verus! {

/// Offset of the first byte of the name within a record.
pub const NAME_OFFSET: usize = 19;

/// Length in bytes of the shortest record.
pub const MIN_RECLEN: usize = 24;

/// Byte `k` of the word `w`, in memory order.
pub open spec fn byte_of(w: u64, k: int) -> u8 {
    ((w >> ((8 * k) as u64)) & 0xff) as u8
}

/// Byte `i` of the buffer `w`.
pub open spec fn byte_at(w: Seq<u64>, i: int) -> u8 {
    byte_of(w[i / 8], i % 8)
}

/// The length in bytes that the record at the head of `w` declares.
pub open spec fn record_len(w: Seq<u64>) -> int {
    (w[2] & 0xffff) as int
}

/// The type tag of the record at the head of `w`.
pub open spec fn record_type(w: Seq<u64>) -> u8 {
    byte_of(w[2], 2)
}

/// The least offset in `from..to` that holds a zero byte, or `to` where
/// there is none (`from` where the range is empty).
pub open spec fn first_nul(w: Seq<u64>, from: int, to: int) -> int
    decreases to - from,
{
    if from >= to || byte_at(w, from) == 0 {
        from
    } else {
        first_nul(w, from + 1, to)
    }
}

/// Offset of the zero byte that ends the name of the record at the head of
/// `w`; the record's length where the name is not terminated.
pub open spec fn name_end(w: Seq<u64>) -> int {
    first_nul(w, NAME_OFFSET as int, record_len(w))
}

/// Offset from which the last word of a record of `reclen` bytes belongs to
/// the name field: in the shortest record that word also holds the length
/// and the type tag.
pub open spec fn last_word_start(reclen: int) -> int {
    if reclen == MIN_RECLEN {
        NAME_OFFSET as int
    } else {
        reclen - 8
    }
}

/// The bytes `from..to` of the buffer `w`.
pub open spec fn bytes_between(w: Seq<u64>, from: int, to: int) -> Seq<u8> {
    Seq::new((to - from) as nat, |i: int| byte_at(w, from + i))
}

/// What one record says, as plain values.
pub struct DirentRecord {
    pub inode: u64,
    pub offset: u64,
    pub reclen: u16,
    pub typ: u8,
    pub name: Seq<u8>,
}

/// No record can be read at the head of `w`: fewer than three words are
/// left, too few to hold a record's length.
pub open spec fn at_end(w: Seq<u64>) -> bool {
    w.len() < 3
}

/// The record at the head of `w` is sound: its length is a multiple of 8,
/// at least 24 and within the buffer, and its name ends in the record's
/// last word.
pub open spec fn head_ok(w: Seq<u64>) -> bool {
    let reclen = record_len(w);
    &&& reclen % 8 == 0
    &&& reclen >= MIN_RECLEN
    &&& reclen <= 8 * w.len()
    &&& last_word_start(reclen) <= name_end(w) < reclen
}

/// The record at the head of `w`.
pub open spec fn head(w: Seq<u64>) -> DirentRecord {
    DirentRecord {
        inode: w[0],
        offset: w[1],
        reclen: record_len(w) as u16,
        typ: record_type(w),
        name: bytes_between(w, NAME_OFFSET as int, name_end(w)),
    }
}

/// What is left of `w` behind its first record.
pub open spec fn tail(w: Seq<u64>) -> Seq<u64> {
    w.skip(record_len(w) / 8)
}

/// Every record of the batch `w` is sound, up to the point where no record
/// can be read any more.
pub open spec fn batch_ok(w: Seq<u64>) -> bool
    decreases w.len(),
{
    if at_end(w) {
        true
    } else if head_ok(w) {
        batch_ok(tail(w))
    } else {
        false
    }
}

/// The records of the batch `w` in order, up to its end or to the first
/// record that is not sound.
pub open spec fn entries(w: Seq<u64>) -> Seq<DirentRecord>
    decreases w.len(),
{
    if at_end(w) || !head_ok(w) {
        Seq::empty()
    } else {
        seq![head(w)] + entries(tail(w))
    }
}

/// A read that returned `status` has left a batch in a buffer of `len`
/// words: it wrote a positive number of whole words, no more than the buffer
/// holds.
pub open spec fn read_ok(status: isize, len: nat) -> bool {
    &&& status > 0
    &&& status % 8 == 0
    &&& status / 8 <= len
}

/// The length of the record that holds a name of `name_len` bytes: header,
/// name and terminator, rounded up to whole words.
pub open spec fn encoded_len(name_len: int) -> int {
    (NAME_OFFSET + name_len + 1 + 7) / 8 * 8
}

/// The buffer `w` starts with the record `r`: the fields are in their
/// places, the name is followed by a zero byte and the record is as long as
/// its name asks. What the padding holds is left open.
pub open spec fn holds_record(w: Seq<u64>, r: DirentRecord) -> bool {
    &&& r.reclen == encoded_len(r.name.len() as int)
    &&& r.reclen <= 8 * w.len()
    &&& w[0] == r.inode
    &&& w[1] == r.offset
    &&& record_len(w) == r.reclen
    &&& record_type(w) == r.typ
    &&& forall|i: int| 0 <= i < r.name.len() ==> byte_at(w, NAME_OFFSET + i) == r.name[i]
    &&& byte_at(w, NAME_OFFSET + r.name.len()) == 0
}

/// The buffer `w` is made of the records `rs`, one behind the other, and of
/// nothing else.
pub open spec fn holds_batch(w: Seq<u64>, rs: Seq<DirentRecord>) -> bool
    decreases rs.len(),
{
    if rs.len() == 0 {
        w.len() == 0
    } else {
        holds_record(w, rs[0]) && holds_batch(w.skip(rs[0].reclen as int / 8), rs.drop_first())
    }
}

/// A name as a directory holds it: between 1 and 255 bytes, none of them zero.
pub open spec fn entry_name(name: Seq<u8>) -> bool {
    1 <= name.len() <= 255 && no_nul(name)
}

/// The type tag of a directory entry.
#[derive(Clone, Copy, Debug, PartialEq, Eq)]
pub enum DirentType {
    Unknown,
    Fifo,
    Character,
    Directory,
    Block,
    RegularFile,
    Link,
    Socket,
    Wht,
}

impl DirentType {
    /// The number that stands for this type in a record.
    pub open spec fn spec_code(self) -> u8 {
        match self {
            DirentType::Unknown => 0,
            DirentType::Fifo => 1,
            DirentType::Character => 2,
            DirentType::Directory => 4,
            DirentType::Block => 6,
            DirentType::RegularFile => 8,
            DirentType::Link => 10,
            DirentType::Socket => 12,
            DirentType::Wht => 14,
        }
    }

    /// The number that stands for this type in a record.
    #[verifier::when_used_as_spec(spec_code)]
    pub fn code(self) -> (c: u8)
        ensures
            c == self.spec_code(),
    {
        match self {
            DirentType::Unknown => 0,
            DirentType::Fifo => 1,
            DirentType::Character => 2,
            DirentType::Directory => 4,
            DirentType::Block => 6,
            DirentType::RegularFile => 8,
            DirentType::Link => 10,
            DirentType::Socket => 12,
            DirentType::Wht => 14,
        }
    }

    /// The type that the number `c` stands for, if it stands for one.
    pub fn from_code(c: u8) -> (t: Option<DirentType>)
        ensures
            match t {
                Some(t) => t.spec_code() == c,
                None => forall|t: DirentType| t.spec_code() != c,
            },
    {
        match c {
            0 => Some(DirentType::Unknown),
            1 => Some(DirentType::Fifo),
            2 => Some(DirentType::Character),
            4 => Some(DirentType::Directory),
            6 => Some(DirentType::Block),
            8 => Some(DirentType::RegularFile),
            10 => Some(DirentType::Link),
            12 => Some(DirentType::Socket),
            14 => Some(DirentType::Wht),
            _ => None,
        }
    }
}

/// One decoded directory entry. The name is held without its terminator.
#[derive(Debug)]
pub struct Dirent64 {
    pub inode: u64,
    pub offset: u64,
    pub reclen: u16,
    pub typ: u8,
    pub filename: Vec<u8>,
}

impl View for Dirent64 {
    type V = DirentRecord;

    open spec fn view(&self) -> DirentRecord {
        DirentRecord {
            inode: self.inode,
            offset: self.offset,
            reclen: self.reclen,
            typ: self.typ,
            name: self.filename@,
        }
    }
}

impl Dirent64 {
    /// The entry's type, where its tag is a known one.
    pub fn kind(&self) -> (t: Option<DirentType>)
        ensures
            match t {
                Some(t) => t.spec_code() == self.typ,
                None => forall|t: DirentType| t.spec_code() != self.typ,
            },
    {
        DirentType::from_code(self.typ)
    }
}

proof fn lemma_byte_of_bound(w: u64, k: u64)
    by (bit_vector)
    requires
        k < 8,
    ensures
        (w >> (8 * k)) & 0xff <= 0xff,
{
}

/// Byte `k` of the word `w`, in memory order.
fn word_byte(w: u64, k: usize) -> (b: u8)
    requires
        k < 8,
    ensures
        b == byte_of(w, k as int),
{
    let shift: u64 = 8 * (k as u64);
    proof {
        lemma_byte_of_bound(w, k as u64);
    }
    ((w >> shift) & 0xff) as u8
}

/// Byte `i` of the buffer `words`.
fn buffer_byte(words: &[u64], i: usize) -> (b: u8)
    requires
        i < 8 * words@.len(),
    ensures
        b == byte_at(words@, i as int),
{
    word_byte(words[i / 8], i % 8)
}


proof fn lemma_low16_bound(w: u64)
    by (bit_vector)
    ensures
        w & 0xffff <= 0xffff,
{
}

proof fn lemma_mask_low_bytes(w: u64, k: u64)
    by (bit_vector)
    requires
        k < 8,
    ensures
        k < 3 ==> ((w | 0xFFFFFF) >> (8 * k)) & 0xff == 0xff,
        k >= 3 ==> ((w | 0xFFFFFF) >> (8 * k)) & 0xff == (w >> (8 * k)) & 0xff,
{
}

/// `first_nul` stays in its range, passes over no zero byte and stops on one
/// unless it reaches the end.
proof fn lemma_first_nul(w: Seq<u64>, from: int, to: int)
    requires
        from <= to,
    ensures
        from <= first_nul(w, from, to) <= to,
        forall|i: int| from <= i < first_nul(w, from, to) ==> byte_at(w, i) != 0,
        first_nul(w, from, to) < to ==> byte_at(w, first_nul(w, from, to)) == 0,
    decreases to - from,
{
    if from < to && byte_at(w, from) != 0 {
        lemma_first_nul(w, from + 1, to);
    }
}

/// Offsets that hold no zero byte can be skipped.
proof fn lemma_first_nul_skip(w: Seq<u64>, from: int, mid: int, to: int)
    requires
        from <= mid <= to,
        forall|i: int| from <= i < mid ==> byte_at(w, i) != 0,
    ensures
        first_nul(w, from, to) == first_nul(w, mid, to),
    decreases mid - from,
{
    if from < mid {
        lemma_first_nul_skip(w, from + 1, mid, to);
    }
}

/// A lazy, single-pass sequence of the entries in one batch of raw records.
/// It holds the words that have not been decoded yet.
pub struct DirentIter<'a>(pub &'a [u64]);

impl<'a> View for DirentIter<'a> {
    type V = Seq<u64>;

    open spec fn view(&self) -> Seq<u64> {
        self.0@
    }
}

impl<'a> DirentIter<'a> {
    /// A call of `next` is in order: the sequence is at its end, or the
    /// record at its head is sound.
    pub open spec fn can_advance(&self) -> bool {
        at_end(self@) || head_ok(self@)
    }

    /// Tells whether `next` may be called.
    pub fn head_is_valid(&self) -> (b: bool)
        ensures
            b == self.can_advance(),
    {
        let words: &[u64] = self.0;
        if words.len() < 3 {
            return true;
        }
        let w2: u64 = words[2];
        proof {
            lemma_low16_bound(w2);
        }
        let reclen: usize = (w2 & 0xffff) as usize;
        if reclen % 8 != 0 || reclen < MIN_RECLEN || reclen / 8 > words.len() {
            return false;
        }
        let start: usize = if reclen == MIN_RECLEN {
            NAME_OFFSET
        } else {
            reclen - 8
        };
        let mut i: usize = NAME_OFFSET;
        while i < reclen && buffer_byte(words, i) != 0
            invariant
                NAME_OFFSET <= i <= reclen,
                reclen <= 8 * words@.len(),
                forall|j: int| NAME_OFFSET <= j < i ==> byte_at(words@, j) != 0,
            decreases reclen - i,
        {
            i += 1;
        }
        proof {
            lemma_first_nul_skip(words@, NAME_OFFSET as int, i as int, reclen as int);
        }
        start <= i && i < reclen
    }

    /// Decodes the record at the head of the sequence and steps over it.
    /// Gives nothing, and leaves the sequence as it is, once no record is left.
    pub fn next(&mut self) -> (r: Option<Dirent64>)
        requires
            old(self).can_advance(),
        ensures
            match r {
                None => at_end(old(self)@) && final(self)@ == old(self)@,
                Some(e) => {
                    &&& !at_end(old(self)@)
                    &&& e@ == head(old(self)@)
                    &&& e.reclen % 8 == 0
                    &&& e.reclen >= MIN_RECLEN
                    &&& no_nul(e@.name)
                    &&& final(self)@ == tail(old(self)@)
                    &&& final(self)@.len() < old(self)@.len()
                },
            },
    {
        let words: &'a [u64] = self.0;
        if words.len() < 3 {
            return None;
        }
        let w2: u64 = words[2];
        proof {
            lemma_low16_bound(w2);
        }
        let reclen: usize = (w2 & 0xffff) as usize;
        let size_in_u64s: usize = reclen / 8;
        let last_word_idx: usize = size_in_u64s - 1;
        let last_word: u64 = words[last_word_idx];
        // In the shortest record the last word also holds the length and the
        // type tag: force those bytes to be non-zero.
        let last_word: u64 = if last_word_idx == 2 {
            last_word | 0xFFFFFF
        } else {
            last_word
        };
        let ghost base = 8 * last_word_idx as int;
        proof {
            lemma_first_nul(words@, NAME_OFFSET as int, reclen as int);
            assert forall|j: int| 0 <= j < 8 implies byte_of(last_word, j) == (if base + j
                < NAME_OFFSET {
                0xffu8
            } else {
                byte_at(words@, base + j)
            }) by {
                lemma_mask_low_bytes(words@[last_word_idx as int], j as u64);
            }
        }
        let mut k: usize = 0;
        while k < 8 && word_byte(last_word, k) != 0
            invariant
                k <= 8,
                forall|j: int| 0 <= j < k ==> byte_of(last_word, j) != 0,
            decreases 8 - k,
        {
            k += 1;
        }
        proof {
            let j0 = name_end(words@) - base;
            assert(byte_of(last_word, j0) == 0);
        }
        let ignore: usize = 7 - k;
        let filename_len: usize = reclen - NAME_OFFSET - ignore;
        let end: usize = NAME_OFFSET + filename_len - 1;
        let mut filename: Vec<u8> = Vec::with_capacity(filename_len - 1);
        let mut i: usize = NAME_OFFSET;
        while i < end
            invariant
                NAME_OFFSET <= i <= end,
                end <= 8 * words@.len(),
                filename@ == bytes_between(words@, NAME_OFFSET as int, i as int),
            decreases end - i,
        {
            filename.push(buffer_byte(words, i));
            i += 1;
        }
        let (_, rest) = words.split_at(size_in_u64s);
        self.0 = rest;
        Some(
            Dirent64 {
                inode: words[0],
                offset: words[1],
                reclen: reclen as u16,
                typ: word_byte(w2, 2),
                filename,
            },
        )
    }
}


/// Tells whether a read that returned `status` has left a batch in a buffer
/// of `len` words.
pub fn read_is_valid(status: isize, len: usize) -> (b: bool)
    ensures
        b == read_ok(status, len as nat),
{
    if status <= 0 {
        return false;
    }
    let written: usize = status as usize;
    written % 8 == 0 && written / 8 <= len
}

/// Parts the buffer `dirp`, into which a read that returned `status` has
/// written, into the entries that were written and the words left unused.
pub fn getdents64<'a>(status: isize, dirp: &'a [u64]) -> (r: (DirentIter<'a>, &'a [u64]))
    requires
        read_ok(status, dirp@.len()),
    ensures
        r.0@ == dirp@.take(status as int / 8),
        r.1@ == dirp@.skip(status as int / 8),
{
    let (dirents, rest) = dirp.split_at(status as usize / 8);
    (DirentIter(dirents), rest)
}

/// Decoding gives back what was written: where a buffer starts with a
/// record whose name has between 1 and 255 bytes and no zero byte, that
/// record is sound, its length is a multiple of 8 and at least 24, and the
/// entry decoded from it has exactly that name and those fields.
pub proof fn lemma_decodes_written_record(w: Seq<u64>, r: DirentRecord)
    requires
        holds_record(w, r),
        entry_name(r.name),
    ensures
        !at_end(w),
        head_ok(w),
        head(w) == r,
        r.reclen % 8 == 0,
        r.reclen >= MIN_RECLEN,
{
    let n = r.name.len() as int;
    let reclen = r.reclen as int;
    let end = NAME_OFFSET + n;
    assert forall|i: int| NAME_OFFSET <= i < end implies byte_at(w, i) != 0 by {
        assert(byte_at(w, NAME_OFFSET + (i - NAME_OFFSET)) == r.name[i - NAME_OFFSET]);
    }
    lemma_first_nul_skip(w, NAME_OFFSET as int, end, reclen);
    assert(head(w).name =~= r.name);
}

/// Decoding a batch gives back what was written, record by record: where a
/// buffer is made of records whose names have between 1 and 255 bytes and
/// no zero byte, the batch is sound and its entries are those records.
pub proof fn lemma_decodes_written_batch(w: Seq<u64>, rs: Seq<DirentRecord>)
    requires
        holds_batch(w, rs),
        forall|i: int| 0 <= i < rs.len() ==> entry_name(#[trigger] rs[i].name),
    ensures
        batch_ok(w),
        entries(w) == rs,
    decreases rs.len(),
{
    if rs.len() > 0 {
        lemma_decodes_written_record(w, rs[0]);
        lemma_decodes_written_batch(tail(w), rs.drop_first());
    }
}

} // verus!
