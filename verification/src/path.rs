//! Growable, nul-terminated path buffers.

use vstd::prelude::*;
use vstd::string::*;
use vstd::utf8::*;

verus! {

/// The byte that terminates a path buffer.
pub const NUL: u8 = 0;

/// The byte that separates path segments.
pub const SEPARATOR: u8 = 0x2f;

/// No byte of `s` is the terminator.
pub open spec fn no_nul(s: Seq<u8>) -> bool {
    forall|i: int| 0 <= i < s.len() ==> s[i] != NUL
}

/// No character of `text` is the nul character.
pub open spec fn no_nul_char(text: Seq<char>) -> bool {
    forall|i: int| 0 <= i < text.len() ==> text[i] != '\0'
}

/// `s` ends in one terminator and holds no other.
pub open spec fn terminated(s: Seq<u8>) -> bool {
    &&& s.len() >= 1
    &&& s.last() == NUL
    &&& no_nul(s.drop_last())
}

/// The buffer that `Path::joined` builds: the directory's text `dir`, the
/// name and a terminator.
pub open spec fn joined_bytes(dir: Seq<u8>, name: Seq<u8>) -> Seq<u8> {
    (dir + name).push(NUL)
}

/// The buffer that `Path::push` leaves: `buf` without its terminator, then
/// `name`, a separator and a terminator.
pub open spec fn pushed(buf: Seq<u8>, name: Seq<u8>) -> Seq<u8> {
    buf.drop_last() + name + seq![SEPARATOR, NUL]
}

/// The buffer that `Path::truncate` leaves: the first `new_len` bytes of
/// `buf`, then a terminator.
pub open spec fn truncated(buf: Seq<u8>, new_len: int) -> Seq<u8> {
    buf.take(new_len).push(NUL)
}

/// Tells whether no byte of `s` is the terminator.
pub fn has_no_nul(s: &[u8]) -> (b: bool)
    ensures
        b == no_nul(s@),
{
    let mut i: usize = 0;
    while i < s.len()
        invariant
            i <= s@.len(),
            forall|j: int| 0 <= j < i ==> s@[j] != NUL,
        decreases s@.len() - i,
    {
        if s[i] == NUL {
            return false;
        }
        i += 1;
    }
    true
}

/// Tells whether `s` ends in one terminator and holds no other.
pub fn is_terminated(s: &[u8]) -> (b: bool)
    ensures
        b == terminated(s@),
{
    if s.len() == 0 {
        return false;
    }
    let (text, last) = s.split_at(s.len() - 1);
    last[0] == NUL && has_no_nul(text)
}

/// An owned byte buffer holding one path, always nul-terminated.
#[derive(Debug)]
pub struct Path(Vec<u8>);

impl View for Path {
    type V = Seq<u8>;

    /// All bytes of the buffer, the terminator included.
    closed spec fn view(&self) -> Seq<u8> {
        self.0@
    }
}

impl Clone for Path {
    fn clone(&self) -> (p: Self)
        ensures
            p@ == self@,
    {
        Path(self.0.clone())
    }
}

impl Path {
    /// The buffer is not empty, its last byte is the terminator and no
    /// other byte is.
    pub open spec fn wf(&self) -> bool {
        terminated(self@)
    }

    /// The path's text: the buffer without its terminator.
    pub open spec fn text(&self) -> Seq<u8> {
        self@.drop_last()
    }

    /// Builds the buffer that holds the bytes of `s` and a terminator.
    pub fn from_str(s: &str) -> (p: Self)
        requires
            no_nul_char(s@),
        ensures
            p@ == s.spec_bytes().push(NUL),
            p.wf(),
    {
        let bytes = s.as_bytes();
        proof {
            lemma_text_encodes_without_nul(s@);
        }
        let mut v: Vec<u8> = if bytes.len() < usize::MAX {
            Vec::with_capacity(bytes.len() + 1)
        } else {
            Vec::new()
        };
        v.extend_from_slice(bytes);
        v.push(NUL);
        Path(v)
    }

    /// Takes over a buffer that is already terminated.
    pub fn from_vec_unchecked(v: Vec<u8>) -> (p: Self)
        requires
            terminated(v@),
        ensures
            p@ == v@,
            p.wf(),
    {
        Path(v)
    }

    /// Copies a string that is already terminated.
    pub fn from_cstr(s: &[u8]) -> (p: Self)
        requires
            terminated(s@),
        ensures
            p@ == s@,
            p.wf(),
    {
        let mut v: Vec<u8> = Vec::with_capacity(s.len());
        v.extend_from_slice(s);
        assert(v@ =~= s@);
        Path(v)
    }

    /// Builds the path of the entry named `fname` in the directory `dir`:
    /// the directory's text, the name and a terminator.
    pub fn joined(dir: &Path, fname: &[u8]) -> (p: Self)
        requires
            dir.wf(),
            no_nul(fname@),
        ensures
            p@ == joined_bytes(dir.text(), fname@),
            p.wf(),
    {
        let text = dir.to_bytes();
        let mut v: Vec<u8> = if text.len() < usize::MAX - fname.len() {
            Vec::with_capacity(text.len() + fname.len() + 1)
        } else {
            Vec::new()
        };
        v.extend_from_slice(text);
        v.extend_from_slice(fname);
        v.push(NUL);
        Path(v)
    }

    /// Appends `s` and a separator in place of the terminator, then terminates again.
    pub fn push(&mut self, s: &[u8])
        requires
            old(self).wf(),
            no_nul(s@),
        ensures
            final(self)@ == pushed(old(self)@, s@),
            final(self).wf(),
    {
        self.0.pop();
        self.0.extend_from_slice(s);
        self.0.push(SEPARATOR);
        self.0.push(NUL);
    }

    /// Cuts the buffer down to its first `new_len` bytes and terminates it again.
    pub fn truncate(&mut self, new_len: usize)
        requires
            old(self).wf(),
            new_len < old(self)@.len(),
        ensures
            final(self)@ == truncated(old(self)@, new_len as int),
            final(self).wf(),
    {
        self.0.truncate(new_len);
        self.0.push(NUL);
    }

    /// The path's text, without the terminator.
    pub fn to_bytes(&self) -> (s: &[u8])
        requires
            self.wf(),
        ensures
            s@ == self.text(),
            no_nul(s@),
    {
        let bytes = self.0.as_slice();
        let (text, _) = bytes.split_at(bytes.len() - 1);
        text
    }

    /// The buffer as a terminated string, borrowed.
    pub fn as_cstr(&self) -> (s: &[u8])
        ensures
            s@ == self@,
    {
        self.0.as_slice()
    }

    /// The whole buffer, terminator included.
    pub fn into_inner(self) -> (v: Vec<u8>)
        ensures
            v@ == self@,
    {
        self.0
    }
}

proof fn lemma_scalar_encodes_without_nul(c: u32)
    requires
        c != 0,
    ensures
        no_nul(encode_scalar(c)),
{
    assert(c != 0 && c <= 0x7f ==> (c & 0x7F) as u8 != 0) by (bit_vector);
    assert(0xC0 | ((c >> 6) & 0x1F) as u8 != 0) by (bit_vector);
    assert(0xE0 | ((c >> 12) & 0x0F) as u8 != 0) by (bit_vector);
    assert(0xF0 | ((c >> 18) & 0x7) as u8 != 0) by (bit_vector);
    assert(0x80 | (c & 0x3F) as u8 != 0) by (bit_vector);
    assert(0x80 | ((c >> 6) & 0x3F) as u8 != 0) by (bit_vector);
    assert(0x80 | ((c >> 12) & 0x3F) as u8 != 0) by (bit_vector);
}

/// A text without the nul character has no zero byte in its encoding.
pub proof fn lemma_text_encodes_without_nul(text: Seq<char>)
    requires
        no_nul_char(text),
    ensures
        no_nul(encode_utf8(text)),
    decreases text.len(),
{
    if text.len() > 0 {
        let c = text[0] as u32;
        assert(c != 0) by {
            char_u32_cast(text[0], c);
            char_u32_cast('\0', 0u32);
        }
        lemma_scalar_encodes_without_nul(c);
        lemma_text_encodes_without_nul(text.drop_first());
        let head = encode_scalar(c);
        let rest = encode_utf8(text.drop_first());
        assert(no_nul(head + rest));
    }
}

/// Pushing a name and then truncating to the length of the text before the
/// push gives back the buffer byte for byte.
pub proof fn lemma_push_truncate_restores(buf: Seq<u8>, name: Seq<u8>)
    requires
        terminated(buf),
    ensures
        truncated(pushed(buf, name), buf.len() - 1) == buf,
{
}

/// Every operation on a terminated buffer leaves a terminated buffer.
pub proof fn lemma_operations_keep_termination(buf: Seq<u8>, name: Seq<u8>, new_len: int)
    requires
        terminated(buf),
        no_nul(name),
        0 <= new_len < buf.len(),
    ensures
        terminated(pushed(buf, name)),
        terminated(truncated(buf, new_len)),
        terminated(joined_bytes(buf.drop_last(), name)),
{
}

} // verus!
