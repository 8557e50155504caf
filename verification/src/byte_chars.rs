use vstd::prelude::*;

verus! {

/// Number of bytes (1 to 4) in the UTF-8 encoding of the character `c`.
pub open spec fn utf8_width(c: char) -> int {
    if (c as u32) < 0x80 {
        1
    } else if (c as u32) < 0x800 {
        2
    } else if (c as u32) < 0x10000 {
        3
    } else {
        4
    }
}

/// Total number of bytes in the UTF-8 encoding of the character sequence `s`.
pub open spec fn bytes_len(s: Seq<char>) -> int
    decreases s.len(),
{
    if s.len() == 0 {
        0
    } else {
        utf8_width(s[0]) + bytes_len(s.drop_first())
    }
}

/// Byte offset of the character at index `i` of `s`: the bytes taken by all
/// characters before it.
pub open spec fn byte_offset(s: Seq<char>, i: int) -> int {
    bytes_len(s.take(i))
}

pub proof fn lemma_bytes_len_nonneg(s: Seq<char>)
    ensures
        bytes_len(s) >= 0,
    decreases s.len(),
{
    if s.len() > 0 {
        lemma_bytes_len_nonneg(s.drop_first());
    }
}

pub proof fn lemma_bytes_len_concat(a: Seq<char>, b: Seq<char>)
    ensures
        bytes_len(a + b) == bytes_len(a) + bytes_len(b),
    decreases a.len(),
{
    if a.len() == 0 {
        assert(a + b =~= b);
    } else {
        assert((a + b).drop_first() =~= a.drop_first() + b);
        lemma_bytes_len_concat(a.drop_first(), b);
    }
}

pub proof fn lemma_bytes_len_push(s: Seq<char>, c: char)
    ensures
        bytes_len(s.push(c)) == bytes_len(s) + utf8_width(c),
    decreases s.len(),
{
    if s.len() == 0 {
        assert(s.push(c)[0] == c);
        assert(s.push(c).drop_first() =~= Seq::<char>::empty());
        assert(bytes_len(Seq::<char>::empty()) == 0);
    } else {
        assert(s.push(c)[0] == s[0]);
        assert(s.push(c).drop_first() =~= s.drop_first().push(c));
        lemma_bytes_len_push(s.drop_first(), c);
    }
}

pub proof fn lemma_bytes_len_take_succ(s: Seq<char>, i: int)
    requires
        0 <= i < s.len(),
    ensures
        bytes_len(s.take(i + 1)) == bytes_len(s.take(i)) + utf8_width(s[i]),
{
    assert(s.take(i + 1) =~= s.take(i).push(s[i]));
    lemma_bytes_len_push(s.take(i), s[i]);
}

/// A prefix of a text never takes more bytes than the whole of it.
pub proof fn lemma_bytes_len_take_le(s: Seq<char>, i: int)
    requires
        0 <= i <= s.len(),
    ensures
        bytes_len(s.take(i)) <= bytes_len(s),
{
    assert(s =~= s.take(i) + s.skip(i));
    lemma_bytes_len_concat(s.take(i), s.skip(i));
    lemma_bytes_len_nonneg(s.skip(i));
}

/// A sequence of one-byte (ASCII) characters takes exactly one byte each.
pub proof fn lemma_bytes_len_ascii(s: Seq<char>)
    requires
        forall|i: int| 0 <= i < s.len() ==> utf8_width(s[i]) == 1,
    ensures
        bytes_len(s) == s.len(),
    decreases s.len(),
{
    if s.len() > 0 {
        lemma_bytes_len_ascii(s.drop_first());
    }
}

/// The UTF-8 encoding of a single character takes `utf8_width` bytes.
proof fn lemma_scalar_width(c: char)
    ensures
        vstd::utf8::encode_scalar(c as u32).len() == utf8_width(c),
{
    vstd::utf8::char_is_scalar(c);
}

/// `bytes_len` agrees with the length of the UTF-8 encoding as vstd defines it.
pub proof fn lemma_bytes_len_is_encoding_len(s: Seq<char>)
    ensures
        bytes_len(s) == vstd::utf8::encode_utf8(s).len(),
    decreases s.len(),
{
    if s.len() > 0 {
        lemma_scalar_width(s[0]);
        lemma_bytes_len_is_encoding_len(s.drop_first());
    }
}

/// Computes the number of bytes the UTF-8 encoding of `c` takes.
pub fn char_width(c: char) -> (w: usize)
    ensures
        w == utf8_width(c),
{
    let u = c as u32;
    if u < 0x80 {
        1
    } else if u < 0x800 {
        2
    } else if u < 0x10000 {
        3
    } else {
        4
    }
}

/// Provides the characters of a str and remembers your byte position in the
/// str: at any point, `bytes` is the total UTF-8 length of the characters
/// already returned.
pub struct ByteChars<'a> {
    input: &'a str,
    length: usize,
    index: usize,
    bytes: usize,
}

impl<'a> ByteChars<'a> {
    /// The full character sequence this cursor walks over.
    pub closed spec fn all_chars(&self) -> Seq<char> {
        self.input@
    }

    /// How many characters have been consumed so far.
    pub closed spec fn consumed(&self) -> int {
        self.index as int
    }

    /// The byte count owed after the consumed characters: the sum of their
    /// UTF-8 widths.
    pub open spec fn bytes_consumed(&self) -> int {
        byte_offset(self.all_chars(), self.consumed())
    }

    pub closed spec fn inv(&self) -> bool {
        &&& self.index <= self.input@.len()
        &&& self.length == self.input@.len()
        &&& self.bytes == bytes_len(self.input@.take(self.index as int))
        &&& bytes_len(self.input@) <= usize::MAX
    }

    pub open spec fn wf(&self) -> bool {
        &&& self.inv()
        &&& 0 <= self.consumed() <= self.all_chars().len()
    }

    pub fn new(inner: &'a str) -> (r: ByteChars<'a>)
        ensures
            r.wf(),
            r.all_chars() == inner@,
            r.consumed() == 0,
    {
        let length = inner.unicode_len();
        let total = inner.as_bytes().len();
        proof {
            lemma_bytes_len_is_encoding_len(inner@);
            assert(bytes_len(inner@) == total as int);
            assert(inner@.take(0) =~= Seq::<char>::empty());
        }
        ByteChars { input: inner, length, index: 0, bytes: 0 }
    }

    /// The total number of bytes consumed so far.
    pub fn bytes(&self) -> (r: usize)
        requires
            self.wf(),
        ensures
            r as int == self.bytes_consumed(),
    {
        self.bytes
    }

    /// The number of characters consumed so far.
    pub fn index(&self) -> (r: usize)
        requires
            self.wf(),
        ensures
            r as int == self.consumed(),
    {
        self.index
    }

    /// Returns the next character, if any, and counts its bytes.
    pub fn next(&mut self) -> (r: Option<char>)
        requires
            old(self).wf(),
        ensures
            final(self).wf(),
            final(self).all_chars() == old(self).all_chars(),
            old(self).consumed() < old(self).all_chars().len() ==> {
                &&& r == Some(old(self).all_chars()[old(self).consumed()])
                &&& final(self).consumed() == old(self).consumed() + 1
            },
            old(self).consumed() >= old(self).all_chars().len() ==> {
                &&& r is None
                &&& final(self).consumed() == old(self).consumed()
            },
    {
        if self.index < self.length {
            let c = self.input.get_char(self.index);
            let w = char_width(c);
            proof {
                lemma_bytes_len_take_succ(self.input@, self.index as int);
                lemma_bytes_len_take_le(self.input@, self.index + 1);
            }
            self.bytes = self.bytes + w;
            self.index = self.index + 1;
            Some(c)
        } else {
            None
        }
    }

    /// Returns the next character without consuming it.
    pub fn peek(&self) -> (r: Option<char>)
        requires
            self.wf(),
        ensures
            self.consumed() < self.all_chars().len() ==> r == Some(
                self.all_chars()[self.consumed()],
            ),
            self.consumed() >= self.all_chars().len() ==> r is None,
    {
        if self.index < self.length {
            Some(self.input.get_char(self.index))
        } else {
            None
        }
    }
}

} // verus!
