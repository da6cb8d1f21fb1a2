//! The source text as characters.

use vstd::prelude::*;
use vstd::utf8::{
    encode_scalar, encode_utf8, encode_utf8_decode_utf8, encode_utf8_first_scalar,
    encode_utf8_valid_utf8, is_char_boundary, length_of_first_scalar, pop_first_scalar,
};

verus! {

/// The number of bytes in front of the character at `i`, in the UTF-8
/// encoding of a text.
pub open spec fn byte_offset(s: Seq<char>, i: int) -> int {
    encode_utf8(s.take(i)).len() as int
}

/// The encoding of two texts one after the other is the encoding of the
/// first followed by that of the second.
pub proof fn lemma_encode_concat(a: Seq<char>, b: Seq<char>)
    ensures
        encode_utf8(a + b) == encode_utf8(a) + encode_utf8(b),
    decreases a.len(),
{
    if a.len() > 0 {
        assert((a + b).drop_first() =~= a.drop_first() + b);
        lemma_encode_concat(a.drop_first(), b);
    }
}

/// The encoding of a text of one character is the encoding of the character.
pub proof fn lemma_encode_one(c: char)
    ensures
        encode_utf8(seq![c]) == encode_scalar(c as u32),
{
    reveal_with_fuel(encode_utf8, 2);
}

/// The encoding of a text lies, part by part, on the byte offsets of its
/// characters.
pub proof fn lemma_encode_between(s: Seq<char>, from: int, to: int)
    requires
        0 <= from <= to <= s.len(),
    ensures
        byte_offset(s, from) <= byte_offset(s, to) <= encode_utf8(s).len(),
        encode_utf8(s).subrange(byte_offset(s, from), byte_offset(s, to)) == encode_utf8(
            s.subrange(from, to),
        ),
{
    assert(s =~= s.take(to) + s.skip(to));
    lemma_encode_concat(s.take(to), s.skip(to));
    assert(s.take(to) =~= s.take(from) + s.subrange(from, to));
    lemma_encode_concat(s.take(from), s.subrange(from, to));
}

/// The byte offset of a character is a boundary between characters in the
/// encoding of the text.
pub proof fn lemma_offset_is_boundary(s: Seq<char>, i: int)
    requires
        0 <= i <= s.len(),
    ensures
        is_char_boundary(encode_utf8(s), byte_offset(s, i)),
    decreases i,
{
    let bytes = encode_utf8(s);
    encode_utf8_valid_utf8(s);
    if i > 0 {
        let tail = s.drop_first();
        assert(s.take(i).drop_first() =~= tail.take(i - 1));
        lemma_encode_between(s, 0, i);
        encode_utf8_first_scalar(s);
        assert(pop_first_scalar(bytes) =~= encode_utf8(tail));
        lemma_offset_is_boundary(tail, i - 1);
    }
}

/// Two texts with one encoding are one text.
pub proof fn lemma_encode_is_injective(a: Seq<char>, b: Seq<char>)
    requires
        encode_utf8(a) == encode_utf8(b),
    ensures
        a == b,
{
    encode_utf8_decode_utf8(a);
    encode_utf8_decode_utf8(b);
}

/// The number of bytes that encode a character.
pub fn utf8_width(c: char) -> (width: usize)
    ensures
        width == encode_scalar(c as u32).len(),
        1 <= width <= 4,
{
    let code = c as u32;
    if code <= 0x7f {
        1
    } else if code <= 0x7ff {
        2
    } else if code <= 0xffff {
        3
    } else {
        4
    }
}

/// A source text together with its characters, laid out for reading by
/// cursor. A cursor counts the characters in front of it.
pub struct Source<'a> {
    text: &'a str,
    chars: Vec<char>,
    offsets: Vec<usize>,
}

impl<'a> View for Source<'a> {
    type V = Seq<char>;

    closed spec fn view(&self) -> Seq<char> {
        self.text@
    }
}

impl<'a> Source<'a> {
    /// The characters are those of the text, and the offsets are the byte
    /// offsets of the characters, with the length in bytes at the end.
    #[verifier::type_invariant]
    spec fn wf(self) -> bool {
        &&& self.chars@ == self.text@
        &&& self.offsets@.len() == self.chars@.len() + 1
        &&& forall|i: int|
            0 <= i <= self.chars@.len() ==> #[trigger] self.offsets@[i] == byte_offset(
                self.text@,
                i,
            )
    }

    /// Lays out the characters of a text.
    pub fn new(text: &'a str) -> (source: Self)
        ensures
            source@ == text@,
    {
        let bytes = text.as_bytes().len();
        let mut chars: Vec<char> = Vec::with_capacity(bytes);
        let mut offsets: Vec<usize> = Vec::new();
        let mut offset: usize = 0;
        proof {
            lemma_encode_between(text@, 0, text@.len() as int);
        }
        for c in iter: text.chars()
            invariant
                iter.seq() == text@,
                bytes == encode_utf8(text@).len(),
                chars@ == text@.take(iter.index() as int),
                offsets@.len() == iter.index(),
                offset == byte_offset(text@, iter.index() as int),
                forall|i: int|
                    0 <= i < iter.index() ==> #[trigger] offsets@[i] == byte_offset(text@, i),
        {
            let ghost i = iter.index() as int;
            proof {
                assert(text@.take(i + 1) =~= text@.take(i).push(c));
                lemma_encode_concat(text@.take(i), seq![c]);
                assert(text@.take(i).push(c) =~= text@.take(i) + seq![c]);
                lemma_encode_one(c);
                lemma_encode_between(text@, 0, i + 1);
            }
            chars.push(c);
            offsets.push(offset);
            offset = offset + utf8_width(c);
        }
        offsets.push(offset);
        assert(text@.take(text@.len() as int) =~= text@);
        Source { text, chars, offsets }
    }

    /// The number of characters of the text.
    pub fn len(&self) -> (len: usize)
        ensures
            len == self@.len(),
    {
        proof {
            use_type_invariant(self);
        }
        self.chars.len()
    }

    /// The character at a cursor.
    pub fn at(&self, pos: usize) -> (c: char)
        requires
            pos < self@.len(),
        ensures
            c == self@[pos as int],
    {
        proof {
            use_type_invariant(self);
        }
        self.chars[pos]
    }

    /// The text between two cursors.
    pub fn slice(&self, from: usize, to: usize) -> (part: &'a str)
        requires
            from <= to <= self@.len(),
        ensures
            part@ == self@.subrange(from as int, to as int),
    {
        let ghost s = self.text@;
        let ghost head_text = s.take(to as int);
        proof {
            use_type_invariant(self);
            lemma_offset_is_boundary(s, to as int);
            lemma_encode_between(s, 0, to as int);
        }
        let (head, _) = self.text.split_at(self.offsets[to]);
        proof {
            lemma_encode_is_injective(head@, head_text);
            assert(head_text.take(from as int) =~= s.take(from as int));
            lemma_offset_is_boundary(head_text, from as int);
            lemma_encode_between(head_text, from as int, to as int);
            assert(head_text.take(to as int) =~= head_text);
            assert(head_text.subrange(from as int, to as int) =~= s.subrange(
                from as int,
                to as int,
            ));
        }
        let (_, part) = head.split_at(self.offsets[from]);
        proof {
            lemma_encode_is_injective(part@, s.subrange(from as int, to as int));
        }
        part
    }

    /// The text between two cursors, as a string of its own.
    pub fn copy(&self, from: usize, to: usize) -> (part: String)
        requires
            from <= to <= self@.len(),
        ensures
            part@ == self@.subrange(from as int, to as int),
    {
        self.slice(from, to).to_owned()
    }
}

} // verus!
