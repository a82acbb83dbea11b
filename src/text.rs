//! Character and byte bookkeeping shared by the lexer, the parser and the
//! diagnostics: UTF-8 widths, byte offsets of character positions, and
//! slicing source text by byte spans.
use crate::span::Span;
use vstd::prelude::*;
use vstd::std_specs::iter::IteratorSpec;
use vstd::string::StringSliceAdditionalSpecFns;
use vstd::utf8::*;

verus! {

broadcast use vstd::utf8::char_is_scalar;

/// Number of bytes in the UTF-8 encoding of `c`.
pub open spec fn char_width(c: char) -> nat {
    if (c as u32) < 0x80 {
        1
    } else if (c as u32) < 0x800 {
        2
    } else if (c as u32) < 0x10000 {
        3
    } else {
        4
    }
}

/// Number of bytes in the UTF-8 encoding of `cs`.
pub open spec fn byte_len(cs: Seq<char>) -> nat
    decreases cs.len(),
{
    if cs.len() == 0 {
        0
    } else {
        byte_len(cs.drop_last()) + char_width(cs.last())
    }
}

/// Byte offset of character position `i` of `cs`.
pub open spec fn byte_at(cs: Seq<char>, i: int) -> nat {
    byte_len(cs.take(i))
}

pub proof fn lemma_byte_at_step(cs: Seq<char>, i: int)
    requires
        0 <= i < cs.len(),
    ensures
        byte_at(cs, i + 1) == byte_at(cs, i) + char_width(cs[i]),
{
    assert(cs.take(i + 1).drop_last() =~= cs.take(i));
}

pub proof fn lemma_byte_at_mono(cs: Seq<char>, i: int, j: int)
    requires
        0 <= i <= j <= cs.len(),
    ensures
        byte_at(cs, i) <= byte_at(cs, j),
    decreases j - i,
{
    if i < j {
        lemma_byte_at_step(cs, j - 1);
        lemma_byte_at_mono(cs, i, j - 1);
    }
}

pub proof fn lemma_byte_at_full(cs: Seq<char>)
    ensures
        byte_at(cs, cs.len() as int) == byte_len(cs),
{
    assert(cs.take(cs.len() as int) =~= cs);
}

proof fn lemma_byte_len_front(c: char, rest: Seq<char>)
    ensures
        byte_len(seq![c] + rest) == char_width(c) + byte_len(rest),
    decreases rest.len(),
{
    if rest.len() > 0 {
        assert((seq![c] + rest).drop_last() =~= seq![c] + rest.drop_last());
        assert((seq![c] + rest).last() == rest.last());
        lemma_byte_len_front(c, rest.drop_last());
    } else {
        assert((seq![c] + rest).drop_last() =~= Seq::<char>::empty());
        assert((seq![c] + rest).last() == c);
        assert(byte_len(Seq::<char>::empty()) == 0);
    }
}

/// The byte length computed here is the length of the UTF-8 encoding.
pub proof fn lemma_byte_len_encode(cs: Seq<char>)
    ensures
        byte_len(cs) == encode_utf8(cs).len(),
    decreases cs.len(),
{
    if cs.len() > 0 {
        assert(cs =~= seq![cs[0]] + cs.drop_first());
        let u = cs[0] as u32;
        assert(encode_scalar(u).len() == char_width(cs[0])) by {
            char_is_scalar(cs[0]);
        }
        lemma_byte_len_front(cs[0], cs.drop_first());
        lemma_byte_len_encode(cs.drop_first());
    }
}

/// UTF-8 width of a character.
pub fn width_of(c: char) -> (r: u32)
    ensures
        r == char_width(c),
        1 <= r <= 4,
{
    let u = c as u32;
    if u < 0x80 {
        1
    } else if u < 0x800 {
        2
    } else if u < 0x10000 {
        3
    } else {
        4
    }
}

/// Whether every byte offset of `src` fits in a span.
pub fn fits_spans(src: &str) -> (r: bool)
    ensures
        r == (byte_len(src@) <= u32::MAX),
{
    let mut total: u64 = 0;
    for c in it: src.chars()
        invariant
            it.seq() == src@,
            total == byte_at(src@, it.index() as int),
            total <= u32::MAX,
    {
        proof {
            lemma_byte_at_step(src@, it.index() as int);
        }
        total = total + width_of(c) as u64;
        if total > u32::MAX as u64 {
            proof {
                lemma_byte_at_mono(src@, it.index() + 1, src@.len() as int);
                lemma_byte_at_full(src@);
            }
            return false;
        }
    }
    proof {
        lemma_byte_at_full(src@);
    }
    true
}

/// The bytes of `src` that `span` covers.
pub open spec fn span_bytes(src: Seq<char>, span: Span) -> Seq<u8> {
    encode_utf8(src).subrange(span.loc as int, span.end())
}

/// `span` lies inside `src` and starts and ends on character boundaries.
pub open spec fn span_fits(src: Seq<char>, span: Span) -> bool {
    let bytes = encode_utf8(src);
    &&& span.end() <= bytes.len()
    &&& is_char_boundary(bytes, span.loc as int)
    &&& is_char_boundary(bytes.subrange(span.loc as int, bytes.len() as int), span.len as int)
}

/// The characters of `src` that `span` covers.
pub open spec fn span_text(src: Seq<char>, span: Span) -> Seq<char> {
    decode_utf8(span_bytes(src, span))
}

/// The text that `span` covers in `src`, or `None` where the span does not
/// fit the text.
pub fn slice_span<'a>(src: &'a str, span: Span) -> (r: Option<&'a str>)
    ensures
        r is Some <==> span_fits(src@, span),
        r is Some ==> r->0@ == span_text(src@, span),
{
    broadcast use vstd::utf8::encode_utf8_decode_utf8;
    broadcast use vstd::utf8::encode_utf8_valid_utf8;

    proof {
        encode_utf8_valid_utf8(src@);
        assert(src.spec_bytes() == encode_utf8(src@));
    }
    let loc = span.loc as usize;
    let len = span.len as usize;
    if !src.is_char_boundary(loc) {
        return None;
    }
    let (_, rest) = src.split_at(loc);
    if !rest.is_char_boundary(len) {
        return None;
    }
    let (mid, _) = rest.split_at(len);
    proof {
        let bytes = encode_utf8(src@);
        assert(mid.spec_bytes() =~= bytes.subrange(loc as int, loc + len));
        assert(decode_utf8(encode_utf8(mid@)) == mid@);
    }
    Some(mid)
}

} // verus!
