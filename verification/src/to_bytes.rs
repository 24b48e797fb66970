//! Conversion of writable values into byte sequences.
//!
//! The writer accepts any value that can be turned into bytes through the
//! [`ToBytes`] trait. Implementations are provided for text, single
//! characters, single bytes and byte slices; users may implement the trait
//! for further types without touching the writer itself.

use vstd::prelude::*;
use vstd::utf8::encode_scalar;
use vstd::utf8::encode_utf8;
use vstd::string::StrSliceExecFns;

verus! {

/// A value that can be appended to an [`crate::IndentedTextWriter`] as a
/// sequence of bytes. The conversion is deterministic: `bytes_spec` names the
/// exact byte sequence that `to_bytes` produces.
pub trait ToBytes {
    /// The byte sequence this value converts to.
    spec fn bytes_spec(&self) -> Seq<u8>;

    /// Produce the byte sequence of this value.
    fn to_bytes(&self) -> (r: Vec<u8>)
        ensures
            r@ == self.bytes_spec(),
    ;
}

impl ToBytes for String {
    open spec fn bytes_spec(&self) -> Seq<u8> {
        encode_utf8(self@)
    }

    fn to_bytes(&self) -> (r: Vec<u8>)
        ensures
            r@ == self.bytes_spec(),
    {
        self.as_str().as_bytes_vec()
    }
}

impl<'a> ToBytes for &'a str {
    open spec fn bytes_spec(&self) -> Seq<u8> {
        encode_utf8(self@)
    }

    fn to_bytes(&self) -> (r: Vec<u8>)
        ensures
            r@ == self.bytes_spec(),
    {
        self.as_bytes_vec()
    }
}

impl ToBytes for u8 {
    open spec fn bytes_spec(&self) -> Seq<u8> {
        seq![*self]
    }

    fn to_bytes(&self) -> (r: Vec<u8>)
        ensures
            r@ == self.bytes_spec(),
    {
        let mut r: Vec<u8> = Vec::new();
        r.push(*self);
        proof {
            assert(r@ =~= seq![*self]);
        }
        r
    }
}

impl ToBytes for char {
    open spec fn bytes_spec(&self) -> Seq<u8> {
        encode_scalar(*self as u32)
    }

    fn to_bytes(&self) -> (r: Vec<u8>)
        ensures
            r@ == self.bytes_spec(),
    {
        encode_char(*self)
    }
}

impl<'a> ToBytes for &'a [u8] {
    open spec fn bytes_spec(&self) -> Seq<u8> {
        self@
    }

    fn to_bytes(&self) -> (r: Vec<u8>)
        ensures
            r@ == self.bytes_spec(),
    {
        vstd::slice::slice_to_vec(self)
    }
}

/// UTF-8 encoding of a single character, computed with the same bit
/// operations that `encode_scalar` describes.
fn encode_char(c: char) -> (r: Vec<u8>)
    ensures
        r@ == encode_scalar(c as u32),
{
    let v = c as u32;
    proof {
        vstd::utf8::char_is_scalar(c);
    }
    let mut r: Vec<u8> = Vec::new();
    if v <= 0x7F {
        proof {
            assert(v & 0x7F <= 0x7F) by (bit_vector);
        }
        r.push((v & 0x7F) as u8);
        proof {
            assert(r@ =~= encode_scalar(c as u32));
        }
    } else if v <= 0x7FF {
        proof {
            assert((v >> 6) & 0x1F <= 0x1F) by (bit_vector);
            assert(v & 0x3F <= 0x3F) by (bit_vector);
        }
        r.push(0xC0 | ((v >> 6) & 0x1F) as u8);
        r.push(0x80 | (v & 0x3F) as u8);
        proof {
            assert(r@ =~= encode_scalar(c as u32));
        }
    } else if v <= 0xFFFF {
        proof {
            assert((v >> 12) & 0x0F <= 0x0F) by (bit_vector);
            assert((v >> 6) & 0x3F <= 0x3F) by (bit_vector);
            assert(v & 0x3F <= 0x3F) by (bit_vector);
        }
        r.push(0xE0 | ((v >> 12) & 0x0F) as u8);
        r.push(0x80 | ((v >> 6) & 0x3F) as u8);
        r.push(0x80 | (v & 0x3F) as u8);
        proof {
            assert(r@ =~= encode_scalar(c as u32));
        }
    } else {
        proof {
            assert((v >> 18) & 0x7 <= 0x7) by (bit_vector);
            assert((v >> 12) & 0x3F <= 0x3F) by (bit_vector);
            assert((v >> 6) & 0x3F <= 0x3F) by (bit_vector);
            assert(v & 0x3F <= 0x3F) by (bit_vector);
        }
        r.push(0xF0 | ((v >> 18) & 0x7) as u8);
        r.push(0x80 | ((v >> 12) & 0x3F) as u8);
        r.push(0x80 | ((v >> 6) & 0x3F) as u8);
        r.push(0x80 | (v & 0x3F) as u8);
        proof {
            assert(r@ =~= encode_scalar(c as u32));
        }
    }
    r
}

} // verus!
