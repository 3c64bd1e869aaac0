//! JSON rendering of the pipeline-variable write body.
//!
//! The write request carries exactly one JSON object,
//! `{"key":K,"value":V,"variable_type":"env_var"}`, with the key and value
//! escaped as JSON strings. The renderer below produces that object
//! byte for byte; escaping works on the UTF-8 encoding of the text, which
//! is sound because every byte that needs an escape is ASCII and never
//! occurs inside a multi-byte encoding.

use crate::model::PipelineVariable;
use vstd::prelude::*;
use vstd::utf8::encode_utf8;

verus! {

/// Lower-case ASCII hex digit of a value below 16.
pub open spec fn hex_digit(n: u8) -> u8 {
    if n < 10 {
        (0x30 + n) as u8
    } else {
        (0x57 + n) as u8
    }
}

/// JSON string escaping of one byte: quote and backslash get a two-byte
/// escape, control bytes get the six-byte `\u00XX` form, and every other
/// byte stands unchanged.
pub open spec fn esc_byte(b: u8) -> Seq<u8> {
    if b == 0x22 {
        seq![0x5cu8, 0x22u8]
    } else if b == 0x5c {
        seq![0x5cu8, 0x5cu8]
    } else if b < 0x20 {
        seq![0x5cu8, 0x75u8, 0x30u8, 0x30u8, hex_digit(b / 16), hex_digit(b % 16)]
    } else {
        seq![b]
    }
}

/// JSON string escaping of a byte sequence, byte by byte.
pub open spec fn esc(s: Seq<u8>) -> Seq<u8>
    decreases s.len(),
{
    if s.len() == 0 {
        Seq::empty()
    } else {
        esc_byte(s[0]) + esc(s.drop_first())
    }
}

/// The exact bytes of the JSON write body for an escaped key and value.
/// The kind tag is the fixed constant `env_var`: the variable is a plain
/// environment variable, never a file-type one.
pub open spec fn json_object_bytes(key: Seq<u8>, value: Seq<u8>) -> Seq<u8> {
    encode_utf8("{\"key\":\""@) + esc(key) + encode_utf8("\",\"value\":\""@) + esc(value)
        + encode_utf8("\",\"variable_type\":\"env_var\"}"@)
}

/// Lower-case ASCII hex digit of a value below 16.
fn hex_char(n: u8) -> (r: u8)
    requires
        n < 16,
    ensures
        r == hex_digit(n),
{
    if n < 10 {
        0x30 + n
    } else {
        0x57 + n
    }
}

/// Appends the JSON string escaping of the UTF-8 bytes of `s` to `out`.
fn push_escaped(out: &mut Vec<u8>, s: &str)
    ensures
        final(out)@ == old(out)@ + esc(encode_utf8(s@)),
{
    let bytes = s.as_bytes();
    let ghost all = bytes@;
    proof {
        assert(all.skip(0) =~= all);
    }
    let mut i: usize = 0;
    while i < bytes.len()
        invariant
            i <= all.len(),
            bytes@ == all,
            out@ + esc(all.skip(i as int)) == old(out)@ + esc(all),
        decreases all.len() - i,
    {
        let b = bytes[i];
        proof {
            assert(all.skip(i as int)[0] == b);
            assert(all.skip(i as int).drop_first() =~= all.skip(i as int + 1));
        }
        if b == 0x22 {
            out.push(0x5c);
            out.push(0x22);
        } else if b == 0x5c {
            out.push(0x5c);
            out.push(0x5c);
        } else if b < 0x20 {
            out.push(0x5c);
            out.push(0x75);
            out.push(0x30);
            out.push(0x30);
            out.push(hex_char(b / 16));
            out.push(hex_char(b % 16));
        } else {
            out.push(b);
        }
        proof {
            assert(out@ + esc(all.skip(i as int + 1)) =~= old(out)@ + esc(all));
        }
        i += 1;
    }
    proof {
        assert(all.skip(all.len() as int) =~= Seq::<u8>::empty());
        assert(out@ =~= old(out)@ + esc(all));
    }
}

impl PipelineVariable {
    /// Renders the variable as the exact JSON object the write request
    /// carries: the escaped key, the escaped value, and the fixed
    /// `env_var` kind tag, with no further fields.
    pub fn to_json_bytes(&self) -> (r: Vec<u8>)
        requires
            self.wf(),
        ensures
            r@ == json_object_bytes(encode_utf8(self.key@), encode_utf8(self.value@)),
    {
        let mut out: Vec<u8> = Vec::new();
        out.extend_from_slice("{\"key\":\"".as_bytes());
        push_escaped(&mut out, self.key.as_str());
        out.extend_from_slice("\",\"value\":\"".as_bytes());
        push_escaped(&mut out, self.value.as_str());
        out.extend_from_slice("\",\"variable_type\":\"env_var\"}".as_bytes());
        proof {
            assert(out@ =~= json_object_bytes(
                encode_utf8(self.key@),
                encode_utf8(self.value@),
            ));
        }
        out
    }
}

} // verus!
