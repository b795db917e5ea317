//! Length-prefixed strings with a variable-width length.
use vstd::prelude::*;
use vstd::string::StringSliceAdditionalSpecFns;
use vstd::utf8::encode_utf8;
use crate::wire::rowbinary::write_bytes;

verus! {

/// The variable-width encoding of a number: seven bits to a byte, low bits first, and the
/// high bit of a byte set where more bytes follow.
pub open spec fn uvarint_bytes(x: nat) -> Seq<u8>
    decreases x,
{
    if x < 128 {
        seq![x as u8]
    } else {
        seq![(x % 128 + 128) as u8] + uvarint_bytes(x / 128)
    }
}

/// Appends the variable-width encoding of `x`.
pub fn write_uvarint(x: usize, buf: &mut Vec<u8>)
    ensures
        final(buf)@ == old(buf)@ + uvarint_bytes(x as nat),
{
    let mut rest: usize = x;
    while rest >= 128
        invariant
            buf@ + uvarint_bytes(rest as nat) == old(buf)@ + uvarint_bytes(x as nat),
        decreases rest,
    {
        let ghost before = buf@;
        let b: u8 = ((rest % 128) as u8) + 128;
        buf.push(b);
        proof {
            assert(before.push(b) + uvarint_bytes((rest / 128) as nat) =~= before + uvarint_bytes(
                rest as nat,
            ));
        }
        rest = rest / 128;
    }
    let ghost before = buf@;
    buf.push(rest as u8);
    proof {
        assert(before.push(rest as u8) =~= before + uvarint_bytes(rest as nat));
    }
}

/// Appends a string: the variable-width encoding of its length in bytes, then its UTF-8 bytes.
pub fn write_str(s: &str, out: &mut Vec<u8>)
    ensures
        final(out)@ == old(out)@ + (uvarint_bytes(encode_utf8(s@).len()) + encode_utf8(s@)),
{
    let ghost before = out@;
    let bytes = s.as_bytes();
    write_uvarint(bytes.len(), out);
    write_bytes(out, bytes);
    proof {
        assert(out@ =~= before + (uvarint_bytes(encode_utf8(s@).len()) + encode_utf8(s@)));
    }
}

} // verus!
