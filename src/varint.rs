use vstd::prelude::*;
use vstd::bytes::{
    spec_u16_to_le_bytes, spec_u16_from_le_bytes, spec_u32_to_le_bytes, spec_u32_from_le_bytes,
    spec_u64_to_le_bytes, spec_u64_from_le_bytes, u16_to_le_bytes, u16_from_le_bytes,
    u32_from_le_bytes, u64_from_le_bytes, lemma_auto_spec_u16_to_from_le_bytes,
    lemma_auto_spec_u32_to_from_le_bytes, lemma_auto_spec_u64_to_from_le_bytes,
};
use crate::encoding::{append_bytes, append_u32_le, append_u64_le, sub_vec};

verus! {

/// The variable-length encoding of `n`: one byte below `0xFD`, else a marker byte
/// (`0xFD`, `0xFE`, `0xFF`) and the value in 2, 4 or 8 little-endian bytes.
pub open spec fn spec_varint(n: u64) -> Seq<u8> {
    if n < 0xFD {
        seq![n as u8]
    } else if n <= 0xFFFF {
        seq![0xFDu8] + spec_u16_to_le_bytes(n as u16)
    } else if n <= 0xFFFF_FFFF {
        seq![0xFEu8] + spec_u32_to_le_bytes(n as u32)
    } else {
        seq![0xFFu8] + spec_u64_to_le_bytes(n)
    }
}

/// Reading a varint at `pos` in `data`: the value and the position after it, or `None`
/// when the bytes run out.
pub open spec fn spec_read_varint(data: Seq<u8>, pos: int) -> Option<(u64, int)> {
    if pos < 0 || pos >= data.len() {
        None
    } else {
        let prefix = data[pos];
        if prefix == 0xFD {
            if pos + 3 > data.len() {
                None
            } else {
                Some((spec_u16_from_le_bytes(data.subrange(pos + 1, pos + 3)) as u64, pos + 3))
            }
        } else if prefix == 0xFE {
            if pos + 5 > data.len() {
                None
            } else {
                Some((spec_u32_from_le_bytes(data.subrange(pos + 1, pos + 5)) as u64, pos + 5))
            }
        } else if prefix == 0xFF {
            if pos + 9 > data.len() {
                None
            } else {
                Some((spec_u64_from_le_bytes(data.subrange(pos + 1, pos + 9)), pos + 9))
            }
        } else {
            Some((prefix as u64, pos + 1))
        }
    }
}

/// Appends the varint encoding of `n` to `buffer`.
pub fn write_varint(n: u64, buffer: &mut Vec<u8>)
    ensures
        final(buffer)@ == old(buffer)@ + spec_varint(n),
{
    let ghost start = buffer@;
    if n < 0xFD {
        buffer.push(n as u8);
        assert(buffer@ =~= start + spec_varint(n));
    } else if n <= 0xFFFF {
        buffer.push(0xFD);
        let b = u16_to_le_bytes(n as u16);
        append_bytes(buffer, b.as_slice());
        assert(buffer@ =~= start + spec_varint(n));
    } else if n <= 0xFFFF_FFFF {
        buffer.push(0xFE);
        append_u32_le(buffer, n as u32);
        assert(buffer@ =~= start + spec_varint(n));
    } else {
        buffer.push(0xFF);
        append_u64_le(buffer, n);
        assert(buffer@ =~= start + spec_varint(n));
    }
}

/// Reads a varint at `*pos` and moves `*pos` past it. When the bytes run out the result is
/// an error, and `*pos` has moved past the marker byte if there was one.
pub fn read_varint(data: &[u8], pos: &mut usize) -> (r: Result<u64, String>)
    ensures
        match r {
            Ok(v) => spec_read_varint(data@, *old(pos) as int) == Some((v, *final(pos) as int)),
            Err(_) => {
                &&& spec_read_varint(data@, *old(pos) as int) is None
                &&& *final(pos) == if *old(pos) < data@.len() { (*old(pos) + 1) as usize } else { *old(pos) }
            },
        },
{
    if *pos >= data.len() {
        return Err("not enough bytes for the varint prefix".to_string());
    }
    let prefix = data[*pos];
    *pos = *pos + 1;
    if prefix == 0xFD {
        if data.len() - *pos < 2 {
            return Err("not enough bytes for a 16-bit varint".to_string());
        }
        let b = sub_vec(data, *pos, 2);
        *pos = *pos + 2;
        Ok(u16_from_le_bytes(b.as_slice()) as u64)
    } else if prefix == 0xFE {
        if data.len() - *pos < 4 {
            return Err("not enough bytes for a 32-bit varint".to_string());
        }
        let b = sub_vec(data, *pos, 4);
        *pos = *pos + 4;
        Ok(u32_from_le_bytes(b.as_slice()) as u64)
    } else if prefix == 0xFF {
        if data.len() - *pos < 8 {
            return Err("not enough bytes for a 64-bit varint".to_string());
        }
        let b = sub_vec(data, *pos, 8);
        *pos = *pos + 8;
        Ok(u64_from_le_bytes(b.as_slice()))
    } else {
        Ok(prefix as u64)
    }
}

/// Reading back an encoded varint, wherever it stands, gives the value and the position
/// just after its encoding.
pub proof fn lemma_varint_round_trip(n: u64, before: Seq<u8>, after: Seq<u8>)
    ensures
        spec_read_varint(before + spec_varint(n) + after, before.len() as int) == Some(
            (n, (before.len() + spec_varint(n).len()) as int),
        ),
{
    lemma_auto_spec_u16_to_from_le_bytes();
    lemma_auto_spec_u32_to_from_le_bytes();
    lemma_auto_spec_u64_to_from_le_bytes();
    let d = before + spec_varint(n) + after;
    let p = before.len() as int;
    if n < 0xFD {
        assert(d[p] == n as u8);
    } else if n <= 0xFFFF {
        assert(d[p] == 0xFDu8);
        assert(d.subrange(p + 1, p + 3) =~= spec_u16_to_le_bytes(n as u16));
    } else if n <= 0xFFFF_FFFF {
        assert(d[p] == 0xFEu8);
        assert(d.subrange(p + 1, p + 5) =~= spec_u32_to_le_bytes(n as u32));
    } else {
        assert(d[p] == 0xFFu8);
        assert(d.subrange(p + 1, p + 9) =~= spec_u64_to_le_bytes(n));
    }
}

} // verus!
