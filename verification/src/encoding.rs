//! The canonical binary encoding of a coin's type tag, as the changelog
//! store persists it.
//!
//! A struct type tag is framed as: the tag byte `7`, the 32-byte defining
//! address, the module and struct names each as an unsigned LEB128 length
//! followed by the name's bytes, and the empty type-parameter list as the
//! single byte `0`.

use vstd::prelude::*;

use crate::model::{CoinType, CoinTypeView};

verus! {

/// The number of bytes of a coin type's defining address.
pub open spec fn address_len() -> int {
    32
}

/// The unsigned LEB128 encoding of `n`: seven bits per byte, least
/// significant group first, the high bit marking a continuation.
pub open spec fn uleb_spec(n: nat) -> Seq<u8>
    decreases n,
{
    if n < 0x80 {
        seq![n as u8]
    } else {
        seq![((n % 0x80) + 0x80) as u8] + uleb_spec(n / 0x80)
    }
}

/// Whether a coin type can be put into its canonical binary encoding: its
/// defining address must hold exactly 32 bytes.
pub open spec fn coin_type_encodable(t: CoinTypeView) -> bool {
    t.address.len() == address_len()
}

/// The canonical binary encoding of a coin type.
pub open spec fn encode_coin_type_spec(t: CoinTypeView) -> Seq<u8>
    recommends
        coin_type_encodable(t),
{
    seq![7u8] + t.address + uleb_spec(t.module.len()) + t.module + uleb_spec(t.name.len())
        + t.name + seq![0u8]
}

/// Append the unsigned LEB128 encoding of `n`.
fn push_uleb(out: &mut Vec<u8>, n: usize)
    ensures
        final(out)@ == old(out)@ + uleb_spec(n as nat),
{
    let mut cur: usize = n;
    while cur >= 0x80
        invariant
            uleb_spec(n as nat) == out@.subrange(old(out)@.len() as int, out@.len() as int)
                + uleb_spec(cur as nat),
            out@.len() >= old(out)@.len(),
            out@.subrange(0, old(out)@.len() as int) == old(out)@,
        decreases cur,
    {
        let ghost done = out@.subrange(old(out)@.len() as int, out@.len() as int);
        let byte: u8 = ((cur % 0x80) + 0x80) as u8;
        out.push(byte);
        cur = cur / 0x80;
        proof {
            assert(out@.subrange(old(out)@.len() as int, out@.len() as int) =~= done + seq![byte]);
            assert(out@.subrange(0, old(out)@.len() as int) =~= old(out)@);
            assert((done + seq![byte]) + uleb_spec(cur as nat) =~= done + (seq![byte] + uleb_spec(
                cur as nat,
            )));
        }
    }
    let ghost done = out@.subrange(old(out)@.len() as int, out@.len() as int);
    out.push(cur as u8);
    proof {
        assert(uleb_spec(cur as nat) == seq![cur as u8]);
        assert(out@.subrange(old(out)@.len() as int, out@.len() as int) =~= done + seq![
            cur as u8,
        ]);
        assert(out@ =~= old(out)@ + out@.subrange(old(out)@.len() as int, out@.len() as int));
    }
}

/// Append all bytes of `src`.
fn push_bytes(out: &mut Vec<u8>, src: &Vec<u8>)
    ensures
        final(out)@ == old(out)@ + src@,
{
    let mut i: usize = 0;
    while i < src.len()
        invariant
            i <= src@.len(),
            out@ == old(out)@ + src@.subrange(0, i as int),
        decreases src@.len() - i,
    {
        let byte = src[i];
        out.push(byte);
        proof {
            assert(old(out)@ + src@.subrange(0, i as int) + seq![byte] =~= old(out)@
                + src@.subrange(0, i + 1));
        }
        i = i + 1;
    }
    proof {
        assert(src@.subrange(0, src@.len() as int) =~= src@);
    }
}

/// The canonical binary encoding of the coin type, or nothing when its
/// defining address does not hold exactly 32 bytes.
pub fn encode_coin_type(t: &CoinType) -> (r: Option<Vec<u8>>)
    ensures
        match r {
            Some(bytes) => coin_type_encodable(t@) && bytes@ == encode_coin_type_spec(t@),
            None => !coin_type_encodable(t@),
        },
{
    if t.address.len() != 32 {
        return None;
    }
    let mut out: Vec<u8> = Vec::new();
    out.push(7u8);
    proof {
        assert(out@ =~= seq![7u8]);
    }
    push_bytes(&mut out, &t.address);
    push_uleb(&mut out, t.module.len());
    push_bytes(&mut out, &t.module);
    push_uleb(&mut out, t.name.len());
    push_bytes(&mut out, &t.name);
    out.push(0u8);
    proof {
        assert(out@ =~= encode_coin_type_spec(t@));
    }
    Some(out)
}

} // verus!
