//! The code written over a game function so that it returns a value of our
//! choosing: `movss xmm0, [addr]` followed by `ret`.
use vstd::prelude::*;

verus! {

/// The four bytes of `x`, least significant first (`u32::to_le_bytes`).
pub open spec fn le_bytes(x: u32) -> Seq<u8> {
    seq![
        (x % 0x100) as u8,
        ((x / 0x100) % 0x100) as u8,
        ((x / 0x1_0000) % 0x100) as u8,
        (x / 0x100_0000) as u8,
    ]
}

/// The number that four bytes give, least significant first.
pub open spec fn le_value(b: Seq<u8>) -> int {
    b[0] + 0x100 * b[1] + 0x1_0000 * b[2] + 0x100_0000 * b[3]
}

/// The bytes of `movss xmm0, dword ptr [addr]; ret` for the absolute
/// address `addr`.
pub open spec fn movss_ret(addr: u32) -> Seq<u8> {
    seq![0xF3u8, 0x0F, 0x10, 0x05] + le_bytes(addr) + seq![0xC3u8]
}

/// The code that loads the `f32` stored at `cave_addr` into `xmm0` and returns.
pub fn movss_ret_patch(cave_addr: u32) -> (r: [u8; 9])
    ensures
        r@ == movss_ret(cave_addr),
{
    let b0 = (cave_addr & 0xff) as u8;
    let b1 = ((cave_addr >> 8) & 0xff) as u8;
    let b2 = ((cave_addr >> 16) & 0xff) as u8;
    let b3 = ((cave_addr >> 24) & 0xff) as u8;
    assert(cave_addr & 0xff == cave_addr % 0x100) by (bit_vector);
    assert((cave_addr >> 8) & 0xff == (cave_addr / 0x100) % 0x100) by (bit_vector);
    assert((cave_addr >> 16) & 0xff == (cave_addr / 0x1_0000) % 0x100) by (bit_vector);
    assert((cave_addr >> 24) & 0xff == cave_addr / 0x100_0000) by (bit_vector);
    let r: [u8; 9] = [0xF3, 0x0F, 0x10, 0x05, b0, b1, b2, b3, 0xC3];
    assert(r@ =~= movss_ret(cave_addr));
    r
}

/// The address bytes of the patch read back as the address it was made for.
pub proof fn law_patch_address_round_trip(addr: u32)
    ensures
        le_value(movss_ret(addr).subrange(4, 8)) == addr,
{
    let b = movss_ret(addr).subrange(4, 8);
    assert(b =~= le_bytes(addr));
    let x = addr as int;
    assert(x % 0x100 + 0x100 * ((x / 0x100) % 0x100) + 0x1_0000 * ((x / 0x1_0000) % 0x100)
        + 0x100_0000 * (x / 0x100_0000) == x) by (nonlinear_arith)
        requires
            0 <= x < 0x1_0000_0000,
    ;
}

} // verus!
