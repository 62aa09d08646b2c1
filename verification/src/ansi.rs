//! Escape sequences and number formatting that the renderers share.

use vstd::prelude::*;

verus! {

/// The escape character.
pub const ESC: u8 = 0x1b;

/// The sequence that clears the terminal from the cursor on and then moves
/// the cursor to the top left: `ESC [ J ESC [ H`.
pub open spec fn clear_home() -> Seq<u8> {
    seq![0x1bu8, 0x5bu8, 0x4au8, 0x1bu8, 0x5bu8, 0x48u8]
}

/// The ASCII digit for `d`, which is below 10.
pub open spec fn digit(d: nat) -> u8 {
    (0x30 + d) as u8
}

/// `n` in decimal, as ASCII digits without leading zeros.
pub open spec fn decimal(n: nat) -> Seq<u8>
    decreases n,
{
    if n < 10 {
        seq![digit(n)]
    } else {
        decimal(n / 10).push(digit(n % 10))
    }
}

/// Appends the sequence `clear_home` to `out`.
pub fn push_clear_home(out: &mut Vec<u8>)
    ensures
        final(out)@ == old(out)@ + clear_home(),
{
    out.push(ESC);
    out.push(0x5b);
    out.push(0x4a);
    out.push(ESC);
    out.push(0x5b);
    out.push(0x48);
    assert(out@ =~= old(out)@ + clear_home());
}

/// Appends `n` in decimal to `out`.
pub fn push_decimal(out: &mut Vec<u8>, n: u64)
    ensures
        final(out)@ == old(out)@ + decimal(n as nat),
    decreases n,
{
    if n >= 10 {
        push_decimal(out, n / 10);
    }
    let last = (n % 10) as u8;
    out.push(0x30 + last);
    assert(out@ =~= old(out)@ + decimal(n as nat));
}

/// Appends a copy of `bytes` to `out`.
pub fn push_all(out: &mut Vec<u8>, bytes: &[u8])
    ensures
        final(out)@ == old(out)@ + bytes@,
{
    out.extend_from_slice(bytes);
}

} // verus!
