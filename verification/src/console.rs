use vstd::prelude::*;

verus! {

/// The serial port's data register (COM1).
pub const SERIAL_DATA_PORT: u16 = 0x3F8;

/// The serial port's line status register.
pub const SERIAL_STATUS_PORT: u16 = 0x3FD;

/// Line status bit: the transmit holding register is empty.
pub const SERIAL_TRANSMIT_EMPTY: u8 = 0x20;

/// The serial line may take a byte when its status has the transmit
/// holding register empty.
pub fn transmit_ready(status: u8) -> (r: bool)
    ensures
        r == (status & SERIAL_TRANSMIT_EMPTY != 0),
{
    status & SERIAL_TRANSMIT_EMPTY != 0
}

/// Upper-case ASCII hex digit for a nibble.
pub open spec fn hex_char(nibble: u8) -> u8 {
    if nibble < 10 {
        (48 + nibble) as u8
    } else {
        (65 + (nibble - 10)) as u8
    }
}

/// Nibble `i` of `value`, counting from the most significant of `n`.
pub open spec fn nibble(value: u64, n: int, i: int) -> u8 {
    ((value >> ((4 * (n - 1 - i)) as u64)) & 0xF) as u8
}

/// ASCII hex digit for `value`, which must be below 16.
pub fn hex_digit(value: u8) -> (c: u8)
    requires
        value < 16,
    ensures
        c == hex_char(value),
{
    if value < 10 {
        48u8 + value
    } else {
        65u8 + (value - 10)
    }
}

/// The `n` hex digits of `value`, most significant first.
fn hex_digits(value: u64, n: usize) -> (digits: Vec<u8>)
    requires
        1 <= n <= 16,
    ensures
        digits@.len() == n,
        forall|i: int| 0 <= i < n ==> #[trigger] digits@[i] == hex_char(nibble(value, n as int, i)),
{
    let mut digits: Vec<u8> = Vec::new();
    let mut i: usize = 0;
    while i < n
        invariant
            1 <= n <= 16,
            i <= n,
            digits@.len() == i,
            forall|j: int| 0 <= j < i ==> #[trigger] digits@[j] == hex_char(nibble(value, n as int, j)),
        decreases n - i,
    {
        let shift: u64 = (4 * (n - 1 - i)) as u64;
        let d = ((value >> shift) & 0xF) as u8;
        assert(d < 16) by {
            assert((value >> shift) & 0xFu64 < 16u64) by (bit_vector);
        }
        digits.push(hex_digit(d));
        i = i + 1;
    }
    digits
}

/// The two hex digits of a byte.
pub fn hex8(value: u8) -> (digits: Vec<u8>)
    ensures
        digits@.len() == 2,
        forall|i: int| 0 <= i < 2 ==> #[trigger] digits@[i] == hex_char(nibble(value as u64, 2, i)),
{
    hex_digits(value as u64, 2)
}

/// The eight hex digits of a 32-bit value.
pub fn hex32(value: u32) -> (digits: Vec<u8>)
    ensures
        digits@.len() == 8,
        forall|i: int| 0 <= i < 8 ==> #[trigger] digits@[i] == hex_char(nibble(value as u64, 8, i)),
{
    hex_digits(value as u64, 8)
}

/// The sixteen hex digits of a 64-bit value.
pub fn hex64(value: u64) -> (digits: Vec<u8>)
    ensures
        digits@.len() == 16,
        forall|i: int| 0 <= i < 16 ==> #[trigger] digits@[i] == hex_char(nibble(value, 16, i)),
{
    hex_digits(value, 16)
}

} // verus!
