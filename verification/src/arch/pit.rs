use vstd::prelude::*;

verus! {

pub const PIT_CHANNEL0_DATA: u16 = 0x40;

pub const PIT_COMMAND: u16 = 0x43;

pub const PIT_BASE_FREQUENCY: u32 = 1_193_182;

pub const TIMER_FREQUENCY: u32 = 100;

/// Channel 0, low byte then high byte, mode 3 square wave, binary.
pub const PIT_MODE_SQUARE_WAVE: u8 = 0x36;

pub fn frequency() -> (r: u32)
    ensures
        r == TIMER_FREQUENCY,
{
    TIMER_FREQUENCY
}

/// The port writes that program channel 0 for `TIMER_FREQUENCY`: the mode
/// command, then the divisor's low and high bytes.
pub fn init_writes() -> (r: [(u16, u8); 3])
    ensures
        r@ == seq![
            (PIT_COMMAND, PIT_MODE_SQUARE_WAVE),
            (PIT_CHANNEL0_DATA, ((PIT_BASE_FREQUENCY / TIMER_FREQUENCY) % 256) as u8),
            (PIT_CHANNEL0_DATA, ((PIT_BASE_FREQUENCY / TIMER_FREQUENCY) / 256 % 256) as u8),
        ],
{
    let divisor = PIT_BASE_FREQUENCY / TIMER_FREQUENCY;
    let low = (divisor & 0xFF) as u8;
    let high = ((divisor >> 8u32) & 0xFF) as u8;
    assert(divisor == 11931);
    assert(11931u32 & 0xFFu32 == 155u32) by (bit_vector);
    assert((11931u32 >> 8u32) & 0xFFu32 == 46u32) by (bit_vector);
    let r = [(PIT_COMMAND, PIT_MODE_SQUARE_WAVE), (PIT_CHANNEL0_DATA, low), (PIT_CHANNEL0_DATA, high)];
    assert(r@ =~= seq![
        (PIT_COMMAND, PIT_MODE_SQUARE_WAVE),
        (PIT_CHANNEL0_DATA, ((PIT_BASE_FREQUENCY / TIMER_FREQUENCY) % 256) as u8),
        (PIT_CHANNEL0_DATA, ((PIT_BASE_FREQUENCY / TIMER_FREQUENCY) / 256 % 256) as u8),
    ]);
    r
}

} // verus!
