use vstd::prelude::*;

verus! {

/// The kinds of kernel objects the object table can hold.
#[derive(Clone, Copy, PartialEq, Eq, Structural)]
pub enum ObjectType {
    Process,
    Thread,
    AddressSpace,
    IpcEndpoint,
    File,
    Device,
    Event,
}

/// Human-readable name of an object type.
pub open spec fn object_type_name(t: ObjectType) -> Seq<char> {
    match t {
        ObjectType::Process => "PROCESS"@,
        ObjectType::Thread => "THREAD"@,
        ObjectType::AddressSpace => "ADDRESS SPACE"@,
        ObjectType::IpcEndpoint => "IPC ENDPOINT"@,
        ObjectType::File => "FILE"@,
        ObjectType::Device => "DEVICE"@,
        ObjectType::Event => "EVENT"@,
    }
}

impl ObjectType {
    /// Upper-case name used in diagnostics.
    pub fn name(self) -> (r: &'static str)
        ensures
            r@ == object_type_name(self),
    {
        match self {
            ObjectType::Process => "PROCESS",
            ObjectType::Thread => "THREAD",
            ObjectType::AddressSpace => "ADDRESS SPACE",
            ObjectType::IpcEndpoint => "IPC ENDPOINT",
            ObjectType::File => "FILE",
            ObjectType::Device => "DEVICE",
            ObjectType::Event => "EVENT",
        }
    }
}

/// The raw 64-bit encoding of a handle: generation in the upper 32 bits,
/// table index OR-ed into the lower bits.
pub open spec fn encode_handle(index: usize, generation: u32) -> u64 {
    ((generation as u64) << 32u64) | (index as u64)
}

/// Table index stored in a raw handle (its lower 32 bits).
pub open spec fn handle_index(raw: u64) -> usize {
    (raw as u32) as usize
}

/// Generation stored in a raw handle (its upper 32 bits).
pub open spec fn handle_generation(raw: u64) -> u32 {
    (raw >> 32u64) as u32
}

/// Encoding and decoding agree for every index that fits in 32 bits.
pub proof fn lemma_handle_roundtrip(index: usize, generation: u32)
    requires
        index < 0x1_0000_0000,
    ensures
        handle_index(encode_handle(index, generation)) == index,
        handle_generation(encode_handle(index, generation)) == generation,
        encode_handle(index, generation) == 0 <==> (index == 0 && generation == 0),
{
    let i = index as u64;
    assert(i < 0x1_0000_0000);
    assert((((generation as u64) << 32u64) | i) as u32 == i as u32) by (bit_vector)
        requires
            i < 0x1_0000_0000u64,
    ;
    assert(((((generation as u64) << 32u64) | i) >> 32u64) as u32 == generation) by (bit_vector)
        requires
            i < 0x1_0000_0000u64,
    ;
    assert((((generation as u64) << 32u64) | i) == 0 <==> (i == 0 && generation == 0))
        by (bit_vector)
        requires
            i < 0x1_0000_0000u64,
    ;
}

/// A kernel object handle.
///
/// Lower 32 bits  = table index
/// Upper 32 bits  = generation
#[derive(Clone, Copy, PartialEq, Eq, Structural)]
pub struct ObjectHandle(u64);

impl View for ObjectHandle {
    type V = u64;

    closed spec fn view(&self) -> u64 {
        self.0
    }
}

impl ObjectHandle {
    /// The handle that never refers to an object.
    pub fn invalid() -> (h: Self)
        ensures
            h@ == 0,
    {
        ObjectHandle(0)
    }

    pub fn new(index: usize, generation: u32) -> (h: Self)
        ensures
            h@ == encode_handle(index, generation),
            index < 0x1_0000_0000 ==> h.spec_index() == index && h.spec_generation()
                == generation,
    {
        proof {
            if index < 0x1_0000_0000 {
                lemma_handle_roundtrip(index, generation);
            }
        }
        ObjectHandle(((generation as u64) << 32u64) | (index as u64))
    }

    pub open spec fn spec_index(self) -> usize {
        handle_index(self@)
    }

    pub open spec fn spec_generation(self) -> u32 {
        handle_generation(self@)
    }

    pub fn index(self) -> (r: usize)
        ensures
            r == self.spec_index(),
    {
        self.0 as u32 as usize
    }

    pub fn generation(self) -> (r: u32)
        ensures
            r == self.spec_generation(),
    {
        (self.0 >> 32u64) as u32
    }

    pub fn is_valid(self) -> (r: bool)
        ensures
            r == (self@ != 0),
    {
        self.0 != 0
    }

    pub fn raw(self) -> (r: u64)
        ensures
            r == self@,
    {
        self.0
    }
}

/// Metadata stored for every kernel object.
#[derive(Clone, Copy)]
pub struct ObjectRecord {
    pub object_type: ObjectType,
    pub references: u32,
}

impl ObjectRecord {
    pub fn new(object_type: ObjectType) -> (r: Self)
        ensures
            r.object_type == object_type,
            r.references == 1,
    {
        ObjectRecord { object_type, references: 1 }
    }
}

/// The generation a slot takes after it is cleared; zero is skipped.
pub open spec fn next_generation(generation: u32) -> u32 {
    if generation == u32::MAX {
        1
    } else {
        (generation + 1) as u32
    }
}

/// The generation of a slot after `k` clears, starting from `generation`.
pub open spec fn generation_after(generation: u32, k: nat) -> u32
    decreases k,
{
    if k == 0 {
        generation
    } else {
        next_generation(generation_after(generation, (k - 1) as nat))
    }
}

/// Clearing a slot counts its generation up by one, from `u32::MAX`
/// back to 1: never zero, never the generation it had.
pub proof fn law_clear_counts_generation_up(generation: u32)
    ensures
        generation < u32::MAX ==> next_generation(generation) == generation + 1,
        generation == u32::MAX ==> next_generation(generation) == 1,
        next_generation(generation) != 0,
        next_generation(generation) != generation,
{
}

/// After `k` clears a slot of generation `g` has generation
/// `(g - 1 + k) mod (2^32 - 1) + 1`: the generations cycle through every
/// non-zero value, so a handle to an object freed from the slot stays
/// stale for `2^32 - 2` more clears and matches again only when the
/// generations wrap around.
pub proof fn law_generations_cycle(g: u32, k: nat)
    requires
        g != 0,
    ensures
        generation_after(g, k) == (g - 1 + k) % 0xFFFF_FFFF + 1,
        0 < k < 0xFFFF_FFFF ==> generation_after(g, k) != g,
    decreases k,
{
    let m: int = 0xFFFF_FFFF;
    if k > 0 {
        law_generations_cycle(g, (k - 1) as nat);
        let r = (g - 1 + k - 1) % m;
        assert(0 <= r < m);
        assert((g - 1 + k) % m == if r + 1 == m { 0 } else { r + 1 }) by {
            vstd::arithmetic::div_mod::lemma_add_mod_noop(g - 1 + k - 1, 1, m);
            vstd::arithmetic::div_mod::lemma_small_mod(1nat, m as nat);
            if r + 1 == m {
                vstd::arithmetic::div_mod::lemma_mod_self_0(m);
            } else {
                vstd::arithmetic::div_mod::lemma_small_mod((r + 1) as nat, m as nat);
            }
        }
    }
    if 0 < k < m {
        assert((g - 1 + k) % m != g - 1) by {
            vstd::arithmetic::div_mod::lemma_fundamental_div_mod(g - 1 + k, m);
            let q = (g - 1 + k) / m;
            if q == 0 {
                assert((g - 1 + k) % m == g - 1 + k);
            } else {
                assert(q >= 1) by {
                    vstd::arithmetic::div_mod::lemma_div_pos_is_pos(g - 1 + k, m);
                }
                assert(q * m >= m) by (nonlinear_arith)
                    requires
                        q >= 1,
                        m > 0,
                ;
                assert(g - 1 + k < 2 * m);
                assert(q < 2) by (nonlinear_arith)
                    requires
                        q * m + (g - 1 + k) % m == g - 1 + k,
                        (g - 1 + k) % m >= 0,
                        g - 1 + k < 2 * m,
                        m > 0,
                ;
                assert((g - 1 + k) % m == g - 1 + k - m);
            }
        }
    }
}

/// A never-used slot.
pub open spec fn empty_slot() -> ObjectSlot {
    ObjectSlot { occupied: false, generation: 1, record: None }
}

/// One slot in the object table.
#[derive(Clone, Copy)]
pub struct ObjectSlot {
    pub occupied: bool,
    pub generation: u32,
    pub record: Option<ObjectRecord>,
}

impl ObjectSlot {
    pub fn empty() -> (s: Self)
        ensures
            s == empty_slot(),
    {
        ObjectSlot { occupied: false, generation: 1, record: None }
    }

    pub fn is_free(&self) -> (r: bool)
        ensures
            r == !self.occupied,
    {
        !self.occupied
    }

    /// Free the slot and advance its generation, so that handles to the
    /// previous occupant no longer match.
    pub fn clear(&mut self)
        ensures
            !final(self).occupied,
            final(self).record.is_none(),
            final(self).generation == next_generation(old(self).generation),
            old(self).generation < u32::MAX ==> final(self).generation == old(self).generation + 1,
            old(self).generation == u32::MAX ==> final(self).generation == 1,
    {
        self.occupied = false;
        self.record = None;
        self.generation = self.generation.wrapping_add(1);
        if self.generation == 0 {
            self.generation = 1;
        }
    }
}

} // verus!
