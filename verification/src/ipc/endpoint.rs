use vstd::prelude::*;

use crate::objects::object::{
    encode_handle, handle_generation, handle_index, lemma_handle_roundtrip, next_generation,
};
use crate::objects::ObjectHandle;

use super::message::{is_message_for, IpcMessage};

verus! {

pub const MAX_IPC_ENDPOINTS: usize = 16;

pub const IPC_QUEUE_CAPACITY: usize = 16;

/// A handle naming an IPC endpoint: generation in the upper 32 bits, slot
/// index in the lower bits.
#[derive(Clone, Copy, PartialEq, Eq, Structural)]
pub struct IpcHandle(u64);

impl View for IpcHandle {
    type V = u64;

    closed spec fn view(&self) -> u64 {
        self.0
    }
}

impl IpcHandle {
    /// The handle that never refers to an endpoint.
    pub fn invalid() -> (h: Self)
        ensures
            h@ == 0,
    {
        IpcHandle(0)
    }

    pub fn new(index: usize, generation: u32) -> (h: Self)
        ensures
            h@ == encode_handle(index, generation),
            index < 0x1_0000_0000 ==> h.spec_index() == index && h.spec_generation()
                == generation,
    {
        proof {
            if index < 0x1_0000_0000 {
                lemma_handle_roundtrip(index, generation);
            }
        }
        IpcHandle(((generation as u64) << 32u64) | (index as u64))
    }

    pub open spec fn spec_index(self) -> usize {
        handle_index(self@)
    }

    pub open spec fn spec_generation(self) -> u32 {
        handle_generation(self@)
    }

    pub fn index(self) -> (r: usize)
        ensures
            r == self.spec_index(),
    {
        self.0 as u32 as usize
    }

    pub fn generation(self) -> (r: u32)
        ensures
            r == self.spec_generation(),
    {
        (self.0 >> 32u64) as u32
    }

    pub fn is_valid(self) -> (r: bool)
        ensures
            r == (self@ != 0),
    {
        self.0 != 0
    }

    pub fn raw(self) -> (r: u64)
        ensures
            r == self@,
    {
        self.0
    }
}

/// A bounded ring buffer of messages.
#[derive(Clone, Copy)]
struct IpcQueue {
    messages: [IpcMessage; IPC_QUEUE_CAPACITY],
    head: usize,
    tail: usize,
    count: usize,
}

impl View for IpcQueue {
    type V = Seq<IpcMessage>;

    /// The queued messages, oldest first.
    closed spec fn view(&self) -> Seq<IpcMessage> {
        Seq::new(
            self.count as nat,
            |k: int| self.messages@[(self.head + k) % (IPC_QUEUE_CAPACITY as int)],
        )
    }
}

impl IpcQueue {
    closed spec fn wf(&self) -> bool {
        &&& self.head < IPC_QUEUE_CAPACITY
        &&& self.tail < IPC_QUEUE_CAPACITY
        &&& self.count <= IPC_QUEUE_CAPACITY
        &&& self.tail == (self.head + self.count) % (IPC_QUEUE_CAPACITY as int)
    }

    fn new() -> (q: Self)
        ensures
            q.wf(),
            q@ == Seq::<IpcMessage>::empty(),
    {
        let q = IpcQueue {
            messages: [IpcMessage::empty(); IPC_QUEUE_CAPACITY],
            head: 0,
            tail: 0,
            count: 0,
        };
        assert(q@ =~= Seq::<IpcMessage>::empty());
        q
    }

    fn is_empty(&self) -> (r: bool)
        requires
            self.wf(),
        ensures
            r == (self@.len() == 0),
    {
        self.count == 0
    }

    fn is_full(&self) -> (r: bool)
        requires
            self.wf(),
        ensures
            r == (self@.len() == IPC_QUEUE_CAPACITY),
    {
        self.count == IPC_QUEUE_CAPACITY
    }

    fn len(&self) -> (r: usize)
        requires
            self.wf(),
        ensures
            r == self@.len(),
    {
        self.count
    }

    /// Append a message; fails when the queue is full.
    fn send(&mut self, message: IpcMessage) -> (r: bool)
        requires
            old(self).wf(),
        ensures
            final(self).wf(),
            r == (old(self)@.len() < IPC_QUEUE_CAPACITY),
            r ==> final(self)@ == old(self)@.push(message),
            !r ==> final(self)@ == old(self)@,
    {
        if self.is_full() {
            return false;
        }
        let ghost before = self@;
        let ghost old_messages = self.messages@;
        let tail = self.tail;
        self.messages[tail] = message;
        self.tail = self.tail + 1;
        if self.tail == IPC_QUEUE_CAPACITY {
            self.tail = 0;
        }
        self.count = self.count + 1;
        assert forall|k: int| 0 <= k < before.len() implies #[trigger] self@[k] == before[k] by {
            assert((self.head + k) % 16 != tail as int);
        }
        assert(self@ =~= before.push(message));
        true
    }

    /// Remove the oldest message; `None` when the queue is empty.
    fn receive(&mut self) -> (r: Option<IpcMessage>)
        requires
            old(self).wf(),
        ensures
            final(self).wf(),
            old(self)@.len() == 0 ==> r.is_none() && final(self)@ == old(self)@,
            old(self)@.len() > 0 ==> r == Some(old(self)@[0]) && final(self)@ == old(self)@.drop_first(),
    {
        if self.is_empty() {
            return None;
        }
        let ghost before = self@;
        let head = self.head;
        let message = self.messages[head];
        self.messages[head] = IpcMessage::empty();
        self.head = self.head + 1;
        if self.head == IPC_QUEUE_CAPACITY {
            self.head = 0;
        }
        self.count = self.count - 1;
        assert forall|k: int| 0 <= k < before.len() - 1 implies #[trigger] self@[k] == before[k
            + 1] by {
            assert((self.head + k) % 16 == (head + k + 1) % 16);
            assert((self.head + k) % 16 != head as int);
        }
        assert(self@ =~= before.drop_first());
        Some(message)
    }
}

#[derive(Clone, Copy)]
struct IpcEndpoint {
    queue: IpcQueue,
}

impl IpcEndpoint {
    fn new() -> (e: Self)
        ensures
            e.queue.wf(),
            e.queue@ == Seq::<IpcMessage>::empty(),
    {
        IpcEndpoint { queue: IpcQueue::new() }
    }
}

#[derive(Clone, Copy)]
struct IpcEndpointSlot {
    occupied: bool,
    generation: u32,
    endpoint: IpcEndpoint,
}

/// Abstract state of one endpoint slot: whether it is in use, its
/// generation, and the messages queued on it (oldest first).
pub open spec fn endpoint_state(occupied: bool, generation: u32, messages: Seq<IpcMessage>) -> (
    bool,
    u32,
    Seq<IpcMessage>,
) {
    (occupied, generation, messages)
}

impl IpcEndpointSlot {
    closed spec fn state(&self) -> (bool, u32, Seq<IpcMessage>) {
        (self.occupied, self.generation, self.endpoint.queue@)
    }

    closed spec fn wf(&self) -> bool {
        &&& self.generation != 0
        &&& self.endpoint.queue.wf()
        &&& !self.occupied ==> self.endpoint.queue@.len() == 0
    }

    fn empty() -> (s: Self)
        ensures
            s.wf(),
            s.state() == endpoint_state(false, 1, Seq::empty()),
    {
        IpcEndpointSlot { occupied: false, generation: 1, endpoint: IpcEndpoint::new() }
    }

    fn clear(&mut self)
        requires
            old(self).wf(),
            old(self).endpoint.queue@.len() == 0,
        ensures
            final(self).wf(),
            final(self).state() == endpoint_state(
                false,
                next_generation(old(self).generation),
                Seq::empty(),
            ),
            old(self).generation < u32::MAX ==> final(self).generation == old(self).generation + 1,
            old(self).generation == u32::MAX ==> final(self).generation == 1,
    {
        self.occupied = false;
        self.generation = self.generation.wrapping_add(1);
        if self.generation == 0 {
            self.generation = 1;
        }
    }
}

/// Whether `h` names the endpoint currently living in its slot.
pub open spec fn endpoint_resolves(slots: Seq<(bool, u32, Seq<IpcMessage>)>, h: IpcHandle) -> bool {
    &&& h@ != 0
    &&& h.spec_index() < MAX_IPC_ENDPOINTS
    &&& slots[h.spec_index() as int].0
    &&& slots[h.spec_index() as int].1 == h.spec_generation()
}

/// Number of endpoints in use.
pub open spec fn endpoint_count(slots: Seq<(bool, u32, Seq<IpcMessage>)>) -> nat
    decreases slots.len(),
{
    if slots.len() == 0 {
        0
    } else {
        endpoint_count(slots.drop_last()) + if slots.last().0 {
            1nat
        } else {
            0nat
        }
    }
}

/// Replacing one slot changes the count by the difference in occupancy.
pub proof fn lemma_endpoint_count_update(
    slots: Seq<(bool, u32, Seq<IpcMessage>)>,
    i: int,
    s: (bool, u32, Seq<IpcMessage>),
)
    requires
        0 <= i < slots.len(),
    ensures
        endpoint_count(slots.update(i, s)) + (if slots[i].0 {
            1int
        } else {
            0int
        }) == endpoint_count(slots) + (if s.0 {
            1int
        } else {
            0int
        }),
    decreases slots.len(),
{
    let u = slots.update(i, s);
    if i == slots.len() - 1 {
        assert(u.drop_last() =~= slots.drop_last());
    } else {
        assert(u.drop_last() =~= slots.drop_last().update(i, s));
        lemma_endpoint_count_update(slots.drop_last(), i, s);
    }
}

/// Messages leave an endpoint in the order they were queued: receiving
/// after a send yields the oldest queued message, or the one just sent when
/// the queue was empty, and sending then receiving equals receiving then
/// sending on a non-empty queue.
pub proof fn law_queue_fifo(q: Seq<IpcMessage>, m: IpcMessage)
    ensures
        q.push(m)[0] == if q.len() == 0 {
            m
        } else {
            q[0]
        },
        q.len() > 0 ==> q.push(m).drop_first() == q.drop_first().push(m),
        q.len() == 0 ==> q.push(m).drop_first() == q,
{
    if q.len() > 0 {
        assert(q.push(m).drop_first() =~= q.drop_first().push(m));
    } else {
        assert(q.push(m).drop_first() =~= q);
    }
}

/// Closing an endpoint makes its handle stale for good in that slot's next
/// life: the slot is free, and the handle's generation no longer matches.
pub proof fn law_destroyed_endpoint_is_stale(slots: Seq<(bool, u32, Seq<IpcMessage>)>, h: IpcHandle)
    requires
        slots.len() == MAX_IPC_ENDPOINTS,
        endpoint_resolves(slots, h),
        slots[h.spec_index() as int].2.len() == 0,
    ensures
        ({
            let i = h.spec_index() as int;
            let after = slots.update(
                i,
                endpoint_state(false, next_generation(slots[i].1), Seq::empty()),
            );
            let reopened = after.update(i, endpoint_state(true, after[i].1, Seq::empty()));
            &&& !endpoint_resolves(after, h)
            &&& !endpoint_resolves(reopened, h)
            &&& endpoint_count(after) + 1 == endpoint_count(slots)
            &&& endpoint_count(reopened) == endpoint_count(slots)
        }),
{
    let i = h.spec_index() as int;
    let after = slots.update(i, endpoint_state(false, next_generation(slots[i].1), Seq::empty()));
    lemma_endpoint_count_update(slots, i, endpoint_state(false, next_generation(slots[i].1), Seq::empty()));
    lemma_endpoint_count_update(after, i, endpoint_state(true, after[i].1, Seq::empty()));
}

/// The table of IPC endpoints.
pub struct IpcManager {
    endpoints: Vec<IpcEndpointSlot>,
}

impl View for IpcManager {
    type V = Seq<(bool, u32, Seq<IpcMessage>)>;

    closed spec fn view(&self) -> Seq<(bool, u32, Seq<IpcMessage>)> {
        self.endpoints@.map_values(|s: IpcEndpointSlot| s.state())
    }
}

impl IpcManager {
    pub closed spec fn wf(&self) -> bool {
        &&& self.endpoints@.len() == MAX_IPC_ENDPOINTS
        &&& forall|i: int| 0 <= i < self.endpoints@.len() ==> #[trigger] self.endpoints@[i].wf()
    }

    /// Every well-formed manager has one state per endpoint slot; a free
    /// slot holds no messages; generations are never zero; no queue holds
    /// more than its capacity.
    pub proof fn lemma_wf_shape(&self)
        requires
            self.wf(),
        ensures
            self@.len() == MAX_IPC_ENDPOINTS,
            forall|i: int|
                0 <= i < MAX_IPC_ENDPOINTS ==> {
                    &&& #[trigger] self@[i].1 != 0
                    &&& !self@[i].0 ==> self@[i].2.len() == 0
                    &&& self@[i].2.len() <= IPC_QUEUE_CAPACITY
                },
    {
        assert forall|i: int| 0 <= i < MAX_IPC_ENDPOINTS implies {
            &&& #[trigger] self@[i].1 != 0
            &&& !self@[i].0 ==> self@[i].2.len() == 0
            &&& self@[i].2.len() <= IPC_QUEUE_CAPACITY
        } by {
            assert(self.endpoints@[i].wf());
        }
    }

    pub fn new() -> (m: Self)
        ensures
            m.wf(),
            forall|i: int|
                0 <= i < MAX_IPC_ENDPOINTS ==> #[trigger] m@[i] == endpoint_state(
                    false,
                    1,
                    Seq::empty(),
                ),
    {
        let mut endpoints: Vec<IpcEndpointSlot> = Vec::new();
        let mut i: usize = 0;
        while i < MAX_IPC_ENDPOINTS
            invariant
                i <= MAX_IPC_ENDPOINTS,
                endpoints@.len() == i,
                forall|j: int|
                    0 <= j < i ==> #[trigger] endpoints@[j].wf() && endpoints@[j].state()
                        == endpoint_state(false, 1, Seq::empty()),
            decreases MAX_IPC_ENDPOINTS - i,
        {
            endpoints.push(IpcEndpointSlot::empty());
            i = i + 1;
        }
        let m = IpcManager { endpoints };
        assert forall|i: int| 0 <= i < MAX_IPC_ENDPOINTS implies #[trigger] m@[i] == endpoint_state(
            false,
            1,
            Seq::empty(),
        ) by {
            assert(m.endpoints@[i].wf());
        }
        m
    }

    /// Open an endpoint in the lowest free slot.
    pub fn create(&mut self) -> (r: Option<IpcHandle>)
        requires
            old(self).wf(),
        ensures
            final(self).wf(),
            match r {
                Some(h) => {
                    let i = h.spec_index() as int;
                    &&& 0 <= i < MAX_IPC_ENDPOINTS
                    &&& !old(self)@[i].0
                    &&& forall|j: int| 0 <= j < i ==> #[trigger] old(self)@[j].0
                    &&& h@ == encode_handle(i as usize, old(self)@[i].1)
                    &&& h.spec_generation() == old(self)@[i].1
                    &&& final(self)@ == old(self)@.update(
                        i,
                        endpoint_state(true, old(self)@[i].1, Seq::empty()),
                    )
                },
                None => {
                    &&& forall|j: int| 0 <= j < MAX_IPC_ENDPOINTS ==> #[trigger] old(self)@[j].0
                    &&& final(self)@ == old(self)@
                },
            },
    {
        let mut index: usize = 0;
        while index < MAX_IPC_ENDPOINTS
            invariant
                index <= MAX_IPC_ENDPOINTS,
                self.wf(),
                self@ == old(self)@,
                self.endpoints@ == old(self).endpoints@,
                forall|j: int| 0 <= j < index ==> #[trigger] old(self)@[j].0,
            decreases MAX_IPC_ENDPOINTS - index,
        {
            let mut slot = self.endpoints[index];
            if !slot.occupied {
                assert(old(self).endpoints@[index as int].wf());
                assert(slot.endpoint.queue@ =~= Seq::<IpcMessage>::empty());
                slot.occupied = true;
                let generation = slot.generation;
                self.endpoints.set(index, slot);
                assert(self@ =~= old(self)@.update(
                    index as int,
                    endpoint_state(true, generation, Seq::empty()),
                ));
                return Some(IpcHandle::new(index, generation));
            }
            index = index + 1;
        }
        None
    }

    /// Check whether a handle refers to a currently open endpoint.
    pub fn is_valid(&self, handle: IpcHandle) -> (r: bool)
        requires
            self.wf(),
        ensures
            r == endpoint_resolves(self@, handle),
    {
        if !handle.is_valid() {
            return false;
        }
        let index = handle.index();
        if index >= MAX_IPC_ENDPOINTS {
            return false;
        }
        let slot = &self.endpoints[index];
        slot.occupied && slot.generation == handle.generation()
    }

    /// Queue a message built from `sender` and `data` on the endpoint.
    /// Fails when the payload is too large, the handle is stale, or the
    /// queue is full.
    pub fn send(&mut self, handle: IpcHandle, sender: ObjectHandle, data: &[u8]) -> (r: bool)
        requires
            old(self).wf(),
        ensures
            final(self).wf(),
            r == (data@.len() <= super::message::IPC_MESSAGE_SIZE && endpoint_resolves(
                old(self)@,
                handle,
            ) && old(self)@[handle.spec_index() as int].2.len() < IPC_QUEUE_CAPACITY),
            !r ==> final(self)@ == old(self)@,
            r ==> {
                let i = handle.spec_index() as int;
                let before = old(self)@[i].2;
                let after = final(self)@[i].2;
                &&& final(self)@.len() == old(self)@.len()
                &&& forall|j: int|
                    0 <= j < old(self)@.len() && j != i ==> #[trigger] final(self)@[j] == old(self)@[j]
                &&& final(self)@[i].0 == old(self)@[i].0
                &&& final(self)@[i].1 == old(self)@[i].1
                &&& after.len() == before.len() + 1
                &&& after.drop_last() == before
                &&& is_message_for(after.last(), sender, data@)
            },
    {
        let message = match IpcMessage::new(sender, data) {
            Some(message) => message,
            None => return false,
        };
        if !handle.is_valid() {
            return false;
        }
        let index = handle.index();
        if index >= MAX_IPC_ENDPOINTS {
            return false;
        }
        let mut slot = self.endpoints[index];
        if !slot.occupied || slot.generation != handle.generation() {
            return false;
        }
        assert(old(self).endpoints@[index as int].wf());
        let sent = slot.endpoint.queue.send(message);
        if !sent {
            return false;
        }
        self.endpoints.set(index, slot);
        assert forall|j: int| 0 <= j < self.endpoints@.len() implies #[trigger] self.endpoints@[j].wf() by {
            if j != index as int {
                assert(old(self).endpoints@[j].wf());
            }
        }
        assert(self@[index as int].2.drop_last() =~= old(self)@[index as int].2);
        true
    }

    /// Take the oldest message from the endpoint; `None` when the handle is
    /// stale or the queue is empty.
    pub fn receive(&mut self, handle: IpcHandle) -> (r: Option<IpcMessage>)
        requires
            old(self).wf(),
        ensures
            final(self).wf(),
            match r {
                Some(m) => {
                    let i = handle.spec_index() as int;
                    &&& endpoint_resolves(old(self)@, handle)
                    &&& old(self)@[i].2.len() > 0
                    &&& m == old(self)@[i].2[0]
                    &&& final(self)@ == old(self)@.update(
                        i,
                        endpoint_state(old(self)@[i].0, old(self)@[i].1, old(self)@[i].2.drop_first()),
                    )
                },
                None => {
                    &&& !endpoint_resolves(old(self)@, handle) || old(self)@[handle.spec_index() as int].2.len() == 0
                    &&& final(self)@ == old(self)@
                },
            },
    {
        if !handle.is_valid() {
            return None;
        }
        let index = handle.index();
        if index >= MAX_IPC_ENDPOINTS {
            return None;
        }
        let mut slot = self.endpoints[index];
        if !slot.occupied || slot.generation != handle.generation() {
            return None;
        }
        assert(old(self).endpoints@[index as int].wf());
        let received = slot.endpoint.queue.receive();
        match received {
            Some(message) => {
                self.endpoints.set(index, slot);
                assert forall|j: int| 0 <= j < self.endpoints@.len() implies #[trigger] self.endpoints@[j].wf() by {
                    if j != index as int {
                        assert(old(self).endpoints@[j].wf());
                    }
                }
                assert(self@ =~= old(self)@.update(
                    index as int,
                    endpoint_state(
                        old(self)@[index as int].0,
                        old(self)@[index as int].1,
                        old(self)@[index as int].2.drop_first(),
                    ),
                ));
                Some(message)
            },
            None => None,
        }
    }

    /// Number of messages waiting on the endpoint; `None` for a stale handle.
    pub fn queue_len(&self, handle: IpcHandle) -> (r: Option<usize>)
        requires
            self.wf(),
        ensures
            r == if endpoint_resolves(self@, handle) {
                Some(self@[handle.spec_index() as int].2.len() as usize)
            } else {
                None
            },
    {
        if !handle.is_valid() {
            return None;
        }
        let index = handle.index();
        if index >= MAX_IPC_ENDPOINTS {
            return None;
        }
        let slot = &self.endpoints[index];
        if !slot.occupied || slot.generation != handle.generation() {
            return None;
        }
        assert(self.endpoints@[index as int].wf());
        Some(slot.endpoint.queue.len())
    }

    /// Close an endpoint; refused while messages are still queued on it.
    pub fn destroy(&mut self, handle: IpcHandle) -> (r: bool)
        requires
            old(self).wf(),
        ensures
            final(self).wf(),
            r == (endpoint_resolves(old(self)@, handle) && old(self)@[handle.spec_index() as int].2.len()
                == 0),
            r ==> final(self)@ == old(self)@.update(
                handle.spec_index() as int,
                endpoint_state(
                    false,
                    next_generation(old(self)@[handle.spec_index() as int].1),
                    Seq::empty(),
                ),
            ),
            !r ==> final(self)@ == old(self)@,
    {
        if !handle.is_valid() {
            return false;
        }
        let index = handle.index();
        if index >= MAX_IPC_ENDPOINTS {
            return false;
        }
        let mut slot = self.endpoints[index];
        if !slot.occupied || slot.generation != handle.generation() {
            return false;
        }
        assert(old(self).endpoints@[index as int].wf());
        if !slot.endpoint.queue.is_empty() {
            return false;
        }
        slot.clear();
        self.endpoints.set(index, slot);
        assert forall|j: int| 0 <= j < self.endpoints@.len() implies #[trigger] self.endpoints@[j].wf() by {
            if j != index as int {
                assert(old(self).endpoints@[j].wf());
            }
        }
        assert(self@ =~= old(self)@.update(
            index as int,
            endpoint_state(false, next_generation(old(self)@[index as int].1), Seq::empty()),
        ));
        true
    }

    /// Number of open endpoints.
    pub fn count(&self) -> (r: usize)
        requires
            self.wf(),
        ensures
            r == endpoint_count(self@),
    {
        let mut n: usize = 0;
        let mut i: usize = 0;
        while i < MAX_IPC_ENDPOINTS
            invariant
                i <= MAX_IPC_ENDPOINTS,
                self.wf(),
                n == endpoint_count(self@.subrange(0, i as int)),
                n <= i,
            decreases MAX_IPC_ENDPOINTS - i,
        {
            assert(self@.subrange(0, i as int + 1).drop_last() =~= self@.subrange(0, i as int));
            if self.endpoints[i].occupied {
                n = n + 1;
            }
            i = i + 1;
        }
        assert(self@.subrange(0, MAX_IPC_ENDPOINTS as int) =~= self@);
        n
    }
}

} // verus!
