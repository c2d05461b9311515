use vstd::prelude::*;

use crate::objects::ObjectHandle;

verus! {

pub const IPC_MESSAGE_SIZE: usize = 256;

/// A message as it travels through an endpoint queue: the sending object,
/// the payload length and a fixed-size data buffer.
#[derive(Clone, Copy)]
pub struct IpcMessage {
    pub sender: ObjectHandle,
    pub len: u16,
    pub _reserved: u16,
    pub data: [u8; IPC_MESSAGE_SIZE],
}

/// `m` is the message built from `sender` and `payload`: the payload is
/// copied to the front of the buffer and the rest of the buffer is zero.
pub open spec fn is_message_for(m: IpcMessage, sender: ObjectHandle, payload: Seq<u8>) -> bool {
    &&& payload.len() <= IPC_MESSAGE_SIZE
    &&& m.sender == sender
    &&& m.len == payload.len()
    &&& m._reserved == 0
    &&& m.data@.subrange(0, payload.len() as int) == payload
    &&& forall|i: int| payload.len() <= i < IPC_MESSAGE_SIZE ==> #[trigger] m.data@[i] == 0
}

/// The bytes a message carries.
pub open spec fn message_payload(m: IpcMessage) -> Seq<u8> {
    m.data@.subrange(0, m.len as int)
}

/// A message built from a sender and a payload gives back exactly that
/// sender and that payload.
pub proof fn law_message_roundtrip(m: IpcMessage, sender: ObjectHandle, payload: Seq<u8>)
    requires
        is_message_for(m, sender, payload),
    ensures
        message_payload(m) == payload,
        m.sender == sender,
        m.len as usize <= IPC_MESSAGE_SIZE,
{
}

impl IpcMessage {
    /// A message with no sender and no payload.
    pub fn empty() -> (m: Self)
        ensures
            is_message_for(m, m.sender, Seq::empty()),
            m.sender@ == 0,
    {
        let m = IpcMessage {
            sender: ObjectHandle::invalid(),
            len: 0,
            _reserved: 0,
            data: [0u8; IPC_MESSAGE_SIZE],
        };
        assert(m.data@.subrange(0, 0) =~= Seq::<u8>::empty());
        m
    }

    /// Build a message; `None` when the payload does not fit the buffer.
    pub fn new(sender: ObjectHandle, data: &[u8]) -> (r: Option<Self>)
        ensures
            r.is_none() <==> data@.len() > IPC_MESSAGE_SIZE,
            r matches Some(m) ==> is_message_for(m, sender, data@),
    {
        if data.len() > IPC_MESSAGE_SIZE {
            return None;
        }
        let mut message = Self::empty();
        message.sender = sender;
        message.len = data.len() as u16;
        let mut index: usize = 0;
        while index < data.len()
            invariant
                index <= data@.len() <= IPC_MESSAGE_SIZE,
                message.sender == sender,
                message.len == data@.len(),
                message._reserved == 0,
                forall|i: int| 0 <= i < index ==> #[trigger] message.data@[i] == data@[i],
                forall|i: int| index <= i < IPC_MESSAGE_SIZE ==> #[trigger] message.data@[i] == 0,
            decreases data@.len() - index,
        {
            message.data[index] = data[index];
            index = index + 1;
        }
        assert(message.data@.subrange(0, data@.len() as int) =~= data@);
        Some(message)
    }

    /// The payload bytes.
    pub fn payload(&self) -> (r: &[u8])
        requires
            self.len as usize <= IPC_MESSAGE_SIZE,
        ensures
            r@ == message_payload(*self),
    {
        vstd::slice::slice_subrange(self.data.as_slice(), 0, self.len as usize)
    }

    /// The payload bytes, writable in place; the rest of the buffer and
    /// the header stay as they are.
    pub fn payload_mut(&mut self) -> (r: &mut [u8])
        requires
            old(self).len as usize <= IPC_MESSAGE_SIZE,
        ensures
            r@ == message_payload(*old(self)),
            final(self).sender == old(self).sender,
            final(self).len == old(self).len,
            final(self)._reserved == old(self)._reserved,
            final(self).data@ == final(r)@ + old(self).data@.subrange(
                old(self).len as int,
                IPC_MESSAGE_SIZE as int,
            ),
    {
        let len = self.len as usize;
        let data: &mut [u8] = &mut self.data;
        let (payload, _rest) = data.split_at_mut(len);
        payload
    }
}

} // verus!
