//! The datagram echo handler: what is sent back for one datagram.
//!
//! Datagrams are received one at a time into a buffer that is used again for
//! each. The reply to a datagram is the bytes that were received of it, no
//! more of the buffer than that, sent to where the datagram came from. A
//! datagram longer than the buffer arrives cut to the buffer's length, and is
//! answered as it arrived.

use crate::text::{decode, permissive_text};
use vstd::prelude::*;
use vstd::slice::slice_subrange;

verus! {

/// What is sent back for one datagram. `A` is whatever the caller uses to
/// tell senders apart; it is carried through untouched.
///
/// The payload is lent by the receive buffer. So the buffer cannot receive
/// the next datagram before the reply to this one has been sent, or let go.
pub struct Reply<'a, A> {
    /// The bytes to send.
    pub payload: &'a [u8],
    /// Where to send them.
    pub to: A,
}

/// A receive buffer of `size` bytes, all zero.
pub fn receive_buffer(size: usize) -> (buffer: Vec<u8>)
    ensures
        buffer@ == Seq::new(size as nat, |i: int| 0u8),
{
    let buffer = vec![0u8; size];
    buffer
}

impl<'a, A> View for Reply<'a, A> {
    type V = (Seq<u8>, A);

    /// The bytes sent and where they go.
    open spec fn view(&self) -> (Seq<u8>, A) {
        (self.payload@, self.to)
    }
}

/// The reply to a datagram of which `received` bytes stand at the start of
/// `buffer`, and which came from `sender`.
pub fn answer<'a, A>(buffer: &'a [u8], received: usize, sender: A) -> (reply: Reply<'a, A>)
    requires
        received <= buffer@.len(),
    ensures
        reply@ == (buffer@.take(received as int), sender),
{
    Reply { payload: slice_subrange(buffer, 0, received), to: sender }
}

impl<'a, A> Reply<'a, A> {
    /// The payload as text, decoded permissively, as it is logged.
    pub fn text(&self) -> (text: String)
        ensures
            text@ == permissive_text(self.payload@),
    {
        decode(self.payload)
    }
}

/// The number of bytes that receiving `datagram` into a buffer of `capacity`
/// bytes reports: all of it, or as much as fits.
pub open spec fn received_len(datagram: Seq<u8>, capacity: nat) -> nat {
    if datagram.len() <= capacity {
        datagram.len()
    } else {
        capacity
    }
}

/// The buffer after `datagram` was received into it: what was received of
/// the datagram, then what the buffer held before from there on.
pub open spec fn received_into(buffer: Seq<u8>, datagram: Seq<u8>) -> Seq<u8> {
    let received = received_len(datagram, buffer.len()) as int;
    datagram.take(received) + buffer.skip(received)
}

/// The payload sent back when `datagram` is received into `buffer`.
pub open spec fn echo_of(buffer: Seq<u8>, datagram: Seq<u8>) -> Seq<u8> {
    received_into(buffer, datagram).take(received_len(datagram, buffer.len()) as int)
}

/// The buffer after each of `arrivals` was received into it in turn. An
/// arrival is a datagram and the sender it came from.
pub open spec fn buffer_after<A>(buffer: Seq<u8>, arrivals: Seq<(Seq<u8>, A)>) -> Seq<u8>
    decreases arrivals.len(),
{
    if arrivals.len() == 0 {
        buffer
    } else {
        received_into(buffer_after(buffer, arrivals.drop_last()), arrivals.last().0)
    }
}

/// The replies to `arrivals`, received one after the other into the same
/// buffer, which starts out as `buffer`: for each its payload and where it
/// goes, in the order sent.
pub open spec fn replies<A>(buffer: Seq<u8>, arrivals: Seq<(Seq<u8>, A)>) -> Seq<(Seq<u8>, A)>
    decreases arrivals.len(),
{
    if arrivals.len() == 0 {
        Seq::empty()
    } else {
        let before = arrivals.drop_last();
        let (datagram, sender) = arrivals.last();
        replies(buffer, before).push((echo_of(buffer_after(buffer, before), datagram), sender))
    }
}

/// Round trip: the reply holds what arrived of the datagram and nothing
/// that the buffer held before. That is the whole datagram where it fits
/// the buffer, and its first bytes, as many as the buffer holds, where it
/// does not.
pub proof fn lemma_round_trip(buffer: Seq<u8>, datagram: Seq<u8>)
    ensures
        datagram.len() <= buffer.len() ==> echo_of(buffer, datagram) == datagram,
        datagram.len() > buffer.len() ==> echo_of(buffer, datagram) == datagram.take(
            buffer.len() as int,
        ),
        received_into(buffer, datagram).len() == buffer.len(),
{
}

/// Receiving never changes how many bytes the buffer holds.
pub proof fn lemma_buffer_keeps_len<A>(buffer: Seq<u8>, arrivals: Seq<(Seq<u8>, A)>)
    ensures
        buffer_after(buffer, arrivals).len() == buffer.len(),
    decreases arrivals.len(),
{
    if arrivals.len() > 0 {
        lemma_buffer_keeps_len(buffer, arrivals.drop_last());
        lemma_round_trip(buffer_after(buffer, arrivals.drop_last()), arrivals.last().0);
    }
}

/// Order is kept: there is one reply for each datagram, in the order
/// received; it goes to the sender of that datagram and holds what arrived
/// of that datagram, whatever was received before it or comes after it.
pub proof fn lemma_replies_in_order<A>(buffer: Seq<u8>, arrivals: Seq<(Seq<u8>, A)>)
    ensures
        replies(buffer, arrivals).len() == arrivals.len(),
        forall|i: int|
            0 <= i < arrivals.len() ==> (#[trigger] replies(buffer, arrivals)[i]) == (
                arrivals[i].0.take(received_len(arrivals[i].0, buffer.len()) as int),
                arrivals[i].1,
            ),
    decreases arrivals.len(),
{
    if arrivals.len() > 0 {
        let before = arrivals.drop_last();
        lemma_replies_in_order(buffer, before);
        lemma_buffer_keeps_len(buffer, before);
        lemma_round_trip(buffer_after(buffer, before), arrivals.last().0);
    }
}

/// A reply does not wait for what comes later: the replies to the first
/// `n` datagrams are the same whether or not more datagrams follow.
pub proof fn lemma_replies_before_next<A>(buffer: Seq<u8>, arrivals: Seq<(Seq<u8>, A)>, n: int)
    requires
        0 <= n <= arrivals.len(),
    ensures
        replies(buffer, arrivals.take(n)) == replies(buffer, arrivals).take(n),
{
    lemma_replies_in_order(buffer, arrivals);
    lemma_replies_in_order(buffer, arrivals.take(n));
}

} // verus!
