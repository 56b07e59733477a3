use coop_rt::channel::Channel;
use coop_rt::runtime::{chan_recv, chan_recv_finish, chan_send, RecvOutcome, Runtime, SendOutcome};
use coop_rt::thread::{Id, State, BASE_THREAD_ID};

fn pos_of(rt: &Runtime<i32>, id: Id) -> usize {
    (0..rt.threads.len())
        .find(|&i| rt.threads[i].id == id)
        .expect("thread not found")
}

fn assert_channel_invariants(chan: &Channel<i32>) {
    // a parked sender means the buffer is full
    if chan.sendq.len() > 0 {
        assert!(chan.buffer.is_full());
    }
    // a parked receiver means the buffer is empty
    if chan.recvq.len() > 0 {
        assert!(chan.buffer.is_empty());
    }
    // never both kinds of parked threads at once
    assert!(!(chan.sendq.len() > 0 && chan.recvq.len() > 0));
}

fn assert_parked_threads_blocked(rt: &Runtime<i32>, chan: &Channel<i32>) {
    for slot in chan.recvq.inner.iter().flatten() {
        let p = pos_of(rt, *slot);
        assert_eq!(rt.threads[p].state, State::ChannelBlockRecv);
        assert_eq!(rt.threads[p].chan_val, None);
    }
    for slot in chan.sendq.inner.iter().flatten() {
        let p = pos_of(rt, slot.0);
        assert_eq!(rt.threads[p].state, State::ChannelBlockSend);
    }
}

#[test]
fn value_sent_is_value_received() {
    let mut rt: Runtime<i32> = Runtime::new();
    let mut chan: Channel<i32> = Channel::new(4);
    assert_eq!(chan_send(&mut rt, &mut chan, 99), SendOutcome::Buffered);
    assert_channel_invariants(&chan);
    match chan_recv(&mut rt, &mut chan) {
        RecvOutcome::Value(v) => assert_eq!(v, 99),
        RecvOutcome::Parked => panic!("a buffered value was available"),
    }
    assert_channel_invariants(&chan);
    assert!(chan.buffer.is_empty());
}

#[test]
fn buffered_values_come_out_in_sending_order() {
    let mut rt: Runtime<i32> = Runtime::new();
    let mut chan: Channel<i32> = Channel::new(8);
    for v in 1..=5 {
        assert_eq!(chan_send(&mut rt, &mut chan, v), SendOutcome::Buffered);
        assert_channel_invariants(&chan);
    }
    for v in 1..=5 {
        match chan_recv(&mut rt, &mut chan) {
            RecvOutcome::Value(got) => assert_eq!(got, v),
            RecvOutcome::Parked => panic!("a buffered value was available"),
        }
        assert_channel_invariants(&chan);
    }
}

#[test]
fn send_on_full_channel_parks_the_sender() {
    let mut rt: Runtime<i32> = Runtime::new();
    let t1 = rt.create_thread();
    rt.yield_thread().expect("switch to t1");
    assert_eq!(rt.current, t1);

    let mut chan: Channel<i32> = Channel::new(1);
    assert_eq!(chan_send(&mut rt, &mut chan, 1), SendOutcome::Buffered);
    assert_eq!(chan_send(&mut rt, &mut chan, 2), SendOutcome::Parked);
    let p = pos_of(&rt, t1);
    assert_eq!(rt.threads[p].state, State::ChannelBlockSend);
    assert_eq!(chan.sendq.len(), 1);
    assert_channel_invariants(&chan);
    assert_parked_threads_blocked(&rt, &chan);

    // the park is followed by a yield, which must keep the blocked state
    rt.yield_thread().expect("the bootstrap thread is ready");
    let p = pos_of(&rt, t1);
    assert_eq!(rt.threads[p].state, State::ChannelBlockSend);
    assert_eq!(rt.current, Id(BASE_THREAD_ID));
}

#[test]
fn rendezvous_sender_first_on_capacity_zero() {
    // a sender parks on an empty capacity-0 channel; the next receive
    // unblocks exactly that sender and returns exactly its value
    let mut rt: Runtime<i32> = Runtime::new();
    let sender = rt.create_thread();
    let receiver = rt.create_thread();
    let mut chan: Channel<i32> = Channel::new(0);

    rt.yield_thread().expect("switch to the sender");
    assert_eq!(rt.current, sender);
    assert_eq!(chan_send(&mut rt, &mut chan, 42), SendOutcome::Parked);
    assert_eq!(rt.threads[pos_of(&rt, sender)].state, State::ChannelBlockSend);
    assert_channel_invariants(&chan);
    assert_parked_threads_blocked(&rt, &chan);
    rt.yield_thread().expect("switch away from the parked sender");

    // drive until the receiver holds control
    while rt.current != receiver {
        rt.yield_thread().expect("the receiver is still live");
    }
    let mut observed: Vec<i32> = Vec::new();
    match chan_recv(&mut rt, &mut chan) {
        RecvOutcome::Value(v) => observed.push(v),
        RecvOutcome::Parked => panic!("a parked sender was waiting"),
    }
    assert_eq!(observed, vec![42]);
    assert_eq!(rt.threads[pos_of(&rt, sender)].state, State::Ready);
    assert_eq!(chan.sendq.len(), 0);
    assert_channel_invariants(&chan);

    // the sender resumes and its send simply returns; both can complete
    while rt.current != sender {
        rt.yield_thread().expect("the sender is ready again");
    }
    assert_eq!(rt.threads[pos_of(&rt, sender)].state, State::Running);
}

#[test]
fn receiver_first_hand_off_skips_the_buffer() {
    // a receiver parks on an empty capacity-1 channel; the next send must
    // deliver straight into its mailbox and leave the buffer untouched
    let mut rt: Runtime<i32> = Runtime::new();
    let receiver = rt.create_thread();
    let sender = rt.create_thread();
    let mut chan: Channel<i32> = Channel::new(1);

    rt.yield_thread().expect("switch to the receiver");
    assert_eq!(rt.current, receiver);
    match chan_recv(&mut rt, &mut chan) {
        RecvOutcome::Parked => {},
        RecvOutcome::Value(_) => panic!("the channel was empty"),
    }
    assert_eq!(chan.recvq.len(), 1);
    assert_eq!(rt.threads[pos_of(&rt, receiver)].state, State::ChannelBlockRecv);
    assert_channel_invariants(&chan);
    assert_parked_threads_blocked(&rt, &chan);
    rt.yield_thread().expect("switch away from the parked receiver");

    while rt.current != sender {
        rt.yield_thread().expect("the sender is still live");
    }
    assert_eq!(chan_send(&mut rt, &mut chan, 7), SendOutcome::Delivered);
    assert!(chan.buffer.is_empty());
    assert_eq!(chan.recvq.len(), 0);
    assert_eq!(chan.sendq.len(), 0);
    assert_eq!(rt.threads[pos_of(&rt, receiver)].state, State::Ready);
    assert_eq!(rt.threads[pos_of(&rt, receiver)].chan_val, Some(7));
    assert_channel_invariants(&chan);

    // the resumed receiver collects the value from its mailbox
    while rt.current != receiver {
        rt.yield_thread().expect("the receiver is ready again");
    }
    let got = chan_recv_finish(&mut rt, &mut chan);
    assert_eq!(got, 7);
    assert_eq!(rt.threads[pos_of(&rt, receiver)].chan_val, None);
}

#[test]
fn capacity_one_stream_drains_ten_values_then_starves_the_sender() {
    // a receiver takes 10 values from a capacity-1 channel fed by a sender
    // with 15 to give; the sender is left parked when receivers run out
    let mut rt: Runtime<i32> = Runtime::new();
    let receiver = rt.create_thread();
    let sender = rt.create_thread();
    let mut chan: Channel<i32> = Channel::new(1);

    let mut received: Vec<i32> = Vec::new();
    let mut receiver_parked = false;
    let mut next_value = 1i32;
    let mut receiver_done = false;
    let mut guard = 0u32;

    loop {
        guard += 1;
        assert!(guard < 1000);
        assert_channel_invariants(&chan);
        assert_parked_threads_blocked(&rt, &chan);
        let cur = rt.current;
        if cur == Id(BASE_THREAD_ID) {
            if rt.yield_thread().is_none() {
                break;
            }
        } else if cur == receiver {
            if receiver_parked {
                received.push(chan_recv_finish(&mut rt, &mut chan));
                receiver_parked = false;
                continue;
            }
            if received.len() == 10 {
                if !receiver_done {
                    receiver_done = true;
                    rt.done().expect("the bootstrap thread is still ready");
                }
                continue;
            }
            match chan_recv(&mut rt, &mut chan) {
                RecvOutcome::Value(v) => received.push(v),
                RecvOutcome::Parked => {
                    receiver_parked = true;
                    rt.yield_thread().expect("another thread is ready");
                },
            }
        } else {
            assert_eq!(cur, sender);
            if next_value <= 15 {
                match chan_send(&mut rt, &mut chan, next_value) {
                    SendOutcome::Delivered | SendOutcome::Buffered => next_value += 1,
                    SendOutcome::Parked => {
                        next_value += 1;
                        rt.yield_thread().expect("another thread is ready");
                    },
                }
            } else {
                rt.done().expect("the bootstrap thread is still ready");
            }
        }
    }

    // exactly the first ten values were observed, each exactly once; the
    // rotation is deterministic, and so is the order they arrive in: each
    // round delivers one value by rendezvous, then the receive that drains
    // the pending-sender queue overtakes the one buffered value
    assert_eq!(received.len(), 10);
    let mut sorted = received.clone();
    sorted.sort();
    assert_eq!(sorted, vec![1, 2, 3, 4, 5, 6, 7, 8, 9, 10]);
    assert_eq!(received, vec![1, 3, 2, 4, 6, 5, 7, 9, 8, 10]);

    // the sender is starved: parked on the channel with values pending,
    // and the scheduler ran out of ready threads, so the drive loop ended
    let p = pos_of(&rt, sender);
    assert_eq!(rt.threads[p].state, State::ChannelBlockSend);
    assert_eq!(chan.sendq.len(), 1);
    assert!(chan.buffer.is_full());
    let pending: Vec<(Id, i32)> = chan.sendq.inner.iter().flatten().cloned().collect();
    assert_eq!(pending, vec![(sender, 12)]);
    let buffered: Vec<i32> = chan.buffer.inner.iter().flatten().cloned().collect();
    assert_eq!(buffered, vec![11]);
    assert!(rt.threads.iter().all(|t| t.id != receiver));
}

#[test]
fn receive_prefers_a_parked_sender_over_the_buffer() {
    // the rendezvous protocol takes a parked sender's value before buffered
    // ones: the parked sender must be woken by the receive that reaches it
    let mut rt: Runtime<i32> = Runtime::new();
    let t1 = rt.create_thread();
    rt.yield_thread().expect("switch to t1");

    let mut chan: Channel<i32> = Channel::new(1);
    assert_eq!(chan_send(&mut rt, &mut chan, 10), SendOutcome::Buffered);
    assert_eq!(chan_send(&mut rt, &mut chan, 20), SendOutcome::Parked);
    rt.yield_thread().expect("back to the bootstrap thread");

    match chan_recv(&mut rt, &mut chan) {
        RecvOutcome::Value(v) => assert_eq!(v, 20),
        RecvOutcome::Parked => panic!("a parked sender was waiting"),
    }
    assert_eq!(rt.threads[pos_of(&rt, t1)].state, State::Ready);
    match chan_recv(&mut rt, &mut chan) {
        RecvOutcome::Value(v) => assert_eq!(v, 10),
        RecvOutcome::Parked => panic!("a buffered value was available"),
    }
    assert_channel_invariants(&chan);
}

#[test]
fn parked_receivers_are_woken_in_parking_order() {
    let mut rt: Runtime<i32> = Runtime::new();
    let receivers = [rt.create_thread(), rt.create_thread(), rt.create_thread()];
    let mut chan: Channel<i32> = Channel::new(0);

    // drive each receiver to park on the empty channel, in spawn order
    for expected in receivers {
        rt.yield_thread().expect("a receiver is ready");
        assert_eq!(rt.current, expected);
        match chan_recv(&mut rt, &mut chan) {
            RecvOutcome::Parked => {},
            RecvOutcome::Value(_) => panic!("the channel was empty"),
        }
    }
    rt.yield_thread().expect("back to the bootstrap thread");
    assert_eq!(rt.current, Id(BASE_THREAD_ID));
    assert_eq!(chan.recvq.len(), 3);
    assert_parked_threads_blocked(&rt, &chan);

    // each send goes to the receiver that has waited longest
    for (v, expected) in [(10, receivers[0]), (20, receivers[1]), (30, receivers[2])] {
        assert_eq!(chan_send(&mut rt, &mut chan, v), SendOutcome::Delivered);
        assert_eq!(rt.threads[pos_of(&rt, expected)].state, State::Ready);
        assert_eq!(rt.threads[pos_of(&rt, expected)].chan_val, Some(v));
        assert_channel_invariants(&chan);
    }
    assert_eq!(chan.recvq.len(), 0);

    // every receiver collects exactly the value addressed to it
    for (v, expected) in [(10, receivers[0]), (20, receivers[1]), (30, receivers[2])] {
        while rt.current != expected {
            rt.yield_thread().expect("a woken receiver is ready");
        }
        assert_eq!(chan_recv_finish(&mut rt, &mut chan), v);
    }
}

#[test]
fn mailbox_delivery_survives_the_yield_boundary() {
    // the value handed off during rendezvous crosses the receiver's yield
    // untouched and is consumed exactly once
    let mut rt: Runtime<i32> = Runtime::new();
    let receiver = rt.create_thread();
    rt.yield_thread().expect("switch to the receiver");
    let mut chan: Channel<i32> = Channel::new(0);
    match chan_recv(&mut rt, &mut chan) {
        RecvOutcome::Parked => {},
        RecvOutcome::Value(_) => panic!("the channel was empty"),
    }
    rt.yield_thread().expect("back to the bootstrap thread");

    assert_eq!(chan_send(&mut rt, &mut chan, 5), SendOutcome::Delivered);
    while rt.current != receiver {
        rt.yield_thread().expect("the receiver is ready");
    }
    assert_eq!(chan_recv_finish(&mut rt, &mut chan), 5);
    assert_eq!(rt.threads[pos_of(&rt, receiver)].chan_val, None);
    assert!(chan.buffer.is_empty());
    assert_eq!(chan.recvq.len(), 0);
    assert_eq!(chan.sendq.len(), 0);
}
