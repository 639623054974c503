use nb_sync::fifo::ring::{next_index, recv_slot, send_slot};
use nb_sync::fifo::{Channel, NonReentrant};

struct NonClone {
    _0: (),
}

impl NonClone {
    fn new() -> Self {
        NonClone { _0: () }
    }
}

struct Quiet;

impl NonReentrant for Quiet {}

fn is_non_reentrant<N: NonReentrant>() -> bool {
    true
}

#[test]
fn basic() {
    let mut arry: [Option<u8>; 4] = [None; 4];
    let len = arry.len();
    let mut channel = Channel::new(&mut arry);
    assert_eq!(channel.len(), len);
    let (mut receiver, mut sender) = channel.split();
    assert_eq!(receiver.recv(), Err(nb::Error::WouldBlock));
    assert_eq!(sender.send(4, &mut receiver), Ok(()));
    assert_eq!(receiver.recv(), Ok(4));
    assert_eq!(receiver.recv(), Err(nb::Error::WouldBlock));
}

#[test]
fn completion() {
    let mut arry: [Option<NonClone>; 5] = [None, None, None, None, None];
    let len = arry.len();
    let mut channel = Channel::new(&mut arry);
    assert_eq!(channel.len(), len);
    let (mut receiver, mut sender) = channel.split();
    match receiver.recv() {
        Err(nb::Error::WouldBlock) => {}
        _ => assert!(false),
    }
    let mut completion = sender.send_with_completion(NonClone::new());
    match receiver.recv() {
        Err(nb::Error::WouldBlock) => {}
        _ => assert!(false),
    }
    match completion.poll(&mut receiver) {
        Ok(_) => {}
        _ => assert!(false),
    }
    match receiver.recv() {
        Ok(_) => {}
        _ => assert!(false),
    }
    match completion.poll(&mut receiver) {
        Ok(_) => {}
        _ => assert!(false),
    }
    match receiver.recv() {
        Err(nb::Error::WouldBlock) => {}
        _ => assert!(false),
    }
    let (s, r) = completion.done();
    sender = s;
    match r {
        None => {}
        _ => assert!(false),
    }
    match receiver.recv() {
        Err(nb::Error::WouldBlock) => {}
        _ => assert!(false),
    }
    completion = sender.send_with_completion(NonClone::new());
    let (_, r) = completion.done();
    match r {
        Some(_) => {}
        _ => assert!(false),
    }
}

#[test]
fn sync_blocking() {
    let mut arry: [Option<u8>; 4] = [None; 4];
    let len = arry.len();
    let mut channel = Channel::new(&mut arry);
    assert_eq!(channel.len(), len);
    let (mut receiver, mut sender) = channel.split();
    for _rep in 0..10 {
        for i in 0..(len - 1) {
            println!("Sending");
            assert_eq!(sender.send(i as u8, &mut receiver), Ok(()));
        }
        assert_eq!(sender.send(255, &mut receiver), Err(nb::Error::WouldBlock));
        assert_eq!(receiver.recv(), Ok(0));
        assert_eq!(sender.send(255, &mut receiver), Ok(()));
        for i in 1..(len - 1) {
            assert_eq!(receiver.recv(), Ok(i as u8));
        }
        assert_eq!(receiver.recv(), Ok(255));
        assert_eq!(receiver.recv(), Err(nb::Error::WouldBlock));
    }
}

#[test]
fn direct_usage_with_a_token() {
    assert!(is_non_reentrant::<bare_metal::CriticalSection>());
    let mut buffer: [Option<u8>; 4] = [None; 4];
    let mut channel = Channel::new(&mut buffer);
    channel.send(10, &Quiet).unwrap();
    assert_eq!(channel.recv(&Quiet), Ok(10));
    assert_eq!(channel.recv(&Quiet), Err(nb::Error::WouldBlock));
}

#[test]
fn send_is_tried_until_it_succeeds() {
    let mut buffer: [Option<u8>; 4] = [None; 4];
    let mut channel = Channel::new(&mut buffer);
    let (mut receiver, mut sender) = channel.split();
    let clonable: u8 = 5;
    loop {
        match sender.send(clonable, &mut receiver) {
            Ok(()) => break Ok(()),
            Err(nb::Error::WouldBlock) => {}
            Err(nb::Error::Other(e)) => break Err(e),
        }
    }
    .unwrap();
    assert_eq!(receiver.recv(), Ok(5));
}

#[test]
fn completion_can_be_aborted_and_started_again() {
    let mut buffer: [Option<NonClone>; 4] = [None, None, None, None];
    let mut channel = Channel::new(&mut buffer);
    let (mut receiver, mut sender) = channel.split();
    let value = NonClone::new();
    let completion = sender.send_with_completion(value);
    let (s, v) = completion.done();
    sender = s;
    let value = v.unwrap();
    let mut completion = sender.send_with_completion(value);
    loop {
        match completion.poll(&mut receiver) {
            Ok(()) => break Ok(()),
            Err(nb::Error::WouldBlock) => {}
            Err(nb::Error::Other(e)) => break Err(e),
        }
    }
    .unwrap();
    let (_, v) = completion.done();
    assert!(v.is_none());
    assert!(receiver.recv().is_ok());
    assert!(receiver.recv().is_err());
}

#[test]
fn new_clears_the_buffer() {
    let mut buffer: [Option<u8>; 3] = [Some(1), Some(2), Some(3)];
    {
        let mut channel = Channel::new(&mut buffer);
        assert_eq!(channel.recv(&Quiet), Err(nb::Error::WouldBlock));
    }
    assert_eq!(buffer, [None, None, None]);
}

#[test]
fn buffer_keeps_what_is_pending() {
    let mut buffer: [Option<u8>; 3] = [None; 3];
    {
        let mut channel = Channel::new(&mut buffer);
        assert_eq!(channel.send(7, &Quiet), Ok(()));
        assert_eq!(channel.send(8, &Quiet), Ok(()));
        assert_eq!(channel.recv(&Quiet), Ok(7));
        assert_eq!(channel.send(9, &Quiet), Ok(()));
        assert_eq!(channel.recv(&Quiet), Ok(8));
        assert_eq!(channel.send(10, &Quiet), Ok(()));
    }
    // The queue went round the ring: 9 lies in the last slot, 10 in the first one.
    assert_eq!(buffer, [Some(10), None, Some(9)]);
}

#[test]
fn send_lossless_hands_the_value_back() {
    let mut buffer: [Option<u8>; 2] = [None; 2];
    let mut channel = Channel::new(&mut buffer);
    assert_eq!(channel.send_lossless(1, &Quiet), (Ok(()), None));
    assert_eq!(
        channel.send_lossless(2, &Quiet),
        (Err(nb::Error::WouldBlock), Some(2))
    );
    let (mut receiver, mut sender) = channel.split();
    assert_eq!(
        sender.send_lossless(3, &mut receiver),
        (Err(nb::Error::WouldBlock), Some(3))
    );
    assert_eq!(receiver.recv(), Ok(1));
    assert_eq!(sender.send_lossless(4, &mut receiver), (Ok(()), None));
    assert_eq!(receiver.recv(), Ok(4));
}

#[test]
fn one_slot_has_no_room() {
    let mut buffer: [Option<u8>; 1] = [None];
    let mut channel = Channel::new(&mut buffer);
    assert_eq!(channel.len(), 1);
    assert_eq!(channel.send(1, &Quiet), Err(nb::Error::WouldBlock));
    assert_eq!(channel.recv(&Quiet), Err(nb::Error::WouldBlock));
}

#[test]
fn no_slot_has_nothing_to_receive() {
    let mut buffer: [Option<u8>; 0] = [];
    let mut channel = Channel::new(&mut buffer);
    assert_eq!(channel.len(), 0);
    assert_eq!(channel.recv(&Quiet), Err(nb::Error::WouldBlock));
    let (mut receiver, _sender) = channel.split();
    assert_eq!(receiver.recv(), Err(nb::Error::WouldBlock));
}

#[test]
fn channel_goes_on_after_its_ends() {
    let mut buffer: [Option<u8>; 4] = [None; 4];
    let mut channel = Channel::new(&mut buffer);
    assert_eq!(channel.send(1, &Quiet), Ok(()));
    {
        let (mut receiver, mut sender) = channel.split();
        assert_eq!(sender.send(2, &mut receiver), Ok(()));
        assert_eq!(receiver.recv(), Ok(1));
        assert_eq!(sender.send(3, &mut receiver), Ok(()));
    }
    assert_eq!(channel.recv(&Quiet), Ok(2));
    assert_eq!(channel.recv(&Quiet), Ok(3));
    assert_eq!(channel.recv(&Quiet), Err(nb::Error::WouldBlock));
}

#[test]
fn values_come_out_in_order() {
    let mut buffer: [Option<u32>; 5] = [None; 5];
    let mut channel = Channel::new(&mut buffer);
    let mut accepted: Vec<u32> = Vec::new();
    let mut delivered: Vec<u32> = Vec::new();
    for round in 0u32..100 {
        // Two sends and a receive, or one send and two receives, in turn.
        let (sends, receives): (u32, u32) = if round % 2 == 0 { (2, 1) } else { (1, 2) };
        for i in 0..sends {
            let value = round * 10 + i;
            if channel.send(value, &Quiet).is_ok() {
                accepted.push(value);
            }
        }
        for _ in 0..receives {
            if let Ok(value) = channel.recv(&Quiet) {
                delivered.push(value);
            }
        }
        assert!(accepted.len() - delivered.len() < 5);
    }
    while let Ok(value) = channel.recv(&Quiet) {
        delivered.push(value);
    }
    assert_eq!(accepted, delivered);
    assert_eq!(accepted.len(), 150);
}

#[test]
fn completion_waits_for_room_and_sends_once() {
    let mut buffer: [Option<u8>; 3] = [None; 3];
    let mut channel = Channel::new(&mut buffer);
    let (mut receiver, mut sender) = channel.split();
    assert_eq!(sender.send(1, &mut receiver), Ok(()));
    assert_eq!(sender.send(2, &mut receiver), Ok(()));
    let mut completion = sender.send_with_completion(3);
    assert_eq!(completion.poll(&mut receiver), Err(nb::Error::WouldBlock));
    assert_eq!(completion.poll(&mut receiver), Err(nb::Error::WouldBlock));
    assert_eq!(receiver.recv(), Ok(1));
    assert_eq!(completion.poll(&mut receiver), Ok(()));
    assert_eq!(completion.poll(&mut receiver), Ok(()));
    assert_eq!(receiver.recv(), Ok(2));
    assert_eq!(receiver.recv(), Ok(3));
    assert_eq!(receiver.recv(), Err(nb::Error::WouldBlock));
    assert_eq!(completion.poll(&mut receiver), Ok(()));
    assert_eq!(receiver.recv(), Err(nb::Error::WouldBlock));
    let (_, unsent) = completion.done();
    assert_eq!(unsent, None);
}

#[test]
fn aborted_completion_keeps_its_value() {
    let mut buffer: [Option<u8>; 2] = [None; 2];
    let mut channel = Channel::new(&mut buffer);
    let (mut receiver, mut sender) = channel.split();
    assert_eq!(sender.send(1, &mut receiver), Ok(()));
    let mut completion = sender.send_with_completion(2);
    assert_eq!(completion.poll(&mut receiver), Err(nb::Error::WouldBlock));
    let (_, unsent) = completion.done();
    assert_eq!(unsent, Some(2));
    assert_eq!(receiver.recv(), Ok(1));
    assert_eq!(receiver.recv(), Err(nb::Error::WouldBlock));
}

#[test]
fn positions_in_the_ring() {
    assert_eq!(next_index(0, 4), 1);
    assert_eq!(next_index(3, 4), 0);
    assert_eq!(next_index(0, 1), 0);
    assert_eq!(next_index(usize::MAX - 1, usize::MAX), 0);
    assert_eq!(recv_slot(2, 2), None);
    assert_eq!(recv_slot(0, 3), Some(3));
    assert_eq!(send_slot(3, 0, 4), None);
    assert_eq!(send_slot(2, 0, 4), Some(2));
    assert_eq!(send_slot(0, 0, 1), None);
}

#[test]
fn channel_takes_what_it_has_room_for() {
    let mut buffer: [Option<u8>; 5] = [None; 5];
    let mut channel = Channel::new(&mut buffer);
    assert_eq!(channel.send(1, &Quiet), Ok(()));
    // Room for three more of these five.
    let results: Vec<bool> = (2u8..7).map(|v| channel.send(v, &Quiet).is_ok()).collect();
    assert_eq!(results, [true, true, true, false, false]);
    for v in 1u8..5 {
        assert_eq!(channel.recv(&Quiet), Ok(v));
    }
    assert_eq!(channel.recv(&Quiet), Err(nb::Error::WouldBlock));
}

#[test]
fn values_count_from_the_move_of_the_index() {
    let mut slots: [Option<u8>; 2] = [None; 2];
    let mut send_index: usize = 0;
    let mut recv_index: usize = 0;
    // The slot is filled, but a receive finds nothing until the send index moves.
    let to_send = send_slot(send_index, recv_index, 2).unwrap();
    slots[to_send] = Some(1);
    assert_eq!(recv_slot(send_index, recv_index), None);
    send_index = next_index(to_send, 2);
    let to_recv = recv_slot(send_index, recv_index).unwrap();
    // The slot is empty again, but a send finds no room until the receive index moves.
    assert_eq!(slots[to_recv].take(), Some(1));
    assert_eq!(send_slot(send_index, recv_index, 2), None);
    recv_index = next_index(to_recv, 2);
    assert_eq!(send_slot(send_index, recv_index, 2), Some(1));
}

#[test]
fn ends_interleave_step_by_step() {
    let mut slots: [Option<u8>; 3] = [None; 3];
    let mut send_index: usize = 0;
    let mut recv_index: usize = 0;
    // A first value, in one go.
    let slot = send_slot(send_index, recv_index, 3).unwrap();
    slots[slot] = Some(1);
    send_index = next_index(slot, 3);
    // A send and a receive choose their slots before either has touched one.
    let to_send = send_slot(send_index, recv_index, 3).unwrap();
    let to_recv = recv_slot(send_index, recv_index).unwrap();
    assert_ne!(to_send, to_recv);
    assert_eq!(slots[to_send], None);
    slots[to_send] = Some(2);
    assert_eq!(slots[to_recv].take(), Some(1));
    send_index = next_index(to_send, 3);
    recv_index = next_index(to_recv, 3);
    // The second value is next, and then nothing.
    let slot = recv_slot(send_index, recv_index).unwrap();
    assert_eq!(slots[slot].take(), Some(2));
    recv_index = next_index(slot, 3);
    assert_eq!(recv_slot(send_index, recv_index), None);
    assert_eq!(slots, [None, None, None]);
}
