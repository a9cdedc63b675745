use certus::channel::{Channel, ChannelError, ChannelKind};

#[test]
fn channel_error_display() {
    assert_eq!(ChannelError::Full.to_string(), "channel is full");
    assert_eq!(ChannelError::Empty.to_string(), "channel is empty");
    assert_eq!(ChannelError::Closed.to_string(), "channel is closed");
    assert_eq!(ChannelError::BindingRejected { reason: "test".into() }.to_string(), "binding rejected: test");
}

#[test]
fn spsc_new_creates_channel() {
    let mut ch: Channel<u32> = Channel::new(ChannelKind::Spsc, 4);
    ch.bind_sender().unwrap();
    ch.bind_receiver().unwrap();
}

#[test]
fn default_capacity() {
    let mut ch: Channel<u32> = Channel::with_default_capacity(ChannelKind::Spsc);
    assert_eq!(ch.capacity(), 1024);
    ch.bind_sender().unwrap();
    ch.bind_receiver().unwrap();
}

#[test]
fn send_recv_in_order() {
    let mut ch: Channel<u32> = Channel::new(ChannelKind::Spsc, 16);
    ch.bind_sender().unwrap();
    ch.bind_receiver().unwrap();
    for i in 0..10 {
        ch.try_send(i).unwrap();
    }
    for i in 0..10 {
        assert_eq!(ch.try_recv().unwrap(), i);
    }
}

#[test]
fn try_send_try_recv() {
    let mut ch: Channel<u32> = Channel::new(ChannelKind::Spsc, 2);
    ch.bind_sender().unwrap();
    ch.bind_receiver().unwrap();
    assert!(ch.try_send(1).is_ok());
    assert!(ch.try_send(2).is_ok());
    assert!(matches!(ch.try_send(3).unwrap_err(), ChannelError::Full));
    assert_eq!(ch.try_recv().unwrap(), 1);
    assert_eq!(ch.try_recv().unwrap(), 2);
    assert!(matches!(ch.try_recv().unwrap_err(), ChannelError::Empty));
}

#[test]
fn second_sender_rejected() {
    let mut ch: Channel<u32> = Channel::new(ChannelKind::Spsc, 4);
    ch.bind_sender().unwrap();
    let result = ch.bind_sender();
    assert!(matches!(result, Err(ChannelError::BindingRejected { .. })));
}

#[test]
fn spsc_second_receiver_rejected() {
    let mut ch: Channel<u32> = Channel::new(ChannelKind::Spsc, 4);
    ch.bind_receiver().unwrap();
    let result = ch.bind_receiver();
    assert!(matches!(result, Err(ChannelError::BindingRejected { .. })));
}

#[test]
fn sender_disconnect_frees_slot() {
    let mut ch: Channel<u32> = Channel::new(ChannelKind::Spsc, 4);
    ch.bind_sender().unwrap();
    ch.release_sender();
    ch.bind_sender().unwrap();
}

#[test]
fn spsc_receiver_disconnect_frees_slot() {
    let mut ch: Channel<u32> = Channel::new(ChannelKind::Spsc, 4);
    ch.bind_receiver().unwrap();
    ch.release_receiver();
    ch.bind_receiver().unwrap();
}

#[test]
fn closure_when_sender_dropped() {
    let mut ch: Channel<u32> = Channel::new(ChannelKind::Spsc, 4);
    ch.bind_sender().unwrap();
    ch.bind_receiver().unwrap();
    ch.try_send(1).unwrap();
    ch.try_send(2).unwrap();
    ch.release_sender();
    assert_eq!(ch.try_recv().unwrap(), 1);
    assert_eq!(ch.try_recv().unwrap(), 2);
    assert!(matches!(ch.try_recv().unwrap_err(), ChannelError::Closed));
}

#[test]
fn mpsc_new_creates_channel() {
    let mut ch: Channel<u32> = Channel::new(ChannelKind::Mpsc, 4);
    ch.bind_sender().unwrap();
    ch.bind_receiver().unwrap();
}

#[test]
fn multiple_senders_allowed() {
    let mut ch: Channel<u32> = Channel::new(ChannelKind::Mpsc, 4);
    ch.bind_sender().unwrap();
    ch.bind_sender().unwrap();
    ch.bind_sender().unwrap();
}

#[test]
fn mpsc_second_receiver_rejected() {
    let mut ch: Channel<u32> = Channel::new(ChannelKind::Mpsc, 4);
    ch.bind_receiver().unwrap();
    let result = ch.bind_receiver();
    assert!(matches!(result, Err(ChannelError::BindingRejected { .. })));
    match result {
        Err(ChannelError::BindingRejected { reason }) => assert_eq!(reason, "MPSC channel already has a receiver"),
        _ => unreachable!(),
    }
}

#[test]
fn send_recv_single_producer() {
    let mut ch: Channel<u32> = Channel::new(ChannelKind::Mpsc, 16);
    ch.bind_sender().unwrap();
    ch.bind_receiver().unwrap();
    for i in 0..10 {
        ch.try_send(i).unwrap();
    }
    for i in 0..10 {
        assert_eq!(ch.try_recv().unwrap(), i);
    }
}

#[test]
fn closure_when_all_senders_dropped() {
    let mut ch: Channel<u32> = Channel::new(ChannelKind::Mpsc, 4);
    ch.bind_sender().unwrap();
    ch.bind_sender().unwrap();
    ch.bind_receiver().unwrap();
    ch.try_send(1).unwrap();
    ch.try_send(2).unwrap();
    ch.release_sender();
    ch.release_sender();
    let mut msgs = vec![ch.try_recv().unwrap(), ch.try_recv().unwrap()];
    msgs.sort();
    assert_eq!(msgs, vec![1, 2]);
    assert!(matches!(ch.try_recv().unwrap_err(), ChannelError::Closed));
}

#[test]
fn mpsc_receiver_disconnect_frees_slot() {
    let mut ch: Channel<u32> = Channel::new(ChannelKind::Mpsc, 4);
    ch.bind_receiver().unwrap();
    ch.release_receiver();
    ch.bind_receiver().unwrap();
}

#[test]
fn forced_close_keeps_queued_messages() {
    let mut ch: Channel<u32> = Channel::new(ChannelKind::Mpsc, 4);
    ch.bind_sender().unwrap();
    ch.try_send(9).unwrap();
    ch.close();
    assert_eq!(ch.try_recv().unwrap(), 9);
    assert!(matches!(ch.try_recv().unwrap_err(), ChannelError::Closed));
}

#[test]
fn fresh_channel_is_empty_not_closed() {
    let mut ch: Channel<u32> = Channel::new(ChannelKind::Mpsc, 4);
    assert!(matches!(ch.try_recv().unwrap_err(), ChannelError::Empty));
    assert!(ChannelError::Full.same(&ChannelError::Full));
    assert!(!ChannelError::Full.same(&ChannelError::Empty));
}

#[test]
fn numa_channel_is_an_ordinary_channel() {
    let mut ch: Channel<u32> = Channel::new_numa(ChannelKind::Mpsc, 8, 1);
    assert_eq!(ch.capacity(), 8);
    assert_eq!(ch.len(), 0);
    ch.bind_sender().unwrap();
    ch.bind_receiver().unwrap();
}

#[test]
fn send_after_receiver_released_is_closed() {
    let mut ch: Channel<u32> = Channel::new(ChannelKind::Spsc, 4);
    ch.bind_sender().unwrap();
    ch.bind_receiver().unwrap();
    ch.release_receiver();
    assert!(ch.receiver_gone());
    assert!(matches!(ch.try_send(7), Err(ChannelError::Closed)));
    assert_eq!(ch.len(), 0);
    ch.bind_receiver().unwrap();
    assert!(!ch.receiver_gone());
    assert!(ch.try_send(7).is_ok());
    assert_eq!(ch.len(), 1);
}

#[test]
fn spsc_sender_slot_single() {
    let mut ch: Channel<u32> = Channel::new(ChannelKind::Spsc, 4);
    ch.bind_sender().unwrap();
    assert!(matches!(ch.bind_sender(), Err(ChannelError::BindingRejected { .. })));
    assert_eq!(ch.sender_count(), 1);
    ch.release_sender();
    ch.bind_sender().unwrap();
    assert_eq!(ch.sender_count(), 1);
}
