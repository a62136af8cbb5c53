use bos::keyboard::ChannelError;
use bos::keyboard::PushOutcome;
use bos::keyboard::ScancodeChannel;
use bos::keyboard::ScancodeStream;
use bos::keyboard::StreamPoll;
use bos::keyboard::SCANCODE_QUEUE_CAPACITY;
use futures_util::task::noop_waker;

#[test]
fn push_then_poll_returns_byte_then_pending() {
    let mut channel = ScancodeChannel::new();
    let mut stream = ScancodeStream::new(&mut channel).expect("first stream");
    assert_eq!(channel.add_scancode(0x1e), PushOutcome::Delivered);
    let waker = noop_waker();
    assert_eq!(stream.poll_next(&mut channel, &waker), StreamPoll::Ready(0x1e));
    assert_eq!(stream.poll_next(&mut channel, &waker), StreamPoll::Pending);
}

#[test]
fn second_initialization_is_rejected() {
    let mut channel = ScancodeChannel::new();
    let _stream = ScancodeStream::new(&mut channel).expect("first stream");
    let second = ScancodeStream::new(&mut channel);
    assert!(matches!(second, Err(ChannelError::AlreadyInitialized)));
    assert_eq!(channel.init_once(), Err(ChannelError::AlreadyInitialized));
}

#[test]
fn producing_before_initialization_is_reported() {
    let mut channel = ScancodeChannel::new();
    assert_eq!(channel.add_scancode(0x10), PushOutcome::Uninitialized);
}

#[test]
fn full_queue_drops_newest_and_keeps_order() {
    let mut channel = ScancodeChannel::new();
    channel.init_once().expect("first initialization");
    for i in 0..SCANCODE_QUEUE_CAPACITY {
        assert_eq!(channel.add_scancode((i % 251) as u8), PushOutcome::Delivered);
    }
    // the queue is full: the newest byte is dropped, without blocking
    assert_eq!(channel.add_scancode(0xff), PushOutcome::Dropped);
    assert_eq!(channel.add_scancode(0xfe), PushOutcome::Dropped);
    // every byte comes back in push order, nothing duplicated, drops absent
    for i in 0..SCANCODE_QUEUE_CAPACITY {
        assert_eq!(channel.pop(), Some((i % 251) as u8));
    }
    assert_eq!(channel.pop(), None);
}

#[test]
fn pop_is_fifo() {
    let mut channel = ScancodeChannel::new();
    channel.init_once().expect("first initialization");
    assert_eq!(channel.pop(), None);
    channel.add_scancode(1);
    channel.add_scancode(2);
    channel.add_scancode(3);
    assert_eq!(channel.pop(), Some(1));
    assert_eq!(channel.pop(), Some(2));
    assert_eq!(channel.pop(), Some(3));
    assert_eq!(channel.pop(), None);
}

#[test]
fn push_after_empty_poll_is_seen_by_the_next_poll() {
    let mut channel = ScancodeChannel::new();
    let mut stream = ScancodeStream::new(&mut channel).expect("first stream");
    let waker = noop_waker();
    // the consumer finds the queue empty and suspends, leaving its waker
    assert_eq!(stream.poll_next(&mut channel, &waker), StreamPoll::Pending);
    // the interrupt-context producer pushes and wakes the registered waker
    assert_eq!(channel.add_scancode(0x2a), PushOutcome::Delivered);
    // the resumed consumer drains the byte
    assert_eq!(stream.poll_next(&mut channel, &waker), StreamPoll::Ready(0x2a));
}
