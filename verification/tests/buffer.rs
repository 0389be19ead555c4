use kled::buffer::FlowOnBackpressureBuffer;
use kled::signal::BufferStrategy;
use kled::signal::FlowError;
use kled::subscriber::Subscriber;
use kled::subscriber::SubscriberStatus;
use kled::subscriber::TestSubscriber;

#[test]
fn basic() {
    let test_subscriber: TestSubscriber<i32, ()> = TestSubscriber::new();
    let mut buffer = FlowOnBackpressureBuffer::new(test_subscriber, BufferStrategy::Error, 5);
    buffer.on_subscribe();
    buffer.on_next(0);
    buffer.on_next(1);
    buffer.request(1);
    buffer.on_next(2);
    buffer.subscriber.request_on_next(1);
    buffer.on_next(3);
    buffer.request(1);
    buffer.on_next(4);
    buffer.on_completed();
    let test_subscriber = buffer.into_subscriber();
    assert_eq!(test_subscriber.status(), SubscriberStatus::Completed);
    assert_eq!(test_subscriber.items(), vec![0, 1, 2]);
}

#[test]
fn upstream_error() {
    let test_subscriber: TestSubscriber<i32, ()> = TestSubscriber::new();
    let mut buffer = FlowOnBackpressureBuffer::new(test_subscriber, BufferStrategy::Error, 1);
    buffer.on_subscribe();
    buffer.on_next(0);
    buffer.on_error(FlowError::Upstream(()));
    let test_subscriber = buffer.into_subscriber();
    assert_eq!(test_subscriber.status(), SubscriberStatus::Error);
    assert_eq!(test_subscriber.items(), Vec::<i32>::new());
}

#[test]
fn error_strategy() {
    let test_subscriber: TestSubscriber<i32, ()> = TestSubscriber::new();
    let mut buffer = FlowOnBackpressureBuffer::new(test_subscriber, BufferStrategy::Error, 1);
    buffer.on_subscribe();
    buffer.on_next(0);
    buffer.on_next(1);
    buffer.request(1);
    buffer.on_completed();
    let test_subscriber = buffer.into_subscriber();
    assert_eq!(test_subscriber.status(), SubscriberStatus::Error);
    assert_eq!(test_subscriber.items(), Vec::<i32>::new());
}

#[test]
fn drop_oldest_strategy() {
    let test_subscriber: TestSubscriber<i32, ()> = TestSubscriber::new();
    let mut buffer = FlowOnBackpressureBuffer::new(test_subscriber, BufferStrategy::DropOldest, 1);
    buffer.on_subscribe();
    buffer.on_next(0);
    buffer.on_next(1);
    buffer.request(1);
    buffer.on_completed();
    let test_subscriber = buffer.into_subscriber();
    assert_eq!(test_subscriber.status(), SubscriberStatus::Completed);
    assert_eq!(test_subscriber.items(), vec![1]);
}

#[test]
fn drop_latest_strategy() {
    let test_subscriber: TestSubscriber<i32, ()> = TestSubscriber::new();
    let mut buffer = FlowOnBackpressureBuffer::new(test_subscriber, BufferStrategy::DropLatest, 1);
    buffer.on_subscribe();
    buffer.on_next(0);
    buffer.on_next(1);
    buffer.request(1);
    buffer.on_completed();
    let test_subscriber = buffer.into_subscriber();
    assert_eq!(test_subscriber.status(), SubscriberStatus::Completed);
    assert_eq!(test_subscriber.items(), vec![0]);
}

#[test]
fn drop_oldest_keeps_last_capacity_many() {
    let test_subscriber: TestSubscriber<i32, ()> = TestSubscriber::new();
    let mut buffer = FlowOnBackpressureBuffer::new(test_subscriber, BufferStrategy::DropOldest, 2);
    buffer.on_subscribe();
    for v in 0..5 {
        buffer.on_next(v);
    }
    buffer.request(2);
    buffer.on_completed();
    let test_subscriber = buffer.into_subscriber();
    assert_eq!(test_subscriber.items(), vec![3, 4]);
    assert_eq!(test_subscriber.status(), SubscriberStatus::Completed);
}

#[test]
fn error_fires_just_past_capacity() {
    let test_subscriber: TestSubscriber<i32, ()> = TestSubscriber::new();
    let mut buffer = FlowOnBackpressureBuffer::new(test_subscriber, BufferStrategy::Error, 3);
    buffer.on_subscribe();
    buffer.on_next(0);
    buffer.on_next(1);
    buffer.on_next(2);
    assert_eq!(buffer.subscriber.status(), SubscriberStatus::Subscribed);
    buffer.on_next(3);
    let test_subscriber = buffer.into_subscriber();
    assert_eq!(test_subscriber.status(), SubscriberStatus::Error);
    assert_eq!(test_subscriber.error, Some(FlowError::MissingBackpressure));
    assert_eq!(test_subscriber.items(), Vec::<i32>::new());
}

#[test]
fn delivered_items_never_exceed_credit() {
    let test_subscriber: TestSubscriber<i32, ()> = TestSubscriber::new();
    let mut buffer = FlowOnBackpressureBuffer::new(test_subscriber, BufferStrategy::DropLatest, 10);
    buffer.on_subscribe();
    buffer.request(2);
    for v in 0..6 {
        buffer.on_next(v);
    }
    assert_eq!(buffer.subscriber.items(), vec![0, 1]);
    buffer.request(1);
    assert_eq!(buffer.subscriber.items(), vec![0, 1, 2]);
    buffer.on_completed();
    let test_subscriber = buffer.into_subscriber();
    assert_eq!(test_subscriber.status(), SubscriberStatus::Completed);
}

#[test]
fn request_saturates_at_the_top() {
    let test_subscriber: TestSubscriber<i32, ()> = TestSubscriber::new();
    let mut buffer = FlowOnBackpressureBuffer::new(test_subscriber, BufferStrategy::DropLatest, 2);
    buffer.on_subscribe();
    buffer.request(usize::MAX);
    buffer.request(1);
    buffer.on_next(5);
    buffer.on_completed();
    let test_subscriber = buffer.into_subscriber();
    assert_eq!(test_subscriber.items(), vec![5]);
    assert_eq!(test_subscriber.status(), SubscriberStatus::Completed);
}

#[test]
fn cancel_gives_up_the_token() {
    let test_subscriber: TestSubscriber<i32, ()> = TestSubscriber::new();
    let mut buffer = FlowOnBackpressureBuffer::new(test_subscriber, BufferStrategy::DropLatest, 2);
    buffer.on_subscribe();
    buffer.on_next(1);
    assert!(buffer.subscriber.is_subscribed());
    buffer.subscriber.cancel();
    assert!(!buffer.subscriber.is_subscribed());
    assert_eq!(buffer.subscriber.status(), SubscriberStatus::Cancelled);
    // granting credit to a cancelled downstream drains nothing
    buffer.request(2);
    let test_subscriber = buffer.into_subscriber();
    assert_eq!(test_subscriber.items(), Vec::<i32>::new());
}

#[test]
fn leftover_credit_is_kept() {
    let test_subscriber: TestSubscriber<i32, ()> = TestSubscriber::new();
    let mut buffer = FlowOnBackpressureBuffer::new(test_subscriber, BufferStrategy::DropLatest, 2);
    buffer.on_subscribe();
    buffer.on_next(9);
    buffer.request(3);
    assert_eq!(buffer.subscriber.items(), vec![9]);
    // credit minus items emitted stays outstanding
    assert_eq!(buffer.requested, 2);
    buffer.on_next(10);
    assert_eq!(buffer.subscriber.items(), vec![9, 10]);
    assert_eq!(buffer.requested, 1);
    buffer.on_completed();
    let test_subscriber = buffer.into_subscriber();
    assert_eq!(test_subscriber.status(), SubscriberStatus::Completed);
}

#[test]
fn request_before_subscribe_delivers_nothing() {
    let test_subscriber: TestSubscriber<i32, ()> = TestSubscriber::new();
    let mut buffer = FlowOnBackpressureBuffer::new(test_subscriber, BufferStrategy::Error, 2);
    buffer.request(3);
    assert_eq!(buffer.subscriber.items(), Vec::<i32>::new());
    buffer.on_subscribe();
    buffer.on_next(7);
    let test_subscriber = buffer.into_subscriber();
    assert_eq!(test_subscriber.items(), vec![7]);
}
