use kled::cancellable::BoolCancellable;
use kled::cancellable::Cancellable;
use kled::cancellable::LazyCancellable;
use kled::emitter::FlowEmitter;
use kled::emitter::MissingEmitter;
use kled::flow::IntoFlow;
use kled::flow::create;
use kled::observable::IntoIterObservable;
use kled::into::IntoSharedObservable;
use kled::observable::IntoObservable;
use kled::observable::ObservableSource;
use kled::observer::Observer;
use kled::observer::ObserverStatus;
use kled::observer::TestObserver;
use kled::operators::map::MapObserver;
use kled::operators::map::MapSubscriber;
use kled::operators::materialize::Dematerialize;
use kled::operators::materialize::Materialize;
use kled::operators::scan::Scan;
use kled::scheduler::ObservableSubscribeOn;
use kled::scheduler::ObserveOn;
use kled::signal::FlowError;
use kled::signal::Signal;
use kled::subscriber::Subscriber;
use kled::subscriber::SubscriberStatus;
use kled::subscriber::TestSubscriber;

#[test]
fn local_scan() {
    let test_subscriber: TestSubscriber<i32, ()> = TestSubscriber::new();
    let scan = Scan::new(test_subscriber, 0, |a: i32, b: i32| a + b);
    let scan = vec![0, 1, 2, 3].into_flow().subscribe(scan);
    let test_subscriber = scan.into_subscriber();
    assert_eq!(test_subscriber.status(), SubscriberStatus::Completed);
    assert_eq!(test_subscriber.items(), vec![0, 0, 1, 3, 6]);
}

#[test]
fn iterable_into_observable() {
    let vec = vec![0, 1, 2, 3];
    let observer: TestObserver<i32, ()> = TestObserver::new();
    let observer = vec.into_observable().actual_subscribe(observer);
    let mut sum = 0;
    for v in observer.items() {
        sum += v;
    }
    assert_eq!(sum, 6);
}

#[test]
fn empty_iterable_completes() {
    let observer: TestObserver<i32, ()> = TestObserver::new();
    let observer = IntoIterObservable::new(Vec::new()).actual_subscribe(observer);
    assert_eq!(observer.status(), ObserverStatus::Completed);
    assert_eq!(observer.items(), Vec::<i32>::new());
}

#[test]
fn map_then_scan_pipeline() {
    let test_subscriber: TestSubscriber<i32, ()> = TestSubscriber::new();
    let scan = Scan::new(test_subscriber, 0, |a: i32, b: i32| a + b);
    let chain = MapSubscriber::new(scan, |x: i32| x + 1);
    let chain = vec![0, 1, 2, 3].into_flow().subscribe(chain);
    let test_subscriber = chain.into_subscriber().into_subscriber();
    assert_eq!(test_subscriber.status(), SubscriberStatus::Completed);
    assert_eq!(test_subscriber.items(), vec![0, 1, 3, 6, 10]);
}

#[test]
fn map_fusion_equivalence() {
    let inner: TestObserver<i32, ()> = TestObserver::new();
    let second = MapObserver::new(inner, |x: i32| x * 2);
    let first = MapObserver::new(second, |x: i32| x + 1);
    let first = IntoIterObservable::new(vec![1, 2, 3]).actual_subscribe(first);
    let two_maps = first.into_observer().into_observer();

    let observer: TestObserver<i32, ()> = TestObserver::new();
    let fused = MapObserver::new(observer, |x: i32| (x + 1) * 2);
    let fused = IntoIterObservable::new(vec![1, 2, 3]).actual_subscribe(fused);
    let one_map = fused.into_observer();

    assert_eq!(two_maps.items(), one_map.items());
    assert_eq!(two_maps.status(), one_map.status());
    assert_eq!(one_map.items(), vec![4, 6, 8]);
}

#[test]
fn scan_emits_seed_first() {
    let test_subscriber: TestSubscriber<i32, ()> = TestSubscriber::new();
    let scan = Scan::new(test_subscriber, 10, |a: i32, b: i32| a * b);
    let scan = vec![2, 3].into_flow().subscribe(scan);
    let test_subscriber = scan.into_subscriber();
    assert_eq!(test_subscriber.items(), vec![10, 20, 60]);
    assert_eq!(test_subscriber.status(), SubscriberStatus::Completed);
}

#[test]
fn materialize_dematerialize_round_trip() {
    let recorder: TestSubscriber<Signal<i32, FlowError<i32>>, i32> = TestSubscriber::new();
    let mut mat = Materialize::new(recorder);
    mat.on_subscribe();
    mat.on_next(1);
    mat.on_next(2);
    mat.on_completed();
    let recorder = mat.into_subscriber();
    assert_eq!(recorder.status(), SubscriberStatus::Completed);

    let observer: TestObserver<i32, FlowError<i32>> = TestObserver::new();
    let mut demat = Dematerialize::new(observer);
    demat.on_subscribe();
    for signal in recorder.items() {
        demat.on_next(signal);
    }
    demat.on_completed();
    let observer = demat.into_observer();
    assert_eq!(observer.status(), ObserverStatus::Completed);
    assert_eq!(observer.items(), vec![1, 2]);
}

#[test]
fn materialize_dematerialize_restores_error() {
    let recorder: TestSubscriber<Signal<i32, FlowError<i32>>, i32> = TestSubscriber::new();
    let mut mat = Materialize::new(recorder);
    mat.on_subscribe();
    mat.on_next(7);
    mat.on_error(FlowError::Upstream(3));
    let recorder = mat.into_subscriber();
    // materialize suppresses the error: its downstream never terminates
    assert_eq!(recorder.status(), SubscriberStatus::Subscribed);

    let observer: TestObserver<i32, FlowError<i32>> = TestObserver::new();
    let mut demat = Dematerialize::new(observer);
    demat.on_subscribe();
    for signal in recorder.items() {
        demat.on_next(signal);
    }
    let observer = demat.into_observer();
    assert_eq!(observer.status(), ObserverStatus::Error);
    assert_eq!(observer.error(), Some(FlowError::Upstream(3)));
    assert_eq!(observer.items(), vec![7]);
}

#[test]
fn observe_on_preserves_order() {
    let observer: TestObserver<i32, ()> = TestObserver::new();
    let observe_on = ObserveOn::new(observer);
    let mut observe_on = IntoIterObservable::new(vec![3, 1, 2]).actual_subscribe(observe_on);
    // everything is scheduled, nothing has been delivered yet
    assert_eq!(observe_on.observer.status(), ObserverStatus::Unsubscribed);
    observe_on.run_pending();
    let observer = observe_on.into_observer();
    assert_eq!(observer.status(), ObserverStatus::Completed);
    assert_eq!(observer.items(), vec![3, 1, 2]);
}

#[test]
fn subscribe_on() {
    let test_observer: TestObserver<i32, ()> = TestObserver::new();
    let pending = ObservableSubscribeOn::new(vec![0, 1, 2, 3].into_observable())
        .actual_subscribe(test_observer);
    let test_observer = pending.run();
    assert_eq!(test_observer.status(), ObserverStatus::Completed);
    assert_eq!(test_observer.items(), vec![0, 1, 2, 3]);
}

#[test]
fn subscribe_on_shared() {
    let test_observer: TestObserver<i32, ()> = TestObserver::new();
    let shared = vec![0, 1, 2, 3].into_shared_observable();
    let pending = ObservableSubscribeOn::new(shared.actual).actual_subscribe(test_observer);
    let test_observer = pending.run();
    assert_eq!(test_observer.status(), ObserverStatus::Completed);
    assert_eq!(test_observer.items(), vec![0, 1, 2, 3]);
}

#[test]
fn subscribe_on_cancel_before_run() {
    let test_observer: TestObserver<i32, ()> = TestObserver::new();
    let mut pending = ObservableSubscribeOn::new(IntoIterObservable::new(vec![0, 1, 2]))
        .actual_subscribe(test_observer);
    pending.cancel();
    let test_observer = pending.run();
    assert_eq!(test_observer.status(), ObserverStatus::Unsubscribed);
    assert_eq!(test_observer.items(), Vec::<i32>::new());
}

#[test]
fn lazy_cancellable_latches_early_cancel() {
    let mut lazy = LazyCancellable::new();
    lazy.cancel();
    lazy.set_cancellable(BoolCancellable::new());
    assert!(lazy.is_cancelled());
    assert!(matches!(lazy.upstream, Some(u) if u.flag));
}

#[test]
fn lazy_cancellable_forwards_late_cancel() {
    let mut lazy = LazyCancellable::new();
    lazy.set_cancellable(BoolCancellable::new());
    assert!(!lazy.is_cancelled());
    lazy.cancel();
    assert!(lazy.is_cancelled());
    assert!(matches!(lazy.upstream, Some(u) if u.flag));
}

#[test]
fn create_flow_drives_the_emitter() {
    let test_subscriber: TestSubscriber<i32, i32> = TestSubscriber::new();
    let flow = create(|mut em: MissingEmitter<TestSubscriber<i32, i32>, i32, i32>| {
        assert_eq!(em.requested(), usize::MAX);
        em.on_next(1);
        em.on_next(2);
        em.on_completed();
        em
    });
    let test_subscriber = flow.actual.actual_subscribe(test_subscriber);
    assert_eq!(test_subscriber.status(), SubscriberStatus::Completed);
    assert_eq!(test_subscriber.items(), vec![1, 2]);
}

#[test]
fn create_flow_wraps_upstream_error() {
    let test_subscriber: TestSubscriber<i32, i32> = TestSubscriber::new();
    let flow = create(|mut em: MissingEmitter<TestSubscriber<i32, i32>, i32, i32>| {
        em.on_next(1);
        em.on_error(9);
        em.on_next(5);
        em
    });
    let test_subscriber = flow.actual.actual_subscribe(test_subscriber);
    assert_eq!(test_subscriber.status(), SubscriberStatus::Error);
    assert_eq!(test_subscriber.error, Some(FlowError::Upstream(9)));
    assert_eq!(test_subscriber.items(), vec![1]);
}
