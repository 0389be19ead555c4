use kled::observable::IntoIterObservable;
use kled::observable::ObservableSource;
use kled::observer::Observer;
use kled::observer::ObserverStatus;
use kled::observer::TestObserver;
use kled::subject::PublishSubject;

#[test]
fn simple() {
    let mut subject: PublishSubject<TestObserver<i32, ()>, i32, ()> = PublishSubject::new();

    let test_observer1: TestObserver<i32, ()> = TestObserver::new();
    subject.subscribe(test_observer1);

    let subject = IntoIterObservable::new(vec![0, 1, 2, 3]).actual_subscribe(subject);

    let mut subject = subject;
    let test_observer2: TestObserver<i32, ()> = TestObserver::new();
    subject.subscribe(test_observer2);

    let mut emitters = subject.into_emitters();
    let test_observer2 = emitters.remove(1).into_observer();
    let test_observer1 = emitters.remove(0).into_observer();
    assert_eq!(test_observer1.status(), ObserverStatus::Completed);
    assert_eq!(test_observer1.items(), vec![0, 1, 2, 3]);
    assert_eq!(test_observer2.status(), ObserverStatus::Subscribed);
    assert_eq!(test_observer2.items(), Vec::<i32>::new());
}

#[test]
fn interleaved() {
    let mut subject: PublishSubject<TestObserver<i32, ()>, i32, ()> = PublishSubject::new();
    subject.on_subscribe();

    let test_observer1: TestObserver<i32, ()> = TestObserver::new();
    subject.subscribe(test_observer1);

    subject.on_next(0);

    let test_observer2: TestObserver<i32, ()> = TestObserver::new();
    subject.subscribe(test_observer2);

    subject.on_next(1);
    subject.on_next(2);
    subject.on_next(3);
    subject.on_completed();

    let mut emitters = subject.into_emitters();
    let test_observer2 = emitters.remove(1).into_observer();
    let test_observer1 = emitters.remove(0).into_observer();
    assert_eq!(test_observer1.status(), ObserverStatus::Completed);
    assert_eq!(test_observer1.items(), vec![0, 1, 2, 3]);
    assert_eq!(test_observer2.status(), ObserverStatus::Completed);
    assert_eq!(test_observer2.items(), vec![1, 2, 3]);
}

#[test]
fn error() {
    let mut subject: PublishSubject<TestObserver<(), i32>, (), i32> = PublishSubject::new();
    subject.on_subscribe();

    let test_observer1: TestObserver<(), i32> = TestObserver::new();
    subject.subscribe(test_observer1);

    subject.on_error(0);

    let test_observer2: TestObserver<(), i32> = TestObserver::new();
    subject.subscribe(test_observer2);

    let mut emitters = subject.into_emitters();
    let test_observer2 = emitters.remove(1).into_observer();
    let test_observer1 = emitters.remove(0).into_observer();
    assert_eq!(test_observer1.status(), ObserverStatus::Error);
    assert_eq!(test_observer1.error(), Some(0));
    assert_eq!(test_observer2.status(), ObserverStatus::Subscribed);
    assert_eq!(test_observer2.error(), None);
}

#[test]
fn cancelled_observer_sees_no_more_items() {
    let mut subject: PublishSubject<TestObserver<i32, ()>, i32, ()> = PublishSubject::new();
    subject.on_subscribe();
    subject.subscribe(TestObserver::new());
    subject.subscribe(TestObserver::new());
    subject.on_next(0);
    assert!(!subject.all_cancelled());
    subject.emitters[1].observer.cancel();
    assert!(!subject.emitters[1].observer.is_subscribed());
    subject.on_next(1);
    subject.on_next(2);
    subject.on_completed();
    let mut emitters = subject.into_emitters();
    let second = emitters.remove(1).into_observer();
    let first = emitters.remove(0).into_observer();
    assert_eq!(first.items(), vec![0, 1, 2]);
    assert_eq!(first.status(), ObserverStatus::Completed);
    assert!(first.is_subscribed());
    assert_eq!(second.items(), vec![0]);
    assert_eq!(second.status(), ObserverStatus::Cancelled);
}

#[test]
fn all_cancelled_folds_over_every_emitter() {
    let mut subject: PublishSubject<TestObserver<i32, ()>, i32, ()> = PublishSubject::new();
    // the conjunction over an empty list is true
    assert!(subject.all_cancelled());
    subject.on_subscribe();
    subject.subscribe(TestObserver::new());
    subject.subscribe(TestObserver::new());
    subject.on_next(5);
    assert!(!subject.all_cancelled());
    subject.emitters[0].observer.cancel();
    assert!(!subject.all_cancelled());
    subject.emitters[1].observer.cancel();
    assert!(subject.all_cancelled());
}
