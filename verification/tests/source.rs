use metricpipe::source::{admitted, permits, plan_send, Batch, Sending};
use metricpipe::MetricEvent;
use std::sync::Arc;
use tokio::sync::Semaphore;

#[test]
fn a_batch_takes_one_permit_an_event_within_the_capacity() {
    assert_eq!(permits(0, 10), 1);
    assert_eq!(permits(1, 10), 1);
    assert_eq!(permits(7, 10), 7);
    assert_eq!(permits(10, 10), 10);
    assert_eq!(permits(11, 10), 10);
    assert_eq!(permits(usize::MAX, usize::MAX), u32::MAX);
    assert_eq!(permits(5, usize::MAX), 5);
}

#[test]
fn nothing_is_sent_for_no_events() {
    assert!(matches!(plan_send(Vec::new(), 3), Sending::Nothing));
    match plan_send(vec![MetricEvent::default(); 5], 3) {
        Sending::Reserve(permits, batch) => {
            assert_eq!(permits, 3);
            assert_eq!(batch.events.len(), 5);
            assert!(batch.ack.is_none() && batch.permit.is_none());
        }
        Sending::Nothing => panic!("there are events"),
    }
}

#[test]
fn the_ack_reaches_who_waits() {
    let (batch, mut waiting) = Batch::with_ack(vec![MetricEvent::default()]);
    assert!(waiting.try_recv().is_err());
    batch.ack.unwrap().send(()).unwrap();
    assert!(waiting.try_recv().is_ok());

    let (batch, mut waiting) = Batch::with_ack(Vec::new());
    drop(batch);
    assert!(waiting.try_recv().is_err());
}

#[test]
fn a_batch_gives_its_permits_back_when_it_goes() {
    let limiter = Arc::new(Semaphore::new(4));
    let permit = Arc::clone(&limiter).try_acquire_many_owned(3).unwrap();
    let batch = admitted(Batch::new(vec![MetricEvent::default(); 3]), permit);
    assert_eq!(limiter.available_permits(), 1);
    assert_eq!(batch.events.len(), 3);
    drop(batch);
    assert_eq!(limiter.available_permits(), 4);
}
