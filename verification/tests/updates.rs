use openmeters::registry::RegistrySnapshot;
use openmeters::updates::{timed_receipt, ReceiveError, RegistryUpdates};
use std::sync::mpsc;
use std::time::Duration;

fn snapshot(serial: u64) -> RegistrySnapshot {
    RegistrySnapshot {
        serial,
        ..Default::default()
    }
}

#[test]
fn subscribers_see_the_initial_snapshot_first() {
    let (tx, rx) = mpsc::channel();
    let mut updates = RegistryUpdates::new(snapshot(1), rx);
    tx.send(snapshot(2)).unwrap();
    assert_eq!(updates.recv().map(|s| s.serial), Some(1));
    assert_eq!(updates.recv().map(|s| s.serial), Some(2));
    assert!(matches!(
        updates.recv_timeout(Duration::from_millis(1)),
        Ok(None)
    ));
    drop(tx);
    assert!(matches!(
        updates.recv_timeout(Duration::from_millis(1)),
        Err(ReceiveError::Disconnected)
    ));
    assert!(updates.recv().is_none());
}

#[test]
fn timed_receives_also_start_with_the_initial_snapshot() {
    let (tx, rx) = mpsc::channel();
    let mut updates = RegistryUpdates::new(snapshot(5), rx);
    assert_eq!(
        updates
            .recv_timeout(Duration::from_millis(1))
            .ok()
            .flatten()
            .map(|s| s.serial),
        Some(5)
    );
    tx.send(snapshot(6)).unwrap();
    assert_eq!(
        updates
            .recv_timeout(Duration::from_millis(100))
            .ok()
            .flatten()
            .map(|s| s.serial),
        Some(6)
    );
}

#[test]
fn a_timed_wait_maps_timeouts_to_nothing_and_loss_to_an_error() {
    assert_eq!(timed_receipt(Ok(snapshot(4))).map(|s| s.map(|s| s.serial)), Ok(Some(4)));
    assert!(matches!(timed_receipt(Err(ReceiveError::Timeout)), Ok(None)));
    assert!(matches!(
        timed_receipt(Err(ReceiveError::Disconnected)),
        Err(ReceiveError::Disconnected)
    ));
}
