//! The stream of registry snapshots that a subscriber receives: first the
//! snapshot taken when it subscribed, then each one the registry sends.
use crate::registry::RegistrySnapshot;
use std::sync::mpsc::Receiver;
use std::time::Duration;
use vstd::prelude::*;

verus! {

#[verifier::external_type_specification]
#[verifier::external_body]
#[verifier::reject_recursive_types(T)]
pub struct ExReceiver<T>(Receiver<T>);

/// Why no snapshot arrived in time.
#[derive(Debug, Clone, Copy, PartialEq, Eq, Structural)]
pub enum ReceiveError {
    /// The wait ran out.
    Timeout,
    /// The registry is gone.
    Disconnected,
}

/// Waits for the next snapshot with `Receiver::recv`; none once the
/// registry is gone.  What arrives depends on the registry thread, so
/// nothing is stated of it.
#[verifier::external_body]
fn receive(receiver: &Receiver<RegistrySnapshot>) -> (r: Option<RegistrySnapshot>) {
    receiver.recv().ok()
}

/// Waits up to `timeout` for the next snapshot with
/// `Receiver::recv_timeout`, telling a timeout from a lost registry.
/// What arrives, and whether anything does in time, depends on the
/// registry thread, so nothing is stated of it.
#[verifier::external_body]
fn receive_within(receiver: &Receiver<RegistrySnapshot>, timeout: Duration) -> (r: Result<
    RegistrySnapshot,
    ReceiveError,
>) {
    match receiver.recv_timeout(timeout) {
        Ok(snapshot) => Ok(snapshot),
        Err(std::sync::mpsc::RecvTimeoutError::Timeout) => Err(ReceiveError::Timeout),
        Err(std::sync::mpsc::RecvTimeoutError::Disconnected) => Err(ReceiveError::Disconnected),
    }
}

/// The mapping of `timed_receipt`.
pub open spec fn timed_receipt_spec(outcome: Result<RegistrySnapshot, ReceiveError>) -> Result<
    Option<RegistrySnapshot>,
    ReceiveError,
> {
    match outcome {
        Ok(s) => Ok(Some(s)),
        Err(ReceiveError::Timeout) => Ok(None),
        Err(ReceiveError::Disconnected) => Err(ReceiveError::Disconnected),
    }
}

/// What one timed wait for a snapshot gives a subscriber: the snapshot that
/// arrived, `None` when the wait ran out, and an error only when the
/// registry is gone.
pub fn timed_receipt(outcome: Result<RegistrySnapshot, ReceiveError>) -> (r: Result<
    Option<RegistrySnapshot>,
    ReceiveError,
>)
    ensures
        r == timed_receipt_spec(outcome),
{
    match outcome {
        Ok(snapshot) => Ok(Some(snapshot)),
        Err(ReceiveError::Timeout) => Ok(None),
        Err(ReceiveError::Disconnected) => Err(ReceiveError::Disconnected),
    }
}

/// Live snapshots of the registry.
pub struct RegistryUpdates {
    pub initial: Option<RegistrySnapshot>,
    pub receiver: Receiver<RegistrySnapshot>,
}

impl RegistryUpdates {
    /// A subscription that starts with `initial`.
    pub fn new(initial: RegistrySnapshot, receiver: Receiver<RegistrySnapshot>) -> (r: RegistryUpdates)
        ensures
            r.initial == Some(initial),
    {
        RegistryUpdates { initial: Some(initial), receiver }
    }

    /// The next snapshot: the initial one first, then each that the
    /// registry sends; none once the registry is gone.
    pub fn recv(&mut self) -> (r: Option<RegistrySnapshot>)
        ensures
            old(self).initial is Some ==> r == old(self).initial,
            final(self).initial is None,
    {
        match self.initial.take() {
            Some(snapshot) => Some(snapshot),
            None => receive(&self.receiver),
        }
    }

    /// The next snapshot within `timeout`: the initial one first; after it,
    /// what the timed wait on the registry's channel gives, as
    /// `timed_receipt` maps it (`None` when the wait runs out, an error once
    /// the registry is gone).
    pub fn recv_timeout(&mut self, timeout: Duration) -> (r: Result<Option<RegistrySnapshot>, ReceiveError>)
        ensures
            old(self).initial is Some ==> r == Ok::<Option<RegistrySnapshot>, ReceiveError>(old(self).initial),
            final(self).initial is None,
            r is Err ==> r == Err::<Option<RegistrySnapshot>, ReceiveError>(ReceiveError::Disconnected),
            old(self).initial is None ==> exists|o: Result<RegistrySnapshot, ReceiveError>|
                #[trigger] timed_receipt_spec(o) == r,
    {
        match self.initial.take() {
            Some(snapshot) => Ok(Some(snapshot)),
            None => timed_receipt(receive_within(&self.receiver, timeout)),
        }
    }
}

} // verus!
