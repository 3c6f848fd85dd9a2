//! Cooperative cancellation: a signal that batch operations ask between
//! items.
use vstd::prelude::*;
use crate::error::Error;

verus! {

/// Something that can tell whether the work under way has been cancelled.
/// The answer comes from outside, from a flag that another thread sets or
/// from the system, so nothing is known of it in advance.
pub trait Interruptee {
    /// Whether the signal can fire at all. A signal says no only where it is
    /// proved never to fire; every other signal keeps this default, and the
    /// clause on `was_interrupted` then says nothing of it.
    open spec fn can_fire(&self) -> bool {
        true
    }

    fn was_interrupted(&self) -> (fired: bool)
        ensures
            fired ==> self.can_fire(),
    ;
}

/// A signal that never fires.
#[derive(Debug, Clone, Copy, PartialEq, Eq)]
pub struct NeverInterrupts;

impl Interruptee for NeverInterrupts {
    open spec fn can_fire(&self) -> bool {
        false
    }

    fn was_interrupted(&self) -> (fired: bool) {
        false
    }
}

/// What a checkpoint makes of the signal's answer.
pub fn checkpoint(fired: bool) -> (result: Result<(), Error>)
    ensures
        result == if fired {
            Err::<(), Error>(Error::Interrupted)
        } else {
            Ok::<(), Error>(())
        },
{
    if fired {
        Err(Error::Interrupted)
    } else {
        Ok(())
    }
}

/// Asks the signal, and fails with `Error::Interrupted` if it has fired.
pub fn err_if_interrupted<S: Interruptee + ?Sized>(signal: &S) -> (result: Result<(), Error>)
    ensures
        result is Err ==> result == Err::<(), Error>(Error::Interrupted),
        result is Err ==> signal.can_fire(),
{
    checkpoint(signal.was_interrupted())
}

} // verus!
