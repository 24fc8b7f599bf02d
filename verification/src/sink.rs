//! The optional sink for change records: the sending half of a standard
//! channel.

use vstd::prelude::*;
use std::sync::mpsc::Sender;
use crate::change::Change;

verus! {

/// `std::sync::mpsc::Sender`, opaque.
#[verifier::external_type_specification]
#[verifier::external_body]
#[verifier::reject_recursive_types(T)]
pub struct ExSender<T>(Sender<T>);

/// `Sender::send`: hands one record to the channel and says whether the
/// channel took it. It does not once the receiving half is gone, which
/// nothing on this side can foresee, so nothing is claimed of the answer.
#[verifier::external_body]
pub(crate) fn offer(sink: &Sender<Change>, change: Change) -> (taken: bool) {
    sink.send(change).is_ok()
}

/// Hands the records to the sink in order, up to the first that the sink
/// does not take, and returns how many it took. Without a sink the records
/// are dropped.
pub fn send_all(sink: Option<&Sender<Change>>, changes: &Vec<Change>) -> (sent: usize)
    ensures
        sent <= changes@.len(),
        sink is None ==> sent == 0,
{
    match sink {
        None => 0,
        Some(sender) => {
            let mut i: usize = 0;
            while i < changes.len()
                invariant
                    i <= changes.len(),
                    sink is Some,
                decreases changes.len() - i,
            {
                match after_answer(i, offer(sender, changes[i])) {
                    Some(next) => {
                        i = next;
                    },
                    None => {
                        return i;
                    },
                }
            }
            i
        },
    }
}

/// What a delivery does once the sink has answered for the record at
/// position `at`: where the sink took the record it goes on with the next
/// one, and where it did not the delivery ends, with `at` records sent.
pub fn after_answer(at: usize, taken: bool) -> (next: Option<usize>)
    requires
        at < usize::MAX,
    ensures
        next == (if taken {
            Some((at + 1) as usize)
        } else {
            None
        }),
{
    if taken {
        Some(at + 1)
    } else {
        None
    }
}

} // verus!
