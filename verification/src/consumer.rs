//! The converter worker's decisions. The worker drains the conversion queue
//! with a bounded wait so it keeps observing the shutdown flag; this module
//! decides, for each wait's outcome, what the worker does next. The external
//! transcoding call itself, and the failure it may report, stay with the
//! caller: one failed conversion never stops the loop, so no decision here
//! depends on it.

use vstd::prelude::*;

use crate::classify::wav_name;
use crate::names::with_extension;

verus! {

/// The bytes of the conversion target extension, `flac`.
pub open spec fn flac_bytes() -> Seq<u8> {
    seq![102u8, 108u8, 97u8, 99u8]
}

/// The path the conversion of a `wav` file produces: the same path with the
/// extension replaced by `flac`.
pub open spec fn conversion_target(p: Seq<u8>) -> Seq<u8> {
    with_extension(p, flac_bytes())
}

/// What one bounded wait on the conversion queue ended with.
pub enum ConsumerEvent {
    /// A path arrived.
    Received(Vec<u8>),
    /// The wait timed out; nothing arrived, which is no error.
    TimedOut,
    /// The queue is closed for good: no producer remains.
    Disconnected,
}

/// What the worker does next.
pub enum ConsumerAction {
    /// Convert the first path into the second.
    Convert(Vec<u8>, Vec<u8>),
    /// Do nothing and wait again.
    Ignore,
    /// End the worker's loop.
    Stop,
}

/// Decides one iteration of the converter worker: stop on shutdown or on a
/// closed queue; convert a received `wav` file to its `flac` target; discard
/// anything else silently.
pub fn consumer_step(shutdown: bool, event: ConsumerEvent) -> (r: ConsumerAction)
    ensures
        shutdown ==> r is Stop,
        !shutdown && event is Disconnected ==> r is Stop,
        !shutdown && event is TimedOut ==> r is Ignore,
        !shutdown && event is Received && wav_name(event->Received_0@) ==> r is Convert
            && r->Convert_0@ == event->Received_0@ && r->Convert_1@ == conversion_target(
            event->Received_0@,
        ),
        !shutdown && event is Received && !wav_name(event->Received_0@) ==> r is Ignore,
{
    if shutdown {
        return ConsumerAction::Stop;
    }
    match event {
        ConsumerEvent::Received(path) => {
            match crate::names::split_name(path.as_slice()) {
                Some((_, ext)) => {
                    if crate::classify::is_wav_ext_exec(&ext) {
                        let mut flac: Vec<u8> = Vec::new();
                        flac.push(102);
                        flac.push(108);
                        flac.push(97);
                        flac.push(99);
                        proof {
                            assert(flac@ =~= flac_bytes());
                        }
                        let target = crate::names::with_extension_exec(path.as_slice(), &flac);
                        ConsumerAction::Convert(path, target)
                    } else {
                        ConsumerAction::Ignore
                    }
                },
                None => ConsumerAction::Ignore,
            }
        },
        ConsumerEvent::TimedOut => ConsumerAction::Ignore,
        ConsumerEvent::Disconnected => ConsumerAction::Stop,
    }
}

} // verus!
