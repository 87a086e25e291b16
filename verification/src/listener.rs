//! Stream listener: the control state of the ingestion pipeline and the
//! per-chunk decision of its worker.
//!
//! One listener owns an immutable stream URI and a single shared activation
//! flag. An owner starts and deactivates the listener; the worker checks the
//! flag at every chunk boundary, decodes each transport chunk independently,
//! sends non-empty decodes onward, drops failed ones, and leaves its loop —
//! and only its loop — once the flag is clear (cooperative cancellation).

use vstd::prelude::*;

use crate::errors::{DecodeError, ListenerError};
use crate::samples::{decode_mp3_from_chunk, frames_ok, mono_concat, mp3_frames_of};

verus! {

/// Whether a string parses as a valid URL; the parser decides from the
/// string alone.
pub uninterp spec fn uri_ok(s: Seq<char>) -> bool;

/// Relies on url::Url::parse: whether a string parses as a URL depends on
/// the string alone.
#[verifier::external_body]
fn parse_uri_ok(s: &String) -> (r: bool)
    ensures
        r == uri_ok(s@),
{
    url::Url::parse(s).is_ok()
}

/// Control state of one stream listener: the stream URI, fixed at
/// construction, and the activation flag, the only mutable state shared
/// between the owner and the worker.
pub struct StreamListener {
    uri: String,
    active: bool,
}

impl StreamListener {
    /// The listener's stream URI.
    pub closed spec fn uri_spec(&self) -> Seq<char> {
        self.uri@
    }

    /// The activation flag.
    pub closed spec fn active_spec(&self) -> bool {
        self.active
    }

    /// Creates an inactive listener after validating the URI; a string that
    /// does not parse as a URL is rejected, exactly then.
    pub fn new(uri: String) -> (r: Result<StreamListener, ListenerError>)
        ensures
            match r {
                Ok(l) => uri_ok(uri@) && l.uri_spec() == uri@ && !l.active_spec(),
                Err(e) => e == ListenerError::InvalidUri && !uri_ok(uri@),
            },
    {
        if parse_uri_ok(&uri) {
            Ok(StreamListener { uri, active: false })
        } else {
            Err(ListenerError::InvalidUri)
        }
    }

    /// The stream URI the listener was created with.
    pub fn uri(&self) -> (r: &String)
        ensures
            r@ == self.uri_spec(),
    {
        &self.uri
    }

    /// Point-in-time read of the activation flag.
    pub fn is_active(&self) -> (r: bool)
        ensures
            r == self.active_spec(),
    {
        self.active
    }

    /// Activates the listener so a worker may run. Starting an already
    /// active listener is a conflict — the caller must deactivate first —
    /// and changes nothing.
    pub fn start(&mut self) -> (r: Result<(), ListenerError>)
        ensures
            final(self).uri_spec() == old(self).uri_spec(),
            match r {
                Ok(_) => !old(self).active_spec() && final(self).active_spec(),
                Err(e) => e == ListenerError::Conflict && old(self).active_spec() && *final(self)
                    == *old(self),
            },
    {
        if self.active {
            Err(ListenerError::Conflict)
        } else {
            self.active = true;
            Ok(())
        }
    }

    /// Clears the activation flag; the worker observes it at its next chunk
    /// boundary and terminates its loop.
    pub fn deactivate(&mut self)
        ensures
            !final(self).active_spec(),
            final(self).uri_spec() == old(self).uri_spec(),
    {
        self.active = false;
    }
}

/// What the ingestion worker does with one transport chunk.
pub enum WorkerAction {
    /// The listener was deactivated: the worker leaves its loop; nothing is
    /// sent and no later chunk is processed.
    Stop,
    /// The chunk decoded to a non-empty sample buffer: send it to the
    /// consumers.
    Send(Vec<i16>),
    /// The chunk failed to decode or decoded to nothing: drop it and keep
    /// listening; one bad chunk never ends the worker.
    Skip,
}

/// Decides what the worker does with one decode outcome: a deactivated
/// listener stops, exactly then; an active one sends a non-empty decode
/// unchanged and drops a failed or empty one.
pub fn worker_action(active: bool, decoded: Result<Vec<i16>, DecodeError>) -> (action:
    WorkerAction)
    ensures
        !active <==> action is Stop,
        active && (decoded matches Ok(samples) && samples@.len() > 0) ==> action
            == WorkerAction::Send(decoded->Ok_0),
        active && (decoded matches Ok(samples) && samples@.len() == 0) ==> action is Skip,
        active && decoded is Err ==> action is Skip,
{
    if !active {
        return WorkerAction::Stop;
    }
    match decoded {
        Ok(samples) => {
            if samples.len() > 0 {
                WorkerAction::Send(samples)
            } else {
                WorkerAction::Skip
            }
        },
        Err(_) => WorkerAction::Skip,
    }
}

/// Decides one worker iteration. An inactive listener stops before any
/// decoding — stopping is exactly the deactivated case. An active one
/// decodes the chunk independently of every other chunk and owes a send
/// exactly when the chunk decodes to something: a successful non-empty
/// decode is sent, an empty or failed one is dropped.
pub fn process_chunk(active: bool, chunk: &Vec<u8>) -> (action: WorkerAction)
    ensures
        !active <==> action is Stop,
        action matches WorkerAction::Send(samples) ==> {
            &&& frames_ok(mp3_frames_of(chunk@))
            &&& samples@.map_values(|x: i16| x as int) == mono_concat(mp3_frames_of(chunk@))
            &&& samples@.len() > 0
        },
        active && frames_ok(mp3_frames_of(chunk@)) && mono_concat(mp3_frames_of(chunk@)).len()
            > 0 ==> action is Send,
        active && frames_ok(mp3_frames_of(chunk@)) && mono_concat(mp3_frames_of(chunk@)).len()
            == 0 ==> action is Skip,
        active && !frames_ok(mp3_frames_of(chunk@)) ==> action is Skip,
{
    if !active {
        return WorkerAction::Stop;
    }
    worker_action(true, decode_mp3_from_chunk(chunk))
}

/// Law (listener lifecycle): once a listener is deactivated, every outcome
/// the worker step can produce for a chunk is a stop — no further samples
/// are sent on the channel, whatever the chunk holds.
pub proof fn lemma_no_send_after_deactivate(
    l: StreamListener,
    chunk: Vec<u8>,
    action: WorkerAction,
)
    requires
        !l.active_spec(),
        call_ensures(process_chunk, (l.active_spec(), &chunk), action),
    ensures
        action is Stop,
{
}

} // verus!
