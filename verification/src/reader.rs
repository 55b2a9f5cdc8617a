//! Decision logic of the adaptive batching line reader. The reader drains
//! whatever is immediately buffered on its first call (bulk mode), then
//! switches — once, irreversibly — to blocking single-line reads, and fires a
//! one-shot end-of-stream notice the first time it observes that the source
//! is closed, never a second time. The blocking and timed byte reads
//! themselves are I/O and live with the caller; every decision about their
//! results is made here.

use crate::NEWLINE;
use vstd::prelude::*;

verus! {

#[verifier::external_type_specification]
#[verifier::external_body]
#[verifier::reject_recursive_types(T)]
pub struct ExOneshotSender<T>(tokio::sync::oneshot::Sender<T>);

/// Relies on tokio's `oneshot::Sender::send`: consumes the sender, so a
/// second send of the same notice cannot even be written; whether a receiver
/// was still listening is deliberately ignored.
#[verifier::external_body]
fn send_eof_notice(tx: tokio::sync::oneshot::Sender<()>) {
    let _ = tx.send(());
}

/// What `String::from_utf8_lossy` decodes the given bytes to; a function of
/// the bytes alone.
pub uninterp spec fn lossy_of(bytes: Seq<u8>) -> Seq<char>;

/// Relies on `String::from_utf8_lossy`: a lenient decode that replaces
/// invalid sequences and never fails; valid UTF-8 comes back unchanged.
#[verifier::external_body]
fn decode_lossy(bytes: &[u8]) -> (r: String)
    ensures
        r@ == lossy_of(bytes@),
        bytes@.len() == 0 ==> r@.len() == 0,
        vstd::utf8::valid_utf8(bytes@) ==> vstd::utf8::encode_utf8(r@) == bytes@,
{
    String::from_utf8_lossy(bytes).into_owned()
}

/// `s` with one trailing record delimiter removed, if present.
pub open spec fn stripped(s: Seq<u8>) -> Seq<u8> {
    if s.len() > 0 && s.last() == NEWLINE {
        s.drop_last()
    } else {
        s
    }
}

/// The abstract session state: which read mode the next call uses, and
/// whether the end-of-stream notice is still unfired.
#[verifier::ext_equal]
pub ghost struct SessionModel {
    pub bulk: bool,
    pub eof_pending: bool,
}

/// One observed call: whether it was the bulk call, and how many items it
/// yielded (lines of the batch, or bytes of the single read). Zero items
/// means the source was observed closed.
#[verifier::ext_equal]
pub ghost struct SessionEvent {
    pub bulk_call: bool,
    pub items: int,
}

/// The source was observed closed by this call.
pub open spec fn observes_closed(e: SessionEvent) -> bool {
    e.items == 0
}

/// The state after one call: the bulk call latches single mode, and an
/// observed close consumes the pending notice.
pub open spec fn session_step(m: SessionModel, e: SessionEvent) -> SessionModel {
    SessionModel {
        bulk: m.bulk && !e.bulk_call,
        eof_pending: m.eof_pending && !observes_closed(e),
    }
}

/// Whether the call described by `e` fires the end-of-stream notice.
pub open spec fn fires(m: SessionModel, e: SessionEvent) -> bool {
    m.eof_pending && observes_closed(e)
}

/// The state after a sequence of calls.
pub open spec fn session_run(m: SessionModel, evs: Seq<SessionEvent>) -> SessionModel
    decreases evs.len(),
{
    if evs.len() == 0 {
        m
    } else {
        session_run(session_step(m, evs[0]), evs.drop_first())
    }
}

/// How many calls of the sequence fire the notice.
pub open spec fn fire_count(m: SessionModel, evs: Seq<SessionEvent>) -> int
    decreases evs.len(),
{
    if evs.len() == 0 {
        0
    } else {
        (if fires(m, evs[0]) {
            1int
        } else {
            0int
        }) + fire_count(session_step(m, evs[0]), evs.drop_first())
    }
}

/// The notice stays pending exactly until a close is observed.
pub proof fn lemma_pending_until_closed(m: SessionModel, evs: Seq<SessionEvent>)
    ensures
        session_run(m, evs).eof_pending == (m.eof_pending && forall|i: int|
            0 <= i < evs.len() ==> !observes_closed(evs[i])),
    decreases evs.len(),
{
    if evs.len() > 0 {
        let m1 = session_step(m, evs[0]);
        lemma_pending_until_closed(m1, evs.drop_first());
        if session_run(m, evs).eof_pending {
            assert forall|i: int| 0 <= i < evs.len() implies !observes_closed(evs[i]) by {
                if i > 0 {
                    assert(evs.drop_first()[i - 1] == evs[i]);
                }
            }
        }
        if m.eof_pending && forall|i: int| 0 <= i < evs.len() ==> !observes_closed(evs[i]) {
            assert forall|i: int|
                0 <= i < evs.drop_first().len() implies !observes_closed(
                evs.drop_first()[i],
            ) by {
                assert(evs.drop_first()[i] == evs[i + 1]);
                assert(!observes_closed(evs[i + 1]));
            }
            assert(m1.eof_pending);
        }
    }
}

/// End of stream fires exactly once: across any sequence of calls, the notice
/// fires at most one time, and exactly one time just when the notice was
/// initially pending and some call observed the source closed.
pub proof fn lemma_eof_fires_exactly_once(m: SessionModel, evs: Seq<SessionEvent>)
    ensures
        0 <= fire_count(m, evs) <= 1,
        fire_count(m, evs) == 1 <==> (m.eof_pending && exists|i: int|
            0 <= i < evs.len() && observes_closed(evs[i])),
    decreases evs.len(),
{
    if evs.len() > 0 {
        let m1 = session_step(m, evs[0]);
        lemma_eof_fires_exactly_once(m1, evs.drop_first());
        assert(forall|i: int|
            0 <= i < evs.drop_first().len() ==> evs.drop_first()[i] == evs[i + 1]);
        if fires(m, evs[0]) {
            assert(!m1.eof_pending);
            assert(fire_count(m1, evs.drop_first()) == 0);
            assert(observes_closed(evs[0]));
        } else {
            if fire_count(m1, evs.drop_first()) == 1 {
                let i = choose|i: int|
                    0 <= i < evs.drop_first().len() && observes_closed(evs.drop_first()[i]);
                assert(observes_closed(evs[i + 1]));
            }
            if m.eof_pending && exists|i: int| 0 <= i < evs.len() && observes_closed(evs[i]) {
                let i = choose|i: int| 0 <= i < evs.len() && observes_closed(evs[i]);
                assert(!observes_closed(evs[0]));
                assert(m1.eof_pending);
                assert(observes_closed(evs.drop_first()[i - 1]));
            }
        }
    }
}

/// The session state of one reader: the one-way mode latch and the one-shot
/// end-of-stream notice, held until the first observed close.
pub struct ReaderSession {
    mode_is_single: bool,
    reached_eof_tx: Option<tokio::sync::oneshot::Sender<()>>,
}

impl ReaderSession {
    /// The abstract state this session is in.
    pub closed spec fn model(&self) -> SessionModel {
        SessionModel { bulk: !self.mode_is_single, eof_pending: self.reached_eof_tx is Some }
    }

    /// A fresh session: in bulk mode, holding the caller's notice if any.
    pub fn new(reached_eof_tx: Option<tokio::sync::oneshot::Sender<()>>) -> (s: ReaderSession)
        ensures
            s.model().bulk,
            s.model().eof_pending == reached_eof_tx is Some,
    {
        ReaderSession { mode_is_single: false, reached_eof_tx }
    }

    /// Whether the next call must drain in bulk (true only before the first
    /// call completes).
    pub fn is_bulk_mode(&self) -> (r: bool)
        ensures
            r == self.model().bulk,
    {
        !self.mode_is_single
    }

    /// Fires the end-of-stream notice if it is still pending, and never
    /// again: the sender is consumed by the send.
    fn send_eof_signal(&mut self)
        ensures
            !final(self).model().eof_pending,
            final(self).model().bulk == old(self).model().bulk,
    {
        let mut taken: Option<tokio::sync::oneshot::Sender<()>> = None;
        core::mem::swap(&mut self.reached_eof_tx, &mut taken);
        match taken {
            Some(tx) => send_eof_notice(tx),
            None => {},
        }
    }

    /// Ends the one bulk call: latches single mode whatever happened, and
    /// treats an empty drain as immediate end of stream.
    pub fn finish_bulk(&mut self, lines: Vec<String>) -> (r: Option<Vec<String>>)
        ensures
            final(self).model() == session_step(
                old(self).model(),
                SessionEvent { bulk_call: true, items: lines@.len() as int },
            ),
            lines@.len() == 0 ==> r is None,
            lines@.len() > 0 ==> r == Some(lines),
    {
        self.mode_is_single = true;
        if lines.len() == 0 {
            self.send_eof_signal();
            None
        } else {
            Some(lines)
        }
    }

    /// Digests one blocking single-mode read: an empty read is end of stream
    /// (notice fired if still pending), anything else is one line, stripped
    /// of its delimiter and decoded leniently.
    pub fn process_single_read(&mut self, buffer: Vec<u8>) -> (r: Option<Vec<String>>)
        ensures
            final(self).model() == session_step(
                old(self).model(),
                SessionEvent { bulk_call: false, items: buffer@.len() as int },
            ),
            buffer@.len() == 0 ==> r is None,
            buffer@.len() > 0 ==> match r {
                Some(ls) => ls@.len() == 1 && ls@[0]@ == lossy_of(stripped(buffer@)),
                None => false,
            },
    {
        if buffer.len() == 0 {
            self.send_eof_signal();
            None
        } else {
            let b = strip_newline_character(buffer);
            let line = decode_lossy(b.as_slice());
            let mut batch: Vec<String> = Vec::new();
            batch.push(line);
            Some(batch)
        }
    }
}

/// Removes the single trailing record delimiter, if one is present.
pub fn strip_newline_character(buffer: Vec<u8>) -> (r: Vec<u8>)
    ensures
        r@ == stripped(buffer@),
{
    let mut buf = buffer;
    if buf.len() > 0 {
        if buf[buf.len() - 1] == NEWLINE {
            buf.pop();
        }
    }
    buf
}

/// Digests one timed bulk-mode read attempt: `None` stands for a timeout or
/// a failed read, an empty buffer for end of stream; only a non-empty buffer
/// yields a line, stripped of its delimiter and decoded leniently.
pub fn line_from_timed_read(read: Option<Vec<u8>>) -> (r: Option<String>)
    ensures
        match read {
            Some(buf) => {
                if buf@.len() > 0 {
                    match r {
                        Some(line) => line@ == lossy_of(stripped(buf@)),
                        None => false,
                    }
                } else {
                    r is None
                }
            },
            None => r is None,
        },
{
    match read {
        Some(buf) => {
            if buf.len() > 0 {
                let b = strip_newline_character(buf);
                Some(decode_lossy(b.as_slice()))
            } else {
                None
            }
        },
        None => None,
    }
}

} // verus!
