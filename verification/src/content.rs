//! Content search: the matches that the search workers stream in, the rules
//! a worker applies to each file and each hit, and the draining of the
//! stream into the list the explorer shows.

use crate::edit::{at_boundary, substring, utf8};
use crate::highlight::{trim_newlines, trim_trailing_newlines};
use crossbeam_channel::{Receiver, Sender, TryRecvError};
use std::sync::atomic::AtomicBool;
use std::sync::Arc;
use vstd::prelude::*;

verus! {

#[verifier::external_type_specification]
#[verifier::external_body]
#[verifier::reject_recursive_types(T)]
pub struct ExReceiver<T>(Receiver<T>);

#[verifier::external_type_specification]
#[verifier::external_body]
#[verifier::reject_recursive_types(T)]
pub struct ExSender<T>(Sender<T>);

/// Files larger than this many bytes are not searched.
pub const MAX_FILE_BYTES: u64 = 4194304;

/// A hit's line is cut to this many bytes.
pub const SNIPPET_BYTES: usize = 240;

/// At most this many hits are reported per file.
pub const HITS_PER_FILE: u32 = 5;

/// Room in the stream between the workers and the explorer.
pub const CHANNEL_CAPACITY: usize = 1024;

/// One line of a file that holds the query.
#[derive(Clone, Debug)]
pub struct ContentMatch {
    pub path: String,
    /// The line's number, from 1.
    pub line: u64,
    /// The line, cut to [`SNIPPET_BYTES`].
    pub text: String,
}

impl View for ContentMatch {
    type V = (Seq<char>, u64, Seq<char>);

    open spec fn view(&self) -> (Seq<char>, u64, Seq<char>) {
        (self.path@, self.line, self.text@)
    }
}

/// What one look at the stream found.
pub enum Received {
    Match(ContentMatch),
    Empty,
    Disconnected,
}

/// `crossbeam_channel::bounded`, which panics on a capacity too large for
/// its index arithmetic; capacities up to 2^28 are far from that.
#[verifier::external_body]
fn bounded_channel(cap: usize) -> (r: (Sender<ContentMatch>, Receiver<ContentMatch>))
    requires
        cap <= 0x1000_0000,
{
    crossbeam_channel::bounded(cap)
}

/// `Receiver::try_recv`, its two errors told apart. What comes depends on
/// the workers, so nothing is claimed of it.
#[verifier::external_body]
fn try_receive(rx: &Receiver<ContentMatch>) -> (r: Received) {
    match rx.try_recv() {
        Ok(m) => Received::Match(m),
        Err(TryRecvError::Empty) => Received::Empty,
        Err(TryRecvError::Disconnected) => Received::Disconnected,
    }
}

/// A running content search: the matches received so far.
pub struct ContentSearch {
    /// The stream the workers send their matches on.
    pub rx: Receiver<ContentMatch>,
    /// The flag that stops the workers.
    pub cancel: Arc<AtomicBool>,
    pub matches: Vec<ContentMatch>,
    /// The workers have finished and the stream is empty.
    pub done: bool,
    /// How many matches were received.
    pub scanned: u64,
}

impl View for ContentSearch {
    type V = (Seq<ContentMatch>, bool, u64);

    /// The matches received, whether the search is done, how many were
    /// received.
    open spec fn view(&self) -> (Seq<ContentMatch>, bool, u64) {
        (self.matches@, self.done, self.scanned)
    }
}

/// One more match counted, the count saturating.
pub open spec fn count_one(n: u64) -> u64 {
    if n < u64::MAX {
        (n + 1) as u64
    } else {
        n
    }
}

impl ContentSearch {
    /// The flag that, once set, stops the workers.
    pub open spec fn stop_flag(&self) -> Arc<AtomicBool> {
        self.cancel
    }

    /// A search with nothing received yet, the sending end of its stream
    /// for the workers, and `cancel` as the flag that stops them.
    pub fn open(cancel: Arc<AtomicBool>) -> (r: (ContentSearch, Sender<ContentMatch>))
        ensures
            r.0@ == (Seq::<ContentMatch>::empty(), false, 0u64),
            r.0.stop_flag() == cancel,
    {
        let (tx, rx) = bounded_channel(CHANNEL_CAPACITY);
        (ContentSearch { rx, cancel, matches: Vec::new(), done: false, scanned: 0 }, tx)
    }

    /// Moves what has arrived into `matches`, in arrival order, until the
    /// stream is empty; marks the search done when the workers are gone.
    /// Returns whether anything was added.
    pub fn drain(&mut self) -> (changed: bool)
        ensures
            old(self)@.0.len() <= final(self)@.0.len(),
            final(self)@.0.take(old(self)@.0.len() as int) == old(self)@.0,
            changed == (final(self)@.0.len() > old(self)@.0.len()),
            final(self)@.2 == (if old(self)@.2 + (final(self)@.0.len() - old(self)@.0.len())
                <= u64::MAX {
                old(self)@.2 + (final(self)@.0.len() - old(self)@.0.len())
            } else {
                u64::MAX as int
            }),
            old(self)@.1 ==> final(self)@.1,
            final(self).stop_flag() == old(self).stop_flag(),
    {
        let ghost start = self.matches@;
        let mut changed = false;
        loop
            invariant
                start.len() <= self.matches@.len(),
                self.matches@.take(start.len() as int) == start,
                changed == (self.matches@.len() > start.len()),
                self.scanned == (if old(self).scanned + (self.matches@.len() - start.len())
                    <= u64::MAX {
                    old(self).scanned + (self.matches@.len() - start.len())
                } else {
                    u64::MAX as int
                }),
                start == old(self).matches@,
                old(self).done ==> self.done,
                self.cancel == old(self).cancel,
            decreases usize::MAX - self.matches@.len(),
        {
            let got = try_receive(&self.rx);
            let ghost before = self.matches@;
            let again = self.absorb(got);
            if !again {
                break ;
            }
            let _len = self.matches.len();
            assert(self.matches@.take(start.len() as int) =~= before.take(start.len() as int));
            changed = true;
        }
        changed
    }

    /// Takes in one look at the stream: a match is appended and counted
    /// (the count saturating), an empty stream changes nothing, a closed
    /// stream marks the search done. Returns whether to look again, that is
    /// whether a match came.
    pub fn absorb(&mut self, got: Received) -> (again: bool)
        ensures
            final(self).stop_flag() == old(self).stop_flag(),
            match got {
                Received::Match(m) => {
                    &&& again
                    &&& final(self)@ == (old(self)@.0.push(m), old(self)@.1, count_one(old(self)@.2))
                },
                Received::Empty => !again && final(self)@ == old(self)@,
                Received::Disconnected => !again && final(self)@ == (
                    old(self)@.0,
                    true,
                    old(self)@.2,
                ),
            },
    {
        match got {
            Received::Match(m) => {
                self.matches.push(m);
                if self.scanned < u64::MAX {
                    self.scanned = self.scanned + 1;
                }
                true
            },
            Received::Empty => false,
            Received::Disconnected => {
                self.done = true;
                false
            },
        }
    }

    /// Asks the workers to stop.
    pub fn cancel(&self) {
        self.cancel.store(true, std::sync::atomic::Ordering::Relaxed);
    }
}

/// A worker searches an entry only when it is a file not known to be
/// larger than [`MAX_FILE_BYTES`] (`size` is `None` when it could not be
/// read).
pub fn should_search(is_file: bool, size: Option<u64>) -> (r: bool)
    ensures
        r == (is_file && !(size matches Some(n) && n > MAX_FILE_BYTES)),
{
    if !is_file {
        return false;
    }
    match size {
        Some(n) => n <= MAX_FILE_BYTES,
        None => true,
    }
}

/// The bytes of a hit's line as shown: without trailing line breaks, cut
/// to [`SNIPPET_BYTES`].
pub open spec fn snippet_bytes(line: Seq<char>) -> Seq<u8> {
    let t = utf8(trim_newlines(line));
    if t.len() > SNIPPET_BYTES {
        t.take(SNIPPET_BYTES as int)
    } else {
        t
    }
}

/// The text shown for a hit (see [`snippet_bytes`]). Cutting inside a
/// character panics, so that input is left out.
pub fn snippet(line: &str) -> (r: String)
    requires
        utf8(trim_newlines(line@)).len() > SNIPPET_BYTES ==> at_boundary(
            utf8(trim_newlines(line@)),
            SNIPPET_BYTES as int,
        ),
    ensures
        utf8(r@) == snippet_bytes(line@),
{
    let owned = line.to_string();
    let (t, _) = trim_trailing_newlines(&owned);
    let n = t.as_str().as_bytes().len();
    if n > SNIPPET_BYTES {
        substring(&t, 0, SNIPPET_BYTES)
    } else {
        proof {
            assert(utf8(t@).subrange(0, n as int) =~= utf8(t@));
        }
        let r = substring(&t, 0, n);
        r
    }
}

/// A hit as the workers send it.
pub fn content_match(path: String, line_number: u64, line: &str) -> (r: ContentMatch)
    requires
        utf8(trim_newlines(line@)).len() > SNIPPET_BYTES ==> at_boundary(
            utf8(trim_newlines(line@)),
            SNIPPET_BYTES as int,
        ),
    ensures
        r.path@ == path@,
        r.line == line_number,
        utf8(r.text@) == snippet_bytes(line@),
{
    ContentMatch { path, line: line_number, text: snippet(line) }
}

/// What a worker does after reporting a hit.
#[derive(PartialEq, Eq, Structural, Clone, Copy, Debug)]
pub enum HitStep {
    /// Look for the next hit in this file.
    NextHit,
    /// Go on to the next file.
    NextFile,
    /// Stop the whole search.
    Stop,
}

/// After a hit: `local` hits were reported for this file before it,
/// `earlier` over the whole search. The search stops once more than `max`
/// came before; otherwise a file is left after [`HITS_PER_FILE`] hits.
/// Returns the file's new count and the step.
pub fn after_hit(local: u32, earlier: usize, max: usize) -> (r: (u32, HitStep))
    requires
        local < u32::MAX,
    ensures
        r.0 == local + 1,
        r.1 == (if earlier > max {
            HitStep::Stop
        } else if local + 1 < HITS_PER_FILE {
            HitStep::NextHit
        } else {
            HitStep::NextFile
        }),
{
    let local = local + 1;
    if earlier > max {
        (local, HitStep::Stop)
    } else if local < HITS_PER_FILE {
        (local, HitStep::NextHit)
    } else {
        (local, HitStep::NextFile)
    }
}

} // verus!
