//! The hardware capability interface.
//!
//! The driver never touches the serial bus, the data/command and reset lines,
//! or the delay source directly: it goes through [`DisplayInterface`], whose
//! contract keeps a ghost log of every operation issued, in order. The
//! driver's own contracts are stated over that log, so what a drawing call or
//! the bring-up sequence transmits is pinned down exactly.
//!
//! [`RecordingInterface`] is a verified in-memory implementation that records
//! the operations and can be told to start failing, so the abort behaviour of
//! composite operations can be exercised.

use vstd::prelude::*;

verus! {

/// One observable operation issued to the display hardware, as it appears in
/// the ghost event log of a [`DisplayInterface`].
#[verifier::ext_equal]
pub enum BusEvent {
    /// The data/command line was driven low (command phase).
    DcLow,
    /// The data/command line was driven high (data phase).
    DcHigh,
    /// The reset line was driven low.
    RstLow,
    /// The reset line was driven high.
    RstHigh,
    /// A blocking wait of the given number of milliseconds.
    Delay(u8),
    /// One bus write transaction carrying the given bytes.
    Write(Seq<u8>),
}

/// One recorded hardware operation, the executable counterpart of
/// [`BusEvent`].
#[derive(Clone, Debug, PartialEq, Eq)]
pub enum BusRecord {
    DcLow,
    DcHigh,
    RstLow,
    RstHigh,
    Delay(u8),
    Write(Vec<u8>),
}

impl View for BusRecord {
    type V = BusEvent;

    open spec fn view(&self) -> BusEvent {
        match self {
            BusRecord::DcLow => BusEvent::DcLow,
            BusRecord::DcHigh => BusEvent::DcHigh,
            BusRecord::RstLow => BusEvent::RstLow,
            BusRecord::RstHigh => BusEvent::RstHigh,
            BusRecord::Delay(ms) => BusEvent::Delay(*ms),
            BusRecord::Write(bytes) => BusEvent::Write(bytes@),
        }
    }
}

/// Holds when a composite operation that would have appended `full` to the
/// log `pre` was abandoned part way: the log `post` after the call extends
/// `pre` by some prefix of `full`, and by nothing else. The whole of `full`
/// (a completed operation) is allowed as the degenerate case.
pub open spec fn aborts_within(pre: Seq<BusEvent>, post: Seq<BusEvent>, full: Seq<BusEvent>) -> bool {
    exists|n: int| 0 <= n <= full.len() && post == pre + #[trigger] full.subrange(0, n)
}

/// Introduces [`aborts_within`] from an explicit prefix length.
pub proof fn lemma_abort_prefix(pre: Seq<BusEvent>, post: Seq<BusEvent>, full: Seq<BusEvent>, n: int)
    requires
        0 <= n <= full.len(),
        post =~= pre + full.subrange(0, n),
    ensures
        aborts_within(pre, post, full),
{
}

/// A composite operation that had already emitted the first `done` events of
/// `full` and was then abandoned inside its next step aborts within `full` as
/// a whole.
pub proof fn lemma_abort_at(
    pre: Seq<BusEvent>,
    post: Seq<BusEvent>,
    full: Seq<BusEvent>,
    done: int,
    step: Seq<BusEvent>,
)
    requires
        0 <= done,
        done + step.len() <= full.len(),
        step == full.subrange(done, done + step.len() as int),
        aborts_within(pre + full.subrange(0, done), post, step),
    ensures
        aborts_within(pre, post, full),
{
    let n = choose|n: int|
        0 <= n <= step.len() && post == (pre + full.subrange(0, done)) + #[trigger] step.subrange(
            0,
            n,
        );
    assert(post =~= pre + full.subrange(0, done + n));
}

/// Capability interface to the display hardware: a fallible byte-write
/// transport, the two fallible digital output lines (data/command select and
/// reset), and the blocking millisecond delay source.
///
/// `events` is the ghost log of operations issued so far. A fallible
/// operation either appends exactly its own event (on `Ok`) or leaves the log
/// unchanged (on `Err`); nothing else may touch the log. Success is never
/// owed: the hardware decides, and every driver contract states what holds
/// whichever way each operation went.
pub trait DisplayInterface: Sized {
    /// The operations issued to the hardware so far, oldest first. An
    /// implementation outside the verifier's reach may leave the default,
    /// which models no log at all: the driver still runs, and its contracts
    /// then promise nothing about what such hardware saw.
    open spec fn events(&self) -> Seq<BusEvent> {
        Seq::empty()
    }

    /// Writes the given bytes as one bus transaction.
    fn write_bytes(&mut self, data: &[u8]) -> (r: Result<(), ()>)
        ensures
            r is Ok ==> final(self).events() == old(self).events().push(BusEvent::Write(data@)),
            r is Err ==> final(self).events() == old(self).events(),
    ;

    /// Drives the data/command line low (command phase).
    fn dc_low(&mut self) -> (r: Result<(), ()>)
        ensures
            r is Ok ==> final(self).events() == old(self).events().push(BusEvent::DcLow),
            r is Err ==> final(self).events() == old(self).events(),
    ;

    /// Drives the data/command line high (data phase).
    fn dc_high(&mut self) -> (r: Result<(), ()>)
        ensures
            r is Ok ==> final(self).events() == old(self).events().push(BusEvent::DcHigh),
            r is Err ==> final(self).events() == old(self).events(),
    ;

    /// Drives the reset line low.
    fn rst_low(&mut self) -> (r: Result<(), ()>)
        ensures
            r is Ok ==> final(self).events() == old(self).events().push(BusEvent::RstLow),
            r is Err ==> final(self).events() == old(self).events(),
    ;

    /// Drives the reset line high.
    fn rst_high(&mut self) -> (r: Result<(), ()>)
        ensures
            r is Ok ==> final(self).events() == old(self).events().push(BusEvent::RstHigh),
            r is Err ==> final(self).events() == old(self).events(),
    ;

    /// Waits for the given number of milliseconds.
    fn delay_ms(&mut self, ms: u8)
        ensures
            final(self).events() == old(self).events().push(BusEvent::Delay(ms)),
    ;
}

/// Copies a byte slice into a fresh vector.
fn copy_bytes(data: &[u8]) -> (r: Vec<u8>)
    ensures
        r@ == data@,
{
    let mut v: Vec<u8> = Vec::new();
    let mut i: usize = 0;
    while i < data.len()
        invariant
            i <= data@.len(),
            v@ == data@.subrange(0, i as int),
        decreases data@.len() - i,
    {
        v.push(data[i]);
        i += 1;
        proof {
            assert(data@.subrange(0, i as int) =~= data@.subrange(0, i - 1).push(data@[i - 1]));
        }
    }
    proof {
        assert(data@.subrange(0, data@.len() as int) =~= data@);
    }
    v
}

/// An in-memory [`DisplayInterface`] that records every operation, and can be
/// told to start failing once the log has grown to a chosen length, for
/// exercising abort behaviour.
pub struct RecordingInterface {
    /// Every operation issued so far, oldest first.
    pub log: Vec<BusRecord>,
    /// If set, every fallible operation fails once the log holds at least
    /// this many entries.
    pub fail_after: Option<usize>,
}

impl RecordingInterface {
    /// Holds when the next fallible operation will fail.
    pub open spec fn fails_now(self) -> bool {
        match self.fail_after {
            Some(n) => self.log@.len() >= n,
            None => false,
        }
    }

    /// A recorder whose operations all succeed.
    pub fn new() -> (r: Self)
        ensures
            r.log@ == Seq::<BusRecord>::empty(),
            r.fail_after is None,
    {
        RecordingInterface { log: Vec::new(), fail_after: None }
    }

    /// A recorder whose fallible operations fail as soon as the log holds
    /// `n` entries, so a composite operation is cut off after its first `n`
    /// events.
    pub fn failing_after(n: usize) -> (r: Self)
        ensures
            r.log@ == Seq::<BusRecord>::empty(),
            r.fail_after == Some(n),
    {
        RecordingInterface { log: Vec::new(), fail_after: Some(n) }
    }

    fn should_fail(&self) -> (r: bool)
        ensures
            r == self.fails_now(),
    {
        match self.fail_after {
            Some(n) => self.log.len() >= n,
            None => false,
        }
    }
}

impl DisplayInterface for RecordingInterface {
    open spec fn events(&self) -> Seq<BusEvent> {
        self.log@.map_values(|r: BusRecord| r@)
    }

    fn write_bytes(&mut self, data: &[u8]) -> (r: Result<(), ()>) {
        if self.should_fail() {
            Err(())
        } else {
            let bytes = copy_bytes(data);
            self.log.push(BusRecord::Write(bytes));
            proof {
                assert(self.events() =~= old(self).events().push(BusEvent::Write(data@)));
            }
            Ok(())
        }
    }

    fn dc_low(&mut self) -> (r: Result<(), ()>) {
        if self.should_fail() {
            Err(())
        } else {
            self.log.push(BusRecord::DcLow);
            proof {
                assert(self.events() =~= old(self).events().push(BusEvent::DcLow));
            }
            Ok(())
        }
    }

    fn dc_high(&mut self) -> (r: Result<(), ()>) {
        if self.should_fail() {
            Err(())
        } else {
            self.log.push(BusRecord::DcHigh);
            proof {
                assert(self.events() =~= old(self).events().push(BusEvent::DcHigh));
            }
            Ok(())
        }
    }

    fn rst_low(&mut self) -> (r: Result<(), ()>) {
        if self.should_fail() {
            Err(())
        } else {
            self.log.push(BusRecord::RstLow);
            proof {
                assert(self.events() =~= old(self).events().push(BusEvent::RstLow));
            }
            Ok(())
        }
    }

    fn rst_high(&mut self) -> (r: Result<(), ()>) {
        if self.should_fail() {
            Err(())
        } else {
            self.log.push(BusRecord::RstHigh);
            proof {
                assert(self.events() =~= old(self).events().push(BusEvent::RstHigh));
            }
            Ok(())
        }
    }

    fn delay_ms(&mut self, ms: u8) {
        self.log.push(BusRecord::Delay(ms));
        proof {
            assert(self.events() =~= old(self).events().push(BusEvent::Delay(ms)));
        }
    }
}

} // verus!
