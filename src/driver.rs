//! The decisions of one encode or decode run.  The caller owns the codec
//! session and the three streams; it performs the action that each call
//! here returns and reports the outcome back.  All output the codec
//! produces is copied in, and handed to the sink in order, in as many
//! partial writes as the sink needs.
use vstd::prelude::*;

verus! {

/// One outcome of a codec step.
pub enum Signal {
    /// The codec wants the next input chunk.
    Input,
    /// The codec produced these bytes.
    Output(Vec<u8>),
    /// The codec wants a block of the reference stream.
    GetSrcBlk,
    /// Informational: the header was parsed.
    GotHeader,
    /// Informational: a window starts.
    WinStart,
    /// Informational: a window is finished.
    WinFinish,
    /// A checksum refers to a window that is gone.
    TooFarBack,
    /// The codec failed internally.
    Internal,
    /// The encoded stream is invalid.
    Invalid,
    /// The input is invalid.
    InvalidInput,
    /// A secondary compressor is missing.
    NoSecond,
    /// The stream uses a feature the codec lacks.
    Unimplemented,
}

impl Signal {
    /// The signals after which the run cannot go on.
    pub open spec fn is_terminal(&self) -> bool {
        match self {
            Signal::TooFarBack | Signal::Internal | Signal::Invalid | Signal::InvalidInput
            | Signal::NoSecond | Signal::Unimplemented => true,
            _ => false,
        }
    }
}

/// What the caller must do next.
#[derive(PartialEq, Eq, Structural, Clone, Copy, Debug)]
pub enum Action {
    /// Read the next input chunk and report its length to `input_read`.
    ReadInput,
    /// Step the codec and report its signal to `signal`.
    Step,
    /// Write the unwritten output to the sink and report to `written`.
    Write,
    /// Tell the codec its output was consumed, then step it.
    ConsumeOutput,
    /// Serve the requested reference block, then step the codec.
    ServeBlock,
    /// Flush the sink and report to `sink_flushed`.
    Flush,
    /// Give up: the run has failed.
    Fail,
}

/// Where the run stands.
#[derive(PartialEq, Eq, Structural, Clone, Copy, Debug)]
pub enum Phase {
    /// Waiting for the next input chunk.
    Reading,
    /// Waiting for the next codec signal.
    Stepping,
    /// Output is pending for the sink.
    Writing,
    /// All input is done; the sink is being flushed.
    Finishing,
    /// The run succeeded.
    Done,
    /// The run failed.
    Failed,
}

/// Phase and action after a codec signal, given whether the end of the
/// input has been reported to the codec.
pub open spec fn after_signal(flushed: bool, sig: Signal) -> (Phase, Action) {
    match sig {
        Signal::Input => if flushed {
            (Phase::Finishing, Action::Flush)
        } else {
            (Phase::Reading, Action::ReadInput)
        },
        Signal::Output(data) => if data@.len() == 0 {
            (Phase::Stepping, Action::ConsumeOutput)
        } else {
            (Phase::Writing, Action::Write)
        },
        Signal::GetSrcBlk => (Phase::Stepping, Action::ServeBlock),
        Signal::GotHeader | Signal::WinStart | Signal::WinFinish => (Phase::Stepping, Action::Step),
        _ => (Phase::Failed, Action::Fail),
    }
}

/// The state of one run.
pub struct Driver {
    phase: Phase,
    flushed: bool,
    pending: Vec<u8>,
    pos: usize,
    failed_on: Option<Signal>,
    emitted: Ghost<Seq<u8>>,
    delivered: Ghost<Seq<u8>>,
}

impl Driver {
    pub closed spec fn phase_spec(&self) -> Phase {
        self.phase
    }

    /// Whether the end of the input was reported to the codec.
    pub closed spec fn flushed_spec(&self) -> bool {
        self.flushed
    }

    /// Every byte the codec produced so far, in order.
    pub closed spec fn emitted(&self) -> Seq<u8> {
        self.emitted@
    }

    /// Every byte the sink accepted so far, in order.
    pub closed spec fn delivered(&self) -> Seq<u8> {
        self.delivered@
    }

    /// The produced bytes the sink has not accepted yet.
    pub closed spec fn unwritten(&self) -> Seq<u8> {
        if self.phase == Phase::Writing {
            self.pending@.subrange(self.pos as int, self.pending@.len() as int)
        } else {
            Seq::empty()
        }
    }

    pub closed spec fn failed_on_spec(&self) -> Option<Signal> {
        self.failed_on
    }

    pub closed spec fn wf(&self) -> bool {
        &&& self.pos <= self.pending@.len()
        &&& self.phase != Phase::Failed ==> self.delivered@ + self.unwritten() == self.emitted@
        &&& self.delivered@.len() <= self.emitted@.len()
        &&& self.emitted@.subrange(0, self.delivered@.len() as int) == self.delivered@
        &&& self.phase == Phase::Writing ==> self.pos < self.pending@.len()
        &&& self.phase == Phase::Reading ==> !self.flushed
        &&& (self.phase == Phase::Finishing || self.phase == Phase::Done) ==> self.flushed
    }

    /// A run that has not read anything yet.
    pub fn new() -> (r: Driver)
        ensures
            r.wf(),
            r.phase_spec() == Phase::Reading,
            !r.flushed_spec(),
            r.emitted() == Seq::<u8>::empty(),
            r.delivered() == Seq::<u8>::empty(),
            r.failed_on_spec().is_none(),
    {
        let r = Driver {
            phase: Phase::Reading,
            flushed: false,
            pending: Vec::new(),
            pos: 0,
            failed_on: None,
            emitted: Ghost(Seq::empty()),
            delivered: Ghost(Seq::empty()),
        };
        proof {
            assert(r.emitted@.subrange(0, 0) =~= r.delivered@);
        }
        r
    }

    /// Takes the length of the input chunk just read.  A chunk of zero
    /// bytes ends the input: the result says to mark the codec's input as
    /// final, which happens at most once in a run.
    pub fn input_read(&mut self, n: usize) -> (flush: bool)
        requires
            old(self).wf(),
            old(self).phase_spec() == Phase::Reading,
        ensures
            final(self).wf(),
            flush == (n == 0),
            final(self).flushed_spec() == flush,
            final(self).phase_spec() == Phase::Stepping,
            final(self).emitted() == old(self).emitted(),
            final(self).delivered() == old(self).delivered(),
            final(self).failed_on_spec() == old(self).failed_on_spec(),
    {
        self.flushed = n == 0;
        self.phase = Phase::Stepping;
        self.flushed
    }

    /// Takes one codec signal and says what to do about it: fetch input,
    /// write produced bytes, serve a reference block, step again, finish,
    /// or fail on a terminal signal, which is kept for diagnostics.
    pub fn signal(&mut self, sig: Signal) -> (r: Action)
        requires
            old(self).wf(),
            old(self).phase_spec() == Phase::Stepping,
        ensures
            final(self).wf(),
            (final(self).phase_spec(), r) == after_signal(old(self).flushed_spec(), sig),
            final(self).flushed_spec() == old(self).flushed_spec(),
            final(self).emitted() == old(self).emitted() + match sig {
                Signal::Output(data) => data@,
                _ => Seq::<u8>::empty(),
            },
            final(self).delivered() == old(self).delivered(),
            final(self).unwritten() == match sig {
                Signal::Output(data) => data@,
                _ => Seq::<u8>::empty(),
            },
            final(self).failed_on_spec() == if sig.is_terminal() {
                Some(sig)
            } else {
                old(self).failed_on_spec()
            },
    {
        let ghost before = self.emitted@;
        let ghost delivered = self.delivered@;
        let r = match sig {
            Signal::Input => {
                if self.flushed {
                    self.phase = Phase::Finishing;
                    Action::Flush
                } else {
                    self.phase = Phase::Reading;
                    Action::ReadInput
                }
            },
            Signal::Output(data) => {
                proof {
                    self.emitted@ = self.emitted@ + data@;
                }
                if data.len() == 0 {
                    proof {
                        assert(self.emitted@ =~= self.delivered@);
                    }
                    Action::ConsumeOutput
                } else {
                    self.pending = data;
                    self.pos = 0;
                    self.phase = Phase::Writing;
                    proof {
                        assert(self.pending@.subrange(0, self.pending@.len() as int)
                            =~= self.pending@);
                    }
                    Action::Write
                }
            },
            Signal::GetSrcBlk => Action::ServeBlock,
            Signal::GotHeader | Signal::WinStart | Signal::WinFinish => Action::Step,
            _ => {
                self.phase = Phase::Failed;
                self.failed_on = Some(sig);
                Action::Fail
            },
        };
        proof {
            assert(before.subrange(0, delivered.len() as int) == delivered);
            assert(self.emitted@.subrange(0, delivered.len() as int) =~= before.subrange(
                0,
                delivered.len() as int,
            ));
        }
        r
    }

    /// The output pending for the sink; its first `written_len` bytes were
    /// accepted already.
    pub fn pending(&self) -> (r: &[u8])
        requires
            self.wf(),
        ensures
            self.phase_spec() == Phase::Writing ==> r@.subrange(
                self.written_len_spec() as int,
                r@.len() as int,
            ) == self.unwritten(),
    {
        self.pending.as_slice()
    }

    pub closed spec fn written_len_spec(&self) -> nat {
        self.pos as nat
    }

    /// How much of `pending` the sink has accepted.
    pub fn written_len(&self) -> (r: usize)
        ensures
            r == self.written_len_spec(),
    {
        self.pos
    }

    /// Takes the count one write call reported.  The accepted bytes are the
    /// next ones of the unwritten output.  A write that accepts nothing, or
    /// claims more than was offered, fails the run rather than loop forever.
    pub fn written(&mut self, n: usize) -> (r: Action)
        requires
            old(self).wf(),
            old(self).phase_spec() == Phase::Writing,
        ensures
            final(self).wf(),
            final(self).emitted() == old(self).emitted(),
            final(self).flushed_spec() == old(self).flushed_spec(),
            final(self).failed_on_spec() == old(self).failed_on_spec(),
            ({
                let u = old(self).unwritten();
                n == 0 || n > u.len() ==> {
                    &&& r == Action::Fail
                    &&& final(self).phase_spec() == Phase::Failed
                    &&& final(self).delivered() == old(self).delivered()
                }
            }),
            ({
                let u = old(self).unwritten();
                0 < n <= u.len() ==> {
                    &&& final(self).delivered() == old(self).delivered() + u.subrange(0, n as int)
                    &&& n < u.len() ==> r == Action::Write
                    &&& n < u.len() ==> final(self).phase_spec() == Phase::Writing
                    &&& n < u.len() ==> final(self).unwritten() == u.subrange(n as int, u.len() as int)
                    &&& n == u.len() ==> r == Action::ConsumeOutput
                    &&& n == u.len() ==> final(self).phase_spec() == Phase::Stepping
                }
            }),
    {
        let remaining = self.pending.len() - self.pos;
        if n == 0 || n > remaining {
            self.phase = Phase::Failed;
            proof {
                assert(self.emitted@.subrange(0, self.delivered@.len() as int) =~= self.delivered@);
            }
            return Action::Fail;
        }
        let ghost old_unwritten = self.unwritten();
        let ghost old_pos = self.pos as int;
        proof {
            self.delivered@ = self.delivered@ + old_unwritten.subrange(0, n as int);
        }
        self.pos = self.pos + n;
        if n == remaining {
            self.phase = Phase::Stepping;
            proof {
                assert(old_unwritten.subrange(0, n as int) =~= old_unwritten);
                assert(self.delivered@ =~= self.emitted@);
                assert(self.emitted@.subrange(0, self.delivered@.len() as int) =~= self.delivered@);
            }
            Action::ConsumeOutput
        } else {
            proof {
                assert(self.unwritten() =~= old_unwritten.subrange(n as int, old_unwritten.len() as int));
                assert(old_unwritten =~= old_unwritten.subrange(0, n as int) + old_unwritten.subrange(
                    n as int,
                    old_unwritten.len() as int,
                ));
                assert(self.delivered@ + self.unwritten() =~= self.emitted@);
                assert(self.emitted@.subrange(0, self.delivered@.len() as int) =~= self.delivered@);
            }
            Action::Write
        }
    }

    /// A read, write, flush or reference fetch failed: the run fails.
    pub fn io_failed(&mut self)
        requires
            old(self).wf(),
            old(self).phase_spec() != Phase::Done,
        ensures
            final(self).wf(),
            final(self).phase_spec() == Phase::Failed,
            final(self).emitted() == old(self).emitted(),
            final(self).delivered() == old(self).delivered(),
            final(self).failed_on_spec() == old(self).failed_on_spec(),
    {
        self.phase = Phase::Failed;
        proof {
            if old(self).phase != Phase::Failed {
                assert(self.emitted@.subrange(0, self.delivered@.len() as int) =~= self.delivered@);
            }
        }
    }

    /// The sink was flushed after the last input: the run succeeded.
    pub fn sink_flushed(&mut self)
        requires
            old(self).wf(),
            old(self).phase_spec() == Phase::Finishing,
        ensures
            final(self).wf(),
            final(self).phase_spec() == Phase::Done,
            final(self).emitted() == old(self).emitted(),
            final(self).delivered() == old(self).delivered(),
            final(self).failed_on_spec() == old(self).failed_on_spec(),
    {
        self.phase = Phase::Done;
    }

    pub fn phase(&self) -> (r: Phase)
        ensures
            r == self.phase_spec(),
    {
        self.phase
    }

    /// The terminal signal that ended the run, if one did.
    pub fn failed_on(&self) -> (r: &Option<Signal>)
        ensures
            *r == self.failed_on_spec(),
    {
        &self.failed_on
    }
}

/// Whatever the sink accepted is the start of what the codec produced, in
/// the same order, however the writes were split.
pub proof fn lemma_delivered_prefix(d: &Driver)
    requires
        d.wf(),
    ensures
        d.delivered().len() <= d.emitted().len(),
        d.emitted().subrange(0, d.delivered().len() as int) == d.delivered(),
{
}

/// A run ends in success only after the end of the input reached the codec
/// and the sink accepted every produced byte.
pub proof fn lemma_done_is_complete(d: &Driver)
    requires
        d.wf(),
        d.phase_spec() == Phase::Done,
    ensures
        d.flushed_spec(),
        d.delivered() == d.emitted(),
{
    assert(d.delivered@ + d.unwritten() == d.emitted@);
    assert(d.delivered@ + d.unwritten() =~= d.delivered@);
}

} // verus!
