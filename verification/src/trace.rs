//! The Kanata trace encoder: its abstract model and its executable form.

use vstd::prelude::*;
use vstd::utf8::encode_utf8;
use crate::error::{lists_in_order, Error, Result};
use crate::id::{level_text, Id, Lane, Level};
use crate::sanitizer::{has_forbidden, Sanitizer};
use crate::sink::{decimal, TextSink};
use crate::validator::Validator;

verus! {

/// Compile-time configuration of a `Trace`.
pub trait Config {
    /// `true`: the trace tracks the lifecycle of every instruction and
    /// reports violations as errors. `false`: no tracking, no checks.
    const VALIDATE: bool = true;

    /// `true`: every field text (label text, stage name) is scanned for
    /// tab, newline and carriage return and rejected before anything is
    /// written. `false`: field text is written verbatim.
    const SANITIZE: bool = true;
}

/// The abstract state of a trace.
pub struct TraceState {
    /// The bytes the sink held before the trace was created.
    pub prefix: Seq<u8>,
    /// All text the trace has written.
    pub text: Seq<char>,
    /// The values of the instructions currently alive (always empty when
    /// lifecycle validation is off).
    pub live: Set<u32>,
    /// The next `INSN_ID_IN_FILE` to hand out.
    pub next_id: u32,
    /// The next `RETIRE_ID` to use.
    pub next_retire: u32,
    /// How many bytes of the output have already been handed out.
    pub taken: nat,
}

impl TraceState {
    /// The whole output: the prefix, then the UTF-8 encoding of the text.
    pub open spec fn bytes(self) -> Seq<u8> {
        self.prefix + encode_utf8(self.text)
    }

    /// The part of the output not handed out yet.
    pub open spec fn pending(self) -> Seq<u8> {
        self.bytes().skip(self.taken as int)
    }
}

/// One Kanata command, with its arguments as plain values.
pub enum Command {
    Advance { delta: u32 },
    Start { sim_id: u32, thread: u32 },
    End { id: u32, lane: u32, stage: Seq<char> },
    Label { id: u32, level: Level, text: Seq<char> },
    Stage { id: u32, lane: u32, stage: Seq<char>, dependency: bool },
    Retire { id: u32 },
    Flush { id: u32 },
    Wake { consumer: u32, producer: u32 },
}

/// Why a command is refused.
pub enum Refusal {
    UnknownId(u32),
    DoubleRetire(u32),
    InvalidLabel(Seq<char>),
}

/// The error that reports a refusal.
pub open spec fn reports(why: Refusal, e: Error) -> bool {
    match why {
        Refusal::UnknownId(v) => e matches Error::UnknownId(id) && id@ == v,
        Refusal::DoubleRetire(v) => e matches Error::DoubleRetire(id) && id@ == v,
        Refusal::InvalidLabel(t) => e matches Error::InvalidLabel(s) && s@ == t,
    }
}

/// The header a trace starts with: the format version, then a `C=`
/// command anchoring the simulation at `cycle`.
pub open spec fn header(cycle: u32) -> Seq<char> {
    "Kanata\t0004\n"@ + "C=\t"@ + decimal(cycle as nat) + "\n"@
}

/// The line a command appends when the trace accepts it in state `s`.
pub open spec fn line(s: TraceState, cmd: Command) -> Seq<char> {
    match cmd {
        Command::Advance { delta } => "C\t"@ + decimal(delta as nat) + "\n"@,
        Command::Start { sim_id, thread } => "I\t"@ + decimal(s.next_id as nat) + "\t"@
            + decimal(sim_id as nat) + "\t"@ + decimal(thread as nat) + "\n"@,
        Command::End { id, lane, stage } => "E\t"@ + decimal(id as nat) + "\t"@
            + decimal(lane as nat) + "\t"@ + stage + "\n"@,
        Command::Label { id, level, text } => "L\t"@ + decimal(id as nat) + "\t"@
            + level_text(level) + "\t"@ + text + "\n"@,
        Command::Stage { id, lane, stage, dependency } => "S\t"@ + decimal(id as nat) + "\t"@
            + decimal(lane as nat) + "\t"@ + stage + (if dependency {
            "_X"@
        } else {
            Seq::<char>::empty()
        }) + "\n"@,
        Command::Retire { id } => "R\t"@ + decimal(id as nat) + "\t"@
            + decimal(s.next_retire as nat) + "\t"@ + "0"@ + "\n"@,
        Command::Flush { id } => "R\t"@ + decimal(id as nat) + "\t"@
            + decimal(s.next_retire as nat) + "\t"@ + "1"@ + "\n"@,
        Command::Wake { consumer, producer } => "W\t"@ + decimal(consumer as nat) + "\t"@
            + decimal(producer as nat) + "\t"@ + "0"@ + "\n"@,
    }
}

/// The instruction whose liveness a command depends on, if any.
pub open spec fn target(cmd: Command) -> Option<u32> {
    match cmd {
        Command::Advance { .. } => None,
        Command::Start { .. } => None,
        Command::End { id, .. } => Some(id),
        Command::Label { id, .. } => Some(id),
        Command::Stage { id, .. } => Some(id),
        Command::Retire { id } => Some(id),
        Command::Flush { id } => Some(id),
        Command::Wake { consumer, .. } => Some(consumer),
    }
}

/// The user-supplied field text of a command, if it has one.
pub open spec fn field_text(cmd: Command) -> Option<Seq<char>> {
    match cmd {
        Command::End { stage, .. } => Some(stage),
        Command::Label { text, .. } => Some(text),
        Command::Stage { stage, .. } => Some(stage),
        _ => None,
    }
}

/// Whether a command ends the lifecycle of its target.
pub open spec fn closes(cmd: Command) -> bool {
    cmd is Retire || cmd is Flush
}

/// Why the trace refuses `cmd` in state `s`, or `None` when it accepts it.
/// Lifecycle validation comes first, then sanitization.
pub open spec fn refusal<C: Config>(s: TraceState, cmd: Command) -> Option<Refusal> {
    if C::VALIDATE && target(cmd) is Some && !s.live.contains(target(cmd)->0) {
        if closes(cmd) {
            Some(Refusal::DoubleRetire(target(cmd)->0))
        } else {
            Some(Refusal::UnknownId(target(cmd)->0))
        }
    } else if C::SANITIZE && field_text(cmd) is Some && has_forbidden(field_text(cmd)->0) {
        Some(Refusal::InvalidLabel(field_text(cmd)->0))
    } else {
        None
    }
}

/// The state after the trace accepts `cmd` in state `s`.
pub open spec fn next<C: Config>(s: TraceState, cmd: Command) -> TraceState {
    let text = s.text + line(s, cmd);
    match cmd {
        Command::Start { .. } => TraceState {
            text,
            live: if C::VALIDATE { s.live.insert(s.next_id) } else { s.live },
            next_id: (s.next_id + 1) as u32,
            ..s
        },
        Command::Retire { id } => TraceState {
            text,
            live: if C::VALIDATE { s.live.remove(id) } else { s.live },
            next_retire: (s.next_retire + 1) as u32,
            ..s
        },
        Command::Flush { id } => TraceState {
            text,
            live: if C::VALIDATE { s.live.remove(id) } else { s.live },
            ..s
        },
        _ => TraceState { text, ..s },
    }
}

/// What a command on a trace in state `old` must do: when refused, report
/// why and change nothing; otherwise succeed and move to `next`.
pub open spec fn performs<C: Config>(
    old: TraceState,
    cmd: Command,
    new: TraceState,
    r: Result,
) -> bool {
    match refusal::<C>(old, cmd) {
        None => r is Ok && new == next::<C>(old, cmd),
        Some(why) => r matches Err(e) && reports(why, e) && new == old,
    }
}

/// The invariant every reachable trace state satisfies: alive ids were
/// issued, and (when validating) the retirement counter plus the alive
/// instructions never outnumber the issued ids.
pub open spec fn consistent<C: Config>(s: TraceState) -> bool {
    &&& s.live.finite()
    &&& forall|v: u32| #[trigger] s.live.contains(v) ==> v < s.next_id
    &&& !C::VALIDATE ==> s.live.is_empty()
    &&& C::VALIDATE ==> s.next_retire + s.live.len() <= s.next_id
}

/// Encoder that produces a Kanata-format processor pipeline trace.
pub struct Trace<C: Config> {
    /// The bytes written so far.
    sink: TextSink,
    /// Lifecycle tracker; untouched when `C::VALIDATE` is `false`.
    validator: Validator,
    /// Next `INSN_ID_IN_FILE` value to hand out.
    instruction_id: Id,
    /// Next `RETIRE_ID` value to use on an `R` command.
    retirement_id: Id,
    phantom: core::marker::PhantomData<C>,
}

impl<C: Config> View for Trace<C> {
    type V = TraceState;

    closed spec fn view(&self) -> TraceState {
        TraceState {
            prefix: self.sink.prefix(),
            text: self.sink.text(),
            live: self.validator.ids(),
            next_id: self.instruction_id@,
            next_retire: self.retirement_id@,
            taken: self.sink.taken(),
        }
    }
}


/// Every command the trace accepts keeps its state consistent (the
/// counters it bumps must have room to grow).
pub proof fn lemma_next_consistent<C: Config>(s: TraceState, cmd: Command)
    requires
        consistent::<C>(s),
        refusal::<C>(s, cmd) is None,
        cmd is Start ==> s.next_id < u32::MAX,
        cmd is Retire && !C::VALIDATE ==> s.next_retire < u32::MAX,
    ensures
        consistent::<C>(next::<C>(s, cmd)),
{
    let t = next::<C>(s, cmd);
    match cmd {
        Command::Start { .. } => {
            if C::VALIDATE {
                assert(!s.live.contains(s.next_id));
                assert(t.live.len() == s.live.len() + 1);
            }
        },
        Command::Retire { id } => {
            if C::VALIDATE {
                assert(s.live.contains(id));
                assert(t.live.len() == s.live.len() - 1);
            }
        },
        Command::Flush { id } => {
            if C::VALIDATE {
                assert(s.live.contains(id));
                assert(t.live.len() == s.live.len() - 1);
            }
        },
        _ => {},
    }
}

/// When lifecycle validation is on, an instruction being retired leaves
/// room in the retirement counter.
pub(crate) proof fn lemma_retire_has_room<C: Config>(s: TraceState, id: u32)
    requires
        C::VALIDATE,
        consistent::<C>(s),
        s.live.contains(id),
    ensures
        s.next_retire < u32::MAX,
{
    assert(s.live.remove(id).len() == s.live.len() - 1);
}

impl<C: Config> Trace<C> {
    /// The internal invariant.
    pub closed spec fn wf(&self) -> bool {
        &&& self.sink.inv()
        &&& self.validator.inv()
        &&& consistent::<C>(self@)
    }

    fn create(cycle: u32, output: Vec<u8>) -> (t: Self)
        ensures
            t.wf(),
            t@ == (TraceState {
                prefix: output@,
                text: header(cycle),
                live: Set::empty(),
                next_id: 0,
                next_retire: 0,
                taken: 0,
            }),
    {
        let mut sink = TextSink::new(output);
        sink.push_str("Kanata\t0004\n");
        sink.push_str("C=\t");
        sink.push_decimal(cycle as u64);
        sink.push_str("\n");
        let t = Trace {
            sink,
            validator: Validator::new(),
            instruction_id: Id::new(0),
            retirement_id: Id::new(0),
            phantom: core::marker::PhantomData,
        };
        assert(t@.text =~= header(cycle));
        t
    }

    /// Create a new trace writing after the bytes already in `output`: emit
    /// the Kanata header and a `C=` command anchoring the simulation at
    /// `cycle`.
    pub fn new(cycle: u32, output: Vec<u8>) -> (r: Result<Self>)
        ensures
            r matches Ok(t) && t.wf() && t@ == (TraceState {
                prefix: output@,
                text: header(cycle),
                live: Set::empty(),
                next_id: 0,
                next_retire: 0,
                taken: 0,
            }),
    {
        Ok(Self::create(cycle, output))
    }

    /// Hand out the output written since the trace was created or since the
    /// last call, so that it can be passed on to its final destination.
    pub fn take_output(&mut self) -> (bytes: Vec<u8>)
        requires
            old(self).wf(),
        ensures
            final(self).wf(),
            bytes@ == old(self)@.pending(),
            final(self)@ == (TraceState { taken: old(self)@.bytes().len(), ..old(self)@ }),
    {
        self.sink.take()
    }

    /// Conclude the trace and surrender the output not handed out yet
    /// (all of it, when `take_output` was never called). When validating,
    /// every instruction started must have been retired or flushed;
    /// outstanding ones are reported, in increasing order, as `DanglingIds`.
    pub fn finish(self) -> (r: Result<Vec<u8>>)
        requires
            self.wf(),
        ensures
            C::VALIDATE && !self@.live.is_empty() ==> (r matches Err(Error::DanglingIds(ids))
                && lists_in_order(ids@, self@.live)),
            !(C::VALIDATE && !self@.live.is_empty()) ==> (r matches Ok(bytes) && bytes@
                == self@.pending()),
    {
        if C::VALIDATE {
            let orphans = self.validator.orphaned();
            if let Err(e) = orphans {
                return Err(e);
            }
        }
        Ok(self.sink.into_bytes())
    }

    /// Emit a `C` command advancing the simulation clock by `delta` cycles.
    pub fn advance(&mut self, delta: u32) -> (r: Result)
        requires
            old(self).wf(),
        ensures
            final(self).wf(),
            performs::<C>(old(self)@, Command::Advance { delta }, final(self)@, r),
    {
        let ghost cmd = Command::Advance { delta };
        self.sink.push_str("C\t");
        self.sink.push_decimal(delta as u64);
        self.sink.push_str("\n");
        proof {
            lemma_next_consistent::<C>(old(self)@, cmd);
            assert(self@.text =~= old(self)@.text + line(old(self)@, cmd));
        }
        Ok(())
    }

    /// Emit an `I` command starting a new instruction with the simulator's
    /// own id `id` and thread `thread`; return the file-local `Id` that
    /// every later command on the instruction must use.
    pub fn start(&mut self, id: u32, thread: u32) -> (r: Result<Id>)
        requires
            old(self).wf(),
            old(self)@.next_id < u32::MAX,
        ensures
            final(self).wf(),
            r matches Ok(iid) && iid@ == old(self)@.next_id,
            final(self)@ == next::<C>(old(self)@, Command::Start { sim_id: id, thread }),
    {
        let ghost cmd = Command::Start { sim_id: id, thread };
        let iid = self.instruction_id.bump();
        if C::VALIDATE {
            self.validator.track(iid);
        }
        self.sink.push_str("I\t");
        self.sink.push_decimal(iid.get() as u64);
        self.sink.push_str("\t");
        self.sink.push_decimal(id as u64);
        self.sink.push_str("\t");
        self.sink.push_decimal(thread as u64);
        self.sink.push_str("\n");
        proof {
            lemma_next_consistent::<C>(old(self)@, cmd);
            assert(self@.text =~= old(self)@.text + line(old(self)@, cmd));
        }
        Ok(iid)
    }

    /// Emit an `E` command explicitly ending stage `stage` on `(id, lane)`.
    pub fn end(&mut self, id: Id, lane: Lane, stage: &str) -> (r: Result)
        requires
            old(self).wf(),
        ensures
            final(self).wf(),
            performs::<C>(old(self)@, Command::End { id: id@, lane, stage: stage@ }, final(self)@, r),
    {
        let ghost cmd = Command::End { id: id@, lane, stage: stage@ };
        if C::VALIDATE {
            let checked = self.validator.check(id);
            if checked.is_err() {
                return checked;
            }
        }
        if C::SANITIZE {
            let sanitized = Sanitizer::sanitize(stage);
            if sanitized.is_err() {
                return sanitized;
            }
        }
        self.sink.push_str("E\t");
        self.sink.push_decimal(id.get() as u64);
        self.sink.push_str("\t");
        self.sink.push_decimal(lane as u64);
        self.sink.push_str("\t");
        self.sink.push_str(stage);
        self.sink.push_str("\n");
        proof {
            lemma_next_consistent::<C>(old(self)@, cmd);
            assert(self@.text =~= old(self)@.text + line(old(self)@, cmd));
        }
        Ok(())
    }

    /// Emit an `L` command attaching `text` to `id`, shown where `level`
    /// says. Repeated calls append to the text already attached.
    pub fn label(&mut self, id: Id, text: &str, level: Level) -> (r: Result)
        requires
            old(self).wf(),
        ensures
            final(self).wf(),
            performs::<C>(old(self)@, Command::Label { id: id@, level, text: text@ }, final(self)@, r),
    {
        let ghost cmd = Command::Label { id: id@, level, text: text@ };
        if C::VALIDATE {
            let checked = self.validator.check(id);
            if checked.is_err() {
                return checked;
            }
        }
        if C::SANITIZE {
            let sanitized = Sanitizer::sanitize(text);
            if sanitized.is_err() {
                return sanitized;
            }
        }
        self.sink.push_str("L\t");
        self.sink.push_decimal(id.get() as u64);
        self.sink.push_str("\t");
        self.sink.push_str(level.as_str());
        self.sink.push_str("\t");
        self.sink.push_str(text);
        self.sink.push_str("\n");
        proof {
            lemma_next_consistent::<C>(old(self)@, cmd);
            assert(self@.text =~= old(self)@.text + line(old(self)@, cmd));
        }
        Ok(())
    }

    /// Emit an `S` command starting stage `stage` on `(id, lane)`; with
    /// `dependency`, the stage name gets the `_X` suffix that lets the
    /// viewer draw `W` arrows into or out of it.
    pub fn stage(&mut self, id: Id, lane: Lane, stage: &str, dependency: bool) -> (r: Result)
        requires
            old(self).wf(),
        ensures
            final(self).wf(),
            performs::<C>(
                old(self)@,
                Command::Stage { id: id@, lane, stage: stage@, dependency },
                final(self)@,
                r,
            ),
    {
        let ghost cmd = Command::Stage { id: id@, lane, stage: stage@, dependency };
        if C::VALIDATE {
            let checked = self.validator.check(id);
            if checked.is_err() {
                return checked;
            }
        }
        if C::SANITIZE {
            let sanitized = Sanitizer::sanitize(stage);
            if sanitized.is_err() {
                return sanitized;
            }
        }
        self.sink.push_str("S\t");
        self.sink.push_decimal(id.get() as u64);
        self.sink.push_str("\t");
        self.sink.push_decimal(lane as u64);
        self.sink.push_str("\t");
        self.sink.push_str(stage);
        if dependency {
            self.sink.push_str("_X");
        }
        self.sink.push_str("\n");
        proof {
            lemma_next_consistent::<C>(old(self)@, cmd);
            assert(self@.text =~= old(self)@.text + line(old(self)@, cmd));
        }
        Ok(())
    }

    /// Emit an `R` command of type `0`, retiring `id` with a fresh
    /// `RETIRE_ID` from the retirement counter.
    pub fn retire(&mut self, id: Id) -> (r: Result)
        requires
            old(self).wf(),
            !C::VALIDATE ==> old(self)@.next_retire < u32::MAX,
        ensures
            final(self).wf(),
            performs::<C>(old(self)@, Command::Retire { id: id@ }, final(self)@, r),
    {
        let ghost cmd = Command::Retire { id: id@ };
        if C::VALIDATE {
            let forgotten = self.validator.forget(id);
            if forgotten.is_err() {
                return forgotten;
            }
            proof {
                lemma_retire_has_room::<C>(old(self)@, id@);
            }
        }
        let rid = self.retirement_id.bump();
        self.sink.push_str("R\t");
        self.sink.push_decimal(id.get() as u64);
        self.sink.push_str("\t");
        self.sink.push_decimal(rid.get() as u64);
        self.sink.push_str("\t");
        self.sink.push_str("0");
        self.sink.push_str("\n");
        proof {
            lemma_next_consistent::<C>(old(self)@, cmd);
            assert(self@.text =~= old(self)@.text + line(old(self)@, cmd));
        }
        Ok(())
    }

    /// Emit an `R` command of type `1`, flushing `id`. The current
    /// `RETIRE_ID` is reused without bumping the counter.
    pub fn flush(&mut self, id: Id) -> (r: Result)
        requires
            old(self).wf(),
        ensures
            final(self).wf(),
            performs::<C>(old(self)@, Command::Flush { id: id@ }, final(self)@, r),
    {
        let ghost cmd = Command::Flush { id: id@ };
        if C::VALIDATE {
            let forgotten = self.validator.forget(id);
            if forgotten.is_err() {
                return forgotten;
            }
        }
        let rid = self.retirement_id.get();
        self.sink.push_str("R\t");
        self.sink.push_decimal(id.get() as u64);
        self.sink.push_str("\t");
        self.sink.push_decimal(rid as u64);
        self.sink.push_str("\t");
        self.sink.push_str("1");
        self.sink.push_str("\n");
        proof {
            lemma_next_consistent::<C>(old(self)@, cmd);
            assert(self@.text =~= old(self)@.text + line(old(self)@, cmd));
        }
        Ok(())
    }

    /// Emit a `W` command recording a `producer -> consumer` wake-up.
    /// Only the consumer must be alive; the producer may have retired or
    /// never have been issued by this trace.
    pub fn wake(&mut self, consumer: Id, producer: Id) -> (r: Result)
        requires
            old(self).wf(),
        ensures
            final(self).wf(),
            performs::<C>(
                old(self)@,
                Command::Wake { consumer: consumer@, producer: producer@ },
                final(self)@,
                r,
            ),
    {
        let ghost cmd = Command::Wake { consumer: consumer@, producer: producer@ };
        if C::VALIDATE {
            let checked = self.validator.check(consumer);
            if checked.is_err() {
                return checked;
            }
        }
        self.sink.push_str("W\t");
        self.sink.push_decimal(consumer.get() as u64);
        self.sink.push_str("\t");
        self.sink.push_decimal(producer.get() as u64);
        self.sink.push_str("\t");
        self.sink.push_str("0");
        self.sink.push_str("\n");
        proof {
            lemma_next_consistent::<C>(old(self)@, cmd);
            assert(self@.text =~= old(self)@.text + line(old(self)@, cmd));
        }
        Ok(())
    }
}

impl<C: Config> Default for Trace<C> {
    /// A trace anchored at cycle `0`, writing into an empty buffer.
    fn default() -> (t: Self)
        ensures
            t.wf(),
            t@ == (TraceState {
                prefix: Seq::empty(),
                text: header(0),
                live: Set::empty(),
                next_id: 0,
                next_retire: 0,
                taken: 0,
            }),
    {
        Self::create(0, Vec::new())
    }
}

} // verus!
