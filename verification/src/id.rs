//! Instruction handles, lanes and label levels.

use vstd::prelude::*;
use crate::sink::{decimal, decimal_string};

verus! {

/// Opaque handle representing an `INSN_ID_IN_FILE` value.
///
/// Issued by `Trace::start` and consumed by every later command that
/// targets the same instruction. The contained integer matches the
/// literal id emitted into the Kanata log.
#[derive(Debug, Default, Clone, Copy, Hash, PartialEq, Eq, Structural, PartialOrd, Ord)]
pub struct Id(u32);

impl View for Id {
    type V = u32;

    closed spec fn view(&self) -> u32 {
        self.0
    }
}

impl Id {
    /// Wrap a raw `u32` as an `Id`.
    pub fn new(value: u32) -> (id: Self)
        ensures
            id@ == value,
    {
        Id(value)
    }

    /// Return the wrapped `u32`.
    pub fn get(self) -> (value: u32)
        ensures
            value == self@,
    {
        self.0
    }

    /// Return the current value, then increment `self` by one.
    pub fn bump(&mut self) -> (issued: Self)
        requires
            old(self)@ < u32::MAX,
        ensures
            issued == *old(self),
            final(self)@ == old(self)@ + 1,
    {
        let old = self.0;
        self.0 = old + 1;
        Id(old)
    }

    /// The decimal spelling of the wrapped value, as written into the log.
    pub fn to_string(&self) -> (text: String)
        ensures
            text@ == decimal(self@ as nat),
    {
        decimal_string(self.0 as u64)
    }

    /// The wrapped value as an index into a bitmap.
    pub fn index(self) -> (index: usize)
        ensures
            index == self@,
    {
        self.0 as usize
    }
}

/// Two handles are the same exactly when they wrap the same value.
pub proof fn lemma_id_view_injective(a: Id, b: Id)
    ensures
        (a == b) <==> (a@ == b@),
{
}

/// Lane index used on `S` and `E` commands. Lane `0` represents the
/// main pipeline; higher lanes overlay extra information such as a
/// stall trail above the regular stages.
pub type Lane = u32;

/// Selects where a label is shown in the Konata viewer: the `TYPE`
/// field of an `L` command.
#[derive(Debug, Clone, Copy, PartialEq, Eq, Structural)]
pub enum Level {
    /// Shown in the left instruction pane (`L` type `0`).
    Pane,
    /// Shown as a mouse-over tooltip (`L` type `1`).
    Hover,
}

/// The spelling of a level in the `TYPE` field of an `L` command.
pub open spec fn level_text(level: Level) -> Seq<char> {
    match level {
        Level::Pane => "0"@,
        Level::Hover => "1"@,
    }
}

impl Level {
    /// The numeric spelling of this level, as written into the log.
    pub fn as_str(self) -> (text: &'static str)
        ensures
            text@ == level_text(self),
    {
        match self {
            Level::Pane => "0",
            Level::Hover => "1",
        }
    }
}

} // verus!
