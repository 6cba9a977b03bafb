//! Failures that can occur while writing a Kanata trace.

use vstd::prelude::*;
use crate::id::Id;
use crate::sink::{decimal, decimal_string};

verus! {

#[verifier::external_type_specification]
#[verifier::external_body]
pub struct ExIoError(std::io::Error);

/// Failure that can occur while writing a Kanata trace.
#[derive(Debug)]
pub enum Error {
    /// The underlying byte sink failed.
    Write(std::io::Error),
    /// A command referenced an `Id` that was never issued by
    /// `Trace::start` or has already been retired or flushed.
    UnknownId(Id),
    /// `Trace::retire` or `Trace::flush` was called for an `Id`
    /// that is not currently alive.
    DoubleRetire(Id),
    /// `Trace::finish` was called while one or more instructions had
    /// not yet been retired or flushed; lists every still-alive `Id`.
    DanglingIds(Vec<Id>),
    /// A user-supplied string contained a tab, newline, or carriage
    /// return; holds the offending value.
    InvalidLabel(String),
}

impl From<std::io::Error> for Error {
    fn from(value: std::io::Error) -> (err: Self) {
        Error::Write(value)
    }
}

impl vstd::std_specs::convert::FromSpecImpl<std::io::Error> for Error {
    open spec fn obeys_from_spec() -> bool {
        true
    }

    open spec fn from_spec(v: std::io::Error) -> Self {
        Error::Write(v)
    }
}

/// The text Rust's `{:?}` formatting gives a string: the characters in
/// double quotes, with quotes, backslashes, control characters and
/// unprintable characters escaped.
pub uninterp spec fn debug_quoted(s: Seq<char>) -> Seq<char>;

/// `format!("{:?}", s)` on a string slice.
#[verifier::external_body]
fn quote_debug(s: &str) -> (quoted: String)
    ensures
        quoted@ == debug_quoted(s@),
{
    format!("{:?}", s)
}

/// `format!("{}", e)` on an I/O error; what it says depends on the error
/// and is left unstated.
#[verifier::external_body]
fn io_error_text(e: &std::io::Error) -> String {
    format!("{}", e)
}

/// `ids` lists exactly the values of `set`, in strictly increasing order.
pub open spec fn lists_in_order(ids: Seq<Id>, set: Set<u32>) -> bool {
    &&& forall|v: u32| set.contains(v) <==> exists|k: int| 0 <= k < ids.len() && (#[trigger] ids[k])@ == v
    &&& forall|i: int, j: int| 0 <= i < j < ids.len() ==> ids[i]@ < ids[j]@
}

/// How `{:?}` shows one id: `Id(` and the value in decimal, then `)`.
pub open spec fn id_debug(id: Id) -> Seq<char> {
    "Id("@ + decimal(id@ as nat) + ")"@
}

/// The ids shown one after another, separated by `", "`.
pub open spec fn id_items(ids: Seq<Id>) -> Seq<char>
    decreases ids.len(),
{
    if ids.len() == 0 {
        Seq::empty()
    } else if ids.len() == 1 {
        id_debug(ids[0])
    } else {
        id_items(ids.drop_last()) + ", "@ + id_debug(ids.last())
    }
}

/// How `{:?}` shows a list of ids: `[Id(0), Id(1)]`.
pub open spec fn id_list_debug(ids: Seq<Id>) -> Seq<char> {
    "["@ + id_items(ids) + "]"@
}

/// The message of each error but `Write`.
pub open spec fn message(e: Error) -> Seq<char> {
    match e {
        Error::Write(_) => "write failed: "@,
        Error::UnknownId(id) => "unknown instruction id: "@ + decimal(id@ as nat),
        Error::DoubleRetire(id) => "instruction "@ + decimal(id@ as nat)
            + " retired or flushed more than once"@,
        Error::DanglingIds(ids) => "trace finished with "@ + decimal(ids@.len()) + " dangling instruction(s): "@
            + id_list_debug(ids@),
        Error::InvalidLabel(label) => "incompatible label name: "@ + debug_quoted(label@),
    }
}

/// The message of a `Write` error whose I/O error describes itself as
/// `detail`: `"write failed: "` followed by `detail`.
pub fn write_failed_message(detail: &str) -> (text: String)
    ensures
        text@ == "write failed: "@ + detail@,
{
    let mut text = String::new();
    text.append("write failed: ");
    text.append(detail);
    text
}

/// The message of a `DanglingIds` error listing `ids`.
fn dangling_message(ids: &Vec<Id>) -> (text: String)
    ensures
        text@ == "trace finished with "@ + decimal(ids@.len()) + " dangling instruction(s): "@
            + id_list_debug(ids@),
{
    let mut text = String::new();
    text.append("trace finished with ");
    let count = decimal_string(ids.len() as u64);
    text.append(count.as_str());
    text.append(" dangling instruction(s): ");
    text.append("[");
    let ghost start = text@;
    let n = ids.len();
    let mut k: usize = 0;
    while k < n
        invariant
            n == ids@.len(),
            k <= n,
            text@ == start + id_items(ids@.take(k as int)),
        decreases n - k,
    {
        if k > 0 {
            text.append(", ");
        }
        text.append("Id(");
        let value = decimal_string(ids[k].get() as u64);
        text.append(value.as_str());
        text.append(")");
        proof {
            assert(ids@.take(k + 1).drop_last() =~= ids@.take(k as int));
            assert(ids@.take(k + 1).last() == ids@[k as int]);
            if k == 0 {
                assert(ids@.take(0) =~= Seq::<Id>::empty());
            }
        }
        assert(text@ =~= start + id_items(ids@.take(k + 1)));
        k = k + 1;
    }
    assert(ids@.take(n as int) =~= ids@);
    text.append("]");
    text
}

impl Error {
    /// A human-readable description of the error. For `Write` it is
    /// `write_failed_message` of the I/O error's own description, which
    /// the operating system supplies; for every other error it is
    /// `message(*self)`.
    pub fn to_string(&self) -> (text: String)
        ensures
            self is Write ==> exists|detail: Seq<char>| text@ == "write failed: "@ + detail,
            !(self is Write) ==> text@ == message(*self),
    {
        match self {
            Error::Write(error) => {
                let detail = io_error_text(error);
                let text = write_failed_message(detail.as_str());
                assert(text@ == "write failed: "@ + detail@);
                text
            },
            Error::UnknownId(id) => {
                let mut text = String::new();
                text.append("unknown instruction id: ");
                let value = decimal_string(id.get() as u64);
                text.append(value.as_str());
                text
            },
            Error::DoubleRetire(id) => {
                let mut text = String::new();
                text.append("instruction ");
                let value = decimal_string(id.get() as u64);
                text.append(value.as_str());
                text.append(" retired or flushed more than once");
                text
            },
            Error::DanglingIds(ids) => dangling_message(ids),
            Error::InvalidLabel(label) => {
                let mut text = String::new();
                text.append("incompatible label name: ");
                let quoted = quote_debug(label.as_str());
                text.append(quoted.as_str());
                text
            },
        }
    }
}

/// Convenience alias for results produced by this crate.
pub type Result<T = ()> = core::result::Result<T, Error>;

} // verus!
