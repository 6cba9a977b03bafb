//! Properties of the trace model that span commands.

use vstd::prelude::*;
use crate::id::{level_text, Level};
use crate::sanitizer::{has_forbidden, is_forbidden};
use crate::sink::{decimal, digit_char};
use crate::trace::{
    closes, consistent, field_text, header, lemma_next_consistent, lemma_retire_has_room, line, next,
    refusal, target, Command, Config, Refusal, TraceState,
};
use vstd::utf8::encode_utf8;

verus! {

/// How many times `c` occurs in `s`.
pub open spec fn count(s: Seq<char>, c: char) -> nat
    decreases s.len(),
{
    if s.len() == 0 {
        0
    } else {
        count(s.drop_last(), c) + (if s.last() == c { 1nat } else { 0nat })
    }
}

/// One Kanata record: a single line, terminated by `'\n'`, with no other
/// line terminator in it and exactly `tabs` field separators.
pub open spec fn is_record(l: Seq<char>, tabs: nat) -> bool {
    &&& l.len() > 0
    &&& l.last() == '\n'
    &&& count(l, '\n') == 1
    &&& count(l, '\r') == 0
    &&& count(l, '\t') == tabs
}

/// The number of field separators in the record a command writes: the
/// command letter is followed by one field for `C`, by three for the rest.
pub open spec fn separators(cmd: Command) -> nat {
    if cmd is Advance {
        1
    } else {
        3
    }
}

proof fn lemma_count_concat(a: Seq<char>, b: Seq<char>, c: char)
    ensures
        count(a + b, c) == count(a, c) + count(b, c),
    decreases b.len(),
{
    if b.len() == 0 {
        assert(a + b =~= a);
    } else {
        lemma_count_concat(a, b.drop_last(), c);
        assert((a + b).drop_last() =~= a + b.drop_last());
    }
}

proof fn lemma_count_absent(s: Seq<char>, c: char)
    requires
        forall|i: int| 0 <= i < s.len() ==> s[i] != c,
    ensures
        count(s, c) == 0,
    decreases s.len(),
{
    if s.len() > 0 {
        lemma_count_absent(s.drop_last(), c);
    }
}

proof fn lemma_decimal_digits(n: nat)
    ensures
        decimal(n).len() > 0,
        forall|i: int| 0 <= i < decimal(n).len() ==> '0' <= #[trigger] decimal(n)[i] <= '9',
    decreases n,
{
    if n >= 10 {
        lemma_decimal_digits(n / 10);
    }
    assert(digit_char(n % 10) as u32 == (n % 10) + 48);
}

/// A piece of a record that holds none of the three special characters.
spec fn plain(s: Seq<char>) -> bool {
    count(s, '\t') == 0 && count(s, '\n') == 0 && count(s, '\r') == 0
}

proof fn lemma_plain_no_special(s: Seq<char>)
    requires
        forall|i: int| 0 <= i < s.len() ==> !is_forbidden(#[trigger] s[i]),
    ensures
        plain(s),
{
    lemma_count_absent(s, '\t');
    lemma_count_absent(s, '\n');
    lemma_count_absent(s, '\r');
}

proof fn lemma_decimal_plain(n: nat)
    ensures
        plain(decimal(n)),
{
    lemma_decimal_digits(n);
    lemma_plain_no_special(decimal(n));
}

proof fn lemma_field_plain(s: Seq<char>)
    requires
        !has_forbidden(s),
    ensures
        plain(s),
{
    lemma_plain_no_special(s);
}

/// Counts of a fixed short piece, from its characters.
proof fn lemma_counts2(s: Seq<char>)
    requires
        s.len() == 2,
    ensures
        count(s, '\t') == (if s[0] == '\t' { 1nat } else { 0 }) + (if s[1] == '\t' { 1nat } else { 0 }),
        count(s, '\n') == (if s[0] == '\n' { 1nat } else { 0 }) + (if s[1] == '\n' { 1nat } else { 0 }),
        count(s, '\r') == (if s[0] == '\r' { 1nat } else { 0 }) + (if s[1] == '\r' { 1nat } else { 0 }),
{
    reveal_with_fuel(count, 3);
    assert(s.drop_last().drop_last() =~= Seq::<char>::empty());
}

proof fn lemma_counts1(s: Seq<char>)
    requires
        s.len() == 1,
    ensures
        count(s, '\t') == (if s[0] == '\t' { 1nat } else { 0 }),
        count(s, '\n') == (if s[0] == '\n' { 1nat } else { 0 }),
        count(s, '\r') == (if s[0] == '\r' { 1nat } else { 0 }),
{
    reveal_with_fuel(count, 2);
    assert(s.drop_last() =~= Seq::<char>::empty());
}

proof fn lemma_level_plain(level: Level)
    ensures
        plain(level_text(level)),
{
    reveal_strlit("0");
    reveal_strlit("1");
    lemma_counts1(level_text(level));
}

proof fn lemma_literals()
    ensures
        plain("0"@),
        plain("1"@),
        plain("_X"@),
        count("\t"@, '\t') == 1 && count("\t"@, '\n') == 0 && count("\t"@, '\r') == 0,
        count("\n"@, '\t') == 0 && count("\n"@, '\n') == 1 && count("\n"@, '\r') == 0,
        "\n"@.len() == 1 && "\n"@[0] == '\n',
        count("C\t"@, '\t') == 1 && count("C\t"@, '\n') == 0 && count("C\t"@, '\r') == 0,
        count("I\t"@, '\t') == 1 && count("I\t"@, '\n') == 0 && count("I\t"@, '\r') == 0,
        count("E\t"@, '\t') == 1 && count("E\t"@, '\n') == 0 && count("E\t"@, '\r') == 0,
        count("L\t"@, '\t') == 1 && count("L\t"@, '\n') == 0 && count("L\t"@, '\r') == 0,
        count("S\t"@, '\t') == 1 && count("S\t"@, '\n') == 0 && count("S\t"@, '\r') == 0,
        count("R\t"@, '\t') == 1 && count("R\t"@, '\n') == 0 && count("R\t"@, '\r') == 0,
        count("W\t"@, '\t') == 1 && count("W\t"@, '\n') == 0 && count("W\t"@, '\r') == 0,
        count("C=\t"@, '\t') == 1 && count("C=\t"@, '\n') == 0 && count("C=\t"@, '\r') == 0,
{
    reveal_strlit("0");
    reveal_strlit("1");
    reveal_strlit("_X");
    reveal_strlit("\t");
    reveal_strlit("\n");
    reveal_strlit("C\t");
    reveal_strlit("I\t");
    reveal_strlit("E\t");
    reveal_strlit("L\t");
    reveal_strlit("S\t");
    reveal_strlit("R\t");
    reveal_strlit("W\t");
    reveal_strlit("C=\t");
    lemma_counts1("0"@);
    lemma_counts1("1"@);
    lemma_counts2("_X"@);
    lemma_counts1("\t"@);
    lemma_counts1("\n"@);
    lemma_counts2("C\t"@);
    lemma_counts2("I\t"@);
    lemma_counts2("E\t"@);
    lemma_counts2("L\t"@);
    lemma_counts2("S\t"@);
    lemma_counts2("R\t"@);
    lemma_counts2("W\t"@);
    let s = "C=\t"@;
    reveal_with_fuel(count, 4);
    assert(s.drop_last().drop_last().drop_last() =~= Seq::<char>::empty());
}

/// Counts of the three special characters in a concatenation.
proof fn lemma_counts_concat(a: Seq<char>, b: Seq<char>)
    ensures
        count(a + b, '\t') == count(a, '\t') + count(b, '\t'),
        count(a + b, '\n') == count(a, '\n') + count(b, '\n'),
        count(a + b, '\r') == count(a, '\r') + count(b, '\r'),
{
    lemma_count_concat(a, b, '\t');
    lemma_count_concat(a, b, '\n');
    lemma_count_concat(a, b, '\r');
}

/// A record ends with a newline: the last character of `body + "\n"`.
proof fn lemma_ends_with_newline(body: Seq<char>)
    ensures
        (body + "\n"@).len() > 0,
        (body + "\n"@).last() == '\n',
{
    lemma_literals();
}

/// Every command whose field text holds no tab, newline or carriage
/// return appends exactly one Kanata record, with one field separator for
/// `C` and three for every other command. With sanitization on, this is
/// so of every command the trace accepts.
pub proof fn lemma_line_is_record(s: TraceState, cmd: Command)
    requires
        field_text(cmd) is Some ==> !has_forbidden(field_text(cmd)->0),
    ensures
        is_record(line(s, cmd), separators(cmd)),
{
    lemma_literals();
    let l = line(s, cmd);
    match cmd {
        Command::Advance { delta } => {
            let d = decimal(delta as nat);
            lemma_decimal_plain(delta as nat);
            lemma_counts_concat("C\t"@, d);
            lemma_counts_concat("C\t"@ + d, "\n"@);
            lemma_ends_with_newline("C\t"@ + d);
        },
        Command::Start { sim_id, thread } => {
            let a = decimal(s.next_id as nat);
            let b = decimal(sim_id as nat);
            let c = decimal(thread as nat);
            lemma_decimal_plain(s.next_id as nat);
            lemma_decimal_plain(sim_id as nat);
            lemma_decimal_plain(thread as nat);
            let p1 = "I\t"@ + a;
            let p2 = p1 + "\t"@;
            let p3 = p2 + b;
            let p4 = p3 + "\t"@;
            let p5 = p4 + c;
            lemma_counts_concat("I\t"@, a);
            lemma_counts_concat(p1, "\t"@);
            lemma_counts_concat(p2, b);
            lemma_counts_concat(p3, "\t"@);
            lemma_counts_concat(p4, c);
            lemma_counts_concat(p5, "\n"@);
            lemma_ends_with_newline(p5);
        },
        Command::End { id, lane, stage } => {
            let a = decimal(id as nat);
            let b = decimal(lane as nat);
            lemma_decimal_plain(id as nat);
            lemma_decimal_plain(lane as nat);
            lemma_field_plain(stage);
            let p1 = "E\t"@ + a;
            let p2 = p1 + "\t"@;
            let p3 = p2 + b;
            let p4 = p3 + "\t"@;
            let p5 = p4 + stage;
            lemma_counts_concat("E\t"@, a);
            lemma_counts_concat(p1, "\t"@);
            lemma_counts_concat(p2, b);
            lemma_counts_concat(p3, "\t"@);
            lemma_counts_concat(p4, stage);
            lemma_counts_concat(p5, "\n"@);
            lemma_ends_with_newline(p5);
        },
        Command::Label { id, level, text } => {
            let a = decimal(id as nat);
            let b = level_text(level);
            lemma_decimal_plain(id as nat);
            lemma_level_plain(level);
            lemma_field_plain(text);
            let p1 = "L\t"@ + a;
            let p2 = p1 + "\t"@;
            let p3 = p2 + b;
            let p4 = p3 + "\t"@;
            let p5 = p4 + text;
            lemma_counts_concat("L\t"@, a);
            lemma_counts_concat(p1, "\t"@);
            lemma_counts_concat(p2, b);
            lemma_counts_concat(p3, "\t"@);
            lemma_counts_concat(p4, text);
            lemma_counts_concat(p5, "\n"@);
            lemma_ends_with_newline(p5);
        },
        Command::Stage { id, lane, stage, dependency } => {
            let a = decimal(id as nat);
            let b = decimal(lane as nat);
            let m = if dependency {
                "_X"@
            } else {
                Seq::<char>::empty()
            };
            lemma_decimal_plain(id as nat);
            lemma_decimal_plain(lane as nat);
            lemma_field_plain(stage);
            reveal_with_fuel(count, 1);
            let p1 = "S\t"@ + a;
            let p2 = p1 + "\t"@;
            let p3 = p2 + b;
            let p4 = p3 + "\t"@;
            let p5 = p4 + stage;
            let p6 = p5 + m;
            lemma_counts_concat("S\t"@, a);
            lemma_counts_concat(p1, "\t"@);
            lemma_counts_concat(p2, b);
            lemma_counts_concat(p3, "\t"@);
            lemma_counts_concat(p4, stage);
            lemma_counts_concat(p5, m);
            lemma_counts_concat(p6, "\n"@);
            lemma_ends_with_newline(p6);
        },
        Command::Retire { id } => {
            let a = decimal(id as nat);
            let b = decimal(s.next_retire as nat);
            lemma_decimal_plain(id as nat);
            lemma_decimal_plain(s.next_retire as nat);
            let p1 = "R\t"@ + a;
            let p2 = p1 + "\t"@;
            let p3 = p2 + b;
            let p4 = p3 + "\t"@;
            let p5 = p4 + "0"@;
            lemma_counts_concat("R\t"@, a);
            lemma_counts_concat(p1, "\t"@);
            lemma_counts_concat(p2, b);
            lemma_counts_concat(p3, "\t"@);
            lemma_counts_concat(p4, "0"@);
            lemma_counts_concat(p5, "\n"@);
            lemma_ends_with_newline(p5);
        },
        Command::Flush { id } => {
            let a = decimal(id as nat);
            let b = decimal(s.next_retire as nat);
            lemma_decimal_plain(id as nat);
            lemma_decimal_plain(s.next_retire as nat);
            let p1 = "R\t"@ + a;
            let p2 = p1 + "\t"@;
            let p3 = p2 + b;
            let p4 = p3 + "\t"@;
            let p5 = p4 + "1"@;
            lemma_counts_concat("R\t"@, a);
            lemma_counts_concat(p1, "\t"@);
            lemma_counts_concat(p2, b);
            lemma_counts_concat(p3, "\t"@);
            lemma_counts_concat(p4, "1"@);
            lemma_counts_concat(p5, "\n"@);
            lemma_ends_with_newline(p5);
        },
        Command::Wake { consumer, producer } => {
            let a = decimal(consumer as nat);
            let b = decimal(producer as nat);
            lemma_decimal_plain(consumer as nat);
            lemma_decimal_plain(producer as nat);
            let p1 = "W\t"@ + a;
            let p2 = p1 + "\t"@;
            let p3 = p2 + b;
            let p4 = p3 + "\t"@;
            let p5 = p4 + "0"@;
            lemma_counts_concat("W\t"@, a);
            lemma_counts_concat(p1, "\t"@);
            lemma_counts_concat(p2, b);
            lemma_counts_concat(p3, "\t"@);
            lemma_counts_concat(p4, "0"@);
            lemma_counts_concat(p5, "\n"@);
            lemma_ends_with_newline(p5);
        },
    }
}


/// The header is two records of one field separator each: the format
/// version line, then the `C=` line anchoring the first cycle.
pub proof fn lemma_header_records(cycle: u32)
    ensures
        header(cycle) == "Kanata\t0004\n"@ + ("C=\t"@ + decimal(cycle as nat) + "\n"@),
        is_record("Kanata\t0004\n"@, 1),
        is_record("C=\t"@ + decimal(cycle as nat) + "\n"@, 1),
{
    lemma_literals();
    let v = "Kanata\t0004\n"@;
    reveal_strlit("Kanata\t0004\n");
    reveal_strlit("\t");
    reveal_strlit("\n");
    let a = seq!['K', 'a', 'n', 'a', 't', 'a'];
    let b = seq!['0', '0', '0', '4'];
    assert(v =~= a + "\t"@ + b + "\n"@);
    lemma_plain_no_special(a);
    lemma_plain_no_special(b);
    lemma_counts_concat(a, "\t"@);
    lemma_counts_concat(a + "\t"@, b);
    lemma_counts_concat(a + "\t"@ + b, "\n"@);
    lemma_ends_with_newline(a + "\t"@ + b);
    let d = decimal(cycle as nat);
    lemma_decimal_plain(cycle as nat);
    lemma_counts_concat("C=\t"@, d);
    lemma_counts_concat("C=\t"@ + d, "\n"@);
    lemma_ends_with_newline("C=\t"@ + d);
    assert(header(cycle) =~= v + ("C=\t"@ + d + "\n"@));
}

/// With sanitization on, every command the trace accepts appends exactly
/// one Kanata record.
pub proof fn lemma_accepted_is_record<C: Config>(s: TraceState, cmd: Command)
    requires
        C::SANITIZE,
        refusal::<C>(s, cmd) is None,
    ensures
        next::<C>(s, cmd).text == s.text + line(s, cmd),
        is_record(line(s, cmd), separators(cmd)),
{
    lemma_line_is_record(s, cmd);
}

/// The state after applying `cmds` in order, each command the trace
/// refuses leaving the state as it was.
pub open spec fn run<C: Config>(s: TraceState, cmds: Seq<Command>) -> TraceState
    decreases cmds.len(),
{
    if cmds.len() == 0 {
        s
    } else {
        let before = run::<C>(s, cmds.drop_last());
        if refusal::<C>(before, cmds.last()) is None {
            next::<C>(before, cmds.last())
        } else {
            before
        }
    }
}

/// How many of `cmds`, applied in order from `s`, the trace accepts.
pub open spec fn accepted<C: Config>(s: TraceState, cmds: Seq<Command>) -> nat
    decreases cmds.len(),
{
    if cmds.len() == 0 {
        0
    } else {
        let before = run::<C>(s, cmds.drop_last());
        accepted::<C>(s, cmds.drop_last()) + (if refusal::<C>(before, cmds.last()) is None {
            1nat
        } else {
            0nat
        })
    }
}

/// With sanitization on, the output stays line-structured whatever the
/// caller does: every accepted command adds exactly one line, a refused
/// one adds nothing, and no carriage return ever appears.
pub proof fn lemma_one_line_per_accepted_command<C: Config>(s: TraceState, cmds: Seq<Command>)
    requires
        C::SANITIZE,
    ensures
        s.text.is_prefix_of(run::<C>(s, cmds).text),
        count(run::<C>(s, cmds).text, '\n') == count(s.text, '\n') + accepted::<C>(s, cmds),
        count(run::<C>(s, cmds).text, '\r') == count(s.text, '\r'),
    decreases cmds.len(),
{
    if cmds.len() > 0 {
        let before = run::<C>(s, cmds.drop_last());
        lemma_one_line_per_accepted_command::<C>(s, cmds.drop_last());
        if refusal::<C>(before, cmds.last()) is None {
            lemma_accepted_is_record::<C>(before, cmds.last());
            lemma_counts_concat(before.text, line(before, cmds.last()));
            assert(s.text.is_prefix_of(run::<C>(s, cmds).text)) by {
                let t = run::<C>(s, cmds).text;
                assert(t =~= before.text + line(before, cmds.last()));
                assert(t.subrange(0, s.text.len() as int) =~= before.text.subrange(0, s.text.len() as int));
            }
        }
    } else {
        assert(s.text.subrange(0, s.text.len() as int) =~= s.text);
    }
}

/// When validating, once an instruction has been retired or flushed,
/// every later command that targets it is refused: `End`, `Label`,
/// `Stage` and `Wake` (as consumer) with `UnknownId`, `Retire` and
/// `Flush` with `DoubleRetire`.
pub proof fn lemma_closed_instruction_is_refused<C: Config>(
    s: TraceState,
    close: Command,
    cmd: Command,
)
    requires
        C::VALIDATE,
        closes(close),
        refusal::<C>(s, close) is None,
        target(cmd) == target(close),
    ensures
        refusal::<C>(next::<C>(s, close), cmd) == (if closes(cmd) {
            Some(Refusal::DoubleRetire(target(close)->0))
        } else {
            Some(Refusal::UnknownId(target(close)->0))
        }),
{
}

/// `start` hands out ids in order: it issues the current counter, which
/// no alive instruction holds, and moves the counter on by one; no other
/// command touches it.
pub proof fn lemma_ids_issued_in_order<C: Config>(s: TraceState, cmd: Command)
    requires
        consistent::<C>(s),
        s.next_id < u32::MAX,
    ensures
        !s.live.contains(s.next_id),
        next::<C>(s, cmd).next_id == s.next_id + (if cmd is Start { 1int } else { 0int }),
        cmd is Start && C::VALIDATE ==> next::<C>(s, cmd).live.contains(s.next_id),
{
}

/// `retire` takes a fresh `RETIRE_ID` and moves the counter on; `flush`
/// reuses the current one; nothing else touches it.
pub proof fn lemma_retirement_ids<C: Config>(s: TraceState, cmd: Command)
    requires
        s.next_retire < u32::MAX,
    ensures
        next::<C>(s, cmd).next_retire == s.next_retire + (if cmd is Retire { 1int } else { 0int }),
{
}

/// A wake-up is judged by its consumer alone: the producer may be retired
/// or never issued.
pub proof fn lemma_wake_ignores_producer<C: Config>(
    s: TraceState,
    consumer: u32,
    p1: u32,
    p2: u32,
)
    ensures
        refusal::<C>(s, Command::Wake { consumer, producer: p1 }) == refusal::<C>(
            s,
            Command::Wake { consumer, producer: p2 },
        ),
{
}

/// Without lifecycle validation no command is refused for its id; without
/// sanitization none is refused for its text.
pub proof fn lemma_checks_follow_config<C: Config>(s: TraceState, cmd: Command)
    ensures
        !C::VALIDATE ==> !(refusal::<C>(s, cmd) matches Some(Refusal::UnknownId(_)))
            && !(refusal::<C>(s, cmd) matches Some(Refusal::DoubleRetire(_))),
        !C::SANITIZE ==> !(refusal::<C>(s, cmd) matches Some(Refusal::InvalidLabel(_))),
        !C::VALIDATE && !C::SANITIZE ==> refusal::<C>(s, cmd) is None,
{
}

/// A new trace is consistent.
pub proof fn lemma_initial_consistent<C: Config>(prefix: Seq<u8>, cycle: u32)
    ensures
        consistent::<C>(
            TraceState {
                prefix,
                text: header(cycle),
                live: Set::empty(),
                next_id: 0,
                next_retire: 0,
                taken: 0,
            },
        ),
{
}


/// How many `Start` commands `cmds` holds (the trace accepts every one).
pub open spec fn starts(cmds: Seq<Command>) -> nat
    decreases cmds.len(),
{
    if cmds.len() == 0 {
        0
    } else {
        starts(cmds.drop_last()) + (if cmds.last() is Start { 1nat } else { 0nat })
    }
}

/// How many `Retire` commands `cmds` holds, accepted or not.
pub open spec fn retires(cmds: Seq<Command>) -> nat
    decreases cmds.len(),
{
    if cmds.len() == 0 {
        0
    } else {
        retires(cmds.drop_last()) + (if cmds.last() is Retire { 1nat } else { 0nat })
    }
}

/// How many `Retire` commands of `cmds`, applied in order from `s`, the
/// trace accepts.
pub open spec fn retired<C: Config>(s: TraceState, cmds: Seq<Command>) -> nat
    decreases cmds.len(),
{
    if cmds.len() == 0 {
        0
    } else {
        let before = run::<C>(s, cmds.drop_last());
        retired::<C>(s, cmds.drop_last()) + (if cmds.last() is Retire && refusal::<C>(
            before,
            cmds.last(),
        ) is None {
            1nat
        } else {
            0nat
        })
    }
}

/// The ids that the `Start` commands of `cmds`, applied in order from
/// `s`, hand out, in order.
pub open spec fn issued<C: Config>(s: TraceState, cmds: Seq<Command>) -> Seq<u32>
    decreases cmds.len(),
{
    if cmds.len() == 0 {
        Seq::empty()
    } else if cmds.last() is Start {
        issued::<C>(s, cmds.drop_last()).push(run::<C>(s, cmds.drop_last()).next_id)
    } else {
        issued::<C>(s, cmds.drop_last())
    }
}

/// The lines the commands of `cmds` that the trace accepts, applied in
/// order from `s`, write, in order.
pub open spec fn written<C: Config>(s: TraceState, cmds: Seq<Command>) -> Seq<char>
    decreases cmds.len(),
{
    if cmds.len() == 0 {
        Seq::empty()
    } else {
        let before = run::<C>(s, cmds.drop_last());
        written::<C>(s, cmds.drop_last()) + (if refusal::<C>(before, cmds.last()) is None {
            line(before, cmds.last())
        } else {
            Seq::<char>::empty()
        })
    }
}

/// Over any sequence of commands (as long as the counters have room):
/// the state stays consistent; the text grows by exactly the lines of the
/// accepted commands, in order; ids are handed out consecutively, so each
/// is greater than every id handed out before it, retiring or flushing
/// never resetting the counter; and the retirement counter moves on once
/// per accepted `Retire`, flushes leaving it alone.
pub proof fn lemma_run<C: Config>(s: TraceState, cmds: Seq<Command>)
    requires
        consistent::<C>(s),
        s.next_id + starts(cmds) <= u32::MAX,
        !C::VALIDATE ==> s.next_retire + retires(cmds) <= u32::MAX,
    ensures
        consistent::<C>(run::<C>(s, cmds)),
        run::<C>(s, cmds).prefix == s.prefix,
        run::<C>(s, cmds).taken == s.taken,
        run::<C>(s, cmds).text == s.text + written::<C>(s, cmds),
        run::<C>(s, cmds).next_id == s.next_id + starts(cmds),
        issued::<C>(s, cmds).len() == starts(cmds),
        forall|i: int| 0 <= i < issued::<C>(s, cmds).len() ==> #[trigger] issued::<C>(s, cmds)[i] == s.next_id + i,
        run::<C>(s, cmds).next_retire == s.next_retire + retired::<C>(s, cmds),
        retired::<C>(s, cmds) <= retires(cmds),
    decreases cmds.len(),
{
    if cmds.len() == 0 {
        assert(s.text + Seq::<char>::empty() =~= s.text);
    } else {
        let rest = cmds.drop_last();
        let cmd = cmds.last();
        let before = run::<C>(s, rest);
        lemma_run::<C>(s, rest);
        let old_issued = issued::<C>(s, rest);
        if refusal::<C>(before, cmd) is None {
            if cmd is Retire && C::VALIDATE {
                lemma_retire_has_room::<C>(before, cmd->Retire_id);
            }
            lemma_next_consistent::<C>(before, cmd);
            assert(run::<C>(s, cmds).text =~= s.text + written::<C>(s, cmds));
        } else {
            assert(written::<C>(s, cmds) =~= written::<C>(s, rest));
        }
        if cmd is Start {
            assert forall|i: int| 0 <= i < issued::<C>(s, cmds).len() implies #[trigger] issued::<C>(s, cmds)[i] == s.next_id + i by {
                if i < old_issued.len() {
                    assert(issued::<C>(s, cmds)[i] == old_issued[i]);
                }
            }
        }
    }
}

/// A whole trace: from `Trace::new(cycle, prefix)`, any sequence of
/// commands (with room in the counters) leaves as output the prefix, then
/// the header, then exactly one line per accepted command, in order, and
/// the ids it hands out are `0, 1, 2, ...` in order.
pub proof fn lemma_trace_output<C: Config>(prefix: Seq<u8>, cycle: u32, cmds: Seq<Command>)
    requires
        starts(cmds) <= u32::MAX,
        !C::VALIDATE ==> retires(cmds) <= u32::MAX,
    ensures
        ({
            let s0 = TraceState {
                prefix,
                text: header(cycle),
                live: Set::empty(),
                next_id: 0,
                next_retire: 0,
                taken: 0,
            };
            &&& run::<C>(s0, cmds).bytes() == prefix + encode_utf8(header(cycle) + written::<C>(s0, cmds))
            &&& forall|i: int| 0 <= i < issued::<C>(s0, cmds).len() ==> #[trigger] issued::<C>(s0, cmds)[i] == i
            &&& run::<C>(s0, cmds).next_retire == retired::<C>(s0, cmds)
        }),
{
    let s0 = TraceState {
        prefix,
        text: header(cycle),
        live: Set::empty(),
        next_id: 0,
        next_retire: 0,
        taken: 0,
    };
    lemma_initial_consistent::<C>(prefix, cycle);
    lemma_run::<C>(s0, cmds);
}

} // verus!
