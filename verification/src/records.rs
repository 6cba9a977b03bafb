//! What the records a trace writes say, read back field by field.

use vstd::prelude::*;
use crate::sanitizer::has_forbidden;
use crate::sink::{decimal, digit_char};
use crate::trace::{header, line, refusal, Command, Config, Refusal, TraceState};
use crate::error::Error;

verus! {

/// Whether `c` is one of the ten decimal digits.
pub open spec fn is_digit(c: char) -> bool {
    ('0' as u32) <= (c as u32) <= ('9' as u32)
}

/// The number a string of decimal digits denotes, read most significant
/// digit first.
pub open spec fn digits_value(s: Seq<char>) -> nat
    decreases s.len(),
{
    if s.len() == 0 {
        0
    } else {
        digits_value(s.drop_last()) * 10 + ((s.last() as u32) - ('0' as u32)) as nat
    }
}

/// A canonical decimal numeral: one or more digits, no leading zero
/// unless the numeral is `0` itself.
pub open spec fn is_numeral(s: Seq<char>) -> bool {
    &&& s.len() > 0
    &&& forall|i: int| 0 <= i < s.len() ==> is_digit(#[trigger] s[i])
    &&& s.len() > 1 ==> s[0] != '0'
}

/// `decimal(n)` is the canonical decimal numeral of `n`: it reads back
/// as `n`.
pub proof fn lemma_decimal_spells(n: nat)
    ensures
        is_numeral(decimal(n)),
        digits_value(decimal(n)) == n,
        n >= 1 ==> decimal(n)[0] != '0',
    decreases n,
{
    let d = decimal(n);
    if n < 10 {
        assert(digit_char(n) as u32 == n + 48);
        assert(d.drop_last() =~= Seq::<char>::empty());
        assert(d.last() == digit_char(n));
        assert(digits_value(d) == digits_value(d.drop_last()) * 10 + ((d.last() as u32) - ('0' as u32)) as nat);
        assert(digits_value(Seq::<char>::empty()) == 0);
        assert(is_digit(d[0]));
        if n >= 1 {
            assert((d[0] as u32) != ('0' as u32));
        }
    } else {
        lemma_decimal_spells(n / 10);
        let p = decimal(n / 10);
        assert(d.drop_last() =~= p);
        assert(d.last() == digit_char(n % 10));
        assert(digit_char(n % 10) as u32 == (n % 10) + 48);
        assert(d[0] == p[0]);
        assert forall|i: int| 0 <= i < d.len() implies is_digit(#[trigger] d[i]) by {
            if i < p.len() {
                assert(d[i] == p[i]);
            }
        }
        assert(digits_value(d) == digits_value(p) * 10 + ((d.last() as u32) - ('0' as u32)) as nat);
        assert(n == (n / 10) * 10 + n % 10);
    }
}

/// Two numbers have the same numeral only when they are equal.
pub proof fn lemma_decimal_injective(m: nat, n: nat)
    ensures
        decimal(m) == decimal(n) <==> m == n,
{
    lemma_decimal_spells(m);
    lemma_decimal_spells(n);
}

/// The executable spelling reads back as its argument.
pub proof fn lemma_decimal_string_reads_back(n: u64, s: String)
    requires
        s@ == decimal(n as nat),
    ensures
        is_numeral(s@),
        digits_value(s@) == n,
{
    lemma_decimal_spells(n as nat);
}


/// `s` cut at every tab: the pieces between tabs, in order (a string with
/// `k` tabs gives `k + 1` pieces).
pub open spec fn split_tabs(s: Seq<char>) -> Seq<Seq<char>>
    decreases s.len(),
{
    if s.len() == 0 {
        seq![Seq::<char>::empty()]
    } else {
        let r = split_tabs(s.drop_last());
        if s.last() == '\t' {
            r.push(Seq::<char>::empty())
        } else {
            r.update(r.len() - 1, r.last().push(s.last()))
        }
    }
}

/// The fields of a record: the line without its final newline, cut at
/// every tab.
pub open spec fn fields(record: Seq<char>) -> Seq<Seq<char>> {
    split_tabs(record.drop_last())
}

/// Whether `s` holds no tab.
pub open spec fn tab_free(s: Seq<char>) -> bool {
    forall|i: int| 0 <= i < s.len() ==> s[i] != '\t'
}

proof fn lemma_split_nonempty(s: Seq<char>)
    ensures
        split_tabs(s).len() >= 1,
    decreases s.len(),
{
    if s.len() > 0 {
        lemma_split_nonempty(s.drop_last());
    }
}

/// Appending tab-free text extends the last piece.
proof fn lemma_split_append_plain(x: Seq<char>, b: Seq<char>)
    requires
        tab_free(b),
    ensures
        split_tabs(x + b).len() == split_tabs(x).len(),
        split_tabs(x + b) == split_tabs(x).update(
            split_tabs(x).len() - 1,
            split_tabs(x).last() + b,
        ),
    decreases b.len(),
{
    lemma_split_nonempty(x);
    let sx = split_tabs(x);
    if b.len() == 0 {
        assert(x + b =~= x);
        assert(sx.last() + b =~= sx.last());
        assert(sx.update(sx.len() - 1, sx.last()) =~= sx);
    } else {
        let b0 = b.drop_last();
        lemma_split_append_plain(x, b0);
        assert((x + b).drop_last() =~= x + b0);
        assert((x + b).last() == b.last());
        let r = split_tabs(x + b0);
        assert(r.last() == sx.last() + b0);
        assert(sx.last() + b0 + seq![b.last()] =~= sx.last() + b);
        assert((sx.last() + b0).push(b.last()) =~= sx.last() + b);
        assert(split_tabs(x + b) =~= sx.update(sx.len() - 1, sx.last() + b));
    }
}

/// A tab followed by tab-free text adds that text as a new piece.
proof fn lemma_split_field(x: Seq<char>, b: Seq<char>)
    requires
        tab_free(b),
    ensures
        split_tabs(x + "\t"@ + b) == split_tabs(x).push(b),
{
    reveal_strlit("\t");
    let xt = x + "\t"@;
    assert(xt =~= x.push('\t'));
    assert(xt.drop_last() =~= x);
    lemma_split_append_plain(xt, b);
    let st = split_tabs(xt);
    assert(st == split_tabs(x).push(Seq::<char>::empty()));
    assert(Seq::<char>::empty() + b =~= b);
    assert(st.update(st.len() - 1, st.last() + b) =~= split_tabs(x).push(b));
}

/// Tab-free text is a single piece.
proof fn lemma_split_single(b: Seq<char>)
    requires
        tab_free(b),
    ensures
        split_tabs(b) == seq![b],
{
    lemma_split_append_plain(Seq::<char>::empty(), b);
    assert(Seq::<char>::empty() + b =~= b);
    assert(split_tabs(Seq::<char>::empty()) == seq![Seq::<char>::empty()]);
    assert(seq![Seq::<char>::empty()].update(0, Seq::<char>::empty() + b) =~= seq![b]);
}

proof fn lemma_numeral_tab_free(n: nat)
    ensures
        tab_free(decimal(n)),
{
    lemma_decimal_spells(n);
    assert forall|i: int| 0 <= i < decimal(n).len() implies decimal(n)[i] != '\t' by {
        assert(is_digit(decimal(n)[i]));
    }
}

/// Splitting a command letter `c` followed by a tab.
proof fn lemma_split_head(c: char, lit: Seq<char>)
    requires
        lit == seq![c, '\t'],
        c != '\t',
    ensures
        forall|b: Seq<char>| tab_free(b) ==> #[trigger] split_tabs(lit + b) == seq![seq![c], b],
{
    reveal_strlit("\t");
    assert forall|b: Seq<char>| tab_free(b) implies #[trigger] split_tabs(lit + b) == seq![seq![c], b] by {
        assert(lit + b =~= seq![c] + "\t"@ + b);
        lemma_split_single(seq![c]);
        lemma_split_field(seq![c], b);
        assert(seq![seq![c]].push(b) =~= seq![seq![c], b]);
    }
}

/// The fields of the record a command writes in state `s`: the command
/// letter, then its arguments, numbers as their decimal numerals, field
/// text verbatim (the stage name followed by `_X` when a dependency is
/// marked).
pub open spec fn record_fields(s: TraceState, cmd: Command) -> Seq<Seq<char>> {
    match cmd {
        Command::Advance { delta } => seq![seq!['C'], decimal(delta as nat)],
        Command::Start { sim_id, thread } => seq![
            seq!['I'],
            decimal(s.next_id as nat),
            decimal(sim_id as nat),
            decimal(thread as nat),
        ],
        Command::End { id, lane, stage } => seq![
            seq!['E'],
            decimal(id as nat),
            decimal(lane as nat),
            stage,
        ],
        Command::Label { id, level, text } => seq![
            seq!['L'],
            decimal(id as nat),
            (if level is Pane { seq!['0'] } else { seq!['1'] }),
            text,
        ],
        Command::Stage { id, lane, stage, dependency } => seq![
            seq!['S'],
            decimal(id as nat),
            decimal(lane as nat),
            (if dependency { stage + seq!['_', 'X'] } else { stage }),
        ],
        Command::Retire { id } => seq![
            seq!['R'],
            decimal(id as nat),
            decimal(s.next_retire as nat),
            seq!['0'],
        ],
        Command::Flush { id } => seq![
            seq!['R'],
            decimal(id as nat),
            decimal(s.next_retire as nat),
            seq!['1'],
        ],
        Command::Wake { consumer, producer } => seq![
            seq!['W'],
            decimal(consumer as nat),
            decimal(producer as nat),
            seq!['0'],
        ],
    }
}

/// The record a command writes, read back: its first field is the command
/// letter, and the others are its arguments, numbers as their decimal
/// numerals (see `lemma_decimal_spells`), field text verbatim (the stage
/// name followed by `_X` when a dependency is marked). Only `Start`,
/// `Retire` and `Flush` depend on the trace state, and only through the
/// counters they report.
pub proof fn lemma_record_fields(s: TraceState, cmd: Command)
    requires
        cmd matches Command::End { stage, .. } ==> tab_free(stage),
        cmd matches Command::Label { text, .. } ==> tab_free(text),
        cmd matches Command::Stage { stage, .. } ==> tab_free(stage),
    ensures
        fields(line(s, cmd)) == record_fields(s, cmd),
{
    match cmd {
        Command::Advance { .. } => lemma_fields_advance(s, cmd),
        Command::Start { .. } => lemma_fields_start(s, cmd),
        Command::End { .. } => lemma_fields_end(s, cmd),
        Command::Label { .. } => lemma_fields_label(s, cmd),
        Command::Stage { .. } => lemma_fields_stage(s, cmd),
        Command::Retire { .. } => lemma_fields_retire(s, cmd),
        Command::Flush { .. } => lemma_fields_flush(s, cmd),
        Command::Wake { .. } => lemma_fields_wake(s, cmd),
    }
}

#[verifier::spinoff_prover]
proof fn lemma_fields_advance(s: TraceState, cmd: Command)
    requires
        cmd is Advance,
        cmd matches Command::End { stage, .. } ==> tab_free(stage),
        cmd matches Command::Label { text, .. } ==> tab_free(text),
        cmd matches Command::Stage { stage, .. } ==> tab_free(stage),
    ensures
        fields(line(s, cmd)) == record_fields(s, cmd),
{
    reveal_strlit("\t");
    reveal_strlit("\n");
    reveal_strlit("0");
    reveal_strlit("1");
    reveal_strlit("_X");
    reveal_strlit("C\t");
    let l = line(s, cmd);
    match cmd {
        Command::Advance { delta } => {
            let a = decimal(delta as nat);
            lemma_numeral_tab_free(delta as nat);
            assert("C\t"@ =~= seq!['C', '\t']);
            lemma_split_head('C', "C\t"@);
            assert(l.drop_last() =~= "C\t"@ + a);
        },
        _ => {},
    }
}

#[verifier::spinoff_prover]
proof fn lemma_fields_start(s: TraceState, cmd: Command)
    requires
        cmd is Start,
        cmd matches Command::End { stage, .. } ==> tab_free(stage),
        cmd matches Command::Label { text, .. } ==> tab_free(text),
        cmd matches Command::Stage { stage, .. } ==> tab_free(stage),
    ensures
        fields(line(s, cmd)) == record_fields(s, cmd),
{
    reveal_strlit("\t");
    reveal_strlit("\n");
    reveal_strlit("0");
    reveal_strlit("1");
    reveal_strlit("_X");
    reveal_strlit("I\t");
    let l = line(s, cmd);
    match cmd {
        Command::Start { sim_id, thread } => {
            let a = decimal(s.next_id as nat);
            let b = decimal(sim_id as nat);
            let c = decimal(thread as nat);
            lemma_numeral_tab_free(s.next_id as nat);
            lemma_numeral_tab_free(sim_id as nat);
            lemma_numeral_tab_free(thread as nat);
            assert("I\t"@ =~= seq!['I', '\t']);
            lemma_split_head('I', "I\t"@);
            let p1 = "I\t"@ + a;
            lemma_split_field(p1, b);
            lemma_split_field(p1 + "\t"@ + b, c);
            assert(l.drop_last() =~= p1 + "\t"@ + b + "\t"@ + c);
            assert(seq![seq!['I'], a].push(b).push(c) =~= seq![seq!['I'], a, b, c]);
        },
        _ => {},
    }
}

#[verifier::spinoff_prover]
proof fn lemma_fields_end(s: TraceState, cmd: Command)
    requires
        cmd is End,
        cmd matches Command::End { stage, .. } ==> tab_free(stage),
        cmd matches Command::Label { text, .. } ==> tab_free(text),
        cmd matches Command::Stage { stage, .. } ==> tab_free(stage),
    ensures
        fields(line(s, cmd)) == record_fields(s, cmd),
{
    reveal_strlit("\t");
    reveal_strlit("\n");
    reveal_strlit("0");
    reveal_strlit("1");
    reveal_strlit("_X");
    reveal_strlit("E\t");
    let l = line(s, cmd);
    match cmd {
        Command::End { id, lane, stage } => {
            let a = decimal(id as nat);
            let b = decimal(lane as nat);
            lemma_numeral_tab_free(id as nat);
            lemma_numeral_tab_free(lane as nat);
            assert("E\t"@ =~= seq!['E', '\t']);
            lemma_split_head('E', "E\t"@);
            let p1 = "E\t"@ + a;
            lemma_split_field(p1, b);
            lemma_split_field(p1 + "\t"@ + b, stage);
            assert(l.drop_last() =~= p1 + "\t"@ + b + "\t"@ + stage);
            assert(seq![seq!['E'], a].push(b).push(stage) =~= seq![seq!['E'], a, b, stage]);
        },
        _ => {},
    }
}

#[verifier::spinoff_prover]
proof fn lemma_fields_label(s: TraceState, cmd: Command)
    requires
        cmd is Label,
        cmd matches Command::End { stage, .. } ==> tab_free(stage),
        cmd matches Command::Label { text, .. } ==> tab_free(text),
        cmd matches Command::Stage { stage, .. } ==> tab_free(stage),
    ensures
        fields(line(s, cmd)) == record_fields(s, cmd),
{
    reveal_strlit("\t");
    reveal_strlit("\n");
    reveal_strlit("0");
    reveal_strlit("1");
    reveal_strlit("_X");
    reveal_strlit("L\t");
    let l = line(s, cmd);
    match cmd {
        Command::Label { id, level, text } => {
            let a = decimal(id as nat);
            let b = if level is Pane { seq!['0'] } else { seq!['1'] };
            lemma_numeral_tab_free(id as nat);
            assert("L\t"@ =~= seq!['L', '\t']);
            lemma_split_head('L', "L\t"@);
            let p1 = "L\t"@ + a;
            assert(tab_free(b));
            lemma_split_field(p1, b);
            lemma_split_field(p1 + "\t"@ + b, text);
            assert(l.drop_last() =~= p1 + "\t"@ + b + "\t"@ + text);
            assert(seq![seq!['L'], a].push(b).push(text) =~= seq![seq!['L'], a, b, text]);
        },
        _ => {},
    }
}

#[verifier::spinoff_prover]
proof fn lemma_fields_stage(s: TraceState, cmd: Command)
    requires
        cmd is Stage,
        cmd matches Command::End { stage, .. } ==> tab_free(stage),
        cmd matches Command::Label { text, .. } ==> tab_free(text),
        cmd matches Command::Stage { stage, .. } ==> tab_free(stage),
    ensures
        fields(line(s, cmd)) == record_fields(s, cmd),
{
    reveal_strlit("\t");
    reveal_strlit("\n");
    reveal_strlit("0");
    reveal_strlit("1");
    reveal_strlit("_X");
    reveal_strlit("S\t");
    let l = line(s, cmd);
    match cmd {
        Command::Stage { id, lane, stage, dependency } => {
            let a = decimal(id as nat);
            let b = decimal(lane as nat);
            let f = if dependency { stage + seq!['_', 'X'] } else { stage };
            lemma_numeral_tab_free(id as nat);
            lemma_numeral_tab_free(lane as nat);
            assert(tab_free(f)) by {
                if dependency {
                    assert forall|i: int| 0 <= i < f.len() implies f[i] != '\t' by {
                        if i < stage.len() {
                            assert(f[i] == stage[i]);
                        }
                    }
                }
            }
            assert("S\t"@ =~= seq!['S', '\t']);
            lemma_split_head('S', "S\t"@);
            let p1 = "S\t"@ + a;
            lemma_split_field(p1, b);
            lemma_split_field(p1 + "\t"@ + b, f);
            assert(l.drop_last() =~= p1 + "\t"@ + b + "\t"@ + f);
            assert(seq![seq!['S'], a].push(b).push(f) =~= seq![seq!['S'], a, b, f]);
        },
        _ => {},
    }
}

#[verifier::spinoff_prover]
proof fn lemma_fields_retire(s: TraceState, cmd: Command)
    requires
        cmd is Retire,
        cmd matches Command::End { stage, .. } ==> tab_free(stage),
        cmd matches Command::Label { text, .. } ==> tab_free(text),
        cmd matches Command::Stage { stage, .. } ==> tab_free(stage),
    ensures
        fields(line(s, cmd)) == record_fields(s, cmd),
{
    reveal_strlit("\t");
    reveal_strlit("\n");
    reveal_strlit("0");
    reveal_strlit("1");
    reveal_strlit("_X");
    reveal_strlit("R\t");
    let l = line(s, cmd);
    match cmd {
        Command::Retire { id } => {
            let a = decimal(id as nat);
            let b = decimal(s.next_retire as nat);
            lemma_numeral_tab_free(id as nat);
            lemma_numeral_tab_free(s.next_retire as nat);
            assert("R\t"@ =~= seq!['R', '\t']);
            lemma_split_head('R', "R\t"@);
            let p1 = "R\t"@ + a;
            assert(tab_free(seq!['0']));
            lemma_split_field(p1, b);
            lemma_split_field(p1 + "\t"@ + b, seq!['0']);
            assert(l.drop_last() =~= p1 + "\t"@ + b + "\t"@ + seq!['0']);
            assert(seq![seq!['R'], a].push(b).push(seq!['0']) =~= seq![seq!['R'], a, b, seq!['0']]);
        },
        _ => {},
    }
}

#[verifier::spinoff_prover]
proof fn lemma_fields_flush(s: TraceState, cmd: Command)
    requires
        cmd is Flush,
        cmd matches Command::End { stage, .. } ==> tab_free(stage),
        cmd matches Command::Label { text, .. } ==> tab_free(text),
        cmd matches Command::Stage { stage, .. } ==> tab_free(stage),
    ensures
        fields(line(s, cmd)) == record_fields(s, cmd),
{
    reveal_strlit("\t");
    reveal_strlit("\n");
    reveal_strlit("0");
    reveal_strlit("1");
    reveal_strlit("_X");
    reveal_strlit("R\t");
    let l = line(s, cmd);
    match cmd {
        Command::Flush { id } => {
            let a = decimal(id as nat);
            let b = decimal(s.next_retire as nat);
            lemma_numeral_tab_free(id as nat);
            lemma_numeral_tab_free(s.next_retire as nat);
            assert("R\t"@ =~= seq!['R', '\t']);
            lemma_split_head('R', "R\t"@);
            let p1 = "R\t"@ + a;
            assert(tab_free(seq!['1']));
            lemma_split_field(p1, b);
            lemma_split_field(p1 + "\t"@ + b, seq!['1']);
            assert(l.drop_last() =~= p1 + "\t"@ + b + "\t"@ + seq!['1']);
            assert(seq![seq!['R'], a].push(b).push(seq!['1']) =~= seq![seq!['R'], a, b, seq!['1']]);
        },
        _ => {},
    }
}

#[verifier::spinoff_prover]
proof fn lemma_fields_wake(s: TraceState, cmd: Command)
    requires
        cmd is Wake,
        cmd matches Command::End { stage, .. } ==> tab_free(stage),
        cmd matches Command::Label { text, .. } ==> tab_free(text),
        cmd matches Command::Stage { stage, .. } ==> tab_free(stage),
    ensures
        fields(line(s, cmd)) == record_fields(s, cmd),
{
    reveal_strlit("\t");
    reveal_strlit("\n");
    reveal_strlit("0");
    reveal_strlit("1");
    reveal_strlit("_X");
    reveal_strlit("W\t");
    let l = line(s, cmd);
    match cmd {
        Command::Wake { consumer, producer } => {
            let a = decimal(consumer as nat);
            let b = decimal(producer as nat);
            lemma_numeral_tab_free(consumer as nat);
            lemma_numeral_tab_free(producer as nat);
            assert("W\t"@ =~= seq!['W', '\t']);
            lemma_split_head('W', "W\t"@);
            let p1 = "W\t"@ + a;
            assert(tab_free(seq!['0']));
            lemma_split_field(p1, b);
            lemma_split_field(p1 + "\t"@ + b, seq!['0']);
            assert(l.drop_last() =~= p1 + "\t"@ + b + "\t"@ + seq!['0']);
            assert(seq![seq!['W'], a].push(b).push(seq!['0']) =~= seq![seq!['W'], a, b, seq!['0']]);
        },
        _ => {},
    }
}

/// A trace opens with the format version record `Kanata\t0004` and the
/// record `C=\t<cycle>`, the cycle as its decimal numeral.
pub proof fn lemma_header_spelled(cycle: u32)
    ensures
        header(cycle) == seq!['K', 'a', 'n', 'a', 't', 'a', '\t', '0', '0', '0', '4', '\n', 'C', '=', '\t']
            + decimal(cycle as nat) + seq!['\n'],
{
    reveal_strlit("Kanata\t0004\n");
    reveal_strlit("C=\t");
    reveal_strlit("\n");
    assert(header(cycle) =~= seq!['K', 'a', 'n', 'a', 't', 'a', '\t', '0', '0', '0', '4', '\n', 'C', '=', '\t']
        + decimal(cycle as nat) + seq!['\n']);
}

/// Whether `t` holds a tab, a newline or a carriage return.
pub open spec fn holds_separator(t: Seq<char>) -> bool {
    exists|i: int| 0 <= i < t.len() && (#[trigger] t[i] == '\t' || t[i] == '\n' || t[i] == '\r')
}

/// A field text is refused by sanitization exactly when it holds a tab, a
/// newline or a carriage return.
pub proof fn lemma_forbidden_exactly(t: Seq<char>)
    ensures
        has_forbidden(t) <==> holds_separator(t),
{
    if holds_separator(t) {
        let i = choose|i: int| 0 <= i < t.len() && (#[trigger] t[i] == '\t' || t[i] == '\n' || t[i] == '\r');
        assert(crate::sanitizer::is_forbidden(t[i]));
    }
}

/// What the trace refuses, and why, in terms of the command's own
/// arguments: when validating, a command is refused for its id exactly
/// when the instruction it acts on (the consumer, for `W`) is not alive,
/// with `DoubleRetire` for `R` commands and `UnknownId` otherwise; else,
/// when sanitizing, a command is refused exactly when its field text
/// holds a tab, newline or carriage return; nothing else is ever refused.
pub proof fn lemma_refusal_exactly<C: Config>(s: TraceState, cmd: Command)
    ensures
        ({
            let who: Option<u32> = match cmd {
                Command::End { id, .. } => Some(id),
                Command::Label { id, .. } => Some(id),
                Command::Stage { id, .. } => Some(id),
                Command::Retire { id } => Some(id),
                Command::Flush { id } => Some(id),
                Command::Wake { consumer, .. } => Some(consumer),
                _ => None,
            };
            let retiring = match cmd {
                Command::Retire { .. } => true,
                Command::Flush { .. } => true,
                _ => false,
            };
            let txt: Option<Seq<char>> = match cmd {
                Command::End { stage, .. } => Some(stage),
                Command::Label { text, .. } => Some(text),
                Command::Stage { stage, .. } => Some(stage),
                _ => None,
            };
            refusal::<C>(s, cmd) == if C::VALIDATE && who is Some && !s.live.contains(who->0) {
                if retiring {
                    Some(Refusal::DoubleRetire(who->0))
                } else {
                    Some(Refusal::UnknownId(who->0))
                }
            } else if C::SANITIZE && txt is Some && holds_separator(txt->0) {
                Some(Refusal::InvalidLabel(txt->0))
            } else {
                None
            }
        }),
{
    match cmd {
        Command::End { stage, .. } => lemma_forbidden_exactly(stage),
        Command::Label { text, .. } => lemma_forbidden_exactly(text),
        Command::Stage { stage, .. } => lemma_forbidden_exactly(stage),
        _ => {},
    }
}

/// A command on an alive instruction (or, without validation, on any
/// instruction) whose text holds no tab, newline or carriage return is
/// accepted; in particular a `W` is accepted whenever its consumer is
/// alive, whatever the producer.
pub proof fn lemma_alive_and_clean_is_accepted<C: Config>(s: TraceState, cmd: Command)
    requires
        C::VALIDATE ==> match cmd {
            Command::End { id, .. } => s.live.contains(id),
            Command::Label { id, .. } => s.live.contains(id),
            Command::Stage { id, .. } => s.live.contains(id),
            Command::Retire { id } => s.live.contains(id),
            Command::Flush { id } => s.live.contains(id),
            Command::Wake { consumer, .. } => s.live.contains(consumer),
            _ => true,
        },
        match cmd {
            Command::End { stage, .. } => forall|i: int| 0 <= i < stage.len() ==> stage[i] != '\t' && stage[i] != '\n' && stage[i] != '\r',
            Command::Label { text, .. } => forall|i: int| 0 <= i < text.len() ==> text[i] != '\t' && text[i] != '\n' && text[i] != '\r',
            Command::Stage { stage, .. } => forall|i: int| 0 <= i < stage.len() ==> stage[i] != '\t' && stage[i] != '\n' && stage[i] != '\r',
            _ => true,
        },
    ensures
        refusal::<C>(s, cmd) is None,
{
    lemma_refusal_exactly::<C>(s, cmd);
}

/// `Sanitizer::sanitize` accepts exactly the texts without a tab, newline
/// or carriage return, and hands a refused text back unchanged.
pub proof fn lemma_sanitize_exactly(text: Seq<char>, r: crate::error::Result)
    requires
        !has_forbidden(text) ==> r == Ok::<(), Error>(()),
        has_forbidden(text) ==> (r matches Err(Error::InvalidLabel(s)) && s@ == text),
    ensures
        r is Ok <==> forall|i: int| 0 <= i < text.len() ==> text[i] != '\t' && text[i] != '\n' && text[i] != '\r',
        r is Err ==> (r matches Err(Error::InvalidLabel(s)) && s@ == text),
{
    lemma_forbidden_exactly(text);
}

} // verus!
