use kiseki::{Config, Error, Id, Level, Result, Trace};

/// Both lifecycle validation and label sanitization run with their
/// default `true` settings.
struct Cfg;

impl Config for Cfg {}

/// Lifecycle validation disabled.
struct CfgNoValidate;

impl Config for CfgNoValidate {
    const VALIDATE: bool = false;
    const SANITIZE: bool = true;
}

/// Label sanitization disabled.
struct CfgNoSanitize;

impl Config for CfgNoSanitize {
    const VALIDATE: bool = true;
    const SANITIZE: bool = false;
}

/// A user type with its own `Display`.
struct Wrapped(u32);

impl std::fmt::Display for Wrapped {
    fn fmt(&self, f: &mut std::fmt::Formatter<'_>) -> std::fmt::Result {
        f.write_str(&format!("wrapped({})", self.0))
    }
}

fn make(cycle: u32) -> Trace<Cfg> {
    let output = Vec::new();
    Trace::new(cycle, output).unwrap()
}

#[allow(clippy::unnecessary_wraps)]
fn success(trace: Trace<Cfg>, expected: &'static str) -> Result {
    let bytes = trace.finish().unwrap();
    let actual = std::str::from_utf8(&bytes).unwrap();
    assert_eq!(actual, expected);
    Ok(())
}

#[allow(clippy::unnecessary_wraps)]
fn failure(trace: Trace<Cfg>, message: &'static str) -> Result {
    let error = trace.finish().unwrap_err().to_string();
    assert_eq!(&error, message);
    Ok(())
}

#[test]
fn header_carries_initial_cycle() -> Result {
    let trace = make(42);
    success(trace, "Kanata\t0004\nC=\t42\n")
}

#[test]
fn default_carries_cycle_zero() -> Result {
    let trace = Trace::<Cfg>::default();
    success(trace, "Kanata\t0004\nC=\t0\n")
}

#[test]
fn advance_emits_delta() -> Result {
    let mut trace = make(0);
    trace.advance(3)?;
    trace.advance(1)?;
    success(
        trace,
        "Kanata\t0004\nC=\t0\nC\t3\nC\t1\n",
    )
}

#[test]
fn start_hands_out_monotonic_ids() -> Result {
    let mut trace = make(0);
    let a = trace.start(10, 0)?;
    let b = trace.start(11, 1)?;
    let c = trace.start(12, 0)?;
    assert_eq!(a.get(), 0);
    assert_eq!(b.get(), 1);
    assert_eq!(c.get(), 2);
    trace.retire(a)?;
    trace.retire(b)?;
    trace.retire(c)?;
    success(
        trace,
        "Kanata\t0004\nC=\t0\nI\t0\t10\t0\nI\t1\t11\t1\nI\t2\t12\t0\nR\t0\t0\t0\nR\t1\t1\t0\nR\t2\t2\t0\n",
    )
}

#[test]
fn end_emits_stage_boundary() -> Result {
    let mut trace = make(0);
    let id = trace.start(0, 0)?;
    trace.stage(id, 0, &"fetch", false)?;
    trace.end(id, 0, &"fetch")?;
    trace.retire(id)?;
    success(
        trace,
        "Kanata\t0004\nC=\t0\nI\t0\t0\t0\nS\t0\t0\tfetch\nE\t0\t0\tfetch\nR\t0\t0\t0\n",
    )
}

// `E` is only required when one stage is NOT immediately followed
// by another. The Kanata format infers stage ends implicitly from
// the next `S`, so emitting `E` is the exception, not the rule.
#[test]
fn stages_chain_without_explicit_end() -> Result {
    let mut trace = make(0);
    let id = trace.start(0, 0)?;
    trace.stage(id, 0, &"fetch", false)?;
    trace.stage(id, 0, &"decode", false)?;
    trace.retire(id)?;
    success(
        trace,
        "Kanata\t0004\nC=\t0\nI\t0\t0\t0\nS\t0\t0\tfetch\nS\t0\t0\tdecode\nR\t0\t0\t0\n",
    )
}

// `_X` suffix on stage name is a Kanata convention: only stages
// marked with `X` are eligible producer/consumer endpoints for
// `W` (wake) arrows. Without it, the viewer drops the arrow.
#[test]
fn stage_with_dependency_marker() -> Result {
    let mut trace = make(0);
    let id = trace.start(0, 0)?;
    trace.stage(id, 0, &"exec", true)?;
    trace.retire(id)?;
    success(
        trace,
        "Kanata\t0004\nC=\t0\nI\t0\t0\t0\nS\t0\t0\texec_X\nR\t0\t0\t0\n",
    )
}

#[test]
fn lane_index_is_preserved() -> Result {
    let mut trace = make(0);
    let id = trace.start(0, 0)?;
    trace.stage(id, 7, &"stall", false)?;
    trace.end(id, 7, &"stall")?;
    trace.retire(id)?;
    success(
        trace,
        "Kanata\t0004\nC=\t0\nI\t0\t0\t0\nS\t0\t7\tstall\nE\t0\t7\tstall\nR\t0\t0\t0\n",
    )
}

// `L` type `0` lands in the left instruction pane, `L` type `1`
// becomes a hover tooltip. The numeric encoding is the only thing
// Kanata understands, so `Level` exists purely to give callers a
// readable spelling.
#[test]
fn label_pane_and_hover_use_distinct_types() -> Result {
    let mut trace = make(0);
    let id = trace.start(0, 0)?;
    trace.label(id, "0x100: addi", Level::Pane)?;
    trace.label(id, "rs1=5 rs2=7", Level::Hover)?;
    trace.retire(id)?;
    success(
        trace,
        "Kanata\t0004\nC=\t0\nI\t0\t0\t0\nL\t0\t0\t0x100: addi\nL\t0\t1\trs1=5 rs2=7\nR\t0\t0\t0\n",
    )
}

// Retire bumps the retirement counter; flush reuses the current
// value without bumping. This mirrors the Kanata convention that
// a speculative instruction's `RETIRE_ID` may overlap with the
// next committed instruction, so the test exists to lock in that
// quirk rather than test "real" behavior.
#[test]
fn flush_reuses_retirement_id_then_retire_bumps() -> Result {
    let mut trace = make(0);
    let a = trace.start(0, 0)?;
    let b = trace.start(1, 0)?;
    let c = trace.start(2, 0)?;
    trace.retire(a)?; // rid 0, bumps to 1
    trace.flush(b)?; // rid 1, no bump
    trace.retire(c)?; // rid 1, bumps to 2
    success(
        trace,
        "Kanata\t0004\nC=\t0\nI\t0\t0\t0\nI\t1\t1\t0\nI\t2\t2\t0\nR\t0\t0\t0\nR\t1\t1\t1\nR\t2\t1\t0\n",
    )
}

// By specification, a `W` arrow's producer is allowed to have
// already retired by the time the consumer wakes up: only the
// consumer must still be alive. This test pins down that
// asymmetric validation rule.
#[test]
fn wake_allows_retired_producer() -> Result {
    let mut trace = make(0);
    let producer = trace.start(0, 0)?;
    let consumer = trace.start(1, 0)?;
    trace.retire(producer)?;
    trace.wake(consumer, producer)?;
    trace.retire(consumer)?;
    success(
        trace,
        "Kanata\t0004\nC=\t0\nI\t0\t0\t0\nI\t1\t1\t0\nR\t0\t0\t0\nW\t1\t0\t0\nR\t1\t1\t0\n",
    )
}

#[test]
fn stage_on_unknown_id_errors() {
    let mut trace = make(0);
    let bogus = Id::new(99);
    let err = trace.stage(bogus, 0, &"fetch", false).unwrap_err();
    assert!(matches!(err, Error::UnknownId(id) if id == bogus));
}

#[test]
fn end_on_unknown_id_errors() {
    let mut trace = make(0);
    let err = trace.end(Id::new(5), 0, &"fetch").unwrap_err();
    assert!(matches!(err, Error::UnknownId(id) if id == Id::new(5)));
}

#[test]
fn label_on_unknown_id_errors() {
    let mut trace = make(0);
    let err = trace.label(Id::new(5), "x", Level::Pane).unwrap_err();
    assert!(matches!(err, Error::UnknownId(id) if id == Id::new(5)));
}

#[test]
fn wake_on_unknown_consumer_errors() {
    let mut trace = make(0);
    let err = trace.wake(Id::new(5), Id::new(0)).unwrap_err();
    assert!(matches!(err, Error::UnknownId(id) if id == Id::new(5)));
}

#[test]
fn stage_after_retire_errors() -> Result {
    let mut trace = make(0);
    let id = trace.start(0, 0)?;
    trace.retire(id)?;
    let err = trace.stage(id, 0, &"fetch", false).unwrap_err();
    assert!(matches!(err, Error::UnknownId(x) if x == id));
    Ok(())
}

#[test]
fn double_retire_errors() -> Result {
    let mut trace = make(0);
    let id = trace.start(0, 0)?;
    trace.retire(id)?;
    let err = trace.retire(id).unwrap_err();
    assert!(matches!(err, Error::DoubleRetire(x) if x == id));
    Ok(())
}

#[test]
fn flush_after_retire_errors() -> Result {
    let mut trace = make(0);
    let id = trace.start(0, 0)?;
    trace.retire(id)?;
    let err = trace.flush(id).unwrap_err();
    assert!(matches!(err, Error::DoubleRetire(x) if x == id));
    Ok(())
}

#[test]
fn dangling_ids_reported_on_finish() -> Result {
    let mut trace = make(0);
    let _ = trace.start(0, 0)?;
    let _ = trace.start(1, 0)?;
    let bytes = trace.finish().unwrap_err();
    match bytes {
        Error::DanglingIds(mut ids) => {
            ids.sort();
            assert_eq!(ids, vec![Id::new(0), Id::new(1)]);
        }
        other => panic!("expected DanglingIds, got {other:?}"),
    }
    Ok(())
}

#[test]
fn unfinished_trace_message() -> Result {
    let mut trace = make(0);
    let _ = trace.start(0, 0)?;
    failure(
        trace,
        "trace finished with 1 dangling instruction(s): [Id(0)]",
    )
}

#[test]
fn error_display_variants() {
    let io = std::io::Error::other("disk full");
    assert_eq!(Error::Write(io).to_string(), "write failed: disk full");
    assert_eq!(
        Error::UnknownId(Id::new(7)).to_string(),
        "unknown instruction id: 7"
    );
    assert_eq!(
        Error::DoubleRetire(Id::new(3)).to_string(),
        "instruction 3 retired or flushed more than once",
    );
}

#[test]
fn io_error_converts_into_write() {
    let io = std::io::Error::other("nope");
    let err: Error = io.into();
    assert!(matches!(err, Error::Write(_)));
}

#[test]
fn id_display_matches_inner() {
    assert_eq!(Id::new(0).to_string(), "0");
    assert_eq!(Id::new(12345).to_string(), "12345");
}

#[test]
fn level_display_uses_numeric_encoding() {
    assert_eq!(Level::Pane.as_str(), "0");
    assert_eq!(Level::Hover.as_str(), "1");
}

#[test]
fn advance_zero_emits_command() -> Result {
    let mut trace = make(0);
    trace.advance(0)?;
    success(trace, "Kanata\t0004\nC=\t0\nC\t0\n")
}

#[test]
fn advance_large_delta() -> Result {
    let mut trace = make(0);
    trace.advance(u32::MAX)?;
    success(
        trace,
        "Kanata\t0004\nC=\t0\nC\t4294967295\n",
    )
}

#[test]
fn initial_cycle_max_value() -> Result {
    let trace = make(u32::MAX);
    success(trace, "Kanata\t0004\nC=\t4294967295\n")
}

// Stage on lane 1 typically overlays stall/flush info above the
// main pipeline on lane 0 for the same instruction.
#[test]
fn multi_lane_overlay_same_instruction() -> Result {
    let mut trace = make(0);
    let id = trace.start(0, 0)?;
    trace.stage(id, 0, &"fetch", false)?;
    trace.stage(id, 1, &"stall", false)?;
    trace.end(id, 1, &"stall")?;
    trace.retire(id)?;
    success(
        trace,
        "Kanata\t0004\nC=\t0\nI\t0\t0\t0\nS\t0\t0\tfetch\nS\t0\t1\tstall\nE\t0\t1\tstall\nR\t0\t0\t0\n",
    )
}

// Retiring a sibling before starting a new instruction must not
// reset the file-local id counter; ids are monotonic across the
// entire trace lifetime.
#[test]
fn ids_keep_growing_after_retire() -> Result {
    let mut trace = make(0);
    let a = trace.start(0, 0)?;
    trace.retire(a)?;
    let b = trace.start(1, 0)?;
    trace.retire(b)?;
    assert_eq!(a.get(), 0);
    assert_eq!(b.get(), 1);
    success(
        trace,
        "Kanata\t0004\nC=\t0\nI\t0\t0\t0\nR\t0\t0\t0\nI\t1\t1\t0\nR\t1\t1\t0\n",
    )
}

#[test]
fn label_between_stages_is_allowed() -> Result {
    let mut trace = make(0);
    let id = trace.start(0, 0)?;
    trace.stage(id, 0, &"fetch", false)?;
    trace.label(id, "mid", Level::Hover)?;
    trace.stage(id, 0, &"decode", false)?;
    trace.retire(id)?;
    success(
        trace,
        "Kanata\t0004\nC=\t0\nI\t0\t0\t0\nS\t0\t0\tfetch\nL\t0\t1\tmid\nS\t0\t0\tdecode\nR\t0\t0\t0\n",
    )
}

// One consumer waking from several producers needs one `W` per
// edge; the consumer remains alive across all of them.
#[test]
fn multiple_wakes_for_one_consumer() -> Result {
    let mut trace = make(0);
    let p1 = trace.start(0, 0)?;
    let p2 = trace.start(1, 0)?;
    let consumer = trace.start(2, 0)?;
    trace.retire(p1)?;
    trace.wake(consumer, p1)?;
    trace.wake(consumer, p2)?;
    trace.retire(p2)?;
    trace.retire(consumer)?;
    success(
        trace,
        "Kanata\t0004\nC=\t0\nI\t0\t0\t0\nI\t1\t1\t0\nI\t2\t2\t0\nR\t0\t0\t0\nW\t2\t0\t0\nW\t2\t1\t0\nR\t1\t1\t0\nR\t2\t2\t0\n",
    )
}

// The validator only tracks the consumer side of `W`, so a
// producer id that was never issued is silently accepted. This
// matches the Kanata spec, which permits referring to instructions
// outside the local trace window.
#[test]
fn wake_accepts_unissued_producer() -> Result {
    let mut trace = make(0);
    let consumer = trace.start(0, 0)?;
    trace.wake(consumer, Id::new(999))?;
    trace.retire(consumer)?;
    success(
        trace,
        "Kanata\t0004\nC=\t0\nI\t0\t0\t0\nW\t0\t999\t0\nR\t0\t0\t0\n",
    )
}

// Flush is a valid terminal state: an instruction can leave the
// pipeline without ever retiring. Validator must accept this as
// a clean lifecycle close.
#[test]
fn flush_alone_closes_lifecycle() -> Result {
    let mut trace = make(0);
    let id = trace.start(0, 0)?;
    trace.flush(id)?;
    success(
        trace,
        "Kanata\t0004\nC=\t0\nI\t0\t0\t0\nR\t0\t0\t1\n",
    )
}

#[test]
fn advance_then_stage_uses_new_cycle_implicitly() -> Result {
    let mut trace = make(0);
    let id = trace.start(0, 0)?;
    trace.stage(id, 0, &"fetch", false)?;
    trace.advance(1)?;
    trace.stage(id, 0, &"decode", false)?;
    trace.advance(2)?;
    trace.retire(id)?;
    success(
        trace,
        "Kanata\t0004\nC=\t0\nI\t0\t0\t0\nS\t0\t0\tfetch\nC\t1\nS\t0\t0\tdecode\nC\t2\nR\t0\t0\t0\n",
    )
}

// `INSN_ID_IN_SIM` and `thread` are pass-through fields. The
// crate places no restriction on their values beyond `u32`.
#[test]
fn start_passes_through_sim_id_and_thread() -> Result {
    let mut trace = make(0);
    let id = trace.start(u32::MAX, 7)?;
    trace.retire(id)?;
    success(
        trace,
        "Kanata\t0004\nC=\t0\nI\t0\t4294967295\t7\nR\t0\t0\t0\n",
    )
}

#[test]
fn label_display_uses_user_impl() -> Result {
    let mut trace = make(0);
    let id = trace.start(0, 0)?;
    trace.label(id, &Wrapped(42).to_string(), Level::Pane)?;
    trace.retire(id)?;
    success(
        trace,
        "Kanata\t0004\nC=\t0\nI\t0\t0\t0\nL\t0\t0\twrapped(42)\nR\t0\t0\t0\n",
    )
}

#[test]
fn finish_after_success_returns_full_bytes() -> Result {
    let mut trace = make(0);
    let id = trace.start(0, 0)?;
    trace.retire(id)?;
    let bytes = trace.finish()?;
    assert_eq!(
        std::str::from_utf8(&bytes).unwrap(),
        "Kanata\t0004\nC=\t0\nI\t0\t0\t0\nR\t0\t0\t0\n",
    );
    Ok(())
}


#[test]
fn validate_disabled_bypasses_lifecycle_checks() -> Result {
    let mut trace = Trace::<CfgNoValidate>::new(0, Vec::new())?;
    let bogus = Id::new(99);
    trace.stage(bogus, 0, &"fetch", false)?;
    trace.end(bogus, 0, &"fetch")?;
    trace.label(bogus, "x", Level::Pane)?;
    trace.wake(bogus, Id::new(123))?;
    trace.retire(bogus)?;
    trace.flush(bogus)?;
    let bytes = trace.finish()?;
    let text = std::str::from_utf8(&bytes).unwrap();
    assert!(text.starts_with("Kanata\t0004\nC=\t0\n"));
    assert!(text.contains("S\t99\t0\tfetch\n"));
    assert!(text.contains("R\t99\t0\t0\n"));
    Ok(())
}

#[test]
fn validate_disabled_finish_ignores_dangling() -> Result {
    let mut trace = Trace::<CfgNoValidate>::new(0, Vec::new())?;
    let _ = trace.start(0, 0)?;
    let _ = trace.start(1, 0)?;
    let _ = trace.finish()?;
    Ok(())
}

#[test]
fn sanitize_disabled_passes_forbidden_chars() -> Result {
    let mut trace = Trace::<CfgNoSanitize>::new(0, Vec::new())?;
    let id = trace.start(0, 0)?;
    trace.label(id, "tab\there", Level::Pane)?;
    trace.retire(id)?;
    let bytes = trace.finish()?;
    let text = std::str::from_utf8(&bytes).unwrap();
    assert!(text.contains("L\t0\t0\ttab\there\n"));
    Ok(())
}

#[test]
fn stage_sanitize_disabled_passes_forbidden_chars() -> Result {
    let mut trace = Trace::<CfgNoSanitize>::new(0, Vec::new())?;
    let id = trace.start(0, 0)?;
    trace.stage(id, 0, &"tab\there", false)?;
    trace.retire(id)?;
    let bytes = trace.finish()?;
    let text = std::str::from_utf8(&bytes).unwrap();
    assert!(text.contains("S\t0\t0\ttab\there\n"));
    Ok(())
}

#[test]
fn end_sanitize_disabled_passes_forbidden_chars() -> Result {
    let mut trace = Trace::<CfgNoSanitize>::new(0, Vec::new())?;
    let id = trace.start(0, 0)?;
    trace.end(id, 0, &"tab\there")?;
    trace.retire(id)?;
    let bytes = trace.finish()?;
    let text = std::str::from_utf8(&bytes).unwrap();
    assert!(text.contains("E\t0\t0\ttab\there\n"));
    Ok(())
}

#[test]
fn stage_validate_disabled_still_sanitizes() -> Result {
    let mut trace = Trace::<CfgNoValidate>::new(0, Vec::new())?;
    let err = trace
        .stage(Id::new(0), 0, &"bad\tstage", false)
        .unwrap_err();
    assert!(matches!(err, Error::InvalidLabel(s) if s == "bad\tstage"));
    Ok(())
}

#[test]
fn end_validate_disabled_still_sanitizes() -> Result {
    let mut trace = Trace::<CfgNoValidate>::new(0, Vec::new())?;
    let err = trace.end(Id::new(0), 0, &"bad\tstage").unwrap_err();
    assert!(matches!(err, Error::InvalidLabel(s) if s == "bad\tstage"));
    Ok(())
}

#[test]
fn stage_with_tab_is_rejected() -> Result {
    let mut trace = make(0);
    let id = trace.start(0, 0)?;
    let err = trace.stage(id, 0, &"bad\tstage", false).unwrap_err();
    assert!(matches!(err, Error::InvalidLabel(s) if s == "bad\tstage"));
    trace.retire(id)?;
    Ok(())
}

#[test]
fn end_with_tab_is_rejected() -> Result {
    let mut trace = make(0);
    let id = trace.start(0, 0)?;
    let err = trace.end(id, 0, &"bad\tstage").unwrap_err();
    assert!(matches!(err, Error::InvalidLabel(s) if s == "bad\tstage"));
    trace.retire(id)?;
    Ok(())
}

#[test]
fn label_with_tab_is_rejected() -> Result {
    let mut trace = make(0);
    let id = trace.start(0, 0)?;
    let err = trace.label(id, "bad\ttext", Level::Pane).unwrap_err();
    assert!(matches!(err, Error::InvalidLabel(s) if s == "bad\ttext"));
    trace.retire(id)?;
    Ok(())
}

#[test]
fn label_with_newline_is_rejected() -> Result {
    let mut trace = make(0);
    let id = trace.start(0, 0)?;
    let err = trace.label(id, "line\nbreak", Level::Pane).unwrap_err();
    assert!(matches!(err, Error::InvalidLabel(s) if s == "line\nbreak"));
    trace.retire(id)?;
    Ok(())
}

#[test]
fn label_with_carriage_return_is_rejected() -> Result {
    let mut trace = make(0);
    let id = trace.start(0, 0)?;
    let err = trace.label(id, "cr\rhere", Level::Pane).unwrap_err();
    assert!(matches!(err, Error::InvalidLabel(s) if s == "cr\rhere"));
    trace.retire(id)?;
    Ok(())
}

#[test]
fn rejected_label_does_not_emit() -> Result {
    let mut trace = make(0);
    let id = trace.start(0, 0)?;
    let _ = trace.label(id, "x\ty", Level::Pane);
    trace.retire(id)?;
    let bytes = trace.finish()?;
    let text = std::str::from_utf8(&bytes).unwrap();
    assert!(!text.contains("x\ty"));
    assert!(!text.contains('L'));
    Ok(())
}

#[test]
fn invalid_label_display() {
    let err = Error::InvalidLabel("bad\tlabel".into());
    assert_eq!(err.to_string(), "incompatible label name: \"bad\\tlabel\"");
}

// Wake with a consumer that has already retired must
// error since the consumer side requires liveness.
#[test]
fn wake_after_consumer_retired_errors() -> Result {
    let mut trace = make(0);
    let producer = trace.start(0, 0)?;
    let consumer = trace.start(1, 0)?;
    trace.retire(consumer)?;
    let err = trace.wake(consumer, producer).unwrap_err();
    assert!(matches!(err, Error::UnknownId(id) if id == consumer));
    trace.retire(producer)?;
    Ok(())
}

#[test]
fn label_after_retire_errors() -> Result {
    let mut trace = make(0);
    let id = trace.start(0, 0)?;
    trace.retire(id)?;
    let err = trace.label(id, "post", Level::Pane).unwrap_err();
    assert!(matches!(err, Error::UnknownId(x) if x == id));
    Ok(())
}

#[test]
fn end_after_retire_errors() -> Result {
    let mut trace = make(0);
    let id = trace.start(0, 0)?;
    trace.retire(id)?;
    let err = trace.end(id, 0, &"fetch").unwrap_err();
    assert!(matches!(err, Error::UnknownId(x) if x == id));
    Ok(())
}

#[test]
fn small_pipeline_three_instructions() -> Result {
    let mut trace = make(0);
    let a = trace.start(0, 0)?;
    trace.stage(a, 0, &"F", false)?;
    trace.advance(1)?;
    let b = trace.start(1, 0)?;
    trace.stage(a, 0, &"D", false)?;
    trace.stage(b, 0, &"F", false)?;
    trace.advance(1)?;
    let c = trace.start(2, 0)?;
    trace.stage(a, 0, &"X", true)?;
    trace.stage(b, 0, &"D", false)?;
    trace.stage(c, 0, &"F", false)?;
    trace.advance(1)?;
    trace.stage(c, 0, &"X", true)?;
    trace.wake(c, a)?;
    trace.retire(a)?;
    trace.retire(b)?;
    trace.retire(c)?;
    success(
        trace,
        "Kanata\t0004\nC=\t0\nI\t0\t0\t0\nS\t0\t0\tF\nC\t1\nI\t1\t1\t0\nS\t0\t0\tD\nS\t1\t0\tF\nC\t1\nI\t2\t2\t0\nS\t0\t0\tX_X\nS\t1\t0\tD\nS\t2\t0\tF\nC\t1\nS\t2\t0\tX_X\nW\t2\t0\t0\nR\t0\t0\t0\nR\t1\t1\t0\nR\t2\t2\t0\n",
    )
}
