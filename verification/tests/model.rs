use kiseki::error::write_failed_message;
use kiseki::{Config, Error, Id, Level, Result, Sanitizer, Trace};

struct Checked;

impl Config for Checked {}

struct Unchecked;

impl Config for Unchecked {
    const VALIDATE: bool = false;
    const SANITIZE: bool = false;
}

struct NoValidation;

impl Config for NoValidation {
    const VALIDATE: bool = false;
    const SANITIZE: bool = true;
}

fn text(bytes: &[u8]) -> &str {
    std::str::from_utf8(bytes).unwrap()
}

#[test]
fn output_keeps_existing_bytes() -> Result {
    let trace = Trace::<Checked>::new(5, b"prefix\n".to_vec())?;
    let bytes = trace.finish()?;
    assert_eq!(text(&bytes), "prefix\nKanata\t0004\nC=\t5\n");
    Ok(())
}

#[test]
fn refused_commands_add_no_line() -> Result {
    let mut trace = Trace::<Checked>::new(0, Vec::new())?;
    let id = trace.start(1, 2)?;
    assert!(trace.label(id, "a\nb", Level::Hover).is_err());
    assert!(trace.stage(id, 0, "x\ry", true).is_err());
    assert!(trace.end(Id::new(9), 0, "fetch").is_err());
    trace.label(id, "ok", Level::Hover)?;
    trace.retire(id)?;
    let bytes = trace.finish()?;
    let out = text(&bytes);
    assert_eq!(out.matches('\n').count(), 2 + 3);
    assert!(!out.contains('\r'));
    assert_eq!(out, "Kanata\t0004\nC=\t0\nI\t0\t1\t2\nL\t0\t1\tok\nR\t0\t0\t0\n");
    Ok(())
}

#[test]
fn every_record_has_its_field_count() -> Result {
    let mut trace = Trace::<Checked>::new(3, Vec::new())?;
    let a = trace.start(7, 1)?;
    trace.stage(a, 2, "exec", true)?;
    trace.label(a, "pc=0x10", Level::Pane)?;
    trace.advance(4)?;
    trace.end(a, 2, "exec")?;
    trace.wake(a, Id::new(42))?;
    trace.flush(a)?;
    let bytes = trace.finish()?;
    for line in text(&bytes).lines() {
        let tabs = line.matches('\t').count();
        if line.starts_with('C') && !line.starts_with("C=") {
            assert_eq!(tabs, 1);
        } else if line.starts_with("Kanata") || line.starts_with("C=") {
            assert_eq!(tabs, 1);
        } else {
            assert_eq!(tabs, 3);
        }
    }
    Ok(())
}

#[test]
fn dangling_ids_come_in_increasing_order() -> Result {
    let mut trace = Trace::<Checked>::new(0, Vec::new())?;
    let a = trace.start(0, 0)?;
    let b = trace.start(0, 0)?;
    let c = trace.start(0, 0)?;
    trace.retire(b)?;
    let err = trace.finish().unwrap_err();
    assert_eq!(
        err.to_string(),
        "trace finished with 2 dangling instruction(s): [Id(0), Id(2)]"
    );
    match err {
        Error::DanglingIds(ids) => assert_eq!(ids, vec![a, c]),
        other => panic!("expected DanglingIds, got {other:?}"),
    }
    Ok(())
}

#[test]
fn closed_instruction_is_refused_by_every_command() -> Result {
    let mut trace = Trace::<Checked>::new(0, Vec::new())?;
    let id = trace.start(0, 0)?;
    trace.flush(id)?;
    assert!(matches!(trace.stage(id, 0, "F", false), Err(Error::UnknownId(x)) if x == id));
    assert!(matches!(trace.end(id, 0, "F"), Err(Error::UnknownId(x)) if x == id));
    assert!(matches!(trace.label(id, "t", Level::Pane), Err(Error::UnknownId(x)) if x == id));
    assert!(matches!(trace.wake(id, id), Err(Error::UnknownId(x)) if x == id));
    assert!(matches!(trace.retire(id), Err(Error::DoubleRetire(x)) if x == id));
    assert!(matches!(trace.flush(id), Err(Error::DoubleRetire(x)) if x == id));
    Ok(())
}

#[test]
fn validation_comes_before_sanitization() {
    let mut trace = Trace::<Checked>::new(0, Vec::new()).unwrap();
    let err = trace.label(Id::new(3), "bad\ttext", Level::Pane).unwrap_err();
    assert!(matches!(err, Error::UnknownId(x) if x == Id::new(3)));
}

#[test]
fn flushes_share_the_pending_retire_id() -> Result {
    let mut trace = Trace::<Checked>::new(0, Vec::new())?;
    let a = trace.start(0, 0)?;
    let b = trace.start(0, 0)?;
    let c = trace.start(0, 0)?;
    trace.flush(a)?;
    trace.flush(b)?;
    trace.retire(c)?;
    let bytes = trace.finish()?;
    assert!(text(&bytes).ends_with("R\t0\t0\t1\nR\t1\t0\t1\nR\t2\t0\t0\n"));
    Ok(())
}

#[test]
fn unchecked_config_accepts_everything() -> Result {
    let mut trace = Trace::<Unchecked>::new(0, Vec::new())?;
    let bogus = Id::new(17);
    trace.label(bogus, "a\tb", Level::Hover)?;
    trace.retire(bogus)?;
    trace.retire(bogus)?;
    let _ = trace.start(0, 0)?;
    let bytes = trace.finish()?;
    assert_eq!(
        text(&bytes),
        "Kanata\t0004\nC=\t0\nL\t17\t1\ta\tb\nR\t17\t0\t0\nR\t17\t1\t0\nI\t0\t0\t0\n"
    );
    Ok(())
}

#[test]
fn unvalidated_label_is_still_sanitized() {
    let mut trace = Trace::<NoValidation>::new(0, Vec::new()).unwrap();
    let err = trace.label(Id::new(1), "x\ny", Level::Pane).unwrap_err();
    assert!(matches!(err, Error::InvalidLabel(s) if s == "x\ny"));
}

#[test]
fn decimal_spelling_of_ids() {
    assert_eq!(Id::new(10).to_string(), "10");
    assert_eq!(Id::new(u32::MAX).to_string(), "4294967295");
    assert_eq!(Id::new(7).index(), 7);
}

#[test]
fn bump_returns_the_previous_value() {
    let mut id = Id::new(41);
    let issued = id.bump();
    assert_eq!(issued.get(), 41);
    assert_eq!(id.get(), 42);
}

#[test]
fn sanitizer_rejects_each_separator() {
    assert!(Sanitizer::sanitize("plain text, 0x10: add").is_ok());
    assert!(Sanitizer::sanitize("").is_ok());
    for bad in ["\t", "a\nb", "end\r", "\u{e9}\t"] {
        assert!(matches!(Sanitizer::sanitize(bad), Err(Error::InvalidLabel(s)) if s == bad));
    }
}

#[test]
fn non_ascii_text_is_written_as_utf8() -> Result {
    let mut trace = Trace::<Checked>::new(0, Vec::new())?;
    let id = trace.start(0, 0)?;
    trace.label(id, "r\u{e9}g \u{2192} x", Level::Pane)?;
    trace.retire(id)?;
    let bytes = trace.finish()?;
    assert!(text(&bytes).contains("L\t0\t0\tr\u{e9}g \u{2192} x\n"));
    Ok(())
}

#[test]
fn invalid_label_message_escapes_quotes() {
    let err = Error::InvalidLabel("say \"hi\"\t".into());
    assert_eq!(err.to_string(), "incompatible label name: \"say \\\"hi\\\"\\t\"");
}

#[test]
fn write_message_carries_io_detail() {
    let err = Error::Write(std::io::Error::other("broken pipe"));
    assert_eq!(err.to_string(), "write failed: broken pipe");
}

#[test]
fn level_spelling() {
    assert_eq!(Level::Pane.as_str(), "0");
    assert_eq!(Level::Hover.as_str(), "1");
}

#[test]
fn take_output_hands_over_each_part_once() -> Result {
    let mut trace = Trace::<Checked>::new(1, b">".to_vec())?;
    assert_eq!(text(&trace.take_output()), ">Kanata\t0004\nC=\t1\n");
    assert_eq!(trace.take_output(), Vec::<u8>::new());
    let id = trace.start(5, 0)?;
    assert_eq!(text(&trace.take_output()), "I\t0\t5\t0\n");
    trace.retire(id)?;
    let rest = trace.finish()?;
    assert_eq!(text(&rest), "R\t0\t0\t0\n");
    Ok(())
}

#[test]
fn dangling_trace_has_already_handed_over_its_lines() -> Result {
    let mut trace = Trace::<Checked>::new(0, Vec::new())?;
    let _ = trace.start(0, 0)?;
    let written = trace.take_output();
    assert_eq!(text(&written), "Kanata\t0004\nC=\t0\nI\t0\t0\t0\n");
    assert!(matches!(trace.finish(), Err(Error::DanglingIds(_))));
    Ok(())
}

#[test]
fn write_failed_message_appends_detail() {
    assert_eq!(write_failed_message("disk full"), "write failed: disk full");
    assert_eq!(write_failed_message(""), "write failed: ");
}
