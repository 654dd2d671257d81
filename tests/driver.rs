use xdelta_stream::driver::{Action, Driver, Phase, Signal};

/// Hands the pending output to a sink that takes at most `cap` bytes per
/// write, until the driver asks for something else.
fn drain(d: &mut Driver, sink: &mut Vec<u8>, cap: usize) -> Action {
    loop {
        let rest = &d.pending()[d.written_len()..];
        let n = rest.len().min(cap);
        sink.extend_from_slice(&rest[..n]);
        let a = d.written(n);
        if a != Action::Write {
            return a;
        }
    }
}

#[test]
fn small_writes_deliver_every_byte_in_order() {
    let mut d = Driver::new();
    let mut sink = Vec::new();
    assert!(!d.input_read(10));
    let produced: Vec<u8> = (0u8..23).collect();
    assert_eq!(d.signal(Signal::Output(produced.clone())), Action::Write);
    assert_eq!(drain(&mut d, &mut sink, 3), Action::ConsumeOutput);
    assert_eq!(d.phase(), Phase::Stepping);
    assert_eq!(d.signal(Signal::Output(vec![100, 101])), Action::Write);
    assert_eq!(drain(&mut d, &mut sink, 1), Action::ConsumeOutput);
    let mut expected = produced;
    expected.extend_from_slice(&[100, 101]);
    assert_eq!(sink, expected);
}

#[test]
fn zero_read_flushes_once_and_finishes() {
    let mut d = Driver::new();
    assert!(!d.input_read(5));
    assert_eq!(d.signal(Signal::Input), Action::ReadInput);
    assert_eq!(d.phase(), Phase::Reading);
    assert!(d.input_read(0));
    assert_eq!(d.signal(Signal::WinStart), Action::Step);
    assert_eq!(d.signal(Signal::GetSrcBlk), Action::ServeBlock);
    assert_eq!(d.signal(Signal::WinFinish), Action::Step);
    assert_eq!(d.signal(Signal::Input), Action::Flush);
    assert_eq!(d.phase(), Phase::Finishing);
    d.sink_flushed();
    assert_eq!(d.phase(), Phase::Done);
}

#[test]
fn empty_input_still_finishes() {
    let mut d = Driver::new();
    assert!(d.input_read(0));
    assert_eq!(d.signal(Signal::GotHeader), Action::Step);
    assert_eq!(d.signal(Signal::Input), Action::Flush);
    d.sink_flushed();
    assert_eq!(d.phase(), Phase::Done);
}

#[test]
fn empty_output_is_consumed_at_once() {
    let mut d = Driver::new();
    d.input_read(1);
    assert_eq!(d.signal(Signal::Output(Vec::new())), Action::ConsumeOutput);
    assert_eq!(d.phase(), Phase::Stepping);
}

#[test]
fn terminal_signals_fail_the_run() {
    let terminal = [
        Signal::TooFarBack,
        Signal::Internal,
        Signal::Invalid,
        Signal::InvalidInput,
        Signal::NoSecond,
        Signal::Unimplemented,
    ];
    for sig in terminal {
        let mut d = Driver::new();
        d.input_read(3);
        let name = format!("{:?}", d.phase());
        assert_eq!(name, "Stepping");
        assert_eq!(d.signal(sig), Action::Fail);
        assert_eq!(d.phase(), Phase::Failed);
        assert!(d.failed_on().is_some());
    }
}

#[test]
fn terminal_signal_is_kept_for_diagnostics() {
    let mut d = Driver::new();
    d.input_read(3);
    d.signal(Signal::InvalidInput);
    assert!(matches!(d.failed_on(), Some(Signal::InvalidInput)));
}

#[test]
fn a_write_of_nothing_fails_instead_of_hanging() {
    let mut d = Driver::new();
    d.input_read(3);
    d.signal(Signal::Output(vec![1, 2, 3]));
    assert_eq!(d.written(1), Action::Write);
    assert_eq!(d.written(0), Action::Fail);
    assert_eq!(d.phase(), Phase::Failed);
    assert!(d.failed_on().is_none());
}

#[test]
fn a_write_claiming_too_much_fails() {
    let mut d = Driver::new();
    d.input_read(3);
    d.signal(Signal::Output(vec![1, 2, 3]));
    assert_eq!(d.written(4), Action::Fail);
    assert_eq!(d.phase(), Phase::Failed);
}

#[test]
fn stream_failure_at_any_point_fails_the_run() {
    // on the input read
    let mut d = Driver::new();
    d.io_failed();
    assert_eq!(d.phase(), Phase::Failed);
    // while serving a reference block
    let mut d = Driver::new();
    d.input_read(4);
    assert_eq!(d.signal(Signal::GetSrcBlk), Action::ServeBlock);
    d.io_failed();
    assert_eq!(d.phase(), Phase::Failed);
    // on a write
    let mut d = Driver::new();
    d.input_read(4);
    d.signal(Signal::Output(vec![7; 9]));
    d.written(4);
    d.io_failed();
    assert_eq!(d.phase(), Phase::Failed);
    // on the final flush
    let mut d = Driver::new();
    d.input_read(0);
    d.signal(Signal::Input);
    d.io_failed();
    assert_eq!(d.phase(), Phase::Failed);
}
