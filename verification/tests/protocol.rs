use header_patch::errors::Error;
use header_patch::task::{Event, FileTask, Op};

#[test]
fn protocol_happy_path_in_order() {
    // dest [10,11,12], source [7,8], header size 2, shrink 1
    let mut task = FileTask::new(2, 1);
    assert_eq!(task.first_op(), Op::ReadDestHeader { count: 2 });

    let op = task.step(Event::BytesRead { data: vec![10, 11] }).unwrap();
    assert_eq!(op, Op::WriteBackup { data: vec![10, 11] });

    let op = task.step(Event::Flushed).unwrap();
    assert_eq!(op, Op::ReadSourceHeader { count: 2 });

    let op = task.step(Event::BytesRead { data: vec![7, 8] }).unwrap();
    assert_eq!(op, Op::OverwriteDestHeader { data: vec![7, 8] });

    let op = task.step(Event::Flushed).unwrap();
    assert_eq!(op, Op::ReadDestLength);

    let op = task.step(Event::Length { len: 3 }).unwrap();
    assert_eq!(op, Op::SetDestLength { new_len: 2 });

    let op = task.step(Event::Flushed).unwrap();
    assert_eq!(op, Op::Finished);
}

#[test]
fn protocol_overwrite_only_after_backup_flush() {
    // drive a full run and record the ops: the destination overwrite must
    // come strictly after the backup write and its flush acknowledgement
    let mut task = FileTask::new(1, 0);
    let mut ops: Vec<Op> = vec![task.first_op()];
    let script = vec![
        Event::BytesRead { data: vec![42] },
        Event::Flushed,
        Event::BytesRead { data: vec![9] },
        Event::Flushed,
        Event::Length { len: 1 },
        Event::Flushed,
    ];
    for ev in script {
        ops.push(task.step(ev).unwrap());
    }
    let backup_at = ops
        .iter()
        .position(|op| matches!(op, Op::WriteBackup { .. }))
        .unwrap();
    let overwrite_at = ops
        .iter()
        .position(|op| matches!(op, Op::OverwriteDestHeader { .. }))
        .unwrap();
    assert!(backup_at < overwrite_at);
}

#[test]
fn protocol_failure_after_backup_stops_before_overwrite() {
    // the backup write fails: the run ends with Io and no overwrite of
    // the destination is ever requested
    let mut task = FileTask::new(2, 0);
    let op = task.step(Event::BytesRead { data: vec![10, 11] }).unwrap();
    assert_eq!(op, Op::WriteBackup { data: vec![10, 11] });
    assert_eq!(task.step(Event::IoFailed), Err(Error::Io));
}

#[test]
fn protocol_short_dest_read_rejected_before_backup() {
    let mut task = FileTask::new(2, 0);
    let r = task.step(Event::BytesRead { data: vec![10] });
    assert_eq!(r, Err(Error::ShortRead));
}

#[test]
fn protocol_short_source_read_rejected_before_overwrite() {
    let mut task = FileTask::new(2, 0);
    task.step(Event::BytesRead { data: vec![10, 11] }).unwrap();
    task.step(Event::Flushed).unwrap();
    let r = task.step(Event::BytesRead { data: vec![7] });
    assert_eq!(r, Err(Error::ShortRead));
}

#[test]
fn protocol_underflow_rejected_at_truncate() {
    let mut task = FileTask::new(2, 9);
    task.step(Event::BytesRead { data: vec![10, 11] }).unwrap();
    task.step(Event::Flushed).unwrap();
    task.step(Event::BytesRead { data: vec![7, 8] }).unwrap();
    task.step(Event::Flushed).unwrap();
    let r = task.step(Event::Length { len: 3 });
    assert_eq!(r, Err(Error::Underflow));
}

#[test]
fn protocol_wrong_report_is_a_configuration_error() {
    // the driver answers a header read with a length: the protocol was
    // not followed, and the task refuses to continue
    let mut task = FileTask::new(2, 0);
    let r = task.step(Event::Length { len: 5 });
    assert_eq!(r, Err(Error::Configuration));
}

#[test]
fn protocol_io_failure_at_start() {
    let mut task = FileTask::new(2, 0);
    assert_eq!(task.step(Event::IoFailed), Err(Error::Io));
}
