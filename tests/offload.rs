use heartbeat::acquisition::{
    classify_line, handle_line, LineKind, LineReport, ReadError, RotationSchedule,
};
use heartbeat::capture::CaptureFile;
use heartbeat::frame::ProtocolError;
use heartbeat::metadata::CaptureFileMetadata;
use heartbeat::status::LedColor;
use heartbeat::storage::{
    map_lock_error, OffloadQueue, StorageServiceError, StorageServiceSettings, UploadArgs,
    UploadOutcome,
};

fn task(n: u32) -> UploadArgs {
    UploadArgs::new("b".to_string(), format!("/f{}", n), format!("n/f{}", n))
}

#[test]
fn second_upload_fails_and_goes_to_the_back() {
    let mut q = OffloadQueue::new();
    q.queue_upload(task(1));
    q.queue_upload(task(2));
    q.queue_upload(task(3));
    let mut attempts = 0;
    let mut attempted = Vec::new();
    // one round of draining, with an uploader that fails only on the 2nd attempt
    while let Some(t) = q.next_upload() {
        attempts += 1;
        attempted.push(t.file_path.clone());
        let outcome = if attempts == 2 { UploadOutcome::Failed } else { UploadOutcome::Uploaded };
        if !q.settle(t, outcome) {
            break;
        }
    }
    assert_eq!(attempted, vec!["/f1".to_string(), "/f2".to_string()]);
    assert_eq!(q.len(), 2);
    assert_eq!(q.task_at(0).file_path, "/f3");
    assert_eq!(q.task_at(1).file_path, "/f2");
}

#[test]
fn empty_queue_gives_nothing() {
    let mut q = OffloadQueue::new();
    assert!(q.is_empty());
    assert!(q.next_upload().is_none());
}

#[test]
fn rotation_queues_exactly_one_upload() {
    let mut m = CaptureFileMetadata::new(7, 20000);
    m.set("NODE_ID", "n1");
    let t0: u64 = 1_700_000_000;
    let old = CaptureFile::new("/cap", &mut m, t0 as i64, 0).expect("file");
    let mut schedule = RotationSchedule::new(600, 0, t0);
    assert!(!schedule.is_due(t0 + 1, 0));
    // the boundary after t0 is 1_700_000_400
    assert!(schedule.is_due(1_700_000_400, 0));
    let mut q = OffloadQueue::new();
    schedule.rotate(1_700_000_400, &old, "bucket", &mut q);
    assert_eq!(q.len(), 1);
    assert_eq!(q.task_at(0).file_path, old.file_path());
    assert_eq!(q.task_at(0).bucket_name, "bucket");
    assert_eq!(q.task_at(0).object_path, format!("n1/{}", old.filename()));
    let new = CaptureFile::new("/cap", &mut m, 1_700_000_400, 0).expect("file");
    assert_ne!(new.filename(), old.filename());
    assert!(!schedule.is_due(1_700_000_401, 0));
    assert!(schedule.is_due(1_700_001_000, 0));
}

#[test]
fn rotation_by_line_count() {
    let schedule = RotationSchedule::new(0, 100, 5);
    assert!(!schedule.is_due(1_000_000, 99));
    assert!(schedule.is_due(6, 100));
}

#[test]
fn lines_are_classified_and_written() {
    assert_eq!(classify_line("# hi\n"), LineKind::Comment);
    assert_eq!(classify_line("$1,G"), LineKind::Data);
    assert_eq!(classify_line("junk"), LineKind::Other);
    assert_eq!(classify_line(""), LineKind::Other);

    let mut m = CaptureFileMetadata::new(7, 20000);
    let mut f = CaptureFile::new("/cap", &mut m, 0, 0).expect("file");
    let r = handle_line(&mut f, "#booted\r\n", "t0");
    assert!(matches!(r, LineReport::Comment));
    assert_eq!(r.led_color(), Some(LedColor::Blue));
    let r = handle_line(&mut f, "noise\n", "t0");
    assert!(matches!(r, LineReport::Discarded));
    let r = handle_line(&mut f, "$1,G,1,2,3,4,5,6,7,1,5,4\n", "t1");
    assert!(matches!(r, LineReport::Rejected(ProtocolError::ChecksumMismatch)));
    assert_eq!(r.led_color(), Some(LedColor::Red));
    let r = handle_line(&mut f, "$x,,1,2,3,4,5,6,7,1,5,5\n", "t2");
    assert_eq!(r.led_color(), Some(LedColor::Magenta));
    assert_eq!(
        f.take_pending(),
        vec![
            "# booted\n".to_string(),
            "$1,G,1,2,3,4,5,6,7,1,5,4\n".to_string(),
            "# checksum mismatch\n".to_string(),
            "x,,1,2,3,4,5,6,7,1,5,5\n".to_string(),
            "# local time t2\n".to_string(),
        ]
    );
    assert_eq!(f.lines_written(), 5);
}

#[test]
fn only_a_broken_pipe_ends_the_loop() {
    assert!(ReadError::BrokenPipe.ends_loop());
    assert!(!ReadError::Timeout.ends_loop());
    assert!(!ReadError::Io.ends_loop());
}

#[test]
fn led_pins_mix_primaries() {
    let y = LedColor::Yellow.pin_levels();
    assert!(y.red && y.green && !y.blue);
    let off = LedColor::Off.pin_levels();
    assert!(!off.red && !off.green && !off.blue);
    let c = LedColor::Cyan.pin_levels();
    assert!(!c.red && c.green && c.blue);
}

#[test]
fn settings_and_lock_errors() {
    let s = StorageServiceSettings::new(
        "http://e".to_string(),
        "k".to_string(),
        "s".to_string(),
        "bkt".to_string(),
    );
    assert_eq!(s.endpoint(), "http://e");
    assert_eq!(s.key(), "k");
    assert_eq!(s.secret(), "s");
    assert_eq!(s.bucket(), "bkt");
    assert_eq!(map_lock_error(()), StorageServiceError::LockPoisoned);
}

#[test]
fn late_rotation_waits_a_full_interval() {
    let mut m = CaptureFileMetadata::new(7, 20000);
    let f = CaptureFile::new("/cap", &mut m, 0, 0).expect("file");
    let mut schedule = RotationSchedule::new(60, 0, 0);
    assert!(schedule.is_due(119, 0));
    let mut q = OffloadQueue::new();
    schedule.rotate(119, &f, "b", &mut q);
    assert!(!schedule.is_due(120, 0));
    assert!(!schedule.is_due(178, 0));
    assert!(schedule.is_due(179, 0));
}
