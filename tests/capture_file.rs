use heartbeat::capture::CaptureFile;
use heartbeat::metadata::CaptureFileMetadata;

const ID: u128 = 0x0123_4567_89ab_cdef_0011_2233_4455_6677;

fn metadata() -> CaptureFileMetadata {
    let mut m = CaptureFileMetadata::new(ID, 20000);
    m.set("NODE_ID", "node7");
    m
}

#[test]
fn init_writes_a_bounded_preamble() {
    let mut m = metadata();
    m.set("SITE", "ridge");
    let mut f = CaptureFile::new("/data", &mut m, 1_700_000_000, 0).expect("file");
    f.init();
    let text: String = f.take_pending().concat();
    let lines: Vec<&str> = text.lines().filter(|l| !l.trim().is_empty()).collect();
    assert_eq!(lines.first(), Some(&"## BEGIN METADATA ##"));
    assert_eq!(lines.last(), Some(&"## END METADATA ##"));
    // capture id, sample rate, NODE_ID, SITE, CREATED, VERSION
    assert_eq!(lines.len(), 2 + 6);
    assert!(lines.contains(&"# CAPTURE_ID\t\t01234567-89ab-cdef-0011-223344556677"));
    assert!(lines.contains(&"# SAMPLE_RATE\t\t20000"));
    assert!(lines.contains(&"# SITE\t\tridge"));
    assert!(lines.contains(&"# VERSION\t\t3"));
    assert!(lines.contains(&"# CREATED\t\t2023-11-14T22:13:20+00:00"));
}

#[test]
fn new_names_the_file_and_stamps_the_metadata() {
    let mut m = metadata();
    let f = CaptureFile::new("/data", &mut m, 1_700_000_000, 0).expect("file");
    assert_eq!(f.filename(), "node7_20231114_221320_01234567.csv");
    assert_eq!(f.file_path(), "/data/node7_20231114_221320_01234567.csv");
    assert_eq!(f.created(), 1_700_000_000);
    assert_eq!(f.lines_written(), 0);
    assert_eq!(m.get("VERSION"), Some("3"));
    assert_eq!(m.get("CREATED"), Some("2023-11-14T22:13:20+00:00"));
    assert_eq!(f.metadata().get("NODE_ID"), Some("node7"));
}

#[test]
fn unknown_node_and_trailing_slash() {
    let mut m = CaptureFileMetadata::new(ID, 1);
    let f = CaptureFile::new("out/", &mut m, 0, 0).expect("file");
    assert_eq!(f.filename(), "UNKNOWN_19700101_000000_01234567.csv");
    assert_eq!(f.file_path(), "out/UNKNOWN_19700101_000000_01234567.csv");
}

#[test]
fn lines_and_comments_are_counted() {
    let mut m = metadata();
    let mut f = CaptureFile::new("d", &mut m, 0, 0).expect("file");
    f.write_line("1,G\n");
    f.comment("hello");
    assert_eq!(f.lines_written(), 2);
    assert_eq!(f.take_pending(), vec!["1,G\n".to_string(), "# hello\n".to_string()]);
    assert!(f.take_pending().is_empty());
}

#[test]
fn set_replaces_and_get_reads() {
    let mut m = CaptureFileMetadata::new(ID, 5);
    assert_eq!(m.get("K"), None);
    m.set("K", "1");
    m.set("K", "2");
    assert_eq!(m.get("K"), Some("2"));
    assert_eq!(m.capture_id(), ID);
    assert_eq!(m.sample_rate(), 5);
    let text = m.to_string();
    assert_eq!(text.matches("# K\t\t").count(), 1);
}
