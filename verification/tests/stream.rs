use fizzgig::ledger_dump::DumpCursor;
use fizzgig::ledger_dump::DumpStep;
use fizzgig::ledger_dump::LedgerDump;
use fizzgig::pull_stream::parse_records;
use fizzgig::pull_stream::PullStep;
use fizzgig::pull_stream::PullStream;
use fizzgig::relay::SyncJobs;
use fizzgig::sdk::read_chunks;
use fizzgig::sdk::PushReader;
use fizzgig::sdk::ReadStep;

fn record(step: PullStep) -> Option<Vec<u8>> {
    match step {
        PullStep::Record(bytes) => Some(bytes),
        PullStep::NeedBytes => None,
    }
}

#[test]
fn pull_stream_cuts_records_at_newlines() {
    let mut stream = PullStream::new();
    stream.supply(b"{\"a\":1}\n{\"b\"".to_vec());
    assert_eq!(record(stream.next_record()), Some(b"{\"a\":1}".to_vec()));
    assert_eq!(record(stream.next_record()), None);
    assert_eq!(stream.partial(), &b"{\"b\"".to_vec());
    stream.supply(b":2}\n\n".to_vec());
    assert_eq!(record(stream.next_record()), Some(b"{\"b\":2}".to_vec()));
    assert_eq!(record(stream.next_record()), None);
    assert!(stream.partial().is_empty());
}

#[test]
fn pull_stream_never_emits_an_unterminated_tail() {
    let mut stream = PullStream::new();
    stream.supply(b"one\ntwo".to_vec());
    assert_eq!(record(stream.next_record()), Some(b"one".to_vec()));
    assert_eq!(record(stream.next_record()), None);
    assert_eq!(record(stream.next_record()), None);
    assert_eq!(stream.partial(), &b"two".to_vec());
}

#[test]
fn pull_stream_skips_empty_lines_and_keeps_chunks_in_order() {
    let mut stream = PullStream::new();
    stream.supply(b"\n\na".to_vec());
    stream.supply(b"b\n".to_vec());
    stream.supply(b"\nc\n".to_vec());
    assert_eq!(record(stream.next_record()), Some(b"ab".to_vec()));
    assert_eq!(record(stream.next_record()), Some(b"c".to_vec()));
    assert_eq!(record(stream.next_record()), None);
}

#[test]
fn parse_records_gives_every_record_of_a_body() {
    assert_eq!(
        parse_records(b"x\ny\n\nzz\nrest".to_vec()),
        vec![b"x".to_vec(), b"y".to_vec(), b"zz".to_vec()]
    );
    assert!(parse_records(Vec::new()).is_empty());
    assert!(parse_records(b"\n\n\n".to_vec()).is_empty());
}

#[test]
fn dump_puts_one_newline_between_files() {
    let mut dump = LedgerDump::new(vec![b"abc".to_vec(), b"de".to_vec(), b"f".to_vec()]);
    assert_eq!(dump.read(2), b"ab".to_vec());
    assert_eq!(dump.read(2), b"c".to_vec());
    assert_eq!(dump.read(2), Vec::<u8>::new());
    assert_eq!(dump.read(2), b"\n".to_vec());
    assert_eq!(dump.read(2), b"de".to_vec());
    assert_eq!(dump.read(2), Vec::<u8>::new());
    assert_eq!(dump.read(2), b"\n".to_vec());
    assert_eq!(dump.read(2), b"f".to_vec());
    assert_eq!(dump.read(2), Vec::<u8>::new());
    assert_eq!(dump.read(2), Vec::<u8>::new());
    assert_eq!(dump.read(2), Vec::<u8>::new());
}

#[test]
fn dump_of_no_files_is_empty() {
    let mut dump = LedgerDump::new(Vec::new());
    assert!(dump.read(1024).is_empty());
    assert!(read_chunks(&mut dump).is_empty());
}

#[test]
fn read_chunks_delivers_the_whole_dump() {
    let big: Vec<u8> = (0..3000u32).map(|i| b'a' + (i % 7) as u8).collect();
    let files = vec![b"{\"uuid\":\"one\"}".to_vec(), big.clone(), Vec::new(), b"last".to_vec()];
    let mut dump = LedgerDump::new(files.clone());
    let chunks = read_chunks(&mut dump);
    assert!(chunks.iter().all(|c| !c.is_empty() && c.len() <= 1024));
    let sent: Vec<u8> = chunks.concat();
    assert_eq!(sent, files.join(&b'\n'));
    assert!(dump.read(16).is_empty());
}

#[test]
fn dump_then_parse_gives_the_files_back() {
    let files = vec![b"{\"uuid\":\"a\"}".to_vec(), b"{\"uuid\":\"META_DOC\"}".to_vec(), b"{}".to_vec()];
    let mut dump = LedgerDump::new(files.clone());
    let body: Vec<u8> = read_chunks(&mut dump).concat();
    assert_eq!(parse_records(body.clone()), files[..2].to_vec());
    let mut stream = PullStream::new();
    stream.supply(body);
    let mut records: Vec<Vec<u8>> = Vec::new();
    while let PullStep::Record(record) = stream.next_record() {
        records.push(record);
    }
    assert_eq!(records, files[..2].to_vec());
    stream.supply(b"\n".to_vec());
    match stream.next_record() {
        PullStep::Record(record) => assert_eq!(record, files[2]),
        PullStep::NeedBytes => unreachable!(),
    }
}

#[test]
fn pushed_dump_is_pulled_byte_for_byte() {
    let files = vec![b"{\"uuid\":\"a\"}".to_vec(), b"{\"uuid\":\"b\"}".to_vec()];
    let mut dump = LedgerDump::new(files.clone());
    let body: Vec<u8> = read_chunks(&mut dump).concat();
    let mut jobs = SyncJobs::new();
    jobs.reserve_pin("246810", "pw").unwrap();
    jobs.push_s("246810", body.clone()).unwrap();
    let pulled = jobs.pull("246810", "pw").unwrap();
    assert_eq!(pulled, body);
    assert_eq!(parse_records(pulled), vec![files[0].clone()]);
}

#[test]
fn push_reader_gives_up_after_three_empty_retries() {
    let mut reader = PushReader::new();
    assert_eq!(reader.on_read(10), ReadStep::Send);
    assert_eq!(reader.on_read(0), ReadStep::Retry);
    assert_eq!(reader.on_read(0), ReadStep::Retry);
    assert_eq!(reader.on_read(5), ReadStep::Send);
    assert_eq!(reader.retry, 0);
    assert_eq!(reader.on_read(0), ReadStep::Retry);
    assert_eq!(reader.on_read(0), ReadStep::Retry);
    assert_eq!(reader.on_read(0), ReadStep::Retry);
    assert_eq!(reader.retry, 3);
    assert_eq!(reader.on_read(0), ReadStep::Finished);
}

#[test]
fn cursor_tells_when_a_newline_is_due() {
    let mut cursor = DumpCursor::new(2);
    assert_eq!(cursor.step(), DumpStep::Read { index: 0 });
    cursor.advance(5);
    assert_eq!(cursor.step(), DumpStep::Read { index: 0 });
    cursor.advance(0);
    assert_eq!(cursor.step(), DumpStep::Separator { index: 1 });
    cursor.advance(1);
    assert_eq!(cursor.step(), DumpStep::Read { index: 1 });
    cursor.advance(0);
    assert_eq!(cursor.step(), DumpStep::Finished);
    cursor.advance(0);
    assert_eq!(cursor.step(), DumpStep::Finished);
    assert_eq!(DumpCursor::new(0).step(), DumpStep::Finished);
}
