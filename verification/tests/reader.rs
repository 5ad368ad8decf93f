use bra::FailingSource;
use bra::GreedyAccessReader;
use bra::ReaderError;
use bra::RepeatSource;
use bra::SliceEnd;
use bra::SourceError;
use bra::VecSource;

fn sample_data() -> Vec<u8> {
    vec![1, 2, 3, 4, 5, 6, 7, 8, 9, 10, 11, 12, 13, 14, 15, 16, 50]
}

/// Reads the reader sequentially to its end, collecting every byte.
fn read_to_end(reader: &mut GreedyAccessReader<VecSource>) -> Vec<u8> {
    let mut o = Vec::new();
    loop {
        let chunk = reader.read(32).unwrap();
        if chunk.is_empty() {
            break;
        }
        o.extend_from_slice(&chunk);
    }
    o
}

#[test]
fn smoke_test() {
    let data = sample_data();

    let mut read = GreedyAccessReader::new(VecSource::new(data.clone()));
    let o = read_to_end(&mut read);

    assert_eq!(o, data);
}

#[test]
fn test_get() {
    let data = sample_data();

    let mut read = GreedyAccessReader::new(VecSource::new(data));

    assert_eq!(read.get(1).unwrap(), 2);
    assert_eq!(read.get(2).unwrap(), 3);
    assert_eq!(read.get(16).unwrap(), 50);
    assert_eq!(read.get(10).unwrap(), 11);
    assert!(read.get(17).is_err());
}

#[test]
fn test_slice() {
    let data = sample_data();

    let mut read = GreedyAccessReader::new(VecSource::new(data));

    assert_eq!(read.slice(0, SliceEnd::Excluded(0)).unwrap(), Vec::<u8>::new());
    assert_eq!(read.slice(1, SliceEnd::Excluded(2)).unwrap(), vec![2]);
    assert_eq!(read.slice(0, SliceEnd::Included(5)).unwrap(), vec![1, 2, 3, 4, 5, 6]);
    assert_eq!(read.slice(14, SliceEnd::Included(16)).unwrap(), vec![15, 16, 50]);
    assert_eq!(read.slice(10, SliceEnd::Excluded(12)).unwrap(), vec![11, 12]);
    assert!(read.slice(7, SliceEnd::Excluded(18)).is_err());
    assert!(read.slice(6, SliceEnd::Excluded(5)).is_err());
}

#[test]
fn arbitrary_get_infinite() {
    let b: u8 = 0x33;
    let mut read = GreedyAccessReader::new(RepeatSource::new(b));

    assert_eq!(read.get(4).unwrap(), b);
    assert_eq!(read.get(13).unwrap(), b);
    assert_eq!(read.get(24389).unwrap(), b);
    assert_eq!(read.get(156).unwrap(), b);
    assert_eq!(read.get(9006).unwrap(), b);
    assert_eq!(read.get(2019).unwrap(), b);
    assert_eq!(read.get(100000).unwrap(), b);
}

#[test]
fn test_clear() {
    let data = sample_data();
    let mut read = GreedyAccessReader::new(VecSource::new(data));

    assert_eq!(read.get(0).unwrap(), 1);
    assert_eq!(read.get(8).unwrap(), 9);
    assert_eq!(read.get(16).unwrap(), 50);

    let chunk = read.read(8).unwrap();
    assert_eq!(chunk, vec![1, 2, 3, 4, 5, 6, 7, 8]);

    assert_eq!(read.get(0).unwrap(), 1);
    assert_eq!(read.get(8).unwrap(), 9);
    assert_eq!(read.get(16).unwrap(), 50);

    read.clear();

    assert_eq!(read.get(0).unwrap(), 9);
    assert_eq!(read.get(8).unwrap(), 50);
    assert!(read.get(16).is_err());

    let chunk = read.read(8).unwrap();
    assert_eq!(chunk, vec![9, 10, 11, 12, 13, 14, 15, 16]);

    assert_eq!(read.get(0).unwrap(), 9);
    assert_eq!(read.get(8).unwrap(), 50);
    assert!(read.get(16).is_err());
}

#[test]
fn get_boundary_errors() {
    let data = sample_data();
    let mut read = GreedyAccessReader::new(VecSource::new(data));

    assert_eq!(read.get(16), Ok(50));
    assert_eq!(read.get(17), Err(ReaderError::IndexOutOfRange));
    assert_eq!(read.slice(6, SliceEnd::Excluded(5)), Err(ReaderError::IndexOutOfRange));
    assert_eq!(read.slice(7, SliceEnd::Excluded(18)), Err(ReaderError::IndexOutOfRange));
}

#[test]
fn source_failure_is_propagated() {
    let mut read = GreedyAccessReader::new(FailingSource::new(7));

    // the source's own error value comes through unchanged
    assert_eq!(read.get(0), Err(ReaderError::Source(SourceError { code: 7 })));
    assert_eq!(read.slice(0, SliceEnd::Excluded(3)), Err(ReaderError::Source(SourceError { code: 7 })));
    assert_eq!(read.read(4), Err(ReaderError::Source(SourceError { code: 7 })));
    assert_eq!(read.fill_buf(), Err(ReaderError::Source(SourceError { code: 7 })));
}

#[test]
fn empty_source() {
    let mut read = GreedyAccessReader::new(VecSource::new(Vec::new()));

    assert_eq!(read.slice(0, SliceEnd::Excluded(0)).unwrap(), Vec::<u8>::new());
    assert_eq!(read.get(0), Err(ReaderError::IndexOutOfRange));
    assert_eq!(read.read(8).unwrap(), Vec::<u8>::new());
}

#[test]
fn fill_buf_and_consume() {
    let data = sample_data();
    let mut read = GreedyAccessReader::new(VecSource::new(data.clone()));

    let first = read.fill_buf().unwrap();
    assert!(!first.is_empty());
    assert_eq!(first, data[..first.len()].to_vec());
    read.consume(3);

    let rest = read.fill_buf().unwrap();
    assert_eq!(rest, data[3..first.len()].to_vec());

    read.consume(rest.len());
    let mut o = first[..3].to_vec();
    o.extend_from_slice(&rest);
    o.extend_from_slice(&read_to_end(&mut read));
    assert_eq!(o, data);
}

#[test]
fn with_capacity_reads_everything() {
    let data = sample_data();
    let mut read = GreedyAccessReader::with_capacity(VecSource::new(data.clone()), 4);

    let mut o = Vec::new();
    loop {
        let chunk = read.read(3).unwrap();
        if chunk.is_empty() {
            break;
        }
        o.extend_from_slice(&chunk);
    }
    assert_eq!(o, data);
}

#[test]
fn shrink_to_fit_changes_nothing_observable() {
    let data = sample_data();
    let mut read = GreedyAccessReader::new(VecSource::new(data));

    assert_eq!(read.get(3).unwrap(), 4);
    let chunk = read.read(2).unwrap();
    assert_eq!(chunk, vec![1, 2]);

    read.shrink_to_fit();

    assert_eq!(read.get(3).unwrap(), 4);
    let chunk = read.read(2).unwrap();
    assert_eq!(chunk, vec![3, 4]);
}

#[test]
fn covered_indices_never_reread_the_source() {
    let data = sample_data();
    let mut read = GreedyAccessReader::new(VecSource::new(data));

    let first = read.get(4).unwrap();
    let again = read.get(4).unwrap();
    assert_eq!(first, again);
    // the initial prefetch planned 16 bytes; the repeated and the covered
    // fetches below must not have pulled anything further
    assert_eq!(read.get(10).unwrap(), 11);
    let src = read.into_inner();
    assert_eq!(src.pos, 16);
}

#[test]
fn teardown_accounts_for_every_byte() {
    let data = sample_data();
    let mut read = GreedyAccessReader::new(VecSource::new(data.clone()));

    assert_eq!(read.get(4).unwrap(), 5);
    let chunk = read.read(2).unwrap();
    assert_eq!(chunk, vec![1, 2]);

    let (src, buf) = read.into_parts();
    // the source sits exactly past what the reader retained
    assert_eq!(src.pos, buf.len());
    assert_eq!(buf, data[..buf.len()].to_vec());
    assert_eq!(src.data, data);
}

#[test]
fn into_buffer_keeps_retained_bytes() {
    let data = sample_data();
    let mut read = GreedyAccessReader::new(VecSource::new(data.clone()));

    assert_eq!(read.get(2).unwrap(), 3);
    let buf = read.into_buffer();
    assert_eq!(buf, data[..buf.len()].to_vec());
    assert!(buf.len() >= 3);
}

#[test]
fn unbounded_get_always_succeeds() {
    let mut read = GreedyAccessReader::new(RepeatSource::new(7));
    assert_eq!(bra::get_unbounded(&mut read, 12345), 7);
    assert_eq!(bra::get_unbounded(&mut read, 0), 7);
}

#[test]
fn clear_with_everything_consumed() {
    let data = vec![5, 6, 7];
    let mut read = GreedyAccessReader::new(VecSource::new(data));

    let chunk = read.read(3).unwrap();
    assert_eq!(chunk, vec![5, 6, 7]);
    read.clear();

    assert_eq!(read.get(0), Err(ReaderError::IndexOutOfRange));
    assert_eq!(read.read(4).unwrap(), Vec::<u8>::new());
}
