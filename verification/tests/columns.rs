use jawk::borrowing_split::{borrowing_split, Split};
use jawk::byte_deque::ByteDeque;
use jawk::index_of::{index_in_dq, index_in_full_dq, index_in_slices, index_of, memchr, subslices, subslices_inner};
use jawk::lazily_split_line::LazilySplitLine;
use jawk::record_reader::{RecordReader, RecordStep};

fn borrowing_split_test(content: &[u8], split: &[u8]) -> Vec<Split> {
    let mut splits = vec![];
    borrowing_split(content, split, &mut splits);
    splits
}

#[test]
fn test_index_splitting_normal_case() {
    let content = [1, 2, 3, 4, 5, 6];
    assert_eq!(borrowing_split_test(&content, &[2, 3]), vec![Split::new(0, 1), Split::new(3, 6)])
}

#[test]
fn test_index_splitting_only_splitter() {
    let content = [1, 2, 3, 4, 5, 6];
    assert_eq!(borrowing_split_test(&content, &[1, 2, 3, 4, 5, 6]), vec![]);
}

#[test]
fn test_index_splitting_ends_in_splitter_harder() {
    let content = [1, 2, 3, 4, 1, 2, 3, 4];
    assert_eq!(borrowing_split_test(&content, &[3, 4]), vec![Split::new(0, 2), Split::new(4, 6)]);
}

#[test]
fn test_index_splitting_ends_in_splitter_simpler() {
    let content = [1, 2];
    assert_eq!(borrowing_split_test(&content, &[1, 2]), vec![]);
}

#[test]
fn test_index_splitting_starts_w_split() {
    let content = [1, 2, 3, 4, 5, 6];
    assert_eq!(borrowing_split_test(&content, &[1, 2, 3]), vec![Split::new(3, 6)]);
    assert_eq!(borrowing_split_test(&content, &[1, 2, 3])[0].get_slice(&content), &content[3..]);
}

#[test]
fn borrowing_split_clears_output_and_skips_empty_pieces() {
    let mut out = vec![Split::new(7, 9)];
    borrowing_split(b"a,,b,", b",", &mut out);
    assert_eq!(out, vec![Split::new(0, 1), Split::new(3, 4)]);
    assert_eq!(out[1].len(), 1);
    assert_eq!(out[1].get_slice(b"a,,b,"), b"b");
}

#[test]
fn borrowing_split_pieces_hold_no_separator() {
    let content = b"xxabxxxabababx";
    let pieces = borrowing_split_test(content, b"ab");
    assert_eq!(pieces, vec![Split::new(0, 2), Split::new(4, 7), Split::new(13, 14)]);
    for p in &pieces {
        assert!(p.len() > 0);
        assert_eq!(index_of(b"ab", p.get_slice(content)), None);
    }
}

#[test]
fn test_index_of() {
    assert_eq!(index_of(&[1, 2, 3], &[1, 2, 3]), Some(0));
    assert_eq!(index_of(&[2, 3], &[1, 2, 3]), Some(1));
    assert_eq!(index_of(&[1, 2], &[1, 2, 3]), Some(0));
    assert_eq!(index_of(&[1], &[1, 2, 3]), Some(0));
    assert_eq!(index_of(&[], &[1, 2, 3]), Some(0));
    assert_eq!(index_of(&[1, 2, 3], &[]), None);
    assert_eq!(index_of(&[1, 2, 3], &[0, 1, 2, 3]), Some(1));
    assert_eq!(index_of(&[1, 2, 3, 4, 5, 6, 7, 8], &[0, 1, 2, 3]), None);
}

#[test]
fn index_of_gives_the_leftmost_match() {
    assert_eq!(index_of(b"aa", b"baaaa"), Some(1));
    assert_eq!(index_of(b"ab", b"aab"), Some(1));
}

#[test]
fn test_index_of_dq_0() {
    assert_eq!(index_in_dq(&[1, 2, 3], &ByteDeque::from_vec(vec![1, 2, 3]), 0, 3), Some(0));
    assert_eq!(index_in_dq(&[2, 3], &ByteDeque::from_vec(vec![1, 2, 3]), 0, 3), Some(1));
    assert_eq!(index_in_dq(&[1, 2], &ByteDeque::from_vec(vec![1, 2, 3]), 0, 3), Some(0));
    assert_eq!(index_in_dq(&[1], &ByteDeque::from_vec(vec![1, 2, 3]), 0, 3), Some(0));
    assert_eq!(index_in_dq(&[], &ByteDeque::from_vec(vec![1, 2, 3]), 0, 3), Some(0));
    assert_eq!(index_in_dq(&[1, 2, 3], &ByteDeque::from_vec(vec![]), 0, 0), None);
    assert_eq!(index_in_dq(&[1, 2, 3], &ByteDeque::from_vec(vec![0, 1, 2, 3]), 0, 4), Some(1));
    assert_eq!(index_in_dq(&[1, 2, 3, 4, 5, 6, 7, 8], &ByteDeque::from_vec(vec![0, 1, 2, 3]), 0, 4), None);
}

#[test]
fn test_index_of_dq_up_to() {
    assert_eq!(index_in_dq(&[1, 2, 3], &ByteDeque::from_vec(vec![1, 2, 3]), 0, 3), Some(0));
    assert_eq!(index_in_dq(&[2, 3], &ByteDeque::from_vec(vec![1, 2, 3]), 0, 3), Some(1));
    assert_eq!(index_in_dq(&[1, 2], &ByteDeque::from_vec(vec![1, 2, 3]), 0, 3), Some(0));
    assert_eq!(index_in_dq(&[1], &ByteDeque::from_vec(vec![1, 2, 3]), 0, 3), Some(0));
    assert_eq!(index_in_dq(&[], &ByteDeque::from_vec(vec![1, 2, 3]), 0, 3), Some(0));
    assert_eq!(index_in_dq(&[1, 2, 3], &ByteDeque::from_vec(vec![]), 0, 0), None);
    assert_eq!(index_in_dq(&[1, 2, 3], &ByteDeque::from_vec(vec![0, 1, 2, 3]), 0, 4), Some(1));
    assert_eq!(index_in_dq(&[1, 2, 3, 4, 5, 6, 7, 8], &ByteDeque::from_vec(vec![0, 1, 2, 3]), 0, 4), None);
    assert_eq!(index_in_dq(&[2, 3], &ByteDeque::from_vec(vec![1, 2, 3]), 0, 0), None);
}

#[test]
fn test_index_of_dq_with_shifting() {
    let mut shifted_dequeue = ByteDeque::with_capacity(4);
    shifted_dequeue.extend_from_slice(&[1, 2, 3, 4]);
    shifted_dequeue.drop_front(2);
    shifted_dequeue.extend_from_slice(&[5, 6]);
    assert_eq!(index_in_dq(&[3, 4, 5], &shifted_dequeue, 0, 3), Some(0));
}

#[test]
fn test_index_of_dq_trunc_with_shifting() {
    let mut shifted_dequeue = ByteDeque::with_capacity(4);
    shifted_dequeue.extend_from_slice(&[1, 2, 3, 4]);
    shifted_dequeue.drop_front(2);
    shifted_dequeue.extend_from_slice(&[5, 6]);
    assert_eq!(index_in_dq(&[3, 4, 5], &shifted_dequeue, 0, 4), Some(0));
    assert_eq!(index_in_dq(&[3, 4, 5], &shifted_dequeue, 0, 3), Some(0));
    assert_eq!(index_in_dq(&[3, 4, 5], &shifted_dequeue, 0, 1), None);
    assert_eq!(index_in_dq(&[3, 4, 5], &shifted_dequeue, 0, 2), None);
}

#[test]
fn test_index_of_dq_shifted() {
    let mut dq = ByteDeque::with_capacity(4);
    dq.extend_from_slice(&[1, 2, 3, 4]);
    dq.drop_front(2);
    dq.extend_from_slice(&[5, 6]);
    assert_eq!(index_in_dq(&[3, 4, 5], &dq, 0, dq.len()), Some(0));
    assert_eq!(index_in_dq(&[4, 5], &dq, 0, dq.len()), Some(1));
    assert_eq!(index_in_dq(&[5], &dq, 0, dq.len()), Some(2));
    assert_eq!(index_in_dq(&[6], &dq, 0, dq.len()), Some(3));

    assert_eq!(index_in_dq(&[3, 4, 5], &dq, 1, dq.len()), None);
    assert_eq!(index_in_dq(&[4, 5], &dq, 1, dq.len()), Some(1));
    assert_eq!(index_in_dq(&[5], &dq, 1, dq.len()), Some(2));
    assert_eq!(index_in_dq(&[6], &dq, 1, dq.len()), Some(3));
    assert_eq!(index_in_dq(&[5], &dq, 2, dq.len()), Some(2));
    assert_eq!(index_in_dq(&[6], &dq, 2, dq.len()), Some(3));
    assert_eq!(index_in_dq(&[6], &dq, 3, dq.len()), Some(3));
    assert_eq!(index_in_dq(&[6], &dq, 4, dq.len()), None);
}

#[test]
fn test_index_of_dq_not_at_0() {
    let mut shifted_dequeue = ByteDeque::with_capacity(4);
    shifted_dequeue.extend_from_slice(&[1, 2, 3, 4]);
    shifted_dequeue.drop_front(2);
    shifted_dequeue.extend_from_slice(&[5]);
    assert_eq!(index_in_dq(&[4, 5], &shifted_dequeue, 0, 3), Some(1));
}

#[test]
fn test_index_of_dq_trunc_not_at_0() {
    let mut shifted_dequeue = ByteDeque::with_capacity(4);
    shifted_dequeue.extend_from_slice(&[1, 2, 3, 4]);
    shifted_dequeue.drop_front(2);
    shifted_dequeue.extend_from_slice(&[5]);
    assert_eq!(index_in_dq(&[4, 5], &shifted_dequeue, 0, 3), Some(1));
    assert_eq!(index_in_dq(&[4, 5], &shifted_dequeue, 0, 2), None);
    assert_eq!(index_in_dq(&[4, 5], &shifted_dequeue, 0, 1), None);
}

#[test]
fn test_subslices() {
    const EMPTY_SLICE: &[u8] = &[];
    let a: &[u8] = &[1, 2, 3];
    let b: &[u8] = &[4, 5, 6];
    let c: &[u8] = &[2, 3];
    let d: &[u8] = &[4, 5];
    assert_eq!(subslices_inner(a, b, 0, 6), (a, b));
    assert_eq!(subslices_inner(a, b, 3, 3), (EMPTY_SLICE, b));
    assert_eq!(subslices_inner(a, b, 0, 3), (a, EMPTY_SLICE));
    assert_eq!(subslices_inner(a, b, 1, 4), (c, d));
    assert_eq!(subslices_inner(a, b, 1, 2), (c, EMPTY_SLICE));
}

#[test]
fn subslices_of_a_wrapped_deque() {
    let mut dq = ByteDeque::with_capacity(4);
    dq.extend_from_slice(&[1, 2, 3, 4]);
    dq.drop_front(3);
    dq.extend_from_slice(&[5, 6, 7]);
    let (l, r) = subslices(&dq, 1, 3);
    let mut joined = l.to_vec();
    joined.extend_from_slice(r);
    assert_eq!(joined, vec![5, 6]);
    assert_eq!(dq.get(0), 4);
    assert_eq!(dq.get(3), 7);
}

#[test]
fn index_in_slices_adds_the_offset_across_both_halves() {
    assert_eq!(index_in_slices(&[3, 4], (&[1, 2, 3], &[4, 5]), 10), Some(12));
    assert_eq!(index_in_slices(&[5], (&[1, 2, 3], &[4, 5]), 10), Some(14));
    assert_eq!(index_in_slices(&[6], (&[1, 2, 3], &[4, 5]), 10), None);
    assert_eq!(index_in_slices(&[], (&[1], &[]), 3), Some(3));
}

#[test]
fn index_in_full_dq_searches_everything() {
    let dq = ByteDeque::from_vec(vec![9, 8, 7, 8, 7]);
    assert_eq!(index_in_full_dq(&[8, 7], &dq), Some(1));
    assert_eq!(index_in_full_dq(&[7, 9], &dq), None);
}

#[test]
fn memchr_finds_the_first_byte() {
    assert_eq!(memchr(b"abcabc", b'c'), Some(2));
    assert_eq!(memchr(b"abcabc", b'z'), None);
    assert_eq!(memchr(b"", b'a'), None);
}

#[test]
fn byte_deque_keeps_order_while_growing() {
    let mut dq = ByteDeque::with_capacity(2);
    dq.extend_from_slice(&[1, 2]);
    dq.drop_front(1);
    dq.extend_from_slice(&[3, 4, 5, 6]);
    let (l, r) = dq.as_slices();
    let mut all = l.to_vec();
    all.extend_from_slice(r);
    assert_eq!(all, vec![2, 3, 4, 5, 6]);
    assert_eq!(dq.len(), 5);
    let mut empty = ByteDeque::new();
    assert_eq!(empty.len(), 0);
    empty.extend_from_slice(&[]);
    assert_eq!(empty.len(), 0);
}

const A: u8 = 64;
const B: u8 = 65;
const C: u8 = 66;
const SPACE: u8 = 32;
const NL: u8 = 10;

#[test]
fn lazily_split_line_fields_with_a_space() {
    let mut line = LazilySplitLine::new();
    let dq = ByteDeque::from_vec(vec![A, SPACE, A, A, SPACE, SPACE, A, A, A, NL]);
    assert_eq!(line.get(&dq, 0, 9), vec![A, SPACE, A, A, SPACE, SPACE, A, A, A]);
    assert_eq!(line.get(&dq, 1, 9), vec![A]);
    assert_eq!(line.get(&dq, 2, 9), vec![A, A]);
    assert_eq!(line.get(&dq, 3, 9), Vec::<u8>::new());
    assert_eq!(line.get(&dq, 4, 9), vec![A, A, A]);
    assert_eq!(line.get(&dq, 5, 9), Vec::<u8>::new());
    assert_eq!(line.nf(&dq, 9), 4);
}

#[test]
fn lazily_split_line_new_fs_waits_for_next_record() {
    let mut line = LazilySplitLine::new();
    let mut dq = ByteDeque::from_vec(vec![A, SPACE, B, NL, B, A, C]);
    line.set_fs(vec![A]);
    assert_eq!(line.get(&dq, 1, 3), vec![A]);
    assert_eq!(line.get(&dq, 2, 3), vec![B]);
    line.next_record();
    dq.drop_front(4);
    assert_eq!(line.get(&dq, 0, 3), vec![B, A, C]);
    assert_eq!(line.get(&dq, 1, 3), vec![B]);
    assert_eq!(line.get(&dq, 2, 3), vec![C]);
    assert_eq!(line.get(&dq, 3, 3), Vec::<u8>::new());
    assert_eq!(line.get(&dq, 30000, 3), Vec::<u8>::new());
    assert_eq!(line.nf(&dq, 3), 2);
}

#[test]
fn lazily_split_line_fields_rejoin_to_the_record() {
    let mut line = LazilySplitLine::new();
    line.set_fs(b"::".to_vec());
    line.next_record();
    let rec = b"ab::::c::d".to_vec();
    let dq = ByteDeque::from_vec(rec.clone());
    let mut joined: Vec<u8> = vec![];
    let mut buf = vec![1, 2, 3];
    for i in 1..=4 {
        line.get_into(&dq, i, rec.len(), &mut buf);
        if i > 1 {
            joined.extend_from_slice(b"::");
        }
        joined.extend_from_slice(&buf);
    }
    assert_eq!(joined, rec);
    assert_eq!(line.nf(&dq, rec.len()), 4);
}

fn feed(reader: &mut RecordReader, input: &mut &[u8], chunk: usize) -> bool {
    if !reader.begin_record() {
        return false;
    }
    let mut step = reader.poll();
    while step == RecordStep::NeedInput {
        let n = chunk.min(input.len());
        let (now, rest) = input.split_at(n);
        *input = rest;
        step = reader.input(now);
    }
    step == RecordStep::Found
}

#[test]
fn record_reader_cuts_records_and_fields() {
    let mut reader = RecordReader::new();
    let mut input: &[u8] = b"a b c\nd e f\ng h i\n";
    assert!(!reader.begin_record());
    reader.next_file();
    assert!(feed(&mut reader, &mut input, 3));
    assert_eq!(reader.get(0), Some(b"a b c".to_vec()));
    assert_eq!(reader.get(1), Some(b"a".to_vec()));
    assert_eq!(reader.get(3), Some(b"c".to_vec()));
    assert!(feed(&mut reader, &mut input, 3));
    assert_eq!(reader.get(3), Some(b"f".to_vec()));
    assert_eq!(reader.get(0), Some(b"d e f".to_vec()));
    assert!(feed(&mut reader, &mut input, 3));
    assert_eq!(reader.get(2), Some(b"h".to_vec()));
    assert!(!feed(&mut reader, &mut input, 3));
    assert!(!feed(&mut reader, &mut input, 3));
}

#[test]
fn record_reader_last_record_without_separator() {
    let mut reader = RecordReader::new();
    reader.next_file();
    let mut input: &[u8] = b"a b c\n-ZZZ1-ZZZ2";
    assert!(feed(&mut reader, &mut input, 4));
    assert_eq!(reader.get(0), Some(b"a b c".to_vec()));
    reader.set_rs(b"-".to_vec());
    assert_eq!(reader.record_sep(), b"-");
    assert!(feed(&mut reader, &mut input, 4));
    assert_eq!(reader.get(0), Some(b"\n".to_vec()));
    assert!(feed(&mut reader, &mut input, 4));
    assert_eq!(reader.get(0), Some(b"ZZZ1".to_vec()));
    assert!(feed(&mut reader, &mut input, 4));
    assert_eq!(reader.get(0), Some(b"ZZZ2".to_vec()));
    assert!(!feed(&mut reader, &mut input, 4));
}

#[test]
fn record_reader_field_separator_changes_with_next_record() {
    let mut reader = RecordReader::new();
    reader.next_file();
    let mut input: &[u8] = b"1,2 3\n4,5 6\n";
    assert!(feed(&mut reader, &mut input, 100));
    reader.set_fs(b",".to_vec());
    assert_eq!(reader.get(1), Some(b"1,2".to_vec()));
    let mut buf = vec![];
    reader.get_into_buf(2, &mut buf);
    assert_eq!(buf, b"3".to_vec());
    assert!(feed(&mut reader, &mut input, 100));
    assert_eq!(reader.get(1), Some(b"4".to_vec()));
    assert_eq!(reader.get(2), Some(b"5 6".to_vec()));
}

#[test]
fn record_reader_empty_record_reads_as_none() {
    let mut reader = RecordReader::new();
    reader.next_file();
    let mut input: &[u8] = b"\n\nx\n";
    assert!(feed(&mut reader, &mut input, 1));
    assert_eq!(reader.get(0), None);
    assert!(feed(&mut reader, &mut input, 1));
    assert_eq!(reader.get(0), None);
    assert!(feed(&mut reader, &mut input, 1));
    assert_eq!(reader.get(0), Some(b"x".to_vec()));
    assert!(!feed(&mut reader, &mut input, 1));
}

#[test]
fn empty_field_separator_gives_empty_fields() {
    let mut line = LazilySplitLine::new();
    line.set_fs(vec![]);
    line.next_record();
    let dq = ByteDeque::from_vec(b"abc".to_vec());
    assert_eq!(line.get(&dq, 0, 3), b"abc".to_vec());
    assert_eq!(line.get(&dq, 1, 3), Vec::<u8>::new());
    assert_eq!(line.get(&dq, 7, 3), Vec::<u8>::new());
}

#[test]
fn record_reader_buffers_what_it_was_given() {
    let mut reader = RecordReader::new();
    reader.next_file();
    assert!(reader.begin_record());
    assert_eq!(reader.poll(), RecordStep::NeedInput);
    assert_eq!(reader.input(b"ab"), RecordStep::NeedInput);
    assert_eq!(reader.buffered_len(), 2);
    assert_eq!(reader.input(b"c\nd"), RecordStep::Found);
    assert_eq!(reader.buffered_len(), 5);
    assert_eq!(reader.get(0), Some(b"abc".to_vec()));
}

#[test]
fn empty_separator_on_empty_content_gives_no_pieces() {
    let mut out = vec![Split::new(1, 2)];
    borrowing_split(&[], &[], &mut out);
    assert_eq!(out, vec![]);
}
