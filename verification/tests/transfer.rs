use p2p_chat::file_transfer::{chunk_data, send_name_of, IncomingFile, CHUNK_SIZE};

fn sample(n: usize) -> Vec<u8> {
    (0..n).map(|i| (i * 7 % 251) as u8).collect()
}

#[test]
fn chunk_sizes() {
    assert_eq!(CHUNK_SIZE, 16384);
    let empty = chunk_data(&[]);
    assert_eq!(empty.len(), 1);
    assert_eq!(empty[0], (0, Vec::new()));
    assert_eq!(chunk_data(&sample(16384)).len(), 1);
    let two = chunk_data(&sample(16385));
    assert_eq!(two.len(), 2);
    assert_eq!(two[1].0, 16384);
    assert_eq!(two[1].1.len(), 1);
}

#[test]
fn reassembly_in_any_order() {
    let data = sample(3 * 16384 + 100);
    let mut chunks = chunk_data(&data);
    chunks.reverse();
    chunks.swap(0, 2);
    let mut f = IncomingFile::new();
    f.set_total(data.len() as u64);
    for (i, (offset, bytes)) in chunks.iter().enumerate() {
        assert!(!f.is_complete(), "complete before chunk {i}");
        assert!(f.fits(*offset, bytes.len()));
        f.push(*offset, bytes);
    }
    assert!(f.is_complete());
    assert_eq!(f.received(), data.len() as u64);
    assert_eq!(f.contents(), &data);
}

#[test]
fn empty_file_completes() {
    let mut f = IncomingFile::new();
    f.set_name("empty.txt".into());
    f.set_total(0);
    assert!(f.is_complete());
    let chunks = chunk_data(&[]);
    f.push(chunks[0].0, &chunks[0].1);
    assert!(f.is_complete());
    assert_eq!(f.contents().len(), 0);
    assert_eq!(f.name(), "empty.txt");
}

#[test]
fn defaults_before_the_offer() {
    let mut f = IncomingFile::new();
    assert_eq!(f.name(), "file");
    assert!(!f.is_complete());
    f.push(4, &[9, 9]);
    assert_eq!(f.total(), 2);
    assert_eq!(f.contents(), &vec![0, 0, 0, 0, 9, 9]);
    assert!(!f.is_complete());
}

#[test]
fn offered_name_is_the_last_component() {
    assert_eq!(send_name_of("/home/u/docs/report.pdf"), "report.pdf");
    assert_eq!(send_name_of("notes.txt"), "notes.txt");
    assert_eq!(send_name_of("/"), "file");
    assert_eq!(send_name_of("/tmp/.."), "file");
}

#[test]
fn duplicate_chunk_does_not_complete() {
    let mut f = IncomingFile::new();
    f.set_total(4);
    f.push(0, &[1, 2]);
    f.push(0, &[1, 2]);
    assert_eq!(f.received(), 4);
    assert!(!f.is_complete());
    f.push(2, &[3, 4]);
    assert!(f.is_complete());
    assert_eq!(f.contents(), &vec![1, 2, 3, 4]);
}

#[test]
fn gap_in_the_middle_is_not_complete() {
    let mut f = IncomingFile::new();
    f.set_total(6);
    f.push(4, &[5, 6]);
    f.push(0, &[1, 2]);
    f.push(0, &[1, 2]);
    assert!(!f.is_complete());
    f.push(2, &[3, 4]);
    assert!(f.is_complete());
    assert_eq!(f.contents(), &vec![1, 2, 3, 4, 5, 6]);
}

#[test]
fn disjoint_chunks_commute() {
    let mut f = IncomingFile::new();
    f.push(0, &[1, 2]);
    f.push(4, &[5]);
    let mut g = IncomingFile::new();
    g.push(4, &[5]);
    g.push(0, &[1, 2]);
    assert_eq!(f.contents(), g.contents());
    assert_eq!(f.received(), g.received());
    f.set_total(5);
    g.set_total(5);
    assert!(!f.is_complete() && !g.is_complete());
    f.push(2, &[3, 4]);
    g.push(2, &[3, 4]);
    assert!(f.is_complete() && g.is_complete());
    assert_eq!(f.contents(), &vec![1, 2, 3, 4, 5]);
}

#[test]
fn size_before_or_after_a_chunk() {
    let mut f = IncomingFile::new();
    f.set_total(3);
    f.push(0, &[1, 2, 3]);
    let mut g = IncomingFile::new();
    g.push(0, &[1, 2, 3]);
    g.set_total(3);
    assert_eq!(f.total(), g.total());
    assert_eq!(f.received(), g.received());
    assert_eq!(f.contents(), g.contents());
    assert!(f.is_complete() && g.is_complete());
    g.set_total(9);
    assert_eq!(g.total(), 9);
    assert!(!g.is_complete());
}
