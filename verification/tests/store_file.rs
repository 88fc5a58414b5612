use hoshi::store_file::{frame_record, split_frames};

#[test]
fn frames_read_back_in_order() {
    let mut file = Vec::new();
    file.extend(frame_record(b"first"));
    file.extend(frame_record(b""));
    file.extend(frame_record(&[7u8; 300]));
    assert_eq!(&file[..4], &[5, 0, 0, 0]);
    let bodies = split_frames(&file);
    assert_eq!(bodies, vec![b"first".to_vec(), Vec::new(), vec![7u8; 300]]);
}

#[test]
fn length_is_little_endian() {
    let framed = frame_record(&[1u8; 258]);
    assert_eq!(&framed[..4], &[2, 1, 0, 0]);
    assert_eq!(framed.len(), 262);
}

#[test]
fn torn_final_frame_is_ignored() {
    let mut file = frame_record(b"whole");
    let torn = frame_record(b"cut short");
    file.extend_from_slice(&torn[..7]);
    assert_eq!(split_frames(&file), vec![b"whole".to_vec()]);
    assert!(split_frames(&[1, 0]).is_empty());
    assert!(split_frames(&[]).is_empty());
}
