use hoshi::audio::{AudioStream, SinkMixer, SourceBuffer};
use hoshi::bots::{
    ClientInterface, DeviceStreamState, Jukebox, JukeboxInterface, Loopback, LoopbackInterface, is_track_extension,
    TrackError, load_next_track, pick_random_track, pick_track, pick_track_entry,
};

#[test]
fn mixer_sums_channels_and_clamps() {
    let mut m = SinkMixer::new(8, 0);
    m.write(1, &[100, 200, 300]);
    m.write(2, &[32700, 32700]);
    m.write(1, &[-5]);
    let out = m.mix(5);
    assert_eq!(out, vec![32767, 32767, 300, -5, 0]);
    assert_eq!(m.mix(2), vec![0, 0]);
    m.write(4, &[-32768, 10]);
    m.write(5, &[-32768, 20]);
    assert_eq!(m.mix(2), vec![-32768, 30]);
}

#[test]
fn mixer_keeps_the_newest_samples_and_prefills() {
    let mut m = SinkMixer::new(4, 2);
    m.write(0, &[1, 2, 3]);
    assert_eq!(m.mix(4), vec![0, 1, 2, 3]);
    m.write(0, &[1, 2, 3, 4, 5, 6]);
    assert_eq!(m.mix(5), vec![3, 4, 5, 6, 0]);
}

#[test]
fn source_buffer_keeps_the_newest() {
    let mut s = SourceBuffer::new(3);
    s.capture(&[1, 2]);
    s.capture(&[3, 4, 5]);
    let mut buf = vec![9; 5];
    assert_eq!(s.read_into(&mut buf), 3);
    assert_eq!(buf, vec![3, 4, 5, 9, 9]);
    let mut buf = vec![7; 2];
    assert_eq!(s.read_into(&mut buf), 0);
    assert_eq!(buf, vec![7, 7]);
}

#[test]
fn loopback_echoes_while_playing() {
    let mut l = LoopbackInterface::new().create();
    assert_eq!(l.write(0, &[1, 2]), 0);
    let mut buf = vec![5; 3];
    assert_eq!(l.read(&mut buf), 3);
    assert_eq!(buf, vec![0, 0, 0]);
    l.play();
    assert_eq!(l.write(0, &[1, 2]), 2);
    assert_eq!(l.write(1, &[10]), 1);
    assert_eq!(l.read(&mut buf), 3);
    assert_eq!(buf, vec![11, 2, 0]);
    l.pause();
    assert!(!l.has_error());
    let _ = Loopback::new();
}

#[test]
fn loopback_caps_each_channel() {
    let mut l = Loopback::new();
    l.play();
    let samples: Vec<i16> = (0..9000).map(|i| (i % 100) as i16).collect();
    assert_eq!(l.write(3, &samples), 9000);
    let mut buf = vec![0; 8200];
    l.read(&mut buf);
    assert_eq!(buf[0], ((9000 - 8192) % 100) as i16);
    assert_eq!(buf[8191], 99);
    assert_eq!(buf[8192], 0);
}

#[test]
fn jukebox_plays_tracks() {
    let iface = JukeboxInterface::new("/music".to_string());
    let mut j = iface.create();
    assert_eq!(j.music_library(), "/music");
    let mut buf = vec![4; 3];
    assert_eq!(j.read(&mut buf), 3);
    assert_eq!(buf, vec![0, 0, 0]);
    j.play();
    assert!(j.needs_track());
    assert_eq!(j.read(&mut buf), 0);
    j.load_track(vec![1, 2, 3, 4, 5]);
    assert!(!j.needs_track());
    assert_eq!(j.read(&mut buf), 3);
    assert_eq!(buf, vec![1, 2, 3]);
    assert_eq!(j.read(&mut buf), 3);
    assert_eq!(buf, vec![4, 5, 3]);
    assert!(j.needs_track());
    assert_eq!(j.write(0, &[1, 2]), 2);
    let _ = Jukebox::new("x".to_string());
}

#[test]
fn track_choice() {
    assert!(is_track_extension(Some("mp3")));
    assert!(is_track_extension(Some("m4a")));
    assert!(!is_track_extension(Some("ogg")));
    assert!(!is_track_extension(None));
    assert_eq!(pick_track(3, 10), 1);
    assert_eq!(pick_track(7, 7), 0);
}

#[test]
fn device_stream_buffers() {
    let mut d = DeviceStreamState::new();
    assert_eq!(d.write(0, &[1]), 0);
    assert!(d.start());
    assert!(!d.start());
    assert_eq!(d.write(0, &[1, 2]), 2);
    let out = d.fill_output(2050);
    assert_eq!(&out[2046..], &[0, 0, 1, 2]);
    d.fill_input(&[5, 6, 7]);
    let mut buf = vec![0; 2];
    assert_eq!(d.read(&mut buf), 2);
    assert_eq!(buf, vec![5, 6]);
    assert!(d.stop());
    assert_eq!(d.read(&mut buf), 0);
    assert!(!d.has_error());
    d.set_error();
    assert!(d.has_error());
    let _ = ClientInterface::new();
}

#[test]
fn random_tracks_are_in_range() {
    for _ in 0..100 {
        assert!(pick_random_track(5) < 5);
    }
    assert_eq!(pick_random_track(1), 0);
}

fn exts(list: &[Option<&str>]) -> Vec<Option<String>> {
    list.iter().map(|e| e.map(|x| x.to_string())).collect()
}

#[test]
fn the_picked_entry_is_a_track() {
    let entries = exts(&[Some("txt"), Some("mp3"), None, Some("m4a"), Some("flac"), Some("mp3")]);
    assert_eq!(pick_track_entry(&entries, 0), Ok(1));
    assert_eq!(pick_track_entry(&entries, 1), Ok(3));
    assert_eq!(pick_track_entry(&entries, 5), Ok(5));
    let i = load_next_track(&entries).unwrap();
    assert!(i == 1 || i == 3 || i == 5);
}

#[test]
fn a_library_without_tracks_is_an_error() {
    let entries = exts(&[Some("txt"), None, Some("MP3")]);
    assert_eq!(pick_track_entry(&entries, 3), Err(TrackError::NoTracks));
    match load_next_track(&entries) {
        Err(e) => assert_eq!(e.message(), "No tracks found"),
        Ok(i) => panic!("unexpected track {i}"),
    }
    assert_eq!(load_next_track(&vec![]), Err(TrackError::NoTracks));
}
