use fathom::media::{ffmpeg_args, EncodeOptions, EncodeState, MediaError};

#[test]
fn a_frame_of_the_wrong_size_is_rejected_before_it_reaches_the_encoder() {
    let enc = EncodeState::new(16, 16);
    assert!(matches!(
        enc.check_frame([0u8; 10].len()),
        Err(MediaError::WrongFrameSize {
            expected: 1024,
            got: 10
        })
    ));
    assert!(enc.check_frame(1024).is_ok());
}

#[test]
fn zero_sides_count_as_one_pixel() {
    assert_eq!(EncodeState::new(0, 0).frame_bytes(), 4);
    assert_eq!(EncodeState::new(1280, 720).frame_bytes(), 1280 * 720 * 4);
}

#[test]
fn finishing_reports_every_frame_written() {
    let mut enc = EncodeState::new(64, 64);
    for _ in 0..10 {
        assert!(enc.check_frame(64 * 64 * 4).is_ok());
        enc.record_frame();
    }
    let done = enc.finish();
    assert_eq!(done.frames(), 10);
}

#[test]
fn options_default_to_h264() {
    let o = EncodeOptions::default();
    assert_eq!(o.fps, 30);
    assert_eq!(o.crf, 18);
    assert_eq!(o.preset, "medium");
    assert_eq!(o.codec, "libx264");
    let mut o = EncodeOptions::new(60);
    o.crf = 23;
    assert_eq!(o.fps, 60);
    assert_eq!(o.crf, 23);
    assert_eq!(o.preset, "medium");
}

#[test]
fn encoder_command_line() {
    let mut o = EncodeOptions::new(10);
    o.preset = "ultrafast";
    let args = ffmpeg_args(640, 0, &o);
    let want = [
        "-hide_banner", "-loglevel", "error", "-y", "-f", "rawvideo", "-pix_fmt", "rgba", "-s",
        "640x1", "-r", "10", "-i", "-", "-c:v", "libx264", "-preset", "ultrafast", "-crf", "18",
        "-pix_fmt", "yuv420p",
    ];
    assert_eq!(args, want);
}

#[test]
fn media_error_messages() {
    let e = MediaError::WrongFrameSize { expected: 1024, got: 10 };
    assert_eq!(e.message(), "expected 1024 bytes per frame, got 10");
    assert_eq!(MediaError::Failed(Some(-3)).message(), "ffmpeg exited with status -3");
    assert_eq!(MediaError::Failed(Some(1)).message(), "ffmpeg exited with status 1");
    assert_eq!(MediaError::Failed(None).message(), "ffmpeg was killed by a signal");
    let io = std::io::Error::from(std::io::ErrorKind::BrokenPipe);
    assert_eq!(
        MediaError::Closed(io).message(),
        "ffmpeg closed its input before the last frame"
    );
    let io = std::io::Error::from(std::io::ErrorKind::NotFound);
    assert_eq!(
        MediaError::NotInstalled(io).message(),
        "could not start ffmpeg; is it installed and on PATH?"
    );
}
