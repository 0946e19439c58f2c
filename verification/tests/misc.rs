use fathom::calib::{correspondence_count, CalibError};
use fathom::session::{Session, SessionError};
use fathom::shapes::{has_row_width, is_square, is_transform_stack};
use fathom::surface::{padded_row_bytes, preferred_format, resize_to, strip_row_padding};
use fathom::texture::{check_pixel_data, expected_bytes, Filter, Format, TextureError};

#[test]
fn too_few_correspondences_are_counted() {
    assert_eq!(correspondence_count(3, 3), Err(CalibError::TooFewCorrespondences(3)));
    assert_eq!(correspondence_count(5, 4), Ok(4));
    assert_eq!(correspondence_count(4, 100), Ok(4));
    assert_eq!(correspondence_count(0, 9), Err(CalibError::TooFewCorrespondences(0)));
    assert_eq!(
        CalibError::TooFewCorrespondences(3).message(),
        "need at least 4 correspondences, got 3"
    );
    assert_eq!(CalibError::Singular.message(), "matrix is singular");
}

#[test]
fn pixel_data_must_match_the_dimensions() {
    assert_eq!(expected_bytes(640, 480, Format::Rgba8), 640 * 480 * 4);
    assert_eq!(Format::Bgra8.bytes_per_pixel(), 4);
    assert!(check_pixel_data(640, 480, Format::Rgba8, 640 * 480 * 4).is_ok());
    let e = check_pixel_data(2, 2, Format::Bgra8, 15);
    assert_eq!(e, Err(TextureError::WrongSize { expected: 16, got: 15 }));
    assert_eq!(
        TextureError::WrongSize { expected: 16, got: 15 }.message(),
        "expected 16 bytes of pixel data, got 15"
    );
    assert_eq!(Filter::default(), Filter::Linear);
}

#[test]
fn rows_are_padded_to_256_bytes() {
    assert_eq!(padded_row_bytes(0), 0);
    assert_eq!(padded_row_bytes(1), 256);
    assert_eq!(padded_row_bytes(64), 256);
    assert_eq!(padded_row_bytes(65), 512);
    assert_eq!(padded_row_bytes(640), 2560);
}

#[test]
fn read_back_drops_row_padding() {
    let data: Vec<u8> = (0..10u8).collect();
    assert_eq!(strip_row_padding(&data, 2, 4), vec![0, 1, 4, 5]);
    assert_eq!(strip_row_padding(&data, 4, 4), vec![0, 1, 2, 3, 4, 5, 6, 7]);
    assert_eq!(strip_row_padding(&data, 0, 5), Vec::<u8>::new());
    assert_eq!(strip_row_padding(&[], 1, 2), Vec::<u8>::new());
}

#[test]
fn resizing_to_the_same_size_does_nothing() {
    assert_eq!(resize_to((640, 480), 640, 480), None);
    assert_eq!(resize_to((640, 480), 800, 600), Some((800, 600)));
    assert_eq!(resize_to((1, 1), 0, 0), None);
    assert_eq!(resize_to((640, 480), 0, 480), Some((1, 480)));
}

#[test]
fn a_session_opens_one_frame_at_a_time() {
    let mut s: Session<u32> = Session::new();
    assert_eq!(s.frame(), Err(SessionError::NoFrame));
    assert_eq!(s.bound_scene(), Err(SessionError::NoFrame));
    s.bind_scene(7);
    assert_eq!(s.bound_scene(), Err(SessionError::NoFrame));
    assert_eq!(s.begin_frame(), Ok(()));
    assert_eq!(s.begin_frame(), Err(SessionError::FrameAlreadyOpen));
    assert_eq!(s.bound_scene(), Ok(&7));
    s.end_scene();
    assert_eq!(s.bound_scene(), Err(SessionError::NoCamera));
    s.bind_scene(9);
    assert_eq!(s.end_frame(), Ok(()));
    assert_eq!(s.end_frame(), Err(SessionError::NotOpen));
    assert_eq!(s.begin_frame(), Ok(()));
    assert_eq!(s.bound_scene(), Err(SessionError::NoCamera));
    assert_eq!(SessionError::NotOpen.message(), "no frame is open");
    assert_eq!(
        SessionError::NoCamera.message(),
        "no camera is bound; call scene(camera) first"
    );
}

#[test]
fn a_closed_window_stays_closed() {
    let mut s: Session<()> = Session::new();
    assert!(s.poll(false));
    assert!(!s.poll(true));
    assert!(!s.poll(false));
}

#[test]
fn array_shapes() {
    assert!(has_row_width(&[10, 3], 3));
    assert!(!has_row_width(&[10, 2], 3));
    assert!(!has_row_width(&[10], 3));
    assert!(is_square(&[4, 4], 4));
    assert!(!is_square(&[4, 4, 1], 4));
    assert!(!is_square(&[3, 4], 4));
    assert!(is_transform_stack(&[7, 4, 4]));
    assert!(!is_transform_stack(&[7, 4]));
    assert!(!is_transform_stack(&[7, 3, 4]));
}

#[test]
fn presenting_prefers_a_format_that_is_not_srgb() {
    assert_eq!(preferred_format(&[true, false, false]), Some(1));
    assert_eq!(preferred_format(&[false]), Some(0));
    assert_eq!(preferred_format(&[true, true]), Some(0));
    assert_eq!(preferred_format(&[]), None);
}
