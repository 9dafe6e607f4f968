use ustreamer::converters::{nv24_444_to_nv12_downsampler, yuyv_to_rgb, Mode};

#[test]
fn conv_factor() {
    let rgb = yuyv_to_rgb(0, 0, 0);
    assert_eq!(rgb, (0, 135, 0));
}

#[test]
fn conversion_follows_the_formula() {
    assert_eq!(yuyv_to_rgb(16, 128, 128), (0, 0, 0));
    assert_eq!(yuyv_to_rgb(235, 128, 128), (254, 254, 254));
    assert_eq!(yuyv_to_rgb(255, 255, 255), (255, 125, 255));
    assert_eq!(yuyv_to_rgb(81, 90, 240), (254, 0, 0));
    assert_eq!(yuyv_to_rgb(17, 128, 128), (1, 1, 1));
    assert_eq!(yuyv_to_rgb(16, 128, 127), (0, 0, 0));
}

#[test]
fn downsampler_halves_the_chroma() {
    let width = 4;
    let height = 2;
    let mut raw: Vec<u8> = vec![10, 11, 12, 13, 14, 15, 16, 17];
    raw.extend_from_slice(&[100, 200, 102, 202, 104, 204, 106, 206]);
    raw.extend_from_slice(&[110, 210, 112, 212, 114, 214, 117, 217]);
    let quality = nv24_444_to_nv12_downsampler(&raw, width, height, Mode::Quality);
    assert_eq!(quality, vec![10, 11, 12, 13, 14, 15, 16, 17, 106, 206, 110, 210]);
    let fast = nv24_444_to_nv12_downsampler(&raw, width, height, Mode::Fast);
    assert_eq!(fast, vec![10, 11, 12, 13, 14, 15, 16, 17, 100, 212, 104, 217]);
    let empty = nv24_444_to_nv12_downsampler(&[], 0, 2, Mode::Fast);
    assert!(empty.is_empty());
}

#[test]
fn chroma_plane_is_taken_apart() {
    let buf = [9u8, 9, 1, 2, 3, 4, 5, 6, 7];
    let (u, v) = ustreamer::converters::split_chroma(&buf, 2, 3);
    assert_eq!(u, vec![1, 3, 5]);
    assert_eq!(v, vec![2, 4, 6]);
    let (u, v) = ustreamer::converters::split_chroma(&buf, 9, 0);
    assert!(u.is_empty() && v.is_empty());
}

#[test]
fn pixel_formats_are_named_by_their_code() {
    assert_eq!(ustreamer::converters::pixel_format(b"NV12"), Some(ustreamer::converters::StreamPixelFormat::NV12));
    assert_eq!(ustreamer::converters::pixel_format(b"BGR3"), Some(ustreamer::converters::StreamPixelFormat::BGR3));
    assert_eq!(ustreamer::converters::pixel_format(b"NV24"), Some(ustreamer::converters::StreamPixelFormat::NV24));
    assert_eq!(ustreamer::converters::pixel_format(b"nv12"), None);
    assert_eq!(ustreamer::converters::pixel_format(b""), None);
}
