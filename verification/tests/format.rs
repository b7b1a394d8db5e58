//! The format of the output.

use audioware::{AudioFormat, CHANNELS};

#[test]
fn channels_is_stereo() {
    assert_eq!(CHANNELS, 2);
}

#[test]
fn samples_for_frames_multiplies_by_channel_count() {
    let format = AudioFormat::new(48_000);
    assert_eq!(format.samples_for_frames(0), 0);
    assert_eq!(format.samples_for_frames(1), 2);
    assert_eq!(format.samples_for_frames(256), 512);
}
