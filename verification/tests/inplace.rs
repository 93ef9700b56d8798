use tizol::error::SpectrogramError;
use tizol::inplace::STFT;

fn ramp(len: u64) -> Vec<u64> {
    (0..len).collect()
}

#[test]
fn batch_new_accepts_a_valid_configuration() {
    let source = STFT::new(2048, 512).unwrap();
    assert_eq!(source.window_size(), 2048);
    assert_eq!(source.step_size(), 512);
    assert!(STFT::new(1, 1).is_ok());
    assert!(STFT::new(8, 8).is_ok());
}

#[test]
fn batch_new_refuses_an_invalid_configuration() {
    assert_eq!(STFT::new(8, 0).err(), Some(SpectrogramError::InvalidConfig));
    assert_eq!(STFT::new(8, 9).err(), Some(SpectrogramError::InvalidConfig));
    assert_eq!(STFT::new(0, 0).err(), Some(SpectrogramError::InvalidConfig));
}

#[test]
fn batch_output_size_is_half_the_window() {
    assert_eq!(STFT::new(2048, 512).unwrap().output_size(), 1024);
    assert_eq!(STFT::new(1024, 512).unwrap().output_size(), 512);
    assert_eq!(STFT::new(7, 2).unwrap().output_size(), 3);
}

#[test]
fn frame_count_follows_the_formula() {
    let source = STFT::new(1024, 512).unwrap();
    assert_eq!(source.frame_count(441000), 860);
    assert_eq!(source.frame_count(1024), 1);
    assert_eq!(source.frame_count(1023), 0);
    assert_eq!(source.frame_count(0), 0);
    assert_eq!(source.frame_count(1535), 1);
    assert_eq!(source.frame_count(1536), 2);
    let dense = STFT::new(4, 1).unwrap();
    assert_eq!(dense.frame_count(4), 1);
    assert_eq!(dense.frame_count(10), 7);
    assert_eq!(STFT::new(1, 1).unwrap().frame_count(usize::MAX), usize::MAX);
}

#[test]
fn stft_size_counts_whole_steps_in_windows() {
    let source = STFT::new(1024, 512).unwrap();
    assert_eq!(source.stft_size(441000), 859 * 1024);
    assert_eq!(source.stft_size(1024), 0);
    assert_eq!(source.stft_size(1536), 1024);
}

#[test]
fn frame_is_the_slice_at_index_times_step() {
    let signal = ramp(20);
    let source = STFT::new(6, 4).unwrap();
    assert_eq!(source.frame_count(signal.len()), 4);
    assert_eq!(source.frame(&signal, 0), &[0, 1, 2, 3, 4, 5]);
    assert_eq!(source.frame(&signal, 1), &[4, 5, 6, 7, 8, 9]);
    assert_eq!(source.frame(&signal, 3), &[12, 13, 14, 15, 16, 17]);
}

#[test]
fn frames_are_all_frames_in_order() {
    let signal = ramp(9);
    let source = STFT::new(4, 2).unwrap();
    assert_eq!(
        source.frames(&signal),
        vec![vec![0, 1, 2, 3], vec![2, 3, 4, 5], vec![4, 5, 6, 7]]
    );
    assert!(source.frames(&ramp(3)).is_empty());
    assert!(source.frames(&[]).is_empty());
    assert_eq!(source.frames(&ramp(4)), vec![vec![0, 1, 2, 3]]);
}

#[test]
fn frames_agree_with_frame_and_frame_count() {
    let signal = ramp(1000);
    for (window, step) in [(1, 1), (10, 3), (10, 10), (999, 1), (1000, 1000), (1001, 5)] {
        let source = STFT::new(window, step).unwrap();
        let frames = source.frames(&signal);
        assert_eq!(frames.len(), source.frame_count(signal.len()));
        for (index, frame) in frames.iter().enumerate() {
            assert_eq!(frame.as_slice(), source.frame(&signal, index));
            assert_eq!(frame.as_slice(), &signal[index * step..index * step + window]);
        }
    }
}

#[test]
fn batch_frames_twice_gives_the_same_frames() {
    let signal = ramp(300);
    let source = STFT::new(16, 5).unwrap();
    assert_eq!(source.frames(&signal), source.frames(&signal));
}
