use mp3_normalizer::gain::{channel_blocks, percentile_position, sum_of_squares};

#[test]
fn sum_of_squares_exact() {
    assert_eq!(sum_of_squares(&[]), 0);
    assert_eq!(sum_of_squares(&[3, -4]), 25);
    assert_eq!(sum_of_squares(&[i16::MIN, i16::MAX]), 32768 * 32768 + 32767 * 32767);
}

#[test]
fn channel_blocks_like_chunks_exact() {
    for (len, channels) in [(8usize, 2usize), (7, 2), (5, 3), (2304, 2), (1, 1)] {
        let size = len / channels;
        let data: Vec<i16> = (0..len as i16).collect();
        let expected: Vec<(usize, usize)> = data
            .chunks_exact(size)
            .enumerate()
            .map(|(k, c)| (k * size, k * size + c.len()))
            .collect();
        assert_eq!(channel_blocks(len, channels), expected, "{} {}", len, channels);
    }
}

#[test]
fn percentile_position_matches_rounding() {
    for n in 0usize..2000 {
        let idx = ((n as f64) * 0.95).round() as usize;
        let expected = if idx < n { Some(idx) } else { None };
        assert_eq!(percentile_position(n), expected, "{}", n);
    }
    assert_eq!(percentile_position(10), None);
    assert_eq!(percentile_position(11), Some(10));
    assert_eq!(percentile_position(100), Some(95));
}
