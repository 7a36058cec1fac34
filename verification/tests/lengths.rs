use fft::levels_for;

#[test]
fn powers_of_two_have_a_level() {
    assert_eq!(levels_for(1), Some(0));
    assert_eq!(levels_for(2), Some(1));
    assert_eq!(levels_for(4), Some(2));
    assert_eq!(levels_for(1024), Some(10));
    assert_eq!(levels_for(1usize << (usize::BITS - 1)), Some((usize::BITS - 1) as usize));
}

#[test]
fn other_lengths_have_none() {
    assert_eq!(levels_for(0), None);
    assert_eq!(levels_for(3), None);
    assert_eq!(levels_for(6), None);
    assert_eq!(levels_for(12), None);
    assert_eq!(levels_for(1023), None);
    assert_eq!(levels_for(1025), None);
    assert_eq!(levels_for(usize::MAX), None);
    assert_eq!(levels_for((1usize << (usize::BITS - 1)) + 1), None);
}
