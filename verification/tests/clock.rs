use squawkline::clock::{stamped, timestamp};

#[test]
fn the_time_of_day_has_five_characters() {
    let stamp = timestamp();
    let chars: Vec<char> = stamp.chars().collect();
    assert_eq!(chars.len(), 5);
    assert_eq!(chars[2], ':');
    let hour: u32 = stamp[..2].parse().unwrap();
    let minute: u32 = stamp[3..].parse().unwrap();
    assert!(hour < 24 && minute < 60);
}

#[test]
fn lines_carry_their_time() {
    assert_eq!(stamped("09:05", "<ada> hi"), "[09:05] <ada> hi\n");
    assert_eq!(stamped("", ""), "[] \n");
}
