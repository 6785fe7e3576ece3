use icondec::naming::{output_name, u64_dec};

#[test]
fn renders_decimals() {
    assert_eq!(u64_dec(0), "0");
    assert_eq!(u64_dec(7), "7");
    assert_eq!(u64_dec(10), "10");
    assert_eq!(u64_dec(256), "256");
    assert_eq!(u64_dec(4294967295), "4294967295");
}

#[test]
fn base_name_encodes_dimensions() {
    let taken: Vec<String> = Vec::new();
    assert_eq!(output_name(32, 32, &taken), "32x32.png");
    assert_eq!(output_name(256, 256, &taken), "256x256.png");
    assert_eq!(output_name(640, 480, &taken), "640x480.png");
}

#[test]
fn collision_appends_a_number() {
    let taken = vec!["32x32.png".to_string()];
    assert_eq!(output_name(32, 32, &taken), "32x32-1.png");
}

#[test]
fn repeated_collisions_count_up() {
    let taken = vec!["32x32.png".to_string(), "32x32-1.png".to_string(), "32x32-2.png".to_string()];
    assert_eq!(output_name(32, 32, &taken), "32x32-3.png");
}

#[test]
fn unrelated_names_do_not_collide() {
    let taken = vec!["16x16.png".to_string(), "32x32-1.png".to_string()];
    assert_eq!(output_name(32, 32, &taken), "32x32.png");
}

#[test]
fn two_writes_of_equal_dimensions_get_distinct_names() {
    let mut taken = vec!["other.png".to_string()];
    let first = output_name(64, 64, &taken);
    taken.push(first.clone());
    let second = output_name(64, 64, &taken);
    assert_ne!(first, second);
    assert_eq!(first, "64x64.png");
    assert_eq!(second, "64x64-1.png");
}
