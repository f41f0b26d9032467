use gameserver::config::ServerConfig;
use gameserver::editor::state::difficulty::Difficulty;
use gameserver::util::{copy_vec, reverse, Float, IVec2, Vec2};

fn float(value: f32) -> Float {
    Float::from_bits(value.to_bits())
}

#[test]
fn float_keeps_its_bits() {
    assert_eq!(Float::from_bits(0x3fc0_0000).to_bits(), 0x3fc0_0000);
    assert_eq!(float(1.5).to_bits(), 0x3fc0_0000);
    assert_eq!(f32::from_bits(float(-2.25).to_bits()), -2.25);
}

#[test]
fn float_zero_of_either_sign_is_non_negative() {
    assert!(float(0.0).is_non_negative());
    assert!(float(-0.0).is_non_negative());
    assert_eq!(float(-0.0).to_bits(), 0x8000_0000);
}

#[test]
fn float_positive_numbers_are_non_negative() {
    assert!(float(1.0).is_non_negative());
    assert!(float(f32::MIN_POSITIVE).is_non_negative());
    assert!(float(f32::from_bits(1)).is_non_negative());
    assert!(float(f32::MAX).is_non_negative());
    assert!(float(f32::INFINITY).is_non_negative());
}

#[test]
fn float_negative_numbers_are_not_non_negative() {
    assert!(!float(-1.0).is_non_negative());
    assert!(!float(-f32::MIN_POSITIVE).is_non_negative());
    assert!(!float(f32::from_bits(0x8000_0001)).is_non_negative());
    assert!(!float(f32::MIN).is_non_negative());
    assert!(!float(f32::NEG_INFINITY).is_non_negative());
}

#[test]
fn float_nan_is_not_non_negative() {
    assert!(!float(f32::NAN).is_non_negative());
    assert!(!Float::from_bits(0x7f80_0001).is_non_negative());
    assert!(!Float::from_bits(0x7fff_ffff).is_non_negative());
    assert!(!Float::from_bits(0xff80_0001).is_non_negative());
    assert!(!Float::from_bits(0xffc0_0000).is_non_negative());
}

#[test]
fn float_non_negative_agrees_with_the_machine_on_a_sweep() {
    let mut bits: u32 = 0;
    let mut checked: u32 = 0;
    loop {
        let expected = f32::from_bits(bits) >= 0.0;
        assert_eq!(Float::from_bits(bits).is_non_negative(), expected, "bits {:#x}", bits);
        checked += 1;
        match bits.checked_add(0x0000_fff1) {
            Some(next) => bits = next,
            None => break,
        }
    }
    assert!(checked > 60_000);
}

#[test]
fn float_non_negative_agrees_with_the_machine_at_the_borders() {
    let borders: [u32; 12] = [
        0x0000_0000, 0x0000_0001, 0x007f_ffff, 0x0080_0000, 0x7f7f_ffff, 0x7f80_0000,
        0x7f80_0001, 0x7fff_ffff, 0x8000_0000, 0x8000_0001, 0xff80_0000, 0xffff_ffff,
    ];
    for bits in borders {
        let expected = f32::from_bits(bits) >= 0.0;
        assert_eq!(Float::from_bits(bits).is_non_negative(), expected, "bits {:#x}", bits);
    }
}

#[test]
fn points_hold_their_coordinates() {
    let point = IVec2::new(-3, 7);
    assert_eq!(point.x, -3);
    assert_eq!(point.y, 7);
    let place = Vec2::new(float(0.5), float(-8.0));
    assert_eq!(f32::from_bits(place.x.to_bits()), 0.5);
    assert_eq!(f32::from_bits(place.y.to_bits()), -8.0);
}

#[test]
fn copy_vec_copies_in_order() {
    let values: Vec<u32> = vec![4, 1, 3];
    assert_eq!(copy_vec(&values), vec![4, 1, 3]);
    let nothing: Vec<u32> = Vec::new();
    assert_eq!(copy_vec(&nothing), Vec::<u32>::new());
}

#[test]
fn reverse_turns_the_order_round() {
    assert_eq!(reverse(vec![1, 2, 3]), vec![3, 2, 1]);
    assert_eq!(reverse(vec![9]), vec![9]);
    assert_eq!(reverse(Vec::<u8>::new()), Vec::<u8>::new());
}

#[test]
fn server_config_defaults_to_its_port() {
    assert_eq!(ServerConfig::default().port, 7350);
}

#[test]
fn difficulty_defaults_are_the_usual_numbers() {
    let difficulty = Difficulty::default();
    assert_eq!(f32::from_bits(difficulty.hp_drain_rate.to_bits()), 5.0);
    assert_eq!(f32::from_bits(difficulty.circle_size.to_bits()), 4.0);
    assert_eq!(f32::from_bits(difficulty.overall_difficulty.to_bits()), 8.5);
    assert_eq!(f32::from_bits(difficulty.approach_rate.to_bits()), 8.5);
    assert_eq!(f32::from_bits(difficulty.slider_multiplier.to_bits()), 1.4);
    assert_eq!(f32::from_bits(difficulty.slider_tick_rate.to_bits()), 1.0);
}
