use resampler::rational::Rat;

#[test]
fn zero_is_zero() {
    let z = Rat::zero();
    assert!(z.eq_rat(&Rat::new(0, 5)));
    assert_eq!(z.floor(), 0);
    assert!(z.is_integer());
}

#[test]
fn equality_is_by_value() {
    assert!(Rat::new(1, 2).eq_rat(&Rat::new(2, 4)));
    assert!(Rat::new(-3, 6).eq_rat(&Rat::new(-1, 2)));
    assert!(!Rat::new(1, 2).eq_rat(&Rat::new(1, 3)));
    assert!(Rat::from_int(7).eq_rat(&Rat::new(21, 3)));
}

#[test]
fn arithmetic_is_exact() {
    let half = Rat::new(1, 2);
    let third = Rat::new(1, 3);
    assert!(half.add_rat(&third).eq_rat(&Rat::new(5, 6)));
    assert!(half.sub_rat(&third).eq_rat(&Rat::new(1, 6)));
    assert!(half.mul_rat(&third).eq_rat(&Rat::new(1, 6)));
    assert!(half.div_rat(&third).eq_rat(&Rat::new(3, 2)));
}

#[test]
fn reduction_keeps_the_value_and_shortens() {
    let r = Rat::new(32, 16).reduced();
    assert_eq!((r.num, r.den), (2, 1));
    let s = Rat::new(-9, 12).reduced();
    assert_eq!((s.num, s.den), (-3, 4));
    let t = Rat::new(7, 13).reduced();
    assert_eq!((t.num, t.den), (7, 13));
    let z = Rat::new(0, 6).reduced();
    assert_eq!((z.num, z.den), (0, 1));
}

#[test]
fn floor_and_fract_split_a_position() {
    let pos = Rat::new(7, 2);
    assert_eq!(pos.floor(), 3);
    assert!(!pos.is_integer());
    assert!(pos.fract_part().eq_rat(&Rat::new(1, 2)));

    let whole = Rat::new(8, 2);
    assert_eq!(whole.floor(), 4);
    assert!(whole.is_integer());
    assert!(whole.fract_part().eq_rat(&Rat::zero()));
}
