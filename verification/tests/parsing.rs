use rand::thread_rng;
use roll::{parse_rolls, DiceBag, Roll};

#[test]
fn test_roll() {
    let mut bag = DiceBag::new(thread_rng());
    let results = bag.roll(&Roll {
        dice_count: 2,
        sides: 8,
        values: vec![1, 2, 3, 4, 5, 6, 7, 8],
    });
    for i in 0..2 {
        let n = results[i];
        assert!(n >= 1 && n <= 8);
    }
}

#[test]
fn test_parse_roll() {
    let s = "3d6";
    let roll: Roll = s.parse().expect("Bad parse");
    assert_eq!(roll.dice_count, 3);
    assert_eq!(roll.sides, 6);
    let mut rng = rand::thread_rng();
    let results = roll.roll(&mut rng);
    assert_eq!(results.len(), 3);
}

#[test]
fn test_parse_multiple_roles() {
    let s = "3d6 2d8 1d20";
    let rolls = parse_rolls(s).expect("Bad parse");
    assert_eq!(rolls.len(), 3);
}

#[test]
fn test_impossible_dice_shape_1_side() {
    let s = "2d1";
    match s.parse::<Roll>() {
        Ok(_) => panic!("Impossible shape"),
        Err(_) => (),
    }
}

#[test]
fn test_impossible_dice_shape_3_sides() {
    let s = "3d3";
    match s.parse::<Roll>() {
        Ok(_) => panic!("Impossible shape"),
        Err(_) => (),
    }
}

#[test]
fn test_parse_custom() {
    let s = "1d{1,1,0,0,-1,-1}";
    let roll: Roll = s.parse().expect("Bad parse");
    assert_eq!(roll.sides, 6);
    assert_eq!(roll.values, vec![1, 1, 0, 0, -1, -1]);
}

#[test]
fn test_parse_custom_with_preceding_whitespace() {
    let s = "1d{ 1,\t1, \t0,\t \t0,\t -1,   -1}";
    let roll: Roll = s.parse().expect("Bad parse");
    assert_eq!(roll.sides, 6);
    assert_eq!(roll.values, vec![1, 1, 0, 0, -1, -1]);
}

#[test]
fn test_parse_custom_with_preceding_and_trailing_whitespace() {
    let s = "1d{ 1 ,\t1\t, \t0 \t,\t \t0\t \t,\t -1\t ,   -1   }";
    let roll: Roll = s.parse().expect("Bad parse");
    assert_eq!(roll.sides, 6);
    assert_eq!(roll.values, vec![1, 1, 0, 0, -1, -1]);
}

#[test]
fn test_fudge_dice() {
    let s = "2dF";
    let roll: Roll = s.parse().expect("Bad parse");
    assert_eq!(roll.dice_count, 2);
    assert_eq!(roll.sides, 6);
    assert_eq!(roll.values, vec![1, 1, 0, 0, -1, -1]);
}

#[test]
fn test_percentile_dice() {
    let s = "1d%";
    let roll: Roll = s.parse().expect("Bad parse");
    assert_eq!(roll.dice_count, 1);
    assert_eq!(roll.sides, 100);
    let values: Vec<i32> = (1..101).collect();
    assert_eq!(roll.values, values);
    assert_eq!(roll.values.len(), 100);
}

#[test]
fn test_single_die_without_number_of_dice() {
    let s = "d20";
    let roll: Roll = s.parse().expect("Bad parse");
    assert_eq!(roll.dice_count, 1);
    assert_eq!(roll.sides, 20);
}

#[test]
fn test_summary_of_rolls() {
    let input = "2d20 1d6";
    let rng = rand::rngs::mock::StepRng::new(3, 1);
    let mut dice = DiceBag::new(rng);
    let rolls = parse_rolls(input).expect("Bad parse");
    let result = dice.roll_all(&rolls);
    assert_eq!(result.total, 3);
    assert_eq!(result.lowest, 1);
    assert_eq!(result.highest, 1);
}
