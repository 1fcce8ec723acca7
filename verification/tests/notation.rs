use roll::shape::{normal_die, parse_custom_die, parse_sides, parse_value, parse_values, skip_whitespace};
use roll::text::{chars_of, digit_text, is_digit, is_whitespace, parse_numeral, push_decimal};
use roll::{parse_rolls, ParseRollError, Roll};

fn chars(s: &str) -> Vec<char> {
    s.chars().collect()
}

fn numbered(sides: u32) -> Vec<i32> {
    (1..=sides as i32).collect()
}

#[test]
fn numeric_rolls_have_faces_numbered_from_one() {
    for dice_count in [1u32, 2, 3, 10, 100, 4294967295] {
        for sides in [2u32, 4, 5, 6, 8, 10, 12, 20, 100, 1000] {
            let text = format!("{}d{}", dice_count, sides);
            let roll: Roll = text.parse().expect("numeric roll");
            assert_eq!(roll.dice_count, dice_count);
            assert_eq!(roll.sides, sides);
            assert_eq!(roll.values, numbered(sides));
        }
    }
}

#[test]
fn count_defaults_to_one() {
    let roll: Roll = "d20".parse().expect("d20");
    assert_eq!(roll.dice_count, 1);
    assert_eq!(roll.sides, 20);
    assert_eq!(roll.values, numbered(20));
    assert_eq!(roll, "1d20".parse::<Roll>().expect("1d20"));
}

#[test]
fn fudge_die_has_fixed_faces() {
    for text in ["2dF", "2df", "2dF6", "2dfudge"] {
        let roll: Roll = text.parse().expect("fudge");
        assert_eq!(roll.dice_count, 2);
        assert_eq!(roll.sides, 6);
        assert_eq!(roll.values, vec![1, 1, 0, 0, -1, -1]);
    }
}

#[test]
fn percentile_die_has_hundred_faces() {
    let roll: Roll = "1d%".parse().expect("percentile");
    assert_eq!(roll.sides, 100);
    assert_eq!(roll.values, numbered(100));
    assert_eq!(roll.values[0], 1);
    assert_eq!(roll.values[99], 100);
}

#[test]
fn custom_die_ignores_whitespace() {
    let plain: Roll = "1d{1,1,0,0,-1,-1}".parse().expect("plain");
    assert_eq!(plain.sides, 6);
    assert_eq!(plain.values, vec![1, 1, 0, 0, -1, -1]);
    for text in [
        "1d{ 1,1,0,0,-1,-1}",
        "1d{1 , 1 , 0 , 0 , -1 , -1 }",
        "1d{\t1,\t1,\t0,\t0,\t-1,\t-1\t}",
        "1d{ 1 ,\u{a0}1\u{3000}, 0 ,0, - 1 ,-1 } ",
        "1d{1,1,0,0,-1,-1",
        "1d{1,1,0,0,-1,-1}  ",
        "1d{\n1,\n1,\r\n0,\n0,\n-1,\n-1\n}",
        "1d{1,1,0,0,-1,-1}\n",
    ] {
        let roll: Roll = text.parse().expect("spaced");
        assert_eq!(roll.sides, 6);
        assert_eq!(roll.values, vec![1, 1, 0, 0, -1, -1]);
        assert_eq!(roll, plain);
    }
}

#[test]
fn custom_die_reads_what_is_written() {
    assert_eq!(parse_custom_die("{10,-20,007,0}").unwrap(), (4, vec![10, -20, 7, 0]));
    assert_eq!(parse_custom_die("{1 2, 3}").unwrap(), (2, vec![12, 3]));
    assert_eq!(parse_custom_die("{1,2}3,4").unwrap(), (4, vec![1, 2, 3, 4]));
    assert_eq!(parse_custom_die("{2147483647,-2147483647}").unwrap(), (2, vec![2147483647, -2147483647]));
    assert_eq!(parse_custom_die("{}").unwrap(), (0, vec![]));
    assert_eq!(parse_custom_die("{ \t }").unwrap(), (0, vec![]));
    assert_eq!(parse_custom_die("{} ").unwrap(), (0, vec![]));
    assert_eq!(parse_custom_die("{}1,2").unwrap(), (0, vec![]));
    assert_eq!(parse_custom_die("{").unwrap(), (0, vec![]));
    assert_eq!(parse_custom_die("{  \t").unwrap(), (0, vec![]));
    assert_eq!(parse_custom_die("{5").unwrap(), (1, vec![5]));
}

#[test]
fn impossible_dice_carry_their_sides() {
    assert_eq!("2d1".parse::<Roll>(), Err(ParseRollError::ImpossibleDie(1)));
    assert_eq!("3d3".parse::<Roll>(), Err(ParseRollError::ImpossibleDie(3)));
    assert_eq!("1d0".parse::<Roll>(), Err(ParseRollError::ImpossibleDie(0)));
    assert_eq!("1d{".parse::<Roll>(), Err(ParseRollError::ImpossibleDie(0)));
    assert_eq!("1d{}".parse::<Roll>(), Err(ParseRollError::ImpossibleDie(0)));
    assert_eq!("1d{ }".parse::<Roll>(), Err(ParseRollError::ImpossibleDie(0)));
    assert_eq!(parse_rolls("1d{}"), Err(ParseRollError::ImpossibleDie(0)));
    assert_eq!("1d{7}".parse::<Roll>(), Err(ParseRollError::ImpossibleDie(1)));
    assert_eq!("1d{1,2,3}".parse::<Roll>(), Err(ParseRollError::ImpossibleDie(3)));
    assert!("1d2".parse::<Roll>().is_ok());
    assert!("1d4".parse::<Roll>().is_ok());
    assert!("1d{1,2}".parse::<Roll>().is_ok());
}

#[test]
fn rolls_are_read_in_order() {
    let rolls = parse_rolls("3d6 2d8 1d20").expect("three rolls");
    assert_eq!(rolls.len(), 3);
    assert_eq!((rolls[0].dice_count, rolls[0].sides), (3, 6));
    assert_eq!((rolls[1].dice_count, rolls[1].sides), (2, 8));
    assert_eq!((rolls[2].dice_count, rolls[2].sides), (1, 20));
    assert_eq!(rolls[1].values, numbered(8));
}

#[test]
fn one_bad_roll_fails_them_all() {
    assert_eq!(parse_rolls("3d6 2d8 badtoken"), Err(ParseRollError::InvalidRoll));
    assert_eq!(parse_rolls("3d6 2d8 dtoken"), Err(ParseRollError::InvalidSides));
    assert_eq!(parse_rolls("x3d6"), Err(ParseRollError::InvalidRoll));
    assert_eq!(parse_rolls("3d6 nothing 2d8"), Err(ParseRollError::InvalidRoll));
    assert_eq!(parse_rolls("0d6 2d1"), Err(ParseRollError::InvalidDiceCount));
    assert_eq!(parse_rolls("2d1 0d6"), Err(ParseRollError::ImpossibleDie(1)));
}

#[test]
fn rolls_are_cut_at_any_whitespace() {
    assert_eq!(parse_rolls(""), Ok(vec![]));
    assert_eq!(parse_rolls(" \t\n "), Ok(vec![]));
    let rolls = parse_rolls("\t3d6\n\n2d8\u{2003}1d20 \u{a0}").expect("three rolls");
    assert_eq!(rolls.len(), 3);
    assert_eq!(rolls[2].sides, 20);
    let rolls = parse_rolls("1d{1,2} 1d{3,4}").expect("two custom dice");
    assert_eq!(rolls[0].values, vec![1, 2]);
    assert_eq!(rolls[1].values, vec![3, 4]);
    assert_eq!(parse_rolls("1d{1, 2}"), Err(ParseRollError::ImpossibleDie(1)));
    assert_eq!(parse_rolls("1d{1,2, 3}"), Err(ParseRollError::InvalidRoll));
}

#[test]
fn every_error_has_its_input() {
    assert_eq!("".parse::<Roll>(), Err(ParseRollError::InvalidRoll));
    assert_eq!("36".parse::<Roll>(), Err(ParseRollError::InvalidRoll));
    assert_eq!("3d".parse::<Roll>(), Err(ParseRollError::InvalidRoll));
    assert_eq!("x3d6".parse::<Roll>(), Err(ParseRollError::InvalidRoll));
    assert_eq!("3d\n".parse::<Roll>(), Err(ParseRollError::InvalidSides));
    assert_eq!("0d6".parse::<Roll>(), Err(ParseRollError::InvalidDiceCount));
    assert_eq!("000d6".parse::<Roll>(), Err(ParseRollError::InvalidDiceCount));
    assert_eq!("4294967296d6".parse::<Roll>(), Err(ParseRollError::InvalidDiceCount));
    assert_eq!("\u{663}d6".parse::<Roll>(), Err(ParseRollError::InvalidDiceCount));
    assert_eq!("1dx".parse::<Roll>(), Err(ParseRollError::InvalidSides));
    assert_eq!("1d6x".parse::<Roll>(), Err(ParseRollError::InvalidSides));
    assert_eq!("1d 6".parse::<Roll>(), Err(ParseRollError::InvalidSides));
    assert_eq!("1d2147483648".parse::<Roll>(), Err(ParseRollError::InvalidSides));
    assert_eq!("1d-6".parse::<Roll>(), Err(ParseRollError::InvalidSides));
    assert_eq!("1d+6".parse::<Roll>(), Err(ParseRollError::InvalidSides));
    assert_eq!("1dd6".parse::<Roll>(), Err(ParseRollError::InvalidSides));
    assert_eq!("2d1".parse::<Roll>(), Err(ParseRollError::ImpossibleDie(1)));
    assert_eq!(parse_custom_die("1,2}"), Err(ParseRollError::CustomDieSyntaxError));
    assert_eq!(parse_custom_die(""), Err(ParseRollError::CustomDieSyntaxError));
    assert_eq!(parse_custom_die(" {1,2}"), Err(ParseRollError::CustomDieSyntaxError));
    assert_eq!("1d{x}".parse::<Roll>(), Err(ParseRollError::InvalidDigit('x')));
    assert_eq!("1d{,}".parse::<Roll>(), Err(ParseRollError::InvalidDigit(',')));
    assert_eq!("1d{1,}".parse::<Roll>(), Err(ParseRollError::InvalidDigit('}')));
    assert_eq!("1d{1,,2}".parse::<Roll>(), Err(ParseRollError::InvalidDigit(',')));
    assert_eq!("1d{1,2},".parse::<Roll>(), Err(ParseRollError::InvalidDigit(',')));
    assert_eq!("1d{+1}".parse::<Roll>(), Err(ParseRollError::InvalidDigit('+')));
    assert_eq!("1d{1x}".parse::<Roll>(), Err(ParseRollError::InvalidDieValue));
    assert_eq!("1d{1-2}".parse::<Roll>(), Err(ParseRollError::InvalidDieValue));
    assert_eq!("1d{--1}".parse::<Roll>(), Err(ParseRollError::InvalidDieValue));
    assert_eq!("1d{-}".parse::<Roll>(), Err(ParseRollError::InvalidDieValue));
    assert_eq!("1d{-,1}".parse::<Roll>(), Err(ParseRollError::InvalidDieValue));
    assert_eq!("1d{1,-".parse::<Roll>(), Err(ParseRollError::InvalidDieValue));
    assert_eq!("1d{2147483648}".parse::<Roll>(), Err(ParseRollError::InvalidDieValue));
    assert_eq!("1d{-2147483648}".parse::<Roll>(), Err(ParseRollError::InvalidDieValue));
    assert_eq!("1d{99999999999999999999}".parse::<Roll>(), Err(ParseRollError::InvalidDieValue));
}

#[test]
fn first_error_in_a_custom_die_wins() {
    assert_eq!(parse_custom_die("{1x,y}"), Err(ParseRollError::InvalidDieValue));
    assert_eq!(parse_custom_die("{y,1x}"), Err(ParseRollError::InvalidDigit('y')));
    assert_eq!(parse_custom_die("{1,2,z"), Err(ParseRollError::InvalidDigit('z')));
}

#[test]
fn a_roll_is_the_whole_text() {
    for text in ["abc3d6", "-3d6", "+3d6", "xd8", " 3d6", "x3d6", "3x3d6", "\n3d6"] {
        assert_eq!(text.parse::<Roll>(), Err(ParseRollError::InvalidRoll), "{:?}", text);
    }
    assert_eq!("2d6\nrest".parse::<Roll>(), Err(ParseRollError::InvalidSides));
    assert_eq!("2d6 ".parse::<Roll>(), Err(ParseRollError::InvalidSides));
    assert_eq!("2d6x".parse::<Roll>(), Err(ParseRollError::InvalidSides));
    let roll: Roll = "3d6".parse().expect("whole text");
    assert_eq!((roll.dice_count, roll.sides), (3, 6));
    let roll: Roll = "d8".parse().expect("whole text");
    assert_eq!((roll.dice_count, roll.sides), (1, 8));
}

#[test]
fn a_match_is_read_where_it_is_the_whole_text() {
    let groups = vec![Some("3d6".to_string()), Some("3".to_string()), Some("6".to_string())];
    let roll = Roll::from_match("3d6", &groups).expect("3d6");
    assert_eq!((roll.dice_count, roll.sides), (3, 6));
    assert_eq!(Roll::from_match("x3d6", &groups), Err(ParseRollError::InvalidRoll));
    assert_eq!(Roll::from_match("3d6 ", &groups), Err(ParseRollError::InvalidRoll));
    assert_eq!(Roll::from_match("", &groups), Err(ParseRollError::InvalidRoll));
    assert_eq!(Roll::from_match("3d6", &[]), Err(ParseRollError::InvalidRoll));
    let groups = vec![None, Some("3".to_string()), Some("6".to_string())];
    assert_eq!(Roll::from_match("3d6", &groups), Err(ParseRollError::InvalidRoll));
    let groups = vec![Some("3d3".to_string()), Some("3".to_string()), Some("3".to_string())];
    assert_eq!(Roll::from_match("3d3", &groups), Err(ParseRollError::ImpossibleDie(3)));
    let groups = vec![Some("3d6".to_string()), Some("3".to_string())];
    assert_eq!(Roll::from_match("3d6", &groups), Err(ParseRollError::InvalidRoll));
}

#[test]
fn groups_are_read_as_count_and_shape() {
    let groups = vec![Some("3d6".to_string()), Some("3".to_string()), Some("6".to_string())];
    let roll = Roll::from_groups(&groups).expect("3d6");
    assert_eq!((roll.dice_count, roll.sides), (3, 6));
    assert_eq!(roll.values, numbered(6));
    let groups = vec![Some("dF".to_string()), None, Some("F".to_string())];
    let roll = Roll::from_groups(&groups).expect("dF");
    assert_eq!((roll.dice_count, roll.sides), (1, 6));
    assert_eq!(roll.values, vec![1, 1, 0, 0, -1, -1]);
    let groups = vec![Some("3d".to_string()), Some("3".to_string()), None];
    assert_eq!(Roll::from_groups(&groups), Err(ParseRollError::InvalidRoll));
    let groups = vec![Some("3d6".to_string()), Some("3".to_string())];
    assert_eq!(Roll::from_groups(&groups), Err(ParseRollError::InvalidRoll));
    assert_eq!(Roll::from_groups(&[]), Err(ParseRollError::InvalidRoll));
}

#[test]
fn parts_are_read_as_count_and_shape() {
    assert_eq!(Roll::from_parts(Some("12"), "4").map(|r| (r.dice_count, r.sides)), Ok((12, 4)));
    assert_eq!(Roll::from_parts(None, "%").map(|r| (r.dice_count, r.sides)), Ok((1, 100)));
    assert_eq!(Roll::from_parts(Some("007"), "010").map(|r| (r.dice_count, r.sides)), Ok((7, 10)));
    assert_eq!(Roll::from_parts(Some(""), "6"), Err(ParseRollError::InvalidDiceCount));
    assert_eq!(Roll::from_parts(Some("+2"), "6"), Err(ParseRollError::InvalidDiceCount));
    assert_eq!(Roll::from_parts(Some("0"), "x"), Err(ParseRollError::InvalidDiceCount));
    assert_eq!(Roll::from_parts(Some("2"), ""), Err(ParseRollError::InvalidSides));
    assert_eq!(Roll::from_parts(Some("2"), "3"), Err(ParseRollError::ImpossibleDie(3)));
    assert_eq!(
        Roll::from_parts(Some("4294967295"), "2").map(|r| (r.dice_count, r.sides)),
        Ok((4294967295, 2))
    );
}

#[test]
fn shapes_are_told_by_their_first_character() {
    assert_eq!(parse_sides("6"), Ok((6, numbered(6))));
    assert_eq!(parse_sides("1"), Ok((1, vec![1])));
    assert_eq!(parse_sides("0"), Ok((0, vec![])));
    assert_eq!(parse_sides("F"), Ok((6, vec![1, 1, 0, 0, -1, -1])));
    assert_eq!(parse_sides("f"), Ok((6, vec![1, 1, 0, 0, -1, -1])));
    assert_eq!(parse_sides("%"), Ok((100, numbered(100))));
    assert_eq!(parse_sides("%%"), Ok((100, numbered(100))));
    assert_eq!(parse_sides("{4,5}"), Ok((2, vec![4, 5])));
    assert_eq!(parse_sides(""), Err(ParseRollError::InvalidSides));
    assert_eq!(parse_sides("six"), Err(ParseRollError::InvalidSides));
    assert_eq!(normal_die(0), Vec::<i32>::new());
    assert_eq!(normal_die(5), vec![1, 2, 3, 4, 5]);
}

#[test]
fn values_are_read_one_by_one() {
    let text = chars(" 12 , -3}x");
    assert_eq!(skip_whitespace(&text, 0), 1);
    assert_eq!(skip_whitespace(&text, 1), 1);
    assert_eq!(skip_whitespace(&text, 3), 4);
    assert_eq!(skip_whitespace(&text, 10), 10);
    assert_eq!(skip_whitespace(&text, 11), 11);
    assert_eq!(parse_value(&text, 0), Ok(Some((12, 5))));
    assert_eq!(parse_value(&text, 5), Ok(Some((-3, 9))));
    assert_eq!(parse_value(&text, 9), Err(ParseRollError::InvalidDigit('x')));
    assert_eq!(parse_value(&text, 10), Ok(None));
    assert_eq!(parse_value(&text, 4), Err(ParseRollError::InvalidDigit(',')));
    assert_eq!(parse_value(&chars("7"), 0), Ok(Some((7, 1))));
    assert_eq!(parse_value(&chars("   "), 0), Ok(None));
    assert_eq!(parse_values(&text, 0), Err(ParseRollError::InvalidDigit('x')));
    assert_eq!(parse_values(&text[..9], 0), Ok(vec![12, -3]));
    assert_eq!(parse_values(&text, 5), Err(ParseRollError::InvalidDigit('x')));
    assert_eq!(parse_values(&text, 10), Ok(vec![]));
}

#[test]
fn numerals_are_read_up_to_their_limit() {
    assert_eq!(parse_numeral(&chars("0"), 10), Some(0));
    assert_eq!(parse_numeral(&chars("10"), 10), Some(10));
    assert_eq!(parse_numeral(&chars("11"), 10), None);
    assert_eq!(parse_numeral(&chars("0000010"), 10), Some(10));
    assert_eq!(parse_numeral(&chars("4294967295"), u32::MAX), Some(4294967295));
    assert_eq!(parse_numeral(&chars("4294967296"), u32::MAX), None);
    assert_eq!(parse_numeral(&chars("42949672950"), u32::MAX), None);
    assert_eq!(parse_numeral(&chars(""), 10), None);
    assert_eq!(parse_numeral(&chars("1a"), 10), None);
    assert_eq!(parse_numeral(&chars("-1"), 10), None);
    assert_eq!(parse_numeral(&chars("5"), 0), None);
    assert_eq!(parse_numeral(&chars("0"), 0), Some(0));
}

#[test]
fn characters_are_classed_as_std_does() {
    for n in 0..=0x10ffffu32 {
        if let Some(c) = char::from_u32(n) {
            assert_eq!(is_whitespace(c), c.is_whitespace(), "whitespace {:x}", n);
            assert_eq!(is_digit(c), c.is_ascii_digit(), "digit {:x}", n);
        }
    }
}

#[test]
fn text_is_taken_apart_and_numbers_are_written() {
    assert_eq!(chars_of("3d{\u{a0}é}"), vec!['3', 'd', '{', '\u{a0}', 'é', '}']);
    assert_eq!(chars_of(""), Vec::<char>::new());
    for d in 0..10u32 {
        assert_eq!(digit_text(d), d.to_string());
    }
    for n in [0u32, 1, 9, 10, 11, 99, 100, 101, 12345, 4294967295] {
        let mut out = String::from("x");
        push_decimal(&mut out, n);
        assert_eq!(out, format!("x{}", n));
    }
}

#[test]
fn rolls_are_written_by_count_and_sides() {
    let roll = Roll { dice_count: 3, sides: 6, values: vec![1, 2, 3, 4, 5, 6] };
    assert_eq!(roll.to_string(), "3d6");
    assert_eq!("2dF".parse::<Roll>().unwrap().to_string(), "2d6");
    assert_eq!("d%".parse::<Roll>().unwrap().to_string(), "1d100");
    assert_eq!("4294967295d{1,2}".parse::<Roll>().unwrap().to_string(), "4294967295d2");
}

#[test]
fn written_numeric_rolls_read_back() {
    for text in ["1d2", "3d6", "2d8", "1d20", "10d100", "4294967295d4"] {
        let roll: Roll = text.parse().expect("numeric roll");
        assert_eq!(roll.to_string(), text);
        let again: Roll = roll.to_string().parse().expect("written roll");
        assert_eq!(again, roll);
    }
    let fudge: Roll = "2dF".parse().expect("fudge");
    let again: Roll = fudge.to_string().parse().expect("written fudge");
    assert_eq!(again.values, vec![1, 2, 3, 4, 5, 6]);
    assert_ne!(again, fudge);
}

#[test]
fn validity_is_told() {
    assert!(Roll { dice_count: 1, sides: 2, values: vec![0, 0] }.is_valid());
    assert!(!Roll { dice_count: 0, sides: 2, values: vec![0, 0] }.is_valid());
    assert!(!Roll { dice_count: 1, sides: 3, values: vec![0, 0, 0] }.is_valid());
    assert!(!Roll { dice_count: 1, sides: 1, values: vec![0] }.is_valid());
    assert!(!Roll { dice_count: 1, sides: 4, values: vec![0, 0] }.is_valid());
    assert!(parse_rolls("3d6 2dF d%").unwrap().iter().all(|r| r.is_valid()));
}

#[test]
fn custom_dice_read_as_they_are_written() {
    let lists: Vec<Vec<i32>> = vec![
        vec![],
        vec![0],
        vec![1, 2],
        vec![1, 1, 0, 0, -1, -1],
        vec![-2147483647, 2147483647, 0, 10, -10, 100, -100],
        (1..=50).collect(),
        (-25..25).rev().collect(),
    ];
    for values in lists {
        let written: Vec<String> = values.iter().map(|v| v.to_string()).collect();
        let text = format!("{{{}}}", written.join(","));
        assert_eq!(parse_custom_die(&text), Ok((values.len() as u32, values.clone())), "{}", text);
        let spaced = format!("{{ {} }}", written.join("\t, \n"));
        assert_eq!(parse_custom_die(&spaced), Ok((values.len() as u32, values.clone())), "{}", spaced);
        let roll = format!("7d{}", spaced).parse::<Roll>();
        if values.len() >= 2 && values.len() != 3 {
            let roll = roll.expect("custom roll");
            assert_eq!((roll.dice_count, roll.sides), (7, values.len() as u32));
            assert_eq!(roll.values, values);
        } else {
            assert_eq!(roll, Err(ParseRollError::ImpossibleDie(values.len() as u32)));
        }
    }
}

#[test]
fn fudge_and_percentile_dice_keep_their_faces_for_any_count() {
    for dice_count in [1u32, 2, 9, 10, 12345, 4294967295] {
        for letter in ["F", "f"] {
            let roll: Roll = format!("{}d{}", dice_count, letter).parse().expect("fudge");
            assert_eq!((roll.dice_count, roll.sides), (dice_count, 6));
            assert_eq!(roll.values, vec![1, 1, 0, 0, -1, -1]);
        }
        let roll: Roll = format!("{}d%", dice_count).parse().expect("percentile");
        assert_eq!((roll.dice_count, roll.sides), (dice_count, 100));
        assert_eq!(roll.values, numbered(100));
    }
}
