use dice_roll::ast::{DiceRoll, Expression, Factor, Keep, RollExpr, Term};
use dice_roll::dice::Dice;
use dice_roll::error::RollError;
use dice_roll::output::{Output, Roll};
use dice_roll::parser::parse;
use dice_roll::{eval, eval_with, evaluate};

fn scripted(text: &str, faces: Vec<u32>) -> Result<Output, RollError> {
    let mut dice = Dice::scripted(faces);
    eval_with(text, &mut dice)
}

fn results(o: &Output) -> Vec<u32> {
    o.rolls.iter().map(|r| r.result).collect()
}

fn kept(o: &Output) -> Vec<bool> {
    o.rolls.iter().map(|r| r.keep).collect()
}

#[test]
fn roll_display() {
    let roll1 = Roll { result: 1, keep: false };
    let roll2 = Roll { result: 1, keep: true };

    assert_eq!(roll1.to_string(), "1");
    assert_eq!(roll2.to_string(), "**1**");
    println!("{}", roll1.to_string());
    println!("{}", roll2.to_string());
}

#[test]
fn roll_output_display() {
    let output = Output {
        rolls: vec![Roll { result: 1, keep: false }, Roll { result: 2, keep: true }],
        total: 2,
    };

    assert_eq!(output.to_string(), "2 [1, **2**]");
    println!("{}", output.to_string());
}

#[test]
fn roll_cmp() {
    let mut rolls = vec![
        Roll { result: 2, keep: false },
        Roll { result: 1, keep: false },
        Roll { result: 1, keep: true },
        Roll { result: 2, keep: true },
    ];

    rolls.sort();

    assert_eq!(vec![1, 1, 2, 2], rolls.iter().map(|r| r.result).collect::<Vec<_>>());
}

#[test]
fn basic() {
    let output = eval("1d20").unwrap();
    assert_eq!(1, output.rolls.len());
    assert!((1..=20).contains(&output.total));
}

#[test]
fn addition() {
    let output = eval("1 + 1").unwrap();
    assert_eq!(0, output.rolls.len());
    assert_eq!(2, output.total);
}

#[test]
fn subtraction() {
    let output = eval("1 - 1").unwrap();
    assert_eq!(0, output.rolls.len());
    assert_eq!(0, output.total);
}

#[test]
fn multiplication() {
    let output = eval("2 * 3").unwrap();
    assert_eq!(0, output.rolls.len());
    assert_eq!(6, output.total);
}

#[test]
fn division() {
    let output = eval("6 / 3").unwrap();
    assert_eq!(0, output.rolls.len());
    assert_eq!(2, output.total);
}

#[test]
fn negative() {
    let output = eval("-6").unwrap();
    assert_eq!(0, output.rolls.len());
    assert_eq!(-6, output.total);
}

#[test]
fn missing_count() {
    let output = eval("d4").unwrap();
    assert_eq!(1, output.rolls.len());
    assert!((1..=4).contains(&output.total));
}

#[test]
fn keep() {
    let output = eval("3d20k2").unwrap();
    assert_eq!(3, output.rolls.len());
    assert!((2..=40).contains(&output.total));
}

#[test]
fn drop() {
    let output = eval("3d20d2").unwrap();
    assert_eq!(3, output.rolls.len());
    assert!((1..=20).contains(&output.total));
}

#[test]
fn arithmetic1() {
    let output = eval("1 + 3 * 5").unwrap();
    assert_eq!(0, output.rolls.len());
    assert_eq!(16, output.total);
}

#[test]
fn arithmetic2() {
    let output = eval("1 + 3 * 5 - 2").unwrap();
    assert_eq!(0, output.rolls.len());
    assert_eq!(14, output.total);
}

#[test]
fn arithmetic3() {
    let output = eval("1 + 3 * 5 - 2 / 2 - 1").unwrap();
    assert_eq!(0, output.rolls.len());
    assert_eq!(14, output.total);
}

#[test]
fn arithmetic_with_parens() {
    let output = eval("(1 + 3) * 5 - 2 / ( 2 - 1)").unwrap();
    assert_eq!(0, output.rolls.len());
    assert_eq!(18, output.total);
}

#[test]
fn arithmetic_with_dice() {
    let output = eval("1d4 + 2").unwrap();
    assert_eq!(1, output.rolls.len());
    assert!((3..=6).contains(&output.total));
}

#[test]
fn arithmetic_with_dice2() {
    let output = eval("1 + 2d4").unwrap();
    assert_eq!(2, output.rolls.len());
    assert!((3..=9).contains(&output.total));
}

#[test]
fn arithmetic_with_dice3() {
    let output = eval("1d4 + 2d4").unwrap();
    assert_eq!(3, output.rolls.len());
    assert!((3..=12).contains(&output.total));
}

#[test]
fn arithmetic_with_dice4() {
    let output = eval("1d4 + 2d4 * 3d4").unwrap();
    assert_eq!(6, output.rolls.len());
    assert!((7..=100).contains(&output.total));
}

#[test]
fn parens() {
    let output = eval("1d(4 + 2)").unwrap();
    assert_eq!(1, output.rolls.len());
    assert!((1..=6).contains(&output.total));
}

#[test]
fn parens2() {
    let output = eval("1d(4 + 2) * 3").unwrap();
    assert_eq!(1, output.rolls.len());
    assert!((3..=18).contains(&output.total));
}

#[test]
fn right_parens() {
    let output = eval("1 + (2d4)").unwrap();
    assert_eq!(2, output.rolls.len());
    assert!((3..=9).contains(&output.total));
}

#[test]
fn number() {
    let output = eval("1").unwrap();
    assert_eq!(0, output.rolls.len());
    assert_eq!(1, output.total);
}

#[test]
fn negative_number() {
    let output = eval("-1").unwrap();
    assert_eq!(0, output.rolls.len());
    assert_eq!(-1, output.total);
}

#[test]
fn negative_number2() {
    let output = eval("2 + -1").unwrap();
    assert_eq!(0, output.rolls.len());
    assert_eq!(1, output.total);
}

#[test]
fn three_d_four_keep_two_marks_two_kept() {
    for _ in 0..50 {
        let output = eval("3d4k2").unwrap();
        assert_eq!(3, output.rolls.len());
        assert_eq!(2, output.rolls.iter().filter(|r| r.keep).count());
        assert!((2..=8).contains(&output.total));
    }
}

#[test]
fn three_d_four_times_five() {
    for _ in 0..50 {
        let output = eval("3d4*5").unwrap();
        assert_eq!(3, output.rolls.len());
        assert!((15..=60).contains(&output.total));
    }
}

#[test]
fn parenthesised_arithmetic_without_spaces_inside() {
    let output = eval("(1 + 3) * 5 - 2 / (2 - 1)").unwrap();
    assert_eq!(0, output.rolls.len());
    assert_eq!(18, output.total);
}

#[test]
fn plain_rolls_stay_in_range() {
    for n in 1..=6u32 {
        for s in 2..=12u32 {
            let output = eval(&format!("{}d{}", n, s)).unwrap();
            assert_eq!(n as usize, output.rolls.len());
            assert!(output.total >= n as i32 && output.total <= (n * s) as i32);
        }
    }
}

#[test]
fn dice_free_expression_repeats() {
    let first = eval("(7 - 2) * 3 % 4").unwrap();
    let second = eval("(7 - 2) * 3 % 4").unwrap();
    assert_eq!(first.total, second.total);
    assert_eq!(3, first.total);
    assert!(first.rolls.is_empty() && second.rolls.is_empty());
}

#[test]
fn dice_free_expression_draws_nothing() {
    let mut dice = Dice::scripted(vec![6, 6, 6]);
    let output = evaluate("10 / 3 + 1", &mut dice).unwrap();
    assert_eq!(4, output.total);
    let next = evaluate("1d6", &mut dice).unwrap();
    assert_eq!(vec![6], results(&next));
}

#[test]
fn divide_by_zero() {
    assert_eq!(eval("6 / 0").unwrap_err(), RollError::DivideByZero);
    assert_eq!(eval("6 % (2 - 2)").unwrap_err(), RollError::DivideByZero);
}

#[test]
fn division_truncates_toward_zero() {
    assert_eq!(-3, eval("-7 / 2").unwrap().total);
    assert_eq!(-1, eval("-7 % 2").unwrap().total);
    assert_eq!(1, eval("7 % -2").unwrap().total);
    assert_eq!(-3, eval("7 / -2").unwrap().total);
}

#[test]
fn arithmetic_wraps_around() {
    assert_eq!(i32::MIN, eval("2147483647 + 1").unwrap().total);
    assert_eq!(i32::MIN, eval("-2147483648 / -1").unwrap().total);
    assert_eq!(0, eval("-2147483648 % -1").unwrap().total);
}

#[test]
fn guards() {
    assert_eq!(eval("1d1").unwrap_err(), RollError::InvalidSides);
    assert_eq!(eval("0d6").unwrap_err(), RollError::InvalidCount);
    assert_eq!(eval("3d6k0").unwrap_err(), RollError::InvalidKeep);
    assert_eq!(eval("3d6d0").unwrap_err(), RollError::InvalidDrop);
    assert_eq!(eval("(1-2)d6").unwrap_err(), RollError::InvalidCount);
    assert_eq!(eval("2d(3-3)").unwrap_err(), RollError::InvalidSides);
}

#[test]
fn causes() {
    assert_eq!(RollError::InvalidSides.cause(), "Sides must be at least 2");
    assert_eq!(RollError::InvalidCount.cause(), "Count must be at least 1");
    assert_eq!(RollError::InvalidKeep.cause(), "Keep must be at least 1");
    assert_eq!(RollError::InvalidDrop.cause(), "Drop must be at least 1");
    assert_eq!(RollError::DivideByZero.cause(), "Cannot divide by zero");
    assert_eq!(RollError::InvalidExpression.cause(), "Invalid expression");
    assert_eq!(RollError::ParseError("x".to_string()).cause(), "x");
}

#[test]
fn check_greater_than() {
    assert_eq!(Output::of_num(3).check_greater_than(2).unwrap().total, 3);
    assert_eq!(Output::of_num(2).check_greater_than(2).unwrap_err(), RollError::InvalidExpression);
}

#[test]
fn parse_errors() {
    assert_eq!(eval("").unwrap_err(), RollError::ParseError("Syntax error after 0 characters".to_string()));
    assert_eq!(eval("   ").unwrap_err(), RollError::ParseError("Syntax error after 0 characters".to_string()));
    assert_eq!(eval("1 +").unwrap_err(), RollError::ParseError("Syntax error after 2 characters".to_string()));
    assert_eq!(eval("(1 + 2").unwrap_err(), RollError::ParseError("Syntax error after 0 characters".to_string()));
    assert_eq!(eval("2 x").unwrap_err(), RollError::ParseError("Syntax error after 2 characters".to_string()));
    assert_eq!(eval("99999999999").unwrap_err(), RollError::ParseError("Syntax error after 0 characters".to_string()));
}

#[test]
fn surrounding_white_space_is_trimmed() {
    assert_eq!(3, eval("\n 1 + 2 \r\n").unwrap().total);
    assert!(matches!(evaluate("\n1 + 2", &mut Dice::scripted(vec![])), Err(RollError::ParseError(_))));
}

#[test]
fn scripted_faces() {
    let output = scripted("3d6", vec![2, 5, 3]).unwrap();
    assert_eq!(vec![2, 5, 3], results(&output));
    assert_eq!(10, output.total);
    assert_eq!("10 [**2**, **5**, **3**]", output.to_string());
}

#[test]
fn scripted_faces_are_moved_into_range() {
    let output = scripted("2d6", vec![9, 0]).unwrap();
    assert_eq!(vec![6, 1], results(&output));
}

#[test]
fn keep_highest_and_lowest() {
    let high = scripted("4d6k2", vec![3, 6, 1, 5]).unwrap();
    assert_eq!(vec![false, true, false, true], kept(&high));
    assert_eq!(11, high.total);
    let high2 = scripted("4d6kh2", vec![3, 6, 1, 5]).unwrap();
    assert_eq!(kept(&high), kept(&high2));
    let low = scripted("4d6kl2", vec![3, 6, 1, 5]).unwrap();
    assert_eq!(vec![true, false, true, false], kept(&low));
    assert_eq!(4, low.total);
}

#[test]
fn drop_lowest_and_highest() {
    let low = scripted("4d6d1", vec![3, 6, 1, 5]).unwrap();
    assert_eq!(vec![true, true, false, true], kept(&low));
    assert_eq!(14, low.total);
    let low2 = scripted("4d6dl1", vec![3, 6, 1, 5]).unwrap();
    assert_eq!(kept(&low), kept(&low2));
    let high = scripted("4d6dh1", vec![3, 6, 1, 5]).unwrap();
    assert_eq!(vec![true, false, true, true], kept(&high));
    assert_eq!(9, high.total);
}

#[test]
fn equal_faces_keep_roll_order() {
    let output = scripted("3d6k1", vec![4, 4, 4]).unwrap();
    assert_eq!(vec![true, false, false], kept(&output));
    let output = scripted("3d6d1", vec![4, 4, 4]).unwrap();
    assert_eq!(vec![false, true, true], kept(&output));
}

#[test]
fn keep_then_drop_on_the_same_dice() {
    // keep the 2 highest of (5, 17, 11): 17 and 11; then drop the lowest
    // face of all three (5), which keep had already excluded.
    let output = scripted("3d20k2d1", vec![5, 17, 11]).unwrap();
    assert_eq!(vec![false, true, true], kept(&output));
    assert_eq!(28, output.total);
    // drop the 2 lowest first would leave one die; here keep runs first and
    // the drop order is taken over all dice again.
    let output = scripted("3d20k2d2", vec![5, 17, 11]).unwrap();
    assert_eq!(vec![false, true, false], kept(&output));
    assert_eq!(17, output.total);
}

#[test]
fn keep_more_than_rolled() {
    let output = scripted("2d6k5", vec![2, 3]).unwrap();
    assert_eq!(vec![true, true], kept(&output));
    assert_eq!(5, output.total);
}

#[test]
fn operand_dice_are_not_listed() {
    // the count die is rolled first, then the dice it asks for
    let output = scripted("(1d2)d6", vec![2, 4, 5]).unwrap();
    assert_eq!(vec![4, 5], results(&output));
    assert_eq!(9, output.total);
}

#[test]
fn rolls_listed_in_evaluation_order() {
    let output = scripted("1d6 + 2d6 * 1d6", vec![1, 2, 3, 4]).unwrap();
    assert_eq!(vec![1, 2, 3, 4], results(&output));
    assert_eq!(1 + 5 * 4, output.total);
}

#[test]
fn output_text_without_dice() {
    assert_eq!("-6", eval("-6").unwrap().to_string());
    assert_eq!("0", Output::of_num(0).to_string());
    assert_eq!("-2147483648", Output::of_num(i32::MIN).to_string());
}

#[test]
fn parse_builds_the_tree() {
    let e = parse("d4").unwrap();
    match *e.term.factor {
        Factor::DiceRoll(ref r) => {
            assert!(r.count.is_none());
            assert!(matches!(*r.sides, RollExpr::Number(4)));
        },
        _ => panic!("not a dice roll"),
    }
}

#[test]
fn constructors() {
    let roll = DiceRoll::new(Some(RollExpr::Number(2)), RollExpr::Number(6), Some(Keep::High(Box::new(RollExpr::Number(1)))), None);
    let e = Expression::new(Some(Term::new(Factor::DiceRoll(Box::new(roll)), None)), None);
    let mut dice = Dice::scripted(vec![3, 5]);
    let output = e.eval(&mut dice).unwrap();
    assert_eq!(vec![false, true], kept(&output));
    assert_eq!(5, output.total);
    let zero = Expression::new(None, None);
    assert_eq!(0, zero.eval(&mut dice).unwrap().total);
}

#[test]
fn ranks_and_total() {
    let rolls = vec![Roll { result: 3, keep: true }, Roll { result: 6, keep: false }, Roll { result: 3, keep: true }];
    assert_eq!(DiceRoll::high_to_low(&rolls, 0), 1);
    assert_eq!(DiceRoll::high_to_low(&rolls, 1), 0);
    assert_eq!(DiceRoll::low_to_high(&rolls, 2), 1);
    assert_eq!(DiceRoll::total(&rolls), 6);
}

#[test]
fn random_faces_vary() {
    let faces: Vec<u32> = (0..100).map(|_| eval("1d20").unwrap().rolls[0].result).collect();
    assert!(faces.iter().all(|f| (1..=20).contains(f)));
    assert!(faces.iter().any(|f| *f != faces[0]));
    assert!(faces.iter().any(|f| *f > 1));
}

#[test]
fn defaults_are_neutral() {
    let mut dice = Dice::scripted(vec![]);
    assert_eq!(0, Expression::default().eval(&mut dice).unwrap().total);
    let sum = dice_roll::ast::Sum::default();
    assert_eq!(7, sum.eval(Output::of_num(7), &mut dice).unwrap().total);
    let product = dice_roll::ast::Product::default();
    assert_eq!(7, product.eval(Output::of_num(7), &mut dice).unwrap().total);
}

#[test]
fn nested_parentheses() {
    assert_eq!(1, eval("((((((((((1))))))))))").unwrap().total);
    assert_eq!(6, eval("( ( 1 + 2 ) * ( 4 - 2 ) )").unwrap().total);
}
