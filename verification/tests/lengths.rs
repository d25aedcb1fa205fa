//! Lengths as they are written, and what they come to.
use browser::calc::{
    get_calc_exp_value, get_specified_size, round_to_single, share_of, solve_calc,
    split_ignoring_parentheses, CalcError, CalcTerm, Share, SizeContext, SizeTerm, SizeUnit,
    StyleCalcOperator,
};
use browser::lengths::{
    get_line_height, resolve_font_size, resolve_transform_offset, Stop, Translation,
};
use browser::sizes::{parse_calc, parse_size, CalcExpression, InvalidSize, StyleSize};
use browser::sizing::Size;

fn context() -> SizeContext {
    SizeContext {
        font_size: 16,
        available_size: None,
        auto_size: None,
        window_width: 100,
        window_height: 100,
        default_unit: SizeUnit::Px,
    }
}

fn term(expression: &CalcExpression) -> CalcTerm {
    match expression {
        CalcExpression::Size(StyleSize::Px(px)) => {
            CalcTerm::Size(SizeTerm::Px(px.parse::<f32>().unwrap() as i32))
        }
        CalcExpression::Operator(operator) => CalcTerm::Operator(*operator),
        CalcExpression::Nesting(terms) => CalcTerm::Nesting(terms.iter().map(term).collect()),
        CalcExpression::Solved(number) => {
            CalcTerm::Solved(number.parse::<f32>().unwrap() as i32)
        }
        other => panic!("not a length in pixels: {other:?}"),
    }
}

fn terms(text: &str) -> Vec<CalcTerm> {
    match parse_calc(text) {
        Ok(StyleSize::Calc(list)) => list.iter().map(term).collect(),
        other => panic!("not a calculation: {other:?}"),
    }
}

#[test]
fn splits_space_ignoring_parentheses() {
    assert_eq!(
        split_ignoring_parentheses("repeat(2, 1fr) 20px", ' ', &[]),
        ["repeat(2, 1fr)", "20px"]
    );
    assert_eq!(
        split_ignoring_parentheses("test>lol", ' ', &['>']),
        ["test", ">", "lol"]
    );
    assert_eq!(
        split_ignoring_parentheses("input:checked+label", ' ', &['>', '~', '+']),
        ["input:checked", "+", "label"]
    );
}

#[test]
fn test_parse_calc() {
    assert_eq!(
        parse_calc("15px * 4rem + (4px + 2em)"),
        Ok(StyleSize::Calc(vec![
            CalcExpression::Size(StyleSize::Px("15".to_string())),
            CalcExpression::Operator(StyleCalcOperator::Multiply),
            CalcExpression::Size(StyleSize::Rem("4".to_string())),
            CalcExpression::Operator(StyleCalcOperator::Plus),
            CalcExpression::Nesting(vec![
                CalcExpression::Size(StyleSize::Px("4".to_string())),
                CalcExpression::Operator(StyleCalcOperator::Plus),
                CalcExpression::Size(StyleSize::Em("2".to_string())),
            ]),
        ]))
    );
}

#[test]
fn solve_calc_single() {
    assert_eq!(solve_calc(&terms("2px"), &context()), Ok(Some(2)));
}

#[test]
fn solve_calc_uses_order_of_operations() {
    assert_eq!(
        solve_calc(&terms("2px + 3px * 4px"), &context()),
        Ok(Some(14))
    );
}

#[test]
fn calculations_report_what_is_wrong() {
    let overflow = vec![
        CalcTerm::Size(SizeTerm::Px(i32::MAX)),
        CalcTerm::Operator(StyleCalcOperator::Plus),
        CalcTerm::Size(SizeTerm::Px(1)),
    ];
    assert_eq!(solve_calc(&overflow, &context()), Err(CalcError::Overflow));
    assert_eq!(
        get_calc_exp_value(&CalcTerm::Operator(StyleCalcOperator::Plus), &context()),
        Err(CalcError::NotAValue)
    );
}

#[test]
fn sizes_are_read_with_their_units() {
    assert_eq!(parse_size("auto"), Ok(StyleSize::Auto));
    assert_eq!(parse_size("12px"), Ok(StyleSize::Px("12".to_string())));
    assert_eq!(parse_size("50%"), Ok(StyleSize::Percent("50".to_string())));
    assert_eq!(parse_size("nonsense"), Err(InvalidSize));
}

#[test]
fn a_share_is_the_product_in_single_precision() {
    // 0.5 is 1 / 2^1.
    let half = Share { numerator: 1, halvings: 1 };
    assert_eq!(share_of(101, half), 50);
    for percentage in [0f32, 1., 12.5, 33.333, 50., 66.67, 99.9, 100., 250.] {
        let part = percentage / 100f32;
        let bits = part.to_bits();
        let exponent = ((bits >> 23) & 0xff) as i32;
        let share = if part == 0. {
            Share { numerator: 0, halvings: 0 }
        } else {
            let mantissa = (bits & 0x7f_ffff) | 0x80_0000;
            Share { numerator: mantissa as i32, halvings: (150 - exponent) as u8 }
        };
        for available in [0u32, 1, 7, 300, 1920, 16_777_217, u32::MAX] {
            let expected = (available as f32 * part) as i32;
            assert_eq!(share_of(available, share), expected, "{percentage}% of {available}");
        }
    }
}

#[test]
fn whole_numbers_round_as_single_precision_does() {
    for value in [0i128, 1, -7, 16_777_216, 16_777_217, 16_777_219, -33_554_435, 4_294_967_295] {
        assert_eq!(round_to_single(value), (value as f32) as i128);
    }
}

#[test]
fn lengths_depend_on_what_is_around_them() {
    let mut context = context();
    assert_eq!(get_specified_size(&SizeTerm::Auto, &context), Ok(None));
    context.auto_size = Some(3);
    assert_eq!(get_specified_size(&SizeTerm::Auto, &context), Ok(Some(3)));
    let half = SizeTerm::Share(Share { numerator: 1, halvings: 1 });
    assert_eq!(get_specified_size(&half, &context), Ok(None));
    context.available_size = Some(30);
    assert_eq!(get_specified_size(&half, &context), Ok(Some(15)));
    assert_eq!(
        get_specified_size(&SizeTerm::ViewportHeight(25), &context),
        Ok(Some(25))
    );
    assert_eq!(
        get_specified_size(
            &SizeTerm::Clamp {
                min: Box::new(SizeTerm::Px(10)),
                value: Box::new(SizeTerm::Px(5)),
                max: Box::new(SizeTerm::Px(20)),
            },
            &context
        ),
        Ok(Some(10))
    );
    assert_eq!(get_specified_size(&SizeTerm::Content, &context), Ok(None));
}

#[test]
fn fonts_and_lines_have_sizes() {
    let window = Size { width: 100, height: 200 };
    assert_eq!(resolve_font_size(&SizeTerm::Px(20), None, &window), Ok(20));
    assert_eq!(resolve_font_size(&SizeTerm::Auto, Some(12), &window), Ok(16));
    let double = SizeTerm::Share(Share { numerator: 2, halvings: 0 });
    assert_eq!(resolve_font_size(&double, Some(12), &window), Ok(24));
    assert_eq!(get_line_height(&SizeTerm::Px(0), 16, &window), Ok(None));
    assert_eq!(get_line_height(&SizeTerm::Px(18), 16, &window), Ok(Some(18)));
    let factor = SizeTerm::Calc(vec![CalcTerm::Solved(2)]);
    assert_eq!(get_line_height(&factor, 16, &window), Ok(Some(32)));
}

#[test]
fn translations_add_up() {
    let window = Size { width: 100, height: 200 };
    let size = Size { width: 40, height: 10 };
    let back = Share { numerator: -1, halvings: 1 };
    let operations = vec![
        Translation { x: SizeTerm::Px(5), y: SizeTerm::Auto },
        Translation { x: SizeTerm::Share(back), y: SizeTerm::Share(back) },
    ];
    assert_eq!(
        resolve_transform_offset(&operations, 16, &size, &window),
        Ok((-15, -5))
    );
    let far = vec![
        Translation { x: SizeTerm::Px(i32::MAX), y: SizeTerm::Auto },
        Translation { x: SizeTerm::Px(1), y: SizeTerm::Auto },
    ];
    assert_eq!(
        resolve_transform_offset(&far, 16, &size, &window),
        Err(Stop::Range)
    );
}
