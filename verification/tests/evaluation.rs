use exmex::OwnedFlatEx;
use online_plotter::binary64::{NEGATIVE_ONE, ONE};
use online_plotter::evaluation::{evaluate, overall_range, sample_grid};
use online_plotter::input::{FnInput, FnInputKind};
use splines::{Interpolation, Key, Spline};

fn is_expression(text: &str) -> bool {
    exmex::parse_with_default_ops::<f64>(text).is_ok()
}

fn point_list(text: &str) -> Option<Vec<(u64, u64)>> {
    match ron::de::from_str::<Vec<(f64, f64)>>(text) {
        Ok(pairs) => Some(pairs.iter().map(|(x, y)| (x.to_bits(), y.to_bits())).collect()),
        Err(_) => None,
    }
}

fn entry(text: &str) -> FnInput {
    let mut fn_input = FnInput::default();
    fn_input.edit(text, is_expression, point_list).unwrap();
    fn_input
}

fn hidden(text: &str) -> FnInput {
    let mut fn_input = entry(text);
    fn_input.toggle();
    fn_input
}

/// What a function of the given kind yields at `x`, by the crates that do
/// the arithmetic. A point that cannot be computed is a NaN.
fn value_at(kind: &FnInputKind, x: u64) -> u64 {
    let x = f64::from_bits(x);
    let y = match kind {
        FnInputKind::Analytical { expression } => {
            match exmex::parse_with_default_ops::<f64>(expression) {
                Ok(parsed) => OwnedFlatEx::from_flatex(parsed).eval(&[x]).unwrap_or(f64::NAN),
                Err(_) => f64::NAN,
            }
        }
        FnInputKind::Points { spline } => {
            let keys = spline.iter().map(|(t, v)| {
                Key::new(f64::from_bits(*t), f64::from_bits(*v), Interpolation::Cosine)
            });
            let spline: Spline<f64, f64> = Spline::from_iter(keys);
            if x.is_nan() {
                f64::NAN
            } else {
                spline.clamped_sample(x).unwrap_or(f64::NAN)
            }
        }
    };
    y.to_bits()
}

fn run(entries: &Vec<FnInput>, grid: &[f64]) -> (Vec<Vec<f64>>, f64, f64) {
    let grid: Vec<u64> = grid.iter().map(|x| x.to_bits()).collect();
    let result = evaluate(entries, &grid, |i, x| value_at(entries[i].kind(), x));
    let values = result
        .values
        .iter()
        .map(|row| row.iter().map(|y| f64::from_bits(*y)).collect())
        .collect();
    (values, f64::from_bits(result.overall_min), f64::from_bits(result.overall_max))
}

fn range(rows: &[&[f64]]) -> (f64, f64) {
    let values: Vec<Vec<u64>> =
        rows.iter().map(|row| row.iter().map(|y| y.to_bits()).collect()).collect();
    let (low, high) = overall_range(&values);
    (f64::from_bits(low), f64::from_bits(high))
}

#[test]
fn sine_over_a_half_turn() {
    let entries = vec![entry("sin(x)")];
    let pi = std::f64::consts::PI;
    let (values, min, max) = run(&entries, &[0.0, pi / 2.0, pi]);
    assert_eq!(values.len(), 1);
    assert_eq!(values[0].len(), 3);
    assert!(values[0][0].abs() < 1e-12);
    assert!((values[0][1] - 1.0).abs() < 1e-12);
    assert!(values[0][2].abs() < 1e-12);
    assert_eq!(min, 0.0);
    assert_eq!(max, 1.0);
}

#[test]
fn default_entry_evaluates_as_sine() {
    let entries = vec![FnInput::default()];
    let (values, _, _) = run(&entries, &[0.0, 1.0, 2.0]);
    assert_eq!(values, vec![vec![0.0f64.sin(), 1.0f64.sin(), 2.0f64.sin()]]);
}

#[test]
fn point_list_reproduces_its_keys_and_clamps_outside() {
    let entries = vec![entry("[(0, 2), (1, 3.5)]")];
    assert!(matches!(entries[0].kind(), FnInputKind::Points { .. }));
    let (values, min, max) = run(&entries, &[-5.0, 0.0, 1.0, 10.0]);
    assert_eq!(values, vec![vec![2.0, 2.0, 3.5, 3.5]]);
    assert_eq!(min, 2.0);
    assert_eq!(max, 3.5);
}

#[test]
fn point_list_interpolates_between_its_keys() {
    let entries = vec![entry("[(0, 2), (1, 3.5)]")];
    let (values, min, max) = run(&entries, &[0.0, 0.25, 0.5, 0.75, 1.0]);
    let row = &values[0];
    assert_eq!(row[0], 2.0);
    assert!((row[2] - 2.75).abs() < 1e-12);
    assert_eq!(row[4], 3.5);
    assert!(row[0] < row[1] && row[1] < row[2] && row[2] < row[3] && row[3] < row[4]);
    assert_eq!(min, 2.0);
    assert_eq!(max, 3.5);
}

#[test]
fn single_point_is_constant_everywhere() {
    let entries = vec![entry("[(4, 9)]")];
    let (values, min, max) = run(&entries, &[-100.0, 4.0, 100.0]);
    assert_eq!(values, vec![vec![9.0, 9.0, 9.0]]);
    assert_eq!(min, 9.0);
    assert_eq!(max, 9.0);
}

#[test]
fn nothing_to_evaluate_gives_the_neutral_window() {
    let entries: Vec<FnInput> = Vec::new();
    let (values, min, max) = run(&entries, &[0.0, 1.0, 2.0]);
    assert!(values.is_empty());
    assert_eq!(min, -1.0);
    assert_eq!(max, 1.0);
}

#[test]
fn hidden_entries_give_the_neutral_window() {
    let entries = vec![hidden("x + 100"), hidden("[(0, 50), (1, 60)]")];
    let (values, min, max) = run(&entries, &[0.0, 1.0, 2.0]);
    assert!(values.is_empty());
    assert_eq!(min, -1.0);
    assert_eq!(max, 1.0);
    let (values, min, max) = run(&entries, &[7.0]);
    assert!(values.is_empty());
    assert_eq!((min, max), (-1.0, 1.0));
}

#[test]
fn hidden_entries_are_not_sampled() {
    let entries = vec![hidden("x"), entry("x"), hidden("x")];
    let grid = vec![1.0f64.to_bits(), 2.0f64.to_bits()];
    let asked = std::cell::RefCell::new(Vec::new());
    let result = evaluate(&entries, &grid, |i, x| {
        asked.borrow_mut().push((i, x));
        value_at(entries[i].kind(), x)
    });
    assert_eq!(result.values, vec![vec![1.0f64.to_bits(), 2.0f64.to_bits()]]);
    assert_eq!(*asked.borrow(), vec![(1, 1.0f64.to_bits()), (1, 2.0f64.to_bits())]);
}

#[test]
fn undefined_everywhere_gives_the_neutral_window() {
    let entries = vec![entry("1/0")];
    let (values, min, max) = run(&entries, &[0.0, 1.0, 2.0]);
    assert_eq!(values.len(), 1);
    assert_eq!(values[0].len(), 3);
    assert!(values[0].iter().all(|y| !y.is_finite()));
    assert_eq!(min, -1.0);
    assert_eq!(max, 1.0);
}

#[test]
fn infinite_everywhere_gives_the_neutral_window() {
    let entries = vec![entry("1/(x-x)"), entry("log(x-x)"), entry("sqrt(0-1-x*x)")];
    let (values, min, max) = run(&entries, &[0.5, 1.0, 2.0]);
    assert_eq!(values.len(), 3);
    assert!(values[0].iter().all(|y| *y == f64::INFINITY));
    assert!(values[1].iter().all(|y| *y == f64::NEG_INFINITY));
    assert!(values[2].iter().all(|y| y.is_nan()));
    assert_eq!(min, -1.0);
    assert_eq!(max, 1.0);
}

#[test]
fn non_finite_samples_stay_and_do_not_count() {
    let entries = vec![entry("1/x")];
    let (values, min, max) = run(&entries, &[-1.0, 0.0, 2.0]);
    assert_eq!(values, vec![vec![-1.0, f64::INFINITY, 0.5]]);
    assert_eq!(min, -1.0);
    assert_eq!(max, 0.5);
    let entries = vec![entry("sqrt(x)")];
    let (values, min, max) = run(&entries, &[-4.0, 4.0, 9.0]);
    assert!(values[0][0].is_nan());
    assert_eq!(&values[0][1..], &[2.0, 3.0]);
    assert_eq!(min, 2.0);
    assert_eq!(max, 3.0);
}

#[test]
fn range_spans_all_shown_entries() {
    let entries = vec![entry("x"), hidden("x - 1000"), entry("x + 10"), entry("0 - x")];
    let (values, min, max) = run(&entries, &[1.0, 2.0, 3.0]);
    assert_eq!(
        values,
        vec![vec![1.0, 2.0, 3.0], vec![11.0, 12.0, 13.0], vec![-1.0, -2.0, -3.0]]
    );
    assert_eq!(min, -3.0);
    assert_eq!(max, 13.0);
}

#[test]
fn range_does_not_depend_on_the_order_of_entries() {
    let low = entry("x");
    let high = entry("[(0, 50), (1, 60)]");
    let forward = vec![low.clone(), high.clone()];
    let backward = vec![high, low];
    let grid = [0.0, 0.5, 1.0];
    let (forward_values, forward_min, forward_max) = run(&forward, &grid);
    let (backward_values, backward_min, backward_max) = run(&backward, &grid);
    assert_eq!(forward_min, 0.0);
    assert_eq!(forward_max, 60.0);
    assert_eq!(backward_min, 0.0);
    assert_eq!(backward_max, 60.0);
    assert_eq!(forward_values[0], backward_values[1]);
    assert_eq!(forward_values[1], backward_values[0]);
    assert_eq!(forward_values[0], vec![0.0, 0.5, 1.0]);
    assert_eq!(forward_values[1][0], 50.0);
    assert_eq!(forward_values[1][2], 60.0);
}

#[test]
fn overall_range_of_plain_rows() {
    assert_eq!(range(&[&[1.0, 5.0, -2.0], &[3.0]]), (-2.0, 5.0));
    assert_eq!(range(&[&[3.0], &[1.0, 5.0, -2.0]]), (-2.0, 5.0));
    assert_eq!(range(&[&[7.0]]), (7.0, 7.0));
    assert_eq!(range(&[&[-7.0, -8.0]]), (-8.0, -7.0));
    assert_eq!(range(&[&[], &[0.25], &[]]), (0.25, 0.25));
    assert_eq!(range(&[&[f64::MAX, f64::MIN]]), (f64::MIN, f64::MAX));
    assert_eq!(range(&[&[5e-324, -5e-324]]), (-5e-324, 5e-324));
}

#[test]
fn overall_range_without_finite_samples() {
    assert_eq!(range(&[]), (-1.0, 1.0));
    assert_eq!(range(&[&[]]), (-1.0, 1.0));
    assert_eq!(range(&[&[], &[]]), (-1.0, 1.0));
    assert_eq!(range(&[&[f64::NAN]]), (-1.0, 1.0));
    assert_eq!(range(&[&[f64::INFINITY, f64::NEG_INFINITY], &[f64::NAN]]), (-1.0, 1.0));
    let (low, high) = overall_range(&vec![vec![0xFFFF_FFFF_FFFF_FFFF, 0x7FF0_0000_0000_0001]]);
    assert_eq!((low, high), (NEGATIVE_ONE, ONE));
}

#[test]
fn overall_range_skips_what_is_not_finite() {
    assert_eq!(range(&[&[f64::NAN, 2.0, f64::INFINITY], &[f64::NEG_INFINITY, 4.0]]), (2.0, 4.0));
    assert_eq!(range(&[&[f64::INFINITY], &[100.0]]), (100.0, 100.0));
    assert_eq!(range(&[&[-100.0, f64::NAN]]), (-100.0, -100.0));
}

#[test]
fn overall_range_tells_the_two_zeros_apart() {
    let plus = 0.0f64.to_bits();
    let minus = (-0.0f64).to_bits();
    assert_eq!(overall_range(&vec![vec![plus, minus]]), (minus, plus));
    assert_eq!(overall_range(&vec![vec![minus, plus]]), (minus, plus));
    assert_eq!(overall_range(&vec![vec![plus], vec![minus]]), (minus, plus));
    assert_eq!(overall_range(&vec![vec![plus]]), (plus, plus));
    assert_eq!(overall_range(&vec![vec![minus]]), (minus, minus));
}

#[test]
fn sample_grid_follows_the_grid() {
    let grid: Vec<u64> = vec![3, 1, 2];
    let row = sample_grid(7, &grid, &|i: usize, x: u64| x * 10 + i as u64);
    assert_eq!(row, vec![37, 17, 27]);
    let empty: Vec<u64> = Vec::new();
    assert!(sample_grid(0, &empty, &|_: usize, x: u64| x).is_empty());
}

#[test]
fn evaluate_on_an_empty_grid() {
    let entries = vec![entry("x"), entry("x*x")];
    let (values, min, max) = run(&entries, &[]);
    assert_eq!(values, vec![Vec::<f64>::new(), Vec::<f64>::new()]);
    assert_eq!((min, max), (-1.0, 1.0));
}
