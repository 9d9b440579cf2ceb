use audio_editor::app::{App, Effects};
use audio_editor::keys::{Command, Key};
use audio_editor::modal::{Modal, ModalKind, ModalResult};

fn typed(text: &str) -> Modal {
    let mut m = Modal::new("BPM", ModalKind::ClickTrackBpm);
    for c in text.chars() {
        assert!(m.handle_char(c).is_none());
    }
    m
}

fn confirms(text: &str) -> bool {
    typed(text).handle_char('\n').is_some()
}

#[test]
fn a_new_modal_is_empty_and_open() {
    let m = Modal::new("BPM", ModalKind::ClickTrackBpm);
    assert_eq!(m.title, "BPM");
    assert_eq!(m.input, "");
    assert!(m.visible);
}

#[test]
fn only_digits_and_points_are_typed() {
    let m = typed("1a2.5-é");
    assert_eq!(m.input, "12.5");
}

#[test]
fn only_numbers_above_zero_are_confirmed() {
    for good in ["120", "0.5", ".5", "7.", "007", "12.5"] {
        assert!(confirms(good), "{}", good);
        assert!(good.parse::<f64>().unwrap() > 0.0);
    }
    for bad in ["", ".", "0", "0.0", "1.2.3", "..", "000."] {
        assert!(!confirms(bad), "{}", bad);
    }
}

#[test]
fn a_number_that_rounds_to_zero_is_not_confirmed() {
    let small = |zeros: usize, digits: &str| format!("0.{}{}", "0".repeat(zeros), digits);
    let half = "2470328229206232720882843964341106861825299013071623822127928412503377536351043";
    let cases = [
        (small(400, "1"), false),
        (small(322, "1"), true),
        (small(323, "1"), false),
        (small(323, "2"), false),
        (small(323, "3"), true),
        (small(323, "24"), false),
        (small(323, "25"), true),
        (small(323, half), false),
        (small(323, &half.replace("51043", "51044")), true),
        (format!("7{}", small(400, "0")), true),
        (format!("{}.{}", "0".repeat(400), "5"), true),
        (format!("{}", "9".repeat(400)), true),
        (format!("0.{}", "0".repeat(900)), false),
    ];
    for (text, good) in cases {
        assert_eq!(text.parse::<f64>().unwrap() > 0.0, good, "{}", text);
        assert_eq!(confirms(&text), good, "{}", text);
    }
}

/// Five to the given power, in decimal.
fn power_of_five(n: usize) -> String {
    let mut digits: Vec<u32> = vec![1];
    for _ in 0..n {
        let mut carry = 0;
        for d in digits.iter_mut() {
            let x = *d * 5 + carry;
            *d = x % 10;
            carry = x / 10;
        }
        if carry > 0 {
            digits.push(carry);
        }
    }
    digits.iter().rev().map(|d| char::from_digit(*d, 10).unwrap()).collect()
}

#[test]
fn half_of_the_least_double_rounds_to_zero() {
    let exact = power_of_five(1075);
    let half = format!(".{}{}", "0".repeat(1075 - exact.len()), exact);
    assert_eq!(half.parse::<f64>().unwrap(), 0.0);
    assert!(!confirms(&half));
    let above = format!("{}1", half);
    assert!(above.parse::<f64>().unwrap() > 0.0);
    assert!(confirms(&above));
    let below = half.strip_suffix('5').unwrap().to_string() + "4";
    assert_eq!(below.parse::<f64>().unwrap(), 0.0);
    assert!(!confirms(&below));
}

#[test]
fn confirming_closes_the_modal() {
    let mut m = typed("90");
    match m.handle_char('\r') {
        Some(ModalResult::ClickTrackBpm(text)) => assert_eq!(text, "90"),
        None => panic!("not confirmed"),
    }
    assert!(!m.visible);
}

#[test]
fn backspace_takes_a_character_back() {
    let mut m = typed("12");
    m.handle_backspace();
    assert_eq!(m.input, "1");
    m.handle_backspace();
    m.handle_backspace();
    assert_eq!(m.input, "");
}

#[test]
fn cancel_closes_the_modal() {
    let mut m = typed("12");
    m.cancel();
    assert!(!m.visible);
    assert_eq!(m.input, "12");
}

#[test]
fn the_modal_takes_the_keyboard() {
    let mut app = App::new();
    assert!(!app.modal_is_open());
    assert_eq!(app.run_command(Command::AskTempo, 0), (Effects::Redraw, None));
    assert!(app.modal_is_open());
    assert_eq!(app.modal.as_ref().unwrap().title, "BPM");
    let (effects, result) = app.press_in_modal(Key::Other, Some("14"));
    assert!(effects == Effects::Redraw && result.is_none());
    app.press_in_modal(Key::Backspace, None);
    assert_eq!(app.modal.as_ref().unwrap().input, "1");
    let (effects, result) = app.press_in_modal(Key::Other, None);
    assert!(effects == Effects::Nothing && result.is_none());
    app.press_in_modal(Key::Other, Some("00"));
    match app.press_in_modal(Key::Enter, Some("\r")) {
        (Effects::Redraw, Some(ModalResult::ClickTrackBpm(text))) => assert_eq!(text, "100"),
        _ => panic!("not confirmed"),
    }
    assert!(app.modal.is_none());
}

#[test]
fn escape_closes_the_modal_without_a_result() {
    let mut app = App::new();
    app.run_command(Command::AskTempo, 0);
    app.press_in_modal(Key::Other, Some("90"));
    let (effects, result) = app.press_in_modal(Key::Escape, None);
    assert!(effects == Effects::Redraw && result.is_none());
    assert!(app.modal.is_none());
}

#[test]
fn an_unfinished_number_keeps_the_modal_open() {
    let mut app = App::new();
    app.run_command(Command::AskTempo, 0);
    app.press_in_modal(Key::Other, Some("1.2.3"));
    assert!(app.press_in_modal(Key::Enter, None).1.is_none());
    assert!(app.modal_is_open());
    assert_eq!(app.type_in_modal("x\n5").is_none(), true);
    assert_eq!(app.modal.as_ref().unwrap().input, "1.2.35");
}
