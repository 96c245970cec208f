use joke_greeting::joke::{render_joke, Joke};

fn text(s: &str) -> Option<String> {
    Some(s.to_string())
}

#[test]
fn single_part_joke_is_one_line_and_a_blank() {
    let j = Joke { joke: text("Why?"), setup: None, delivery: None };
    assert_eq!(render_joke(&j), "Why?\n\n");
}

#[test]
fn two_part_joke_is_setup_then_delivery() {
    let j = Joke { joke: None, setup: text("Knock knock"), delivery: text("Who?") };
    assert_eq!(render_joke(&j), "Knock knock\nWho?\n\n");
}

#[test]
fn empty_joke_is_the_line_ending_alone() {
    let j = Joke { joke: None, setup: None, delivery: None };
    assert_eq!(render_joke(&j), "\n");
}

#[test]
fn all_three_parts_keep_their_order() {
    let j = Joke { joke: text("j"), setup: text("s"), delivery: text("d") };
    assert_eq!(render_joke(&j), "j\ns\nd\n\n");
}

#[test]
fn lone_delivery_or_setup_is_shown() {
    let d = Joke { joke: None, setup: None, delivery: text("d") };
    assert_eq!(render_joke(&d), "d\n\n");
    let s = Joke { joke: None, setup: text(""), delivery: None };
    assert_eq!(render_joke(&s), "\n\n");
}
