use joke_greeting::filters::Args;
use joke_greeting::script::{script_contents, select_action, Action, DIRECTORY_MODE, SCRIPT_NAME};

fn text(s: &str) -> Option<String> {
    Some(s.to_string())
}

#[test]
fn script_names() {
    assert_eq!(SCRIPT_NAME, "start.sh");
    assert_eq!(DIRECTORY_MODE, 0o755);
}

#[test]
fn script_is_one_line_without_line_feed() {
    assert_eq!(
        script_contents("/opt/jokes", Args::default()),
        "/opt/jokes/jokeGreeting --export-path /etc/motd.d/jokes &> /dev/null"
    );
}

#[test]
fn script_carries_the_filters() {
    let a = Args { category: text("pun"), language: text("fr"), ..Args::default() };
    assert_eq!(
        script_contents("/w", a),
        "/w/jokeGreeting --category Pun --language fr --export-path /etc/motd.d/jokes &> /dev/null"
    );
}

#[test]
fn launcher_alone_comes_first() {
    let a = Args {
        gen_script: true,
        install: text("local_profile"),
        uninstall: text("/x"),
        ..Args::default()
    };
    assert!(matches!(select_action(&a), Action::GenerateScript));
}

#[test]
fn install_comes_before_uninstall() {
    let a = Args { install: text("/a"), uninstall: text("/b"), ..Args::default() };
    match select_action(&a) {
        Action::Install(t) => assert_eq!(t, "/a"),
        other => panic!("{:?}", other),
    }
}

#[test]
fn uninstall_alone() {
    let a = Args { uninstall: text("global_profile"), ..Args::default() };
    match select_action(&a) {
        Action::Uninstall(t) => assert_eq!(t, "global_profile"),
        other => panic!("{:?}", other),
    }
}

#[test]
fn fetch_is_the_default() {
    assert!(matches!(select_action(&Args::default()), Action::Fetch));
    let a = Args { category: text("dark"), ..Args::default() };
    assert!(matches!(select_action(&a), Action::Fetch));
}
