use joke_greeting::profile::{
    global_shell_paths, installed_contents, launch_line, outcome_message, profile_paths,
    remove_line, reported_as_added, uninstalled_contents, user_shell_paths, ProfileError,
    GLOBAL_PROFILE, LOCAL_PROFILE,
};

#[test]
fn launch_line_holds_the_line_ending() {
    assert_eq!(launch_line("/opt/jokes"), "/opt/jokes/start.sh \n");
    assert_eq!(launch_line(""), "/start.sh \n");
}

#[test]
fn remove_line_drops_every_equal_line() {
    assert_eq!(remove_line("a\nrun\nb\nrun\n", "run"), "a\nb");
    assert_eq!(remove_line("run", "run"), "");
    assert_eq!(remove_line("a\nrun now\n", "run"), "a\nrun now");
    assert_eq!(remove_line("a\r\nrun\r\nb", "run"), "a\nb");
}

#[test]
fn remove_line_that_is_absent_keeps_the_lines() {
    assert_eq!(remove_line("a\nb", "c"), "a\nb");
    assert_eq!(remove_line("a\nb\n", "c"), "a\nb");
    assert_eq!(remove_line("", "c"), "");
}

#[test]
fn uninstall_without_launch_line_leaves_content() {
    let before = "export PATH=$PATH:/bin\nalias ll='ls -l'";
    assert_eq!(uninstalled_contents(before, "/opt/jokes"), before);
}

#[test]
fn uninstall_joins_lines_anew() {
    assert_eq!(uninstalled_contents("a\nb\n", "/x"), "a\nb");
    assert_eq!(uninstalled_contents("a\r\nb", "/x"), "a\nb");
    assert_eq!(uninstalled_contents("", "/x"), "");
}

#[test]
fn uninstall_never_matches_the_launch_line() {
    let data = "a\n/x/start.sh \nb";
    assert_eq!(uninstalled_contents(data, "/x"), data);
}

#[test]
fn install_appends_the_launch_line() {
    assert_eq!(installed_contents("", "/x"), "/x/start.sh \n");
    assert_eq!(installed_contents("a\nb\n", "/x"), "a\nb/x/start.sh \n");
    assert_eq!(installed_contents("a\nb\n\n", "/x"), "a\nb\n/x/start.sh \n");
}

#[test]
fn install_twice_on_the_same_contents() {
    let once = installed_contents("a\n\n", "/x");
    assert_eq!(once, "a\n/x/start.sh \n");
    let twice = installed_contents(&once, "/x");
    assert_eq!(twice, "a\n/x/start.sh /x/start.sh \n");
}

#[test]
fn install_then_uninstall() {
    let once = installed_contents("a\n\n", "/x");
    assert_eq!(uninstalled_contents(&once, "/x"), "a\n/x/start.sh ");
}

#[test]
fn user_paths_follow_the_home_directory() {
    let want: Vec<String> = [
        "/home/u/.zshrc",
        "/home/u/.bashrc",
        "/home/u/.bash_profile",
        "/home/u/.bash_login",
        "/home/u/.profile",
        "/home/u/.config/fish/config.fish",
        "/home/u/.kshrc",
        "/home/u/.cshrc",
        "/home/u/.tcshrc",
    ]
    .iter()
    .map(|p| p.to_string())
    .collect();
    assert_eq!(user_shell_paths("/home/u"), want);
    assert_eq!(profile_paths(LOCAL_PROFILE, Some("/home/u")), Ok(want));
}

#[test]
fn global_paths_hold_etc_profile_twice() {
    let want: Vec<String> = [
        "/etc/zshrc",
        "/etc/zsh/zshrc",
        "/etc/bash.bashrc",
        "/etc/profile",
        "/etc/fish/config.fish",
        "/etc/kshrc",
        "/etc/csh.cshrc",
        "/etc/csh.login",
        "/etc/profile",
    ]
    .iter()
    .map(|p| p.to_string())
    .collect();
    assert_eq!(global_shell_paths(), want);
    assert_eq!(profile_paths(GLOBAL_PROFILE, None), Ok(want.clone()));
    assert_eq!(profile_paths("global_profile", Some("/home/u")), Ok(want));
}

#[test]
fn local_profile_without_home_is_not_resolved() {
    assert_eq!(profile_paths("local_profile", None), Err(ProfileError::PathResolution));
}

#[test]
fn any_other_target_is_one_path() {
    assert_eq!(profile_paths("/tmp/rc", None), Ok(vec!["/tmp/rc".to_string()]));
    assert_eq!(profile_paths("local_profiles", None), Ok(vec!["local_profiles".to_string()]));
    assert_eq!(profile_paths("", Some("/h")), Ok(vec![String::new()]));
}

#[test]
fn outcome_messages() {
    assert_eq!(outcome_message(true, "/a", None), "Added to /a");
    assert_eq!(outcome_message(false, "/a", None), "Removed from /a");
    assert_eq!(outcome_message(true, "/a", Some("denied")), "Failed adding to /a \n denied");
    assert_eq!(outcome_message(false, "/a", Some("gone")), "Failed removing from /a \n gone");
}

#[test]
fn wording_of_outcomes() {
    assert!(reported_as_added(true, "local_profile"));
    assert!(reported_as_added(true, "/tmp/rc"));
    assert!(reported_as_added(false, "/tmp/rc"));
    assert!(!reported_as_added(false, "local_profile"));
    assert!(!reported_as_added(false, "global_profile"));
}

#[test]
fn round_trip_keeps_the_line_set_only_by_repetition() {
    let data = "b\nb/x/start.sh \nb";
    let after = uninstalled_contents(&installed_contents(data, "/x"), "/x");
    assert_eq!(after, "b\nb/x/start.sh \nb/x/start.sh ");
    let plain = uninstalled_contents(&installed_contents("a\nb", "/x"), "/x");
    assert_eq!(plain, "a\nb/x/start.sh ");
}

#[test]
fn launch_line_text_stands_once_after_two_installs() {
    let line = launch_line("/x");
    let once = installed_contents("alias l=ls\n", "/x");
    let twice = installed_contents(&once, "/x");
    assert_eq!(once.matches(line.as_str()).count(), 1);
    assert_eq!(twice.matches(line.as_str()).count(), 1);
    assert!(twice.ends_with(line.as_str()));
}
