//! The profile editor: the launch line, what removing and adding it does to
//! a profile's contents, and which files a target stands for.

use vstd::prelude::*;
use vstd::string::StringExecFns;
use crate::text::{
    join, join_text, lemma_join_split, lemma_lines_lack_line_feed, lemma_split_last_piece,
    lemma_split_append, lemma_split_nonempty, lemma_split_pieces_within, lines, lines_of,
    same_text, split, strip_cr, views, LINE_ENDING,
};

verus! {

/// The target that stands for the invoking user's shell profiles.
pub const LOCAL_PROFILE: &'static str = "local_profile";

/// The target that stands for the system-wide shell profiles.
pub const GLOBAL_PROFILE: &'static str = "global_profile";

/// Why a target could not be turned into paths.
#[derive(Clone, Copy, Debug, PartialEq, Eq, Structural)]
pub enum ProfileError {
    /// The user's profiles were asked for and no home directory is known.
    PathResolution,
}

/// The launch line for a launcher in `cwd`: the launcher's path, a blank and
/// the line ending, which is part of the line's text.
pub open spec fn launch_line_of(cwd: Seq<char>) -> Seq<char> {
    cwd + "/start.sh "@ + LINE_ENDING@
}

/// The test that every text but `line` passes.
pub open spec fn other_than(line: Seq<char>) -> spec_fn(Seq<char>) -> bool {
    |l: Seq<char>| l != line
}

/// The lines of `data` other than `line`, joined by the line ending.
pub open spec fn without_line(data: Seq<char>, line: Seq<char>) -> Seq<char> {
    join(lines(data).filter(other_than(line)), LINE_ENDING@)
}

/// What a profile holds after the launch line was taken out.
pub open spec fn uninstalled(data: Seq<char>, cwd: Seq<char>) -> Seq<char> {
    without_line(data, launch_line_of(cwd))
}

/// What a profile holds after an install: the launch line is taken out
/// first, then written once at the end.
pub open spec fn installed(data: Seq<char>, cwd: Seq<char>) -> Seq<char> {
    uninstalled(data, cwd) + launch_line_of(cwd)
}

/// The profiles of a user whose home directory is `home`, in the order in
/// which they are tried.
pub open spec fn user_paths(home: Seq<char>) -> Seq<Seq<char>> {
    seq![
        home + "/.zshrc"@,
        home + "/.bashrc"@,
        home + "/.bash_profile"@,
        home + "/.bash_login"@,
        home + "/.profile"@,
        home + "/.config/fish/config.fish"@,
        home + "/.kshrc"@,
        home + "/.cshrc"@,
        home + "/.tcshrc"@,
    ]
}

/// The system-wide profiles, in the order in which they are tried.
/// `/etc/profile` stands in the list twice.
pub open spec fn global_paths() -> Seq<Seq<char>> {
    seq![
        "/etc/zshrc"@,
        "/etc/zsh/zshrc"@,
        "/etc/bash.bashrc"@,
        "/etc/profile"@,
        "/etc/fish/config.fish"@,
        "/etc/kshrc"@,
        "/etc/csh.cshrc"@,
        "/etc/csh.login"@,
        "/etc/profile"@,
    ]
}

/// The paths that a target stands for, or `None` where the user's profiles
/// are asked for and no home directory is known.
pub open spec fn target_paths(target: Seq<char>, home: Option<Seq<char>>) -> Option<
    Seq<Seq<char>>,
> {
    if target == LOCAL_PROFILE@ {
        match home {
            Some(h) => Some(user_paths(h)),
            None => None,
        }
    } else if target == GLOBAL_PROFILE@ {
        Some(global_paths())
    } else {
        Some(seq![target])
    }
}

/// The characters of an optional text.
pub open spec fn opt_text(home: Option<&str>) -> Option<Seq<char>> {
    match home {
        Some(h) => Some(h@),
        None => None,
    }
}

/// The launch line for a launcher in the directory `cwd`.
pub fn launch_line(cwd: &str) -> (r: String)
    ensures
        r@ == launch_line_of(cwd@),
{
    let mut r = cwd.to_owned();
    r.append("/start.sh ");
    r.append(LINE_ENDING);
    r
}

/// Takes every line equal to `line` out of `data` and joins the others with
/// the line ending.
pub fn remove_line(data: &str, line: &str) -> (r: String)
    ensures
        r@ == without_line(data@, line@),
{
    let all = lines_of(data);
    let ghost other = other_than(line@);
    let mut kept: Vec<String> = Vec::new();
    let mut i: usize = 0;
    proof {
        reveal(Seq::filter);
        assert(views(all@).take(0) =~= Seq::<Seq<char>>::empty());
        assert(views(kept@) =~= Seq::<Seq<char>>::empty());
    }
    while i < all.len()
        invariant
            i <= all.len(),
            other == other_than(line@),
            views(kept@) == views(all@).take(i as int).filter(other),
        decreases all.len() - i,
    {
        let ghost before = views(kept@);
        if !same_text(all[i].as_str(), line) {
            kept.push(all[i].clone());
            assert(views(kept@) =~= before.push(all@[i as int]@));
        }
        i = i + 1;
        proof {
            reveal(Seq::filter);
            let now = views(all@).take(i as int);
            assert(now.drop_last() =~= views(all@).take(i - 1));
            assert(now.last() == all@[i - 1]@);
        }
    }
    assert(views(all@).take(i as int) =~= views(all@));
    join_text(&kept, LINE_ENDING)
}

/// The contents of a profile after an uninstall from the directory `cwd`.
pub fn uninstalled_contents(data: &str, cwd: &str) -> (r: String)
    ensures
        r@ == uninstalled(data@, cwd@),
{
    let line = launch_line(cwd);
    remove_line(data, line.as_str())
}

/// The contents of a profile after an install from the directory `cwd`.
pub fn installed_contents(data: &str, cwd: &str) -> (r: String)
    ensures
        r@ == installed(data@, cwd@),
{
    let line = launch_line(cwd);
    let mut r = remove_line(data, line.as_str());
    r.append(line.as_str());
    r
}

/// Appends `home` followed by `tail` to the list.
fn push_path(list: &mut Vec<String>, home: &str, tail: &str)
    ensures
        views(final(list)@) == views(old(list)@).push(home@ + tail@),
{
    let item = home.to_owned().concat(tail);
    list.push(item);
    assert(views(final(list)@) =~= views(old(list)@).push(home@ + tail@));
}

/// The nine profiles of the user whose home directory is `home`.
pub fn user_shell_paths(home: &str) -> (r: Vec<String>)
    ensures
        views(r@) == user_paths(home@),
{
    let mut r: Vec<String> = Vec::new();
    assert(views(r@) =~= Seq::<Seq<char>>::empty());
    push_path(&mut r, home, "/.zshrc");
    push_path(&mut r, home, "/.bashrc");
    push_path(&mut r, home, "/.bash_profile");
    push_path(&mut r, home, "/.bash_login");
    push_path(&mut r, home, "/.profile");
    push_path(&mut r, home, "/.config/fish/config.fish");
    push_path(&mut r, home, "/.kshrc");
    push_path(&mut r, home, "/.cshrc");
    push_path(&mut r, home, "/.tcshrc");
    assert(views(r@) =~= user_paths(home@));
    r
}

/// Appends a copy of `path` to the list.
fn push_text(list: &mut Vec<String>, path: &str)
    ensures
        views(final(list)@) == views(old(list)@).push(path@),
{
    list.push(path.to_owned());
    assert(views(final(list)@) =~= views(old(list)@).push(path@));
}

/// The nine system-wide profiles.
pub fn global_shell_paths() -> (r: Vec<String>)
    ensures
        views(r@) == global_paths(),
{
    let mut r: Vec<String> = Vec::new();
    assert(views(r@) =~= Seq::<Seq<char>>::empty());
    push_text(&mut r, "/etc/zshrc");
    push_text(&mut r, "/etc/zsh/zshrc");
    push_text(&mut r, "/etc/bash.bashrc");
    push_text(&mut r, "/etc/profile");
    push_text(&mut r, "/etc/fish/config.fish");
    push_text(&mut r, "/etc/kshrc");
    push_text(&mut r, "/etc/csh.cshrc");
    push_text(&mut r, "/etc/csh.login");
    push_text(&mut r, "/etc/profile");
    assert(views(r@) =~= global_paths());
    r
}

/// Turns a target into the paths to work on, in order.
///
/// `local_profile` stands for the user's nine profiles and needs the home
/// directory; without one nothing is resolved. `global_profile` stands for
/// the nine system-wide profiles. Any other target is itself the one path.
pub fn profile_paths(target: &str, home: Option<&str>) -> (r: Result<Vec<String>, ProfileError>)
    ensures
        match r {
            Ok(paths) => target_paths(target@, opt_text(home)) == Some(views(paths@)),
            Err(e) => e == ProfileError::PathResolution && target_paths(
                target@,
                opt_text(home),
            ) is None,
        },
{
    if same_text(target, LOCAL_PROFILE) {
        match home {
            Some(h) => Ok(user_shell_paths(h)),
            None => Err(ProfileError::PathResolution),
        }
    } else if same_text(target, GLOBAL_PROFILE) {
        Ok(global_shell_paths())
    } else {
        let mut r: Vec<String> = Vec::new();
        assert(views(r@) =~= Seq::<Seq<char>>::empty());
        push_text(&mut r, target);
        assert(views(r@) =~= seq![target@]);
        Ok(r)
    }
}

/// Whether an outcome is reported in the words of an install. An install
/// always is; so is an uninstall from a single path, while an uninstall from
/// one of the two profile sets has words of its own.
pub open spec fn worded_as_added(installing: bool, target: Seq<char>) -> bool {
    installing || (target != LOCAL_PROFILE@ && target != GLOBAL_PROFILE@)
}

/// Picks the wording for the outcomes of one target.
pub fn reported_as_added(installing: bool, target: &str) -> (r: bool)
    ensures
        r == worded_as_added(installing, target@),
{
    installing || (!same_text(target, LOCAL_PROFILE) && !same_text(target, GLOBAL_PROFILE))
}

/// The words in which the outcome for one path is reported.
pub open spec fn outcome_text(added: bool, path: Seq<char>, cause: Option<Seq<char>>) -> Seq<char> {
    match cause {
        None => (if added {
            "Added to "@
        } else {
            "Removed from "@
        }) + path,
        Some(c) => (if added {
            "Failed adding to "@
        } else {
            "Failed removing from "@
        }) + path + " "@ + LINE_ENDING@ + " "@ + c,
    }
}

/// Reports the outcome for one path: a success without a cause, a failure
/// with the path and the cause on the line below it.
pub fn outcome_message(added: bool, path: &str, cause: Option<&str>) -> (r: String)
    ensures
        r@ == outcome_text(added, path@, opt_text(cause)),
{
    match cause {
        None => {
            let mut r = if added {
                "Added to ".to_owned()
            } else {
                "Removed from ".to_owned()
            };
            r.append(path);
            r
        },
        Some(c) => {
            let mut r = if added {
                "Failed adding to ".to_owned()
            } else {
                "Failed removing from ".to_owned()
            };
            r.append(path);
            r.append(" ");
            r.append(LINE_ENDING);
            r.append(" ");
            r.append(c);
            r
        },
    }
}

/// The launch line is a line of no text, for it holds a line feed.
pub proof fn lemma_launch_line_is_no_line(data: Seq<char>, cwd: Seq<char>)
    ensures
        !lines(data).contains(launch_line_of(cwd)),
{
    reveal_strlit("\n");
    lemma_lines_lack_line_feed(data);
    let line = launch_line_of(cwd);
    assert(line.last() == '\n');
    if lines(data).contains(line) {
        let i = choose|i: int| 0 <= i < lines(data).len() && lines(data)[i] == line;
        assert(lines(data)[i][line.len() - 1] == '\n');
    }
}

/// Removing a line that the text does not hold keeps every line: the result
/// is the lines joined by the line ending.
pub proof fn lemma_absent_line_keeps_lines(data: Seq<char>, line: Seq<char>)
    requires
        !lines(data).contains(line),
    ensures
        without_line(data, line) == join(lines(data), LINE_ENDING@),
{
    lemma_filter_keeps_all(lines(data), other_than(line));
}

/// A filter that every item passes changes nothing.
pub proof fn lemma_filter_keeps_all(s: Seq<Seq<char>>, pred: spec_fn(Seq<char>) -> bool)
    requires
        forall|i: int| 0 <= i < s.len() ==> pred(#[trigger] s[i]),
    ensures
        s.filter(pred) == s,
    decreases s.len(),
{
    reveal(Seq::filter);
    if s.len() > 0 {
        lemma_filter_keeps_all(s.drop_last(), pred);
        assert(s.drop_last().push(s.last()) =~= s);
    }
}

/// An uninstall never finds the launch line, so it keeps every line of the
/// profile and only joins them anew.
pub proof fn lemma_uninstall_keeps_lines(data: Seq<char>, cwd: Seq<char>)
    ensures
        uninstalled(data, cwd) == join(lines(data), LINE_ENDING@),
        installed(data, cwd) == join(lines(data), LINE_ENDING@) + launch_line_of(cwd),
{
    lemma_launch_line_is_no_line(data, cwd);
    lemma_absent_line_keeps_lines(data, launch_line_of(cwd));
}

/// `data` without the line feed that ends it, if one does.
pub open spec fn without_closing_line_feed(data: Seq<char>) -> Seq<char> {
    if data.len() > 0 && data.last() == '\n' {
        data.drop_last()
    } else {
        data
    }
}

/// The pieces of a text without carriage returns are its lines, but for an
/// empty last piece.
proof fn lemma_pieces_are_lines(data: Seq<char>)
    requires
        !data.contains('\r'),
    ensures
        split(data, '\n').drop_last().map_values(|l: Seq<char>| strip_cr(l)) == split(
            data,
            '\n',
        ).drop_last(),
{
    lemma_split_nonempty(data, '\n');
    lemma_split_pieces_within(data, '\n');
    let parts = split(data, '\n');
    assert forall|i: int| 0 <= i < parts.len() implies strip_cr(parts[i]) == parts[i] by {
        if parts[i].len() > 0 && parts[i].last() == '\r' {
            assert(parts[i][parts[i].len() - 1] == '\r');
            assert(parts[i].contains('\r'));
        }
    }
    assert(parts.drop_last().map_values(|l: Seq<char>| strip_cr(l)) =~= parts.drop_last());
}

/// The lines of a text without carriage returns that is not empty are the
/// pieces between the line feeds of the text without its closing one.
proof fn lemma_lines_are_pieces(data: Seq<char>)
    requires
        !data.contains('\r'),
        data.len() > 0,
    ensures
        lines(data) == split(without_closing_line_feed(data), '\n'),
{
    lemma_split_last_piece(data, '\n');
    lemma_pieces_are_lines(data);
    let parts = split(data, '\n');
    if data.last() != '\n' {
        assert(lines(data) =~= parts);
    } else {
        lemma_split_nonempty(data.drop_last(), '\n');
        assert(parts.drop_last() =~= split(data.drop_last(), '\n'));
    }
}

/// The lines of a text without carriage returns, joined by the line ending,
/// are the text without its closing line feed.
pub proof fn lemma_join_lines(data: Seq<char>)
    requires
        !data.contains('\r'),
    ensures
        join(lines(data), LINE_ENDING@) == without_closing_line_feed(data),
{
    reveal_strlit("\n");
    assert(LINE_ENDING@ =~= seq!['\n']);
    if data.len() == 0 {
        assert(lines(data) =~= Seq::<Seq<char>>::empty());
    } else {
        lemma_lines_are_pieces(data);
        lemma_join_split(without_closing_line_feed(data), '\n');
    }
}

/// An uninstall on a profile without carriage returns takes away the
/// closing line feed and nothing else. A profile that does not end in a
/// line feed is left as it is.
pub proof fn lemma_uninstall_keeps_text(data: Seq<char>, cwd: Seq<char>)
    requires
        !data.contains('\r'),
    ensures
        uninstalled(data, cwd) == without_closing_line_feed(data),
        data.len() == 0 || data.last() != '\n' ==> uninstalled(data, cwd) == data,
{
    lemma_uninstall_keeps_lines(data, cwd);
    lemma_join_lines(data);
}

/// An install on a profile without carriage returns writes the launch line
/// directly behind the text, whose closing line feed is taken away.
pub proof fn lemma_install_appends(data: Seq<char>, cwd: Seq<char>)
    requires
        !data.contains('\r'),
    ensures
        installed(data, cwd) == without_closing_line_feed(data) + launch_line_of(cwd),
{
    lemma_uninstall_keeps_text(data, cwd);
}

/// After an install, an uninstall takes only the line feed that ends the
/// launch line away: the launcher's path stays behind the text.
pub proof fn lemma_install_then_uninstall(data: Seq<char>, cwd: Seq<char>)
    requires
        !data.contains('\r'),
        !cwd.contains('\r'),
    ensures
        uninstalled(installed(data, cwd), cwd) == without_closing_line_feed(data) + cwd
            + "/start.sh "@,
{
    let once = installed(data, cwd);
    lemma_install_appends(data, cwd);
    lemma_installed_lacks_carriage_return(data, cwd);
    lemma_uninstall_keeps_text(once, cwd);
    reveal_strlit("\n");
    assert(once.drop_last() =~= without_closing_line_feed(data) + cwd + "/start.sh "@);
}

/// A second install does not find the launch line of the first: it takes
/// that line's line feed away and writes the launch line behind it, so the
/// launcher's path then stands twice.
pub proof fn lemma_second_install(data: Seq<char>, cwd: Seq<char>)
    requires
        !data.contains('\r'),
        !cwd.contains('\r'),
    ensures
        installed(installed(data, cwd), cwd) == without_closing_line_feed(data) + cwd
            + "/start.sh "@ + launch_line_of(cwd),
{
    lemma_install_then_uninstall(data, cwd);
}

/// Installing from a directory without carriage returns brings none into a
/// profile that had none.
proof fn lemma_installed_lacks_carriage_return(data: Seq<char>, cwd: Seq<char>)
    requires
        !data.contains('\r'),
        !cwd.contains('\r'),
    ensures
        !installed(data, cwd).contains('\r'),
{
    lemma_install_appends(data, cwd);
    reveal_strlit("\n");
    reveal_strlit("/start.sh ");
    let head = without_closing_line_feed(data);
    let once = installed(data, cwd);
    let mark = "/start.sh "@;
    assert(once =~= head + cwd + mark + seq!['\n']);
    if once.contains('\r') {
        let k = choose|k: int| 0 <= k < once.len() && once[k] == '\r';
        if k < head.len() {
            assert(data[k] == '\r');
        } else if k < head.len() + cwd.len() {
            assert(cwd[k - head.len()] == '\r');
        } else if k < head.len() + cwd.len() + mark.len() {
            assert(mark[k - head.len() - cwd.len()] == '\r');
        }
    }
}

/// What an install followed by an uninstall leaves of a profile's lines:
/// all but the last as they were, and the last with the launcher's path
/// behind it.
pub proof fn lemma_round_trip_lines(data: Seq<char>, cwd: Seq<char>)
    requires
        data.len() > 0,
        !data.contains('\r'),
        !cwd.contains('\r'),
        !cwd.contains('\n'),
    ensures
        lines(data).len() >= 1,
        lines(uninstalled(installed(data, cwd), cwd)) == lines(data).drop_last().push(
            lines(data).last() + (cwd + "/start.sh "@),
        ),
{
    let head = without_closing_line_feed(data);
    let path = cwd + "/start.sh "@;
    let after = uninstalled(installed(data, cwd), cwd);
    lemma_install_then_uninstall(data, cwd);
    assert(after =~= head + path);
    lemma_launch_line_shape(cwd);
    lemma_lines_are_pieces(data);
    lemma_split_append(head, path, '\n');
    reveal_strlit("/start.sh ");
    assert(path.len() > 0);
    assert(after.last() == path.last());
    assert(path.last() == ' ');
    assert(!after.contains('\r')) by {
        lemma_installed_lacks_carriage_return(data, cwd);
        reveal_strlit("\n");
        if after.contains('\r') {
            let k = choose|k: int| 0 <= k < after.len() && after[k] == '\r';
            assert(installed(data, cwd)[k] == '\r');
        }
    }
    lemma_lines_are_pieces(after);
}

/// An install followed by an uninstall keeps the set of a profile's lines
/// exactly where the last line also stands earlier in the profile and so
/// does that line with the launcher's path behind it.
pub proof fn lemma_round_trip_line_set(data: Seq<char>, cwd: Seq<char>)
    requires
        data.len() > 0,
        !data.contains('\r'),
        !cwd.contains('\r'),
        !cwd.contains('\n'),
    ensures
        lines(uninstalled(installed(data, cwd), cwd)).to_set() == lines(data).to_set() <==> (
        lines(data).drop_last().contains(lines(data).last()) && lines(data).contains(
            lines(data).last() + (cwd + "/start.sh "@),
        )),
{
    let before = lines(data);
    let after = lines(uninstalled(installed(data, cwd), cwd));
    let path = cwd + "/start.sh "@;
    let grown = before.last() + path;
    lemma_round_trip_lines(data, cwd);
    reveal_strlit("/start.sh ");
    assert(grown.len() != before.last().len());
    assert(after.len() == before.len());
    assert(after[after.len() - 1] == grown);
    assert(before[before.len() - 1] == before.last());
    if before.drop_last().contains(before.last()) && before.contains(grown) {
        let at = choose|k: int| 0 <= k < before.drop_last().len() && before.drop_last()[k] == before.last();
        assert forall|l: Seq<char>| after.to_set().contains(l) <==> before.to_set().contains(l) by {
            if after.contains(l) {
                let k = choose|k: int| 0 <= k < after.len() && after[k] == l;
                if k < after.len() - 1 {
                    assert(before[k] == l);
                }
            }
            if before.contains(l) {
                let k = choose|k: int| 0 <= k < before.len() && before[k] == l;
                if k < before.len() - 1 {
                    assert(after[k] == l);
                } else {
                    assert(after[at] == l);
                }
            }
        }
        assert(after.to_set() =~= before.to_set());
    }
    if after.to_set() == before.to_set() {
        assert(after.contains(grown));
        assert(before.to_set().contains(grown));
        assert(before.contains(before.last()));
        assert(after.to_set().contains(before.last()));
        let k = choose|k: int| 0 <= k < after.len() && after[k] == before.last();
        assert(k < after.len() - 1);
        assert(before.drop_last()[k] == before.last());
    }
}

/// Whether `part` stands in `text` from position `at` on.
pub open spec fn occurs_at(text: Seq<char>, part: Seq<char>, at: int) -> bool {
    0 <= at && at + part.len() <= text.len() && text.subrange(at, at + part.len()) == part
}

/// A text that ends in a line feed and holds no other occurs exactly once,
/// at the end, in what is made of a head that does not hold it, a middle
/// without line feeds and the text itself.
proof fn lemma_occurs_once(head: Seq<char>, middle: Seq<char>, line: Seq<char>)
    requires
        line.len() > 0,
        line.last() == '\n',
        !line.drop_last().contains('\n'),
        !middle.contains('\n'),
        forall|i: int| !occurs_at(head, line, i),
    ensures
        forall|i: int|
            occurs_at(head + middle + line, line, i) <==> i == head.len() + middle.len(),
{
    let whole = head + middle + line;
    let end = (head.len() + middle.len()) as int;
    assert(whole.subrange(end, end + line.len()) =~= line);
    assert forall|i: int| occurs_at(whole, line, i) implies i == end by {
        let j = i + line.len() - 1;
        assert(whole.subrange(i, i + line.len())[line.len() - 1] == '\n');
        assert(whole[j] == '\n');
        if j < head.len() {
            assert(head.subrange(i, i + line.len()) =~= whole.subrange(i, i + line.len()));
            assert(occurs_at(head, line, i));
        } else if j < end {
            assert(middle[j - head.len()] == '\n');
            assert(middle.contains('\n'));
        } else if j < whole.len() - 1 {
            assert(line.drop_last()[j - end] == '\n');
            assert(line.drop_last().contains('\n'));
        }
    }
}

/// The launcher's path in a directory without line feeds holds none, and
/// the launch line is that path with a line feed behind it.
proof fn lemma_launch_line_shape(cwd: Seq<char>)
    requires
        !cwd.contains('\n'),
    ensures
        launch_line_of(cwd) == (cwd + "/start.sh "@).push('\n'),
        !(cwd + "/start.sh "@).contains('\n'),
{
    reveal_strlit("\n");
    reveal_strlit("/start.sh ");
    let mark = "/start.sh "@;
    let path = cwd + mark;
    assert(launch_line_of(cwd) =~= path.push('\n'));
    if path.contains('\n') {
        let k = choose|k: int| 0 <= k < path.len() && path[k] == '\n';
        if k < cwd.len() {
            assert(cwd[k] == '\n');
        } else {
            assert(mark[k - cwd.len()] == '\n');
        }
    }
}

/// One install on a profile that does not hold the launch line's text puts
/// it there exactly once, at the end.
pub proof fn lemma_install_one_launch_line(data: Seq<char>, cwd: Seq<char>)
    requires
        !data.contains('\r'),
        !cwd.contains('\n'),
        forall|i: int| !occurs_at(without_closing_line_feed(data), launch_line_of(cwd), i),
    ensures
        forall|i: int|
            occurs_at(installed(data, cwd), launch_line_of(cwd), i) <==> i == installed(
                data,
                cwd,
            ).len() - launch_line_of(cwd).len(),
{
    let line = launch_line_of(cwd);
    let head = without_closing_line_feed(data);
    lemma_install_appends(data, cwd);
    lemma_launch_line_shape(cwd);
    assert(line.drop_last() =~= cwd + "/start.sh "@);
    lemma_occurs_once(head, Seq::<char>::empty(), line);
    assert(installed(data, cwd) =~= head + Seq::<char>::empty() + line);
}

/// Installing twice on a profile that does not hold the launch line's text
/// leaves that text there exactly once, at the end, as one install does.
pub proof fn lemma_install_twice_one_launch_line(data: Seq<char>, cwd: Seq<char>)
    requires
        !data.contains('\r'),
        !cwd.contains('\r'),
        !cwd.contains('\n'),
        forall|i: int| !occurs_at(without_closing_line_feed(data), launch_line_of(cwd), i),
    ensures
        forall|i: int|
            occurs_at(installed(installed(data, cwd), cwd), launch_line_of(cwd), i) <==> i
                == installed(installed(data, cwd), cwd).len() - launch_line_of(cwd).len(),
{
    let line = launch_line_of(cwd);
    let head = without_closing_line_feed(data);
    let path = cwd + "/start.sh "@;
    lemma_second_install(data, cwd);
    lemma_launch_line_shape(cwd);
    assert(line.drop_last() =~= path);
    lemma_occurs_once(head, path, line);
    assert(installed(installed(data, cwd), cwd) =~= head + path + line);
}

} // verus!
