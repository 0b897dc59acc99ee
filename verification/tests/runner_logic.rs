use rust_course::runner::progress::{record_outcome, OutcomeAction};
use rust_course::runner::screen::decimal_text;
use rust_course::runner::screen::screen;
use rust_course::split::{is_white_space, lines, split_whitespace, trim, trim_start};
use rust_course::runner::cli::{
    editor_choice, leading_notes, notes_text, parse_command, unknown_command_message, CliCommand,
    BOLD, DIM, RESET,
};
use rust_course::runner::order::{sort_paths, sort_texts, text_before};
use rust_course::runner::paths::{ancestors, key_of, source_file, state_path, PathParts};
use rust_course::runner::progress::{
    find_exercise, first_pending_idx, progress_marks, reset_one, select_exercise, DoneSet, FindError,
};
use rust_course::runner::testrun::{after_build, after_run, poll_step, PollStep};
use rust_course::runner::watch::{key_event, InputEvent, WatchAction, WatchEvent, WatchState};

fn path(parts: &[&str]) -> PathParts {
    PathParts { parts: parts.iter().map(|p| p.to_string()).collect() }
}

fn root() -> PathParts {
    path(&["/", "home", "me", "course"])
}

fn exercises() -> Vec<PathParts> {
    vec![
        path(&["/", "home", "me", "course", "exercises", "01_intro", "00_welcome"]),
        path(&["/", "home", "me", "course", "exercises", "01_intro", "01_syntax"]),
        path(&["/", "home", "me", "course", "exercises", "02_basic", "00_intro"]),
    ]
}

fn done_of(keys: &[&str]) -> DoneSet {
    let mut d = DoneSet::new();
    for k in keys {
        d.insert(k.to_string());
    }
    d
}

#[test]
fn keys_are_relative_to_the_root() {
    let ex = exercises();
    assert_eq!(key_of(&root(), &ex[1]), "exercises/01_intro/01_syntax");
    assert_eq!(key_of(&path(&["/", "elsewhere"]), &ex[0]), "/home/me/course/exercises/01_intro/00_welcome");
    assert_eq!(key_of(&root(), &root()), "");
}

#[test]
fn state_file_and_sources() {
    assert_eq!(state_path(&root()).render(), "/home/me/course/.runner-state");
    let dir = path(&["/", "x", "ex"]);
    assert_eq!(source_file(&dir, true).render(), "/x/ex/src/lib.rs");
    assert_eq!(source_file(&dir, false).render(), "/x/ex/src/main.rs");
}

#[test]
fn first_pending_skips_passed_exercises() {
    let ex = exercises();
    let done = done_of(&["exercises/01_intro/00_welcome"]);
    assert_eq!(first_pending_idx(&root(), &ex, &done), Some(1));
    let all = done_of(&[
        "exercises/01_intro/00_welcome",
        "exercises/01_intro/01_syntax",
        "exercises/02_basic/00_intro",
    ]);
    assert_eq!(first_pending_idx(&root(), &ex, &all), None);
    assert_eq!(first_pending_idx(&root(), &ex, &DoneSet::new()), Some(0));
}

#[test]
fn find_by_part_of_the_key() {
    let ex = exercises();
    let found = find_exercise(&root(), &ex, "syntax").unwrap();
    assert_eq!(found.render(), "/home/me/course/exercises/01_intro/01_syntax");
    match find_exercise(&root(), &ex, "nothing-like-it") {
        Err(e @ FindError::NotFound) => {
            assert_eq!(e.message("nothing-like-it"), "no exercise matches `nothing-like-it`")
        }
        other => panic!("unexpected {:?}", other),
    }
    match find_exercise(&root(), &ex, "01_intro") {
        Err(e @ FindError::Ambiguous { .. }) => assert_eq!(
            e.message("01_intro"),
            "`01_intro` is ambiguous, matches: exercises/01_intro/00_welcome, exercises/01_intro/01_syntax"
        ),
        other => panic!("unexpected {:?}", other),
    }
}

#[test]
fn select_for_run_one() {
    let ex = exercises();
    let done = done_of(&["exercises/01_intro/00_welcome"]);
    let next = select_exercise(&root(), &ex, &done, None).unwrap().unwrap();
    assert_eq!(key_of(&root(), &next), "exercises/01_intro/01_syntax");
    let named = select_exercise(&root(), &ex, &done, Some("02_basic")).unwrap().unwrap();
    assert_eq!(key_of(&root(), &named), "exercises/02_basic/00_intro");
    let all = done_of(&[
        "exercises/01_intro/00_welcome",
        "exercises/01_intro/01_syntax",
        "exercises/02_basic/00_intro",
    ]);
    assert!(select_exercise(&root(), &ex, &all, None).unwrap().is_none());
}

#[test]
fn reset_clears_one_mark() {
    let ex = exercises();
    let mut done = done_of(&["exercises/01_intro/00_welcome"]);
    let (key, was) = reset_one(&root(), &ex, &mut done, "welcome").unwrap();
    assert_eq!(key, "exercises/01_intro/00_welcome");
    assert!(was);
    assert_eq!(done.len(), 0);
    let (_, was) = reset_one(&root(), &ex, &mut done, "welcome").unwrap();
    assert!(!was);
}

#[test]
fn marks_and_count() {
    let ex = exercises();
    let done = done_of(&["exercises/02_basic/00_intro", "not/an/exercise"]);
    let (marks, n) = progress_marks(&root(), &ex, &done);
    assert_eq!(marks, vec![false, false, true]);
    assert_eq!(n, 1);
}

#[test]
fn done_set_insert_remove() {
    let mut d = DoneSet::new();
    assert!(d.insert("a".into()));
    assert!(!d.insert("a".into()));
    assert!(d.insert("b".into()));
    assert_eq!(d.len(), 2);
    assert!(d.contains("a"));
    assert!(d.remove("a"));
    assert!(!d.remove("a"));
    assert!(!d.contains("a"));
    assert_eq!(d.len(), 1);
}

#[test]
fn state_text_is_read_trimmed_and_written_sorted() {
    let d = DoneSet::from_text("  exercises/b  \n\nexercises/a\r\n\t\nexercises/b\n");
    assert_eq!(d.len(), 2);
    assert!(d.contains("exercises/a"));
    assert!(d.contains("exercises/b"));
    assert_eq!(d.to_text(), "exercises/a\nexercises/b\n");
    assert_eq!(DoneSet::new().to_text(), "");
    assert_eq!(DoneSet::from_text("").len(), 0);
}

#[test]
fn texts_and_paths_sort_in_order() {
    assert!(text_before("a", "b"));
    assert!(text_before("ab", "abc"));
    assert!(!text_before("b", "a"));
    assert!(!text_before("a", "a"));
    let sorted = sort_texts(vec!["c".into(), "a".into(), "b".into()]);
    assert_eq!(sorted, vec!["a".to_string(), "b".to_string(), "c".to_string()]);
    let dirs = vec![
        path(&["/", "r", "exercises", "02_b", "00_x"]),
        path(&["/", "r", "exercises", "01_a", "01_y"]),
        path(&["/", "r", "exercises", "01_a", "00_z"]),
    ];
    let keys: Vec<String> = sort_paths(dirs).iter().map(|p| p.render()).collect();
    assert_eq!(
        keys,
        vec![
            "/r/exercises/01_a/00_z".to_string(),
            "/r/exercises/01_a/01_y".to_string(),
            "/r/exercises/02_b/00_x".to_string(),
        ]
    );
    // Component order differs from plain text order: `a` < `a-b` as components.
    let keys: Vec<String> = sort_paths(vec![path(&["a-b", "c"]), path(&["a", "b"])])
        .iter()
        .map(|p| p.render())
        .collect();
    assert_eq!(keys, vec!["a/b".to_string(), "a-b/c".to_string()]);
}

#[test]
fn keys_map_to_events() {
    assert_eq!(key_event(b'r'), Some(InputEvent::Run));
    assert_eq!(key_event(b'R'), Some(InputEvent::Run));
    assert_eq!(key_event(b'\r'), Some(InputEvent::Run));
    assert_eq!(key_event(b'\n'), Some(InputEvent::Run));
    assert_eq!(key_event(b'n'), Some(InputEvent::Next));
    assert_eq!(key_event(b'H'), Some(InputEvent::Hint));
    assert_eq!(key_event(b'l'), Some(InputEvent::List));
    assert_eq!(key_event(b'Q'), Some(InputEvent::Quit));
    assert_eq!(key_event(b'x'), None);
}

#[test]
fn watch_moves_on_only_after_a_pass() {
    let ex = exercises();
    let r = root();
    let mut st = WatchState::start(&r, &ex, DoneSet::new()).unwrap();
    assert_eq!(st.cur_idx, 0);
    assert!(!st.passed);

    assert_eq!(st.step(&r, &ex, &WatchEvent::Key(InputEvent::Next)), WatchAction::Render);
    assert_eq!(st.cur_idx, 0);

    st.record_run(true);
    assert_eq!(st.step(&r, &ex, &WatchEvent::Key(InputEvent::Next)), WatchAction::Advance);
    assert_eq!(st.cur_idx, 1);
    assert!(st.done.contains("exercises/01_intro/00_welcome"));

    assert_eq!(st.step(&r, &ex, &WatchEvent::Key(InputEvent::Hint)), WatchAction::Render);
    assert!(st.show_notes);
    st.record_run(false);
    assert!(!st.show_notes);

    let inside = path(&["/", "home", "me", "course", "exercises", "01_intro", "01_syntax", "src", "lib.rs"]);
    assert_eq!(st.step(&r, &ex, &WatchEvent::File(inside)), WatchAction::RerunAfterBurst);
    let outside = path(&["/", "home", "me", "course", "exercises", "02_basic", "00_intro", "src", "lib.rs"]);
    assert_eq!(st.step(&r, &ex, &WatchEvent::File(outside)), WatchAction::Ignore);
    assert_eq!(st.step(&r, &ex, &WatchEvent::Key(InputEvent::List)), WatchAction::ShowList);
    assert_eq!(st.step(&r, &ex, &WatchEvent::Key(InputEvent::Run)), WatchAction::RunAndRender);
    assert_eq!(st.step(&r, &ex, &WatchEvent::Key(InputEvent::Quit)), WatchAction::Quit);
}

#[test]
fn watch_finishes_when_the_last_exercise_passes() {
    let ex = exercises();
    let r = root();
    let done = done_of(&["exercises/01_intro/00_welcome", "exercises/02_basic/00_intro"]);
    let mut st = WatchState::start(&r, &ex, done).unwrap();
    assert_eq!(st.cur_idx, 1);
    st.record_run(true);
    assert_eq!(st.step(&r, &ex, &WatchEvent::Key(InputEvent::Next)), WatchAction::Finish);
    assert_eq!(st.done.len(), 3);

    let all = done_of(&[
        "exercises/01_intro/00_welcome",
        "exercises/01_intro/01_syntax",
        "exercises/02_basic/00_intro",
    ]);
    assert!(WatchState::start(&r, &ex, all).is_none());
}

#[test]
fn commands_are_parsed() {
    assert!(matches!(parse_command(None), CliCommand::Watch));
    assert!(matches!(parse_command(Some("watch")), CliCommand::Watch));
    assert!(matches!(parse_command(Some("run")), CliCommand::Run));
    assert!(matches!(parse_command(Some("ls")), CliCommand::List));
    assert!(matches!(parse_command(Some("list")), CliCommand::List));
    assert!(matches!(parse_command(Some("reset")), CliCommand::Reset));
    assert!(matches!(parse_command(Some("check-all")), CliCommand::CheckAll));
    assert!(matches!(parse_command(Some("-h")), CliCommand::Help));
    assert!(matches!(parse_command(Some("--help")), CliCommand::Help));
    match parse_command(Some("frobnicate")) {
        CliCommand::Unknown(w) => assert_eq!(w, "frobnicate"),
        other => panic!("unexpected {:?}", other),
    }
    assert_eq!(unknown_command_message("x"), "unknown command `x` \u{2014} run `runner help`");
}

#[test]
fn editor_is_chosen_in_order() {
    assert_eq!(
        editor_choice(Some("code".into()), Some("vim".into()), None),
        Some(("code".to_string(), vec![]))
    );
    assert_eq!(
        editor_choice(None, Some("  subl  -w  ".into()), Some("nano".into())),
        Some(("subl".to_string(), vec!["-w".to_string()]))
    );
    assert_eq!(
        editor_choice(None, Some("   ".into()), Some("nano".into())),
        Some(("nano".to_string(), vec![]))
    );
    assert_eq!(editor_choice(None, Some("".into()), None), None);
    assert_eq!(editor_choice(None, None, None), None);
}

#[test]
fn notes_are_the_leading_comments() {
    let src = "// TODO: write it\n    // indented note\n\nuse std::thread;\n// not a note\n";
    assert_eq!(
        leading_notes(src),
        vec!["// TODO: write it".to_string(), "    // indented note".to_string(), "".to_string()]
    );
    let many: String = (0..60).map(|i| format!("// line {i}\n")).collect();
    assert_eq!(leading_notes(&many).len(), 50);

    let r = root();
    let file = path(&["/", "home", "me", "course", "exercises", "01_intro", "00_welcome", "src", "lib.rs"]);
    assert_eq!(
        notes_text(&r, &file, Some("// hi\nfn main() {}\n")),
        format!("{BOLD}Notes \u{2014} exercises/01_intro/00_welcome/src/lib.rs{RESET}\n{DIM}// hi{RESET}")
    );
    assert_eq!(
        notes_text(&r, &file, Some("fn main() {}\n")),
        format!("{BOLD}Notes \u{2014} exercises/01_intro/00_welcome/src/lib.rs{RESET}\n{DIM}(no leading notes in this file){RESET}")
    );
    assert_eq!(
        notes_text(&r, &file, None),
        format!("{DIM}(couldn't read /home/me/course/exercises/01_intro/00_welcome/src/lib.rs){RESET}")
    );
}

#[test]
fn build_and_run_outcomes() {
    assert_eq!(after_build(true, None, b"out".to_vec()), Some((false, b"out\n\ncompile timed out\n".to_vec())));
    assert_eq!(after_build(false, Some(101), b"err".to_vec()), Some((false, b"err".to_vec())));
    assert_eq!(after_build(false, None, b"err".to_vec()), Some((false, b"err".to_vec())));
    assert_eq!(after_build(false, Some(0), b"ok".to_vec()), None);
    assert_eq!(after_run(false, Some(0), b"ok".to_vec()), (true, b"ok".to_vec()));
    assert_eq!(after_run(false, Some(1), b"no".to_vec()), (false, b"no".to_vec()));
    let (ok, out) = after_run(true, Some(0), b"x".to_vec());
    assert!(!ok);
    assert_eq!(
        String::from_utf8(out).unwrap(),
        "x\n\n\x1b[31m\x1b[1mtimed out after 10s \u{2014} killed (the program didn't finish)\x1b[0m\n"
    );
}

#[test]
fn polling_the_test_process() {
    assert_eq!(poll_step(Some(Some(0)), 5, 10), PollStep::Exited(Some(0)));
    assert_eq!(poll_step(Some(None), 50, 10), PollStep::Exited(None));
    assert_eq!(poll_step(None, 9, 10), PollStep::Wait);
    assert_eq!(poll_step(None, 10, 10), PollStep::Kill);
}

#[test]
fn text_splitting_agrees_with_std() {
    let samples = [
        "",
        "a",
        "a\n",
        "a\nb",
        "a\r\nb\r\n",
        "a\r",
        "\n\n",
        "x\r\ny\rz\n\r\n",
        "  lead and trail \t",
        "\u{3000}wide\u{a0}space\u{2028}",
        "one  two\tthree\nfour",
        "\u{85}\u{1680}",
    ];
    for s in samples {
        let std_lines: Vec<String> = s.lines().map(String::from).collect();
        assert_eq!(lines(s), std_lines, "lines of {s:?}");
        assert_eq!(trim(s), s.trim(), "trim of {s:?}");
        assert_eq!(trim_start(s), s.trim_start(), "trim_start of {s:?}");
        let std_words: Vec<String> = s.split_whitespace().map(String::from).collect();
        assert_eq!(split_whitespace(s), std_words, "words of {s:?}");
    }
    for c in (0u32..0x3100).filter_map(char::from_u32) {
        assert_eq!(is_white_space(c), c.is_whitespace(), "white space {c:?}");
    }
}

#[test]
fn saved_record_loads_back() {
    let mut d = DoneSet::new();
    d.insert("exercises/02_basic/00_intro".into());
    d.insert("exercises/01_intro/00_welcome".into());
    let again = DoneSet::from_text(&d.to_text());
    assert_eq!(again.len(), 2);
    assert!(again.contains("exercises/02_basic/00_intro"));
    assert!(again.contains("exercises/01_intro/00_welcome"));
    // A key with white space around it comes back trimmed.
    let mut odd = DoneSet::new();
    odd.insert(" a".into());
    let back = DoneSet::from_text(&odd.to_text());
    assert!(back.contains("a"));
    assert!(!back.contains(" a"));
}

#[test]
fn ancestors_nearest_first() {
    let all: Vec<String> = ancestors(&path(&["/", "a", "b"])).iter().map(|p| p.render()).collect();
    assert_eq!(all, vec!["/a/b".to_string(), "/a".to_string(), "/".to_string()]);
    assert!(ancestors(&path(&[])).is_empty());
}

#[test]
fn outcomes_record_passes_and_stop_on_failure() {
    let mut done = DoneSet::new();
    assert_eq!(record_outcome(&mut done, "a".into(), true), OutcomeAction::SaveAndContinue);
    assert!(done.contains("a"));
    assert_eq!(record_outcome(&mut done, "b".into(), false), OutcomeAction::Stop);
    assert!(!done.contains("b"));
    assert_eq!(done.len(), 1);
}

#[test]
fn decimal_numbers() {
    assert_eq!(decimal_text(0), "0");
    assert_eq!(decimal_text(7), "7");
    assert_eq!(decimal_text(10), "10");
    assert_eq!(decimal_text(1203), "1203");
    assert_eq!(decimal_text(usize::MAX), usize::MAX.to_string());
}

#[test]
fn the_watch_screen() {
    let ex = exercises();
    let r = root();
    let mut st = WatchState::start(&r, &ex, done_of(&["exercises/01_intro/00_welcome"])).unwrap();
    st.record_run(true);
    let shown = String::from_utf8(screen(&r, &ex, &st, b"test output", "NOTES")).unwrap();
    assert_eq!(
        shown,
        "\x1b[1mexercise 2/3: exercises/01_intro/01_syntax\x1b[0m\n\n\
         test output\n\n\
         \x1b[32m\x1b[1m\u{2713} passed\x1b[0m \u{2014} press \x1b[1mn\x1b[0m for the next exercise\n\n\
         \x1b[2mprogress 1/3   \x1b[1mr\x1b[0m\x1b[2m:run  \x1b[1mn\x1b[0m:next  \x1b[1mh\x1b[0m:notes  \x1b[1ml\x1b[0m:list  \x1b[1mq\x1b[0m:quit\x1b[0m\n"
    );
    st.step(&r, &ex, &WatchEvent::Key(InputEvent::Hint));
    st.passed = false;
    let shown = String::from_utf8(screen(&r, &ex, &st, b"", "NOTES")).unwrap();
    assert!(shown.contains("\n\nNOTES\n\n\x1b[31m\x1b[1m\u{2717} failed\x1b[0m \u{2014} edit & save, or press \x1b[1mr\x1b[0m to re-run\n\n"));
}

#[test]
fn path_order_agrees_with_std() {
    let texts = [
        "/r/exercises/01_a/00_x",
        "/r/exercises/01_a",
        "/r/exercises/-b",
        "./-b",
        "./a",
        "../a",
        "-b",
        "a/b",
        "a-b/c",
        "/",
        "..",
        ".",
        "b",
    ];
    let to_parts = |t: &str| PathParts {
        parts: std::path::Path::new(t)
            .components()
            .map(|c| match c {
                std::path::Component::RootDir => "/".to_string(),
                std::path::Component::CurDir => ".".to_string(),
                std::path::Component::ParentDir => "..".to_string(),
                std::path::Component::Normal(s) => s.to_string_lossy().into_owned(),
                std::path::Component::Prefix(p) => p.as_os_str().to_string_lossy().into_owned(),
            })
            .collect(),
    };
    let mut std_sorted: Vec<std::path::PathBuf> = texts.iter().map(std::path::PathBuf::from).collect();
    std_sorted.sort();
    let expected: Vec<Vec<String>> = std_sorted.iter().map(|p| to_parts(p.to_str().unwrap()).parts).collect();
    let ours: Vec<Vec<String>> = sort_paths(texts.iter().map(|t| to_parts(t)).collect())
        .into_iter()
        .map(|p| p.parts)
        .collect();
    assert_eq!(ours, expected);
}

#[test]
fn keys_of_relative_paths_join_back() {
    assert_eq!(key_of(&path(&[]), &path(&[".", "exercises", "a"])), "./exercises/a");
    assert_eq!(key_of(&path(&[]), &path(&["/", "r", "a"])), "/r/a");
    let r = std::path::Path::new("/r");
    let key = key_of(&path(&["/", "r"]), &path(&["/", "r", "exercises", "01_intro", "00_welcome"]));
    assert_eq!(key, "exercises/01_intro/00_welcome");
    assert_eq!(r.join(&key), std::path::Path::new("/r/exercises/01_intro/00_welcome"));
}
