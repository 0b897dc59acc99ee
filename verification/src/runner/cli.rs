//! The runner's command line, its choice of editor, and the notes shown
//! for an exercise.

use vstd::prelude::*;
use crate::runner::paths::{key_of, key_spec, render_path, PathParts};
use crate::text::{join_texts, join_with, same_text, starts_with_text};
use crate::split::{lines, split_whitespace, text_lines, text_trim_start, text_words, trim_start};

verus! {

/// Terminal escape: green text.
pub const GREEN: &'static str = "\x1b[32m";
/// Terminal escape: red text.
pub const RED: &'static str = "\x1b[31m";
/// Terminal escape: bold text.
pub const BOLD: &'static str = "\x1b[1m";
/// Terminal escape: dim text.
pub const DIM: &'static str = "\x1b[2m";
/// Terminal escape: back to plain text.
pub const RESET: &'static str = "\x1b[0m";

/// The most notes lines shown for an exercise.
pub const MAX_NOTE_LINES: usize = 50;

/// A subcommand of the runner.
#[derive(Debug)]
pub enum CliCommand {
    /// Interactive watch mode (also when no subcommand is given).
    Watch,
    /// Run one exercise once.
    Run,
    /// List all exercises with their progress.
    List,
    /// Clear progress.
    Reset,
    /// Run every exercise, stopping at the first failure.
    CheckAll,
    /// Show the usage.
    Help,
    /// Any other word.
    Unknown(String),
}

/// The subcommand that the first argument names.
pub open spec fn command_named(cmd: Option<Seq<char>>) -> CliCommandKind {
    match cmd {
        None => CliCommandKind::Watch,
        Some(c) => if c == "watch"@ {
            CliCommandKind::Watch
        } else if c == "run"@ {
            CliCommandKind::Run
        } else if c == "list"@ || c == "ls"@ {
            CliCommandKind::List
        } else if c == "reset"@ {
            CliCommandKind::Reset
        } else if c == "check-all"@ {
            CliCommandKind::CheckAll
        } else if c == "help"@ || c == "-h"@ || c == "--help"@ {
            CliCommandKind::Help
        } else {
            CliCommandKind::Unknown
        },
    }
}

/// The kinds of subcommand, as a value of the contracts.
pub enum CliCommandKind {
    Watch,
    Run,
    List,
    Reset,
    CheckAll,
    Help,
    Unknown,
}

/// The kind of a parsed subcommand.
pub open spec fn kind_of(c: CliCommand) -> CliCommandKind {
    match c {
        CliCommand::Watch => CliCommandKind::Watch,
        CliCommand::Run => CliCommandKind::Run,
        CliCommand::List => CliCommandKind::List,
        CliCommand::Reset => CliCommandKind::Reset,
        CliCommand::CheckAll => CliCommandKind::CheckAll,
        CliCommand::Help => CliCommandKind::Help,
        CliCommand::Unknown(_) => CliCommandKind::Unknown,
    }
}

/// The table of subcommand words, spelled out character by character: no
/// word is `watch`, as is the word `watch`; `run`; `list` and `ls`;
/// `reset`; `check-all`; `help`, `-h` and `--help`; every other word is
/// unknown.
pub proof fn lemma_command_words(w: Seq<char>)
    ensures
        command_named(None) == CliCommandKind::Watch,
        command_named(Some(w)) == CliCommandKind::Watch <==> w == seq!['w', 'a', 't', 'c', 'h'],
        command_named(Some(w)) == CliCommandKind::Run <==> w == seq!['r', 'u', 'n'],
        command_named(Some(w)) == CliCommandKind::List <==> (w == seq!['l', 'i', 's', 't'] || w == seq!['l', 's']),
        command_named(Some(w)) == CliCommandKind::Reset <==> w == seq!['r', 'e', 's', 'e', 't'],
        command_named(Some(w)) == CliCommandKind::CheckAll
            <==> w == seq!['c', 'h', 'e', 'c', 'k', '-', 'a', 'l', 'l'],
        command_named(Some(w)) == CliCommandKind::Help <==> (w == seq!['h', 'e', 'l', 'p'] || w == seq!['-', 'h']
            || w == seq!['-', '-', 'h', 'e', 'l', 'p']),
        command_named(Some(w)) == CliCommandKind::Unknown <==> !(w == seq!['w', 'a', 't', 'c', 'h']
            || w == seq!['r', 'u', 'n'] || w == seq!['l', 'i', 's', 't'] || w == seq!['l', 's']
            || w == seq!['r', 'e', 's', 'e', 't'] || w == seq!['c', 'h', 'e', 'c', 'k', '-', 'a', 'l', 'l']
            || w == seq!['h', 'e', 'l', 'p'] || w == seq!['-', 'h'] || w == seq!['-', '-', 'h', 'e', 'l', 'p']),
{
    reveal_strlit("watch");
    reveal_strlit("run");
    reveal_strlit("list");
    reveal_strlit("ls");
    reveal_strlit("reset");
    reveal_strlit("check-all");
    reveal_strlit("help");
    reveal_strlit("-h");
    reveal_strlit("--help");
    assert("watch"@ =~= seq!['w', 'a', 't', 'c', 'h']);
    assert("run"@ =~= seq!['r', 'u', 'n']);
    assert("list"@ =~= seq!['l', 'i', 's', 't']);
    assert("ls"@ =~= seq!['l', 's']);
    assert("reset"@ =~= seq!['r', 'e', 's', 'e', 't']);
    assert("check-all"@ =~= seq!['c', 'h', 'e', 'c', 'k', '-', 'a', 'l', 'l']);
    assert("help"@ =~= seq!['h', 'e', 'l', 'p']);
    assert("-h"@ =~= seq!['-', 'h']);
    assert("--help"@ =~= seq!['-', '-', 'h', 'e', 'l', 'p']);
}

/// Reads the subcommand from the first argument: none or `watch`, `run`,
/// `list` or `ls`, `reset`, `check-all`, `help` or `-h` or `--help`; any
/// other word is kept as unknown.
pub fn parse_command(cmd: Option<&str>) -> (res: CliCommand)
    ensures
        kind_of(res) == command_named(match cmd { Some(c) => Some(c@), None => None }),
        res matches CliCommand::Unknown(w) ==> cmd matches Some(c) && w@ == c@,
{
    match cmd {
        None => CliCommand::Watch,
        Some(c) => {
            if same_text(c, "watch") {
                CliCommand::Watch
            } else if same_text(c, "run") {
                CliCommand::Run
            } else if same_text(c, "list") || same_text(c, "ls") {
                CliCommand::List
            } else if same_text(c, "reset") {
                CliCommand::Reset
            } else if same_text(c, "check-all") {
                CliCommand::CheckAll
            } else if same_text(c, "help") || same_text(c, "-h") || same_text(c, "--help") {
                CliCommand::Help
            } else {
                CliCommand::Unknown(c.to_owned())
            }
        },
    }
}

/// The message for an unknown subcommand.
pub fn unknown_command_message(word: &str) -> (res: String)
    ensures
        res@ == "unknown command `"@ + word@ + "` \u{2014} run `runner help`"@,
{
    let mut msg = String::from_str("unknown command `");
    msg.append(word);
    msg.append("` \u{2014} run `runner help`");
    msg
}

/// The editor command that an environment value names: its first word is
/// the program and the other words its arguments; none for an absent
/// value, an empty one, or one of white space only.
pub open spec fn editor_in(value: Option<Seq<char>>) -> Option<(Seq<char>, Seq<Seq<char>>)> {
    match value {
        None => None,
        Some(v) => if v.len() > 0 && text_words(v).len() > 0 {
            Some((text_words(v)[0], text_words(v).drop_first()))
        } else {
            None
        },
    }
}

/// The view of an editor command.
pub open spec fn editor_view(e: Option<(String, Vec<String>)>) -> Option<(Seq<char>, Seq<Seq<char>>)> {
    match e {
        None => None,
        Some((p, args)) => Some((p@, args.deep_view())),
    }
}

/// The view of an optional text.
pub open spec fn opt_view(s: Option<String>) -> Option<Seq<char>> {
    match s {
        None => None,
        Some(v) => Some(v@),
    }
}

/// The editor command in one environment value.
fn editor_from_value(value: Option<String>) -> (res: Option<(String, Vec<String>)>)
    ensures
        editor_view(res) == editor_in(opt_view(value)),
{
    match value {
        None => None,
        Some(v) => {
            if v.as_str().is_empty() {
                return None;
            }
            let mut words = split_whitespace(v.as_str());
            if words.len() == 0 {
                return None;
            }
            let ghost all = words.deep_view();
            let program = words.remove(0);
            assert(words.deep_view() =~= all.drop_first());
            Some((program, words))
        },
    }
}

/// The editor to open exercises in: the editor program found for a VS Code
/// terminal, if any, without arguments; else the command in `$VISUAL`;
/// else the one in `$EDITOR`; else none.
pub fn editor_choice(vscode_program: Option<String>, visual: Option<String>, editor: Option<String>) -> (res: Option<(String, Vec<String>)>)
    ensures
        editor_view(res) == match vscode_program {
            Some(p) => Some((p@, Seq::<Seq<char>>::empty())),
            None => match editor_in(opt_view(visual)) {
                Some(e) => Some(e),
                None => editor_in(opt_view(editor)),
            },
        },
{
    match vscode_program {
        Some(p) => {
            let args: Vec<String> = Vec::new();
            assert(args.deep_view() =~= Seq::<Seq<char>>::empty());
            Some((p, args))
        },
        None => match editor_from_value(visual) {
            Some(e) => Some(e),
            None => editor_from_value(editor),
        },
    }
}

/// Whether a source line belongs to the leading notes: after leading white
/// space it is empty or a `//` comment.
pub open spec fn is_note_line(line: Seq<char>) -> bool {
    let t = text_trim_start(line);
    t.len() == 0 || (t.len() >= 2 && t[0] == '/' && t[1] == '/')
}

/// How many lines, from position `i` on, are note lines in a row.
pub open spec fn note_run(ls: Seq<Seq<char>>, i: int) -> nat
    decreases ls.len() - i,
{
    if i < 0 || i >= ls.len() || !is_note_line(ls[i]) {
        0
    } else {
        1 + note_run(ls, i + 1)
    }
}

/// The leading notes of a source text: its first lines while they are note
/// lines, at most `MAX_NOTE_LINES` of them.
pub open spec fn leading_notes_of(content: Seq<char>) -> Seq<Seq<char>> {
    let ls = text_lines(content);
    let n = note_run(ls, 0);
    ls.take(if n < MAX_NOTE_LINES { n as int } else { MAX_NOTE_LINES as int })
}

/// From position `i` on, the run of note lines covers the lines it counts,
/// and ends at the end or at a line that is not a note line.
proof fn lemma_note_run(ls: Seq<Seq<char>>, i: int)
    requires
        0 <= i <= ls.len(),
    ensures
        i + note_run(ls, i) <= ls.len(),
        forall|j: int| i <= j < i + note_run(ls, i) ==> #[trigger] is_note_line(ls[j]),
        i + note_run(ls, i) < ls.len() ==> !is_note_line(ls[i + note_run(ls, i)]),
    decreases ls.len() - i,
{
    if i < ls.len() && is_note_line(ls[i]) {
        lemma_note_run(ls, i + 1);
    }
}

/// The leading notes are the first lines of the text, at most
/// `MAX_NOTE_LINES` of them, each empty after its leading white space or a
/// `//` comment; they stop early only at the end of the text or before a
/// line that is neither.
pub proof fn lemma_leading_notes_shape(content: Seq<char>)
    ensures
        ({
            let ls = text_lines(content);
            let notes = leading_notes_of(content);
            &&& notes.len() <= MAX_NOTE_LINES
            &&& notes.len() <= ls.len()
            &&& notes == ls.take(notes.len() as int)
            &&& forall|i: int| 0 <= i < notes.len() ==> {
                let t = text_trim_start(#[trigger] notes[i]);
                t.len() == 0 || (t.len() >= 2 && t[0] == '/' && t[1] == '/')
            }
            &&& (notes.len() < MAX_NOTE_LINES && notes.len() < ls.len()) ==> {
                let t = text_trim_start(ls[notes.len() as int]);
                !(t.len() == 0 || (t.len() >= 2 && t[0] == '/' && t[1] == '/'))
            }
        }),
{
    let ls = text_lines(content);
    lemma_note_run(ls, 0);
    let notes = leading_notes_of(content);
    assert forall|i: int| 0 <= i < notes.len() implies is_note_line(#[trigger] notes[i]) by {
        assert(notes[i] == ls[i]);
        assert(is_note_line(ls[i]));
    }
}

/// The leading notes of a source text.
pub fn leading_notes(content: &str) -> (res: Vec<String>)
    ensures
        res.deep_view() == leading_notes_of(content@),
{
    let all = lines(content);
    let ghost ls = all.deep_view();
    let mut notes: Vec<String> = Vec::new();
    let mut i: usize = 0;
    let mut stopped = false;
    while i < all.len() && !stopped
        invariant
            ls == all.deep_view(),
            ls == text_lines(content@),
            i <= ls.len(),
            i <= MAX_NOTE_LINES,
            notes.deep_view() == ls.take(i as int),
            note_run(ls, 0) == i + note_run(ls, i as int),
            stopped ==> note_run(ls, i as int) == 0 || i == MAX_NOTE_LINES,
        decreases ls.len() - i, if stopped { 0int } else { 1int },
    {
        let t = trim_start(all[i].as_str());
        let note = t.is_empty() || starts_with_text(t, "//");
        proof {
            reveal_strlit("//");
            assert("//"@ =~= seq!['/', '/']);
            if t@.len() >= 2 {
                assert(t@.subrange(0, 2) =~= seq![t@[0], t@[1]]);
            }
            assert(note == is_note_line(ls[i as int]));
        }
        if !note || notes.len() >= MAX_NOTE_LINES {
            stopped = true;
        } else {
            let ghost before = notes.deep_view();
            notes.push(all[i].clone());
            assert(notes.deep_view() =~= before.push(ls[i as int]));
            assert(notes.deep_view() =~= ls.take(i + 1));
            i = i + 1;
        }
    }
    notes
}

/// The notes shown for an exercise whose primary source is `source`:
/// a title with its path relative to the root, then its leading notes, dimmed;
/// a dimmed message when the source could not be read (`content` is none)
/// or has no leading notes.
pub fn notes_text(root: &PathParts, source: &PathParts, content: Option<&str>) -> (res: String)
    ensures
        match content {
            None => res@ == DIM@ + "(couldn't read "@ + render_path(source@) + ")"@ + RESET@,
            Some(c) => {
                let notes = leading_notes_of(c@);
                let title = BOLD@ + "Notes \u{2014} "@ + key_spec(root@, source@) + RESET@ + "\n"@ + DIM@;
                if notes.len() == 0 {
                    res@ == title + "(no leading notes in this file)"@ + RESET@
                } else {
                    res@ == title + join_texts(notes, "\n"@) + RESET@
                }
            },
        },
{
    match content {
        None => {
            let mut s = String::from_str(DIM);
            s.append("(couldn't read ");
            let shown = source.render();
            s.append(shown.as_str());
            s.append(")");
            s.append(RESET);
            s
        },
        Some(c) => {
            let notes = leading_notes(c);
            let label = key_of(root, source);
            let mut s = String::from_str(BOLD);
            s.append("Notes \u{2014} ");
            s.append(label.as_str());
            s.append(RESET);
            s.append("\n");
            s.append(DIM);
            if notes.len() == 0 {
                s.append("(no leading notes in this file)");
            } else {
                let body = join_with(notes.as_slice(), "\n");
                s.append(body.as_str());
            }
            s.append(RESET);
            s
        },
    }
}

} // verus!
