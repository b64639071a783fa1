//! The viewer in which scripts are opened.

use vstd::prelude::*;

use crate::script_view;
use crate::script_view::logical_base_name;
use crate::text;
use crate::text::{contains_string, same_text, words_of};

verus! {

/// Whether a program is an editor of the Vim family, by the name of its file.
pub open spec fn is_vim(program: Seq<char>) -> bool {
    let name = script_view::base_name(program);
    name == "vi"@ || name == "vim"@ || name == "nvim"@ || name == "view"@
}

/// A command that does not edit: one of the Vim family is told so.
pub open spec fn read_only(command: Seq<Seq<char>>) -> Seq<Seq<char>> {
    if command.len() > 0 && is_vim(command[0]) && !command.contains("-R"@) {
        command.push("-R"@)
    } else {
        command
    }
}

/// The words of the first setting that has any.
pub open spec fn chosen(settings: Seq<Seq<char>>) -> Option<Seq<Seq<char>>>
    decreases settings.len(),
{
    if settings.len() == 0 {
        None
    } else if text::words(settings[0]).len() > 0 {
        Some(text::words(settings[0]))
    } else {
        chosen(settings.drop_first())
    }
}

/// The commands that are tried where no viewer is set.
pub open spec fn default_viewers() -> Seq<Seq<Seq<char>>> {
    seq![seq!["view"@], seq!["vim"@, "-R"@], seq!["vi"@, "-R"@], seq!["less"@]]
}

/// The commands to try, in order.
pub open spec fn viewers(settings: Seq<Seq<char>>) -> Seq<Seq<Seq<char>>> {
    match chosen(settings) {
        Some(command) => seq![read_only(command)],
        None => default_viewers(),
    }
}

/// The views of commands.
pub open spec fn command_views(v: Seq<Vec<String>>) -> Seq<Seq<Seq<char>>> {
    v.map_values(|c: Vec<String>| text::views(c@))
}

/// A command of one or two words.
fn command(program: &str, flag: Option<&str>) -> (c: Vec<String>)
    ensures
        text::views(c@) == match flag {
            Some(f) => seq![program@, f@],
            None => seq![program@],
        },
{
    let mut c: Vec<String> = Vec::new();
    c.push(program.to_owned());
    if let Some(f) = flag {
        c.push(f.to_owned());
        assert(text::views(c@) =~= seq![program@, f@]);
    } else {
        assert(text::views(c@) =~= seq![program@]);
    }
    c
}

/// The commands to try for viewing a file, in order: that of the first of
/// `settings` that is set, or else the usual ones. An editor of the Vim family
/// is opened read-only.
pub fn viewer_commands(settings: &Vec<String>) -> (commands: Vec<Vec<String>>)
    ensures
        command_views(commands@) == viewers(text::views(settings@)),
{
    let ghost all = text::views(settings@);
    let mut commands: Vec<Vec<String>> = Vec::new();
    let mut i: usize = 0;
    assert(all.skip(0) =~= all);
    while i < settings.len()
        invariant
            i <= settings@.len(),
            all == text::views(settings@),
            commands@.len() == 0,
            chosen(all) == chosen(all.skip(i as int)),
        decreases settings@.len() - i,
    {
        let mut words: Vec<String> = words_of(settings[i].as_str());
        let ghost found = text::views(words@);
        proof {
            assert(all.skip(i as int)[0] == settings@[i as int]@);
            assert(all.skip(i as int).drop_first() =~= all.skip(i + 1));
            assert(found.len() == words@.len());
        }
        if words.len() > 0 {
            let name: String = logical_base_name(words[0].as_str());
            assert(found[0] == words@[0]@);
            let vim: bool = same_text(name.as_str(), "vi") || same_text(name.as_str(), "vim")
                || same_text(name.as_str(), "nvim") || same_text(name.as_str(), "view");
            if vim && !contains_string(&words, "-R") {
                words.push("-R".to_owned());
                assert(text::views(words@) =~= found.push("-R"@));
            }
            assert(text::views(words@) == read_only(found));
            commands.push(words);
            assert(command_views(commands@) =~= seq![read_only(found)]);
            return commands;
        }
        i = i + 1;
    }
    commands.push(command("view", None));
    commands.push(command("vim", Some("-R")));
    commands.push(command("vi", Some("-R")));
    commands.push(command("less", None));
    assert(command_views(commands@) =~= default_viewers());
    commands
}

/// A viewer is set by the first setting with a word in it, and its words are the
/// command; without one, other viewers are tried.
pub proof fn law_the_first_setting_decides(settings: Seq<Seq<char>>, k: int)
    requires
        0 <= k <= settings.len(),
        forall|i: int| 0 <= i < k ==> text::words(#[trigger] settings[i]).len() == 0,
    ensures
        k < settings.len() && text::words(settings[k]).len() > 0 ==> chosen(settings) == Some(
            text::words(settings[k]),
        ),
        k == settings.len() ==> chosen(settings) is None && viewers(settings).len() > 1,
        k < settings.len() && text::words(settings[k]).len() > 0 ==> viewers(settings).len() == 1,
    decreases k,
{
    if k > 0 {
        let rest = settings.drop_first();
        assert(text::words(settings[0]).len() == 0);
        assert forall|i: int| 0 <= i < k - 1 implies text::words(#[trigger] rest[i]).len() == 0 by {
            assert(rest[i] == settings[i + 1]);
        }
        if k < settings.len() {
            assert(rest[k - 1] == settings[k]);
        }
        law_the_first_setting_decides(rest, k - 1);
    }
}

/// A command starts as it was set, and one of the Vim family is told not to
/// edit.
pub proof fn law_viewers_do_not_edit(command: Seq<Seq<char>>)
    requires
        command.len() > 0,
    ensures
        command.is_prefix_of(read_only(command)),
        ({
            let name = script_view::base_name(command[0]);
            name == "vi"@ || name == "vim"@ || name == "nvim"@ || name == "view"@ ==> read_only(
                command,
            ).contains("-R"@)
        }),
        !is_vim(command[0]) ==> read_only(command) == command,
{
    let all = read_only(command);
    assert(all.take(command.len() as int) =~= command);
    if all != command {
        assert(all[command.len() as int] == "-R"@);
    }
}

} // verus!
