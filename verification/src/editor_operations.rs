//! What commands and settings come to, whatever is asked for.

use crate::clipboard;
use crate::clipboard::{Platform, ProcessClipboard, Ran};
use crate::colour;
use crate::colour::Color;
use crate::config;
use crate::config::{Config, ConfigError, FileConfig, ReadOutcome};
use crate::editor;
use crate::editor::{TemplateError, Templates, UnknownFlavour};
use crate::editor_laws;
use crate::path;
use crate::settings_laws;
use crate::text;
use vstd::prelude::*;

verus! {

/// A command is its template's arguments, each filled in for itself, and a
/// template that cannot be split is refused for the same.
pub proof fn what_a_command_is(
    template: &str,
    project: &str,
    file: &str,
    line: usize,
    split: Result<Vec<String>, TemplateError>,
    command: Result<Vec<String>, TemplateError>,
    i: int,
)
    requires
        call_ensures(editor::split_template, (template,), split),
        call_ensures(editor::editor_command, (template, project, file, line), command),
    ensures
        command is Ok <==> split is Ok,
        split is Err ==> command == split,
        split is Ok ==> {
            &&& split->Ok_0@.len() > 0
            &&& command->Ok_0@.len() == split->Ok_0@.len()
            &&& 0 <= i < split->Ok_0@.len() ==> command->Ok_0@[i]@ == editor::filled(
                split->Ok_0@[i]@,
                0,
                project@,
                file@,
                text::decimal(line as nat),
            )
        },
{
    if split is Ok {
        let argv = text::texts(split->Ok_0@);
        let out = text::texts(command->Ok_0@);
        assert(argv.len() == split->Ok_0@.len());
        assert(out.len() == command->Ok_0@.len());
        if 0 <= i < argv.len() {
            assert(argv[i] == split->Ok_0@[i]@);
            assert(out[i] == command->Ok_0@[i]@);
        }
    }
}

/// However arguments are written, splitting gives what they mean.
pub proof fn what_splitting_gives(
    template: &str,
    split: Result<Vec<String>, TemplateError>,
    space: Seq<char>,
    words: Seq<editor_laws::Word>,
    last: Seq<editor_laws::Bit>,
)
    requires
        call_ensures(editor::split_template, (template,), split),
        text::blank(space),
        editor_laws::words_stand(words),
        editor_laws::bits_stand(last),
        last.len() > 0,
        template@ == space + (editor_laws::words_written(words) + (editor_laws::bits_written(last)
            + Seq::<char>::empty())),
    ensures
        split is Ok,
        text::texts(split->Ok_0@) == editor_laws::words_meant(words).push(
            editor_laws::bits_meant(last),
        ),
{
    editor_laws::how_a_template_is_split(space, words, last, false);
    assert(editor_laws::bits_meant(last) + Seq::<char>::empty() =~= editor_laws::bits_meant(last));
}

/// Arguments that are joined and split again come back.
pub proof fn what_is_joined_is_split(
    argv: Vec<String>,
    template: String,
    again: &str,
    split: Result<Vec<String>, TemplateError>,
)
    requires
        argv@.len() > 0,
        call_ensures(editor::shell_join, (&argv,), template),
        again@ == template@,
        call_ensures(editor::split_template, (again,), split),
    ensures
        split is Ok,
        text::texts(split->Ok_0@) == text::texts(argv@),
{
    editor::splitting_undoes_joining(text::texts(argv@));
}

/// A command is a program, its first argument, and the others in order; there is
/// none in no arguments.
pub proof fn what_a_program_is(
    argv: Vec<String>,
    command: Result<(String, Vec<String>), String>,
    i: int,
)
    requires
        call_ensures(editor::program_of, (&argv,), command),
    ensures
        argv@.len() == 0 ==> command is Err && command->Err_0@ == "empty editor command"@,
        argv@.len() > 0 ==> {
            &&& command is Ok
            &&& command->Ok_0.0@ == argv@[0]@
            &&& command->Ok_0.1@.len() == argv@.len() - 1
            &&& 0 < i < argv@.len() ==> command->Ok_0.1@[i - 1]@ == argv@[i]@
        },
{
    if argv@.len() > 0 {
        let all = text::texts(argv@);
        let rest = text::texts(command->Ok_0.1@);
        assert(all.len() == argv@.len());
        assert(rest.len() == command->Ok_0.1@.len());
        if 0 < i < argv@.len() {
            assert(all[i] == argv@[i]@);
            assert(all.skip(1)[i - 1] == all[i]);
            assert(rest[i - 1] == command->Ok_0.1@[i - 1]@);
        }
    }
}

/// Which templates are used.
pub proof fn what_resolving_gives(
    project: Option<&str>,
    file: Option<&str>,
    visual: Option<&str>,
    editor: Option<&str>,
    templates: Templates,
)
    requires
        call_ensures(Templates::resolve, (project, file, visual, editor), templates),
    ensures
        project is Some ==> templates.project@ == project->Some_0@,
        file is Some ==> templates.file@ == file->Some_0@,
        project is None && editor_laws::says_more(text::option_str(visual)) ==> ({
            let value = visual->Some_0@;
            templates.project@ == if value.contains('{') {
                value
            } else {
                value + " {file}"@
            }
        }),
        project is None && file is None && editor_laws::says_more(text::option_str(visual))
            ==> templates.file@ == templates.project@,
        project is None && !editor_laws::says_more(text::option_str(visual))
            && editor_laws::says_more(text::option_str(editor)) ==> ({
            let value = editor->Some_0@;
            templates.project@ == if value.contains('{') {
                value
            } else {
                value + " {file}"@
            }
        }),
        project is None && !editor_laws::says_more(text::option_str(visual))
            && !editor_laws::says_more(text::option_str(editor)) ==> templates.project@
            == "zed {project} {file}:{line}"@,
        project is None && file is None && !editor_laws::says_more(text::option_str(visual))
            && !editor_laws::says_more(text::option_str(editor)) ==> templates.file@
            == "zed {file}:{line}"@,
{
    let (a, b) = (text::option_str(visual), text::option_str(editor));
    editor_laws::which_editor_the_environment_names(a, b);
    editor_laws::which_templates_are_used(
        text::option_str(project),
        text::option_str(file),
        editor::environment_template(a, b),
    );
}

/// What is to be said of a program that ended.
pub proof fn what_is_said_of_a_program(
    program: &str,
    succeeded: bool,
    status: &str,
    message: Option<String>,
    ran: Ran,
    outcome: Result<(), String>,
)
    requires
        call_ensures(editor::outcome_of, (program, succeeded, status), message),
        call_ensures(clipboard::copied, (program, ran), outcome),
    ensures
        succeeded <==> message is None,
        message is Some ==> message->Some_0@ == program@ + " exited with "@ + status@,
        outcome is Ok <==> ran is Succeeded,
        ran matches Ran::Failed(why) ==> outcome->Err_0@ == why@,
        ran matches Ran::Ended(how) ==> outcome->Err_0@ == program@ + " exited with "@ + how@,
{
}

/// What is printed for a flavour: its two templates, each under its own key.
pub proof fn what_is_printed(
    flavour: &str,
    terminal: Option<&str>,
    printed: Result<String, UnknownFlavour>,
    i: int,
)
    requires
        call_ensures(editor::print_editor_config, (flavour, terminal), printed),
        0 <= i < editor::FLAVOUR_COUNT,
        forall|j: int|
            0 <= j < i ==> (#[trigger] editor::FLAVOURS[j]).0@ != editor::FLAVOURS[i].0@,
        flavour@ == editor::FLAVOURS[i].0@,
        flavour@ != "auto"@,
    ensures
        printed is Ok,
        ({
            let text = printed->Ok_0@;
            let end = "[editor]\nproject = "@ + editor::toml_text(editor::FLAVOURS[i].1@)
                + "\nfile = "@ + editor::toml_text(editor::FLAVOURS[i].2@) + "\n"@;
            text.len() >= end.len() && text.skip(text.len() - end.len()) == end
        }),
{
    reveal_strlit("[editor]\nproject = ");
    reveal_strlit(
        ")\n# Paste into ~/.config/recon/config.toml — recon never writes it for you.\n# {project} = project root, {file} = the file, {line} = the cursor's line.\n[editor]\nproject = ",
    );
    let wanted = flavour@;
    assert(editor::FLAVOURS[i].0@ == wanted);
    if printed is Ok {
        let k = choose|k: int|
            {
                &&& 0 <= k < editor::FLAVOUR_COUNT
                &&& #[trigger] editor::FLAVOURS[k].0@ == wanted
                &&& forall|j: int| 0 <= j < k ==> #[trigger] editor::FLAVOURS[j].0@ != wanted
                &&& printed->Ok_0@ == editor::stanza(
                    wanted,
                    editor::FLAVOURS[k].1@,
                    editor::FLAVOURS[k].2@,
                )
            };
        if k < i {
            assert(editor::FLAVOURS[k].0@ != editor::FLAVOURS[i].0@);
        }
        if i < k {
            assert(editor::FLAVOURS[i].0@ != wanted);
        }
        let head = "# recon editor templates ("@ + wanted
            + ")\n# Paste into ~/.config/recon/config.toml — recon never writes it for you.\n# {project} = project root, {file} = the file, {line} = the cursor's line.\n[editor]\nproject = "@;
        let middle =
            ")\n# Paste into ~/.config/recon/config.toml — recon never writes it for you.\n# {project} = project root, {file} = the file, {line} = the cursor's line.\n[editor]\nproject = "@;
        let key = "[editor]\nproject = "@;
        assert(middle.skip(middle.len() - key.len()) =~= key);
        assert(head.skip(head.len() - key.len()) =~= key) by {
            assert(head.skip(head.len() - key.len()) =~= middle.skip(middle.len() - key.len()));
        }
        let tail = editor::toml_text(editor::FLAVOURS[i].1@) + "\nfile = "@ + editor::toml_text(
            editor::FLAVOURS[i].2@,
        ) + "\n"@;
        let text = printed->Ok_0@;
        assert(text =~= head + tail);
        let end = key + editor::toml_text(editor::FLAVOURS[i].1@) + "\nfile = "@
            + editor::toml_text(editor::FLAVOURS[i].2@) + "\n"@;
        assert(end =~= key + tail);
        assert(text.skip(text.len() - end.len()) =~= head.skip(head.len() - key.len()) + tail);
    }
}

/// The project of a path is the deepest directory on the way up that holds a
/// marker, where what is there does not change, and where the walk began where
/// none does.
pub proof fn which_project_is_found<F: Fn(&Vec<u8>) -> bool>(
    path: &[u8],
    cwd: Option<&Vec<u8>>,
    is_dir: bool,
    asked: F,
    present: spec_fn(Seq<u8>) -> bool,
    root: Vec<u8>,
)
    requires
        call_ensures(editor::project_root, (path, cwd, is_dir, asked), root),
        forall|path: Vec<u8>, answer: bool| #[trigger]
            call_ensures(asked, (&path,), answer) ==> answer == present(path@),
    ensures
        path@.len() == 0 ==> root@.len() == 0,
        path@.len() > 0 ==> {
            let from_root = path@[0] == 47 || cwd is Some;
            let start = editor::walk_parts(path@, cwd, is_dir);
            exists|depth: int|
                {
                    &&& 0 <= depth <= start.len()
                    &&& root@ == path::rendered(from_root, #[trigger] start.take(depth))
                    &&& editor_laws::holds_a_marker(present, from_root, start.take(depth)) || (depth
                        == start.len() && forall|any: int|
                        0 <= any <= start.len() ==> !editor_laws::holds_a_marker(
                            present,
                            from_root,
                            #[trigger] start.take(any),
                        ))
                    &&& forall|nearer: int|
                        depth < nearer <= start.len() ==> !editor_laws::holds_a_marker(
                            present,
                            from_root,
                            #[trigger] start.take(nearer),
                        )
                }
        },
{
    if path@.len() > 0 {
        editor_laws::where_the_project_is(
            asked,
            present,
            path::rooted(path@) || cwd is Some,
            editor::walk_parts(path@, cwd, is_dir),
            root@,
        );
    }
}

/// The command that copies is the configured one, or the system's where that
/// says nothing.
pub proof fn which_command_is_run(
    template: &str,
    clipboard: ProcessClipboard,
    platform: Platform,
    wayland: bool,
    argv: Result<Vec<String>, TemplateError>,
    used: &str,
    split: Result<Vec<String>, TemplateError>,
)
    requires
        call_ensures(ProcessClipboard::new, (template,), clipboard),
        call_ensures(ProcessClipboard::argv, (&clipboard, platform, wayland), argv),
        used@ == if exists|i: int|
            0 <= i < template@.len() && !text::whitespace(#[trigger] template@[i]) {
            template@
        } else {
            match platform {
                Platform::MacOs => "pbcopy"@,
                Platform::Windows => "clip"@,
                Platform::Other => if wayland {
                    "wl-copy"@
                } else {
                    "xclip -selection clipboard"@
                },
            }
        },
        call_ensures(editor::split_template, (used,), split),
    ensures
        argv is Ok <==> split is Ok,
        argv is Ok ==> text::texts(argv->Ok_0@) == text::texts(split->Ok_0@),
        argv is Err ==> argv->Err_0 == split->Err_0,
{
    settings_laws::which_command_copies(clipboard, platform, wayland);
}

/// A file fills in what is not set yet, each setting from its own key, and
/// changes nothing that is.
pub proof fn what_a_file_fills_in(settings: &mut Config, file: FileConfig)
    requires
        call_ensures(Config::apply, (settings, &file), ()),
    ensures
        final(settings).path == old(settings).path,
        final(settings).print_editor_config == old(settings).print_editor_config,
        old(settings).editor is Some ==> text::option_text(final(settings).editor)
            == text::option_text(old(settings).editor),
        old(settings).file_editor is Some ==> text::option_text(final(settings).file_editor)
            == text::option_text(old(settings).file_editor),
        old(settings).filter_palette is Some ==> colour::option_colours(
            final(settings).filter_palette,
        ) == colour::option_colours(old(settings).filter_palette),
        old(settings).editor is None ==> text::option_text(final(settings).editor)
            == if file.editor is Some {
            text::option_text(file.editor->Some_0.project)
        } else {
            None
        },
        old(settings).file_editor is None ==> text::option_text(final(settings).file_editor)
            == if file.editor is Some {
            text::option_text(file.editor->Some_0.file)
        } else {
            None
        },
        old(settings).filter_palette is None ==> colour::option_colours(
            final(settings).filter_palette,
        ) == if file.filters is Some {
            colour::option_colours(file.filters->Some_0.palette)
        } else {
            None
        },
{
}

/// The templates of settings are those that their own two and the environment
/// resolve to.
pub proof fn which_templates_settings_give(
    settings: Config,
    visual: Option<&str>,
    editor: Option<&str>,
    templates: Templates,
    project: Option<&str>,
    file: Option<&str>,
    resolved: Templates,
)
    requires
        call_ensures(Config::editor_templates, (&settings, visual, editor), templates),
        text::option_str(project) == text::option_text(settings.editor),
        text::option_str(file) == text::option_text(settings.file_editor),
        call_ensures(Templates::resolve, (project, file, visual, editor), resolved),
    ensures
        templates.project@ == resolved.project@,
        templates.file@ == resolved.file@,
{
}

/// A palette is taken just where it has a colour and every spelling stands for
/// one; no palette is no palette.
pub proof fn what_a_palette_gives(
    spellings: Option<Vec<String>>,
    palette: Result<Option<Vec<Color>>, String>,
    i: int,
)
    requires
        call_ensures(config::non_empty_palette, (spellings,), palette),
    ensures
        spellings is None ==> palette matches Ok(None),
        spellings is Some ==> {
            let given = spellings->Some_0@;
            &&& palette is Ok <==> given.len() > 0 && forall|k: int|
                0 <= k < given.len() ==> colour::spelled_colour((#[trigger] given[k])@) is Some
            &&& palette is Ok ==> palette->Ok_0 is Some && palette->Ok_0->Some_0@.len() == given.len()
            &&& palette is Ok && 0 <= i < given.len() ==> colour::spelled_colour(given[i]@) == Some(
                palette->Ok_0->Some_0@[i],
            )
            &&& given.len() == 0 ==> palette->Err_0@
                == "[filters] palette needs at least one colour; omit the key entirely to use recon's built-in palette"@
        },
{
    if spellings is Some {
        let given = spellings->Some_0@;
        if palette is Err && given.len() > 0 {
            let k = choose|k: int|
                {
                    &&& 0 <= k < given.len()
                    &&& colour::spelled_colour((#[trigger] given[k])@) is None
                    &&& palette->Err_0@ == config::colour_complaint(given[k]@)
                    &&& forall|j: int|
                        0 <= j < k ==> colour::spelled_colour((#[trigger] given[j])@) is Some
                };
            assert(colour::spelled_colour(given[k]@) is None);
        }
        if palette is Ok && 0 <= i < given.len() {
            let spelling = given[i];
        }
    }
}

/// Where the configuration file is.
pub proof fn where_the_file_is(
    xdg: Option<&str>,
    home: Option<&str>,
    dir: Option<String>,
    file: Option<String>,
)
    requires
        call_ensures(config::config_home_from, (xdg, home), dir),
        call_ensures(config::config_path_from, (xdg, home), file),
    ensures
        ({
            let rooted = xdg is Some && xdg->Some_0@.len() > 0 && xdg->Some_0@[0] == '/';
            let housed = home is Some && home->Some_0@.len() > 0;
            &&& dir is Some <==> rooted || housed
            &&& file is Some <==> dir is Some
            &&& rooted ==> dir->Some_0@ == config::joined_path(xdg->Some_0@, "recon"@)
            &&& !rooted && housed && home->Some_0@.last() != '/' ==> dir->Some_0@ == home->Some_0@
                + "/.config/recon"@
            &&& file is Some ==> file->Some_0@ == config::joined_path(
                dir->Some_0@,
                "config.toml"@,
            )
        }),
{
    settings_laws::where_settings_lie(
        text::option_str(xdg),
        text::option_str(home),
        "config.toml"@,
    );
}

/// A file that is not there says nothing and is no error; one that cannot be
/// read is one, by its path and the reason.
pub proof fn what_a_file_says(
    path: &str,
    outcome: ReadOutcome,
    text: Result<Option<String>, ConfigError>,
)
    requires
        call_ensures(config::config_text, (path, outcome), text),
    ensures
        outcome is Missing ==> text matches Ok(None),
        outcome matches ReadOutcome::Text(found) ==> text matches Ok(Some(kept)) && kept@ == found@,
        outcome matches ReadOutcome::Failed(why) ==> text matches Err(
            ConfigError::Read { path: named, source },
        ) && named@ == path@ && source@ == why@,
{
}

/// A flavour is always printed for whatever terminal there is.
pub proof fn a_suggestion_is_always_printed(
    flavour: &str,
    terminal: Option<&str>,
    printed: Result<String, UnknownFlavour>,
)
    requires
        call_ensures(editor::print_editor_config, (flavour, terminal), printed),
        flavour@ == "auto"@,
    ensures
        printed is Ok,
{
    editor_laws::what_is_suggested_is_known(text::option_str(terminal));
}

/// A name that is no flavour's is refused, by that name.
pub proof fn an_unknown_flavour_is_refused(
    flavour: &str,
    terminal: Option<&str>,
    printed: Result<String, UnknownFlavour>,
)
    requires
        call_ensures(editor::print_editor_config, (flavour, terminal), printed),
        flavour@ != "auto"@,
        forall|i: int|
            0 <= i < editor::FLAVOUR_COUNT ==> (#[trigger] editor::FLAVOURS[i]).0@ != flavour@,
    ensures
        printed is Err,
        printed->Err_0.0@ == flavour@,
{
    if printed is Ok {
        let k = choose|k: int|
            0 <= k < editor::FLAVOUR_COUNT && #[trigger] editor::FLAVOURS[k].0@ == flavour@;
        assert(editor::FLAVOURS[k].0@ != flavour@);
    }
}

} // verus!
