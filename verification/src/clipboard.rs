//! Putting text on the system's clipboard through a command.

use vstd::prelude::*;

use crate::editor;
use crate::editor::TemplateError;
use crate::text;

verus! {

/// A kind of system, as far as its clipboard goes.
#[derive(Debug, Clone, Copy, PartialEq, Eq, Structural)]
pub enum Platform {
    MacOs,
    Windows,
    Other,
}

/// The command that a system conventionally has.
pub open spec fn conventional(platform: Platform, wayland: bool) -> Seq<char> {
    match platform {
        Platform::MacOs => "pbcopy"@,
        Platform::Windows => "clip"@,
        Platform::Other => if wayland {
            "wl-copy"@
        } else {
            "xclip -selection clipboard"@
        },
    }
}

/// The command template where none is configured: what the system
/// conventionally has. `wayland` says whether a Wayland display is set.
pub fn default_template(platform: Platform, wayland: bool) -> (template: String)
    ensures
        template@ == conventional(platform, wayland),
{
    match platform {
        Platform::MacOs => "pbcopy".to_owned(),
        Platform::Windows => "clip".to_owned(),
        Platform::Other => if wayland {
            "wl-copy".to_owned()
        } else {
            "xclip -selection clipboard".to_owned()
        },
    }
}

/// The clipboard behind a command that reads the text.
#[derive(Debug, Clone, PartialEq, Eq)]
pub struct ProcessClipboard {
    template: String,
}

impl Default for ProcessClipboard {
    /// The clipboard behind the system's own command.
    fn default() -> (clipboard: Self)
        ensures
            clipboard.template_text() == ""@,
    {
        ProcessClipboard::new("")
    }
}

impl ProcessClipboard {
    /// The template, as it was given.
    pub closed spec fn template_text(&self) -> Seq<char> {
        self.template@
    }

    /// The template that is used: the one that was given, unless that is blank.
    pub open spec fn used_template(&self, platform: Platform, wayland: bool) -> Seq<char> {
        if text::blank(self.template_text()) {
            conventional(platform, wayland)
        } else {
            self.template_text()
        }
    }

    /// The clipboard behind the command of `template`.
    pub fn new(template: &str) -> (clipboard: Self)
        ensures
            clipboard.template_text() == template@,
    {
        ProcessClipboard { template: template.to_owned() }
    }

    /// The command to run.
    pub fn argv(&self, platform: Platform, wayland: bool) -> (argv: Result<
        Vec<String>,
        TemplateError,
    >)
        ensures
            match argv {
                Ok(argv) => editor::template_arguments(self.used_template(platform, wayland))
                    == Ok::<_, TemplateError>(text::texts(argv@)),
                Err(error) => editor::template_arguments(self.used_template(platform, wayland))
                    == Err::<Seq<Seq<char>>, _>(error),
            },
    {
        if text::is_blank(self.template.as_str()) {
            let template = default_template(platform, wayland);
            editor::split_template(template.as_str())
        } else {
            editor::split_template(self.template.as_str())
        }
    }
}

/// What came of running the command.
#[derive(Debug, Clone, PartialEq, Eq)]
pub enum Ran {
    /// It could not be run, or did not take the text, and why.
    Failed(String),
    /// It ended, and said that all was well.
    Succeeded,
    /// It ended and said that all was not well, and how it ended.
    Ended(String),
}

/// Whether the text is on the clipboard now, or what to say of it: a command
/// that ends badly says so in no other way.
pub fn copied(program: &str, ran: Ran) -> (outcome: Result<(), String>)
    ensures
        match ran {
            Ran::Failed(why) => outcome matches Err(message) && message@ == why@,
            Ran::Succeeded => outcome is Ok,
            Ran::Ended(status) => outcome matches Err(message) && message@ == program@
                + " exited with "@ + status@,
        },
{
    match ran {
        Ran::Failed(why) => Err(why),
        Ran::Succeeded => Ok(()),
        Ran::Ended(status) => Err(editor::exit_message(program, status.as_str())),
    }
}

} // verus!
