use recon::clipboard::{copied, default_template, Platform, ProcessClipboard, Ran};

const PLATFORMS: [Platform; 3] = [Platform::MacOs, Platform::Windows, Platform::Other];

#[test]
fn the_default_is_a_single_program_the_platform_has() {
    for platform in PLATFORMS {
        for wayland in [true, false] {
            let argv = ProcessClipboard::default()
                .argv(platform, wayland)
                .expect("the default splits");
            let program = argv.first().expect("the default names a program");
            assert!(
                ["pbcopy", "clip", "wl-copy", "xclip"].contains(&program.as_str()),
                "unexpected default clipboard command {argv:?}"
            );
        }
    }
}

#[test]
fn a_template_is_split_once_without_a_shell() {
    let clipboard = ProcessClipboard::new("xclip -selection 'clip board'");
    assert_eq!(
        clipboard.argv(Platform::Other, false).expect("splits"),
        ["xclip", "-selection", "clip board"]
    );
}

#[test]
fn a_bad_template_is_reported_by_the_copy_not_at_startup() {
    let clipboard = ProcessClipboard::new("pbcopy 'unterminated");
    let err = clipboard
        .argv(Platform::MacOs, false)
        .expect_err("an unclosed quote is an error");
    assert!(err.message().contains("quote"), "{}", err.message());
}

#[test]
fn each_platform_has_its_own_command() {
    assert_eq!(default_template(Platform::MacOs, false), "pbcopy");
    assert_eq!(default_template(Platform::Windows, true), "clip");
    assert_eq!(default_template(Platform::Other, true), "wl-copy");
    assert_eq!(
        default_template(Platform::Other, false),
        "xclip -selection clipboard"
    );
}

#[test]
fn a_copy_fails_with_what_the_command_says_of_itself() {
    assert_eq!(copied("cat", Ran::Succeeded), Ok(()));
    assert_eq!(
        copied("cat", Ran::Failed("no such file".to_string())),
        Err("no such file".to_string())
    );
    let err = copied("sh", Ran::Ended("exit status: 3".to_string()))
        .expect_err("a non-zero exit is an error");
    assert!(err.contains("exit"), "{err}");
    assert!(err.contains("sh"), "{err}");
}
