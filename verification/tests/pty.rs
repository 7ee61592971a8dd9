use rdpterm::terminal::pty::after_read;
use rdpterm::terminal::pty::choose_shell;
use rdpterm::terminal::pty::ReadOutcome;
use rdpterm::terminal::pty::ReadStep;

#[test]
fn the_shell_that_was_asked_for_comes_first() {
    let asked = Some("/bin/zsh".to_string());
    let users = Some("/bin/bash".to_string());
    assert_eq!(choose_shell(asked.clone(), users.clone()), "/bin/zsh");
    assert_eq!(choose_shell(asked, None), "/bin/zsh");
    assert_eq!(choose_shell(None, users), "/bin/bash");
    assert_eq!(choose_shell(None, None), "/bin/sh");
}

#[test]
fn reading_goes_on_until_nothing_comes() {
    assert_eq!(after_read(ReadOutcome::Read(17)), ReadStep::Deliver(17));
    assert_eq!(after_read(ReadOutcome::Read(4096)), ReadStep::Deliver(4096));
    assert_eq!(after_read(ReadOutcome::Read(0)), ReadStep::Stop);
    assert_eq!(after_read(ReadOutcome::Failed), ReadStep::Stop);
}
