use ratty::runtime::{
    command_env, note_disconnect, pty_size, reader_action, resize_target, shell_program,
    should_write, PtySize, ReadOutcome, ReaderAction,
};

#[test]
fn reader_decisions() {
    assert_eq!(reader_action(ReadOutcome::Read(0)), ReaderAction::Stop);
    assert_eq!(reader_action(ReadOutcome::Read(17)), ReaderAction::Forward(17));
    assert_eq!(reader_action(ReadOutcome::Interrupted), ReaderAction::Retry);
    assert_eq!(reader_action(ReadOutcome::Failed), ReaderAction::Stop);
}

#[test]
fn disconnect_asks_for_exit_once() {
    let mut disconnected = false;
    assert!(note_disconnect(&mut disconnected));
    assert!(disconnected);
    assert!(!note_disconnect(&mut disconnected));
    assert!(disconnected);
}

#[test]
fn sizes() {
    assert_eq!(pty_size(80, 24), PtySize { rows: 24, cols: 80, pixel_width: 0, pixel_height: 0 });
    assert_eq!(resize_target(0, 24), None);
    assert_eq!(resize_target(80, 0), None);
    assert_eq!(resize_target(80, 24), Some(pty_size(80, 24)));
    assert!(!should_write(&[]));
    assert!(should_write(b"x"));
}

#[test]
fn shell_choice() {
    assert_eq!(shell_program(Some("/bin/zsh".to_string()), Some("/bin/sh".to_string())), "/bin/zsh");
    assert_eq!(shell_program(None, Some("/bin/sh".to_string())), "/bin/sh");
    assert_eq!(shell_program(None, None), "/bin/bash");
}

#[test]
fn term_is_set_unless_configured() {
    let config = vec![("LANG".to_string(), "C".to_string())];
    assert_eq!(
        command_env(&config),
        vec![
            ("TERM".to_string(), "xterm-256color".to_string()),
            ("LANG".to_string(), "C".to_string()),
        ]
    );
    let config = vec![
        ("LANG".to_string(), "C".to_string()),
        ("TERM".to_string(), "dumb".to_string()),
    ];
    assert_eq!(command_env(&config), config);
    assert_eq!(
        command_env(&vec![]),
        vec![("TERM".to_string(), "xterm-256color".to_string())]
    );
}

fn run(outcomes: &[ReadOutcome]) -> (Vec<usize>, usize) {
    let mut chunks = Vec::new();
    for (i, outcome) in outcomes.iter().enumerate() {
        match reader_action(*outcome) {
            ReaderAction::Forward(n) => chunks.push(n),
            ReaderAction::Retry => {}
            ReaderAction::Stop => return (chunks, i + 1),
        }
    }
    (chunks, outcomes.len())
}

#[test]
fn reader_run_forwards_reads_until_the_end() {
    let outcomes = [
        ReadOutcome::Read(3),
        ReadOutcome::Interrupted,
        ReadOutcome::Read(5),
        ReadOutcome::Read(0),
        ReadOutcome::Read(7),
    ];
    assert_eq!(run(&outcomes), (vec![3, 5], 4));
    let failing = [ReadOutcome::Interrupted, ReadOutcome::Read(2), ReadOutcome::Failed, ReadOutcome::Read(9)];
    assert_eq!(run(&failing), (vec![2], 3));
    let open = [ReadOutcome::Read(1), ReadOutcome::Interrupted, ReadOutcome::Read(4)];
    assert_eq!(run(&open), (vec![1, 4], 3));
}
