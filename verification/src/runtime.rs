//! The decisions around the pseudo-terminal that runs the shell: which
//! shell and environment to start, the size to open or resize it with,
//! what to do with each read of its output, and when its closing ends the
//! program.
use vstd::prelude::*;

verus! {

/// The size of a pseudo-terminal in cells (and pixels, unused here).
#[derive(Clone, Copy, Debug, PartialEq, Eq, Structural)]
pub struct PtySize {
    pub rows: u16,
    pub cols: u16,
    pub pixel_width: u16,
    pub pixel_height: u16,
}

/// The size to open a pseudo-terminal of `cols` by `rows` cells with.
pub fn pty_size(cols: u16, rows: u16) -> (size: PtySize)
    ensures
        size == (PtySize { rows, cols, pixel_width: 0, pixel_height: 0 }),
{
    PtySize { rows, cols, pixel_width: 0, pixel_height: 0 }
}

/// The size to resize the pseudo-terminal to, or `None` when one of the
/// dimensions is zero (the resize is then skipped).
pub fn resize_target(cols: u16, rows: u16) -> (size: Option<PtySize>)
    ensures
        size == if cols == 0 || rows == 0 {
            None
        } else {
            Some(PtySize { rows, cols, pixel_width: 0, pixel_height: 0 })
        },
{
    if cols == 0 || rows == 0 {
        return None;
    }
    Some(pty_size(cols, rows))
}

/// Whether a write of `bytes` to the shell is made: empty input is not
/// written.
pub fn should_write(bytes: &[u8]) -> (write: bool)
    ensures
        write == (bytes@.len() > 0),
{
    bytes.len() > 0
}

/// The outcome of one read of the shell's output.
#[derive(Clone, Copy, Debug, PartialEq, Eq, Structural)]
pub enum ReadOutcome {
    /// The read returned this many bytes (zero at the end of the output).
    Read(usize),
    /// The read was interrupted before anything was read.
    Interrupted,
    /// The read failed.
    Failed,
}

/// What the reader does after a read.
#[derive(Clone, Copy, Debug, PartialEq, Eq, Structural)]
pub enum ReaderAction {
    /// Forward the first this many bytes of the buffer and read again.
    Forward(usize),
    /// Read again.
    Retry,
    /// Stop reading.
    Stop,
}

/// What the reader does after `outcome`: it forwards what it read, reads
/// again after an interruption, and stops at the end of the output or on
/// an error.
pub open spec fn action_of(outcome: ReadOutcome) -> ReaderAction {
    match outcome {
        ReadOutcome::Read(n) => if n == 0 {
            ReaderAction::Stop
        } else {
            ReaderAction::Forward(n)
        },
        ReadOutcome::Interrupted => ReaderAction::Retry,
        ReadOutcome::Failed => ReaderAction::Stop,
    }
}

/// The reader forwards what it read, reads again after an interruption,
/// and stops at the end of the output or on an error.
pub fn reader_action(outcome: ReadOutcome) -> (action: ReaderAction)
    ensures
        action == action_of(outcome),
{
    match outcome {
        ReadOutcome::Read(0) => ReaderAction::Stop,
        ReadOutcome::Read(n) => ReaderAction::Forward(n),
        ReadOutcome::Interrupted => ReaderAction::Retry,
        ReadOutcome::Failed => ReaderAction::Stop,
    }
}

/// A read that ends the output: the end of the output or an error.
pub open spec fn ends_reading(outcome: ReadOutcome) -> bool {
    match outcome {
        ReadOutcome::Read(n) => n == 0,
        ReadOutcome::Interrupted => false,
        ReadOutcome::Failed => true,
    }
}

/// The actions of a reader that meets `outcomes` one read after another,
/// up to and including the one that stops it.
pub open spec fn run_actions(outcomes: Seq<ReadOutcome>) -> Seq<ReaderAction>
    decreases outcomes.len(),
{
    if outcomes.len() == 0 {
        Seq::empty()
    } else if action_of(outcomes[0]) == ReaderAction::Stop {
        seq![ReaderAction::Stop]
    } else {
        seq![action_of(outcomes[0])] + run_actions(outcomes.drop_first())
    }
}

/// The sizes of the chunks that `actions` forward, in order.
pub open spec fn forwarded(actions: Seq<ReaderAction>) -> Seq<usize>
    decreases actions.len(),
{
    if actions.len() == 0 {
        Seq::empty()
    } else {
        (match actions[0] {
            ReaderAction::Forward(n) => seq![n],
            _ => Seq::empty(),
        }) + forwarded(actions.drop_first())
    }
}

/// The position of the first read that ends the output (the length of
/// `outcomes` when none does).
pub open spec fn first_end(outcomes: Seq<ReadOutcome>) -> nat
    decreases outcomes.len(),
{
    if outcomes.len() == 0 {
        0
    } else if ends_reading(outcomes[0]) {
        0
    } else {
        1 + first_end(outcomes.drop_first())
    }
}

/// The sizes of the reads of `outcomes` that returned bytes, in order.
pub open spec fn nonempty_reads(outcomes: Seq<ReadOutcome>) -> Seq<usize>
    decreases outcomes.len(),
{
    if outcomes.len() == 0 {
        Seq::empty()
    } else {
        (match outcomes[0] {
            ReadOutcome::Read(n) => if n > 0 { seq![n] } else { Seq::empty() },
            _ => Seq::empty(),
        }) + nonempty_reads(outcomes.drop_first())
    }
}

/// Over a run of reads, the reader takes one action per read, as
/// `reader_action` gives it, and stops at the first end of the output or
/// error, reading nothing after it; interrupted reads are read again; the
/// chunks it forwards are exactly the reads that returned bytes before
/// that stop, in order.
pub proof fn lemma_reader_run(outcomes: Seq<ReadOutcome>)
    ensures
        ({
            let k = first_end(outcomes);
            let run = run_actions(outcomes);
            &&& k <= outcomes.len()
            &&& forall|i: int| 0 <= i < k ==> !ends_reading(#[trigger] outcomes[i])
            &&& k < outcomes.len() ==> ends_reading(outcomes[k as int])
            &&& run.len() == if k < outcomes.len() { k + 1 } else { k }
            &&& forall|i: int| 0 <= i < run.len() ==> #[trigger] run[i] == action_of(outcomes[i])
            &&& forall|i: int| 0 <= i < k && outcomes[i] == ReadOutcome::Interrupted ==> #[trigger] run[i] == ReaderAction::Retry
            &&& k < outcomes.len() ==> run[k as int] == ReaderAction::Stop
            &&& forwarded(run) == nonempty_reads(outcomes.take(k as int))
        }),
    decreases outcomes.len(),
{
    let k = first_end(outcomes);
    let run = run_actions(outcomes);
    if outcomes.len() == 0 {
        assert(outcomes.take(0) =~= Seq::<ReadOutcome>::empty());
    } else if ends_reading(outcomes[0]) {
        assert(action_of(outcomes[0]) == ReaderAction::Stop);
        assert(run == seq![ReaderAction::Stop]);
        assert(run.drop_first() =~= Seq::<ReaderAction>::empty());
        assert(forwarded(run.drop_first()) == Seq::<usize>::empty());
        assert(forwarded(run) =~= Seq::<usize>::empty() + Seq::<usize>::empty());
        assert(outcomes.take(0) =~= Seq::<ReadOutcome>::empty());
    } else {
        let rest = outcomes.drop_first();
        lemma_reader_run(rest);
        let a0 = action_of(outcomes[0]);
        assert(a0 != ReaderAction::Stop);
        assert(run == seq![a0] + run_actions(rest));
        assert forall|i: int| 0 <= i < k implies !ends_reading(#[trigger] outcomes[i]) by {
            if i > 0 {
                assert(outcomes[i] == rest[i - 1]);
            }
        }
        assert forall|i: int| 0 <= i < run.len() implies #[trigger] run[i] == action_of(outcomes[i]) by {
            if i > 0 {
                assert(run[i] == run_actions(rest)[i - 1]);
                assert(outcomes[i] == rest[i - 1]);
            }
        }
        if k < outcomes.len() {
            assert(outcomes[k as int] == rest[k - 1]);
        }
        assert(run.drop_first() =~= run_actions(rest));
        let taken = outcomes.take(k as int);
        assert(taken[0] == outcomes[0]);
        assert(taken.drop_first() =~= rest.take(k - 1));
    }
}

/// Records that the shell's output has closed; `true` the first time,
/// when the program must be asked to exit.
pub fn note_disconnect(pty_disconnected: &mut bool) -> (exit: bool)
    ensures
        exit == !*old(pty_disconnected),
        *final(pty_disconnected),
{
    if !*pty_disconnected {
        *pty_disconnected = true;
        return true;
    }
    false
}

/// The program to run as the shell: the configured one, else the user's
/// shell, else `/bin/bash`.
pub fn shell_program(configured: Option<String>, user_shell: Option<String>) -> (shell: String)
    ensures
        shell@ == match configured {
            Some(s) => s@,
            None => match user_shell {
                Some(s) => s@,
                None => "/bin/bash"@,
            },
        },
{
    broadcast use vstd::string::group_string_axioms;

    match configured {
        Some(s) => s,
        None => match user_shell {
            Some(s) => s,
            None => "/bin/bash".to_string(),
        },
    }
}

/// The environment of the shell: `TERM=xterm-256color` first unless the
/// configuration sets `TERM`, then the configured variables in order.
pub open spec fn shell_env(config: Seq<(Seq<char>, Seq<char>)>) -> Seq<(Seq<char>, Seq<char>)> {
    if exists|i: int| 0 <= i < config.len() && #[trigger] config[i].0 == "TERM"@ {
        config
    } else {
        seq![("TERM"@, "xterm-256color"@)] + config
    }
}

pub open spec fn env_view(env: Seq<(String, String)>) -> Seq<(Seq<char>, Seq<char>)> {
    env.map_values(|kv: (String, String)| (kv.0@, kv.1@))
}

/// The variables to start the shell with.
pub fn command_env(config_env: &Vec<(String, String)>) -> (env: Vec<(String, String)>)
    ensures
        env_view(env@) == shell_env(env_view(config_env@)),
{
    broadcast use vstd::string::group_string_axioms;

    let term = "TERM".to_string();
    let mut has_term = false;
    let mut i: usize = 0;
    while i < config_env.len()
        invariant
            i <= config_env@.len(),
            term@ == "TERM"@,
            has_term == exists|j: int| 0 <= j < i && #[trigger] env_view(config_env@)[j].0 == "TERM"@,
        decreases config_env@.len() - i,
    {
        if config_env[i].0 == term {
            has_term = true;
        }
        proof {
            if has_term {
                if config_env@[i as int].0@ == "TERM"@ {
                    assert(env_view(config_env@)[i as int].0 == "TERM"@);
                }
            }
        }
        i += 1;
    }
    let mut env: Vec<(String, String)> = Vec::new();
    if !has_term {
        env.push((term, "xterm-256color".to_string()));
    }
    let ghost prefix = env_view(env@);
    let mut j: usize = 0;
    while j < config_env.len()
        invariant
            j <= config_env@.len(),
            env_view(env@) == prefix + env_view(config_env@).take(j as int),
        decreases config_env@.len() - j,
    {
        let key = config_env[j].0.clone();
        let value = config_env[j].1.clone();
        assert(key@ == config_env@[j as int].0@);
        assert(value@ == config_env@[j as int].1@);
        let ghost before = env@;
        env.push((key, value));
        assert(env@ == before.push((key, value)));
        assert(env_view(env@) =~= env_view(before).push((key@, value@)));
        assert(env_view(env@) =~= prefix + env_view(config_env@).take(j as int + 1));
        j += 1;
    }
    assert(env_view(config_env@).take(j as int) =~= env_view(config_env@));
    if has_term {
        assert(prefix =~= Seq::<(Seq<char>, Seq<char>)>::empty());
        assert(env_view(env@) =~= shell_env(env_view(config_env@)));
    } else {
        assert(env_view(env@) =~= shell_env(env_view(config_env@)));
    }
    env
}

/// The shell always gets a `TERM` variable, and a configuration that sets
/// one is passed on unchanged.
pub proof fn lemma_term_always_set(config: Seq<(Seq<char>, Seq<char>)>)
    ensures
        exists|i: int| 0 <= i < shell_env(config).len() && #[trigger] shell_env(config)[i].0 == "TERM"@,
        (exists|i: int| 0 <= i < config.len() && #[trigger] config[i].0 == "TERM"@) ==> shell_env(config) == config,
{
    if !(exists|i: int| 0 <= i < config.len() && #[trigger] config[i].0 == "TERM"@) {
        assert(shell_env(config)[0].0 == "TERM"@);
    } else {
        let i = choose|i: int| 0 <= i < config.len() && #[trigger] config[i].0 == "TERM"@;
        assert(shell_env(config)[i].0 == "TERM"@);
    }
}

/// Without a configured `TERM`, the shell gets `TERM=xterm-256color`
/// first, followed by the configured variables in order.
pub proof fn lemma_default_term(config: Seq<(Seq<char>, Seq<char>)>)
    requires
        forall|i: int| 0 <= i < config.len() ==> #[trigger] config[i].0 != "TERM"@,
    ensures
        shell_env(config).len() == config.len() + 1,
        shell_env(config)[0] == ("TERM"@, "xterm-256color"@),
        forall|i: int| 0 <= i < config.len() ==> #[trigger] shell_env(config)[i + 1] == config[i],
{
}

} // verus!
