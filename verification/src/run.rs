//! A run of the wrapper, from the command line to the exit code: what it does
//! in answer to each thing that happens.

use vstd::prelude::*;

use crate::cli;
use crate::decimal;
use crate::lines;
use crate::preview;
use crate::preview::LineTracker;

verus! {

/// The exit code when the command cannot be started.
pub const SPAWN_FAILED_CODE: i32 = 127;

/// The exit code when the command ends without one.
pub const NO_CODE: i32 = 128;

/// How far a run has come.
#[derive(Clone, Copy, Debug, PartialEq, Eq, Structural)]
pub enum Phase {
    /// The log file is being created.
    Preparing,
    /// The command is being started.
    Spawning,
    /// The command is running.
    Running,
    /// The run is over.
    Ended,
}

/// What has happened.
#[derive(Debug)]
pub enum RunEvent {
    /// The log file exists; this is its path.
    LogReady(String),
    /// The command has been started.
    Spawned,
    /// The command could not be started; this says why.
    SpawnFailed(String),
    /// The command has written this to its standard output or error.
    Output(Vec<u8>),
    /// The command has exited and its output has ended; the exit code, if it
    /// has one.
    Exited(Option<i32>),
}

/// What a run does about an event, in this order.
#[derive(Debug)]
pub struct Response {
    /// Bytes to append to the log file.
    pub log: Vec<u8>,
    /// Texts to print to standard output.
    pub stdout: Vec<String>,
    /// Lines to print to standard error.
    pub stderr: Vec<String>,
    /// The code to exit with, if the run is over.
    pub exit_code: Option<i32>,
}

/// A run, as far as it matters for what it does next.
#[verifier::ext_equal]
pub struct RunState {
    /// How far it has come.
    pub phase: Phase,
    /// The command's name.
    pub program: Seq<char>,
    /// The preview of the output.
    pub preview: preview::Preview,
}

/// What a run does about an event.
#[verifier::ext_equal]
pub struct Effects {
    /// The bytes appended to the log file.
    pub log: Seq<u8>,
    /// The texts printed to standard output.
    pub stdout: Seq<Seq<char>>,
    /// The lines printed to standard error.
    pub stderr: Seq<Seq<char>>,
    /// The code to exit with, if the run is over.
    pub exit_code: Option<i32>,
}

impl Response {
    /// What the response amounts to.
    pub open spec fn effects(self) -> Effects {
        Effects {
            log: self.log@,
            stdout: self.stdout.deep_view(),
            stderr: self.stderr.deep_view(),
            exit_code: self.exit_code,
        }
    }
}

impl RunState {
    /// A run that has just announced its command.
    pub open spec fn start(program: Seq<char>, show_head: bool, show_tail: bool) -> RunState {
        RunState {
            phase: Phase::Preparing,
            program,
            preview: preview::Preview::start(show_head, show_tail),
        }
    }

    /// Whether an event can happen in this state.
    pub open spec fn expects(self, event: RunEvent) -> bool {
        match event {
            RunEvent::LogReady(_) => self.phase == Phase::Preparing,
            RunEvent::Spawned => self.phase == Phase::Spawning,
            RunEvent::SpawnFailed(_) => self.phase == Phase::Spawning,
            RunEvent::Output(_) => self.phase == Phase::Running,
            RunEvent::Exited(_) => self.phase == Phase::Running,
        }
    }

    /// The state after an event.
    pub open spec fn next(self, event: RunEvent) -> RunState {
        match event {
            RunEvent::LogReady(_) => RunState { phase: Phase::Spawning, ..self },
            RunEvent::Spawned => RunState { phase: Phase::Running, ..self },
            RunEvent::SpawnFailed(_) => RunState { phase: Phase::Ended, ..self },
            RunEvent::Output(chunk) => RunState { preview: self.preview.fed(chunk@), ..self },
            RunEvent::Exited(_) => RunState {
                phase: Phase::Ended,
                preview: self.preview.flushed(),
                ..self
            },
        }
    }

    /// What is done about an event.
    pub open spec fn effects_of(self, event: RunEvent) -> Effects {
        let nothing = Effects { log: seq![], stdout: seq![], stderr: seq![], exit_code: None };
        match event {
            RunEvent::LogReady(path) => Effects {
                stderr: seq![cli::redirected(path@)],
                ..nothing
            },
            RunEvent::Spawned => nothing,
            RunEvent::SpawnFailed(error) => Effects {
                stderr: seq![cli::spawn_failed(self.program, error@)],
                exit_code: Some(SPAWN_FAILED_CODE),
                ..nothing
            },
            RunEvent::Output(chunk) => Effects {
                log: chunk@,
                stdout: preview::texts(self.preview.shown_by(chunk@)),
                ..nothing
            },
            RunEvent::Exited(code) => Effects {
                stdout: preview::texts(self.preview.shown_at_end()),
                stderr: seq![cli::exited(reported_code(code) as int)],
                exit_code: Some(reported_code(code)),
                ..nothing
            },
        }
    }
}

/// The exit code of a command, or 128 if it ended without one.
pub open spec fn reported_code(code: Option<i32>) -> i32 {
    match code {
        Some(code) => code,
        None => NO_CODE,
    }
}

/// A run of a command.
#[derive(Debug)]
pub struct Run {
    phase: Phase,
    program: String,
    tracker: LineTracker,
}

impl View for Run {
    type V = RunState;

    closed spec fn view(&self) -> RunState {
        RunState { phase: self.phase, program: self.program@, preview: self.tracker@ }
    }
}

/// What a command line leads to.
#[derive(Debug)]
pub enum Start {
    /// Print the help text and exit with this code.
    Help { exit_code: i32 },
    /// Print `announcement` to standard error and begin the run. The command
    /// and its arguments begin at argument `command`.
    Run { run: Run, command: usize, announcement: String },
}

impl Run {
    /// Begins a run as the arguments, without the program's own name, ask.
    pub fn start(args: &Vec<String>) -> (res: Start)
        ensures
            match cli::launch(args.deep_view()) {
                cli::Launch::Help { exit_code } => res == (Start::Help { exit_code }),
                cli::Launch::Command { show_head, show_tail, start } => {
                    &&& start < args@.len()
                    &&& res matches Start::Run { run, command, announcement }
                    &&& command == start
                    &&& run@ == RunState::start(args@[start as int]@, show_head, show_tail)
                    &&& run@.preview.valid()
                    &&& announcement@ == cli::running(args@[start as int]@)
                    &&& announcement@ == "llmtmplog: running `"@ + args@[start as int]@ + "`"@
                    &&& run@.phase == Phase::Preparing
                    &&& run@.program == args@[start as int]@
                    &&& run@.preview.show_head == show_head
                    &&& run@.preview.show_tail == show_tail
                    &&& run@.preview.head_remaining == 50
                    &&& run@.preview.tail.len() == 0
                    &&& run@.preview.partial.len() == 0
                },
            },
    {
        match cli::parse_args(args) {
            cli::Launch::Help { exit_code } => Start::Help { exit_code },
            cli::Launch::Command { show_head, show_tail, start } => {
                let program = args[start].clone();
                let announcement = cli::running_line(program.as_str());
                let tracker = LineTracker::new(show_head, show_tail);
                let run = Run { phase: Phase::Preparing, program, tracker };
                Start::Run { run, command: start, announcement }
            },
        }
    }

    /// Takes note of an event and says what to do about it.
    pub fn run(&mut self, event: RunEvent) -> (response: Response)
        requires
            old(self)@.expects(event),
            old(self)@.preview.valid(),
        ensures
            final(self)@ == old(self)@.next(event),
            final(self)@.preview.valid(),
            response.effects() == old(self)@.effects_of(event),
            response.log@ == match event {
                RunEvent::Output(chunk) => chunk@,
                _ => Seq::<u8>::empty(),
            },
            response.exit_code == match event {
                RunEvent::SpawnFailed(_) => Some(127i32),
                RunEvent::Exited(Some(code)) => Some(code),
                RunEvent::Exited(None) => Some(128i32),
                _ => None,
            },
            response.stdout@.len() > 0 ==> event is Output || event is Exited,
            response.stderr@.len() == (if event is Spawned || event is Output {
                0int
            } else {
                1int
            }),
            event matches RunEvent::LogReady(path) ==> response.stderr@[0]@
                == "llmtmplog: stdout & stderr redirected to "@ + path@,
            event matches RunEvent::SpawnFailed(error) ==> response.stderr@[0]@
                == "llmtmplog: failed to spawn `"@ + old(self)@.program + "`: "@ + error@,
            event matches RunEvent::Exited(Some(code)) ==> response.stderr@[0]@
                == "llmtmplog: EXIT_CODE="@ + decimal::signed_decimal(code as int),
            event matches RunEvent::Exited(None) ==> response.stderr@[0]@
                == "llmtmplog: EXIT_CODE="@ + decimal::signed_decimal(128),
    {
        let mut response = Response {
            log: Vec::new(),
            stdout: Vec::new(),
            stderr: Vec::new(),
            exit_code: None,
        };
        assert(response.stdout.deep_view() =~= seq![]);
        assert(response.stderr.deep_view() =~= seq![]);
        match event {
            RunEvent::LogReady(path) => {
                self.phase = Phase::Spawning;
                response.stderr.push(cli::redirected_line(path.as_str()));
                assert(response.stderr.deep_view() =~= seq![cli::redirected(path@)]);
            },
            RunEvent::Spawned => {
                self.phase = Phase::Running;
            },
            RunEvent::SpawnFailed(error) => {
                self.phase = Phase::Ended;
                response.stderr.push(
                    cli::spawn_failed_line(self.program.as_str(), error.as_str()),
                );
                response.exit_code = Some(SPAWN_FAILED_CODE);
                assert(response.stderr.deep_view() =~= seq![
                    cli::spawn_failed(old(self)@.program, error@),
                ]);
            },
            RunEvent::Output(chunk) => {
                response.stdout = self.tracker.feed(chunk.as_slice());
                response.log = chunk;
            },
            RunEvent::Exited(code) => {
                self.phase = Phase::Ended;
                response.stdout = self.tracker.flush_tail();
                let code: i32 = match code {
                    Some(code) => code,
                    None => NO_CODE,
                };
                response.stderr.push(cli::exited_line(code));
                response.exit_code = Some(code);
                assert(response.stderr.deep_view() =~= seq![cli::exited(code as int)]);
            },
        }
        assert(self@ =~= old(self)@.next(event));
        assert(response.effects() =~= old(self)@.effects_of(event));
        assert(response.effects().stderr.len() == response.stderr@.len());
        assert(response.stderr@.len() > 0 ==> response.effects().stderr[0]
            == response.stderr@[0]@);
        assert(response.effects().stdout.len() == response.stdout@.len());
        response
    }
}

/// The state after some events.
pub open spec fn state_after(s: RunState, events: Seq<RunEvent>) -> RunState
    decreases events.len(),
{
    if events.len() == 0 {
        s
    } else {
        state_after(s, events.drop_last()).next(events.last())
    }
}

/// What has been done in all about some events.
pub open spec fn done_over(s: RunState, events: Seq<RunEvent>) -> Effects
    decreases events.len(),
{
    if events.len() == 0 {
        Effects { log: seq![], stdout: seq![], stderr: seq![], exit_code: None }
    } else {
        let before = done_over(s, events.drop_last());
        let now = state_after(s, events.drop_last()).effects_of(events.last());
        Effects {
            log: before.log + now.log,
            stdout: before.stdout + now.stdout,
            stderr: before.stderr + now.stderr,
            exit_code: now.exit_code,
        }
    }
}

/// Whether some events can happen in this order.
pub open spec fn possible(s: RunState, events: Seq<RunEvent>) -> bool
    decreases events.len(),
{
    events.len() > 0 ==> {
        &&& possible(s, events.drop_last())
        &&& state_after(s, events.drop_last()).expects(events.last())
    }
}

/// The events of a command that has been started and has written some chunks.
pub open spec fn events_so_far(path: String, chunks: Seq<Vec<u8>>) -> Seq<RunEvent> {
    seq![RunEvent::LogReady(path), RunEvent::Spawned] + chunks.map_values(
        |chunk: Vec<u8>| RunEvent::Output(chunk),
    )
}

/// The bytes of some chunks.
pub open spec fn bytes_of(chunks: Seq<Vec<u8>>) -> Seq<Seq<u8>> {
    chunks.map_values(|chunk: Vec<u8>| chunk@)
}

/// While the command runs, the log file holds exactly what the command has
/// written so far, in the order in which it came, and standard output holds
/// the first lines if they are asked for.
pub proof fn law_log_holds_the_output_so_far(s: RunState, path: String, chunks: Seq<Vec<u8>>)
    requires
        s.phase == Phase::Preparing,
    ensures
        possible(s, events_so_far(path, chunks)),
        ({
            let done = done_over(s, events_so_far(path, chunks));
            let after = state_after(s, events_so_far(path, chunks));
            &&& done.log == bytes_of(chunks).flatten()
            &&& done.stdout == preview::texts(preview::shown_by_chunks(s.preview, bytes_of(chunks)))
            &&& done.stderr == seq![cli::redirected(path@)]
            &&& done.exit_code is None
            &&& after.phase == Phase::Running
            &&& after.program == s.program
            &&& after.preview == preview::after_chunks(s.preview, bytes_of(chunks))
        }),
    decreases chunks.len(),
{
    let events = events_so_far(path, chunks);
    let done = done_over(s, events);
    if chunks.len() == 0 {
        let first = seq![RunEvent::LogReady(path)];
        assert(events =~= seq![RunEvent::LogReady(path), RunEvent::Spawned]);
        assert(events.drop_last() =~= first);
        assert(first.drop_last() =~= seq![]);
        reveal_with_fuel(possible, 3);
        reveal_with_fuel(state_after, 3);
        reveal_with_fuel(done_over, 3);
        assert(done.log =~= bytes_of(chunks).flatten());
        assert(done.stdout =~= preview::texts(
            preview::shown_by_chunks(s.preview, bytes_of(chunks)),
        ));
        assert(done.stderr =~= seq![cli::redirected(path@)]);
    } else {
        let front = chunks.drop_last();
        law_log_holds_the_output_so_far(s, path, front);
        assert(events.drop_last() =~= events_so_far(path, front));
        assert(events.last() == RunEvent::Output(chunks.last()));
        let bytes = bytes_of(chunks);
        assert(bytes.drop_last() =~= bytes_of(front));
        assert(bytes.last() == chunks.last()@);
        bytes_of(front).lemma_flatten_push(chunks.last()@);
        assert(bytes_of(front).push(chunks.last()@) =~= bytes);
        preview::lemma_texts_joined(
            preview::shown_by_chunks(s.preview, bytes_of(front)),
            preview::after_chunks(s.preview, bytes_of(front)).shown_by(chunks.last()@),
        );
        assert(done.stderr =~= seq![cli::redirected(path@)]);
    }
}

/// A run whose command is started and exits: the log file holds the whole
/// output; standard output holds the first 50 lines if the head is asked for,
/// then the last 50 lines if the tail is asked for, and nothing else; standard
/// error holds the path of the log file and the exit code; and the wrapper
/// exits with the command's own code, or 128 if it has none.
pub proof fn law_run_of_a_command(
    program: Seq<char>,
    show_head: bool,
    show_tail: bool,
    path: String,
    chunks: Seq<Vec<u8>>,
    code: Option<i32>,
)
    ensures
        ({
            let s = RunState::start(program, show_head, show_tail);
            let events = events_so_far(path, chunks).push(RunEvent::Exited(code));
            let output = preview::output_lines(bytes_of(chunks));
            let done = done_over(s, events);
            &&& possible(s, events)
            &&& done.log == bytes_of(chunks).flatten()
            &&& done.stdout == preview::texts(
                (if show_head {
                    preview::first_lines(output, 50)
                } else {
                    seq![]
                }) + (if show_tail {
                    preview::last_lines(output, 50)
                } else {
                    seq![]
                }),
            )
            &&& done.stderr == seq![
                cli::redirected(path@),
                cli::exited(reported_code(code) as int),
            ]
            &&& done.exit_code == Some(reported_code(code))
            &&& state_after(s, events).phase == Phase::Ended
        }),
{
    let s = RunState::start(program, show_head, show_tail);
    let before = events_so_far(path, chunks);
    let events = before.push(RunEvent::Exited(code));
    law_log_holds_the_output_so_far(s, path, chunks);
    assert(events.drop_last() =~= before);
    preview::law_preview_is_head_then_tail(show_head, show_tail, bytes_of(chunks));
    preview::lemma_texts_joined(
        preview::shown_by_chunks(s.preview, bytes_of(chunks)),
        preview::after_chunks(s.preview, bytes_of(chunks)).shown_at_end(),
    );
    let done = done_over(s, events);
    assert(done.log =~= bytes_of(chunks).flatten());
    assert(done.stderr =~= seq![
        cli::redirected(path@),
        cli::exited(reported_code(code) as int),
    ]);
}

/// With neither flag, nothing is printed to standard output.
pub proof fn law_no_flags_no_output(
    program: Seq<char>,
    path: String,
    chunks: Seq<Vec<u8>>,
    code: Option<i32>,
)
    ensures
        done_over(
            RunState::start(program, false, false),
            events_so_far(path, chunks).push(RunEvent::Exited(code)),
        ).stdout == Seq::<Seq<char>>::empty(),
{
    law_run_of_a_command(program, false, false, path, chunks, code);
    assert(preview::texts(Seq::<Seq<u8>>::empty() + Seq::<Seq<u8>>::empty()) =~= seq![]);
}

/// A run whose command cannot be started: the log file stays empty, nothing
/// is printed to standard output, standard error says why, and the exit code
/// is 127.
pub proof fn law_run_that_cannot_start(s: RunState, path: String, error: String)
    requires
        s.phase == Phase::Preparing,
    ensures
        ({
            let events = seq![RunEvent::LogReady(path), RunEvent::SpawnFailed(error)];
            let done = done_over(s, events);
            &&& possible(s, events)
            &&& done.log == Seq::<u8>::empty()
            &&& done.stdout == Seq::<Seq<char>>::empty()
            &&& done.stderr == seq![
                cli::redirected(path@),
                cli::spawn_failed(s.program, error@),
            ]
            &&& done.exit_code == Some(127i32)
            &&& state_after(s, events).phase == Phase::Ended
        }),
{
    let events = seq![RunEvent::LogReady(path), RunEvent::SpawnFailed(error)];
    let first = seq![RunEvent::LogReady(path)];
    assert(events.drop_last() =~= first);
    assert(first.drop_last() =~= seq![]);
    reveal_with_fuel(possible, 3);
    reveal_with_fuel(state_after, 3);
    reveal_with_fuel(done_over, 3);
    let done = done_over(s, events);
    assert(done.log =~= seq![]);
    assert(done.stdout =~= seq![]);
    assert(done.stderr =~= seq![cli::redirected(path@), cli::spawn_failed(s.program, error@)]);
}

/// A run that ends with the exit code of its command: whatever the code is, it
/// is the one that the wrapper exits with and reports, and 128 where there is
/// none. `events` are the events of the run in their order, `output` is what
/// the command has written, chunk by chunk.
pub proof fn law_exit_code_is_the_commands_own(
    program: Seq<char>,
    show_head: bool,
    show_tail: bool,
    path: String,
    chunks: Seq<Vec<u8>>,
    code: Option<i32>,
    events: Seq<RunEvent>,
    output: Seq<Seq<u8>>,
)
    requires
        events.len() == chunks.len() + 3,
        events[0] == RunEvent::LogReady(path),
        events[1] == RunEvent::Spawned,
        forall|i: int|
            0 <= i < chunks.len() ==> events[i + 2] == RunEvent::Output(#[trigger] chunks[i]),
        events[chunks.len() as int + 2] == RunEvent::Exited(code),
        output.len() == chunks.len(),
        forall|i: int| 0 <= i < chunks.len() ==> (#[trigger] chunks[i])@ == output[i],
    ensures
        ({
            let s = RunState::start(program, show_head, show_tail);
            let done = done_over(s, events);
            &&& possible(s, events)
            &&& state_after(s, events).phase == Phase::Ended
            &&& done.log == output.flatten()
            &&& done.stderr.len() == 2
            &&& done.stderr[0] == "llmtmplog: stdout & stderr redirected to "@ + path@
            &&& code matches Some(c) ==> {
                &&& done.exit_code == Some(c)
                &&& done.stderr[1] == "llmtmplog: EXIT_CODE="@ + decimal::signed_decimal(c as int)
            }
            &&& code is None ==> {
                &&& done.exit_code == Some(128i32)
                &&& done.stderr[1] == "llmtmplog: EXIT_CODE="@ + decimal::signed_decimal(128)
            }
            &&& !show_head && !show_tail ==> done.stdout.len() == 0
        }),
{
    law_run_of_a_command(program, show_head, show_tail, path, chunks, code);
    lemma_events(path, chunks, output, events.drop_last());
    assert(events =~= events_so_far(path, chunks).push(RunEvent::Exited(code)));
    if !show_head && !show_tail {
        law_no_flags_no_output(program, path, chunks, code);
    }
}

proof fn lemma_events(
    path: String,
    chunks: Seq<Vec<u8>>,
    output: Seq<Seq<u8>>,
    events: Seq<RunEvent>,
)
    requires
        events.len() == chunks.len() + 2,
        events[0] == RunEvent::LogReady(path),
        events[1] == RunEvent::Spawned,
        forall|i: int|
            0 <= i < chunks.len() ==> events[i + 2] == RunEvent::Output(#[trigger] chunks[i]),
        output.len() == chunks.len(),
        forall|i: int| 0 <= i < chunks.len() ==> (#[trigger] chunks[i])@ == output[i],
    ensures
        events == events_so_far(path, chunks),
        output == bytes_of(chunks),
{
    let expected = events_so_far(path, chunks);
    assert forall|i: int| 0 <= i < events.len() implies events[i] == expected[i] by {
        if i >= 2 {
            assert(events[(i - 2) + 2] == RunEvent::Output(chunks[i - 2]));
        }
    }
    assert(events =~= expected);
    assert(output =~= bytes_of(chunks));
}

/// Standard output at the end of a run holds, line by line as they are shown,
/// the first 50 lines of the output if the head is asked for and then the last
/// 50 lines if the tail is asked for.
pub proof fn law_standard_output_of_a_run(
    program: Seq<char>,
    show_head: bool,
    show_tail: bool,
    path: String,
    chunks: Seq<Vec<u8>>,
    code: Option<i32>,
    events: Seq<RunEvent>,
    output: Seq<Seq<u8>>,
)
    requires
        events.len() == chunks.len() + 3,
        events[0] == RunEvent::LogReady(path),
        events[1] == RunEvent::Spawned,
        forall|i: int|
            0 <= i < chunks.len() ==> events[i + 2] == RunEvent::Output(#[trigger] chunks[i]),
        events[chunks.len() as int + 2] == RunEvent::Exited(code),
        output.len() == chunks.len(),
        forall|i: int| 0 <= i < chunks.len() ==> (#[trigger] chunks[i])@ == output[i],
    ensures
        ({
            let shown = done_over(RunState::start(program, show_head, show_tail), events).stdout;
            let all = preview::output_lines(output);
            let n = all.len() as int;
            let few = if n < 50 {
                n
            } else {
                50
            };
            let heads = if show_head {
                few
            } else {
                0
            };
            let tails = if show_tail {
                few
            } else {
                0
            };
            &&& shown.len() == heads + tails
            &&& forall|i: int|
                0 <= i < heads ==> #[trigger] shown[i] == lines::line_text(all[i])
            &&& forall|i: int|
                heads <= i < heads + tails ==> #[trigger] shown[i] == lines::line_text(
                    all[n - tails + (i - heads)],
                )
        }),
{
    law_run_of_a_command(program, show_head, show_tail, path, chunks, code);
    lemma_events(path, chunks, output, events.drop_last());
    assert(events =~= events_so_far(path, chunks).push(RunEvent::Exited(code)));
}

/// While the command runs, everything it has written is in the log file, and
/// nothing is on standard error but the path of the log file.
pub proof fn law_log_is_never_behind(
    s: RunState,
    path: String,
    chunks: Seq<Vec<u8>>,
    events: Seq<RunEvent>,
    output: Seq<Seq<u8>>,
)
    requires
        s.phase == Phase::Preparing,
        events.len() == chunks.len() + 2,
        events[0] == RunEvent::LogReady(path),
        events[1] == RunEvent::Spawned,
        forall|i: int|
            0 <= i < chunks.len() ==> events[i + 2] == RunEvent::Output(#[trigger] chunks[i]),
        output.len() == chunks.len(),
        forall|i: int| 0 <= i < chunks.len() ==> (#[trigger] chunks[i])@ == output[i],
    ensures
        possible(s, events),
        ({
            let done = done_over(s, events);
            &&& done.log == output.flatten()
            &&& done.stdout == preview::texts(preview::shown_by_chunks(s.preview, output))
            &&& done.stderr.len() == 1
            &&& done.stderr[0] == "llmtmplog: stdout & stderr redirected to "@ + path@
            &&& done.exit_code is None
        }),
{
    law_log_holds_the_output_so_far(s, path, chunks);
    lemma_events(path, chunks, output, events);
}

/// A run whose command cannot be started exits with 127 and says why; it
/// writes nothing to the log file and nothing to standard output.
pub proof fn law_failed_start_is_explained(
    program: Seq<char>,
    show_head: bool,
    show_tail: bool,
    path: String,
    error: String,
)
    ensures
        ({
            let s = RunState::start(program, show_head, show_tail);
            let events = seq![RunEvent::LogReady(path), RunEvent::SpawnFailed(error)];
            let done = done_over(s, events);
            &&& possible(s, events)
            &&& state_after(s, events).phase == Phase::Ended
            &&& done.log.len() == 0
            &&& done.stdout.len() == 0
            &&& done.stderr.len() == 2
            &&& done.stderr[0] == "llmtmplog: stdout & stderr redirected to "@ + path@
            &&& done.stderr[1] == "llmtmplog: failed to spawn `"@ + program + "`: "@ + error@
            &&& done.exit_code == Some(127i32)
        }),
{
    law_run_that_cannot_start(RunState::start(program, show_head, show_tail), path, error);
}

/// What is done in all about some events is what is done about each of them,
/// one after the other.
pub proof fn law_effects_add_up(s: RunState, events: Seq<RunEvent>, event: RunEvent)
    ensures
        done_over(s, seq![]).log.len() == 0,
        done_over(s, seq![]).stdout.len() == 0,
        done_over(s, seq![]).stderr.len() == 0,
        done_over(s, seq![]).exit_code is None,
        state_after(s, seq![]) == s,
        state_after(s, events.push(event)) == state_after(s, events).next(event),
        ({
            let before = done_over(s, events);
            let now = state_after(s, events).effects_of(event);
            let after = done_over(s, events.push(event));
            &&& after.log == before.log + now.log
            &&& after.stdout == before.stdout + now.stdout
            &&& after.stderr == before.stderr + now.stderr
            &&& after.exit_code == now.exit_code
        }),
{
    assert(events.push(event).drop_last() =~= events);
}

/// A run ends only when the command has exited or could not be started, and
/// only then is there an exit code; the command's name stays the same.
pub proof fn law_a_run_ends_with_an_exit_code(s: RunState, event: RunEvent)
    requires
        s.phase != Phase::Ended,
        s.expects(event),
    ensures
        s.next(event).phase == Phase::Ended <==> s.effects_of(event).exit_code is Some,
        s.next(event).phase == Phase::Ended <==> event is Exited || event is SpawnFailed,
        s.next(event).program == s.program,
{
}

/// Nothing happens in a run that is over, and in any other run something can.
pub proof fn law_nothing_happens_after_the_end(s: RunState, event: RunEvent)
    requires
        s.expects(event),
    ensures
        s.phase != Phase::Ended,
        event is LogReady <==> s.phase == Phase::Preparing,
        event is Spawned || event is SpawnFailed <==> s.phase == Phase::Spawning,
        event is Output || event is Exited <==> s.phase == Phase::Running,
{
}

} // verus!
