//! The sequential execution engine: a verified state machine for one
//! pipeline run, and the loop that drives it stage by stage.
//!
//! The machine owns every decision: which command runs next, what its
//! standard input must be (the previous stage's captured output), when the
//! run is complete, and how the first failure ends it. Actually spawning a
//! process, piping bytes and waiting is outside work; the caller performs
//! it one stage at a time and reports back a [`StageOutcome`].

use vstd::prelude::*;

verus! {

/// What happened when the caller tried to run one stage: the process could
/// not be spawned, its input stream could not be opened or written, its
/// exit status could not be retrieved, or it ran to an exit, successful or
/// not, with captured output and error text.
#[derive(Debug, PartialEq, Eq)]
pub enum StageOutcome {
    SpawnError { error: String },
    StdinOpenError,
    StdinWriteError { error: String },
    WaitError { error: String },
    Exited { success: bool, stdout: String, stderr: String },
}

/// Why a run ended before completing every stage. A failed stage's
/// captured standard-error text is carried verbatim; the spawn and wait
/// failures also carry the offending command line.
#[derive(Debug, PartialEq, Eq)]
pub enum RunFailure {
    SpawnFailure { command: String, error: String },
    StdinOpenFailure,
    StdinWriteFailure { error: String },
    StageExitFailure { stderr: String },
    WaitFailure { command: String, error: String },
}

impl RunFailure {
    /// The single descriptive line handed to the caller.
    pub open spec fn spec_message(&self) -> Seq<char> {
        match self {
            RunFailure::SpawnFailure { command, error } => "Failed to run command '"@ + command@
                + "': "@ + error@,
            RunFailure::StdinOpenFailure => "Failed to open stdin"@,
            RunFailure::StdinWriteFailure { error } => "Failed to write to stdin: "@ + error@,
            RunFailure::StageExitFailure { stderr } => stderr@,
            RunFailure::WaitFailure { command, error } => "Error waiting on command '"@ + command@
                + "': "@ + error@,
        }
    }

    /// Renders the failure as its descriptive line.
    pub fn message(&self) -> (r: String)
        ensures
            r@ == self.spec_message(),
    {
        match self {
            RunFailure::SpawnFailure { command, error } => "Failed to run command '".to_owned()
                .concat(command.as_str())
                .concat("': ")
                .concat(error.as_str()),
            RunFailure::StdinOpenFailure => "Failed to open stdin".to_owned(),
            RunFailure::StdinWriteFailure { error } => "Failed to write to stdin: ".to_owned()
                .concat(error.as_str()),
            RunFailure::StageExitFailure { stderr } => stderr.clone(),
            RunFailure::WaitFailure { command, error } => "Error waiting on command '".to_owned()
                .concat(command.as_str())
                .concat("': ")
                .concat(error.as_str()),
        }
    }
}

/// One pipeline run: the command lines to execute, the outputs captured so
/// far (stage `i`'s output at index `i`), and the failure that ended the
/// run, if one did.
///
/// The run is linear: while outputs are still missing and nothing failed,
/// exactly one stage is due next. Its input is the last captured output —
/// that is the piping contract — and the first stage reads empty input.
pub struct ChainRun {
    commands: Vec<String>,
    outputs: Vec<String>,
    failure: Option<RunFailure>,
}

impl ChainRun {
    /// The command lines of the run.
    pub closed spec fn spec_commands(&self) -> Seq<String> {
        self.commands@
    }

    /// The outputs captured so far, in stage order.
    pub closed spec fn spec_outputs(&self) -> Seq<String> {
        self.outputs@
    }

    /// The failure that ended the run, if any.
    pub closed spec fn spec_failure(&self) -> Option<RunFailure> {
        self.failure
    }

    /// A failure can only strike a stage that was still to run.
    pub open spec fn wf(&self) -> bool {
        &&& self.spec_outputs().len() <= self.spec_commands().len()
        &&& self.spec_failure() is Some ==> self.spec_outputs().len()
            < self.spec_commands().len()
    }

    /// Still in progress: nothing failed and stages remain.
    pub open spec fn running(&self) -> bool {
        self.spec_failure() is None && self.spec_outputs().len() < self.spec_commands().len()
    }

    /// Every stage ran successfully.
    pub open spec fn complete(&self) -> bool {
        self.spec_failure() is None && self.spec_outputs().len() == self.spec_commands().len()
    }

    /// A stage failed; the run is over.
    pub open spec fn failed(&self) -> bool {
        self.spec_failure() is Some
    }

    /// The standard input owed to the next stage: the previous stage's
    /// captured output, or empty text for the first stage.
    pub open spec fn spec_stage_input(&self) -> Seq<char> {
        if self.spec_outputs().len() == 0 {
            Seq::empty()
        } else {
            self.spec_outputs().last()@
        }
    }

    /// Starts a run over the given command lines. An empty list is
    /// complete at once, with no outputs.
    pub fn new(commands: Vec<String>) -> (r: ChainRun)
        ensures
            r.wf(),
            r.spec_commands() == commands@,
            r.spec_outputs().len() == 0,
            r.spec_failure() is None,
            commands@.len() == 0 ==> r.complete(),
    {
        ChainRun { commands, outputs: Vec::new(), failure: None }
    }

    /// Whether a stage is still due.
    pub fn is_running(&self) -> (r: bool)
        ensures
            r == self.running(),
    {
        match self.failure {
            Some(_) => false,
            None => self.outputs.len() < self.commands.len(),
        }
    }

    /// The next stage to perform, as the pair of its command line and the
    /// exact standard input it must receive; nothing when the run is over.
    pub fn next_stage(&self) -> (r: Option<(String, String)>)
        ensures
            self.running() ==> (r matches Some(p) && p.0@ == self.spec_commands()[self.spec_outputs().len() as int]@ && p.1@ == self.spec_stage_input()),
            !self.running() ==> r is None,
    {
        if !self.is_running() {
            return None;
        }
        let k = self.outputs.len();
        let input = if k == 0 {
            String::new()
        } else {
            self.outputs[k - 1].clone()
        };
        Some((self.commands[k].clone(), input))
    }

    /// Records what the caller observed for the stage that was due. A
    /// successful exit captures the stage's output; anything else ends the
    /// run with the corresponding failure, and the spawn and wait failures
    /// name the command line of the stage that was due.
    pub fn record_outcome(&mut self, outcome: StageOutcome)
        requires
            old(self).wf(),
            old(self).running(),
        ensures
            final(self).wf(),
            final(self).spec_commands() == old(self).spec_commands(),
            (outcome matches StageOutcome::Exited { success: true, stdout, .. } ==> {
                &&& final(self).spec_outputs() == old(self).spec_outputs().push(stdout)
                &&& final(self).spec_failure() is None
            }),
            (outcome matches StageOutcome::Exited { success: false, stderr, .. } ==> {
                &&& final(self).spec_outputs() == old(self).spec_outputs()
                &&& final(self).spec_failure() == Some(
                    RunFailure::StageExitFailure { stderr },
                )
            }),
            (outcome matches StageOutcome::SpawnError { error } ==> {
                &&& final(self).spec_outputs() == old(self).spec_outputs()
                &&& final(self).spec_failure() matches Some(
                    RunFailure::SpawnFailure { command, error: e },
                ) && command@ == old(self).spec_commands()[old(self).spec_outputs().len() as int]@ && e == error
            }),
            (outcome matches StageOutcome::StdinOpenError ==> {
                &&& final(self).spec_outputs() == old(self).spec_outputs()
                &&& final(self).spec_failure() == Some(RunFailure::StdinOpenFailure)
            }),
            (outcome matches StageOutcome::StdinWriteError { error } ==> {
                &&& final(self).spec_outputs() == old(self).spec_outputs()
                &&& final(self).spec_failure() == Some(
                    RunFailure::StdinWriteFailure { error },
                )
            }),
            (outcome matches StageOutcome::WaitError { error } ==> {
                &&& final(self).spec_outputs() == old(self).spec_outputs()
                &&& final(self).spec_failure() matches Some(
                    RunFailure::WaitFailure { command, error: e },
                ) && command@ == old(self).spec_commands()[old(self).spec_outputs().len() as int]@ && e == error
            }),
    {
        match outcome {
            StageOutcome::Exited { success, stdout, stderr } => {
                if success {
                    self.outputs.push(stdout);
                } else {
                    self.failure = Some(RunFailure::StageExitFailure { stderr });
                }
            },
            StageOutcome::SpawnError { error } => {
                let command = self.commands[self.outputs.len()].clone();
                self.failure = Some(RunFailure::SpawnFailure { command, error });
            },
            StageOutcome::StdinOpenError => {
                self.failure = Some(RunFailure::StdinOpenFailure);
            },
            StageOutcome::StdinWriteError { error } => {
                self.failure = Some(RunFailure::StdinWriteFailure { error });
            },
            StageOutcome::WaitError { error } => {
                let command = self.commands[self.outputs.len()].clone();
                self.failure = Some(RunFailure::WaitFailure { command, error });
            },
        }
    }

    /// The verdict of a finished run: every captured output in stage
    /// order, or the failure that ended it.
    pub fn result(self) -> (r: Result<Vec<String>, RunFailure>)
        requires
            self.wf(),
            !self.running(),
        ensures
            self.complete() ==> (r matches Ok(v) && v@ == self.spec_outputs()),
            self.failed() ==> (r matches Err(f) && Some(f) == self.spec_failure()),
    {
        match self.failure {
            Some(f) => Err(f),
            None => Ok(self.outputs),
        }
    }
}

/// The standard input owed to stage `i` of a run whose captured outputs
/// are `outputs`: the previous stage's output, or empty text for the
/// first stage.
pub open spec fn stage_input_of(outputs: Seq<Seq<char>>, i: int) -> Seq<char> {
    if i <= 0 {
        Seq::empty()
    } else {
        outputs[i - 1]
    }
}

/// Stage `i` of the run really produced `outputs[i]`: the stage executor,
/// fed the stage's command line and exactly the previous stage's output,
/// could report a successful exit whose captured output is `outputs[i]`.
pub open spec fn stage_produced<F: Fn(String, String) -> StageOutcome>(
    run_stage: F,
    commands: Seq<String>,
    outputs: Seq<Seq<char>>,
    i: int,
) -> bool {
    exists|c: String, inp: String, oc: StageOutcome|
        {
            &&& #[trigger] call_ensures(run_stage, (c, inp), oc)
            &&& c@ == commands[i]@
            &&& inp@ == stage_input_of(outputs, i)
            &&& (oc matches StageOutcome::Exited { success: true, stdout, .. } && stdout@
                == outputs[i])
        }
}

/// The views of the captured outputs.
pub open spec fn views_of(outputs: Seq<String>) -> Seq<Seq<char>> {
    outputs.map_values(|s: String| s@)
}

/// The run failure that recording `oc` produces for a stage whose
/// command line reads `command`.
pub open spec fn failure_for(oc: StageOutcome, command: Seq<char>, f: RunFailure) -> bool {
    match oc {
        StageOutcome::SpawnError { error } => (f matches RunFailure::SpawnFailure {
            command: fc,
            error: fe,
        } && fc@ == command && fe == error),
        StageOutcome::StdinOpenError => f == RunFailure::StdinOpenFailure,
        StageOutcome::StdinWriteError { error } => f == (RunFailure::StdinWriteFailure { error }),
        StageOutcome::WaitError { error } => (f matches RunFailure::WaitFailure {
            command: fc,
            error: fe,
        } && fc@ == command && fe == error),
        StageOutcome::Exited { success, stderr, .. } => !success && f == (
        RunFailure::StageExitFailure { stderr }),
    }
}

/// The failure `f` is one the stage executor could really cause at stage
/// `k`: fed stage `k`'s command line, some reportable outcome turns into
/// exactly this failure.
pub open spec fn failure_produced<F: Fn(String, String) -> StageOutcome>(
    run_stage: F,
    commands: Seq<String>,
    k: int,
    f: RunFailure,
) -> bool {
    exists|c: String, inp: String, oc: StageOutcome|
        {
            &&& #[trigger] call_ensures(run_stage, (c, inp), oc)
            &&& c@ == commands[k]@
            &&& failure_for(oc, commands[k]@, f)
        }
}

/// Runs the whole chain: each command line in order, the first stage on
/// empty input, every later stage on the previous stage's captured
/// output, stopping at the first failure. The stage executor performs the
/// outside work for one stage and reports what happened; the loop here
/// decides everything else.
///
/// An empty chain succeeds at once with no outputs. A successful run
/// yields one captured output per stage, and each is one the executor
/// could produce for that stage's command and piped input.
pub fn run_chain<F: Fn(String, String) -> StageOutcome>(commands: Vec<String>, run_stage: F) -> (r:
    Result<Vec<String>, RunFailure>)
    requires
        forall|c: String, inp: String| #[trigger] call_requires(run_stage, (c, inp)),
    ensures
        commands@.len() == 0 ==> (r matches Ok(v) && v@.len() == 0),
        (r matches Ok(v) ==> v@.len() == commands@.len()),
        (r matches Ok(v) ==> forall|i: int|
            0 <= i < v@.len() ==> stage_produced(run_stage, commands@, views_of(v@), i)),
        (r matches Err(f) ==> commands@.len() > 0 && exists|k: int|
            0 <= k < commands@.len() && #[trigger] failure_produced(run_stage, commands@, k, f)),
{
    let mut run = ChainRun::new(commands);
    loop
        invariant
            run.wf(),
            run.spec_commands() == commands@,
            forall|c: String, inp: String| #[trigger] call_requires(run_stage, (c, inp)),
            forall|i: int|
                0 <= i < run.spec_outputs().len() ==> stage_produced(
                    run_stage,
                    commands@,
                    views_of(run.spec_outputs()),
                    i,
                ),
            (run.spec_failure() matches Some(f) ==> exists|k: int|
                0 <= k < commands@.len() && #[trigger] failure_produced(
                    run_stage,
                    commands@,
                    k,
                    f,
                )),
        ensures
            run.wf(),
            run.spec_commands() == commands@,
            !run.running(),
            forall|i: int|
                0 <= i < run.spec_outputs().len() ==> stage_produced(
                    run_stage,
                    commands@,
                    views_of(run.spec_outputs()),
                    i,
                ),
            (run.spec_failure() matches Some(f) ==> exists|k: int|
                0 <= k < commands@.len() && #[trigger] failure_produced(
                    run_stage,
                    commands@,
                    k,
                    f,
                )),
        decreases commands@.len() - run.spec_outputs().len(), (if run.failed() {
            0int
        } else {
            1int
        }),
    {
        match run.next_stage() {
            None => {
                break ;
            },
            Some((command, input)) => {
                let ghost gc = command;
                let ghost gi = input;
                let ghost before = run.spec_outputs();
                let outcome = run_stage(command, input);
                let ghost goc = outcome;
                run.record_outcome(outcome);
                proof {
                    if goc matches StageOutcome::Exited { success: true, .. } {
                        let stdout = match goc {
                            StageOutcome::Exited { stdout, .. } => stdout,
                            _ => arbitrary(),
                        };
                        let now = run.spec_outputs();
                        assert(now == before.push(stdout));
                        assert forall|i: int|
                            0 <= i < now.len() implies stage_produced(
                            run_stage,
                            commands@,
                            views_of(now),
                            i,
                        ) by {
                            if i < before.len() {
                                assert(stage_produced(
                                    run_stage,
                                    commands@,
                                    views_of(before),
                                    i,
                                ));
                                let (c, inp, oc) = choose|c: String, inp: String, oc: StageOutcome|
                                    {
                                        &&& #[trigger] call_ensures(run_stage, (c, inp), oc)
                                        &&& c@ == commands@[i]@
                                        &&& inp@ == stage_input_of(views_of(before), i)
                                        &&& (oc matches StageOutcome::Exited {
                                            success: true,
                                            stdout,
                                            ..
                                        } && stdout@ == views_of(before)[i])
                                    };
                                assert(views_of(now)[i] == views_of(before)[i]);
                                if i > 0 {
                                    assert(views_of(now)[i - 1] == views_of(before)[i - 1]);
                                }
                                assert(call_ensures(run_stage, (c, inp), oc));
                            } else {
                                assert(i == before.len());
                                assert(views_of(now)[i] == stdout@);
                                assert(gi@ == stage_input_of(views_of(now), i)) by {
                                    if i > 0 {
                                        assert(views_of(now)[i - 1] == before[i - 1]@);
                                    }
                                }
                                assert(call_ensures(run_stage, (gc, gi), goc));
                            }
                        };
                    } else {
                        let k = before.len() as int;
                        let f = run.spec_failure().unwrap();
                        assert(call_ensures(run_stage, (gc, gi), goc));
                        assert(gc@ == commands@[k]@);
                        assert(failure_for(goc, commands@[k]@, f));
                        assert(failure_produced(run_stage, commands@, k, f));
                    }
                }
            },
        }
    }
    run.result()
}

} // verus!
