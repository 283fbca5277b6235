//! The `dsh web` process: how it is started, tied to the lifetime of this
//! process, and killed.
use vstd::prelude::*;

use crate::text::decimal_string;
use crate::text::{decimal, law_decimal_is_injective};

verus! {

/// What the platform asks for when processes are started and killed.
#[derive(Clone, Copy, PartialEq, Eq, Structural, Debug)]
pub enum Platform {
    /// `dsh` is often a shim that only the shell resolves, and killing a
    /// process leaves its children running.
    Windows,
    /// `dsh` is started as it is.
    Other,
}

/// Windows: the flag that keeps a console window from opening.
pub const CREATE_NO_WINDOW: u32 = 0x08000000;

/// What a standard stream of a started process is connected to.
#[derive(Clone, Copy, PartialEq, Eq, Structural, Debug)]
pub enum Stream {
    /// Nothing: reads are empty.
    Null,
    /// A pipe to this process.
    Piped,
}

/// How to start the server.
pub struct CommandLine {
    pub program: String,
    pub args: Vec<String>,
    pub stdin: Stream,
    pub stdout: Stream,
    pub stderr: Stream,
    /// The creation flags, on Windows.
    pub creation_flags: Option<u32>,
    /// Whether to bind the process to a job object, once it has started.
    pub bind_to_job: bool,
}

/// The words of the command that starts the server, the program first.
pub open spec fn command_words(platform: Platform) -> Seq<Seq<char>> {
    match platform {
        Platform::Windows => seq!["cmd"@, "/C"@, "dsh"@, "web"@, "--no-open"@],
        Platform::Other => seq!["dsh"@, "web"@, "--no-open"@],
    }
}

/// The command that starts `dsh web` without a console window and without
/// opening a browser, with nothing to read and with its output piped. On
/// Windows it goes through the shell, which resolves shims as a terminal does.
pub fn dsh_command(platform: Platform) -> (r: CommandLine)
    ensures
        seq![r.program@] + r.args.deep_view() == command_words(platform),
        seq![r.program@] + r.args.deep_view() == match platform {
            Platform::Windows => seq!["cmd"@, "/C"@, "dsh"@, "web"@, "--no-open"@],
            Platform::Other => seq!["dsh"@, "web"@, "--no-open"@],
        },
        r.stdin is Null,
        r.stdout is Piped,
        r.stderr is Piped,
        r.creation_flags == match platform {
            Platform::Windows => Some(CREATE_NO_WINDOW),
            Platform::Other => None,
        },
        r.bind_to_job == (platform == Platform::Windows),
{
    let mut args: Vec<String> = Vec::new();
    match platform {
        Platform::Windows => {
            args.push("/C".to_string());
            args.push("dsh".to_string());
            args.push("web".to_string());
            args.push("--no-open".to_string());
            let r = CommandLine {
                program: "cmd".to_string(),
                args,
                stdin: Stream::Null,
                stdout: Stream::Piped,
                stderr: Stream::Piped,
                creation_flags: Some(CREATE_NO_WINDOW),
                bind_to_job: true,
            };
            assert(seq![r.program@] + r.args.deep_view() =~= command_words(platform));
            r
        },
        Platform::Other => {
            args.push("web".to_string());
            args.push("--no-open".to_string());
            let r = CommandLine {
                program: "dsh".to_string(),
                args,
                stdin: Stream::Null,
                stdout: Stream::Piped,
                stderr: Stream::Piped,
                creation_flags: None,
                bind_to_job: false,
            };
            assert(seq![r.program@] + r.args.deep_view() =~= command_words(platform));
            r
        },
    }
}

/// What to do to get rid of a server process.
pub enum KillPlan {
    /// No process is held: nothing to do.
    Nothing,
    /// Run the program with the arguments first, if there are any, then kill
    /// the process `pid`. Do not wait for it to end.
    Kill { pid: u32, tree_kill: Option<Vec<String>> },
}

/// The program that kills a whole process tree on Windows.
pub const TREE_KILL_PROGRAM: &'static str = "taskkill";

/// Its arguments for the tree below `pid`.
pub open spec fn tree_kill_args(pid: u32) -> Seq<Seq<char>> {
    seq!["/PID"@, decimal(pid as nat), "/T"@, "/F"@]
}

/// Whether `plan` gets rid of the process that was held.
pub open spec fn kills(plan: KillPlan, held: Option<u32>, platform: Platform) -> bool {
    match held {
        Some(p) => plan matches KillPlan::Kill { pid, tree_kill } && pid == p
            && tree_kill.deep_view() == match platform {
            Platform::Windows => Some(tree_kill_args(p)),
            Platform::Other => None,
        },
        None => plan is Nothing,
    }
}

/// The server process that is to be killed when the application ends, by its
/// identifier.
pub struct DshProcess {
    pub held: Option<u32>,
}

/// Whether `plan` gets rid of the process that `before` holds, and `after`
/// holds none.
pub open spec fn kill_step(
    before: DshProcess,
    after: DshProcess,
    plan: KillPlan,
    platform: Platform,
) -> bool {
    after.held is None && kills(plan, before.held, platform)
}

impl DshProcess {
    /// No process yet.
    pub fn new() -> (r: Self)
        ensures
            r.held is None,
    {
        DshProcess { held: None }
    }

    /// Holds the process `pid` from now on.
    pub fn hold(&mut self, pid: u32)
        ensures
            final(self).held == Some(pid),
    {
        self.held = Some(pid);
    }

    /// Lets go of the process and says how to kill it. On Windows the process
    /// is the shell around the server, so its whole tree is killed first.
    pub fn kill_dsh(&mut self, platform: Platform) -> (r: KillPlan)
        ensures
            kill_step(*old(self), *final(self), r, platform),
            final(self).held is None,
            old(self).held is None ==> r is Nothing,
            old(self).held matches Some(held) ==> r is Kill && r->pid == held && (r->tree_kill is Some
                <==> platform is Windows),
            old(self).held matches Some(held) ==> platform is Windows ==> r->tree_kill->0.deep_view()
                == seq!["/PID"@, decimal(held as nat), "/T"@, "/F"@],
    {
        match self.held {
            Some(pid) => {
                self.held = None;
                let tree_kill: Option<Vec<String>> = match platform {
                    Platform::Windows => {
                        let mut args: Vec<String> = Vec::new();
                        args.push("/PID".to_string());
                        args.push(decimal_string(pid as u64));
                        args.push("/T".to_string());
                        args.push("/F".to_string());
                        assert(args.deep_view() =~= tree_kill_args(pid));
                        Some(args)
                    },
                    Platform::Other => None,
                };
                KillPlan::Kill { pid, tree_kill }
            },
            None => KillPlan::Nothing,
        }
    }
}

/// A process is killed at most once: a second kill finds nothing to do, unless
/// another process is held in between.
pub proof fn law_killed_once(
    first: DshProcess,
    second: DshProcess,
    third: DshProcess,
    plan: KillPlan,
    again: KillPlan,
    platform: Platform,
)
    requires
        kill_step(first, second, plan, platform),
        kill_step(second, third, again, platform),
    ensures
        again is Nothing,
        third == second,
{
}

/// Where the binding of the server to the lifetime of this process stands. The
/// first three name the call to make next.
#[derive(Clone, Copy, PartialEq, Eq, Structural, Debug)]
pub enum JobBinding {
    /// Create the job object.
    Create,
    /// Limit it: kill its processes when its last handle is closed.
    SetLimits,
    /// Assign the process to it.
    Assign,
    /// Done. The handle of the job has to stay open.
    Bound,
    /// The creation failed: the process may outlive a crash.
    CreateFailed,
    /// The limit was refused: the process may outlive a crash.
    SetLimitsFailed,
    /// The assignment was refused: the process may outlive a crash.
    AssignFailed,
}

/// Whether there is no call left to make.
pub open spec fn job_is_settled(state: JobBinding) -> bool {
    state !is Create && state !is SetLimits && state !is Assign
}

/// What follows a call that succeeded or failed.
pub open spec fn next_job_state(state: JobBinding, succeeded: bool) -> JobBinding {
    match state {
        JobBinding::Create => if succeeded {
            JobBinding::SetLimits
        } else {
            JobBinding::CreateFailed
        },
        JobBinding::SetLimits => if succeeded {
            JobBinding::Assign
        } else {
            JobBinding::SetLimitsFailed
        },
        JobBinding::Assign => if succeeded {
            JobBinding::Bound
        } else {
            JobBinding::AssignFailed
        },
        settled => settled,
    }
}

/// The state after a series of calls.
pub open spec fn job_state_after(calls: Seq<bool>) -> JobBinding
    decreases calls.len(),
{
    if calls.len() == 0 {
        JobBinding::Create
    } else {
        next_job_state(job_state_after(calls.drop_last()), calls.last())
    }
}

impl JobBinding {
    /// Takes the outcome of the call that the state names. A failure is not
    /// fatal: no further call is made, and the process just stays unbound.
    pub fn advance(self, succeeded: bool) -> (r: JobBinding)
        ensures
            r == next_job_state(self, succeeded),
    {
        match self {
            JobBinding::Create => if succeeded {
                JobBinding::SetLimits
            } else {
                JobBinding::CreateFailed
            },
            JobBinding::SetLimits => if succeeded {
                JobBinding::Assign
            } else {
                JobBinding::SetLimitsFailed
            },
            JobBinding::Assign => if succeeded {
                JobBinding::Bound
            } else {
                JobBinding::AssignFailed
            },
            JobBinding::Bound => JobBinding::Bound,
            JobBinding::CreateFailed => JobBinding::CreateFailed,
            JobBinding::SetLimitsFailed => JobBinding::SetLimitsFailed,
            JobBinding::AssignFailed => JobBinding::AssignFailed,
        }
    }
}

/// The process is bound exactly if all three calls were made and succeeded.
pub proof fn law_bound_after_three_successes(calls: Seq<bool>)
    ensures
        job_state_after(calls) is Bound <==> calls.len() >= 3 && calls[0] && calls[1] && calls[2],
    decreases calls.len(),
{
    reveal_with_fuel(job_state_after, 4);
    if calls.len() > 3 {
        law_bound_after_three_successes(calls.drop_last());
        law_first_failure_settles(calls.drop_last());
    }
}

/// After three calls, or after the first that failed, no further call is made
/// and nothing changes any more.
pub proof fn law_first_failure_settles(calls: Seq<bool>)
    ensures
        job_is_settled(job_state_after(calls)) <==> calls.len() >= 3 || calls.contains(false),
        job_is_settled(job_state_after(calls)) ==> forall|outcome: bool|
            next_job_state(job_state_after(calls), outcome) == job_state_after(calls),
    decreases calls.len(),
{
    if calls.len() > 0 {
        let before = calls.drop_last();
        law_first_failure_settles(before);
        if before.contains(false) {
            let i = choose|i: int| 0 <= i < before.len() && !before[i];
            assert(!calls[i]);
        } else if !calls.last() {
            assert(!calls[calls.len() - 1]);
        } else {
            assert forall|i: int| 0 <= i < calls.len() implies calls[i] by {
                if i < before.len() {
                    assert(before[i] == calls[i]);
                    assert(before.contains(before[i]));
                }
            }
            lemma_job_state_of_successes(before);
        }
    }
}

proof fn lemma_job_state_of_successes(calls: Seq<bool>)
    requires
        !calls.contains(false),
    ensures
        job_state_after(calls) == if calls.len() == 0 {
            JobBinding::Create
        } else if calls.len() == 1 {
            JobBinding::SetLimits
        } else if calls.len() == 2 {
            JobBinding::Assign
        } else {
            JobBinding::Bound
        },
    decreases calls.len(),
{
    if calls.len() > 0 {
        let before = calls.drop_last();
        assert(calls.contains(calls.last()));
        assert forall|b: bool| before.contains(b) implies calls.contains(b) by {
            let i = choose|i: int| 0 <= i < before.len() && before[i] == b;
            assert(calls[i] == b);
        }
        lemma_job_state_of_successes(before);
    }
}

/// The process that is killed is the one that was held, whatever its number,
/// and on Windows its tree is named by the same number in decimal digits.
pub proof fn law_held_process_is_killed(
    before: DshProcess,
    after: DshProcess,
    plan: KillPlan,
    platform: Platform,
    pid: u32,
)
    requires
        kill_step(before, after, plan, platform),
        before.held == Some(pid),
    ensures
        after.held is None,
        plan is Kill,
        plan->pid == pid,
        platform is Other ==> plan->tree_kill is None,
        platform is Windows ==> {
            &&& plan->tree_kill is Some
            &&& plan->tree_kill->0@.len() == 4
            &&& plan->tree_kill->0@[0]@ == "/PID"@
            &&& plan->tree_kill->0@[1]@ == decimal(pid as nat)
            &&& plan->tree_kill->0@[2]@ == "/T"@
            &&& plan->tree_kill->0@[3]@ == "/F"@
        },
{
    if platform is Windows {
        let args = plan->tree_kill->0;
        assert(args.deep_view() == tree_kill_args(pid));
        assert(args.deep_view().len() == args@.len());
        assert(args.deep_view()[0] == args@[0]@);
        assert(args.deep_view()[1] == args@[1]@);
        assert(args.deep_view()[2] == args@[2]@);
        assert(args.deep_view()[3] == args@[3]@);
    }
}

/// Where no process is held there is nothing to kill, and none is held after.
pub proof fn law_nothing_held_nothing_killed(
    before: DshProcess,
    after: DshProcess,
    plan: KillPlan,
    platform: Platform,
)
    requires
        kill_step(before, after, plan, platform),
        before.held is None,
    ensures
        plan is Nothing,
        after.held is None,
{
}

/// The arguments of the tree kill tell every two processes apart.
pub proof fn law_tree_kill_names_one_process(p: u32, q: u32)
    ensures
        tree_kill_args(p) == tree_kill_args(q) ==> p == q,
        tree_kill_args(p).len() == 4,
        tree_kill_args(p)[0] == "/PID"@,
        tree_kill_args(p)[1] == decimal(p as nat),
        tree_kill_args(p)[2] == "/T"@,
        tree_kill_args(p)[3] == "/F"@,
{
    if tree_kill_args(p) == tree_kill_args(q) {
        assert(tree_kill_args(p)[1] == tree_kill_args(q)[1]);
        law_decimal_is_injective(p as nat, q as nat);
    }
}

/// Plans for two processes differ, on either platform; on Windows already the
/// arguments of the tree kill do.
pub proof fn law_plans_tell_processes_apart(
    before1: DshProcess,
    after1: DshProcess,
    before2: DshProcess,
    after2: DshProcess,
    plan1: KillPlan,
    plan2: KillPlan,
    platform: Platform,
)
    requires
        kill_step(before1, after1, plan1, platform),
        kill_step(before2, after2, plan2, platform),
        plan1 == plan2 || (plan1 is Kill && plan2 is Kill && plan1->tree_kill is Some
            && plan1->tree_kill->0.deep_view() == plan2->tree_kill->0.deep_view()),
    ensures
        before1.held == before2.held,
{
    if before1.held is Some && before2.held is Some {
        law_held_process_is_killed(before1, after1, plan1, platform, before1.held->0);
        law_held_process_is_killed(before2, after2, plan2, platform, before2.held->0);
        law_tree_kill_names_one_process(before1.held->0, before2.held->0);
    }
}

/// The first of the three calls that fails is the one that the outcome names,
/// and the process is bound where none fails.
pub proof fn law_outcome_names_first_failure(created: bool, limited: bool, assigned: bool)
    ensures
        ({
            let first = next_job_state(JobBinding::Create, created);
            let second = next_job_state(first, limited);
            let third = next_job_state(second, assigned);
            &&& created ==> first is SetLimits
            &&& created && limited ==> second is Assign
            &&& created && limited && assigned ==> third is Bound
            &&& created && limited && !assigned ==> third is AssignFailed
            &&& created && !limited ==> second is SetLimitsFailed && third is SetLimitsFailed
            &&& !created ==> first is CreateFailed && second is CreateFailed
                && third is CreateFailed
        }),
{
}

/// No later call changes what is settled.
pub proof fn law_settled_binding_stays(state: JobBinding, succeeded: bool)
    requires
        state is Bound || state is CreateFailed || state is SetLimitsFailed
            || state is AssignFailed,
    ensures
        next_job_state(state, succeeded) == state,
{
}

} // verus!
