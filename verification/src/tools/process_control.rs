//! Looking at processes and services, and ending or starting them.
use crate::sorting::{is_sorted, sort_strs};
use crate::text::{
    ascii_lower, ascii_lower_str, contains, contains_str, dec, dec_str, join, join_strs, opt_text,
    replace, replace_str, str_eq, trim, trim_str, views,
};
use crate::tools::full_access::FULL_ACCESS_DISABLED;
use vstd::prelude::*;

verus! {

pub const PROCESS_CONTROL_NAME: &'static str = "process_control";

#[derive(Clone, Debug)]
pub struct ProcessControlToolInput {
    /// `list`, `info`, `kill`, `system_info`, `service_list`, `service_start` or `service_stop`.
    pub action: String,
    pub pid: Option<u32>,
    pub name_filter: Option<String>,
    pub service_name: Option<String>,
}

pub struct ProcessControlTool;

/// What a user is asked before something is done.
#[derive(Debug)]
pub struct ProcessPermission {
    pub title: String,
    pub input_value: String,
    /// The user is asked even where the tool is allowed.
    pub always_prompt: bool,
}

/// What is to be done.
#[derive(Debug)]
pub enum ProcessAction {
    List { filter: Option<String> },
    Info { pid: u32 },
    SystemInfo,
    Kill { pid: u32 },
    ServiceList,
    ServiceStart { name: String },
    ServiceStop { name: String },
    /// Nothing, for this reason.
    Refused(String),
}

pub open spec fn pid_text(pid: Option<u32>) -> Seq<char> {
    match pid {
        Some(p) => dec(p as nat),
        None => Seq::empty(),
    }
}

impl ProcessControlTool {
    /// What a user sees while the tool starts.
    pub fn initial_title(input: Option<&ProcessControlToolInput>) -> (r: String)
        ensures
            r@ == match input {
                Some(i) => match i.pid {
                    Some(pid) => "Process "@ + i.action@ + " (PID "@ + dec(pid as nat) + ")"@,
                    None => "Process "@ + i.action@,
                },
                None => "Control process"@,
            },
    {
        match input {
            Some(i) => {
                let mut r = "Process ".to_string();
                r.append(i.action.as_str());
                match i.pid {
                    Some(pid) => {
                        r.append(" (PID ");
                        r.append(dec_str(pid as u64).as_str());
                        r.append(")");
                    },
                    None => {},
                }
                r
            },
            None => "Control process".to_string(),
        }
    }

    /// Whether a process may be ended: not the idle process, nor the agent's own.
    pub fn validate_kill_pid(pid: u32, own_pid: u32) -> (r: Result<(), String>)
        ensures
            r is Err <==> pid == 0 || pid == own_pid,
            r matches Err(e) ==> e@ == "Refusing to terminate PID 0 or LEAD's own process."@,
    {
        if pid == 0 || pid == own_pid {
            Err("Refusing to terminate PID 0 or LEAD's own process.".to_string())
        } else {
            Ok(())
        }
    }

    /// What a user is asked, or why nothing is done.
    pub open spec fn permission_for(
        input: ProcessControlToolInput,
        enabled: bool,
        own_pid: u32,
    ) -> Result<(Seq<char>, Seq<char>, bool), Seq<char>> {
        let action = ascii_lower(input.action@);
        if !enabled {
            Err(FULL_ACCESS_DISABLED@)
        } else if action == "kill"@ {
            match input.pid {
                None => Err("process_control kill requires pid"@),
                Some(pid) => if pid == 0 || pid == own_pid {
                    Err("Refusing to terminate PID 0 or LEAD's own process."@)
                } else {
                    Ok(
                        (
                            "Terminate process "@ + dec(pid as nat),
                            "kill:"@ + dec(pid as nat),
                            true,
                        ),
                    )
                },
            }
        } else if action == "service_start"@ || action == "service_stop"@ {
            match input.service_name {
                Some(name) if trim(name@).len() > 0 => Ok(
                    (
                        replace(action, "_"@, " "@) + " service "@ + name@,
                        action + ":"@ + name@,
                        true,
                    ),
                ),
                _ => Err(action + " requires service_name"@),
            }
        } else {
            let value = if action == "list"@ {
                "list:"@ + match input.name_filter {
                    Some(f) => f@,
                    None => Seq::empty(),
                }
            } else if action == "info"@ {
                "info:"@ + pid_text(input.pid)
            } else {
                action
            };
            Ok(("Process "@ + replace(action, "_"@, " "@), value, false))
        }
    }

    pub fn permission(input: &ProcessControlToolInput, enabled: bool, own_pid: u32) -> (r: Result<
        ProcessPermission,
        String,
    >)
        ensures
            match Self::permission_for(*input, enabled, own_pid) {
                Ok((title, value, always)) => r matches Ok(p) && p.title@ == title
                    && p.input_value@ == value && p.always_prompt == always,
                Err(e) => r matches Err(m) && m@ == e,
            },
    {
        if !enabled {
            return Err(FULL_ACCESS_DISABLED.to_string());
        }
        proof {
            reveal_strlit("_");
        }
        let action = ascii_lower_str(input.action.as_str());
        if str_eq(action.as_str(), "kill") {
            let pid: u32 = match input.pid {
                Some(pid) => pid,
                None => {
                    return Err("process_control kill requires pid".to_string());
                },
            };
            match Self::validate_kill_pid(pid, own_pid) {
                Ok(()) => {},
                Err(e) => {
                    return Err(e);
                },
            }
            let mut title = "Terminate process ".to_string();
            title.append(dec_str(pid as u64).as_str());
            let mut input_value = "kill:".to_string();
            input_value.append(dec_str(pid as u64).as_str());
            return Ok(ProcessPermission { title, input_value, always_prompt: true });
        }
        if str_eq(action.as_str(), "service_start") || str_eq(action.as_str(), "service_stop") {
            match &input.service_name {
                Some(name) => {
                    if !trim_str(name.as_str()).as_str().is_empty() {
                        let mut title = replace_str(action.as_str(), "_", " ");
                        title.append(" service ");
                        title.append(name.as_str());
                        let mut input_value = action;
                        input_value.append(":");
                        input_value.append(name.as_str());
                        return Ok(ProcessPermission { title, input_value, always_prompt: true });
                    }
                },
                None => {},
            }
            let mut e = action;
            e.append(" requires service_name");
            return Err(e);
        }
        let mut title = "Process ".to_string();
        title.append(replace_str(action.as_str(), "_", " ").as_str());
        let input_value = if str_eq(action.as_str(), "list") {
            let mut v = "list:".to_string();
            match &input.name_filter {
                Some(f) => v.append(f.as_str()),
                None => {
                    assert("list:"@ + Seq::<char>::empty() =~= "list:"@);
                },
            }
            v
        } else if str_eq(action.as_str(), "info") {
            let mut v = "info:".to_string();
            match input.pid {
                Some(pid) => v.append(dec_str(pid as u64).as_str()),
                None => {
                    assert("info:"@ + Seq::<char>::empty() =~= "info:"@);
                },
            }
            v
        } else {
            action
        };
        Ok(ProcessPermission { title, input_value, always_prompt: false })
    }

    /// Whether `a` is what an input asks for.
    pub open spec fn is_plan(a: ProcessAction, input: ProcessControlToolInput) -> bool {
        let action = ascii_lower(input.action@);
        if action == "list"@ {
            a matches ProcessAction::List { filter } && opt_text(filter) == match input.name_filter {
                Some(f) => Some(ascii_lower(f@)),
                None => None,
            }
        } else if action == "info"@ {
            match input.pid {
                Some(p) => a matches ProcessAction::Info { pid } && pid == p,
                None => a matches ProcessAction::Refused(e) && e@
                    == "process_control info requires pid"@,
            }
        } else if action == "system_info"@ {
            a is SystemInfo
        } else if action == "kill"@ {
            match input.pid {
                Some(p) => a matches ProcessAction::Kill { pid } && pid == p,
                None => a matches ProcessAction::Refused(e) && e@
                    == "process_control kill requires pid"@,
            }
        } else if action == "service_list"@ {
            a is ServiceList
        } else if action == "service_start"@ {
            match input.service_name {
                Some(n) => a matches ProcessAction::ServiceStart { name } && name@ == n@,
                None => a matches ProcessAction::Refused(e) && e@ == SERVICE_NAME_REQUIRED@,
            }
        } else if action == "service_stop"@ {
            match input.service_name {
                Some(n) => a matches ProcessAction::ServiceStop { name } && name@ == n@,
                None => a matches ProcessAction::Refused(e) && e@ == SERVICE_NAME_REQUIRED@,
            }
        } else {
            a matches ProcessAction::Refused(e) && e@ == UNSUPPORTED_ACTION@
        }
    }

    /// What an input asks for, once it has been permitted.
    pub fn plan(input: &ProcessControlToolInput) -> (r: ProcessAction)
        ensures
            Self::is_plan(r, *input),
    {
        let action = ascii_lower_str(input.action.as_str());
        if str_eq(action.as_str(), "list") {
            ProcessAction::List {
                filter: match &input.name_filter {
                    Some(f) => Some(ascii_lower_str(f.as_str())),
                    None => None,
                },
            }
        } else if str_eq(action.as_str(), "info") {
            match input.pid {
                Some(pid) => ProcessAction::Info { pid },
                None => ProcessAction::Refused("process_control info requires pid".to_string()),
            }
        } else if str_eq(action.as_str(), "system_info") {
            ProcessAction::SystemInfo
        } else if str_eq(action.as_str(), "kill") {
            match input.pid {
                Some(pid) => ProcessAction::Kill { pid },
                None => ProcessAction::Refused("process_control kill requires pid".to_string()),
            }
        } else if str_eq(action.as_str(), "service_list") {
            ProcessAction::ServiceList
        } else if str_eq(action.as_str(), "service_start") {
            match &input.service_name {
                Some(n) => ProcessAction::ServiceStart { name: n.clone() },
                None => ProcessAction::Refused(SERVICE_NAME_REQUIRED.to_string()),
            }
        } else if str_eq(action.as_str(), "service_stop") {
            match &input.service_name {
                Some(n) => ProcessAction::ServiceStop { name: n.clone() },
                None => ProcessAction::Refused(SERVICE_NAME_REQUIRED.to_string()),
            }
        } else {
            ProcessAction::Refused(UNSUPPORTED_ACTION.to_string())
        }
    }
}

pub const UNSUPPORTED_ACTION: &'static str =
    "Unsupported action. Use list, info, kill, system_info, service_list, service_start, or service_stop.";

pub const SERVICE_NAME_REQUIRED: &'static str = "A service name is required for this action.";

pub const SERVICES_NOT_AVAILABLE: &'static str =
    "Service control is currently implemented only on Windows.";

/// A running process.
#[derive(Debug)]
pub struct ProcessRow {
    pub pid: u32,
    pub name: String,
    pub memory: u64,
    pub command: Vec<String>,
}

pub open spec fn row_text(p: ProcessRow) -> Seq<char> {
    dec(p.pid as nat) + "\t"@ + p.name@ + "\t"@ + dec(p.memory as nat) + " bytes\t"@ + join(
        views(p.command@),
        " "@,
    )
}

/// Whether a process is to be listed; the filter is in lower case.
pub open spec fn is_listed(p: ProcessRow, filter: Option<Seq<char>>) -> bool {
    filter matches Some(f) ==> contains(ascii_lower(p.name@), f)
}

/// The rows of the processes that are to be listed.
pub open spec fn row_texts(rows: Seq<ProcessRow>, filter: Option<Seq<char>>) -> Seq<Seq<char>>
    decreases rows.len(),
{
    if rows.len() == 0 {
        Seq::empty()
    } else {
        let before = row_texts(rows.drop_last(), filter);
        if is_listed(rows.last(), filter) {
            before.push(row_text(rows.last()))
        } else {
            before
        }
    }
}

/// Whether `text` holds the lines in order.
pub open spec fn is_sorted_listing(text: Seq<char>, lines: Seq<Seq<char>>) -> bool {
    exists|sorted: Seq<Seq<char>>|
        {
            &&& #[trigger] is_sorted(sorted)
            &&& sorted.to_multiset() == lines.to_multiset()
            &&& text == join(sorted, "\n"@)
        }
}

/// The processes, one a line, in the order of their lines.
pub fn list_processes(rows: &Vec<ProcessRow>, filter: &Option<String>) -> (r: String)
    ensures
        is_sorted_listing(r@, row_texts(rows@, opt_text(*filter))),
{
    let ghost f = opt_text(*filter);
    let mut lines: Vec<String> = Vec::new();
    let mut i: usize = 0;
    assert(rows@.take(0) =~= Seq::<ProcessRow>::empty());
    assert(views(lines@) =~= Seq::<Seq<char>>::empty());
    while i < rows.len()
        invariant
            i <= rows@.len(),
            f == opt_text(*filter),
            views(lines@) == row_texts(rows@.take(i as int), f),
        decreases rows@.len() - i,
    {
        let ghost before = views(lines@);
        let p = &rows[i];
        assert(rows@.take(i + 1).drop_last() =~= rows@.take(i as int));
        assert(rows@.take(i + 1).last() == p);
        let listed = match filter {
            Some(f) => contains_str(ascii_lower_str(p.name.as_str()).as_str(), f.as_str()),
            None => true,
        };
        if listed {
            let mut line = dec_str(p.pid as u64);
            line.append("\t");
            line.append(p.name.as_str());
            line.append("\t");
            line.append(dec_str(p.memory).as_str());
            line.append(" bytes\t");
            line.append(join_strs(&p.command, " ").as_str());
            let ghost l = line@;
            lines.push(line);
            assert(views(lines@) =~= before.push(l));
        }
        i = i + 1;
    }
    assert(rows@.take(rows@.len() as int) =~= rows@);
    let sorted = sort_strs(&lines);
    assert(is_sorted(views(sorted@)));
    join_strs(&sorted, "\n")
}

/// What is known of one process. The status and the share of the processor are written out.
#[derive(Debug)]
pub struct ProcessDetails {
    pub name: String,
    pub status: String,
    pub memory: u64,
    pub cpu_percent: String,
    pub command: Vec<String>,
}

pub open spec fn not_found_text(pid: u32) -> Seq<char> {
    "Process "@ + dec(pid as nat) + " was not found."@
}

fn not_found(pid: u32) -> (r: String)
    ensures
        r@ == not_found_text(pid),
{
    let mut r = "Process ".to_string();
    r.append(dec_str(pid as u64).as_str());
    r.append(" was not found.");
    r
}

pub open spec fn process_text(pid: u32, d: ProcessDetails) -> Seq<char> {
    "pid: "@ + dec(pid as nat) + "\nname: "@ + d.name@ + "\nstatus: "@ + d.status@
        + "\nmemory_bytes: "@ + dec(d.memory as nat) + "\ncpu_percent: "@ + d.cpu_percent@
        + "\ncommand: "@ + join(views(d.command@), " "@)
}

/// Describes a process, where it exists.
pub fn describe_process(pid: u32, details: Option<&ProcessDetails>) -> (r: Result<String, String>)
    ensures
        match details {
            Some(d) => r matches Ok(t) && t@ == process_text(pid, *d),
            None => r matches Err(e) && e@ == not_found_text(pid),
        },
{
    match details {
        Some(d) => {
            let mut t = "pid: ".to_string();
            t.append(dec_str(pid as u64).as_str());
            t.append("\nname: ");
            t.append(d.name.as_str());
            t.append("\nstatus: ");
            t.append(d.status.as_str());
            t.append("\nmemory_bytes: ");
            t.append(dec_str(d.memory).as_str());
            t.append("\ncpu_percent: ");
            t.append(d.cpu_percent.as_str());
            t.append("\ncommand: ");
            t.append(join_strs(&d.command, " ").as_str());
            Ok(t)
        },
        None => Err(not_found(pid)),
    }
}

/// Whether `r` tells what became of the attempt to end a process.
pub open spec fn tells_of_kill(r: Result<String, String>, pid: u32, sent: Option<bool>) -> bool {
    match sent {
        None => r matches Err(e) && e@ == not_found_text(pid),
        Some(true) => r matches Ok(t) && t@ == "Termination signal sent to process "@ + dec(
            pid as nat,
        ) + "."@,
        Some(false) => r matches Err(e) && e@ == "Failed to terminate process "@ + dec(pid as nat)
            + "."@,
    }
}

/// What became of the attempt to end a process: it was not there, or a signal was sent or not.
pub fn describe_kill(pid: u32, sent: Option<bool>) -> (r: Result<String, String>)
    ensures
        tells_of_kill(r, pid, sent),
{
    match sent {
        None => Err(not_found(pid)),
        Some(sent) => {
            if sent {
                let mut t = "Termination signal sent to process ".to_string();
                t.append(dec_str(pid as u64).as_str());
                t.append(".");
                Ok(t)
            } else {
                let mut e = "Failed to terminate process ".to_string();
                e.append(dec_str(pid as u64).as_str());
                e.append(".");
                Err(e)
            }
        },
    }
}

/// What is known of the machine.
#[derive(Debug)]
pub struct SystemDetails {
    pub host: Option<String>,
    pub os: Option<String>,
    pub os_version: Option<String>,
    pub kernel: Option<String>,
    pub architecture: String,
    pub physical_cores: Option<u64>,
    pub total_memory: u64,
    pub available_memory: u64,
}

pub open spec fn or_unknown(t: Option<String>) -> Seq<char> {
    match t {
        Some(t) => t@,
        None => "unknown"@,
    }
}

fn append_or_unknown(r: &mut String, t: &Option<String>)
    ensures
        final(r)@ == old(r)@ + or_unknown(*t),
{
    match t {
        Some(t) => r.append(t.as_str()),
        None => r.append("unknown"),
    }
}

pub open spec fn system_text(d: SystemDetails) -> Seq<char> {
    "host: "@ + or_unknown(d.host) + "\nos: "@ + or_unknown(d.os) + "\nos_version: "@ + or_unknown(
        d.os_version,
    ) + "\nkernel: "@ + or_unknown(d.kernel) + "\narchitecture: "@ + d.architecture@
        + "\nphysical_cores: "@ + dec(
        match d.physical_cores {
            Some(n) => n as nat,
            None => 0,
        },
    ) + "\ntotal_memory_bytes: "@ + dec(d.total_memory as nat) + "\navailable_memory_bytes: "@
        + dec(d.available_memory as nat)
}

pub fn describe_system(d: &SystemDetails) -> (r: String)
    ensures
        r@ == system_text(*d),
{
    let cores: u64 = match d.physical_cores {
        Some(n) => n,
        None => 0,
    };
    let mut r = "host: ".to_string();
    append_or_unknown(&mut r, &d.host);
    r.append("\nos: ");
    append_or_unknown(&mut r, &d.os);
    r.append("\nos_version: ");
    append_or_unknown(&mut r, &d.os_version);
    r.append("\nkernel: ");
    append_or_unknown(&mut r, &d.kernel);
    r.append("\narchitecture: ");
    r.append(d.architecture.as_str());
    r.append("\nphysical_cores: ");
    r.append(dec_str(cores).as_str());
    r.append("\ntotal_memory_bytes: ");
    r.append(dec_str(d.total_memory).as_str());
    r.append("\navailable_memory_bytes: ");
    r.append(dec_str(d.available_memory).as_str());
    r
}

/// The arguments with which services are controlled, where the system has that kind of services.
pub open spec fn service_arguments(
    windows: bool,
    action: Seq<char>,
    service_name: Option<Seq<char>>,
) -> Result<Seq<Seq<char>>, Seq<char>> {
    if !windows {
        Err(SERVICES_NOT_AVAILABLE@)
    } else if action == "query"@ && service_name is None {
        Ok(seq!["query"@, "type="@, "service"@, "state="@, "all"@])
    } else if (action == "start"@ || action == "stop"@) && service_name is Some {
        Ok(seq![action, service_name->0])
    } else {
        Err(SERVICE_NAME_REQUIRED@)
    }
}

/// The arguments of the command that controls services.
pub fn service_command(windows: bool, action: &str, service_name: Option<&str>) -> (r: Result<
    Vec<String>,
    String,
>)
    ensures
        match service_arguments(
            windows,
            action@,
            match service_name {
                Some(n) => Some(n@),
                None => None,
            },
        ) {
            Ok(args) => r matches Ok(v) && views(v@) == args,
            Err(e) => r matches Err(m) && m@ == e,
        },
{
    if !windows {
        return Err(SERVICES_NOT_AVAILABLE.to_string());
    }
    let mut args: Vec<String> = Vec::new();
    match service_name {
        None => {
            if str_eq(action, "query") {
                args.push("query".to_string());
                args.push("type=".to_string());
                args.push("service".to_string());
                args.push("state=".to_string());
                args.push("all".to_string());
                assert(views(args@) =~= seq!["query"@, "type="@, "service"@, "state="@, "all"@]);
                return Ok(args);
            }
        },
        Some(name) => {
            if str_eq(action, "start") || str_eq(action, "stop") {
                args.push(action.to_string());
                args.push(name.to_string());
                assert(views(args@) =~= seq![action@, name@]);
                return Ok(args);
            }
        },
    }
    Err(SERVICE_NAME_REQUIRED.to_string())
}

/// What the command that controls services came to.
#[derive(Debug)]
pub struct ServiceOutput {
    pub success: bool,
    /// How the command ended, written out.
    pub status: String,
    pub output: String,
}

/// Whether `r` tells what the command that controls services came to.
pub open spec fn tells_of_service(r: Result<String, String>, output: ServiceOutput) -> bool {
    if output.success {
        r == Ok::<String, String>(output.output)
    } else {
        r matches Err(e) && e@ == "sc.exe exited with "@ + output.status@ + ":\n"@ + output.output@
    }
}

pub fn describe_service_output(output: ServiceOutput) -> (r: Result<String, String>)
    ensures
        tells_of_service(r, output),
{
    if output.success {
        return Ok(output.output);
    }
    let mut e = "sc.exe exited with ".to_string();
    e.append(output.status.as_str());
    e.append(":\n");
    e.append(output.output.as_str());
    Err(e)
}

// ---------------------------------------------------------------------------
// The tool, one step at a time
// ---------------------------------------------------------------------------

/// What the tool waits for.
#[derive(Debug)]
pub enum ProcessRun {
    /// A user is asked whether this may be done.
    Asking { plan: ProcessAction, windows: bool },
    Listing { filter: Option<String> },
    Finding { pid: u32 },
    Describing,
    Killing { pid: u32 },
    RunningService,
    Done,
}

/// What happens.
#[derive(Debug)]
pub enum ProcessEvent {
    /// A user has answered, or why not.
    Answered(Result<(), String>),
    Listed(Vec<ProcessRow>),
    /// What is known of the process, where it exists.
    Found(Option<ProcessDetails>),
    Described(SystemDetails),
    /// Whether a signal was sent to the process, where it exists.
    Killed(Option<bool>),
    ServiceRan(Result<ServiceOutput, String>),
}

/// What is done next.
#[derive(Debug)]
pub enum ProcessStep {
    Ask(ProcessPermission),
    List,
    Find { pid: u32 },
    Describe,
    Kill { pid: u32 },
    RunService { args: Vec<String> },
    Finish(Result<String, String>),
    /// The event changes nothing.
    Wait,
}

/// Whether the tool has ended with an error.
pub open spec fn process_fails(after: ProcessRun, step: ProcessStep, text: Seq<char>) -> bool {
    &&& after is Done
    &&& step matches ProcessStep::Finish(Err(e))
    &&& e@ == text
}

/// Whether services are controlled, where that can be done.
pub open spec fn service_begins(
    windows: bool,
    action: Seq<char>,
    name: Option<Seq<char>>,
    after: ProcessRun,
    step: ProcessStep,
) -> bool {
    match service_arguments(windows, action, name) {
        Ok(arguments) => {
            &&& after is RunningService
            &&& step matches ProcessStep::RunService { args }
            &&& views(args@) == arguments
        },
        Err(e) => process_fails(after, step, e),
    }
}

/// Whether what was planned begins.
pub open spec fn plan_begins(
    plan: ProcessAction,
    windows: bool,
    after: ProcessRun,
    step: ProcessStep,
) -> bool {
    match plan {
        ProcessAction::List { filter } => after == (ProcessRun::Listing { filter }) && step is List,
        ProcessAction::Info { pid } => after == (ProcessRun::Finding { pid }) && step
            == (ProcessStep::Find { pid }),
        ProcessAction::SystemInfo => after is Describing && step is Describe,
        ProcessAction::Kill { pid } => after == (ProcessRun::Killing { pid }) && step
            == (ProcessStep::Kill { pid }),
        ProcessAction::ServiceList => service_begins(windows, "query"@, None, after, step),
        ProcessAction::ServiceStart { name } => service_begins(
            windows,
            "start"@,
            Some(name@),
            after,
            step,
        ),
        ProcessAction::ServiceStop { name } => service_begins(
            windows,
            "stop"@,
            Some(name@),
            after,
            step,
        ),
        ProcessAction::Refused(e) => process_fails(after, step, e@),
    }
}

/// Whether one step leads from `before` to `after`.
pub open spec fn process_steps(
    before: ProcessRun,
    event: ProcessEvent,
    after: ProcessRun,
    step: ProcessStep,
) -> bool {
    match (before, event) {
        (ProcessRun::Asking { plan, windows }, ProcessEvent::Answered(Ok(_))) => plan_begins(
            plan,
            windows,
            after,
            step,
        ),
        (ProcessRun::Asking { .. }, ProcessEvent::Answered(Err(e)))
        | (ProcessRun::RunningService, ProcessEvent::ServiceRan(Err(e))) => process_fails(
            after,
            step,
            e@,
        ),
        (ProcessRun::Listing { filter }, ProcessEvent::Listed(rows)) => {
            &&& after is Done
            &&& step matches ProcessStep::Finish(Ok(t))
            &&& is_sorted_listing(t@, row_texts(rows@, opt_text(filter)))
        },
        (ProcessRun::Finding { pid }, ProcessEvent::Found(Some(details))) => {
            &&& after is Done
            &&& step matches ProcessStep::Finish(Ok(t))
            &&& t@ == process_text(pid, details)
        },
        (ProcessRun::Finding { pid }, ProcessEvent::Found(None)) => process_fails(
            after,
            step,
            not_found_text(pid),
        ),
        (ProcessRun::Describing, ProcessEvent::Described(details)) => {
            &&& after is Done
            &&& step matches ProcessStep::Finish(Ok(t))
            &&& t@ == system_text(details)
        },
        (ProcessRun::Killing { pid }, ProcessEvent::Killed(sent)) => {
            &&& after is Done
            &&& step matches ProcessStep::Finish(r)
            &&& tells_of_kill(r, pid, sent)
        },
        (ProcessRun::RunningService, ProcessEvent::ServiceRan(Ok(output))) => {
            &&& after is Done
            &&& step matches ProcessStep::Finish(r)
            &&& tells_of_service(r, output)
        },
        _ => after == before && step is Wait,
    }
}

fn begin_service(windows: bool, action: &str, name: Option<&str>) -> (r: (ProcessRun, ProcessStep))
    ensures
        service_begins(
            windows,
            action@,
            match name {
                Some(n) => Some(n@),
                None => None,
            },
            r.0,
            r.1,
        ),
{
    match service_command(windows, action, name) {
        Ok(args) => (ProcessRun::RunningService, ProcessStep::RunService { args }),
        Err(e) => (ProcessRun::Done, ProcessStep::Finish(Err(e))),
    }
}

fn begin_plan(plan: ProcessAction, windows: bool) -> (r: (ProcessRun, ProcessStep))
    ensures
        plan_begins(plan, windows, r.0, r.1),
{
    match plan {
        ProcessAction::List { filter } => (ProcessRun::Listing { filter }, ProcessStep::List),
        ProcessAction::Info { pid } => (ProcessRun::Finding { pid }, ProcessStep::Find { pid }),
        ProcessAction::SystemInfo => (ProcessRun::Describing, ProcessStep::Describe),
        ProcessAction::Kill { pid } => (ProcessRun::Killing { pid }, ProcessStep::Kill { pid }),
        ProcessAction::ServiceList => begin_service(windows, "query", None),
        ProcessAction::ServiceStart { name } => begin_service(
            windows,
            "start",
            Some(name.as_str()),
        ),
        ProcessAction::ServiceStop { name } => begin_service(windows, "stop", Some(name.as_str())),
        ProcessAction::Refused(e) => (ProcessRun::Done, ProcessStep::Finish(Err(e))),
    }
}

impl ProcessRun {
    pub fn start(
        input: &ProcessControlToolInput,
        enabled: bool,
        own_pid: u32,
        windows: bool,
    ) -> (r: (ProcessRun, ProcessStep))
        ensures
            match ProcessControlTool::permission_for(*input, enabled, own_pid) {
                Err(e) => process_fails(r.0, r.1, e),
                Ok((title, value, always)) => {
                    &&& r.0 matches ProcessRun::Asking { plan, windows: w }
                    &&& ProcessControlTool::is_plan(plan, *input)
                    &&& w == windows
                    &&& r.1 matches ProcessStep::Ask(p)
                    &&& p.title@ == title
                    &&& p.input_value@ == value
                    &&& p.always_prompt == always
                },
            },
    {
        match ProcessControlTool::permission(input, enabled, own_pid) {
            Err(e) => (ProcessRun::Done, ProcessStep::Finish(Err(e))),
            Ok(p) => (
                ProcessRun::Asking { plan: ProcessControlTool::plan(input), windows },
                ProcessStep::Ask(p),
            ),
        }
    }

    pub fn step(self, event: ProcessEvent) -> (r: (ProcessRun, ProcessStep))
        ensures
            process_steps(self, event, r.0, r.1),
    {
        match (self, event) {
            (ProcessRun::Asking { plan, windows }, ProcessEvent::Answered(Ok(_))) => {
                begin_plan(plan, windows)
            },
            (ProcessRun::Asking { .. }, ProcessEvent::Answered(Err(e)))
            | (ProcessRun::RunningService, ProcessEvent::ServiceRan(Err(e))) => {
                (ProcessRun::Done, ProcessStep::Finish(Err(e)))
            },
            (ProcessRun::Listing { filter }, ProcessEvent::Listed(rows)) => {
                (ProcessRun::Done, ProcessStep::Finish(Ok(list_processes(&rows, &filter))))
            },
            (ProcessRun::Finding { pid }, ProcessEvent::Found(details)) => {
                let text = match &details {
                    Some(d) => describe_process(pid, Some(d)),
                    None => describe_process(pid, None),
                };
                (ProcessRun::Done, ProcessStep::Finish(text))
            },
            (ProcessRun::Describing, ProcessEvent::Described(details)) => {
                (ProcessRun::Done, ProcessStep::Finish(Ok(describe_system(&details))))
            },
            (ProcessRun::Killing { pid }, ProcessEvent::Killed(sent)) => {
                (ProcessRun::Done, ProcessStep::Finish(describe_kill(pid, sent)))
            },
            (ProcessRun::RunningService, ProcessEvent::ServiceRan(Ok(output))) => {
                (ProcessRun::Done, ProcessStep::Finish(describe_service_output(output)))
            },
            (run, _) => (run, ProcessStep::Wait),
        }
    }
}

/// A process is ended, or a service touched, only right after a user has allowed it. A refusal
/// ends the tool.
pub proof fn lemma_acting_needs_permission(
    before: ProcessRun,
    event: ProcessEvent,
    after: ProcessRun,
    step: ProcessStep,
)
    requires
        process_steps(before, event, after, step),
    ensures
        step is Kill || step is RunService ==> before is Asking && (event matches
            ProcessEvent::Answered(Ok(_))),
        before is Asking ==> (event matches ProcessEvent::Answered(Err(e)) ==> process_fails(
            after,
            step,
            e@,
        )),
{
}

/// The tool never ends the agent's own process, nor the idle one, and for any other the user is
/// asked even where the tool is allowed.
pub proof fn lemma_own_process_is_never_ended(
    input: ProcessControlToolInput,
    own_pid: u32,
    plan: ProcessAction,
    windows: bool,
    after: ProcessRun,
    step: ProcessStep,
)
    requires
        ProcessControlTool::permission_for(input, true, own_pid) is Ok,
        ProcessControlTool::is_plan(plan, input),
        plan_begins(plan, windows, after, step),
        step is Kill,
    ensures
        step->Kill_pid != 0,
        step->Kill_pid != own_pid,
        ProcessControlTool::permission_for(input, true, own_pid)->Ok_0.2,
{
    reveal_strlit("kill");
    reveal_strlit("list");
    reveal_strlit("info");
    reveal_strlit("system_info");
    reveal_strlit("service_list");
    reveal_strlit("service_start");
    reveal_strlit("service_stop");
}

} // verus!
