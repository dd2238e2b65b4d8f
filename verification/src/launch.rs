//! Finding the agent to launch.
//!
//! In order: `--agent-bin <path>` on the command line, the environment, an agent
//! that sits beside the client, and its bare name for the search path to find.
use crate::text::same;
use vstd::prelude::*;
use vstd::string::*;

verus! {

/// How a client launches its agent.
#[derive(Debug)]
pub struct AgentLaunch {
    /// The path or the bare name of the agent.
    pub agent_bin: String,
    /// What is left of the command line, for the agent.
    pub agent_args: Vec<String>,
}

/// The first place, from `i` on, where `args` holds `flag`.
pub open spec fn flag_at(args: Seq<String>, flag: Seq<char>, i: int) -> Option<int>
    decreases args.len() - i,
{
    if i < 0 || i >= args.len() {
        None
    } else if args[i]@ == flag {
        Some(i)
    } else {
        flag_at(args, flag, i + 1)
    }
}

/// The first place where `args` holds `flag`.
pub fn find_flag(args: &[String], flag: &str) -> (res: Option<usize>)
    ensures
        match res {
            Some(i) => flag_at(args@, flag@, 0) == Some(i as int) && i < args@.len(),
            None => flag_at(args@, flag@, 0) is None,
        },
{
    let mut i: usize = 0;
    while i < args.len()
        invariant
            i <= args@.len(),
            flag_at(args@, flag@, 0) == flag_at(args@, flag@, i as int),
        decreases args@.len() - i,
    {
        if same(&args[i], flag) {
            return Some(i);
        }
        i += 1;
    }
    None
}

/// The agent that is launched where the command line names none.
pub open spec fn default_bin(env_bin: Option<String>, sibling: Option<String>) -> Seq<char> {
    match (env_bin, sibling) {
        (Some(bin), sibling) => if bin@.len() > 0 {
            bin@
        } else {
            match sibling {
                Some(path) => path@,
                None => "kimi-agent"@,
            }
        },
        (None, Some(path)) => path@,
        (None, None) => "kimi-agent"@,
    }
}

impl AgentLaunch {
    /// Resolves a launch from the command line, the environment's choice and the
    /// agent that sits beside the client, if one does.
    pub fn from_args(args: Vec<String>, env_bin: Option<String>, sibling: Option<String>) -> (res:
        Result<AgentLaunch, String>)
        ensures
            match flag_at(args@, "--agent-bin"@, 0) {
                Some(pos) => if pos + 1 < args@.len() {
                    &&& res matches Ok(launch)
                    &&& launch.agent_bin == args@[pos + 1]
                    &&& launch.agent_args@ == args@.remove(pos).remove(pos)
                } else {
                    res matches Err(e) && e@ == "--agent-bin requires a path argument"@
                },
                None => {
                    &&& res matches Ok(launch)
                    &&& launch.agent_bin@ == default_bin(env_bin, sibling)
                    &&& launch.agent_args == args
                },
            },
    {
        let mut args: Vec<String> = args;
        if let Some(pos) = find_flag(&args, "--agent-bin") {
            if args.len() - pos < 2 {
                return Err("--agent-bin requires a path argument".to_owned());
            }
            let _flag: String = args.remove(pos);
            let agent_bin: String = args.remove(pos);
            return Ok(AgentLaunch { agent_bin, agent_args: args });
        }
        if let Some(bin) = env_bin {
            if !bin.as_str().is_empty() {
                return Ok(AgentLaunch { agent_bin: bin, agent_args: args });
            }
        }
        let agent_bin: String = match sibling {
            Some(path) => path,
            None => "kimi-agent".to_owned(),
        };
        Ok(AgentLaunch { agent_bin, agent_args: args })
    }
}

/// The name of an agent that sits beside the client.
pub fn sibling_name(windows: bool) -> (res: &'static str)
    ensures
        res@ == if windows {
            "kimi-agent.exe"@
        } else {
            "kimi-agent"@
        },
{
    if windows {
        "kimi-agent.exe"
    } else {
        "kimi-agent"
    }
}

/// The agent that the arguments name is run, and neither the flag nor the name goes on to
/// it; else the one that the environment names, else the one beside this program, else
/// the one of that name, with all the arguments.
pub proof fn law_which_agent_is_launched(
    args: Vec<String>,
    env_bin: Option<String>,
    sibling: Option<String>,
    res: Result<AgentLaunch, String>,
    pos: int,
)
    requires
        call_ensures(AgentLaunch::from_args, (args, env_bin, sibling), res),
    ensures
        0 <= pos < args@.len() && args@[pos]@ == "--agent-bin"@ && (forall|k: int|
            0 <= k < pos ==> (#[trigger] args@[k])@ != "--agent-bin"@) ==> if pos + 1
            < args@.len() {
            &&& res matches Ok(launch)
            &&& launch.agent_bin == args@[pos + 1]
            &&& launch.agent_args@ == args@.subrange(0, pos) + args@.subrange(
                pos + 2,
                args@.len() as int,
            )
        } else {
            res is Err
        },
        (forall|k: int| 0 <= k < args@.len() ==> (#[trigger] args@[k])@ != "--agent-bin"@) ==> {
            &&& res matches Ok(launch)
            &&& launch.agent_args@ == args@
            &&& env_bin is Some && env_bin->0@.len() > 0 ==> launch.agent_bin@ == env_bin->0@
            &&& (env_bin is None || env_bin->0@.len() == 0) && sibling is Some
                ==> launch.agent_bin@ == sibling->0@
            &&& (env_bin is None || env_bin->0@.len() == 0) && sibling is None
                ==> launch.agent_bin@ == "kimi-agent"@
        },
{
    lemma_flag_at(args@, "--agent-bin"@, 0);
    if let Some(k) = flag_at(args@, "--agent-bin"@, 0) {
        if k + 1 < args@.len() {
            assert(args@.remove(k).remove(k) =~= args@.subrange(0, k) + args@.subrange(
                k + 2,
                args@.len() as int,
            ));
        }
    }
}

proof fn lemma_flag_at(args: Seq<String>, flag: Seq<char>, i: int)
    requires
        0 <= i,
    ensures
        match flag_at(args, flag, i) {
            Some(k) => i <= k < args.len() && args[k]@ == flag && forall|j: int|
                i <= j < k ==> (#[trigger] args[j])@ != flag,
            None => forall|j: int| i <= j < args.len() ==> (#[trigger] args[j])@ != flag,
        },
    decreases args.len() - i,
{
    if i < args.len() && args[i]@ != flag {
        lemma_flag_at(args, flag, i + 1);
    }
}

/// A flag is found at the first place where it stands.
pub proof fn law_a_flag_is_found_where_it_stands(
    args: &[String],
    flag: &str,
    i: int,
    res: Option<usize>,
)
    requires
        call_ensures(find_flag, (args, flag), res),
    ensures
        0 <= i < args@.len() && args@[i]@ == flag@ ==> res is Some && res->0 <= i,
        res matches Some(k) ==> k < args@.len() && args@[k as int]@ == flag@,
{
    lemma_flag_stands(args@, flag@, 0);
}

proof fn lemma_flag_stands(args: Seq<String>, flag: Seq<char>, i: int)
    requires
        0 <= i <= args.len(),
    ensures
        match flag_at(args, flag, i) {
            Some(k) => i <= k < args.len() && args[k]@ == flag && forall|j: int|
                i <= j < k ==> (#[trigger] args[j])@ != flag,
            None => forall|j: int| i <= j < args.len() ==> (#[trigger] args[j])@ != flag,
        },
    decreases args.len() - i,
{
    if i < args.len() && args[i]@ != flag {
        lemma_flag_stands(args, flag, i + 1);
    }
}

} // verus!
