//! How a machine serves its agents: the `[serve]` section of the bridge's file,
//! the flags that override it, and the defaults below both.
use crate::json::{opt_model, Json, JsonV};
use crate::kaos::{join_path, path_below};
use crate::pattern::opt_view;
use crate::text::{cat, cat3};
use vstd::prelude::*;
use vstd::string::*;

verus! {

/// The name of the bridge's file.
pub const FILE_NAME: &'static str = "bridge.toml";

/// The `[serve]` section. What it leaves out has a default.
#[derive(Clone, Debug, PartialEq)]
pub struct ServeConfig {
    /// The address to listen on.
    pub listen: Option<String>,
    /// The agent to start.
    pub agent_bin: Option<String>,
    /// The working directory of agents that are given none.
    pub work_dir: Option<String>,
}

/// The `[serve]` section by its characters.
pub struct ServeV {
    pub listen: Option<Seq<char>>,
    pub agent_bin: Option<Seq<char>>,
    pub work_dir: Option<Seq<char>>,
}

impl ServeConfig {
    /// The section by its characters.
    pub open spec fn model(&self) -> ServeV {
        ServeV {
            listen: opt_view(self.listen),
            agent_bin: opt_view(self.agent_bin),
            work_dir: opt_view(self.work_dir),
        }
    }
}

/// A section that leaves everything out.
pub open spec fn no_serve() -> ServeV {
    ServeV { listen: None, agent_bin: None, work_dir: None }
}

impl Default for ServeConfig {
    /// A section that leaves everything out.
    fn default() -> (res: ServeConfig)
        ensures
            res.model() == no_serve(),
    {
        ServeConfig { listen: None, agent_bin: None, work_dir: None }
    }
}

/// The path of the bridge's file, in the directory that sessions share.
pub fn path(share_dir: &str) -> (res: String)
    ensures
        res@ == path_below(share_dir@, FILE_NAME@),
{
    join_path(share_dir, FILE_NAME)
}

/// The string that a setting is, where it may be left out.
pub open spec fn setting(value: Option<JsonV>) -> Option<Option<Seq<char>>> {
    match value {
        None => Some(None),
        Some(JsonV::Str(s)) => Some(Some(s)),
        Some(_) => None,
    }
}

/// The settings that a section holds, by name, or by place where it is an array.
pub open spec fn section_in(section: JsonV) -> Option<ServeV> {
    match (
        setting(section.slot("listen"@, 0)),
        setting(section.slot("agent_bin"@, 1)),
        setting(section.slot("work_dir"@, 2)),
    ) {
        (Some(listen), Some(agent_bin), Some(work_dir)) => Some(
            ServeV { listen, agent_bin, work_dir },
        ),
        _ => None,
    }
}

/// The `serve` section of a file's table; `None` where it is not of the right
/// shape. Other sections are not looked at.
pub open spec fn serve_in(table: JsonV) -> Option<ServeV> {
    match table.get("serve"@) {
        None => Some(no_serve()),
        Some(section) => if section is Obj || section is Arr {
            section_in(section)
        } else {
            None
        },
    }
}

fn read_setting(value: Option<&Json>) -> (res: Option<Option<String>>)
    ensures
        match setting(opt_model(value)) {
            Some(s) => res matches Some(r) && opt_view(r) == s,
            None => res is None,
        },
{
    match value {
        None => Some(None),
        Some(Json::Str(s)) => Some(Some(s.clone())),
        Some(_) => None,
    }
}

/// Reads the `serve` section out of a file's table.
pub fn parse_serve(table: &Json) -> (res: Option<ServeConfig>)
    ensures
        match serve_in(table.model()) {
            Some(s) => res matches Some(c) && c.model() == s,
            None => res is None,
        },
{
    broadcast use crate::json::group_json;

    let section: &Json = match table.get("serve") {
        Some(section) => section,
        None => {
            return Some(ServeConfig { listen: None, agent_bin: None, work_dir: None });
        },
    };
    if !matches!(section, Json::Obj(_) | Json::Arr(_)) {
        return None;
    }
    match (
        read_setting(section.slot("listen", 0)),
        read_setting(section.slot("agent_bin", 1)),
        read_setting(section.slot("work_dir", 2)),
    ) {
        (Some(listen), Some(agent_bin), Some(work_dir)) => Some(
            ServeConfig { listen, agent_bin, work_dir },
        ),
        _ => None,
    }
}

/// What reading the bridge's file came to.
pub enum ConfigRead {
    /// There is no such file.
    Missing,
    Unreadable(String),
    /// It is not written in its format, for that reason.
    Malformed(String),
    /// It holds this table.
    Table(Json),
}

/// The `[serve]` section, given what reading the file came to. A missing file is
/// no error, and a malformed one is: to fall back in silence would start a daemon
/// that listens where nobody asked it to. `shape` says what is wrong with a
/// section of the wrong shape.
pub fn load_serve(path: &str, read: ConfigRead, shape: &str) -> (res: Result<ServeConfig, String>)
    ensures
        match read {
            ConfigRead::Missing => res matches Ok(c) && c.model() == no_serve(),
            ConfigRead::Unreadable(err) => res matches Err(e) && e@ == "failed to read "@ + path@
                + ": "@ + err@,
            ConfigRead::Malformed(err) => res matches Err(e) && e@ == path@
                + ": invalid bridge config: "@ + err@,
            ConfigRead::Table(table) => match serve_in(table.model()) {
                Some(s) => res matches Ok(c) && c.model() == s,
                None => res matches Err(e) && e@ == path@ + ": invalid bridge config: "@ + shape@,
            },
        },
{
    match read {
        ConfigRead::Missing => Ok(ServeConfig { listen: None, agent_bin: None, work_dir: None }),
        ConfigRead::Unreadable(err) => Err(cat(&cat3("failed to read ", path, ": "), &err)),
        ConfigRead::Malformed(err) => Err(cat3(path, ": invalid bridge config: ", &err)),
        ConfigRead::Table(table) => match parse_serve(&table) {
            Some(serve) => Ok(serve),
            None => Err(cat3(path, ": invalid bridge config: ", shape)),
        },
    }
}

// ------------------------------------------------------------------ precedence

/// Where a setting came from.
pub fn source(flag: bool, config: bool) -> (res: &'static str)
    ensures
        res@ == if flag {
            "flag"@
        } else if config {
            "config"@
        } else {
            "default"@
        },
{
    if flag {
        "flag"
    } else if config {
        "config"
    } else {
        "default"
    }
}

/// The first of two that is given.
pub open spec fn first_given(a: Option<Seq<char>>, b: Option<Seq<char>>) -> Option<Seq<char>> {
    if a is Some {
        a
    } else {
        b
    }
}

fn either(a: Option<String>, b: Option<String>) -> (res: Option<String>)
    ensures
        opt_view(res) == first_given(opt_view(a), opt_view(b)),
{
    match a {
        Some(s) => Some(s),
        None => b,
    }
}

/// The address to listen on: the flag's, the file's, or the default.
pub fn resolve_listen(flag: Option<String>, config: Option<String>) -> (res: String)
    ensures
        res@ == match first_given(opt_view(flag), opt_view(config)) {
            Some(s) => s,
            None => "127.0.0.1:9000"@,
        },
{
    match either(flag, config) {
        Some(s) => s,
        None => "127.0.0.1:9000".to_owned(),
    }
}

/// The agent to start: the flag's, the file's, the environment's, the one beside
/// the daemon, or its bare name.
pub fn resolve_agent_bin(
    flag: Option<String>,
    config: Option<String>,
    env: Option<String>,
    sibling: Option<String>,
) -> (res: String)
    ensures
        ({
            let env_given = match opt_view(env) {
                Some(e) => if e.len() > 0 {
                    Some(e)
                } else {
                    None
                },
                None => None,
            };
            res@ == match first_given(
                first_given(opt_view(flag), opt_view(config)),
                first_given(env_given, opt_view(sibling)),
            ) {
                Some(s) => s,
                None => "kimi-agent"@,
            }
        }),
{
    let env: Option<String> = match env {
        Some(e) => if e.as_str().is_empty() {
            None
        } else {
            Some(e)
        },
        None => None,
    };
    match either(either(flag, config), either(env, sibling)) {
        Some(s) => s,
        None => "kimi-agent".to_owned(),
    }
}

/// The working directory of agents that are given none: the one that was named,
/// which has to exist, or the user's home where there is one.
pub fn resolve_work_dir(named: Option<String>, named_exists: bool, home: Option<String>) -> (res:
    Result<Option<String>, String>)
    ensures
        match named {
            Some(dir) => if named_exists {
                res == Ok::<Option<String>, String>(Some(dir))
            } else {
                res matches Err(e) && e@ == "--work-dir `"@ + dir@
                    + "` is not an existing directory"@
            },
            None => res == Ok::<Option<String>, String>(home),
        },
{
    match named {
        Some(dir) => if named_exists {
            Ok(Some(dir))
        } else {
            Err(cat3("--work-dir `", &dir, "` is not an existing directory"))
        },
        None => Ok(home),
    }
}

/// Every shape of empty means the defaults: a file without the section, and an
/// empty section.
pub proof fn law_empty_means_defaults(table: JsonV)
    requires
        table.get("serve"@) is None || table.get("serve"@) == Some(JsonV::Obj(seq![])),
    ensures
        serve_in(table) == Some(no_serve()),
{
}

/// A flag counts before the configuration, and the configuration before the default; what
/// is said of the source tells which it was.
pub proof fn law_flags_count_before_the_file(
    flag: Option<String>,
    config: Option<String>,
    res: String,
    from: &'static str,
)
    requires
        call_ensures(resolve_listen, (flag, config), res),
        call_ensures(source, (flag is Some, config is Some), from),
    ensures
        flag matches Some(f) ==> res@ == f@ && from@ == "flag"@,
        flag is None && config is Some ==> res@ == config->0@ && from@ == "config"@,
        flag is None && config is None ==> res@ == "127.0.0.1:9000"@ && from@ == "default"@,
{
}

/// The agent is the one that a flag names, else the configuration, else the environment
/// where it is not empty, else the one beside this program, else the one of that name.
pub proof fn law_which_agent_is_run(
    flag: Option<String>,
    config: Option<String>,
    env: Option<String>,
    sibling: Option<String>,
    res: String,
)
    requires
        call_ensures(resolve_agent_bin, (flag, config, env, sibling), res),
    ensures
        flag matches Some(f) ==> res@ == f@,
        flag is None && config is Some ==> res@ == config->0@,
        flag is None && config is None && env is Some && env->0@.len() > 0 ==> res@ == env->0@,
        flag is None && config is None && (env is None || env->0@.len() == 0) && sibling is Some
            ==> res@ == sibling->0@,
        flag is None && config is None && (env is None || env->0@.len() == 0) && sibling is None
            ==> res@ == "kimi-agent"@,
{
}

/// A directory that is named has to exist; without one the home directory is taken, if
/// there is one.
pub proof fn law_which_directory_is_taken(
    named: Option<String>,
    named_exists: bool,
    home: Option<String>,
    res: Result<Option<String>, String>,
)
    requires
        call_ensures(resolve_work_dir, (named, named_exists, home), res),
    ensures
        res is Err <==> named is Some && !named_exists,
        named is Some && named_exists ==> res == Ok::<Option<String>, String>(named),
        named is None ==> res == Ok::<Option<String>, String>(home),
{
}

/// What is read of the section for serving is the text under each of its names; any other
/// kind of value there makes the file an error, and a file that is not there says
/// nothing.
pub proof fn law_what_the_file_says(
    path: &str,
    read: ConfigRead,
    shape: &str,
    fields: Seq<(Seq<char>, JsonV)>,
    res: Result<ServeConfig, String>,
)
    requires
        call_ensures(load_serve, (path, read, shape), res),
    ensures
        read is Missing ==> (res matches Ok(c) && c.listen is None && c.agent_bin is None
            && c.work_dir is None),
        read is Unreadable || read is Malformed ==> res is Err,
        read matches ConfigRead::Table(table) ==> table.model().get("serve"@) == Some(
            JsonV::Obj(fields),
        ) ==> {
            let v = JsonV::Obj(fields);
            &&& res matches Ok(c) ==> opt_view(c.listen) == v.str_at("listen"@) && opt_view(
                c.agent_bin,
            ) == v.str_at("agent_bin"@) && opt_view(c.work_dir) == v.str_at("work_dir"@)
            &&& res is Err <==> (v.get("listen"@) is Some && v.str_at("listen"@) is None) || (v.get(
                "agent_bin"@,
            ) is Some && v.str_at("agent_bin"@) is None) || (v.get("work_dir"@) is Some
                && v.str_at("work_dir"@) is None)
        },
{
}

} // verus!
