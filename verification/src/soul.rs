//! The agent's inner life: its slash commands, its turns and steps, its retries
//! and the forks it waits for.
use crate::chat::{ChatProviderError, ChatProviderErrorKind, TokenUsage};
use crate::flow::{Flow, FlowRunner};
use crate::pattern::{lossy, text_lossy};
use crate::shell::TaskStatus;
use crate::text::{
    before, begins, cat, cat3, chars_of, comes_before, contains_str, ends, find, find_from, holds,
    lemma_before_total, lemma_before_trans, lemma_find_from, lines, lines_of, occurs_at, same, string_of,
    strip_prefix, trim, trim_str, views,
};
use crate::wire::{ContentPart, StatusUpdate, UserInput};
use vstd::prelude::*;
use vstd::string::*;
use vstd::utf8::*;

verus! {

// ------------------------------------------------------------- slash commands

/// What the name of a skill's command begins with.
pub open spec fn skill_prefix() -> Seq<char> {
    "skill:"@
}

/// What the name of a flow's command begins with.
pub open spec fn flow_prefix() -> Seq<char> {
    "flow:"@
}

/// How many moves a flow may make.
pub const DEFAULT_MAX_FLOW_MOVES: i64 = 1000;

/// The commands that every agent has.
#[derive(Clone, Copy, Debug, PartialEq, Eq, Structural)]
pub enum BuiltinSlash {
    Init,
    Compact,
    Clear,
    Yolo,
    Model,
    Fork,
}

/// A command as it is offered to clients.
#[derive(Debug)]
pub struct SlashCommandInfo {
    pub name: String,
    pub description: String,
    pub aliases: Vec<String>,
}

/// What a command does.
#[derive(Debug)]
pub enum SlashHandler {
    Builtin(BuiltinSlash),
    /// Runs the skill of that name.
    Skill(String),
    /// Walks the flow of the skill of that name.
    Flow(String),
}

/// What a skill is.
#[derive(Clone, Copy, Debug, PartialEq, Eq, Structural)]
pub enum SkillKind {
    Standard,
    Flow,
    Other,
}

/// A skill, as far as its commands are concerned.
#[derive(Debug)]
pub struct SkillInfo {
    pub name: String,
    pub description: String,
    pub kind: SkillKind,
    pub has_flow: bool,
}

/// A command by its characters.
pub struct CommandV {
    pub name: Seq<char>,
    pub description: Seq<char>,
    pub aliases: Seq<Seq<char>>,
}

/// What a command does, by characters.
pub enum HandlerV {
    Builtin(BuiltinSlash),
    Skill(Seq<char>),
    Flow(Seq<char>),
}

/// The commands and what is done under each name.
pub struct TableV {
    pub commands: Seq<CommandV>,
    pub handlers: Seq<(Seq<char>, HandlerV)>,
}

/// What a command does, by characters.
pub open spec fn handler_view(h: SlashHandler) -> HandlerV {
    match h {
        SlashHandler::Builtin(kind) => HandlerV::Builtin(kind),
        SlashHandler::Skill(name) => HandlerV::Skill(name@),
        SlashHandler::Flow(name) => HandlerV::Flow(name@),
    }
}

/// The commands of an agent, and what is done under each name and alias.
#[derive(Debug)]
pub struct SlashTable {
    pub commands: Vec<SlashCommandInfo>,
    pub handlers: Vec<(String, SlashHandler)>,
}

impl SlashTable {
    /// The table by characters.
    pub open spec fn model(&self) -> TableV {
        TableV {
            commands: Seq::new(
                self.commands@.len(),
                |i: int|
                    CommandV {
                        name: self.commands@[i].name@,
                        description: self.commands@[i].description@,
                        aliases: views(self.commands@[i].aliases@),
                    },
            ),
            handlers: Seq::new(
                self.handlers@.len(),
                |i: int| (self.handlers@[i].0@, handler_view(self.handlers@[i].1)),
            ),
        }
    }

    fn add_command(&mut self, name: &str, description: &str, alias: Option<&str>)
        ensures
            final(self).model() == (TableV {
                commands: old(self).model().commands.push(
                    CommandV {
                        name: name@,
                        description: description@,
                        aliases: match alias {
                            Some(a) => seq![a@],
                            None => seq![],
                        },
                    },
                ),
                handlers: old(self).model().handlers,
            }),
    {
        let ghost was = self.model();
        let mut aliases: Vec<String> = Vec::new();
        if let Some(a) = alias {
            aliases.push(a.to_owned());
        }
        proof {
            assert(views(aliases@) =~= match alias {
                Some(a) => seq![a@],
                None => seq![],
            });
        }
        let info: SlashCommandInfo = SlashCommandInfo {
            name: name.to_owned(),
            description: description.to_owned(),
            aliases,
        };
        self.commands.push(info);
        proof {
            assert(self.model().commands =~= was.commands.push(
                CommandV { name: name@, description: description@, aliases: views(aliases@) },
            ));
            assert(self.model().handlers =~= was.handlers);
        }
    }

    fn add_handler(&mut self, name: &str, handler: SlashHandler)
        ensures
            final(self).model() == (TableV {
                commands: old(self).model().commands,
                handlers: old(self).model().handlers.push((name@, handler_view(handler))),
            }),
    {
        let ghost was = self.model();
        self.handlers.push((name.to_owned(), handler));
        proof {
            assert(self.model().handlers =~= was.handlers.push((name@, handler_view(handler))));
            assert(self.model().commands =~= was.commands);
        }
    }

    fn add_builtin(
        &mut self,
        name: &str,
        description: &str,
        kind: BuiltinSlash,
        alias: Option<&str>,
    )
        ensures
            final(self).model() == with_builtin(
                old(self).model(),
                name@,
                description@,
                kind,
                match alias {
                    Some(a) => Some(a@),
                    None => None,
                },
            ),
    {
        self.add_command(name, description, alias);
        self.add_handler(name, SlashHandler::Builtin(kind));
        if let Some(a) = alias {
            self.add_handler(a, SlashHandler::Builtin(kind));
        }
    }

    /// Whether something is done under that name.
    pub fn knows(&self, name: &str) -> (res: bool)
        ensures
            res == known(self.model().handlers, name@),
    {
        let mut i: usize = 0;
        while i < self.handlers.len()
            invariant
                i <= self.handlers@.len(),
                forall|k: int| 0 <= k < i ==> (#[trigger] self.handlers@[k]).0@ != name@,
            decreases self.handlers@.len() - i,
        {
            if same(&self.handlers[i].0, name) {
                proof {
                    assert(self.model().handlers[i as int].0 == name@);
                }
                return true;
            }
            i += 1;
        }
        proof {
            assert forall|k: int| 0 <= k < self.model().handlers.len() implies (
            #[trigger] self.model().handlers[k]).0 != name@ by {
                assert(self.handlers@[k].0@ != name@);
            }
        }
        false
    }
}

/// Whether something is done under that name.
pub open spec fn known(handlers: Seq<(Seq<char>, HandlerV)>, name: Seq<char>) -> bool {
    exists|i: int| 0 <= i < handlers.len() && (#[trigger] handlers[i]).0 == name
}

/// A table with one more built-in command.
pub open spec fn with_builtin(
    t: TableV,
    name: Seq<char>,
    description: Seq<char>,
    kind: BuiltinSlash,
    alias: Option<Seq<char>>,
) -> TableV {
    let aliases = match alias {
        Some(a) => seq![a],
        None => seq![],
    };
    let handlers = t.handlers.push((name, HandlerV::Builtin(kind)));
    TableV {
        commands: t.commands.push(CommandV { name, description, aliases }),
        handlers: match alias {
            Some(a) => handlers.push((a, HandlerV::Builtin(kind))),
            None => handlers,
        },
    }
}

/// The commands that every agent has.
pub open spec fn builtin_table() -> TableV {
    let t0 = TableV { commands: seq![], handlers: seq![] };
    let t1 = with_builtin(
        t0,
        "init"@,
        "Analyze the codebase and generate an `AGENTS.md` file"@,
        BuiltinSlash::Init,
        None,
    );
    let t2 = with_builtin(t1, "compact"@, "Compact the context"@, BuiltinSlash::Compact, None);
    let t3 = with_builtin(
        t2,
        "clear"@,
        "Clear the context"@,
        BuiltinSlash::Clear,
        Some("reset"@),
    );
    let t4 = with_builtin(
        t3,
        "yolo"@,
        "Toggle YOLO mode (auto-approve all actions)"@,
        BuiltinSlash::Yolo,
        None,
    );
    let t5 = with_builtin(
        t4,
        "model"@,
        "Switch the LLM model (e.g. /model deepseek/deepseek-v4-pro --thinking on)"@,
        BuiltinSlash::Model,
        None,
    );
    with_builtin(
        t5,
        "fork"@,
        "Spawn a background fork that shares this conversation (e.g. /fork investigate the failing test)"@,
        BuiltinSlash::Fork,
        None,
    )
}

/// A table with a command more, unless its name is taken.
pub open spec fn with_command(
    t: TableV,
    name: Seq<char>,
    description: Seq<char>,
    handler: HandlerV,
) -> TableV {
    if known(t.handlers, name) {
        t
    } else {
        TableV {
            commands: t.commands.push(CommandV { name, description, aliases: seq![] }),
            handlers: t.handlers.push((name, handler)),
        }
    }
}

/// A table with the commands that run skills.
pub open spec fn with_skills(t: TableV, skills: Seq<SkillInfo>) -> TableV
    decreases skills.len(),
{
    if skills.len() == 0 {
        t
    } else {
        let skill = skills.last();
        let earlier = with_skills(t, skills.drop_last());
        if skill.kind == SkillKind::Other {
            earlier
        } else {
            with_command(
                earlier,
                skill_prefix() + skill.name@,
                skill.description@,
                HandlerV::Skill(skill.name@),
            )
        }
    }
}

/// A table with the commands that walk flows.
pub open spec fn with_flows(t: TableV, skills: Seq<SkillInfo>) -> TableV
    decreases skills.len(),
{
    if skills.len() == 0 {
        t
    } else {
        let skill = skills.last();
        let earlier = with_flows(t, skills.drop_last());
        if skill.kind == SkillKind::Flow && skill.has_flow {
            with_command(
                earlier,
                flow_prefix() + skill.name@,
                skill.description@,
                HandlerV::Flow(skill.name@),
            )
        } else {
            earlier
        }
    }
}

/// Whether skills stand in the order of their names.
pub open spec fn by_name(skills: Seq<SkillInfo>) -> bool {
    forall|i: int, j: int|
        0 <= i < j < skills.len() ==> !before(
            (#[trigger] skills[j]).name@,
            (#[trigger] skills[i]).name@,
        )
}

/// Puts a skill in its place among skills in the order of their names.
fn insert_skill(sorted: &mut Vec<SkillInfo>, skill: SkillInfo)
    requires
        by_name(old(sorted)@),
    ensures
        by_name(final(sorted)@),
        final(sorted)@.to_multiset() == old(sorted)@.to_multiset().insert(skill),
{
    let ghost was = sorted@;
    let mut p: usize = 0;
    while p < sorted.len() && !comes_before(&skill.name, &sorted[p].name)
        invariant
            p <= sorted@.len(),
            sorted@ == was,
            forall|k: int| 0 <= k < p ==> !before(skill.name@, (#[trigger] was[k]).name@),
        decreases sorted@.len() - p,
    {
        p += 1;
    }
    sorted.insert(p, skill);
    proof {
        let now = sorted@;
        assert(now =~= was.insert(p as int, skill));
        assert forall|i: int, j: int| 0 <= i < j < now.len() implies !before(
            (#[trigger] now[j]).name@,
            (#[trigger] now[i]).name@,
        ) by {
            if j == p {
                assert(now[i] == was[i]);
            } else if i == p {
                assert(now[j] == was[j - 1]);
                lemma_before_total(skill.name@, was[j - 1].name@);
                if j - 1 > p {
                    assert(!before(was[j - 1].name@, was[p as int].name@));
                    if before(was[j - 1].name@, skill.name@) {
                        lemma_before_trans(
                            was[j - 1].name@,
                            skill.name@,
                            was[p as int].name@,
                        );
                    }
                }
            } else {
                let a = if i < p {
                    i
                } else {
                    i - 1
                };
                let b = if j < p {
                    j
                } else {
                    j - 1
                };
                assert(now[i] == was[a] && now[j] == was[b]);
            }
        }
        assert(now.remove(p as int) =~= was);
        now.to_multiset_ensures();
        was.to_multiset_ensures();
        assert(now.to_multiset().remove(skill) == was.to_multiset());
        assert(now.to_multiset().contains(skill)) by {
            assert(now[p as int] == skill);
            assert(now.contains(skill));
        }
        assert(now.to_multiset() =~= was.to_multiset().insert(skill));
    }
}

/// The skills in the order of their names.
pub fn sort_skills(skills: Vec<SkillInfo>) -> (res: Vec<SkillInfo>)
    ensures
        by_name(res@),
        res@.to_multiset() == skills@.to_multiset(),
{
    let ghost all = skills@;
    let mut rest: Vec<SkillInfo> = skills;
    let mut sorted: Vec<SkillInfo> = Vec::new();
    proof {
        sorted@.to_multiset_ensures();
        assert(sorted@.to_multiset().add(rest@.to_multiset()) =~= all.to_multiset());
    }
    while rest.len() > 0
        invariant
            by_name(sorted@),
            sorted@.to_multiset().add(rest@.to_multiset()) == all.to_multiset(),
        decreases rest@.len(),
    {
        let ghost was = rest@;
        let ghost done = sorted@.to_multiset();
        if let Some(skill) = rest.pop() {
            proof {
                was.to_multiset_ensures();
                rest@.to_multiset_ensures();
                assert(was =~= rest@.push(skill));
                assert(was.to_multiset() =~= rest@.to_multiset().insert(skill));
            }
            insert_skill(&mut sorted, skill);
            proof {
                assert(sorted@.to_multiset().add(rest@.to_multiset()) =~= done.add(
                    was.to_multiset(),
                ));
            }
        }
    }
    proof {
        rest@.to_multiset_ensures();
        assert(rest@ =~= seq![]);
        assert(sorted@.to_multiset().add(rest@.to_multiset()) =~= sorted@.to_multiset());
    }
    sorted
}

/// The commands of an agent with these skills: the built-in ones, then for each
/// skill in the order of their names one that runs it, then for each flow one
/// that walks it. A name that is taken is not given again.
pub fn build_slash_commands(skills: Vec<SkillInfo>) -> (res: SlashTable)
    ensures
        exists|sorted: Seq<SkillInfo>|
            by_name(sorted) && sorted.to_multiset() == skills@.to_multiset() && res.model()
                == #[trigger] with_flows(with_skills(builtin_table(), sorted), sorted),
{
    let mut table: SlashTable = SlashTable { commands: Vec::new(), handlers: Vec::new() };
    proof {
        assert(table.model().commands =~= seq![]);
        assert(table.model().handlers =~= seq![]);
    }
    table.add_builtin(
        "init",
        "Analyze the codebase and generate an `AGENTS.md` file",
        BuiltinSlash::Init,
        None,
    );
    table.add_builtin("compact", "Compact the context", BuiltinSlash::Compact, None);
    table.add_builtin("clear", "Clear the context", BuiltinSlash::Clear, Some("reset"));
    table.add_builtin(
        "yolo",
        "Toggle YOLO mode (auto-approve all actions)",
        BuiltinSlash::Yolo,
        None,
    );
    table.add_builtin(
        "model",
        "Switch the LLM model (e.g. /model deepseek/deepseek-v4-pro --thinking on)",
        BuiltinSlash::Model,
        None,
    );
    table.add_builtin(
        "fork",
        "Spawn a background fork that shares this conversation (e.g. /fork investigate the failing test)",
        BuiltinSlash::Fork,
        None,
    );
    let sorted: Vec<SkillInfo> = sort_skills(skills);
    let ghost base = table.model();
    proof {
        assert(base == builtin_table());
        assert(sorted@.take(0) =~= seq![]);
    }
    let mut i: usize = 0;
    while i < sorted.len()
        invariant
            i <= sorted@.len(),
            table.model() == with_skills(base, sorted@.take(i as int)),
        decreases sorted@.len() - i,
    {
        proof {
            assert(sorted@.take(i + 1).drop_last() =~= sorted@.take(i as int));
        }
        if !matches!(sorted[i].kind, SkillKind::Other) {
            let name: String = cat("skill:", &sorted[i].name);
            if !table.knows(&name) {
                table.add_command(&name, &sorted[i].description, None);
                table.add_handler(&name, SlashHandler::Skill(sorted[i].name.clone()));
            }
        }
        i += 1;
    }
    let ghost middle = table.model();
    let mut j: usize = 0;
    proof {
        assert(sorted@.take(i as int) =~= sorted@);
    }
    while j < sorted.len()
        invariant
            j <= sorted@.len(),
            table.model() == with_flows(middle, sorted@.take(j as int)),
        decreases sorted@.len() - j,
    {
        proof {
            assert(sorted@.take(j + 1).drop_last() =~= sorted@.take(j as int));
        }
        if matches!(sorted[j].kind, SkillKind::Flow) && sorted[j].has_flow {
            let name: String = cat("flow:", &sorted[j].name);
            if !table.knows(&name) {
                table.add_command(&name, &sorted[j].description, None);
                table.add_handler(&name, SlashHandler::Flow(sorted[j].name.clone()));
            }
        }
        j += 1;
    }
    proof {
        assert(sorted@.take(j as int) =~= sorted@);
        assert(table.model() == with_flows(with_skills(builtin_table(), sorted@), sorted@));
    }
    table
}

/// Whether each name stands once.
pub open spec fn names_differ(handlers: Seq<(Seq<char>, HandlerV)>) -> bool {
    forall|i: int, j: int|
        0 <= i < j < handlers.len() ==> (#[trigger] handlers[i]).0 != (#[trigger] handlers[j]).0
}

proof fn lemma_with_command(t: TableV, name: Seq<char>, description: Seq<char>, handler: HandlerV)
    requires
        names_differ(t.handlers),
    ensures
        names_differ(with_command(t, name, description, handler).handlers),
{
    if !known(t.handlers, name) {
        let after = t.handlers.push((name, handler));
        assert forall|i: int, j: int| 0 <= i < j < after.len() implies (#[trigger] after[i]).0 != (
        #[trigger] after[j]).0 by {
            assert(t.handlers[i].0 == after[i].0);
        }
    }
}

/// Skills and flows never take a name that is taken, whatever they are called.
pub proof fn law_no_command_is_taken_twice(t: TableV, skills: Seq<SkillInfo>)
    requires
        names_differ(t.handlers),
    ensures
        names_differ(with_skills(t, skills).handlers),
        names_differ(with_flows(t, skills).handlers),
    decreases skills.len(),
{
    if skills.len() > 0 {
        law_no_command_is_taken_twice(t, skills.drop_last());
        let skill = skills.last();
        lemma_with_command(
            with_skills(t, skills.drop_last()),
            skill_prefix() + skill.name@,
            skill.description@,
            HandlerV::Skill(skill.name@),
        );
        lemma_with_command(
            with_flows(t, skills.drop_last()),
            flow_prefix() + skill.name@,
            skill.description@,
            HandlerV::Flow(skill.name@),
        );
    }
}

/// What a command call leads to.
#[derive(Debug)]
pub enum SlashAction {
    Builtin(BuiltinSlash),
    Skill(String),
    Flow(String),
    /// There is no such command, and this is said.
    Unknown(String),
}

/// The first handler under that name, from handler `i` on.
pub open spec fn handler_at(handlers: Seq<(Seq<char>, HandlerV)>, name: Seq<char>, i: int) -> Option<
    HandlerV,
>
    decreases handlers.len() - i,
{
    if i < 0 || i >= handlers.len() {
        None
    } else if handlers[i].0 == name {
        Some(handlers[i].1)
    } else {
        handler_at(handlers, name, i + 1)
    }
}

impl SlashTable {
    /// What a call of that command leads to.
    pub fn dispatch(&self, name: &str) -> (res: SlashAction)
        ensures
            match handler_at(self.model().handlers, name@, 0) {
                Some(HandlerV::Builtin(kind)) => res == SlashAction::Builtin(kind),
                Some(HandlerV::Skill(skill)) => res matches SlashAction::Skill(s) && s@ == skill,
                Some(HandlerV::Flow(skill)) => res matches SlashAction::Flow(s) && s@ == skill,
                None => res matches SlashAction::Unknown(text) && text@
                    == "Unknown slash command \"/"@ + name@ + "\"."@,
            },
    {
        let ghost all = self.model().handlers;
        let mut i: usize = 0;
        while i < self.handlers.len()
            invariant
                i <= self.handlers@.len(),
                all == self.model().handlers,
                handler_at(all, name@, 0) == handler_at(all, name@, i as int),
            decreases self.handlers@.len() - i,
        {
            proof {
                assert(all[i as int] == (
                    self.handlers@[i as int].0@,
                    handler_view(self.handlers@[i as int].1),
                ));
            }
            if same(&self.handlers[i].0, name) {
                return match &self.handlers[i].1 {
                    SlashHandler::Builtin(kind) => SlashAction::Builtin(*kind),
                    SlashHandler::Skill(skill) => SlashAction::Skill(skill.clone()),
                    SlashHandler::Flow(skill) => SlashAction::Flow(skill.clone()),
                };
            }
            i += 1;
        }
        SlashAction::Unknown(cat3("Unknown slash command \"/", name, "\"."))
    }
}

// ------------------------------------------------------------- single commands

/// The model and the thinking that the arguments of `/model` ask for: what stands
/// before `--thinking`, and whether what stands behind it turns thinking off.
pub open spec fn model_args(args: Seq<char>) -> (Seq<char>, bool) {
    match find_from(args, " --thinking"@, 0) {
        Some(i) => (
            trim(args.take(i)),
            !(holds(args.skip(i), "off"@) || holds(args.skip(i), "false"@)),
        ),
        None => (args, true),
    }
}

/// Reads the arguments of `/model`. Thinking is on unless it is turned off.
pub fn parse_model_args(args: &str) -> (res: (String, bool))
    ensures
        res.0@ == model_args(args@).0,
        res.1 == model_args(args@).1,
{
    let v: Vec<char> = chars_of(args);
    let flag: Vec<char> = chars_of(" --thinking");
    proof {
        lemma_find_from(v@, flag@, 0);
    }
    match find(&v, &flag, 0) {
        Some(i) => {
            let head: String = string_of(&v, 0, i);
            let rest: String = string_of(&v, i, v.len());
            let off: bool = contains_str(&rest, "off") || contains_str(&rest, "false");
            (trim_str(&head), !off)
        },
        None => (args.to_owned(), true),
    }
}

/// How thinking is called.
pub open spec fn on_off(thinking: bool) -> Seq<char> {
    if thinking {
        "on"@
    } else {
        "off"@
    }
}

fn say_on_off(thinking: bool) -> (res: &'static str)
    ensures
        res@ == on_off(thinking),
{
    if thinking {
        "on"
    } else {
        "off"
    }
}

/// What `/model` says without arguments.
pub fn model_status(default_model: &str, default_thinking: bool) -> (res: String)
    ensures
        res@ == "Current model: "@ + default_model@ + " (thinking: "@ + on_off(default_thinking)
            + ")"@,
{
    let mut res: String = cat3("Current model: ", default_model, " (thinking: ");
    res.append(say_on_off(default_thinking));
    res.append(")");
    res
}

/// What `/model` says of a switch.
pub fn model_switched(display_name: &str, thinking: bool) -> (res: String)
    ensures
        res@ == "Switched to "@ + display_name@ + " (thinking: "@ + on_off(thinking) + ")"@,
{
    let mut res: String = cat3("Switched to ", display_name, " (thinking: ");
    res.append(say_on_off(thinking));
    res.append(")");
    res
}

/// A model that is configured, and its provider.
#[derive(Debug)]
pub struct ModelEntry {
    pub name: String,
    pub provider: String,
}

/// The place of the model of that name, from model `i` on.
pub open spec fn model_at(models: Seq<ModelEntry>, name: Seq<char>, i: int) -> Option<int>
    decreases models.len() - i,
{
    if i < 0 || i >= models.len() {
        None
    } else if models[i].name@ == name {
        Some(i)
    } else {
        model_at(models, name, i + 1)
    }
}

/// The place of a model among those that are configured, where its provider is
/// too.
pub fn find_model(models: &[ModelEntry], providers: &[String], name: &str) -> (res: Result<
    usize,
    String,
>)
    ensures
        match model_at(models@, name@, 0) {
            None => res matches Err(e) && e@ == "Unknown model \""@ + name@ + "\""@,
            Some(i) => if views(providers@).contains(models@[i].provider@) {
                res matches Ok(k) && k == i
            } else {
                res matches Err(e) && e@ == "Provider \""@ + models@[i].provider@
                    + "\" not found for model"@
            },
        },
{
    let mut i: usize = 0;
    while i < models.len()
        invariant
            i <= models@.len(),
            model_at(models@, name@, 0) == model_at(models@, name@, i as int),
        decreases models@.len() - i,
    {
        if same(&models[i].name, name) {
            let mut j: usize = 0;
            while j < providers.len()
                invariant
                    i < models@.len(),
                    model_at(models@, name@, 0) == Some(i as int),
                    j <= providers@.len(),
                    forall|k: int|
                        0 <= k < j ==> #[trigger] providers@[k]@ != models@[i as int].provider@,
                decreases providers@.len() - j,
            {
                if same(&providers[j], &models[i].provider) {
                    proof {
                        assert(views(providers@)[j as int] == models@[i as int].provider@);
                    }
                    return Ok(i);
                }
                j += 1;
            }
            proof {
                assert forall|k: int| 0 <= k < views(providers@).len() implies views(providers@)[k]
                    != models@[i as int].provider@ by {
                    assert(providers@[k]@ != models@[i as int].provider@);
                }
            }
            return Err(cat3("Provider \"", &models[i].provider, "\" not found for model"));
        }
        i += 1;
    }
    Err(cat3("Unknown model \"", name, "\""))
}

/// Toggles the mode in which everything is approved: the new mode, and what is
/// said of it.
pub fn toggle_yolo(is_yolo: bool) -> (res: (bool, &'static str))
    ensures
        res.0 == !is_yolo,
        res.1@ == if is_yolo {
            "You only die once! Actions will require approval."@
        } else {
            "You only live once! All actions will be auto-approved."@
        },
{
    if is_yolo {
        (false, "You only die once! Actions will require approval.")
    } else {
        (true, "You only live once! All actions will be auto-approved.")
    }
}

/// What `/compact` says: there is nothing to compact, or it was done.
pub fn compact_reply(n_checkpoints: i64) -> (res: &'static str)
    ensures
        res@ == if n_checkpoints == 0 {
            "The context is empty."@
        } else {
            "The context has been compacted."@
        },
{
    if n_checkpoints == 0 {
        "The context is empty."
    } else {
        "The context has been compacted."
    }
}

/// The walk of a skill's flow.
pub fn skill_flow(flow: Flow, name: String) -> (res: FlowRunner)
    ensures
        res.flow == flow,
        res.name == Some(name),
        res.max_moves == DEFAULT_MAX_FLOW_MOVES,
{
    FlowRunner::new(flow, Some(name), DEFAULT_MAX_FLOW_MOVES)
}

/// What a skill is run with: its text and, where there is one, the user's
/// request.
pub fn skill_request(skill_text: &str, args: &str) -> (res: String)
    ensures
        res@ == if trim(args@).len() == 0 {
            skill_text@
        } else {
            skill_text@ + "\n\nUser request:\n"@ + trim(args@)
        },
{
    let extra: String = trim_str(args);
    if extra.as_str().is_empty() {
        return skill_text.to_owned();
    }
    cat3(skill_text, "\n\nUser request:\n", &extra)
}

/// What is said of a skill that cannot be loaded.
pub fn skill_failure(name: &str) -> (res: String)
    ensures
        res@ == "Failed to load skill \"/skill:"@ + name@ + "\"."@,
{
    cat3("Failed to load skill \"/skill:", name, "\".")
}

/// How full a model's context is.
#[derive(Clone, Copy, Debug, PartialEq, Eq, Structural)]
pub struct ContextFill {
    /// The bits of the share of the context that is in use.
    pub usage: u64,
    pub tokens: i64,
    pub max_tokens: i64,
}

/// The status of an agent. Where no tokens were counted none are reported, so
/// that a client keeps what it shows; where the context is not known it counts as
/// unused.
pub fn current_status_update(
    fill: Option<ContextFill>,
    model: String,
    yolo: bool,
    thinking: Option<bool>,
) -> (res: StatusUpdate)
    ensures
        res.context_usage == Some(
            match fill {
                Some(f) => f.usage,
                None => 0u64,
            },
        ),
        res.context_tokens == match fill {
            Some(f) => if f.tokens > 0 {
                Some(f.tokens)
            } else {
                None
            },
            None => None,
        },
        res.max_context_tokens == match fill {
            Some(f) => Some(f.max_tokens),
            None => None,
        },
        res.model == Some(model),
        res.yolo_enabled == Some(yolo),
        res.thinking == thinking,
        res.token_usage is None && res.message_id is None,
{
    let (context_usage, context_tokens, max_context_tokens): (u64, Option<i64>, Option<i64>) =
        match fill {
        Some(f) => {
            let tokens: Option<i64> = if f.tokens > 0 {
                Some(f.tokens)
            } else {
                None
            };
            (f.usage, tokens, Some(f.max_tokens))
        },
        None => (0, None, None),
    };
    StatusUpdate {
        model: Some(model),
        context_usage: Some(context_usage),
        context_tokens,
        max_context_tokens,
        yolo_enabled: Some(yolo),
        thinking,
        token_usage: None,
        message_id: None,
    }
}

/// The status after a step: its tokens and the id of its message, and, where its
/// tokens were counted, the share of the context in use; no numbers of tokens in the
/// context.
pub fn step_status(
    usage: Option<TokenUsage>,
    message_id: Option<String>,
    context_usage: u64,
    model: String,
    yolo: bool,
    thinking: Option<bool>,
) -> (res: StatusUpdate)
    ensures
        res == (StatusUpdate {
            model: Some(model),
            context_usage: if usage is Some {
                Some(context_usage)
            } else {
                None
            },
            context_tokens: None,
            max_context_tokens: None,
            yolo_enabled: Some(yolo),
            thinking,
            token_usage: usage,
            message_id,
        }),
{
    StatusUpdate {
        model: Some(model),
        context_usage: if usage.is_some() {
            Some(context_usage)
        } else {
            None
        },
        context_tokens: None,
        max_context_tokens: None,
        yolo_enabled: Some(yolo),
        thinking,
        token_usage: usage,
        message_id,
    }
}

/// What the agent is told after `/init`; `agents_md` is what the project's
/// `AGENTS.md` holds, if there is one.
pub fn init_note(agents_md: Option<String>) -> (res: String)
    ensures
        res@
            == "The user just ran `/init` slash command. The system has analyzed the codebase and generated an `AGENTS.md` file. Latest AGENTS.md file content:\n"@
            + match agents_md {
            Some(text) => text@,
            None => ""@,
        },
{
    let text: String = match agents_md {
        Some(text) => text,
        None => "".to_owned(),
    };
    cat(
        "The user just ran `/init` slash command. The system has analyzed the codebase and generated an `AGENTS.md` file. Latest AGENTS.md file content:\n",
        &text,
    )
}

// ----------------------------------------------------------------------- forks

/// The id that the first line of that kind among `all` gives.
pub open spec fn task_id_in(all: Seq<Seq<char>>, i: int) -> Seq<char>
    decreases all.len() - i,
{
    if i < 0 || i >= all.len() {
        seq![]
    } else if begins(all[i], "Task ID:"@) {
        trim(all[i].skip("Task ID:"@.len() as int))
    } else {
        task_id_in(all, i + 1)
    }
}

/// The id of the task that a fork's output names; empty where it names none.
pub fn find_task_id(output: &str) -> (res: String)
    ensures
        res@ == task_id_in(lines(output@), 0),
{
    let all: Vec<String> = lines_of(output);
    let mut i: usize = 0;
    proof {
        assert(views(all@).len() == all@.len());
    }
    while i < all.len()
        invariant
            i <= all@.len(),
            views(all@) == lines(output@),
            views(all@).len() == all@.len(),
            task_id_in(views(all@), 0) == task_id_in(views(all@), i as int),
        decreases all@.len() - i,
    {
        proof {
            assert(views(all@)[i as int] == all@[i as int]@);
        }
        if let Some(rest) = strip_prefix(&all[i], "Task ID:") {
            return trim_str(&rest);
        }
        i += 1;
    }
    let res: String = String::new();
    proof {
        assert(res@ =~= seq![]);
    }
    res
}

/// What comes of `/fork` before anything is forked.
#[derive(Debug)]
pub enum ForkPlan {
    /// There is no prompt, and this is said.
    Usage(&'static str),
    /// A fork is started with this prompt.
    Start(String),
}

/// Decides what `/fork` does.
pub fn plan_fork(args: &str) -> (res: ForkPlan)
    ensures
        if trim(args@).len() == 0 {
            res matches ForkPlan::Usage(text) && text@
                == "Usage: /fork <prompt> — spawns a background fork that shares this conversation's context and works on <prompt>. You'll be notified when it finishes."@
        } else {
            res matches ForkPlan::Start(prompt) && prompt@ == trim(args@)
        },
{
    let prompt: String = trim_str(args);
    if prompt.as_str().is_empty() {
        return ForkPlan::Usage(
            "Usage: /fork <prompt> — spawns a background fork that shares this conversation's context and works on <prompt>. You'll be notified when it finishes.",
        );
    }
    ForkPlan::Start(prompt)
}

/// What the agent is told of a fork that the user started.
pub fn fork_note(prompt: &str, task_id: &str) -> (res: String)
    ensures
        res@ == if task_id@.len() == 0 {
            "The user spawned a background fork (a concurrent copy of you sharing this conversation) with the prompt: \""@
                + prompt@
                + "\". It runs independently; its result will be delivered to you automatically once it finishes."@
        } else {
            "The user spawned a background fork (a concurrent copy of you sharing this conversation), task_id="@
                + task_id@ + ", with the prompt: \""@ + prompt@
                + "\". It runs independently; its result will be delivered to you automatically once it finishes."@
        },
{
    if task_id.is_empty() {
        return cat3(
            "The user spawned a background fork (a concurrent copy of you sharing this conversation) with the prompt: \"",
            prompt,
            "\". It runs independently; its result will be delivered to you automatically once it finishes.",
        );
    }
    let mut res: String = cat3(
        "The user spawned a background fork (a concurrent copy of you sharing this conversation), task_id=",
        task_id,
        ", with the prompt: \"",
    );
    res.append(prompt);
    res.append(
        "\". It runs independently; its result will be delivered to you automatically once it finishes.",
    );
    res
}

/// What is said of a fork that could not be started.
pub fn fork_failure(message: &str) -> (res: String)
    ensures
        res@ == "Fork failed: "@ + message@,
{
    cat("Fork failed: ", message)
}

/// What the user is told of a fork.
pub fn fork_reply(task_id: &str) -> (res: String)
    ensures
        res@ == if task_id@.len() == 0 {
            "Forked into a background task. Its result will surface on your next message."@
        } else {
            "Forked into a background task (task_id="@ + task_id@
                + "). Its result will surface on your next message."@
        },
{
    if task_id.is_empty() {
        return "Forked into a background task. Its result will surface on your next message.".to_owned();
    }
    cat3(
        "Forked into a background task (task_id=",
        task_id,
        "). Its result will surface on your next message.",
    )
}

/// How many bytes of a fork's output are handed to the agent.
pub const MAX_FORK_OUTPUT: usize = 8000;

/// Where the part of an output begins that is handed on.
pub open spec fn tail_start(output: Seq<char>) -> int {
    if encode_utf8(output).len() > MAX_FORK_OUTPUT {
        encode_utf8(output).len() - MAX_FORK_OUTPUT
    } else {
        0
    }
}

/// Whether the part of an output that is handed on begins with a whole
/// character.
pub open spec fn tail_is_whole(output: Seq<char>) -> bool {
    is_char_boundary(encode_utf8(output), tail_start(output))
}

/// The last `MAX_FORK_OUTPUT` bytes of a longer output.
pub open spec fn output_tail(output: Seq<char>) -> Seq<char> {
    decode_utf8(
        encode_utf8(output).subrange(tail_start(output), encode_utf8(output).len() as int),
    )
}

/// What the agent is told of a fork that is over.
pub open spec fn finished_note(
    task_id: Seq<char>,
    status: Seq<char>,
    output: Seq<char>,
) -> Seq<char> {
    let body = if encode_utf8(output).len() > MAX_FORK_OUTPUT {
        output_tail(output) + "\n…(truncated; call TaskOutput with task_id="@ + task_id
            + " for the full output)"@
    } else if output.len() == 0 {
        "(no output)"@
    } else {
        output
    };
    "Background fork task_id="@ + task_id + " finished with status "@ + status
        + ". Its output:\n"@ + body
}

/// Tells the agent of a fork that is over. `output` is what it printed, without
/// the white space round it.
pub fn tell_finished(task_id: &str, status: &str, output: &str) -> (res: String)
    requires
        tail_is_whole(output@),
    ensures
        res@ == finished_note(task_id@, status@, output@),
{
    let mut res: String = cat3("Background fork task_id=", task_id, " finished with status ");
    res.append(status);
    res.append(". Its output:\n");
    let len: usize = output.as_bytes().len();
    let body: String = if len > MAX_FORK_OUTPUT {
        let (_head, tail): (&str, &str) = output.split_at(len - MAX_FORK_OUTPUT);
        proof {
            encode_utf8_decode_utf8(tail@);
        }
        let mut b: String = cat3(
            tail,
            "\n…(truncated; call TaskOutput with task_id=",
            task_id,
        );
        b.append(" for the full output)");
        b
    } else if output.is_empty() {
        "(no output)".to_owned()
    } else {
        output.to_owned()
    };
    res.append(&body);
    res
}

/// What is done about a fork that is waited for.
#[derive(Debug)]
pub enum ForkStep {
    /// It is not known any more: forget it.
    Forget,
    /// It is still running: wait on.
    Wait,
    /// It is over: tell the agent this.
    Tell(String),
    /// It is over, and what it printed cannot be cut without splitting a
    /// character.
    Uncuttable,
}

/// Decides what is done about a fork that is waited for. `status` is how it
/// stands and how that is written; `stdout` is what it printed.
pub fn surface_fork(task_id: &str, status: Option<(TaskStatus, String)>, stdout: &[u8]) -> (res:
    ForkStep)
    ensures
        match status {
            None => res is Forget,
            Some((s, text)) => if !s.over() {
                res is Wait
            } else if tail_is_whole(trim(lossy(stdout@))) {
                res matches ForkStep::Tell(note) && note@ == finished_note(
                    task_id@,
                    text@,
                    trim(lossy(stdout@)),
                )
            } else {
                res is Uncuttable
            },
        },
{
    let (state, text): (TaskStatus, String) = match status {
        Some(s) => s,
        None => {
            return ForkStep::Forget;
        },
    };
    if !state.is_terminal() {
        return ForkStep::Wait;
    }
    let output: String = trim_str(&text_lossy(stdout));
    let len: usize = output.as_str().as_bytes().len();
    let from: usize = if len > MAX_FORK_OUTPUT {
        len - MAX_FORK_OUTPUT
    } else {
        0
    };
    if !output.as_str().is_char_boundary(from) {
        return ForkStep::Uncuttable;
    }
    ForkStep::Tell(tell_finished(task_id, &text, &output))
}

/// What came of a fork that was waited for.
#[derive(Clone, Copy, Debug, PartialEq, Eq, Structural)]
pub enum ForkEnd {
    /// It is not known any more.
    Gone,
    /// It is still running.
    Running,
    /// The agent has been told.
    Told,
    /// The agent could not be told.
    NotTold,
}

/// Whether a fork that came to this is waited for again.
pub open spec fn waits_on(end: ForkEnd) -> bool {
    end is Running || end is NotTold
}

/// Those of the first `n` forks that are waited for again.
pub open spec fn still_waited(
    tasks: Seq<Seq<char>>,
    ends: Seq<ForkEnd>,
    n: int,
) -> Seq<Seq<char>>
    decreases n,
{
    if n <= 0 {
        seq![]
    } else if waits_on(ends[n - 1]) {
        still_waited(tasks, ends, n - 1).push(tasks[n - 1])
    } else {
        still_waited(tasks, ends, n - 1)
    }
}

/// The forks whose ends the agent waits for, in the order they were started.
#[derive(Debug)]
pub struct PendingForks {
    pub tasks: Vec<String>,
}

impl PendingForks {
    /// None at first.
    pub fn new() -> (res: PendingForks)
        ensures
            res.tasks@.len() == 0,
    {
        PendingForks { tasks: Vec::new() }
    }

    /// Waits for a fork, if it has an id.
    pub fn add_fork(&mut self, task_id: &str)
        ensures
            views(final(self).tasks@) == if task_id@.len() == 0 {
                views(old(self).tasks@)
            } else {
                views(old(self).tasks@).push(task_id@)
            },
    {
        if task_id.is_empty() {
            return ;
        }
        let ghost held = self.tasks@;
        self.tasks.push(task_id.to_owned());
        proof {
            assert(views(self.tasks@) =~= views(held).push(task_id@));
        }
    }

    /// Keeps waiting for those forks that are still running and for those whose
    /// ends the agent could not be told. `ends` holds what came of each.
    pub fn settle(&mut self, ends: &[ForkEnd])
        requires
            ends@.len() == old(self).tasks@.len(),
        ensures
            views(final(self).tasks@) == still_waited(
                views(old(self).tasks@),
                ends@,
                ends@.len() as int,
            ),
    {
        let ghost held = views(self.tasks@);
        let mut kept: Vec<String> = Vec::new();
        let mut i: usize = 0;
        proof {
            assert(views(kept@) =~= seq![]);
        }
        while i < ends.len()
            invariant
                i <= ends@.len(),
                ends@.len() == self.tasks@.len(),
                held == views(self.tasks@),
                views(kept@) == still_waited(held, ends@, i as int),
            decreases ends@.len() - i,
        {
            let ghost before = views(kept@);
            let waits: bool = match ends[i] {
                ForkEnd::Running | ForkEnd::NotTold => true,
                ForkEnd::Gone | ForkEnd::Told => false,
            };
            if waits {
                kept.push(self.tasks[i].clone());
                proof {
                    assert(views(kept@) =~= before.push(held[i as int]));
                }
            }
            i += 1;
        }
        self.tasks = kept;
    }
}

/// A fork is told of at most once: once the agent has been told of it, or it is
/// gone, it is waited for no more, and every other fork still is.
pub proof fn law_a_fork_is_told_once(tasks: Seq<Seq<char>>, ends: Seq<ForkEnd>)
    requires
        ends.len() == tasks.len(),
        tasks.no_duplicates(),
    ensures
        forall|i: int|
            0 <= i < tasks.len() ==> (still_waited(tasks, ends, ends.len() as int).contains(
                #[trigger] tasks[i],
            ) <==> waits_on(ends[i])),
{
    lemma_still_waited(tasks, ends, ends.len() as int);
}

proof fn lemma_still_waited(tasks: Seq<Seq<char>>, ends: Seq<ForkEnd>, n: int)
    requires
        0 <= n <= tasks.len(),
        ends.len() == tasks.len(),
        tasks.no_duplicates(),
    ensures
        forall|i: int|
            0 <= i < tasks.len() ==> (still_waited(tasks, ends, n).contains(#[trigger] tasks[i])
                <==> i < n && waits_on(ends[i])),
    decreases n,
{
    if n > 0 {
        lemma_still_waited(tasks, ends, n - 1);
        let before = still_waited(tasks, ends, n - 1);
        let kept = still_waited(tasks, ends, n);
        assert forall|i: int| 0 <= i < tasks.len() implies (kept.contains(#[trigger] tasks[i])
            <==> i < n && waits_on(ends[i])) by {
            if waits_on(ends[n - 1]) {
                assert(kept == before.push(tasks[n - 1]));
                assert(kept[before.len() as int] == tasks[n - 1]);
                if before.contains(tasks[i]) {
                    let k = choose|k: int| 0 <= k < before.len() && before[k] == tasks[i];
                    assert(kept[k] == tasks[i]);
                }
                if kept.contains(tasks[i]) {
                    let k = choose|k: int| 0 <= k < kept.len() && kept[k] == tasks[i];
                    if k < before.len() {
                        assert(before[k] == tasks[i]);
                    }
                }
            }
        }
    }
}

// ------------------------------------------------------------ turns and steps

/// A message of a conversation.
#[derive(Debug)]
pub struct Message {
    pub role: String,
    pub content: Vec<ContentPart>,
}

/// How a step ended that ended its turn.
#[derive(Debug)]
pub struct StepOutcome {
    pub stop_reason: &'static str,
    pub assistant_message: Message,
}

/// How a turn ended.
#[derive(Debug)]
pub struct TurnOutcome {
    pub stop_reason: &'static str,
    pub final_message: Option<Message>,
    pub step_count: i64,
}

/// A message from the agent's future self: where it goes back to, and what it
/// says.
#[derive(Debug)]
pub struct DMail {
    pub checkpoint_id: i64,
    pub message: String,
}

/// What a step came to.
#[derive(Debug)]
pub enum StepEnd {
    /// It failed.
    Failed(String),
    /// The conversation goes back to a checkpoint and on from there with this
    /// text.
    GoBack { checkpoint_id: i64, text: String },
    /// Tools were called, and the turn goes on.
    Continue,
    /// The turn may end.
    Stop(StepOutcome),
}

/// What the agent is told with a message from its future self.
pub open spec fn dmail_text(message: Seq<char>) -> Seq<char> {
    "You just got a D-Mail from your future self. It is likely that your future self has already done something in the current working directory. Please read the D-Mail and decide what to do next. You MUST NEVER mention to the user about this information. D-Mail content:\n\n"@
        + trim(message)
}

/// What a step came to whose tools have run: a rejected tool stops the turn,
/// before all else; a message from the future sends the conversation back;
/// without tool calls the turn is done.
pub fn end_step(rejected: bool, dmail: Option<DMail>, has_tool_calls: bool, message: Message) -> (res:
    StepEnd)
    ensures
        if rejected {
            res matches StepEnd::Stop(o) && o.stop_reason@ == "tool_rejected"@
                && o.assistant_message == message
        } else {
            match dmail {
                Some(mail) => res matches StepEnd::GoBack { checkpoint_id, text } && checkpoint_id
                    == mail.checkpoint_id && text@ == dmail_text(mail.message@),
                None => if has_tool_calls {
                    res is Continue
                } else {
                    res matches StepEnd::Stop(o) && o.stop_reason@ == "no_tool_calls"@
                        && o.assistant_message == message
                },
            }
        },
{
    if rejected {
        return StepEnd::Stop(
            StepOutcome { stop_reason: "tool_rejected", assistant_message: message },
        );
    }
    if let Some(mail) = dmail {
        let text: String = cat(
            "You just got a D-Mail from your future self. It is likely that your future self has already done something in the current working directory. Please read the D-Mail and decide what to do next. You MUST NEVER mention to the user about this information. D-Mail content:\n\n",
            &trim_str(&mail.message),
        );
        return StepEnd::GoBack { checkpoint_id: mail.checkpoint_id, text };
    }
    if has_tool_calls {
        return StepEnd::Continue;
    }
    StepEnd::Stop(StepOutcome { stop_reason: "no_tool_calls", assistant_message: message })
}

/// A turn under way: how many steps it has begun, and how many it may.
#[derive(Debug)]
pub struct Turn {
    pub step_no: i64,
    pub max_steps: i64,
}

/// What a turn does after a step.
#[derive(Debug)]
pub enum TurnMove {
    /// It fails; the clients are told that the step was interrupted.
    Fail(String),
    /// It goes back to a checkpoint, takes in this text, and begins another step.
    GoBack { checkpoint_id: i64, text: String },
    /// It begins another step.
    NextStep,
    /// It is over.
    Finish(TurnOutcome),
}

impl Turn {
    /// No more steps were begun than may be.
    pub open spec fn wf(&self) -> bool {
        0 <= self.step_no && (self.step_no <= self.max_steps || self.step_no == 0)
    }

    /// A turn that has begun no step.
    pub fn new(max_steps: i64) -> (res: Turn)
        ensures
            res.step_no == 0,
            res.max_steps == max_steps,
            res.wf(),
    {
        Turn { step_no: 0, max_steps }
    }

    /// Begins a step: its number, or nothing where the turn has had all its steps.
    pub fn begin_step(&mut self) -> (res: Option<i64>)
        requires
            old(self).wf(),
        ensures
            final(self).wf(),
            final(self).max_steps == old(self).max_steps,
            if old(self).step_no < old(self).max_steps {
                final(self).step_no == old(self).step_no + 1 && res == Some(final(self).step_no)
            } else {
                final(self).step_no == old(self).step_no && res is None
            },
    {
        if self.step_no >= self.max_steps {
            return None;
        }
        self.step_no = self.step_no + 1;
        Some(self.step_no)
    }

    /// Decides how the turn goes on after a step. `steered` tells whether the user
    /// sent something meanwhile: then a turn that might end goes on with it.
    pub fn after_step(&self, end: StepEnd, steered: bool) -> (res: TurnMove)
        ensures
            match end {
                StepEnd::Failed(err) => res == TurnMove::Fail(err),
                StepEnd::GoBack { checkpoint_id, text } => res == (TurnMove::GoBack {
                    checkpoint_id,
                    text,
                }),
                StepEnd::Continue => res is NextStep,
                StepEnd::Stop(outcome) => if steered {
                    res is NextStep
                } else {
                    &&& res matches TurnMove::Finish(t)
                    &&& t.stop_reason@ == outcome.stop_reason@
                    &&& t.step_count == self.step_no
                    &&& t.final_message == if outcome.stop_reason@ == "no_tool_calls"@ {
                        Some(outcome.assistant_message)
                    } else {
                        None
                    }
                },
            },
    {
        match end {
            StepEnd::Failed(err) => TurnMove::Fail(err),
            StepEnd::GoBack { checkpoint_id, text } => TurnMove::GoBack { checkpoint_id, text },
            StepEnd::Continue => TurnMove::NextStep,
            StepEnd::Stop(outcome) => {
                if steered {
                    return TurnMove::NextStep;
                }
                let final_message: Option<Message> = if same(
                    outcome.stop_reason,
                    "no_tool_calls",
                ) {
                    Some(outcome.assistant_message)
                } else {
                    None
                };
                TurnMove::Finish(
                    TurnOutcome {
                        stop_reason: outcome.stop_reason,
                        final_message,
                        step_count: self.step_no,
                    },
                )
            },
        }
    }
}

/// A turn never begins more steps than it may.
pub proof fn law_steps_are_bounded(turn: Turn)
    requires
        turn.wf(),
        turn.max_steps >= 0,
    ensures
        turn.step_no <= turn.max_steps,
{
}

/// Whether the model is shown the checkpoints of its conversation: only where it
/// has the tool that goes back to one.
pub fn shows_checkpoints(tools: &[String]) -> (res: bool)
    ensures
        res == views(tools@).contains("SendDMail"@),
{
    let mut i: usize = 0;
    while i < tools.len()
        invariant
            i <= tools@.len(),
            forall|k: int| 0 <= k < i ==> (#[trigger] views(tools@)[k]) != "SendDMail"@,
        decreases tools@.len() - i,
    {
        if same(&tools[i], "SendDMail") {
            proof {
                assert(views(tools@)[i as int] == "SendDMail"@);
            }
            return true;
        }
        i += 1;
    }
    false
}

/// What becomes of the context after a step.
#[derive(Clone, Copy, Debug, PartialEq, Eq, Structural)]
pub enum Growth {
    /// The result of this tool call needs more than the model can do, and nothing
    /// is added.
    Refuse(usize),
    /// The answer is added, then the count of tokens is set where there is one,
    /// then the results of the tool calls are added.
    Append(Option<i64>),
}

/// What an answer and its tool results add to the conversation.
pub open spec fn grows(unsupported: Seq<bool>, usage: Option<TokenUsage>, res: Growth) -> bool {
    match res {
        Growth::Refuse(i) => i < unsupported.len() && unsupported[i as int] && forall|k: int|
            0 <= k < i ==> !#[trigger] unsupported[k],
        Growth::Append(count) => {
            &&& forall|k: int| 0 <= k < unsupported.len() ==> !#[trigger] unsupported[k]
            &&& match usage {
                Some(u) => count matches Some(n) && n == u.spec_input() + u.output,
                None => count is None,
            }
        },
    }
}

/// Decides what becomes of the context after a step. `unsupported` says of the
/// result of each tool call whether it needs more than the model can do.
pub fn plan_growth(unsupported: &[bool], usage: Option<TokenUsage>) -> (res: Growth)
    requires
        usage matches Some(u) ==> u.fits(),
    ensures
        grows(unsupported@, usage, res),
{
    let mut i: usize = 0;
    while i < unsupported.len()
        invariant
            i <= unsupported@.len(),
            forall|k: int| 0 <= k < i ==> !#[trigger] unsupported@[k],
        decreases unsupported@.len() - i,
    {
        if unsupported[i] {
            return Growth::Refuse(i);
        }
        i += 1;
    }
    match usage {
        Some(u) => Growth::Append(Some(u.total())),
        None => Growth::Append(None),
    }
}

/// Whether the context has to be compacted before the next step.
pub fn needs_compaction(token_count: i64, reserved: i64, max_context_size: i64) -> (res: bool)
    requires
        i64::MIN <= token_count + reserved <= i64::MAX,
    ensures
        res == (token_count + reserved >= max_context_size),
{
    token_count + reserved >= max_context_size
}

/// What a user's input runs.
#[derive(Clone, Copy, Debug, PartialEq, Eq, Structural)]
pub enum RunPlan {
    /// A slash command.
    Slash,
    /// A loop that feeds the input again and again.
    Loop,
    /// One turn.
    Turn,
}

/// Decides what a user's input runs.
pub fn plan_run(is_command: bool, max_ralph_iterations: i64) -> (res: RunPlan)
    ensures
        res == if is_command {
            RunPlan::Slash
        } else if max_ralph_iterations != 0 {
            RunPlan::Loop
        } else {
            RunPlan::Turn
        },
{
    if is_command {
        RunPlan::Slash
    } else if max_ralph_iterations != 0 {
        RunPlan::Loop
    } else {
        RunPlan::Turn
    }
}

/// The inputs that a user sends while a turn is running, in order.
pub struct SteerQueue {
    pub pending: Vec<UserInput>,
}

impl SteerQueue {
    /// No inputs.
    pub fn new() -> (res: SteerQueue)
        ensures
            res.pending@.len() == 0,
    {
        SteerQueue { pending: Vec::new() }
    }

    /// Takes in an input.
    pub fn steer(&mut self, user_input: UserInput)
        ensures
            final(self).pending@ == old(self).pending@.push(user_input),
    {
        self.pending.push(user_input);
    }

    /// Drops the inputs of an earlier turn.
    pub fn clear_pending_steers(&mut self)
        ensures
            final(self).pending@.len() == 0,
    {
        self.pending = Vec::new();
    }

    /// Hands out the inputs, in order, and is empty.
    pub fn consume_pending_steers(&mut self) -> (res: Vec<UserInput>)
        ensures
            res@ == old(self).pending@,
            final(self).pending@.len() == 0,
    {
        let mut taken: Vec<UserInput> = Vec::new();
        std::mem::swap(&mut taken, &mut self.pending);
        taken
    }
}

/// Whether `parts` is what a message holds for an input.
pub fn input_parts(input: UserInput) -> (res: Vec<ContentPart>)
    ensures
        match input {
            UserInput::Text(text) => res@ == seq![ContentPart::Text(text)],
            UserInput::Parts(parts) => res == parts,
        },
{
    match input {
        UserInput::Text(text) => {
            let res: Vec<ContentPart> = vec![ContentPart::Text(text)];
            proof {
                assert(res@ =~= seq![ContentPart::Text(text)]);
            }
            res
        },
        UserInput::Parts(parts) => parts,
    }
}

// --------------------------------------------------------------------- retries

/// Whether a request that failed in this way may succeed when made again.
pub open spec fn retryable(kind: ChatProviderErrorKind) -> bool {
    match kind {
        ChatProviderErrorKind::Connection | ChatProviderErrorKind::Timeout
        | ChatProviderErrorKind::EmptyResponse => true,
        ChatProviderErrorKind::Status(code) => code == 429 || code == 500 || code == 502 || code
            == 503,
        ChatProviderErrorKind::Other => false,
    }
}

/// Whether a request that failed with this error may succeed when made again.
pub fn is_retryable_error(err: &ChatProviderError) -> (res: bool)
    ensures
        res == retryable(err.kind),
{
    match err.kind {
        ChatProviderErrorKind::Connection => true,
        ChatProviderErrorKind::Timeout => true,
        ChatProviderErrorKind::EmptyResponse => true,
        ChatProviderErrorKind::Status(code) => code == 429 || code == 500 || code == 502 || code
            == 503,
        ChatProviderErrorKind::Other => false,
    }
}

/// Whether a request is made again after so many attempts. A negative bound is
/// none.
pub fn retries(attempts: u64, max_retries: i64, err: &ChatProviderError) -> (res: bool)
    ensures
        res == ((max_retries < 0 || attempts < max_retries) && retryable(err.kind)),
{
    (max_retries < 0 || attempts < max_retries as u64) && is_retryable_error(err)
}

/// How long is waited at least after so many attempts, in milliseconds: it
/// doubles from 300 with each of them, up to five seconds.
pub open spec fn base_delay(attempt: nat) -> nat
    decreases attempt,
{
    if attempt == 0 {
        150
    } else if 2 * base_delay((attempt - 1) as nat) < 5000 {
        2 * base_delay((attempt - 1) as nat)
    } else {
        5000
    }
}

proof fn lemma_base_delay(attempt: nat)
    ensures
        base_delay(0) == 150,
        base_delay(1) == 300,
        base_delay(2) == 600,
        base_delay(3) == 1200,
        base_delay(4) == 2400,
        base_delay(5) == 4800,
        attempt >= 6 ==> base_delay(attempt) == 5000,
    decreases attempt,
{
    reveal_with_fuel(base_delay, 7);
    if attempt > 6 {
        lemma_base_delay((attempt - 1) as nat);
    }
}

/// How long is waited at least after so many attempts, in milliseconds.
pub fn base_delay_millis(attempt: u32) -> (res: u64)
    ensures
        res == base_delay(attempt as nat),
        res <= 5000,
{
    proof {
        lemma_base_delay(attempt as nat);
    }
    if attempt == 0 {
        150
    } else if attempt == 1 {
        300
    } else if attempt == 2 {
        600
    } else if attempt == 3 {
        1200
    } else if attempt == 4 {
        2400
    } else if attempt == 5 {
        4800
    } else {
        5000
    }
}

/// `rand::Rng::random_range` over half a second in nanoseconds: a number below its
/// end, which may differ from call to call.
#[verifier::external_body]
fn jitter_nanos() -> (res: u64)
    ensures
        res < 500_000_000,
{
    rand::Rng::random_range(&mut rand::rng(), 0..500_000_000u64)
}

/// How long is waited with that much added at random, in nanoseconds.
pub fn delay_with(attempt: u32, jitter: u64) -> (res: u64)
    requires
        jitter < 500_000_000,
    ensures
        res == base_delay(attempt as nat) * 1_000_000 + jitter,
{
    base_delay_millis(attempt) * 1_000_000 + jitter
}

/// How long is waited before the next attempt, in nanoseconds: the base, and up
/// to half a second more.
pub fn retry_delay(attempt: u32) -> (res: u64)
    ensures
        base_delay(attempt as nat) * 1_000_000 <= res < base_delay(attempt as nat) * 1_000_000
            + 500_000_000,
{
    delay_with(attempt, jitter_nanos())
}

/// The wait never gets shorter from attempt to attempt, and never longer than
/// five seconds and the random part.
pub proof fn law_waits_grow_up_to_a_bound(attempt: nat)
    ensures
        base_delay(attempt) <= base_delay(attempt + 1) <= 5000,
    decreases attempt,
{
    lemma_base_delay(attempt);
    lemma_base_delay(attempt + 1);
    if attempt < 6 {
        assert(attempt == 0 || attempt == 1 || attempt == 2 || attempt == 3 || attempt == 4
            || attempt == 5);
    }
}

/// A request is made again, while attempts are left, after a connection that failed or
/// timed out, an empty response and exactly the HTTP statuses 429, 500, 502 and 503.
pub proof fn law_what_is_tried_again(
    attempts: u64,
    max_retries: i64,
    err: ChatProviderError,
    res: bool,
)
    requires
        call_ensures(retries, (attempts, max_retries, &err), res),
    ensures
        max_retries >= 0 && attempts >= max_retries ==> !res,
        max_retries < 0 || attempts < max_retries ==> match err.kind {
            ChatProviderErrorKind::Connection => res,
            ChatProviderErrorKind::Timeout => res,
            ChatProviderErrorKind::EmptyResponse => res,
            ChatProviderErrorKind::Other => !res,
            ChatProviderErrorKind::Status(code) => {
                &&& code == 429 ==> res
                &&& code == 500 ==> res
                &&& code == 502 ==> res
                &&& code == 503 ==> res
                &&& code != 429 && code != 500 && code != 502 && code != 503 ==> !res
            },
        },
{
}

/// What may be tried again is so whatever the error says, and as `retries` tells it
/// where attempts are left.
pub proof fn law_an_error_may_be_retried_or_not(err: ChatProviderError, again: bool, res: bool)
    requires
        call_ensures(is_retryable_error, (&err,), res),
        call_ensures(retries, (0, 1, &err), again),
    ensures
        res == again,
{
}

/// What every command does: a built-in one goes by its own name, `clear` also by
/// `reset`, a skill by its name behind `skill:`, and a flow behind `flow:`.
pub open spec fn goes_by(name: Seq<char>, handler: HandlerV) -> bool {
    match handler {
        HandlerV::Builtin(BuiltinSlash::Init) => name == "init"@,
        HandlerV::Builtin(BuiltinSlash::Compact) => name == "compact"@,
        HandlerV::Builtin(BuiltinSlash::Clear) => name == "clear"@ || name == "reset"@,
        HandlerV::Builtin(BuiltinSlash::Yolo) => name == "yolo"@,
        HandlerV::Builtin(BuiltinSlash::Model) => name == "model"@,
        HandlerV::Builtin(BuiltinSlash::Fork) => name == "fork"@,
        HandlerV::Skill(skill) => name == "skill:"@ + skill,
        HandlerV::Flow(skill) => name == "flow:"@ + skill,
    }
}

spec fn all_go_by(t: TableV) -> bool {
    forall|i: int|
        0 <= i < t.handlers.len() ==> goes_by(
            (#[trigger] t.handlers[i]).0,
            t.handlers[i].1,
        )
}

proof fn lemma_command_kept(t: TableV, name: Seq<char>, description: Seq<char>, handler: HandlerV)
    requires
        all_go_by(t),
        goes_by(name, handler),
    ensures
        all_go_by(with_command(t, name, description, handler)),
        known(with_command(t, name, description, handler).handlers, name),
        forall|n: Seq<char>| #[trigger]
            known(t.handlers, n) ==> known(with_command(t, name, description, handler).handlers, n),
        forall|n: Seq<char>| #[trigger]
            known(with_command(t, name, description, handler).handlers, n) ==> known(t.handlers, n)
                || n == name,
{
    let u = with_command(t, name, description, handler);
    if !known(t.handlers, name) {
        assert(u.handlers[t.handlers.len() as int].0 == name);
        assert forall|n: Seq<char>| #[trigger] known(t.handlers, n) implies known(
            u.handlers,
            n,
        ) by {
            let i = choose|i: int| 0 <= i < t.handlers.len() && (#[trigger] t.handlers[i]).0 == n;
            assert(u.handlers[i] == t.handlers[i]);
        }
        assert forall|n: Seq<char>| #[trigger] known(u.handlers, n) implies known(t.handlers, n)
            || n == name by {
            let i = choose|i: int| 0 <= i < u.handlers.len() && (#[trigger] u.handlers[i]).0 == n;
            if i < t.handlers.len() {
                assert(t.handlers[i] == u.handlers[i]);
            }
        }
        assert forall|i: int| 0 <= i < u.handlers.len() implies goes_by(
            (#[trigger] u.handlers[i]).0,
            u.handlers[i].1,
        ) by {
            if i < t.handlers.len() {
                assert(u.handlers[i] == t.handlers[i]);
            }
        }
    }
}

/// Whether a skill has a command of its own.
pub open spec fn is_run_as_skill(skill: SkillInfo) -> bool {
    skill.kind == SkillKind::Standard || skill.kind == SkillKind::Flow
}

/// Whether a skill's flow has a command of its own.
pub open spec fn is_walked_as_flow(skill: SkillInfo) -> bool {
    skill.kind == SkillKind::Flow && skill.has_flow
}

proof fn lemma_skills_known(t: TableV, skills: Seq<SkillInfo>, n: Seq<char>)
    requires
        all_go_by(t),
    ensures
        all_go_by(with_skills(t, skills)),
        known(with_skills(t, skills).handlers, n) <==> known(t.handlers, n) || exists|k: int|
            0 <= k < skills.len() && is_run_as_skill(#[trigger] skills[k]) && n == "skill:"@
                + skills[k].name@,
    decreases skills.len(),
{
    if skills.len() > 0 {
        let front = skills.drop_last();
        let skill = skills.last();
        lemma_skills_known(t, front, n);
        let earlier = with_skills(t, front);
        if is_run_as_skill(skill) {
            lemma_command_kept(
                earlier,
                "skill:"@ + skill.name@,
                skill.description@,
                HandlerV::Skill(skill.name@),
            );
        }
        assert(skills[skills.len() - 1] == skill);
        assert forall|k: int| 0 <= k < front.len() implies #[trigger] front[k] == skills[k] by {}
        if exists|k: int|
            0 <= k < skills.len() && is_run_as_skill(#[trigger] skills[k]) && n == "skill:"@
                + skills[k].name@ {
            let k = choose|k: int|
                0 <= k < skills.len() && is_run_as_skill(#[trigger] skills[k]) && n == "skill:"@
                    + skills[k].name@;
            if k < front.len() {
                assert(front[k] == skills[k]);
            }
        }
        if exists|k: int|
            0 <= k < front.len() && is_run_as_skill(#[trigger] front[k]) && n == "skill:"@
                + front[k].name@ {
            let k = choose|k: int|
                0 <= k < front.len() && is_run_as_skill(#[trigger] front[k]) && n == "skill:"@
                    + front[k].name@;
            assert(skills[k] == front[k]);
        }
    }
}

proof fn lemma_flows_known(t: TableV, skills: Seq<SkillInfo>, n: Seq<char>)
    requires
        all_go_by(t),
    ensures
        all_go_by(with_flows(t, skills)),
        known(with_flows(t, skills).handlers, n) <==> known(t.handlers, n) || exists|k: int|
            0 <= k < skills.len() && is_walked_as_flow(#[trigger] skills[k]) && n == "flow:"@
                + skills[k].name@,
    decreases skills.len(),
{
    if skills.len() > 0 {
        let front = skills.drop_last();
        let skill = skills.last();
        lemma_flows_known(t, front, n);
        let earlier = with_flows(t, front);
        if is_walked_as_flow(skill) {
            lemma_command_kept(
                earlier,
                "flow:"@ + skill.name@,
                skill.description@,
                HandlerV::Flow(skill.name@),
            );
        }
        assert(skills[skills.len() - 1] == skill);
        assert forall|k: int| 0 <= k < front.len() implies #[trigger] front[k] == skills[k] by {}
        if exists|k: int|
            0 <= k < skills.len() && is_walked_as_flow(#[trigger] skills[k]) && n == "flow:"@
                + skills[k].name@ {
            let k = choose|k: int|
                0 <= k < skills.len() && is_walked_as_flow(#[trigger] skills[k]) && n == "flow:"@
                    + skills[k].name@;
            if k < front.len() {
                assert(front[k] == skills[k]);
            }
        }
        if exists|k: int|
            0 <= k < front.len() && is_walked_as_flow(#[trigger] front[k]) && n == "flow:"@
                + front[k].name@ {
            let k = choose|k: int|
                0 <= k < front.len() && is_walked_as_flow(#[trigger] front[k]) && n == "flow:"@
                    + front[k].name@;
            assert(skills[k] == front[k]);
        }
    }
}

proof fn lemma_handler_at(handlers: Seq<(Seq<char>, HandlerV)>, name: Seq<char>, i: int)
    requires
        0 <= i,
    ensures
        match handler_at(handlers, name, i) {
            Some(h) => exists|k: int|
                i <= k < handlers.len() && #[trigger] handlers[k] == (name, h),
            None => forall|k: int| i <= k < handlers.len() ==> (#[trigger] handlers[k]).0 != name,
        },
    decreases handlers.len() - i,
{
    if i < handlers.len() {
        if handlers[i].0 == name {
            assert(handlers[i] == (name, handlers[i].1));
        } else {
            lemma_handler_at(handlers, name, i + 1);
        }
    }
}

/// What is done by an action, as the table writes it.
pub open spec fn does(res: SlashAction, handler: HandlerV) -> bool {
    match handler {
        HandlerV::Builtin(kind) => res == SlashAction::Builtin(kind),
        HandlerV::Skill(skill) => res matches SlashAction::Skill(s) && s@ == skill,
        HandlerV::Flow(skill) => res matches SlashAction::Flow(s) && s@ == skill,
    }
}

/// Every command goes by its name, whatever skills there are: each of the built-in
/// ones, `skill:` and a name for each standard skill and each flow, `flow:` and a
/// name for each flow that there is, and nothing else.
pub proof fn law_commands_go_by_their_names(
    skills: Vec<SkillInfo>,
    table: SlashTable,
    name: &str,
    res: SlashAction,
)
    requires
        call_ensures(build_slash_commands, (skills,), table),
        call_ensures(SlashTable::dispatch, (&table, name), res),
    ensures
        res matches SlashAction::Unknown(_) ==> {
            &&& name@ != "init"@ && name@ != "compact"@ && name@ != "clear"@
            &&& name@ != "reset"@ && name@ != "yolo"@ && name@ != "model"@ && name@ != "fork"@
            &&& forall|k: int|
                0 <= k < skills@.len() && is_run_as_skill(#[trigger] skills@[k]) ==> name@
                    != "skill:"@ + skills@[k].name@
            &&& forall|k: int|
                0 <= k < skills@.len() && is_walked_as_flow(#[trigger] skills@[k]) ==> name@
                    != "flow:"@ + skills@[k].name@
        },
        !(res is Unknown) ==> exists|h: HandlerV| #[trigger] does(res, h) && goes_by(name@, h),
        res matches SlashAction::Skill(s) ==> exists|k: int|
            0 <= k < skills@.len() && is_run_as_skill(#[trigger] skills@[k]) && skills@[k].name@
                == s@,
        res matches SlashAction::Flow(s) ==> exists|k: int|
            0 <= k < skills@.len() && is_walked_as_flow(#[trigger] skills@[k]) && skills@[k].name@
                == s@,
{
    broadcast use vstd::seq_lib::group_to_multiset_ensures;

    let sorted = choose|sorted: Seq<SkillInfo>|
        by_name(sorted) && sorted.to_multiset() == skills@.to_multiset() && table.model()
            == #[trigger] with_flows(with_skills(builtin_table(), sorted), sorted);
    lemma_builtin_names();
    let n = name@;
    let base = builtin_table();
    let middle = with_skills(base, sorted);
    lemma_skills_known(base, sorted, n);
    lemma_flows_known(middle, sorted, n);
    let handlers = table.model().handlers;
    lemma_handler_at(handlers, n, 0);
    assert forall|k: int| 0 <= k < skills@.len() implies sorted.contains(#[trigger] skills@[k]) by {
        assert(skills@.to_multiset().count(skills@[k]) > 0) by {
            assert(skills@.contains(skills@[k]));
        }
    }
    assert forall|k: int| 0 <= k < sorted.len() implies skills@.contains(#[trigger] sorted[k]) by {
        assert(sorted.to_multiset().count(sorted[k]) > 0) by {
            assert(sorted.contains(sorted[k]));
        }
    }
    match handler_at(handlers, n, 0) {
        None => {
            assert(!known(handlers, n));
            assert forall|k: int|
                0 <= k < skills@.len() && is_run_as_skill(#[trigger] skills@[k]) implies n
                != "skill:"@ + skills@[k].name@ by {
                let j = choose|j: int| 0 <= j < sorted.len() && sorted[j] == skills@[k];
                assert(is_run_as_skill(sorted[j]));
            }
            assert forall|k: int|
                0 <= k < skills@.len() && is_walked_as_flow(#[trigger] skills@[k]) implies n
                != "flow:"@ + skills@[k].name@ by {
                let j = choose|j: int| 0 <= j < sorted.len() && sorted[j] == skills@[k];
                assert(is_walked_as_flow(sorted[j]));
            }
        },
        Some(h) => {
            let k = choose|k: int| 0 <= k < handlers.len() && #[trigger] handlers[k] == (n, h);
            assert(goes_by(handlers[k].0, handlers[k].1));
            assert(does(res, h));
            assert(known(handlers, n));
            reveal_strlit("skill:");
            reveal_strlit("flow:");
            match h {
                HandlerV::Skill(s) => {
                    assert(n[0] == 's');
                    assert(!known(base.handlers, n));
                    assert forall|j: int| 0 <= j < sorted.len() implies n != "flow:"@ + (
                    #[trigger] sorted[j]).name@ by {
                        assert(("flow:"@ + sorted[j].name@)[0] == 'f');
                    }
                    let j = choose|j: int|
                        0 <= j < sorted.len() && is_run_as_skill(#[trigger] sorted[j]) && n
                            == "skill:"@ + sorted[j].name@;
                    assert(s =~= n.skip(6));
                    assert(sorted[j].name@ =~= n.skip(6));
                    assert(skills@.contains(sorted[j]));
                    let m = choose|m: int| 0 <= m < skills@.len() && skills@[m] == sorted[j];
                    assert(is_run_as_skill(skills@[m]));
                },
                HandlerV::Flow(s) => {
                    assert(n[0] == 'f' && n[1] == 'l');
                    assert(!known(base.handlers, n));
                    assert forall|j: int| 0 <= j < sorted.len() implies n != "skill:"@ + (
                    #[trigger] sorted[j]).name@ by {
                        assert(("skill:"@ + sorted[j].name@)[0] == 's');
                    }
                    let j = choose|j: int|
                        0 <= j < sorted.len() && is_walked_as_flow(#[trigger] sorted[j]) && n
                            == "flow:"@ + sorted[j].name@;
                    assert(s =~= n.skip(5));
                    assert(sorted[j].name@ =~= n.skip(5));
                    assert(skills@.contains(sorted[j]));
                    let m = choose|m: int| 0 <= m < skills@.len() && skills@[m] == sorted[j];
                    assert(is_walked_as_flow(skills@[m]));
                },
                _ => {},
            }
        },
    }
}

proof fn lemma_builtin_names()
    ensures
        all_go_by(builtin_table()),
        known(builtin_table().handlers, "init"@),
        known(builtin_table().handlers, "compact"@),
        known(builtin_table().handlers, "clear"@),
        known(builtin_table().handlers, "reset"@),
        known(builtin_table().handlers, "yolo"@),
        known(builtin_table().handlers, "model"@),
        known(builtin_table().handlers, "fork"@),
        forall|n: Seq<char>| #[trigger]
            known(builtin_table().handlers, n) ==> n.len() > 1 && n[0] != 's' && !(n[0] == 'f'
                && n[1] == 'l'),
{
    reveal_strlit("init");
    reveal_strlit("compact");
    reveal_strlit("clear");
    reveal_strlit("reset");
    reveal_strlit("yolo");
    reveal_strlit("model");
    reveal_strlit("fork");
    let h = builtin_table().handlers;
    assert(h.len() == 7);
    assert(h[0] == ("init"@, HandlerV::Builtin(BuiltinSlash::Init)));
    assert(h[1] == ("compact"@, HandlerV::Builtin(BuiltinSlash::Compact)));
    assert(h[2] == ("clear"@, HandlerV::Builtin(BuiltinSlash::Clear)));
    assert(h[3] == ("reset"@, HandlerV::Builtin(BuiltinSlash::Clear)));
    assert(h[4] == ("yolo"@, HandlerV::Builtin(BuiltinSlash::Yolo)));
    assert(h[5] == ("model"@, HandlerV::Builtin(BuiltinSlash::Model)));
    assert(h[6] == ("fork"@, HandlerV::Builtin(BuiltinSlash::Fork)));
}

/// How a turn goes on after a step. A rejected tool ends it without a message; a
/// message to the past takes it back to that checkpoint; tool calls ask for another
/// step; an answer without any is the turn's last message. What the user typed
/// meanwhile asks for another step in place of an end.
pub proof fn law_how_a_turn_goes_on(
    turn: Turn,
    rejected: bool,
    dmail: Option<DMail>,
    has_tool_calls: bool,
    message: Message,
    steered: bool,
    end: StepEnd,
    res: TurnMove,
)
    requires
        call_ensures(end_step, (rejected, dmail, has_tool_calls, message), end),
        call_ensures(Turn::after_step, (&turn, end, steered), res),
    ensures
        rejected && steered ==> res is NextStep,
        rejected && !steered ==> (res matches TurnMove::Finish(t) && t.stop_reason@
            == "tool_rejected"@ && t.final_message is None && t.step_count == turn.step_no),
        !rejected && dmail is Some ==> (res matches TurnMove::GoBack { checkpoint_id, text }
            && checkpoint_id == dmail->0.checkpoint_id && ends(text@, trim(dmail->0.message@))),
        !rejected && dmail is None && has_tool_calls ==> res is NextStep,
        !rejected && dmail is None && !has_tool_calls && steered ==> res is NextStep,
        !rejected && dmail is None && !has_tool_calls && !steered ==> (res matches TurnMove::Finish(
            t,
        ) && t.stop_reason@ == "no_tool_calls"@ && t.final_message == Some(message) && t.step_count
            == turn.step_no),
{
    reveal_strlit("tool_rejected");
    reveal_strlit("no_tool_calls");
    assert("tool_rejected"@.len() != 13 || "tool_rejected"@[0] != "no_tool_calls"@[0]);
    if let Some(mail) = dmail {
        if !rejected {
            let text = end->GoBack_text@;
            let said = trim(mail.message@);
            assert(text.subrange(text.len() - said.len(), text.len() as int) =~= said);
        }
    }
}

/// A conversation is compacted exactly where what is left of the context is no more
/// than what is to be kept free, so a fuller one is compacted where a less full one
/// is.
pub proof fn law_a_full_context_is_compacted(
    tokens: i64,
    fewer: i64,
    reserved: i64,
    max: i64,
    res: bool,
    less: bool,
)
    requires
        call_ensures(needs_compaction, (tokens, reserved, max), res),
        call_ensures(needs_compaction, (fewer, reserved, max), less),
        fewer <= tokens,
    ensures
        res <==> max - tokens <= reserved,
        less ==> res,
{
}

/// What the user types is a command where it is one, else a loop where iterations are
/// asked for, however many, else one turn.
pub proof fn law_what_input_runs(is_command: bool, iterations: i64, res: RunPlan)
    requires
        call_ensures(plan_run, (is_command, iterations), res),
    ensures
        res is Slash <==> is_command,
        res is Turn <==> !is_command && iterations == 0,
{
}

/// A conversation grows by nothing where a result needs more than the model can do;
/// else its count becomes all the tokens of the step.
pub proof fn law_what_a_conversation_grows_by(
    unsupported: &[bool],
    usage: Option<TokenUsage>,
    res: Growth,
    k: int,
)
    requires
        call_ensures(plan_growth, (unsupported, usage), res),
    ensures
        0 <= k < unsupported@.len() && unsupported@[k] ==> res is Refuse,
        res matches Growth::Refuse(i) ==> 0 <= i < unsupported@.len() && unsupported@[i as int],
        res matches Growth::Append(count) ==> match (usage, count) {
            (Some(u), Some(n)) => n == u.input_other + u.input_cache_read + u.input_cache_creation
                + u.output,
            (None, None) => true,
            _ => false,
        },
{
    if 0 <= k < unsupported@.len() && res is Append {
        assert(!unsupported@[k]);
    }
}

/// `/model` takes what stands before ` --thinking` for the model, and thinks unless
/// `off` or `false` follows; without that flag all of it is the model, and it thinks.
pub proof fn law_what_model_arguments_say(
    args: &str,
    model: Seq<char>,
    rest: Seq<char>,
    res: (String, bool),
)
    requires
        call_ensures(parse_model_args, (args,), res),
        forall|p: int|
            0 <= p < model.len() ==> !#[trigger] occurs_at(
                model + " --thinking"@ + rest,
                " --thinking"@,
                p,
            ),
    ensures
        args@ == model + " --thinking"@ + rest ==> res.0@ == trim(model),
        args@ == model + " --thinking"@ + rest ==> (res.1 <==> !holds(
            " --thinking"@ + rest,
            "off"@,
        ) && !holds(" --thinking"@ + rest, "false"@)),
        (forall|p: int| !#[trigger] occurs_at(args@, " --thinking"@, p)) ==> res.0@ == args@
            && res.1,
{
    let flag = " --thinking"@;
    lemma_find_from(args@, flag, 0);
    if args@ == model + flag + rest {
        let n = model.len() as int;
        assert(args@.subrange(n, n + flag.len()) =~= flag);
        assert(occurs_at(args@, flag, model.len() as int));
        assert(args@.take(model.len() as int) =~= model);
        assert(args@.skip(model.len() as int) =~= flag + rest);
    }
}

/// A model is found by its name, the first that has it, where its provider is there;
/// else nothing is.
pub proof fn law_a_model_is_found_by_name(
    models: &[ModelEntry],
    providers: &[String],
    name: &str,
    res: Result<usize, String>,
)
    requires
        call_ensures(find_model, (models, providers, name), res),
    ensures
        res matches Ok(i) ==> {
            &&& i < models@.len()
            &&& models@[i as int].name@ == name@
            &&& views(providers@).contains(models@[i as int].provider@)
            &&& forall|k: int| 0 <= k < i ==> (#[trigger] models@[k]).name@ != name@
        },
        res is Err ==> forall|i: int|
            0 <= i < models@.len() && (#[trigger] models@[i]).name@ == name@ && (forall|k: int|
                0 <= k < i ==> (#[trigger] models@[k]).name@ != name@) ==> !views(
                providers@,
            ).contains(models@[i].provider@),
{
    lemma_model_at(models@, name@, 0);
}

proof fn lemma_model_at(models: Seq<ModelEntry>, name: Seq<char>, i: int)
    requires
        0 <= i,
    ensures
        match model_at(models, name, i) {
            Some(k) => i <= k < models.len() && models[k].name@ == name && forall|j: int|
                i <= j < k ==> (#[trigger] models[j]).name@ != name,
            None => forall|j: int| i <= j < models.len() ==> (#[trigger] models[j]).name@ != name,
        },
    decreases models.len() - i,
{
    if i < models.len() && models[i].name@ != name {
        lemma_model_at(models, name, i + 1);
    }
}

/// The wait before the next attempt is 300 milliseconds after the first, doubles with
/// each one more and is five seconds from the sixth on; the random part comes on
/// top of it.
pub proof fn law_how_long_is_waited(attempt: u32, jitter: u64, base: u64, next: u64, res: u64)
    requires
        call_ensures(base_delay_millis, (attempt,), base),
        attempt < u32::MAX,
        call_ensures(base_delay_millis, ((attempt + 1) as u32,), next),
        call_ensures(delay_with, (attempt, jitter), res),
    ensures
        attempt == 1 ==> base == 300,
        1 <= attempt < 5 ==> next == 2 * base,
        attempt >= 6 ==> base == 5000,
        base <= next,
        res == base * 1_000_000 + jitter,
{
    lemma_base_delay(attempt as nat);
    lemma_base_delay((attempt + 1) as nat);
    if attempt < 6 {
        assert(attempt == 0 || attempt == 1 || attempt == 2 || attempt == 3 || attempt == 4
            || attempt == 5);
    }
}

/// A skill is run with its text, and with what the user asked behind it.
pub proof fn law_a_skill_is_run_with_the_request(skill_text: &str, args: &str, res: String)
    requires
        call_ensures(skill_request, (skill_text, args), res),
    ensures
        begins(res@, skill_text@),
        ends(res@, trim(args@)),
        trim(args@).len() == 0 ==> res@ == skill_text@,
        trim(args@).len() > 0 ==> res@.len() > skill_text@.len() + trim(args@).len(),
{
    reveal_strlit("\n\nUser request:\n");
    let asked = trim(args@);
    assert(res@.subrange(0, skill_text@.len() as int) =~= skill_text@);
    assert(res@.subrange(res@.len() - asked.len(), res@.len() as int) =~= asked);
}

/// A fork is started with what was asked for, and with nothing where that is blank.
pub proof fn law_a_fork_gets_its_prompt(args: &str, res: ForkPlan)
    requires
        call_ensures(plan_fork, (args,), res),
    ensures
        res is Usage <==> trim(args@).len() == 0,
        res matches ForkPlan::Start(prompt) ==> prompt@ == trim(args@),
{
}

/// The agent is told of a fork once it is over, with its id, how it ended and all
/// that it printed where that is no more than 8000 bytes.
pub proof fn law_a_fork_is_told_of_when_over(
    task_id: &str,
    status: Option<(TaskStatus, String)>,
    stdout: &[u8],
    res: ForkStep,
)
    requires
        call_ensures(surface_fork, (task_id, status, stdout), res),
    ensures
        res is Forget <==> status is None,
        status matches Some((TaskStatus::Running, _)) ==> res is Wait,
        res matches ForkStep::Tell(note) ==> {
            let said = trim(lossy(stdout@));
            &&& holds(note@, task_id@)
            &&& status matches Some((_, text)) && holds(note@, text@)
            &&& 0 < said.len() && encode_utf8(said).len() <= 8000 ==> ends(note@, said)
        },
        status matches Some((s, _)) && !(s is Running) && encode_utf8(
            trim(lossy(stdout@)),
        ).len() <= 8000 ==> res is Tell,
{
    if let Some((s, text)) = status {
        if let ForkStep::Tell(note) = res {
            let said = trim(lossy(stdout@));
            lemma_finished_note(task_id@, text@, said);
        }
        encode_utf8_valid_utf8(trim(lossy(stdout@)));
    }
}

proof fn lemma_holds_at(s: Seq<char>, needle: Seq<char>, p: int)
    requires
        occurs_at(s, needle, p),
    ensures
        holds(s, needle),
{
    lemma_find_from(s, needle, 0);
}

proof fn lemma_finished_note(task_id: Seq<char>, status: Seq<char>, output: Seq<char>)
    ensures
        holds(finished_note(task_id, status, output), task_id),
        holds(finished_note(task_id, status, output), status),
        0 < output.len() && encode_utf8(output).len() <= 8000 ==> ends(
            finished_note(task_id, status, output),
            output,
        ),
{
    let note = finished_note(task_id, status, output);
    let a = "Background fork task_id="@;
    let b = " finished with status "@;
    let n = a.len() as int;
    assert(note.subrange(n, n + task_id.len()) =~= task_id);
    lemma_holds_at(note, task_id, n);
    let m = n + task_id.len() + b.len();
    assert(note.subrange(m, m + status.len()) =~= status);
    lemma_holds_at(note, status, m);
    if 0 < output.len() && encode_utf8(output).len() <= 8000 {
        assert(note.subrange(note.len() - output.len(), note.len() as int) =~= output);
    }
}

/// A fork stays pending exactly while it runs, or where the agent could not be told of
/// it.
pub proof fn law_a_fork_is_pending_until_told(tasks: Seq<Seq<char>>, ends: Seq<ForkEnd>, i: int)
    requires
        ends.len() == tasks.len(),
        tasks.no_duplicates(),
        0 <= i < tasks.len(),
    ensures
        still_waited(tasks, ends, ends.len() as int).contains(tasks[i]) <==> match ends[i] {
            ForkEnd::Running => true,
            ForkEnd::NotTold => true,
            ForkEnd::Gone => false,
            ForkEnd::Told => false,
        },
{
    law_a_fork_is_told_once(tasks, ends);
}

/// The id of a task is what stands behind `Task ID:` on the first line that begins so.
pub proof fn law_a_task_id_is_found(output: &str, i: int, res: String)
    requires
        call_ensures(find_task_id, (output,), res),
        0 <= i < lines(output@).len(),
        begins(lines(output@)[i], "Task ID:"@),
        forall|k: int| 0 <= k < i ==> !begins(#[trigger] lines(output@)[k], "Task ID:"@),
    ensures
        res@ == trim(lines(output@)[i].subrange(8, lines(output@)[i].len() as int)),
{
    reveal_strlit("Task ID:");
    lemma_task_id_in(lines(output@), 0, i);
    assert(lines(output@)[i].skip(8) =~= lines(output@)[i].subrange(
        8,
        lines(output@)[i].len() as int,
    ));
}

proof fn lemma_task_id_in(all: Seq<Seq<char>>, from: int, i: int)
    requires
        0 <= from <= i < all.len(),
        begins(all[i], "Task ID:"@),
        forall|k: int| from <= k < i ==> !begins(#[trigger] all[k], "Task ID:"@),
    ensures
        task_id_in(all, from) == trim(all[i].skip("Task ID:"@.len() as int)),
    decreases i - from,
{
    if from < i {
        lemma_task_id_in(all, from + 1, i);
    }
}

/// The status after a step carries its usage and its message's id, and how full the
/// context is where there is a usage; the status at other times carries neither.
pub proof fn law_what_a_status_carries(
    usage: Option<TokenUsage>,
    message_id: Option<String>,
    context_usage: u64,
    fill: Option<ContextFill>,
    model: String,
    yolo: bool,
    thinking: Option<bool>,
    step: StatusUpdate,
    other: StatusUpdate,
)
    requires
        call_ensures(step_status, (usage, message_id, context_usage, model, yolo, thinking), step),
        call_ensures(current_status_update, (fill, model, yolo, thinking), other),
    ensures
        step.token_usage == usage && step.message_id == message_id,
        step.context_usage is Some <==> usage is Some,
        step.context_usage is Some ==> step.context_usage == Some(context_usage),
        step.model == Some(model) && other.model == Some(model),
        step.yolo_enabled == Some(yolo) && other.yolo_enabled == Some(yolo),
        step.thinking == thinking && other.thinking == thinking,
        other.token_usage is None && other.message_id is None,
        fill matches Some(f) ==> other.context_usage == Some(f.usage) && other.max_context_tokens
            == Some(f.max_tokens) && (f.tokens > 0 ==> other.context_tokens == Some(f.tokens)),
{
}

/// Toggling twice gives the first mode back, and toggling once the other.
pub proof fn law_yolo_is_toggled(
    is_yolo: bool,
    once: (bool, &'static str),
    twice: (bool, &'static str),
)
    requires
        call_ensures(toggle_yolo, (is_yolo,), once),
        call_ensures(toggle_yolo, (once.0,), twice),
    ensures
        once.0 != is_yolo,
        twice.0 == is_yolo,
        once.1@ != twice.1@,
{
    reveal_strlit("You only die once! Actions will require approval.");
    reveal_strlit("You only live once! All actions will be auto-approved.");
    assert("You only die once! Actions will require approval."@[9] == 'd');
    assert("You only live once! All actions will be auto-approved."@[9] == 'l');
}

} // verus!
