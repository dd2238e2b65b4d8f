//! The system prompt: a template whose placeholders are filled in.
use crate::pattern::opt_view;
use crate::text::{
    ascending, cat, cat3, chars_of, insert_ordered, join, join_strs, same, string_of, trim,
    trim_str, views,
};
use vstd::prelude::*;
use vstd::string::*;

verus! {

// --------------------------------------------------------------------- values

/// A value under each name, by characters.
pub type Values = Seq<(Seq<char>, Seq<char>)>;

/// Named values by their characters.
pub open spec fn value_views(values: Seq<(String, String)>) -> Values {
    Seq::new(values.len(), |i: int| (values[i].0@, values[i].1@))
}

/// Where a name stands, from entry `i` on.
pub open spec fn value_index(values: Values, name: Seq<char>, i: int) -> Option<int>
    decreases values.len() - i,
{
    if i < 0 || i >= values.len() {
        None
    } else if values[i].0 == name {
        Some(i)
    } else {
        value_index(values, name, i + 1)
    }
}

/// The value under a name.
pub open spec fn value_of(values: Values, name: Seq<char>) -> Option<Seq<char>> {
    match value_index(values, name, 0) {
        Some(i) => Some(values[i].1),
        None => None,
    }
}

/// `values` with one set: in its place where the name is there, else behind the
/// others.
pub open spec fn with_value(values: Values, name: Seq<char>, value: Seq<char>) -> Values {
    match value_index(values, name, 0) {
        Some(i) => values.update(i, (name, value)),
        None => values.push((name, value)),
    }
}

/// `values` with each of `more` set.
pub open spec fn with_values(values: Values, more: Values) -> Values
    decreases more.len(),
{
    if more.len() == 0 {
        values
    } else {
        with_value(with_values(values, more.drop_last()), more.last().0, more.last().1)
    }
}

/// The value under a name.
pub fn find_value(values: &[(String, String)], name: &str) -> (res: Option<String>)
    ensures
        opt_view(res) == value_of(value_views(values@), name@),
{
    let ghost all = value_views(values@);
    let mut i: usize = 0;
    while i < values.len()
        invariant
            i <= values@.len(),
            all == value_views(values@),
            value_index(all, name@, 0) == value_index(all, name@, i as int),
        decreases values@.len() - i,
    {
        proof {
            assert(all[i as int] == (values@[i as int].0@, values@[i as int].1@));
        }
        if same(&values[i].0, name) {
            return Some(values[i].1.clone());
        }
        i += 1;
    }
    None
}

fn set_value(values: &mut Vec<(String, String)>, name: &str, value: &str)
    ensures
        value_views(final(values)@) == with_value(value_views(old(values)@), name@, value@),
{
    let ghost all = value_views(values@);
    let mut i: usize = 0;
    while i < values.len()
        invariant
            i <= values@.len(),
            values@ == old(values)@,
            all == value_views(values@),
            value_index(all, name@, 0) == value_index(all, name@, i as int),
        decreases values@.len() - i,
    {
        proof {
            assert(all[i as int] == (values@[i as int].0@, values@[i as int].1@));
        }
        if same(&values[i].0, name) {
            values.set(i, (name.to_owned(), value.to_owned()));
            proof {
                assert(value_views(values@) =~= all.update(i as int, (name@, value@)));
            }
            return;
        }
        i += 1;
    }
    values.push((name.to_owned(), value.to_owned()));
    proof {
        assert(value_views(values@) =~= all.push((name@, value@)));
    }
}

fn set_values(values: &mut Vec<(String, String)>, more: &[(String, String)])
    ensures
        value_views(final(values)@) == with_values(value_views(old(values)@), value_views(more@)),
{
    let ghost before = value_views(values@);
    let ghost added = value_views(more@);
    let mut i: usize = 0;
    proof {
        assert(added.take(0) =~= seq![]);
    }
    while i < more.len()
        invariant
            i <= more@.len(),
            added == value_views(more@),
            value_views(values@) == with_values(before, added.take(i as int)),
        decreases more@.len() - i,
    {
        proof {
            assert(added.take(i + 1).drop_last() =~= added.take(i as int));
            assert(added.take(i + 1).last() == (more@[i as int].0@, more@[i as int].1@));
        }
        set_value(values, &more[i].0, &more[i].1);
        i += 1;
    }
    proof {
        assert(added.take(i as int) =~= added);
    }
}

/// What every system prompt may refer to.
#[derive(Clone, Debug)]
#[allow(non_snake_case)]
pub struct BuiltinSystemPromptArgs {
    pub KIMI_NOW: String,
    pub KIMI_WORK_DIR: String,
    pub KIMI_WORK_DIR_LS: String,
    pub KIMI_AGENTS_MD: String,
    pub KIMI_SKILLS: String,
}

/// The values of the built-in arguments.
pub open spec fn builtin_values(args: BuiltinSystemPromptArgs) -> Values {
    seq![
        ("KIMI_NOW"@, args.KIMI_NOW@),
        ("KIMI_WORK_DIR"@, args.KIMI_WORK_DIR@),
        ("KIMI_WORK_DIR_LS"@, args.KIMI_WORK_DIR_LS@),
        ("KIMI_AGENTS_MD"@, args.KIMI_AGENTS_MD@),
        ("KIMI_SKILLS"@, args.KIMI_SKILLS@),
    ]
}

impl BuiltinSystemPromptArgs {
    /// The arguments by name.
    pub fn as_map(&self) -> (res: Vec<(String, String)>)
        ensures
            value_views(res@) == builtin_values(*self),
    {
        let res: Vec<(String, String)> = vec![
            ("KIMI_NOW".to_owned(), self.KIMI_NOW.clone()),
            ("KIMI_WORK_DIR".to_owned(), self.KIMI_WORK_DIR.clone()),
            ("KIMI_WORK_DIR_LS".to_owned(), self.KIMI_WORK_DIR_LS.clone()),
            ("KIMI_AGENTS_MD".to_owned(), self.KIMI_AGENTS_MD.clone()),
            ("KIMI_SKILLS".to_owned(), self.KIMI_SKILLS.clone()),
        ];
        proof {
            assert(value_views(res@) =~= builtin_values(*self));
        }
        res
    }
}

// ------------------------------------------------------------------- templates

/// Whether `c` may stand in a placeholder's name.
pub open spec fn is_name_char(c: char) -> bool {
    ('a' <= c <= 'z') || ('A' <= c <= 'Z') || ('0' <= c <= '9') || c == '_'
}

/// The end of the name that begins at `i`.
pub open spec fn name_end(t: Seq<char>, i: int) -> int
    decreases t.len() - i,
{
    if 0 <= i < t.len() && is_name_char(t[i]) {
        name_end(t, i + 1)
    } else {
        i
    }
}

/// Where the placeholder that begins at `i` ends, where there is one: `${`, a
/// name of one or more letters, digits and underscores, and `}`.
pub open spec fn placeholder_end(t: Seq<char>, i: int) -> Option<int> {
    let end = name_end(t, i + 2);
    if 0 <= i && i + 1 < t.len() && t[i] == '$' && t[i + 1] == '{' && i + 2 < end < t.len()
        && t[end] == '}' {
        Some(end + 1)
    } else {
        None
    }
}

/// The template from `i` on with its placeholders filled in. One without a value
/// stays.
pub open spec fn filled(t: Seq<char>, values: Values, i: int) -> Seq<char>
    decreases t.len() - i,
{
    if i < 0 || i >= t.len() {
        seq![]
    } else {
        match placeholder_end(t, i) {
            Some(end) => (match value_of(values, t.subrange(i + 2, end - 1)) {
                Some(value) => value,
                None => t.subrange(i, end),
            }) + filled(t, values, end),
            None => seq![t[i]] + filled(t, values, i + 1),
        }
    }
}

/// The names, from `i` on, that the template refers to and that have no value.
pub open spec fn missing(t: Seq<char>, values: Values, i: int) -> Seq<Seq<char>>
    decreases t.len() - i,
{
    if i < 0 || i >= t.len() {
        seq![]
    } else {
        match placeholder_end(t, i) {
            Some(end) => {
                let name = t.subrange(i + 2, end - 1);
                if value_of(values, name) is Some {
                    missing(t, values, end)
                } else {
                    seq![name] + missing(t, values, end)
                }
            },
            None => missing(t, values, i + 1),
        }
    }
}

/// Fills in the placeholders of a template. Where some have no value, their names
/// come back instead: in order, and each once.
pub fn substitute_template(template: &str, values: &[(String, String)]) -> (res: Result<
    String,
    Vec<String>,
>)
    ensures
        ({
            let gaps = missing(template@, value_views(values@), 0);
            if gaps.len() == 0 {
                res matches Ok(text) && text@ == filled(template@, value_views(values@), 0)
            } else {
                &&& res matches Err(names)
                &&& ascending(views(names@))
                &&& forall|n: Seq<char>| #[trigger] views(names@).contains(n) <==> gaps.contains(n)
            }
        }),
{
    let t: Vec<char> = chars_of(template);
    let total: usize = t.len();
    let ghost vals = value_views(values@);
    let ghost gaps = missing(template@, vals, 0);
    let mut out: String = String::new();
    let mut names: Vec<String> = Vec::new();
    let ghost mut found: Seq<Seq<char>> = seq![];
    let mut i: usize = 0;
    proof {
        assert(out@ + filled(template@, vals, 0) =~= filled(template@, vals, 0));
        assert(found + gaps =~= gaps);
        assert(views(names@) =~= seq![]);
    }
    while i < total
        invariant
            total == t@.len(),
            t@ == template@,
            vals == value_views(values@),
            gaps == missing(template@, vals, 0),
            i <= total,
            out@ + filled(template@, vals, i as int) == filled(template@, vals, 0),
            found + missing(template@, vals, i as int) == gaps,
            ascending(views(names@)),
            forall|n: Seq<char>| #[trigger] views(names@).contains(n) <==> found.contains(n),
            (names@.len() == 0) == (found.len() == 0),
        decreases total - i,
    {
        let ghost so_far = out@;
        let ghost rest = missing(template@, vals, i as int);
        let mut end: usize = i;
        if t[i] == '$' && total - i > 2 && t[i + 1] == '{' {
            end = i + 2;
            while end < total && (('a' <= t[end] && t[end] <= 'z') || ('A' <= t[end] && t[end]
                <= 'Z') || ('0' <= t[end] && t[end] <= '9') || t[end] == '_')
                invariant
                    total == t@.len(),
                    i < total,
                    i + 2 <= end <= total,
                    name_end(t@, i + 2) == name_end(t@, end as int),
                decreases total - end,
            {
                end += 1;
            }
        }
        if end - i > 2 && end < total && t[end] == '}' {
            let name: String = string_of(&t, i + 2, end);
            proof {
                assert(placeholder_end(t@, i as int) == Some(end + 1));
            }
            match find_value(values, &name) {
                Some(value) => {
                    out.append(&value);
                    proof {
                        assert(so_far + (value@ + filled(template@, vals, end + 1)) =~= out@
                            + filled(template@, vals, end + 1));
                    }
                },
                None => {
                    let kept: String = string_of(&t, i, end + 1);
                    out.append(&kept);
                    insert_ordered(&mut names, &name);
                    proof {
                        assert(so_far + (kept@ + filled(template@, vals, end + 1)) =~= out@
                            + filled(template@, vals, end + 1));
                        let before = found;
                        found = found.push(name@);
                        assert(found + missing(template@, vals, end + 1) =~= before + rest);
                        assert forall|n: Seq<char>| #[trigger] views(names@).contains(n)
                            <==> found.contains(n) by {
                            if before.contains(n) {
                                let k = choose|k: int| 0 <= k < before.len() && before[k] == n;
                                assert(found[k] == n);
                            }
                            if n == name@ {
                                assert(found[before.len() as int] == n);
                            }
                        }
                        assert(views(names@).contains(name@));
                    }
                },
            }
            i = end + 1;
        } else {
            proof {
                assert(placeholder_end(t@, i as int) is None);
            }
            out.push(t[i]);
            i += 1;
            proof {
                assert(so_far + (seq![t@[i - 1]] + filled(template@, vals, i as int)) =~= out@
                    + filled(template@, vals, i as int));
            }
        }
    }
    proof {
        assert(out@ + filled(template@, vals, i as int) =~= out@);
        assert(found + missing(template@, vals, i as int) =~= found);
    }
    if names.len() > 0 {
        return Err(names);
    }
    Ok(out)
}

/// The values of a prompt: the built-in ones, those of the agent over them, and
/// the extra ones over both.
pub open spec fn prompt_values(builtin: Values, args: Values, extra: Values) -> Values {
    with_values(with_values(builtin, args), extra)
}

/// Fills in a system prompt. `path` is where it comes from.
pub fn render_system_prompt(
    path: &str,
    text: &str,
    args: &[(String, String)],
    builtin: &BuiltinSystemPromptArgs,
    extra: &[(String, String)],
) -> (res: Result<String, String>)
    ensures
        ({
            let vals = prompt_values(
                builtin_values(*builtin),
                value_views(args@),
                value_views(extra@),
            );
            if missing(trim(text@), vals, 0).len() == 0 {
                res matches Ok(prompt) && prompt@ == filled(trim(text@), vals, 0)
            } else {
                res matches Err(e) && exists|names: Seq<Seq<char>>|
                    ascending(names) && (forall|n: Seq<char>| #[trigger]
                        names.contains(n) <==> missing(trim(text@), vals, 0).contains(n)) && e@
                        == "Missing system prompt arg in "@ + path@ + ": "@ + #[trigger] join(
                        names,
                        ", "@,
                    )
            }
        }),
{
    let mut values: Vec<(String, String)> = builtin.as_map();
    set_values(&mut values, args);
    set_values(&mut values, extra);
    let template: String = trim_str(text);
    match substitute_template(&template, &values) {
        Ok(prompt) => Ok(prompt),
        Err(names) => {
            let list: String = join_strs(&names, ", ");
            proof {
                assert(ascending(views(names@)));
            }
            Err(cat(&cat3("Missing system prompt arg in ", path, ": "), &list))
        },
    }
}

/// A template without dollars is its own result.
pub proof fn law_plain_templates_stay(t: Seq<char>, values: Values, i: int)
    requires
        0 <= i <= t.len(),
        !t.contains('$'),
    ensures
        filled(t, values, i) == t.skip(i),
        missing(t, values, i).len() == 0,
    decreases t.len() - i,
{
    if i < t.len() {
        assert(t.contains(t[i]));
        law_plain_templates_stay(t, values, i + 1);
        assert(seq![t[i]] + t.skip(i + 1) =~= t.skip(i));
    } else {
        assert(t.skip(i) =~= seq![]);
    }
}

proof fn lemma_value_index(values: Values, name: Seq<char>, i: int)
    requires
        0 <= i,
    ensures
        match value_index(values, name, i) {
            Some(k) => i <= k < values.len() && values[k].0 == name && forall|j: int|
                i <= j < k ==> (#[trigger] values[j]).0 != name,
            None => forall|j: int| i <= j < values.len() ==> (#[trigger] values[j]).0 != name,
        },
    decreases values.len() - i,
{
    if i < values.len() && values[i].0 != name {
        lemma_value_index(values, name, i + 1);
    }
}

/// The value that is set last is the one that counts.
pub proof fn law_the_last_value_counts(values: Values, more: Values)
    requires
        more.len() > 0,
    ensures
        value_of(with_values(values, more), more.last().0) == Some(more.last().1),
{
    let before = with_values(values, more.drop_last());
    let name = more.last().0;
    let after = with_values(values, more);
    lemma_value_index(before, name, 0);
    lemma_value_index(after, name, 0);
    match value_index(before, name, 0) {
        Some(k) => {
            assert(after[k].0 == name);
            assert forall|j: int| 0 <= j < k implies after[j].0 != name by {
                assert(before[j].0 != name);
            }
        },
        None => {
            assert(after[before.len() as int].0 == name);
            assert forall|j: int| 0 <= j < before.len() implies after[j].0 != name by {
                assert(before[j].0 != name);
            }
        },
    }
}

// ----------------------------------------------------------------- other texts

/// A skill as it is listed in a prompt.
pub struct ListedSkill {
    pub name: String,
    pub path: String,
    pub description: String,
}

/// A skill as it is listed in a prompt.
pub open spec fn skill_entry(s: ListedSkill) -> Seq<char> {
    "- "@ + s.name@ + "\n  - Path: "@ + s.path@ + "\n  - Description: "@ + s.description@
}

/// The skills as a prompt lists them.
pub fn format_skills(skills: &[ListedSkill]) -> (res: String)
    ensures
        res@ == if skills@.len() == 0 {
            "No skills found."@
        } else {
            join(Seq::new(skills@.len(), |i: int| skill_entry(skills@[i])), "\n"@)
        },
{
    if skills.len() == 0 {
        return "No skills found.".to_owned();
    }
    let mut entries: Vec<String> = Vec::new();
    let mut i: usize = 0;
    while i < skills.len()
        invariant
            i <= skills@.len(),
            entries@.len() == i,
            forall|k: int| 0 <= k < i ==> #[trigger] entries@[k]@ == skill_entry(skills@[k]),
        decreases skills@.len() - i,
    {
        let mut entry: String = cat3("- ", &skills[i].name, "\n  - Path: ");
        entry.append(&skills[i].path);
        entry.append("\n  - Description: ");
        entry.append(&skills[i].description);
        entries.push(entry);
        i += 1;
    }
    proof {
        let all = Seq::new(skills@.len(), |i: int| skill_entry(skills@[i]));
        assert forall|k: int| 0 <= k < skills@.len() implies views(entries@)[k] == all[k] by {
            assert(entries@[k]@ == skill_entry(skills@[k]));
        }
        assert(views(entries@) =~= all);
    }
    join_strs(&entries, "\n")
}

/// The notes for agents that a working directory holds, given the two files that
/// may hold them: the first that can be read, without the white space round it.
pub fn load_agents_md(upper: Option<String>, lower: Option<String>) -> (res: Option<String>)
    ensures
        match (upper, lower) {
            (Some(text), _) => res matches Some(t) && t@ == trim(text@),
            (None, Some(text)) => res matches Some(t) && t@ == trim(text@),
            (None, None) => res is None,
        },
{
    match upper {
        Some(text) => Some(trim_str(&text)),
        None => match lower {
            Some(text) => Some(trim_str(&text)),
            None => None,
        },
    }
}

/// Those of `tools` that are not excluded.
pub open spec fn kept_tools(tools: Seq<String>, excluded: Seq<Seq<char>>) -> Seq<String>
    decreases tools.len(),
{
    if tools.len() == 0 {
        seq![]
    } else if excluded.contains(tools.last()@) {
        kept_tools(tools.drop_last(), excluded)
    } else {
        kept_tools(tools.drop_last(), excluded).push(tools.last())
    }
}

/// The tools of an agent: those it names without those it excludes.
pub fn select_tools(tools: &[String], exclude: &[String]) -> (res: Vec<String>)
    ensures
        res@ == kept_tools(tools@, views(exclude@)),
{
    let mut res: Vec<String> = Vec::new();
    let mut i: usize = 0;
    proof {
        assert(tools@.take(0) =~= seq![]);
    }
    while i < tools.len()
        invariant
            i <= tools@.len(),
            res@ == kept_tools(tools@.take(i as int), views(exclude@)),
        decreases tools@.len() - i,
    {
        proof {
            assert(tools@.take(i + 1).drop_last() =~= tools@.take(i as int));
        }
        let mut excluded: bool = false;
        let mut j: usize = 0;
        while j < exclude.len()
            invariant
                i < tools@.len(),
                j <= exclude@.len(),
                excluded == exists|k: int| 0 <= k < j && #[trigger] exclude@[k]@ == tools@[i as int]@,
            decreases exclude@.len() - j,
        {
            if same(&exclude[j], &tools[i]) {
                excluded = true;
                proof {
                    assert(exclude@[j as int]@ == tools@[i as int]@);
                }
            }
            j += 1;
        }
        proof {
            if excluded {
                let k = choose|k: int| 0 <= k < j && #[trigger] exclude@[k]@ == tools@[i as int]@;
                assert(views(exclude@)[k] == tools@[i as int]@);
            } else {
                assert forall|k: int| 0 <= k < views(exclude@).len() implies views(exclude@)[k]
                    != tools@[i as int]@ by {
                    assert(exclude@[k]@ != tools@[i as int]@);
                }
            }
        }
        if !excluded {
            res.push(tools[i].clone());
        }
        i += 1;
    }
    proof {
        assert(tools@.take(i as int) =~= tools@);
    }
    res
}

proof fn lemma_name_end_shift(t: Seq<char>, k: int, i: int)
    requires
        0 <= k <= t.len(),
        0 <= i,
    ensures
        name_end(t, k + i) == k + name_end(t.skip(k), i),
        i <= name_end(t.skip(k), i),
        i <= t.len() - k ==> name_end(t.skip(k), i) <= t.len() - k,
    decreases t.len() - k - i,
{
    if k + i < t.len() && is_name_char(t[k + i]) {
        lemma_name_end_shift(t, k, i + 1);
    }
}

proof fn lemma_filled_shift(t: Seq<char>, values: Values, k: int, i: int)
    requires
        0 <= k <= t.len(),
        0 <= i,
    ensures
        filled(t, values, k + i) == filled(t.skip(k), values, i),
        missing(t, values, k + i) == missing(t.skip(k), values, i),
    decreases t.len() - k - i,
{
    let u = t.skip(k);
    if k + i < t.len() {
        lemma_name_end_shift(t, k, i + 2);
        assert(u[i] == t[k + i]);
        match placeholder_end(u, i) {
            Some(end) => {
                assert(placeholder_end(t, k + i) == Some(k + end));
                assert(t.subrange(k + i + 2, k + end - 1) =~= u.subrange(i + 2, end - 1));
                assert(t.subrange(k + i, k + end) =~= u.subrange(i, end));
                lemma_filled_shift(t, values, k, end);
            },
            None => {
                assert(placeholder_end(t, k + i) is None);
                lemma_filled_shift(t, values, k, i + 1);
            },
        }
    }
}

proof fn lemma_plain_head(t: Seq<char>, values: Values, n: int, i: int)
    requires
        0 <= i <= n <= t.len(),
        forall|k: int| i <= k < n ==> #[trigger] t[k] != '$',
    ensures
        filled(t, values, i) == t.subrange(i, n) + filled(t, values, n),
        missing(t, values, i) == missing(t, values, n),
    decreases n - i,
{
    if i < n {
        lemma_plain_head(t, values, n, i + 1);
        assert(t.subrange(i, n) =~= seq![t[i]] + t.subrange(i + 1, n));
        assert(filled(t, values, i) =~= t.subrange(i, n) + filled(t, values, n));
    } else {
        assert(t.subrange(i, n) =~= seq![]);
        assert(filled(t, values, i) =~= t.subrange(i, n) + filled(t, values, n));
    }
}

proof fn lemma_name_runs(t: Seq<char>, i: int, end: int)
    requires
        0 <= i <= end < t.len(),
        forall|k: int| i <= k < end ==> is_name_char(#[trigger] t[k]),
        !is_name_char(t[end]),
    ensures
        name_end(t, i) == end,
    decreases end - i,
{
    if i < end {
        lemma_name_runs(t, i + 1, end);
    }
}

proof fn lemma_value_found(values: Values, name: Seq<char>, i: int, k: int)
    requires
        0 <= i <= k < values.len(),
        values[k].0 == name,
        forall|j: int| i <= j < k ==> (#[trigger] values[j]).0 != name,
    ensures
        value_index(values, name, i) == Some(k),
    decreases k - i,
{
    if i < k {
        lemma_value_found(values, name, i + 1, k);
    }
}

proof fn lemma_no_value(values: Values, name: Seq<char>, i: int)
    requires
        0 <= i,
        forall|j: int| i <= j < values.len() ==> (#[trigger] values[j]).0 != name,
    ensures
        value_index(values, name, i) is None,
    decreases values.len() - i,
{
    if i < values.len() {
        lemma_no_value(values, name, i + 1);
    }
}

/// A placeholder, a name of letters, digits and underscores between `${` and `}`, is
/// filled in with the first value under its name; what stands before it stays, and
/// what stands behind it is filled in as it would be alone.
pub proof fn law_a_placeholder_is_filled_in(
    template: &str,
    values: &[(String, String)],
    before: Seq<char>,
    name: Seq<char>,
    after: &str,
    text: String,
    rest: String,
    k: int,
)
    requires
        call_ensures(substitute_template, (template, values), Ok(text)),
        call_ensures(substitute_template, (after, values), Ok(rest)),
        template@ == before + seq!['$', '{'] + name + seq!['}'] + after@,
        !before.contains('$'),
        name.len() > 0,
        forall|i: int|
            0 <= i < name.len() ==> ('a' <= #[trigger] name[i] <= 'z') || ('A' <= name[i] <= 'Z')
                || ('0' <= name[i] <= '9') || name[i] == '_',
        0 <= k < values@.len(),
        values@[k].0@ == name,
        forall|j: int| 0 <= j < k ==> (#[trigger] values@[j]).0@ != name,
    ensures
        text@ == before + values@[k].1@ + rest@,
{
    let vals = value_views(values@);
    let t = template@;
    let n = before.len() as int;
    let m = n + 2 + name.len();
    assert forall|i: int| 0 <= i < n implies #[trigger] t[i] != '$' by {
        assert(t[i] == before[i]);
    }
    lemma_plain_head(t, vals, n, 0);
    assert(t.subrange(0, n) =~= before);
    assert forall|i: int| n + 2 <= i < m implies is_name_char(#[trigger] t[i]) by {
        assert(t[i] == name[i - n - 2]);
    }
    assert(t[m] == '}');
    lemma_name_runs(t, n + 2, m);
    assert(t[n] == '$' && t[n + 1] == '{');
    assert(placeholder_end(t, n) == Some(m + 1));
    assert(t.subrange(n + 2, m) =~= name);
    assert forall|j: int| 0 <= j < k implies (#[trigger] vals[j]).0 != name by {
        assert(vals[j].0 == values@[j].0@);
    }
    lemma_value_found(vals, name, 0, k);
    lemma_filled_shift(t, vals, m + 1, 0);
    assert(t.skip(m + 1) =~= after@);
    assert(text@ =~= before + values@[k].1@ + rest@);
}

/// A placeholder without a value is missed, and told by its name.
pub proof fn law_a_placeholder_without_a_value_is_missed(
    template: &str,
    values: &[(String, String)],
    before: Seq<char>,
    name: Seq<char>,
    after: Seq<char>,
    res: Result<String, Vec<String>>,
)
    requires
        call_ensures(substitute_template, (template, values), res),
        template@ == before + seq!['$', '{'] + name + seq!['}'] + after,
        !before.contains('$'),
        name.len() > 0,
        forall|i: int|
            0 <= i < name.len() ==> ('a' <= #[trigger] name[i] <= 'z') || ('A' <= name[i] <= 'Z')
                || ('0' <= name[i] <= '9') || name[i] == '_',
        forall|j: int| 0 <= j < values@.len() ==> (#[trigger] values@[j]).0@ != name,
    ensures
        res matches Err(names) && views(names@).contains(name),
{
    let vals = value_views(values@);
    let t = template@;
    let n = before.len() as int;
    let m = n + 2 + name.len();
    assert forall|i: int| 0 <= i < n implies #[trigger] t[i] != '$' by {
        assert(t[i] == before[i]);
    }
    lemma_plain_head(t, vals, n, 0);
    assert forall|i: int| n + 2 <= i < m implies is_name_char(#[trigger] t[i]) by {
        assert(t[i] == name[i - n - 2]);
    }
    assert(t[m] == '}');
    lemma_name_runs(t, n + 2, m);
    assert(t[n] == '$' && t[n + 1] == '{');
    assert(t.subrange(n + 2, m) =~= name);
    assert forall|j: int| 0 <= j < vals.len() implies (#[trigger] vals[j]).0 != name by {
        assert(vals[j].0 == values@[j].0@);
    }
    lemma_no_value(vals, name, 0);
    let gaps = missing(t, vals, 0);
    assert(gaps[0] == name);
    assert(gaps.contains(name));
}

/// The notes of a project are those of the file in capitals where it is there, else those
/// of the other, without the white space round them.
pub proof fn law_which_notes_are_loaded(
    upper: Option<String>,
    lower: Option<String>,
    res: Option<String>,
)
    requires
        call_ensures(load_agents_md, (upper, lower), res),
    ensures
        upper matches Some(text) ==> (res matches Some(t) && t@ == trim(text@)),
        upper is None && lower is Some ==> (res matches Some(t) && t@ == trim(lower->0@)),
        res is None <==> upper is None && lower is None,
{
}

/// The tools of an agent are those that it lists and does not exclude, in their order.
pub proof fn law_excluded_tools_are_left_out(
    tools: &[String],
    exclude: &[String],
    res: Vec<String>,
)
    requires
        call_ensures(select_tools, (tools, exclude), res),
    ensures
        res@ == tools@.filter(|t: String| !views(exclude@).contains(t@)),
{
    lemma_kept_tools(tools@, views(exclude@));
}

proof fn lemma_kept_tools(tools: Seq<String>, excluded: Seq<Seq<char>>)
    ensures
        kept_tools(tools, excluded) == tools.filter(|t: String| !excluded.contains(t@)),
    decreases tools.len(),
{
    reveal(Seq::filter);
    if tools.len() > 0 {
        lemma_kept_tools(tools.drop_last(), excluded);
    }
}

/// The skills are listed one after the other, each with its name, path and description.
pub proof fn law_every_skill_is_listed(skills: &[ListedSkill], res: String)
    requires
        call_ensures(format_skills, (skills,), res),
        skills@.len() > 0,
    ensures
        exists|rows: Seq<Seq<char>>|
            {
                &&& res@ == #[trigger] join(rows, "\n"@)
                &&& rows.len() == skills@.len()
                &&& forall|i: int|
                    0 <= i < rows.len() ==> #[trigger] rows[i] == "- "@ + skills@[i].name@
                        + "\n  - Path: "@ + skills@[i].path@ + "\n  - Description: "@
                        + skills@[i].description@
            },
{
    let rows = Seq::new(skills@.len(), |i: int| skill_entry(skills@[i]));
    assert(res@ == join(rows, "\n"@));
}

/// The last value under a name.
pub open spec fn last_value(values: Values, name: Seq<char>) -> Option<Seq<char>>
    decreases values.len(),
{
    if values.len() == 0 {
        None
    } else if values.last().0 == name {
        Some(values.last().1)
    } else {
        last_value(values.drop_last(), name)
    }
}

proof fn lemma_with_value(values: Values, name: Seq<char>, value: Seq<char>, n: Seq<char>)
    ensures
        value_of(with_value(values, name, value), n) == (if n == name {
            Some(value)
        } else {
            value_of(values, n)
        }),
{
    let after = with_value(values, name, value);
    lemma_value_index(values, name, 0);
    lemma_value_index(values, n, 0);
    lemma_value_index(after, n, 0);
    match value_index(values, name, 0) {
        Some(i) => {
            if n == name {
                lemma_value_found(after, n, 0, i);
            } else {
                match value_index(values, n, 0) {
                    Some(k) => {
                        lemma_value_found(after, n, 0, k);
                    },
                    None => {
                        lemma_no_value(after, n, 0);
                    },
                }
            }
        },
        None => {
            if n == name {
                assert forall|j: int| 0 <= j < values.len() implies (#[trigger] after[j]).0
                    != n by {
                    assert(after[j] == values[j]);
                }
                lemma_value_found(after, n, 0, values.len() as int);
            } else {
                match value_index(values, n, 0) {
                    Some(k) => {
                        assert forall|j: int| 0 <= j < k implies (#[trigger] after[j]).0 != n by {
                            assert(after[j] == values[j]);
                        }
                        lemma_value_found(after, n, 0, k);
                    },
                    None => {
                        lemma_no_value(after, n, 0);
                    },
                }
            }
        },
    }
}

/// A prompt's values are taken from the caller's own first, then from those of the agent,
/// then from the built-in ones; of several under one name the last counts.
pub proof fn law_whose_values_count(builtin: Values, args: Values, extra: Values, name: Seq<char>)
    ensures
        value_of(prompt_values(builtin, args, extra), name) == match last_value(extra, name) {
            Some(value) => Some(value),
            None => match last_value(args, name) {
                Some(value) => Some(value),
                None => value_of(builtin, name),
            },
        },
{
    lemma_with_values(builtin, args, name);
    lemma_with_values(with_values(builtin, args), extra, name);
}

proof fn lemma_with_values(values: Values, more: Values, name: Seq<char>)
    ensures
        value_of(with_values(values, more), name) == match last_value(more, name) {
            Some(value) => Some(value),
            None => value_of(values, name),
        },
    decreases more.len(),
{
    if more.len() > 0 {
        lemma_with_values(values, more.drop_last(), name);
        lemma_with_value(
            with_values(values, more.drop_last()),
            more.last().0,
            more.last().1,
            name,
        );
    }
}

/// Each built-in placeholder has the value that is meant for it.
pub proof fn law_built_in_placeholders_have_their_values(
    args: BuiltinSystemPromptArgs,
    res: Vec<(String, String)>,
    i: int,
)
    requires
        call_ensures(BuiltinSystemPromptArgs::as_map, (&args,), res),
        0 <= i < res@.len(),
    ensures
        res@.len() == 5,
        res@[i].0@ == "KIMI_NOW"@ || res@[i].0@ == "KIMI_WORK_DIR"@ || res@[i].0@
            == "KIMI_WORK_DIR_LS"@ || res@[i].0@ == "KIMI_AGENTS_MD"@ || res@[i].0@
            == "KIMI_SKILLS"@,
        res@[i].0@ == "KIMI_NOW"@ ==> res@[i].1@ == args.KIMI_NOW@,
        res@[i].0@ == "KIMI_WORK_DIR"@ ==> res@[i].1@ == args.KIMI_WORK_DIR@,
        res@[i].0@ == "KIMI_WORK_DIR_LS"@ ==> res@[i].1@ == args.KIMI_WORK_DIR_LS@,
        res@[i].0@ == "KIMI_AGENTS_MD"@ ==> res@[i].1@ == args.KIMI_AGENTS_MD@,
        res@[i].0@ == "KIMI_SKILLS"@ ==> res@[i].1@ == args.KIMI_SKILLS@,
{
    reveal_strlit("KIMI_NOW");
    reveal_strlit("KIMI_WORK_DIR");
    reveal_strlit("KIMI_WORK_DIR_LS");
    reveal_strlit("KIMI_AGENTS_MD");
    reveal_strlit("KIMI_SKILLS");
    assert("KIMI_NOW"@.len() == 8 && "KIMI_WORK_DIR"@.len() == 13 && "KIMI_WORK_DIR_LS"@.len()
        == 16);
    assert("KIMI_AGENTS_MD"@.len() == 14 && "KIMI_SKILLS"@.len() == 11);
    let held = value_views(res@);
    assert(held.len() == res@.len());
    assert(held[i] == (res@[i].0@, res@[i].1@));
    assert(held[i] == builtin_values(args)[i]);
}

} // verus!
