//! Agent flows: graphs of prompts that an agent walks from their beginning to
//! their end, choosing its way at decisions.
use crate::pattern::opt_view;
use crate::text::{cat, join, join_strs, same, trim, trim_str, views};
use crate::wire::{ContentPart, UserInput};
use vstd::prelude::*;
use vstd::string::*;

verus! {

/// What a node of a flow is.
#[derive(Clone, Copy, Debug, PartialEq, Eq, Structural)]
pub enum FlowNodeKind {
    Begin,
    End,
    Task,
    Decision,
}

/// What a node says to the agent.
#[derive(Debug)]
pub enum FlowLabel {
    Text(String),
    Parts(Vec<ContentPart>),
}

/// A node of a flow.
#[derive(Debug)]
pub struct FlowNode {
    pub id: String,
    pub label: FlowLabel,
    /// The label as text.
    pub label_text: String,
    pub kind: FlowNodeKind,
}

/// A way from one node to another; from a decision it is chosen by its label.
#[derive(Debug)]
pub struct FlowEdge {
    pub src: String,
    pub dst: String,
    pub label: Option<String>,
}

/// A flow: its nodes, each id once, and the ways that leave them.
#[derive(Debug)]
pub struct Flow {
    pub nodes: Vec<FlowNode>,
    pub edges: Vec<FlowEdge>,
    pub begin_id: String,
    pub end_id: String,
}

/// Where the node with that id stands, from node `i` on.
pub open spec fn node_at(nodes: Seq<FlowNode>, id: Seq<char>, i: int) -> Option<int>
    decreases nodes.len() - i,
{
    if i < 0 || i >= nodes.len() {
        None
    } else if nodes[i].id@ == id {
        Some(i)
    } else {
        node_at(nodes, id, i + 1)
    }
}

/// The places of the ways that leave a node, of the first `n`.
pub open spec fn ways_from(edges: Seq<FlowEdge>, id: Seq<char>, n: int) -> Seq<int>
    decreases n,
{
    if n <= 0 {
        seq![]
    } else if edges[n - 1].src@ == id {
        ways_from(edges, id, n - 1).push(n - 1)
    } else {
        ways_from(edges, id, n - 1)
    }
}

impl Flow {
    /// The place of the node with that id.
    pub open spec fn node(&self, id: Seq<char>) -> Option<int> {
        node_at(self.nodes@, id, 0)
    }

    /// The places of the ways that leave a node.
    pub open spec fn ways(&self, id: Seq<char>) -> Seq<int> {
        ways_from(self.edges@, id, self.edges@.len() as int)
    }

    /// The flow begins at a node, and every way leads to one.
    pub open spec fn wf(&self) -> bool {
        &&& self.node(self.begin_id@) is Some
        &&& forall|i: int|
            0 <= i < self.edges@.len() ==> self.node((#[trigger] self.edges@[i]).dst@) is Some
    }

    fn find_node(&self, id: &str) -> (res: Option<usize>)
        ensures
            match res {
                Some(i) => self.node(id@) == Some(i as int) && i < self.nodes@.len(),
                None => self.node(id@) is None,
            },
    {
        let mut i: usize = 0;
        while i < self.nodes.len()
            invariant
                i <= self.nodes@.len(),
                node_at(self.nodes@, id@, 0) == node_at(self.nodes@, id@, i as int),
            decreases self.nodes@.len() - i,
        {
            if same(&self.nodes[i].id, id) {
                return Some(i);
            }
            i += 1;
        }
        None
    }

    fn find_ways(&self, id: &str) -> (res: Vec<usize>)
        ensures
            places(res@) == self.ways(id@),
            forall|k: int| 0 <= k < res@.len() ==> #[trigger] res@[k] < self.edges@.len(),
    {
        let mut res: Vec<usize> = Vec::new();
        let mut i: usize = 0;
        proof {
            assert(places(res@) =~= seq![]);
        }
        while i < self.edges.len()
            invariant
                i <= self.edges@.len(),
                places(res@) == ways_from(self.edges@, id@, i as int),
                forall|k: int| 0 <= k < res@.len() ==> #[trigger] res@[k] < i,
            decreases self.edges@.len() - i,
        {
            if same(&self.edges[i].src, id) {
                proof {
                    assert(places(res@.push(i)) =~= places(res@).push(i as int));
                }
                res.push(i);
            }
            i += 1;
        }
        res
    }
}

/// Machine numbers as mathematical ones.
pub open spec fn places(v: Seq<usize>) -> Seq<int> {
    v.map_values(|n: usize| n as int)
}

// -------------------------------------------------------------------- prompts

/// The labels among the first `n` of the ways at these places.
pub open spec fn labels_of(edges: Seq<FlowEdge>, ways: Seq<int>, n: int) -> Seq<Seq<char>>
    decreases n,
{
    if n <= 0 {
        seq![]
    } else {
        match edges[ways[n - 1]].label {
            Some(label) => labels_of(edges, ways, n - 1).push(label@),
            None => labels_of(edges, ways, n - 1),
        }
    }
}

/// Each of `choices` as a line of a list.
pub open spec fn as_items(choices: Seq<Seq<char>>) -> Seq<Seq<char>> {
    Seq::new(choices.len(), |i: int| "- "@ + choices[i])
}

/// What an agent is asked at a decision.
pub open spec fn decision_text(label: Seq<char>, choices: Seq<Seq<char>>) -> Seq<char> {
    join(
        seq![label, seq![], "Available branches:"@] + as_items(choices) + seq![
            seq![],
            "Reply with a choice using <choice>...</choice>."@,
        ],
        "\n"@,
    )
}

/// What an agent is asked, in the form in which it is sent and as text.
#[derive(Debug)]
pub struct FlowPrompt {
    pub user_input: UserInput,
    pub text: String,
}

/// A copy of a piece of content.
fn copy_part(part: &ContentPart) -> (res: ContentPart)
    ensures
        res == *part,
{
    match part {
        ContentPart::Text(t) => ContentPart::Text(t.clone()),
        ContentPart::Think(t) => ContentPart::Think(t.clone()),
        ContentPart::ImageUrl(t) => ContentPart::ImageUrl(t.clone()),
        ContentPart::AudioUrl(t) => ContentPart::AudioUrl(t.clone()),
        ContentPart::VideoUrl(t) => ContentPart::VideoUrl(t.clone()),
    }
}

/// A copy of pieces of content.
pub fn copy_parts(parts: &[ContentPart]) -> (res: Vec<ContentPart>)
    ensures
        res@ == parts@,
{
    let mut res: Vec<ContentPart> = Vec::new();
    let mut i: usize = 0;
    while i < parts.len()
        invariant
            i <= parts@.len(),
            res@ == parts@.take(i as int),
        decreases parts@.len() - i,
    {
        res.push(copy_part(&parts[i]));
        proof {
            assert(parts@.take(i + 1) =~= parts@.take(i as int).push(parts@[i as int]));
        }
        i += 1;
    }
    proof {
        assert(parts@.take(i as int) =~= parts@);
    }
    res
}

/// Whether `input` is that text.
pub open spec fn is_text_input(input: UserInput, text: Seq<char>) -> bool {
    input matches UserInput::Text(t) && t@ == text
}

/// Whether `prompt` is what an agent is asked at a node.
pub open spec fn is_prompt_at(prompt: FlowPrompt, flow: Flow, at: int) -> bool {
    let node = flow.nodes@[at];
    let ways = flow.ways(node.id@);
    if node.kind == FlowNodeKind::Decision {
        let text = decision_text(
            node.label_text@,
            labels_of(flow.edges@, ways, ways.len() as int),
        );
        is_text_input(prompt.user_input, text) && prompt.text@ == text
    } else {
        match node.label {
            FlowLabel::Text(t) => is_text_input(prompt.user_input, t@) && prompt.text@ == t@,
            FlowLabel::Parts(parts) => (prompt.user_input matches UserInput::Parts(p) && p@
                == parts@) && prompt.text@ == node.label_text@,
        }
    }
}

/// What an agent is told whose answer held no valid choice.
pub open spec fn retry_text(base: Seq<char>) -> Seq<char> {
    base
        + "\n\nYour last response did not include a valid choice. Reply with one of the choices using <choice>...</choice>."@
}

// ------------------------------------------------------------------ the runner

/// A flow to be walked, with a bound on its moves.
#[derive(Debug)]
pub struct FlowRunner {
    pub flow: Flow,
    pub name: Option<String>,
    pub max_moves: i64,
}

/// How far a walk has come.
#[derive(Debug)]
pub struct FlowState {
    pub current_id: String,
    pub moves: i64,
    pub total_steps: i64,
}

/// What a walk does next.
#[derive(Debug)]
pub enum FlowMove {
    /// Go on at the node that is now the current one.
    Moved,
    /// The walk is over.
    Finished,
    /// It has made as many moves as it may, in so many steps.
    MovesExceeded(i64),
    /// The agent is asked this.
    Ask(UserInput),
}

/// How a turn of the agent ended, as far as a flow is concerned.
#[derive(Debug)]
pub struct FlowTurn {
    pub rejected: bool,
    pub steps: i64,
    /// The choice that its answer holds, if any.
    pub choice: Option<String>,
}

/// The first of the ways at these places, from the way `i` on, with that label.
pub open spec fn chosen_way(edges: Seq<FlowEdge>, ways: Seq<int>, choice: Seq<char>, i: int) -> Option<
    int,
>
    decreases ways.len() - i,
{
    if i < 0 || i >= ways.len() {
        None
    } else if opt_view(edges[ways[i]].label) == Some(choice) {
        Some(ways[i])
    } else {
        chosen_way(edges, ways, choice, i + 1)
    }
}

/// The way that a turn at a node leads: the first, or at a decision the one that
/// was chosen.
pub open spec fn way_taken(flow: Flow, at: int, choice: Option<Seq<char>>) -> Option<int> {
    let node = flow.nodes@[at];
    let ways = flow.ways(node.id@);
    if node.kind != FlowNodeKind::Decision {
        Some(ways[0])
    } else {
        match choice {
            Some(c) => chosen_way(flow.edges@, ways, c, 0),
            None => None,
        }
    }
}

/// The number of moves of a loop that runs until it is stopped.
pub const ENDLESS_RUNS: i64 = 1_000_000_000_000_000;

/// The texts among pieces of content.
pub open spec fn texts_in(parts: Seq<ContentPart>) -> Seq<Seq<char>>
    decreases parts.len(),
{
    if parts.len() == 0 {
        seq![]
    } else {
        match parts.last() {
            ContentPart::Text(t) => texts_in(parts.drop_last()).push(t@),
            _ => texts_in(parts.drop_last()),
        }
    }
}

/// The texts among pieces of content, with `sep` between them.
pub fn extract_text(parts: &[ContentPart], sep: &str) -> (res: String)
    ensures
        res@ == join(texts_in(parts@), sep@),
{
    let mut texts: Vec<String> = Vec::new();
    let mut i: usize = 0;
    proof {
        assert(parts@.take(0) =~= seq![]);
        assert(views(texts@) =~= seq![]);
    }
    while i < parts.len()
        invariant
            i <= parts@.len(),
            views(texts@) == texts_in(parts@.take(i as int)),
        decreases parts@.len() - i,
    {
        proof {
            assert(parts@.take(i + 1).drop_last() =~= parts@.take(i as int));
        }
        if let ContentPart::Text(t) = &parts[i] {
            proof {
                assert(views(texts@.push(*t)) =~= views(texts@).push(t@));
            }
            texts.push(t.clone());
        }
        i += 1;
    }
    proof {
        assert(parts@.take(i as int) =~= parts@);
    }
    join_strs(&texts, sep)
}

/// The question at the decision of a loop.
pub open spec fn loop_question(parts: Seq<ContentPart>) -> Seq<char> {
    trim(join(texts_in(parts), " "@))
        + ". (You are running in an automated loop where the same prompt is fed repeatedly. Only choose STOP when the task is fully complete. Including it will stop further iterations. If you are not 100% sure, choose CONTINUE.)"@
}

/// Whether `edge` leads from one node to another under that label.
pub open spec fn is_edge(
    edge: FlowEdge,
    src: Seq<char>,
    dst: Seq<char>,
    label: Option<Seq<char>>,
) -> bool {
    edge.src@ == src && edge.dst@ == dst && opt_view(edge.label) == label
}

fn make_edge(src: &str, dst: &str, label: Option<&str>) -> (res: FlowEdge)
    ensures
        is_edge(
            res,
            src@,
            dst@,
            match label {
                Some(l) => Some(l@),
                None => None,
            },
        ),
{
    let label: Option<String> = match label {
        Some(l) => Some(l.to_owned()),
        None => None,
    };
    FlowEdge { src: src.to_owned(), dst: dst.to_owned(), label }
}

/// Whether `node` has that id and kind, and that text as its label.
pub open spec fn is_text_node(
    node: FlowNode,
    id: Seq<char>,
    text: Seq<char>,
    kind: FlowNodeKind,
) -> bool {
    &&& node.id@ == id
    &&& node.label matches FlowLabel::Text(t) && t@ == text
    &&& node.label_text@ == text
    &&& node.kind == kind
}

fn text_node(id: &str, text: &str, kind: FlowNodeKind) -> (res: FlowNode)
    ensures
        is_text_node(res, id@, text@, kind),
{
    FlowNode {
        id: id.to_owned(),
        label: FlowLabel::Text(text.to_owned()),
        label_text: text.to_owned(),
        kind,
    }
}

impl FlowRunner {
    /// A flow to be walked.
    pub fn new(flow: Flow, name: Option<String>, max_moves: i64) -> (res: FlowRunner)
        ensures
            res == (FlowRunner { flow, name, max_moves }),
    {
        FlowRunner { flow, name, max_moves }
    }

    /// The flow that feeds a prompt to the agent again and again until the agent
    /// says that it is done, or as often as is allowed. A negative number sets no
    /// bound.
    pub fn ralph_loop(content: Vec<ContentPart>, max_ralph_iterations: i64) -> (res: FlowRunner)
        requires
            max_ralph_iterations < i64::MAX,
        ensures
            res.flow.wf(),
            res.name is None,
            res.max_moves == if max_ralph_iterations < 0 {
                ENDLESS_RUNS as int
            } else {
                max_ralph_iterations + 1
            },
            res.flow.begin_id@ == "BEGIN"@,
            res.flow.end_id@ == "END"@,
            res.flow.nodes@.len() == 4,
            is_text_node(res.flow.nodes@[0], "BEGIN"@, "BEGIN"@, FlowNodeKind::Begin),
            is_text_node(res.flow.nodes@[1], "END"@, "END"@, FlowNodeKind::End),
            res.flow.nodes@[2].id@ == "R1"@ && res.flow.nodes@[2].kind == FlowNodeKind::Task
                && res.flow.nodes@[2].label == FlowLabel::Parts(content)
                && res.flow.nodes@[2].label_text@ == trim(join(texts_in(content@), " "@)),
            is_text_node(
                res.flow.nodes@[3],
                "R2"@,
                loop_question(content@),
                FlowNodeKind::Decision,
            ),
            res.flow.edges@.len() == 4,
            is_edge(res.flow.edges@[0], "BEGIN"@, "R1"@, None),
            is_edge(res.flow.edges@[1], "R1"@, "R2"@, None),
            is_edge(res.flow.edges@[2], "R2"@, "R2"@, Some("CONTINUE"@)),
            is_edge(res.flow.edges@[3], "R2"@, "END"@, Some("STOP"@)),
    {
        let text: String = trim_str(&extract_text(&content, " "));
        let question: String = cat(
            &text,
            ". (You are running in an automated loop where the same prompt is fed repeatedly. Only choose STOP when the task is fully complete. Including it will stop further iterations. If you are not 100% sure, choose CONTINUE.)",
        );
        let max_moves: i64 = if max_ralph_iterations < 0 {
            ENDLESS_RUNS
        } else {
            max_ralph_iterations + 1
        };
        let nodes: Vec<FlowNode> = vec![
            text_node("BEGIN", "BEGIN", FlowNodeKind::Begin),
            text_node("END", "END", FlowNodeKind::End),
            FlowNode {
                id: "R1".to_owned(),
                label: FlowLabel::Parts(content),
                label_text: text,
                kind: FlowNodeKind::Task,
            },
            text_node("R2", &question, FlowNodeKind::Decision),
        ];
        let edges: Vec<FlowEdge> = vec![
            make_edge("BEGIN", "R1", None),
            make_edge("R1", "R2", None),
            make_edge("R2", "R2", Some("CONTINUE")),
            make_edge("R2", "END", Some("STOP")),
        ];
        let flow: Flow = Flow {
            nodes,
            edges,
            begin_id: "BEGIN".to_owned(),
            end_id: "END".to_owned(),
        };
        proof {
            reveal_with_fuel(node_at, 5);
            assert(flow.node("BEGIN"@) is Some);
            assert(flow.node("END"@) is Some);
            assert(flow.node("R1"@) is Some);
            assert(flow.node("R2"@) is Some);
            assert forall|i: int| 0 <= i < flow.edges@.len() implies flow.node(
                (#[trigger] flow.edges@[i]).dst@,
            ) is Some by {
                assert(i == 0 || i == 1 || i == 2 || i == 3);
            }
        }
        FlowRunner::new(flow, None, max_moves)
    }

    /// Where a walk begins. A walk that is given arguments is not made: a flow
    /// takes none.
    pub fn begin(&self, args: &str) -> (res: Option<FlowState>)
        requires
            self.flow.wf(),
        ensures
            trim(args@).len() > 0 ==> res is None,
            trim(args@).len() == 0 ==> (res matches Some(s) && s.current_id == self.flow.begin_id
                && s.moves == 0 && s.total_steps == 0 && self.on_track(s)),
    {
        if !trim_str(args).as_str().is_empty() {
            return None;
        }
        Some(FlowState { current_id: self.flow.begin_id.clone(), moves: 0, total_steps: 0 })
    }

    /// The walk is at a node, and has made no more moves than it may.
    pub open spec fn on_track(&self, state: FlowState) -> bool {
        &&& self.flow.wf()
        &&& self.flow.node(state.current_id@) is Some
        &&& 0 <= state.moves
        &&& state.moves <= self.max_moves || state.moves == 0
    }

    /// What the walk does at the node where it is.
    pub fn next(&self, state: &mut FlowState) -> (res: FlowMove)
        requires
            self.on_track(*old(state)),
        ensures
            self.on_track(*final(state)),
            walks(*self, *old(state), res, *final(state)),
    {
        let at: usize = match self.flow.find_node(&state.current_id) {
            Some(i) => i,
            None => {
                return FlowMove::Finished;
            },
        };
        let ways: Vec<usize> = self.flow.find_ways(&self.flow.nodes[at].id);
        proof {
            lemma_node_at(self.flow.nodes@, state.current_id@, 0);
            assert(places(ways@).len() == ways@.len());
        }
        match self.flow.nodes[at].kind {
            FlowNodeKind::End => FlowMove::Finished,
            FlowNodeKind::Begin => {
                if ways.len() == 0 {
                    return FlowMove::Finished;
                }
                proof {
                    assert(places(ways@)[0] == ways@[0]);
                    assert(self.flow.node(self.flow.edges@[ways@[0] as int].dst@) is Some);
                }
                state.current_id = self.flow.edges[ways[0]].dst.clone();
                FlowMove::Moved
            },
            _ => {
                if state.moves >= self.max_moves {
                    return FlowMove::MovesExceeded(state.total_steps);
                }
                if ways.len() == 0 {
                    return FlowMove::Finished;
                }
                let prompt: FlowPrompt = self.build_flow_prompt(at, &ways);
                proof {
                    assert(is_prompt_at(prompt, self.flow, at as int));
                }
                FlowMove::Ask(prompt.user_input)
            },
        }
    }

    /// What the walk does once the agent has answered at the node where it is.
    /// Where the answer holds no valid choice, it is asked again.
    pub fn answered(&self, state: &mut FlowState, turn: &FlowTurn) -> (res: FlowMove)
        requires
            self.on_track(*old(state)),
            old(state).moves < self.max_moves,
            i64::MIN <= old(state).total_steps + turn.steps <= i64::MAX,
            ({
                let node = self.flow.nodes@[self.flow.node(old(state).current_id@)->0];
                (node.kind == FlowNodeKind::Task || node.kind == FlowNodeKind::Decision)
                    && self.flow.ways(node.id@).len() > 0
            }),
        ensures
            self.on_track(*final(state)),
            walks_on(*self, *old(state), *turn, res, *final(state)),
    {
        state.total_steps = state.total_steps + turn.steps;
        if turn.rejected {
            return FlowMove::Finished;
        }
        let at: usize = match self.flow.find_node(&state.current_id) {
            Some(i) => i,
            None => {
                return FlowMove::Finished;
            },
        };
        let ways: Vec<usize> = self.flow.find_ways(&self.flow.nodes[at].id);
        proof {
            lemma_node_at(self.flow.nodes@, state.current_id@, 0);
            assert(places(ways@).len() == ways@.len());
            assert(places(ways@)[0] == ways@[0]);
        }
        let way: Option<usize> = match self.flow.nodes[at].kind {
            FlowNodeKind::Decision => match &turn.choice {
                Some(choice) => self.find_choice(&ways, choice),
                None => None,
            },
            _ => Some(ways[0]),
        };
        match way {
            Some(way) => {
                proof {
                    assert(self.flow.node(self.flow.edges@[way as int].dst@) is Some);
                }
                state.current_id = self.flow.edges[way].dst.clone();
                state.moves = state.moves + 1;
                FlowMove::Moved
            },
            None => {
                let prompt: FlowPrompt = self.build_flow_prompt(at, &ways);
                proof {
                    assert(is_prompt_at(prompt, self.flow, at as int));
                }
                FlowMove::Ask(
                    UserInput::Text(
                        cat(
                            &prompt.text,
                            "\n\nYour last response did not include a valid choice. Reply with one of the choices using <choice>...</choice>.",
                        ),
                    ),
                )
            },
        }
    }

    fn find_choice(&self, ways: &Vec<usize>, choice: &str) -> (res: Option<usize>)
        requires
            forall|k: int| 0 <= k < ways@.len() ==> #[trigger] ways@[k] < self.flow.edges@.len(),
        ensures
            match res {
                Some(way) => chosen_way(self.flow.edges@, places(ways@), choice@, 0) == Some(
                    way as int,
                ) && way < self.flow.edges@.len(),
                None => chosen_way(self.flow.edges@, places(ways@), choice@, 0) is None,
            },
    {
        let ghost all = places(ways@);
        let mut i: usize = 0;
        while i < ways.len()
            invariant
                i <= ways@.len(),
                all == places(ways@),
                forall|k: int|
                    0 <= k < ways@.len() ==> #[trigger] ways@[k] < self.flow.edges@.len(),
                chosen_way(self.flow.edges@, all, choice@, 0) == chosen_way(
                    self.flow.edges@,
                    all,
                    choice@,
                    i as int,
                ),
            decreases ways@.len() - i,
        {
            proof {
                assert(all[i as int] == ways@[i as int]);
            }
            if let Some(label) = &self.flow.edges[ways[i]].label {
                if same(label, choice) {
                    return Some(ways[i]);
                }
            }
            i += 1;
        }
        None
    }

    /// What an agent is asked at a node: the label itself or, at a decision, the
    /// label and the choices there are.
    fn build_flow_prompt(&self, at: usize, ways: &Vec<usize>) -> (res: FlowPrompt)
        requires
            at < self.flow.nodes@.len(),
            places(ways@) == self.flow.ways(self.flow.nodes@[at as int].id@),
            forall|k: int| 0 <= k < ways@.len() ==> #[trigger] ways@[k] < self.flow.edges@.len(),
        ensures
            is_prompt_at(res, self.flow, at as int),
    {
        let node: &FlowNode = &self.flow.nodes[at];
        if !matches!(node.kind, FlowNodeKind::Decision) {
            return match &node.label {
                FlowLabel::Parts(parts) => FlowPrompt {
                    user_input: UserInput::Parts(copy_parts(parts)),
                    text: node.label_text.clone(),
                },
                FlowLabel::Text(text) => FlowPrompt {
                    user_input: UserInput::Text(text.clone()),
                    text: text.clone(),
                },
            };
        }
        let ghost all = places(ways@);
        let mut lines: Vec<String> = Vec::new();
        lines.push(node.label_text.clone());
        lines.push(String::new());
        lines.push("Available branches:".to_owned());
        let ghost head = views(lines@);
        let ghost mut choices: Seq<Seq<char>> = seq![];
        let mut i: usize = 0;
        proof {
            assert(head =~= seq![node.label_text@, seq![], "Available branches:"@]);
            assert(head + as_items(choices) =~= head);
        }
        while i < ways.len()
            invariant
                i <= ways@.len(),
                all == places(ways@),
                forall|k: int|
                    0 <= k < ways@.len() ==> #[trigger] ways@[k] < self.flow.edges@.len(),
                choices == labels_of(self.flow.edges@, all, i as int),
                views(lines@) == head + as_items(choices),
            decreases ways@.len() - i,
        {
            proof {
                assert(all[i as int] == ways@[i as int]);
            }
            if let Some(label) = &self.flow.edges[ways[i]].label {
                let line: String = cat("- ", label);
                proof {
                    assert(views(lines@.push(line)) =~= views(lines@).push(line@));
                    assert(as_items(choices.push(label@)) =~= as_items(choices).push(line@));
                    assert(head + as_items(choices).push(line@) =~= (head + as_items(
                        choices,
                    )).push(line@));
                    choices = choices.push(label@);
                }
                lines.push(line);
            }
            i += 1;
        }
        let ghost body = views(lines@);
        lines.push(String::new());
        lines.push("Reply with a choice using <choice>...</choice>.".to_owned());
        proof {
            assert(views(lines@) =~= body + seq![
                seq![],
                "Reply with a choice using <choice>...</choice>."@,
            ]);
        }
        let text: String = join_strs(&lines, "\n");
        FlowPrompt { user_input: UserInput::Text(text.clone()), text }
    }
}

proof fn lemma_node_at(nodes: Seq<FlowNode>, id: Seq<char>, i: int)
    requires
        0 <= i,
    ensures
        node_at(nodes, id, i) matches Some(k) ==> i <= k < nodes.len() && nodes[k].id@ == id,
    decreases nodes.len() - i,
{
    if i < nodes.len() && nodes[i].id@ != id {
        lemma_node_at(nodes, id, i + 1);
    }
}

/// A walk that stays on track never makes more moves than it may.
pub proof fn law_moves_are_bounded(runner: FlowRunner, state: FlowState)
    requires
        runner.on_track(state),
        runner.max_moves >= 0,
    ensures
        state.moves <= runner.max_moves,
{
}

/// What a walk does at the node where it is.
pub open spec fn walks(runner: FlowRunner, before: FlowState, res: FlowMove, after: FlowState) -> bool {
    let at = runner.flow.node(before.current_id@)->0;
    let node = runner.flow.nodes@[at];
    let ways = runner.flow.ways(node.id@);
    &&& after.moves == before.moves && after.total_steps == before.total_steps
    &&& match node.kind {
        FlowNodeKind::End => res is Finished && after == before,
        FlowNodeKind::Begin => if ways.len() == 0 {
            res is Finished && after == before
        } else {
            res is Moved && after.current_id == runner.flow.edges@[ways[0]].dst
        },
        _ => {
            &&& after == before
            &&& if before.moves >= runner.max_moves {
                res matches FlowMove::MovesExceeded(steps) && steps == before.total_steps
            } else if ways.len() == 0 {
                res is Finished
            } else {
                res matches FlowMove::Ask(input) && exists|prompt: FlowPrompt| #[trigger]
                    is_prompt_at(prompt, runner.flow, at) && prompt.user_input == input
            }
        },
    }
}

/// What a walk does once the agent has answered at the node where it is.
pub open spec fn walks_on(
    runner: FlowRunner,
    before: FlowState,
    turn: FlowTurn,
    res: FlowMove,
    after: FlowState,
) -> bool {
    let at = runner.flow.node(before.current_id@)->0;
    &&& after.total_steps == before.total_steps + turn.steps
    &&& if turn.rejected {
        res is Finished && after.current_id == before.current_id && after.moves == before.moves
    } else {
        match way_taken(runner.flow, at, opt_view(turn.choice)) {
            Some(way) => {
                &&& res is Moved
                &&& after.current_id == runner.flow.edges@[way].dst
                &&& after.moves == before.moves + 1
            },
            None => {
                &&& after.current_id == before.current_id
                &&& after.moves == before.moves
                &&& res matches FlowMove::Ask(input)
                &&& exists|prompt: FlowPrompt| #[trigger]
                    is_prompt_at(prompt, runner.flow, at) && is_text_input(
                        input,
                        retry_text(prompt.text@),
                    )
            },
        }
    }
}

proof fn lemma_ways_from(edges: Seq<FlowEdge>, id: Seq<char>, n: int)
    requires
        0 <= n <= edges.len(),
    ensures
        forall|k: int|
            0 <= k < ways_from(edges, id, n).len() ==> 0 <= #[trigger] ways_from(edges, id, n)[k]
                < n && edges[ways_from(edges, id, n)[k]].src@ == id,
        forall|a: int, b: int|
            0 <= a < b < ways_from(edges, id, n).len() ==> #[trigger] ways_from(edges, id, n)[a]
                < #[trigger] ways_from(edges, id, n)[b],
        forall|w: int|
            0 <= w < n && (#[trigger] edges[w]).src@ == id ==> ways_from(edges, id, n).contains(w),
    decreases n,
{
    if n > 0 {
        lemma_ways_from(edges, id, n - 1);
        let front = ways_from(edges, id, n - 1);
        let all = ways_from(edges, id, n);
        assert forall|w: int| 0 <= w < n && (#[trigger] edges[w]).src@ == id implies all.contains(
            w,
        ) by {
            if w < n - 1 {
                let k = choose|k: int| 0 <= k < front.len() && front[k] == w;
                assert(all[k] == w);
            } else {
                assert(all[all.len() - 1] == w);
            }
        }
    }
}

proof fn lemma_chosen_way(edges: Seq<FlowEdge>, ways: Seq<int>, choice: Seq<char>, i: int)
    requires
        0 <= i,
    ensures
        match chosen_way(edges, ways, choice, i) {
            Some(w) => exists|k: int|
                i <= k < ways.len() && #[trigger] ways[k] == w && opt_view(edges[w].label) == Some(
                    choice,
                ) && forall|j: int|
                    i <= j < k ==> opt_view(edges[#[trigger] ways[j]].label) != Some(choice),
            None => forall|j: int|
                i <= j < ways.len() ==> opt_view(edges[#[trigger] ways[j]].label) != Some(choice),
        },
    decreases ways.len() - i,
{
    if i < ways.len() {
        if opt_view(edges[ways[i]].label) == Some(choice) {
            assert(ways[i] == ways[i]);
        } else {
            lemma_chosen_way(edges, ways, choice, i + 1);
        }
    }
}

/// At a decision a walk takes the first way out of the node that is labelled with the
/// agent's choice, and asks again where there is none; at a task it takes the first
/// way out, whatever was said. Each way that is taken counts as one move; a rejected
/// turn ends the walk where it is. The steps of the turn are counted either way.
pub proof fn law_which_way_a_walk_takes(
    runner: FlowRunner,
    before: FlowState,
    turn: FlowTurn,
    res: FlowMove,
    after: FlowState,
    at: int,
    w: int,
)
    requires
        runner.on_track(before),
        walks_on(runner, before, turn, res, after),
        0 <= at < runner.flow.nodes@.len(),
        runner.flow.nodes@[at].id@ == before.current_id@,
        forall|k: int|
            0 <= k < at ==> (#[trigger] runner.flow.nodes@[k]).id@ != before.current_id@,
        0 <= w < runner.flow.edges@.len(),
        runner.flow.edges@[w].src@ == before.current_id@,
        !turn.rejected,
    ensures
        after.total_steps == before.total_steps + turn.steps,
        runner.flow.nodes@[at].kind == FlowNodeKind::Decision && turn.choice is Some && opt_view(
            runner.flow.edges@[w].label,
        ) == Some(turn.choice->0@) && (forall|k: int|
            0 <= k < w && (#[trigger] runner.flow.edges@[k]).src@ == before.current_id@
                ==> opt_view(runner.flow.edges@[k].label) != Some(turn.choice->0@)) ==> res is Moved
            && after.current_id == runner.flow.edges@[w].dst && after.moves == before.moves + 1,
        runner.flow.nodes@[at].kind == FlowNodeKind::Decision && (forall|k: int|
            0 <= k < runner.flow.edges@.len() && (#[trigger] runner.flow.edges@[k]).src@
                == before.current_id@ ==> turn.choice is None || opt_view(
                runner.flow.edges@[k].label,
            ) != Some(turn.choice->0@)) ==> res is Ask && after.current_id == before.current_id
            && after.moves == before.moves,
        runner.flow.nodes@[at].kind == FlowNodeKind::Task && (forall|k: int|
            0 <= k < w ==> (#[trigger] runner.flow.edges@[k]).src@ != before.current_id@)
            ==> res is Moved && after.current_id == runner.flow.edges@[w].dst && after.moves
            == before.moves + 1,
{
    let edges = runner.flow.edges@;
    let id = before.current_id@;
    lemma_node_at(runner.flow.nodes@, id, 0);
    lemma_first_node(runner.flow.nodes@, id, 0, at);
    let n = edges.len() as int;
    lemma_ways_from(edges, id, n);
    let ways = runner.flow.ways(id);
    assert(edges[w].src@ == id);
    assert(ways.contains(w));
    let p = choose|p: int| 0 <= p < ways.len() && ways[p] == w;
    if let Some(choice) = turn.choice {
        lemma_chosen_way(edges, ways, choice@, 0);
        match chosen_way(edges, ways, choice@, 0) {
            Some(v) => {
                let q = choose|q: int|
                    0 <= q < ways.len() && #[trigger] ways[q] == v && opt_view(edges[v].label)
                        == Some(choice@) && forall|j: int|
                        0 <= j < q ==> opt_view(edges[#[trigger] ways[j]].label) != Some(choice@);
                assert(edges[ways[q]].src@ == id);
                if p < q {
                    assert(opt_view(edges[ways[p]].label) != Some(choice@));
                }
                if q < p {
                    assert(ways[q] < ways[p]);
                }
            },
            None => {
                assert(opt_view(edges[ways[p]].label) != Some(choice@));
            },
        }
    }
    if p > 0 {
        assert(ways[0] < ways[p]);
        assert(edges[ways[0]].src@ == id);
    }
}

proof fn lemma_first_node(nodes: Seq<FlowNode>, id: Seq<char>, i: int, at: int)
    requires
        0 <= i <= at < nodes.len(),
        nodes[at].id@ == id,
        forall|k: int| i <= k < at ==> (#[trigger] nodes[k]).id@ != id,
    ensures
        node_at(nodes, id, i) == Some(at),
    decreases at - i,
{
    if i < at {
        lemma_first_node(nodes, id, i + 1, at);
    }
}

/// A rejected turn ends a walk; the end of the flow does too, and so does a node without a
/// way out. A walk that has made all its moves goes no further, and the node where it
/// begins asks nothing.
pub proof fn law_when_a_walk_ends(
    runner: FlowRunner,
    before: FlowState,
    res: FlowMove,
    after: FlowState,
    at: int,
    turn: FlowTurn,
    end: FlowMove,
    last: FlowState,
)
    requires
        runner.on_track(before),
        walks(runner, before, res, after),
        walks_on(runner, before, turn, end, last),
        0 <= at < runner.flow.nodes@.len(),
        runner.flow.nodes@[at].id@ == before.current_id@,
        forall|k: int|
            0 <= k < at ==> (#[trigger] runner.flow.nodes@[k]).id@ != before.current_id@,
    ensures
        turn.rejected ==> end is Finished,
        runner.flow.nodes@[at].kind == FlowNodeKind::End ==> res is Finished,
        runner.flow.nodes@[at].kind == FlowNodeKind::Begin ==> res is Finished || res is Moved,
        runner.flow.nodes@[at].kind == FlowNodeKind::Task || runner.flow.nodes@[at].kind
            == FlowNodeKind::Decision ==> {
            &&& res is MovesExceeded <==> before.moves >= runner.max_moves
            &&& res is Finished || res is MovesExceeded || res is Ask
            &&& after == before
        },
        res is Finished ==> runner.flow.nodes@[at].kind == FlowNodeKind::End || forall|k: int|
            0 <= k < runner.flow.edges@.len() ==> (#[trigger] runner.flow.edges@[k]).src@
                != before.current_id@,
        res matches FlowMove::MovesExceeded(steps) ==> steps == before.total_steps,
{
    let edges = runner.flow.edges@;
    lemma_first_node(runner.flow.nodes@, before.current_id@, 0, at);
    lemma_ways_from(edges, before.current_id@, edges.len() as int);
}

/// Whether a way of the flow leads from one node to another, under that label.
pub open spec fn leads(flow: Flow, from: Seq<char>, to: Seq<char>, label: Option<Seq<char>>) -> bool {
    exists|k: int|
        0 <= k < flow.edges@.len() && (#[trigger] flow.edges@[k]).src@ == from && flow.edges@[k].dst@
            == to && opt_view(flow.edges@[k].label) == label
}

/// Whether `p`, `q` and `e` are the nodes of a loop: the prompt, the question whether to go
/// on, and the end.
pub open spec fn is_loop(flow: Flow, content: Vec<ContentPart>, p: int, q: int, e: int) -> bool {
    let nodes = flow.nodes@;
    &&& 0 <= p < nodes.len() && 0 <= q < nodes.len() && 0 <= e < nodes.len()
    &&& nodes[p].kind == FlowNodeKind::Task && nodes[p].label == FlowLabel::Parts(content)
    &&& nodes[q].kind == FlowNodeKind::Decision
    &&& nodes[e].kind == FlowNodeKind::End
    &&& flow.edges@.len() == 4
    &&& leads(flow, flow.begin_id@, nodes[p].id@, None)
    &&& leads(flow, nodes[p].id@, nodes[q].id@, None)
    &&& leads(flow, nodes[q].id@, nodes[q].id@, Some("CONTINUE"@))
    &&& leads(flow, nodes[q].id@, nodes[e].id@, Some("STOP"@))
}

/// A loop asks its prompt once and then, again and again, whether to go on: `CONTINUE`
/// leads back to that question and `STOP` to the end. It makes one move more than it
/// has iterations, and does not stop of itself where they are negative.
pub proof fn law_how_a_loop_runs(content: Vec<ContentPart>, iterations: i64, res: FlowRunner)
    requires
        call_ensures(FlowRunner::ralph_loop, (content, iterations), res),
    ensures
        iterations >= 0 ==> res.max_moves == iterations + 1,
        iterations < 0 ==> res.max_moves >= 1_000_000_000,
        exists|p: int, q: int, e: int| is_loop(res.flow, content, p, q, e),
{
    let nodes = res.flow.nodes@;
    let edges = res.flow.edges@;
    assert(edges[0].src@ == res.flow.begin_id@);
    assert(edges[1].src@ == nodes[2].id@);
    assert(edges[2].src@ == nodes[3].id@);
    assert(edges[3].src@ == nodes[3].id@);
    assert(is_loop(res.flow, content, 2, 3, 1));
}

/// A flow begins at its first node, without a move or a step behind it, and takes no
/// arguments.
pub proof fn law_how_a_walk_begins(runner: FlowRunner, args: &str, res: Option<FlowState>)
    requires
        call_ensures(FlowRunner::begin, (&runner, args), res),
    ensures
        res is Some <==> trim(args@).len() == 0,
        res matches Some(s) ==> s.current_id == runner.flow.begin_id && s.moves == 0
            && s.total_steps == 0,
{
}

/// The text of a message is that of its text parts, in order, and of nothing else.
pub proof fn law_only_texts_are_extracted(parts: Seq<ContentPart>, part: ContentPart)
    ensures
        texts_in(parts.push(part)) == match part {
            ContentPart::Text(t) => texts_in(parts).push(t@),
            _ => texts_in(parts),
        },
        texts_in(Seq::<ContentPart>::empty()).len() == 0,
{
    assert(parts.push(part).drop_last() =~= parts);
}

/// What an agent is asked at a decision begins with the node's label, ends with how to
/// answer, and names each labelled way out in between.
pub proof fn law_a_decision_names_its_ways(label: Seq<char>, choices: Seq<Seq<char>>, i: int)
    requires
        0 <= i < choices.len(),
    ensures
        exists|rows: Seq<Seq<char>>|
            decision_text(label, choices) == #[trigger] join(rows, "\n"@) && rows[0] == label
                && rows.contains("- "@ + choices[i]) && rows.last()
                == "Reply with a choice using <choice>...</choice>."@,
{
    let rows = seq![label, seq![], "Available branches:"@] + as_items(choices) + seq![
        seq![],
        "Reply with a choice using <choice>...</choice>."@,
    ];
    assert(rows[3 + i] == "- "@ + choices[i]);
    assert(decision_text(label, choices) == join(rows, "\n"@));
}

} // verus!
