//! Named commands, each with an ordered list of top-level argument nodes, and
//! the dispatcher that resolves an input line against the registered commands.
use vstd::prelude::*;
use crate::node::{matches_all, views, Node};
use crate::text::{
    eq_ignore_ascii_case, eq_ignore_case, get_until_first_space, head_of, is_prefix,
    remove_until_first_space, starts_with, tail_of,
};

verus! {

/// A named root of an argument tree.
pub struct Command {
    name: String,
    nodes: Vec<Node>,
}

impl Command {
    /// The command's name.
    pub closed spec fn name(self) -> Seq<char> {
        self.name@
    }

    /// The command's top-level nodes, in order.
    pub closed spec fn nodes(self) -> Seq<Node> {
        self.nodes@
    }

    /// The candidates that the command yields on the input that follows its
    /// name: what each top-level node yields, concatenated in order.
    pub open spec fn resolve(self, input: Seq<char>) -> Seq<Seq<char>> {
        matches_all(self.nodes(), input)
    }

    /// A command named `name` with no nodes.
    pub fn new(name: String) -> (r: Command)
        ensures
            r.name() == name@,
            r.nodes() == Seq::<Node>::empty(),
    {
        Command { name, nodes: Vec::new() }
    }

    /// The same command with `node` appended as its last top-level node.
    pub fn add_node(self, node: Node) -> (r: Command)
        ensures
            r.name() == self.name(),
            r.nodes() == self.nodes().push(node),
    {
        let mut nodes = self.nodes;
        nodes.push(node);
        Command { name: self.name, nodes }
    }

    /// Returns what each top-level node yields on `input`, concatenated in order.
    pub fn check(&self, input: String) -> (r: Vec<String>)
        ensures
            views(r@) == self.resolve(input@),
    {
        let mut responses: Vec<String> = Vec::new();
        let mut i: usize = 0;
        while i < self.nodes.len()
            invariant
                i <= self.nodes@.len(),
                views(responses@) == matches_all(self.nodes@.subrange(0, i as int), input@),
            decreases self.nodes@.len() - i,
        {
            let mut more = self.nodes[i].check(input.clone());
            let ghost before = responses@;
            let ghost added = more@;
            responses.append(&mut more);
            proof {
                let sub = self.nodes@.subrange(0, i + 1);
                assert(sub.subrange(0, sub.len() - 1) =~= self.nodes@.subrange(0, i as int));
                assert(sub[sub.len() - 1] == self.nodes@[i as int]);
                assert(views(responses@) =~= views(before) + views(added));
            }
            i = i + 1;
        }
        proof {
            assert(self.nodes@.subrange(0, self.nodes@.len() as int) =~= self.nodes@);
        }
        responses
    }
}

/// Index of the first command whose name equals `head` up to ASCII case, or
/// the number of commands where none does.
pub open spec fn exact_index(cmds: Seq<Command>, head: Seq<char>) -> nat
    decreases cmds.len(),
{
    if cmds.len() == 0 || eq_ignore_ascii_case(cmds[0].name(), head) {
        0
    } else {
        1 + exact_index(cmds.drop_first(), head)
    }
}

/// The names of the commands that start with `head` (case-sensitive), in
/// registration order.
pub open spec fn name_completions(cmds: Seq<Command>, head: Seq<char>) -> Seq<Seq<char>>
    decreases cmds.len(),
{
    if cmds.len() == 0 {
        seq![]
    } else {
        let rest = name_completions(cmds.drop_last(), head);
        if is_prefix(head, cmds.last().name()) {
            rest.push(cmds.last().name())
        } else {
            rest
        }
    }
}

/// What the commands `cmds` yield on the input line `input`: the first
/// command named like the line's first word (up to ASCII case) resolves the
/// rest of the line; where none is, the names that start with that word.
pub open spec fn dispatch(cmds: Seq<Command>, input: Seq<char>) -> Seq<Seq<char>> {
    let i = exact_index(cmds, head_of(input));
    if i < cmds.len() {
        cmds[i as int].resolve(tail_of(input))
    } else {
        name_completions(cmds, head_of(input))
    }
}

/// The first command named like `head` stands at `k`, or none is and `k` is
/// the number of commands.
proof fn lemma_exact_index(cmds: Seq<Command>, head: Seq<char>, k: int)
    requires
        0 <= k <= cmds.len(),
        k == cmds.len() || eq_ignore_ascii_case(cmds[k].name(), head),
        forall|j: int| 0 <= j < k ==> !eq_ignore_ascii_case(#[trigger] cmds[j].name(), head),
    ensures
        exact_index(cmds, head) == k,
    decreases cmds.len(),
{
    if cmds.len() > 0 && !eq_ignore_ascii_case(cmds[0].name(), head) {
        assert forall|j: int| 0 <= j < k - 1 implies !eq_ignore_ascii_case(
            #[trigger] cmds.drop_first()[j].name(),
            head,
        ) by {
            assert(cmds.drop_first()[j] == cmds[j + 1]);
        }
        lemma_exact_index(cmds.drop_first(), head, k - 1);
    }
}

/// The first command named like `head` is at `exact_index`, and no earlier
/// one is.
proof fn lemma_exact_index_found(cmds: Seq<Command>, head: Seq<char>)
    ensures
        exact_index(cmds, head) <= cmds.len(),
        exact_index(cmds, head) < cmds.len() ==> eq_ignore_ascii_case(
            cmds[exact_index(cmds, head) as int].name(),
            head,
        ),
        forall|j: int|
            0 <= j < exact_index(cmds, head) ==> !eq_ignore_ascii_case(
                #[trigger] cmds[j].name(),
                head,
            ),
    decreases cmds.len(),
{
    if cmds.len() > 0 && !eq_ignore_ascii_case(cmds[0].name(), head) {
        lemma_exact_index_found(cmds.drop_first(), head);
        assert forall|j: int| 0 <= j < exact_index(cmds, head) implies !eq_ignore_ascii_case(
            #[trigger] cmds[j].name(),
            head,
        ) by {
            if j > 0 {
                assert(cmds[j] == cmds.drop_first()[j - 1]);
            }
        }
    }
}

/// Where some command is named like the line's first word up to ASCII case,
/// the first such command resolves the rest of the line, whatever other
/// names start with that word: no name is offered for completion.
pub proof fn lemma_exact_match_wins(cmds: Seq<Command>, input: Seq<char>, k: int)
    requires
        0 <= k < cmds.len(),
        eq_ignore_ascii_case(cmds[k].name(), head_of(input)),
    ensures
        exact_index(cmds, head_of(input)) <= k,
        eq_ignore_ascii_case(cmds[exact_index(cmds, head_of(input)) as int].name(), head_of(input)),
        dispatch(cmds, input) == cmds[exact_index(cmds, head_of(input)) as int].resolve(
            tail_of(input),
        ),
{
    lemma_exact_index_found(cmds, head_of(input));
}

/// The completions for `head` are exactly the names of the commands that
/// start with `head`, compared case-sensitively, each once per command.
pub proof fn lemma_completions_are_prefixed(cmds: Seq<Command>, head: Seq<char>, x: Seq<char>)
    ensures
        name_completions(cmds, head).contains(x) <==> exists|j: int|
            0 <= j < cmds.len() && is_prefix(head, #[trigger] cmds[j].name()) && x == cmds[j].name(),
    decreases cmds.len(),
{
    if cmds.len() > 0 {
        let init = cmds.drop_last();
        lemma_completions_are_prefixed(init, head, x);
        let rest = name_completions(init, head);
        if name_completions(cmds, head).contains(x) {
            if rest.contains(x) {
                let j = choose|j: int|
                    0 <= j < init.len() && is_prefix(head, #[trigger] init[j].name()) && x
                        == init[j].name();
                assert(cmds[j] == init[j]);
            } else {
                let idx = choose|idx: int|
                    0 <= idx < name_completions(cmds, head).len() && name_completions(
                        cmds,
                        head,
                    )[idx] == x;
                assert(name_completions(cmds, head) == rest.push(cmds.last().name()));
                assert(idx == rest.len());
                assert(cmds[cmds.len() - 1] == cmds.last());
            }
        }
        if exists|j: int|
            0 <= j < cmds.len() && is_prefix(head, #[trigger] cmds[j].name()) && x
                == cmds[j].name() {
            let j = choose|j: int|
                0 <= j < cmds.len() && is_prefix(head, #[trigger] cmds[j].name()) && x
                    == cmds[j].name();
            if j < cmds.len() - 1 {
                assert(init[j] == cmds[j]);
                let idx = choose|idx: int| 0 <= idx < rest.len() && rest[idx] == x;
                if is_prefix(head, cmds.last().name()) {
                    assert(rest.push(cmds.last().name())[idx] == x);
                }
            } else {
                assert(name_completions(cmds, head) == rest.push(cmds.last().name()));
                assert(rest.push(cmds.last().name())[rest.len() as int] == x);
            }
        }
    }
}

/// Dispatch depends on the commands and the input alone: equal command
/// lists on equal lines yield the same candidates in the same order.
pub proof fn lemma_dispatch_deterministic(
    a: Seq<Command>,
    b: Seq<Command>,
    s: Seq<char>,
    t: Seq<char>,
)
    requires
        a == b,
        s == t,
    ensures
        dispatch(a, s) == dispatch(b, t),
{
}

/// The registered commands, in registration order.
pub struct Commander {
    commands: Vec<Command>,
}

impl Commander {
    /// The registered commands, in registration order.
    pub closed spec fn commands(self) -> Seq<Command> {
        self.commands@
    }

    /// A dispatcher with no commands.
    pub fn new() -> (r: Commander)
        ensures
            r.commands() == Seq::<Command>::empty(),
    {
        Commander { commands: Vec::new() }
    }

    /// Registers `command` after those already registered.
    pub fn add(&mut self, command: Command)
        ensures
            final(self).commands() == old(self).commands().push(command),
    {
        self.commands.push(command);
    }

    /// Resolves the input line `input`: the first command named like the
    /// line's first word (up to ASCII case) resolves the rest of the line;
    /// where none is, returns the names of the commands that start with that
    /// word (case-sensitive), in registration order.
    pub fn search(&self, input: String) -> (r: Vec<String>)
        ensures
            views(r@) == dispatch(self.commands(), input@),
    {
        let mut completions: Vec<String> = Vec::new();
        let comm_name = get_until_first_space(&input);
        let ghost cmds = self.commands@;
        let mut i: usize = 0;
        while i < self.commands.len()
            invariant
                cmds == self.commands@,
                comm_name@ == head_of(input@),
                i <= cmds.len(),
                forall|j: int| 0 <= j < i ==> !eq_ignore_ascii_case(#[trigger] cmds[j].name(), comm_name@),
                views(completions@) == name_completions(cmds.subrange(0, i as int), comm_name@),
            decreases cmds.len() - i,
        {
            let command = &self.commands[i];
            if eq_ignore_case(command.name.as_str(), comm_name.as_str()) {
                proof {
                    lemma_exact_index(cmds, comm_name@, i as int);
                }
                return command.check(remove_until_first_space(&input));
            }
            let ghost before = completions@;
            if starts_with(command.name.as_str(), comm_name.as_str()) {
                completions.push(command.name.clone());
                proof {
                    assert(views(completions@) =~= views(before).push(command.name@));
                }
            }
            proof {
                let sub = cmds.subrange(0, i + 1);
                assert(sub.drop_last() =~= cmds.subrange(0, i as int));
                assert(sub.last() == cmds[i as int]);
            }
            i = i + 1;
        }
        proof {
            lemma_exact_index(cmds, comm_name@, i as int);
            assert(cmds.subrange(0, i as int) =~= cmds);
        }
        completions
    }
}

} // verus!
