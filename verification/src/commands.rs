//! What a command line says about files.
use crate::text::texts;
use vstd::prelude::*;
use vstd::string::*;

verus! {

/// How a statement is decorated.
#[derive(Clone, Copy, Debug, PartialEq, Eq, Structural)]
pub enum StatementDecoration {
    Plain,
    Command,
    Builtin,
    Exec,
}

/// A node of the syntax tree of a command line.
#[derive(Debug, PartialEq, Eq)]
pub enum NodeKind {
    /// An argument, as it stands in the command line.
    Argument { source: String },
    /// A statement: its command as it stands in the command line, and what it says once unescaped, where
    /// that is possible.
    DecoratedStatement {
        decoration: StatementDecoration,
        command: String,
        unescaped: Option<String>,
    },
    /// Any other node.
    Other,
}

/// The text could be a path: it is not empty, and has no leading dash.
pub open spec fn could_be_path(text: Seq<char>) -> bool {
    text.len() > 0 && text[0] != '-'
}

/// The command is likely to end the shell, or needs no paths.
pub open spec fn is_exiting_command(command: Seq<char>) -> bool {
    command == "exit"@ || command == "reboot"@ || command == "restart"@ || command == "echo"@
}

/// The node is a statement after which file detection is of no use.
pub open spec fn stops_detection(node: NodeKind) -> bool {
    match node {
        NodeKind::DecoratedStatement { decoration, command, unescaped } => decoration
            == StatementDecoration::Exec || is_exiting_command(
            match unescaped {
                Some(unescaped) => unescaped@,
                None => command@,
            },
        ),
        _ => false,
    }
}

/// Some node stops file detection.
pub open spec fn detection_is_stopped(nodes: Seq<NodeKind>) -> bool {
    exists|i: int| 0 <= i < nodes.len() && #[trigger] stops_detection(nodes[i])
}

/// The arguments that could be paths, in order.
pub open spec fn potential_paths(nodes: Seq<NodeKind>) -> Seq<Seq<char>>
    decreases nodes.len(),
{
    if nodes.len() == 0 {
        Seq::empty()
    } else {
        let before = potential_paths(nodes.drop_last());
        match nodes.last() {
            NodeKind::Argument { source } => if could_be_path(source@) {
                before.push(source@)
            } else {
                before
            },
            _ => before,
        }
    }
}

fn string_could_be_path(potential_path: &str) -> (yes: bool)
    ensures
        yes == could_be_path(potential_path@),
{
    // Assume that things with leading dashes aren't paths.
    potential_path.unicode_len() > 0 && potential_path.get_char(0) != '-'
}

/// Find all arguments that look like they could be file paths.
/// Returns `None` if the command is likely to trigger an exit.
pub fn find_potential_paths(nodes: &Vec<NodeKind>) -> (paths: Option<Vec<String>>)
    ensures
        match paths {
            Some(paths) => !detection_is_stopped(nodes@) && texts(paths@) == potential_paths(nodes@),
            None => detection_is_stopped(nodes@),
        },
{
    let mut found: Vec<String> = Vec::new();
    let mut i: usize = 0;
    assert(texts(found@) =~= potential_paths(nodes@.take(0)));
    while i < nodes.len()
        invariant
            i <= nodes@.len(),
            texts(found@) == potential_paths(nodes@.take(i as int)),
            forall|k: int| 0 <= k < i ==> !#[trigger] stops_detection(nodes@[k]),
        decreases nodes@.len() - i,
    {
        assert(nodes@.take(i + 1).drop_last() =~= nodes@.take(i as int));
        let ghost before = found@;
        match &nodes[i] {
            NodeKind::Argument { source } => {
                if string_could_be_path(source.as_str()) {
                    found.push(source.clone());
                    assert(texts(found@) =~= texts(before).push(source@));
                }
            },
            NodeKind::DecoratedStatement { decoration, command, unescaped } => {
                // Hack hack hack - if the command is likely to trigger an exit, then don't do
                // background file detection, because we won't be able to write it to our history file
                // before we exit.
                // Also skip it for 'echo'. This is because echo doesn't take file paths.
                if *decoration == StatementDecoration::Exec {
                    assert(stops_detection(nodes@[i as int]));
                    return None;
                }
                let command = match unescaped {
                    Some(unescaped) => unescaped.clone(),
                    None => command.clone(),
                };
                if command == "exit".to_owned() || command == "reboot".to_owned() || command
                    == "restart".to_owned() || command == "echo".to_owned() {
                    assert(stops_detection(nodes@[i as int]));
                    return None;
                }
            },
            NodeKind::Other => {},
        }
        i = i + 1;
    }
    assert(nodes@.take(i as int) =~= nodes@);
    Some(found)
}

/// An argument could be a path just if it has a text that does not begin with a dash, and no other node is one.
/// What could be a path in two lists of nodes, one behind the other, is what could be one in each of them.
pub proof fn arguments_could_be_paths(
    a: Seq<NodeKind>,
    b: Seq<NodeKind>,
    node: NodeKind,
)
    ensures
        potential_paths(a + b) == potential_paths(a) + potential_paths(b),
        potential_paths(seq![node]) == match node {
            NodeKind::Argument { source } => if source@.len() == 0 || source@[0] == '-' {
                Seq::empty()
            } else {
                seq![source@]
            },
            _ => Seq::empty(),
        },
    decreases b.len(),
{
    reveal_with_fuel(potential_paths, 2);
    assert(seq![node].drop_last() =~= Seq::empty());
    if let NodeKind::Argument { source } = node {
        assert(Seq::<Seq<char>>::empty().push(source@) =~= seq![source@]);
    }
    if b.len() == 0 {
        assert(a + b =~= a);
        assert(potential_paths(a) + potential_paths(b) =~= potential_paths(a));
    } else {
        arguments_could_be_paths(a, b.drop_last(), node);
        assert((a + b).drop_last() =~= a + b.drop_last());
        assert(potential_paths(a + b) =~= potential_paths(a) + potential_paths(b));
    }
}

/// Detection is stopped just by a statement that replaces the shell or that runs one of four commands, as it
/// reads once unescaped, wherever it stands.
pub proof fn four_commands_and_exec_stop_detection(
    a: Seq<NodeKind>,
    b: Seq<NodeKind>,
    node: NodeKind,
)
    ensures
        detection_is_stopped(a + b) <==> detection_is_stopped(a) || detection_is_stopped(b),
        detection_is_stopped(seq![node]) <==> match node {
            NodeKind::DecoratedStatement { decoration, command, unescaped } => {
                let name = match unescaped {
                    Some(text) => text@,
                    None => command@,
                };
                decoration is Exec || name == "exit"@ || name == "reboot"@ || name == "restart"@
                    || name == "echo"@
            },
            _ => false,
        },
{
    let all = a + b;
    if detection_is_stopped(all) {
        let i = choose|i: int| 0 <= i < all.len() && #[trigger] stops_detection(all[i]);
        if i < a.len() {
            assert(stops_detection(a[i]));
        } else {
            assert(stops_detection(b[i - a.len()]));
        }
    }
    if detection_is_stopped(a) {
        let i = choose|i: int| 0 <= i < a.len() && #[trigger] stops_detection(a[i]);
        assert(stops_detection(all[i]));
    }
    if detection_is_stopped(b) {
        let i = choose|i: int| 0 <= i < b.len() && #[trigger] stops_detection(b[i]);
        assert(stops_detection(all[a.len() + i]));
    }
    if stops_detection(node) {
        assert(stops_detection(seq![node][0]));
    }
}

} // verus!
