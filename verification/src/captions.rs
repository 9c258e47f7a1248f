//! The captions that accompany the steps of a solution.
use crate::forest::NodeId;
use crate::level_solver::{Action, ActionView};
use vstd::prelude::*;

verus! {

/// The character of a decimal digit.
pub open spec fn digit(value: nat) -> char {
    if value == 0 {
        '0'
    } else if value == 1 {
        '1'
    } else if value == 2 {
        '2'
    } else if value == 3 {
        '3'
    } else if value == 4 {
        '4'
    } else if value == 5 {
        '5'
    } else if value == 6 {
        '6'
    } else if value == 7 {
        '7'
    } else if value == 8 {
        '8'
    } else {
        '9'
    }
}

/// A number in decimal notation, without leading zeros.
pub open spec fn decimal(value: nat) -> Seq<char>
    decreases value,
{
    if value < 10 {
        seq![digit(value)]
    } else {
        decimal(value / 10).push(digit(value % 10))
    }
}

/// The handles of a list in decimal notation: the last two joined by
/// " and ", the ones before followed by ", ".
pub open spec fn nodes_list(nodes: Seq<NodeId>) -> Seq<char>
    decreases nodes.len(),
{
    if nodes.len() == 0 {
        Seq::empty()
    } else if nodes.len() == 1 {
        decimal(nodes[0] as nat)
    } else if nodes.len() == 2 {
        decimal(nodes[0] as nat) + " and "@ + nodes_list(nodes.drop_first())
    } else {
        decimal(nodes[0] as nat) + ", "@ + nodes_list(nodes.drop_first())
    }
}

/// The caption of a mutation of the cells `nodes`.
pub open spec fn mutate_caption(nodes: Seq<NodeId>) -> Seq<char> {
    if nodes.len() == 1 {
        "Mutate node "@ + decimal(nodes[0] as nat)
    } else {
        "Mutate nodes "@ + nodes_list(nodes)
    }
}

/// The caption of a step that `action` led to, or of the first step.
pub open spec fn step_caption(action: Option<ActionView>) -> Seq<char> {
    match action {
        Some(ActionView::ChangeParent { node, oldParent, newParent }) => "Change parent of node "@
            + decimal(node as nat) + " from "@ + decimal(oldParent as nat) + " to "@ + decimal(
            newParent as nat,
        ),
        Some(ActionView::SwapChildren { parent }) => "Swap children of parent node "@ + decimal(
            parent as nat,
        ),
        Some(ActionView::Mutate { nodes }) => mutate_caption(nodes),
        None => "Start"@,
    }
}

/// The text of one decimal digit.
fn digitText(value: u8) -> (text: &'static str)
    requires
        value < 10,
    ensures
        text@ == seq![digit(value as nat)],
{
    proof {
        reveal_strlit("0");
        reveal_strlit("1");
        reveal_strlit("2");
        reveal_strlit("3");
        reveal_strlit("4");
        reveal_strlit("5");
        reveal_strlit("6");
        reveal_strlit("7");
        reveal_strlit("8");
        reveal_strlit("9");
    }
    let text = if value == 0 {
        "0"
    } else if value == 1 {
        "1"
    } else if value == 2 {
        "2"
    } else if value == 3 {
        "3"
    } else if value == 4 {
        "4"
    } else if value == 5 {
        "5"
    } else if value == 6 {
        "6"
    } else if value == 7 {
        "7"
    } else if value == 8 {
        "8"
    } else {
        "9"
    };
    assert(text@ =~= seq![digit(value as nat)]);
    text
}

/// Writes a handle in decimal notation behind what `output` holds.
pub fn appendNumber(output: &mut String, value: u8)
    ensures
        final(output)@ == old(output)@ + decimal(value as nat),
{
    reveal_with_fuel(decimal, 3);
    if value >= 100 {
        output.append(digitText(value / 100));
        assert((value as nat / 10) / 10 == value as nat / 100);
    }
    if value >= 10 {
        output.append(digitText((value / 10) % 10));
    }
    output.append(digitText(value % 10));
    assert(output@ =~= old(output)@ + decimal(value as nat));
}

/// The handles in decimal notation: the last two joined by " and ", the
/// ones before followed by ", ".
pub fn formatNodesIntoList(nodes: &[NodeId]) -> (output: String)
    ensures
        output@ == nodes_list(nodes@),
{
    let mut output = String::new();
    let mut index: usize = 0;
    assert(nodes@.skip(0) =~= nodes@);
    while index < nodes.len()
        invariant
            index <= nodes.len(),
            output@ + nodes_list(nodes@.skip(index as int)) == nodes_list(nodes@),
        decreases nodes.len() - index,
    {
        let ghost before = output@;
        let ghost rest = nodes@.skip(index as int);
        assert(rest.drop_first() =~= nodes@.skip(index + 1));
        assert(rest[0] == nodes[index as int]);
        appendNumber(&mut output, nodes[index]);
        let left: usize = nodes.len() - 1 - index;
        if left == 0 {
            assert(nodes_list(rest.drop_first()) =~= Seq::<char>::empty());
        } else if left == 1 {
            output.append(" and ");
        } else {
            output.append(", ");
        }
        assert(output@ + nodes_list(rest.drop_first()) =~= before + nodes_list(rest));
        index += 1;
    }
    assert(output@ + Seq::<char>::empty() =~= output@);
    output
}

/// The caption of a mutation: of one node, or of several.
pub fn makeMutateStepDescription(nodes: &[NodeId]) -> (description: String)
    requires
        nodes@.len() > 0,
    ensures
        description@ == mutate_caption(nodes@),
{
    if nodes.len() == 1 {
        let mut description = String::from_str("Mutate node ");
        appendNumber(&mut description, nodes[0]);
        description
    } else {
        let mut description = String::from_str("Mutate nodes ");
        let list = formatNodesIntoList(nodes);
        description.append(list.as_str());
        description
    }
}

/// The caption of a step: "Start" for the step that no move led to, and
/// for any other what the move did.
pub fn makeSolutionStepDescription(actionOpt: &Option<Action>) -> (description: String)
    requires
        actionOpt matches Some(Action::Mutate { nodes }) ==> nodes@.len() > 0,
    ensures
        description@ == step_caption(
            match *actionOpt {
                Some(action) => Some(action@),
                None => None,
            },
        ),
{
    match actionOpt {
        Some(action) => {
            match action {
                Action::ChangeParent { node, oldParent, newParent } => {
                    let mut description = String::from_str("Change parent of node ");
                    appendNumber(&mut description, *node);
                    description.append(" from ");
                    appendNumber(&mut description, *oldParent);
                    description.append(" to ");
                    appendNumber(&mut description, *newParent);
                    description
                },
                Action::SwapChildren { parent } => {
                    let mut description = String::from_str("Swap children of parent node ");
                    appendNumber(&mut description, *parent);
                    description
                },
                Action::Mutate { nodes } => makeMutateStepDescription(nodes.as_slice()),
            }
        },
        None => String::from_str("Start"),
    }
}

} // verus!
