//! The context a spawned Agent inherits from its parent, and the error of a
//! failed context assembly.

use vstd::prelude::*;
use vstd::string::StringExecFns;

verus! {

broadcast use vstd::string::group_string_axioms;

/// A context source failed while a turn's context was assembled.
#[derive(Debug, Clone)]
pub enum ContextAssemblyError {
    Source(String),
}

/// How a child Agent's context is forked from its parent's (the request
/// has been validated by the caller).
#[derive(Debug, Clone)]
pub enum ContextFork {
    /// Nothing is inherited.
    Empty,
    /// The most recent `count` turns are requested.
    LastTurns { count: usize },
    /// These selected items are inherited, in order.
    SelectedProjection { items: Vec<String> },
}

#[derive(Debug, Clone, Copy, PartialEq, Eq, Structural)]
pub enum AgentContextItemKind {
    Selected,
    RecentTurns,
}

/// One inherited context item.
#[derive(Debug, Clone)]
pub struct AgentContextItem {
    pub kind: AgentContextItemKind,
    pub label: String,
    pub content: String,
}

/// The context handed to a spawned Agent.
#[derive(Debug, Clone, Default)]
pub struct AgentContextProjection {
    pub items: Vec<AgentContextItem>,
    pub omitted_count: usize,
}

/// The decimal digit for `d` (below ten).
pub open spec fn digit_char(d: nat) -> char {
    if d == 0 {
        '0'
    } else if d == 1 {
        '1'
    } else if d == 2 {
        '2'
    } else if d == 3 {
        '3'
    } else if d == 4 {
        '4'
    } else if d == 5 {
        '5'
    } else if d == 6 {
        '6'
    } else if d == 7 {
        '7'
    } else if d == 8 {
        '8'
    } else {
        '9'
    }
}

/// The decimal text of `n`, without leading zeros.
pub open spec fn decimal(n: nat) -> Seq<char>
    decreases n,
{
    if n < 10 {
        seq![digit_char(n)]
    } else {
        decimal(n / 10).push(digit_char(n % 10))
    }
}

fn digit_text(d: u64) -> (text: &'static str)
    requires
        d < 10,
    ensures
        text@ == seq![digit_char(d as nat)],
{
    proof {
        reveal_strlit("0");
        reveal_strlit("1");
        reveal_strlit("2");
        reveal_strlit("3");
        reveal_strlit("4");
        reveal_strlit("5");
        reveal_strlit("6");
        reveal_strlit("7");
        reveal_strlit("8");
        reveal_strlit("9");
    }
    if d == 0 {
        "0"
    } else if d == 1 {
        "1"
    } else if d == 2 {
        "2"
    } else if d == 3 {
        "3"
    } else if d == 4 {
        "4"
    } else if d == 5 {
        "5"
    } else if d == 6 {
        "6"
    } else if d == 7 {
        "7"
    } else if d == 8 {
        "8"
    } else {
        "9"
    }
}

/// The decimal text of `n`.
pub fn decimal_text(n: u64) -> (text: String)
    ensures
        text@ == decimal(n as nat),
    decreases n,
{
    if n < 10 {
        digit_text(n).to_owned()
    } else {
        let mut text = decimal_text(n / 10);
        text.append(digit_text(n % 10));
        text
    }
}

/// Abstract context item: kind, label and content.
pub open spec fn item_view(item: AgentContextItem) -> (AgentContextItemKind, Seq<char>, Seq<char>) {
    (item.kind, item.label@, item.content@)
}

/// The items a fork projects, in order.
pub open spec fn forked_items(fork: ContextFork) -> Seq<(AgentContextItemKind, Seq<char>, Seq<char>)> {
    match fork {
        ContextFork::Empty => Seq::empty(),
        ContextFork::LastTurns { count } => seq![
            (
                AgentContextItemKind::RecentTurns,
                "requested_recent_turn_count"@,
                decimal(count as nat),
            ),
        ],
        ContextFork::SelectedProjection { items } => Seq::new(
            items@.len(),
            |i: int|
                (
                    AgentContextItemKind::Selected,
                    "selected_context_"@ + decimal((i + 1) as nat),
                    items@[i]@,
                ),
        ),
    }
}

impl AgentContextProjection {
    /// The projection of a validated fork: nothing, one item that carries
    /// the requested turn count, or the selected items labelled
    /// `selected_context_1`, `selected_context_2`, ... in order. Nothing is
    /// omitted.
    pub fn from_fork(fork: &ContextFork) -> (projection: Self)
        ensures
            projection.items@.map_values(|item: AgentContextItem| item_view(item))
                == forked_items(*fork),
            projection.omitted_count == 0,
    {
        proof {
            reveal_strlit("requested_recent_turn_count");
            reveal_strlit("selected_context_");
        }
        match fork {
            ContextFork::Empty => {
                let projection = AgentContextProjection { items: Vec::new(), omitted_count: 0 };
                proof {
                    assert(projection.items@.map_values(|item: AgentContextItem| item_view(item))
                        =~= forked_items(*fork));
                }
                projection
            },
            ContextFork::LastTurns { count } => {
                let mut items: Vec<AgentContextItem> = Vec::new();
                items.push(
                    AgentContextItem {
                        kind: AgentContextItemKind::RecentTurns,
                        label: "requested_recent_turn_count".to_owned(),
                        content: decimal_text(*count as u64),
                    },
                );
                let projection = AgentContextProjection { items, omitted_count: 0 };
                proof {
                    assert(projection.items@.map_values(|item: AgentContextItem| item_view(item))
                        =~= forked_items(*fork));
                }
                projection
            },
            ContextFork::SelectedProjection { items: selected } => {
                let mut items: Vec<AgentContextItem> = Vec::new();
                let mut i: usize = 0;
                while i < selected.len()
                    invariant
                        0 <= i <= selected@.len(),
                        items@.len() == i,
                        forall|k: int|
                            0 <= k < i ==> item_view(#[trigger] items@[k]) == (
                                AgentContextItemKind::Selected,
                                "selected_context_"@ + decimal((k + 1) as nat),
                                selected@[k]@,
                            ),
                    decreases selected@.len() - i,
                {
                    let mut label = "selected_context_".to_owned();
                    label.append(decimal_text((i + 1) as u64).as_str());
                    items.push(
                        AgentContextItem {
                            kind: AgentContextItemKind::Selected,
                            label,
                            content: selected[i].clone(),
                        },
                    );
                    i = i + 1;
                }
                let projection = AgentContextProjection { items, omitted_count: 0 };
                proof {
                    assert(projection.items@.map_values(|item: AgentContextItem| item_view(item))
                        =~= forked_items(*fork));
                }
                projection
            },
        }
    }
}

} // verus!
