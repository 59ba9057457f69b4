//! Behaviors: the closed-set action vocabulary, expressions, targets,
//! state machines, and the commands actions evaluate to.

use vstd::prelude::*;
use crate::json::Json;
use crate::strmap::StrMap;
use crate::scene::ComponentValue;
use crate::text::{push_str};

verus! {

broadcast use vstd::string::group_string_axioms;

/// Severity of a `log` action.
#[derive(Debug, Clone, Copy, PartialEq, Eq, Hash, Structural)]
pub enum LogLevel {
    Debug,
    Info,
    Warning,
    Error,
}

/// The node an action applies to.
#[derive(Debug, Clone, PartialEq, Eq, Hash)]
pub enum Target {
    /// The node running the behavior.
    This,
    /// The node with this id.
    Node { id: String },
    /// The running node's parent.
    Parent,
    /// A child of the running node (the one with id `filter`, if given).
    Children { filter: Option<String> },
}

/// The text `Target::label` gives.
pub open spec fn target_label(t: Target) -> Seq<char> {
    match t {
        Target::This => "self"@,
        Target::Node { id } => "node:"@ + id@,
        Target::Parent => "parent"@,
        Target::Children { filter } => match filter {
            Some(f) => "children:"@ + f@,
            None => "children"@,
        },
    }
}

impl Target {
    /// A copy of the target.
    pub fn copied(&self) -> (r: Target)
        ensures
            r == *self,
    {
        match self {
            Target::This => Target::This,
            Target::Node { id } => Target::Node { id: id.clone() },
            Target::Parent => Target::Parent,
            Target::Children { filter } => Target::Children {
                filter: match filter {
                    Some(f) => Some(f.clone()),
                    None => None,
                },
            },
        }
    }

    /// A short human-readable name for the target.
    pub fn label(&self) -> (r: String)
        ensures
            r@ == target_label(*self),
    {
        let mut out = String::new();
        match self {
            Target::This => push_str(&mut out, "self"),
            Target::Node { id } => {
                push_str(&mut out, "node:");
                push_str(&mut out, id.as_str());
            },
            Target::Parent => push_str(&mut out, "parent"),
            Target::Children { filter } => match filter {
                Some(f) => {
                    push_str(&mut out, "children:");
                    push_str(&mut out, f.as_str());
                },
                None => push_str(&mut out, "children"),
            },
        }
        assert(out@ =~= target_label(*self));
        out
    }
}

/// A condition or value expression.
#[derive(Debug)]
pub enum Expression {
    /// A reserved token: `self`, `none`, `true` or `false`.
    Bare(String),
    /// A reference `target.key`, with target `self`, `parent` or a node id.
    Ref { path: String },
    Eq { eq: Vec<Expression> },
    Neq { neq: Vec<Expression> },
    Lt { lt: Vec<Expression> },
    Gt { gt: Vec<Expression> },
    Add { add: Vec<Expression> },
    Sub { sub: Vec<Expression> },
    Literal(Json),
}

/// Where a `call_system` result is written.
#[derive(Debug, Clone, PartialEq, Eq)]
pub struct ResultTarget {
    pub key: String,
    pub on: Target,
}

/// One authored action.
#[derive(Debug)]
pub enum Action {
    SetState { target: Target, key: String, value: Json },
    Emit { signal: String, args: StrMap<Json> },
    Destroy { target: Target },
    Spawn { node_type: String, parent: Target, components: StrMap<Json>, behaviors: Vec<Behavior> },
    If { cond: Expression, then_: Vec<Action>, else_: Vec<Action> },
    Move { target: Target, key: String, by: Json },
    Animate { target: Target, key: String, to: Json, duration: u32 },
    Log { level: LogLevel, message: String, fields: StrMap<Json> },
    CallSystem { system: String, args: StrMap<Json>, result_in: Option<ResultTarget> },
}

/// A behavior attached to a node.
#[derive(Debug)]
pub enum Behavior {
    StateMachine { initial: String, states: StrMap<StateDef> },
    OnTick { actions: Vec<Action> },
    OnSignal { signal: String, actions: Vec<Action> },
}

/// One state of a state machine.
#[derive(Debug)]
pub struct StateDef {
    pub on_enter: Vec<Action>,
    pub on_tick: Vec<Action>,
    pub transitions: Vec<Transition>,
}

/// A guarded transition to another state.
#[derive(Debug)]
pub struct Transition {
    pub to: String,
    pub when: Expression,
}

/// What an evaluated action asks of the scene.
#[derive(Debug)]
pub enum ActionCommand {
    SetState { target: Target, key: String, value: ComponentValue },
    Emit { signal: String, args: StrMap<Json> },
    Destroy { target: Target },
    Spawn { node_type: String, parent: Target, components: StrMap<ComponentValue>, behaviors: Vec<Behavior> },
    StartAnimation { target: Target, key: String, to: ComponentValue, remaining: u32 },
    Log { level: LogLevel, message: String, fields: StrMap<Json> },
    CallSystem { system: String, args: StrMap<Json>, result_target: Option<ResultTarget> },
}

} // verus!
