//! The closed action vocabulary offered to authors and agents: the verb
//! list, verb descriptions, and the TypeScript declarations of the action
//! types.

use vstd::prelude::*;
use crate::behavior::Target;
use crate::strmap::StrMap;
use crate::text::{push_str, str_eq};

verus! {

broadcast use vstd::string::group_string_axioms;

/// Version of the action schema.
pub const SCHEMA_VERSION: &'static str = "1.0";

/// The declarations every TypeScript SDK file starts with.
pub const TS_PRELUDE: &'static str = "// AUTO-GENERATED by craft-schema — do not edit.\n// Source of truth: ActionParams enum in crates/craft-schema/src/lib.rs\n// Regenerate by running `cargo run -p craft-schema --bin gen-sdk`.\n\nexport type SceneKind = \"scene\";\n\nexport type Target =\n  | { kind: \"self\" }\n  | { kind: \"node\"; id: string }\n  | { kind: \"parent\" }\n  | { kind: \"children\"; filter?: string };\n\nexport type Expression =\n  | { ref: string }\n  | { eq: Expression[] }\n  | { neq: Expression[] }\n  | { lt: Expression[] }\n  | { gt: Expression[] }\n  | { add: Expression[] }\n  | { sub: Expression[] }\n  | string | number | boolean | null;\n\nexport type LogLevel = \"debug\" | \"info\" | \"warning\" | \"error\";\n\nexport type SetStateAction = {\n  kind: \"set_state\";\n  target: Target;\n  key: string;\n  value: unknown;\n};\n\nexport type EmitAction = {\n  kind: \"emit\";\n  signal: string;\n  args?: Record<string, unknown>;\n};\n\nexport type DestroyAction = {\n  kind: \"destroy\";\n  target: Target;\n};\n\nexport type SpawnAction = {\n  kind: \"spawn\";\n  type: string;\n  parent: Target;\n  components?: Record<string, unknown>;\n};\n\nexport type IfAction = {\n  kind: \"if\";\n  cond: Expression;\n  then: Action[];\n  else?: Action[];\n};\n\nexport type MoveAction = {\n  kind: \"move\";\n  target: Target;\n  key: string;\n  by: unknown;\n};\n\nexport type AnimateAction = {\n  kind: \"animate\";\n  target: Target;\n  key: string;\n  to: unknown;\n  duration: number;\n};\n\nexport type LogAction = {\n  kind: \"log\";\n  level: LogLevel;\n  message: string;\n  fields?: Record<string, unknown>;\n};\n\nexport type CallSystemAction = {\n  kind: \"call_system\";\n  system: string;\n  args?: Record<string, unknown>;\n  result_in?: { key: string; on: Target };\n};\n\nexport type Action =\n  | SetStateAction\n  | EmitAction\n  | DestroyAction\n  | SpawnAction\n  | IfAction\n  | MoveAction\n  | AnimateAction\n  | LogAction\n  | CallSystemAction;\n\n";

/// The action verbs, in schema order.
pub open spec fn verbs() -> Seq<Seq<char>> {
    seq!["set_state"@, "emit"@, "destroy"@, "spawn"@, "if"@, "move"@, "animate"@, "log"@, "call_system"@]
}

/// The action verbs, in schema order.
pub fn action_verb_list() -> (r: Vec<&'static str>)
    ensures
        r@.map_values(|s: &str| s@) == verbs(),
{
    proof { reveal_strlit("set_state"); reveal_strlit("emit"); reveal_strlit("destroy"); reveal_strlit("spawn"); reveal_strlit("if"); reveal_strlit("move"); reveal_strlit("animate"); reveal_strlit("log"); reveal_strlit("call_system"); }
    let r = vec!["set_state", "emit", "destroy", "spawn", "if", "move", "animate", "log", "call_system"];
    assert(r@.map_values(|s: &str| s@) =~= verbs());
    r
}

/// Whether `verb` is one of the action verbs.
pub fn is_valid_verb(verb: &str) -> (r: bool)
    ensures
        r == verbs().contains(verb@),
{
    let list = action_verb_list();
    let ghost vs = verbs();
    let mut i: usize = 0;
    while i < list.len()
        invariant
            i <= list@.len(),
            list@.map_values(|s: &str| s@) == vs,
            vs == verbs(),
            forall|k: int| 0 <= k < i ==> vs[k] != verb@,
        decreases list.len() - i,
    {
        assert(list@[i as int]@ == vs[i as int]);
        if str_eq(list[i], verb) {
            assert(vs[i as int] == verb@);
            return true;
        }
        i += 1;
    }
    assert(!vs.contains(verb@));
    false
}

/// What each verb does.
pub open spec fn verb_description(verb: Seq<char>) -> Seq<char> {
    if verb == "set_state"@ { "Write a component value on the target node. Writing to a transient component restarts its lifetime."@ }
    else if verb == "emit"@ { "Fire a signal (queued; resolved next tick)."@ }
    else if verb == "destroy"@ { "Remove a node. References to the destroyed node resolve to `none` at access time."@ }
    else if verb == "spawn"@ { "Create a new node at runtime. The `parent` target is the new node's parent."@ }
    else if verb == "if"@ { "Conditional execution. May be nested arbitrarily deep inside other `if` / `actions` lists."@ }
    else if verb == "move"@ { "Add a delta to any numeric component. The `by` field is a literal or expression."@ }
    else if verb == "animate"@ { "Interpolate any component to a target value over `duration` ticks."@ }
    else if verb == "log"@ { "Debug output. Surfaces in agent subscription stream."@ }
    else if verb == "call_system"@ { "Invoke a registered Rust system. Use `result_in` to write the return value into a component."@ }
    else { Seq::empty() }
}

/// A one-line description of every verb, by verb.
pub fn action_verb_descriptions() -> (r: StrMap<&'static str>)
    ensures
        forall|k: Seq<char>| r@.contains_key(k) <==> verbs().contains(k),
        forall|k: Seq<char>| #[trigger] r@.contains_key(k) ==> r@[k]@ == verb_description(k),
{
    proof { reveal_strlit("set_state"); reveal_strlit("emit"); reveal_strlit("destroy"); reveal_strlit("spawn"); reveal_strlit("if"); reveal_strlit("move"); reveal_strlit("animate"); reveal_strlit("log"); reveal_strlit("call_system"); reveal_strlit("Write a component value on the target node. Writing to a transient component restarts its lifetime."); reveal_strlit("Fire a signal (queued; resolved next tick)."); reveal_strlit("Remove a node. References to the destroyed node resolve to `none` at access time."); reveal_strlit("Create a new node at runtime. The `parent` target is the new node's parent."); reveal_strlit("Conditional execution. May be nested arbitrarily deep inside other `if` / `actions` lists."); reveal_strlit("Add a delta to any numeric component. The `by` field is a literal or expression."); reveal_strlit("Interpolate any component to a target value over `duration` ticks."); reveal_strlit("Debug output. Surfaces in agent subscription stream."); reveal_strlit("Invoke a registered Rust system. Use `result_in` to write the return value into a component."); }
    proof {
        assert("set_state"@.len() == 9 && "set_state"@[0] == 's');
        assert("emit"@.len() == 4 && "emit"@[0] == 'e');
        assert("destroy"@.len() == 7 && "destroy"@[0] == 'd');
        assert("spawn"@.len() == 5 && "spawn"@[0] == 's');
        assert("if"@.len() == 2 && "if"@[0] == 'i');
        assert("move"@.len() == 4 && "move"@[0] == 'm');
        assert("animate"@.len() == 7 && "animate"@[0] == 'a');
        assert("log"@.len() == 3 && "log"@[0] == 'l');
        assert("call_system"@.len() == 11 && "call_system"@[0] == 'c');
    }
    let mut out: StrMap<&'static str> = StrMap::new();
    out.insert("set_state".to_string(), "Write a component value on the target node. Writing to a transient component restarts its lifetime.");
    out.insert("emit".to_string(), "Fire a signal (queued; resolved next tick).");
    out.insert("destroy".to_string(), "Remove a node. References to the destroyed node resolve to `none` at access time.");
    out.insert("spawn".to_string(), "Create a new node at runtime. The `parent` target is the new node's parent.");
    out.insert("if".to_string(), "Conditional execution. May be nested arbitrarily deep inside other `if` / `actions` lists.");
    out.insert("move".to_string(), "Add a delta to any numeric component. The `by` field is a literal or expression.");
    out.insert("animate".to_string(), "Interpolate any component to a target value over `duration` ticks.");
    out.insert("log".to_string(), "Debug output. Surfaces in agent subscription stream.");
    out.insert("call_system".to_string(), "Invoke a registered Rust system. Use `result_in` to write the return value into a component.");
    assert forall|k: Seq<char>| out@.contains_key(k) <==> verbs().contains(k) by {
        if verbs().contains(k) {
            let i = choose|i: int| 0 <= i < verbs().len() && verbs()[i] == k;
            assert(out@.contains_key(verbs()[i]));
        }
        if out@.contains_key(k) {
            assert(exists|i: int| 0 <= i < verbs().len() && verbs()[i] == k);
        }
    }
    out
}

/// The `ACTION_VERBS` array declaration, one quoted verb per line.
pub open spec fn verb_lines(vs: Seq<Seq<char>>) -> Seq<char>
    decreases vs.len(),
{
    if vs.len() == 0 {
        Seq::empty()
    } else {
        verb_lines(vs.drop_last()) + "  \""@ + vs.last() + "\",\n"@
    }
}

/// The TypeScript declarations of the action vocabulary.
pub open spec fn typescript_text() -> Seq<char> {
    TS_PRELUDE@ + "export const ACTION_VERBS = [\n"@ + verb_lines(verbs())
        + "] as const;\n\nexport type ActionVerb = typeof ACTION_VERBS[number];\n"@
}

/// Generates the TypeScript declarations of the action vocabulary.
pub fn generate_typescript_types() -> (r: String)
    ensures
        r@ == typescript_text(),
{
    let mut out = String::new();
    push_str(&mut out, TS_PRELUDE);
    push_str(&mut out, "export const ACTION_VERBS = [\n");
    let list = action_verb_list();
    let ghost start = out@;
    let mut i: usize = 0;
    while i < list.len()
        invariant
            i <= list@.len(),
            list@.map_values(|s: &str| s@) == verbs(),
            out@ == start + verb_lines(verbs().take(i as int)),
        decreases list.len() - i,
    {
        push_str(&mut out, "  \"");
        push_str(&mut out, list[i]);
        push_str(&mut out, "\",\n");
        assert(verbs().take(i + 1).drop_last() =~= verbs().take(i as int));
        assert(list@[i as int]@ == verbs()[i as int]);
        i += 1;
    }
    assert(verbs().take(list@.len() as int) =~= verbs());
    push_str(&mut out, "] as const;\n\nexport type ActionVerb = typeof ACTION_VERBS[number];\n");
    out
}

/// The TypeScript SDK declarations (generated on each call).
pub fn typescript_sdk_types() -> (r: String)
    ensures
        r@ == typescript_text(),
{
    generate_typescript_types()
}

/// Parameters of a `destroy` action.
#[derive(Debug, Clone)]
pub struct DestroyParams {
    pub target: Target,
}

/// Where a `call_system` action writes its result.
#[derive(Debug, Clone)]
pub struct ResultTargetParams {
    pub key: String,
    pub on: Target,
}

} // verus!
