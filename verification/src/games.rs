//! The sample games: their node types, with default component values
//! written as JSON number text, and their registries.

use vstd::prelude::*;
use crate::json::Json;
use crate::scene::{ComponentSpec, ComponentType};

pub mod dungeon_crawler;
pub mod tower_defense;

verus! {

/// The number a JSON number text denotes (`str::parse::<serde_json::Number>`).
pub uninterp spec fn number_of_text(text: Seq<char>) -> Option<serde_json::Number>;

/// `text.parse::<serde_json::Number>().ok()`.
#[verifier::external_body]
fn parse_number(text: &str) -> (r: Option<serde_json::Number>)
    ensures
        r == number_of_text(text@),
{
    text.parse::<serde_json::Number>().ok()
}

/// The float document a number text denotes (`null` if it is not one).
pub open spec fn float_json(text: Seq<char>) -> Json {
    match number_of_text(text) {
        Some(n) => Json::Float(n),
        None => Json::Null,
    }
}

/// A default component value, as written in a node declaration.
pub enum DefaultDoc {
    Int(i64),
    Float(Seq<char>),
    Vec2(Seq<char>, Seq<char>),
    Bool(bool),
}

/// Whether `j` is the document of a default.
pub open spec fn default_is(j: Json, d: DefaultDoc) -> bool {
    match d {
        DefaultDoc::Int(i) => j == Json::Int(i),
        DefaultDoc::Float(t) => j == float_json(t),
        DefaultDoc::Vec2(x, y) => j matches Json::Array(a) && a@ == seq![float_json(x), float_json(y)],
        DefaultDoc::Bool(b) => j == Json::Bool(b),
    }
}

/// Whether a spec declares component `name` of type `ty` with default `d`.
pub open spec fn spec_is(s: ComponentSpec, name: Seq<char>, ty: ComponentType, d: DefaultDoc) -> bool {
    s.name@ == name && s.ty == ty && default_is(s.default, d)
}

/// The float document of a number text.
pub fn float_doc(text: &str) -> (r: Json)
    ensures
        r == float_json(text@),
{
    match parse_number(text) {
        Some(n) => Json::Float(n),
        None => Json::Null,
    }
}

/// The two-float array document of two number texts.
pub fn vec2_doc(x: &str, y: &str) -> (r: Json)
    ensures
        r matches Json::Array(a) && a@ == seq![float_json(x@), float_json(y@)],
{
    let v = vec![float_doc(x), float_doc(y)];
    assert(v@ =~= seq![float_json(x@), float_json(y@)]);
    Json::Array(v)
}

} // verus!
