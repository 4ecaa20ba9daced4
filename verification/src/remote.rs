use vstd::prelude::*;

use crate::components::{EdgeId, NodeId};

verus! {

/// A JSON value as the request parsers read it: an unsigned integer, a string, or
/// anything else.
#[derive(Debug, PartialEq, Eq)]
pub enum RpcValue {
    Unsigned(u64),
    Text(String),
    Other,
}

/// The parameters of a request: a positional array, or anything else.
#[derive(Debug, PartialEq, Eq)]
pub enum RpcParams {
    Array(Vec<RpcValue>),
    Other,
}

/// What a parser needs at a position of the parameter array.
#[derive(Clone, Copy, Debug, PartialEq, Eq, Structural)]
pub enum ArgKind {
    Unsigned,
    Text,
}

/// Whether a value is of the kind asked for.
pub open spec fn value_fits(v: RpcValue, kind: ArgKind) -> bool {
    match kind {
        ArgKind::Unsigned => v is Unsigned,
        ArgKind::Text => v is Text,
    }
}

/// Whether the parameters are an array whose first values are of the kinds of `shape`.
pub open spec fn fits(params: RpcParams, shape: Seq<ArgKind>) -> bool {
    match params {
        RpcParams::Array(arr) => arr@.len() >= shape.len() && forall|k: int|
            #![trigger shape[k]]
            0 <= k < shape.len() ==> value_fits(arr@[k], shape[k]),
        RpcParams::Other => false,
    }
}

/// Whether the parameters are an array whose first values are of the kinds of `shape`;
/// the parsers below take only such parameters (the server fails the request otherwise).
pub fn params_fit(params: &RpcParams, shape: &Vec<ArgKind>) -> (ok: bool)
    ensures
        ok == fits(*params, shape@),
{
    match params {
        RpcParams::Array(arr) => {
            if arr.len() < shape.len() {
                return false;
            }
            let mut k: usize = 0;
            while k < shape.len()
                invariant
                    k <= shape@.len(),
                    *params == RpcParams::Array(*arr),
                    arr@.len() >= shape@.len(),
                    forall|m: int| #![trigger shape@[m]] 0 <= m < k ==> value_fits(arr@[m], shape@[m]),
                decreases shape@.len() - k,
            {
                let fits_here = match (&arr[k], shape[k]) {
                    (RpcValue::Unsigned(_), ArgKind::Unsigned) => true,
                    (RpcValue::Text(_), ArgKind::Text) => true,
                    _ => false,
                };
                if !fits_here {
                    assert(!value_fits(arr@[k as int], shape@[k as int]));
                    return false;
                }
                k = k + 1;
            }
            true
        },
        RpcParams::Other => false,
    }
}

/// The unsigned integer at position `k` of the parameter array.
pub open spec fn unsigned_at(params: RpcParams, k: int) -> u64 {
    match params {
        RpcParams::Array(arr) => match arr@[k] {
            RpcValue::Unsigned(u) => u,
            _ => 0,
        },
        RpcParams::Other => 0,
    }
}

/// The string at position `k` of the parameter array.
pub open spec fn text_at(params: RpcParams, k: int) -> Seq<char> {
    match params {
        RpcParams::Array(arr) => match arr@[k] {
            RpcValue::Text(s) => s@,
            _ => Seq::empty(),
        },
        RpcParams::Other => Seq::empty(),
    }
}

fn unsigned_exec(arr: &Vec<RpcValue>, k: usize) -> (u: u64)
    requires
        k < arr@.len(),
        arr@[k as int] is Unsigned,
    ensures
        u == unsigned_at(RpcParams::Array(*arr), k as int),
{
    match &arr[k] {
        RpcValue::Unsigned(u) => *u,
        _ => 0,
    }
}

fn text_exec(arr: &Vec<RpcValue>, k: usize) -> (s: String)
    requires
        k < arr@.len(),
        arr@[k as int] is Text,
    ensures
        s@ == text_at(RpcParams::Array(*arr), k as int),
{
    match &arr[k] {
        RpcValue::Text(s) => s.clone(),
        _ => String::new(),
    }
}

/// The node identifier of `[id]` (the integer kept to its low 32 bits).
pub fn parse_node_id(params: &RpcParams) -> (id: NodeId)
    requires
        fits(*params, seq![ArgKind::Unsigned]),
    ensures
        id == unsigned_at(*params, 0) as u32,
{
    match params {
        RpcParams::Array(arr) => {
            assert(value_fits(arr@[0], seq![ArgKind::Unsigned][0]));
            unsigned_exec(arr, 0) as u32
        },
        RpcParams::Other => 0,
    }
}

/// The entity index and colour name of `[entity, "colour"]`.
pub fn parse_node_colour(params: &RpcParams) -> (parsed: (u32, String))
    requires
        fits(*params, seq![ArgKind::Unsigned, ArgKind::Text]),
    ensures
        parsed.0 == unsigned_at(*params, 0) as u32,
        parsed.1@ == text_at(*params, 1),
{
    match params {
        RpcParams::Array(arr) => {
            assert(value_fits(arr@[0], seq![ArgKind::Unsigned, ArgKind::Text][0]));
            assert(value_fits(arr@[1], seq![ArgKind::Unsigned, ArgKind::Text][1]));
            (unsigned_exec(arr, 0) as u32, text_exec(arr, 1))
        },
        RpcParams::Other => (0, String::new()),
    }
}

/// The two ends of `[start, end]`.
pub fn parse_edge_ids(params: &RpcParams) -> (ends: (EdgeId, EdgeId))
    requires
        fits(*params, seq![ArgKind::Unsigned, ArgKind::Unsigned]),
    ensures
        ends.0 == unsigned_at(*params, 0) as u32,
        ends.1 == unsigned_at(*params, 1) as u32,
{
    match params {
        RpcParams::Array(arr) => {
            assert(value_fits(arr@[0], seq![ArgKind::Unsigned, ArgKind::Unsigned][0]));
            assert(value_fits(arr@[1], seq![ArgKind::Unsigned, ArgKind::Unsigned][1]));
            (unsigned_exec(arr, 0) as u32, unsigned_exec(arr, 1) as u32)
        },
        RpcParams::Other => (0, 0),
    }
}

/// The node and colour name of `[node, "colour"]`.
pub fn parse_node_with_colour(params: &RpcParams) -> (parsed: (NodeId, String))
    requires
        fits(*params, seq![ArgKind::Unsigned, ArgKind::Text]),
    ensures
        parsed.0 == unsigned_at(*params, 0) as u32,
        parsed.1@ == text_at(*params, 1),
{
    match params {
        RpcParams::Array(arr) => {
            assert(value_fits(arr@[0], seq![ArgKind::Unsigned, ArgKind::Text][0]));
            assert(value_fits(arr@[1], seq![ArgKind::Unsigned, ArgKind::Text][1]));
            (unsigned_exec(arr, 0) as u32, text_exec(arr, 1))
        },
        RpcParams::Other => (0, String::new()),
    }
}

/// The two ends and colour name of `[start, end, "colour"]`.
pub fn parse_edge_with_colour(params: &RpcParams) -> (parsed: (NodeId, NodeId, String))
    requires
        fits(*params, seq![ArgKind::Unsigned, ArgKind::Unsigned, ArgKind::Text]),
    ensures
        parsed.0 == unsigned_at(*params, 0) as u32,
        parsed.1 == unsigned_at(*params, 1) as u32,
        parsed.2@ == text_at(*params, 2),
{
    match params {
        RpcParams::Array(arr) => {
            assert(value_fits(arr@[0], seq![ArgKind::Unsigned, ArgKind::Unsigned, ArgKind::Text][0]));
            assert(value_fits(arr@[1], seq![ArgKind::Unsigned, ArgKind::Unsigned, ArgKind::Text][1]));
            assert(value_fits(arr@[2], seq![ArgKind::Unsigned, ArgKind::Unsigned, ArgKind::Text][2]));
            (unsigned_exec(arr, 0) as u32, unsigned_exec(arr, 1) as u32, text_exec(arr, 2))
        },
        RpcParams::Other => (0, 0, String::new()),
    }
}

/// The material name of an optional value: its string, or the empty string.
pub fn parse_material(val: Option<&RpcValue>) -> (name: String)
    ensures
        val matches Some(RpcValue::Text(s)) ==> name@ == s@,
        !(val matches Some(RpcValue::Text(_))) ==> name@.len() == 0,
{
    match val {
        Some(RpcValue::Text(s)) => s.clone(),
        _ => String::new(),
    }
}

} // verus!
