//! A universal Turing machine that can simulate any Turing machine described
//! by a table of rules, including itself, together with the encoding that
//! lays a guest machine out on the universal machine's tape.
use vstd::prelude::*;

pub mod binary;
pub mod byte_accept;
pub mod byte_infinity;
pub mod byte_machine;
pub mod byte_roundtrip;
pub mod byte_toys;
pub mod byte_utm;
pub mod compiled;
pub mod confusion;
pub mod delta;
pub mod diagram;
pub mod display;
pub mod encoding;
pub mod infinity;
pub mod intervals;
pub mod json_export;
pub mod keyed;
pub mod prefixes;
pub mod roundtrip;
pub mod rule_order;
pub mod rule_search;
pub mod savepoint;
pub mod state_log;
pub mod tm;
pub mod tower;
pub mod toy_machines;
pub mod utm;
pub mod utm_lookup;
pub mod utm_run;
pub mod utm_symbols;

verus! {

} // verus!
