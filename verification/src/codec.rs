//! The leaf codec: every payload string is parsed through the RON text
//! format. The parse results are named by uninterpreted spec functions, since
//! the RON grammar is far too large to restate here; each name stands for the
//! outcome of one concrete parse, which depends on the input string alone.
use vstd::prelude::*;

verus! {

pub uninterp spec fn ron_bool(s: Seq<char>) -> Option<bool>;

/// Relies on ron::de::from_str::<bool>: parses a RON boolean literal. The
/// result depends on the input string alone; the parse error detail is
/// dropped.
#[verifier::external_body]
pub(crate) fn parse_bool(s: &str) -> (r: Option<bool>)
    ensures
        r == ron_bool(s@),
{
    ron::de::from_str::<bool>(s).ok()
}

pub uninterp spec fn ron_i64(s: Seq<char>) -> Option<i64>;

/// Relies on ron::de::from_str::<i64>: parses a RON integer literal. The
/// result depends on the input string alone; the parse error detail is
/// dropped.
#[verifier::external_body]
pub(crate) fn parse_i64(s: &str) -> (r: Option<i64>)
    ensures
        r == ron_i64(s@),
{
    ron::de::from_str::<i64>(s).ok()
}

pub uninterp spec fn ron_num_bits(s: Seq<char>) -> Option<u64>;

/// Relies on ron::de::from_str::<ron::Value>, ron::value::Number::into_f64 and
/// to_bits: a RON number literal is parsed, widened to a double-precision
/// value, and handed on as its bit pattern, one for one. The result depends on
/// the input string alone. A parse of anything but a number, and every parse
/// error, is folded to None.
#[verifier::external_body]
pub(crate) fn parse_num_bits(s: &str) -> (r: Option<u64>)
    ensures
        r == ron_num_bits(s@),
{
    match ron::de::from_str::<ron::Value>(s) {
        Ok(ron::Value::Number(n)) => Some(n.into_f64().to_bits()),
        _ => None,
    }
}

pub uninterp spec fn ron_pair_i64(s: Seq<char>) -> Option<(i64, i64)>;

/// Relies on ron::de::from_str::<(i64, i64)>: parses a RON tuple of two
/// integer literals. The result depends on the input string alone; the parse
/// error detail is dropped.
#[verifier::external_body]
pub(crate) fn parse_pair_i64(s: &str) -> (r: Option<(i64, i64)>)
    ensures
        r == ron_pair_i64(s@),
{
    ron::de::from_str::<(i64, i64)>(s).ok()
}

} // verus!
