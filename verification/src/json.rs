//! Parts of JSON documents.
use vstd::prelude::*;

use crate::outside;
use crate::outside::{array_value, compact_json, string_value};
use crate::text;
use crate::text::concat2;

verus! {

/// A JSON string for each text.
pub open spec fn json_texts(texts: Seq<String>) -> serde_json::Value {
    outside::json_array(Seq::new(texts.len(), |i: int| outside::json_string(texts[i]@)))
}

/// A field that is left out where `present` does not hold.
pub open spec fn field_if(present: bool, key: Seq<char>, value: serde_json::Value) -> Seq<
    (Seq<char>, serde_json::Value),
> {
    if present {
        seq![(key, value)]
    } else {
        Seq::empty()
    }
}

pub fn texts_value(texts: &[String]) -> (r: serde_json::Value)
    ensures
        r == json_texts(texts@),
{
    let ghost all = Seq::new(texts@.len(), |i: int| outside::json_string(texts@[i]@));
    let mut items: Vec<serde_json::Value> = Vec::new();
    let mut i: usize = 0;
    while i < texts.len()
        invariant
            i <= texts@.len(),
            all == Seq::new(texts@.len(), |k: int| outside::json_string(texts@[k]@)),
            items@ =~= all.take(i as int),
        decreases texts.len() - i,
    {
        items.push(string_value(texts[i].as_str()));
        i += 1;
    }
    assert(items@ =~= all);
    array_value(items)
}

/// Appends a field.
pub fn push_field(
    fields: &mut Vec<(String, serde_json::Value)>,
    key: &str,
    value: serde_json::Value,
)
    ensures
        outside::json_fields(final(fields)@) == outside::json_fields(old(fields)@) + field_if(
            true,
            key@,
            value,
        ),
{
    let ghost before = fields@;
    fields.push((key.to_owned(), value));
    assert(outside::json_fields(fields@) =~= outside::json_fields(before).push((key@, value)));
}

/// A line of JSON that holds `value`: a line feed stands at its end and nowhere
/// else, and reading the line without the white space around it gives the value
/// back, where it holds no fractions.
pub open spec fn is_line_of(line: Seq<char>, value: serde_json::Value) -> bool {
    &&& line == outside::json_compact(value) + "\n"@
    &&& !outside::json_compact(value).contains('\n')
    &&& text::trim(line) == outside::json_compact(value)
    &&& outside::json_compact(value).len() > 0
    &&& !text::is_space(outside::json_compact(value).last())
    &&& outside::json_exact(value, 100) ==> outside::json_parsed(text::trim(line)) == Some(value)
}

/// Writes a value on a line.
pub fn json_line(value: &serde_json::Value) -> (r: String)
    ensures
        is_line_of(r@, *value),
{
    let told = compact_json(value).unwrap();
    let line = concat2(told.as_str(), "\n");
    proof {
        reveal_strlit("\n");
        assert(line@[0] == told@[0]);
        assert(text::trim_start(line@) == line@);
        assert(line@.drop_last() =~= told@);
        assert(text::trim_end(told@) == told@);
        assert(text::trim_end(line@) == text::trim_end(line@.drop_last()));
    }
    line
}

} // verus!
