use crate::text::{attr_norm, normalize_attr, opt_view};
use vstd::prelude::*;
use vstd::string::to_string_from_display_ensures_for_str;

verus! {

broadcast use to_string_from_display_ensures_for_str;

/// One positional field of a bank record, as decoded from its JSON form.
pub struct Field {
    /// The value when it is a JSON string.
    pub text: Option<String>,
    /// The value when it is a JSON integer that fits in `i64`.
    pub integer: Option<i64>,
    /// The value's compact JSON serialization.
    pub json: String,
    /// The `reading` member when the value is an object whose `reading` is a string.
    pub reading: Option<String>,
}

/// A term bank record: `[term, reading, def_tags, rules, score, glossary, sequence, term_tags]`.
pub struct TermRecord {
    pub term: String,
    pub reading: String,
    pub def_tags: Option<String>,
    pub rules: Option<String>,
    pub score: i64,
    /// JSON serialization of the glossary payload.
    pub glossary: String,
    pub sequence: Option<i64>,
    pub term_tags: Option<String>,
}

/// A term metadata bank record: `[term, mode, data]`.
pub struct MetaRecord {
    pub term: String,
    pub mode: String,
    pub reading: Option<String>,
    /// JSON serialization of the payload.
    pub data: String,
}

/// A tag bank record: `[name, category, sort_order, notes, score]`.
pub struct TagRecord {
    pub name: String,
    pub category: Option<String>,
    pub sort_order: i64,
    pub notes: Option<String>,
    pub score: i64,
}

pub open spec fn null_text() -> Seq<char> {
    seq!['n', 'u', 'l', 'l']
}

/// The string at position `i`, if there is one.
pub open spec fn text_at(fs: Seq<Field>, i: int) -> Option<Seq<char>> {
    if 0 <= i < fs.len() {
        opt_view(fs[i].text)
    } else {
        None
    }
}

/// The string at position `i`, or the empty text.
pub open spec fn text_or_empty(fs: Seq<Field>, i: int) -> Seq<char> {
    match text_at(fs, i) {
        Some(t) => t,
        None => Seq::empty(),
    }
}

/// The integer at position `i`, if there is one.
pub open spec fn int_at(fs: Seq<Field>, i: int) -> Option<i64> {
    if 0 <= i < fs.len() {
        fs[i].integer
    } else {
        None
    }
}

pub open spec fn int_or_zero(fs: Seq<Field>, i: int) -> i64 {
    match int_at(fs, i) {
        Some(n) => n,
        None => 0,
    }
}

/// The JSON text at position `i`; a missing position reads as `null`.
pub open spec fn json_at(fs: Seq<Field>, i: int) -> Seq<char> {
    if 0 <= i < fs.len() {
        fs[i].json@
    } else {
        null_text()
    }
}

/// The `reading` member of the value at position `i`, if there is one.
pub open spec fn reading_at(fs: Seq<Field>, i: int) -> Option<Seq<char>> {
    if 0 <= i < fs.len() {
        opt_view(fs[i].reading)
    } else {
        None
    }
}

fn clone_opt(o: &Option<String>) -> (r: Option<String>)
    ensures
        opt_view(r) == opt_view(*o),
{
    match o {
        Some(s) => Some(s.clone()),
        None => None,
    }
}

fn text_field(fs: &Vec<Field>, i: usize) -> (r: Option<String>)
    ensures
        opt_view(r) == text_at(fs@, i as int),
{
    if i < fs.len() {
        clone_opt(&fs[i].text)
    } else {
        None
    }
}

fn text_field_or_empty(fs: &Vec<Field>, i: usize) -> (r: String)
    ensures
        r@ == text_or_empty(fs@, i as int),
{
    match text_field(fs, i) {
        Some(s) => s,
        None => String::new(),
    }
}

fn int_field(fs: &Vec<Field>, i: usize) -> (r: Option<i64>)
    ensures
        r == int_at(fs@, i as int),
{
    if i < fs.len() {
        fs[i].integer
    } else {
        None
    }
}

fn int_field_or_zero(fs: &Vec<Field>, i: usize) -> (r: i64)
    ensures
        r == int_or_zero(fs@, i as int),
{
    match int_field(fs, i) {
        Some(n) => n,
        None => 0,
    }
}

fn json_field(fs: &Vec<Field>, i: usize) -> (r: String)
    ensures
        r@ == json_at(fs@, i as int),
{
    if i < fs.len() {
        fs[i].json.clone()
    } else {
        let r = "null".to_string();
        proof {
            reveal_strlit("null");
            assert(r@ =~= null_text());
        }
        r
    }
}

impl TermRecord {
    /// Reads a term record by position. Missing or mistyped fields take their
    /// defaults (empty text, zero, absent); blank attribute sets are absent.
    pub fn parse(fs: &Vec<Field>) -> (r: TermRecord)
        ensures
            r.term@ == text_or_empty(fs@, 0),
            r.reading@ == text_or_empty(fs@, 1),
            opt_view(r.def_tags) == attr_norm(text_at(fs@, 2)),
            opt_view(r.rules) == attr_norm(text_at(fs@, 3)),
            r.score == int_or_zero(fs@, 4),
            r.glossary@ == json_at(fs@, 5),
            r.sequence == int_at(fs@, 6),
            opt_view(r.term_tags) == attr_norm(text_at(fs@, 7)),
    {
        TermRecord {
            term: text_field_or_empty(fs, 0),
            reading: text_field_or_empty(fs, 1),
            def_tags: normalize_attr(&text_field(fs, 2)),
            rules: normalize_attr(&text_field(fs, 3)),
            score: int_field_or_zero(fs, 4),
            glossary: json_field(fs, 5),
            sequence: int_field(fs, 6),
            term_tags: normalize_attr(&text_field(fs, 7)),
        }
    }
}

impl MetaRecord {
    /// Reads a term metadata record by position; the payload's `reading`
    /// member is kept beside it.
    pub fn parse(fs: &Vec<Field>) -> (r: MetaRecord)
        ensures
            r.term@ == text_or_empty(fs@, 0),
            r.mode@ == text_or_empty(fs@, 1),
            opt_view(r.reading) == reading_at(fs@, 2),
            r.data@ == json_at(fs@, 2),
    {
        let reading = if 2 < fs.len() {
            clone_opt(&fs[2].reading)
        } else {
            None
        };
        MetaRecord {
            term: text_field_or_empty(fs, 0),
            mode: text_field_or_empty(fs, 1),
            reading,
            data: json_field(fs, 2),
        }
    }
}

impl TagRecord {
    /// Reads a tag record by position.
    pub fn parse(fs: &Vec<Field>) -> (r: TagRecord)
        ensures
            r.name@ == text_or_empty(fs@, 0),
            opt_view(r.category) == text_at(fs@, 1),
            r.sort_order == int_or_zero(fs@, 2),
            opt_view(r.notes) == text_at(fs@, 3),
            r.score == int_or_zero(fs@, 4),
    {
        TagRecord {
            name: text_field_or_empty(fs, 0),
            category: text_field(fs, 1),
            sort_order: int_field_or_zero(fs, 2),
            notes: text_field(fs, 3),
            score: int_field_or_zero(fs, 4),
        }
    }
}

} // verus!
