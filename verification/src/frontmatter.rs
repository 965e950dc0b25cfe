//! Reading `key: value` fields from the YAML frontmatter of a saved record.
use vstd::prelude::*;
use crate::text::opt_view;
use crate::text::{
    chars_of, copy_range, lines_of, lines_vec, lit, push_all, starts_with, starts_with_chars,
    string_from, trim, trim_by, trim_chars, trim_ws, views, CharClass,
};

verus! {

/// A field's value: trimmed, then stripped of surrounding double quotes,
/// then of single quotes.
pub open spec fn field_value(v: Seq<char>) -> Seq<char> {
    trim_by(trim_by(trim(v), CharClass::Exact('"')), CharClass::Exact('\''))
}

/// The value after `prefix` on the first line that starts with it once
/// trimmed.
pub open spec fn first_field(lines: Seq<Seq<char>>, prefix: Seq<char>) -> Option<Seq<char>>
    decreases lines.len(),
{
    if lines.len() == 0 {
        None
    } else if starts_with(trim(lines[0]), prefix) {
        Some(field_value(trim(lines[0]).skip(prefix.len() as int)))
    } else {
        first_field(lines.drop_first(), prefix)
    }
}

/// The value of field `key` (see [`first_field`]; the prefix is `key:`).
pub fn extract_frontmatter_field(content: &str, key: &str) -> (r: Option<String>)
    ensures
        opt_view(r) == first_field(lines_of(content@), key@ + ":"@),
{
    let mut prefix = chars_of(key);
    push_all(&mut prefix, &lit(":"));
    let ls = lines_vec(&chars_of(content));
    let ghost all = views(ls@);
    let mut i: usize = 0;
    assert(all.skip(0) =~= all);
    while i < ls.len()
        invariant
            i <= ls@.len(),
            all == views(ls@),
            all == lines_of(content@),
            prefix@ == key@ + ":"@,
            first_field(all, prefix@) == first_field(all.skip(i as int), prefix@),
        decreases ls.len() - i,
    {
        assert(all.skip(i as int)[0] == ls@[i as int]@);
        let t = trim_ws(&ls[i]);
        if starts_with_chars(&t, &prefix) {
            let v = copy_range(&t, prefix.len(), t.len());
            assert(v@ =~= t@.skip(prefix@.len() as int));
            let a = trim_chars(&trim_ws(&v), CharClass::Exact('"'));
            let b = trim_chars(&a, CharClass::Exact('\''));
            return Some(string_from(&b));
        }
        assert(all.skip(i as int).drop_first() =~= all.skip(i + 1));
        i += 1;
    }
    None
}

/// The `title` field.
pub fn extract_title(content: &str) -> (r: Option<String>)
    ensures
        opt_view(r) == first_field(lines_of(content@), "title:"@),
{
    proof {
        reveal_strlit("title");
        reveal_strlit(":");
        reveal_strlit("title:");
        assert("title"@ + ":"@ =~= "title:"@);
    }
    extract_frontmatter_field(content, "title")
}

/// The `date` field.
pub fn extract_date(content: &str) -> (r: Option<String>)
    ensures
        opt_view(r) == first_field(lines_of(content@), "date:"@),
{
    proof {
        reveal_strlit("date");
        reveal_strlit(":");
        reveal_strlit("date:");
        assert("date"@ + ":"@ =~= "date:"@);
    }
    extract_frontmatter_field(content, "date")
}

/// The `type` field.
pub fn extract_type(content: &str) -> (r: Option<String>)
    ensures
        opt_view(r) == first_field(lines_of(content@), "type:"@),
{
    proof {
        reveal_strlit("type");
        reveal_strlit(":");
        reveal_strlit("type:");
        assert("type"@ + ":"@ =~= "type:"@);
    }
    extract_frontmatter_field(content, "type")
}

} // verus!
