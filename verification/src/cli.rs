//! What the command line decides: content types, model names, which saved
//! records are listed and in what order, and which log lines are shown.
use vstd::prelude::*;
use crate::entities::strictly_sorted;
use crate::frontmatter::{extract_date, extract_title, extract_type, first_field};
use crate::text::opt_view;
use crate::pipeline::{str_opt, ContentType};
use crate::text::{
    chars_eq, chars_of, contains, contains_chars, join, join_chars, lemma_lex_asymmetric,
    lemma_lex_irreflexive, lemma_lex_total, lemma_lex_transitive, lex_lt, lex_lt_exec, lines_of,
    lines_vec, lit, lits, member, push_all, string_from, strs, to_strings, views,
};

verus! {

// ---------------------------------------------------------------------------
// Content types and models
// ---------------------------------------------------------------------------

/// `meeting` or `memo`; anything else is refused with a message naming it.
pub fn parse_content_type(name: &str) -> (r: Result<ContentType, String>)
    ensures
        name@ == "meeting"@ ==> r == Ok::<ContentType, String>(ContentType::Meeting),
        name@ == "memo"@ ==> r == Ok::<ContentType, String>(ContentType::Memo),
        name@ != "meeting"@ && name@ != "memo"@ ==> (r matches Err(m) && m@ == "unknown content type: "@
            + name@ + ". Use 'meeting' or 'memo'."@),
{
    proof {
        reveal_strlit("meeting");
        reveal_strlit("memo");
        assert("memo"@.len() == 4 && "meeting"@.len() == 7);
    }
    let n = chars_of(name);
    if chars_eq(&n, &lit("meeting")) {
        Ok(ContentType::Meeting)
    } else if chars_eq(&n, &lit("memo")) {
        Ok(ContentType::Memo)
    } else {
        let mut m = lit("unknown content type: ");
        push_all(&mut m, &n);
        push_all(&mut m, &lit(". Use 'meeting' or 'memo'."));
        Err(string_from(&m))
    }
}

/// The whisper models that can be downloaded.
pub open spec fn known_models() -> Seq<Seq<char>> {
    seq!["tiny"@, "base"@, "small"@, "medium"@, "large-v3"@]
}

/// Where model `model` is downloaded from, and the file it is saved as.
pub struct ModelDownload {
    pub url: String,
    pub file_name: String,
}

/// The download of a known model; an unknown one is refused with a message
/// listing the known ones.
pub fn model_download(model: &str) -> (r: Result<ModelDownload, String>)
    ensures
        known_models().contains(model@) ==> (r matches Ok(d) && d.url@
            == "https://huggingface.co/ggerganov/whisper.cpp/resolve/main/ggml-"@ + model@ + ".bin"@
            && d.file_name@ == "ggml-"@ + model@ + ".bin"@),
        !known_models().contains(model@) ==> (r matches Err(m) && m@ == "unknown model: "@ + model@
            + ". Available: "@ + join(known_models(), ", "@)),
{
    let known = lits(&["tiny", "base", "small", "medium", "large-v3"]);
    assert(views(known@) =~= known_models());
    let m = chars_of(model);
    if !member(&m, &known) {
        let mut msg = lit("unknown model: ");
        push_all(&mut msg, &m);
        push_all(&mut msg, &lit(". Available: "));
        push_all(&mut msg, &join_chars(&known, &lit(", ")));
        return Err(string_from(&msg));
    }
    let mut url = lit("https://huggingface.co/ggerganov/whisper.cpp/resolve/main/ggml-");
    push_all(&mut url, &m);
    push_all(&mut url, &lit(".bin"));
    let mut f = lit("ggml-");
    push_all(&mut f, &m);
    push_all(&mut f, &lit(".bin"));
    Ok(ModelDownload { url: string_from(&url), file_name: string_from(&f) })
}

// ---------------------------------------------------------------------------
// Listing saved records
// ---------------------------------------------------------------------------

/// A saved record as listed.
#[derive(Debug, Clone)]
pub struct ListEntry {
    pub path: String,
    pub title: String,
    pub date: String,
    pub content_type: String,
}

/// A record's listing: its frontmatter title (else the file's stem), date
/// (else empty) and type (else `meeting`).
pub fn list_entry(path: &str, stem: &str, content: &str) -> (r: ListEntry)
    ensures
        r.path@ == path@,
        r.title@ == match first_field(lines_of(content@), "title:"@) {
            Some(t) => t,
            None => stem@,
        },
        r.date@ == match first_field(lines_of(content@), "date:"@) {
            Some(d) => d,
            None => Seq::<char>::empty(),
        },
        r.content_type@ == match first_field(lines_of(content@), "type:"@) {
            Some(t) => t,
            None => "meeting"@,
        },
{
    let title = match extract_title(content) {
        Some(t) => t,
        None => string_from(&chars_of(stem)),
    };
    let date = match extract_date(content) {
        Some(d) => d,
        None => String::new(),
    };
    let content_type = match extract_type(content) {
        Some(t) => t,
        None => string_from(&lit("meeting")),
    };
    ListEntry { path: string_from(&chars_of(path)), title, date, content_type }
}

pub open spec fn dates(es: Seq<ListEntry>) -> Seq<Seq<char>> {
    es.map_values(|e: ListEntry| e.date@)
}

/// Whether `out` is `input` reordered by positions `idx`: newest date first
/// (dates compared as strings), entries of equal date in their input order.
pub open spec fn sorted_by_date_from(input: Seq<ListEntry>, out: Seq<ListEntry>, idx: Seq<int>) -> bool {
    &&& idx.len() == out.len() == input.len()
    &&& forall|k: int| 0 <= k < idx.len() ==> 0 <= #[trigger] idx[k] < input.len()
    &&& forall|a: int, b: int| 0 <= a < b < idx.len() ==> #[trigger] idx[a] != #[trigger] idx[b]
    &&& forall|k: int| 0 <= k < out.len() ==> #[trigger] out[k] == input[idx[k]]
    &&& forall|a: int, b: int|
        0 <= a < b < out.len() ==> !lex_lt(#[trigger] out[a].date@, #[trigger] out[b].date@)
    &&& forall|a: int, b: int|
        0 <= a < b < out.len() && #[trigger] out[a].date@ == #[trigger] out[b].date@ ==> idx[a]
            < idx[b]
}

/// The entries of type `type_filter` (all when there is none).
pub open spec fn of_type(es: Seq<ListEntry>, type_filter: Option<Seq<char>>) -> Seq<ListEntry>
    decreases es.len(),
{
    if es.len() == 0 {
        seq![]
    } else {
        let r = of_type(es.drop_last(), type_filter);
        match type_filter {
            Some(t) => if es.last().content_type@ == t {
                r.push(es.last())
            } else {
                r
            },
            None => r.push(es.last()),
        }
    }
}

fn filter_type(entries: Vec<ListEntry>, type_filter: Option<&str>) -> (r: Vec<ListEntry>)
    ensures
        r@ == of_type(entries@, match type_filter {
            Some(t) => Some(t@),
            None => None,
        }),
{
    let ghost tf = match type_filter {
        Some(t) => Some(t@),
        None => None::<Seq<char>>,
    };
    let ghost input = entries@;
    let mut r: Vec<ListEntry> = Vec::new();
    let mut i: usize = 0;
    let n = entries.len();
    let mut rest = entries;
    assert(rest@ =~= input.skip(0));
    while i < n
        invariant
            n == input.len(),
            i <= n,
            rest@ == input.skip(i as int),
            r@ == of_type(input.take(i as int), tf),
            tf == match type_filter {
                Some(t) => Some(t@),
                None => None::<Seq<char>>,
            },
        decreases n - i,
    {
        assert(rest@.len() == n - i);
        let e = rest.remove(0);
        assert(e == input[i as int]);
        assert(rest@ =~= input.skip(i + 1));
        assert(input.take(i + 1).drop_last() =~= input.take(i as int));
        let keep = match type_filter {
            Some(t) => chars_eq(&chars_of(e.content_type.as_str()), &chars_of(t)),
            None => true,
        };
        if keep {
            r.push(e);
        }
        i += 1;
    }
    assert(input.take(n as int) =~= input);
    r
}

/// Newest first, stably (see [`sorted_by_date_from`]).
fn sort_by_date(input: Vec<ListEntry>) -> (r: Vec<ListEntry>)
    ensures
        exists|idx: Seq<int>| sorted_by_date_from(input@, r@, idx),
{
    let ghost inp = input@;
    let n = input.len();
    let mut src = input;
    assert(src@ =~= inp.skip(0));
    let mut out: Vec<ListEntry> = Vec::new();
    let ghost mut idx: Seq<int> = seq![];
    let mut i: usize = 0;
    while i < n
        invariant
            n == inp.len(),
            i <= n,
            src@ == inp.skip(i as int),
            idx.len() == out@.len() == i,
            forall|k: int| 0 <= k < idx.len() ==> 0 <= #[trigger] idx[k] < i,
            forall|a: int, b: int| 0 <= a < b < idx.len() ==> #[trigger] idx[a] != #[trigger] idx[b],
            forall|k: int| 0 <= k < out@.len() ==> #[trigger] out@[k] == inp[idx[k]],
            forall|a: int, b: int|
                0 <= a < b < out@.len() ==> !lex_lt(#[trigger] out@[a].date@, #[trigger] out@[b].date@),
            forall|a: int, b: int|
                0 <= a < b < out@.len() && #[trigger] out@[a].date@ == #[trigger] out@[b].date@
                    ==> idx[a] < idx[b],
        decreases n - i,
    {
        assert(src@.len() == n - i);
        let e = src.remove(0);
        assert(e == inp[i as int]);
        assert(src@ =~= inp.skip(i + 1));
        let ed = chars_of(e.date.as_str());
        let mut p: usize = 0;
        while p < out.len() && !lex_lt_exec(&chars_of(out[p].date.as_str()), &ed)
            invariant
                p <= out@.len(),
                ed@ == e.date@,
                forall|k: int| 0 <= k < p ==> !lex_lt(#[trigger] out@[k].date@, e.date@),
            decreases out.len() - p,
        {
            p += 1;
        }
        let ghost old_out = out@;
        let ghost old_idx = idx;
        let ghost ev = e;
        out.insert(p, e);
        proof {
            idx = old_idx.insert(p as int, i as int);
            let o = out@;
            assert(o =~= old_out.insert(p as int, ev));
            if p < old_out.len() {
                assert(lex_lt(old_out[p as int].date@, ev.date@));
            }
            assert forall|k: int| 0 <= k < idx.len() implies 0 <= #[trigger] idx[k] < i + 1 by {
                if k < p {
                    assert(idx[k] == old_idx[k]);
                } else if k > p {
                    assert(idx[k] == old_idx[k - 1]);
                }
            }
            assert forall|a: int, b: int| 0 <= a < b < idx.len() implies #[trigger] idx[a] != #[trigger] idx[b] by {
                if a < p && b < p {
                    assert(idx[a] == old_idx[a] && idx[b] == old_idx[b]);
                } else if a < p && b == p {
                    assert(idx[a] == old_idx[a]);
                } else if a < p {
                    assert(idx[a] == old_idx[a] && idx[b] == old_idx[b - 1]);
                } else if a == p {
                    assert(idx[b] == old_idx[b - 1]);
                } else {
                    assert(idx[a] == old_idx[a - 1] && idx[b] == old_idx[b - 1]);
                }
            }
            assert forall|k: int| 0 <= k < o.len() implies #[trigger] o[k] == inp[idx[k]] by {
                if k < p {
                    assert(o[k] == old_out[k] && idx[k] == old_idx[k]);
                } else if k > p {
                    assert(o[k] == old_out[k - 1] && idx[k] == old_idx[k - 1]);
                }
            }
            // Everything after the new entry is strictly older than it.
            assert forall|k: int| p <= k < old_out.len() implies lex_lt(
                #[trigger] old_out[k].date@,
                ev.date@,
            ) by {
                if k > p {
                    let x = old_out[k].date@;
                    let y = old_out[p as int].date@;
                    assert(!lex_lt(y, x));
                    if x == y {
                    } else {
                        lemma_lex_total(x, y);
                        lemma_lex_transitive(x, y, ev.date@);
                    }
                }
            }
            assert forall|a: int, b: int| 0 <= a < b < o.len() implies !lex_lt(
                #[trigger] o[a].date@,
                #[trigger] o[b].date@,
            ) by {
                if a < p && b < p {
                    assert(o[a] == old_out[a] && o[b] == old_out[b]);
                } else if a < p && b == p {
                    assert(o[a] == old_out[a]);
                } else if a < p {
                    assert(o[a] == old_out[a] && o[b] == old_out[b - 1]);
                } else if a == p {
                    assert(o[b] == old_out[b - 1]);
                    lemma_lex_asymmetric(old_out[b - 1].date@, ev.date@);
                } else {
                    assert(o[a] == old_out[a - 1] && o[b] == old_out[b - 1]);
                }
            }
            assert forall|a: int, b: int|
                0 <= a < b < o.len() && #[trigger] o[a].date@ == #[trigger] o[b].date@ implies idx[a]
                < idx[b] by {
                if a < p && b < p {
                    assert(o[a] == old_out[a] && o[b] == old_out[b]);
                    assert(idx[a] == old_idx[a] && idx[b] == old_idx[b]);
                } else if a < p && b == p {
                    assert(idx[a] == old_idx[a]);
                } else if a < p {
                    assert(o[a] == old_out[a] && o[b] == old_out[b - 1]);
                    assert(idx[a] == old_idx[a] && idx[b] == old_idx[b - 1]);
                } else if a == p {
                    assert(o[b] == old_out[b - 1]);
                    lemma_lex_irreflexive(ev.date@);
                } else {
                    assert(o[a] == old_out[a - 1] && o[b] == old_out[b - 1]);
                    assert(idx[a] == old_idx[a - 1] && idx[b] == old_idx[b - 1]);
                }
            }
        }
        i += 1;
    }
    assert(sorted_by_date_from(inp, out@, idx));
    out
}

/// The records to list: those of type `type_filter` (all when there is
/// none), newest first (see [`sorted_by_date_from`]), at most `limit`.
pub fn select_entries(entries: Vec<ListEntry>, type_filter: Option<&str>, limit: usize) -> (r: Vec<ListEntry>)
    ensures
        exists|sorted: Seq<ListEntry>, idx: Seq<int>|
            #[trigger] sorted_by_date_from(
                of_type(entries@, str_opt(type_filter)),
                sorted,
                idx,
            ) && r@ == if sorted.len() <= limit {
                sorted
            } else {
                sorted.take(limit as int)
            },
{
    let kept = filter_type(entries, type_filter);
    let ghost kv = kept@;
    let sorted = sort_by_date(kept);
    let ghost sv = sorted@;
    let ghost idx = choose|idx: Seq<int>| sorted_by_date_from(kv, sv, idx);
    let mut s = sorted;
    if s.len() > limit {
        s.truncate(limit);
    }
    assert(s@ =~= if sv.len() <= limit {
        sv
    } else {
        sv.take(limit as int)
    });
    assert(sorted_by_date_from(kv, sv, idx));
    s
}

// ---------------------------------------------------------------------------
// Logs
// ---------------------------------------------------------------------------

/// Whether a log line records an error.
pub open spec fn error_line(l: Seq<char>) -> bool {
    contains(l, "\"level\":\"error\""@) || contains(l, "ERROR"@)
}

/// The log lines shown: the error lines only, when asked, else all.
pub open spec fn shown_lines(ls: Seq<Seq<char>>, errors_only: bool) -> Seq<Seq<char>>
    decreases ls.len(),
{
    if ls.len() == 0 {
        seq![]
    } else {
        let r = shown_lines(ls.drop_last(), errors_only);
        if !errors_only || error_line(ls.last()) {
            r.push(ls.last())
        } else {
            r
        }
    }
}

/// The last `count` lines of the log that are shown (see [`shown_lines`]).
pub fn log_tail(content: &str, errors_only: bool, count: usize) -> (r: Vec<String>)
    ensures
        strs(r@) == {
            let s = shown_lines(lines_of(content@), errors_only);
            if s.len() > count {
                s.skip(s.len() - count)
            } else {
                s
            }
        },
{
    let ls = lines_vec(&chars_of(content));
    let ghost lv = views(ls@);
    let pat1 = lit("\"level\":\"error\"");
    let pat2 = lit("ERROR");
    let mut shown: Vec<Vec<char>> = Vec::new();
    let mut i: usize = 0;
    while i < ls.len()
        invariant
            i <= ls@.len(),
            lv == views(ls@),
            pat1@ == "\"level\":\"error\""@,
            pat2@ == "ERROR"@,
            views(shown@) == shown_lines(lv.take(i as int), errors_only),
        decreases ls.len() - i,
    {
        assert(lv.take(i + 1).drop_last() =~= lv.take(i as int));
        assert(lv.take(i + 1).last() == ls@[i as int]@);
        if !errors_only || contains_chars(&ls[i], &pat1) || contains_chars(&ls[i], &pat2) {
            let ghost prev = views(shown@);
            let l = crate::text::copy_chars(&ls[i]);
            shown.push(l);
            assert(views(shown@) =~= prev.push(ls@[i as int]@));
        }
        i += 1;
    }
    assert(lv.take(ls@.len() as int) =~= lv);
    let n = shown.len();
    let start = if n > count {
        n - count
    } else {
        0
    };
    let mut tail: Vec<Vec<char>> = Vec::new();
    let mut j: usize = start;
    while j < n
        invariant
            start <= j <= n,
            n == shown@.len(),
            views(tail@) == views(shown@).subrange(start as int, j as int),
        decreases n - j,
    {
        let ghost prev = views(tail@);
        tail.push(crate::text::copy_chars(&shown[j]));
        assert(views(tail@) =~= prev.push(shown@[j as int]@));
        j += 1;
        assert(views(tail@) =~= views(shown@).subrange(start as int, j as int));
    }
    assert(views(tail@) =~= if n > count {
        views(shown@).skip(n - count)
    } else {
        views(shown@)
    });
    to_strings(&tail)
}

} // verus!
