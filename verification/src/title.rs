//! Meeting titles, from the pre-meeting context or from the transcript's
//! first spoken line.
use vstd::prelude::*;
use crate::text::{
    ascii_digit, ascii_upper, capitalize_token, capitalize_token_chars, chars_of, copy_range,
    find, find_chars, from_byte, from_byte_chars, join, join_chars, lemma_trim_len, lines_of,
    lines_vec, lit, lits, lower, lower_chars, member, normalize_space, normalize_space_chars,
    starts_with, starts_with_chars, string_from, trim, trim_by, trim_chars, trim_ws, views, words,
    words_of, CharClass, push_all,
};

verus! {

// ---------------------------------------------------------------------------
// Display form
// ---------------------------------------------------------------------------

/// Characters that end the first sentence of a title.
pub open spec fn sentence_end(c: char) -> bool {
    c == '.' || c == '!' || c == '?' || c == '\n'
}

/// `s` up to its first sentence end.
pub open spec fn first_sentence(s: Seq<char>) -> Seq<char>
    decreases s.len(),
{
    if s.len() == 0 {
        s
    } else if sentence_end(s[0]) {
        seq![]
    } else {
        seq![s[0]] + first_sentence(s.drop_first())
    }
}

/// How many ASCII capitals `w` holds.
pub open spec fn upper_count(w: Seq<char>) -> nat
    decreases w.len(),
{
    if w.len() == 0 {
        0
    } else {
        upper_count(w.drop_last()) + if ascii_upper(w.last()) { 1nat } else { 0nat }
    }
}

/// A word whose case is kept as written: one with a digit, or with more
/// than one capital (an acronym such as `API`).
pub open spec fn keeps_case(w: Seq<char>) -> bool {
    (exists|i: int| 0 <= i < w.len() && ascii_digit(#[trigger] w[i])) || upper_count(w) > 1
}

/// Small words kept lowercase inside a title.
pub open spec fn title_stopwords() -> Seq<Seq<char>> {
    seq![
        "a"@, "an"@, "and"@, "as"@, "at"@, "by"@, "for"@, "from"@, "in"@, "of"@, "on"@, "or"@,
        "the"@, "to"@, "with"@,
    ]
}

/// The title form of word `w` at position `idx`.
pub open spec fn title_word(w: Seq<char>, idx: int) -> Seq<char> {
    if keeps_case(w) {
        w
    } else if idx != 0 && title_stopwords().contains(lower(w)) {
        lower(w)
    } else {
        capitalize_token(w)
    }
}

/// The words of `ws`, each in title form.
pub open spec fn title_words(ws: Seq<Seq<char>>) -> Seq<Seq<char>> {
    Seq::new(ws.len(), |i: int| title_word(ws[i], i))
}

/// `text` as a title: trimmed of punctuation and whitespace, cut at its
/// first sentence end, and title-cased word by word.
pub open spec fn display_title(text: Seq<char>) -> Seq<char> {
    let cut = trim(first_sentence(trim_by(text, CharClass::PunctuationOrWhitespace)));
    join(title_words(words(cut)), seq![' '])
}

fn first_sentence_chars(s: &[char]) -> (r: Vec<char>)
    ensures
        r@ == first_sentence(s@),
{
    let mut i: usize = 0;
    while i < s.len() && !(s[i] == '.' || s[i] == '!' || s[i] == '?' || s[i] == '\n')
        invariant
            i <= s@.len(),
            forall|j: int| 0 <= j < i ==> !sentence_end(#[trigger] s@[j]),
        decreases s.len() - i,
    {
        i += 1;
    }
    let r = copy_range(s, 0, i);
    proof {
        lemma_first_sentence(s@, i as int);
    }
    r
}

proof fn lemma_first_sentence(s: Seq<char>, i: int)
    requires
        0 <= i <= s.len(),
        forall|j: int| 0 <= j < i ==> !sentence_end(#[trigger] s[j]),
        i == s.len() || sentence_end(s[i]),
    ensures
        first_sentence(s) == s.take(i),
    decreases i,
{
    if i == 0 {
        if s.len() == 0 {
            assert(s.take(0) =~= s);
        } else {
            assert(s.take(0) =~= Seq::<char>::empty());
        }
    } else {
        let t = s.drop_first();
        assert forall|j: int| 0 <= j < i - 1 implies !sentence_end(#[trigger] t[j]) by {
            assert(t[j] == s[j + 1]);
        }
        if i < s.len() {
            assert(t[i - 1] == s[i]);
        }
        lemma_first_sentence(t, i - 1);
        assert(seq![s[0]] + t.take(i - 1) =~= s.take(i));
    }
}

fn upper_count_exec(w: &[char]) -> (n: usize)
    ensures
        n == upper_count(w@),
{
    let mut n: usize = 0;
    let mut i: usize = 0;
    while i < w.len()
        invariant
            i <= w@.len(),
            n == upper_count(w@.take(i as int)),
            n <= i,
        decreases w.len() - i,
    {
        assert(w@.take(i + 1).drop_last() =~= w@.take(i as int));
        if 'A' <= w[i] && w[i] <= 'Z' {
            n += 1;
        }
        i += 1;
    }
    assert(w@.take(w@.len() as int) =~= w@);
    n
}

fn keeps_case_exec(w: &[char]) -> (r: bool)
    ensures
        r == keeps_case(w@),
{
    let mut i: usize = 0;
    while i < w.len()
        invariant
            i <= w@.len(),
            forall|j: int| 0 <= j < i ==> !ascii_digit(#[trigger] w@[j]),
        decreases w.len() - i,
    {
        if '0' <= w[i] && w[i] <= '9' {
            assert(ascii_digit(w@[i as int]));
            return true;
        }
        i += 1;
    }
    upper_count_exec(w) > 1
}

fn title_stopword_list() -> (r: Vec<Vec<char>>)
    ensures
        views(r@) == title_stopwords(),
{
    let r = lits(
        &["a", "an", "and", "as", "at", "by", "for", "from", "in", "of", "on", "or", "the", "to",
        "with"],
    );
    assert(views(r@) =~= title_stopwords());
    r
}

/// `text` in title form (see [`display_title`]).
pub fn to_display_title(text: &str) -> (r: String)
    ensures
        r@ == display_title(text@),
{
    let t = trim_chars(&chars_of(text), CharClass::PunctuationOrWhitespace);
    let cut = trim_ws(&first_sentence_chars(&t));
    let ws = words_of(&cut);
    let stops = title_stopword_list();
    let mut out: Vec<Vec<char>> = Vec::new();
    let mut i: usize = 0;
    while i < ws.len()
        invariant
            i <= ws@.len(),
            views(stops@) == title_stopwords(),
            views(out@) == title_words(views(ws@)).take(i as int),
        decreases ws.len() - i,
    {
        let w = &ws[i];
        let tw = if keeps_case_exec(w) {
            crate::text::copy_chars(w)
        } else {
            let lw = lower_chars(w);
            if i != 0 && member(&lw, &stops) {
                lw
            } else {
                capitalize_token_chars(w)
            }
        };
        assert(tw@ == title_word(views(ws@)[i as int], i as int));
        let ghost prev = views(out@);
        out.push(tw);
        assert(views(out@) =~= prev.push(tw@));
        assert(title_words(views(ws@)).take(i + 1) =~= title_words(views(ws@)).take(i as int).push(
            title_words(views(ws@))[i as int],
        ));
        i += 1;
    }
    assert(title_words(views(ws@)).take(ws@.len() as int) =~= title_words(views(ws@)));
    let sp = vec![' '];
    assert(sp@ =~= seq![' ']);
    string_from(&join_chars(&out, &sp))
}

/// A title of more than sixty characters, cut to fifty-seven and ended with
/// `...`.
pub open spec fn finalized(title: Seq<char>) -> Seq<char> {
    if title.len() > 60 {
        title.take(57) + "..."@
    } else {
        title
    }
}

pub fn finalize_title(title: String) -> (r: String)
    ensures
        r@ == finalized(title@),
{
    let c = chars_of(title.as_str());
    if c.len() > 60 {
        let mut t = copy_range(&c, 0, 57);
        push_all(&mut t, &lit("..."));
        string_from(&t)
    } else {
        title
    }
}

// ---------------------------------------------------------------------------
// From the context
// ---------------------------------------------------------------------------

/// Context phrases too generic to name a meeting.
pub open spec fn generic_contexts() -> Seq<Seq<char>> {
    seq!["meeting"@, "recording"@, "memo"@, "voice memo"@, "call"@, "conversation"@, "note"@]
}

/// The title the pre-meeting context gives, unless it is empty or generic.
pub open spec fn context_title(context: Seq<char>) -> Option<Seq<char>> {
    let cleaned = normalize_space(context);
    if cleaned.len() == 0 {
        None
    } else if generic_contexts().contains(lower(cleaned)) {
        None
    } else {
        Some(display_title(cleaned))
    }
}

pub fn title_from_context(context: &str) -> (r: Option<String>)
    ensures
        r matches Some(t) ==> context_title(context@) == Some(t@),
        r is None ==> context_title(context@) is None,
{
    let cleaned = normalize_space_chars(&chars_of(context));
    if cleaned.len() == 0 {
        return None;
    }
    let generic = lits(&["meeting", "recording", "memo", "voice memo", "call", "conversation", "note"]);
    assert(views(generic@) =~= generic_contexts());
    if member(&lower_chars(&cleaned), &generic) {
        return None;
    }
    let s = string_from(&cleaned);
    Some(to_display_title(s.as_str()))
}

// ---------------------------------------------------------------------------
// From the transcript
// ---------------------------------------------------------------------------

/// `s` without its leading `[...]` tags (timestamps, speaker labels), each
/// followed by trimming; `None` when a tag is never closed.
pub open spec fn strip_tags(s: Seq<char>) -> Option<Seq<char>>
    decreases s.len(),
{
    if s.len() > 0 && s[0] == '[' {
        let rest = s.drop_first();
        match find(rest, seq![']']) {
            Some(e) => if 0 <= e < rest.len() {
                proof {
                    lemma_trim_len(rest.skip(e + 1));
                }
                strip_tags(trim(rest.skip(e + 1)))
            } else {
                None
            },
            None => None,
        }
    } else {
        Some(s)
    }
}

/// The spoken words of a transcript line, whitespace-normalised; `None`
/// when there are none or a tag is left open.
pub open spec fn spoken_line(line: Seq<char>) -> Option<Seq<char>> {
    match strip_tags(trim(line)) {
        Some(r) => {
            let c = normalize_space(r);
            if c.len() == 0 {
                None
            } else {
                Some(c)
            }
        },
        None => None,
    }
}

pub fn clean_transcript_line(line: &str) -> (r: Option<String>)
    ensures
        r matches Some(t) ==> spoken_line(line@) == Some(t@),
        r is None ==> spoken_line(line@) is None,
{
    let mut remaining = trim_ws(&chars_of(line));
    let close = vec![']'];
    assert(close@ =~= seq![']']);
    while remaining.len() > 0 && remaining[0] == '['
        invariant
            strip_tags(trim(line@)) == strip_tags(remaining@),
            close@ == seq![']'],
        decreases remaining.len(),
    {
        let rest = copy_range(&remaining, 1, remaining.len());
        assert(rest@ =~= remaining@.drop_first());
        match find_chars(&rest, &close) {
            None => {
                return None;
            },
            Some(e) => {
                let after = copy_range(&rest, e + 1, rest.len());
                assert(after@ =~= rest@.skip(e + 1));
                proof {
                    lemma_trim_len(after@);
                }
                remaining = trim_ws(&after);
            },
        }
    }
    let cleaned = normalize_space_chars(&remaining);
    if cleaned.len() == 0 {
        None
    } else {
        Some(string_from(&cleaned))
    }
}

/// Openings that introduce the topic rather than name it.
pub open spec fn lead_in_prefixes() -> Seq<Seq<char>> {
    seq![
        "we need to discuss "@,
        "let's talk about "@,
        "lets talk about "@,
        "let's discuss "@,
        "lets discuss "@,
        "i just had an idea about "@,
        "i had an idea about "@,
        "this is about "@,
        "today we're talking about "@,
        "today we are talking about "@,
        "we're talking about "@,
        "we are talking about "@,
        "we should talk about "@,
        "we should discuss "@,
        "i want to talk about "@,
        "i want to discuss "@,
    ]
}

/// The first of `ps` that `s` starts with.
pub open spec fn first_prefix(s: Seq<char>, ps: Seq<Seq<char>>) -> Option<Seq<char>>
    decreases ps.len(),
{
    if ps.len() == 0 {
        None
    } else if starts_with(s, ps[0]) {
        Some(ps[0])
    } else {
        first_prefix(s, ps.drop_first())
    }
}

/// The whitespace-normalised line without a lead-in phrase (matched on its
/// lowercase form and cut at the phrase's byte length), trimmed.  `None`
/// where that byte length is no character boundary of the line.
pub open spec fn lead_in_stripped(line: Seq<char>) -> Option<Seq<char>> {
    let cleaned = normalize_space(line);
    match first_prefix(lower(cleaned), lead_in_prefixes()) {
        None => Some(cleaned),
        Some(p) => match from_byte(cleaned, p.len()) {
            Some(rest) => Some(trim(rest)),
            None => None,
        },
    }
}

fn lead_in_list() -> (r: Vec<Vec<char>>)
    ensures
        views(r@) == lead_in_prefixes(),
{
    let r = lits(
        &[
            "we need to discuss ",
            "let's talk about ",
            "lets talk about ",
            "let's discuss ",
            "lets discuss ",
            "i just had an idea about ",
            "i had an idea about ",
            "this is about ",
            "today we're talking about ",
            "today we are talking about ",
            "we're talking about ",
            "we are talking about ",
            "we should talk about ",
            "we should discuss ",
            "i want to talk about ",
            "i want to discuss ",
        ],
    );
    assert(views(r@) =~= lead_in_prefixes());
    r
}

fn first_prefix_exec(s: &[char], ps: &[Vec<char>]) -> (r: Option<usize>)
    ensures
        r matches Some(i) ==> i < ps@.len() && first_prefix(s@, views(ps@)) == Some(ps@[i as int]@),
        r is None ==> first_prefix(s@, views(ps@)) is None,
{
    let mut i: usize = 0;
    assert(views(ps@).skip(0) =~= views(ps@));
    while i < ps.len()
        invariant
            i <= ps@.len(),
            first_prefix(s@, views(ps@)) == first_prefix(s@, views(ps@).skip(i as int)),
        decreases ps.len() - i,
    {
        assert(views(ps@).skip(i as int)[0] == ps@[i as int]@);
        if starts_with_chars(s, &ps[i]) {
            return Some(i);
        }
        assert(views(ps@).skip(i as int).drop_first() =~= views(ps@).skip(i + 1));
        i += 1;
    }
    None
}

/// Whether cutting a lead-in phrase from `line` stays on a character
/// boundary (it does unless lowercasing changed the byte length of the
/// phrase's characters).
pub fn lead_in_cut_ok(line: &[char]) -> (r: bool)
    ensures
        r == (lead_in_stripped(line@) is Some),
{
    let cleaned = normalize_space_chars(line);
    let ps = lead_in_list();
    match first_prefix_exec(&lower_chars(&cleaned), &ps) {
        None => true,
        Some(i) => from_byte_chars(&cleaned, ps[i].len() as u128).is_some(),
    }
}

pub fn strip_lead_in_phrase(line: &str) -> (r: String)
    requires
        lead_in_stripped(line@) is Some,
    ensures
        lead_in_stripped(line@) == Some(r@),
{
    let cleaned = normalize_space_chars(&chars_of(line));
    let ps = lead_in_list();
    match first_prefix_exec(&lower_chars(&cleaned), &ps) {
        None => string_from(&cleaned),
        Some(i) => {
            match from_byte_chars(&cleaned, ps[i].len() as u128) {
                Some(rest) => string_from(&trim_ws(&rest)),
                None => string_from(&cleaned),
            }
        },
    }
}

/// The first transcript line with spoken words.
pub open spec fn first_spoken(ls: Seq<Seq<char>>) -> Option<Seq<char>>
    decreases ls.len(),
{
    if ls.len() == 0 {
        None
    } else {
        match spoken_line(ls[0]) {
            Some(c) => Some(c),
            None => first_spoken(ls.drop_first()),
        }
    }
}

/// Whether a title can be taken from the transcript without cutting a
/// character (see [`lead_in_stripped`]).
pub open spec fn transcript_title_defined(t: Seq<char>) -> bool {
    match first_spoken(lines_of(t)) {
        Some(l) => lead_in_stripped(l) is Some,
        None => true,
    }
}

/// The title the transcript's first spoken line gives.
pub open spec fn transcript_title(t: Seq<char>) -> Option<Seq<char>> {
    match first_spoken(lines_of(t)) {
        Some(l) => match lead_in_stripped(l) {
            Some(s) => {
                let candidate = normalize_space(s);
                if candidate.len() == 0 {
                    None
                } else {
                    Some(display_title(candidate))
                }
            },
            None => None,
        },
        None => None,
    }
}

fn first_spoken_exec(t: &str) -> (r: Option<String>)
    ensures
        r matches Some(l) ==> first_spoken(lines_of(t@)) == Some(l@),
        r is None ==> first_spoken(lines_of(t@)) is None,
{
    let ls = lines_vec(&chars_of(t));
    let mut i: usize = 0;
    assert(views(ls@).skip(0) =~= views(ls@));
    while i < ls.len()
        invariant
            i <= ls@.len(),
            views(ls@) == lines_of(t@),
            first_spoken(lines_of(t@)) == first_spoken(views(ls@).skip(i as int)),
        decreases ls.len() - i,
    {
        assert(views(ls@).skip(i as int)[0] == ls@[i as int]@);
        let line = string_from(&ls[i]);
        match clean_transcript_line(line.as_str()) {
            Some(c) => {
                return Some(c);
            },
            None => {},
        }
        assert(views(ls@).skip(i as int).drop_first() =~= views(ls@).skip(i + 1));
        i += 1;
    }
    None
}

/// Whether [`title_from_transcript`] may be called on `transcript`.
pub fn transcript_title_ok(transcript: &str) -> (r: bool)
    ensures
        r == transcript_title_defined(transcript@),
{
    match first_spoken_exec(transcript) {
        Some(l) => lead_in_cut_ok(&chars_of(l.as_str())),
        None => true,
    }
}

pub fn title_from_transcript(transcript: &str) -> (r: Option<String>)
    requires
        transcript_title_defined(transcript@),
    ensures
        r matches Some(t) ==> transcript_title(transcript@) == Some(t@),
        r is None ==> transcript_title(transcript@) is None,
{
    let first = match first_spoken_exec(transcript) {
        Some(l) => l,
        None => {
            return None;
        },
    };
    let stripped = strip_lead_in_phrase(first.as_str());
    let candidate = normalize_space_chars(&chars_of(stripped.as_str()));
    if candidate.len() == 0 {
        None
    } else {
        let c = string_from(&candidate);
        Some(to_display_title(c.as_str()))
    }
}

// ---------------------------------------------------------------------------
// The title
// ---------------------------------------------------------------------------

/// The context's title when it gives one, else the transcript's, else
/// `Untitled Recording`; long titles are cut (see [`finalized`]).
pub open spec fn generated_title(t: Seq<char>, context: Option<Seq<char>>) -> Seq<char> {
    let from_context = match context {
        Some(c) => context_title(c),
        None => None,
    };
    match from_context {
        Some(c) => finalized(c),
        None => match transcript_title(t) {
            Some(x) => finalized(x),
            None => "Untitled Recording"@,
        },
    }
}

/// Whether [`generate_title`] may be called: the context gives a title, or
/// the transcript's can be taken (see [`transcript_title_defined`]).
pub open spec fn title_defined(t: Seq<char>, context: Option<Seq<char>>) -> bool {
    (context matches Some(c) && context_title(c) is Some) || transcript_title_defined(t)
}

/// A generated title is never longer than sixty characters.
pub proof fn law_title_fits(t: Seq<char>, context: Option<Seq<char>>)
    ensures
        generated_title(t, context).len() <= 60,
{
    reveal_strlit("...");
    reveal_strlit("Untitled Recording");
}

pub fn generate_title(transcript: &str, pre_context: Option<&str>) -> (r: String)
    requires
        title_defined(transcript@, match pre_context { Some(c) => Some(c@), None => None }),
    ensures
        r@ == generated_title(transcript@, match pre_context { Some(c) => Some(c@), None => None }),
        r@.len() <= 60,
{
    proof {
        law_title_fits(transcript@, match pre_context { Some(c) => Some(c@), None => None });
    }
    match pre_context {
        Some(c) => match title_from_context(c) {
            Some(t) => {
                return finalize_title(t);
            },
            None => {},
        },
        None => {},
    }
    match title_from_transcript(transcript) {
        Some(t) => finalize_title(t),
        None => string_from(&lit("Untitled Recording")),
    }
}

} // verus!
