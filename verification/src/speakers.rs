//! Speaker labels in diarized transcripts, and their mapping to attendees.
use vstd::prelude::*;
use crate::config::Config;
use crate::summary::{ask_failed, asked, engine_of, fit_bytes, fit_bytes_exec, request_view, summary_engine, LlmRequest, RequestModel, SummaryEngine};
use crate::text::{
    byte_len, byte_len_of, char_lines, chars_eq, chars_of, contains, contains_chars,
    copy_range, find, find_chars, join, join_chars, lines_of, lines_vec, lit, lower, lower_chars,
    occurs_at, push_all, starts_with, starts_with_chars, string_from, strs, to_strings, trim, trim_ws,
    views, words, words_of, replace_all, replace_all_chars, member, opt_view, opt_views,
};

verus! {

/// How sure an attribution is.
#[derive(Debug, Clone, Copy, PartialEq, Eq, Structural)]
pub enum Confidence {
    Low,
    Medium,
    High,
}

/// Where an attribution came from.
#[derive(Debug, Clone, Copy, PartialEq, Eq, Structural)]
pub enum AttributionSource {
    Llm,
}

/// A speaker label attributed to a person.
#[derive(Debug)]
pub struct SpeakerAttribution {
    pub speaker_label: String,
    pub name: String,
    pub confidence: Confidence,
    pub source: AttributionSource,
}

/// The `SPEAKER_X` label that opens a line like `[SPEAKER_1 0:05] text`.
pub open spec fn label_of(line: Seq<char>) -> Option<Seq<char>> {
    if starts_with(line, "["@) {
        let rest = line.skip(1);
        match find(rest, "]"@) {
            Some(e) => {
                let inside = rest.take(e);
                match find(inside, " "@) {
                    Some(sp) => {
                        let label = inside.take(sp);
                        if starts_with(label, "SPEAKER_"@) {
                            Some(label)
                        } else {
                            None
                        }
                    },
                    None => None,
                }
            },
            None => None,
        }
    } else {
        None
    }
}

/// The distinct speaker labels of `ls`, in order of first appearance.
pub open spec fn speaker_labels(ls: Seq<Seq<char>>) -> Seq<Seq<char>>
    decreases ls.len(),
{
    if ls.len() == 0 {
        seq![]
    } else {
        let prev = speaker_labels(ls.drop_last());
        match label_of(ls.last()) {
            Some(l) => if prev.contains(l) {
                prev
            } else {
                prev.push(l)
            },
            None => prev,
        }
    }
}

/// Each speaker label is reported once.
pub proof fn law_speaker_labels_distinct(ls: Seq<Seq<char>>)
    ensures
        speaker_labels(ls).no_duplicates(),
    decreases ls.len(),
{
    if ls.len() > 0 {
        law_speaker_labels_distinct(ls.drop_last());
        let prev = speaker_labels(ls.drop_last());
        match label_of(ls.last()) {
            Some(l) => {
                if !prev.contains(l) {
                    let n = prev.push(l);
                    assert forall|i: int, j: int| 0 <= i < n.len() && 0 <= j < n.len() && i != j implies n[i] != n[j] by {
                        if i < prev.len() && j < prev.len() {
                            assert(n[i] == prev[i] && n[j] == prev[j]);
                        } else if i < prev.len() {
                            assert(n[i] == prev[i]);
                        } else {
                            assert(n[j] == prev[j]);
                        }
                    }
                }
            },
            None => {},
        }
    }
}

/// A label is reported exactly when some line carries it (see
/// [`label_of`]).
pub proof fn law_speaker_labels_are_those_of_lines(ls: Seq<Seq<char>>, l: Seq<char>)
    ensures
        speaker_labels(ls).contains(l) <==> exists|k: int| 0 <= k < ls.len() && #[trigger] label_of(ls[k]) == Some(l),
    decreases ls.len(),
{
    if ls.len() > 0 {
        let p = ls.drop_last();
        law_speaker_labels_are_those_of_lines(p, l);
        let prev = speaker_labels(p);
        if speaker_labels(ls).contains(l) {
            if prev.contains(l) {
                let k = choose|k: int| 0 <= k < p.len() && #[trigger] label_of(p[k]) == Some(l);
                assert(ls[k] == p[k]);
            } else {
                assert(label_of(ls[ls.len() - 1]) == Some(l));
            }
        }
        if exists|k: int| 0 <= k < ls.len() && #[trigger] label_of(ls[k]) == Some(l) {
            let k = choose|k: int| 0 <= k < ls.len() && #[trigger] label_of(ls[k]) == Some(l);
            if k < ls.len() - 1 {
                assert(p[k] == ls[k]);
                assert(prev.contains(l));
            }
            match label_of(ls.last()) {
                Some(x) => {
                    if !prev.contains(x) {
                        assert(prev.push(x)[prev.len() as int] == x);
                        if prev.contains(l) {
                            let i = choose|i: int| 0 <= i < prev.len() && prev[i] == l;
                            assert(prev.push(x)[i] == l);
                        }
                    }
                },
                None => {},
            }
        }
    }
}

/// Labels are reported in the order they first appear: every line that
/// carries a later label comes after some line that carries an earlier one.
pub proof fn law_speaker_labels_in_order_of_appearance(ls: Seq<Seq<char>>, i: int, j: int, k: int)
    requires
        0 <= i < j < speaker_labels(ls).len(),
        0 <= k < ls.len(),
        label_of(ls[k]) == Some(speaker_labels(ls)[j]),
    ensures
        exists|k2: int| 0 <= k2 < k && #[trigger] label_of(ls[k2]) == Some(speaker_labels(ls)[i]),
    decreases ls.len(),
{
    let p = ls.drop_last();
    let prev = speaker_labels(p);
    let r = speaker_labels(ls);
    let n = ls.len() - 1;
    assert forall|m: int| 0 <= m < p.len() implies #[trigger] p[m] == ls[m] by {}
    if j < prev.len() {
        assert(r[i] == prev[i] && r[j] == prev[j]);
        if k < n {
            assert(label_of(p[k]) == Some(prev[j]));
            law_speaker_labels_in_order_of_appearance(p, i, j, k);
            let k2 = choose|k2: int| 0 <= k2 < k && #[trigger] label_of(p[k2]) == Some(prev[i]);
            assert(label_of(ls[k2]) == Some(r[i]));
        } else {
            assert(prev.contains(prev[j]));
            law_speaker_labels_are_those_of_lines(p, prev[j]);
            let k1 = choose|k1: int| 0 <= k1 < p.len() && #[trigger] label_of(p[k1]) == Some(prev[j]);
            law_speaker_labels_in_order_of_appearance(p, i, j, k1);
            let k2 = choose|k2: int| 0 <= k2 < k1 && #[trigger] label_of(p[k2]) == Some(prev[i]);
            assert(label_of(ls[k2]) == Some(r[i]));
        }
    } else {
        let x = r[j];
        assert(!prev.contains(x));
        assert(r[i] == prev[i]);
        if k < n {
            assert(label_of(p[k]) == Some(x));
            law_speaker_labels_are_those_of_lines(p, x);
            assert(false);
        }
        assert(prev.contains(prev[i]));
        law_speaker_labels_are_those_of_lines(p, prev[i]);
        let k2 = choose|k2: int| 0 <= k2 < p.len() && #[trigger] label_of(p[k2]) == Some(prev[i]);
        assert(label_of(ls[k2]) == Some(r[i]));
    }
}

/// What the labels of a transcript are: each `SPEAKER_` label that opens a
/// bracketed line (see [`label_of`]) once, and no other.  They come in the
/// order they first appear (see [`law_speaker_labels_in_order_of_appearance`]).
pub proof fn law_transcript_speaker_labels(t: Seq<char>)
    ensures
        speaker_labels(lines_of(t)).no_duplicates(),
        forall|l: Seq<char>|
            #[trigger] speaker_labels(lines_of(t)).contains(l) <==> exists|k: int|
                0 <= k < lines_of(t).len() && #[trigger] label_of(lines_of(t)[k]) == Some(l),
{
    let ls = lines_of(t);
    law_speaker_labels_distinct(ls);
    assert forall|l: Seq<char>| #[trigger] speaker_labels(ls).contains(l) <==> exists|k: int|
        0 <= k < ls.len() && #[trigger] label_of(ls[k]) == Some(l) by {
        law_speaker_labels_are_those_of_lines(ls, l);
    }
}

fn label_of_exec(line: &[char]) -> (r: Option<Vec<char>>)
    ensures
        r matches Some(l) ==> label_of(line@) == Some(l@),
        r is None ==> label_of(line@) is None,
{
    if !starts_with_chars(line, &lit("[")) {
        return None;
    }
    proof {
        reveal_strlit("[");
    }
    let rest = copy_range(line, 1, line.len());
    assert(rest@ =~= line@.skip(1));
    match find_chars(&rest, &lit("]")) {
        Some(e) => {
            let inside = copy_range(&rest, 0, e);
            assert(inside@ =~= rest@.take(e as int));
            match find_chars(&inside, &lit(" ")) {
                Some(sp) => {
                    let label = copy_range(&inside, 0, sp);
                    assert(label@ =~= inside@.take(sp as int));
                    if starts_with_chars(&label, &lit("SPEAKER_")) {
                        Some(label)
                    } else {
                        None
                    }
                },
                None => None,
            }
        },
        None => None,
    }
}

fn speaker_labels_chars(t: &[char]) -> (r: Vec<Vec<char>>)
    ensures
        views(r@) == speaker_labels(lines_of(t@)),
{
    let ls = lines_vec(t);
    let ghost lv = views(ls@);
    let mut labels: Vec<Vec<char>> = Vec::new();
    let mut i: usize = 0;
    while i < ls.len()
        invariant
            i <= ls@.len(),
            lv == views(ls@),
            views(labels@) == speaker_labels(lv.take(i as int)),
        decreases ls.len() - i,
    {
        assert(lv.take(i + 1).drop_last() =~= lv.take(i as int));
        assert(lv.take(i + 1).last() == ls@[i as int]@);
        if let Some(l) = label_of_exec(&ls[i]) {
            if !crate::text::member(&l, &labels) {
                let ghost prev = views(labels@);
                labels.push(l);
                assert(views(labels@) =~= prev.push(labels@.last()@));
            }
        }
        i += 1;
    }
    assert(lv.take(ls@.len() as int) =~= lv);
    labels
}

/// The distinct `SPEAKER_X` labels that open the transcript's lines, in order
/// of first appearance.
pub fn extract_speaker_labels(transcript: &str) -> (r: Vec<String>)
    ensures
        strs(r@) == speaker_labels(lines_of(transcript@)),
{
    let t = chars_of(transcript);
    let l = speaker_labels_chars(&t);
    to_strings(&l)
}

/// The distinct `SPEAKER_X` labels of a transcript (for pipeline use).
pub fn extract_speaker_labels_pub(transcript: &str) -> (r: Vec<String>)
    ensures
        strs(r@) == speaker_labels(lines_of(transcript@)),
{
    extract_speaker_labels(transcript)
}

// ---------------------------------------------------------------------------
// Labelling lines with diarized speakers
// ---------------------------------------------------------------------------

/// A line like `[0:05] text` split into its timestamp and its trimmed text.
pub open spec fn stamped(line: Seq<char>) -> Option<(Seq<char>, Seq<char>)> {
    if starts_with(line, "["@) {
        let rest = line.skip(1);
        match find(rest, "]"@) {
            Some(e) => Some((rest.take(e), trim(rest.skip(e + 1)))),
            None => None,
        }
    } else {
        None
    }
}

/// `line` labelled `[speaker ts] text` when it is stamped and a speaker was
/// found for its timestamp; otherwise the line as it is.
pub open spec fn labelled(line: Seq<char>, speaker: Option<Seq<char>>) -> Seq<char> {
    match stamped(line) {
        Some((ts, text)) => match speaker {
            Some(sp) => "["@ + sp + " "@ + ts + "] "@ + text,
            None => line,
        },
        None => line,
    }
}

/// The speaker given for line `i`, if any.
pub open spec fn speaker_for(speakers: Seq<Option<Seq<char>>>, i: int) -> Option<Seq<char>> {
    if 0 <= i < speakers.len() {
        speakers[i]
    } else {
        None
    }
}

/// Lines `ls` labelled with `speakers` (line by line), each ended by a newline.
pub open spec fn labelled_lines(ls: Seq<Seq<char>>, speakers: Seq<Option<Seq<char>>>) -> Seq<char>
    decreases ls.len(),
{
    if ls.len() == 0 {
        seq![]
    } else {
        labelled_lines(ls.drop_last(), speakers) + labelled(ls.last(), speaker_for(speakers, ls.len() - 1))
            + "\n"@
    }
}

fn stamped_exec(line: &[char]) -> (r: Option<(Vec<char>, Vec<char>)>)
    ensures
        match r {
            Some((ts, text)) => stamped(line@) == Some((ts@, text@)),
            None => stamped(line@) is None,
        },
{
    if !starts_with_chars(line, &lit("[")) {
        return None;
    }
    proof {
        reveal_strlit("[");
    }
    let rest = copy_range(line, 1, line.len());
    assert(rest@ =~= line@.skip(1));
    match find_chars(&rest, &lit("]")) {
        Some(e) => {
            proof {
                reveal_strlit("]");
            }
            let ts = copy_range(&rest, 0, e);
            assert(ts@ =~= rest@.take(e as int));
            let after = copy_range(&rest, e + 1, rest.len());
            assert(after@ =~= rest@.skip(e + 1));
            Some((ts, trim_ws(&after)))
        },
        None => None,
    }
}

/// The timestamp of each line of `transcript` that has the form `[ts] text`
/// (`None` for the other lines), in line order.
pub fn line_stamps(transcript: &str) -> (r: Vec<Option<String>>)
    ensures
        r@.len() == lines_of(transcript@).len(),
        forall|i: int|
            0 <= i < r@.len() ==> opt_view(#[trigger] r@[i]) == match stamped(lines_of(transcript@)[i]) {
                Some((ts, _)) => Some(ts),
                None => None::<Seq<char>>,
            },
{
    let ls = lines_vec(&chars_of(transcript));
    let ghost lv = views(ls@);
    let mut r: Vec<Option<String>> = Vec::new();
    let mut i: usize = 0;
    while i < ls.len()
        invariant
            i <= ls@.len(),
            lv == views(ls@),
            lv == lines_of(transcript@),
            r@.len() == i,
            forall|j: int|
                0 <= j < i ==> opt_view(#[trigger] r@[j]) == match stamped(lv[j]) {
                    Some((ts, _)) => Some(ts),
                    None => None::<Seq<char>>,
                },
        decreases ls.len() - i,
    {
        assert(lv[i as int] == ls@[i as int]@);
        match stamped_exec(&ls[i]) {
            Some((ts, _)) => r.push(Some(string_from(&ts))),
            None => r.push(None),
        }
        i += 1;
    }
    r
}

/// Labels each `[ts] text` line of `transcript` as `[speaker ts] text`, with
/// `speakers[i]` the speaker talking at line `i`'s timestamp (`None` where
/// none was found, or the timestamp did not parse, and past the end of
/// `speakers`); other lines are kept.  Every line ends with a newline.
pub fn label_lines(transcript: &str, speakers: &[Option<String>]) -> (r: String)
    ensures
        r@ == labelled_lines(lines_of(transcript@), opt_views(speakers@)),
{
    let ls = lines_vec(&chars_of(transcript));
    let ghost lv = views(ls@);
    let ghost sv = opt_views(speakers@);
    let mut out: Vec<char> = Vec::new();
    let mut i: usize = 0;
    while i < ls.len()
        invariant
            i <= ls@.len(),
            lv == views(ls@),
            lv == lines_of(transcript@),
            sv == opt_views(speakers@),
            out@ == labelled_lines(lv.take(i as int), sv),
        decreases ls.len() - i,
    {
        assert(lv.take(i + 1).drop_last() =~= lv.take(i as int));
        assert(lv.take(i + 1).last() == ls@[i as int]@);
        let speaker: Option<Vec<char>> = if i < speakers.len() {
            match &speakers[i] {
                Some(sp) => Some(chars_of(sp.as_str())),
                None => None,
            }
        } else {
            None
        };
        assert(match speaker {
            Some(v) => speaker_for(sv, i as int) == Some(v@),
            None => speaker_for(sv, i as int) is None,
        });
        let ghost before = out@;
        match stamped_exec(&ls[i]) {
            Some((ts, text)) => match speaker {
                Some(sp) => {
                    out.push('[');
                    push_all(&mut out, &sp);
                    out.push(' ');
                    push_all(&mut out, &ts);
                    out.push(']');
                    out.push(' ');
                    push_all(&mut out, &text);
                    proof {
                        reveal_strlit("[");
                        reveal_strlit(" ");
                        reveal_strlit("] ");
                    }
                    assert(out@ =~= before + ("["@ + sp@ + " "@ + ts@ + "] "@ + text@));
                },
                None => push_all(&mut out, &ls[i]),
            },
            None => push_all(&mut out, &ls[i]),
        }
        out.push('\n');
        proof {
            reveal_strlit("\n");
        }
        assert(out@ =~= labelled_lines(lv.take(i + 1), sv));
        i += 1;
    }
    assert(lv.take(ls@.len() as int) =~= lv);
    string_from(&out)
}

// ---------------------------------------------------------------------------
// Parsing a mapping reply
// ---------------------------------------------------------------------------

/// The code of `c` with ASCII uppercase folded to lowercase.
pub open spec fn ascii_fold(c: char) -> u32 {
    if 'A' <= c && c <= 'Z' {
        (c as u32 + 32) as u32
    } else {
        c as u32
    }
}

/// `str::eq_ignore_ascii_case` against an ASCII string.
pub open spec fn eq_ignore_ascii_case(a: Seq<char>, b: Seq<char>) -> bool {
    a.len() == b.len() && forall|i: int| 0 <= i < a.len() ==> ascii_fold(a[i]) == ascii_fold(b[i])
}

pub fn eq_ignore_ascii_case_exec(a: &[char], b: &[char]) -> (r: bool)
    ensures
        r == eq_ignore_ascii_case(a@, b@),
{
    if a.len() != b.len() {
        return false;
    }
    let mut i: usize = 0;
    while i < a.len()
        invariant
            a@.len() == b@.len(),
            i <= a@.len(),
            forall|j: int| 0 <= j < i ==> ascii_fold(a@[j]) == ascii_fold(b@[j]),
        decreases a.len() - i,
    {
        let x = a[i];
        let y = b[i];
        let lx: u32 = if 'A' <= x && x <= 'Z' {
            (x as u32) + 32
        } else {
            x as u32
        };
        let ly: u32 = if 'A' <= y && y <= 'Z' {
            (y as u32) + 32
        } else {
            y as u32
        };
        if lx != ly {
            return false;
        }
        i += 1;
    }
    true
}

/// Whether a (lowercased) name matches a (lowercased) attendee: one contains
/// the other, or the name contains a word of the attendee longer than two bytes.
pub open spec fn name_matches(name: Seq<char>, attendee: Seq<char>) -> bool {
    contains(attendee, name) || contains(name, attendee) || exists|k: int|
        0 <= k < words(attendee).len() && byte_len(#[trigger] words(attendee)[k]) > 2 && contains(
            name,
            words(attendee)[k],
        )
}

/// The attribution a reply line makes: `SPEAKER_X = Name`, with a known
/// label, a name other than `UNKNOWN`, and the name matching an attendee.
pub open spec fn mapping_of(line: Seq<char>, speakers: Seq<Seq<char>>, attendees: Seq<Seq<char>>) -> Option<
    (Seq<char>, Seq<char>),
> {
    let t = trim(line);
    match find(t, "="@) {
        Some(eq) => {
            let label = trim(t.take(eq));
            let name = trim(t.skip(eq + 1));
            if speakers.contains(label) && name.len() > 0 && !eq_ignore_ascii_case(name, "UNKNOWN"@)
                && exists|k: int|
                0 <= k < attendees.len() && name_matches(lower(name), lower(#[trigger] attendees[k])) {
                Some((label, name))
            } else {
                None
            }
        },
        None => None,
    }
}

/// The attributions of the lines `ls`, in order.
pub open spec fn mappings(ls: Seq<Seq<char>>, speakers: Seq<Seq<char>>, attendees: Seq<Seq<char>>) -> Seq<
    (Seq<char>, Seq<char>),
>
    decreases ls.len(),
{
    if ls.len() == 0 {
        seq![]
    } else {
        let prev = mappings(ls.drop_last(), speakers, attendees);
        match mapping_of(ls.last(), speakers, attendees) {
            Some(m) => prev.push(m),
            None => prev,
        }
    }
}

/// A reply line `L = N` is an attribution of `N` to `L` whenever `L` is one
/// of the speakers, `N` is neither empty nor `UNKNOWN`, and, ignoring case,
/// `N` and some attendee contain one another or `N` contains one of that
/// attendee's words longer than two bytes; and every such line of a reply
/// is among the reply's attributions.
pub proof fn law_reply_line_attributes_matching_name(
    ls: Seq<Seq<char>>,
    i: int,
    speakers: Seq<Seq<char>>,
    attendees: Seq<Seq<char>>,
    eq: int,
    k: int,
)
    requires
        0 <= i < ls.len(),
        find(trim(ls[i]), "="@) == Some(eq),
        speakers.contains(trim(trim(ls[i]).take(eq))),
        trim(trim(ls[i]).skip(eq + 1)).len() > 0,
        !eq_ignore_ascii_case(trim(trim(ls[i]).skip(eq + 1)), "UNKNOWN"@),
        0 <= k < attendees.len(),
        ({
            let n = lower(trim(trim(ls[i]).skip(eq + 1)));
            let a = lower(attendees[k]);
            contains(a, n) || contains(n, a) || exists|j: int|
                0 <= j < words(a).len() && byte_len(#[trigger] words(a)[j]) > 2 && contains(n, words(a)[j])
        }),
    ensures
        mapping_of(ls[i], speakers, attendees) == Some((trim(trim(ls[i]).take(eq)), trim(trim(ls[i]).skip(eq + 1)))),
        mappings(ls, speakers, attendees).contains((trim(trim(ls[i]).take(eq)), trim(trim(ls[i]).skip(eq + 1)))),
{
    let n = lower(trim(trim(ls[i]).skip(eq + 1)));
    assert(name_matches(n, lower(attendees[k])));
    lemma_mappings_keep(ls, i, speakers, attendees);
}

proof fn lemma_mappings_keep(ls: Seq<Seq<char>>, i: int, speakers: Seq<Seq<char>>, attendees: Seq<Seq<char>>)
    requires
        0 <= i < ls.len(),
    ensures
        mapping_of(ls[i], speakers, attendees) matches Some(m) ==> mappings(ls, speakers, attendees).contains(m),
    decreases ls.len(),
{
    let p = ls.drop_last();
    let prev = mappings(p, speakers, attendees);
    if i < ls.len() - 1 {
        assert(p[i] == ls[i]);
        lemma_mappings_keep(p, i, speakers, attendees);
        match mapping_of(ls[i], speakers, attendees) {
            Some(m) => {
                let j = choose|j: int| 0 <= j < prev.len() && prev[j] == m;
                match mapping_of(ls.last(), speakers, attendees) {
                    Some(x) => assert(prev.push(x)[j] == m),
                    None => {},
                }
            },
            None => {},
        }
    } else {
        match mapping_of(ls.last(), speakers, attendees) {
            Some(x) => assert(prev.push(x)[prev.len() as int] == x),
            None => {},
        }
    }
}

pub open spec fn attribution_view(a: SpeakerAttribution) -> (Seq<char>, Seq<char>) {
    (a.speaker_label@, a.name@)
}

/// Every attribution read from a reply names one of the given speaker labels.
pub proof fn law_mappings_name_known_speakers(ls: Seq<Seq<char>>, speakers: Seq<Seq<char>>, attendees: Seq<Seq<char>>)
    ensures
        forall|i: int|
            0 <= i < mappings(ls, speakers, attendees).len() ==> speakers.contains(
                (#[trigger] mappings(ls, speakers, attendees)[i]).0,
            ),
    decreases ls.len(),
{
    if ls.len() > 0 {
        law_mappings_name_known_speakers(ls.drop_last(), speakers, attendees);
        let prev = mappings(ls.drop_last(), speakers, attendees);
        let m = mappings(ls, speakers, attendees);
        assert forall|i: int| 0 <= i < m.len() implies speakers.contains((#[trigger] m[i]).0) by {
            if i < prev.len() {
                assert(m[i] == prev[i]);
            }
        }
    }
}

fn name_matches_exec(name: &[char], attendee: &[char]) -> (r: bool)
    ensures
        r == name_matches(name@, attendee@),
{
    if contains_chars(attendee, name) || contains_chars(name, attendee) {
        return true;
    }
    let w = words_of(attendee);
    let mut k: usize = 0;
    while k < w.len()
        invariant
            k <= w@.len(),
            views(w@) == words(attendee@),
            forall|j: int| 0 <= j < k ==> !(byte_len(#[trigger] words(attendee@)[j]) > 2 && contains(name@, words(attendee@)[j])),
        decreases w.len() - k,
    {
        assert(words(attendee@)[k as int] == w@[k as int]@);
        if byte_len_of(&w[k]) > 2 && contains_chars(name, &w[k]) {
            return true;
        }
        k += 1;
    }
    false
}

#[verifier::loop_isolation(false)]
fn mapping_of_exec(line: &[char], speakers: &[Vec<char>], attendees_lower: &[Vec<char>], ghost_attendees: Ghost<Seq<Seq<char>>>) -> (r: Option<(Vec<char>, Vec<char>)>)
    requires
        attendees_lower@.len() == ghost_attendees@.len(),
        forall|k: int| 0 <= k < attendees_lower@.len() ==> #[trigger] attendees_lower@[k]@ == lower(ghost_attendees@[k]),
    ensures
        r matches Some(p) ==> mapping_of(line@, views(speakers@), ghost_attendees@) == Some((p.0@, p.1@)),
        r is None ==> mapping_of(line@, views(speakers@), ghost_attendees@) is None,
{
    let t = trim_ws(line);
    match find_chars(&t, &lit("=")) {
        Some(eq) => {
            proof {
                reveal_strlit("=");
            }
            let head = copy_range(&t, 0, eq);
            assert(head@ =~= t@.take(eq as int));
            let n = t.len();
            assert(eq + 1 <= n);
            let tail = copy_range(&t, eq + 1, n);
            assert(tail@ =~= t@.skip(eq + 1));
            let label = trim_ws(&head);
            let name = trim_ws(&tail);
            if crate::text::member(&label, speakers) && name.len() > 0
                && !eq_ignore_ascii_case_exec(&name, &lit("UNKNOWN")) {
                let nl = lower_chars(&name);
                let mut k: usize = 0;
                while k < attendees_lower.len()
                    invariant
                        k <= attendees_lower@.len(),
                        attendees_lower@.len() == ghost_attendees@.len(),
                        forall|m: int| 0 <= m < attendees_lower@.len() ==> #[trigger] attendees_lower@[m]@ == lower(ghost_attendees@[m]),
                        forall|m: int| 0 <= m < k ==> !name_matches(nl@, lower(#[trigger] ghost_attendees@[m])),
                    decreases attendees_lower.len() - k,
                {
                    if name_matches_exec(&nl, &attendees_lower[k]) {
                        assert(name_matches(lower(name@), lower(ghost_attendees@[k as int])));
                        return Some((label, name));
                    }
                    k += 1;
                }
                None
            } else {
                None
            }
        },
        None => None,
    }
}

/// Reads `SPEAKER_X = Name` lines from a mapping reply.  An attribution is
/// kept when the label is one of `valid_speakers`, the name is neither empty
/// nor `UNKNOWN`, and the name matches one of `valid_attendees` (ignoring
/// case: one contains the other, or the name contains one of the attendee's
/// words longer than two bytes).  Attributions have medium confidence.
pub fn parse_speaker_mapping(
    response: &str,
    valid_speakers: &[String],
    valid_attendees: &[String],
) -> (r: Vec<SpeakerAttribution>)
    ensures
        r@.map_values(|a: SpeakerAttribution| attribution_view(a)) == mappings(
            lines_of(response@),
            strs(valid_speakers@),
            strs(valid_attendees@),
        ),
        forall|i: int| 0 <= i < r@.len() ==> (#[trigger] r@[i]).confidence == Confidence::Medium
            && r@[i].source == AttributionSource::Llm,
{
    let speakers = char_lines(valid_speakers);
    let att = char_lines(valid_attendees);
    let mut att_lower: Vec<Vec<char>> = Vec::new();
    let mut k: usize = 0;
    while k < att.len()
        invariant
            k <= att@.len(),
            att_lower@.len() == k,
            forall|m: int| 0 <= m < k ==> #[trigger] att_lower@[m]@ == lower(views(att@)[m]),
        decreases att.len() - k,
    {
        att_lower.push(lower_chars(&att[k]));
        k += 1;
    }
    let t = chars_of(response);
    let ls = lines_vec(&t);
    let ghost lv = views(ls@);
    let ghost sp = views(speakers@);
    let ghost at = views(att@);
    let mut out: Vec<SpeakerAttribution> = Vec::new();
    let mut i: usize = 0;
    while i < ls.len()
        invariant
            i <= ls@.len(),
            lv == views(ls@),
            sp == views(speakers@),
            at == views(att@),
            sp == strs(valid_speakers@),
            at == strs(valid_attendees@),
            att_lower@.len() == at.len(),
            forall|m: int| 0 <= m < att_lower@.len() ==> #[trigger] att_lower@[m]@ == lower(at[m]),
            out@.map_values(|a: SpeakerAttribution| attribution_view(a)) == mappings(lv.take(i as int), sp, at),
            forall|j: int| 0 <= j < out@.len() ==> (#[trigger] out@[j]).confidence == Confidence::Medium
                && out@[j].source == AttributionSource::Llm,
        decreases ls.len() - i,
    {
        assert(lv.take(i + 1).drop_last() =~= lv.take(i as int));
        assert(lv.take(i + 1).last() == ls@[i as int]@);
        let ghost prev = out@.map_values(|a: SpeakerAttribution| attribution_view(a));
        match mapping_of_exec(&ls[i], &speakers, &att_lower, Ghost(at)) {
            Some((label, name)) => {
                out.push(SpeakerAttribution {
                    speaker_label: string_from(&label),
                    name: string_from(&name),
                    confidence: Confidence::Medium,
                    source: AttributionSource::Llm,
                });
                assert(out@.map_values(|a: SpeakerAttribution| attribution_view(a)) =~= prev.push((label@, name@)));
            },
            None => {},
        }
        i += 1;
    }
    assert(lv.take(ls@.len() as int) =~= lv);
    out
}


// ---------------------------------------------------------------------------
// Asking an LLM to map speakers
// ---------------------------------------------------------------------------

/// The mapping request's template; `{attendees}` and `{transcript}` are filled in.
pub const SPEAKER_MAPPING_PROMPT: &'static str = "Given this meeting transcript with anonymous speaker labels (SPEAKER_1, SPEAKER_2, etc.) and a list of known attendees, determine which speaker is which person based on conversational context clues.

Look for: direct address, role mentions, self-references, topic ownership.

ATTENDEES:
{attendees}

TRANSCRIPT (first 3000 chars):
{transcript}

For each speaker, respond in this exact format (one per line):
SPEAKER_1 = Name
SPEAKER_2 = Name

If you cannot determine a speaker's identity, respond:
SPEAKER_X = UNKNOWN

Only output the mappings, nothing else.";

/// The mapping prompt: attendees joined by `, `, and at most 3000 bytes of
/// the transcript, cut at a character boundary.
pub open spec fn mapping_prompt(transcript: Seq<char>, attendees: Seq<Seq<char>>) -> Seq<char> {
    replace_all(
        replace_all(SPEAKER_MAPPING_PROMPT@, "{attendees}"@, join(attendees, ", "@)),
        "{transcript}"@,
        fit_bytes(transcript, 3000),
    )
}

/// The engine that answers a mapping request: the summarization engine, or
/// an agent CLI when summarization is off.
pub open spec fn mapping_engine(name: Seq<char>) -> Option<SummaryEngine> {
    if name == "none"@ {
        Some(SummaryEngine::Agent)
    } else {
        engine_of(name)
    }
}

/// Builds the mapping prompt.
pub fn speaker_mapping_prompt(transcript: &str, attendees: &[String]) -> (r: String)
    ensures
        r@ == mapping_prompt(transcript@, strs(attendees@)),
{
    let at = char_lines(attendees);
    let joined = join_chars(&at, &lit(", "));
    let t = chars_of(transcript);
    let cut = fit_bytes_exec(&t, 3000);
    let tpl = lit(SPEAKER_MAPPING_PROMPT);
    let pa = lit("{attendees}");
    let pt = lit("{transcript}");
    proof {
        reveal_strlit("{attendees}");
        reveal_strlit("{transcript}");
    }
    let a = replace_all_chars(&tpl, &pa, &joined);
    let b = replace_all_chars(&a, &pt, &cut);
    string_from(&b)
}

/// Maps anonymous speaker labels to attendees' names with an LLM, `ask`
/// performing the request.  Nothing is asked, and nothing returned, when
/// there are no attendees, no `SPEAKER_` labels in the transcript, or no
/// engine to ask; a failed request returns nothing; otherwise the reply is
/// read by [`parse_speaker_mapping`] against the transcript's labels.
pub fn map_speakers<F>(transcript: &str, attendees: &[String], config: &Config, ask: F) -> (r: Vec<
    SpeakerAttribution,
>) where F: Fn(LlmRequest) -> Result<String, String>,
    requires
        forall|q: LlmRequest| call_requires(ask, (q,)),
    ensures
        attendees@.len() == 0 ==> r@.len() == 0,
        !contains(transcript@, "SPEAKER_"@) ==> r@.len() == 0,
        speaker_labels(lines_of(transcript@)).len() == 0 ==> r@.len() == 0,
        mapping_engine(config.summarization.engine@) is None ==> r@.len() == 0,
        r@.len() > 0 ==> exists|reply: Seq<char>|
            #[trigger] asked(
                ask,
                RequestModel::Mapping {
                    engine: mapping_engine(config.summarization.engine@)->0,
                    prompt: mapping_prompt(transcript@, strs(attendees@)),
                },
                reply,
            ) && r@.map_values(|a: SpeakerAttribution| attribution_view(a)) == mappings(
                lines_of(reply),
                speaker_labels(lines_of(transcript@)),
                strs(attendees@),
            ),
        attendees@.len() > 0 && contains(transcript@, "SPEAKER_"@) && speaker_labels(lines_of(transcript@)).len()
            > 0 && mapping_engine(config.summarization.engine@) is Some ==> (ask_failed(
            ask,
            RequestModel::Mapping {
                engine: mapping_engine(config.summarization.engine@)->0,
                prompt: mapping_prompt(transcript@, strs(attendees@)),
            },
        ) && r@.len() == 0) || exists|reply: Seq<char>|
            #[trigger] asked(
                ask,
                RequestModel::Mapping {
                    engine: mapping_engine(config.summarization.engine@)->0,
                    prompt: mapping_prompt(transcript@, strs(attendees@)),
                },
                reply,
            ) && r@.map_values(|a: SpeakerAttribution| attribution_view(a)) == mappings(
                lines_of(reply),
                speaker_labels(lines_of(transcript@)),
                strs(attendees@),
            ),
        forall|i: int| 0 <= i < r@.len() ==> (#[trigger] r@[i]).confidence == Confidence::Medium
            && r@[i].source == AttributionSource::Llm,
        forall|i: int| 0 <= i < r@.len() ==> speaker_labels(lines_of(transcript@)).contains(
            (#[trigger] r@[i]).speaker_label@,
        ),
{
    let t = chars_of(transcript);
    if attendees.len() == 0 || !contains_chars(&t, &lit("SPEAKER_")) {
        return Vec::new();
    }
    let speakers = extract_speaker_labels(transcript);
    if speakers.len() == 0 {
        return Vec::new();
    }
    let name = chars_of(config.summarization.engine.as_str());
    let engine = if chars_eq(&name, &lit("none")) {
        SummaryEngine::Agent
    } else {
        match summary_engine(config.summarization.engine.as_str()) {
            Some(e) => e,
            None => return Vec::new(),
        }
    };
    let prompt = speaker_mapping_prompt(transcript, attendees);
    let req = LlmRequest::Mapping { engine, prompt };
    let ghost gq = req;
    match ask(req) {
        Ok(reply) => {
            proof {
                assert(call_ensures(ask, (gq,), Ok::<String, String>(reply)));
                assert(mapping_engine(config.summarization.engine@) == Some(engine));
                assert(asked(
                    ask,
                    RequestModel::Mapping {
                        engine: mapping_engine(config.summarization.engine@)->0,
                        prompt: mapping_prompt(transcript@, strs(attendees@)),
                    },
                    reply@,
                ));
            }
            let r = parse_speaker_mapping(reply.as_str(), &speakers, attendees);
            let ghost rv = reply@;
            assert(r@.map_values(|a: SpeakerAttribution| attribution_view(a)) == mappings(
                lines_of(rv),
                speaker_labels(lines_of(transcript@)),
                strs(attendees@),
            ));
            proof {
                law_mappings_name_known_speakers(lines_of(rv), speaker_labels(lines_of(transcript@)), strs(attendees@));
                assert forall|i: int| 0 <= i < r@.len() implies speaker_labels(lines_of(transcript@)).contains(
                    (#[trigger] r@[i]).speaker_label@,
                ) by {
                    assert(r@.map_values(|a: SpeakerAttribution| attribution_view(a))[i] == attribution_view(r@[i]));
                }
            }
            r
        },
        Err(e) => {
            proof {
                assert(call_ensures(ask, (gq,), Err::<String, String>(e)));
                assert(mapping_engine(config.summarization.engine@) == Some(engine));
                assert(ask_failed(
                    ask,
                    RequestModel::Mapping {
                        engine: mapping_engine(config.summarization.engine@)->0,
                        prompt: mapping_prompt(transcript@, strs(attendees@)),
                    },
                ));
            }
            Vec::new()
        },
    }
}

} // verus!
