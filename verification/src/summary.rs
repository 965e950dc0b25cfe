//! Summaries: the prompt chunks sent to an LLM, the parse of its reply into
//! sections, and the markdown rendering of those sections.
use vstd::prelude::*;
use crate::config::Config;
use crate::text::{
    byte_len, byte_len_of, chars_of, lemma_byte_len_concat, copy_chars, copy_range, find, find_chars, join, lemma_byte_len_bound,
    lines_of, lines_vec, lit, push_all, starts_with, starts_with_chars, string_from, strs, to_strings,
    trim, trim_ws, views, char_lines, utf8_width, chars_eq, ends_with, lemma_lines_have_no_newline,
};

verus! {

/// A meeting summary split into its sections.
#[derive(Debug)]
pub struct Summary {
    pub text: String,
    pub decisions: Vec<String>,
    pub action_items: Vec<String>,
    pub open_questions: Vec<String>,
    pub commitments: Vec<String>,
    pub key_points: Vec<String>,
    pub participants: Vec<String>,
}

// ---------------------------------------------------------------------------
// Markdown rendering
// ---------------------------------------------------------------------------

/// Each item on a line of its own after `mark`.
pub open spec fn bullets(items: Seq<Seq<char>>, mark: Seq<char>) -> Seq<char>
    decreases items.len(),
{
    if items.len() == 0 {
        seq![]
    } else {
        bullets(items.drop_last(), mark) + mark + items.last() + seq!['\n']
    }
}

/// A titled list of items, or nothing when there are none.
pub open spec fn section(title: Seq<char>, items: Seq<Seq<char>>, mark: Seq<char>) -> Seq<char> {
    if items.len() == 0 {
        seq![]
    } else {
        title + bullets(items, mark)
    }
}

/// The markdown of a summary: key points as bullets (or the free text when
/// there are none), then Decisions as checked boxes, Action Items as open
/// boxes, Open Questions and Commitments as bullets.
pub open spec fn formatted(s: Summary) -> Seq<char> {
    let head = if strs(s.key_points@).len() > 0 {
        bullets(strs(s.key_points@), "- "@)
    } else if s.text@.len() > 0 {
        s.text@ + seq!['\n']
    } else {
        seq![]
    };
    head + section("\n## Decisions\n\n"@, strs(s.decisions@), "- [x] "@) + section(
        "\n## Action Items\n\n"@,
        strs(s.action_items@),
        "- [ ] "@,
    ) + section("\n## Open Questions\n\n"@, strs(s.open_questions@), "- "@) + section(
        "\n## Commitments\n\n"@,
        strs(s.commitments@),
        "- "@,
    )
}

/// Bullets of a list are the bullets of its parts, one after the other;
/// one item is its mark, the item and a line feed.
pub proof fn law_bullets_compose(a: Seq<Seq<char>>, b: Seq<Seq<char>>, mark: Seq<char>)
    ensures
        bullets(a + b, mark) == bullets(a, mark) + bullets(b, mark),
        forall|x: Seq<char>| #[trigger] bullets(seq![x], mark) == mark + x + seq!['\n'],
    decreases b.len(),
{
    assert forall|x: Seq<char>| #[trigger] bullets(seq![x], mark) == mark + x + seq!['\n'] by {
        assert(seq![x].drop_last() =~= Seq::<Seq<char>>::empty());
        assert(bullets(Seq::<Seq<char>>::empty(), mark) + mark + x + seq!['\n'] =~= mark + x + seq!['\n']);
    }
    if b.len() == 0 {
        assert(a + b =~= a);
        assert(bullets(a, mark) + bullets(b, mark) =~= bullets(a, mark));
    } else {
        law_bullets_compose(a, b.drop_last(), mark);
        assert((a + b).drop_last() =~= a + b.drop_last());
        assert((a + b).last() == b.last());
        assert(bullets(a + b, mark) == bullets(a + b.drop_last(), mark) + mark + b.last() + seq!['\n']);
        assert(bullets(a, mark) + bullets(b.drop_last(), mark) + mark + b.last() + seq!['\n'] =~= bullets(a, mark) + (
        bullets(b.drop_last(), mark) + mark + b.last() + seq!['\n']));
    }
}

/// What may follow a section of the markdown: nothing, or the next heading.
pub open spec fn heading_or_end(y: Seq<char>) -> bool {
    y.len() == 0 || starts_with(y, "\n## "@)
}

/// Whether `md` holds `title` followed by the bullets of `items`, and then
/// nothing or the next heading.
pub open spec fn lists_under(md: Seq<char>, title: Seq<char>, items: Seq<Seq<char>>, mark: Seq<char>) -> bool {
    exists|i: int, y: Seq<char>|
        #![trigger md.take(i), heading_or_end(y)]
        0 <= i <= md.len() && md == md.take(i) + title + bullets(items, mark) + y && heading_or_end(y)
}

proof fn lemma_section_heading(title: Seq<char>, items: Seq<Seq<char>>, mark: Seq<char>, rest: Seq<char>)
    requires
        starts_with(title, "\n## "@),
        heading_or_end(rest),
    ensures
        heading_or_end(section(title, items, mark) + rest),
{
    reveal_strlit("\n## ");
    let sec = section(title, items, mark);
    if items.len() == 0 {
        assert(sec + rest =~= rest);
    } else {
        assert(title.len() >= 4);
        assert(sec == title + bullets(items, mark));
        assert((sec + rest).take(4) =~= title.take(4));
    }
}

proof fn lemma_lists_under(pre: Seq<char>, title: Seq<char>, items: Seq<Seq<char>>, mark: Seq<char>, rest: Seq<char>)
    requires
        items.len() > 0,
        heading_or_end(rest),
    ensures
        lists_under(pre + section(title, items, mark) + rest, title, items, mark),
{
    let md = pre + section(title, items, mark) + rest;
    assert(md =~= md.take(pre.len() as int) + title + bullets(items, mark) + rest);
}

proof fn lemma_headings()
    ensures
        starts_with("\n## Decisions\n\n"@, "\n## "@),
        starts_with("\n## Action Items\n\n"@, "\n## "@),
        starts_with("\n## Open Questions\n\n"@, "\n## "@),
        starts_with("\n## Commitments\n\n"@, "\n## "@),
{
    reveal_strlit("\n## Decisions\n\n");
    reveal_strlit("\n## Action Items\n\n");
    reveal_strlit("\n## Open Questions\n\n");
    reveal_strlit("\n## Commitments\n\n");
    reveal_strlit("\n## ");
    assert("\n## Decisions\n\n"@.take(4) =~= "\n## "@);
    assert("\n## Action Items\n\n"@.take(4) =~= "\n## "@);
    assert("\n## Open Questions\n\n"@.take(4) =~= "\n## "@);
    assert("\n## Commitments\n\n"@.take(4) =~= "\n## "@);
}

/// Each section of a summary's markdown lists exactly its own items, under
/// its own heading, up to the next heading or the end: decisions as checked
/// boxes, action items as open boxes, open questions and commitments as
/// bullets.
pub proof fn law_summary_sections(s: Summary)
    ensures
        strs(s.decisions@).len() > 0 ==> lists_under(formatted(s), "\n## Decisions\n\n"@, strs(s.decisions@), "- [x] "@),
        strs(s.action_items@).len() > 0 ==> lists_under(
            formatted(s),
            "\n## Action Items\n\n"@,
            strs(s.action_items@),
            "- [ ] "@,
        ),
        strs(s.open_questions@).len() > 0 ==> lists_under(
            formatted(s),
            "\n## Open Questions\n\n"@,
            strs(s.open_questions@),
            "- "@,
        ),
        strs(s.commitments@).len() > 0 ==> lists_under(formatted(s), "\n## Commitments\n\n"@, strs(s.commitments@), "- "@),
{
    let head = if strs(s.key_points@).len() > 0 {
        bullets(strs(s.key_points@), "- "@)
    } else if s.text@.len() > 0 {
        s.text@ + seq!['\n']
    } else {
        seq![]
    };
    let td = "\n## Decisions\n\n"@;
    let ta = "\n## Action Items\n\n"@;
    let tq = "\n## Open Questions\n\n"@;
    let tc = "\n## Commitments\n\n"@;
    let d = section(td, strs(s.decisions@), "- [x] "@);
    let a = section(ta, strs(s.action_items@), "- [ ] "@);
    let q = section(tq, strs(s.open_questions@), "- "@);
    let c = section(tc, strs(s.commitments@), "- "@);
    lemma_headings();
    let e = Seq::<char>::empty();
    lemma_section_heading(tc, strs(s.commitments@), "- "@, e);
    assert(c + e =~= c);
    lemma_section_heading(tq, strs(s.open_questions@), "- "@, c);
    lemma_section_heading(ta, strs(s.action_items@), "- [ ] "@, q + c);
    assert(a + (q + c) =~= a + q + c);
    let md = formatted(s);
    assert(md == head + d + a + q + c);
    if strs(s.decisions@).len() > 0 {
        assert(md =~= head + d + (a + q + c));
        lemma_lists_under(head, td, strs(s.decisions@), "- [x] "@, a + q + c);
    }
    if strs(s.action_items@).len() > 0 {
        assert(md =~= (head + d) + a + (q + c));
        lemma_lists_under(head + d, ta, strs(s.action_items@), "- [ ] "@, q + c);
    }
    if strs(s.open_questions@).len() > 0 {
        assert(md =~= (head + d + a) + q + c);
        lemma_lists_under(head + d + a, tq, strs(s.open_questions@), "- "@, c);
    }
    if strs(s.commitments@).len() > 0 {
        assert(md =~= (head + d + a + q) + c + e);
        lemma_lists_under(head + d + a + q, tc, strs(s.commitments@), "- "@, e);
    }
}

fn push_bullets(out: &mut Vec<char>, items: &[String], mark: &str)
    ensures
        final(out)@ == old(out)@ + bullets(strs(items@), mark@),
{
    let m = lit(mark);
    let mut i: usize = 0;
    while i < items.len()
        invariant
            i <= items@.len(),
            m@ == mark@,
            out@ == old(out)@ + bullets(strs(items@.take(i as int)), mark@),
        decreases items.len() - i,
    {
        assert(strs(items@.take(i + 1)).drop_last() =~= strs(items@.take(i as int)));
        assert(strs(items@.take(i + 1)).last() == items@[i as int]@);
        push_all(out, &m);
        let item = chars_of(items[i].as_str());
        push_all(out, &item);
        out.push('\n');
        i += 1;
        assert(out@ =~= old(out)@ + bullets(strs(items@.take(i as int)), mark@));
    }
    assert(items@.take(items@.len() as int) =~= items@);
}

fn push_section(out: &mut Vec<char>, title: &str, items: &[String], mark: &str)
    ensures
        final(out)@ == old(out)@ + section(title@, strs(items@), mark@),
{
    if items.len() > 0 {
        let t = lit(title);
        push_all(out, &t);
        push_bullets(out, items, mark);
    }
}

/// Renders a summary as markdown sections.
pub fn format_summary(summary: &Summary) -> (r: String)
    ensures
        r@ == formatted(*summary),
{
    let mut out: Vec<char> = Vec::new();
    if summary.key_points.len() > 0 {
        push_bullets(&mut out, &summary.key_points, "- ");
    } else if summary.text.as_str().unicode_len() > 0 {
        let t = chars_of(summary.text.as_str());
        push_all(&mut out, &t);
        out.push('\n');
    }
    push_section(&mut out, "\n## Decisions\n\n", &summary.decisions, "- [x] ");
    push_section(&mut out, "\n## Action Items\n\n", &summary.action_items, "- [ ] ");
    push_section(&mut out, "\n## Open Questions\n\n", &summary.open_questions, "- ");
    push_section(&mut out, "\n## Commitments\n\n", &summary.commitments, "- ");
    assert(out@ =~= formatted(*summary));
    string_from(&out)
}

// ---------------------------------------------------------------------------
// Chunking a transcript for the model's context
// ---------------------------------------------------------------------------

/// The chunks completed, and the chunk being filled, after the lines `ls`:
/// a line that would push a non-empty chunk past `max` bytes starts a new one.
pub open spec fn chunk_lines(ls: Seq<Seq<char>>, max: nat) -> (Seq<Seq<char>>, Seq<char>)
    decreases ls.len(),
{
    if ls.len() == 0 {
        (seq![], seq![])
    } else {
        let prev = chunk_lines(ls.drop_last(), max);
        let line = ls.last();
        if byte_len(prev.1) + byte_len(line) > max && prev.1.len() > 0 {
            (prev.0.push(prev.1), line + seq!['\n'])
        } else {
            (prev.0, prev.1 + line + seq!['\n'])
        }
    }
}

/// The transcript whole when it fits in `chunk_max_tokens * 4` bytes (about
/// four bytes a token); otherwise chunks of whole lines, each line ended by
/// a newline.
pub open spec fn prompt_chunks(t: Seq<char>, chunk_max_tokens: nat) -> Seq<Seq<char>> {
    let max = chunk_max_tokens * 4;
    if byte_len(t) <= max {
        seq![t]
    } else {
        let (ch, cur) = chunk_lines(lines_of(t), max);
        if cur.len() > 0 {
            ch.push(cur)
        } else {
            ch
        }
    }
}

/// Whether chunk `c` opens with line `l` (a line holds no line feed).
pub open spec fn opens_with_line(c: Seq<char>, l: Seq<char>) -> bool {
    (forall|m: int| 0 <= m < l.len() ==> l[m] != '\n') && starts_with(c, l + seq!['\n'])
}

/// Whether chunk `next` opens with a line that would have taken chunk
/// `prev` past `max` bytes.
pub open spec fn full_before(prev: Seq<char>, next: Seq<char>, max: nat) -> bool {
    exists|l: Seq<char>| #[trigger] opens_with_line(next, l) && byte_len(prev) + byte_len(l) > max
}

proof fn lemma_opens_extends(c: Seq<char>, l: Seq<char>, z: Seq<char>)
    requires
        opens_with_line(c, l),
    ensures
        opens_with_line(c + z, l),
{
    assert((c + z).take((l + seq!['\n']).len() as int) =~= c.take((l + seq!['\n']).len() as int));
}

proof fn lemma_chunk_lines_full(ls: Seq<Seq<char>>, max: nat)
    requires
        forall|k: int, m: int| 0 <= k < ls.len() && 0 <= m < ls[k].len() ==> #[trigger] ls[k][m] != '\n',
    ensures
        ({
            let (ch, cur) = chunk_lines(ls, max);
            &&& forall|k: int| 0 <= k < ch.len() - 1 ==> #[trigger] full_before(ch[k], ch[k + 1], max)
            &&& ch.len() > 0 ==> cur.len() > 0 && full_before(ch.last(), cur, max)
            &&& cur.len() > 0 ==> exists|l: Seq<char>| #[trigger] opens_with_line(cur, l)
        }),
    decreases ls.len(),
{
    if ls.len() > 0 {
        let p = ls.drop_last();
        assert forall|k: int, m: int| 0 <= k < p.len() && 0 <= m < p[k].len() implies #[trigger] p[k][m] != '\n' by {
            assert(p[k] == ls[k]);
        }
        lemma_chunk_lines_full(p, max);
        let (ch, cur) = chunk_lines(p, max);
        let line = ls.last();
        assert forall|m: int| 0 <= m < line.len() implies line[m] != '\n' by {
            assert(ls[ls.len() - 1][m] != '\n');
        }
        assert(opens_with_line(line + seq!['\n'], line)) by {
            assert((line + seq!['\n']).take((line + seq!['\n']).len() as int) =~= line + seq!['\n']);
        }
        if byte_len(cur) + byte_len(line) > max && cur.len() > 0 {
            let ch2 = ch.push(cur);
            assert(full_before(cur, line + seq!['\n'], max));
            assert forall|k: int| 0 <= k < ch2.len() - 1 implies #[trigger] full_before(ch2[k], ch2[k + 1], max) by {
                if k < ch.len() - 1 {
                    assert(ch2[k] == ch[k] && ch2[k + 1] == ch[k + 1]);
                } else {
                    assert(ch2[k] == ch.last() && ch2[k + 1] == cur);
                }
            }
        } else {
            let cur2 = cur + line + seq!['\n'];
            if cur.len() > 0 {
                let l = choose|l: Seq<char>| #[trigger] opens_with_line(cur, l);
                lemma_opens_extends(cur, l, line + seq!['\n']);
                assert(cur + (line + seq!['\n']) =~= cur2);
                if ch.len() > 0 {
                    let l2 = choose|l2: Seq<char>| #[trigger] opens_with_line(cur, l2) && byte_len(ch.last()) + byte_len(l2) > max;
                    lemma_opens_extends(cur, l2, line + seq!['\n']);
                    assert(full_before(ch.last(), cur2, max));
                }
            } else {
                assert(cur2 =~= line + seq!['\n']);
            }
        }
    }
}

/// Chunks are as full as they can be: each chunk after the first opens
/// with a line that would have taken the chunk before it past the budget of
/// `chunk_max_tokens * 4` bytes.
pub proof fn law_chunks_are_full(t: Seq<char>, chunk_max_tokens: nat)
    ensures
        forall|k: int|
            0 <= k < prompt_chunks(t, chunk_max_tokens).len() - 1 ==> #[trigger] full_before(
                prompt_chunks(t, chunk_max_tokens)[k],
                prompt_chunks(t, chunk_max_tokens)[k + 1],
                chunk_max_tokens * 4,
            ),
{
    let max = chunk_max_tokens * 4;
    if byte_len(t) > max {
        lemma_lines_have_no_newline(t);
        lemma_chunk_lines_full(lines_of(t), max);
        let (ch, cur) = chunk_lines(lines_of(t), max);
        let all = prompt_chunks(t, chunk_max_tokens);
        if cur.len() > 0 {
            assert(all == ch.push(cur));
            assert forall|k: int| 0 <= k < all.len() - 1 implies #[trigger] full_before(all[k], all[k + 1], max) by {
                if k < ch.len() - 1 {
                    assert(all[k] == ch[k] && all[k + 1] == ch[k + 1]);
                } else {
                    assert(all[k] == ch.last() && all[k + 1] == cur);
                }
            }
        } else {
            assert(ch.len() == 0);
        }
    }
}

/// Splits a transcript into chunks that fit the model's context.
pub fn build_prompt(transcript: &str, chunk_max_tokens: usize) -> (r: Vec<String>)
    requires
        chunk_max_tokens <= usize::MAX / 4,
    ensures
        strs(r@) == prompt_chunks(transcript@, chunk_max_tokens as nat),
{
    let max = chunk_max_tokens * 4;
    let t = chars_of(transcript);
    let tb = byte_len_of(&t);
    if tb <= max as u128 {
        let r = vec![string_from(&t)];
        assert(strs(r@) =~= seq![transcript@]);
        return r;
    }
    let ls = lines_vec(&t);
    let ghost lv = views(ls@);
    let mut chunks: Vec<Vec<char>> = Vec::new();
    let mut current: Vec<char> = Vec::new();
    let mut i: usize = 0;
    while i < ls.len()
        invariant
            i <= ls@.len(),
            lv == views(ls@),
            chunk_lines(lv.take(i as int), max as nat) == (views(chunks@), current@),
        decreases ls.len() - i,
    {
        assert(lv.take(i + 1).drop_last() =~= lv.take(i as int));
        assert(lv.take(i + 1).last() == ls@[i as int]@);
        let cb = byte_len_of(&current);
        let lb = byte_len_of(&ls[i]);
        let nc = current.len();
        let nl = ls[i].len();
        assert(cb <= 4 * (nc as u128) && lb <= 4 * (nl as u128));
        if cb + lb > max as u128 && current.len() > 0 {
            let ghost prev = views(chunks@);
            chunks.push(current);
            assert(views(chunks@) =~= prev.push(chunks@.last()@));
            current = Vec::new();
        }
        push_all(&mut current, &ls[i]);
        current.push('\n');
        i += 1;
    }
    assert(lv.take(ls@.len() as int) =~= lv);
    if current.len() > 0 {
        let ghost prev = views(chunks@);
        chunks.push(current);
        assert(views(chunks@) =~= prev.push(chunks@.last()@));
    }
    to_strings(&chunks)
}


// ---------------------------------------------------------------------------
// Parsing an LLM reply
// ---------------------------------------------------------------------------

/// The section a reply line belongs to.
#[derive(Clone, Copy, PartialEq, Eq, Structural)]
pub enum Section {
    Outside,
    KeyPoints,
    Decisions,
    ActionItems,
    OpenQuestions,
    Commitments,
    Participants,
}

/// Items collected so far, and the current section.
#[verifier::ext_equal]
pub struct Sections {
    pub section: Section,
    pub key_points: Seq<Seq<char>>,
    pub decisions: Seq<Seq<char>>,
    pub action_items: Seq<Seq<char>>,
    pub open_questions: Seq<Seq<char>>,
    pub commitments: Seq<Seq<char>>,
    pub participants: Seq<Seq<char>>,
}

/// The section a (trimmed) header line opens.
pub open spec fn header_of(t: Seq<char>) -> Option<Section> {
    if starts_with(t, "KEY POINTS:"@) {
        Some(Section::KeyPoints)
    } else if starts_with(t, "DECISIONS:"@) {
        Some(Section::Decisions)
    } else if starts_with(t, "ACTION ITEMS:"@) {
        Some(Section::ActionItems)
    } else if starts_with(t, "OPEN QUESTIONS:"@) {
        Some(Section::OpenQuestions)
    } else if starts_with(t, "COMMITMENTS:"@) {
        Some(Section::Commitments)
    } else if starts_with(t, "PARTICIPANTS:"@) {
        Some(Section::Participants)
    } else {
        None
    }
}

pub open spec fn add_item(st: Sections, item: Seq<char>) -> Sections {
    match st.section {
        Section::KeyPoints => Sections { key_points: st.key_points.push(item), ..st },
        Section::Decisions => Sections { decisions: st.decisions.push(item), ..st },
        Section::ActionItems => Sections { action_items: st.action_items.push(item), ..st },
        Section::OpenQuestions => Sections { open_questions: st.open_questions.push(item), ..st },
        Section::Commitments => Sections { commitments: st.commitments.push(item), ..st },
        Section::Participants => Sections { participants: st.participants.push(item), ..st },
        Section::Outside => st,
    }
}

/// One reply line: a header switches section; a `- ` bullet adds its text to
/// the current section; anything else is skipped.
pub open spec fn parse_step(st: Sections, line: Seq<char>) -> Sections {
    let t = trim(line);
    match header_of(t) {
        Some(sec) => Sections { section: sec, ..st },
        None => if starts_with(t, "- "@) {
            add_item(st, t.skip(2))
        } else {
            st
        },
    }
}

pub open spec fn parse_lines(ls: Seq<Seq<char>>) -> Sections
    decreases ls.len(),
{
    if ls.len() == 0 {
        Sections {
            section: Section::Outside,
            key_points: seq![],
            decisions: seq![],
            action_items: seq![],
            open_questions: seq![],
            commitments: seq![],
            participants: seq![],
        }
    } else {
        parse_step(parse_lines(ls.drop_last()), ls.last())
    }
}

/// A participant entry without its role: `Dan (patent attorney)` is `Dan`.
pub open spec fn participant_name(p: Seq<char>) -> Seq<char> {
    match find(p, " ("@) {
        Some(i) => trim(p.take(i)),
        None => trim(p),
    }
}

/// The non-empty names of the participant entries.
pub open spec fn participant_names(raw: Seq<Seq<char>>) -> Seq<Seq<char>>
    decreases raw.len(),
{
    if raw.len() == 0 {
        seq![]
    } else {
        let r = participant_names(raw.drop_last());
        let n = participant_name(raw.last());
        if n.len() > 0 {
            r.push(n)
        } else {
            r
        }
    }
}

/// Whether `s` holds exactly the sections parsed from `response`, and the
/// whole response as text when it has no key points.
pub open spec fn parsed_from(s: Summary, response: Seq<char>) -> bool {
    let st = parse_lines(lines_of(response));
    &&& strs(s.key_points@) == st.key_points
    &&& strs(s.decisions@) == st.decisions
    &&& strs(s.action_items@) == st.action_items
    &&& strs(s.open_questions@) == st.open_questions
    &&& strs(s.commitments@) == st.commitments
    &&& strs(s.participants@) == participant_names(st.participants)
    &&& s.text@ == if st.key_points.len() == 0 {
        response
    } else {
        seq![]
    }
}

fn header_exec(t: &[char]) -> (r: Option<Section>)
    ensures
        r == header_of(t@),
{
    if starts_with_chars(t, &lit("KEY POINTS:")) {
        Some(Section::KeyPoints)
    } else if starts_with_chars(t, &lit("DECISIONS:")) {
        Some(Section::Decisions)
    } else if starts_with_chars(t, &lit("ACTION ITEMS:")) {
        Some(Section::ActionItems)
    } else if starts_with_chars(t, &lit("OPEN QUESTIONS:")) {
        Some(Section::OpenQuestions)
    } else if starts_with_chars(t, &lit("COMMITMENTS:")) {
        Some(Section::Commitments)
    } else if starts_with_chars(t, &lit("PARTICIPANTS:")) {
        Some(Section::Participants)
    } else {
        None
    }
}

fn participant_name_exec(p: &[char]) -> (r: Vec<char>)
    ensures
        r@ == participant_name(p@),
{
    match find_chars(p, &lit(" (")) {
        Some(i) => {
            let head = copy_range(p, 0, i);
            assert(head@ =~= p@.take(i as int));
            trim_ws(&head)
        },
        None => trim_ws(p),
    }
}

/// Splits an LLM reply into its sections (`KEY POINTS:`, `DECISIONS:`,
/// `ACTION ITEMS:`, `OPEN QUESTIONS:`, `COMMITMENTS:`, `PARTICIPANTS:`),
/// taking `- ` bullets; participants lose their parenthesised roles.  A reply
/// without key points is kept whole as free text.
pub fn parse_summary_response(response: &str) -> (r: Summary)
    ensures
        parsed_from(r, response@),
{
    let t = chars_of(response);
    let ls = lines_vec(&t);
    let ghost lv = views(ls@);
    let mut section = Section::Outside;
    let mut kp: Vec<Vec<char>> = Vec::new();
    let mut dc: Vec<Vec<char>> = Vec::new();
    let mut ai: Vec<Vec<char>> = Vec::new();
    let mut oq: Vec<Vec<char>> = Vec::new();
    let mut cm: Vec<Vec<char>> = Vec::new();
    let mut pr: Vec<Vec<char>> = Vec::new();
    let mut i: usize = 0;
    assert(lv.take(0) =~= Seq::<Seq<char>>::empty());
    assert(parse_lines(lv.take(0)) =~= (Sections {
        section: section,
        key_points: views(kp@),
        decisions: views(dc@),
        action_items: views(ai@),
        open_questions: views(oq@),
        commitments: views(cm@),
        participants: views(pr@),
    }));
    while i < ls.len()
        invariant
            i <= ls@.len(),
            lv == views(ls@),
            parse_lines(lv.take(i as int)) == (Sections {
                section: section,
                key_points: views(kp@),
                decisions: views(dc@),
                action_items: views(ai@),
                open_questions: views(oq@),
                commitments: views(cm@),
                participants: views(pr@),
            }),
        decreases ls.len() - i,
    {
        assert(lv.take(i + 1).drop_last() =~= lv.take(i as int));
        assert(lv.take(i + 1).last() == ls@[i as int]@);
        let trimmed = trim_ws(&ls[i]);
        match header_exec(&trimmed) {
            Some(sec) => {
                section = sec;
            },
            None => {
                if starts_with_chars(&trimmed, &lit("- ")) {
                    proof {
                        reveal_strlit("- ");
                    }
                    let item = copy_range(&trimmed, 2, trimmed.len());
                    assert(item@ =~= trimmed@.skip(2));
                    match section {
                        Section::KeyPoints => {
                            kp.push(item);
                            assert(views(kp@) =~= views(kp@).drop_last().push(trimmed@.skip(2)));
                        },
                        Section::Decisions => {
                            dc.push(item);
                            assert(views(dc@) =~= views(dc@).drop_last().push(trimmed@.skip(2)));
                        },
                        Section::ActionItems => {
                            ai.push(item);
                            assert(views(ai@) =~= views(ai@).drop_last().push(trimmed@.skip(2)));
                        },
                        Section::OpenQuestions => {
                            oq.push(item);
                            assert(views(oq@) =~= views(oq@).drop_last().push(trimmed@.skip(2)));
                        },
                        Section::Commitments => {
                            cm.push(item);
                            assert(views(cm@) =~= views(cm@).drop_last().push(trimmed@.skip(2)));
                        },
                        Section::Participants => {
                            pr.push(item);
                            assert(views(pr@) =~= views(pr@).drop_last().push(trimmed@.skip(2)));
                        },
                        Section::Outside => {},
                    }
                }
            },
        }
        assert(parse_lines(lv.take(i + 1)) =~= (Sections {
            section: section,
            key_points: views(kp@),
            decisions: views(dc@),
            action_items: views(ai@),
            open_questions: views(oq@),
            commitments: views(cm@),
            participants: views(pr@),
        }));
        i += 1;
    }
    assert(lv.take(ls@.len() as int) =~= lv);
    // Participants without their roles.
    let mut names: Vec<Vec<char>> = Vec::new();
    let mut j: usize = 0;
    while j < pr.len()
        invariant
            j <= pr@.len(),
            views(names@) == participant_names(views(pr@).take(j as int)),
        decreases pr.len() - j,
    {
        assert(views(pr@).take(j + 1).drop_last() =~= views(pr@).take(j as int));
        assert(views(pr@).take(j + 1).last() == pr@[j as int]@);
        let n = participant_name_exec(&pr[j]);
        if n.len() > 0 {
            let ghost prev = views(names@);
            names.push(n);
            assert(views(names@) =~= prev.push(names@.last()@));
        }
        j += 1;
    }
    assert(views(pr@).take(pr@.len() as int) =~= views(pr@));
    let text = if kp.len() == 0 {
        string_from(&t)
    } else {
        String::new()
    };
    Summary {
        text,
        decisions: to_strings(&dc),
        action_items: to_strings(&ai),
        open_questions: to_strings(&oq),
        commitments: to_strings(&cm),
        key_points: to_strings(&kp),
        participants: to_strings(&names),
    }
}


// ---------------------------------------------------------------------------
// Running a summarization engine
// ---------------------------------------------------------------------------

/// The instructions given to every engine.
pub const SYSTEM_PROMPT: &'static str = "You are a meeting summarizer. Given a transcript, extract:
1. Key points (3-5 bullet points summarizing what was discussed)
2. Decisions (any decisions that were made)
3. Action items (tasks assigned to specific people, with deadlines if mentioned)
4. Open questions (unresolved questions or unknowns that still need follow-up)
5. Commitments (explicit promises, commitments, or owner statements made by someone)
6. Participants (names of people present or mentioned in the conversation)

Respond in this exact format:

KEY POINTS:
- point 1
- point 2

DECISIONS:
- decision 1

ACTION ITEMS:
- @person: task description (by deadline if mentioned)

OPEN QUESTIONS:
- question 1

COMMITMENTS:
- @person: commitment description (by deadline if mentioned)

PARTICIPANTS:
- Name (role if mentioned)";

/// The engines that can summarize.
#[derive(Clone, Copy, PartialEq, Eq, Structural, Debug)]
pub enum SummaryEngine {
    Agent,
    Anthropic,
    OpenAi,
    Mistral,
    Ollama,
}

/// The engine a configured name selects; "none" and unknown names select none.
pub open spec fn engine_of(name: Seq<char>) -> Option<SummaryEngine> {
    if name == "agent"@ {
        Some(SummaryEngine::Agent)
    } else if name == "anthropic"@ {
        Some(SummaryEngine::Anthropic)
    } else if name == "openai"@ {
        Some(SummaryEngine::OpenAi)
    } else if name == "mistral"@ {
        Some(SummaryEngine::Mistral)
    } else if name == "ollama"@ {
        Some(SummaryEngine::Ollama)
    } else {
        None
    }
}

pub fn summary_engine(name: &str) -> (r: Option<SummaryEngine>)
    ensures
        r == engine_of(name@),
{
    let n = chars_of(name);
    if chars_eq(&n, &lit("agent")) {
        Some(SummaryEngine::Agent)
    } else if chars_eq(&n, &lit("anthropic")) {
        Some(SummaryEngine::Anthropic)
    } else if chars_eq(&n, &lit("openai")) {
        Some(SummaryEngine::OpenAi)
    } else if chars_eq(&n, &lit("mistral")) {
        Some(SummaryEngine::Mistral)
    } else if chars_eq(&n, &lit("ollama")) {
        Some(SummaryEngine::Ollama)
    } else {
        None
    }
}

/// A request to an engine.
pub enum LlmRequest {
    /// A complete prompt for an agent CLI, sent on its standard input.
    Prompt(String),
    /// Summarize chunk `index` of `total`, with the screenshot files
    /// `screens` (those of the recording for the first chunk, none after).
    Chunk { engine: SummaryEngine, index: usize, total: usize, text: String, screens: Vec<String> },
    /// Combine partial summaries (separated by `---`) into one.
    Combine { engine: SummaryEngine, summaries: String },
    /// Map anonymous speaker labels to attendees' names.
    Mapping { engine: SummaryEngine, prompt: String },
}

/// A request as text.
pub enum RequestModel {
    Prompt(Seq<char>),
    Chunk {
        engine: SummaryEngine,
        index: nat,
        total: nat,
        text: Seq<char>,
        screens: Seq<Seq<char>>,
    },
    Combine { engine: SummaryEngine, summaries: Seq<char> },
    Mapping { engine: SummaryEngine, prompt: Seq<char> },
}

pub open spec fn request_view(q: LlmRequest) -> RequestModel {
    match q {
        LlmRequest::Prompt(p) => RequestModel::Prompt(p@),
        LlmRequest::Chunk { engine, index, total, text, screens } => RequestModel::Chunk {
            engine,
            index: index as nat,
            total: total as nat,
            text: text@,
            screens: strs(screens@),
        },
        LlmRequest::Combine { engine, summaries } => RequestModel::Combine {
            engine,
            summaries: summaries@,
        },
        LlmRequest::Mapping { engine, prompt } => RequestModel::Mapping { engine, prompt: prompt@ },
    }
}

/// Whether `ask`, given request `q`, may have answered `reply`.
pub open spec fn asked<F: Fn(LlmRequest) -> Result<String, String>>(
    ask: F,
    q: RequestModel,
    reply: Seq<char>,
) -> bool {
    exists|req: LlmRequest, out: String|
        request_view(req) == q && out@ == reply && #[trigger] call_ensures(
            ask,
            (req,),
            Ok::<String, String>(out),
        )
}

/// Whether `ask`, given request `q`, may have failed.
pub open spec fn ask_failed<F: Fn(LlmRequest) -> Result<String, String>>(ask: F, q: RequestModel) -> bool {
    exists|req: LlmRequest, e: String|
        request_view(req) == q && #[trigger] call_ensures(ask, (req,), Err::<String, String>(e))
}

/// Whether `ask`, given request `q`, may have failed with message `m`.
pub open spec fn ask_failed_with<F: Fn(LlmRequest) -> Result<String, String>>(
    ask: F,
    q: RequestModel,
    m: Seq<char>,
) -> bool {
    exists|req: LlmRequest, e: String|
        request_view(req) == q && e@ == m && #[trigger] call_ensures(ask, (req,), Err::<String, String>(e))
}

/// The arguments an agent CLI is started with so that it reads its prompt on
/// standard input: `codex` (by name or path) runs `exec - -s read-only`;
/// other commands get none.
pub open spec fn agent_args_for(cmd: Seq<char>) -> Seq<Seq<char>> {
    if cmd == "codex"@ || ends_with(cmd, "/codex"@) {
        seq!["exec"@, "-"@, "-s"@, "read-only"@]
    } else {
        seq![]
    }
}

pub fn agent_args(cmd: &str) -> (r: Vec<String>)
    ensures
        strs(r@) == agent_args_for(cmd@),
{
    let c = chars_of(cmd);
    if chars_eq(&c, &lit("codex")) || crate::text::ends_with_chars(&c, &lit("/codex")) {
        let r = vec![
            string_from(&lit("exec")),
            string_from(&lit("-")),
            string_from(&lit("-s")),
            string_from(&lit("read-only")),
        ];
        assert(strs(r@) =~= seq!["exec"@, "-"@, "-s"@, "read-only"@]);
        r
    } else {
        let r: Vec<String> = Vec::new();
        assert(strs(r@) =~= Seq::<Seq<char>>::empty());
        r
    }
}

/// The longest prefix of `t` whose UTF-8 encoding fits in `max` bytes.
pub open spec fn fit_bytes(t: Seq<char>, max: nat) -> Seq<char>
    decreases t.len(),
{
    if t.len() == 0 || utf8_width(t[0]) > max {
        seq![]
    } else {
        seq![t[0]] + fit_bytes(t.drop_first(), (max - utf8_width(t[0])) as nat)
    }
}

/// The prompt an agent CLI receives: the instructions and at most 100,000
/// bytes of transcript, cut at a character boundary.
pub open spec fn agent_prompt(t: Seq<char>) -> Seq<char> {
    SYSTEM_PROMPT@ + "\n\nSummarize this transcript:\n\n"@ + fit_bytes(t, 100_000)
}

pub fn fit_bytes_exec(t: &[char], max: usize) -> (r: Vec<char>)
    ensures
        r@ == fit_bytes(t@, max as nat),
{
    let mut left: usize = max;
    let mut i: usize = 0;
    let mut stop = false;
    assert(t@.skip(0) =~= t@);
    while i < t.len() && !stop
        invariant
            i <= t@.len(),
            left <= max,
            fit_bytes(t@, max as nat) == t@.take(i as int) + fit_bytes(t@.skip(i as int), left as nat),
            stop ==> fit_bytes(t@.skip(i as int), left as nat).len() == 0,
        decreases t.len() - i + if stop { 0usize } else { 1usize },
    {
        let c = t[i];
        let w: usize = if (c as u32) < 0x80 {
            1
        } else if (c as u32) < 0x800 {
            2
        } else if (c as u32) < 0x10000 {
            3
        } else {
            4
        };
        assert(t@.skip(i as int)[0] == c);
        if w > left {
            stop = true;
        } else {
            assert(t@.skip(i as int).drop_first() =~= t@.skip(i + 1));
            assert(t@.take(i + 1) =~= t@.take(i as int) + seq![c]);
            left = left - w;
            i += 1;
        }
    }
    proof {
        if i == t@.len() {
            assert(t@.skip(i as int).len() == 0);
        }
    }
    let r = copy_range(t, 0, i);
    assert(r@ =~= t@.take(i as int));
    assert(r@ + fit_bytes(t@.skip(i as int), left as nat) =~= r@);
    r
}

/// The sequences one after another.
pub open spec fn concat_all(ss: Seq<Seq<char>>) -> Seq<char>
    decreases ss.len(),
{
    if ss.len() == 0 {
        seq![]
    } else {
        concat_all(ss.drop_last()) + ss.last()
    }
}

/// Each line followed by a newline.
pub open spec fn newline_ended(ls: Seq<Seq<char>>) -> Seq<Seq<char>> {
    ls.map_values(|l: Seq<char>| l + seq!['\n'])
}

proof fn lemma_chunk_lines_concat(ls: Seq<Seq<char>>, max: nat)
    ensures
        concat_all(chunk_lines(ls, max).0) + chunk_lines(ls, max).1 == concat_all(newline_ended(ls)),
    decreases ls.len(),
{
    if ls.len() == 0 {
        assert(concat_all(newline_ended(ls)) =~= Seq::<char>::empty());
        assert(Seq::<char>::empty() + Seq::<char>::empty() =~= Seq::<char>::empty());
    } else {
        lemma_chunk_lines_concat(ls.drop_last(), max);
        assert(newline_ended(ls).drop_last() =~= newline_ended(ls.drop_last()));
        let prev = chunk_lines(ls.drop_last(), max);
        let line = ls.last();
        if byte_len(prev.1) + byte_len(line) > max && prev.1.len() > 0 {
            assert(prev.0.push(prev.1).drop_last() =~= prev.0);
            assert(concat_all(prev.0.push(prev.1)) + (line + seq!['\n']) =~= concat_all(prev.0) + prev.1
                + (line + seq!['\n']));
        } else {
            assert(concat_all(prev.0) + (prev.1 + line + seq!['\n']) =~= concat_all(prev.0) + prev.1
                + (line + seq!['\n']));
        }
    }
}

/// Chunking loses and reorders nothing: the chunks of a transcript that fits
/// are the transcript; otherwise, one after another, they are its lines, each
/// followed by a newline.
pub proof fn law_chunks_keep_every_line(t: Seq<char>, chunk_max_tokens: nat)
    ensures
        concat_all(prompt_chunks(t, chunk_max_tokens)) == if byte_len(t) <= chunk_max_tokens * 4 {
            t
        } else {
            concat_all(newline_ended(lines_of(t)))
        },
{
    let max = chunk_max_tokens * 4;
    if byte_len(t) <= max {
        assert(seq![t].drop_last() =~= Seq::<Seq<char>>::empty());
        assert(Seq::<char>::empty() + t =~= t);
        assert(concat_all(seq![t]) == concat_all(Seq::<Seq<char>>::empty()) + t);
        assert(prompt_chunks(t, chunk_max_tokens) == seq![t]);
    } else {
        lemma_chunk_lines_concat(lines_of(t), max);
        let (ch, cur) = chunk_lines(lines_of(t), max);
        if cur.len() > 0 {
            assert(ch.push(cur).drop_last() =~= ch);
            assert(concat_all(ch.push(cur)) == concat_all(ch) + cur);
        } else {
            assert(concat_all(ch) + cur =~= concat_all(ch));
        }
    }
}

/// A chunk that is one line: a single line feed, at its end.
pub open spec fn one_line(c: Seq<char>) -> bool {
    c.len() > 0 && c.last() == '\n' && forall|m: int| 0 <= m < c.len() - 1 ==> c[m] != '\n'
}

/// A chunk within `max` bytes, but for the line feed that ends its last line,
/// or a single line too long for any chunk.
pub open spec fn chunk_fits(c: Seq<char>, max: nat) -> bool {
    byte_len(c) <= max + 1 || one_line(c)
}

proof fn lemma_one_line(l: Seq<char>)
    requires
        forall|m: int| 0 <= m < l.len() ==> l[m] != '\n',
    ensures
        one_line(l + seq!['\n']),
{
    let c = l + seq!['\n'];
    assert forall|m: int| 0 <= m < c.len() - 1 implies c[m] != '\n' by {
        assert(c[m] == l[m]);
    }
}

proof fn lemma_chunk_lines_fit(ls: Seq<Seq<char>>, max: nat)
    requires
        forall|k: int, m: int| 0 <= k < ls.len() && 0 <= m < ls[k].len() ==> #[trigger] ls[k][m] != '\n',
    ensures
        forall|k: int| 0 <= k < chunk_lines(ls, max).0.len() ==> chunk_fits(#[trigger] chunk_lines(ls, max).0[k], max),
        chunk_fits(chunk_lines(ls, max).1, max),
    decreases ls.len(),
{
    if ls.len() > 0 {
        let prev = chunk_lines(ls.drop_last(), max);
        assert forall|k: int, m: int|
            0 <= k < ls.drop_last().len() && 0 <= m < ls.drop_last()[k].len() implies #[trigger] ls.drop_last()[k][m]
            != '\n' by {
            assert(ls.drop_last()[k] == ls[k]);
        }
        lemma_chunk_lines_fit(ls.drop_last(), max);
        let line = ls.last();
        assert forall|m: int| 0 <= m < line.len() implies line[m] != '\n' by {
            assert(ls[ls.len() - 1][m] != '\n');
        }
        lemma_one_line(line);
        let cur = chunk_lines(ls, max).1;
        if byte_len(prev.1) + byte_len(line) > max && prev.1.len() > 0 {
            assert(cur == line + seq!['\n']);
        } else if prev.1.len() == 0 {
            assert(cur =~= line + seq!['\n']);
        } else {
            lemma_byte_len_concat(prev.1 + line, seq!['\n']);
            lemma_byte_len_concat(prev.1, line);
            assert(seq!['\n'].drop_last() =~= Seq::<char>::empty());
            assert(byte_len(Seq::<char>::empty()) == 0);
            assert(utf8_width('\n') == 1);
            assert(byte_len(seq!['\n']) == byte_len(seq!['\n'].drop_last()) + utf8_width('\n'));
            assert(byte_len(seq!['\n']) == 1);
        }
    }
}

/// Every chunk fits the budget of `chunk_max_tokens * 4` bytes, give or take
/// the line feed that ends it, unless it is a single line that alone is
/// longer.
pub proof fn law_chunks_fit_the_budget(t: Seq<char>, chunk_max_tokens: nat)
    ensures
        forall|k: int|
            0 <= k < prompt_chunks(t, chunk_max_tokens).len() ==> chunk_fits(
                #[trigger] prompt_chunks(t, chunk_max_tokens)[k],
                chunk_max_tokens * 4,
            ),
{
    let max = chunk_max_tokens * 4;
    if byte_len(t) > max {
        lemma_lines_have_no_newline(t);
        let ls = lines_of(t);
        assert forall|k: int, m: int| 0 <= k < ls.len() && 0 <= m < ls[k].len() implies #[trigger] ls[k][m]
            != '\n' by {
            assert(lines_of(t)[k][m] != '\n');
        }
        lemma_chunk_lines_fit(ls, max);
        let (ch, cur) = chunk_lines(ls, max);
        if cur.len() > 0 {
            assert forall|k: int| 0 <= k < ch.push(cur).len() implies chunk_fits(#[trigger] ch.push(cur)[k], max) by {
                if k < ch.len() {
                    assert(ch.push(cur)[k] == ch[k]);
                }
            }
        }
    }
}

/// A cut transcript is a prefix of it that fits the byte budget and is as
/// long as the budget allows: the next character would not fit.
pub proof fn law_fit_bytes_is_longest_fitting_prefix(t: Seq<char>, max: nat)
    ensures
        fit_bytes(t, max).len() <= t.len(),
        t.take(fit_bytes(t, max).len() as int) == fit_bytes(t, max),
        byte_len(fit_bytes(t, max)) <= max,
        fit_bytes(t, max).len() < t.len() ==> byte_len(fit_bytes(t, max)) + utf8_width(
            t[fit_bytes(t, max).len() as int],
        ) > max,
    decreases t.len(),
{
    if t.len() == 0 || utf8_width(t[0]) > max {
        assert(t.take(0) =~= Seq::<char>::empty());
    } else {
        let rest = t.drop_first();
        let m2 = (max - utf8_width(t[0])) as nat;
        law_fit_bytes_is_longest_fitting_prefix(rest, m2);
        let f = fit_bytes(rest, m2);
        assert(fit_bytes(t, max) == seq![t[0]] + f);
        assert(t.take(f.len() + 1 as int) =~= seq![t[0]] + rest.take(f.len() as int));
        lemma_byte_len_concat(seq![t[0]], f);
        assert(seq![t[0]].drop_last() =~= Seq::<char>::empty());
        assert(byte_len(seq![t[0]]) == byte_len(Seq::<char>::empty()) + utf8_width(t[0]));
        if f.len() < rest.len() {
            assert(t[f.len() + 1 as int] == rest[f.len() as int]);
        }
    }
}

/// The replies of chunked engines that do not combine: each reply followed
/// by a newline.
pub open spec fn concat_replies(replies: Seq<Seq<char>>) -> Seq<char>
    decreases replies.len(),
{
    if replies.len() == 0 {
        seq![]
    } else {
        concat_replies(replies.drop_last()) + replies.last() + seq!['\n']
    }
}

/// The final text from per-chunk replies of an engine that concatenates
/// (OpenAI, Ollama).
pub fn concat_chunk_replies(replies: &[String]) -> (r: String)
    ensures
        r@ == concat_replies(strs(replies@)),
{
    let mut out: Vec<char> = Vec::new();
    let mut i: usize = 0;
    while i < replies.len()
        invariant
            i <= replies@.len(),
            out@ == concat_replies(strs(replies@.take(i as int))),
        decreases replies.len() - i,
    {
        assert(strs(replies@.take(i + 1)).drop_last() =~= strs(replies@.take(i as int)));
        assert(strs(replies@.take(i + 1)).last() == replies@[i as int]@);
        let c = chars_of(replies[i].as_str());
        push_all(&mut out, &c);
        out.push('\n');
        i += 1;
    }
    assert(replies@.take(replies@.len() as int) =~= replies@);
    string_from(&out)
}

/// Partial summaries joined by `---` separators, for combining.
pub fn join_partial_summaries(parts: &[String]) -> (r: String)
    ensures
        r@ == join(strs(parts@), "\n\n---\n\n"@),
{
    let cl = char_lines(parts);
    let sep = lit("\n\n---\n\n");
    let j = crate::text::join_chars(&cl, &sep);
    string_from(&j)
}

/// The text the summary is parsed from, given the chunk replies: the
/// replies concatenated for OpenAI and Ollama; otherwise the only reply, or,
/// for several, what the engine answered when asked to combine them.
pub open spec fn final_from<F: Fn(LlmRequest) -> Result<String, String>>(
    ask: F,
    engine: SummaryEngine,
    replies: Seq<Seq<char>>,
    fin: Seq<char>,
) -> bool {
    if engine == SummaryEngine::OpenAi || engine == SummaryEngine::Ollama {
        fin == concat_replies(replies)
    } else if replies.len() > 1 {
        asked(ask, RequestModel::Combine { engine, summaries: join(replies, "\n\n---\n\n"@) }, fin)
    } else if replies.len() == 1 {
        fin == replies[0]
    } else {
        fin == Seq::<char>::empty()
    }
}

/// Whether chunk `i` of `chunks` was asked of `engine`, with screenshots
/// with the screenshots `screens` when it is the first, and answered `reply`.
pub open spec fn chunk_asked<F: Fn(LlmRequest) -> Result<String, String>>(
    ask: F,
    engine: SummaryEngine,
    chunks: Seq<Seq<char>>,
    screens: Seq<Seq<char>>,
    i: int,
    reply: Seq<char>,
) -> bool {
    asked(
        ask,
        RequestModel::Chunk {
            engine,
            index: i as nat,
            total: chunks.len(),
            text: chunks[i],
            screens: if i == 0 {
                screens
            } else {
                Seq::<Seq<char>>::empty()
            },
        },
        reply,
    )
}

/// The request for chunk `i` of `chunks`, with the screenshots `screens`
/// when it is the first.
pub open spec fn chunk_request(
    engine: SummaryEngine,
    chunks: Seq<Seq<char>>,
    screens: Seq<Seq<char>>,
    i: int,
) -> RequestModel {
    RequestModel::Chunk {
        engine,
        index: i as nat,
        total: chunks.len(),
        text: chunks[i],
        screens: if i == 0 {
            screens
        } else {
            Seq::<Seq<char>>::empty()
        },
    }
}

/// Whether the engine combines several chunk summaries by asking again.
pub open spec fn combines(engine: SummaryEngine) -> bool {
    engine == SummaryEngine::Anthropic || engine == SummaryEngine::Mistral
}

/// Why no summary may come of `transcript`: the configured engine is off or
/// unknown; or an agent's request failed or it answered only blanks; or an
/// API engine's request for some chunk failed; or, all chunks answered, the
/// request to combine their summaries failed.
pub open spec fn no_summary<F: Fn(LlmRequest) -> Result<String, String>>(
    ask: F,
    transcript: Seq<char>,
    screens: Seq<Seq<char>>,
    engine_name: Seq<char>,
    chunk_max_tokens: nat,
) -> bool {
    match engine_of(engine_name) {
        None => true,
        Some(SummaryEngine::Agent) => ask_failed(ask, RequestModel::Prompt(agent_prompt(transcript)))
            || exists|reply: Seq<char>|
            #[trigger] asked(ask, RequestModel::Prompt(agent_prompt(transcript)), reply) && trim(
                reply,
            ).len() == 0,
        Some(e) => {
            let chunks = prompt_chunks(transcript, chunk_max_tokens);
            (exists|i: int|
                0 <= i < chunks.len() && #[trigger] ask_failed(ask, chunk_request(e, chunks, screens, i)))
                || (combines(e) && chunks.len() > 1 && exists|replies: Seq<Seq<char>>|
                replies.len() == chunks.len() && (forall|i: int|
                    0 <= i < chunks.len() ==> #[trigger] chunk_asked(ask, e, chunks, screens, i, replies[i]))
                    && #[trigger] ask_failed(
                    ask,
                    RequestModel::Combine { engine: e, summaries: join(replies, "\n\n---\n\n"@) },
                ))
        },
    }
}

/// Whether `s` is what `ask`'s answers make of `transcript` under the
/// configured engine: an agent's non-blank reply to [`agent_prompt`], parsed;
/// or, for an API engine, the text [`final_from`] the replies to each of the
/// transcript's [`prompt_chunks`], parsed.
pub open spec fn summarized_by<F: Fn(LlmRequest) -> Result<String, String>>(
    ask: F,
    transcript: Seq<char>,
    screens: Seq<Seq<char>>,
    engine_name: Seq<char>,
    chunk_max_tokens: nat,
    s: Summary,
) -> bool {
    match engine_of(engine_name) {
        None => false,
        Some(SummaryEngine::Agent) => exists|reply: Seq<char>|
            #[trigger] asked(ask, RequestModel::Prompt(agent_prompt(transcript)), reply) && trim(
                reply,
            ).len() > 0 && parsed_from(s, reply),
        Some(e) => {
            let chunks = prompt_chunks(transcript, chunk_max_tokens);
            exists|replies: Seq<Seq<char>>, fin: Seq<char>|
                #![trigger final_from(ask, e, replies, fin)]
                replies.len() == chunks.len() && (forall|i: int|
                    0 <= i < chunks.len() ==> #[trigger] chunk_asked(
                        ask,
                        e,
                        chunks,
                        screens,
                        i,
                        replies[i],
                    )) && final_from(ask, e, replies, fin) && parsed_from(s, fin)
        },
    }
}

/// Summarizes a transcript with the agent CLI `agent_cmd`, `ask` running it:
/// the agent gets [`agent_prompt`] (the instructions and at most 100,000
/// bytes of transcript, cut at a character boundary) on its standard input.
/// A failed run is an error with the run's message; output that is blank is
/// an error naming the agent; any other output is parsed into sections.
pub fn summarize_with_agent<F>(transcript: &str, agent_cmd: &str, ask: F) -> (r: Result<Summary, String>) where
    F: Fn(LlmRequest) -> Result<String, String>,

    requires
        forall|q: LlmRequest| call_requires(ask, (q,)),
    ensures
        r matches Ok(s) ==> exists|reply: Seq<char>|
            #[trigger] asked(ask, RequestModel::Prompt(agent_prompt(transcript@)), reply) && trim(reply).len() > 0
                && parsed_from(s, reply),
        r matches Err(m) ==> ask_failed_with(ask, RequestModel::Prompt(agent_prompt(transcript@)), m@) || exists|
            reply: Seq<char>,
        |
            #[trigger] asked(ask, RequestModel::Prompt(agent_prompt(transcript@)), reply) && trim(reply).len() == 0
                && m@ == "Agent '"@ + agent_cmd@ + "' returned empty output"@,
{
    let t = chars_of(transcript);
    let cut = fit_bytes_exec(&t, 100_000);
    let mut prompt = lit(SYSTEM_PROMPT);
    push_all(&mut prompt, &lit("\n\nSummarize this transcript:\n\n"));
    push_all(&mut prompt, &cut);
    let req = LlmRequest::Prompt(string_from(&prompt));
    let ghost gq = req;
    assert(request_view(gq) == RequestModel::Prompt(agent_prompt(transcript@)));
    match ask(req) {
        Err(e) => {
            assert(call_ensures(ask, (gq,), Err::<String, String>(e)));
            Err(e)
        },
        Ok(out) => {
            assert(call_ensures(ask, (gq,), Ok::<String, String>(out)));
            assert(asked(ask, RequestModel::Prompt(agent_prompt(transcript@)), out@));
            let tr = trim_ws(&chars_of(out.as_str()));
            if tr.len() == 0 {
                let mut m = lit("Agent '");
                push_all(&mut m, &chars_of(agent_cmd));
                push_all(&mut m, &lit("' returned empty output"));
                Err(string_from(&m))
            } else {
                Ok(parse_summary_response(out.as_str()))
            }
        },
    }
}

/// Summarizes a transcript with the configured engine; see
/// [`summarize_with_screens`].
pub fn summarize<F>(transcript: &str, config: &Config, ask: F) -> (r: Option<Summary>) where
    F: Fn(LlmRequest) -> Result<String, String>,

    requires
        config.summarization.chunk_max_tokens <= usize::MAX / 4,
        forall|q: LlmRequest| call_requires(ask, (q,)),
    ensures
        engine_of(config.summarization.engine@) is None ==> r is None,
        r matches Some(s) ==> summarized_by(
            ask,
            transcript@,
            Seq::<Seq<char>>::empty(),
            config.summarization.engine@,
            config.summarization.chunk_max_tokens as nat,
            s,
        ),
        r is None ==> no_summary(
            ask,
            transcript@,
            Seq::<Seq<char>>::empty(),
            config.summarization.engine@,
            config.summarization.chunk_max_tokens as nat,
        ),
{
    let none: Vec<String> = Vec::new();
    assert(strs(none@) =~= Seq::<Seq<char>>::empty());
    summarize_with_screens(transcript, &none, config, ask)
}

/// Summarizes a transcript with the configured engine, `ask` performing each
/// request.  Disabled ("none") or unknown engines give no summary.  An agent
/// gets the whole prompt; the API engines get the transcript in chunks, and
/// Anthropic and Mistral are then asked to combine several chunk summaries
/// while OpenAI's and Ollama's replies are concatenated.  Any failed request
/// gives no summary; otherwise the final reply is parsed into sections (see
/// [`summarized_by`]).
pub fn summarize_with_screens<F>(
    transcript: &str,
    screen_files: &[String],
    config: &Config,
    ask: F,
) -> (r: Option<Summary>) where F: Fn(LlmRequest) -> Result<String, String>,
    requires
        config.summarization.chunk_max_tokens <= usize::MAX / 4,
        forall|q: LlmRequest| call_requires(ask, (q,)),
    ensures
        engine_of(config.summarization.engine@) is None ==> r is None,
        r matches Some(s) ==> summarized_by(
            ask,
            transcript@,
            strs(screen_files@),
            config.summarization.engine@,
            config.summarization.chunk_max_tokens as nat,
            s,
        ),
        r is None ==> no_summary(
            ask,
            transcript@,
            strs(screen_files@),
            config.summarization.engine@,
            config.summarization.chunk_max_tokens as nat,
        ),
{
    let engine = match summary_engine(config.summarization.engine.as_str()) {
        Some(e) => e,
        None => return None,
    };
    let ghost shots = strs(screen_files@);
    if engine == SummaryEngine::Agent {
        let res = summarize_with_agent(transcript, config.summarization.agent_command.as_str(), ask);
        let ghost gres = res;
        let r = match res {
            Ok(s) => Some(s),
            Err(_) => None,
        };
        proof {
            assert(engine_of(config.summarization.engine@) == Some(SummaryEngine::Agent));
            match gres {
                Err(m) => {
                    if ask_failed_with(ask, RequestModel::Prompt(agent_prompt(transcript@)), m@) {
                        let (req, e) = choose|req: LlmRequest, e: String|
                            request_view(req) == RequestModel::Prompt(agent_prompt(transcript@)) && e@ == m@
                                && #[trigger] call_ensures(ask, (req,), Err::<String, String>(e));
                        assert(call_ensures(ask, (req,), Err::<String, String>(e)));
                        assert(ask_failed(ask, RequestModel::Prompt(agent_prompt(transcript@))));
                    }
                },
                Ok(_) => {},
            }
        }
        return r;
    }
    let chunks = build_prompt(transcript, config.summarization.chunk_max_tokens);
    let ghost cs = prompt_chunks(transcript@, config.summarization.chunk_max_tokens as nat);
    let total = chunks.len();
    let mut replies: Vec<String> = Vec::new();
    let mut i: usize = 0;
    while i < total
        invariant
            i <= total,
            total == chunks@.len(),
            strs(chunks@) == cs,
            replies@.len() == i,
            shots == strs(screen_files@),
            cs == prompt_chunks(transcript@, config.summarization.chunk_max_tokens as nat),
            engine_of(config.summarization.engine@) == Some(engine),
            engine != SummaryEngine::Agent,
            forall|q: LlmRequest| call_requires(ask, (q,)),
            forall|j: int|
                0 <= j < i ==> #[trigger] chunk_asked(
                    ask,
                    engine,
                    cs,
                    shots,
                    j,
                    strs(replies@)[j],
                ),
        decreases total - i,
    {
        let text = chunks[i].clone();
        let screens = if i == 0 {
            to_strings(&char_lines(screen_files))
        } else {
            Vec::new()
        };
        assert(strs(screens@) == if i == 0 {
            shots
        } else {
            Seq::<Seq<char>>::empty()
        });
        let req = LlmRequest::Chunk { engine, index: i, total, text, screens };
        let ghost gq = req;
        match ask(req) {
            Ok(t) => {
                proof {
                    assert(call_ensures(ask, (gq,), Ok::<String, String>(t)));
                    assert(cs[i as int] == chunks@[i as int]@);
                    assert(request_view(gq) == RequestModel::Chunk {
                        engine,
                        index: i as nat,
                        total: cs.len(),
                        text: cs[i as int],
                        screens: if i == 0 {
                            shots
                        } else {
                            Seq::<Seq<char>>::empty()
                        },
                    });
                    assert(chunk_asked(ask, engine, cs, shots, i as int, t@));
                }
                let ghost prev = strs(replies@);
                let ghost tv = t@;
                replies.push(t);
                proof {
                    assert(strs(replies@) =~= prev.push(tv));
                    assert forall|j: int| 0 <= j < i + 1 implies #[trigger] chunk_asked(
                        ask,
                        engine,
                        cs,
                        shots,
                        j,
                        strs(replies@)[j],
                    ) by {
                        if j < i {
                            assert(strs(replies@)[j] == prev[j]);
                        }
                    }
                }
            },
            Err(e) => {
                proof {
                    assert(call_ensures(ask, (gq,), Err::<String, String>(e)));
                    assert(cs[i as int] == chunks@[i as int]@);
                    assert(request_view(gq) == chunk_request(engine, cs, shots, i as int));
                    assert(ask_failed(ask, chunk_request(engine, cs, shots, i as int)));
                    assert(engine_of(config.summarization.engine@) == Some(engine));
                    assert(engine != SummaryEngine::Agent);
                }
                return None;
            },
        }
        i += 1;
    }
    let ghost rs = strs(replies@);
    let final_text = if engine == SummaryEngine::OpenAi || engine == SummaryEngine::Ollama {
        concat_chunk_replies(&replies)
    } else if replies.len() > 1 {
        let combined = join_partial_summaries(&replies);
        let req = LlmRequest::Combine { engine, summaries: combined };
        let ghost gq = req;
        match ask(req) {
            Ok(t) => {
                proof {
                    assert(call_ensures(ask, (gq,), Ok::<String, String>(t)));
                    assert(asked(
                        ask,
                        RequestModel::Combine { engine, summaries: join(rs, "\n\n---\n\n"@) },
                        t@,
                    ));
                }
                t
            },
            Err(e) => {
                proof {
                    assert(call_ensures(ask, (gq,), Err::<String, String>(e)));
                    let cm = RequestModel::Combine { engine, summaries: join(rs, "\n\n---\n\n"@) };
                    assert(request_view(gq) == cm);
                    assert(ask_failed(ask, cm));
                    assert(engine_of(config.summarization.engine@) == Some(engine));
                    assert(combines(engine));
                    assert(rs.len() == cs.len());
                    assert(forall|j: int| 0 <= j < cs.len() ==> #[trigger] chunk_asked(ask, engine, cs, shots, j, rs[j]));
                }
                return None;
            },
        }
    } else if replies.len() == 1 {
        let t = string_from(&chars_of(replies[0].as_str()));
        assert(t@ == rs[0]);
        t
    } else {
        String::new()
    };
    assert(final_from(ask, engine, rs, final_text@));
    let s = parse_summary_response(final_text.as_str());
    let ghost ft = final_text@;
    assert(parsed_from(s, ft));
    assert(rs.len() == cs.len());
    let r = Some(s);
    proof {
        assert(engine_of(config.summarization.engine@) == Some(engine));
        assert(summarized_by(
            ask,
            transcript@,
            shots,
            config.summarization.engine@,
            config.summarization.chunk_max_tokens as nat,
            s,
        ));
    }
    r
}

} // verus!
