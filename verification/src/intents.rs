//! Structured intent taken from a summary: action items with assignees and
//! due dates, decisions with a topic, open questions and commitments.
use vstd::prelude::*;
use crate::summary::Summary;
use crate::text::{
    opt_view,
    byte_len, byte_len_of, chars_of, copy_range, find, find_chars, from_byte, from_byte_chars,
    is_alnum, is_alphanumeric, join, join_chars, lit, lits, lower, lower_chars, member, string_from,
    strs, take_upto, trim, trim_by, trim_chars, trim_end_by, trim_end_chars, trim_ws, views, words,
    words_of, CharClass, lemma_byte_len_bound,
};

verus! {

// ---------------------------------------------------------------------------
// Types
// ---------------------------------------------------------------------------

/// An action item: who does what, by when.
#[derive(Debug, Clone)]
pub struct ActionItem {
    pub assignee: String,
    pub task: String,
    pub due: Option<String>,
    pub status: String,
}

/// A decision and the topic it concerns.
#[derive(Debug, Clone)]
pub struct Decision {
    pub text: String,
    pub topic: Option<String>,
}

/// What kind of intent an entry records.
#[derive(Debug, Clone, Copy, PartialEq, Eq, Structural)]
pub enum IntentKind {
    ActionItem,
    Decision,
    OpenQuestion,
    Commitment,
}

/// One typed intent entry.
#[derive(Debug, Clone)]
pub struct Intent {
    pub kind: IntentKind,
    pub what: String,
    pub who: Option<String>,
    pub status: String,
    pub by_date: Option<String>,
}

/// An action item as text.
pub struct ActionModel {
    pub assignee: Seq<char>,
    pub task: Seq<char>,
    pub due: Option<Seq<char>>,
    pub status: Seq<char>,
}

/// A decision as text.
pub struct DecisionModel {
    pub text: Seq<char>,
    pub topic: Option<Seq<char>>,
}

/// An intent entry as text.
pub struct IntentModel {
    pub kind: IntentKind,
    pub what: Seq<char>,
    pub who: Option<Seq<char>>,
    pub status: Seq<char>,
    pub by_date: Option<Seq<char>>,
}

impl View for ActionItem {
    type V = ActionModel;

    open spec fn view(&self) -> ActionModel {
        ActionModel {
            assignee: self.assignee@,
            task: self.task@,
            due: opt_view(self.due),
            status: self.status@,
        }
    }
}

impl View for Decision {
    type V = DecisionModel;

    open spec fn view(&self) -> DecisionModel {
        DecisionModel { text: self.text@, topic: opt_view(self.topic) }
    }
}

impl View for Intent {
    type V = IntentModel;

    open spec fn view(&self) -> IntentModel {
        IntentModel {
            kind: self.kind,
            what: self.what@,
            who: opt_view(self.who),
            status: self.status@,
            by_date: opt_view(self.by_date),
        }
    }
}

pub open spec fn action_views(v: Seq<ActionItem>) -> Seq<ActionModel> {
    v.map_values(|a: ActionItem| a@)
}

pub open spec fn decision_views(v: Seq<Decision>) -> Seq<DecisionModel> {
    v.map_values(|d: Decision| d@)
}

pub open spec fn intent_views(v: Seq<Intent>) -> Seq<IntentModel> {
    v.map_values(|i: Intent| i@)
}

fn opt_string(o: Option<Vec<char>>) -> (r: Option<String>)
    ensures
        opt_view(r) == match o {
            Some(v) => Some(v@),
            None => None::<Seq<char>>,
        },
{
    match o {
        Some(v) => Some(string_from(&v)),
        None => None,
    }
}

// ---------------------------------------------------------------------------
// Due dates
// ---------------------------------------------------------------------------

/// Characters a due date is made of.
pub open spec fn due_char(c: char) -> bool {
    is_alnum(c) || c == ' ' || c == '-'
}

/// The longest prefix of `s` made of due-date characters.
pub open spec fn due_run(s: Seq<char>) -> Seq<char>
    decreases s.len(),
{
    if s.len() > 0 && due_char(s[0]) {
        seq![s[0]] + due_run(s.drop_first())
    } else {
        seq![]
    }
}

/// The byte offset in `text` just past marker `pat` (four bytes long), found
/// in the lowercase form of `text`.
pub open spec fn marker_end(text: Seq<char>, pat: Seq<char>) -> Option<nat> {
    let l = lower(text);
    match find(l, pat) {
        Some(p) => Some(byte_len(l.take(p)) + 4),
        None => None,
    }
}

/// Whether the text after the marker can be sliced off (the marker's end is
/// a character boundary of `text`), or there is no marker.
pub open spec fn marker_cut_ok(text: Seq<char>, pat: Seq<char>) -> bool {
    marker_end(text, pat) matches Some(b) ==> from_byte(text, b) is Some
}

/// The non-empty due date that follows marker `pat`, if any.
pub open spec fn due_after(text: Seq<char>, pat: Seq<char>) -> Option<Seq<char>> {
    match marker_end(text, pat) {
        Some(b) => match from_byte(text, b) {
            Some(after) => {
                let d = trim(due_run(after));
                if d.len() > 0 {
                    Some(d)
                } else {
                    None
                }
            },
            None => None,
        },
        None => None,
    }
}

/// The due date of a task: what follows ` by `, else what follows `due `
/// (each matched case-insensitively), as far as it runs over letters,
/// digits, spaces and hyphens.
pub open spec fn due_date(text: Seq<char>) -> Option<Seq<char>> {
    match due_after(text, " by "@) {
        Some(d) => Some(d),
        None => due_after(text, "due "@),
    }
}

/// Whether every slice [`extract_due_date`] takes stays on a character
/// boundary.
pub open spec fn due_defined(text: Seq<char>) -> bool {
    marker_cut_ok(text, " by "@) && (due_after(text, " by "@) is None ==> marker_cut_ok(
        text,
        "due "@,
    ))
}

fn due_run_chars(s: &[char]) -> (r: Vec<char>)
    ensures
        r@ == due_run(s@),
{
    let mut i: usize = 0;
    while i < s.len() && (is_alphanumeric(s[i]) || s[i] == ' ' || s[i] == '-')
        invariant
            i <= s@.len(),
            forall|j: int| 0 <= j < i ==> due_char(#[trigger] s@[j]),
        decreases s.len() - i,
    {
        i += 1;
    }
    proof {
        lemma_due_run(s@, i as int);
    }
    copy_range(s, 0, i)
}

proof fn lemma_due_run(s: Seq<char>, i: int)
    requires
        0 <= i <= s.len(),
        forall|j: int| 0 <= j < i ==> due_char(#[trigger] s[j]),
        i == s.len() || !due_char(s[i]),
    ensures
        due_run(s) == s.take(i),
    decreases i,
{
    if i == 0 {
        assert(s.take(0) =~= Seq::<char>::empty());
    } else {
        let t = s.drop_first();
        assert forall|j: int| 0 <= j < i - 1 implies due_char(#[trigger] t[j]) by {
            assert(t[j] == s[j + 1]);
        }
        if i < s.len() {
            assert(t[i - 1] == s[i]);
        }
        lemma_due_run(t, i - 1);
        assert(seq![s[0]] + t.take(i - 1) =~= s.take(i));
    }
}

/// The marker's end, as in [`marker_end`], computed.
fn marker_end_exec(text: &[char], l: &[char], pat: &[char]) -> (r: Option<u128>)
    requires
        l@ == lower(text@),
        pat@.len() == 4,
    ensures
        r matches Some(b) ==> marker_end(text@, pat@) == Some(b as nat),
        r is None ==> marker_end(text@, pat@) is None,
{
    match find_chars(l, pat) {
        Some(p) => {
            let head = copy_range(l, 0, p);
            assert(head@ =~= l@.take(p as int));
            let n = byte_len_of(&head);
            Some(n + 4)
        },
        None => None,
    }
}

/// `(cut ok, due date)` for marker `pat`.
fn due_after_exec(text: &[char], l: &[char], pat: &[char]) -> (r: (bool, Option<Vec<char>>))
    requires
        l@ == lower(text@),
        pat@.len() == 4,
    ensures
        r.0 == marker_cut_ok(text@, pat@),
        r.0 ==> match r.1 {
            Some(d) => due_after(text@, pat@) == Some(d@),
            None => due_after(text@, pat@) is None,
        },
{
    match marker_end_exec(text, l, pat) {
        None => (true, None),
        Some(b) => match from_byte_chars(text, b) {
            None => (false, None),
            Some(after) => {
                let d = trim_ws(&due_run_chars(&after));
                if d.len() > 0 {
                    (true, Some(d))
                } else {
                    (true, None)
                }
            },
        },
    }
}

fn marker(text: &str) -> (r: Vec<char>)
    requires
        text == " by " || text == "due ",
    ensures
        r@ == text@,
        r@.len() == 4,
{
    proof {
        reveal_strlit(" by ");
        reveal_strlit("due ");
    }
    lit(text)
}

/// Whether [`extract_due_date`] may be called on `text`.
pub fn due_date_ok(text: &str) -> (r: bool)
    ensures
        r == due_defined(text@),
{
    let t = chars_of(text);
    let l = lower_chars(&t);
    let (ok_by, by) = due_after_exec(&t, &l, &marker(" by "));
    if !ok_by {
        return false;
    }
    if by.is_some() {
        return true;
    }
    let (ok_due, _) = due_after_exec(&t, &l, &marker("due "));
    ok_due
}

/// The due date a task names (see [`due_date`]).
pub fn extract_due_date(text: &str) -> (r: Option<String>)
    requires
        due_defined(text@),
    ensures
        opt_view(r) == due_date(text@),
{
    let t = chars_of(text);
    let l = lower_chars(&t);
    let (_, by) = due_after_exec(&t, &l, &marker(" by "));
    match by {
        Some(d) => Some(string_from(&d)),
        None => {
            let (_, due) = due_after_exec(&t, &l, &marker("due "));
            opt_string(due)
        },
    }
}

// ---------------------------------------------------------------------------
// Action items
// ---------------------------------------------------------------------------

/// `(assignee, task)` of an item written `@who: task`; other items are
/// `unassigned` and their task is the whole item.
pub open spec fn assignee_split(item: Seq<char>) -> (Seq<char>, Seq<char>) {
    if item.len() > 0 && item[0] == '@' {
        let rest = item.drop_first();
        match find(rest, seq![':']) {
            Some(c) => (trim(rest.take(c)), trim(rest.skip(c + 1))),
            None => ("unassigned"@, item),
        }
    } else {
        ("unassigned"@, item)
    }
}

/// A task without trailing `)` and surrounding whitespace.
pub open spec fn clean_task(task: Seq<char>) -> Seq<char> {
    trim(trim_end_by(task, CharClass::Exact(')')))
}

/// The action item an item line gives, still open.
pub open spec fn action_item_of(item: Seq<char>) -> ActionModel {
    let (assignee, task) = assignee_split(item);
    ActionModel {
        assignee: assignee,
        task: clean_task(task),
        due: due_date(task),
        status: "open"@,
    }
}

/// Whether the due date of every action item can be read.
pub open spec fn actions_defined(items: Seq<Seq<char>>) -> bool {
    forall|i: int| 0 <= i < items.len() ==> due_defined(#[trigger] assignee_split(items[i]).1)
}

fn assignee_split_exec(item: &[char]) -> (r: (Vec<char>, Vec<char>))
    ensures
        (r.0@, r.1@) == assignee_split(item@),
{
    if item.len() > 0 && item[0] == '@' {
        let rest = copy_range(item, 1, item.len());
        assert(rest@ =~= item@.drop_first());
        let colon = vec![':'];
        assert(colon@ =~= seq![':']);
        match find_chars(&rest, &colon) {
            Some(c) => {
                let who = copy_range(&rest, 0, c);
                let what = copy_range(&rest, c + 1, rest.len());
                assert(who@ =~= rest@.take(c as int));
                assert(what@ =~= rest@.skip(c + 1));
                (trim_ws(&who), trim_ws(&what))
            },
            None => (lit("unassigned"), crate::text::copy_chars(item)),
        }
    } else {
        (lit("unassigned"), crate::text::copy_chars(item))
    }
}

fn clean_task_exec(task: &[char]) -> (r: Vec<char>)
    ensures
        r@ == clean_task(task@),
{
    trim_ws(&trim_end_chars(task, CharClass::Exact(')')))
}

/// Whether every action item of `items` can be read (see [`due_defined`]).
pub fn actions_ok(items: &[String]) -> (r: bool)
    ensures
        r == actions_defined(strs(items@)),
{
    let mut i: usize = 0;
    while i < items.len()
        invariant
            i <= items@.len(),
            forall|j: int| 0 <= j < i ==> due_defined(#[trigger] assignee_split(strs(items@)[j]).1),
        decreases items.len() - i,
    {
        let (_, task) = assignee_split_exec(&chars_of(items[i].as_str()));
        let ts = string_from(&task);
        if !due_date_ok(ts.as_str()) {
            assert(!due_defined(assignee_split(strs(items@)[i as int]).1));
            return false;
        }
        i += 1;
    }
    true
}

fn action_item_exec(item: &String) -> (r: ActionItem)
    requires
        due_defined(assignee_split(item@).1),
    ensures
        r@ == action_item_of(item@),
{
    let (assignee, task) = assignee_split_exec(&chars_of(item.as_str()));
    let ts = string_from(&task);
    let due = extract_due_date(ts.as_str());
    ActionItem {
        assignee: string_from(&assignee),
        task: string_from(&clean_task_exec(&task)),
        due: due,
        status: string_from(&lit("open")),
    }
}

fn action_items_of(items: &[String]) -> (r: Vec<ActionItem>)
    requires
        actions_defined(strs(items@)),
    ensures
        action_views(r@) == strs(items@).map_values(|s: Seq<char>| action_item_of(s)),
{
    let mut r: Vec<ActionItem> = Vec::new();
    let mut i: usize = 0;
    while i < items.len()
        invariant
            i <= items@.len(),
            actions_defined(strs(items@)),
            action_views(r@) == strs(items@).map_values(|s: Seq<char>| action_item_of(s)).take(
                i as int,
            ),
        decreases items.len() - i,
    {
        assert(strs(items@)[i as int] == items@[i as int]@);
        assert(due_defined(assignee_split(strs(items@)[i as int]).1));
        let a = action_item_exec(&items[i]);
        let ghost prev = action_views(r@);
        r.push(a);
        assert(action_views(r@) =~= prev.push(a@));
        i += 1;
        assert(action_views(r@) =~= strs(items@).map_values(|s: Seq<char>| action_item_of(s)).take(
            i as int,
        ));
    }
    assert(strs(items@).map_values(|s: Seq<char>| action_item_of(s)).take(items@.len() as int)
        =~= strs(items@).map_values(|s: Seq<char>| action_item_of(s)));
    r
}

/// The action items of a summary, one per item line (see [`action_item_of`]).
pub fn extract_action_items(summary: &Summary) -> (r: Vec<ActionItem>)
    requires
        actions_defined(strs(summary.action_items@)),
    ensures
        action_views(r@) == strs(summary.action_items@).map_values(
            |s: Seq<char>| action_item_of(s),
        ),
{
    action_items_of(&summary.action_items)
}

// ---------------------------------------------------------------------------
// Decisions
// ---------------------------------------------------------------------------

/// Words that never start a topic.
pub open spec fn topic_stopwords() -> Seq<Seq<char>> {
    seq![
        "the"@, "a"@, "an"@, "to"@, "for"@, "of"@, "in"@, "on"@, "at"@, "is"@, "was"@, "will"@,
        "should"@, "we"@, "they"@, "it"@,
    ]
}

/// The words of `ws` that are not topic stopwords (compared lowercased).
pub open spec fn topic_words(ws: Seq<Seq<char>>) -> Seq<Seq<char>>
    decreases ws.len(),
{
    if ws.len() == 0 {
        seq![]
    } else {
        let r = topic_words(ws.drop_last());
        if topic_stopwords().contains(lower(ws.last())) {
            r
        } else {
            r.push(ws.last())
        }
    }
}

/// The topic of a decision: its first four meaningful words, lowercased.
pub open spec fn topic_of(text: Seq<char>) -> Option<Seq<char>> {
    let ws = take_upto(topic_words(words(text)), 4);
    if ws.len() == 0 {
        None
    } else {
        Some(lower(join(ws, seq![' '])))
    }
}

pub open spec fn decision_of(text: Seq<char>) -> DecisionModel {
    DecisionModel { text: text, topic: topic_of(text) }
}

/// The topic a decision's text suggests (see [`topic_of`]).
pub fn infer_topic(text: &str) -> (r: Option<String>)
    ensures
        opt_view(r) == topic_of(text@),
{
    let ws = words_of(&chars_of(text));
    let stops = lits(
        &["the", "a", "an", "to", "for", "of", "in", "on", "at", "is", "was", "will", "should",
        "we", "they", "it"],
    );
    assert(views(stops@) =~= topic_stopwords());
    let mut kept: Vec<Vec<char>> = Vec::new();
    let mut i: usize = 0;
    while i < ws.len()
        invariant
            i <= ws@.len(),
            views(stops@) == topic_stopwords(),
            views(kept@) == topic_words(views(ws@).take(i as int)),
        decreases ws.len() - i,
    {
        assert(views(ws@).take(i + 1).drop_last() =~= views(ws@).take(i as int));
        assert(views(ws@).take(i + 1).last() == ws@[i as int]@);
        if !member(&lower_chars(&ws[i]), &stops) {
            let ghost prev = views(kept@);
            kept.push(crate::text::copy_chars(&ws[i]));
            assert(views(kept@) =~= prev.push(ws@[i as int]@));
        }
        i += 1;
    }
    assert(views(ws@).take(ws@.len() as int) =~= views(ws@));
    let n = if kept.len() < 4 {
        kept.len()
    } else {
        4
    };
    let mut first: Vec<Vec<char>> = Vec::new();
    let mut j: usize = 0;
    while j < n
        invariant
            j <= n <= kept@.len(),
            views(first@) == views(kept@).take(j as int),
        decreases n - j,
    {
        let ghost prev = views(first@);
        first.push(crate::text::copy_chars(&kept[j]));
        assert(views(first@) =~= prev.push(kept@[j as int]@));
        j += 1;
        assert(views(first@) =~= views(kept@).take(j as int));
    }
    assert(views(first@) =~= take_upto(views(kept@), 4));
    if first.len() == 0 {
        return None;
    }
    let sp = vec![' '];
    assert(sp@ =~= seq![' ']);
    let joined = join_chars(&first, &sp);
    Some(string_from(&lower_chars(&joined)))
}

/// The decisions of a summary, each with its inferred topic.
pub fn extract_decisions(summary: &Summary) -> (r: Vec<Decision>)
    ensures
        decision_views(r@) == strs(summary.decisions@).map_values(|s: Seq<char>| decision_of(s)),
{
    let items = &summary.decisions;
    let mut r: Vec<Decision> = Vec::new();
    let mut i: usize = 0;
    while i < items.len()
        invariant
            i <= items@.len(),
            items == &summary.decisions,
            decision_views(r@) == strs(items@).map_values(|s: Seq<char>| decision_of(s)).take(
                i as int,
            ),
        decreases items.len() - i,
    {
        let text = &items[i];
        let d = Decision { text: string_from(&chars_of(text.as_str())), topic: infer_topic(text.as_str()) };
        let ghost prev = decision_views(r@);
        r.push(d);
        assert(decision_views(r@) =~= prev.push(d@));
        i += 1;
        assert(decision_views(r@) =~= strs(items@).map_values(|s: Seq<char>| decision_of(s)).take(
            i as int,
        ));
    }
    assert(strs(items@).map_values(|s: Seq<char>| decision_of(s)).take(items@.len() as int)
        =~= strs(items@).map_values(|s: Seq<char>| decision_of(s)));
    r
}

// ---------------------------------------------------------------------------
// Intents
// ---------------------------------------------------------------------------

/// `(who, what)` of text written `@who: what`; otherwise no one and the
/// trimmed text.  An empty `who` is no one.
pub open spec fn actor_split(text: Seq<char>) -> (Option<Seq<char>>, Seq<char>) {
    if text.len() > 0 && text[0] == '@' {
        let rest = text.drop_first();
        match find(rest, seq![':']) {
            Some(c) => {
                let who = trim(rest.take(c));
                (
                    if who.len() > 0 {
                        Some(who)
                    } else {
                        None
                    },
                    trim(rest.skip(c + 1)),
                )
            },
            None => (None, trim(text)),
        }
    } else {
        (None, trim(text))
    }
}

pub fn parse_actor_prefix(text: &str) -> (r: (Option<String>, String))
    ensures
        (opt_view(r.0), r.1@) == actor_split(text@),
{
    let t = chars_of(text);
    if t.len() > 0 && t[0] == '@' {
        let rest = copy_range(&t, 1, t.len());
        assert(rest@ =~= t@.drop_first());
        let colon = vec![':'];
        assert(colon@ =~= seq![':']);
        match find_chars(&rest, &colon) {
            Some(c) => {
                let who = copy_range(&rest, 0, c);
                let what = copy_range(&rest, c + 1, rest.len());
                assert(who@ =~= rest@.take(c as int));
                assert(what@ =~= rest@.skip(c + 1));
                let who = trim_ws(&who);
                let what = string_from(&trim_ws(&what));
                if who.len() > 0 {
                    return (Some(string_from(&who)), what);
                } else {
                    return (None, what);
                }
            },
            None => {},
        }
    }
    (None, string_from(&trim_ws(&t)))
}

pub open spec fn action_intent(a: ActionModel) -> IntentModel {
    IntentModel {
        kind: IntentKind::ActionItem,
        what: a.task,
        who: if a.assignee != "unassigned"@ {
            Some(a.assignee)
        } else {
            None
        },
        status: a.status,
        by_date: a.due,
    }
}

pub open spec fn decision_intent(d: DecisionModel) -> IntentModel {
    IntentModel {
        kind: IntentKind::Decision,
        what: d.text,
        who: None,
        status: "decided"@,
        by_date: None,
    }
}

pub open spec fn question_intent(q: Seq<char>) -> IntentModel {
    IntentModel {
        kind: IntentKind::OpenQuestion,
        what: actor_split(q).1,
        who: actor_split(q).0,
        status: "open"@,
        by_date: None,
    }
}

pub open spec fn commitment_intent(c: Seq<char>) -> IntentModel {
    IntentModel {
        kind: IntentKind::Commitment,
        what: clean_task(actor_split(c).1),
        who: actor_split(c).0,
        status: "open"@,
        by_date: due_date(c),
    }
}

/// The intents of a summary: its action items, then its decisions, open
/// questions and commitments, in that order.
pub open spec fn intents_of(
    action_items: Seq<Seq<char>>,
    decisions: Seq<Seq<char>>,
    open_questions: Seq<Seq<char>>,
    commitments: Seq<Seq<char>>,
) -> Seq<IntentModel> {
    action_items.map_values(|s: Seq<char>| action_intent(action_item_of(s)))
        + decisions.map_values(|s: Seq<char>| decision_intent(decision_of(s)))
        + open_questions.map_values(|s: Seq<char>| question_intent(s))
        + commitments.map_values(|s: Seq<char>| commitment_intent(s))
}

/// The intents of a summary come one per item, action items first, then
/// decisions, open questions and commitments; decisions are "decided" and
/// every other intent is "open".
pub proof fn law_intent_kinds_and_status(
    action_items: Seq<Seq<char>>,
    decisions: Seq<Seq<char>>,
    open_questions: Seq<Seq<char>>,
    commitments: Seq<Seq<char>>,
)
    ensures
        ({
            let r = intents_of(action_items, decisions, open_questions, commitments);
            let a = action_items.len() as int;
            let d = a + decisions.len();
            let q = d + open_questions.len();
            &&& r.len() == q + commitments.len()
            &&& forall|i: int|
                0 <= i < r.len() ==> (#[trigger] r[i]).kind == (if i < a {
                    IntentKind::ActionItem
                } else if i < d {
                    IntentKind::Decision
                } else if i < q {
                    IntentKind::OpenQuestion
                } else {
                    IntentKind::Commitment
                })
            &&& forall|i: int|
                0 <= i < r.len() ==> ((#[trigger] r[i]).kind == IntentKind::Decision ==> r[i].status == "decided"@)
                    && (r[i].kind != IntentKind::Decision ==> r[i].status == "open"@)
            &&& forall|i: int| 0 <= i < r.len() ==> (#[trigger] r[i]).status != "decided"@ || r[i].status != "open"@
        }),
{
    reveal_strlit("decided");
    reveal_strlit("open");
    let r = intents_of(action_items, decisions, open_questions, commitments);
    let a = action_items.len() as int;
    let d = a + decisions.len();
    let q = d + open_questions.len();
    assert forall|i: int| 0 <= i < r.len() implies (#[trigger] r[i]).kind == (if i < a {
        IntentKind::ActionItem
    } else if i < d {
        IntentKind::Decision
    } else if i < q {
        IntentKind::OpenQuestion
    } else {
        IntentKind::Commitment
    }) && (r[i].kind == IntentKind::Decision ==> r[i].status == "decided"@) && (r[i].kind
        != IntentKind::Decision ==> r[i].status == "open"@) by {
        if i < a {
            assert(r[i] == action_intent(action_item_of(action_items[i])));
        } else if i < d {
            assert(r[i] == decision_intent(decision_of(decisions[i - a])));
        } else if i < q {
            assert(r[i] == question_intent(open_questions[i - d]));
        } else {
            assert(r[i] == commitment_intent(commitments[i - q]));
        }
    }
    assert("decided"@ != "open"@) by {
        assert("decided"@.len() != "open"@.len());
    }
}

/// Whether every due date [`extract_intents`] reads can be read.
pub open spec fn intents_defined(action_items: Seq<Seq<char>>, commitments: Seq<Seq<char>>) -> bool {
    actions_defined(action_items) && forall|i: int|
        0 <= i < commitments.len() ==> due_defined(#[trigger] commitments[i])
}

/// Whether [`extract_intents`] may be called on `summary`.
pub fn intents_ok(summary: &Summary) -> (r: bool)
    ensures
        r == intents_defined(strs(summary.action_items@), strs(summary.commitments@)),
{
    if !actions_ok(&summary.action_items) {
        return false;
    }
    let cs = &summary.commitments;
    let mut i: usize = 0;
    while i < cs.len()
        invariant
            i <= cs@.len(),
            cs == &summary.commitments,
            forall|j: int| 0 <= j < i ==> due_defined(#[trigger] strs(cs@)[j]),
        decreases cs.len() - i,
    {
        assert(strs(cs@)[i as int] == cs@[i as int]@);
        if !due_date_ok(cs[i].as_str()) {
            return false;
        }
        i += 1;
    }
    true
}

fn push_intent(out: &mut Vec<Intent>, it: Intent)
    ensures
        intent_views(final(out)@) == intent_views(old(out)@).push(it@),
{
    out.push(it);
    assert(intent_views(out@) =~= intent_views(old(out)@).push(it@));
}

/// The typed intents of a summary (see [`intents_of`]).
pub fn extract_intents(summary: &Summary) -> (r: Vec<Intent>)
    requires
        intents_defined(strs(summary.action_items@), strs(summary.commitments@)),
    ensures
        intent_views(r@) == intents_of(
            strs(summary.action_items@),
            strs(summary.decisions@),
            strs(summary.open_questions@),
            strs(summary.commitments@),
        ),
{
    let ghost ai = strs(summary.action_items@);
    let ghost ds = strs(summary.decisions@);
    let ghost qs = strs(summary.open_questions@);
    let ghost cs = strs(summary.commitments@);
    let ghost p1 = ai.map_values(|s: Seq<char>| action_intent(action_item_of(s)));
    let ghost p2 = ds.map_values(|s: Seq<char>| decision_intent(decision_of(s)));
    let ghost p3 = qs.map_values(|s: Seq<char>| question_intent(s));
    let ghost p4 = cs.map_values(|s: Seq<char>| commitment_intent(s));
    let mut out: Vec<Intent> = Vec::new();

    let items = extract_action_items(summary);
    assert(action_views(items@).len() == items@.len());
    let mut i: usize = 0;
    while i < items.len()
        invariant
            i <= items@.len(),
            items@.len() == ai.len(),
            action_views(items@) == ai.map_values(|s: Seq<char>| action_item_of(s)),
            intent_views(out@) == p1.take(i as int),
            p1 == ai.map_values(|s: Seq<char>| action_intent(action_item_of(s))),
        decreases items.len() - i,
    {
        let a = &items[i];
        assert(action_views(items@)[i as int] == a@);
        let who = if !chars_eq_str(&a.assignee, "unassigned") {
            Some(copy_string(&a.assignee))
        } else {
            None
        };
        let it = Intent {
            kind: IntentKind::ActionItem,
            what: copy_string(&a.task),
            who: who,
            status: copy_string(&a.status),
            by_date: clone_opt(&a.due),
        };
        assert(it@ == p1[i as int]);
        push_intent(&mut out, it);
        i += 1;
        assert(intent_views(out@) =~= p1.take(i as int));
    }
    assert(p1.take(ai.len() as int) =~= p1);

    let decisions = extract_decisions(summary);
    assert(decision_views(decisions@).len() == decisions@.len());
    assert(p1 + p2.take(0) =~= p1);
    let mut i: usize = 0;
    while i < decisions.len()
        invariant
            i <= decisions@.len(),
            decisions@.len() == ds.len(),
            decision_views(decisions@) == ds.map_values(|s: Seq<char>| decision_of(s)),
            intent_views(out@) == p1 + p2.take(i as int),
            p2 == ds.map_values(|s: Seq<char>| decision_intent(decision_of(s))),
        decreases decisions.len() - i,
    {
        let d = &decisions[i];
        assert(decision_views(decisions@)[i as int] == d@);
        let it = Intent {
            kind: IntentKind::Decision,
            what: copy_string(&d.text),
            who: None,
            status: string_from(&lit("decided")),
            by_date: None,
        };
        assert(it@ == p2[i as int]);
        push_intent(&mut out, it);
        i += 1;
        assert(intent_views(out@) =~= p1 + p2.take(i as int));
    }
    assert(p2.take(ds.len() as int) =~= p2);

    let qv = &summary.open_questions;
    assert(p1 + p2 + p3.take(0) =~= p1 + p2);
    let mut i: usize = 0;
    while i < qv.len()
        invariant
            i <= qv@.len(),
            qv == &summary.open_questions,
            qs == strs(qv@),
            intent_views(out@) == p1 + p2 + p3.take(i as int),
            p3 == qs.map_values(|s: Seq<char>| question_intent(s)),
        decreases qv.len() - i,
    {
        assert(qs[i as int] == qv@[i as int]@);
        let (who, what) = parse_actor_prefix(qv[i].as_str());
        let it = Intent {
            kind: IntentKind::OpenQuestion,
            what: what,
            who: who,
            status: string_from(&lit("open")),
            by_date: None,
        };
        assert(it@ == p3[i as int]);
        push_intent(&mut out, it);
        i += 1;
        assert(intent_views(out@) =~= p1 + p2 + p3.take(i as int));
    }
    assert(p3.take(qs.len() as int) =~= p3);

    let cv = &summary.commitments;
    assert(p1 + p2 + p3 + p4.take(0) =~= p1 + p2 + p3);
    let mut i: usize = 0;
    while i < cv.len()
        invariant
            i <= cv@.len(),
            cv == &summary.commitments,
            cs == strs(cv@),
            forall|j: int| 0 <= j < cs.len() ==> due_defined(#[trigger] cs[j]),
            intent_views(out@) == p1 + p2 + p3 + p4.take(i as int),
            p4 == cs.map_values(|s: Seq<char>| commitment_intent(s)),
        decreases cv.len() - i,
    {
        assert(cs[i as int] == cv@[i as int]@);
        let due = extract_due_date(cv[i].as_str());
        let (who, what) = parse_actor_prefix(cv[i].as_str());
        let it = Intent {
            kind: IntentKind::Commitment,
            what: string_from(&clean_task_exec(&chars_of(what.as_str()))),
            who: who,
            status: string_from(&lit("open")),
            by_date: due,
        };
        assert(it@ == p4[i as int]);
        push_intent(&mut out, it);
        i += 1;
        assert(intent_views(out@) =~= p1 + p2 + p3 + p4.take(i as int));
    }
    assert(p4.take(cs.len() as int) =~= p4);
    out
}

/// Whether `s` reads as the literal `lit_text`.
fn chars_eq_str(s: &String, lit_text: &str) -> (r: bool)
    ensures
        r == (s@ == lit_text@),
{
    crate::text::chars_eq(&chars_of(s.as_str()), &lit(lit_text))
}

fn copy_string(s: &String) -> (r: String)
    ensures
        r@ == s@,
{
    string_from(&chars_of(s.as_str()))
}

fn clone_opt(o: &Option<String>) -> (r: Option<String>)
    ensures
        opt_view(r) == opt_view(*o),
{
    match o {
        Some(s) => Some(string_from(&chars_of(s.as_str()))),
        None => None,
    }
}

} // verus!
