//! The people and projects a meeting mentions, keyed by slug.
//!
//! Each kind of entity is kept as a list sorted strictly by slug, whose
//! entries carry a display label and a strictly sorted list of aliases: the
//! ordered form of a map from slug to label and alias set.
use vstd::prelude::*;
use crate::intents::{ActionItem, ActionModel, Decision, DecisionModel, Intent, IntentModel, action_views, decision_views, intent_views};
use crate::text::opt_view;
use crate::speakers::eq_ignore_ascii_case;
use crate::text::{
    alnum_runs, alnum_runs_of, capitalize_token, capitalize_token_chars, chars_eq, chars_of,
    copy_chars, join, join_chars, lemma_lex_asymmetric, lemma_lex_irreflexive, lemma_lex_total,
    lemma_lex_transitive, lex_lt, lex_lt_exec, lits, lower, lower_chars, member, normalize_space,
    normalize_space_chars, string_from, strs, take_upto, trim, trim_by, trim_chars,
    trim_start_by, trim_start_chars, trim_ws, views, words, words_of, CharClass,
};

verus! {

// ---------------------------------------------------------------------------
// Slugs, labels and topics
// ---------------------------------------------------------------------------

/// The slug of a text: the runs of letters and digits of its lowercase form,
/// joined by `-`.
pub open spec fn slug_of(text: Seq<char>) -> Seq<char> {
    join(alnum_runs(lower(text)), seq!['-'])
}

fn slug_chars(text: &[char]) -> (r: Vec<char>)
    ensures
        r@ == slug_of(text@),
{
    let runs = alnum_runs_of(&lower_chars(text));
    let dash = vec!['-'];
    assert(dash@ =~= seq!['-']);
    join_chars(&runs, &dash)
}

/// The slug of `text` (see [`slug_of`]).
pub fn slugify(text: &str) -> (r: String)
    ensures
        r@ == slug_of(text@),
{
    string_from(&slug_chars(&chars_of(text)))
}

/// Each word of `s` lowercased and capitalised, joined by spaces.
pub open spec fn title_label(s: Seq<char>) -> Seq<char> {
    join(words(s).map_values(|w: Seq<char>| capitalize_token(w)), seq![' '])
}

fn title_label_chars(s: &[char]) -> (r: Vec<char>)
    ensures
        r@ == title_label(s@),
{
    let ws = words_of(s);
    let mut out: Vec<Vec<char>> = Vec::new();
    let mut i: usize = 0;
    while i < ws.len()
        invariant
            i <= ws@.len(),
            views(out@) == views(ws@).map_values(|w: Seq<char>| capitalize_token(w)).take(i as int),
        decreases ws.len() - i,
    {
        let c = capitalize_token_chars(&ws[i]);
        let ghost prev = views(out@);
        out.push(c);
        assert(views(out@) =~= prev.push(c@));
        i += 1;
        assert(views(out@) =~= views(ws@).map_values(|w: Seq<char>| capitalize_token(w)).take(
            i as int,
        ));
    }
    assert(views(ws@).map_values(|w: Seq<char>| capitalize_token(w)).take(ws@.len() as int)
        =~= views(ws@).map_values(|w: Seq<char>| capitalize_token(w)));
    let sp = vec![' '];
    assert(sp@ =~= seq![' ']);
    join_chars(&out, &sp)
}

/// Words that never name a project.
pub open spec fn entity_stopwords() -> Seq<Seq<char>> {
    seq![
        "a"@, "an"@, "and"@, "as"@, "at"@, "by"@, "for"@, "from"@, "in"@, "of"@, "on"@, "or"@,
        "the"@, "to"@, "with"@, "we"@, "should"@, "will"@, "be"@, "is"@, "are"@, "use"@,
        "using"@,
    ]
}

/// The words of `ws` stripped of surrounding non-alphanumerics, without the
/// empty ones and the stopwords (compared lowercased).
pub open spec fn topic_terms(ws: Seq<Seq<char>>) -> Seq<Seq<char>>
    decreases ws.len(),
{
    if ws.len() == 0 {
        seq![]
    } else {
        let r = topic_terms(ws.drop_last());
        let t = trim_by(ws.last(), CharClass::NotAlphanumeric);
        if t.len() > 0 && !entity_stopwords().contains(lower(t)) {
            r.push(t)
        } else {
            r
        }
    }
}

/// A project name from free text: its first four meaningful words,
/// lowercased and joined by spaces.
pub open spec fn entity_topic(text: Seq<char>) -> Seq<char> {
    join(
        take_upto(topic_terms(words(text)), 4).map_values(|w: Seq<char>| lower(w)),
        seq![' '],
    )
}

fn entity_topic_chars(text: &[char]) -> (r: Vec<char>)
    ensures
        r@ == entity_topic(text@),
{
    let ws = words_of(text);
    let stops = lits(
        &["a", "an", "and", "as", "at", "by", "for", "from", "in", "of", "on", "or", "the", "to",
        "with", "we", "should", "will", "be", "is", "are", "use", "using"],
    );
    assert(views(stops@) =~= entity_stopwords());
    let mut terms: Vec<Vec<char>> = Vec::new();
    let mut i: usize = 0;
    while i < ws.len()
        invariant
            i <= ws@.len(),
            views(stops@) == entity_stopwords(),
            views(terms@) == topic_terms(views(ws@).take(i as int)),
        decreases ws.len() - i,
    {
        assert(views(ws@).take(i + 1).drop_last() =~= views(ws@).take(i as int));
        assert(views(ws@).take(i + 1).last() == ws@[i as int]@);
        let t = trim_chars(&ws[i], CharClass::NotAlphanumeric);
        if t.len() > 0 && !member(&lower_chars(&t), &stops) {
            let ghost prev = views(terms@);
            terms.push(t);
            assert(views(terms@) =~= prev.push(t@));
        }
        i += 1;
    }
    assert(views(ws@).take(ws@.len() as int) =~= views(ws@));
    let n = if terms.len() < 4 {
        terms.len()
    } else {
        4
    };
    let ghost firsts = take_upto(views(terms@), 4);
    assert(firsts.len() == n);
    let mut lowered: Vec<Vec<char>> = Vec::new();
    let mut j: usize = 0;
    while j < n
        invariant
            j <= n <= terms@.len(),
            firsts == take_upto(views(terms@), 4),
            firsts.len() == n,
            views(lowered@) == firsts.map_values(|w: Seq<char>| lower(w)).take(j as int),
        decreases n - j,
    {
        let l = lower_chars(&terms[j]);
        let ghost prev = views(lowered@);
        lowered.push(l);
        assert(views(lowered@) =~= prev.push(l@));
        j += 1;
        assert(views(lowered@) =~= firsts.map_values(|w: Seq<char>| lower(w)).take(j as int));
    }
    assert(firsts.map_values(|w: Seq<char>| lower(w)).take(n as int) =~= firsts.map_values(
        |w: Seq<char>| lower(w),
    ));
    let sp = vec![' '];
    assert(sp@ =~= seq![' ']);
    join_chars(&lowered, &sp)
}

/// The project name free text gives (see [`entity_topic`]).
pub fn normalize_entity_topic(text: &str) -> (r: String)
    ensures
        r@ == entity_topic(text@),
{
    string_from(&entity_topic_chars(&chars_of(text)))
}

// ---------------------------------------------------------------------------
// The map and its sorted form
// ---------------------------------------------------------------------------

/// Slug to label and aliases.
pub type EntityMap = Map<Seq<char>, (Seq<char>, Set<Seq<char>>)>;

/// `alias` recorded under `slug`; a new slug takes `label`, a known one
/// keeps its own.
pub open spec fn noted(m: EntityMap, slug: Seq<char>, label: Seq<char>, alias: Seq<char>) -> EntityMap {
    if m.dom().contains(slug) {
        m.insert(slug, (m[slug].0, m[slug].1.insert(alias)))
    } else {
        m.insert(slug, (label, Set::empty().insert(alias)))
    }
}

/// A referenced entity.
#[derive(Debug, Clone)]
pub struct EntityRef {
    pub slug: String,
    pub label: String,
    pub aliases: Vec<String>,
}

/// The people and projects of a meeting.
#[derive(Debug, Clone)]
pub struct EntityLinks {
    pub people: Vec<EntityRef>,
    pub projects: Vec<EntityRef>,
}

/// An entity as text.
pub struct EntityModel {
    pub slug: Seq<char>,
    pub label: Seq<char>,
    pub aliases: Seq<Seq<char>>,
}

impl View for EntityRef {
    type V = EntityModel;

    open spec fn view(&self) -> EntityModel {
        EntityModel { slug: self.slug@, label: self.label@, aliases: strs(self.aliases@) }
    }
}

pub open spec fn ref_views(v: Seq<EntityRef>) -> Seq<EntityModel> {
    v.map_values(|e: EntityRef| e@)
}

/// Each element before each later one.
pub open spec fn strictly_sorted(ks: Seq<Seq<char>>) -> bool {
    forall|i: int, j: int| 0 <= i < j < ks.len() ==> lex_lt(#[trigger] ks[i], #[trigger] ks[j])
}

pub open spec fn slugs(es: Seq<EntityModel>) -> Seq<Seq<char>> {
    es.map_values(|e: EntityModel| e.slug)
}

/// `es` is map `m` in order: sorted strictly by slug, each entry with the
/// label and (strictly sorted) aliases that `m` holds for its slug, and every
/// slug of `m` present.
pub open spec fn lists(es: Seq<EntityModel>, m: EntityMap) -> bool {
    &&& strictly_sorted(slugs(es))
    &&& forall|i: int| 0 <= i < es.len() ==> strictly_sorted(#[trigger] es[i].aliases)
    &&& forall|i: int|
        0 <= i < es.len() ==> m.dom().contains(#[trigger] es[i].slug) && m[es[i].slug] == (
            es[i].label,
            es[i].aliases.to_set(),
        )
    &&& forall|k: Seq<char>| #[trigger] m.dom().contains(k) ==> slugs(es).contains(k)
}

proof fn lemma_sorted_distinct(ks: Seq<Seq<char>>, i: int, j: int)
    requires
        strictly_sorted(ks),
        0 <= i < ks.len(),
        0 <= j < ks.len(),
        i != j,
    ensures
        ks[i] != ks[j],
{
    if ks[i] == ks[j] {
        lemma_lex_irreflexive(ks[i]);
        if i < j {
            assert(lex_lt(ks[i], ks[j]));
        } else {
            assert(lex_lt(ks[j], ks[i]));
        }
    }
}

/// Where `k` goes in sorted `ks`, found by skipping the smaller elements:
/// either `k` is there already, or it is absent and inserting it there keeps
/// `ks` sorted.
proof fn lemma_place(ks: Seq<Seq<char>>, i: int, k: Seq<char>)
    requires
        strictly_sorted(ks),
        0 <= i <= ks.len(),
        forall|j: int| 0 <= j < i ==> lex_lt(#[trigger] ks[j], k),
        i == ks.len() || !lex_lt(ks[i], k),
    ensures
        i < ks.len() && ks[i] == k || (!ks.contains(k) && strictly_sorted(ks.insert(i, k))),
{
    if i < ks.len() && ks[i] == k {
        return;
    }
    if i < ks.len() {
        lemma_lex_total(ks[i], k);
        assert forall|j: int| i <= j < ks.len() implies lex_lt(k, #[trigger] ks[j]) by {
            if j > i {
                assert(lex_lt(ks[i], ks[j]));
                lemma_lex_transitive(k, ks[i], ks[j]);
            }
        }
    }
    assert forall|j: int| 0 <= j < ks.len() implies #[trigger] ks[j] != k by {
        lemma_lex_irreflexive(k);
        if j < i {
            assert(lex_lt(ks[j], k));
        } else {
            assert(lex_lt(k, ks[j]));
        }
    }
    let n = ks.insert(i, k);
    assert forall|a: int, b: int| 0 <= a < b < n.len() implies lex_lt(#[trigger] n[a], #[trigger] n[b]) by {
        if b < i {
            assert(n[a] == ks[a] && n[b] == ks[b]);
        } else if b == i {
            assert(n[a] == ks[a]);
        } else if a < i {
            assert(n[a] == ks[a] && n[b] == ks[b - 1]);
            lemma_lex_transitive(ks[a], k, ks[b - 1]);
        } else if a == i {
            assert(n[b] == ks[b - 1]);
        } else {
            assert(n[a] == ks[a - 1] && n[b] == ks[b - 1]);
        }
    }
}

/// Two strictly sorted sequences with the same elements are the same.
proof fn lemma_sorted_same_elements(a: Seq<Seq<char>>, b: Seq<Seq<char>>)
    requires
        strictly_sorted(a),
        strictly_sorted(b),
        a.to_set() == b.to_set(),
    ensures
        a == b,
    decreases a.len(),
{
    if a.len() == 0 {
        if b.len() > 0 {
            assert(b.to_set().contains(b[0]));
            assert(a.to_set().contains(b[0]));
        }
        assert(a =~= b);
        return;
    }
    if b.len() == 0 {
        assert(a.to_set().contains(a[0]));
        assert(b.to_set().contains(a[0]));
    }
    assert(b.to_set().contains(a[0]) && a.to_set().contains(b[0])) by {
        assert(a.to_set().contains(a[0]));
        assert(b.to_set().contains(b[0]));
    }
    let j = choose|j: int| 0 <= j < b.len() && b[j] == a[0];
    let i = choose|i: int| 0 <= i < a.len() && a[i] == b[0];
    if a[0] != b[0] {
        assert(j > 0 && i > 0);
        assert(lex_lt(b[0], b[j]));
        assert(lex_lt(a[0], a[i]));
        lemma_lex_asymmetric(b[0], a[0]);
    }
    let a1 = a.drop_first();
    let b1 = b.drop_first();
    assert(strictly_sorted(a1)) by {
        assert forall|x: int, y: int| 0 <= x < y < a1.len() implies lex_lt(#[trigger] a1[x], #[trigger] a1[y]) by {
            assert(a1[x] == a[x + 1] && a1[y] == a[y + 1]);
        }
    }
    assert(strictly_sorted(b1)) by {
        assert forall|x: int, y: int| 0 <= x < y < b1.len() implies lex_lt(#[trigger] b1[x], #[trigger] b1[y]) by {
            assert(b1[x] == b[x + 1] && b1[y] == b[y + 1]);
        }
    }
    assert(a1.to_set() =~= b1.to_set()) by {
        assert forall|x: Seq<char>| a1.to_set().contains(x) implies b1.to_set().contains(x) by {
            let p = choose|p: int| 0 <= p < a1.len() && a1[p] == x;
            assert(a[p + 1] == x);
            lemma_sorted_distinct(a, 0, p + 1);
            assert(a.to_set().contains(x));
            let q = choose|q: int| 0 <= q < b.len() && b[q] == x;
            if q == 0 {
                assert(x == a[0]);
            } else {
                assert(b1[q - 1] == x);
            }
        }
        assert forall|x: Seq<char>| b1.to_set().contains(x) implies a1.to_set().contains(x) by {
            let p = choose|p: int| 0 <= p < b1.len() && b1[p] == x;
            assert(b[p + 1] == x);
            lemma_sorted_distinct(b, 0, p + 1);
            assert(b.to_set().contains(x));
            let q = choose|q: int| 0 <= q < a.len() && a[q] == x;
            if q == 0 {
                assert(x == b[0]);
            } else {
                assert(a1[q - 1] == x);
            }
        }
    }
    lemma_sorted_same_elements(a1, b1);
    assert(a =~= seq![a[0]] + a1);
    assert(b =~= seq![b[0]] + b1);
}

/// A map has one listing: two lists of the same map are the same list, so
/// the contracts stated with [`lists`] fix the entities exactly.
pub proof fn law_listing_is_unique(es1: Seq<EntityModel>, es2: Seq<EntityModel>, m: EntityMap)
    requires
        lists(es1, m),
        lists(es2, m),
    ensures
        es1 == es2,
{
    assert(slugs(es1).to_set() =~= slugs(es2).to_set()) by {
        assert forall|k: Seq<char>| slugs(es1).to_set().contains(k) implies slugs(es2).to_set().contains(k) by {
            let i = choose|i: int| 0 <= i < slugs(es1).len() && slugs(es1)[i] == k;
            assert(es1[i].slug == k);
            assert(m.dom().contains(es1[i].slug));
        }
        assert forall|k: Seq<char>| slugs(es2).to_set().contains(k) implies slugs(es1).to_set().contains(k) by {
            let i = choose|i: int| 0 <= i < slugs(es2).len() && slugs(es2)[i] == k;
            assert(es2[i].slug == k);
            assert(m.dom().contains(es2[i].slug));
        }
    }
    lemma_sorted_same_elements(slugs(es1), slugs(es2));
    assert(es1.len() == slugs(es1).len() && es2.len() == slugs(es2).len());
    assert forall|i: int| 0 <= i < es1.len() implies es1[i] == es2[i] by {
        assert(slugs(es1)[i] == slugs(es2)[i]);
        let k = es1[i].slug;
        assert(m.dom().contains(es1[i].slug));
        assert(m.dom().contains(es2[i].slug));
        assert(m[k] == (es1[i].label, es1[i].aliases.to_set()));
        assert(m[k] == (es2[i].label, es2[i].aliases.to_set()));
        assert(strictly_sorted(es1[i].aliases));
        assert(strictly_sorted(es2[i].aliases));
        lemma_sorted_same_elements(es1[i].aliases, es2[i].aliases);
    }
    assert(es1 =~= es2);
}

/// Adds `a` to sorted `v` unless it is there.
fn insert_sorted(v: &mut Vec<Vec<char>>, a: Vec<char>)
    requires
        strictly_sorted(views(old(v)@)),
    ensures
        strictly_sorted(views(final(v)@)),
        views(final(v)@).to_set() == views(old(v)@).to_set().insert(a@),
{
    let ghost ks = views(v@);
    let mut i: usize = 0;
    while i < v.len() && lex_lt_exec(&v[i], &a)
        invariant
            i <= v@.len(),
            ks == views(v@),
            forall|j: int| 0 <= j < i ==> lex_lt(#[trigger] ks[j], a@),
        decreases v.len() - i,
    {
        i += 1;
    }
    proof {
        lemma_place(ks, i as int, a@);
    }
    if i < v.len() && chars_eq(&v[i], &a) {
        assert(ks.to_set() =~= ks.to_set().insert(a@)) by {
            assert(ks[i as int] == a@);
        }
        return;
    }
    let ghost av = a@;
    v.insert(i, a);
    assert(views(v@) =~= ks.insert(i as int, av));
    assert(views(v@).to_set() =~= ks.to_set().insert(av)) by {
        assert forall|x: Seq<char>| views(v@).contains(x) implies ks.to_set().insert(av).contains(x) by {
            let j = choose|j: int| 0 <= j < views(v@).len() && views(v@)[j] == x;
            if j < i {
                assert(ks[j] == x);
            } else if j > i {
                assert(ks[j - 1] == x);
            }
        }
        assert forall|x: Seq<char>| ks.to_set().insert(av).contains(x) implies views(v@).contains(x) by {
            if x == av {
                assert(views(v@)[i as int] == x);
            } else {
                let j = choose|j: int| 0 <= j < ks.len() && ks[j] == x;
                if j < i {
                    assert(views(v@)[j] == x);
                } else {
                    assert(views(v@)[j + 1] == x);
                }
            }
        }
    }
}

/// An entity being collected.
struct Entry {
    slug: Vec<char>,
    label: Vec<char>,
    aliases: Vec<Vec<char>>,
}

impl View for Entry {
    type V = EntityModel;

    closed spec fn view(&self) -> EntityModel {
        EntityModel { slug: self.slug@, label: self.label@, aliases: views(self.aliases@) }
    }
}

spec fn entry_views(v: Seq<Entry>) -> Seq<EntityModel> {
    v.map_values(|e: Entry| e@)
}

/// Records `alias` under `slug` (see [`noted`]).
fn note(es: &mut Vec<Entry>, slug: &[char], label: &[char], alias: Vec<char>, Ghost(m): Ghost<EntityMap>)
    requires
        lists(entry_views(old(es)@), m),
    ensures
        lists(entry_views(final(es)@), noted(m, slug@, label@, alias@)),
{
    let ghost es0 = entry_views(es@);
    let ghost ks = slugs(es0);
    let mut i: usize = 0;
    while i < es.len() && lex_lt_exec(&es[i].slug, slug)
        invariant
            i <= es@.len(),
            es0 == entry_views(es@),
            ks == slugs(es0),
            forall|j: int| 0 <= j < i ==> lex_lt(#[trigger] ks[j], slug@),
        decreases es.len() - i,
    {
        assert(ks[i as int] == es@[i as int].slug@);
        i += 1;
    }
    proof {
        if i < es@.len() {
            assert(ks[i as int] == es@[i as int].slug@);
        }
        lemma_place(ks, i as int, slug@);
    }
    let ghost m2 = noted(m, slug@, label@, alias@);
    if i < es.len() && chars_eq(&es[i].slug, slug) {
        let mut e = es.remove(i);
        assert(e@ == es0[i as int]);
        proof {
            assert(m.dom().contains(slug@));
        }
        let ghost old_aliases = views(e.aliases@);
        insert_sorted(&mut e.aliases, alias);
        let ghost e2 = e@;
        es.insert(i, e);
        proof {
            let es1 = entry_views(es@);
            assert(es1 =~= es0.update(i as int, e2));
            assert(slugs(es1) =~= ks);
            assert forall|j: int| 0 <= j < es1.len() && j != i implies #[trigger] es1[j].slug != slug@ by {
                lemma_sorted_distinct(ks, i as int, j);
            }
            assert forall|j: int| 0 <= j < es1.len() implies m2.dom().contains(#[trigger] es1[j].slug)
                && m2[es1[j].slug] == (es1[j].label, es1[j].aliases.to_set()) by {
                if j == i as int {
                    assert(m[slug@] == (es0[j].label, old_aliases.to_set()));
                }
            }
            assert forall|k: Seq<char>| #[trigger] m2.dom().contains(k) implies slugs(es1).contains(k) by {
                if k != slug@ {
                    assert(m.dom().contains(k));
                    assert(slugs(es0).contains(k));
                } else {
                    assert(slugs(es1)[i as int] == k);
                }
            }
            assert forall|j: int| 0 <= j < es1.len() implies strictly_sorted(#[trigger] es1[j].aliases) by {
                if j != i as int {
                    assert(es1[j] == es0[j]);
                }
            }
        }
    } else {
        let mut aliases: Vec<Vec<char>> = Vec::new();
        let ghost av = alias@;
        aliases.push(alias);
        let e = Entry { slug: copy_chars(slug), label: copy_chars(label), aliases: aliases };
        assert(views(e.aliases@) =~= seq![av]);
        es.insert(i, e);
        proof {
            let es1 = entry_views(es@);
            assert(es1 =~= es0.insert(i as int, e@));
            assert(slugs(es1) =~= ks.insert(i as int, slug@));
            assert(!m.dom().contains(slug@)) by {
                if m.dom().contains(slug@) {
                    assert(slugs(es0).contains(slug@));
                }
            }
            assert(seq![av].to_set() =~= Set::empty().insert(av)) by {
                assert forall|x: Seq<char>| seq![av].contains(x) implies x == av by {
                    let j = choose|j: int| 0 <= j < 1 && seq![av][j] == x;
                }
                assert(seq![av][0] == av);
            }
            assert forall|j: int| 0 <= j < es1.len() implies m2.dom().contains(#[trigger] es1[j].slug)
                && m2[es1[j].slug] == (es1[j].label, es1[j].aliases.to_set()) by {
                if j < i {
                    assert(es1[j] == es0[j]);
                    assert(es0[j].slug != slug@);
                } else if j > i {
                    assert(es1[j] == es0[j - 1]);
                    assert(es0[j - 1].slug != slug@);
                }
            }
            assert forall|k: Seq<char>| #[trigger] m2.dom().contains(k) implies slugs(es1).contains(k) by {
                if k != slug@ {
                    assert(m.dom().contains(k));
                    let j = choose|j: int| 0 <= j < ks.len() && ks[j] == k;
                    if j < i {
                        assert(slugs(es1)[j] == k);
                    } else {
                        assert(slugs(es1)[j + 1] == k);
                    }
                } else {
                    assert(slugs(es1)[i as int] == k);
                }
            }
            assert forall|j: int| 0 <= j < es1.len() implies strictly_sorted(#[trigger] es1[j].aliases) by {
                if j < i {
                    assert(es1[j] == es0[j]);
                } else if j > i {
                    assert(es1[j] == es0[j - 1]);
                }
            }
        }
    }
}

// ---------------------------------------------------------------------------
// People and projects
// ---------------------------------------------------------------------------

/// A person's name: trimmed, without leading `@`.
pub open spec fn person_name(raw: Seq<char>) -> Seq<char> {
    trim(trim_start_by(trim(raw), CharClass::Exact('@')))
}

/// The map with the person `raw` names, unless the name is empty,
/// `unassigned` (in any ASCII case) or has no slug.  Aliases: the lowercase
/// name, and the lowercase trimmed raw text when that differs.
pub open spec fn with_person(m: EntityMap, raw: Seq<char>) -> EntityMap {
    let name = person_name(raw);
    let label = title_label(name);
    let slug = slug_of(label);
    if name.len() == 0 || eq_ignore_ascii_case(name, "unassigned"@) || slug.len() == 0 {
        m
    } else {
        let m1 = noted(m, slug, label, lower(name));
        if trim(raw) != name {
            noted(m1, slug, label, lower(trim(raw)))
        } else {
            m1
        }
    }
}

/// Names that are no project.
pub open spec fn generic_projects() -> Seq<Seq<char>> {
    seq![
        "untitled recording"@, "follow up"@, "another follow up"@, "voice memo"@, "meeting"@,
        "recording"@,
    ]
}

/// The map with the project `raw` names (see [`entity_topic`]), unless that
/// is empty, generic or has no slug.  Aliases: the project name, and the
/// lowercase normalised `alias_source` when given and not empty.
pub open spec fn with_project(m: EntityMap, raw: Seq<char>, alias_source: Option<Seq<char>>) -> EntityMap {
    let normalized = entity_topic(raw);
    let label = title_label(normalized);
    let slug = slug_of(label);
    if normalized.len() == 0 || generic_projects().contains(normalized) || slug.len() == 0 {
        m
    } else {
        let m1 = noted(m, slug, label, normalized);
        match alias_source {
            Some(a) => if normalize_space(a).len() > 0 {
                noted(m1, slug, label, lower(normalize_space(a)))
            } else {
                m1
            },
            None => m1,
        }
    }
}

fn add_person_entity(es: &mut Vec<Entry>, raw: &[char], Ghost(m): Ghost<EntityMap>)
    requires
        lists(entry_views(old(es)@), m),
    ensures
        lists(entry_views(final(es)@), with_person(m, raw@)),
{
    let traw = trim_ws(raw);
    let name = trim_ws(&trim_start_chars(&traw, CharClass::Exact('@')));
    if name.len() == 0 || crate::speakers::eq_ignore_ascii_case_exec(&name, &crate::text::lit("unassigned")) {
        return;
    }
    let label = title_label_chars(&name);
    let slug = slug_chars(&label);
    if slug.len() == 0 {
        return;
    }
    note(es, &slug, &label, lower_chars(&name), Ghost(m));
    if !chars_eq(&traw, &name) {
        let ghost m1 = noted(m, slug@, label@, lower(name@));
        note(es, &slug, &label, lower_chars(&traw), Ghost(m1));
    }
}

fn add_project_entity(
    es: &mut Vec<Entry>,
    raw: &[char],
    alias_source: Option<&[char]>,
    Ghost(m): Ghost<EntityMap>,
)
    requires
        lists(entry_views(old(es)@), m),
    ensures
        lists(
            entry_views(final(es)@),
            with_project(
                m,
                raw@,
                match alias_source {
                    Some(a) => Some(a@),
                    None => None,
                },
            ),
        ),
{
    let normalized = entity_topic_chars(raw);
    if normalized.len() == 0 {
        return;
    }
    let generic = lits(
        &["untitled recording", "follow up", "another follow up", "voice memo", "meeting", "recording"],
    );
    assert(views(generic@) =~= generic_projects());
    if member(&normalized, &generic) {
        return;
    }
    let label = title_label_chars(&normalized);
    let slug = slug_chars(&label);
    if slug.len() == 0 {
        return;
    }
    note(es, &slug, &label, copy_chars(&normalized), Ghost(m));
    let ghost m1 = noted(m, slug@, label@, normalized@);
    match alias_source {
        Some(a) => {
            let cleaned = normalize_space_chars(a);
            if cleaned.len() > 0 {
                note(es, &slug, &label, lower_chars(&cleaned), Ghost(m1));
            }
        },
        None => {},
    }
}

/// The map after each of `raws`, in order (see [`with_person`]).
pub open spec fn people_from(raws: Seq<Seq<char>>) -> EntityMap
    decreases raws.len(),
{
    if raws.len() == 0 {
        Map::empty()
    } else {
        with_person(people_from(raws.drop_last()), raws.last())
    }
}

/// The map after each of `sources`, in order (see [`with_project`]).
pub open spec fn projects_from(sources: Seq<(Seq<char>, Option<Seq<char>>)>) -> EntityMap
    decreases sources.len(),
{
    if sources.len() == 0 {
        Map::empty()
    } else {
        with_project(projects_from(sources.drop_last()), sources.last().0, sources.last().1)
    }
}

/// Those intents' people who are named.
pub open spec fn intent_people(intents: Seq<IntentModel>) -> Seq<Seq<char>>
    decreases intents.len(),
{
    if intents.len() == 0 {
        seq![]
    } else {
        let r = intent_people(intents.drop_last());
        match intents.last().who {
            Some(w) => r.push(w),
            None => r,
        }
    }
}

/// Who a meeting involves, in the order they are recorded: attendees,
/// action item assignees, then the people intents name.
pub open spec fn people_sources(
    attendees: Seq<Seq<char>>,
    action_items: Seq<ActionModel>,
    intents: Seq<IntentModel>,
) -> Seq<Seq<char>> {
    attendees + action_items.map_values(|a: ActionModel| a.assignee) + intent_people(intents)
}

/// What names a project, in order, with the alias each brings: decisions
/// (by topic, the decision's text as alias, else by text), the pre-meeting
/// context, the title, then the tags.
pub open spec fn project_sources(
    title: Seq<char>,
    pre_context: Option<Seq<char>>,
    decisions: Seq<DecisionModel>,
    tags: Seq<Seq<char>>,
) -> Seq<(Seq<char>, Option<Seq<char>>)> {
    decisions.map_values(
        |d: DecisionModel|
            match d.topic {
                Some(t) => (t, Some(d.text)),
                None => (d.text, None::<Seq<char>>),
            },
    ) + match pre_context {
        Some(c) => seq![(c, None::<Seq<char>>)],
        None => seq![],
    } + seq![(title, None::<Seq<char>>)] + tags.map_values(|t: Seq<char>| (t, None::<Seq<char>>))
}

fn to_refs(es: Vec<Entry>) -> (r: Vec<EntityRef>)
    ensures
        ref_views(r@) == entry_views(es@),
{
    let mut r: Vec<EntityRef> = Vec::new();
    let mut i: usize = 0;
    while i < es.len()
        invariant
            i <= es@.len(),
            ref_views(r@) == entry_views(es@).take(i as int),
        decreases es.len() - i,
    {
        let e = &es[i];
        let aliases = crate::text::to_strings(&e.aliases);
        let x = EntityRef { slug: string_from(&e.slug), label: string_from(&e.label), aliases: aliases };
        assert(x@ == e@);
        let ghost prev = ref_views(r@);
        r.push(x);
        assert(ref_views(r@) =~= prev.push(x@));
        i += 1;
        assert(ref_views(r@) =~= entry_views(es@).take(i as int));
    }
    assert(entry_views(es@).take(es@.len() as int) =~= entry_views(es@));
    r
}

proof fn lemma_lists_empty()
    ensures
        lists(Seq::<EntityModel>::empty(), Map::empty()),
{
    assert(slugs(Seq::<EntityModel>::empty()) =~= Seq::<Seq<char>>::empty());
}

fn collect_people(raws: &[Vec<char>]) -> (r: Vec<Entry>)
    ensures
        lists(entry_views(r@), people_from(views(raws@))),
{
    let mut es: Vec<Entry> = Vec::new();
    proof {
        lemma_lists_empty();
        assert(entry_views(es@) =~= Seq::<EntityModel>::empty());
        assert(views(raws@).take(0) =~= Seq::<Seq<char>>::empty());
    }
    let mut i: usize = 0;
    while i < raws.len()
        invariant
            i <= raws@.len(),
            lists(entry_views(es@), people_from(views(raws@).take(i as int))),
        decreases raws.len() - i,
    {
        let ghost m = people_from(views(raws@).take(i as int));
        add_person_entity(&mut es, &raws[i], Ghost(m));
        assert(views(raws@).take(i + 1).drop_last() =~= views(raws@).take(i as int));
        i += 1;
    }
    assert(views(raws@).take(raws@.len() as int) =~= views(raws@));
    es
}

pub open spec fn source_views(v: Seq<(Vec<char>, Option<Vec<char>>)>) -> Seq<(Seq<char>, Option<Seq<char>>)> {
    v.map_values(
        |s: (Vec<char>, Option<Vec<char>>)|
            (
                s.0@,
                match s.1 {
                    Some(a) => Some(a@),
                    None => None,
                },
            ),
    )
}

fn collect_projects(sources: &[(Vec<char>, Option<Vec<char>>)]) -> (r: Vec<Entry>)
    ensures
        lists(entry_views(r@), projects_from(source_views(sources@))),
{
    let mut es: Vec<Entry> = Vec::new();
    proof {
        lemma_lists_empty();
        assert(entry_views(es@) =~= Seq::<EntityModel>::empty());
        assert(source_views(sources@).take(0) =~= Seq::<(Seq<char>, Option<Seq<char>>)>::empty());
    }
    let mut i: usize = 0;
    while i < sources.len()
        invariant
            i <= sources@.len(),
            lists(entry_views(es@), projects_from(source_views(sources@).take(i as int))),
        decreases sources.len() - i,
    {
        let ghost m = projects_from(source_views(sources@).take(i as int));
        let (raw, alias) = &sources[i];
        match alias {
            Some(a) => add_project_entity(&mut es, raw, Some(a.as_slice()), Ghost(m)),
            None => add_project_entity(&mut es, raw, None, Ghost(m)),
        }
        assert(source_views(sources@).take(i + 1).drop_last() =~= source_views(sources@).take(i as int));
        assert(source_views(sources@).take(i + 1).last() == source_views(sources@)[i as int]);
        i += 1;
    }
    assert(source_views(sources@).take(sources@.len() as int) =~= source_views(sources@));
    es
}

/// The people and projects a meeting mentions: `people` lists the map
/// [`people_from`] builds over [`people_sources`], `projects` the one
/// [`projects_from`] builds over [`project_sources`], each in slug order.
pub fn build_entity_links(
    title: &str,
    pre_context: Option<&str>,
    attendees: &[String],
    action_items: &[ActionItem],
    decisions: &[Decision],
    intents: &[Intent],
    tags: &[String],
) -> (r: EntityLinks)
    ensures
        lists(
            ref_views(r.people@),
            people_from(
                people_sources(strs(attendees@), action_views(action_items@), intent_views(intents@)),
            ),
        ),
        lists(
            ref_views(r.projects@),
            projects_from(
                project_sources(
                    title@,
                    match pre_context {
                        Some(c) => Some(c@),
                        None => None,
                    },
                    decision_views(decisions@),
                    strs(tags@),
                ),
            ),
        ),
{
    let ghost want_people = people_sources(
        strs(attendees@),
        action_views(action_items@),
        intent_views(intents@),
    );
    let mut raws: Vec<Vec<char>> = Vec::new();
    let mut i: usize = 0;
    while i < attendees.len()
        invariant
            i <= attendees@.len(),
            views(raws@) == strs(attendees@).take(i as int),
        decreases attendees.len() - i,
    {
        let c = chars_of(attendees[i].as_str());
        let ghost prev = views(raws@);
        raws.push(c);
        assert(views(raws@) =~= prev.push(c@));
        i += 1;
        assert(views(raws@) =~= strs(attendees@).take(i as int));
    }
    assert(strs(attendees@).take(attendees@.len() as int) =~= strs(attendees@));
    let ghost p1 = strs(attendees@);
    let ghost p2 = action_views(action_items@).map_values(|a: ActionModel| a.assignee);
    let mut i: usize = 0;
    assert(p1 + p2.take(0) =~= p1);
    while i < action_items.len()
        invariant
            i <= action_items@.len(),
            p2 == action_views(action_items@).map_values(|a: ActionModel| a.assignee),
            views(raws@) == p1 + p2.take(i as int),
        decreases action_items.len() - i,
    {
        let c = chars_of(action_items[i].assignee.as_str());
        let ghost prev = views(raws@);
        raws.push(c);
        assert(views(raws@) =~= prev.push(c@));
        i += 1;
        assert(views(raws@) =~= p1 + p2.take(i as int));
    }
    assert(p2.take(action_items@.len() as int) =~= p2);
    let mut i: usize = 0;
    assert(intent_views(intents@).take(0) =~= Seq::<IntentModel>::empty());
    assert(p1 + p2 + intent_people(Seq::<IntentModel>::empty()) =~= p1 + p2);
    while i < intents.len()
        invariant
            i <= intents@.len(),
            views(raws@) == p1 + p2 + intent_people(intent_views(intents@).take(i as int)),
        decreases intents.len() - i,
    {
        assert(intent_views(intents@).take(i + 1).drop_last() =~= intent_views(intents@).take(i as int));
        assert(intent_views(intents@).take(i + 1).last() == intents@[i as int]@);
        match &intents[i].who {
            Some(w) => {
                let c = chars_of(w.as_str());
                let ghost prev = views(raws@);
                raws.push(c);
                assert(views(raws@) =~= prev.push(c@));
            },
            None => {},
        }
        i += 1;
    }
    assert(intent_views(intents@).take(intents@.len() as int) =~= intent_views(intents@));
    assert(views(raws@) =~= want_people);
    let people = collect_people(&raws);

    let ghost want_projects = project_sources(
        title@,
        match pre_context {
            Some(c) => Some(c@),
            None => None,
        },
        decision_views(decisions@),
        strs(tags@),
    );
    let ghost q1 = decision_views(decisions@).map_values(
        |d: DecisionModel|
            match d.topic {
                Some(t) => (t, Some(d.text)),
                None => (d.text, None::<Seq<char>>),
            },
    );
    let mut sources: Vec<(Vec<char>, Option<Vec<char>>)> = Vec::new();
    let mut i: usize = 0;
    while i < decisions.len()
        invariant
            i <= decisions@.len(),
            q1 == decision_views(decisions@).map_values(
                |d: DecisionModel|
                    match d.topic {
                        Some(t) => (t, Some(d.text)),
                        None => (d.text, None::<Seq<char>>),
                    },
            ),
            source_views(sources@) == q1.take(i as int),
        decreases decisions.len() - i,
    {
        let d = &decisions[i];
        let s = match &d.topic {
            Some(t) => (chars_of(t.as_str()), Some(chars_of(d.text.as_str()))),
            None => (chars_of(d.text.as_str()), None),
        };
        let ghost prev = source_views(sources@);
        sources.push(s);
        assert(source_views(sources@) =~= prev.push(q1[i as int]));
        i += 1;
        assert(source_views(sources@) =~= q1.take(i as int));
    }
    assert(q1.take(decisions@.len() as int) =~= q1);
    match pre_context {
        Some(c) => {
            let ghost prev = source_views(sources@);
            sources.push((chars_of(c), None));
            assert(source_views(sources@) =~= prev + seq![(c@, None::<Seq<char>>)]);
        },
        None => {},
    }
    let ghost before_title = source_views(sources@);
    sources.push((chars_of(title), None));
    assert(source_views(sources@) =~= before_title + seq![(title@, None::<Seq<char>>)]);
    let ghost before_tags = source_views(sources@);
    let ghost q4 = strs(tags@).map_values(|t: Seq<char>| (t, None::<Seq<char>>));
    let mut i: usize = 0;
    assert(before_tags + q4.take(0) =~= before_tags);
    while i < tags.len()
        invariant
            i <= tags@.len(),
            q4 == strs(tags@).map_values(|t: Seq<char>| (t, None::<Seq<char>>)),
            source_views(sources@) == before_tags + q4.take(i as int),
        decreases tags.len() - i,
    {
        let ghost prev = source_views(sources@);
        sources.push((chars_of(tags[i].as_str()), None));
        assert(source_views(sources@) =~= prev.push(q4[i as int]));
        i += 1;
        assert(source_views(sources@) =~= before_tags + q4.take(i as int));
    }
    assert(q4.take(tags@.len() as int) =~= q4);
    assert(source_views(sources@) =~= want_projects);
    let projects = collect_projects(&sources);
    EntityLinks { people: to_refs(people), projects: to_refs(projects) }
}

} // verus!
