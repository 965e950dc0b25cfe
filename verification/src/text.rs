//! Character and text primitives shared by the rest of the library.
//!
//! Text is modelled as `Seq<char>`.  Unicode classification and case
//! mapping come from `char` and `str` in std; their results on non-ASCII
//! characters are named, and what std's own source fixes for ASCII is stated.
use vstd::prelude::*;

verus! {

/// What `char::is_whitespace` returns for `c`.
pub uninterp spec fn char_whitespace(c: char) -> bool;

/// What `char::is_alphanumeric` returns for `c`.
pub uninterp spec fn char_alphanumeric(c: char) -> bool;

/// What `str::to_lowercase` returns for a string whose characters are `s`.
pub uninterp spec fn str_lowercase(s: Seq<char>) -> Seq<char>;

/// What `char::to_uppercase` yields, collected, for `c`.
pub uninterp spec fn char_uppercase(c: char) -> Seq<char>;

pub open spec fn is_ascii_char(c: char) -> bool {
    (c as u32) < 0x80
}

pub open spec fn ascii_whitespace(c: char) -> bool {
    c == ' ' || ('\t' <= c && c <= '\r')
}

pub open spec fn ascii_letter(c: char) -> bool {
    ('a' <= c && c <= 'z') || ('A' <= c && c <= 'Z')
}

pub open spec fn ascii_digit(c: char) -> bool {
    '0' <= c && c <= '9'
}

pub open spec fn ascii_upper(c: char) -> bool {
    'A' <= c && c <= 'Z'
}

pub open spec fn ascii_lower(c: char) -> bool {
    'a' <= c && c <= 'z'
}

pub open spec fn ascii_to_lower(c: char) -> char {
    if ascii_upper(c) {
        ((c as u32) + 32) as char
    } else {
        c
    }
}

pub open spec fn all_ascii(s: Seq<char>) -> bool {
    forall|i: int| 0 <= i < s.len() ==> is_ascii_char(#[trigger] s[i])
}

/// Whitespace as `char::is_whitespace` classifies it.
pub open spec fn is_ws(c: char) -> bool {
    if is_ascii_char(c) {
        ascii_whitespace(c)
    } else {
        char_whitespace(c)
    }
}

/// Letters and digits as `char::is_alphanumeric` classifies them.
pub open spec fn is_alnum(c: char) -> bool {
    if is_ascii_char(c) {
        ascii_letter(c) || ascii_digit(c)
    } else {
        char_alphanumeric(c)
    }
}

/// Lowercase as `str::to_lowercase` maps it.
pub open spec fn lower(s: Seq<char>) -> Seq<char> {
    if all_ascii(s) {
        s.map_values(|c: char| ascii_to_lower(c))
    } else {
        str_lowercase(s)
    }
}

/// `char::is_whitespace`: ASCII whitespace is space and `\t`..=`\r`
/// (std's `char::is_whitespace` matches these before consulting Unicode data).
#[verifier::external_body]
pub(crate) fn is_whitespace(c: char) -> (b: bool)
    ensures
        b == char_whitespace(c),
        b == is_ws(c),
{
    c.is_whitespace()
}

/// `char::is_alphanumeric`: on ASCII it is exactly letters and digits
/// (std's `is_alphabetic` and `is_numeric` match those ranges first).
#[verifier::external_body]
pub(crate) fn is_alphanumeric(c: char) -> (b: bool)
    ensures
        b == char_alphanumeric(c),
        b == is_alnum(c),
{
    c.is_alphanumeric()
}

/// `str::to_lowercase`.  Every character maps to at least one character, and
/// an all-ASCII string maps character by character to its ASCII lowercase
/// (std lowercases an ASCII run byte by byte).
#[verifier::external_body]
pub(crate) fn to_lowercase(s: &str) -> (r: String)
    ensures
        r@ == str_lowercase(s@),
        r@ == lower(s@),
        r@.len() >= s@.len(),
{
    s.to_lowercase()
}

/// `char::to_uppercase`, collected.  It yields at least one character, and an
/// ASCII character yields its ASCII uppercase alone.
#[verifier::external_body]
pub(crate) fn to_uppercase(c: char) -> (r: Vec<char>)
    ensures
        r@ == char_uppercase(c),
        r@.len() >= 1,
        ascii_lower(c) ==> r@ == seq![((c as u32) - 32) as char],
        is_ascii_char(c) && !ascii_lower(c) ==> r@ == seq![c],
{
    c.to_uppercase().collect()
}

/// Collects characters into a `String` (`FromIterator<&char>` for `String`).
#[verifier::external_body]
pub(crate) fn string_from(v: &[char]) -> (s: String)
    ensures
        s@ == v@,
{
    v.iter().collect()
}

/// The text an optional string holds.
pub open spec fn opt_view(o: Option<String>) -> Option<Seq<char>> {
    match o {
        Some(s) => Some(s@),
        None => None,
    }
}

/// The texts optional strings hold.
pub open spec fn opt_views(v: Seq<Option<String>>) -> Seq<Option<Seq<char>>> {
    v.map_values(|o: Option<String>| opt_view(o))
}

/// The characters of `s`, in order.
pub fn chars_of(s: &str) -> (v: Vec<char>)
    ensures
        v@ == s@,
{
    broadcast use vstd::string::group_string_axioms;
    let mut v: Vec<char> = Vec::new();
    for c in it: s.chars()
        invariant
            it.seq() == s@,
            v@ == s@.take(it.index() as int),
    {
        v.push(c);
    }
    assert(v@ =~= s@);
    v
}


// ---------------------------------------------------------------------------
// Character classes used for trimming and filtering
// ---------------------------------------------------------------------------

pub open spec fn ascii_punctuation(c: char) -> bool {
    ('!' <= c && c <= '/') || (':' <= c && c <= '@') || ('[' <= c && c <= '`') || ('{' <= c
        && c <= '~')
}

/// A set of characters that trimming and filtering can test for.
#[derive(Clone, Copy)]
pub enum CharClass {
    Whitespace,
    NotAlphanumeric,
    AlphanumericOrWhitespace,
    PunctuationOrWhitespace,
    Exact(char),
}

impl CharClass {
    pub open spec fn spec_has(self, c: char) -> bool {
        match self {
            CharClass::Whitespace => is_ws(c),
            CharClass::NotAlphanumeric => !is_alnum(c),
            CharClass::AlphanumericOrWhitespace => is_alnum(c) || is_ws(c),
            CharClass::PunctuationOrWhitespace => ascii_punctuation(c) || is_ws(c),
            CharClass::Exact(d) => c == d,
        }
    }

    pub fn has(&self, c: char) -> (b: bool)
        ensures
            b == self.spec_has(c),
    {
        match self {
            CharClass::Whitespace => is_whitespace(c),
            CharClass::NotAlphanumeric => !is_alphanumeric(c),
            CharClass::AlphanumericOrWhitespace => is_alphanumeric(c) || is_whitespace(c),
            CharClass::PunctuationOrWhitespace => {
                (('!' <= c && c <= '/') || (':' <= c && c <= '@') || ('[' <= c && c <= '`') || (
                '{' <= c && c <= '~')) || is_whitespace(c)
            },
            CharClass::Exact(d) => c == *d,
        }
    }
}

// ---------------------------------------------------------------------------
// Trimming
// ---------------------------------------------------------------------------

/// `s` without its leading characters of class `k`.
pub open spec fn trim_start_by(s: Seq<char>, k: CharClass) -> Seq<char>
    decreases s.len(),
{
    if s.len() > 0 && k.spec_has(s[0]) {
        trim_start_by(s.drop_first(), k)
    } else {
        s
    }
}

/// `s` without its trailing characters of class `k`.
pub open spec fn trim_end_by(s: Seq<char>, k: CharClass) -> Seq<char>
    decreases s.len(),
{
    if s.len() > 0 && k.spec_has(s.last()) {
        trim_end_by(s.drop_last(), k)
    } else {
        s
    }
}

/// `s` without leading and trailing characters of class `k` (`str::trim_matches`).
pub open spec fn trim_by(s: Seq<char>, k: CharClass) -> Seq<char> {
    trim_end_by(trim_start_by(s, k), k)
}

/// `str::trim`.
pub open spec fn trim(s: Seq<char>) -> Seq<char> {
    trim_by(s, CharClass::Whitespace)
}

pub fn trim_start_chars(s: &[char], k: CharClass) -> (r: Vec<char>)
    ensures
        r@ == trim_start_by(s@, k),
{
    let mut i: usize = 0;
    assert(s@.skip(0) =~= s@);
    while i < s.len() && k.has(s[i])
        invariant
            i <= s@.len(),
            trim_start_by(s@, k) == trim_start_by(s@.skip(i as int), k),
        decreases s.len() - i,
    {
        assert(s@.skip(i as int).drop_first() =~= s@.skip(i + 1));
        i += 1;
    }
    let mut r: Vec<char> = Vec::new();
    let mut j: usize = i;
    while j < s.len()
        invariant
            i <= j <= s@.len(),
            r@ == s@.subrange(i as int, j as int),
        decreases s.len() - j,
    {
        r.push(s[j]);
        j += 1;
        assert(r@ =~= s@.subrange(i as int, j as int));
    }
    assert(r@ =~= s@.skip(i as int));
    r
}

pub fn trim_end_chars(s: &[char], k: CharClass) -> (r: Vec<char>)
    ensures
        r@ == trim_end_by(s@, k),
{
    let mut e: usize = s.len();
    assert(s@.take(s@.len() as int) =~= s@);
    while e > 0 && k.has(s[e - 1])
        invariant
            e <= s@.len(),
            trim_end_by(s@, k) == trim_end_by(s@.take(e as int), k),
        decreases e,
    {
        assert(s@.take(e as int).drop_last() =~= s@.take(e - 1));
        e -= 1;
    }
    let r = copy_range(s, 0, e);
    assert(r@ =~= s@.take(e as int));
    r
}

pub fn trim_chars(s: &[char], k: CharClass) -> (r: Vec<char>)
    ensures
        r@ == trim_by(s@, k),
{
    let a = trim_start_chars(s, k);
    trim_end_chars(&a, k)
}

/// `str::trim` on characters.
pub fn trim_ws(s: &[char]) -> (r: Vec<char>)
    ensures
        r@ == trim(s@),
{
    trim_chars(s, CharClass::Whitespace)
}

/// The characters `s[from..to]`.
pub fn copy_range(s: &[char], from: usize, to: usize) -> (r: Vec<char>)
    requires
        from <= to <= s@.len(),
    ensures
        r@ == s@.subrange(from as int, to as int),
{
    let mut r: Vec<char> = Vec::new();
    let mut j: usize = from;
    while j < to
        invariant
            from <= j <= to <= s@.len(),
            r@ == s@.subrange(from as int, j as int),
        decreases to - j,
    {
        r.push(s[j]);
        j += 1;
        assert(r@ =~= s@.subrange(from as int, j as int));
    }
    r
}

/// Whether two character sequences are equal.
pub fn chars_eq(a: &[char], b: &[char]) -> (r: bool)
    ensures
        r == (a@ == b@),
{
    if a.len() != b.len() {
        return false;
    }
    let mut i: usize = 0;
    while i < a.len()
        invariant
            a@.len() == b@.len(),
            i <= a@.len(),
            forall|j: int| 0 <= j < i ==> a@[j] == b@[j],
        decreases a.len() - i,
    {
        if a[i] != b[i] {
            return false;
        }
        i += 1;
    }
    assert(a@ =~= b@);
    true
}

// ---------------------------------------------------------------------------
// Searching
// ---------------------------------------------------------------------------

pub open spec fn occurs_at(s: Seq<char>, pat: Seq<char>, i: int) -> bool {
    0 <= i && i + pat.len() <= s.len() && s.subrange(i, i + pat.len()) == pat
}

/// The first index at or after `i` where `pat` occurs in `s`.
pub open spec fn find_from(s: Seq<char>, pat: Seq<char>, i: nat) -> Option<int>
    decreases s.len() + 1 - i,
{
    if i + pat.len() > s.len() {
        None
    } else if occurs_at(s, pat, i as int) {
        Some(i as int)
    } else {
        find_from(s, pat, i + 1)
    }
}

/// `str::find` (as a character index).
pub open spec fn find(s: Seq<char>, pat: Seq<char>) -> Option<int> {
    find_from(s, pat, 0)
}

/// `str::contains`.
pub open spec fn contains(s: Seq<char>, pat: Seq<char>) -> bool {
    find(s, pat) is Some
}

/// `str::starts_with`.
pub open spec fn starts_with(s: Seq<char>, pat: Seq<char>) -> bool {
    pat.len() <= s.len() && s.take(pat.len() as int) == pat
}

pub fn occurs_at_exec(s: &[char], pat: &[char], i: usize) -> (r: bool)
    ensures
        r == occurs_at(s@, pat@, i as int),
{
    let n = s.len();
    if i > n || pat.len() > n - i {
        return false;
    }
    let mut j: usize = 0;
    while j < pat.len()
        invariant
            n == s@.len(),
            i + pat@.len() <= n,
            j <= pat@.len(),
            forall|k: int| 0 <= k < j ==> s@[i + k] == pat@[k],
        decreases pat.len() - j,
    {
        assert(i + j < s@.len());
        if s[i + j] != pat[j] {
            assert(s@.subrange(i as int, i + pat@.len())[j as int] != pat@[j as int]);
            return false;
        }
        j += 1;
    }
    assert(s@.subrange(i as int, i + pat@.len()) =~= pat@);
    true
}

pub fn find_chars(s: &[char], pat: &[char]) -> (r: Option<usize>)
    ensures
        r matches Some(i) ==> find(s@, pat@) == Some(i as int),
        r is None ==> find(s@, pat@) is None,
        r matches Some(i) ==> occurs_at(s@, pat@, i as int),
{
    if pat.len() > s.len() {
        return None;
    }
    let last = s.len() - pat.len();
    let mut i: usize = 0;
    while i <= last
        invariant
            last + pat@.len() == s@.len(),
            i <= last + 1,
            find(s@, pat@) == find_from(s@, pat@, i as nat),
        decreases last + 1 - i,
    {
        if occurs_at_exec(s, pat, i) {
            return Some(i);
        }
        if i == last {
            assert(find_from(s@, pat@, (i + 1) as nat) is None);
            return None;
        }
        i += 1;
    }
    None
}

pub fn starts_with_chars(s: &[char], pat: &[char]) -> (r: bool)
    ensures
        r == starts_with(s@, pat@),
{
    let r = occurs_at_exec(s, pat, 0);
    proof {
        if pat@.len() <= s@.len() {
            assert(s@.subrange(0, pat@.len() as int) =~= s@.take(pat@.len() as int));
        }
    }
    r
}

/// `str::ends_with`.
pub open spec fn ends_with(s: Seq<char>, pat: Seq<char>) -> bool {
    pat.len() <= s.len() && s.skip(s.len() - pat.len()) == pat
}

pub fn ends_with_chars(s: &[char], pat: &[char]) -> (r: bool)
    ensures
        r == ends_with(s@, pat@),
{
    if pat.len() > s.len() {
        return false;
    }
    let tail = copy_range(s, s.len() - pat.len(), s.len());
    assert(tail@ =~= s@.skip(s@.len() - pat@.len()));
    chars_eq(&tail, pat)
}

/// Whether `pat` occurs anywhere in `s`.
pub fn contains_chars(s: &[char], pat: &[char]) -> (r: bool)
    ensures
        r == contains(s@, pat@),
{
    find_chars(s, pat).is_some()
}

// ---------------------------------------------------------------------------
// Splitting and joining
// ---------------------------------------------------------------------------

pub open spec fn views(v: Seq<Vec<char>>) -> Seq<Seq<char>> {
    v.map_values(|x: Vec<char>| x@)
}

/// `str::split_whitespace`.
pub open spec fn words(s: Seq<char>) -> Seq<Seq<char>>
    decreases s.len(),
{
    if s.len() == 0 {
        seq![]
    } else {
        let w = words(s.drop_last());
        let c = s.last();
        if is_ws(c) {
            w
        } else if s.len() >= 2 && !is_ws(s[s.len() - 2]) {
            w.update(w.len() - 1, w.last().push(c))
        } else {
            w.push(seq![c])
        }
    }
}

pub proof fn lemma_words_nonempty(s: Seq<char>)
    requires
        s.len() > 0,
        !is_ws(s.last()),
    ensures
        words(s).len() > 0,
    decreases s.len(),
{
    if s.len() >= 2 && !is_ws(s[s.len() - 2]) {
        lemma_words_nonempty(s.drop_last());
    }
}

/// The whitespace-separated words of `s`.
pub fn words_of(s: &[char]) -> (r: Vec<Vec<char>>)
    ensures
        views(r@) == words(s@),
{
    let mut res: Vec<Vec<char>> = Vec::new();
    let mut cur: Vec<char> = Vec::new();
    let mut in_word = false;
    let mut i: usize = 0;
    while i < s.len()
        invariant
            i <= s@.len(),
            in_word == (i > 0 && !is_ws(s@[i - 1])),
            !in_word ==> cur@.len() == 0,
            in_word ==> words(s@.take(i as int)) == views(res@).push(cur@),
            !in_word ==> words(s@.take(i as int)) == views(res@),
        decreases s.len() - i,
    {
        let c = s[i];
        assert(s@.take(i + 1).drop_last() =~= s@.take(i as int));
        if is_whitespace(c) {
            if in_word {
                let w = cur;
                res.push(w);
                cur = Vec::new();
                in_word = false;
                assert(views(res@) =~= words(s@.take(i as int)));
            }
        } else {
            cur.push(c);
            if in_word {
                assert(views(res@).push(cur@) =~= words(s@.take(i as int)).update(
                    words(s@.take(i as int)).len() - 1,
                    words(s@.take(i as int)).last().push(c),
                ));
            } else {
                assert(cur@ =~= seq![c]);
                assert(views(res@).push(cur@) =~= words(s@.take(i as int)).push(seq![c]));
            }
            in_word = true;
        }
        i += 1;
    }
    if in_word {
        res.push(cur);
    }
    assert(s@.take(s@.len() as int) =~= s@);
    assert(views(res@) =~= words(s@));
    res
}

/// `sep`-separated concatenation (`[T]::join`).
pub open spec fn join(ws: Seq<Seq<char>>, sep: Seq<char>) -> Seq<char>
    decreases ws.len(),
{
    if ws.len() == 0 {
        seq![]
    } else if ws.len() == 1 {
        ws[0]
    } else {
        join(ws.drop_last(), sep) + sep + ws.last()
    }
}

pub fn push_all(dst: &mut Vec<char>, src: &[char])
    ensures
        final(dst)@ == old(dst)@ + src@,
{
    let mut j: usize = 0;
    while j < src.len()
        invariant
            j <= src@.len(),
            dst@ == old(dst)@ + src@.take(j as int),
        decreases src.len() - j,
    {
        dst.push(src[j]);
        j += 1;
        assert(dst@ =~= old(dst)@ + src@.take(j as int));
    }
    assert(src@.take(src@.len() as int) =~= src@);
}

pub fn join_chars(ws: &[Vec<char>], sep: &[char]) -> (r: Vec<char>)
    ensures
        r@ == join(views(ws@), sep@),
{
    let mut r: Vec<char> = Vec::new();
    let mut i: usize = 0;
    while i < ws.len()
        invariant
            i <= ws@.len(),
            r@ == join(views(ws@.take(i as int)), sep@),
        decreases ws.len() - i,
    {
        assert(views(ws@.take(i + 1)).drop_last() =~= views(ws@.take(i as int)));
        if i > 0 {
            push_all(&mut r, sep);
        }
        push_all(&mut r, &ws[i]);
        i += 1;
        assert(views(ws@.take(i as int)).last() == ws@[i - 1]@);
        assert(r@ =~= join(views(ws@.take(i as int)), sep@));
    }
    assert(ws@.take(ws@.len() as int) =~= ws@);
    r
}

/// Runs of whitespace collapsed to one space, ends trimmed.
pub open spec fn normalize_space(s: Seq<char>) -> Seq<char> {
    join(words(s), seq![' '])
}

pub fn normalize_space_chars(s: &[char]) -> (r: Vec<char>)
    ensures
        r@ == normalize_space(s@),
{
    let w = words_of(s);
    let sp = vec![' '];
    assert(sp@ =~= seq![' ']);
    join_chars(&w, &sp)
}

/// `str::lines`: split at `\n`, dropping one `\r` before it; a final
/// line ending adds no empty line.
pub open spec fn lines_of(s: Seq<char>) -> Seq<Seq<char>>
    decreases s.len(),
{
    if s.len() == 0 {
        seq![]
    } else {
        match find(s, seq!['\n']) {
            Some(i) => if 0 <= i < s.len() {
                seq![strip_cr(s.take(i))] + lines_of(s.skip(i + 1))
            } else {
                seq![s]
            },
            None => seq![s],
        }
    }
}

pub open spec fn strip_cr(l: Seq<char>) -> Seq<char> {
    if l.len() > 0 && l.last() == '\r' {
        l.drop_last()
    } else {
        l
    }
}


pub proof fn lemma_find_single_found(t: Seq<char>, c: char, i: nat, j: nat)
    requires
        i <= j < t.len(),
        t[j as int] == c,
        forall|k: int| i <= k < j ==> t[k] != c,
    ensures
        find_from(t, seq![c], i) == Some(j as int),
    decreases j - i,
{
    if i == j {
        assert(t.subrange(i as int, (i + 1) as int) =~= seq![c]);
    } else {
        assert(t.subrange(i as int, (i + 1) as int)[0] != c);
        lemma_find_single_found(t, c, i + 1, j);
    }
}

pub proof fn lemma_find_single_none(t: Seq<char>, c: char, i: nat)
    requires
        i <= t.len(),
        forall|k: int| i <= k < t.len() ==> t[k] != c,
    ensures
        find_from(t, seq![c], i) is None,
    decreases t.len() - i,
{
    if i < t.len() {
        assert(t.subrange(i as int, (i + 1) as int)[0] != c);
        lemma_find_single_none(t, c, i + 1);
    }
}

/// Where `find_from` finds a single character, it is its first occurrence
/// from `i` on; where it finds none, there is none.
pub proof fn lemma_find_single_first(t: Seq<char>, c: char, i: nat)
    requires
        i <= t.len(),
    ensures
        match find_from(t, seq![c], i) {
            Some(j) => i <= j < t.len() && t[j] == c && forall|k: int| i <= k < j ==> t[k] != c,
            None => forall|k: int| i <= k < t.len() ==> t[k] != c,
        },
    decreases t.len() - i,
{
    if i < t.len() {
        if t[i as int] == c {
            assert(t.subrange(i as int, i + 1int) =~= seq![c]);
        } else {
            assert(t.subrange(i as int, i + 1int)[0] != c);
            lemma_find_single_first(t, c, i + 1);
        }
    }
}

/// No line of `s` holds a line feed.
pub proof fn lemma_lines_have_no_newline(s: Seq<char>)
    ensures
        forall|k: int, m: int|
            0 <= k < lines_of(s).len() && 0 <= m < lines_of(s)[k].len() ==> #[trigger] lines_of(s)[k][m]
                != '\n',
    decreases s.len(),
{
    if s.len() > 0 {
        lemma_find_single_first(s, '\n', 0);
        match find(s, seq!['\n']) {
            Some(i) => {
                if 0 <= i < s.len() {
                    lemma_lines_have_no_newline(s.skip(i + 1));
                    let first = strip_cr(s.take(i));
                    let rest = lines_of(s.skip(i + 1));
                    assert(lines_of(s) == seq![first] + rest);
                    assert forall|k: int, m: int|
                        0 <= k < lines_of(s).len() && 0 <= m < lines_of(s)[k].len() implies #[trigger] lines_of(
                            s,
                        )[k][m] != '\n' by {
                        if k == 0 {
                            assert(lines_of(s)[0] == first);
                            assert(first[m] == s[m]);
                        } else {
                            assert(lines_of(s)[k] == rest[k - 1]);
                        }
                    }
                }
            },
            None => {},
        }
    }
}

/// `join` of a sequence that starts with `x`.
pub proof fn lemma_join_front(x: Seq<char>, rest: Seq<Seq<char>>, sep: Seq<char>)
    requires
        rest.len() > 0,
    ensures
        join(seq![x] + rest, sep) == x + sep + join(rest, sep),
    decreases rest.len(),
{
    let all = seq![x] + rest;
    assert(join(all, sep) == join(all.drop_last(), sep) + sep + all.last());
    assert(all.last() == rest.last());
    if rest.len() == 1 {
        assert(all.drop_last() =~= seq![x]);
        assert(join(seq![x], sep) == x);
        assert(join(rest, sep) == rest[0]);
    } else {
        lemma_join_front(x, rest.drop_last(), sep);
        assert(all.drop_last() =~= seq![x] + rest.drop_last());
        assert(join(rest, sep) == join(rest.drop_last(), sep) + sep + rest.last());
        assert(x + sep + join(rest.drop_last(), sep) + sep + rest.last() =~= x + sep + (join(
            rest.drop_last(),
            sep,
        ) + sep + rest.last()));
    }
}

/// Lines joined by line feeds split back into the same lines, when none
/// holds a line feed, none but the last ends with a carriage return, and the
/// last is not empty.
pub proof fn lemma_lines_of_join(ls: Seq<Seq<char>>)
    requires
        forall|k: int, m: int| 0 <= k < ls.len() && 0 <= m < ls[k].len() ==> #[trigger] ls[k][m] != '\n',
        forall|k: int| 0 <= k < ls.len() - 1 && (#[trigger] ls[k]).len() > 0 ==> ls[k].last() != '\r',
        ls.len() > 0 ==> ls.last().len() > 0,
    ensures
        lines_of(join(ls, seq!['\n'])) == ls,
    decreases ls.len(),
{
    if ls.len() == 0 {
    } else if ls.len() == 1 {
        let x = ls[0];
        assert(join(ls, seq!['\n']) == x);
        lemma_find_single_first(x, '\n', 0);
        assert(lines_of(x) == seq![x]);
        assert(lines_of(x) =~= ls);
    } else {
        let x = ls[0];
        let rest = ls.drop_first();
        assert(ls =~= seq![x] + rest);
        lemma_join_front(x, rest, seq!['\n']);
        let j = join(rest, seq!['\n']);
        let s = x + seq!['\n'] + j;
        assert(join(ls, seq!['\n']) == s);
        assert(forall|m: int| 0 <= m < x.len() ==> #[trigger] s[m] == x[m] && x[m] != '\n') by {
            assert forall|m: int| 0 <= m < x.len() implies #[trigger] s[m] == x[m] && x[m] != '\n' by {
                assert(ls[0][m] != '\n');
            }
        }
        assert(s[x.len() as int] == '\n');
        lemma_find_single_found(s, '\n', 0, x.len());
        assert(s.take(x.len() as int) =~= x);
        assert(s.skip(x.len() + 1int) =~= j);
        assert(strip_cr(x) == x);
        assert forall|k: int, m: int| 0 <= k < rest.len() && 0 <= m < rest[k].len() implies #[trigger] rest[k][m]
            != '\n' by {
            assert(rest[k] == ls[k + 1]);
        }
        assert forall|k: int| 0 <= k < rest.len() - 1 && (#[trigger] rest[k]).len() > 0 implies rest[k].last()
            != '\r' by {
            assert(rest[k] == ls[k + 1]);
        }
        lemma_lines_of_join(rest);
        assert(lines_of(s) == seq![strip_cr(s.take(x.len() as int))] + lines_of(s.skip(x.len() + 1int)));
        assert(lines_of(s) =~= ls);
    }
}

pub fn strip_cr_chars(l: Vec<char>) -> (r: Vec<char>)
    ensures
        r@ == strip_cr(l@),
{
    let mut l = l;
    if l.len() > 0 && l[l.len() - 1] == '\r' {
        l.pop();
    }
    l
}

/// The lines of `s`, as `str::lines` splits them.
pub fn lines_vec(s: &[char]) -> (r: Vec<Vec<char>>)
    ensures
        views(r@) == lines_of(s@),
{
    let mut res: Vec<Vec<char>> = Vec::new();
    let mut start: usize = 0;
    let mut i: usize = 0;
    assert(s@.skip(0) =~= s@);
    while i < s.len()
        invariant
            start <= i <= s@.len(),
            forall|k: int| start <= k < i ==> s@[k] != '\n',
            lines_of(s@) == views(res@) + lines_of(s@.skip(start as int)),
        decreases s.len() - i,
    {
        if s[i] == '\n' {
            let ghost t = s@.skip(start as int);
            let ghost j = i - start;
            proof {
                lemma_find_single_found(t, '\n', 0, j as nat);
                assert(t.take(j) =~= s@.subrange(start as int, i as int));
                assert(t.skip(j + 1) =~= s@.skip(i + 1));
                assert(lines_of(t) == seq![strip_cr(t.take(j))] + lines_of(t.skip(j + 1)));
            }
            let line = copy_range(s, start, i);
            let line = strip_cr_chars(line);
            let ghost old_res = views(res@);
            res.push(line);
            assert(views(res@) =~= old_res.push(strip_cr(t.take(j))));
            start = i + 1;
            assert(views(res@) + lines_of(s@.skip(start as int)) =~= old_res + (seq![
                strip_cr(t.take(j)),
            ] + lines_of(t.skip(j + 1))));
        }
        i += 1;
    }
    if start < s.len() {
        let ghost t = s@.skip(start as int);
        proof {
            lemma_find_single_none(t, '\n', 0);
        }
        let last = copy_range(s, start, s.len());
        assert(last@ =~= t);
        res.push(last);
        assert(views(res@) =~= views(res@.drop_last()).push(t));
    } else {
        assert(s@.skip(start as int) =~= Seq::<char>::empty());
    }
    assert(views(res@) =~= lines_of(s@));
    res
}

/// `str::to_lowercase` on characters.
pub fn lower_chars(s: &[char]) -> (r: Vec<char>)
    ensures
        r@ == lower(s@),
        r@.len() >= s@.len(),
{
    let st = string_from(s);
    let lo = to_lowercase(st.as_str());
    chars_of(lo.as_str())
}

// ---------------------------------------------------------------------------
// Decimal numbers
// ---------------------------------------------------------------------------

pub open spec fn digit(d: nat) -> char {
    if d == 0 {
        '0'
    } else if d == 1 {
        '1'
    } else if d == 2 {
        '2'
    } else if d == 3 {
        '3'
    } else if d == 4 {
        '4'
    } else if d == 5 {
        '5'
    } else if d == 6 {
        '6'
    } else if d == 7 {
        '7'
    } else if d == 8 {
        '8'
    } else {
        '9'
    }
}

/// The decimal digits of `n` (`Display` for integers).
pub open spec fn dec(n: nat) -> Seq<char>
    decreases n,
{
    if n < 10 {
        seq![digit(n)]
    } else {
        dec(n / 10).push(digit(n % 10))
    }
}

pub fn digit_char(d: usize) -> (c: char)
    requires
        d < 10,
    ensures
        c == digit(d as nat),
{
    if d == 0 {
        '0'
    } else if d == 1 {
        '1'
    } else if d == 2 {
        '2'
    } else if d == 3 {
        '3'
    } else if d == 4 {
        '4'
    } else if d == 5 {
        '5'
    } else if d == 6 {
        '6'
    } else if d == 7 {
        '7'
    } else if d == 8 {
        '8'
    } else {
        '9'
    }
}

pub fn dec_chars(n: usize) -> (r: Vec<char>)
    ensures
        r@ == dec(n as nat),
    decreases n,
{
    if n < 10 {
        let r = vec![digit_char(n)];
        assert(r@ =~= dec(n as nat));
        r
    } else {
        let mut r = dec_chars(n / 10);
        r.push(digit_char(n % 10));
        r
    }
}

/// The decimal digits of a `u64`.
pub fn dec_chars_u64(n: u64) -> (r: Vec<char>)
    ensures
        r@ == dec(n as nat),
    decreases n,
{
    if n < 10 {
        let r = vec![digit_char(n as usize)];
        assert(r@ =~= dec(n as nat));
        r
    } else {
        let mut r = dec_chars_u64(n / 10);
        r.push(digit_char((n % 10) as usize));
        r
    }
}

/// Chars of a string literal.
pub fn lit(s: &str) -> (r: Vec<char>)
    ensures
        r@ == s@,
{
    chars_of(s)
}

/// Whether `s` is among `list`.
pub fn member(s: &[char], list: &[Vec<char>]) -> (r: bool)
    ensures
        r == views(list@).contains(s@),
{
    let mut i: usize = 0;
    while i < list.len()
        invariant
            i <= list@.len(),
            forall|j: int| 0 <= j < i ==> list@[j]@ != s@,
        decreases list.len() - i,
    {
        if chars_eq(&list[i], s) {
            assert(views(list@)[i as int] == s@);
            return true;
        }
        i += 1;
    }
    assert forall|j: int| 0 <= j < views(list@).len() implies views(list@)[j] != s@ by {}
    false
}


pub open spec fn strs(v: Seq<String>) -> Seq<Seq<char>> {
    v.map_values(|x: String| x@)
}

/// The characters of each string.
pub fn char_lines(v: &[String]) -> (r: Vec<Vec<char>>)
    ensures
        views(r@) == strs(v@),
{
    let mut r: Vec<Vec<char>> = Vec::new();
    let mut i: usize = 0;
    while i < v.len()
        invariant
            i <= v@.len(),
            views(r@) == strs(v@.take(i as int)),
        decreases v.len() - i,
    {
        let ghost prev = views(r@);
        let c = chars_of(v[i].as_str());
        r.push(c);
        assert(views(r@) =~= prev.push(v@[i as int]@));
        assert(strs(v@.take(i + 1)) =~= strs(v@.take(i as int)).push(v@[i as int]@));
        i += 1;
    }
    assert(v@.take(v@.len() as int) =~= v@);
    r
}

/// Each character sequence as a `String`.
pub fn to_strings(v: &[Vec<char>]) -> (r: Vec<String>)
    ensures
        strs(r@) == views(v@),
{
    let mut r: Vec<String> = Vec::new();
    let mut i: usize = 0;
    while i < v.len()
        invariant
            i <= v@.len(),
            strs(r@) == views(v@.take(i as int)),
        decreases v.len() - i,
    {
        let ghost prev = strs(r@);
        let st = string_from(&v[i]);
        r.push(st);
        assert(strs(r@) =~= prev.push(v@[i as int]@));
        assert(views(v@.take(i + 1)) =~= views(v@.take(i as int)).push(v@[i as int]@));
        i += 1;
    }
    assert(v@.take(v@.len() as int) =~= v@);
    r
}

/// A copy of a character vector.
pub fn copy_chars(s: &[char]) -> (r: Vec<char>)
    ensures
        r@ == s@,
{
    copy_range(s, 0, s.len())
}


/// Bytes that UTF-8 spends on `c`.
pub open spec fn utf8_width(c: char) -> nat {
    if (c as u32) < 0x80 {
        1
    } else if (c as u32) < 0x800 {
        2
    } else if (c as u32) < 0x10000 {
        3
    } else {
        4
    }
}

/// Length in bytes of the UTF-8 encoding of `s` (what `str::len` reports).
pub open spec fn byte_len(s: Seq<char>) -> nat
    decreases s.len(),
{
    if s.len() == 0 {
        0
    } else {
        byte_len(s.drop_last()) + utf8_width(s.last())
    }
}

pub fn byte_len_of(s: &[char]) -> (n: u128)
    ensures
        n == byte_len(s@),
        n <= 4 * s@.len(),
{
    let mut n: u128 = 0;
    let mut i: usize = 0;
    while i < s.len()
        invariant
            i <= s@.len(),
            n == byte_len(s@.take(i as int)),
            n <= 4 * i,
        decreases s.len() - i,
    {
        assert(s@.take(i + 1).drop_last() =~= s@.take(i as int));
        let c = s[i];
        let w: u128 = if (c as u32) < 0x80 {
            1
        } else if (c as u32) < 0x800 {
            2
        } else if (c as u32) < 0x10000 {
            3
        } else {
            4
        };
        n = n + w;
        i += 1;
    }
    assert(s@.take(s@.len() as int) =~= s@);
    n
}


pub proof fn lemma_byte_len_concat(a: Seq<char>, b: Seq<char>)
    ensures
        byte_len(a + b) == byte_len(a) + byte_len(b),
    decreases b.len(),
{
    if b.len() == 0 {
        assert(a + b =~= a);
    } else {
        lemma_byte_len_concat(a, b.drop_last());
        assert((a + b).drop_last() =~= a + b.drop_last());
    }
}

pub proof fn lemma_byte_len_bound(a: Seq<char>)
    ensures
        a.len() <= byte_len(a) <= 4 * a.len(),
    decreases a.len(),
{
    if a.len() > 0 {
        lemma_byte_len_bound(a.drop_last());
    }
}


/// `str::replace`: every non-overlapping occurrence of `pat`, left to right,
/// replaced by `rep`.
pub open spec fn replace_all(s: Seq<char>, pat: Seq<char>, rep: Seq<char>) -> Seq<char>
    decreases s.len(),
{
    match find(s, pat) {
        Some(i) => if pat.len() > 0 && 0 <= i && i + pat.len() <= s.len() {
            s.take(i) + rep + replace_all(s.skip(i + pat.len()), pat, rep)
        } else {
            s
        },
        None => s,
    }
}

pub fn replace_all_chars(s: &[char], pat: &[char], rep: &[char]) -> (r: Vec<char>)
    requires
        pat@.len() > 0,
    ensures
        r@ == replace_all(s@, pat@, rep@),
{
    let mut out: Vec<char> = Vec::new();
    let mut rest = copy_chars(s);
    while rest.len() > 0
        invariant
            pat@.len() > 0,
            replace_all(s@, pat@, rep@) == out@ + replace_all(rest@, pat@, rep@),
        decreases rest.len(),
    {
        match find_chars(&rest, pat) {
            Some(i) => {
                let n = rest.len();
                assert(i + pat@.len() <= n);
                let head = copy_range(&rest, 0, i);
                let tail = copy_range(&rest, i + pat.len(), n);
                assert(head@ =~= rest@.take(i as int));
                assert(tail@ =~= rest@.skip(i + pat@.len()));
                push_all(&mut out, &head);
                push_all(&mut out, rep);
                rest = tail;
            },
            None => {
                push_all(&mut out, &rest);
                rest = Vec::new();
                assert(replace_all(rest@, pat@, rep@) =~= Seq::<char>::empty()) by {
                    assert(find(rest@, pat@) is None);
                }
            },
        }
    }
    assert(replace_all(rest@, pat@, rep@) =~= Seq::<char>::empty()) by {
        assert(find(rest@, pat@) is None);
    }
    assert(out@ + Seq::<char>::empty() =~= out@);
    out
}

// ---------------------------------------------------------------------------
// Ordering
// ---------------------------------------------------------------------------

/// Lexicographic order of code points (the order of `str`'s bytes).
pub open spec fn lex_lt(a: Seq<char>, b: Seq<char>) -> bool
    decreases a.len(),
{
    if a.len() == 0 {
        b.len() > 0
    } else if b.len() == 0 {
        false
    } else if a[0] < b[0] {
        true
    } else if a[0] > b[0] {
        false
    } else {
        lex_lt(a.drop_first(), b.drop_first())
    }
}

pub fn lex_lt_exec(a: &[char], b: &[char]) -> (r: bool)
    ensures
        r == lex_lt(a@, b@),
{
    let mut i: usize = 0;
    assert(a@.skip(0) =~= a@);
    assert(b@.skip(0) =~= b@);
    while i < a.len() && i < b.len() && a[i] == b[i]
        invariant
            i <= a@.len(),
            i <= b@.len(),
            lex_lt(a@, b@) == lex_lt(a@.skip(i as int), b@.skip(i as int)),
        decreases a.len() - i,
    {
        assert(a@.skip(i as int).drop_first() =~= a@.skip(i + 1));
        assert(b@.skip(i as int).drop_first() =~= b@.skip(i + 1));
        i += 1;
    }
    let ghost sa = a@.skip(i as int);
    let ghost sb = b@.skip(i as int);
    if i == a.len() {
        assert(sa.len() == 0);
        i < b.len()
    } else if i == b.len() {
        assert(sb.len() == 0);
        false
    } else {
        assert(sa[0] == a@[i as int] && sb[0] == b@[i as int]);
        let x = a[i];
        let y = b[i];
        x < y
    }
}


pub proof fn lemma_lex_irreflexive(a: Seq<char>)
    ensures
        !lex_lt(a, a),
    decreases a.len(),
{
    if a.len() > 0 {
        lemma_lex_irreflexive(a.drop_first());
    }
}

pub proof fn lemma_lex_transitive(a: Seq<char>, b: Seq<char>, c: Seq<char>)
    requires
        lex_lt(a, b),
        lex_lt(b, c),
    ensures
        lex_lt(a, c),
    decreases a.len(),
{
    if a.len() > 0 && b.len() > 0 && c.len() > 0 && a[0] == b[0] && b[0] == c[0] {
        lemma_lex_transitive(a.drop_first(), b.drop_first(), c.drop_first());
    }
}

/// Of two different sequences, one comes first.
pub proof fn lemma_lex_total(a: Seq<char>, b: Seq<char>)
    requires
        a != b,
    ensures
        lex_lt(a, b) || lex_lt(b, a),
    decreases a.len(),
{
    if a.len() > 0 && b.len() > 0 && a[0] == b[0] {
        if a.drop_first() == b.drop_first() {
            assert(a =~= seq![a[0]] + a.drop_first());
            assert(b =~= seq![b[0]] + b.drop_first());
        }
        lemma_lex_total(a.drop_first(), b.drop_first());
    } else if a.len() == 0 && b.len() == 0 {
        assert(a =~= b);
    }
}

pub proof fn lemma_lex_asymmetric(a: Seq<char>, b: Seq<char>)
    requires
        lex_lt(a, b),
    ensures
        !lex_lt(b, a),
    decreases a.len(),
{
    if a.len() > 0 && b.len() > 0 && a[0] == b[0] {
        lemma_lex_asymmetric(a.drop_first(), b.drop_first());
    }
}

// ---------------------------------------------------------------------------
// Byte offsets
// ---------------------------------------------------------------------------

/// `&s[b..]` for a byte offset `b`: the characters after the first `b`
/// bytes, or `None` where `b` is not a character boundary of `s` or lies past
/// its end (where slicing panics).
pub open spec fn from_byte(s: Seq<char>, b: nat) -> Option<Seq<char>>
    decreases s.len(),
{
    if b == 0 {
        Some(s)
    } else if s.len() == 0 || utf8_width(s[0]) > b {
        None
    } else {
        from_byte(s.drop_first(), (b - utf8_width(s[0])) as nat)
    }
}

pub fn from_byte_chars(s: &[char], b: u128) -> (r: Option<Vec<char>>)
    ensures
        r matches Some(v) ==> from_byte(s@, b as nat) == Some(v@),
        r is None ==> from_byte(s@, b as nat) is None,
{
    let mut i: usize = 0;
    let mut rem: u128 = b;
    assert(s@.skip(0) =~= s@);
    while rem > 0 && i < s.len()
        invariant
            i <= s@.len(),
            from_byte(s@, b as nat) == from_byte(s@.skip(i as int), rem as nat),
        decreases s.len() - i,
    {
        let c = s[i];
        let w: u128 = if (c as u32) < 0x80 {
            1
        } else if (c as u32) < 0x800 {
            2
        } else if (c as u32) < 0x10000 {
            3
        } else {
            4
        };
        assert(s@.skip(i as int)[0] == c);
        if w > rem {
            return None;
        }
        assert(s@.skip(i as int).drop_first() =~= s@.skip(i + 1));
        rem = rem - w;
        i += 1;
    }
    if rem > 0 {
        return None;
    }
    let r = copy_range(s, i, s.len());
    assert(r@ =~= s@.skip(i as int));
    Some(r)
}

// ---------------------------------------------------------------------------
// Trimming never lengthens
// ---------------------------------------------------------------------------

pub proof fn lemma_trim_start_len(s: Seq<char>, k: CharClass)
    ensures
        trim_start_by(s, k).len() <= s.len(),
        trim_start_by(s, k) == s.skip(s.len() - trim_start_by(s, k).len()),
    decreases s.len(),
{
    if s.len() > 0 && k.spec_has(s[0]) {
        lemma_trim_start_len(s.drop_first(), k);
        let t = trim_start_by(s.drop_first(), k);
        assert(s.drop_first().skip(s.drop_first().len() - t.len()) =~= s.skip(s.len() - t.len()));
    } else {
        assert(s.skip(0) =~= s);
    }
}

pub proof fn lemma_trim_end_len(s: Seq<char>, k: CharClass)
    ensures
        trim_end_by(s, k).len() <= s.len(),
        trim_end_by(s, k) == s.take(trim_end_by(s, k).len() as int),
    decreases s.len(),
{
    if s.len() > 0 && k.spec_has(s.last()) {
        lemma_trim_end_len(s.drop_last(), k);
        let t = trim_end_by(s.drop_last(), k);
        assert(s.drop_last().take(t.len() as int) =~= s.take(t.len() as int));
    } else {
        assert(s.take(s.len() as int) =~= s);
    }
}

pub proof fn lemma_trim_len(s: Seq<char>)
    ensures
        trim(s).len() <= s.len(),
{
    lemma_trim_start_len(s, CharClass::Whitespace);
    lemma_trim_end_len(trim_start_by(s, CharClass::Whitespace), CharClass::Whitespace);
}

// ---------------------------------------------------------------------------
// Alphanumeric runs and capitalisation
// ---------------------------------------------------------------------------

/// The maximal runs of alphanumeric characters of `s`, in order.
pub open spec fn alnum_runs(s: Seq<char>) -> Seq<Seq<char>>
    decreases s.len(),
{
    if s.len() == 0 {
        seq![]
    } else {
        let w = alnum_runs(s.drop_last());
        let c = s.last();
        if !is_alnum(c) {
            w
        } else if s.len() >= 2 && is_alnum(s[s.len() - 2]) {
            w.update(w.len() - 1, w.last().push(c))
        } else {
            w.push(seq![c])
        }
    }
}

pub proof fn lemma_alnum_runs_nonempty(s: Seq<char>)
    requires
        s.len() > 0,
        is_alnum(s.last()),
    ensures
        alnum_runs(s).len() > 0,
    decreases s.len(),
{
    if s.len() >= 2 && is_alnum(s[s.len() - 2]) {
        lemma_alnum_runs_nonempty(s.drop_last());
    }
}

pub fn alnum_runs_of(s: &[char]) -> (r: Vec<Vec<char>>)
    ensures
        views(r@) == alnum_runs(s@),
{
    let mut res: Vec<Vec<char>> = Vec::new();
    let mut cur: Vec<char> = Vec::new();
    let mut in_run = false;
    let mut i: usize = 0;
    while i < s.len()
        invariant
            i <= s@.len(),
            in_run == (i > 0 && is_alnum(s@[i - 1])),
            !in_run ==> cur@.len() == 0,
            in_run ==> alnum_runs(s@.take(i as int)) == views(res@).push(cur@),
            !in_run ==> alnum_runs(s@.take(i as int)) == views(res@),
        decreases s.len() - i,
    {
        let c = s[i];
        assert(s@.take(i + 1).drop_last() =~= s@.take(i as int));
        if !is_alphanumeric(c) {
            if in_run {
                let w = cur;
                res.push(w);
                cur = Vec::new();
                in_run = false;
                assert(views(res@) =~= alnum_runs(s@.take(i as int)));
            }
        } else {
            cur.push(c);
            if in_run {
                assert(views(res@).push(cur@) =~= alnum_runs(s@.take(i as int)).update(
                    alnum_runs(s@.take(i as int)).len() - 1,
                    alnum_runs(s@.take(i as int)).last().push(c),
                ));
            } else {
                assert(cur@ =~= seq![c]);
                assert(views(res@).push(cur@) =~= alnum_runs(s@.take(i as int)).push(seq![c]));
            }
            in_run = true;
        }
        i += 1;
    }
    if in_run {
        res.push(cur);
    }
    assert(s@.take(s@.len() as int) =~= s@);
    assert(views(res@) =~= alnum_runs(s@));
    res
}

/// `s` with its first character uppercased (`char::to_uppercase`) and the
/// rest kept.
pub open spec fn capitalized(s: Seq<char>) -> Seq<char> {
    if s.len() == 0 {
        seq![]
    } else {
        char_uppercase(s[0]) + s.drop_first()
    }
}

pub fn capitalized_chars(s: &[char]) -> (r: Vec<char>)
    ensures
        r@ == capitalized(s@),
{
    if s.len() == 0 {
        return Vec::new();
    }
    let mut r = to_uppercase(s[0]);
    let rest = copy_range(s, 1, s.len());
    assert(rest@ =~= s@.drop_first());
    push_all(&mut r, &rest);
    r
}

/// Lowercased, then capitalised (a title-case word).
pub open spec fn capitalize_token(token: Seq<char>) -> Seq<char> {
    capitalized(lower(token))
}

/// Lowercases `token` and uppercases its first character.
pub fn capitalize_token_chars(token: &[char]) -> (r: Vec<char>)
    ensures
        r@ == capitalize_token(token@),
{
    capitalized_chars(&lower_chars(token))
}

/// The first `n` elements, or all of them when there are fewer
/// (`Iterator::take`).
pub open spec fn take_upto<A>(s: Seq<A>, n: nat) -> Seq<A> {
    if s.len() <= n {
        s
    } else {
        s.take(n as int)
    }
}

/// Literals as character vectors.
pub fn lits(v: &[&str]) -> (r: Vec<Vec<char>>)
    ensures
        r@.len() == v@.len(),
        forall|i: int| 0 <= i < v@.len() ==> #[trigger] r@[i]@ == v@[i]@,
{
    let mut r: Vec<Vec<char>> = Vec::new();
    let mut i: usize = 0;
    while i < v.len()
        invariant
            i <= v@.len(),
            r@.len() == i,
            forall|j: int| 0 <= j < i ==> #[trigger] r@[j]@ == v@[j]@,
        decreases v.len() - i,
    {
        r.push(lit(v[i]));
        i += 1;
    }
    r
}

} // verus!
