//! Post-transcription cleaning of whisper output.
//!
//! Three passes remove the decoder's hallucination patterns: runs of
//! near-identical consecutive segments, a phrase dominating a region with
//! filler between its repetitions, and a long tail of non-speech noise.
use vstd::prelude::*;
use crate::text::{
    chars_eq, contains, contains_chars, copy_range, find, find_chars, lit, lower_chars, member,
    occurs_at, lower, views, words, words_of, dec, dec_chars, push_all, char_lines,
    to_strings, strs, copy_chars, trim, trim_ws, find_from, ascii_whitespace, is_ws,
    is_ascii_char, digit, is_alnum, join, join_chars, words_of as split_words, trim_by, trim_chars,
    CharClass, is_alphanumeric, is_whitespace, lines_of, lines_vec, chars_of, string_from,
    byte_len, byte_len_of, lex_lt, lex_lt_exec, lemma_lines_have_no_newline, lemma_lines_of_join,
};

verus! {

/// A line's spoken text: what follows the first `"] "`, or the whole line.
pub open spec fn text_part(line: Seq<char>) -> Seq<char> {
    match find(line, "] "@) {
        Some(i) => line.skip(i + 2),
        None => line,
    }
}

pub fn text_part_chars(line: &[char]) -> (r: Vec<char>)
    ensures
        r@ == text_part(line@),
{
    let pat = lit("] ");
    match find_chars(line, &pat) {
        Some(i) => {
            proof {
                reveal_strlit("] ");
            }
            assert(pat@.len() == 2);
            let n = line.len();
            assert(i + 2 <= n);
            copy_range(line, i + 2, line.len())
        },
        None => copy_range(line, 0, line.len()),
    }
}

/// How many words of `aw` (counted with repetition) occur among `bw`.
pub open spec fn count_in(aw: Seq<Seq<char>>, bw: Seq<Seq<char>>) -> nat
    decreases aw.len(),
{
    if aw.len() == 0 {
        0
    } else {
        count_in(aw.drop_last(), bw) + if bw.contains(aw.last()) {
            1nat
        } else {
            0nat
        }
    }
}

/// Whether two segment texts overlap by at least 80%: identical ignoring case;
/// or one (lowercased) contains the other and the shorter has at least 80% of
/// the longer's bytes; or at least 80% of the words of the longer word list
/// are words of the first text found among the second's.
pub open spec fn similar(a: Seq<char>, b: Seq<char>) -> bool {
    if a.len() == 0 || b.len() == 0 {
        false
    } else {
        let al = lower(a);
        let bl = lower(b);
        if al == bl {
            true
        } else {
            let short = if byte_len(al) <= byte_len(bl) {
                al
            } else {
                bl
            };
            let long = if byte_len(al) <= byte_len(bl) {
                bl
            } else {
                al
            };
            if contains(long, short) {
                5 * byte_len(short) >= 4 * byte_len(long)
            } else {
                let aw = words(al);
                let bw = words(bl);
                let total = if aw.len() >= bw.len() {
                    aw.len()
                } else {
                    bw.len()
                };
                total > 0 && 5 * count_in(aw, bw) >= 4 * total
            }
        }
    }
}

fn count_in_exec(aw: &[Vec<char>], bw: &[Vec<char>]) -> (n: usize)
    ensures
        n == count_in(views(aw@), views(bw@)),
{
    let mut n: usize = 0;
    let mut i: usize = 0;
    while i < aw.len()
        invariant
            i <= aw@.len(),
            n <= i,
            n == count_in(views(aw@.take(i as int)), views(bw@)),
        decreases aw.len() - i,
    {
        assert(views(aw@.take(i + 1)).drop_last() =~= views(aw@.take(i as int)));
        assert(views(aw@.take(i + 1)).last() == aw@[i as int]@);
        if member(&aw[i], bw) {
            n += 1;
        }
        i += 1;
    }
    assert(aw@.take(aw@.len() as int) =~= aw@);
    n
}

pub fn similar_exec(a: &[char], b: &[char]) -> (r: bool)
    ensures
        r == similar(a@, b@),
{
    if a.len() == 0 || b.len() == 0 {
        return false;
    }
    let al = lower_chars(a);
    let bl = lower_chars(b);
    if chars_eq(&al, &bl) {
        return true;
    }
    let la = byte_len_of(&al);
    let lb = byte_len_of(&bl);
    let na = al.len();
    let nb = bl.len();
    assert(la <= 4 * (na as u128) && lb <= 4 * (nb as u128));
    if la <= lb {
        if contains_chars(&bl, &al) {
            return 5 * la >= 4 * lb;
        }
    } else {
        if contains_chars(&al, &bl) {
            return 5 * lb >= 4 * la;
        }
    }
    let aw = words_of(&al);
    let bw = words_of(&bl);
    let total = if aw.len() >= bw.len() {
        aw.len()
    } else {
        bw.len()
    };
    if total == 0 {
        return false;
    }
    let m = count_in_exec(&aw, &bw);
    5 * (m as u128) >= 4 * (total as u128)
}


/// The marker that replaces `n` collapsed repetitions.
pub open spec fn repeat_marker(n: nat) -> Seq<char> {
    "[...] [repeated audio removed — "@ + dec(n) + " identical segments collapsed]"@
}

fn repeat_marker_chars(n: usize) -> (r: Vec<char>)
    ensures
        r@ == repeat_marker(n as nat),
{
    let mut r = lit("[...] [repeated audio removed — ");
    let d = dec_chars(n);
    push_all(&mut r, &d);
    let tail = lit(" identical segments collapsed]");
    push_all(&mut r, &tail);
    r
}

/// The end of the run of lines from `j` on whose text is similar to line `i`'s.
pub open spec fn run_end(lines: Seq<Seq<char>>, i: int, j: int) -> int
    decreases lines.len() - j,
{
    if j < 0 || j >= lines.len() {
        lines.len() as int
    } else if similar(text_part(lines[i]), text_part(lines[j])) {
        run_end(lines, i, j + 1)
    } else {
        j
    }
}

/// From line `i` on: each run of three or more lines similar to its first
/// line becomes that first line and a marker counting the rest.
pub open spec fn collapse_runs(lines: Seq<Seq<char>>, i: int) -> Seq<Seq<char>>
    decreases lines.len() - i,
{
    if i < 0 || i >= lines.len() {
        seq![]
    } else {
        let e = run_end(lines, i, i + 1);
        if i + 2 < e && e <= lines.len() {
            seq![lines[i], repeat_marker((e - i - 1) as nat)] + collapse_runs(lines, e)
        } else {
            seq![lines[i]] + collapse_runs(lines, i + 1)
        }
    }
}

/// Consecutive repetition removed; fewer than three lines are left alone.
pub open spec fn dedup_segments_spec(lines: Seq<Seq<char>>) -> Seq<Seq<char>> {
    if lines.len() < 3 {
        lines
    } else {
        collapse_runs(lines, 0)
    }
}

proof fn lemma_run_end_bounds(lines: Seq<Seq<char>>, i: int, j: int)
    requires
        0 <= j <= lines.len(),
    ensures
        j <= run_end(lines, i, j) <= lines.len(),
    decreases lines.len() - j,
{
    if j < lines.len() && similar(text_part(lines[i]), text_part(lines[j])) {
        lemma_run_end_bounds(lines, i, j + 1);
    }
}

/// Whether a line reads like a collapse marker: its text is similar to a
/// marker's text, one way or the other.
pub open spec fn like_marker(line: Seq<char>) -> bool {
    exists|n: nat|
        similar(text_part(line), #[trigger] text_part(repeat_marker(n))) || similar(
            text_part(repeat_marker(n)),
            text_part(line),
        )
}

/// Without runs from `j` on, collapsing changes nothing.
proof fn lemma_collapse_fixed(o: Seq<Seq<char>>, j: int)
    requires
        0 <= j <= o.len(),
        forall|k: int| j <= k < o.len() ==> #[trigger] run_end(o, k, k + 1) <= k + 2,
    ensures
        collapse_runs(o, j) == o.skip(j),
    decreases o.len() - j,
{
    if j == o.len() {
        assert(o.skip(j) =~= Seq::<Seq<char>>::empty());
    } else {
        assert(run_end(o, j, j + 1) <= j + 2);
        lemma_collapse_fixed(o, j + 1);
        assert(seq![o[j]] + o.skip(j + 1) =~= o.skip(j));
    }
}

/// `run_end` inside the second part of a concatenation.
proof fn lemma_run_end_shift(x: Seq<Seq<char>>, y: Seq<Seq<char>>, i: int, j: int)
    requires
        0 <= i < y.len(),
        0 <= j <= y.len(),
    ensures
        run_end(x + y, x.len() + i, x.len() + j) == x.len() + run_end(y, i, j),
    decreases y.len() - j,
{
    let xy = x + y;
    if j < y.len() {
        assert(xy[x.len() + i] == y[i]);
        assert(xy[x.len() + j] == y[j]);
        if similar(text_part(y[i]), text_part(y[j])) {
            lemma_run_end_shift(x, y, i, j + 1);
        }
    }
}

/// What collapsing from line `i` gives starts with line `i`, its second line
/// is line `i + 1` or a marker, and it holds no run of three similar lines —
/// provided no line reads like a marker.
proof fn lemma_collapse_runs_shape(lines: Seq<Seq<char>>, i: int)
    requires
        0 <= i <= lines.len(),
        forall|k: int| 0 <= k < lines.len() ==> !like_marker(#[trigger] lines[k]),
    ensures
        i < lines.len() ==> collapse_runs(lines, i).len() >= 1 && collapse_runs(lines, i)[0]
            == lines[i],
        collapse_runs(lines, i).len() >= 2 ==> (i + 1 < lines.len() && collapse_runs(lines, i)[1]
            == lines[i + 1]) || exists|n: nat| collapse_runs(lines, i)[1] == repeat_marker(n),
        forall|k: int|
            0 <= k < collapse_runs(lines, i).len() ==> #[trigger] run_end(
                collapse_runs(lines, i),
                k,
                k + 1,
            ) <= k + 2,
    decreases lines.len() - i,
{
    if i >= lines.len() {
        return;
    }
    let o = collapse_runs(lines, i);
    let e = run_end(lines, i, i + 1);
    lemma_run_end_bounds(lines, i, i + 1);
    let li = lines[i];
    assert(!like_marker(li));
    if i + 2 < e && e <= lines.len() {
        let m = repeat_marker((e - i - 1) as nat);
        let rest = collapse_runs(lines, e);
        lemma_collapse_runs_shape(lines, e);
        let head = seq![li, m];
        assert(o == head + rest);
        assert(o[1] == m);
        assert(!similar(text_part(li), text_part(m)));
        assert forall|k: int| 0 <= k < o.len() implies #[trigger] run_end(o, k, k + 1) <= k + 2 by {
            if k == 0 {
                assert(run_end(o, 0, 1) == 1);
            } else if k == 1 {
                if o.len() > 2 {
                    assert(o[2] == rest[0]);
                    assert(rest[0] == lines[e]);
                    assert(!like_marker(lines[e]));
                    assert(!similar(text_part(m), text_part(lines[e])));
                }
                assert(run_end(o, 1, 2) == 2);
            } else {
                let k2 = k - 2;
                assert(run_end(rest, k2, k2 + 1) <= k2 + 2);
                lemma_run_end_shift(head, rest, k2, k2 + 1);
                assert(head.len() + k2 == k && head.len() + (k2 + 1) == k + 1);
            }
        }
    } else {
        let rest = collapse_runs(lines, i + 1);
        lemma_collapse_runs_shape(lines, i + 1);
        let head = seq![li];
        assert(o == head + rest);
        if o.len() >= 2 {
            assert(o[1] == rest[0]);
        }
        assert forall|k: int| 0 <= k < o.len() implies #[trigger] run_end(o, k, k + 1) <= k + 2 by {
            if k == 0 {
                assert(o[0] == li);
                if o.len() >= 2 && similar(text_part(li), text_part(o[1])) {
                    if o.len() >= 3 {
                        assert(o[2] == rest[1]);
                        if exists|n: nat| rest[1] == repeat_marker(n) {
                            let n = choose|n: nat| rest[1] == repeat_marker(n);
                            assert(!similar(text_part(li), text_part(repeat_marker(n))));
                        } else {
                            assert(rest[1] == lines[i + 1 + 1]);
                            assert(o[1] == lines[i + 1]);
                            if similar(text_part(li), text_part(lines[i + 2])) {
                                lemma_run_end_bounds(lines, i, i + 3);
                                assert(run_end(lines, i, i + 1) == run_end(lines, i, i + 2));
                                assert(run_end(lines, i, i + 2) == run_end(lines, i, i + 3));
                                assert(false);
                            }
                        }
                        assert(!similar(text_part(o[0]), text_part(o[2])));
                        assert(run_end(o, 0, 2) == 2);
                    } else {
                        assert(run_end(o, 0, 2) == 2);
                    }
                    assert(run_end(o, 0, 1) == run_end(o, 0, 2));
                }
            } else {
                let k1 = k - 1;
                assert(run_end(rest, k1, k1 + 1) <= k1 + 2);
                lemma_run_end_shift(head, rest, k1, k1 + 1);
                assert(head.len() + k1 == k && head.len() + (k1 + 1) == k + 1);
            }
        }
    }
}

/// Collapsing repetition twice gives what collapsing once gives, for
/// transcripts none of whose lines reads like a collapse marker.
pub proof fn law_dedup_segments_idempotent(lines: Seq<Seq<char>>)
    requires
        forall|k: int| 0 <= k < lines.len() ==> !like_marker(#[trigger] lines[k]),
    ensures
        dedup_segments_spec(dedup_segments_spec(lines)) == dedup_segments_spec(lines),
{
    if lines.len() >= 3 {
        let o = collapse_runs(lines, 0);
        lemma_collapse_runs_shape(lines, 0);
        if o.len() >= 3 {
            lemma_collapse_fixed(o, 0);
            assert(o.skip(0) =~= o);
        }
    }
}

fn dedup_chars(lines: &[Vec<char>]) -> (r: Vec<Vec<char>>)
    ensures
        views(r@) == dedup_segments_spec(views(lines@)),
{
    let ghost ls = views(lines@);
    if lines.len() < 3 {
        let mut r: Vec<Vec<char>> = Vec::new();
        let mut k: usize = 0;
        while k < lines.len()
            invariant
                k <= lines@.len(),
                views(r@) == views(lines@).take(k as int),
            decreases lines.len() - k,
        {
            let ghost prev = views(r@);
            r.push(copy_chars(&lines[k]));
            assert(views(r@) =~= prev.push(lines@[k as int]@));
            assert(views(lines@).take(k + 1) =~= views(lines@).take(k as int).push(lines@[k as int]@));
            k += 1;
        }
        assert(views(lines@).take(lines@.len() as int) =~= views(lines@));
        return r;
    }
    let mut texts: Vec<Vec<char>> = Vec::new();
    let mut k: usize = 0;
    while k < lines.len()
        invariant
            k <= lines@.len(),
            texts@.len() == k,
            forall|m: int| 0 <= m < k ==> #[trigger] texts@[m]@ == text_part(ls[m]),
            ls == views(lines@),
        decreases lines.len() - k,
    {
        texts.push(text_part_chars(&lines[k]));
        k += 1;
    }
    let mut result: Vec<Vec<char>> = Vec::new();
    let mut i: usize = 0;
    while i < lines.len()
        invariant
            i <= lines@.len(),
            ls == views(lines@),
            texts@.len() == lines@.len(),
            forall|m: int| 0 <= m < lines@.len() ==> #[trigger] texts@[m]@ == text_part(ls[m]),
            collapse_runs(ls, 0) == views(result@) + collapse_runs(ls, i as int),
        decreases lines.len() - i,
    {
        let mut e: usize = i + 1;
        proof {
            lemma_run_end_bounds(ls, i as int, i + 1);
        }
        while e < lines.len() && similar_exec(&texts[i], &texts[e])
            invariant
                i < e <= lines@.len(),
                ls == views(lines@),
                texts@.len() == lines@.len(),
                forall|m: int| 0 <= m < lines@.len() ==> #[trigger] texts@[m]@ == text_part(ls[m]),
                run_end(ls, i as int, i + 1) == run_end(ls, i as int, e as int),
            decreases lines.len() - e,
        {
            e += 1;
        }
        assert(run_end(ls, i as int, e as int) == e);
        proof {
            lemma_run_end_bounds(ls, i as int, i + 1);
        }
        let ghost old_result = views(result@);
        if e - i >= 3 {
            result.push(copy_chars(&lines[i]));
            result.push(repeat_marker_chars(e - i - 1));
            assert(views(result@) =~= old_result + seq![ls[i as int], repeat_marker((e - i - 1) as nat)]);
            i = e;
        } else {
            result.push(copy_chars(&lines[i]));
            assert(views(result@) =~= old_result + seq![ls[i as int]]);
            i += 1;
        }
    }
    result
}

/// Detects and removes repetition loops: a run of three or more consecutive
/// lines whose text is similar to the run's first line keeps that first line,
/// followed by a marker saying how many lines were collapsed.
pub fn dedup_segments(lines: &[String]) -> (r: Vec<String>)
    ensures
        strs(r@) == dedup_segments_spec(strs(lines@)),
{
    let cl = char_lines(lines);
    let d = dedup_chars(&cl);
    to_strings(&d)
}


/// Lines that stand for non-speech noise.
pub open spec fn noise_words() -> Seq<Seq<char>> {
    seq![
        "[music]"@,
        "[blank_audio]"@,
        "[silence]"@,
        "music"@,
        "you"@,
        "okay."@,
        "yeah."@,
    ]
}

/// Whether `text`, trimmed and lowercased, is a noise word.  (Lowercasing
/// never shortens a string, so the trimmed text is no longer than the word.)
pub open spec fn is_noise(text: Seq<char>) -> bool {
    exists|k: int|
        0 <= k < noise_words().len() && #[trigger] noise_words()[k] == lower(trim(text))
            && trim(text).len() <= noise_words()[k].len()
}

fn noise_list() -> (r: Vec<Vec<char>>)
    ensures
        views(r@) == noise_words(),
{
    let r = vec![
        lit("[music]"),
        lit("[blank_audio]"),
        lit("[silence]"),
        lit("music"),
        lit("you"),
        lit("okay."),
        lit("yeah."),
    ];
    assert(views(r@) =~= noise_words());
    r
}

fn is_noise_exec(text: &[char]) -> (b: bool)
    ensures
        b == is_noise(text@),
{
    let t = trim_ws(text);
    let l = lower_chars(&t);
    let list = noise_list();
    let b = member(&l, &list);
    proof {
        if b {
            let k = choose|k: int| 0 <= k < views(list@).len() && views(list@)[k] == l@;
            assert(noise_words()[k] == lower(trim(text@)));
        }
    }
    b
}

/// How many lines at the end of `lines` are noise.
pub open spec fn trailing_noise(lines: Seq<Seq<char>>) -> nat
    decreases lines.len(),
{
    if lines.len() > 0 && is_noise(text_part(lines.last())) {
        trailing_noise(lines.drop_last()) + 1
    } else {
        0
    }
}

/// The marker that replaces `n` trailing noise lines.
pub open spec fn trailing_marker(n: nat) -> Seq<char> {
    "[Recording ended — "@ + dec(n) + " lines of trailing noise removed]"@
}

/// Five or more trailing noise lines are replaced by one marker line.
pub open spec fn trim_trailing_noise_spec(lines: Seq<Seq<char>>) -> Seq<Seq<char>> {
    let k = trailing_noise(lines);
    if k >= 5 {
        lines.take(lines.len() - k).push(trailing_marker(k))
    } else {
        lines
    }
}

proof fn lemma_trailing_noise_bound(lines: Seq<Seq<char>>)
    ensures
        trailing_noise(lines) <= lines.len(),
    decreases lines.len(),
{
    if lines.len() > 0 && is_noise(text_part(lines.last())) {
        lemma_trailing_noise_bound(lines.drop_last());
    }
}

fn trim_noise_chars(lines: &[Vec<char>]) -> (r: Vec<Vec<char>>)
    ensures
        views(r@) == trim_trailing_noise_spec(views(lines@)),
{
    let ghost ls = views(lines@);
    let mut from: usize = lines.len();
    let mut done = false;
    assert(ls.take(ls.len() as int) =~= ls);
    while from > 0 && !done
        invariant
            from <= lines@.len(),
            ls == views(lines@),
            trailing_noise(ls) == trailing_noise(ls.take(from as int)) + (lines@.len() - from),
            done ==> trailing_noise(ls.take(from as int)) == 0,
        decreases from + if done { 0usize } else { 1usize },
    {
        let t = text_part_chars(&lines[from - 1]);
        assert(ls.take(from as int).last() == ls[from - 1]);
        if is_noise_exec(&t) {
            assert(ls.take(from as int).drop_last() =~= ls.take(from - 1));
            from -= 1;
        } else {
            done = true;
        }
    }
    proof {
        if from == 0 {
            assert(ls.take(0) =~= Seq::<Seq<char>>::empty());
        }
    }
    let k = lines.len() - from;
    assert(k == trailing_noise(ls));
    let mut r: Vec<Vec<char>> = Vec::new();
    let lim = if k >= 5 {
        from
    } else {
        lines.len()
    };
    let mut i: usize = 0;
    while i < lim
        invariant
            lim <= lines@.len(),
            i <= lim,
            ls == views(lines@),
            views(r@) == ls.take(i as int),
        decreases lim - i,
    {
        let ghost prev = views(r@);
        r.push(copy_chars(&lines[i]));
        assert(views(r@) =~= prev.push(ls[i as int]));
        assert(ls.take(i + 1) =~= ls.take(i as int).push(ls[i as int]));
        i += 1;
    }
    if k >= 5 {
        let mut m = lit("[Recording ended — ");
        let d = dec_chars(k);
        push_all(&mut m, &d);
        let tail = lit(" lines of trailing noise removed]");
        push_all(&mut m, &tail);
        r.push(m);
    } else {
        assert(ls.take(ls.len() as int) =~= ls);
    }
    r
}

/// Replaces five or more trailing noise lines (`[music]`, `[blank_audio]`,
/// `you`, ...) by a single marker saying how many were removed.
pub fn trim_trailing_noise(lines: &[String]) -> (r: Vec<String>)
    ensures
        strs(r@) == trim_trailing_noise_spec(strs(lines@)),
{
    let cl = char_lines(lines);
    let d = trim_noise_chars(&cl);
    to_strings(&d)
}

// ---------------------------------------------------------------------------
// Idempotence of the trailing-noise pass
// ---------------------------------------------------------------------------

proof fn lemma_dec_digits(n: nat)
    ensures
        forall|i: int| 0 <= i < dec(n).len() ==> '0' <= #[trigger] dec(n)[i] <= '9',
        dec(n).len() >= 1,
    decreases n,
{
    if n >= 10 {
        lemma_dec_digits(n / 10);
    }
}

proof fn lemma_find_none(s: Seq<char>, pat: Seq<char>, i: nat)
    requires
        forall|k: int| i <= k ==> !occurs_at(s, pat, k),
    ensures
        find_from(s, pat, i) is None,
    decreases s.len() + 1 - i,
{
    if i + pat.len() <= s.len() {
        lemma_find_none(s, pat, i + 1);
    }
}

proof fn lemma_marker_not_noise(n: nat)
    ensures
        text_part(trailing_marker(n)) == trailing_marker(n),
        !is_noise(trailing_marker(n)),
{
    reveal_strlit("[Recording ended — ");
    reveal_strlit("[music]");
    reveal_strlit("[blank_audio]");
    reveal_strlit("[silence]");
    reveal_strlit("music");
    reveal_strlit("you");
    reveal_strlit("okay.");
    reveal_strlit("yeah.");
    reveal_strlit(" lines of trailing noise removed]");
    reveal_strlit("] ");
    lemma_dec_digits(n);
    let m = trailing_marker(n);
    let a = "[Recording ended — "@;
    let b = " lines of trailing noise removed]"@;
    let d = dec(n);
    assert(m.len() == a.len() + d.len() + b.len());
    assert forall|k: int| 0 <= k < m.len() - 1 implies m[k] != ']' by {
        if k < a.len() {
            assert(m[k] == a[k]);
        } else if k < a.len() + d.len() {
            assert(m[k] == d[k - a.len()]);
        } else {
            assert(m[k] == b[k - a.len() - d.len()]);
        }
    }
    assert forall|k: int| 0 <= k implies !occurs_at(m, "] "@, k) by {
        if occurs_at(m, "] "@, k) {
            assert(m.subrange(k, k + 2)[0] == ']');
        }
    }
    lemma_find_none(m, "] "@, 0);
    assert(trim(m) =~= m) by {
        assert(!is_ws(m[0]));
        assert(m.last() == ']');
        assert(!is_ws(m.last()));
    }
    assert(m.len() > 13);
}

/// Trimming trailing noise twice gives what trimming once gives.
pub proof fn law_trim_trailing_noise_idempotent(lines: Seq<Seq<char>>)
    ensures
        trim_trailing_noise_spec(trim_trailing_noise_spec(lines)) == trim_trailing_noise_spec(
            lines,
        ),
{
    let k = trailing_noise(lines);
    if k >= 5 {
        lemma_trailing_noise_bound(lines);
        let once = trim_trailing_noise_spec(lines);
        lemma_marker_not_noise(k);
        assert(once.last() == trailing_marker(k));
        assert(trailing_noise(once) == 0);
    }
}

/// Whether `lines` end with five or more lines whose text is noise.
pub open spec fn ends_in_noise(lines: Seq<Seq<char>>) -> bool {
    lines.len() >= 5 && forall|m: int| lines.len() - 5 <= m < lines.len() ==> is_noise(#[trigger] text_part(lines[m]))
}

proof fn lemma_trailing_noise_at_least(lines: Seq<Seq<char>>, n: nat)
    requires
        n <= lines.len(),
        forall|m: int| lines.len() - n <= m < lines.len() ==> is_noise(#[trigger] text_part(lines[m])),
    ensures
        trailing_noise(lines) >= n,
    decreases n,
{
    if n > 0 {
        let p = lines.drop_last();
        assert(is_noise(text_part(lines[lines.len() - 1])));
        assert forall|m: int| p.len() - (n - 1) <= m < p.len() implies is_noise(#[trigger] text_part(p[m])) by {
            assert(p[m] == lines[m]);
            assert(is_noise(text_part(lines[m])));
        }
        lemma_trailing_noise_at_least(p, (n - 1) as nat);
    }
}

/// Trimming trailing noise leaves no run of five noise lines at the end.
pub proof fn law_trimmed_never_ends_in_noise(lines: Seq<Seq<char>>)
    ensures
        !ends_in_noise(trim_trailing_noise_spec(lines)),
{
    let k = trailing_noise(lines);
    let t = trim_trailing_noise_spec(lines);
    if k >= 5 {
        lemma_trailing_noise_bound(lines);
        lemma_marker_not_noise(k);
        assert(t.last() == trailing_marker(k));
        if ends_in_noise(t) {
            assert(is_noise(text_part(t[t.len() - 1])));
        }
    } else if ends_in_noise(t) {
        lemma_trailing_noise_at_least(t, 5);
    }
}

proof fn lemma_collapse_runs_len(lines: Seq<Seq<char>>, i: int)
    requires
        0 <= i <= lines.len(),
    ensures
        collapse_runs(lines, i).len() <= lines.len() - i,
    decreases lines.len() - i,
{
    if i < lines.len() {
        let e = run_end(lines, i, i + 1);
        if i + 2 < e && e <= lines.len() {
            lemma_collapse_runs_len(lines, e);
        } else {
            lemma_collapse_runs_len(lines, i + 1);
        }
    }
}

proof fn lemma_collapse_marked_len(lines: Seq<Seq<char>>, rm: Seq<bool>, idx: int)
    requires
        0 <= idx <= lines.len(),
    ensures
        collapse_marked(lines, rm, idx).len() <= lines.len() - idx,
    decreases lines.len() - idx,
{
    if idx < lines.len() && idx < rm.len() {
        if rm[idx] {
            let k = marked_run(rm, idx);
            if k > 0 && idx + k <= lines.len() {
                lemma_collapse_marked_len(lines, rm, idx + k);
            }
        } else {
            lemma_collapse_marked_len(lines, rm, idx + 1);
        }
    }
}

/// No cleaning pass adds lines: collapsing a run, a dominated region or a
/// noisy tail always leaves fewer lines than it replaces.
pub proof fn law_cleaning_never_adds_lines(lines: Seq<Seq<char>>)
    ensures
        dedup_segments_spec(lines).len() <= lines.len(),
        dedup_interleaved_spec(lines).len() <= lines.len(),
        trim_trailing_noise_spec(lines).len() <= lines.len(),
{
    if lines.len() >= 3 {
        lemma_collapse_runs_len(lines, 0);
    }
    if lines.len() >= 6 {
        let rm = scan_windows(
            phrases(lines),
            filler_flags(lines),
            0,
            Seq::new(lines.len(), |j: int| false),
        );
        lemma_collapse_marked_len(lines, rm, 0);
    }
    lemma_trailing_noise_bound(lines);
}


// ---------------------------------------------------------------------------
// Interleaved repetition
// ---------------------------------------------------------------------------

/// The letters, digits and whitespace of `s`, in order.
pub open spec fn keep_alnum_ws(s: Seq<char>) -> Seq<char>
    decreases s.len(),
{
    if s.len() == 0 {
        seq![]
    } else {
        let r = keep_alnum_ws(s.drop_last());
        if is_alnum(s.last()) || is_ws(s.last()) {
            r.push(s.last())
        } else {
            r
        }
    }
}

/// A segment text reduced for comparison: lowercased, only letters, digits
/// and whitespace kept, words joined by single spaces.
pub open spec fn normalize_phrase(text: Seq<char>) -> Seq<char> {
    join(words(keep_alnum_ws(lower(text))), seq![' '])
}

/// Short filler words that whisper inserts between repetitions.
pub open spec fn filler_words() -> Seq<Seq<char>> {
    seq![
        "okay"@,
        "ok"@,
        "yeah"@,
        "yes"@,
        "right"@,
        "so"@,
        "and"@,
        "but"@,
        "well"@,
        "uh"@,
        "um"@,
        "hmm"@,
        "mhm"@,
    ]
}

/// Whether `text` is a filler word once trimmed, lowercased and stripped of
/// surrounding non-alphanumeric characters.
pub open spec fn is_filler(text: Seq<char>) -> bool {
    filler_words().contains(trim_by(lower(trim(text)), CharClass::NotAlphanumeric))
}

fn keep_alnum_ws_chars(s: &[char]) -> (r: Vec<char>)
    ensures
        r@ == keep_alnum_ws(s@),
{
    let mut r: Vec<char> = Vec::new();
    let mut i: usize = 0;
    while i < s.len()
        invariant
            i <= s@.len(),
            r@ == keep_alnum_ws(s@.take(i as int)),
        decreases s.len() - i,
    {
        assert(s@.take(i + 1).drop_last() =~= s@.take(i as int));
        let c = s[i];
        if is_alphanumeric(c) || is_whitespace(c) {
            r.push(c);
        }
        i += 1;
    }
    assert(s@.take(s@.len() as int) =~= s@);
    r
}

fn normalize_phrase_chars(text: &[char]) -> (r: Vec<char>)
    ensures
        r@ == normalize_phrase(text@),
{
    let l = lower_chars(text);
    let k = keep_alnum_ws_chars(&l);
    let w = split_words(&k);
    let sp = vec![' '];
    assert(sp@ =~= seq![' ']);
    join_chars(&w, &sp)
}

fn filler_list() -> (r: Vec<Vec<char>>)
    ensures
        views(r@) == filler_words(),
{
    let r = vec![
        lit("okay"),
        lit("ok"),
        lit("yeah"),
        lit("yes"),
        lit("right"),
        lit("so"),
        lit("and"),
        lit("but"),
        lit("well"),
        lit("uh"),
        lit("um"),
        lit("hmm"),
        lit("mhm"),
    ];
    assert(views(r@) =~= filler_words());
    r
}

fn is_filler_exec(text: &[char]) -> (b: bool)
    ensures
        b == is_filler(text@),
{
    let t = trim_ws(text);
    let l = lower_chars(&t);
    let m = trim_chars(&l, CharClass::NotAlphanumeric);
    let list = filler_list();
    member(&m, &list)
}

/// Whether line `j` takes part in the frequency count of a window.
pub open spec fn eligible(texts: Seq<Seq<char>>, fillers: Seq<bool>, j: int) -> bool {
    !fillers[j] && texts[j].len() > 0
}

/// Occurrences of phrase `p` among the counted lines of `[a, b)`.
pub open spec fn count_range(
    texts: Seq<Seq<char>>,
    fillers: Seq<bool>,
    p: Seq<char>,
    a: int,
    b: int,
) -> nat
    decreases b - a,
{
    if b <= a {
        0
    } else {
        count_range(texts, fillers, p, a, b - 1) + if eligible(texts, fillers, b - 1) && texts[b
            - 1] == p {
            1nat
        } else {
            0nat
        }
    }
}

/// The window of ten lines starting at `i`.
pub open spec fn window_count(texts: Seq<Seq<char>>, fillers: Seq<bool>, i: int, p: Seq<char>) -> nat {
    count_range(texts, fillers, p, i, i + 10)
}

/// The counted phrase of the window's first `k` lines with the most
/// occurrences in the window, ties going to the greater phrase.
pub open spec fn best_upto(texts: Seq<Seq<char>>, fillers: Seq<bool>, i: int, k: int) -> Option<
    Seq<char>,
>
    decreases k,
{
    if k <= 0 {
        None
    } else {
        let prev = best_upto(texts, fillers, i, k - 1);
        let j = i + k - 1;
        if !eligible(texts, fillers, j) {
            prev
        } else {
            match prev {
                None => Some(texts[j]),
                Some(q) => {
                    let cp = window_count(texts, fillers, i, texts[j]);
                    let cq = window_count(texts, fillers, i, q);
                    if cp > cq || (cp == cq && lex_lt(q, texts[j])) {
                        Some(texts[j])
                    } else {
                        prev
                    }
                },
            }
        }
    }
}

/// How far a region dominated by `p` extends from `r`: over lines equal to
/// `p` or fillers, and over gaps of one or two other lines before `p` resumes.
pub open spec fn extend_region(texts: Seq<Seq<char>>, fillers: Seq<bool>, p: Seq<char>, r: int) -> int
    decreases texts.len() - r,
{
    if r < 0 || r >= texts.len() {
        r
    } else if texts[r] == p || fillers[r] {
        extend_region(texts, fillers, p, r + 1)
    } else if r + 1 < texts.len() && texts[r + 1] == p {
        extend_region(texts, fillers, p, r + 2)
    } else if r + 2 < texts.len() && texts[r + 2] == p {
        extend_region(texts, fillers, p, r + 3)
    } else {
        r
    }
}

/// The first line of `[a, b)` equal to `p`, or `b`.
pub open spec fn first_occurrence(texts: Seq<Seq<char>>, p: Seq<char>, a: int, b: int) -> int
    decreases b - a,
{
    if a >= b {
        b
    } else if texts[a] == p {
        a
    } else {
        first_occurrence(texts, p, a + 1, b)
    }
}

/// Lines of `[a, b)` equal to `p`.
pub open spec fn phrase_count(texts: Seq<Seq<char>>, p: Seq<char>, a: int, b: int) -> nat
    decreases b - a,
{
    if b <= a {
        0
    } else {
        phrase_count(texts, p, a, b - 1) + if texts[b - 1] == p {
            1nat
        } else {
            0nat
        }
    }
}

/// `rm` with the lines of `[a, b)` marked for removal, except line `f`.
pub open spec fn mark_region(rm: Seq<bool>, a: int, b: int, f: int) -> Seq<bool> {
    Seq::new(rm.len(), |j: int| if a <= j < b { j != f } else { rm[j] })
}

/// The removal marks from window `i` on: a window whose dominant phrase
/// occurs at least five times starts a region; every line of the region but
/// the phrase's first occurrence is marked, and scanning resumes after it.
pub open spec fn scan_windows(texts: Seq<Seq<char>>, fillers: Seq<bool>, i: int, rm: Seq<bool>) -> Seq<
    bool,
>
    decreases texts.len() - i,
{
    if i < 0 || i + 10 > texts.len() {
        rm
    } else {
        match best_upto(texts, fillers, i, 10) {
            Some(p) => {
                if window_count(texts, fillers, i, p) >= 5 {
                    let e = extend_region(texts, fillers, p, i + 10);
                    if phrase_count(texts, p, i, e) >= 5 && e - i >= 6 && e <= texts.len() {
                        scan_windows(
                            texts,
                            fillers,
                            e,
                            mark_region(rm, i, e, first_occurrence(texts, p, i, e)),
                        )
                    } else {
                        scan_windows(texts, fillers, i + 1, rm)
                    }
                } else {
                    scan_windows(texts, fillers, i + 1, rm)
                }
            },
            None => scan_windows(texts, fillers, i + 1, rm),
        }
    }
}

/// Length of the run of marked lines starting at `idx`.
pub open spec fn marked_run(rm: Seq<bool>, idx: int) -> nat
    decreases rm.len() - idx,
{
    if idx < 0 || idx >= rm.len() || !rm[idx] {
        0
    } else {
        marked_run(rm, idx + 1) + 1
    }
}

/// The marker that replaces a run of `n` removed lines.
pub open spec fn hallucination_marker(n: nat) -> Seq<char> {
    "[...] [hallucinated repetition removed — "@ + dec(n) + " lines collapsed]"@
}

/// From `idx` on: unmarked lines kept, each run of marked lines replaced by a marker.
pub open spec fn collapse_marked(lines: Seq<Seq<char>>, rm: Seq<bool>, idx: int) -> Seq<Seq<char>>
    decreases lines.len() - idx,
{
    if idx < 0 || idx >= lines.len() || idx >= rm.len() {
        seq![]
    } else if rm[idx] {
        let k = marked_run(rm, idx);
        if k > 0 && idx + k <= lines.len() {
            seq![hallucination_marker(k)] + collapse_marked(lines, rm, idx + k)
        } else {
            seq![]
        }
    } else {
        seq![lines[idx]] + collapse_marked(lines, rm, idx + 1)
    }
}

pub open spec fn phrases(lines: Seq<Seq<char>>) -> Seq<Seq<char>> {
    lines.map_values(|l: Seq<char>| normalize_phrase(text_part(l)))
}

pub open spec fn filler_flags(lines: Seq<Seq<char>>) -> Seq<bool> {
    lines.map_values(|l: Seq<char>| is_filler(normalize_phrase(text_part(l))))
}

/// Interleaved repetition removed; fewer than six lines are left alone.
pub open spec fn dedup_interleaved_spec(lines: Seq<Seq<char>>) -> Seq<Seq<char>> {
    if lines.len() < 6 {
        lines
    } else {
        collapse_marked(
            lines,
            scan_windows(
                phrases(lines),
                filler_flags(lines),
                0,
                Seq::new(lines.len(), |j: int| false),
            ),
            0,
        )
    }
}


fn count_range_exec(texts: &[Vec<char>], fillers: &[bool], p: &[char], a: usize, b: usize) -> (n: usize)
    requires
        a <= b <= texts@.len(),
        texts@.len() == fillers@.len(),
    ensures
        n == count_range(views(texts@), fillers@, p@, a as int, b as int),
        n <= b - a,
{
    let ghost ts = views(texts@);
    let mut n: usize = 0;
    let mut j: usize = a;
    while j < b
        invariant
            a <= j <= b <= texts@.len(),
            texts@.len() == fillers@.len(),
            ts == views(texts@),
            n == count_range(ts, fillers@, p@, a as int, j as int),
            n <= j - a,
        decreases b - j,
    {
        if !fillers[j] && texts[j].len() > 0 && chars_eq(&texts[j], p) {
            n += 1;
        }
        j += 1;
    }
    n
}

fn marked_run_exec(rm: &[bool], idx: usize) -> (k: usize)
    requires
        idx < rm@.len(),
    ensures
        k == marked_run(rm@, idx as int),
        idx + k <= rm@.len(),
{
    let mut j: usize = idx;
    while j < rm.len() && rm[j]
        invariant
            idx <= j <= rm@.len(),
            marked_run(rm@, idx as int) == (j - idx) + marked_run(rm@, j as int),
        decreases rm.len() - j,
    {
        j += 1;
    }
    j - idx
}

proof fn lemma_extend_bounds(texts: Seq<Seq<char>>, fillers: Seq<bool>, p: Seq<char>, r: int)
    requires
        0 <= r <= texts.len(),
    ensures
        r <= extend_region(texts, fillers, p, r) <= texts.len(),
    decreases texts.len() - r,
{
    if r < texts.len() {
        if texts[r] == p || fillers[r] {
            lemma_extend_bounds(texts, fillers, p, r + 1);
        } else if r + 1 < texts.len() && texts[r + 1] == p {
            lemma_extend_bounds(texts, fillers, p, r + 2);
        } else if r + 2 < texts.len() && texts[r + 2] == p {
            lemma_extend_bounds(texts, fillers, p, r + 3);
        }
    }
}

fn interleaved_chars(lines: &[Vec<char>]) -> (r: Vec<Vec<char>>)
    ensures
        views(r@) == dedup_interleaved_spec(views(lines@)),
{
    let ghost ls = views(lines@);
    let n = lines.len();
    if n < 6 {
        let mut r: Vec<Vec<char>> = Vec::new();
        let mut k: usize = 0;
        while k < n
            invariant
                n == lines@.len(),
                k <= n,
                views(r@) == views(lines@).take(k as int),
            decreases n - k,
        {
            let ghost prev = views(r@);
            r.push(copy_chars(&lines[k]));
            assert(views(r@) =~= prev.push(lines@[k as int]@));
            assert(views(lines@).take(k + 1) =~= views(lines@).take(k as int).push(lines@[k as int]@));
            k += 1;
        }
        assert(views(lines@).take(n as int) =~= views(lines@));
        return r;
    }
    let mut texts: Vec<Vec<char>> = Vec::new();
    let mut fillers: Vec<bool> = Vec::new();
    let mut k: usize = 0;
    while k < n
        invariant
            n == lines@.len(),
            ls == views(lines@),
            k <= n,
            texts@.len() == k,
            fillers@.len() == k,
            forall|m: int| 0 <= m < k ==> #[trigger] texts@[m]@ == normalize_phrase(text_part(ls[m])),
            forall|m: int| 0 <= m < k ==> #[trigger] fillers@[m] == is_filler(normalize_phrase(text_part(ls[m]))),
        decreases n - k,
    {
        let tp = text_part_chars(&lines[k]);
        let t = normalize_phrase_chars(&tp);
        let f = is_filler_exec(&t);
        texts.push(t);
        fillers.push(f);
        k += 1;
    }
    let ghost ts = views(texts@);
    let ghost fl = fillers@;
    assert(ts =~= phrases(ls));
    assert(fl =~= filler_flags(ls));
    let mut rm: Vec<bool> = Vec::new();
    let mut k: usize = 0;
    while k < n
        invariant
            k <= n,
            rm@.len() == k,
            forall|m: int| 0 <= m < k ==> !#[trigger] rm@[m],
        decreases n - k,
    {
        rm.push(false);
        k += 1;
    }
    assert(rm@ =~= Seq::new(n as nat, |j: int| false));
    let ghost init = rm@;
    let mut i: usize = 0;
    while i <= n && n - i >= 10
        invariant
            n == lines@.len(),
            ts == views(texts@),
            fl == fillers@,
            texts@.len() == n,
            fillers@.len() == n,
            rm@.len() == n,
            i <= n,
            scan_windows(ts, fl, 0, init) == scan_windows(ts, fl, i as int, rm@),
        decreases n - i,
    {
        // The window's dominant phrase.
        let mut best: Option<usize> = None;
        let mut best_count: usize = 0;
        let mut kk: usize = 0;
        while kk < 10
            invariant
                i + 10 <= n,
                ts == views(texts@),
                fl == fillers@,
                texts@.len() == n,
                fillers@.len() == n,
                kk <= 10,
                best is None ==> best_upto(ts, fl, i as int, kk as int) is None,
                best matches Some(bj) ==> bj < n && best_upto(ts, fl, i as int, kk as int) == Some(ts[bj as int])
                    && best_count == window_count(ts, fl, i as int, ts[bj as int]),
            decreases 10 - kk,
        {
            let j = i + kk;
            if !fillers[j] && texts[j].len() > 0 {
                let c = count_range_exec(&texts, &fillers, &texts[j], i, i + 10);
                match best {
                    None => {
                        best = Some(j);
                        best_count = c;
                    },
                    Some(bj) => {
                        if c > best_count || (c == best_count && lex_lt_exec(&texts[bj], &texts[j])) {
                            best = Some(j);
                            best_count = c;
                        }
                    },
                }
            }
            kk += 1;
        }
        let mut advanced = false;
        if let Some(bj) = best {
            if best_count >= 5 {
                let p = copy_chars(&texts[bj]);
                assert(p@ == ts[bj as int]);
                let mut r: usize = i + 10;
                proof {
                    lemma_extend_bounds(ts, fl, p@, r as int);
                }
                loop
                    invariant
                        i + 10 <= r <= n,
                        ts == views(texts@),
                        fl == fillers@,
                        texts@.len() == n,
                        fillers@.len() == n,
                        extend_region(ts, fl, p@, i + 10) == extend_region(ts, fl, p@, r as int),
                    ensures
                        i + 10 <= r <= n,
                        extend_region(ts, fl, p@, i + 10) == r,
                    decreases n - r,
                {
                    if r >= n {
                        break;
                    }
                    if chars_eq(&texts[r], &p) || fillers[r] {
                        r += 1;
                    } else if n - r > 1 && chars_eq(&texts[r + 1], &p) {
                        r += 2;
                    } else if n - r > 2 && chars_eq(&texts[r + 2], &p) {
                        r += 3;
                    } else {
                        break;
                    }
                }
                let e = r;
                assert(extend_region(ts, fl, p@, i + 10) == e);
                // First occurrence and total occurrences of the phrase in the region.
                let mut f: usize = i;
                while f < e && !chars_eq(&texts[f], &p)
                    invariant
                        i <= f <= e <= n,
                        ts == views(texts@),
                        texts@.len() == n,
                        first_occurrence(ts, p@, i as int, e as int) == first_occurrence(ts, p@, f as int, e as int),
                    decreases e - f,
                {
                    f += 1;
                }
                assert(first_occurrence(ts, p@, i as int, e as int) == f);
                let mut pc: usize = 0;
                let mut j: usize = i;
                while j < e
                    invariant
                        i <= j <= e <= n,
                        ts == views(texts@),
                        texts@.len() == n,
                        pc == phrase_count(ts, p@, i as int, j as int),
                        pc <= j - i,
                    decreases e - j,
                {
                    if chars_eq(&texts[j], &p) {
                        pc += 1;
                    }
                    j += 1;
                }
                if pc >= 5 && e - i >= 6 {
                    let ghost before = rm@;
                    let mut j: usize = i;
                    while j < e
                        invariant
                            i <= j <= e <= n,
                            rm@.len() == n,
                            before.len() == n,
                            forall|m: int| 0 <= m < n ==> #[trigger] rm@[m] == if i <= m < j {
                                m != f
                            } else {
                                before[m]
                            },
                        decreases e - j,
                    {
                        rm.set(j, j != f);
                        j += 1;
                    }
                    assert(rm@ =~= mark_region(before, i as int, e as int, f as int));
                    i = e;
                    advanced = true;
                }
            }
        }
        if !advanced {
            i += 1;
        }
    }
    // Assemble the output.
    let ghost fin = rm@;
    assert(scan_windows(ts, fl, i as int, rm@) == rm@);
    let mut result: Vec<Vec<char>> = Vec::new();
    let mut idx: usize = 0;
    while idx < n
        invariant
            n == lines@.len(),
            ls == views(lines@),
            rm@ == fin,
            fin.len() == n,
            idx <= n,
            collapse_marked(ls, fin, 0) == views(result@) + collapse_marked(ls, fin, idx as int),
        decreases n - idx,
    {
        let ghost prev = views(result@);
        if rm[idx] {
            let k = marked_run_exec(&rm, idx);
            let mut m = lit("[...] [hallucinated repetition removed — ");
            let d = dec_chars(k);
            push_all(&mut m, &d);
            let tail = lit(" lines collapsed]");
            push_all(&mut m, &tail);
            result.push(m);
            assert(views(result@) =~= prev + seq![hallucination_marker(k as nat)]);
            idx += k;
        } else {
            result.push(copy_chars(&lines[idx]));
            assert(views(result@) =~= prev + seq![ls[idx as int]]);
            idx += 1;
        }
    }
    result
}

/// Detects interleaved repetition that escapes consecutive dedup: when one
/// phrase fills at least five of a ten-line window, the region it dominates
/// (with fillers and short gaps between its repetitions) is collapsed to its
/// first occurrence, and each run of removed lines becomes a marker.
pub fn dedup_interleaved(lines: &[String]) -> (r: Vec<String>)
    ensures
        strs(r@) == dedup_interleaved_spec(strs(lines@)),
{
    let cl = char_lines(lines);
    let d = interleaved_chars(&cl);
    to_strings(&d)
}


/// Statistics from transcript cleaning.
#[derive(Debug, Clone, PartialEq, Eq, Default)]
pub struct CleanStats {
    pub original_lines: usize,
    pub after_consecutive_dedup: usize,
    pub after_interleaved_dedup: usize,
    pub after_trailing_trim: usize,
    pub lines_removed: usize,
}

/// The three cleaning passes, in order.
pub open spec fn clean_lines(lines: Seq<Seq<char>>) -> Seq<Seq<char>> {
    trim_trailing_noise_spec(dedup_interleaved_spec(dedup_segments_spec(lines)))
}

/// What `clean_transcript` makes of transcript `t`.
pub open spec fn cleaned(t: Seq<char>) -> Seq<char> {
    join(clean_lines(lines_of(t)), seq!['\n'])
}

/// A line that survives being joined with line feeds and split again: it
/// holds no line feed and does not end with a carriage return.
pub open spec fn plain_line(l: Seq<char>) -> bool {
    (forall|m: int| 0 <= m < l.len() ==> l[m] != '\n') && (l.len() > 0 ==> l.last() != '\r')
}

pub open spec fn no_newline(l: Seq<char>) -> bool {
    forall|m: int| 0 <= m < l.len() ==> l[m] != '\n'
}

/// Lines that survive being joined with line feeds and split again: none
/// holds a line feed, all but the last are plain, and the last is not empty.
pub open spec fn joinable(ls: Seq<Seq<char>>) -> bool {
    &&& forall|k: int| 0 <= k < ls.len() ==> no_newline(#[trigger] ls[k])
    &&& forall|k: int| 0 <= k < ls.len() - 1 ==> plain_line(#[trigger] ls[k])
    &&& ls.len() > 0 ==> ls.last().len() > 0
}

/// Joinable lines split back from their join.
proof fn lemma_joinable_lines(ls: Seq<Seq<char>>)
    requires
        joinable(ls),
    ensures
        lines_of(join(ls, seq!['\n'])) == ls,
{
    assert forall|k: int, m: int| 0 <= k < ls.len() && 0 <= m < ls[k].len() implies #[trigger] ls[k][m] != '\n' by {
        assert(no_newline(ls[k]));
    }
    assert forall|k: int| 0 <= k < ls.len() - 1 && (#[trigger] ls[k]).len() > 0 implies ls[k].last() != '\r' by {
        assert(plain_line(ls[k]));
    }
    lemma_lines_of_join(ls);
}

proof fn lemma_wrapped_plain(a: Seq<char>, n: nat, b: Seq<char>)
    requires
        forall|k: int| 0 <= k < a.len() ==> a[k] != '\n',
        forall|k: int| 0 <= k < b.len() ==> b[k] != '\n',
        b.len() > 0,
        b.last() != '\r',
    ensures
        plain_line(a + dec(n) + b),
        (a + dec(n) + b).len() > 0,
{
    lemma_dec_digits(n);
    let d = dec(n);
    let m = a + d + b;
    assert forall|k: int| 0 <= k < m.len() implies m[k] != '\n' by {
        if k < a.len() {
            assert(m[k] == a[k]);
        } else if k < a.len() + d.len() {
            assert(m[k] == d[k - a.len()]);
        } else {
            assert(m[k] == b[k - a.len() - d.len()]);
        }
    }
    assert(m.last() == b.last());
}

/// The markers the passes insert are plain, non-empty lines.
proof fn lemma_markers_plain(n: nat)
    ensures
        plain_line(repeat_marker(n)),
        repeat_marker(n).len() > 0,
        plain_line(hallucination_marker(n)),
        hallucination_marker(n).len() > 0,
        plain_line(trailing_marker(n)),
        trailing_marker(n).len() > 0,
{
    reveal_strlit("[...] [repeated audio removed — ");
    reveal_strlit(" identical segments collapsed]");
    reveal_strlit("[...] [hallucinated repetition removed — ");
    reveal_strlit(" lines collapsed]");
    reveal_strlit("[Recording ended — ");
    reveal_strlit(" lines of trailing noise removed]");
    lemma_wrapped_plain("[...] [repeated audio removed — "@, n, " identical segments collapsed]"@);
    lemma_wrapped_plain("[...] [hallucinated repetition removed — "@, n, " lines collapsed]"@);
    lemma_wrapped_plain("[Recording ended — "@, n, " lines of trailing noise removed]"@);
}

/// Collapsing runs keeps lines joinable.
proof fn lemma_collapse_runs_plain(lines: Seq<Seq<char>>, i: int)
    requires
        0 <= i <= lines.len(),
        joinable(lines),
    ensures
        joinable(collapse_runs(lines, i)),
    decreases lines.len() - i,
{
    if i < lines.len() {
        let o = collapse_runs(lines, i);
        let e = run_end(lines, i, i + 1);
        lemma_run_end_bounds(lines, i, i + 1);
        assert(no_newline(lines[i]));
        if i + 2 < e && e <= lines.len() {
            let m = repeat_marker((e - i - 1) as nat);
            lemma_markers_plain((e - i - 1) as nat);
            let rest = collapse_runs(lines, e);
            lemma_collapse_runs_plain(lines, e);
            assert(o == seq![lines[i], m] + rest);
            assert(plain_line(lines[i]));
            assert forall|k: int| 0 <= k < o.len() implies no_newline(#[trigger] o[k]) by {
                if k >= 2 {
                    assert(o[k] == rest[k - 2]);
                }
            }
            assert forall|k: int| 0 <= k < o.len() - 1 implies plain_line(#[trigger] o[k]) by {
                if k >= 2 {
                    assert(o[k] == rest[k - 2]);
                }
            }
            if rest.len() > 0 {
                assert(o.last() == rest.last());
            }
        } else {
            let rest = collapse_runs(lines, i + 1);
            lemma_collapse_runs_plain(lines, i + 1);
            assert(o == seq![lines[i]] + rest);
            if rest.len() > 0 {
                assert(i < lines.len() - 1);
                assert(plain_line(lines[i]));
            }
            assert forall|k: int| 0 <= k < o.len() implies no_newline(#[trigger] o[k]) by {
                if k >= 1 {
                    assert(o[k] == rest[k - 1]);
                }
            }
            assert forall|k: int| 0 <= k < o.len() - 1 implies plain_line(#[trigger] o[k]) by {
                if k >= 1 {
                    assert(o[k] == rest[k - 1]);
                }
            }
            if rest.len() > 0 {
                assert(o.last() == rest.last());
            } else {
                assert(i + 1 >= lines.len());
            }
        }
    }
}

/// Cleaning a cleaned transcript changes nothing, for transcripts whose only
/// hallucination is consecutive repetition: neither the interleaved pass nor
/// the trailing-noise pass finds anything in what the first pass leaves, no
/// line reads like a collapse marker, no line but the last ends with a
/// carriage return, and the last line is not empty.
pub proof fn law_clean_transcript_idempotent(t: Seq<char>)
    requires
        forall|k: int| 0 <= k < lines_of(t).len() ==> !like_marker(#[trigger] lines_of(t)[k]),
        forall|k: int|
            0 <= k < lines_of(t).len() - 1 && (#[trigger] lines_of(t)[k]).len() > 0 ==> lines_of(t)[k].last()
                != '\r',
        lines_of(t).len() > 0 ==> lines_of(t).last().len() > 0,
        dedup_interleaved_spec(dedup_segments_spec(lines_of(t))) == dedup_segments_spec(lines_of(t)),
        trim_trailing_noise_spec(dedup_segments_spec(lines_of(t))) == dedup_segments_spec(lines_of(t)),
    ensures
        cleaned(cleaned(t)) == cleaned(t),
{
    let ls = lines_of(t);
    let d = dedup_segments_spec(ls);
    assert(clean_lines(ls) == d);
    lemma_lines_joinable(t);
    if ls.len() >= 3 {
        lemma_collapse_runs_plain(ls, 0);
    }
    lemma_joinable_lines(d);
    law_dedup_segments_idempotent(ls);
    assert(lines_of(cleaned(t)) == d);
    assert(clean_lines(d) == d);
}

/// The lines of a transcript none of whose lines but the last ends with a
/// carriage return, and whose last line is not empty, are joinable.
proof fn lemma_lines_joinable(t: Seq<char>)
    requires
        forall|k: int|
            0 <= k < lines_of(t).len() - 1 && (#[trigger] lines_of(t)[k]).len() > 0 ==> lines_of(t)[k].last()
                != '\r',
        lines_of(t).len() > 0 ==> lines_of(t).last().len() > 0,
    ensures
        joinable(lines_of(t)),
{
    let ls = lines_of(t);
    lemma_lines_have_no_newline(t);
    assert forall|k: int| 0 <= k < ls.len() implies no_newline(#[trigger] ls[k]) by {
        assert forall|m: int| 0 <= m < ls[k].len() implies ls[k][m] != '\n' by {
            assert(lines_of(t)[k][m] != '\n');
        }
    }
    assert forall|k: int| 0 <= k < ls.len() - 1 implies plain_line(#[trigger] ls[k]) by {
        assert(no_newline(ls[k]));
    }
}

proof fn lemma_marked_run_bound(rm: Seq<bool>, idx: int)
    requires
        0 <= idx <= rm.len(),
    ensures
        marked_run(rm, idx) <= rm.len() - idx,
        idx < rm.len() && rm[idx] ==> marked_run(rm, idx) > 0,
    decreases rm.len() - idx,
{
    if idx < rm.len() && rm[idx] {
        lemma_marked_run_bound(rm, idx + 1);
    }
}

proof fn lemma_collapse_marked_nonempty(lines: Seq<Seq<char>>, rm: Seq<bool>, idx: int)
    requires
        0 <= idx < lines.len(),
        rm.len() == lines.len(),
    ensures
        collapse_marked(lines, rm, idx).len() > 0,
{
    lemma_marked_run_bound(rm, idx);
}

/// Collapsing marked lines keeps lines joinable.
proof fn lemma_collapse_marked_plain(lines: Seq<Seq<char>>, rm: Seq<bool>, idx: int)
    requires
        0 <= idx <= lines.len(),
        rm.len() == lines.len(),
        joinable(lines),
    ensures
        joinable(collapse_marked(lines, rm, idx)),
    decreases lines.len() - idx,
{
    if idx < lines.len() {
        let o = collapse_marked(lines, rm, idx);
        if rm[idx] {
            let k = marked_run(rm, idx);
            lemma_marked_run_bound(rm, idx);
            lemma_markers_plain(k);
            lemma_collapse_marked_plain(lines, rm, idx + k);
            let rest = collapse_marked(lines, rm, idx + k);
            assert(o == seq![hallucination_marker(k)] + rest);
            assert forall|j: int| 0 <= j < o.len() implies no_newline(#[trigger] o[j]) by {
                if j >= 1 {
                    assert(o[j] == rest[j - 1]);
                }
            }
            assert forall|j: int| 0 <= j < o.len() - 1 implies plain_line(#[trigger] o[j]) by {
                if j >= 1 {
                    assert(o[j] == rest[j - 1]);
                }
            }
            if rest.len() > 0 {
                assert(o.last() == rest.last());
            }
        } else {
            lemma_collapse_marked_plain(lines, rm, idx + 1);
            let rest = collapse_marked(lines, rm, idx + 1);
            assert(o == seq![lines[idx]] + rest);
            assert(no_newline(lines[idx]));
            if rest.len() > 0 {
                assert(idx < lines.len() - 1);
                assert(plain_line(lines[idx]));
            }
            assert forall|j: int| 0 <= j < o.len() implies no_newline(#[trigger] o[j]) by {
                if j >= 1 {
                    assert(o[j] == rest[j - 1]);
                }
            }
            assert forall|j: int| 0 <= j < o.len() - 1 implies plain_line(#[trigger] o[j]) by {
                if j >= 1 {
                    assert(o[j] == rest[j - 1]);
                }
            }
            if rest.len() > 0 {
                assert(o.last() == rest.last());
            } else if idx + 1 < lines.len() {
                lemma_collapse_marked_nonempty(lines, rm, idx + 1);
            }
        }
    }
}

/// The three passes keep lines joinable.
pub(crate) proof fn lemma_clean_lines_plain(lines: Seq<Seq<char>>)
    requires
        joinable(lines),
    ensures
        joinable(clean_lines(lines)),
{
    let d = dedup_segments_spec(lines);
    if lines.len() >= 3 {
        lemma_collapse_runs_plain(lines, 0);
    }
    let i = dedup_interleaved_spec(d);
    if d.len() >= 6 {
        let rm = scan_windows(phrases(d), filler_flags(d), 0, Seq::new(d.len(), |j: int| false));
        lemma_scan_len(phrases(d), filler_flags(d), 0, Seq::new(d.len(), |j: int| false));
        lemma_collapse_marked_plain(d, rm, 0);
    }
    let k = trailing_noise(i);
    if k >= 5 {
        lemma_trailing_noise_bound(i);
        lemma_markers_plain(k);
        let c = clean_lines(lines);
        assert(c == i.take(i.len() - k).push(trailing_marker(k)));
        assert forall|j: int| 0 <= j < c.len() implies no_newline(#[trigger] c[j]) by {
            if j < c.len() - 1 {
                assert(c[j] == i[j]);
            }
        }
        assert forall|j: int| 0 <= j < c.len() - 1 implies plain_line(#[trigger] c[j]) by {
            assert(c[j] == i[j]);
        }
    }
}

proof fn lemma_scan_len(texts: Seq<Seq<char>>, fillers: Seq<bool>, i: int, rm: Seq<bool>)
    ensures
        scan_windows(texts, fillers, i, rm).len() == rm.len(),
    decreases texts.len() - i,
{
    if !(i < 0 || i + 10 > texts.len()) {
        match best_upto(texts, fillers, i, 10) {
            Some(p) => {
                if window_count(texts, fillers, i, p) >= 5 {
                    let e = extend_region(texts, fillers, p, i + 10);
                    if phrase_count(texts, p, i, e) >= 5 && e - i >= 6 && e <= texts.len() {
                        lemma_scan_len(texts, fillers, e, mark_region(rm, i, e, first_occurrence(texts, p, i, e)));
                    } else {
                        lemma_scan_len(texts, fillers, i + 1, rm);
                    }
                } else {
                    lemma_scan_len(texts, fillers, i + 1, rm);
                }
            },
            None => lemma_scan_len(texts, fillers, i + 1, rm),
        }
    }
}

/// Scanning marks nothing new, or marks two neighbouring lines (a region
/// has at least ten lines, all marked but one).
proof fn lemma_scan_marks_a_pair(texts: Seq<Seq<char>>, fillers: Seq<bool>, i: int, rm: Seq<bool>)
    requires
        0 <= i,
        rm.len() == texts.len(),
    ensures
        scan_windows(texts, fillers, i, rm) == rm || exists|j: int|
            i <= j && j + 1 < rm.len() && #[trigger] scan_windows(texts, fillers, i, rm)[j] && scan_windows(
                texts,
                fillers,
                i,
                rm,
            )[j + 1],
    decreases texts.len() - i,
{
    let r = scan_windows(texts, fillers, i, rm);
    if !(i + 10 > texts.len()) {
        match best_upto(texts, fillers, i, 10) {
            Some(p) => {
                if window_count(texts, fillers, i, p) >= 5 {
                    let e = extend_region(texts, fillers, p, i + 10);
                    lemma_extend_bounds(texts, fillers, p, i + 10);
                    if phrase_count(texts, p, i, e) >= 5 && e - i >= 6 && e <= texts.len() {
                        let f = first_occurrence(texts, p, i, e);
                        let m = mark_region(rm, i, e, f);
                        lemma_scan_marks_a_pair(texts, fillers, e, m);
                        lemma_scan_keeps_before(texts, fillers, e, m);
                        lemma_scan_len(texts, fillers, e, m);
                        let j = if f != i && f != i + 1 {
                            i
                        } else {
                            i + 2
                        };
                        assert(m[j] && m[j + 1]);
                        assert(r[j] == m[j] && r[j + 1] == m[j + 1]);
                    } else {
                        lemma_scan_marks_a_pair(texts, fillers, i + 1, rm);
                    }
                } else {
                    lemma_scan_marks_a_pair(texts, fillers, i + 1, rm);
                }
            },
            None => lemma_scan_marks_a_pair(texts, fillers, i + 1, rm),
        }
    }
}

/// Scanning from `i` leaves the marks before `i` as they are.
proof fn lemma_scan_keeps_before(texts: Seq<Seq<char>>, fillers: Seq<bool>, i: int, rm: Seq<bool>)
    requires
        0 <= i,
    ensures
        forall|j: int| 0 <= j < i && j < rm.len() ==> #[trigger] scan_windows(texts, fillers, i, rm)[j] == rm[j],
    decreases texts.len() - i,
{
    let r = scan_windows(texts, fillers, i, rm);
    if i + 10 > texts.len() {
        assert(r == rm);
    } else {
        let next = match best_upto(texts, fillers, i, 10) {
            Some(p) => {
                let e = extend_region(texts, fillers, p, i + 10);
                if window_count(texts, fillers, i, p) >= 5 && phrase_count(texts, p, i, e) >= 5 && e - i >= 6
                    && e <= texts.len() {
                    Some((e, mark_region(rm, i, e, first_occurrence(texts, p, i, e))))
                } else {
                    None
                }
            },
            None => None,
        };
        match next {
            Some((e, m)) => {
                let p = best_upto(texts, fillers, i, 10)->0;
                lemma_extend_bounds(texts, fillers, p, i + 10);
                assert(r == scan_windows(texts, fillers, e, m));
                lemma_scan_keeps_before(texts, fillers, e, m);
                assert forall|j: int| 0 <= j < i && j < rm.len() implies #[trigger] r[j] == rm[j] by {
                    assert(m[j] == rm[j]);
                    assert(scan_windows(texts, fillers, e, m)[j] == m[j]);
                }
            },
            None => {
                assert(r == scan_windows(texts, fillers, i + 1, rm));
                lemma_scan_keeps_before(texts, fillers, i + 1, rm);
                assert forall|j: int| 0 <= j < i && j < rm.len() implies #[trigger] r[j] == rm[j] by {
                    assert(scan_windows(texts, fillers, i + 1, rm)[j] == rm[j]);
                }
            },
        }
    }
}

proof fn lemma_collapse_marked_unmarked(lines: Seq<Seq<char>>, rm: Seq<bool>, idx: int)
    requires
        0 <= idx <= lines.len(),
        rm.len() == lines.len(),
        forall|j: int| idx <= j < lines.len() ==> !rm[j],
    ensures
        collapse_marked(lines, rm, idx) == lines.skip(idx),
    decreases lines.len() - idx,
{
    if idx < lines.len() {
        lemma_collapse_marked_unmarked(lines, rm, idx + 1);
        assert(seq![lines[idx]] + lines.skip(idx + 1) =~= lines.skip(idx));
    } else {
        assert(lines.skip(idx) =~= Seq::<Seq<char>>::empty());
    }
}

proof fn lemma_collapse_marked_pair_shorter(lines: Seq<Seq<char>>, rm: Seq<bool>, idx: int, j: int)
    requires
        0 <= idx <= j,
        j + 1 < lines.len(),
        rm.len() == lines.len(),
        rm[j],
        rm[j + 1],
    ensures
        collapse_marked(lines, rm, idx).len() < lines.len() - idx,
    decreases lines.len() - idx,
{
    if rm[idx] {
        let k = marked_run(rm, idx);
        lemma_marked_run_bound(rm, idx);
        lemma_collapse_marked_len(lines, rm, idx + k);
        if k < 2 {
            assert(marked_run(rm, idx + 1) == 0);
            assert(j != idx);
            lemma_collapse_marked_pair_shorter(lines, rm, idx + 1, j);
        }
    } else {
        lemma_collapse_marked_pair_shorter(lines, rm, idx + 1, j);
    }
}

/// The interleaved pass either changes nothing or leaves fewer lines.
proof fn lemma_interleaved_shortens(lines: Seq<Seq<char>>)
    ensures
        dedup_interleaved_spec(lines) == lines || dedup_interleaved_spec(lines).len() < lines.len(),
{
    if lines.len() >= 6 {
        let none = Seq::new(lines.len(), |j: int| false);
        let texts = phrases(lines);
        let rm = scan_windows(texts, filler_flags(lines), 0, none);
        lemma_scan_marks_a_pair(texts, filler_flags(lines), 0, none);
        lemma_scan_len(texts, filler_flags(lines), 0, none);
        if rm == none {
            lemma_collapse_marked_unmarked(lines, rm, 0);
            assert(lines.skip(0) =~= lines);
        } else {
            let j = choose|j: int| 0 <= j && j + 1 < none.len() && #[trigger] rm[j] && rm[j + 1];
            lemma_collapse_marked_pair_shorter(lines, rm, 0, j);
        }
    }
}

proof fn lemma_collapse_runs_shortens(lines: Seq<Seq<char>>, i: int)
    requires
        0 <= i <= lines.len(),
    ensures
        collapse_runs(lines, i) == lines.skip(i) || collapse_runs(lines, i).len() < lines.len() - i,
    decreases lines.len() - i,
{
    if i < lines.len() {
        let e = run_end(lines, i, i + 1);
        lemma_run_end_bounds(lines, i, i + 1);
        if i + 2 < e && e <= lines.len() {
            lemma_collapse_runs_len(lines, e);
        } else {
            lemma_collapse_runs_shortens(lines, i + 1);
            lemma_collapse_runs_len(lines, i + 1);
            if collapse_runs(lines, i + 1) == lines.skip(i + 1) {
                assert(seq![lines[i]] + lines.skip(i + 1) =~= lines.skip(i));
            }
        }
    } else {
        assert(lines.skip(i) =~= Seq::<Seq<char>>::empty());
    }
}

/// Cleaning a cleaned transcript gives it back exactly when neither
/// repetition pass finds anything more in the cleaned lines, for
/// transcripts none of whose lines but the last ends with a carriage return
/// and whose last line is not empty (the trailing-noise pass never finds
/// more).
pub proof fn law_clean_transcript_idempotent_exactly_when_passes_find_nothing(t: Seq<char>)
    requires
        forall|k: int|
            0 <= k < lines_of(t).len() - 1 && (#[trigger] lines_of(t)[k]).len() > 0 ==> lines_of(t)[k].last()
                != '\r',
        lines_of(t).len() > 0 ==> lines_of(t).last().len() > 0,
    ensures
        cleaned(cleaned(t)) == cleaned(t) <==> (dedup_segments_spec(clean_lines(lines_of(t)))
            == clean_lines(lines_of(t)) && dedup_interleaved_spec(clean_lines(lines_of(t))) == clean_lines(
            lines_of(t),
        )),
{
    let ls = lines_of(t);
    lemma_lines_joinable(t);
    let c = clean_lines(ls);
    lemma_clean_lines_plain(ls);
    lemma_joinable_lines(c);
    assert(lines_of(cleaned(t)) == c);
    let c2 = clean_lines(c);
    lemma_clean_lines_plain(c);
    lemma_joinable_lines(c2);
    assert(cleaned(cleaned(t)) == join(c2, seq!['\n']));
    let d = dedup_segments_spec(c);
    if c.len() >= 3 {
        lemma_collapse_runs_shortens(c, 0);
        assert(c.skip(0) =~= c);
    }
    lemma_interleaved_shortens(d);
    law_cleaning_never_adds_lines(d);
    law_cleaning_never_adds_lines(dedup_interleaved_spec(d));
    if d == c && dedup_interleaved_spec(c) == c {
        let i = dedup_interleaved_spec(dedup_segments_spec(ls));
        law_trim_trailing_noise_idempotent(i);
        assert(c2 == c);
    }
    if cleaned(cleaned(t)) == cleaned(t) {
        assert(c2 == c);
    }
}

/// Cleans a raw transcript (lines like `[0:00] some text`): repetition loops,
/// interleaved repetition and trailing noise are removed, and the counts of
/// lines after each pass are reported.
pub fn clean_transcript(transcript: &str) -> (r: (String, CleanStats))
    ensures
        r.0@ == cleaned(transcript@),
        r.1.original_lines == lines_of(transcript@).len(),
        r.1.after_consecutive_dedup == dedup_segments_spec(lines_of(transcript@)).len(),
        r.1.after_interleaved_dedup == dedup_interleaved_spec(
            dedup_segments_spec(lines_of(transcript@)),
        ).len(),
        r.1.after_trailing_trim == clean_lines(lines_of(transcript@)).len(),
        r.1.original_lines >= r.1.after_consecutive_dedup,
        r.1.after_consecutive_dedup >= r.1.after_interleaved_dedup,
        r.1.after_interleaved_dedup >= r.1.after_trailing_trim,
        r.1.lines_removed == r.1.original_lines - r.1.after_trailing_trim,
{
    let t = chars_of(transcript);
    let lines = lines_vec(&t);
    let original_count = lines.len();
    let a = dedup_chars(&lines);
    let after_consecutive = a.len();
    let b = interleaved_chars(&a);
    let after_interleaved = b.len();
    let c = trim_noise_chars(&b);
    let after_trim = c.len();
    proof {
        law_cleaning_never_adds_lines(views(lines@));
        law_cleaning_never_adds_lines(views(a@));
        law_cleaning_never_adds_lines(views(b@));
    }
    let stats = CleanStats {
        original_lines: original_count,
        after_consecutive_dedup: after_consecutive,
        after_interleaved_dedup: after_interleaved,
        after_trailing_trim: after_trim,
        lines_removed: original_count.saturating_sub(after_trim),
    };
    let nl = vec!['\n'];
    assert(nl@ =~= seq!['\n']);
    let joined = join_chars(&c, &nl);
    (string_from(&joined), stats)
}

} // verus!
