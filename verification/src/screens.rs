//! Screenshots sent with a summary request: which files are read, and how
//! each read file is named and encoded.
use vstd::prelude::*;
use base64::Engine;
use crate::text::{lemma_lex_asymmetric, lemma_lex_total, lemma_lex_transitive, lex_lt, lex_lt_exec};
use crate::text::{chars_of, dec, dec_chars_u64, digit, lit, push_all, string_from, strs, to_strings, views};
use crate::transcribe::{extension_chars, extension_of, file_name_of, last_index, path_file_name, path_join, path_join_exec};

verus! {

broadcast use vstd::seq_lib::group_to_multiset_ensures;

/// At most this many screenshots go with a request.
pub const MAX_SCREEN_IMAGES: usize = 8;

/// What standard base64 (with padding) makes of `bytes`.
pub uninterp spec fn base64_standard(bytes: Seq<u8>) -> Seq<char>;

/// `base64`'s `STANDARD` engine, `Engine::encode`: padded output, four
/// characters for every three bytes begun.  (It panics when that length
/// overflows `usize`, which the bound rules out.)
#[verifier::external_body]
fn base64_encode(bytes: &[u8]) -> (r: String)
    requires
        bytes@.len() <= usize::MAX / 4 * 3,
    ensures
        r@ == base64_standard(bytes@),
        r@.len() == 4 * ((bytes@.len() + 2) / 3),
{
    base64::engine::general_purpose::STANDARD.encode(bytes)
}

/// The screenshots read for a request: the first [`MAX_SCREEN_IMAGES`].
pub fn screens_to_read(files: &[String]) -> (r: Vec<String>)
    ensures
        r@.len() == if files@.len() <= 8 { files@.len() as int } else { 8 },
        forall|i: int| 0 <= i < r@.len() ==> #[trigger] r@[i]@ == files@[i]@,
{
    let mut r: Vec<String> = Vec::new();
    let mut i: usize = 0;
    while i < files.len() && i < MAX_SCREEN_IMAGES
        invariant
            i <= files@.len(),
            i <= 8,
            r@.len() == i,
            forall|j: int| 0 <= j < i ==> #[trigger] r@[j]@ == files@[j]@,
        decreases files.len() - i,
    {
        r.push(string_from(&chars_of(files[i].as_str())));
        i += 1;
    }
    r
}

/// A screenshot ready to send.
pub struct EncodedImage {
    /// The file's name, or `screenshot.png` for a path without one.
    pub name: String,
    /// The file's bytes in base64.
    pub data: String,
}

/// The name a screenshot is sent under.
pub open spec fn image_name(path: Seq<char>) -> Seq<char> {
    match path_file_name(path) {
        Some(f) => f,
        None => "screenshot.png"@,
    }
}

pub open spec fn read_views(reads: Seq<(String, Option<Vec<u8>>)>) -> Seq<(Seq<char>, Option<Seq<u8>>)> {
    reads.map_values(
        |x: (String, Option<Vec<u8>>)|
            (
                x.0@,
                match x.1 {
                    Some(b) => Some(b@),
                    None => None,
                },
            ),
    )
}

pub open spec fn image_views(v: Seq<EncodedImage>) -> Seq<(Seq<char>, Seq<char>)> {
    v.map_values(|e: EncodedImage| (e.name@, e.data@))
}

/// The read screenshots, in order, each with its name and its bytes in
/// base64; unread ones are left out.
pub open spec fn encoded(reads: Seq<(Seq<char>, Option<Seq<u8>>)>) -> Seq<(Seq<char>, Seq<char>)>
    decreases reads.len(),
{
    if reads.len() == 0 {
        seq![]
    } else {
        let r = encoded(reads.drop_last());
        match reads.last().1 {
            Some(b) => r.push((image_name(reads.last().0), base64_standard(b))),
            None => r,
        }
    }
}

/// Names and encodes the screenshots that could be read (see [`encoded`]);
/// `reads` pairs each path with its bytes, or `None` where reading failed.
pub fn encode_images(reads: &[(String, Option<Vec<u8>>)]) -> (r: Vec<EncodedImage>)
    requires
        forall|i: int|
            0 <= i < reads@.len() ==> ((#[trigger] reads@[i]).1 matches Some(b) ==> b@.len()
                <= usize::MAX / 4 * 3),
    ensures
        image_views(r@) == encoded(read_views(reads@)),
{
    let mut r: Vec<EncodedImage> = Vec::new();
    let mut i: usize = 0;
    while i < reads.len()
        invariant
            i <= reads@.len(),
            image_views(r@) == encoded(read_views(reads@).take(i as int)),
            forall|k: int|
                0 <= k < reads@.len() ==> ((#[trigger] reads@[k]).1 matches Some(b) ==> b@.len()
                    <= usize::MAX / 4 * 3),
        decreases reads.len() - i,
    {
        assert(read_views(reads@).take(i + 1).drop_last() =~= read_views(reads@).take(i as int));
        assert(read_views(reads@).take(i + 1).last() == read_views(reads@)[i as int]);
        let (path, bytes) = &reads[i];
        match bytes {
            Some(b) => {
                let name = match file_name_of(path.as_str()) {
                    Some(f) => f,
                    None => string_from(&lit("screenshot.png")),
                };
                let data = base64_encode(b.as_slice());
                let img = EncodedImage { name, data };
                let ghost prev = image_views(r@);
                let ghost iv = (img.name@, img.data@);
                r.push(img);
                assert(image_views(r@) =~= prev.push(iv));
            },
            None => {},
        }
        i += 1;
    }
    assert(read_views(reads@).take(reads@.len() as int) =~= read_views(reads@));
    r
}

/// Whether a file name is a PNG image's (extension `png`).
pub open spec fn is_png(name: Seq<char>) -> bool {
    extension_of(name) == Some("png"@)
}

/// The PNG names among `names`, in order.
pub open spec fn png_names(names: Seq<Seq<char>>) -> Seq<Seq<char>>
    decreases names.len(),
{
    if names.len() == 0 {
        seq![]
    } else {
        let r = png_names(names.drop_last());
        if is_png(names.last()) {
            r.push(names.last())
        } else {
            r
        }
    }
}

/// Each element no later in order than the next.
pub open spec fn sorted_names(v: Seq<Seq<char>>) -> bool {
    forall|i: int, j: int| 0 <= i < j < v.len() ==> !lex_lt(#[trigger] v[j], #[trigger] v[i])
}

/// Adds `a` to sorted `v`, after the elements not after it.
fn insert_in_order(v: &mut Vec<Vec<char>>, a: Vec<char>)
    requires
        sorted_names(views(old(v)@)),
    ensures
        sorted_names(views(final(v)@)),
        views(final(v)@).to_multiset() == views(old(v)@).to_multiset().insert(a@),
{
    let ghost ks = views(v@);
    let mut p: usize = 0;
    while p < v.len() && !lex_lt_exec(&a, &v[p])
        invariant
            p <= v@.len(),
            ks == views(v@),
            forall|k: int| 0 <= k < p ==> !lex_lt(a@, #[trigger] ks[k]),
        decreases v.len() - p,
    {
        p += 1;
    }
    let ghost av = a@;
    v.insert(p, a);
    proof {
        let n = ks.insert(p as int, av);
        assert(views(v@) =~= n);
        if p < ks.len() {
            assert(lex_lt(av, ks[p as int]));
        }
        assert forall|i: int, j: int| 0 <= i < j < n.len() implies !lex_lt(#[trigger] n[j], #[trigger] n[i]) by {
            if j < p {
                assert(n[i] == ks[i] && n[j] == ks[j]);
            } else if j == p {
                assert(n[i] == ks[i]);
            } else if i < p {
                assert(n[i] == ks[i] && n[j] == ks[j - 1]);
                if lex_lt(ks[j - 1], ks[i]) {
                    // ks[i] <= av < ks[p] <= ks[j - 1]
                    assert(!lex_lt(av, ks[i]));
                    assert(lex_lt(av, ks[p as int]));
                    if ks[i] != av {
                        lemma_lex_total(ks[i], av);
                        lemma_lex_transitive(ks[i], av, ks[p as int]);
                    }
                    if p as int != j - 1 {
                        assert(!lex_lt(ks[j - 1], ks[p as int]));
                    }
                    if ks[j - 1] != ks[p as int] {
                        lemma_lex_total(ks[j - 1], ks[p as int]);
                        lemma_lex_transitive(ks[i], ks[p as int], ks[j - 1]);
                    }
                    lemma_lex_asymmetric(ks[i], ks[j - 1]);
                }
            } else if i == p {
                assert(n[j] == ks[j - 1]);
                if lex_lt(ks[j - 1], av) {
                    if j - 1 > p {
                        assert(!lex_lt(ks[j - 1], ks[p as int]));
                        lemma_lex_transitive(ks[j - 1], av, ks[p as int]);
                    } else {
                        lemma_lex_asymmetric(av, ks[p as int]);
                    }
                }
            } else {
                assert(n[i] == ks[i - 1] && n[j] == ks[j - 1]);
            }
        }
        assert(n.remove(p as int) =~= ks);
        assert(n[p as int] == av);
        assert(n.remove(p as int).to_multiset() =~= n.to_multiset().remove(av));
        assert(n.contains(av));
        assert(n.to_multiset().count(av) > 0);
        assert(n.to_multiset() =~= ks.to_multiset().insert(av));
    }
}

/// The PNG files among the names of a directory's entries, sorted by name.
pub fn screenshot_names(names: &[String]) -> (r: Vec<String>)
    ensures
        sorted_names(strs(r@)),
        strs(r@).to_multiset() == png_names(strs(names@)).to_multiset(),
{
    let mut v: Vec<Vec<char>> = Vec::new();
    let mut i: usize = 0;
    let png = lit("png");
    proof {
        assert(strs(names@).take(0) =~= Seq::<Seq<char>>::empty());
        assert(views(v@) =~= Seq::<Seq<char>>::empty());
    }
    while i < names.len()
        invariant
            i <= names@.len(),
            png@ == "png"@,
            sorted_names(views(v@)),
            views(v@).to_multiset() == png_names(strs(names@).take(i as int)).to_multiset(),
        decreases names.len() - i,
    {
        let c = chars_of(names[i].as_str());
        assert(strs(names@).take(i + 1).drop_last() =~= strs(names@).take(i as int));
        assert(strs(names@).take(i + 1).last() == c@);
        let keep = match extension_chars(&c) {
            Some(e) => crate::text::chars_eq(&e, &png),
            None => false,
        };
        if keep {
            insert_in_order(&mut v, c);
        }
        i += 1;
    }
    assert(strs(names@).take(names@.len() as int) =~= strs(names@));
    let r = to_strings(&v);
    r
}

/// A screenshot as a `data:` URL.
pub fn image_data_url(img: &EncodedImage) -> (r: String)
    ensures
        r@ == "data:image/png;base64,"@ + img.data@,
{
    let mut out = lit("data:image/png;base64,");
    push_all(&mut out, &chars_of(img.data.as_str()));
    string_from(&out)
}

/// `Path::file_stem` of a file name: the name without its extension (see
/// [`extension_of`]).
pub open spec fn stem_of(name: Seq<char>) -> Seq<char> {
    match last_index(name, '.') {
        Some(i) => if i > 0 {
            name.take(i)
        } else {
            name
        },
        None => name,
    }
}

fn stem_chars(name: &[char]) -> (r: Vec<char>)
    ensures
        r@ == stem_of(name@),
{
    let mut i: usize = name.len();
    assert(name@.take(name@.len() as int) =~= name@);
    while i > 0 && name[i - 1] != '.'
        invariant
            i <= name@.len(),
            last_index(name@, '.') == last_index(name@.take(i as int), '.'),
        decreases i,
    {
        assert(name@.take(i as int).drop_last() =~= name@.take(i - 1));
        i -= 1;
    }
    if i <= 1 {
        return crate::text::copy_chars(name);
    }
    let r = crate::text::copy_range(name, 0, i - 1);
    assert(r@ =~= name@.take(i - 1));
    r
}

/// The directory a recording's screenshots are kept in:
/// `<home>/.minutes/screens/<stem>`, the stem being the recording's file
/// name without its extension (`unknown` when the path has no file name).
pub open spec fn screens_dir(audio_path: Seq<char>, home: Seq<char>) -> Seq<char> {
    let stem = match path_file_name(audio_path) {
        Some(f) => stem_of(f),
        None => "unknown"@,
    };
    path_join(path_join(path_join(home, ".minutes"@), "screens"@), stem)
}

/// The screenshots directory of the recording at `audio_path`, under the
/// user's home directory `home` (see [`screens_dir`]).
pub fn screens_dir_for(audio_path: &str, home: &str) -> (r: String)
    ensures
        r@ == screens_dir(audio_path@, home@),
{
    let stem = match file_name_of(audio_path) {
        Some(f) => stem_chars(&chars_of(f.as_str())),
        None => lit("unknown"),
    };
    let base = path_join_exec(&chars_of(home), &lit(".minutes"));
    let base = path_join_exec(&base, &lit("screens"));
    string_from(&path_join_exec(&base, &stem))
}

/// `n` in decimal, padded with leading zeros to at least `width` digits.
pub open spec fn zero_padded(n: nat, width: nat) -> Seq<char>
    decreases width,
{
    if dec(n).len() >= width {
        dec(n)
    } else {
        seq!['0'] + zero_padded(n, (width - 1) as nat)
    }
}

fn zero_padded_chars(n: u64, width: usize) -> (r: Vec<char>)
    ensures
        r@ == zero_padded(n as nat, width as nat),
    decreases width,
{
    let d = dec_chars_u64(n);
    if d.len() >= width {
        d
    } else {
        let mut r = vec!['0'];
        let rest = zero_padded_chars(n, width - 1);
        push_all(&mut r, &rest);
        r
    }
}

/// The name of screenshot number `index`, taken `elapsed` seconds into the
/// recording: `screen-<index>-<elapsed>s.png`, both numbers with at least
/// four digits, so that names sort in the order they were taken.
pub open spec fn screenshot_name(index: nat, elapsed: nat) -> Seq<char> {
    "screen-"@ + zero_padded(index, 4) + "-"@ + zero_padded(elapsed, 4) + "s.png"@
}

pub fn screenshot_file_name(index: u32, elapsed: u64) -> (r: String)
    ensures
        r@ == screenshot_name(index as nat, elapsed as nat),
{
    let mut out = lit("screen-");
    push_all(&mut out, &zero_padded_chars(index as u64, 4));
    push_all(&mut out, &lit("-"));
    push_all(&mut out, &zero_padded_chars(elapsed, 4));
    push_all(&mut out, &lit("s.png"));
    string_from(&out)
}

/// The four decimal digits of `n` (below 10000), leading zeros included.
pub open spec fn four_digits(n: nat) -> Seq<char> {
    seq![digit(n / 1000), digit(n / 100 % 10), digit(n / 10 % 10), digit(n % 10)]
}

proof fn lemma_zero_padded_four(n: nat)
    requires
        n < 10000,
    ensures
        zero_padded(n, 4) == four_digits(n),
{
    reveal_with_fuel(zero_padded, 5);
    reveal_with_fuel(dec, 5);
    if n < 10 {
        assert(dec(n) == seq![digit(n)]);
    } else if n < 100 {
        assert(dec(n / 10) == seq![digit(n / 10)]);
        assert(dec(n) == seq![digit(n / 10), digit(n % 10)]);
    } else if n < 1000 {
        assert(dec(n / 100) == seq![digit(n / 100)]);
        assert(n / 10 / 10 == n / 100);
        assert(dec(n / 10) == seq![digit(n / 100), digit(n / 10 % 10)]);
        assert(dec(n) == seq![digit(n / 100), digit(n / 10 % 10), digit(n % 10)]);
    } else {
        assert(dec(n / 1000) == seq![digit(n / 1000)]);
        assert(n / 100 / 10 == n / 1000);
        assert(n / 10 / 10 == n / 100);
        assert(dec(n / 100) == seq![digit(n / 1000), digit(n / 100 % 10)]);
        assert(dec(n / 10) == seq![digit(n / 1000), digit(n / 100 % 10), digit(n / 10 % 10)]);
        assert(dec(n) == seq![digit(n / 1000), digit(n / 100 % 10), digit(n / 10 % 10), digit(n % 10)]);
    }
    assert(zero_padded(n, 4) =~= four_digits(n));
}

proof fn lemma_digit_monotone(a: nat, b: nat)
    requires
        a < b < 10,
    ensures
        digit(a) < digit(b),
{
}

/// `a` sorts before `b` when they agree up to position `k` and `a` has the
/// smaller character there.
proof fn lemma_lex_decided_at(a: Seq<char>, b: Seq<char>, k: nat)
    requires
        k < a.len(),
        k < b.len(),
        a.take(k as int) == b.take(k as int),
        a[k as int] < b[k as int],
    ensures
        lex_lt(a, b),
    decreases k,
{
    if k > 0 {
        assert(a[0] == a.take(k as int)[0]);
        assert(b[0] == b.take(k as int)[0]);
        assert(a.drop_first().take(k - 1) =~= a.take(k as int).drop_first());
        assert(b.drop_first().take(k - 1) =~= b.take(k as int).drop_first());
        lemma_lex_decided_at(a.drop_first(), b.drop_first(), (k - 1) as nat);
    }
}

proof fn lemma_first_digit_below(i: nat, j: nat)
    requires
        i < j < 10000,
    ensures
        i / 1000 < j / 1000 || (i / 1000 == j / 1000 && (i / 100 % 10 < j / 100 % 10 || (i / 100 % 10
            == j / 100 % 10 && (i / 10 % 10 < j / 10 % 10 || (i / 10 % 10 == j / 10 % 10 && i % 10
            < j % 10))))),
{
    assert(i == 1000 * (i / 1000) + 100 * (i / 100 % 10) + 10 * (i / 10 % 10) + i % 10) by (nonlinear_arith);
    assert(j == 1000 * (j / 1000) + 100 * (j / 100 % 10) + 10 * (j / 10 % 10) + j % 10) by (nonlinear_arith);
    assert(i / 100 % 10 < 10 && i / 10 % 10 < 10 && i % 10 < 10);
    assert(j / 100 % 10 < 10 && j / 10 % 10 < 10 && j % 10 < 10);
}

proof fn lemma_four_digits_lt(i: nat, j: nat, r1: Seq<char>, r2: Seq<char>)
    requires
        i < j < 10000,
    ensures
        lex_lt(four_digits(i) + r1, four_digits(j) + r2),
{
    lemma_first_digit_below(i, j);
    let a = four_digits(i) + r1;
    let b = four_digits(j) + r2;
    if i / 1000 < j / 1000 {
        lemma_digit_monotone(i / 1000, j / 1000);
        assert(a.take(0) =~= b.take(0));
        lemma_lex_decided_at(a, b, 0);
    } else if i / 100 % 10 < j / 100 % 10 {
        lemma_digit_monotone(i / 100 % 10, j / 100 % 10);
        assert(a.take(1) =~= b.take(1));
        lemma_lex_decided_at(a, b, 1);
    } else if i / 10 % 10 < j / 10 % 10 {
        lemma_digit_monotone(i / 10 % 10, j / 10 % 10);
        assert(a.take(2) =~= b.take(2));
        lemma_lex_decided_at(a, b, 2);
    } else {
        lemma_digit_monotone(i % 10, j % 10);
        assert(a.take(3) =~= b.take(3));
        lemma_lex_decided_at(a, b, 3);
    }
}

proof fn lemma_lex_common_prefix(p: Seq<char>, x: Seq<char>, y: Seq<char>)
    requires
        lex_lt(x, y),
    ensures
        lex_lt(p + x, p + y),
    decreases p.len(),
{
    if p.len() > 0 {
        lemma_lex_common_prefix(p.drop_first(), x, y);
        assert((p + x).drop_first() =~= p.drop_first() + x);
        assert((p + y).drop_first() =~= p.drop_first() + y);
    } else {
        assert(p + x =~= x);
        assert(p + y =~= y);
    }
}

/// Screenshots list in the order they were taken: while fewer than ten
/// thousand have been taken, a later screenshot's name sorts after an
/// earlier one's, whatever the times in them.
pub proof fn law_screenshot_names_sort_in_capture_order(i: nat, j: nat, e1: nat, e2: nat)
    requires
        i < j < 10000,
    ensures
        lex_lt(screenshot_name(i, e1), screenshot_name(j, e2)),
{
    lemma_zero_padded_four(i);
    lemma_zero_padded_four(j);
    let r1 = "-"@ + zero_padded(e1, 4) + "s.png"@;
    let r2 = "-"@ + zero_padded(e2, 4) + "s.png"@;
    lemma_four_digits_lt(i, j, r1, r2);
    lemma_lex_common_prefix("screen-"@, four_digits(i) + r1, four_digits(j) + r2);
    assert(screenshot_name(i, e1) =~= "screen-"@ + (four_digits(i) + r1));
    assert(screenshot_name(j, e2) =~= "screen-"@ + (four_digits(j) + r2));
}

} // verus!
