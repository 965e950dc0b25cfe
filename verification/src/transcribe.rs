//! Locating whisper model files, classifying audio inputs, the decisions of
//! transcribing a file, and assembling whisper's segments into a transcript.
use vstd::prelude::*;
use crate::config::Config;
use crate::segments::{
    dedup_segments_spec, dedup_interleaved_spec, trim_trailing_noise_spec, clean_lines, ends_in_noise, joinable,
    law_trimmed_never_ends_in_noise, lemma_clean_lines_plain, no_newline,
};
use crate::text::{
    chars_eq, chars_of, dec, dec_chars, join, join_chars, lit, lower_chars, lower, push_all, starts_with,
    starts_with_chars, string_from, strs, to_strings, trim, trim_ws, views, char_lines, digit,
    digit_char, copy_range, opt_view,
};

verus! {

/// Why transcription failed.
#[derive(Debug)]
pub enum TranscribeError {
    EmptyAudio,
    UnsupportedFormat(String),
    ModelNotFound(String),
    ModelLoadError(String),
    TranscriptionFailed(String),
    Io(String),
}

/// The message of an error.
pub open spec fn error_message(e: TranscribeError) -> Seq<char> {
    match e {
        TranscribeError::EmptyAudio => "audio is empty or contains no samples"@,
        TranscribeError::UnsupportedFormat(s) => "unsupported audio format: "@ + s@,
        TranscribeError::ModelNotFound(s) => "whisper model not found: "@ + s@
            + ". Run `minutes setup --model tiny` to download a model"@,
        TranscribeError::ModelLoadError(s) => "failed to load whisper model: "@ + s@,
        TranscribeError::TranscriptionFailed(s) => "transcription failed: "@ + s@,
        TranscribeError::Io(s) => "i/o error: "@ + s@,
    }
}

impl TranscribeError {
    /// The error's message.
    pub fn to_string(&self) -> (r: String)
        ensures
            r@ == error_message(*self),
    {
        let mut out: Vec<char> = Vec::new();
        match self {
            TranscribeError::EmptyAudio => {
                push_all(&mut out, &lit("audio is empty or contains no samples"));
            },
            TranscribeError::UnsupportedFormat(s) => {
                push_all(&mut out, &lit("unsupported audio format: "));
                push_all(&mut out, &chars_of(s.as_str()));
            },
            TranscribeError::ModelNotFound(s) => {
                push_all(&mut out, &lit("whisper model not found: "));
                push_all(&mut out, &chars_of(s.as_str()));
                push_all(&mut out, &lit(". Run `minutes setup --model tiny` to download a model"));
            },
            TranscribeError::ModelLoadError(s) => {
                push_all(&mut out, &lit("failed to load whisper model: "));
                push_all(&mut out, &chars_of(s.as_str()));
            },
            TranscribeError::TranscriptionFailed(s) => {
                push_all(&mut out, &lit("transcription failed: "));
                push_all(&mut out, &chars_of(s.as_str()));
            },
            TranscribeError::Io(s) => {
                push_all(&mut out, &lit("i/o error: "));
                push_all(&mut out, &chars_of(s.as_str()));
            },
        }
        string_from(&out)
    }
}

// ---------------------------------------------------------------------------
// Model files
// ---------------------------------------------------------------------------

/// `Path::join`: an absolute component replaces the path; otherwise a
/// separator is added unless the path is empty or already ends in one.
pub open spec fn path_join(dir: Seq<char>, comp: Seq<char>) -> Seq<char> {
    if starts_with(comp, "/"@) {
        comp
    } else if dir.len() == 0 || dir.last() == '/' {
        dir + comp
    } else {
        dir + seq!['/'] + comp
    }
}

pub fn path_join_exec(dir: &[char], comp: &[char]) -> (r: Vec<char>)
    ensures
        r@ == path_join(dir@, comp@),
{
    if starts_with_chars(comp, &lit("/")) {
        return crate::text::copy_chars(comp);
    }
    let mut r = crate::text::copy_chars(dir);
    if !(dir.len() == 0 || dir[dir.len() - 1] == '/') {
        r.push('/');
    }
    push_all(&mut r, comp);
    r
}

/// The files that may hold model `name` in `dir`, in the order they are tried.
pub open spec fn model_candidates(dir: Seq<char>, name: Seq<char>) -> Seq<Seq<char>> {
    seq![
        path_join(dir, "ggml-"@ + name + ".bin"@),
        path_join(dir, "whisper-"@ + name + ".bin"@),
        path_join(dir, name + ".bin"@),
    ]
}

/// Whether a file exists at `path` (`Path::exists`).  The answer depends on
/// the file system at the moment of the call, so nothing is stated of it.
#[verifier::external_body]
pub(crate) fn path_exists(path: &str) -> bool {
    std::path::Path::new(path).exists()
}

/// The first candidate that exists, else `name` itself when a file exists
/// there, else an error naming the expected file and directory.
pub open spec fn chosen_model(dir: Seq<char>, name: Seq<char>, exists: Seq<bool>) -> Result<Seq<char>, Seq<char>> {
    let c = model_candidates(dir, name);
    if exists[0] {
        Ok(c[0])
    } else if exists[1] {
        Ok(c[1])
    } else if exists[2] {
        Ok(c[2])
    } else if exists[3] {
        Ok(name)
    } else {
        Err("Expected model file \""@ + "ggml-"@ + name + ".bin\" in "@ + dir)
    }
}

pub open spec fn result_view(r: Result<String, TranscribeError>) -> Result<Seq<char>, Seq<char>> {
    match r {
        Ok(p) => Ok(p@),
        Err(TranscribeError::ModelNotFound(m)) => Err(m@),
        Err(_) => Err(seq![]),
    }
}

/// Picks the model file from what was found on disk: `exists[0..3]` say
/// whether each candidate exists, `exists[3]` whether `name` itself does.
pub fn choose_model_path(dir: &str, name: &str, exists: &[bool]) -> (r: Result<String, TranscribeError>)
    requires
        exists@.len() == 4,
    ensures
        result_view(r) == chosen_model(dir@, name@, exists@),
        r is Err ==> r matches Err(TranscribeError::ModelNotFound(_)),
{
    let d = chars_of(dir);
    let n = chars_of(name);
    let c = model_candidate_list(&d, &n);
    assert(c@.len() == 3) by {
        assert(views(c@).len() == c@.len());
    }
    if exists[0] {
        Ok(string_from(&c[0]))
    } else if exists[1] {
        Ok(string_from(&c[1]))
    } else if exists[2] {
        Ok(string_from(&c[2]))
    } else if exists[3] {
        Ok(string_from(&n))
    } else {
        let mut m = lit("Expected model file \"");
        push_all(&mut m, &lit("ggml-"));
        push_all(&mut m, &n);
        push_all(&mut m, &lit(".bin\" in "));
        push_all(&mut m, &d);
        Err(TranscribeError::ModelNotFound(string_from(&m)))
    }
}

fn model_candidate_list(d: &[char], n: &[char]) -> (r: Vec<Vec<char>>)
    ensures
        views(r@) == model_candidates(d@, n@),
{
    let mut a = lit("ggml-");
    push_all(&mut a, n);
    push_all(&mut a, &lit(".bin"));
    let mut b = lit("whisper-");
    push_all(&mut b, n);
    push_all(&mut b, &lit(".bin"));
    let mut c = crate::text::copy_chars(n);
    push_all(&mut c, &lit(".bin"));
    let r = vec![path_join_exec(d, &a), path_join_exec(d, &b), path_join_exec(d, &c)];
    assert(views(r@) =~= model_candidates(d@, n@));
    r
}

fn resolve_in(dir: &str, name: &str) -> (r: Result<String, TranscribeError>)
    ensures
        r matches Ok(p) ==> model_candidates(dir@, name@).contains(p@) || p@ == name@,
        r is Err ==> result_view(r) == Err::<Seq<char>, Seq<char>>(
            "Expected model file \""@ + "ggml-"@ + name@ + ".bin\" in "@ + dir@,
        ),
        r is Err ==> r matches Err(TranscribeError::ModelNotFound(_)),
{
    let d = chars_of(dir);
    let n = chars_of(name);
    let c = model_candidate_list(&d, &n);
    assert(c@.len() == 3) by {
        assert(views(c@).len() == c@.len());
    }
    let mut exists: Vec<bool> = Vec::new();
    let mut i: usize = 0;
    while i < 3
        invariant
            i <= 3,
            exists@.len() == i,
            views(c@) == model_candidates(d@, n@),
            c@.len() == 3,
        decreases 3 - i,
    {
        let p = string_from(&c[i]);
        exists.push(path_exists(p.as_str()));
        i += 1;
    }
    exists.push(path_exists(name));
    let r = choose_model_path(dir, name, &exists);
    proof {
        let cs = model_candidates(dir@, name@);
        if r is Ok {
            assert(cs.contains(cs[0]) && cs.contains(cs[1]) && cs.contains(cs[2]));
        }
    }
    r
}

/// The whisper model file for transcription: `ggml-<model>.bin`,
/// `whisper-<model>.bin` or `<model>.bin` in the model directory, or the
/// model name itself as a path, whichever exists first; else
/// [`TranscribeError::ModelNotFound`] naming the expected file and directory.
pub fn resolve_model_path(config: &Config) -> (r: Result<String, TranscribeError>)
    ensures
        r matches Ok(p) ==> model_candidates(config.transcription.model_path@, config.transcription.model@).contains(p@)
            || p@ == config.transcription.model@,
        r is Err ==> result_view(r) == Err::<Seq<char>, Seq<char>>(
            "Expected model file \""@ + "ggml-"@ + config.transcription.model@ + ".bin\" in "@
                + config.transcription.model_path@,
        ),
        r is Err ==> r matches Err(TranscribeError::ModelNotFound(_)),
{
    resolve_in(config.transcription.model_path.as_str(), config.transcription.model.as_str())
}

/// The whisper model file for dictation (the dictation model, looked up as in
/// [`resolve_model_path`]).
pub fn resolve_model_path_for_dictation(config: &Config) -> (r: Result<String, TranscribeError>)
    ensures
        r matches Ok(p) ==> model_candidates(config.transcription.model_path@, config.dictation.model@).contains(p@)
            || p@ == config.dictation.model@,
        r is Err ==> result_view(r) == Err::<Seq<char>, Seq<char>>(
            "Expected model file \""@ + "ggml-"@ + config.dictation.model@ + ".bin\" in "@
                + config.transcription.model_path@,
        ),
        r is Err ==> r matches Err(TranscribeError::ModelNotFound(_)),
{
    resolve_in(config.transcription.model_path.as_str(), config.dictation.model.as_str())
}

/// The files that may hold VAD model `name`: `ggml-<name>.bin`,
/// `<name>.bin`, and for silero models the older `ggml-silero-vad.bin`.
pub open spec fn vad_candidates(dir: Seq<char>, name: Seq<char>) -> Seq<Seq<char>> {
    let base = seq![path_join(dir, "ggml-"@ + name + ".bin"@), path_join(dir, name + ".bin"@)];
    if starts_with(name, "silero"@) {
        base.push(path_join(dir, "ggml-silero-vad.bin"@))
    } else {
        base
    }
}

/// The first of `cands` from `i` on whose `exists` flag is set.
pub open spec fn first_found(cands: Seq<Seq<char>>, exists: Seq<bool>, i: nat) -> Option<Seq<char>>
    decreases cands.len() - i,
{
    if i >= cands.len() {
        None
    } else if exists[i as int] {
        Some(cands[i as int])
    } else {
        first_found(cands, exists, i + 1)
    }
}

/// The VAD model file given what exists: none when no VAD model is named;
/// else the first candidate that exists (`exists[k]` for candidate `k`), else
/// the name itself when a file exists there (the flag after the candidates'),
/// else none.
pub open spec fn vad_chosen(dir: Seq<char>, name: Seq<char>, exists: Seq<bool>) -> Option<Seq<char>> {
    let cs = vad_candidates(dir, name);
    if name.len() == 0 {
        None
    } else {
        match first_found(cs, exists, 0) {
            Some(p) => Some(p),
            None => if exists[cs.len() as int] {
                Some(name)
            } else {
                None
            },
        }
    }
}

fn vad_candidate_list(d: &[char], name: &[char]) -> (r: Vec<Vec<char>>)
    ensures
        views(r@) == vad_candidates(d@, name@),
{
    let mut a = lit("ggml-");
    push_all(&mut a, name);
    push_all(&mut a, &lit(".bin"));
    let mut b = crate::text::copy_chars(name);
    push_all(&mut b, &lit(".bin"));
    let mut cands = vec![path_join_exec(d, &a), path_join_exec(d, &b)];
    if starts_with_chars(name, &lit("silero")) {
        cands.push(path_join_exec(d, &lit("ggml-silero-vad.bin")));
    }
    assert(views(cands@) =~= vad_candidates(d@, name@));
    cands
}

/// Picks the VAD model file from what was found on disk (see [`vad_chosen`]).
pub fn choose_vad_model_path(dir: &str, name: &str, exists: &[bool]) -> (r: Option<String>)
    requires
        exists@.len() == vad_candidates(dir@, name@).len() + 1,
    ensures
        opt_view(r) == vad_chosen(dir@, name@, exists@),
{
    let n = chars_of(name);
    if n.len() == 0 {
        return None;
    }
    let cands = vad_candidate_list(&chars_of(dir), &n);
    let ghost cs = vad_candidates(dir@, name@);
    assert(cands@.len() == cs.len()) by {
        assert(views(cands@).len() == cands@.len());
    }
    let mut i: usize = 0;
    while i < cands.len()
        invariant
            i <= cands@.len(),
            views(cands@) == cs,
            cs == vad_candidates(dir@, name@),
            name@.len() > 0,
            exists@.len() == cs.len() + 1,
            first_found(cs, exists@, 0) == first_found(cs, exists@, i as nat),
        decreases cands.len() - i,
    {
        if exists[i] {
            assert(cs[i as int] == cands@[i as int]@);
            return Some(string_from(&cands[i]));
        }
        i += 1;
    }
    if exists[cands.len()] {
        Some(string_from(&n))
    } else {
        None
    }
}

/// The Silero VAD model file, if VAD is configured and a candidate (or the
/// name itself as a path) exists; the candidates are looked for in order,
/// and the choice among what is found is [`choose_vad_model_path`]'s.
pub fn resolve_vad_model_path(config: &Config) -> (r: Option<String>)
    ensures
        config.transcription.vad_model@.len() == 0 ==> r is None,
        r matches Some(p) ==> vad_candidates(config.transcription.model_path@, config.transcription.vad_model@).contains(p@)
            || p@ == config.transcription.vad_model@,
{
    let name = chars_of(config.transcription.vad_model.as_str());
    if name.len() == 0 {
        return None;
    }
    let d = chars_of(config.transcription.model_path.as_str());
    let cands = vad_candidate_list(&d, &name);
    let ghost cs = vad_candidates(d@, name@);
    assert(cands@.len() == cs.len()) by {
        assert(views(cands@).len() == cands@.len());
    }
    let mut exists: Vec<bool> = Vec::new();
    let mut found = false;
    let mut i: usize = 0;
    while i < cands.len()
        invariant
            i <= cands@.len(),
            exists@.len() == i,
            views(cands@) == cs,
        decreases cands.len() - i,
    {
        let hit = if found {
            false
        } else {
            let p = string_from(&cands[i]);
            path_exists(p.as_str())
        };
        if hit {
            found = true;
        }
        exists.push(hit);
        i += 1;
    }
    let named = if found {
        false
    } else {
        path_exists(config.transcription.vad_model.as_str())
    };
    exists.push(named);
    let r = choose_vad_model_path(config.transcription.model_path.as_str(), config.transcription.vad_model.as_str(), &exists);
    proof {
        lemma_first_found_in(cs, exists@, 0);
    }
    r
}

proof fn lemma_first_found_in(cands: Seq<Seq<char>>, exists: Seq<bool>, i: nat)
    ensures
        first_found(cands, exists, i) matches Some(p) ==> cands.contains(p),
    decreases cands.len() - i,
{
    if i < cands.len() {
        if exists[i as int] {
            assert(cands[i as int] == cands[i as int]);
        } else {
            lemma_first_found_in(cands, exists, i + 1);
        }
    }
}

// ---------------------------------------------------------------------------
// Audio inputs
// ---------------------------------------------------------------------------

/// How an audio file is decoded.
#[derive(Debug, Clone, Copy, PartialEq, Eq, Structural)]
pub enum AudioKind {
    /// Read directly as WAV.
    Wav,
    /// Decoded by ffmpeg, or symphonia when ffmpeg is missing.
    Compressed,
}

/// The decoding an extension (lowercased) calls for.
pub open spec fn audio_kind_of(ext: Seq<char>) -> Option<AudioKind> {
    let e = lower(ext);
    if e == "wav"@ {
        Some(AudioKind::Wav)
    } else if e == "m4a"@ || e == "mp3"@ || e == "ogg"@ || e == "webm"@ || e == "mp4"@ || e
        == "aac"@ {
        Some(AudioKind::Compressed)
    } else {
        None
    }
}

/// Classifies an audio file by its extension (case-insensitively); other
/// extensions are [`TranscribeError::UnsupportedFormat`], carrying the
/// lowercased extension.
pub fn audio_kind(ext: &str) -> (r: Result<AudioKind, TranscribeError>)
    ensures
        r matches Ok(k) ==> audio_kind_of(ext@) == Some(k),
        r is Err ==> audio_kind_of(ext@) is None && (r matches Err(TranscribeError::UnsupportedFormat(s)) && s@ == lower(ext@)),
{
    let e = lower_chars(&chars_of(ext));
    if chars_eq(&e, &lit("wav")) {
        Ok(AudioKind::Wav)
    } else if chars_eq(&e, &lit("m4a")) || chars_eq(&e, &lit("mp3")) || chars_eq(&e, &lit("ogg"))
        || chars_eq(&e, &lit("webm")) || chars_eq(&e, &lit("mp4")) || chars_eq(&e, &lit("aac")) {
        Ok(AudioKind::Compressed)
    } else {
        Err(TranscribeError::UnsupportedFormat(string_from(&e)))
    }
}

// ---------------------------------------------------------------------------
// Assembling the transcript
// ---------------------------------------------------------------------------

/// Two-digit zero-padded decimal (`{:02}`) of `n < 100`.
pub open spec fn two_digits(n: nat) -> Seq<char> {
    if n < 10 {
        seq!['0', digit(n)]
    } else {
        dec(n)
    }
}

/// A segment's line: `[m:ss] text` from its start in centiseconds, or
/// nothing when the trimmed text is empty.
pub open spec fn segment_line_spec(start_cs: nat, text: Seq<char>) -> Option<Seq<char>> {
    let t = trim(text);
    if t.len() == 0 {
        None
    } else {
        Some(seq!['['] + dec(start_cs / 6000) + seq![':'] + two_digits((start_cs % 6000) / 100)
            + "] "@ + t)
    }
}

pub fn segment_line(start_cs: u64, text: &str) -> (r: Option<String>)
    ensures
        r matches Some(s) ==> segment_line_spec(start_cs as nat, text@) == Some(s@),
        r is None ==> segment_line_spec(start_cs as nat, text@) is None,
{
    let t = trim_ws(&chars_of(text));
    if t.len() == 0 {
        return None;
    }
    let mins = start_cs / 6000;
    let secs = ((start_cs % 6000) / 100) as usize;
    let mut out = vec!['['];
    push_all(&mut out, &crate::text::dec_chars_u64(mins));
    out.push(':');
    if secs < 10 {
        out.push('0');
        out.push(digit_char(secs));
        assert(two_digits(secs as nat) =~= seq!['0', digit(secs as nat)]);
    } else {
        push_all(&mut out, &dec_chars(secs));
    }
    let ghost head = out@;
    assert(head =~= seq!['['] + dec(mins as nat) + seq![':'] + two_digits(secs as nat));
    push_all(&mut out, &lit("] "));
    push_all(&mut out, &t);
    assert(mins as nat == (start_cs / 6000) as nat);
    assert(secs as nat == ((start_cs % 6000) / 100) as nat);
    assert(out@ =~= seq!['['] + dec((start_cs / 6000) as nat) + seq![':'] + two_digits(((start_cs % 6000) / 100) as nat) + "] "@ + t@);
    Some(string_from(&out))
}

/// The transcript from whisper's segment lines: the three cleaning passes,
/// the lines joined by newlines, and a final newline unless it is empty.
pub open spec fn assembled(lines: Seq<Seq<char>>) -> Seq<char> {
    let j = join(clean_lines(lines), seq!['\n']);
    if j.len() == 0 {
        j
    } else {
        j + seq!['\n']
    }
}

/// The transcript assembled from lines is those lines, cleaned, each ended
/// by a line feed, and it never ends with five or more noise lines (such a
/// run is replaced by a marker), whatever lines it is assembled from.
pub proof fn law_transcript_never_ends_in_noise(lines: Seq<Seq<char>>)
    requires
        joinable(lines),
    ensures
        exists|c: Seq<Seq<char>>|
            #![trigger join(c, seq!['\n'])]
            (forall|k: int| 0 <= k < c.len() ==> no_newline(#[trigger] c[k])) && !ends_in_noise(c) && assembled(lines)
                == (if join(c, seq!['\n']).len() == 0 {
                join(c, seq!['\n'])
            } else {
                join(c, seq!['\n']) + seq!['\n']
            }),
{
    let c = clean_lines(lines);
    lemma_clean_lines_plain(lines);
    law_trimmed_never_ends_in_noise(dedup_interleaved_spec(dedup_segments_spec(lines)));
    let j = join(c, seq!['\n']);
    assert(assembled(lines) == (if j.len() == 0 {
        j
    } else {
        j + seq!['\n']
    }));
}

pub fn assemble_transcript(lines: &[String]) -> (r: String)
    ensures
        r@ == assembled(strs(lines@)),
{
    let a = crate::segments::dedup_segments(lines);
    let b = crate::segments::dedup_interleaved(&a);
    let c = crate::segments::trim_trailing_noise(&b);
    let cl = char_lines(&c);
    let nl = vec!['\n'];
    assert(nl@ =~= seq!['\n']);
    let mut j = join_chars(&cl, &nl);
    if j.len() > 0 {
        j.push('\n');
    }
    string_from(&j)
}

// ---------------------------------------------------------------------------
// Whisper's output
// ---------------------------------------------------------------------------

/// A segment whisper decoded: where it starts (in centiseconds), its text,
/// and whether whisper judged it likely not speech (no-speech probability
/// above 0.8).
pub struct WhisperSegment {
    pub start_cs: u64,
    pub text: String,
    pub no_speech: bool,
}

pub open spec fn segment_views(v: Seq<WhisperSegment>) -> Seq<(nat, Seq<char>, bool)> {
    v.map_values(|s: WhisperSegment| (s.start_cs as nat, s.text@, s.no_speech))
}

/// The transcript lines of the segments: those judged speech whose text is
/// not blank, each as `[m:ss] text`.
pub open spec fn segment_lines(segs: Seq<(nat, Seq<char>, bool)>) -> Seq<Seq<char>>
    decreases segs.len(),
{
    if segs.len() == 0 {
        seq![]
    } else {
        let r = segment_lines(segs.drop_last());
        let s = segs.last();
        if s.2 {
            r
        } else {
            match segment_line_spec(s.0, s.1) {
                Some(l) => r.push(l),
                None => r,
            }
        }
    }
}

/// A segment's line: `[m:ss]` of its start, then its trimmed text.
pub open spec fn stamped_line(start_cs: nat, text: Seq<char>) -> Seq<char> {
    seq!['['] + dec(start_cs / 6000) + seq![':'] + two_digits((start_cs % 6000) / 100) + "] "@ + trim(text)
}

/// Whether a segment makes a line: whisper judged it speech and its text is
/// not blank.
pub open spec fn speech_line(s: (nat, Seq<char>, bool)) -> bool {
    !s.2 && trim(s.1).len() > 0
}

/// The transcript lines of whisper's segments are the stamped lines of the
/// segments judged speech whose text is not blank, in order.
pub proof fn law_segment_lines_are_stamped_speech(segs: Seq<(nat, Seq<char>, bool)>)
    ensures
        segment_lines(segs) == segs.filter(|s: (nat, Seq<char>, bool)| speech_line(s)).map_values(
            |s: (nat, Seq<char>, bool)| stamped_line(s.0, s.1),
        ),
    decreases segs.len(),
{
    reveal_with_fuel(Seq::filter, 2);
    let p = |s: (nat, Seq<char>, bool)| speech_line(s);
    let f = |s: (nat, Seq<char>, bool)| stamped_line(s.0, s.1);
    if segs.len() > 0 {
        law_segment_lines_are_stamped_speech(segs.drop_last());
        let sub = segs.drop_last().filter(p);
        if p(segs.last()) {
            assert(sub.push(segs.last()).map_values(f) =~= sub.map_values(f).push(f(segs.last())));
        }
    } else {
        assert(segs.filter(p).map_values(f) =~= Seq::<Seq<char>>::empty());
    }
}

/// The transcript whisper's segments give: the stamped lines of the speech
/// segments (see [`law_segment_lines_are_stamped_speech`]), cleaned, joined
/// and ended with a line feed when any are left (see [`assembled`]).
pub fn whisper_transcript(segments: &[WhisperSegment]) -> (r: String)
    ensures
        r@ == assembled(segment_lines(segment_views(segments@))),
{
    let mut lines: Vec<String> = Vec::new();
    let mut i: usize = 0;
    while i < segments.len()
        invariant
            i <= segments@.len(),
            strs(lines@) == segment_lines(segment_views(segments@).take(i as int)),
        decreases segments.len() - i,
    {
        let seg = &segments[i];
        assert(segment_views(segments@).take(i + 1).drop_last() =~= segment_views(segments@).take(
            i as int,
        ));
        assert(segment_views(segments@).take(i + 1).last() == (
            seg.start_cs as nat,
            seg.text@,
            seg.no_speech,
        ));
        if !seg.no_speech {
            match segment_line(seg.start_cs, seg.text.as_str()) {
                Some(l) => {
                    let ghost prev = strs(lines@);
                    let ghost lv = l@;
                    lines.push(l);
                    assert(strs(lines@) =~= prev.push(lv));
                },
                None => {},
            }
        }
        i += 1;
    }
    assert(segment_views(segments@).take(segments@.len() as int) =~= segment_views(segments@));
    assemble_transcript(&lines)
}

// ---------------------------------------------------------------------------
// Transcribing a file
// ---------------------------------------------------------------------------

/// What `Path::file_name` returns for a path written `p`.
pub uninterp spec fn path_file_name(p: Seq<char>) -> Option<Seq<char>>;

/// `Path::file_name`: the final component, unless the path ends in `..`.
#[verifier::external_body]
pub(crate) fn file_name_of(path: &str) -> (r: Option<String>)
    ensures
        match r {
            Some(f) => path_file_name(path@) == Some(f@),
            None => path_file_name(path@) is None,
        },
{
    match std::path::Path::new(path).file_name() {
        Some(f) => Some(f.to_string_lossy().into_owned()),
        None => None,
    }
}

/// The last index of `c` in `s`.
pub open spec fn last_index(s: Seq<char>, c: char) -> Option<int>
    decreases s.len(),
{
    if s.len() == 0 {
        None
    } else if s.last() == c {
        Some(s.len() - 1)
    } else {
        last_index(s.drop_last(), c)
    }
}

/// `Path::extension` of a file name: what follows its final `.`, unless it
/// has none or its only `.` begins it.
pub open spec fn extension_of(name: Seq<char>) -> Option<Seq<char>> {
    match last_index(name, '.') {
        Some(i) => if i > 0 {
            Some(name.skip(i + 1))
        } else {
            None
        },
        None => None,
    }
}

/// The extension of a path, or the empty text when it has none.
pub open spec fn path_ext(p: Seq<char>) -> Seq<char> {
    match path_file_name(p) {
        Some(f) => match extension_of(f) {
            Some(e) => e,
            None => seq![],
        },
        None => seq![],
    }
}

pub(crate) fn extension_chars(name: &[char]) -> (r: Option<Vec<char>>)
    ensures
        match r {
            Some(e) => extension_of(name@) == Some(e@),
            None => extension_of(name@) is None,
        },
{
    let mut i: usize = name.len();
    assert(name@.take(name@.len() as int) =~= name@);
    while i > 0 && name[i - 1] != '.'
        invariant
            i <= name@.len(),
            last_index(name@, '.') == last_index(name@.take(i as int), '.'),
        decreases i,
    {
        assert(name@.take(i as int).drop_last() =~= name@.take(i - 1));
        i -= 1;
    }
    if i <= 1 {
        return None;
    }
    let e = copy_range(name, i, name.len());
    assert(e@ =~= name@.skip(i as int));
    Some(e)
}

/// The extension of `audio_path` (see [`path_ext`]).
pub fn audio_extension(audio_path: &str) -> (r: String)
    ensures
        r@ == path_ext(audio_path@),
{
    match file_name_of(audio_path) {
        Some(f) => match extension_chars(&chars_of(f.as_str())) {
            Some(e) => string_from(&e),
            None => String::new(),
        },
        None => String::new(),
    }
}

/// What is done to decoded audio before whisper runs.
#[derive(Debug, Clone, Copy, PartialEq, Eq, Structural)]
pub struct DecodePlan {
    /// Suppress background noise.
    pub denoise: bool,
    /// Cut silent stretches (energy based).
    pub strip_silence: bool,
}

/// The decision on freshly decoded audio of `count` samples: none is
/// [`TranscribeError::EmptyAudio`]; otherwise noise is suppressed iff noise
/// reduction is configured, and silence is cut iff no VAD model was found
/// (`vad_found`) to let whisper skip it.
pub fn after_decode(count: usize, config: &Config, vad_found: bool) -> (r: Result<DecodePlan, TranscribeError>)
    ensures
        count == 0 <==> r is Err,
        r is Err ==> r == Err::<DecodePlan, TranscribeError>(TranscribeError::EmptyAudio),
        r matches Ok(p) ==> p.denoise == config.transcription.noise_reduction && p.strip_silence == !vad_found,
{
    if count == 0 {
        Err(TranscribeError::EmptyAudio)
    } else {
        Ok(DecodePlan { denoise: config.transcription.noise_reduction, strip_silence: !vad_found })
    }
}

/// The decision on the audio whisper is to get, of `count` samples: none is
/// [`TranscribeError::EmptyAudio`].
pub fn before_whisper(count: usize) -> (r: Result<(), TranscribeError>)
    ensures
        count == 0 <==> r is Err,
        r is Err ==> r == Err::<(), TranscribeError>(TranscribeError::EmptyAudio),
{
    if count == 0 {
        Err(TranscribeError::EmptyAudio)
    } else {
        Ok(())
    }
}

/// What decoding is asked for: the file and how to decode it.
pub struct LoadRequest {
    pub path: String,
    pub kind: AudioKind,
}

/// What whisper is run with: the model file, the VAD model file when
/// whisper is to skip silence itself, and the configured language.
pub struct WhisperRequest {
    pub model_path: String,
    pub vad_model_path: Option<String>,
    pub language: Option<String>,
}

/// Where transcription stands: what it waits for, and what it keeps.
pub enum TranscribeState {
    /// Not begun.
    Start,
    /// Waiting for the decoded audio.
    Loading,
    /// Waiting for the VAD model lookup.
    FindingVad,
    /// Waiting for noise suppression and silence cutting, with the VAD
    /// model found (if any).
    Preparing { vad: Option<String> },
    /// Waiting for the model lookup.
    FindingModel { vad: Option<String> },
    /// Waiting for whisper.
    Whispering,
    /// Finished.
    Done,
}

/// What a piece of transcription work gave back.
pub enum TranscribeEvent {
    /// Transcription is asked to begin.
    Begin,
    /// How many samples decoding gave, or why it failed.
    Loaded(Result<usize, TranscribeError>),
    /// The VAD model file found, if any.
    VadFound(Option<String>),
    /// How many samples are left after noise suppression and silence cutting.
    Prepared(usize),
    /// The model file found, or why none was.
    ModelFound(Result<String, TranscribeError>),
    /// Whisper's segments, or its error.
    Whispered(Result<Vec<WhisperSegment>, TranscribeError>),
}

/// The transcription work to do next.
pub enum TranscribeWork {
    /// Decode the audio file.
    Load(LoadRequest),
    /// Look for the VAD model file.
    FindVad,
    /// Suppress noise and cut silence as planned, and count what is left.
    Prepare(DecodePlan),
    /// Look for the model file.
    FindModel,
    /// Run whisper on the prepared samples.
    Whisper(WhisperRequest),
    /// Transcription is over, with this result.
    Finish(Result<String, TranscribeError>),
}

/// Whether `r` finishes with result `res`.
pub open spec fn transcribe_finishes(r: (TranscribeState, TranscribeWork), res: Result<String, TranscribeError>) -> bool {
    r.0 is Done && r.1 == TranscribeWork::Finish(res)
}

/// The decisions of transcribing the file at `audio_path`: what follows
/// state `s` when event `e` comes.
///
/// - Beginning, the extension (case-insensitive) selects the decoding;
///   others are [`TranscribeError::UnsupportedFormat`].  The file is
///   decoded as its extension says.
/// - A decoding error ends transcription; audio with no samples is
///   [`TranscribeError::EmptyAudio`]; otherwise the VAD model is looked for.
/// - Noise is suppressed when configured, and silence cut unless a VAD model
///   was found (see [`after_decode`]); nothing left is
///   [`TranscribeError::EmptyAudio`]; otherwise the model is looked for.
/// - Without a model transcription fails; with one, whisper runs with it,
///   the VAD model found and the configured language.
/// - Whisper's error ends transcription; its segments are cleaned and joined
///   (see [`whisper_transcript`]).
/// - Any other event than the one awaited is an I/O error.
pub open spec fn transcribe_next(
    audio_path: Seq<char>,
    config: Config,
    s: TranscribeState,
    e: TranscribeEvent,
    r: (TranscribeState, TranscribeWork),
) -> bool {
    match (s, e) {
        (TranscribeState::Start, TranscribeEvent::Begin) => match audio_kind_of(path_ext(audio_path)) {
            None => {
                &&& r.0 is Done
                &&& r.1 matches TranscribeWork::Finish(Err(TranscribeError::UnsupportedFormat(x))) && x@ == lower(
                    path_ext(audio_path),
                )
            },
            Some(k) => {
                &&& r.0 is Loading
                &&& r.1 matches TranscribeWork::Load(q) && q.path@ == audio_path && q.kind == k
            },
        },
        (TranscribeState::Loading, TranscribeEvent::Loaded(res)) => match res {
            Err(err) => transcribe_finishes(r, Err(err)),
            Ok(n) => if n == 0 {
                transcribe_finishes(r, Err(TranscribeError::EmptyAudio))
            } else {
                r.0 is FindingVad && r.1 is FindVad
            },
        },
        (TranscribeState::FindingVad, TranscribeEvent::VadFound(v)) => r.0 == TranscribeState::Preparing { vad: v }
            && r.1 == TranscribeWork::Prepare(
            DecodePlan { denoise: config.transcription.noise_reduction, strip_silence: v is None },
        ),
        (TranscribeState::Preparing { vad }, TranscribeEvent::Prepared(n)) => if n == 0 {
            transcribe_finishes(r, Err(TranscribeError::EmptyAudio))
        } else {
            r.0 == TranscribeState::FindingModel { vad } && r.1 is FindModel
        },
        (TranscribeState::FindingModel { vad }, TranscribeEvent::ModelFound(res)) => match res {
            Err(err) => transcribe_finishes(r, Err(err)),
            Ok(p) => r.0 is Whispering && r.1 == TranscribeWork::Whisper(
                WhisperRequest { model_path: p, vad_model_path: vad, language: config.transcription.language },
            ),
        },
        (TranscribeState::Whispering, TranscribeEvent::Whispered(res)) => match res {
            Err(err) => transcribe_finishes(r, Err(err)),
            Ok(segs) => {
                &&& r.0 is Done
                &&& r.1 matches TranscribeWork::Finish(Ok(t)) && t@ == assembled(segment_lines(segment_views(segs@)))
            },
        },
        _ => {
            &&& r.0 is Done
            &&& r.1 matches TranscribeWork::Finish(Err(TranscribeError::Io(m))) && m@ == "unexpected event"@
        },
    }
}

fn copy_opt(o: &Option<String>) -> (r: Option<String>)
    ensures
        r == *o,
{
    match o {
        Some(x) => Some(x.clone()),
        None => None,
    }
}

/// One decision of transcribing a file (see [`transcribe_next`]).
pub fn transcribe_step(audio_path: &str, config: &Config, state: TranscribeState, event: TranscribeEvent) -> (r: (
    TranscribeState,
    TranscribeWork,
))
    ensures
        transcribe_next(audio_path@, *config, state, event, r),
{
    match (state, event) {
        (TranscribeState::Start, TranscribeEvent::Begin) => {
            let ext = audio_extension(audio_path);
            match audio_kind(ext.as_str()) {
                Ok(k) => (
                    TranscribeState::Loading,
                    TranscribeWork::Load(LoadRequest { path: string_from(&chars_of(audio_path)), kind: k }),
                ),
                Err(e) => (TranscribeState::Done, TranscribeWork::Finish(Err(e))),
            }
        },
        (TranscribeState::Loading, TranscribeEvent::Loaded(res)) => match res {
            Err(e) => (TranscribeState::Done, TranscribeWork::Finish(Err(e))),
            Ok(n) => match after_decode(n, config, false) {
                Err(e) => (TranscribeState::Done, TranscribeWork::Finish(Err(e))),
                Ok(_) => (TranscribeState::FindingVad, TranscribeWork::FindVad),
            },
        },
        (TranscribeState::FindingVad, TranscribeEvent::VadFound(v)) => {
            let found = v.is_some();
            match after_decode(1, config, found) {
                Ok(plan) => (TranscribeState::Preparing { vad: v }, TranscribeWork::Prepare(plan)),
                Err(e) => (TranscribeState::Done, TranscribeWork::Finish(Err(e))),
            }
        },
        (TranscribeState::Preparing { vad }, TranscribeEvent::Prepared(n)) => match before_whisper(n) {
            Err(e) => (TranscribeState::Done, TranscribeWork::Finish(Err(e))),
            Ok(()) => (TranscribeState::FindingModel { vad }, TranscribeWork::FindModel),
        },
        (TranscribeState::FindingModel { vad }, TranscribeEvent::ModelFound(res)) => match res {
            Err(e) => (TranscribeState::Done, TranscribeWork::Finish(Err(e))),
            Ok(p) => {
                let language = copy_opt(&config.transcription.language);
                (
                    TranscribeState::Whispering,
                    TranscribeWork::Whisper(WhisperRequest { model_path: p, vad_model_path: vad, language }),
                )
            },
        },
        (TranscribeState::Whispering, TranscribeEvent::Whispered(res)) => match res {
            Err(e) => (TranscribeState::Done, TranscribeWork::Finish(Err(e))),
            Ok(segs) => (TranscribeState::Done, TranscribeWork::Finish(Ok(whisper_transcript(&segs)))),
        },
        (_, _) => (
            TranscribeState::Done,
            TranscribeWork::Finish(Err(TranscribeError::Io(string_from(&lit("unexpected event"))))),
        ),
    }
}

/// How far transcription is from done.
pub open spec fn transcribe_rank(s: TranscribeState) -> nat {
    match s {
        TranscribeState::Start => 7,
        TranscribeState::Loading => 6,
        TranscribeState::FindingVad => 5,
        TranscribeState::Preparing { .. } => 4,
        TranscribeState::FindingModel { .. } => 3,
        TranscribeState::Whispering => 2,
        TranscribeState::Done => 1,
    }
}

/// Whether `w` is the work state `s` waits on.
pub open spec fn transcribe_fits(s: TranscribeState, w: TranscribeWork) -> bool {
    match s {
        TranscribeState::Start => false,
        TranscribeState::Loading => w is Load,
        TranscribeState::FindingVad => w is FindVad,
        TranscribeState::Preparing { .. } => w is Prepare,
        TranscribeState::FindingModel { .. } => w is FindModel,
        TranscribeState::Whispering => w is Whisper,
        TranscribeState::Done => w is Finish,
    }
}

/// Whether `e` is what doing work `w` gives back.
pub open spec fn transcribe_answers(w: TranscribeWork, e: TranscribeEvent) -> bool {
    match w {
        TranscribeWork::Load(_) => e is Loaded,
        TranscribeWork::FindVad => e is VadFound,
        TranscribeWork::Prepare(_) => e is Prepared,
        TranscribeWork::FindModel => e is ModelFound,
        TranscribeWork::Whisper(_) => e is Whispered,
        TranscribeWork::Finish(_) => false,
    }
}

/// Whether `steps` is a run of transcription: the first step is the one
/// from the start, and each later one is taken, as [`transcribe_next`]
/// decides, on an event that the work before it gave back.
pub open spec fn is_transcribe_run(
    audio_path: Seq<char>,
    config: Config,
    steps: Seq<(TranscribeState, TranscribeWork)>,
    events: Seq<TranscribeEvent>,
) -> bool {
    &&& steps.len() == events.len() + 1
    &&& transcribe_next(audio_path, config, TranscribeState::Start, TranscribeEvent::Begin, steps[0])
    &&& forall|i: int|
        0 <= i < events.len() ==> transcribe_answers(steps[i].1, #[trigger] events[i]) && transcribe_next(
            audio_path,
            config,
            steps[i].0,
            events[i],
            steps[i + 1],
        )
}

/// How a run of transcription ended with `r`: its last work is to finish
/// with `r`.
pub open spec fn transcribe_ends(
    audio_path: Seq<char>,
    config: Config,
    steps: Seq<(TranscribeState, TranscribeWork)>,
    events: Seq<TranscribeEvent>,
    r: Result<String, TranscribeError>,
) -> bool {
    is_transcribe_run(audio_path, config, steps, events) && steps.last().1 == TranscribeWork::Finish(r)
}

/// An unknown extension ends every run of transcription at once, with
/// [`TranscribeError::UnsupportedFormat`] naming the extension.
pub proof fn law_unknown_extension_refused_at_once(
    audio_path: Seq<char>,
    config: Config,
    steps: Seq<(TranscribeState, TranscribeWork)>,
    events: Seq<TranscribeEvent>,
)
    requires
        is_transcribe_run(audio_path, config, steps, events),
        audio_kind_of(path_ext(audio_path)) is None,
    ensures
        steps.len() == 1,
        steps.last().1 matches TranscribeWork::Finish(Err(TranscribeError::UnsupportedFormat(x))) && x@ == lower(
            path_ext(audio_path),
        ),
{
    if events.len() > 0 {
        assert(transcribe_answers(steps[0].1, events[0]));
    }
}

/// The work transcription hands out: decoding audio, signal processing and
/// running whisper.
pub trait TranscribeBackend {
    /// Decoded audio.
    type Samples;

    /// Decodes the file as asked, to 16 kHz mono samples.
    fn load(&self, request: &LoadRequest) -> Result<Self::Samples, TranscribeError>;

    /// How many samples there are.
    fn sample_count(&self, samples: &Self::Samples) -> usize;

    /// Suppresses background noise.
    fn denoise(&self, samples: Self::Samples) -> Self::Samples;

    /// Cuts silent stretches (energy based).
    fn strip_silence(&self, samples: Self::Samples) -> Self::Samples;

    /// Runs whisper as asked.
    fn run_whisper(&self, samples: &Self::Samples, request: &WhisperRequest) -> Result<Vec<WhisperSegment>, TranscribeError>;
}

/// Transcribes an audio file.  Each decision is [`transcribe_step`]'s (see
/// [`transcribe_next`]); this function does the work they call for, handing
/// the backend each request as the step made it.  The result ends such a
/// run (see [`transcribe_ends`]).
pub fn transcribe<B: TranscribeBackend>(audio_path: &str, config: &Config, backend: &B) -> (r: Result<String, TranscribeError>)
    ensures
        audio_kind_of(path_ext(audio_path@)) is None ==> (r matches Err(
            TranscribeError::UnsupportedFormat(s),
        ) && s@ == lower(path_ext(audio_path@))),
        exists|steps: Seq<(TranscribeState, TranscribeWork)>, events: Seq<TranscribeEvent>|
            #[trigger] transcribe_ends(audio_path@, *config, steps, events, r),
{
    let (first, w) = transcribe_step(audio_path, config, TranscribeState::Start, TranscribeEvent::Begin);
    let mut state = first;
    let mut work = w;
    let mut samples: Option<B::Samples> = None;
    let ghost mut steps: Seq<(TranscribeState, TranscribeWork)> = seq![(state, work)];
    let ghost mut events: Seq<TranscribeEvent> = seq![];
    loop
        invariant
            is_transcribe_run(audio_path@, *config, steps, events),
            steps.last() == (state, work),
            transcribe_fits(state, work),
            (state is FindingVad || state is Preparing || state is FindingModel || state is Whispering)
                ==> samples is Some,
        decreases transcribe_rank(state),
    {
        let ghost old_state = state;
        let ghost old_work = work;
        let event = match work {
            TranscribeWork::Finish(res) => {
                proof {
                    law_unknown_extension_refused_at_once_if(audio_path@, *config, steps, events);
                    assert(transcribe_ends(audio_path@, *config, steps, events, res));
                }
                return res;
            },
            TranscribeWork::Load(request) => match backend.load(&request) {
                Ok(s) => {
                    let n = backend.sample_count(&s);
                    samples = Some(s);
                    TranscribeEvent::Loaded(Ok(n))
                },
                Err(e) => TranscribeEvent::Loaded(Err(e)),
            },
            TranscribeWork::FindVad => TranscribeEvent::VadFound(resolve_vad_model_path(config)),
            TranscribeWork::Prepare(plan) => {
                let mut s = samples.take().unwrap();
                if plan.denoise {
                    s = backend.denoise(s);
                }
                if plan.strip_silence {
                    s = backend.strip_silence(s);
                }
                let n = backend.sample_count(&s);
                samples = Some(s);
                TranscribeEvent::Prepared(n)
            },
            TranscribeWork::FindModel => TranscribeEvent::ModelFound(resolve_model_path(config)),
            TranscribeWork::Whisper(request) => {
                let s = samples.take().unwrap();
                let res = backend.run_whisper(&s, &request);
                samples = Some(s);
                TranscribeEvent::Whispered(res)
            },
        };
        let ghost ev = event;
        let (next, w) = transcribe_step(audio_path, config, state, event);
        proof {
            let ghost before = steps;
            let ghost before_events = events;
            assert(transcribe_answers(old_work, ev));
            steps = steps.push((next, w));
            events = events.push(ev);
            assert forall|i: int| 0 <= i < events.len() implies transcribe_answers(steps[i].1, #[trigger] events[i])
                && transcribe_next(audio_path@, *config, steps[i].0, events[i], steps[i + 1]) by {
                if i < before_events.len() {
                    assert(steps[i] == before[i] && steps[i + 1] == before[i + 1] && events[i] == before_events[i]);
                } else {
                    assert(steps[i] == (old_state, old_work));
                }
            }
        }
        state = next;
        work = w;
    }
}

/// The law above, for a run that may have any extension.
proof fn law_unknown_extension_refused_at_once_if(
    audio_path: Seq<char>,
    config: Config,
    steps: Seq<(TranscribeState, TranscribeWork)>,
    events: Seq<TranscribeEvent>,
)
    requires
        is_transcribe_run(audio_path, config, steps, events),
    ensures
        audio_kind_of(path_ext(audio_path)) is None ==> (steps.last().1 matches TranscribeWork::Finish(
            Err(TranscribeError::UnsupportedFormat(x)),
        ) && x@ == lower(path_ext(audio_path))),
{
    if audio_kind_of(path_ext(audio_path)) is None {
        law_unknown_extension_refused_at_once(audio_path, config, steps, events);
    }
}

} // verus!
