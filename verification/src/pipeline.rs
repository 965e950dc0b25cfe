//! The decisions of the recording pipeline (audio → transcript → optional
//! diarization and summary → markdown record), apart from the work itself:
//! which stages run, what the summarizer is told, and what the saved record
//! holds.
use vstd::prelude::*;
use crate::config::Config;
use crate::entities::{
    build_entity_links, lists, people_from, people_sources, project_sources, projects_from,
    ref_views, slug_of, slugify, EntityLinks, EntityModel,
};
use crate::intents::{
    action_item_of, action_views, decision_of, decision_views, extract_action_items,
    extract_decisions, extract_intents, intent_views, intents_defined, intents_of,
    ActionItem, Decision, Intent,
};
use crate::summary::{format_summary, formatted, Summary};
use crate::text::{
    opt_view, opt_views,
    chars_eq, chars_of, dec, dec_chars, dec_chars_u64, join, join_chars, lit, push_all,
    string_from, strs, views, words, words_of,
};
use crate::title::{generate_title, generated_title, law_title_fits, title_defined, title_from_context, transcript_title_ok};
use crate::screens::{png_names, screens_dir_for, screenshot_names, sorted_names};
use crate::summary::{summarize_with_screens, LlmRequest};
use crate::steps::{answers, DiarizeRequest, MeasureRequest, carried, fits, is_run, law_stages_in_order, lemma_step_moves_on, pipeline_next, run_ends, pipeline_step, rank, PipelineAction, PipelineEvent, PipelineState, Work};
use crate::intents::intents_ok;
use crate::transcribe::{path_join, path_join_exec, transcribe, TranscribeBackend, TranscribeError};

verus! {

/// The stage the pipeline has reached, reported to progress listeners.
#[derive(Debug, Clone, Copy, PartialEq, Eq, Structural)]
pub enum PipelineStage {
    Transcribing,
    Diarizing,
    Summarizing,
    Saving,
}

/// What was recorded.
#[derive(Debug, Clone, Copy, PartialEq, Eq, Structural)]
pub enum ContentType {
    Meeting,
    Memo,
}

/// How complete the saved record is.
#[derive(Debug, Clone, Copy, PartialEq, Eq, Structural)]
pub enum OutputStatus {
    /// Transcribed and summarized.
    Complete,
    /// Too few words to be speech.
    NoSpeech,
    /// Transcribed; summarization is off.
    TranscriptOnly,
}

/// How many whitespace-separated words `text` holds.
pub fn word_count(text: &str) -> (n: usize)
    ensures
        n == words(text@).len(),
{
    let ws = words_of(&chars_of(text));
    assert(views(ws@).len() == ws@.len());
    ws.len()
}

pub open spec fn status_for(word_count: nat, min_words: nat, engine: Seq<char>) -> OutputStatus {
    if word_count < min_words {
        OutputStatus::NoSpeech
    } else if engine != "none"@ {
        OutputStatus::Complete
    } else {
        OutputStatus::TranscriptOnly
    }
}

/// Below the configured minimum of words a recording is no speech; otherwise
/// it is complete when a summarizer is configured, else transcript only.
pub fn output_status(word_count: usize, config: &Config) -> (r: OutputStatus)
    ensures
        r == status_for(
            word_count as nat,
            config.transcription.min_words as nat,
            config.summarization.engine@,
        ),
{
    if word_count < config.transcription.min_words {
        OutputStatus::NoSpeech
    } else if !is_none(config.summarization.engine.as_str()) {
        OutputStatus::Complete
    } else {
        OutputStatus::TranscriptOnly
    }
}

fn is_none(engine: &str) -> (r: bool)
    ensures
        r == (engine@ == "none"@),
{
    chars_eq(&chars_of(engine), &lit("none"))
}

/// Whether a summary is wanted: the summarization engine is not `none`.
pub fn should_summarize(config: &Config) -> (r: bool)
    ensures
        r == (config.summarization.engine@ != "none"@),
{
    !is_none(config.summarization.engine.as_str())
}

/// Whether speakers are told apart: only for meetings, and only with a
/// diarization engine.
pub fn should_diarize(config: &Config, content_type: ContentType) -> (r: bool)
    ensures
        r == (config.diarization.engine@ != "none"@ && content_type == ContentType::Meeting),
{
    !is_none(config.diarization.engine.as_str()) && content_type == ContentType::Meeting
}

/// Whether the screenshots of a recording are deleted once it is saved.
pub fn should_remove_screens(screen_count: usize, config: &Config) -> (r: bool)
    ensures
        r == (screen_count > 0 && !config.screen_context.keep_after_summary),
{
    screen_count > 0 && !config.screen_context.keep_after_summary
}

/// The `source` a record names: voice memos say so.
pub fn source_for(content_type: ContentType) -> (r: Option<String>)
    ensures
        content_type == ContentType::Memo ==> opt_view(r) == Some("voice-memo"@),
        content_type == ContentType::Meeting ==> r is None,
{
    match content_type {
        ContentType::Memo => Some(string_from(&lit("voice-memo"))),
        ContentType::Meeting => None,
    }
}

// ---------------------------------------------------------------------------
// The audio file
// ---------------------------------------------------------------------------

/// What `Path::starts_with` returns for paths written `path` and `base`
/// (whole components compared).
pub uninterp spec fn path_has_prefix(path: Seq<char>, base: Seq<char>) -> bool;

/// `Path::starts_with`.
#[verifier::external_body]
fn path_starts_with(path: &str, base: &str) -> (r: bool)
    ensures
        r == path_has_prefix(path@, base@),
{
    std::path::Path::new(path).starts_with(base)
}

/// Whether the audio file may be read: there is no restriction, its path
/// could not be resolved, or it lies in one of the allowed directories that
/// could be resolved.
pub open spec fn location_allowed(canonical: Option<Seq<char>>, allowed: Seq<Option<Seq<char>>>) -> bool {
    match canonical {
        None => true,
        Some(c) => allowed.len() == 0 || exists|i: int|
            0 <= i < allowed.len() && (#[trigger] allowed[i] matches Some(d) && path_has_prefix(c, d)),
    }
}

/// Checks an audio file before processing: an empty file is
/// [`TranscribeError::EmptyAudio`]; a file outside the allowed directories
/// (see [`location_allowed`]; `canonical` is the file's resolved path and
/// `allowed` the allowed directories resolved, `None` where resolving failed)
/// is [`TranscribeError::UnsupportedFormat`] naming the file as `display`.
pub fn check_audio_input(
    size: u64,
    display: &str,
    canonical: Option<&str>,
    allowed: &[Option<String>],
) -> (r: Result<(), TranscribeError>)
    ensures
        size == 0 ==> r matches Err(TranscribeError::EmptyAudio),
        size > 0 && location_allowed(str_opt(canonical), opt_views(allowed@)) ==> r is Ok,
        size > 0 && !location_allowed(str_opt(canonical), opt_views(allowed@)) ==> (r matches Err(
            TranscribeError::UnsupportedFormat(m),
        ) && m@ == "file not in allowed directories: "@ + display@),
{
    if size == 0 {
        return Err(TranscribeError::EmptyAudio);
    }
    let c = match canonical {
        Some(c) => c,
        None => {
            return Ok(());
        },
    };
    if allowed.len() == 0 {
        return Ok(());
    }
    let mut i: usize = 0;
    while i < allowed.len()
        invariant
            i <= allowed@.len(),
            size > 0,
            canonical == Some(c),
            forall|j: int|
                0 <= j < i ==> !(#[trigger] opt_views(allowed@)[j] matches Some(d) && path_has_prefix(c@, d)),
        decreases allowed.len() - i,
    {
        match &allowed[i] {
            Some(d) => {
                if path_starts_with(c, d.as_str()) {
                    assert(opt_views(allowed@)[i as int] == Some(d@));
                    return Ok(());
                }
            },
            None => {},
        }
        assert(opt_views(allowed@)[i as int] == opt_view(allowed@[i as int]));
        i += 1;
    }
    let mut m = lit("file not in allowed directories: ");
    push_all(&mut m, &chars_of(display));
    Err(TranscribeError::UnsupportedFormat(string_from(&m)))
}

// ---------------------------------------------------------------------------
// What the summarizer is told
// ---------------------------------------------------------------------------

pub open spec fn notes_part(notes: Seq<char>) -> Seq<char> {
    "USER NOTES (these moments were marked as important — weight them heavily):\n"@ + notes
}

pub open spec fn screens_part(count: nat, dir: Seq<char>) -> Seq<char> {
    "SCREEN CONTEXT: "@ + dec(count)
        + " screenshots were captured during this recording. They are available at "@ + dir
        + " for visual context about what was on screen during the meeting. Reference these when the speaker says things like 'look at this', 'that number', or 'what's on the screen'."@
}

/// The transcript prefixed by the user's notes and a note on the captured
/// screenshots, where there are any.
pub open spec fn with_context(
    transcript: Seq<char>,
    notes: Option<Seq<char>>,
    screen_count: nat,
    screen_dir: Seq<char>,
) -> Seq<char> {
    let parts = match notes {
        Some(n) => seq![notes_part(n)],
        None => seq![],
    } + if screen_count > 0 {
        seq![screens_part(screen_count, screen_dir)]
    } else {
        seq![]
    };
    if parts.len() == 0 {
        transcript
    } else {
        join(parts, "\n\n"@) + "\n\nTRANSCRIPT:\n"@ + transcript
    }
}

/// What the summarizer is given (see [`with_context`]).
pub fn transcript_with_context(
    transcript: &str,
    user_notes: Option<&str>,
    screen_count: usize,
    screen_dir: &str,
) -> (r: String)
    ensures
        r@ == with_context(
            transcript@,
            match user_notes {
                Some(n) => Some(n@),
                None => None,
            },
            screen_count as nat,
            screen_dir@,
        ),
{
    let mut parts: Vec<Vec<char>> = Vec::new();
    match user_notes {
        Some(n) => {
            let mut p = lit(
                "USER NOTES (these moments were marked as important — weight them heavily):\n",
            );
            push_all(&mut p, &chars_of(n));
            parts.push(p);
        },
        None => {},
    }
    if screen_count > 0 {
        let mut p = lit("SCREEN CONTEXT: ");
        push_all(&mut p, &dec_chars(screen_count));
        push_all(
            &mut p,
            &lit(" screenshots were captured during this recording. They are available at "),
        );
        push_all(&mut p, &chars_of(screen_dir));
        push_all(
            &mut p,
            &lit(
                " for visual context about what was on screen during the meeting. Reference these when the speaker says things like 'look at this', 'that number', or 'what's on the screen'.",
            ),
        );
        parts.push(p);
    }
    let ghost want = match user_notes {
        Some(n) => seq![notes_part(n@)],
        None => seq![],
    } + if screen_count > 0 {
        seq![screens_part(screen_count as nat, screen_dir@)]
    } else {
        seq![]
    };
    assert(views(parts@) =~= want);
    if parts.len() == 0 {
        return string_from(&chars_of(transcript));
    }
    let mut out = join_chars(&parts, &lit("\n\n"));
    push_all(&mut out, &lit("\n\nTRANSCRIPT:\n"));
    push_all(&mut out, &chars_of(transcript));
    string_from(&out)
}

// ---------------------------------------------------------------------------
// The record
// ---------------------------------------------------------------------------

/// Duration estimated from a 16 kHz mono 16-bit WAV's size: a 44-byte header,
/// then 32000 bytes a second; `Mm Ss`, or `Ss` under a minute.
pub open spec fn duration_text(bytes: nat) -> Seq<char> {
    let secs: nat = if bytes > 44 {
        ((bytes - 44) as nat) / 32000
    } else {
        0
    };
    if secs / 60 > 0 {
        dec(secs / 60) + "m "@ + dec(secs % 60) + "s"@
    } else {
        dec(secs % 60) + "s"@
    }
}

/// The duration a file of `bytes` bytes holds (see [`duration_text`]).
pub fn duration_from_size(bytes: u64) -> (r: String)
    ensures
        r@ == duration_text(bytes as nat),
{
    let secs: u64 = if bytes > 44 {
        (bytes - 44) / 32000
    } else {
        0
    };
    let mins = secs / 60;
    let rest = secs % 60;
    let mut out: Vec<char>;
    if mins > 0 {
        out = dec_chars_u64(mins);
        push_all(&mut out, &lit("m "));
        push_all(&mut out, &dec_chars_u64(rest));
        push_all(&mut out, &lit("s"));
    } else {
        out = dec_chars_u64(rest);
        push_all(&mut out, &lit("s"));
    }
    string_from(&out)
}

/// Everything a saved meeting record holds apart from its date.
pub struct MeetingRecord {
    pub title: String,
    pub content_type: ContentType,
    pub duration: String,
    pub source: Option<String>,
    pub status: OutputStatus,
    /// Labels of the people involved, in slug order.
    pub people: Vec<String>,
    pub entities: EntityLinks,
    pub context: Option<String>,
    pub action_items: Vec<ActionItem>,
    pub decisions: Vec<Decision>,
    pub intents: Vec<Intent>,
    /// The summary rendered as markdown.
    pub summary: Option<String>,
}

pub open spec fn str_opt(o: Option<&str>) -> Option<Seq<char>> {
    match o {
        Some(s) => Some(s@),
        None => None,
    }
}

/// Whether [`meeting_record`] may be called: the title can be made and the
/// summary's due dates read.
pub open spec fn record_defined(
    transcript: Seq<char>,
    title: Option<Seq<char>>,
    pre_context: Option<Seq<char>>,
    summary: Option<Summary>,
) -> bool {
    &&& title is None ==> title_defined(transcript, pre_context)
    &&& summary matches Some(s) ==> intents_defined(strs(s.action_items@), strs(s.commitments@))
}

/// The record of a processed recording.  The title is the given one or the
/// generated one; action items, decisions, intents and the rendered summary
/// come from the summary when there is one; people and projects are those
/// the title, context and extracted items name.
pub fn meeting_record(
    transcript: &str,
    content_type: ContentType,
    title: Option<&str>,
    pre_context: Option<&str>,
    summary: Option<&Summary>,
    status: OutputStatus,
    audio_bytes: u64,
) -> (r: MeetingRecord)
    requires
        record_defined(
            transcript@,
            str_opt(title),
            str_opt(pre_context),
            match summary {
                Some(s) => Some(*s),
                None => None,
            },
        ),
    ensures
        r.title@ == match title {
            Some(t) => t@,
            None => generated_title(transcript@, str_opt(pre_context)),
        },
        r.content_type == content_type,
        r.duration@ == duration_text(audio_bytes as nat),
        content_type == ContentType::Memo ==> opt_view(r.source) == Some("voice-memo"@),
        content_type == ContentType::Meeting ==> r.source is None,
        r.status == status,
        opt_view(r.context) == str_opt(pre_context),
        match summary {
            Some(s) => {
                &&& action_views(r.action_items@) == strs(s.action_items@).map_values(
                    |x: Seq<char>| action_item_of(x),
                )
                &&& decision_views(r.decisions@) == strs(s.decisions@).map_values(
                    |x: Seq<char>| decision_of(x),
                )
                &&& intent_views(r.intents@) == intents_of(
                    strs(s.action_items@),
                    strs(s.decisions@),
                    strs(s.open_questions@),
                    strs(s.commitments@),
                )
                &&& opt_view(r.summary) == Some(formatted(*s))
            },
            None => {
                &&& r.action_items@.len() == 0
                &&& r.decisions@.len() == 0
                &&& r.intents@.len() == 0
                &&& r.summary is None
            },
        },
        lists(
            ref_views(r.entities.people@),
            people_from(
                people_sources(seq![], action_views(r.action_items@), intent_views(r.intents@)),
            ),
        ),
        lists(
            ref_views(r.entities.projects@),
            projects_from(
                project_sources(r.title@, str_opt(pre_context), decision_views(r.decisions@), seq![]),
            ),
        ),
        strs(r.people@) == ref_views(r.entities.people@).map_values(|e: EntityModel| e.label),
{
    let (action_items, decisions, intents, rendered) = match summary {
        Some(s) => (
            extract_action_items(s),
            extract_decisions(s),
            extract_intents(s),
            Some(format_summary(s)),
        ),
        None => (Vec::new(), Vec::new(), Vec::new(), None),
    };
    let auto_title = match title {
        Some(t) => string_from(&chars_of(t)),
        None => generate_title(transcript, pre_context),
    };
    let no_names: Vec<String> = Vec::new();
    assert(strs(no_names@) =~= Seq::<Seq<char>>::empty());
    let entities = build_entity_links(
        auto_title.as_str(),
        pre_context,
        &no_names,
        &action_items,
        &decisions,
        &intents,
        &no_names,
    );
    assert(people_sources(strs(no_names@), action_views(action_items@), intent_views(intents@))
        == people_sources(seq![], action_views(action_items@), intent_views(intents@)));
    assert(project_sources(auto_title@, str_opt(pre_context), decision_views(decisions@), strs(no_names@))
        == project_sources(auto_title@, str_opt(pre_context), decision_views(decisions@), seq![]));
    let mut people: Vec<String> = Vec::new();
    let mut i: usize = 0;
    while i < entities.people.len()
        invariant
            i <= entities.people@.len(),
            strs(people@) == ref_views(entities.people@).map_values(|e: EntityModel| e.label).take(
                i as int,
            ),
        decreases entities.people.len() - i,
    {
        let l = string_from(&chars_of(entities.people[i].label.as_str()));
        let ghost prev = strs(people@);
        people.push(l);
        assert(strs(people@) =~= prev.push(l@));
        i += 1;
        assert(strs(people@) =~= ref_views(entities.people@).map_values(|e: EntityModel| e.label).take(
            i as int,
        ));
    }
    assert(ref_views(entities.people@).map_values(|e: EntityModel| e.label).take(
        entities.people@.len() as int,
    ) =~= ref_views(entities.people@).map_values(|e: EntityModel| e.label));
    let context = match pre_context {
        Some(c) => Some(string_from(&chars_of(c))),
        None => None,
    };
    MeetingRecord {
        title: auto_title,
        content_type,
        duration: duration_from_size(audio_bytes),
        source: source_for(content_type),
        status,
        people,
        entities,
        context,
        action_items,
        decisions,
        intents,
        summary: rendered,
    }
}


// ---------------------------------------------------------------------------
// The saved file
// ---------------------------------------------------------------------------

pub open spec fn content_type_name(t: ContentType) -> Seq<char> {
    match t {
        ContentType::Meeting => "meeting"@,
        ContentType::Memo => "memo"@,
    }
}

pub open spec fn status_name(s: OutputStatus) -> Seq<char> {
    match s {
        OutputStatus::Complete => "complete"@,
        OutputStatus::NoSpeech => "no-speech"@,
        OutputStatus::TranscriptOnly => "transcript-only"@,
    }
}

/// A record as markdown: `key: value` frontmatter (title, type, date,
/// duration, the source when there is one, status, and the people when
/// there are any), then the summary when there is one, then the transcript.
pub open spec fn rendered(rec: MeetingRecord, date: Seq<char>, transcript: Seq<char>) -> Seq<char> {
    "---\ntitle: "@ + rec.title@ + "\ntype: "@ + content_type_name(rec.content_type) + "\ndate: "@ + date
        + "\nduration: "@ + rec.duration@ + match rec.source {
        Some(src) => "\nsource: "@ + src@,
        None => Seq::<char>::empty(),
    } + "\nstatus: "@ + status_name(rec.status) + if rec.people@.len() > 0 {
        "\npeople: "@ + join(strs(rec.people@), ", "@)
    } else {
        Seq::<char>::empty()
    } + "\n---\n\n"@ + match rec.summary {
        Some(sm) => "## Summary\n\n"@ + sm@ + "\n"@,
        None => Seq::<char>::empty(),
    } + "## Transcript\n\n"@ + transcript
}

fn source_part(source: &Option<String>) -> (r: Vec<char>)
    ensures
        r@ == match *source {
            Some(src) => "\nsource: "@ + src@,
            None => Seq::<char>::empty(),
        },
{
    match source {
        Some(src) => {
            let mut v = lit("\nsource: ");
            push_all(&mut v, &chars_of(src.as_str()));
            v
        },
        None => Vec::new(),
    }
}

fn people_part(people: &Vec<String>) -> (r: Vec<char>)
    ensures
        r@ == if people@.len() > 0 {
            "\npeople: "@ + join(strs(people@), ", "@)
        } else {
            Seq::<char>::empty()
        },
{
    if people.len() > 0 {
        let mut v = lit("\npeople: ");
        push_all(&mut v, &join_chars(&crate::text::char_lines(people), &lit(", ")));
        v
    } else {
        Vec::new()
    }
}

fn summary_part(summary: &Option<String>) -> (r: Vec<char>)
    ensures
        r@ == match *summary {
            Some(sm) => "## Summary\n\n"@ + sm@ + "\n"@,
            None => Seq::<char>::empty(),
        },
{
    match summary {
        Some(sm) => {
            let mut v = lit("## Summary\n\n");
            push_all(&mut v, &chars_of(sm.as_str()));
            push_all(&mut v, &lit("\n"));
            v
        },
        None => Vec::new(),
    }
}

fn content_type_text(t: ContentType) -> (r: Vec<char>)
    ensures
        r@ == content_type_name(t),
{
    match t {
        ContentType::Meeting => lit("meeting"),
        ContentType::Memo => lit("memo"),
    }
}

fn status_text(st: OutputStatus) -> (r: Vec<char>)
    ensures
        r@ == status_name(st),
{
    match st {
        OutputStatus::Complete => lit("complete"),
        OutputStatus::NoSpeech => lit("no-speech"),
        OutputStatus::TranscriptOnly => lit("transcript-only"),
    }
}

/// The markdown of a record (see [`rendered`]).
pub fn render_record(rec: &MeetingRecord, date: &str, transcript: &str) -> (r: String)
    ensures
        r@ == rendered(*rec, date@, transcript@),
{
    let a = lit("---\ntitle: ");
    let b = chars_of(rec.title.as_str());
    let c = lit("\ntype: ");
    let d = content_type_text(rec.content_type);
    let e = lit("\ndate: ");
    let f = chars_of(date);
    let g = lit("\nduration: ");
    let h = chars_of(rec.duration.as_str());
    let i = source_part(&rec.source);
    let j = lit("\nstatus: ");
    let k = status_text(rec.status);
    let l = people_part(&rec.people);
    let m = lit("\n---\n\n");
    let n = summary_part(&rec.summary);
    let o = lit("## Transcript\n\n");
    let p = chars_of(transcript);
    let mut out: Vec<char> = Vec::new();
    push_all(&mut out, &a);
    push_all(&mut out, &b);
    push_all(&mut out, &c);
    push_all(&mut out, &d);
    push_all(&mut out, &e);
    push_all(&mut out, &f);
    push_all(&mut out, &g);
    push_all(&mut out, &h);
    push_all(&mut out, &i);
    push_all(&mut out, &j);
    push_all(&mut out, &k);
    push_all(&mut out, &l);
    push_all(&mut out, &m);
    push_all(&mut out, &n);
    push_all(&mut out, &o);
    push_all(&mut out, &p);
    assert(out@ =~= a@ + b@ + c@ + d@ + e@ + f@ + g@ + h@ + i@ + j@ + k@ + l@ + m@ + n@ + o@ + p@);
    string_from(&out)
}


// ---------------------------------------------------------------------------
// Processing a recording
// ---------------------------------------------------------------------------

/// Why processing a recording failed.
#[derive(Debug)]
pub enum PipelineError {
    /// Reading, transcribing or checking the audio failed.
    Transcribe(TranscribeError),
    /// A file could not be read or written.
    Io(String),
    /// A title or due date would have been cut inside a character (where
    /// lowercasing changed the byte length of the text before the cut).
    CharBoundary,
}

/// The work around the pipeline's decisions: the file system, the clock,
/// diarization, the user's notes, and the summarization services.
pub trait PipelineServices {
    /// The size in bytes of the requested file (or why it could not be
    /// read), and its resolved form if it can be resolved.
    fn measure(&self, request: &MeasureRequest) -> (Result<u64, String>, Option<String>);

    /// The resolved form of `path`, if it can be resolved.
    fn canonical(&self, path: &str) -> Option<String>;

    /// The requested transcript with speakers named, when diarization gives
    /// a result.
    fn diarize(&self, request: &DiarizeRequest) -> Option<String>;

    /// The notes the user took during the recording.
    fn user_notes(&self) -> Option<String>;

    /// What the user said the meeting is about.
    fn pre_context(&self) -> Option<String>;

    /// The user's home directory.
    fn home_dir(&self) -> String;

    /// The names of the entries of `dir`, when it exists.
    fn list_dir(&self, dir: &str) -> Option<Vec<String>>;

    /// Performs a summarization request.
    fn ask(&self, request: LlmRequest) -> Result<String, String>;

    /// The current date and time, as written in records.
    fn now(&self) -> String;

    /// Saves a record and returns where.
    fn write_record(
        &self,
        content_type: ContentType,
        title: &str,
        date: &str,
        markdown: &str,
    ) -> Result<String, String>;

    /// Deletes a directory and what it holds.
    fn remove_dir(&self, dir: &str) -> bool;
}

/// The directory records of `content_type` are saved in: memos in `memos`
/// under the output directory, meetings in the output directory itself.
pub open spec fn record_dir(output_dir: Seq<char>, content_type: ContentType) -> Seq<char> {
    match content_type {
        ContentType::Memo => path_join(output_dir, "memos"@),
        ContentType::Meeting => output_dir,
    }
}

pub fn record_directory(output_dir: &str, content_type: ContentType) -> (r: String)
    ensures
        r@ == record_dir(output_dir@, content_type),
{
    match content_type {
        ContentType::Memo => string_from(&path_join_exec(&chars_of(output_dir), &lit("memos"))),
        ContentType::Meeting => string_from(&chars_of(output_dir)),
    }
}

/// The file name tried on attempt `n` (counting from 1) to save a record
/// titled `title` made at `date`: the date's first ten characters (its day),
/// a dash and the title's slug (`untitled` when empty), then `.md`, with
/// `-<n>` before the `.md` from the second attempt on.
pub open spec fn record_file(title: Seq<char>, date: Seq<char>, n: nat) -> Seq<char> {
    let day = if date.len() <= 10 {
        date
    } else {
        date.take(10)
    };
    let slug = slug_of(title);
    let stem = day + "-"@ + if slug.len() == 0 {
        "untitled"@
    } else {
        slug
    };
    if n <= 1 {
        stem + ".md"@
    } else {
        stem + "-"@ + dec(n) + ".md"@
    }
}

pub fn record_file_name(title: &str, date: &str, attempt: u64) -> (r: String)
    ensures
        r@ == record_file(title@, date@, attempt as nat),
{
    let d = chars_of(date);
    let mut out = if d.len() <= 10 {
        d
    } else {
        let day = crate::text::copy_range(&d, 0, 10);
        assert(day@ =~= d@.take(10));
        day
    };
    push_all(&mut out, &lit("-"));
    let slug = slugify(title);
    let sc = chars_of(slug.as_str());
    if sc.len() == 0 {
        push_all(&mut out, &lit("untitled"));
    } else {
        push_all(&mut out, &sc);
    }
    if attempt > 1 {
        push_all(&mut out, &lit("-"));
        push_all(&mut out, &dec_chars_u64(attempt));
    }
    push_all(&mut out, &lit(".md"));
    string_from(&out)
}

/// Where a processed recording was saved.
pub struct WriteResult {
    pub path: String,
    pub title: String,
    pub word_count: usize,
}

/// The screenshots in `dir`: its PNG files, sorted by name, as paths.  The
/// directory's entries are what the services list (none when it is absent).
fn screenshot_paths<S: PipelineServices>(services: &S, dir: &str) -> (r: Vec<String>)
    ensures
        exists|entries: Seq<Seq<char>>, names: Seq<Seq<char>>|
            sorted_names(names) && names.to_multiset() == png_names(entries).to_multiset() && #[trigger] strs(
                r@,
            ) == names.map_values(|n: Seq<char>| path_join(dir@, n)),
{
    let entries: Vec<String> = match services.list_dir(dir) {
        Some(names) => names,
        None => Vec::new(),
    };
    let sorted = screenshot_names(&entries);
    let ghost ns = strs(sorted@);
    let d = chars_of(dir);
    let mut out: Vec<String> = Vec::new();
    let mut i: usize = 0;
    while i < sorted.len()
        invariant
            i <= sorted@.len(),
            d@ == dir@,
            ns == strs(sorted@),
            strs(out@) == ns.take(i as int).map_values(|n: Seq<char>| path_join(dir@, n)),
        decreases sorted.len() - i,
    {
        let ghost prev = strs(out@);
        let p = string_from(&path_join_exec(&d, &chars_of(sorted[i].as_str())));
        out.push(p);
        proof {
            assert(strs(out@) =~= prev.push(p@));
            assert(ns[i as int] == sorted@[i as int]@);
            assert(ns.take(i + 1).map_values(|n: Seq<char>| path_join(dir@, n)) =~= ns.take(
                i as int,
            ).map_values(|n: Seq<char>| path_join(dir@, n)).push(path_join(dir@, ns[i as int])));
        }
        i += 1;
    }
    proof {
        assert(ns.take(ns.len() as int) =~= ns);
        assert(strs(out@) == ns.map_values(|n: Seq<char>| path_join(dir@, n)));
        assert(sorted_names(ns) && ns.to_multiset() == png_names(strs(entries@)).to_multiset());
    }
    out
}

/// Processes a recording: checks the file, transcribes it, names speakers
/// in meetings when diarization is on, summarizes it when a summarizer is
/// configured (with the user's notes and screenshots as context), and saves
/// the record (see [`meeting_record`] and [`render_record`]).  Each decision
/// is [`pipeline_step`]'s (see [`pipeline_next`]); this function does the
/// work they call for, and `on_progress` hears each stage a step reports, as
/// it starts.  The result ends such a run (see [`run_ends`]): the stages
/// heard are a first part of [`crate::steps::stages_for`], all of them on success, and
/// none when the file is empty.
pub fn process_with_progress<A: TranscribeBackend, S: PipelineServices, F: Fn(PipelineStage)>(
    audio_path: &str,
    content_type: ContentType,
    title: Option<&str>,
    config: &Config,
    audio: &A,
    services: &S,
    on_progress: F,
) -> (r: Result<WriteResult, PipelineError>)
    requires
        config.summarization.chunk_max_tokens <= usize::MAX / 4,
        forall|st: PipelineStage| call_requires(on_progress, (st,)),
    ensures
        r matches Ok(w) ==> match title {
            Some(t) => w.title@ == t@,
            None => w.title@.len() <= 60,
        },
        exists|steps: Seq<(PipelineState, PipelineAction)>, events: Seq<PipelineEvent>|
            #[trigger] run_ends(audio_path@, content_type, str_opt(title), *config, steps, events, r),
{
    let (first, act) = pipeline_step(audio_path, content_type, title, config, PipelineState::Start, PipelineEvent::Begin);
    let mut state = first;
    let mut action = act;
    let ghost mut steps: Seq<(PipelineState, PipelineAction)> = seq![(state, action)];
    let ghost mut events: Seq<PipelineEvent> = seq![];
    loop
        invariant
            is_run(audio_path@, content_type, str_opt(title), *config, steps, events),
            steps.last() == (state, action),
            fits(state, action.work),
            carried(str_opt(title), state, action.work),
            config.summarization.chunk_max_tokens <= usize::MAX / 4,
            forall|st: PipelineStage| call_requires(on_progress, (st,)),
        decreases rank(state),
    {
        match action.report {
            Some(st) => on_progress(st),
            None => {},
        }
        let ghost work = action.work;
        let ghost old_action = action;
        let event = match action.work {
            Work::Finish(res) => {
                proof {
                    law_stages_in_order(audio_path@, content_type, str_opt(title), *config, steps, events);
                    assert(run_ends(audio_path@, content_type, str_opt(title), *config, steps, events, res));
                }
                return res;
            },
            Work::Measure(request) => {
                let (size, canonical) = services.measure(&request);
                let mut allowed: Vec<Option<String>> = Vec::new();
                if canonical.is_some() {
                    let dirs = &config.security.allowed_audio_dirs;
                    let mut i: usize = 0;
                    while i < dirs.len()
                        invariant
                            i <= dirs@.len(),
                        decreases dirs.len() - i,
                    {
                        allowed.push(services.canonical(dirs[i].as_str()));
                        i += 1;
                    }
                }
                PipelineEvent::Measured { size, canonical, allowed }
            },
            Work::Transcribe(path) => PipelineEvent::Transcribed(transcribe(path.as_str(), config, audio)),
            Work::Diarize(request) => PipelineEvent::Diarized(services.diarize(&request)),
            Work::Gather => {
                let notes = services.user_notes();
                let context = services.pre_context();
                let home = services.home_dir();
                let screen_dir = screens_dir_for(audio_path, home.as_str());
                let screens = screenshot_paths(services, screen_dir.as_str());
                PipelineEvent::Gathered { notes, context, screen_dir, screens }
            },
            Work::Summarize { text, screens } => {
                let ask = |q: LlmRequest| -> (reply: Result<String, String>) { services.ask(q) };
                PipelineEvent::Summarized(summarize_with_screens(text.as_str(), &screens, config, ask))
            },
            Work::Save { title: record_title, transcript, context, summary, status, size } => {
                let context_str: Option<&str> = match &context {
                    Some(c) => Some(c.as_str()),
                    None => None,
                };
                let record = meeting_record(
                    transcript.as_str(),
                    content_type,
                    title,
                    context_str,
                    match &summary {
                        Some(s) => Some(s),
                        None => None,
                    },
                    status,
                    size,
                );
                let date = services.now();
                let markdown = render_record(&record, date.as_str(), transcript.as_str());
                PipelineEvent::Saved(
                    services.write_record(content_type, record_title.as_str(), date.as_str(), markdown.as_str()),
                )
            },
            Work::RemoveScreens(dir) => {
                services.remove_dir(dir.as_str());
                PipelineEvent::Cleaned
            },
        };
        let ghost old_state = state;
        let ghost ev = event;
        let (next, act) = pipeline_step(audio_path, content_type, title, config, state, event);
        proof {
            lemma_step_moves_on(audio_path@, content_type, str_opt(title), *config, old_state, work, ev, (next, act));
            assert(answers(old_action.work, ev));
            let ghost before = steps;
            let ghost before_events = events;
            steps = steps.push((next, act));
            events = events.push(ev);
            assert forall|i: int| 0 <= i < events.len() implies answers(steps[i].1.work, #[trigger] events[i])
                && pipeline_next(audio_path@, content_type, str_opt(title), *config, steps[i].0, events[i], steps[i + 1]) by {
                if i < before_events.len() {
                    assert(steps[i] == before[i] && steps[i + 1] == before[i + 1] && events[i] == before_events[i]);
                } else {
                    assert(steps[i] == (old_state, old_action));
                }
            }
        }
        state = next;
        action = act;
    }
}

/// Processes a recording without reporting progress (see
/// [`process_with_progress`]).
pub fn process<A: TranscribeBackend, S: PipelineServices>(
    audio_path: &str,
    content_type: ContentType,
    title: Option<&str>,
    config: &Config,
    audio: &A,
    services: &S,
) -> (r: Result<WriteResult, PipelineError>)
    requires
        config.summarization.chunk_max_tokens <= usize::MAX / 4,
    ensures
        r matches Ok(w) ==> match title {
            Some(t) => w.title@ == t@,
            None => w.title@.len() <= 60,
        },
        exists|steps: Seq<(PipelineState, PipelineAction)>, events: Seq<PipelineEvent>|
            #[trigger] run_ends(audio_path@, content_type, str_opt(title), *config, steps, events, r),
{
    let quiet = |st: PipelineStage| {};
    process_with_progress(audio_path, content_type, title, config, audio, services, quiet)
}

} // verus!
