//! The decisions of processing a recording, as a state machine: each step
//! takes what the last piece of outside work gave back and says which stage
//! to report and what to do next.
use vstd::prelude::*;
use crate::config::Config;
use crate::intents::{intents_defined, intents_ok};
use crate::pipeline::{
    check_audio_input, location_allowed, output_status, should_diarize, should_remove_screens,
    should_summarize, status_for, str_opt, transcript_with_context, with_context, word_count,
    ContentType, OutputStatus, PipelineError, PipelineStage, WriteResult,
};
use crate::summary::Summary;
use crate::text::{lit, opt_views, push_all, string_from, strs, words};
use crate::title::{generate_title, generated_title, law_title_fits, title_defined, title_from_context, transcript_title_ok};
use crate::transcribe::TranscribeError;

verus! {

/// Where processing stands: what it waits for, and what it keeps.
pub enum PipelineState {
    /// Not begun.
    Start,
    /// Waiting for the file's size and resolved paths.
    Measuring,
    /// Waiting for the transcript.
    Transcribing { size: u64 },
    /// Waiting for the transcript with speakers named.
    Diarizing { size: u64, words: usize, transcript: String },
    /// Waiting for the user's notes, context and screenshots.
    Gathering { size: u64, words: usize, transcript: String },
    /// Waiting for the summary.
    Summarizing {
        size: u64,
        words: usize,
        transcript: String,
        context: Option<String>,
        screen_dir: String,
        screens: usize,
    },
    /// Waiting for the record to be written.
    Saving { words: usize, title: String, screen_dir: String, screens: usize },
    /// Waiting for the screenshots to be removed.
    Cleaning { result: WriteResult },
    /// Finished.
    Done,
}

/// What a piece of outside work gave back.
pub enum PipelineEvent {
    /// Processing is asked to begin.
    Begin,
    /// The file's size (or why it could not be read), its resolved path and
    /// the allowed directories resolved (`None` where resolving failed).
    Measured { size: Result<u64, String>, canonical: Option<String>, allowed: Vec<Option<String>> },
    Transcribed(Result<String, TranscribeError>),
    /// The transcript with speakers named, when diarization gave a result.
    Diarized(Option<String>),
    /// The user's notes, what the user said the recording is about, the
    /// screenshots directory and the screenshots in it.
    Gathered { notes: Option<String>, context: Option<String>, screen_dir: String, screens: Vec<String> },
    Summarized(Option<Summary>),
    /// Where the record was written, or why it could not be.
    Saved(Result<String, String>),
    /// The screenshots were removed (or removing them failed).
    Cleaned,
}

/// What measuring is asked for: the recording's file.
pub struct MeasureRequest {
    pub path: String,
}

/// What diarization is asked for: the recording and its transcript.
pub struct DiarizeRequest {
    pub audio_path: String,
    pub transcript: String,
}

/// The outside work to do next.
pub enum Work {
    /// Read the file's size and resolve its path and the allowed directories.
    Measure(MeasureRequest),
    /// Transcribe the audio file at this path.
    Transcribe(String),
    /// Name the speakers of the transcript.
    Diarize(DiarizeRequest),
    /// Read the user's notes and context, and list the screenshots.
    Gather,
    /// Summarize this text (the transcript with its context) with these screenshots.
    Summarize { text: String, screens: Vec<String> },
    /// Build, render and write the record of these parts.
    Save {
        title: String,
        transcript: String,
        context: Option<String>,
        summary: Option<Summary>,
        status: OutputStatus,
        size: u64,
    },
    /// Remove the screenshots directory.
    RemoveScreens(String),
    /// Processing is over, with this result.
    Finish(Result<WriteResult, PipelineError>),
}

/// A stage to report, if any, and the work that follows.
pub struct PipelineAction {
    pub report: Option<PipelineStage>,
    pub work: Work,
}

/// The title a record gets: the given one, else one generated from the
/// transcript and context.
pub open spec fn record_title(title: Option<Seq<char>>, transcript: Seq<char>, context: Option<Seq<char>>) -> Seq<char> {
    match title {
        Some(t) => t,
        None => generated_title(transcript, context),
    }
}

/// Whether a record can be built of these parts without cutting text inside
/// a character: the title (when generated) and the summary's items.
pub open spec fn savable(
    title: Option<Seq<char>>,
    transcript: Seq<char>,
    context: Option<Seq<char>>,
    summary: Option<Summary>,
) -> bool {
    &&& title is None ==> title_defined(transcript, context)
    &&& summary matches Some(s) ==> intents_defined(strs(s.action_items@), strs(s.commitments@))
}

pub open spec fn opt_text(o: Option<String>) -> Option<Seq<char>> {
    match o {
        Some(s) => Some(s@),
        None => None,
    }
}

/// Whether `r` finishes with result `res`, reporting `report`.
pub open spec fn finishes(
    r: (PipelineState, PipelineAction),
    report: Option<PipelineStage>,
    res: Result<WriteResult, PipelineError>,
) -> bool {
    r.0 is Done && r.1.report == report && r.1.work == Work::Finish(res)
}

/// The step after `words` words of `transcript` were gathered with their
/// context, when the record is saved next: it fails on text that cannot be
/// cut, and otherwise reports saving and saves the parts.
pub open spec fn saves(
    title: Option<Seq<char>>,
    config: Config,
    size: u64,
    words: usize,
    transcript: String,
    context: Option<String>,
    screen_dir: String,
    screens: usize,
    summary: Option<Summary>,
    r: (PipelineState, PipelineAction),
) -> bool {
    if !savable(title, transcript@, opt_text(context), summary) {
        finishes(r, Some(PipelineStage::Saving), Err(PipelineError::CharBoundary))
    } else {
        let t = record_title(title, transcript@, opt_text(context));
        &&& r.1.report == Some(PipelineStage::Saving)
        &&& r.0 matches PipelineState::Saving { words: w, title: rt, screen_dir: d, screens: n } && w == words
            && rt@ == t && d == screen_dir && n == screens
        &&& r.1.work matches Work::Save {
            title: st,
            transcript: tr,
            context: c,
            summary: s,
            status: o,
            size: z,
        } && st@ == t && tr == transcript && c == context && s == summary && o == status_for(
            words as nat,
            config.transcription.min_words as nat,
            config.summarization.engine@,
        ) && z == size
    }
}

/// The decisions: what follows state `s` when event `e` comes, for the
/// recording at `audio_path` of `content_type`, with `title` given or not.
///
/// - Beginning, the file is measured.  An unreadable size is an I/O error;
///   an empty file is [`TranscribeError::EmptyAudio`]; a file outside the
///   allowed directories is refused; these end processing before any stage
///   is reported.  Otherwise transcribing is reported and done.
/// - A failed transcription ends processing.  Otherwise its words are
///   counted; meetings are diarized when diarization is on (reported), and
///   then the notes, context and screenshots are gathered.  Diarization that
///   gives nothing keeps the transcript.
/// - With a summarizer, summarizing is reported and the transcript, with
///   its notes and screenshots noted (see [`with_context`]), is summarized.
/// - Then saving is reported and the record saved, titled as given or as
///   generated, unless its text cannot be cut (see [`savable`]).  A failed
///   write is an I/O error.  Screenshots are removed after a write when
///   there are any and they are not kept.  The result gives the record's
///   path, title and the transcript's word count.
/// - Any other event than the one awaited ends processing with an I/O error.
pub open spec fn pipeline_next(
    audio_path: Seq<char>,
    content_type: ContentType,
    title: Option<Seq<char>>,
    config: Config,
    s: PipelineState,
    e: PipelineEvent,
    r: (PipelineState, PipelineAction),
) -> bool {
    match (s, e) {
        (PipelineState::Start, PipelineEvent::Begin) => {
            &&& r.0 is Measuring
            &&& r.1.report is None
            &&& r.1.work matches Work::Measure(q) && q.path@ == audio_path
        },
        (PipelineState::Measuring, PipelineEvent::Measured { size, canonical, allowed }) => match size {
            Err(m) => finishes(r, None, Err(PipelineError::Io(m))),
            Ok(n) => if n == 0 {
                finishes(r, None, Err(PipelineError::Transcribe(TranscribeError::EmptyAudio)))
            } else if !location_allowed(opt_text(canonical), opt_views(allowed@)) {
                &&& r.0 is Done
                &&& r.1.report is None
                &&& r.1.work matches Work::Finish(
                    Err(PipelineError::Transcribe(TranscribeError::UnsupportedFormat(m))),
                ) && m@ == "file not in allowed directories: "@ + audio_path
            } else {
                &&& r.0 == PipelineState::Transcribing { size: n }
                &&& r.1.report == Some(PipelineStage::Transcribing)
                &&& r.1.work matches Work::Transcribe(p) && p@ == audio_path
            },
        },
        (PipelineState::Transcribing { size }, PipelineEvent::Transcribed(res)) => match res {
            Err(err) => finishes(r, None, Err(PipelineError::Transcribe(err))),
            Ok(t) => {
                let w = words(t@).len();
                if config.diarization.engine@ != "none"@ && content_type == ContentType::Meeting {
                    &&& r.0 matches PipelineState::Diarizing { size: z, words: n, transcript: k } && z == size
                        && n == w && k == t
                    &&& r.1.report == Some(PipelineStage::Diarizing)
                    &&& r.1.work matches Work::Diarize(q) && q.audio_path@ == audio_path && q.transcript == t
                } else {
                    r.0 matches PipelineState::Gathering { size: z, words: n, transcript: k } && z == size
                        && n == w && k == t && r.1.report is None && r.1.work == Work::Gather
                }
            },
        },
        (PipelineState::Diarizing { size, words, transcript }, PipelineEvent::Diarized(d)) => {
            let t = match d {
                Some(x) => x,
                None => transcript,
            };
            r.0 == PipelineState::Gathering { size, words, transcript: t } && r.1.report is None && r.1.work
                == Work::Gather
        },
        (
            PipelineState::Gathering { size, words, transcript },
            PipelineEvent::Gathered { notes, context, screen_dir, screens },
        ) => if config.summarization.engine@ != "none"@ {
            &&& r.0 matches PipelineState::Summarizing {
                size: z,
                words: n,
                transcript: k,
                context: c,
                screen_dir: d,
                screens: m,
            } && z == size && n == words && k == transcript && c == context && d == screen_dir && m
                == screens.len()
            &&& r.1.report == Some(PipelineStage::Summarizing)
            &&& r.1.work matches Work::Summarize { text: x, screens: v } && x@ == with_context(
                transcript@,
                opt_text(notes),
                screens.len() as nat,
                screen_dir@,
            ) && v == screens
        } else {
            saves(title, config, size, words, transcript, context, screen_dir, screens.len(), None, r)
        },
        (
            PipelineState::Summarizing { size, words, transcript, context, screen_dir, screens },
            PipelineEvent::Summarized(summary),
        ) => saves(title, config, size, words, transcript, context, screen_dir, screens, summary, r),
        (PipelineState::Saving { words, title: t, screen_dir, screens }, PipelineEvent::Saved(res)) => match res {
            Err(m) => finishes(r, None, Err(PipelineError::Io(m))),
            Ok(p) => {
                let w = WriteResult { path: p, title: t, word_count: words };
                if screens > 0 && !config.screen_context.keep_after_summary {
                    r.0 == PipelineState::Cleaning { result: w } && r.1.report is None && r.1.work
                        == Work::RemoveScreens(screen_dir)
                } else {
                    finishes(r, None, Ok(w))
                }
            },
        },
        (PipelineState::Cleaning { result }, PipelineEvent::Cleaned) => finishes(r, None, Ok(result)),
        _ => {
            &&& r.0 is Done
            &&& r.1.report is None
            &&& r.1.work matches Work::Finish(Err(PipelineError::Io(m))) && m@ == "unexpected event"@
        },
    }
}

fn finish(report: Option<PipelineStage>, res: Result<WriteResult, PipelineError>) -> (r: (PipelineState, PipelineAction))
    ensures
        finishes(r, report, res),
{
    (PipelineState::Done, PipelineAction { report, work: Work::Finish(res) })
}

fn io_error(m: &str) -> (e: PipelineError)
    ensures
        e matches PipelineError::Io(x) && x@ == m@,
{
    PipelineError::Io(string_from(&lit(m)))
}

/// Whether a record can be built of these parts (see [`savable`]).
fn savable_exec(title: Option<&str>, transcript: &str, context: &Option<String>, summary: &Option<Summary>) -> (r: bool)
    ensures
        r == savable(str_opt(title), transcript@, opt_text(*context), *summary),
{
    let summary_ok = match summary {
        Some(s) => intents_ok(s),
        None => true,
    };
    if !summary_ok {
        return false;
    }
    match title {
        Some(_) => true,
        None => {
            let from_context = match context {
                Some(c) => title_from_context(c.as_str()).is_some(),
                None => false,
            };
            from_context || transcript_title_ok(transcript)
        },
    }
}

fn save_step(
    title: Option<&str>,
    config: &Config,
    size: u64,
    words: usize,
    transcript: String,
    context: Option<String>,
    screen_dir: String,
    screens: usize,
    summary: Option<Summary>,
) -> (r: (PipelineState, PipelineAction))
    ensures
        saves(str_opt(title), *config, size, words, transcript, context, screen_dir, screens, summary, r),
{
    if !savable_exec(title, transcript.as_str(), &context, &summary) {
        return finish(Some(PipelineStage::Saving), Err(PipelineError::CharBoundary));
    }
    let t = match title {
        Some(t) => string_from(&crate::text::chars_of(t)),
        None => {
            let c: Option<&str> = match &context {
                Some(c) => Some(c.as_str()),
                None => None,
            };
            generate_title(transcript.as_str(), c)
        },
    };
    let status = output_status(words, config);
    let t2 = t.clone();
    (
        PipelineState::Saving { words, title: t, screen_dir, screens },
        PipelineAction {
            report: Some(PipelineStage::Saving),
            work: Work::Save { title: t2, transcript, context, summary, status, size },
        },
    )
}

/// One decision of processing a recording (see [`pipeline_next`]).
pub fn pipeline_step(
    audio_path: &str,
    content_type: ContentType,
    title: Option<&str>,
    config: &Config,
    state: PipelineState,
    event: PipelineEvent,
) -> (r: (PipelineState, PipelineAction))
    ensures
        pipeline_next(audio_path@, content_type, str_opt(title), *config, state, event, r),
{
    match (state, event) {
        (PipelineState::Start, PipelineEvent::Begin) => (
            PipelineState::Measuring,
            PipelineAction {
                report: None,
                work: Work::Measure(MeasureRequest { path: string_from(&crate::text::chars_of(audio_path)) }),
            },
        ),
        (PipelineState::Measuring, PipelineEvent::Measured { size, canonical, allowed }) => match size {
            Err(m) => finish(None, Err(PipelineError::Io(m))),
            Ok(n) => {
                let c: Option<&str> = match &canonical {
                    Some(c) => Some(c.as_str()),
                    None => None,
                };
                match check_audio_input(n, audio_path, c, &allowed) {
                    Err(e) => finish(None, Err(PipelineError::Transcribe(e))),
                    Ok(()) => (
                        PipelineState::Transcribing { size: n },
                        PipelineAction {
                            report: Some(PipelineStage::Transcribing),
                            work: Work::Transcribe(string_from(&crate::text::chars_of(audio_path))),
                        },
                    ),
                }
            },
        },
        (PipelineState::Transcribing { size }, PipelineEvent::Transcribed(res)) => match res {
            Err(e) => finish(None, Err(PipelineError::Transcribe(e))),
            Ok(t) => {
                let w = word_count(t.as_str());
                if should_diarize(config, content_type) {
                    let t2 = t.clone();
                    (
                        PipelineState::Diarizing { size, words: w, transcript: t },
                        PipelineAction {
                            report: Some(PipelineStage::Diarizing),
                            work: Work::Diarize(
                                DiarizeRequest { audio_path: string_from(&crate::text::chars_of(audio_path)), transcript: t2 },
                            ),
                        },
                    )
                } else {
                    (
                        PipelineState::Gathering { size, words: w, transcript: t },
                        PipelineAction { report: None, work: Work::Gather },
                    )
                }
            },
        },
        (PipelineState::Diarizing { size, words, transcript }, PipelineEvent::Diarized(d)) => {
            let t = match d {
                Some(x) => x,
                None => transcript,
            };
            (PipelineState::Gathering { size, words, transcript: t }, PipelineAction { report: None, work: Work::Gather })
        },
        (
            PipelineState::Gathering { size, words, transcript },
            PipelineEvent::Gathered { notes, context, screen_dir, screens },
        ) => {
            if should_summarize(config) {
                let n: Option<&str> = match &notes {
                    Some(x) => Some(x.as_str()),
                    None => None,
                };
                let text = transcript_with_context(transcript.as_str(), n, screens.len(), screen_dir.as_str());
                let count = screens.len();
                let d2 = screen_dir.clone();
                (
                    PipelineState::Summarizing { size, words, transcript, context, screen_dir: d2, screens: count },
                    PipelineAction { report: Some(PipelineStage::Summarizing), work: Work::Summarize { text, screens } },
                )
            } else {
                let count = screens.len();
                save_step(title, config, size, words, transcript, context, screen_dir, count, None)
            }
        },
        (
            PipelineState::Summarizing { size, words, transcript, context, screen_dir, screens },
            PipelineEvent::Summarized(summary),
        ) => save_step(title, config, size, words, transcript, context, screen_dir, screens, summary),
        (PipelineState::Saving { words, title: t, screen_dir, screens }, PipelineEvent::Saved(res)) => match res {
            Err(m) => finish(None, Err(PipelineError::Io(m))),
            Ok(p) => {
                let w = WriteResult { path: p, title: t, word_count: words };
                if should_remove_screens(screens, config) {
                    (PipelineState::Cleaning { result: w }, PipelineAction { report: None, work: Work::RemoveScreens(screen_dir) })
                } else {
                    finish(None, Ok(w))
                }
            },
        },
        (PipelineState::Cleaning { result }, PipelineEvent::Cleaned) => finish(None, Ok(result)),
        (_, _) => finish(None, Err(io_error("unexpected event"))),
    }
}

/// How far processing is from done.
pub open spec fn rank(s: PipelineState) -> nat {
    match s {
        PipelineState::Start => 9,
        PipelineState::Measuring => 8,
        PipelineState::Transcribing { .. } => 7,
        PipelineState::Diarizing { .. } => 6,
        PipelineState::Gathering { .. } => 5,
        PipelineState::Summarizing { .. } => 4,
        PipelineState::Saving { .. } => 3,
        PipelineState::Cleaning { .. } => 2,
        PipelineState::Done => 1,
    }
}

/// Whether `w` is the work state `s` waits on.
pub open spec fn fits(s: PipelineState, w: Work) -> bool {
    match s {
        PipelineState::Start => false,
        PipelineState::Measuring => w is Measure,
        PipelineState::Transcribing { .. } => w is Transcribe,
        PipelineState::Diarizing { .. } => w is Diarize,
        PipelineState::Gathering { .. } => w is Gather,
        PipelineState::Summarizing { .. } => w is Summarize,
        PipelineState::Saving { .. } => w is Save,
        PipelineState::Cleaning { .. } => w is RemoveScreens,
        PipelineState::Done => w is Finish,
    }
}

/// Whether `e` is what doing work `w` gives back.
pub open spec fn answers(w: Work, e: PipelineEvent) -> bool {
    match w {
        Work::Measure(_) => e is Measured,
        Work::Transcribe(_) => e is Transcribed,
        Work::Diarize(_) => e is Diarized,
        Work::Gather => e is Gathered,
        Work::Summarize { .. } => e is Summarized,
        Work::Save { .. } => e is Saved,
        Work::RemoveScreens(_) => e is Cleaned,
        Work::Finish(_) => false,
    }
}

/// Whether `t` is a title processing may give a record: the given title,
/// or a generated one of at most sixty characters.
pub open spec fn title_fits(title: Option<Seq<char>>, t: Seq<char>) -> bool {
    match title {
        Some(x) => t == x,
        None => t.len() <= 60,
    }
}

/// What processing carries along about titles and savable parts.
pub open spec fn carried(title: Option<Seq<char>>, s: PipelineState, w: Work) -> bool {
    &&& s matches PipelineState::Saving { title: t, .. } ==> title_fits(title, t@)
    &&& s matches PipelineState::Cleaning { result } ==> title_fits(title, result.title@)
    &&& w matches Work::Finish(Ok(x)) ==> title_fits(title, x.title@)
    &&& w matches Work::Save { title: t, transcript: tr, context: c, summary: sm, .. } ==> title_fits(
        title,
        t@,
    ) && savable(title, tr@, opt_text(c), sm)
}

/// A step from a state on the event its work gives back moves on: the next
/// work fits the next state, which is nearer done; saving comes only with
/// savable parts, and a result's title is the record's.
pub proof fn lemma_step_moves_on(
    audio_path: Seq<char>,
    content_type: ContentType,
    title: Option<Seq<char>>,
    config: Config,
    s: PipelineState,
    w: Work,
    e: PipelineEvent,
    r: (PipelineState, PipelineAction),
)
    requires
        fits(s, w),
        answers(w, e),
        carried(title, s, w),
        pipeline_next(audio_path, content_type, title, config, s, e, r),
    ensures
        fits(r.0, r.1.work),
        rank(r.0) < rank(s),
        carried(title, r.0, r.1.work),
{
    match r.1.work {
        Work::Save { transcript: tr, context: c, .. } => {
            law_title_fits(tr@, opt_text(c));
        },
        _ => {},
    }
}

/// Whether `steps` is a run of processing: the first step is the one from
/// the start, and each later one is taken, as [`pipeline_next`] decides, on
/// an event that the work before it gave back (`events[i]` answering the
/// work of `steps[i]`).
pub open spec fn is_run(
    audio_path: Seq<char>,
    content_type: ContentType,
    title: Option<Seq<char>>,
    config: Config,
    steps: Seq<(PipelineState, PipelineAction)>,
    events: Seq<PipelineEvent>,
) -> bool {
    &&& steps.len() == events.len() + 1
    &&& pipeline_next(audio_path, content_type, title, config, PipelineState::Start, PipelineEvent::Begin, steps[0])
    &&& forall|i: int|
        0 <= i < events.len() ==> answers(steps[i].1.work, #[trigger] events[i]) && pipeline_next(
            audio_path,
            content_type,
            title,
            config,
            steps[i].0,
            events[i],
            steps[i + 1],
        )
}

/// The stages processing reports, in order: transcribing; diarizing for
/// meetings when diarization is on; summarizing when a summarizer is set;
/// saving.
pub open spec fn stages_for(config: Config, content_type: ContentType) -> Seq<PipelineStage> {
    seq![PipelineStage::Transcribing] + (if config.diarization.engine@ != "none"@ && content_type
        == ContentType::Meeting {
        seq![PipelineStage::Diarizing]
    } else {
        seq![]
    }) + (if config.summarization.engine@ != "none"@ {
        seq![PipelineStage::Summarizing]
    } else {
        seq![]
    }) + seq![PipelineStage::Saving]
}

/// The stages the steps report, in order.
pub open spec fn reports_of(steps: Seq<(PipelineState, PipelineAction)>) -> Seq<PipelineStage>
    decreases steps.len(),
{
    if steps.len() == 0 {
        seq![]
    } else {
        reports_of(steps.drop_last()) + match steps.last().1.report {
            Some(st) => seq![st],
            None => seq![],
        }
    }
}

/// How many of [`stages_for`] are reported by the time processing waits in
/// state `s`.
pub open spec fn stage_count(config: Config, content_type: ContentType, s: PipelineState) -> nat {
    let d: nat = if config.diarization.engine@ != "none"@ && content_type == ContentType::Meeting {
        1
    } else {
        0
    };
    let m: nat = if config.summarization.engine@ != "none"@ {
        1
    } else {
        0
    };
    match s {
        PipelineState::Start => 0,
        PipelineState::Measuring => 0,
        PipelineState::Transcribing { .. } => 1,
        PipelineState::Diarizing { .. } => 1 + d,
        PipelineState::Gathering { .. } => 1 + d,
        PipelineState::Summarizing { .. } => 1 + d + m,
        _ => 2 + d + m,
    }
}

/// Whether `p` is a first part of `q`.
pub open spec fn is_prefix(p: Seq<PipelineStage>, q: Seq<PipelineStage>) -> bool {
    p.len() <= q.len() && q.take(p.len() as int) == p
}

/// What the reports of the first `i + 1` steps of a run are.
pub open spec fn reports_so_far(
    config: Config,
    content_type: ContentType,
    steps: Seq<(PipelineState, PipelineAction)>,
    i: int,
) -> bool {
    let r = reports_of(steps.take(i + 1));
    &&& is_prefix(r, stages_for(config, content_type))
    &&& !(steps[i].0 is Done) ==> r.len() == stage_count(config, content_type, steps[i].0)
    &&& steps[i].0 is Done ==> steps[i].1.work is Finish
    &&& steps[i].1.work matches Work::Finish(Ok(_)) ==> r.len() == stages_for(config, content_type).len()
}

proof fn lemma_reports_take(steps: Seq<(PipelineState, PipelineAction)>, i: int)
    requires
        0 <= i < steps.len(),
    ensures
        reports_of(steps.take(i + 1)) == reports_of(steps.take(i)) + rep(steps[i].1.report),
{
    assert(steps.take(i + 1).drop_last() =~= steps.take(i));
    assert(steps.take(i + 1).last() == steps[i]);
}

/// The stage a step reports, as a sequence of none or one.
pub open spec fn rep(report: Option<PipelineStage>) -> Seq<PipelineStage> {
    match report {
        Some(st) => seq![st],
        None => seq![],
    }
}

/// Where each stage stands in [`stages_for`].
proof fn lemma_stages_at(config: Config, content_type: ContentType)
    ensures
        ({
            let st = stages_for(config, content_type);
            let d: int = if config.diarization.engine@ != "none"@ && content_type == ContentType::Meeting {
                1
            } else {
                0
            };
            let m: int = if config.summarization.engine@ != "none"@ {
                1
            } else {
                0
            };
            &&& st.len() == 2 + d + m
            &&& st[0] == PipelineStage::Transcribing
            &&& d == 1 ==> st[1] == PipelineStage::Diarizing
            &&& m == 1 ==> st[1 + d] == PipelineStage::Summarizing
            &&& st[1 + d + m] == PipelineStage::Saving
        }),
{
    let st = stages_for(config, content_type);
    let diar = config.diarization.engine@ != "none"@ && content_type == ContentType::Meeting;
    let summ = config.summarization.engine@ != "none"@;
    if diar && summ {
        assert(st =~= seq![
            PipelineStage::Transcribing,
            PipelineStage::Diarizing,
            PipelineStage::Summarizing,
            PipelineStage::Saving,
        ]);
    } else if diar {
        assert(st =~= seq![PipelineStage::Transcribing, PipelineStage::Diarizing, PipelineStage::Saving]);
    } else if summ {
        assert(st =~= seq![PipelineStage::Transcribing, PipelineStage::Summarizing, PipelineStage::Saving]);
    } else {
        assert(st =~= seq![PipelineStage::Transcribing, PipelineStage::Saving]);
    }
}

/// What one step reports: the next of [`stages_for`], or nothing.
proof fn lemma_step_reports(
    audio_path: Seq<char>,
    content_type: ContentType,
    title: Option<Seq<char>>,
    config: Config,
    s: PipelineState,
    e: PipelineEvent,
    r: (PipelineState, PipelineAction),
)
    requires
        pipeline_next(audio_path, content_type, title, config, s, e, r),
    ensures
        ({
            let st = stages_for(config, content_type);
            let k = stage_count(config, content_type, s);
            &&& r.0 is Done ==> r.1.work is Finish
            &&& k <= st.len()
            &&& r.1.report matches Some(x) ==> k < st.len() && st[k as int] == x && (if r.0 is Done {
                k + 1 == st.len()
            } else {
                stage_count(config, content_type, r.0) == k + 1
            })
            &&& r.1.report is None ==> (!(r.0 is Done) ==> stage_count(config, content_type, r.0) == k)
            &&& r.1.work matches Work::Finish(Ok(_)) ==> r.1.report is None && k == st.len()
        }),
{
    lemma_stages_at(config, content_type);
}

proof fn lemma_run_reports(
    audio_path: Seq<char>,
    content_type: ContentType,
    title: Option<Seq<char>>,
    config: Config,
    steps: Seq<(PipelineState, PipelineAction)>,
    events: Seq<PipelineEvent>,
    i: int,
)
    requires
        is_run(audio_path, content_type, title, config, steps, events),
        0 <= i < steps.len(),
    ensures
        reports_so_far(config, content_type, steps, i),
    decreases i,
{
    let st = stages_for(config, content_type);
    lemma_reports_take(steps, i);
    let (ps, pe) = if i == 0 {
        (PipelineState::Start, PipelineEvent::Begin)
    } else {
        (steps[i - 1].0, events[i - 1])
    };
    let prev = reports_of(steps.take(i));
    let k = stage_count(config, content_type, ps);
    if i == 0 {
        assert(steps.take(0) =~= Seq::<(PipelineState, PipelineAction)>::empty());
        assert(st.take(0) =~= prev);
    } else {
        lemma_run_reports(audio_path, content_type, title, config, steps, events, i - 1);
        assert(answers(steps[i - 1].1.work, events[i - 1]));
    }
    assert(prev.len() == k && st.take(k as int) == prev);
    assert(pipeline_next(audio_path, content_type, title, config, ps, pe, steps[i]));
    lemma_step_reports(audio_path, content_type, title, config, ps, pe, steps[i]);
    match steps[i].1.report {
        Some(x) => {
            assert(st.take(k + 1 as int) =~= prev + seq![x]);
        },
        None => {
            assert(prev + rep(steps[i].1.report) =~= prev);
        },
    }
}

/// Processing reports its stages in order: every run has reported a first
/// part of [`stages_for`], all of it when it has finished well; and an empty
/// file ends processing with [`TranscribeError::EmptyAudio`] right after it
/// was measured, before any stage is reported.
pub proof fn law_stages_in_order(
    audio_path: Seq<char>,
    content_type: ContentType,
    title: Option<Seq<char>>,
    config: Config,
    steps: Seq<(PipelineState, PipelineAction)>,
    events: Seq<PipelineEvent>,
)
    requires
        is_run(audio_path, content_type, title, config, steps, events),
    ensures
        is_prefix(reports_of(steps), stages_for(config, content_type)),
        steps.last().1.work matches Work::Finish(Ok(_)) ==> reports_of(steps) == stages_for(config, content_type),
        events.len() >= 1 ==> (events[0] matches PipelineEvent::Measured { size: Ok(n), .. } && n == 0 ==> steps.len()
            == 2 && steps.last().1.work == Work::Finish(Err(PipelineError::Transcribe(TranscribeError::EmptyAudio)))
            && reports_of(steps).len() == 0),
{
    let n = steps.len() - 1;
    lemma_run_reports(audio_path, content_type, title, config, steps, events, n);
    assert(steps.take(n + 1) =~= steps);
    if events.len() >= 1 {
        assert(answers(steps[0].1.work, events[0]));
        assert(pipeline_next(audio_path, content_type, title, config, steps[0].0, events[0], steps[1]));
        if events[0] matches PipelineEvent::Measured { size: Ok(z), .. } && z == 0 {
            if events.len() >= 2 {
                assert(answers(steps[1].1.work, events[1]));
            }
            assert(steps.len() == 2);
            lemma_reports_take(steps, 1);
            lemma_reports_take(steps, 0);
            assert(steps.take(0) =~= Seq::<(PipelineState, PipelineAction)>::empty());
            assert(steps.take(2) =~= steps);
            assert(reports_of(steps) =~= Seq::<PipelineStage>::empty());
        }
    }
}

/// How a run of processing ended with `r`: its steps and events are a run
/// (see [`is_run`]) whose last work is to finish with `r`; the stages it
/// reported, in order, are a first part of [`stages_for`], all of them when
/// `r` is a success; and when the file was measured empty, `r` is
/// [`TranscribeError::EmptyAudio`] and no stage was reported.
pub open spec fn run_ends(
    audio_path: Seq<char>,
    content_type: ContentType,
    title: Option<Seq<char>>,
    config: Config,
    steps: Seq<(PipelineState, PipelineAction)>,
    events: Seq<PipelineEvent>,
    r: Result<WriteResult, PipelineError>,
) -> bool {
    &&& is_run(audio_path, content_type, title, config, steps, events)
    &&& steps.last().1.work == Work::Finish(r)
    &&& is_prefix(reports_of(steps), stages_for(config, content_type))
    &&& r is Ok ==> reports_of(steps) == stages_for(config, content_type)
    &&& events.len() >= 1 ==> (events[0] matches PipelineEvent::Measured { size: Ok(n), .. } && n == 0 ==> r
        == Err::<WriteResult, PipelineError>(PipelineError::Transcribe(TranscribeError::EmptyAudio)) && reports_of(
        steps,
    ).len() == 0)
}

} // verus!
