//! Whether PipeWire is the active audio server.

use vstd::prelude::*;
use crate::cmd::{text_outcome, CommandLine};
use crate::error::{BackendError, BackendErrorView};
use crate::text::{
    contains_text, has_prefix, lines, lower, owned, split_lines, text_contains, texts, to_lower,
    trim, trimmed, without_prefix,
};

verus! {

/// How long a detection is believed: two seconds, in nanoseconds.
pub const PIPEWIRE_DETECTION_CACHE_TTL: u64 = 2_000_000_000;

/// What follows `Server Name:` on the first line that begins so.
pub open spec fn server_name(list: Seq<Seq<char>>) -> Option<Seq<char>>
    decreases list.len(),
{
    if list.len() == 0 {
        None
    } else if has_prefix(list[0], "Server Name:"@) {
        Some(trim(list[0].skip("Server Name:"@.len() as int)))
    } else {
        server_name(list.drop_first())
    }
}

/// What the answer to `pactl info` says of the server.
pub open spec fn server_is_pipewire(info: Result<Seq<char>, BackendErrorView>) -> Result<
    bool,
    BackendErrorView,
> {
    match info {
        Ok(info) => match server_name(lines(info)) {
            Some(name) => Ok(contains_text(lower(name), "pipewire"@)),
            None => Err(
                BackendErrorView::InvalidOutput("pactl"@, "missing `Server Name:` line"@),
            ),
        },
        Err(e) => Err(e),
    }
}

/// The command whose answer [`detect_pipewire`] reads.
pub fn detection_command() -> (c: CommandLine)
    ensures
        c@ == ("pactl"@, seq!["info"@]),
{
    let c = CommandLine { program: "pactl", args: vec![owned("info")] };
    assert(c@.1 =~= seq!["info"@]);
    c
}

fn find_server_name(list: &Vec<String>) -> (r: Option<String>)
    ensures
        crate::text::opt_text(r) == server_name(texts(list@)),
{
    let ghost all = texts(list@);
    let mut i: usize = 0;
    assert(all.skip(0) =~= all);
    while i < list.len()
        invariant
            i <= list@.len(),
            all == texts(list@),
            server_name(all) == server_name(all.skip(i as int)),
        decreases list@.len() - i,
    {
        assert(all.skip(i as int)[0] == list@[i as int]@);
        assert(all.skip(i as int).drop_first() =~= all.skip(i + 1));
        match without_prefix(list[i].as_str(), "Server Name:") {
            Some(rest) => {
                return Some(trimmed(rest.as_str()));
            },
            None => {},
        }
        i = i + 1;
    }
    None
}

/// Reads the answer to `pactl info`.
pub fn detect_pipewire(info: Result<String, BackendError>) -> (r: Result<bool, BackendError>)
    ensures
        crate::error::outcome(r) == server_is_pipewire(text_outcome(info)),
{
    match info {
        Ok(info) => {
            let list = split_lines(info.as_str());
            match find_server_name(&list) {
                Some(name) => {
                    let lowered = to_lower(name.as_str());
                    Ok(text_contains(lowered.as_str(), "pipewire"))
                },
                None => Err(
                    BackendError::InvalidOutput("pactl", owned("missing `Server Name:` line")),
                ),
            }
        },
        Err(err) => Err(err),
    }
}

/// The last detection and the moment it was made, in nanoseconds of a clock
/// that never runs back.
#[derive(Debug, Clone, Copy, PartialEq, Eq)]
pub struct DetectionCache {
    pub last: Option<(bool, u64)>,
}

pub enum DetectionEvent {
    /// Someone asks whether PipeWire is there.
    Asked { now: u64 },
    /// The detection that was asked for has come back.
    Detected { found: Result<bool, BackendError>, now: u64 },
}

#[derive(Debug, Clone, Copy, PartialEq, Eq, Structural)]
pub enum DetectionStep {
    /// This is the answer.
    Answer(bool),
    /// Detect afresh and report what came of it.
    Detect,
}

/// The remembered answer, while it is fresh.
pub open spec fn fresh(cache: DetectionCache, now: u64) -> Option<bool> {
    match cache.last {
        Some((value, checked_at)) => if now - checked_at < PIPEWIRE_DETECTION_CACHE_TTL {
            Some(value)
        } else {
            None
        },
        None => None,
    }
}

/// What comes of a question or of a detection. A detection that fails counts as
/// a no.
pub open spec fn detection_transition(cache: DetectionCache, event: DetectionEvent) -> (
    DetectionCache,
    DetectionStep,
) {
    match event {
        DetectionEvent::Asked { now } => (
            cache,
            match fresh(cache, now) {
                Some(value) => DetectionStep::Answer(value),
                None => DetectionStep::Detect,
            },
        ),
        DetectionEvent::Detected { found, now } => {
            let value = found == Ok::<bool, BackendError>(true);
            (DetectionCache { last: Some((value, now)) }, DetectionStep::Answer(value))
        },
    }
}

impl DetectionCache {
    pub fn new() -> (r: Self)
        ensures
            r.last is None,
    {
        DetectionCache { last: None }
    }
}

/// Whether PipeWire is there: the remembered answer while it is fresh, and else
/// a new one. A detection that fails counts as a no.
pub fn has_pipewire(cache: &mut DetectionCache, event: DetectionEvent) -> (step: DetectionStep)
    ensures
        (*final(cache), step) == detection_transition(*old(cache), event),
{
    match event {
        DetectionEvent::Asked { now } => {
            match cache.last {
                Some((value, checked_at)) => {
                    if now < checked_at || now - checked_at < PIPEWIRE_DETECTION_CACHE_TTL {
                        DetectionStep::Answer(value)
                    } else {
                        DetectionStep::Detect
                    }
                },
                None => DetectionStep::Detect,
            }
        },
        DetectionEvent::Detected { found, now } => {
            let value = match found {
                Ok(value) => value,
                Err(_) => false,
            };
            cache.last = Some((value, now));
            DetectionStep::Answer(value)
        },
    }
}

pub fn ensure_pipewire(found: bool) -> (r: Result<(), BackendError>)
    ensures
        crate::error::outcome(r) == (if found {
            Ok::<(), BackendErrorView>(())
        } else {
            Err(BackendErrorView::Unsupported)
        }),
{
    if found {
        Ok(())
    } else {
        Err(BackendError::Unsupported)
    }
}

/// For two seconds after a detection every question gets its answer, and the
/// first question after that brings a new one.
pub proof fn detection_is_believed_for_two_seconds(value: bool, checked_at: u64, now: u64)
    ensures
        fresh(DetectionCache { last: Some((value, checked_at)) }, now) == (if now < checked_at
            + 2_000_000_000 {
            Some(value)
        } else {
            None
        }),
{
}

/// The server is PipeWire exactly if the first line that begins with
/// `Server Name:` says so behind these words, in whatever case; without such a
/// line the answer makes no sense, and a fault of the command stays a fault.
pub proof fn the_server_is_what_its_line_says(
    info: Seq<char>,
    k: int,
    name: Seq<char>,
    e: BackendErrorView,
)
    ensures
        0 <= k < lines(info).len() && lines(info)[k] == "Server Name:"@ + name && (forall|j: int|
            0 <= j < k ==> !"Server Name:"@.is_prefix_of(#[trigger] lines(info)[j]))
            ==> server_is_pipewire(Ok(info)) == Ok::<bool, BackendErrorView>(
            contains_text(lower(trim(name)), "pipewire"@),
        ),
        (forall|j: int|
            0 <= j < lines(info).len() ==> !"Server Name:"@.is_prefix_of(
                #[trigger] lines(info)[j],
            )) ==> server_is_pipewire(Ok(info)) == Err::<bool, BackendErrorView>(
            BackendErrorView::InvalidOutput("pactl"@, "missing `Server Name:` line"@),
        ),
        server_is_pipewire(Err(e)) == Err::<bool, BackendErrorView>(e),
{
    lemma_server_name(lines(info), k, name);
}

proof fn lemma_server_name(list: Seq<Seq<char>>, k: int, name: Seq<char>)
    ensures
        0 <= k < list.len() && list[k] == "Server Name:"@ + name && (forall|j: int|
            0 <= j < k ==> !"Server Name:"@.is_prefix_of(#[trigger] list[j])) ==> server_name(list)
            == Some(trim(name)),
        (forall|j: int| 0 <= j < list.len() ==> !"Server Name:"@.is_prefix_of(#[trigger] list[j]))
            ==> server_name(list) is None,
    decreases list.len(),
{
    let words = "Server Name:"@;
    if list.len() > 0 {
        let rest = list.drop_first();
        assert forall|j: int| 0 <= j < rest.len() implies #[trigger] rest[j] == list[j + 1] by {}
        lemma_server_name(rest, k - 1, name);
        assert(has_prefix(list[0], words) == words.is_prefix_of(list[0])) by {
            if words.is_prefix_of(list[0]) {
                assert(list[0].take(words.len() as int) =~= words);
            }
        }
        if 0 <= k < list.len() && list[k] == words + name && (forall|j: int|
            0 <= j < k ==> !words.is_prefix_of(#[trigger] list[j])) {
            if k == 0 {
                assert(words.is_prefix_of(words + name));
                assert((words + name).skip(words.len() as int) =~= name);
            } else {
                assert(!words.is_prefix_of(list[0]));
                assert forall|j: int| 0 <= j < k - 1 implies !words.is_prefix_of(
                    #[trigger] rest[j],
                ) by {
                    assert(!words.is_prefix_of(list[j + 1]));
                }
            }
        }
        if forall|j: int| 0 <= j < list.len() ==> !words.is_prefix_of(#[trigger] list[j]) {
            assert(!words.is_prefix_of(list[0]));
            assert forall|j: int| 0 <= j < rest.len() implies !words.is_prefix_of(
                #[trigger] rest[j],
            ) by {
                assert(!words.is_prefix_of(list[j + 1]));
            }
        }
    }
}

/// A detection is answered as it came out, and a failed one with a no; whoever
/// asks within two seconds gets the same answer, and whoever asks later, or
/// before any detection, brings a new one. Asking changes nothing.
pub proof fn detections_are_answered_and_remembered(
    cache: DetectionCache,
    value: bool,
    e: BackendError,
    now: u64,
    later: u64,
)
    ensures
        ({
            let (after, step) = detection_transition(
                cache,
                DetectionEvent::Detected { found: Ok(value), now },
            );
            let (again, answer) = detection_transition(after, DetectionEvent::Asked { now: later });
            &&& step == DetectionStep::Answer(value)
            &&& again == after
            &&& answer == (if later < now + 2_000_000_000 {
                DetectionStep::Answer(value)
            } else {
                DetectionStep::Detect
            })
        }),
        ({
            let (after, step) = detection_transition(
                cache,
                DetectionEvent::Detected { found: Err(e), now },
            );
            let (again, answer) = detection_transition(after, DetectionEvent::Asked { now: later });
            &&& step == DetectionStep::Answer(false)
            &&& again == after
            &&& later < now + 2_000_000_000 ==> answer == DetectionStep::Answer(false)
        }),
        detection_transition(DetectionCache { last: None }, DetectionEvent::Asked { now }) == (
            DetectionCache { last: None },
            DetectionStep::Detect,
        ),
{
}

/// Where PipeWire is there nothing is wrong, and where it is not that is the
/// error.
pub proof fn a_missing_server_is_the_error(
    there: Result<(), BackendError>,
    missing: Result<(), BackendError>,
    c: CommandLine,
)
    requires
        call_ensures(ensure_pipewire, (true,), there),
        call_ensures(ensure_pipewire, (false,), missing),
        call_ensures(detection_command, (), c),
    ensures
        there is Ok,
        missing matches Err(e) && e@ == BackendErrorView::Unsupported,
        c@ == ("pactl"@, seq!["info"@]),
{
}

/// Nothing is remembered before the first detection.
pub proof fn nothing_is_detected_at_first(cache: DetectionCache, now: u64)
    requires
        call_ensures(DetectionCache::new, (), cache),
    ensures
        detection_transition(cache, DetectionEvent::Asked { now }).1 == DetectionStep::Detect,
{
}

} // verus!
