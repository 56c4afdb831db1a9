//! The webmachine decision graph: every decision, where each one leads, and proof that
//! every request reaches an end.
use vstd::prelude::*;

verus! {

/// A node of the decision graph. Each decision but the ends asks one question of the
/// request or the resource and goes one of two ways.
#[derive(Debug, Clone, Copy, PartialEq, Eq, Structural)]
pub enum Decision {
    /// Where every request starts.
    Start,
    /// The end, with the response status.
    End(u16),
    /// The end of an `OPTIONS` request.
    A3Options,
    B3Options,
    B4RequestEntityTooLarge,
    B5UnknownContentType,
    B6UnsupportedContentHeader,
    B7Forbidden,
    B8Authorized,
    B9MalformedRequest,
    B10MethodAllowed,
    B11UriTooLong,
    B12KnownMethod,
    B13Available,
    C3AcceptExists,
    C4AcceptableMediaTypeAvailable,
    D4AcceptLanguageExists,
    D5AcceptableLanguageAvailable,
    E5AcceptCharsetExists,
    E6AcceptableCharsetAvailable,
    F6AcceptEncodingExists,
    F7AcceptableEncodingAvailable,
    G7ResourceExists,
    G8IfMatchExists,
    G9IfMatchStarExists,
    G11EtagInIfMatch,
    H7IfMatchStarExists,
    H10IfUnmodifiedSinceExists,
    H11IfUnmodifiedSinceValid,
    H12LastModifiedGreaterThanUMS,
    I4HasMovedPermanently,
    I7Put,
    I12IfNoneMatchExists,
    I13IfNoneMatchStarExists,
    J18GetHead,
    K13ETagInIfNoneMatch,
    K5HasMovedPermanently,
    K7ResourcePreviouslyExisted,
    L5HasMovedTemporarily,
    L7Post,
    L13IfModifiedSinceExists,
    L14IfModifiedSinceValid,
    L15IfModifiedSinceGreaterThanNow,
    L17IfLastModifiedGreaterThanMS,
    M5Post,
    M7PostToMissingResource,
    M16Delete,
    M20DeleteEnacted,
    N5PostToMissingResource,
    N11Redirect,
    N16Post,
    O14Conflict,
    O16Put,
    P3Conflict,
    P11NewResource,
    O18MultipleRepresentations,
    O20ResponseHasBody,
}

/// Where a decision leads: always to one decision, or to one of two by its outcome.
#[derive(Debug, Clone, Copy, PartialEq, Eq, Structural)]
pub enum Transition {
    To(Decision),
    Branch(Decision, Decision),
}

/// The outcome of a decision: true, false, or a status code that ends the request at once.
#[derive(Debug, Clone, Copy, PartialEq, Eq, Structural)]
pub enum DecisionResult {
    True,
    False,
    StatusCode(u16),
}

/// The ends of the graph.
pub open spec fn is_terminal(d: Decision) -> bool {
    d is End || d is A3Options
}

/// Whether the decision is an end.
pub fn is_terminal_decision(d: Decision) -> (r: bool)
    ensures
        r == is_terminal(d),
{
    match d {
        Decision::End(_) => true,
        Decision::A3Options => true,
        _ => false,
    }
}

/// Where every decision leads; the ends lead nowhere.
pub open spec fn transition_of(d: Decision) -> Option<Transition> {
    match d {
        Decision::Start => Some(Transition::To(Decision::B13Available)),
        Decision::B3Options => Some(Transition::Branch(Decision::A3Options, Decision::C3AcceptExists)),
        Decision::B4RequestEntityTooLarge => Some(Transition::Branch(Decision::End(413), Decision::B3Options)),
        Decision::B5UnknownContentType => Some(Transition::Branch(Decision::End(415), Decision::B4RequestEntityTooLarge)),
        Decision::B6UnsupportedContentHeader => Some(Transition::Branch(Decision::End(501), Decision::B5UnknownContentType)),
        Decision::B7Forbidden => Some(Transition::Branch(Decision::End(403), Decision::B6UnsupportedContentHeader)),
        Decision::B8Authorized => Some(Transition::Branch(Decision::B7Forbidden, Decision::End(401))),
        Decision::B9MalformedRequest => Some(Transition::Branch(Decision::End(400), Decision::B8Authorized)),
        Decision::B10MethodAllowed => Some(Transition::Branch(Decision::B9MalformedRequest, Decision::End(405))),
        Decision::B11UriTooLong => Some(Transition::Branch(Decision::End(414), Decision::B10MethodAllowed)),
        Decision::B12KnownMethod => Some(Transition::Branch(Decision::B11UriTooLong, Decision::End(501))),
        Decision::B13Available => Some(Transition::Branch(Decision::B12KnownMethod, Decision::End(503))),
        Decision::C3AcceptExists => Some(Transition::Branch(Decision::C4AcceptableMediaTypeAvailable, Decision::D4AcceptLanguageExists)),
        Decision::C4AcceptableMediaTypeAvailable => Some(Transition::Branch(Decision::D4AcceptLanguageExists, Decision::End(406))),
        Decision::D4AcceptLanguageExists => Some(Transition::Branch(Decision::D5AcceptableLanguageAvailable, Decision::E5AcceptCharsetExists)),
        Decision::D5AcceptableLanguageAvailable => Some(Transition::Branch(Decision::E5AcceptCharsetExists, Decision::End(406))),
        Decision::E5AcceptCharsetExists => Some(Transition::Branch(Decision::E6AcceptableCharsetAvailable, Decision::F6AcceptEncodingExists)),
        Decision::E6AcceptableCharsetAvailable => Some(Transition::Branch(Decision::F6AcceptEncodingExists, Decision::End(406))),
        Decision::F6AcceptEncodingExists => Some(Transition::Branch(Decision::F7AcceptableEncodingAvailable, Decision::G7ResourceExists)),
        Decision::F7AcceptableEncodingAvailable => Some(Transition::Branch(Decision::G7ResourceExists, Decision::End(406))),
        Decision::G7ResourceExists => Some(Transition::Branch(Decision::G8IfMatchExists, Decision::H7IfMatchStarExists)),
        Decision::G8IfMatchExists => Some(Transition::Branch(Decision::G9IfMatchStarExists, Decision::H10IfUnmodifiedSinceExists)),
        Decision::G9IfMatchStarExists => Some(Transition::Branch(Decision::H10IfUnmodifiedSinceExists, Decision::G11EtagInIfMatch)),
        Decision::G11EtagInIfMatch => Some(Transition::Branch(Decision::H10IfUnmodifiedSinceExists, Decision::End(412))),
        Decision::H7IfMatchStarExists => Some(Transition::Branch(Decision::End(412), Decision::I7Put)),
        Decision::H10IfUnmodifiedSinceExists => Some(Transition::Branch(Decision::H11IfUnmodifiedSinceValid, Decision::I12IfNoneMatchExists)),
        Decision::H11IfUnmodifiedSinceValid => Some(Transition::Branch(Decision::H12LastModifiedGreaterThanUMS, Decision::I12IfNoneMatchExists)),
        Decision::H12LastModifiedGreaterThanUMS => Some(Transition::Branch(Decision::End(412), Decision::I12IfNoneMatchExists)),
        Decision::I4HasMovedPermanently => Some(Transition::Branch(Decision::End(301), Decision::P3Conflict)),
        Decision::I7Put => Some(Transition::Branch(Decision::I4HasMovedPermanently, Decision::K7ResourcePreviouslyExisted)),
        Decision::I12IfNoneMatchExists => Some(Transition::Branch(Decision::I13IfNoneMatchStarExists, Decision::L13IfModifiedSinceExists)),
        Decision::I13IfNoneMatchStarExists => Some(Transition::Branch(Decision::J18GetHead, Decision::K13ETagInIfNoneMatch)),
        Decision::J18GetHead => Some(Transition::Branch(Decision::End(304), Decision::End(412))),
        Decision::K13ETagInIfNoneMatch => Some(Transition::Branch(Decision::J18GetHead, Decision::L13IfModifiedSinceExists)),
        Decision::K5HasMovedPermanently => Some(Transition::Branch(Decision::End(301), Decision::L5HasMovedTemporarily)),
        Decision::K7ResourcePreviouslyExisted => Some(Transition::Branch(Decision::K5HasMovedPermanently, Decision::L7Post)),
        Decision::L5HasMovedTemporarily => Some(Transition::Branch(Decision::End(307), Decision::M5Post)),
        Decision::L7Post => Some(Transition::Branch(Decision::M7PostToMissingResource, Decision::End(404))),
        Decision::L13IfModifiedSinceExists => Some(Transition::Branch(Decision::L14IfModifiedSinceValid, Decision::M16Delete)),
        Decision::L14IfModifiedSinceValid => Some(Transition::Branch(Decision::L15IfModifiedSinceGreaterThanNow, Decision::M16Delete)),
        Decision::L15IfModifiedSinceGreaterThanNow => Some(Transition::Branch(Decision::M16Delete, Decision::L17IfLastModifiedGreaterThanMS)),
        Decision::L17IfLastModifiedGreaterThanMS => Some(Transition::Branch(Decision::M16Delete, Decision::End(304))),
        Decision::M5Post => Some(Transition::Branch(Decision::N5PostToMissingResource, Decision::End(410))),
        Decision::M7PostToMissingResource => Some(Transition::Branch(Decision::N11Redirect, Decision::End(404))),
        Decision::M16Delete => Some(Transition::Branch(Decision::M20DeleteEnacted, Decision::N16Post)),
        Decision::M20DeleteEnacted => Some(Transition::Branch(Decision::O20ResponseHasBody, Decision::End(202))),
        Decision::N5PostToMissingResource => Some(Transition::Branch(Decision::N11Redirect, Decision::End(410))),
        Decision::N11Redirect => Some(Transition::Branch(Decision::End(303), Decision::P11NewResource)),
        Decision::N16Post => Some(Transition::Branch(Decision::N11Redirect, Decision::O16Put)),
        Decision::O14Conflict => Some(Transition::Branch(Decision::End(409), Decision::P11NewResource)),
        Decision::O16Put => Some(Transition::Branch(Decision::O14Conflict, Decision::O18MultipleRepresentations)),
        Decision::P3Conflict => Some(Transition::Branch(Decision::End(409), Decision::P11NewResource)),
        Decision::P11NewResource => Some(Transition::Branch(Decision::End(201), Decision::O20ResponseHasBody)),
        Decision::O18MultipleRepresentations => Some(Transition::Branch(Decision::End(300), Decision::End(200))),
        Decision::O20ResponseHasBody => Some(Transition::Branch(Decision::O18MultipleRepresentations, Decision::End(204))),
        Decision::End(_) => None,
        Decision::A3Options => None,
    }
}

/// Where the decision leads.
pub fn transition(d: Decision) -> (r: Option<Transition>)
    ensures
        r == transition_of(d),
{
    match d {
        Decision::Start => Some(Transition::To(Decision::B13Available)),
        Decision::B3Options => Some(Transition::Branch(Decision::A3Options, Decision::C3AcceptExists)),
        Decision::B4RequestEntityTooLarge => Some(Transition::Branch(Decision::End(413), Decision::B3Options)),
        Decision::B5UnknownContentType => Some(Transition::Branch(Decision::End(415), Decision::B4RequestEntityTooLarge)),
        Decision::B6UnsupportedContentHeader => Some(Transition::Branch(Decision::End(501), Decision::B5UnknownContentType)),
        Decision::B7Forbidden => Some(Transition::Branch(Decision::End(403), Decision::B6UnsupportedContentHeader)),
        Decision::B8Authorized => Some(Transition::Branch(Decision::B7Forbidden, Decision::End(401))),
        Decision::B9MalformedRequest => Some(Transition::Branch(Decision::End(400), Decision::B8Authorized)),
        Decision::B10MethodAllowed => Some(Transition::Branch(Decision::B9MalformedRequest, Decision::End(405))),
        Decision::B11UriTooLong => Some(Transition::Branch(Decision::End(414), Decision::B10MethodAllowed)),
        Decision::B12KnownMethod => Some(Transition::Branch(Decision::B11UriTooLong, Decision::End(501))),
        Decision::B13Available => Some(Transition::Branch(Decision::B12KnownMethod, Decision::End(503))),
        Decision::C3AcceptExists => Some(Transition::Branch(Decision::C4AcceptableMediaTypeAvailable, Decision::D4AcceptLanguageExists)),
        Decision::C4AcceptableMediaTypeAvailable => Some(Transition::Branch(Decision::D4AcceptLanguageExists, Decision::End(406))),
        Decision::D4AcceptLanguageExists => Some(Transition::Branch(Decision::D5AcceptableLanguageAvailable, Decision::E5AcceptCharsetExists)),
        Decision::D5AcceptableLanguageAvailable => Some(Transition::Branch(Decision::E5AcceptCharsetExists, Decision::End(406))),
        Decision::E5AcceptCharsetExists => Some(Transition::Branch(Decision::E6AcceptableCharsetAvailable, Decision::F6AcceptEncodingExists)),
        Decision::E6AcceptableCharsetAvailable => Some(Transition::Branch(Decision::F6AcceptEncodingExists, Decision::End(406))),
        Decision::F6AcceptEncodingExists => Some(Transition::Branch(Decision::F7AcceptableEncodingAvailable, Decision::G7ResourceExists)),
        Decision::F7AcceptableEncodingAvailable => Some(Transition::Branch(Decision::G7ResourceExists, Decision::End(406))),
        Decision::G7ResourceExists => Some(Transition::Branch(Decision::G8IfMatchExists, Decision::H7IfMatchStarExists)),
        Decision::G8IfMatchExists => Some(Transition::Branch(Decision::G9IfMatchStarExists, Decision::H10IfUnmodifiedSinceExists)),
        Decision::G9IfMatchStarExists => Some(Transition::Branch(Decision::H10IfUnmodifiedSinceExists, Decision::G11EtagInIfMatch)),
        Decision::G11EtagInIfMatch => Some(Transition::Branch(Decision::H10IfUnmodifiedSinceExists, Decision::End(412))),
        Decision::H7IfMatchStarExists => Some(Transition::Branch(Decision::End(412), Decision::I7Put)),
        Decision::H10IfUnmodifiedSinceExists => Some(Transition::Branch(Decision::H11IfUnmodifiedSinceValid, Decision::I12IfNoneMatchExists)),
        Decision::H11IfUnmodifiedSinceValid => Some(Transition::Branch(Decision::H12LastModifiedGreaterThanUMS, Decision::I12IfNoneMatchExists)),
        Decision::H12LastModifiedGreaterThanUMS => Some(Transition::Branch(Decision::End(412), Decision::I12IfNoneMatchExists)),
        Decision::I4HasMovedPermanently => Some(Transition::Branch(Decision::End(301), Decision::P3Conflict)),
        Decision::I7Put => Some(Transition::Branch(Decision::I4HasMovedPermanently, Decision::K7ResourcePreviouslyExisted)),
        Decision::I12IfNoneMatchExists => Some(Transition::Branch(Decision::I13IfNoneMatchStarExists, Decision::L13IfModifiedSinceExists)),
        Decision::I13IfNoneMatchStarExists => Some(Transition::Branch(Decision::J18GetHead, Decision::K13ETagInIfNoneMatch)),
        Decision::J18GetHead => Some(Transition::Branch(Decision::End(304), Decision::End(412))),
        Decision::K13ETagInIfNoneMatch => Some(Transition::Branch(Decision::J18GetHead, Decision::L13IfModifiedSinceExists)),
        Decision::K5HasMovedPermanently => Some(Transition::Branch(Decision::End(301), Decision::L5HasMovedTemporarily)),
        Decision::K7ResourcePreviouslyExisted => Some(Transition::Branch(Decision::K5HasMovedPermanently, Decision::L7Post)),
        Decision::L5HasMovedTemporarily => Some(Transition::Branch(Decision::End(307), Decision::M5Post)),
        Decision::L7Post => Some(Transition::Branch(Decision::M7PostToMissingResource, Decision::End(404))),
        Decision::L13IfModifiedSinceExists => Some(Transition::Branch(Decision::L14IfModifiedSinceValid, Decision::M16Delete)),
        Decision::L14IfModifiedSinceValid => Some(Transition::Branch(Decision::L15IfModifiedSinceGreaterThanNow, Decision::M16Delete)),
        Decision::L15IfModifiedSinceGreaterThanNow => Some(Transition::Branch(Decision::M16Delete, Decision::L17IfLastModifiedGreaterThanMS)),
        Decision::L17IfLastModifiedGreaterThanMS => Some(Transition::Branch(Decision::M16Delete, Decision::End(304))),
        Decision::M5Post => Some(Transition::Branch(Decision::N5PostToMissingResource, Decision::End(410))),
        Decision::M7PostToMissingResource => Some(Transition::Branch(Decision::N11Redirect, Decision::End(404))),
        Decision::M16Delete => Some(Transition::Branch(Decision::M20DeleteEnacted, Decision::N16Post)),
        Decision::M20DeleteEnacted => Some(Transition::Branch(Decision::O20ResponseHasBody, Decision::End(202))),
        Decision::N5PostToMissingResource => Some(Transition::Branch(Decision::N11Redirect, Decision::End(410))),
        Decision::N11Redirect => Some(Transition::Branch(Decision::End(303), Decision::P11NewResource)),
        Decision::N16Post => Some(Transition::Branch(Decision::N11Redirect, Decision::O16Put)),
        Decision::O14Conflict => Some(Transition::Branch(Decision::End(409), Decision::P11NewResource)),
        Decision::O16Put => Some(Transition::Branch(Decision::O14Conflict, Decision::O18MultipleRepresentations)),
        Decision::P3Conflict => Some(Transition::Branch(Decision::End(409), Decision::P11NewResource)),
        Decision::P11NewResource => Some(Transition::Branch(Decision::End(201), Decision::O20ResponseHasBody)),
        Decision::O18MultipleRepresentations => Some(Transition::Branch(Decision::End(300), Decision::End(200))),
        Decision::O20ResponseHasBody => Some(Transition::Branch(Decision::O18MultipleRepresentations, Decision::End(204))),
        Decision::End(_) => None,
        Decision::A3Options => None,
    }
}

/// The length of the longest path from the decision to an end.
pub open spec fn rank(d: Decision) -> nat {
    match d {
        Decision::Start => 41,
        Decision::B3Options => 30,
        Decision::B4RequestEntityTooLarge => 31,
        Decision::B5UnknownContentType => 32,
        Decision::B6UnsupportedContentHeader => 33,
        Decision::B7Forbidden => 34,
        Decision::B8Authorized => 35,
        Decision::B9MalformedRequest => 36,
        Decision::B10MethodAllowed => 37,
        Decision::B11UriTooLong => 38,
        Decision::B12KnownMethod => 39,
        Decision::B13Available => 40,
        Decision::C3AcceptExists => 29,
        Decision::C4AcceptableMediaTypeAvailable => 28,
        Decision::D4AcceptLanguageExists => 27,
        Decision::D5AcceptableLanguageAvailable => 26,
        Decision::E5AcceptCharsetExists => 25,
        Decision::E6AcceptableCharsetAvailable => 24,
        Decision::F6AcceptEncodingExists => 23,
        Decision::F7AcceptableEncodingAvailable => 22,
        Decision::G7ResourceExists => 21,
        Decision::G8IfMatchExists => 20,
        Decision::G9IfMatchStarExists => 19,
        Decision::G11EtagInIfMatch => 18,
        Decision::H7IfMatchStarExists => 11,
        Decision::H10IfUnmodifiedSinceExists => 17,
        Decision::H11IfUnmodifiedSinceValid => 16,
        Decision::H12LastModifiedGreaterThanUMS => 15,
        Decision::I4HasMovedPermanently => 5,
        Decision::I7Put => 10,
        Decision::I12IfNoneMatchExists => 14,
        Decision::I13IfNoneMatchStarExists => 13,
        Decision::J18GetHead => 1,
        Decision::K13ETagInIfNoneMatch => 12,
        Decision::K5HasMovedPermanently => 8,
        Decision::K7ResourcePreviouslyExisted => 9,
        Decision::L5HasMovedTemporarily => 7,
        Decision::L7Post => 6,
        Decision::L13IfModifiedSinceExists => 11,
        Decision::L14IfModifiedSinceValid => 10,
        Decision::L15IfModifiedSinceGreaterThanNow => 9,
        Decision::L17IfLastModifiedGreaterThanMS => 8,
        Decision::M5Post => 6,
        Decision::M7PostToMissingResource => 5,
        Decision::M16Delete => 7,
        Decision::M20DeleteEnacted => 3,
        Decision::N5PostToMissingResource => 5,
        Decision::N11Redirect => 4,
        Decision::N16Post => 6,
        Decision::O14Conflict => 4,
        Decision::O16Put => 5,
        Decision::P3Conflict => 4,
        Decision::P11NewResource => 3,
        Decision::O18MultipleRepresentations => 1,
        Decision::O20ResponseHasBody => 2,
        Decision::End(_) => 0,
        Decision::A3Options => 0,
    }
}

/// The decision that follows `d` with the outcome `res`; an end stays where it is.
pub open spec fn next_of(d: Decision, res: DecisionResult) -> Decision {
    match transition_of(d) {
        Some(Transition::To(t)) => t,
        Some(Transition::Branch(t, f)) => match res {
            DecisionResult::True => t,
            DecisionResult::False => f,
            DecisionResult::StatusCode(code) => Decision::End(code),
        },
        None => d,
    }
}

/// Every decision that is not an end has a transition, and each step goes to a decision of
/// lower rank.
pub proof fn lemma_step_descends(d: Decision, res: DecisionResult)
    requires
        !is_terminal(d),
    ensures
        transition_of(d) is Some,
        rank(next_of(d, res)) < rank(d),
{
}

/// The decision that follows `d` with the outcome `res`.
pub fn next_decision(d: Decision, res: DecisionResult) -> (r: Decision)
    ensures
        r == next_of(d, res),
        !is_terminal(d) ==> rank(r) < rank(d),
{
    proof {
        if !is_terminal(d) {
            lemma_step_descends(d, res);
        }
    }
    match transition(d) {
        Some(Transition::To(t)) => t,
        Some(Transition::Branch(t, f)) => match res {
            DecisionResult::True => t,
            DecisionResult::False => f,
            DecisionResult::StatusCode(code) => Decision::End(code),
        },
        None => d,
    }
}

/// Where the machine stands after taking the outcomes in order from `d`, stopping at an end.
pub open spec fn run(d: Decision, results: Seq<DecisionResult>) -> Decision
    decreases results.len(),
{
    if results.len() == 0 || is_terminal(d) {
        d
    } else {
        run(next_of(d, results[0]), results.drop_first())
    }
}

/// From a decision of rank `n`, any `n` outcomes lead to an end.
pub proof fn lemma_run_reaches_end(d: Decision, results: Seq<DecisionResult>)
    requires
        rank(d) <= results.len(),
    ensures
        is_terminal(run(d, results)),
    decreases results.len(),
{
    if !is_terminal(d) {
        lemma_step_descends(d, results[0]);
        lemma_run_reaches_end(next_of(d, results[0]), results.drop_first());
    }
}

/// The most transitions a request may take.
pub const MAX_STATE_MACHINE_TRANSITIONS: usize = 100;

/// Whatever the request and the resource answer, the machine reaches an end from the start
/// within `rank(Start)` (41) transitions, well within `MAX_STATE_MACHINE_TRANSITIONS`.
pub proof fn lemma_state_machine_terminates(results: Seq<DecisionResult>)
    requires
        results.len() >= rank(Decision::Start),
    ensures
        is_terminal(run(Decision::Start, results)),
        rank(Decision::Start) < MAX_STATE_MACHINE_TRANSITIONS,
{
    lemma_run_reaches_end(Decision::Start, results);
}

} // verus!
