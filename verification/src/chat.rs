//! One request of the chat service as a sequence of decisions. The caller
//! does the outside work (embedding, scoring, the model call) and reports each
//! outcome as an event; every step here runs to completion without waiting, so
//! exclusive access to the session is needed only for the length of one call.

use vstd::prelude::*;
use vstd::string::*;
use crate::context::{ModelInput, assemble, assembled};
use crate::ranker::{RankError, RankedMatch, check_shape, is_top_k, shape_fits, top_k};
use crate::session::{MessageView, Role, SessionState};
use crate::similarity::Similarity;
use crate::store::{EntityView, VectorStore};

verus! {

/// Why a request got no answer.
#[derive(Debug)]
pub enum ChatError {
    /// The query could not be embedded; the text is the embedder's reason.
    Embedding(String),
    /// The retrieval was refused.
    Retrieval(RankError),
    /// The model call failed; the text is the model's reason.
    Model(String),
}

/// Where a request stands.
#[derive(Debug)]
pub enum Turn {
    /// The query is with the embedder.
    AwaitingEmbedding { query: String },
    /// The embedded query is being scored against every stored record.
    AwaitingScores { query: String, dimension: usize },
    /// The assembled input is with the model.
    AwaitingModel,
    /// The request has been answered or has failed.
    Finished,
}

/// What the outside work reported.
#[derive(Debug)]
pub enum Event {
    /// The embedder returned a vector of `dimension` components.
    Embedded { dimension: usize },
    EmbeddingFailed { reason: String },
    /// `scores[i]` is the similarity of the query to the record at `i`.
    Scored { scores: Vec<Similarity> },
    Completed { answer: String },
    ModelFailed { reason: String },
}

/// What the caller is to do next.
#[derive(Debug)]
pub enum Action {
    /// Embed `text` and report `Embedded` or `EmbeddingFailed`.
    Embed { text: String },
    /// Score the embedded query against every stored record and report `Scored`.
    Score { dimension: usize },
    /// Call the model on `input` and report `Completed` or `ModelFailed`.
    Complete { input: ModelInput },
    /// Reply with the answer.
    Answer { text: String },
    /// Reply with the error; `text` is what the user is shown.
    Fail { error: ChatError, text: String },
    /// The event does not belong to this point of the request; nothing changed.
    Ignore,
}

/// What the user is shown, and what the history records in place of an
/// answer, when a request fails.
pub open spec fn failure_text(error: ChatError) -> Seq<char> {
    match error {
        ChatError::Embedding(reason) => "Error: "@ + reason@,
        ChatError::Model(reason) => "Error: "@ + reason@,
        ChatError::Retrieval(RankError::ShapeMismatch { .. }) => "Error: the query and the stored vectors differ in dimension"@,
        ChatError::Retrieval(RankError::ScoreCount { .. }) => "Error: the scores do not cover the store"@,
    }
}

/// The text of `failure_text`.
pub fn describe(error: &ChatError) -> (text: String)
    ensures
        text@ == failure_text(*error),
{
    match error {
        ChatError::Embedding(reason) => String::from_str("Error: ").concat(reason.as_str()),
        ChatError::Model(reason) => String::from_str("Error: ").concat(reason.as_str()),
        ChatError::Retrieval(RankError::ShapeMismatch { .. }) => String::from_str(
            "Error: the query and the stored vectors differ in dimension",
        ),
        ChatError::Retrieval(RankError::ScoreCount { .. }) => String::from_str(
            "Error: the scores do not cover the store",
        ),
    }
}

/// The request ends with `error`: the history gains the failure text as the
/// model's message, and the caller is told to reply with the error.
pub open spec fn fails_with(
    before: Seq<MessageView>,
    after: Seq<MessageView>,
    next: Turn,
    action: Action,
    error: ChatError,
) -> bool {
    &&& after == before.push(MessageView { role: Role::AI, text: failure_text(error) })
    &&& next is Finished
    &&& action matches Action::Fail { error: told, text } && told == error && text@
        == failure_text(error)
}

/// The step that `event` causes at `turn`: `before` and `after` are the
/// history around it, `next` and `action` what it yields.
pub open spec fn advances(
    turn: Turn,
    event: Event,
    store: Seq<EntityView>,
    k: usize,
    limit: Option<usize>,
    before: Seq<MessageView>,
    after: Seq<MessageView>,
    next: Turn,
    action: Action,
) -> bool {
    match (turn, event) {
        (Turn::AwaitingEmbedding { query }, Event::Embedded { dimension }) => {
            if shape_fits(store, dimension as nat) {
                &&& after == before
                &&& next == (Turn::AwaitingScores { query, dimension })
                &&& action == (Action::Score { dimension })
            } else {
                fails_with(
                    before,
                    after,
                    next,
                    action,
                    ChatError::Retrieval(
                        RankError::ShapeMismatch {
                            expected: store[0].vector.len() as usize,
                            found: dimension,
                        },
                    ),
                )
            }
        },
        (Turn::AwaitingEmbedding { .. }, Event::EmbeddingFailed { reason }) => fails_with(
            before,
            after,
            next,
            action,
            ChatError::Embedding(reason),
        ),
        (Turn::AwaitingScores { query, dimension }, Event::Scored { scores }) => {
            if !shape_fits(store, dimension as nat) {
                fails_with(
                    before,
                    after,
                    next,
                    action,
                    ChatError::Retrieval(
                        RankError::ShapeMismatch {
                            expected: store[0].vector.len() as usize,
                            found: dimension,
                        },
                    ),
                )
            } else if scores@.len() != store.len() {
                fails_with(
                    before,
                    after,
                    next,
                    action,
                    ChatError::Retrieval(
                        RankError::ScoreCount {
                            expected: store.len() as usize,
                            found: scores@.len() as usize,
                        },
                    ),
                )
            } else {
                &&& after == before
                &&& next is AwaitingModel
                &&& action matches Action::Complete { input } && exists|matches: Seq<RankedMatch>|
                    #[trigger] is_top_k(store, scores@, k as nat, matches) && assembled(
                        input,
                        query@,
                        matches,
                        before,
                        limit,
                    )
            }
        },
        (Turn::AwaitingModel, Event::Completed { answer }) => {
            &&& after == before.push(MessageView { role: Role::AI, text: answer@ })
            &&& next is Finished
            &&& action == (Action::Answer { text: answer })
        },
        (Turn::AwaitingModel, Event::ModelFailed { reason }) => fails_with(
            before,
            after,
            next,
            action,
            ChatError::Model(reason),
        ),
        _ => after == before && next == turn && action is Ignore,
    }
}

/// A step never rewrites the history: what was there stays in front, and at
/// most one message is added. The added message is the model's, and it is
/// added exactly when the step tells the caller to reply.
pub proof fn lemma_step_appends_reply(
    turn: Turn,
    event: Event,
    store: Seq<EntityView>,
    k: usize,
    limit: Option<usize>,
    before: Seq<MessageView>,
    after: Seq<MessageView>,
    next: Turn,
    action: Action,
)
    requires
        advances(turn, event, store, k, limit, before, after, next, action),
    ensures
        before.is_prefix_of(after),
        after.len() <= before.len() + 1,
        (action is Answer || action is Fail) <==> after.len() == before.len() + 1,
        after.len() == before.len() + 1 ==> after.last().role == Role::AI && next is Finished,
        after.len() == before.len() ==> after == before,
{
}

/// Opens a request: records the user's message and asks for its embedding.
pub fn begin(session: &mut SessionState, user_text: &str) -> (res: (Turn, Action))
    ensures
        final(session)@ == old(session)@.push(MessageView { role: Role::Human, text: user_text@ }),
        res.0 matches Turn::AwaitingEmbedding { query } && query@ == user_text@,
        res.1 matches Action::Embed { text } && text@ == user_text@,
{
    session.append_human(user_text);
    (
        Turn::AwaitingEmbedding { query: String::from_str(user_text) },
        Action::Embed { text: String::from_str(user_text) },
    )
}

/// Ends a request with `error`.
fn fail(session: &mut SessionState, error: ChatError) -> (res: (Turn, Action))
    ensures
        fails_with(old(session)@, final(session)@, res.0, res.1, error),
{
    let text: String = describe(&error);
    session.append_ai(text.as_str());
    (Turn::Finished, Action::Fail { error, text })
}

/// Takes one step of a request. A failure of the embedder, of the retrieval
/// or of the model ends the request and is recorded in the history in place
/// of the answer; an event that does not belong to `turn` changes nothing.
pub fn advance(
    turn: Turn,
    event: Event,
    session: &mut SessionState,
    store: &VectorStore,
    k: usize,
    limit: Option<usize>,
) -> (res: (Turn, Action))
    ensures
        advances(turn, event, store@, k, limit, old(session)@, final(session)@, res.0, res.1),
{
    match (turn, event) {
        (Turn::AwaitingEmbedding { query }, Event::Embedded { dimension }) => {
            match check_shape(store, dimension) {
                Ok(_) => (Turn::AwaitingScores { query, dimension }, Action::Score { dimension }),
                Err(e) => fail(session, ChatError::Retrieval(e)),
            }
        },
        (Turn::AwaitingEmbedding { query }, Event::EmbeddingFailed { reason }) => fail(
            session,
            ChatError::Embedding(reason),
        ),
        (Turn::AwaitingScores { query, dimension }, Event::Scored { scores }) => {
            match top_k(store, dimension, &scores, k) {
                Err(e) => fail(session, ChatError::Retrieval(e)),
                Ok(matches) => {
                    let history = session.snapshot();
                    let input: ModelInput = assemble(query.as_str(), &matches, &history, limit);
                    (Turn::AwaitingModel, Action::Complete { input })
                },
            }
        },
        (Turn::AwaitingModel, Event::Completed { answer }) => {
            session.append_ai(answer.as_str());
            (Turn::Finished, Action::Answer { text: answer })
        },
        (Turn::AwaitingModel, Event::ModelFailed { reason }) => fail(
            session,
            ChatError::Model(reason),
        ),
        (turn, _) => (turn, Action::Ignore),
    }
}

} // verus!
