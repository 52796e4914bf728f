//! Assembly of what is handed to the language model.

use vstd::prelude::*;
use vstd::string::*;
use crate::ranker::RankedMatch;
use crate::session::{Message, MessageView, message_views, copy_messages};
use crate::store::texts;

verus! {

/// The input of one model call: the user's query, the contents of the
/// retrieved documents with the most similar first, and the conversation so
/// far.
#[derive(Clone, Debug)]
pub struct ModelInput {
    pub query: String,
    pub documents: Vec<String>,
    pub history: Vec<Message>,
}

/// The contents of the matched records, in the order of the matches.
pub open spec fn contents(matches: Seq<RankedMatch>) -> Seq<Seq<char>> {
    matches.map_values(|m: RankedMatch| m.record.content@)
}

/// The number of characters in all of `documents`.
pub open spec fn total_size(documents: Seq<Seq<char>>) -> nat
    decreases documents.len(),
{
    if documents.len() == 0 {
        0
    } else {
        total_size(documents.drop_last()) + documents.last().len()
    }
}

/// `count` is how many leading documents a budget of `limit` characters
/// keeps: all of them without a limit; with one, as many as fit, so that the
/// next one would exceed it.
pub open spec fn keeps(documents: Seq<Seq<char>>, limit: Option<usize>, count: int) -> bool {
    match limit {
        None => count == documents.len(),
        Some(budget) => {
            &&& 0 <= count <= documents.len()
            &&& total_size(documents.take(count)) <= budget
            &&& count < documents.len() ==> total_size(documents.take(count + 1)) > budget
        },
    }
}

/// A longer leading part is never smaller.
pub proof fn lemma_total_size_grows(documents: Seq<Seq<char>>, shorter: int, longer: int)
    requires
        0 <= shorter <= longer <= documents.len(),
    ensures
        total_size(documents.take(shorter)) <= total_size(documents.take(longer)),
    decreases longer - shorter,
{
    if shorter < longer {
        lemma_total_size_grows(documents, shorter, longer - 1);
        assert(documents.take(longer).drop_last() =~= documents.take(longer - 1));
    }
}

/// A limit keeps one number of documents and no other.
pub proof fn lemma_kept_count_unique(
    documents: Seq<Seq<char>>,
    limit: Option<usize>,
    first: int,
    second: int,
)
    requires
        keeps(documents, limit, first),
        keeps(documents, limit, second),
    ensures
        first == second,
{
    if limit is Some {
        if first < second {
            lemma_total_size_grows(documents, first + 1, second);
        } else if second < first {
            lemma_total_size_grows(documents, second + 1, first);
        }
    }
}

/// `input` is what `query`, `matches` and `history` assemble to under `limit`:
/// the query and the history as they are, and the contents of the leading
/// matches that the limit keeps.
pub open spec fn assembled(
    input: ModelInput,
    query: Seq<char>,
    matches: Seq<RankedMatch>,
    history: Seq<MessageView>,
    limit: Option<usize>,
) -> bool {
    &&& input.query@ == query
    &&& message_views(input.history@) == history
    &&& keeps(contents(matches), limit, input.documents@.len() as int)
    &&& texts(input.documents@) == contents(matches).take(input.documents@.len() as int)
}

/// How many of the matches a budget keeps. The least similar are dropped
/// first, so what is kept is a leading part of the matches.
pub fn kept_count(matches: &Vec<RankedMatch>, limit: Option<usize>) -> (count: usize)
    ensures
        keeps(contents(matches@), limit, count as int),
{
    let budget: usize = match limit {
        None => {
            return matches.len();
        },
        Some(budget) => budget,
    };
    let ghost documents = contents(matches@);
    let mut used: usize = 0;
    let mut a: usize = 0;
    proof {
        assert(documents.take(0) =~= Seq::<Seq<char>>::empty());
    }
    while a < matches.len()
        invariant
            a <= matches.len(),
            documents == contents(matches@),
            limit == Some(budget),
            used == total_size(documents.take(a as int)),
            used <= budget,
        decreases matches.len() - a,
    {
        let size: usize = matches[a].record.content.as_str().unicode_len();
        proof {
            assert(documents.take(a + 1).drop_last() =~= documents.take(a as int));
            assert(documents.take(a + 1).last() == matches@[a as int].record.content@);
        }
        if size > budget - used {
            return a;
        }
        used += size;
        a += 1;
    }
    a
}

/// Builds the input of a model call. Documents keep the order of the matches;
/// where a limit is given, the least similar are left out until the rest fits.
pub fn assemble(
    query: &str,
    matches: &Vec<RankedMatch>,
    history: &Vec<Message>,
    limit: Option<usize>,
) -> (input: ModelInput)
    ensures
        assembled(input, query@, matches@, message_views(history@), limit),
{
    let count: usize = kept_count(matches, limit);
    let mut documents: Vec<String> = Vec::new();
    let mut a: usize = 0;
    while a < count
        invariant
            a <= count,
            count <= matches.len(),
            documents@.len() == a,
            forall|b: int| 0 <= b < a ==> (#[trigger] documents@[b])@ == matches@[b].record.content@,
        decreases count - a,
    {
        documents.push(matches[a].record.content.clone());
        a += 1;
    }
    proof {
        assert(texts(documents@) =~= contents(matches@).take(count as int));
    }
    ModelInput { query: String::from_str(query), documents, history: copy_messages(history) }
}

} // verus!
