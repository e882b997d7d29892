//! The ModelScope repository for a model id.

use vstd::prelude::*;

use crate::error::{Failure, MgetError};
use crate::text::{join, join_texts, slice_text_of, starts_with, strip_prefix, texts};

verus! {

/// An id with the beginning `from` replaced by `to`.
pub open spec fn renamed(input: Seq<char>, from: Seq<char>, to: Seq<char>) -> Seq<char> {
    to + input.skip(from.len() as int)
}

/// The id under which ModelScope keeps the models of a known owner.
pub open spec fn mapped(input: Seq<char>) -> Option<Seq<char>> {
    if starts_with(input, "meta-llama/"@) {
        Some(renamed(input, "meta-llama/"@, "LLM-Research/"@))
    } else if starts_with(input, "Qwen/"@) {
        Some(renamed(input, "Qwen/"@, "qwen/"@))
    } else if starts_with(input, "mistralai/"@) {
        Some(renamed(input, "mistralai/"@, "AI-ModelScope/"@))
    } else if starts_with(input, "google/"@) {
        Some(renamed(input, "google/"@, "AI-ModelScope/"@))
    } else {
        None
    }
}

/// An id with another beginning, if it has the beginning `from`.
fn rename(input: &str, from: &str, to: &str) -> (r: Option<String>)
    ensures
        r is Some <==> starts_with(input@, from@),
        r matches Some(out) ==> out@ == renamed(input@, from@, to@),
{
    match strip_prefix(input, from) {
        Some(rest) => {
            let mut out = to.to_owned();
            out.append(rest.as_str());
            Some(out)
        },
        None => None,
    }
}

/// The id under which ModelScope keeps the models of a known owner.
pub fn map_by_prefix(input: &str) -> (r: Option<String>)
    ensures
        crate::text::text_of(r) == mapped(input@),
{
    if let Some(out) = rename(input, "meta-llama/", "LLM-Research/") {
        return Some(out);
    }
    if let Some(out) = rename(input, "Qwen/", "qwen/") {
        return Some(out);
    }
    if let Some(out) = rename(input, "mistralai/", "AI-ModelScope/") {
        return Some(out);
    }
    rename(input, "google/", "AI-ModelScope/")
}

/// The next step in finding the ModelScope repository for a model id.
#[derive(Debug)]
pub enum MappingStep {
    /// The repository is known.
    Found(String),
    /// ModelScope is to be searched for the id.
    Search,
    /// The user is to choose one of the candidates.
    Ask,
    /// There is no repository to use.
    Fail(MgetError),
}

/// A step with its texts as character sequences.
pub ghost enum MappingView {
    Found(Seq<char>),
    Search,
    Ask,
    Fail(Failure),
}

impl View for MappingStep {
    type V = MappingView;

    open spec fn view(&self) -> MappingView {
        match *self {
            MappingStep::Found(id) => MappingView::Found(id@),
            MappingStep::Search => MappingView::Search,
            MappingStep::Ask => MappingView::Ask,
            MappingStep::Fail(error) => MappingView::Fail(error@),
        }
    }
}

/// What follows from the candidates of a search: a single one is taken, several are
/// the user's choice where the user can be asked.
pub open spec fn candidate_step(
    input: Seq<char>,
    candidates: Seq<Seq<char>>,
    can_ask: bool,
    picked: Option<usize>,
) -> MappingView {
    if candidates.len() == 1 {
        MappingView::Found(candidates[0])
    } else if candidates.len() == 0 {
        MappingView::Fail(Failure::ModelMappingNotFound(input))
    } else if can_ask {
        match picked {
            Some(index) => MappingView::Found(candidates[index as int]),
            None => MappingView::Ask,
        }
    } else {
        MappingView::Fail(
            Failure::AmbiguousModelMapping { input, candidates: join(candidates, ", "@) },
        )
    }
}

/// The next step: an id that was given comes first, then the id of a known owner,
/// then the candidates of a search.
pub open spec fn mapping_step(
    input: Seq<char>,
    explicit: Option<Seq<char>>,
    can_ask: bool,
    candidates: Option<Seq<Seq<char>>>,
    picked: Option<usize>,
) -> MappingView {
    match (explicit, mapped(input), candidates) {
        (Some(id), _, _) => MappingView::Found(id),
        (None, Some(id), _) => MappingView::Found(id),
        (None, None, None) => MappingView::Search,
        (None, None, Some(candidates)) => candidate_step(input, candidates, can_ask, picked),
    }
}

/// The views of the candidates of a search that was made.
pub open spec fn candidate_texts(candidates: Option<&Vec<String>>) -> Option<Seq<Seq<char>>> {
    match candidates {
        Some(list) => Some(texts(list@)),
        None => None,
    }
}

/// The next step in finding the ModelScope repository for `input`, from the id that was
/// given, whether the user wants to be asked and sits at a terminal, the candidates of
/// the search once it was made, and the candidate that the user picked.
pub fn resolve_modelscope_id(
    input: &str,
    explicit_id: Option<&str>,
    interactive: bool,
    at_terminal: bool,
    candidates: Option<&Vec<String>>,
    picked: Option<usize>,
) -> (r: MappingStep)
    requires
        picked matches Some(index) ==> (candidates matches Some(list) && index < list.len()),
    ensures
        r@ == mapping_step(
            input@,
            slice_text_of(explicit_id),
            interactive && at_terminal,
            candidate_texts(candidates),
            picked,
        ),
{
    if let Some(id) = explicit_id {
        return MappingStep::Found(id.to_owned());
    }
    if let Some(id) = map_by_prefix(input) {
        return MappingStep::Found(id);
    }
    let list = match candidates {
        Some(list) => list,
        None => {
            return MappingStep::Search;
        },
    };
    if list.len() == 1 {
        assert(texts(list@)[0] == list@[0]@);
        MappingStep::Found(list[0].clone())
    } else if list.len() == 0 {
        MappingStep::Fail(MgetError::ModelMappingNotFound(input.to_owned()))
    } else if interactive && at_terminal {
        match picked {
            Some(index) => {
                assert(texts(list@)[index as int] == list@[index as int]@);
                MappingStep::Found(list[index].clone())
            },
            None => MappingStep::Ask,
        }
    } else {
        MappingStep::Fail(
            MgetError::AmbiguousModelMapping {
                input: input.to_owned(),
                candidates: join_texts(list, ", "),
            },
        )
    }
}

/// The answer to a search settles the matter: what follows is not another search, and
/// once a candidate is picked nothing more is asked.
pub proof fn search_settles(
    input: Seq<char>,
    explicit: Option<Seq<char>>,
    can_ask: bool,
    candidates: Seq<Seq<char>>,
    picked: Option<usize>,
)
    ensures
        mapping_step(input, explicit, can_ask, Some(candidates), picked) !is Search,
        picked is Some ==> mapping_step(input, explicit, can_ask, Some(candidates), picked) !is Ask,
{
}

/// The models of a known owner are found under that owner's name at ModelScope, with the rest of
/// the id as it is.
pub proof fn known_owners_are_renamed(rest: Seq<char>)
    ensures
        mapped("meta-llama/"@ + rest) == Some("LLM-Research/"@ + rest),
        mapped("Qwen/"@ + rest) == Some("qwen/"@ + rest),
        mapped("mistralai/"@ + rest) == Some("AI-ModelScope/"@ + rest),
        mapped("google/"@ + rest) == Some("AI-ModelScope/"@ + rest),
{
    reveal_strlit("meta-llama/");
    reveal_strlit("Qwen/");
    reveal_strlit("mistralai/");
    reveal_strlit("google/");
    let (a, b, c, d) = ("meta-llama/"@, "Qwen/"@, "mistralai/"@, "google/"@);
    assert((a + rest).take(a.len() as int) =~= a && (a + rest).skip(a.len() as int) =~= rest);
    assert((b + rest).take(b.len() as int) =~= b && (b + rest).skip(b.len() as int) =~= rest);
    assert((c + rest).take(c.len() as int) =~= c && (c + rest).skip(c.len() as int) =~= rest);
    assert((d + rest).take(d.len() as int) =~= d && (d + rest).skip(d.len() as int) =~= rest);
    assert(!starts_with(b + rest, a)) by {
        if starts_with(b + rest, a) {
            assert((b + rest).take(a.len() as int)[0] == 'Q');
        }
    }
    assert(!starts_with(c + rest, a)) by {
        if starts_with(c + rest, a) {
            assert((c + rest).take(a.len() as int)[1] == 'i');
        }
    }
    assert(!starts_with(c + rest, b)) by {
        if starts_with(c + rest, b) {
            assert((c + rest).take(b.len() as int)[0] == 'm');
        }
    }
    assert(!starts_with(d + rest, a) && !starts_with(d + rest, b) && !starts_with(d + rest, c)) by {
        if starts_with(d + rest, a) {
            assert((d + rest).take(a.len() as int)[0] == 'g');
        }
        if starts_with(d + rest, b) {
            assert((d + rest).take(b.len() as int)[0] == 'g');
        }
        if starts_with(d + rest, c) {
            assert((d + rest).take(c.len() as int)[0] == 'g');
        }
    }
}

/// Only the ids of the four known owners are renamed.
pub proof fn other_owners_are_searched_for(input: Seq<char>)
    requires
        !starts_with(input, "meta-llama/"@),
        !starts_with(input, "Qwen/"@),
        !starts_with(input, "mistralai/"@),
        !starts_with(input, "google/"@),
    ensures
        mapped(input) is None,
        mapping_step(input, None, false, None, None) is Search,
{
}

/// An id that was given is used before anything else; without one the id of a known owner is,
/// and no search is made.
pub proof fn given_ids_come_first(
    input: Seq<char>,
    id: Seq<char>,
    can_ask: bool,
    candidates: Option<Seq<Seq<char>>>,
    picked: Option<usize>,
)
    ensures
        mapping_step(input, Some(id), can_ask, candidates, picked) == MappingView::Found(id),
        mapped(input) matches Some(known) ==> mapping_step(
            input,
            None,
            can_ask,
            candidates,
            picked,
        ) == MappingView::Found(known),
{
}

/// What a search finds decides for an id of no known owner: a single candidate is used; of
/// several the user picks one where they can be asked, and else the failure names them all; and
/// none is a failure that names the id.
pub proof fn searches_decide(
    input: Seq<char>,
    candidates: Seq<Seq<char>>,
    can_ask: bool,
    picked: usize,
    id: Seq<char>,
)
    requires
        mapped(input) is None,
    ensures
        mapping_step(input, None, can_ask, Some(seq![id]), None) == MappingView::Found(id),
        mapping_step(input, None, can_ask, Some(Seq::empty()), None) == MappingView::Fail(
            Failure::ModelMappingNotFound(input),
        ),
        candidates.len() > 1 ==> {
            &&& mapping_step(input, None, true, Some(candidates), None) is Ask
            &&& picked < candidates.len() ==> mapping_step(
                input,
                None,
                true,
                Some(candidates),
                Some(picked),
            ) == MappingView::Found(candidates[picked as int])
            &&& mapping_step(input, None, false, Some(candidates), None) == MappingView::Fail(
                Failure::AmbiguousModelMapping { input, candidates: join(candidates, ", "@) },
            )
        },
{
}

} // verus!
