//! The HTTP API's requests, responses and decisions: which model a request
//! names, which texts it embeds, and which status and message a refused
//! request is answered with.
use vstd::prelude::*;

use crate::registry::{ModelRegistry, ref_views};
use crate::text::{debug_list, debug_list_text, string_views};

verus! {

/// Status code of a request that is malformed (`400 Bad Request`).
pub const BAD_REQUEST: u16 = 400;

/// Status code of a request for an unknown model (`404 Not Found`).
pub const NOT_FOUND: u16 = 404;

/// Status code of a failure on the server's side (`500 Internal Server Error`).
pub const INTERNAL_SERVER_ERROR: u16 = 500;

/// A `POST /v1/embeddings` request.
#[derive(Debug)]
pub struct EmbeddingRequest {
    pub model: String,
    pub input: EmbeddingInput,
}

/// One text, or a batch of texts.
#[derive(Debug)]
pub enum EmbeddingInput {
    Single(String),
    Batch(Vec<String>),
}

/// The answer to an embedding request: one entry per text, in request order.
#[derive(Debug)]
pub struct EmbeddingResponse<E> {
    pub object: &'static str,
    pub model: String,
    pub data: Vec<EmbeddingData<E>>,
}

/// The embedding of the text at `index`.
#[derive(Debug)]
pub struct EmbeddingData<E> {
    pub object: &'static str,
    pub index: usize,
    pub embedding: E,
}

/// The body of a refused request.
#[derive(Debug)]
pub struct ErrorResponse {
    pub error: String,
}

/// The answer to `GET /health`.
#[derive(Debug)]
pub struct HealthResponse {
    pub status: &'static str,
    pub models: Vec<String>,
}

/// The answer to `GET /v1/models`.
#[derive(Debug)]
pub struct ModelsResponse {
    pub object: &'static str,
    pub data: Vec<ModelInfo>,
}

/// One loaded model, as `GET /v1/models` lists it.
#[derive(Debug)]
pub struct ModelInfo {
    pub id: String,
    pub object: &'static str,
    pub owned_by: &'static str,
}

/// A refused request: its status code and body.
#[derive(Debug)]
pub struct ApiError {
    pub status: u16,
    pub body: ErrorResponse,
}

/// The message for a request that names a model that is not loaded.
pub open spec fn not_found_message(model: Seq<char>, names: Seq<Seq<char>>) -> Seq<char> {
    "Model '"@ + model + "' not found. Available models: "@ + debug_list_text(names)
}

/// The status and message with which a request naming `model` and carrying
/// `input` is refused, if it is refused before any text is embedded: first an
/// unknown model (404), then an empty text or an empty batch (400).
pub open spec fn refusal<M>(registry: ModelRegistry<M>, model: Seq<char>, input: EmbeddingInput) -> Option<
    (u16, Seq<char>),
> {
    if registry.model_for(model) is None {
        Some((NOT_FOUND, not_found_message(model, registry.names())))
    } else {
        match input {
            EmbeddingInput::Single(s) => if s@.len() == 0 {
                Some((BAD_REQUEST, "Input text must not be empty"@))
            } else {
                None
            },
            EmbeddingInput::Batch(v) => if v@.len() == 0 {
                Some((BAD_REQUEST, "Input batch must not be empty"@))
            } else {
                None
            },
        }
    }
}

/// The texts that an accepted input asks to embed.
pub open spec fn input_texts(input: EmbeddingInput) -> Seq<String> {
    match input {
        EmbeddingInput::Single(s) => seq![s],
        EmbeddingInput::Batch(v) => v@,
    }
}

fn names_list<M>(registry: &ModelRegistry<M>) -> (r: Vec<String>)
    ensures
        string_views(r@) == registry.names(),
{
    let names = registry.model_names();
    let mut r: Vec<String> = Vec::new();
    for j in 0..names.len()
        invariant
            ref_views(names@) == registry.names(),
            string_views(r@) == registry.names().take(j as int),
    {
        assert(ref_views(names@).len() == names@.len());
        assert(string_views(r@).len() == j);
        let name = names[j].clone();
        assert(name@ == registry.names()[j as int]);
        let ghost before = r@;
        r.push(name);
        assert forall|k: int| 0 <= k < j + 1 implies #[trigger] string_views(r@)[k]
            == registry.names().take(j + 1)[k] by {
            if k < j {
                assert(string_views(before)[k] == registry.names().take(j as int)[k]);
            }
        }
        assert(string_views(r@) =~= registry.names().take(j + 1));
    }
    assert(registry.names().take(names@.len() as int) =~= registry.names());
    r
}

/// The refusal of a request for a model that is not loaded.
pub fn model_not_found<M>(registry: &ModelRegistry<M>, model: &str) -> (e: ApiError)
    ensures
        e.status == NOT_FOUND,
        e.body.error@ == not_found_message(model@, registry.names()),
{
    let names = names_list(registry);
    let mut m = "Model '".to_owned();
    m.append(model);
    m.append("' not found. Available models: ");
    let list = debug_list(&names);
    m.append(list.as_str());
    ApiError { status: NOT_FOUND, body: ErrorResponse { error: m } }
}

/// The texts of an input, refusing an empty text or an empty batch.
pub fn validate_input(input: EmbeddingInput) -> (r: Result<Vec<String>, ApiError>)
    ensures
        match r {
            Ok(texts) => texts@ == input_texts(input) && match input {
                EmbeddingInput::Single(s) => s@.len() > 0,
                EmbeddingInput::Batch(v) => v@.len() > 0,
            },
            Err(e) => e.status == BAD_REQUEST && match input {
                EmbeddingInput::Single(s) => s@.len() == 0 && e.body.error@
                    == "Input text must not be empty"@,
                EmbeddingInput::Batch(v) => v@.len() == 0 && e.body.error@
                    == "Input batch must not be empty"@,
            },
        },
{
    match input {
        EmbeddingInput::Single(s) => {
            if s.as_str().is_empty() {
                return Err(
                    ApiError {
                        status: BAD_REQUEST,
                        body: ErrorResponse { error: "Input text must not be empty".to_owned() },
                    },
                );
            }
            let mut texts: Vec<String> = Vec::new();
            texts.push(s);
            assert(texts@ =~= seq![s]);
            Ok(texts)
        },
        EmbeddingInput::Batch(v) => {
            if v.len() == 0 {
                return Err(
                    ApiError {
                        status: BAD_REQUEST,
                        body: ErrorResponse { error: "Input batch must not be empty".to_owned() },
                    },
                );
            }
            Ok(v)
        },
    }
}

/// Decides an embedding request before any text is embedded: the model it
/// names and the texts to embed, or the status and message it is refused with.
pub fn prepare_embeddings<'a, M>(registry: &'a ModelRegistry<M>, request: EmbeddingRequest) -> (r:
    Result<(String, &'a M, Vec<String>), ApiError>)
    ensures
        match r {
            Ok((name, model, texts)) => {
                &&& refusal(*registry, request.model@, request.input) is None
                &&& name == request.model
                &&& registry.model_for(name@) == Some(*model)
                &&& texts@ == input_texts(request.input)
            },
            Err(e) => refusal(*registry, request.model@, request.input) == Some(
                (e.status, e.body.error@),
            ),
        },
{
    let EmbeddingRequest { model: model_name, input } = request;
    let model = match registry.get(model_name.as_str()) {
        Some(m) => m,
        None => {
            return Err(model_not_found(registry, model_name.as_str()));
        },
    };
    match validate_input(input) {
        Ok(texts) => Ok((model_name, model, texts)),
        Err(e) => Err(e),
    }
}

/// The answer carrying `results`, the embeddings of the request's texts in
/// order: entry `i` holds `results[i]` under index `i`.
pub fn embedding_response<E>(model: String, results: Vec<E>) -> (resp: EmbeddingResponse<E>)
    ensures
        resp.object@ == "list"@,
        resp.model == model,
        resp.data@.len() == results@.len(),
        forall|i: int|
            0 <= i < results@.len() ==> {
                &&& (#[trigger] resp.data@[i]).index == i
                &&& resp.data@[i].embedding == results@[i]
                &&& resp.data@[i].object@ == "embedding"@
            },
{
    let ghost all = results@;
    let n = results.len();
    let mut rest = results;
    let mut data: Vec<EmbeddingData<E>> = Vec::new();
    let mut i: usize = 0;
    while i < n
        invariant
            n == all.len(),
            i <= n,
            rest@ == all.skip(i as int),
            data@.len() == i,
            forall|k: int|
                0 <= k < i ==> {
                    &&& (#[trigger] data@[k]).index == k
                    &&& data@[k].embedding == all[k]
                    &&& data@[k].object@ == "embedding"@
                },
        decreases n - i,
    {
        let embedding = rest.remove(0);
        assert(embedding == all[i as int]);
        data.push(EmbeddingData { object: "embedding", index: i, embedding });
        assert(rest@ =~= all.skip(i + 1));
        i = i + 1;
    }
    EmbeddingResponse { object: "list", model, data }
}

/// The refusal of a request whose embedding failed on the server's side.
pub fn embedding_failed(detail: &str) -> (e: ApiError)
    ensures
        e.status == INTERNAL_SERVER_ERROR,
        e.body.error@ == "Embedding failed: "@ + detail@,
{
    let mut m = "Embedding failed: ".to_owned();
    m.append(detail);
    ApiError { status: INTERNAL_SERVER_ERROR, body: ErrorResponse { error: m } }
}

/// The refusal of a request whose embedding task could not be run.
pub fn internal_error(detail: &str) -> (e: ApiError)
    ensures
        e.status == INTERNAL_SERVER_ERROR,
        e.body.error@ == "Internal error: "@ + detail@,
{
    let mut m = "Internal error: ".to_owned();
    m.append(detail);
    ApiError { status: INTERNAL_SERVER_ERROR, body: ErrorResponse { error: m } }
}

/// The answer to `GET /health`: status `ok` and the loaded models' names in
/// sorted order.
pub fn health<M>(registry: &ModelRegistry<M>) -> (h: HealthResponse)
    ensures
        h.status@ == "ok"@,
        string_views(h.models@) == registry.names(),
{
    HealthResponse { status: "ok", models: names_list(registry) }
}

/// The answer to `GET /v1/models`: one entry per loaded model, in sorted
/// order of names, owned by `local`.
pub fn list_models<M>(registry: &ModelRegistry<M>) -> (r: ModelsResponse)
    ensures
        r.object@ == "list"@,
        r.data@.len() == registry.names().len(),
        forall|i: int|
            0 <= i < r.data@.len() ==> {
                &&& (#[trigger] r.data@[i]).id@ == registry.names()[i]
                &&& r.data@[i].object@ == "model"@
                &&& r.data@[i].owned_by@ == "local"@
            },
{
    let names = registry.model_names();
    let mut data: Vec<ModelInfo> = Vec::new();
    for j in 0..names.len()
        invariant
            ref_views(names@) == registry.names(),
            data@.len() == j,
            forall|i: int|
                0 <= i < j ==> {
                    &&& (#[trigger] data@[i]).id@ == registry.names()[i]
                    &&& data@[i].object@ == "model"@
                    &&& data@[i].owned_by@ == "local"@
                },
    {
        let id = names[j].clone();
        assert(id@ == registry.names()[j as int]);
        data.push(ModelInfo { id, object: "model", owned_by: "local" });
    }
    ModelsResponse { object: "list", data }
}

/// The refusal of an embedding request that arrives while the models are
/// still loading: no model is registered yet, so the named one is not found.
pub fn model_not_loaded(model: &str) -> (e: ApiError)
    ensures
        e.status == NOT_FOUND,
        e.body.error@ == not_found_message(model@, Seq::<Seq<char>>::empty()),
{
    let names: Vec<String> = Vec::new();
    assert(string_views(names@) =~= Seq::<Seq<char>>::empty());
    let mut m = "Model '".to_owned();
    m.append(model);
    m.append("' not found. Available models: ");
    let list = debug_list(&names);
    m.append(list.as_str());
    ApiError { status: NOT_FOUND, body: ErrorResponse { error: m } }
}

/// The answer to `GET /health` while the models are still loading: status
/// `ok` and no model.
pub fn health_while_loading() -> (h: HealthResponse)
    ensures
        h.status@ == "ok"@,
        h.models@.len() == 0,
{
    HealthResponse { status: "ok", models: Vec::new() }
}

/// The answer to `GET /v1/models` while the models are still loading: an
/// empty list.
pub fn models_while_loading() -> (r: ModelsResponse)
    ensures
        r.object@ == "list"@,
        r.data@.len() == 0,
{
    ModelsResponse { object: "list", data: Vec::new() }
}

/// A request naming a loaded model is refused only for an empty text or a
/// batch without texts: a non-empty text, and a batch of one or more texts
/// (whatever they hold), are accepted, and exactly the request's texts are
/// embedded, in order.
pub proof fn lemma_nonempty_input_accepted<M>(
    registry: ModelRegistry<M>,
    model: Seq<char>,
    input: EmbeddingInput,
)
    requires
        registry.model_for(model) is Some,
        match input {
            EmbeddingInput::Single(s) => s@.len() > 0,
            EmbeddingInput::Batch(v) => v@.len() > 0,
        },
    ensures
        refusal(registry, model, input) is None,
        match input {
            EmbeddingInput::Single(s) => input_texts(input) == seq![s],
            EmbeddingInput::Batch(v) => input_texts(input) == v@,
        },
{
}

/// A request for a model that is not loaded is refused as not found (404),
/// whatever its input, with the loaded models' names; one for a loaded model
/// with an empty text or a batch without texts is refused as a bad request
/// (400).
pub proof fn lemma_refusal_statuses<M>(
    registry: ModelRegistry<M>,
    model: Seq<char>,
    input: EmbeddingInput,
)
    ensures
        registry.model_for(model) is None ==> refusal(registry, model, input) == Some(
            (
                404u16,
                "Model '"@ + model + "' not found. Available models: "@ + debug_list_text(
                    registry.names(),
                ),
            ),
        ),
        registry.model_for(model) is Some ==> match input {
            EmbeddingInput::Single(s) => s@.len() == 0 ==> refusal(registry, model, input) == Some(
                (400u16, "Input text must not be empty"@),
            ),
            EmbeddingInput::Batch(v) => v@.len() == 0 ==> refusal(registry, model, input) == Some(
                (400u16, "Input batch must not be empty"@),
            ),
        },
{
}

} // verus!
