use onnx_http::registry::ModelRegistry;
use onnx_http::routes::{
    embedding_failed, embedding_response, health, health_while_loading, internal_error,
    list_models, model_not_loaded, models_while_loading, prepare_embeddings, validate_input, EmbeddingInput, EmbeddingRequest, BAD_REQUEST,
    INTERNAL_SERVER_ERROR, NOT_FOUND,
};

fn registry() -> ModelRegistry<u32> {
    ModelRegistry::new(vec![("bge-m3".to_string(), 2), ("all-MiniLM-L6-v2".to_string(), 1)], None).unwrap()
}

fn request(model: &str, input: EmbeddingInput) -> EmbeddingRequest {
    EmbeddingRequest { model: model.to_string(), input }
}

#[test]
fn unknown_model_is_not_found() {
    let reg = registry();
    let err = prepare_embeddings(&reg, request("nope", EmbeddingInput::Single("hi".into()))).err().unwrap();
    assert_eq!(err.status, NOT_FOUND);
    assert_eq!(err.status, 404);
    assert_eq!(
        err.body.error,
        "Model 'nope' not found. Available models: [\"all-MiniLM-L6-v2\", \"bge-m3\"]"
    );
}

#[test]
fn unknown_model_is_reported_before_empty_input() {
    let reg = registry();
    let err = prepare_embeddings(&reg, request("nope", EmbeddingInput::Single(String::new()))).err().unwrap();
    assert_eq!(err.status, 404);
}

#[test]
fn empty_text_is_a_bad_request() {
    let reg = registry();
    let err = prepare_embeddings(&reg, request("bge-m3", EmbeddingInput::Single(String::new()))).err().unwrap();
    assert_eq!(err.status, BAD_REQUEST);
    assert_eq!(err.body.error, "Input text must not be empty");
}

#[test]
fn empty_batch_is_a_bad_request() {
    let reg = registry();
    let err = prepare_embeddings(&reg, request("bge-m3", EmbeddingInput::Batch(vec![]))).err().unwrap();
    assert_eq!(err.status, 400);
    assert_eq!(err.body.error, "Input batch must not be empty");
}

#[test]
fn accepted_requests_name_model_and_texts() {
    let reg = registry();
    let (name, model, texts) =
        prepare_embeddings(&reg, request("bge-m3", EmbeddingInput::Single("hello".into()))).unwrap();
    assert_eq!(name, "bge-m3");
    assert_eq!(*model, 2);
    assert_eq!(texts, vec!["hello".to_string()]);
    let (_, model, texts) = prepare_embeddings(
        &reg,
        request("all-MiniLM-L6-v2", EmbeddingInput::Batch(vec!["a".into(), "".into()])),
    )
    .unwrap();
    assert_eq!(*model, 1);
    assert_eq!(texts, vec!["a".to_string(), String::new()]);
}

#[test]
fn validate_input_cases() {
    assert_eq!(validate_input(EmbeddingInput::Single("x".into())).unwrap(), vec!["x".to_string()]);
    assert_eq!(validate_input(EmbeddingInput::Single(String::new())).err().unwrap().status, 400);
    assert_eq!(validate_input(EmbeddingInput::Batch(vec![])).err().unwrap().status, 400);
}

#[test]
fn embedding_response_numbers_entries_in_order() {
    let resp = embedding_response("m".to_string(), vec![vec![1.0f32, 2.0], vec![3.0]]);
    assert_eq!(resp.object, "list");
    assert_eq!(resp.model, "m");
    assert_eq!(resp.data.len(), 2);
    assert_eq!(resp.data[0].index, 0);
    assert_eq!(resp.data[0].object, "embedding");
    assert_eq!(resp.data[0].embedding, vec![1.0f32, 2.0]);
    assert_eq!(resp.data[1].index, 1);
    assert_eq!(resp.data[1].embedding, vec![3.0f32]);
}

#[test]
fn server_side_failures_are_internal_errors() {
    let e = embedding_failed("boom");
    assert_eq!(e.status, INTERNAL_SERVER_ERROR);
    assert_eq!(e.body.error, "Embedding failed: boom");
    let e = internal_error("join");
    assert_eq!(e.status, 500);
    assert_eq!(e.body.error, "Internal error: join");
}

#[test]
fn health_lists_sorted_models() {
    let h = health(&registry());
    assert_eq!(h.status, "ok");
    assert_eq!(h.models, vec!["all-MiniLM-L6-v2".to_string(), "bge-m3".to_string()]);
}

#[test]
fn list_models_is_openai_shaped() {
    let r = list_models(&registry());
    assert_eq!(r.object, "list");
    assert_eq!(r.data.len(), 2);
    assert_eq!(r.data[0].id, "all-MiniLM-L6-v2");
    assert_eq!(r.data[0].object, "model");
    assert_eq!(r.data[0].owned_by, "local");
    assert_eq!(r.data[1].id, "bge-m3");
}

#[test]
fn requests_while_loading_see_no_models() {
    let h = health_while_loading();
    assert_eq!(h.status, "ok");
    assert!(h.models.is_empty());
    let m = models_while_loading();
    assert_eq!(m.object, "list");
    assert!(m.data.is_empty());
    let e = model_not_loaded("bge-m3");
    assert_eq!(e.status, NOT_FOUND);
    assert_eq!(e.body.error, "Model 'bge-m3' not found. Available models: []");
}
