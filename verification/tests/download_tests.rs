use onnx_http::catalog::find;
use onnx_http::download::{
    catalog_row, download_banner, download_files, hf_url, installed_row, model_config_json,
    model_max_tokens, parse_model_config,
    table_row, unknown_model_message,
};

#[test]
fn hf_url_layout() {
    assert_eq!(
        hf_url("BAAI/bge-m3", "onnx/model.onnx"),
        "https://huggingface.co/BAAI/bge-m3/resolve/main/onnx/model.onnx"
    );
}

#[test]
fn download_files_include_extras() {
    let e = find("bge-m3").unwrap();
    assert_eq!(
        download_files(&e),
        vec![
            ("onnx/model.onnx", "model.onnx"),
            ("onnx/tokenizer.json", "tokenizer.json"),
            ("onnx/model.onnx_data", "model.onnx_data"),
        ]
    );
    let e = find("jina-embeddings-v2-small-en").unwrap();
    assert_eq!(download_files(&e), vec![("model.onnx", "model.onnx"), ("tokenizer.json", "tokenizer.json")]);
}

#[test]
fn model_config_json_holds_max_tokens() {
    assert_eq!(model_config_json(8192), "{\"max_tokens\": 8192}\n");
    assert_eq!(model_config_json(0), "{\"max_tokens\": 0}\n");
}

#[test]
fn unknown_model_message_text() {
    assert_eq!(
        unknown_model_message("foo"),
        "Unknown model 'foo'. Use 'onnx-http download --list' to see available models."
    );
}

#[test]
fn table_rows_match_format() {
    assert_eq!(
        table_row("NAME", "DIMS", "TOKENS", "DESCRIPTION"),
        format!("  {:<30} {:>6} {:>8}  {}", "NAME", "DIMS", "TOKENS", "DESCRIPTION")
    );
    let e = find("bge-m3").unwrap();
    assert_eq!(
        catalog_row(&e, true),
        format!("  {:<30} {:>6} {:>8}  {}{}", e.name, e.dimensions, e.max_tokens, e.description, " ✓")
    );
    assert_eq!(
        catalog_row(&e, false),
        format!("  {:<30} {:>6} {:>8}  {}{}", e.name, e.dimensions, e.max_tokens, e.description, "")
    );
}

#[test]
fn installed_rows_use_the_catalog() {
    assert_eq!(
        installed_row("BGE-M3"),
        format!("  {:<30} {:>6} {:>8}  {}", "BGE-M3", "1024", "8192", "huggingface.co/BAAI/bge-m3")
    );
    assert_eq!(
        installed_row("my-model"),
        format!("  {:<30} {:>6} {:>8}  {}", "my-model", "?", "?", "custom")
    );
}

#[test]
fn download_banner_text() {
    let e = find("embeddinggemma-300m").unwrap();
    assert_eq!(
        download_banner(&e),
        "📥 Downloading 'embeddinggemma-300m' (768 dims, 2K tokens) — Google Gemma, 2K context, multilingual (1.2GB)"
    );
}

#[test]
fn model_config_reads_back() {
    for n in [0usize, 7, 512, 2048, 8192, usize::MAX] {
        assert_eq!(parse_model_config(&model_config_json(n)), Some(n));
    }
    assert_eq!(parse_model_config("{\"max_tokens\": 2048}"), Some(2048));
    assert_eq!(parse_model_config("{\"max_tokens\": }\n"), None);
    assert_eq!(parse_model_config("{\"max_tokens\": 12a}\n"), None);
    assert_eq!(parse_model_config("{\"max_token\": 12}\n"), None);
    assert_eq!(parse_model_config("{\"max_tokens\": 99999999999999999999999}\n"), None);
    assert_eq!(parse_model_config(""), None);
}

#[test]
fn model_max_tokens_prefers_the_config() {
    assert_eq!(model_max_tokens(Some("{\"max_tokens\": 2048}\n"), "bge-m3"), 2048);
    assert_eq!(model_max_tokens(None, "bge-m3"), 8192);
    assert_eq!(model_max_tokens(Some("not json"), "BGE-M3"), 8192);
    assert_eq!(model_max_tokens(None, "embeddinggemma-300m"), 2048);
    assert_eq!(model_max_tokens(None, "all-MiniLM-L6-v2"), 512);
    assert_eq!(model_max_tokens(None, "default"), 512);
}
