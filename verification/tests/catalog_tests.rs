use onnx_http::catalog::{catalog, find};

#[test]
fn catalog_lists_nine_models_in_order() {
    let entries = catalog();
    let names: Vec<&str> = entries.iter().map(|e| e.name).collect();
    assert_eq!(
        names,
        vec![
            "all-MiniLM-L6-v2",
            "all-MiniLM-L12-v2",
            "all-mpnet-base-v2",
            "bge-base-en-v1.5",
            "bge-large-en-v1.5",
            "bge-m3",
            "jina-embeddings-v2-small-en",
            "embeddinggemma-300m",
            "multi-qa-mpnet-base-cos-v1",
        ]
    );
}

#[test]
fn catalog_entry_fields_match_the_readme_table() {
    let entries = catalog();
    let dims: Vec<u32> = entries.iter().map(|e| e.dimensions).collect();
    let tokens: Vec<usize> = entries.iter().map(|e| e.max_tokens).collect();
    assert_eq!(dims, vec![384, 384, 768, 768, 1024, 1024, 512, 768, 768]);
    assert_eq!(tokens, vec![512, 512, 512, 512, 512, 8192, 8192, 2048, 512]);
}

#[test]
fn find_exact_name() {
    let e = find("bge-m3").expect("bge-m3 is in the catalog");
    assert_eq!(e.repo, "BAAI/bge-m3");
    assert_eq!(e.tokenizer_path, "onnx/tokenizer.json");
    assert_eq!(e.extra_files, vec![("onnx/model.onnx_data", "model.onnx_data")]);
    assert_eq!(e.dimensions, 1024);
    assert_eq!(e.max_tokens, 8192);
}

#[test]
fn find_ignores_ascii_case() {
    let e = find("ALL-minilm-L6-V2").expect("case is ignored");
    assert_eq!(e.name, "all-MiniLM-L6-v2");
    assert_eq!(e.repo, "sentence-transformers/all-MiniLM-L6-v2");
}

#[test]
fn find_every_catalog_name() {
    for entry in catalog() {
        let found = find(entry.name).expect("every catalog name is found");
        assert_eq!(found, entry);
        let upper = entry.name.to_ascii_uppercase();
        assert_eq!(find(&upper).unwrap(), entry);
    }
}

#[test]
fn find_unknown_name() {
    assert!(find("no-such-model").is_none());
    assert!(find("").is_none());
    assert!(find("bge-m3 ").is_none());
}
