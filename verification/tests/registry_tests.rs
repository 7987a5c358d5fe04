use onnx_http::registry::{ModelRegistry, RegistryError};

fn s(x: &str) -> String {
    x.to_string()
}

#[test]
fn registry_sorts_names_and_defaults_to_first() {
    let reg = ModelRegistry::new(vec![(s("bge-m3"), 1), (s("all-mpnet-base-v2"), 2), (s("Zeta"), 3)], None)
        .unwrap();
    let names: Vec<&str> = reg.model_names().into_iter().map(|n| n.as_str()).collect();
    assert_eq!(names, vec!["Zeta", "all-mpnet-base-v2", "bge-m3"]);
    assert_eq!(reg.default_model_name(), "Zeta");
    assert_eq!(reg.get("bge-m3"), Some(&1));
    assert_eq!(reg.get("all-mpnet-base-v2"), Some(&2));
    assert_eq!(reg.get("BGE-M3"), None);
    assert_eq!(reg.get("missing"), None);
}

#[test]
fn registry_later_model_replaces_earlier_one() {
    let reg = ModelRegistry::new(vec![(s("a"), 1), (s("b"), 2), (s("a"), 3)], None).unwrap();
    assert_eq!(reg.get("a"), Some(&3));
    assert_eq!(reg.model_names().len(), 2);
}

#[test]
fn registry_uses_requested_default() {
    let reg = ModelRegistry::new(vec![(s("a"), 1), (s("b"), 2)], Some(s("b"))).unwrap();
    assert_eq!(reg.default_model_name(), "b");
}

#[test]
fn registry_refuses_unknown_default() {
    let err = ModelRegistry::new(vec![(s("b"), 1), (s("a"), 2)], Some(s("c"))).err().unwrap();
    assert_eq!(
        err,
        RegistryError::DefaultNotFound { name: s("c"), available: vec![s("a"), s("b")] }
    );
    assert_eq!(err.message("models"), "Default model 'c' not found. Available: [\"a\", \"b\"]");
}

#[test]
fn registry_refuses_no_models() {
    let err = ModelRegistry::<u8>::new(vec![], None).err().unwrap();
    assert_eq!(err, RegistryError::NoModels);
    assert_eq!(
        err.message("models"),
        "No models found. Place model subdirectories in models (each containing model.onnx and tokenizer.json)."
    );
    let err = ModelRegistry::<u8>::new(vec![], Some(s("x"))).err().unwrap();
    assert_eq!(err, RegistryError::NoModels);
}
