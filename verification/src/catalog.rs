//! The catalog of models that `onnx-http download <name>` knows about.
use vstd::prelude::*;

use crate::text::{eq_ignore_ascii_case, eq_ignore_ascii_case_spec};

verus! {

/// A known model that can be downloaded with `onnx-http download <name>`.
#[derive(Debug, Clone, PartialEq, Eq)]
pub struct ModelEntry {
    /// Model name (used as directory name under models/)
    pub name: &'static str,
    /// HuggingFace repository ID
    pub repo: &'static str,
    /// Path to the ONNX model file within the repo
    pub onnx_path: &'static str,
    /// Path to the tokenizer.json within the repo
    pub tokenizer_path: &'static str,
    /// Additional files to download as (path in the repo, local file name),
    /// e.g. model.onnx_data for large models
    pub extra_files: Vec<(&'static str, &'static str)>,
    /// Embedding dimensions
    pub dimensions: u32,
    /// Maximum token sequence length
    pub max_tokens: usize,
    /// Short description
    pub description: &'static str,
}

/// A catalog entry with every text taken by its characters.
pub struct EntryView {
    pub name: Seq<char>,
    pub repo: Seq<char>,
    pub onnx_path: Seq<char>,
    pub tokenizer_path: Seq<char>,
    pub extra_files: Seq<(Seq<char>, Seq<char>)>,
    pub dimensions: u32,
    pub max_tokens: usize,
    pub description: Seq<char>,
}

impl View for ModelEntry {
    type V = EntryView;

    open spec fn view(&self) -> EntryView {
        EntryView {
            name: self.name@,
            repo: self.repo@,
            onnx_path: self.onnx_path@,
            tokenizer_path: self.tokenizer_path@,
            extra_files: self.extra_files@.map_values(
                |f: (&'static str, &'static str)| (f.0@, f.1@),
            ),
            dimensions: self.dimensions,
            max_tokens: self.max_tokens,
            description: self.description@,
        }
    }
}

/// The catalog's entries, in the order in which they are listed.
pub open spec fn catalog_view() -> Seq<EntryView> {
    seq![
        EntryView {
            name: "all-MiniLM-L6-v2"@,
            repo: "sentence-transformers/all-MiniLM-L6-v2"@,
            onnx_path: "onnx/model.onnx"@,
            tokenizer_path: "tokenizer.json"@,
            extra_files: seq![],
            dimensions: 384,
            max_tokens: 512,
            description: "Fast, lightweight general-purpose embeddings"@,
        },
        EntryView {
            name: "all-MiniLM-L12-v2"@,
            repo: "sentence-transformers/all-MiniLM-L12-v2"@,
            onnx_path: "onnx/model.onnx"@,
            tokenizer_path: "tokenizer.json"@,
            extra_files: seq![],
            dimensions: 384,
            max_tokens: 512,
            description: "Better quality than L6, still fast"@,
        },
        EntryView {
            name: "all-mpnet-base-v2"@,
            repo: "sentence-transformers/all-mpnet-base-v2"@,
            onnx_path: "onnx/model.onnx"@,
            tokenizer_path: "tokenizer.json"@,
            extra_files: seq![],
            dimensions: 768,
            max_tokens: 512,
            description: "Best all-around sentence-transformers model"@,
        },
        EntryView {
            name: "bge-base-en-v1.5"@,
            repo: "BAAI/bge-base-en-v1.5"@,
            onnx_path: "onnx/model.onnx"@,
            tokenizer_path: "tokenizer.json"@,
            extra_files: seq![],
            dimensions: 768,
            max_tokens: 512,
            description: "Top retrieval/search quality, great for documents"@,
        },
        EntryView {
            name: "bge-large-en-v1.5"@,
            repo: "BAAI/bge-large-en-v1.5"@,
            onnx_path: "onnx/model.onnx"@,
            tokenizer_path: "tokenizer.json"@,
            extra_files: seq![],
            dimensions: 1024,
            max_tokens: 512,
            description: "Highest quality BGE model, 1024 dimensions"@,
        },
        EntryView {
            name: "bge-m3"@,
            repo: "BAAI/bge-m3"@,
            onnx_path: "onnx/model.onnx"@,
            tokenizer_path: "onnx/tokenizer.json"@,
            extra_files: seq![("onnx/model.onnx_data"@, "model.onnx_data"@)],
            dimensions: 1024,
            max_tokens: 8192,
            description: "8K context, multilingual, dense+sparse retrieval (2.3GB)"@,
        },
        EntryView {
            name: "jina-embeddings-v2-small-en"@,
            repo: "jinaai/jina-embeddings-v2-small-en"@,
            onnx_path: "model.onnx"@,
            tokenizer_path: "tokenizer.json"@,
            extra_files: seq![],
            dimensions: 512,
            max_tokens: 8192,
            description: "8K context, lightweight English embeddings (130MB)"@,
        },
        EntryView {
            name: "embeddinggemma-300m"@,
            repo: "onnx-community/embeddinggemma-300m-ONNX"@,
            onnx_path: "onnx/model.onnx"@,
            tokenizer_path: "tokenizer.json"@,
            extra_files: seq![("onnx/model.onnx_data"@, "model.onnx_data"@)],
            dimensions: 768,
            max_tokens: 2048,
            description: "Google Gemma, 2K context, multilingual (1.2GB)"@,
        },
        EntryView {
            name: "multi-qa-mpnet-base-cos-v1"@,
            repo: "sentence-transformers/multi-qa-mpnet-base-cos-v1"@,
            onnx_path: "onnx/model.onnx"@,
            tokenizer_path: "tokenizer.json"@,
            extra_files: seq![],
            dimensions: 768,
            max_tokens: 512,
            description: "Trained for semantic search and QA"@,
        },
    ]
}

/// Whether the catalog entry at `i` answers to `name` (ASCII case ignored).
pub open spec fn entry_matches(i: int, name: Seq<char>) -> bool {
    eq_ignore_ascii_case_spec(catalog_view()[i].name, name)
}

/// `found` is the first catalog entry whose name equals `name` with ASCII
/// case ignored, or nothing when no entry's name does.
pub open spec fn find_spec(name: Seq<char>, found: Option<EntryView>) -> bool {
    match found {
        Some(e) => exists|i: int|
            0 <= i < catalog_view().len() && entry_matches(i, name) && e == catalog_view()[i]
                && forall|j: int| 0 <= j < i ==> !entry_matches(j, name),
        None => forall|i: int| 0 <= i < catalog_view().len() ==> !entry_matches(i, name),
    }
}

/// The view of an optional entry.
pub open spec fn entry_opt_view(o: Option<ModelEntry>) -> Option<EntryView> {
    match o {
        Some(e) => Some(e@),
        None => None,
    }
}

/// The catalog's entries, in the order in which they are listed.
pub fn catalog() -> (entries: Vec<ModelEntry>)
    ensures
        entries@.map_values(|e: ModelEntry| e@) == catalog_view(),
{
    let entries = vec![
        ModelEntry {
            name: "all-MiniLM-L6-v2",
            repo: "sentence-transformers/all-MiniLM-L6-v2",
            onnx_path: "onnx/model.onnx",
            tokenizer_path: "tokenizer.json",
            extra_files: vec![],
            dimensions: 384,
            max_tokens: 512,
            description: "Fast, lightweight general-purpose embeddings",
        },
        ModelEntry {
            name: "all-MiniLM-L12-v2",
            repo: "sentence-transformers/all-MiniLM-L12-v2",
            onnx_path: "onnx/model.onnx",
            tokenizer_path: "tokenizer.json",
            extra_files: vec![],
            dimensions: 384,
            max_tokens: 512,
            description: "Better quality than L6, still fast",
        },
        ModelEntry {
            name: "all-mpnet-base-v2",
            repo: "sentence-transformers/all-mpnet-base-v2",
            onnx_path: "onnx/model.onnx",
            tokenizer_path: "tokenizer.json",
            extra_files: vec![],
            dimensions: 768,
            max_tokens: 512,
            description: "Best all-around sentence-transformers model",
        },
        ModelEntry {
            name: "bge-base-en-v1.5",
            repo: "BAAI/bge-base-en-v1.5",
            onnx_path: "onnx/model.onnx",
            tokenizer_path: "tokenizer.json",
            extra_files: vec![],
            dimensions: 768,
            max_tokens: 512,
            description: "Top retrieval/search quality, great for documents",
        },
        ModelEntry {
            name: "bge-large-en-v1.5",
            repo: "BAAI/bge-large-en-v1.5",
            onnx_path: "onnx/model.onnx",
            tokenizer_path: "tokenizer.json",
            extra_files: vec![],
            dimensions: 1024,
            max_tokens: 512,
            description: "Highest quality BGE model, 1024 dimensions",
        },
        ModelEntry {
            name: "bge-m3",
            repo: "BAAI/bge-m3",
            onnx_path: "onnx/model.onnx",
            tokenizer_path: "onnx/tokenizer.json",
            extra_files: vec![("onnx/model.onnx_data", "model.onnx_data")],
            dimensions: 1024,
            max_tokens: 8192,
            description: "8K context, multilingual, dense+sparse retrieval (2.3GB)",
        },
        ModelEntry {
            name: "jina-embeddings-v2-small-en",
            repo: "jinaai/jina-embeddings-v2-small-en",
            onnx_path: "model.onnx",
            tokenizer_path: "tokenizer.json",
            extra_files: vec![],
            dimensions: 512,
            max_tokens: 8192,
            description: "8K context, lightweight English embeddings (130MB)",
        },
        ModelEntry {
            name: "embeddinggemma-300m",
            repo: "onnx-community/embeddinggemma-300m-ONNX",
            onnx_path: "onnx/model.onnx",
            tokenizer_path: "tokenizer.json",
            extra_files: vec![("onnx/model.onnx_data", "model.onnx_data")],
            dimensions: 768,
            max_tokens: 2048,
            description: "Google Gemma, 2K context, multilingual (1.2GB)",
        },
        ModelEntry {
            name: "multi-qa-mpnet-base-cos-v1",
            repo: "sentence-transformers/multi-qa-mpnet-base-cos-v1",
            onnx_path: "onnx/model.onnx",
            tokenizer_path: "tokenizer.json",
            extra_files: vec![],
            dimensions: 768,
            max_tokens: 512,
            description: "Trained for semantic search and QA",
        },
    ];
    assert(entries@[0]@.extra_files =~= catalog_view()[0].extra_files);
    assert(entries@[1]@.extra_files =~= catalog_view()[1].extra_files);
    assert(entries@[2]@.extra_files =~= catalog_view()[2].extra_files);
    assert(entries@[3]@.extra_files =~= catalog_view()[3].extra_files);
    assert(entries@[4]@.extra_files =~= catalog_view()[4].extra_files);
    assert(entries@[5]@.extra_files =~= catalog_view()[5].extra_files);
    assert(entries@[6]@.extra_files =~= catalog_view()[6].extra_files);
    assert(entries@[7]@.extra_files =~= catalog_view()[7].extra_files);
    assert(entries@[8]@.extra_files =~= catalog_view()[8].extra_files);
    assert(entries@.map_values(|e: ModelEntry| e@) =~= catalog_view());
    entries
}

/// The first catalog entry whose name equals `name` with ASCII case ignored.
pub fn find(name: &str) -> (found: Option<ModelEntry>)
    ensures
        find_spec(name@, entry_opt_view(found)),
{
    let mut entries = catalog();
    let n = entries.len();
    let mut i: usize = 0;
    while i < n
        invariant
            n == entries.len(),
            entries@.map_values(|e: ModelEntry| e@) == catalog_view(),
            i <= n,
            forall|j: int| 0 <= j < i ==> !entry_matches(j, name@),
        decreases n - i,
    {
        assert(entries@[i as int]@ == catalog_view()[i as int]);
        if eq_ignore_ascii_case(entries[i].name, name) {
            let ghost before = entries@;
            let e = entries.remove(i);
            assert(e == before[i as int]);
            assert(e@ == catalog_view()[i as int]);
            assert(entry_matches(i as int, name@));
            return Some(e);
        }
        i = i + 1;
    }
    None
}

/// No two catalog names are equal with ASCII case ignored.
pub proof fn lemma_catalog_names_distinct(i: int, j: int)
    requires
        0 <= i < catalog_view().len(),
        0 <= j < catalog_view().len(),
        i != j,
    ensures
        !eq_ignore_ascii_case_spec(catalog_view()[i].name, catalog_view()[j].name),
{
    reveal_strlit("all-MiniLM-L6-v2");
    reveal_strlit("all-MiniLM-L12-v2");
    reveal_strlit("all-mpnet-base-v2");
    reveal_strlit("bge-base-en-v1.5");
    reveal_strlit("bge-large-en-v1.5");
    reveal_strlit("bge-m3");
    reveal_strlit("jina-embeddings-v2-small-en");
    reveal_strlit("embeddinggemma-300m");
    reveal_strlit("multi-qa-mpnet-base-cos-v1");
    let a = catalog_view()[i].name;
    let b = catalog_view()[j].name;
    if a.len() == b.len() {
        if (i == 1 && j == 2) || (i == 2 && j == 1) {
            assert(crate::text::fold_ascii(a[5]) != crate::text::fold_ascii(b[5]));
        } else {
            assert(crate::text::fold_ascii(a[0]) != crate::text::fold_ascii(b[0]));
        }
    }
}

/// Every catalog model is found under its own name, written in any ASCII case.
pub proof fn lemma_find_catalog_entry(i: int, name: Seq<char>)
    requires
        0 <= i < catalog_view().len(),
        eq_ignore_ascii_case_spec(catalog_view()[i].name, name),
    ensures
        find_spec(name, Some(catalog_view()[i])),
{
    assert forall|j: int| 0 <= j < i implies !entry_matches(j, name) by {
        lemma_catalog_names_distinct(i, j);
        if entry_matches(j, name) {
            let a = catalog_view()[j].name;
            let b = catalog_view()[i].name;
            assert forall|k: int| 0 <= k < a.len() implies #[trigger] crate::text::fold_ascii(a[k])
                == crate::text::fold_ascii(b[k]) by {
                assert(crate::text::fold_ascii(a[k]) == crate::text::fold_ascii(name[k]));
                assert(crate::text::fold_ascii(b[k]) == crate::text::fold_ascii(name[k]));
            }
        }
    }
    assert(entry_matches(i, name));
}

proof fn lemma_same_name_same_entry(i: int, j: int)
    requires
        0 <= i < catalog_view().len(),
        0 <= j < catalog_view().len(),
        catalog_view()[i].name == catalog_view()[j].name,
    ensures
        i == j,
{
    if i != j {
        lemma_catalog_names_distinct(i, j);
        assert(eq_ignore_ascii_case_spec(catalog_view()[i].name, catalog_view()[j].name));
    }
}

/// The catalog's models as the README lists them, each with its dimensions,
/// maximum tokens and description, and the HuggingFace repository and the
/// paths in it that it is fetched from. The
/// two models whose ONNX export keeps its weights in a separate file, bge-m3
/// and embeddinggemma-300m, and only they, fetch `onnx/model.onnx_data` as
/// `model.onnx_data`.
pub proof fn lemma_catalog_models(i: int)
    requires
        0 <= i < catalog_view().len(),
    ensures
        catalog_view()[i].name == "all-MiniLM-L6-v2"@ ==> catalog_view()[i].repo == "sentence-transformers/all-MiniLM-L6-v2"@
            && catalog_view()[i].onnx_path == "onnx/model.onnx"@ && catalog_view()[i].tokenizer_path
            == "tokenizer.json"@ && catalog_view()[i].description == "Fast, lightweight general-purpose embeddings"@
            && catalog_view()[i].dimensions == 384 && catalog_view()[i].max_tokens == 512,
        catalog_view()[i].name == "all-MiniLM-L12-v2"@ ==> catalog_view()[i].repo == "sentence-transformers/all-MiniLM-L12-v2"@
            && catalog_view()[i].onnx_path == "onnx/model.onnx"@ && catalog_view()[i].tokenizer_path
            == "tokenizer.json"@ && catalog_view()[i].description == "Better quality than L6, still fast"@
            && catalog_view()[i].dimensions == 384 && catalog_view()[i].max_tokens == 512,
        catalog_view()[i].name == "all-mpnet-base-v2"@ ==> catalog_view()[i].repo == "sentence-transformers/all-mpnet-base-v2"@
            && catalog_view()[i].onnx_path == "onnx/model.onnx"@ && catalog_view()[i].tokenizer_path
            == "tokenizer.json"@ && catalog_view()[i].description == "Best all-around sentence-transformers model"@
            && catalog_view()[i].dimensions == 768 && catalog_view()[i].max_tokens == 512,
        catalog_view()[i].name == "bge-base-en-v1.5"@ ==> catalog_view()[i].repo == "BAAI/bge-base-en-v1.5"@
            && catalog_view()[i].onnx_path == "onnx/model.onnx"@ && catalog_view()[i].tokenizer_path
            == "tokenizer.json"@ && catalog_view()[i].description == "Top retrieval/search quality, great for documents"@
            && catalog_view()[i].dimensions == 768 && catalog_view()[i].max_tokens == 512,
        catalog_view()[i].name == "bge-large-en-v1.5"@ ==> catalog_view()[i].repo == "BAAI/bge-large-en-v1.5"@
            && catalog_view()[i].onnx_path == "onnx/model.onnx"@ && catalog_view()[i].tokenizer_path
            == "tokenizer.json"@ && catalog_view()[i].description == "Highest quality BGE model, 1024 dimensions"@
            && catalog_view()[i].dimensions == 1024 && catalog_view()[i].max_tokens == 512,
        catalog_view()[i].name == "bge-m3"@ ==> catalog_view()[i].repo == "BAAI/bge-m3"@
            && catalog_view()[i].onnx_path == "onnx/model.onnx"@ && catalog_view()[i].tokenizer_path
            == "onnx/tokenizer.json"@ && catalog_view()[i].description == "8K context, multilingual, dense+sparse retrieval (2.3GB)"@
            && catalog_view()[i].dimensions == 1024 && catalog_view()[i].max_tokens == 8192,
        catalog_view()[i].name == "jina-embeddings-v2-small-en"@ ==> catalog_view()[i].repo == "jinaai/jina-embeddings-v2-small-en"@
            && catalog_view()[i].onnx_path == "model.onnx"@ && catalog_view()[i].tokenizer_path
            == "tokenizer.json"@ && catalog_view()[i].description == "8K context, lightweight English embeddings (130MB)"@
            && catalog_view()[i].dimensions == 512 && catalog_view()[i].max_tokens == 8192,
        catalog_view()[i].name == "embeddinggemma-300m"@ ==> catalog_view()[i].repo == "onnx-community/embeddinggemma-300m-ONNX"@
            && catalog_view()[i].onnx_path == "onnx/model.onnx"@ && catalog_view()[i].tokenizer_path
            == "tokenizer.json"@ && catalog_view()[i].description == "Google Gemma, 2K context, multilingual (1.2GB)"@
            && catalog_view()[i].dimensions == 768 && catalog_view()[i].max_tokens == 2048,
        catalog_view()[i].name == "multi-qa-mpnet-base-cos-v1"@ ==> catalog_view()[i].repo == "sentence-transformers/multi-qa-mpnet-base-cos-v1"@
            && catalog_view()[i].onnx_path == "onnx/model.onnx"@ && catalog_view()[i].tokenizer_path
            == "tokenizer.json"@ && catalog_view()[i].description == "Trained for semantic search and QA"@
            && catalog_view()[i].dimensions == 768 && catalog_view()[i].max_tokens == 512,
        catalog_view()[i].extra_files.len() > 0 <==> (catalog_view()[i].name == "bge-m3"@
            || catalog_view()[i].name == "embeddinggemma-300m"@),
        catalog_view()[i].extra_files.len() > 0 ==> catalog_view()[i].extra_files == seq![
            ("onnx/model.onnx_data"@, "model.onnx_data"@),
        ],
{
    let e = catalog_view()[i];
    if e.name == "all-MiniLM-L6-v2"@ {
        lemma_same_name_same_entry(i, 0);
    }
    if e.name == "all-MiniLM-L12-v2"@ {
        lemma_same_name_same_entry(i, 1);
    }
    if e.name == "all-mpnet-base-v2"@ {
        lemma_same_name_same_entry(i, 2);
    }
    if e.name == "bge-base-en-v1.5"@ {
        lemma_same_name_same_entry(i, 3);
    }
    if e.name == "bge-large-en-v1.5"@ {
        lemma_same_name_same_entry(i, 4);
    }
    if e.name == "bge-m3"@ {
        lemma_same_name_same_entry(i, 5);
    }
    if e.name == "jina-embeddings-v2-small-en"@ {
        lemma_same_name_same_entry(i, 6);
    }
    if e.name == "embeddinggemma-300m"@ {
        lemma_same_name_same_entry(i, 7);
    }
    if e.name == "multi-qa-mpnet-base-cos-v1"@ {
        lemma_same_name_same_entry(i, 8);
    }
    assert(i == 0 || i == 1 || i == 2 || i == 3 || i == 4 || i == 5 || i == 6 || i == 7 || i == 8);
}

} // verus!
