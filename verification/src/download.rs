//! What downloading a catalog model involves: which files to fetch from
//! which URL and under which local names, the per-model configuration that is
//! written next to them, and the lines that list models.
use vstd::prelude::*;

use crate::catalog::{find, EntryView, ModelEntry};
use crate::text::{
    chars_of, decimal, decimal_string, pad_left, pad_left_spec, pad_right, pad_right_spec,
    parse_usize_chars, parse_usize_spec,
};

verus! {

/// `https://huggingface.co/<repo>/resolve/main/<file_path>`.
pub open spec fn hf_url_spec(repo: Seq<char>, file_path: Seq<char>) -> Seq<char> {
    "https://huggingface.co/"@ + repo + "/resolve/main/"@ + file_path
}

/// The URL from which `file_path` of the HuggingFace repository `repo` is fetched.
pub fn hf_url(repo: &str, file_path: &str) -> (url: String)
    ensures
        url@ == hf_url_spec(repo@, file_path@),
{
    let mut url = "https://huggingface.co/".to_owned();
    url.append(repo);
    url.append("/resolve/main/");
    url.append(file_path);
    url
}

/// The files of a model: the ONNX model as `model.onnx`, the tokenizer as
/// `tokenizer.json`, then the extra files, as (path in the repo, local name).
pub open spec fn download_files_spec(e: EntryView) -> Seq<(Seq<char>, Seq<char>)> {
    seq![(e.onnx_path, "model.onnx"@), (e.tokenizer_path, "tokenizer.json"@)] + e.extra_files
}

/// The files to fetch for `entry`, in order, as (path in the repo, local file name).
pub fn download_files(entry: &ModelEntry) -> (files: Vec<(&'static str, &'static str)>)
    ensures
        files@.map_values(|f: (&'static str, &'static str)| (f.0@, f.1@)) == download_files_spec(
            entry@,
        ),
{
    let mut files: Vec<(&'static str, &'static str)> = Vec::new();
    files.push((entry.onnx_path, "model.onnx"));
    files.push((entry.tokenizer_path, "tokenizer.json"));
    let ghost head = files@;
    for k in 0..entry.extra_files.len()
        invariant
            files@ == head + entry.extra_files@.take(k as int),
    {
        files.push(entry.extra_files[k]);
        assert(entry.extra_files@.take(k + 1) =~= entry.extra_files@.take(k as int).push(
            entry.extra_files@[k as int],
        ));
        assert(files@ =~= head + entry.extra_files@.take(k + 1));
    }
    assert(entry.extra_files@.take(entry.extra_files@.len() as int) =~= entry.extra_files@);
    assert(files@.map_values(|f: (&'static str, &'static str)| (f.0@, f.1@))
        =~= download_files_spec(entry@));
    files
}

/// The `model_config.json` written next to a downloaded model.
pub open spec fn model_config_spec(max_tokens: usize) -> Seq<char> {
    "{\"max_tokens\": "@ + decimal(max_tokens as nat) + "}\n"@
}

/// The per-model settings written as `model_config.json`.
pub fn model_config_json(max_tokens: usize) -> (json: String)
    ensures
        json@ == model_config_spec(max_tokens),
{
    let mut json = "{\"max_tokens\": ".to_owned();
    let n = decimal_string(max_tokens as u64);
    json.append(n.as_str());
    json.append("}\n");
    json
}

/// Maximum sequence length of a model that neither states its own nor is in
/// the catalog: BERT-style models accept 512 tokens.
pub const MAX_SEQUENCE_LENGTH: usize = 512;

/// What `model_config.json` begins with.
pub open spec fn config_prefix() -> Seq<char> {
    "{\"max_tokens\": "@
}

/// The maximum sequence length that a `model_config.json` text states: the
/// text that `model_config_json` writes, its final newline optional; `None`
/// for any other text.
pub open spec fn config_max_tokens(text: Seq<char>) -> Option<usize> {
    let body = if text.len() > 0 && text.last() == '\n' {
        text.drop_last()
    } else {
        text
    };
    if body.len() > config_prefix().len() && body.take(config_prefix().len() as int)
        == config_prefix() && body.last() == '}' {
        parse_usize_spec(body.subrange(config_prefix().len() as int, body.len() - 1))
    } else {
        None
    }
}

/// Reads the maximum sequence length out of a `model_config.json` text.
pub fn parse_model_config(text: &str) -> (r: Option<usize>)
    ensures
        r == config_max_tokens(text@),
{
    let x = chars_of(text);
    let mut end: usize = x.len();
    if end > 0 && x[end - 1] == '\n' {
        end = end - 1;
    }
    let ghost body = x@.take(end as int);
    assert(body =~= (if text@.len() > 0 && text@.last() == '\n' {
        text@.drop_last()
    } else {
        text@
    }));
    let prefix = chars_of("{\"max_tokens\": ");
    proof {
        reveal_strlit("{\"max_tokens\": ");
    }
    assert(prefix@ == config_prefix());
    if end <= prefix.len() || x[end - 1] != '}' {
        return None;
    }
    let mut i: usize = 0;
    while i < prefix.len()
        invariant
            prefix@ == config_prefix(),
            x@ == text@,
            body == (if text@.len() > 0 && text@.last() == '\n' {
                text@.drop_last()
            } else {
                text@
            }),
            body.last() == '}',
            prefix@.len() < end <= x@.len(),
            body == x@.take(end as int),
            i <= prefix@.len(),
            forall|k: int| 0 <= k < i ==> #[trigger] x@[k] == prefix@[k],
        decreases prefix.len() - i,
    {
        if x[i] != prefix[i] {
            assert(body.take(prefix@.len() as int)[i as int] == x@[i as int]);
            assert(body.take(prefix@.len() as int)[i as int] != config_prefix()[i as int]);
            return None;
        }
        i = i + 1;
    }
    assert(body.take(prefix@.len() as int) =~= config_prefix());
    let r = parse_usize_chars(&x, prefix.len(), end - 1);
    assert(x@.subrange(prefix@.len() as int, end - 1) =~= body.subrange(
        config_prefix().len() as int,
        body.len() - 1,
    ));
    r
}

/// What `model_config_json` writes, `parse_model_config` reads back.
pub proof fn lemma_model_config_round_trip(max_tokens: usize)
    ensures
        config_max_tokens(model_config_spec(max_tokens)) == Some(max_tokens),
{
    reveal_strlit("{\"max_tokens\": ");
    reveal_strlit("}\n");
    let d = decimal(max_tokens as nat);
    crate::text::lemma_decimal_reads_back(max_tokens as nat);
    let text = model_config_spec(max_tokens);
    let body = text.drop_last();
    assert(body =~= config_prefix() + d + seq!['}']);
    assert(body.take(config_prefix().len() as int) =~= config_prefix());
    assert(body.subrange(config_prefix().len() as int, body.len() - 1) =~= d);
}

/// The optional `model_config.json` text's maximum sequence length, if it
/// states one.
pub open spec fn stated_max_tokens(config: Option<&str>) -> Option<usize> {
    match config {
        Some(t) => config_max_tokens(t@),
        None => None,
    }
}

/// The maximum sequence length of a catalog entry, or `MAX_SEQUENCE_LENGTH`
/// for a model that the catalog does not hold.
pub open spec fn catalog_max_tokens(found: Option<EntryView>) -> usize {
    match found {
        Some(e) => e.max_tokens,
        None => MAX_SEQUENCE_LENGTH,
    }
}

/// The maximum sequence length of an installed model: what its
/// `model_config.json` states, else that of the catalog model of the same
/// name, else `MAX_SEQUENCE_LENGTH`.
pub fn model_max_tokens(config: Option<&str>, name: &str) -> (n: usize)
    ensures
        match stated_max_tokens(config) {
            Some(m) => n == m,
            None => exists|found: Option<EntryView>|
                crate::catalog::find_spec(name@, found) && n == #[trigger] catalog_max_tokens(found),
        },
{
    if let Some(t) = config {
        if let Some(m) = parse_model_config(t) {
            return m;
        }
    }
    let found = find(name);
    let ghost found_view = crate::catalog::entry_opt_view(found);
    let n = match found {
        Some(e) => e.max_tokens,
        None => MAX_SEQUENCE_LENGTH,
    };
    assert(catalog_max_tokens(found_view) == n);
    n
}

/// Downloading a catalog model fetches its ONNX model as `model.onnx` and its
/// tokenizer as `tokenizer.json`; bge-m3 and embeddinggemma-300m, whose
/// weights sit in a separate file, also fetch `onnx/model.onnx_data` as
/// `model.onnx_data`, so three files, and every other model two.
pub proof fn lemma_catalog_download_files(i: int)
    requires
        0 <= i < crate::catalog::catalog_view().len(),
    ensures
        ({
            let e = crate::catalog::catalog_view()[i];
            let files = download_files_spec(e);
            &&& files.len() == if e.name == "bge-m3"@ || e.name == "embeddinggemma-300m"@ {
                3int
            } else {
                2int
            }
            &&& files[0] == (e.onnx_path, "model.onnx"@)
            &&& files[1] == (e.tokenizer_path, "tokenizer.json"@)
            &&& files.len() == 3 ==> files[2] == ("onnx/model.onnx_data"@, "model.onnx_data"@)
        }),
{
    crate::catalog::lemma_catalog_models(i);
    let e = crate::catalog::catalog_view()[i];
    if e.extra_files.len() > 0 {
        assert(download_files_spec(e)[2] == e.extra_files[0]);
    }
}

/// The message for a download of a model that the catalog does not know.
pub fn unknown_model_message(name: &str) -> (m: String)
    ensures
        m@ == "Unknown model '"@ + name@
            + "'. Use 'onnx-http download --list' to see available models."@,
{
    let mut m = "Unknown model '".to_owned();
    m.append(name);
    m.append("'. Use 'onnx-http download --list' to see available models.");
    m
}

/// A line of a model table: the name left-aligned in 30 columns, the two
/// numbers right-aligned in 6 and 8 columns, then the last column.
pub open spec fn table_row_spec(
    name: Seq<char>,
    dims: Seq<char>,
    tokens: Seq<char>,
    last: Seq<char>,
) -> Seq<char> {
    "  "@ + pad_right_spec(name, 30) + " "@ + pad_left_spec(dims, 6) + " "@ + pad_left_spec(
        tokens,
        8,
    ) + "  "@ + last
}

/// A line of a model table, as `"  {:<30} {:>6} {:>8}  {}"` writes it.
pub fn table_row(name: &str, dims: &str, tokens: &str, last: &str) -> (row: String)
    ensures
        row@ == table_row_spec(name@, dims@, tokens@, last@),
{
    let mut row = "  ".to_owned();
    let c1 = pad_right(name, 30);
    row.append(c1.as_str());
    row.append(" ");
    let c2 = pad_left(dims, 6);
    row.append(c2.as_str());
    row.append(" ");
    let c3 = pad_left(tokens, 8);
    row.append(c3.as_str());
    row.append("  ");
    row.append(last);
    row
}

/// The catalog line of `entry`, marked when the model is installed.
pub fn catalog_row(entry: &ModelEntry, installed: bool) -> (row: String)
    ensures
        row@ == table_row_spec(
            entry@.name,
            decimal(entry@.dimensions as nat),
            decimal(entry@.max_tokens as nat),
            entry@.description + if installed {
                " ✓"@
            } else {
                ""@
            },
        ),
{
    let dims = decimal_string(entry.dimensions as u64);
    let tokens = decimal_string(entry.max_tokens as u64);
    let mut last = entry.description.to_owned();
    if installed {
        last.append(" ✓");
    } else {
        last.append("");
    }
    table_row(entry.name, dims.as_str(), tokens.as_str(), last.as_str())
}

/// The line of an installed model named `name`: its catalog dimensions, token
/// limit and HuggingFace source when the catalog knows it (ASCII case
/// ignored), otherwise `?`, `?` and `custom`.
pub fn installed_row(name: &str) -> (row: String)
    ensures
        exists|found: Option<EntryView>|
            crate::catalog::find_spec(name@, found) && row@ == match found {
                Some(e) => table_row_spec(
                    name@,
                    decimal(e.dimensions as nat),
                    decimal(e.max_tokens as nat),
                    "huggingface.co/"@ + e.repo,
                ),
                None => table_row_spec(name@, "?"@, "?"@, "custom"@),
            },
{
    match find(name) {
        Some(e) => {
            let dims = decimal_string(e.dimensions as u64);
            let tokens = decimal_string(e.max_tokens as u64);
            let mut source = "huggingface.co/".to_owned();
            source.append(e.repo);
            let row = table_row(name, dims.as_str(), tokens.as_str(), source.as_str());
            assert(crate::catalog::find_spec(name@, Some(e@)));
            row
        },
        None => {
            let row = table_row(name, "?", "?", "custom");
            assert(crate::catalog::find_spec(name@, None));
            row
        },
    }
}

/// The line announcing the download of `entry`: name, dimensions, token
/// limit in thousands (rounded down) and description.
pub fn download_banner(entry: &ModelEntry) -> (line: String)
    ensures
        line@ == "📥 Downloading '"@ + entry@.name + "' ("@ + decimal(entry@.dimensions as nat)
            + " dims, "@ + decimal((entry@.max_tokens / 1000) as nat) + "K tokens) — "@
            + entry@.description,
{
    let mut line = "📥 Downloading '".to_owned();
    line.append(entry.name);
    line.append("' (");
    let dims = decimal_string(entry.dimensions as u64);
    line.append(dims.as_str());
    line.append(" dims, ");
    let thousands = decimal_string((entry.max_tokens / 1000) as u64);
    line.append(thousands.as_str());
    line.append("K tokens) — ");
    line.append(entry.description);
    line
}

} // verus!
