use chunk_pipeline::assemble::assemble;
use chunk_pipeline::config::WindowConfig;
use chunk_pipeline::dispatch::collect_in_order;
use chunk_pipeline::tokenizer::{copy_range, Tokenizer};

const SAMPLE: &str = "According to all known laws of aviation, there is no way a bee \
should be able to fly. Its wings are too small to get its fat little body off the \
ground. The bee, of course, flies anyway because bees don't care what humans think \
is impossible.";

#[test]
fn tokenize_round_trips() {
    let tk = Tokenizer::new().unwrap();
    let tokens = tk.tokenize(SAMPLE);
    assert!(tokens.len() > 10, "a real encoding breaks the text into many tokens");
    let text = tk.decode_range(&tokens, 0, tokens.len()).unwrap();
    assert_eq!(text, SAMPLE);
}

#[test]
fn tokenize_empty_text() {
    let tk = Tokenizer::new().unwrap();
    let tokens = tk.tokenize("");
    assert!(tokens.is_empty());
    assert_eq!(tk.decode_range(&tokens, 0, 0).unwrap(), "");
}

#[test]
fn copy_range_takes_a_sub_sequence() {
    let tokens = vec![5u32, 6, 7, 8, 9];
    assert_eq!(copy_range(&tokens, 1, 4), vec![6u32, 7, 8]);
    assert_eq!(copy_range(&tokens, 2, 2), Vec::<u32>::new());
}

#[test]
fn prepare_windows_decodes_each_range() {
    let tk = Tokenizer::new().unwrap();
    let config = WindowConfig { context_limit: 10, overlap_margin: 2 };
    let (tokens, ds) = tk.plan_document(SAMPLE, &config).unwrap();
    let first = tk.prepare_windows(&tokens, &ds[0]).unwrap();
    assert_eq!(first.context, "", "the first chunk has no leading context");
    assert!(!first.content.is_empty());
    let last = tk.prepare_windows(&tokens, &ds[ds.len() - 1]).unwrap();
    assert_eq!(last.suffix, "", "the last chunk has no trailing suffix");
}

#[test]
fn prepare_windows_rejects_ill_formed_descriptor() {
    let tk = Tokenizer::new().unwrap();
    let tokens = tk.tokenize(SAMPLE);
    let config = WindowConfig { context_limit: 10, overlap_margin: 2 };
    let ds = chunk_pipeline::planner::plan(tokens.len(), &config).unwrap();
    let mut bad = ds[0];
    bad.suffix_end = tokens.len() + 1;
    assert!(tk.prepare_windows(&tokens, &bad).is_none());
}

#[test]
fn identity_transform_reconstructs_document() {
    // An identity transform over the pipeline: plan, decode each chunk's
    // windows, keep the content text as the outcome (completing in reverse
    // order), place by index, reassemble.  The document comes back whole.
    let tk = Tokenizer::new().unwrap();
    let config = WindowConfig { context_limit: 10, overlap_margin: 2 };
    let (tokens, ds) = tk.plan_document(SAMPLE, &config).unwrap();
    assert!(ds.len() > 2);
    let mut pairs: Vec<(usize, Option<String>)> = Vec::new();
    for d in ds.iter().rev() {
        let outcome = tk.prepare_windows(&tokens, d).map(|w| w.content);
        pairs.push((d.index, outcome));
    }
    let outcomes = collect_in_order(&pairs, ds.len()).unwrap();
    assert_eq!(assemble(&outcomes), SAMPLE);
}

#[test]
fn empty_document_full_pipeline() {
    // Zero tokens: zero descriptors, zero dispatched tasks, empty document.
    let tk = Tokenizer::new().unwrap();
    let config = WindowConfig { context_limit: 500, overlap_margin: 50 };
    let (tokens, ds) = tk.plan_document("", &config).unwrap();
    assert!(tokens.is_empty());
    assert!(ds.is_empty());
    let outcomes = collect_in_order(&Vec::new(), 0).unwrap();
    assert_eq!(assemble(&outcomes), "");
}
