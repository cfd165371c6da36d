use dropshot_api_manager::errors::{ErrorAccumulator, InlineErrorChain, ListArgs};

#[test]
fn accumulator_keeps_errors_and_warnings_apart() {
    let mut acc = ErrorAccumulator::new();
    acc.error(anyhow::Error::msg("first error"));
    acc.warning(anyhow::Error::msg("a warning"));
    acc.error(anyhow::Error::msg("second error"));
    let errors: Vec<String> = acc.iter_errors().iter().map(|e| e.to_string()).collect();
    let warnings: Vec<String> = acc.iter_warnings().iter().map(|e| e.to_string()).collect();
    assert_eq!(errors, vec!["first error", "second error"]);
    assert_eq!(warnings, vec!["a warning"]);
}

#[test]
fn inline_chain_joins_causes() {
    let chain = InlineErrorChain::new(vec![
        "loading documents".to_string(),
        "reading file".to_string(),
        "permission denied".to_string(),
    ]);
    assert_eq!(chain.to_string(), "loading documents: reading file: permission denied");
    assert_eq!(InlineErrorChain::new(vec!["only".to_string()]).to_string(), "only");
    assert_eq!(InlineErrorChain::new(Vec::new()).to_string(), "");
    assert!(!ListArgs { verbose: false }.verbose);
}
