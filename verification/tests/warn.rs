use universal_devops_converter::warn::{FormatCtx, Warnings};

#[test]
fn identical_notices_are_collapsed() {
    let mut warnings = Warnings::new();
    warnings.lossy("dropped x");
    warnings.lossy("dropped x");
    assert_eq!(warnings.len(), 1);
}

#[test]
fn the_same_message_under_two_kinds_is_kept_twice() {
    let mut warnings = Warnings::new();
    warnings.lossy("x");
    warnings.degraded("x");
    assert_eq!(warnings.len(), 2);
}

#[test]
fn absorb_merges_and_deduplicates() {
    let mut ctx = FormatCtx::new(None);
    ctx.lossy("shared");
    ctx.degraded("only in ctx");

    let mut warnings = Warnings::new();
    warnings.lossy("shared");
    warnings.absorb(ctx.into_warnings());

    assert_eq!(warnings.len(), 2);
    assert!(warnings.messages().iter().any(|m| m == "only in ctx"));
}
