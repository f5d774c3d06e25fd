use std::collections::HashSet;
use swc_core::common::{BytePos, Span};
use tree_shake::asset::{
    analyze, split_module, AnalyzeEcmascriptModuleResult, AnalyzedReference, AsyncModule, EcmascriptModuleAsset,
    EcmascriptModuleAssetType, EcmascriptModulePartAsset, ModuleReference, SingleModuleReference,
};
use tree_shake::error::PartError;
use tree_shake::ident::AssetIdent;
use tree_shake::parse::{Export, ParseResult, Statement};
use tree_shake::part::ModulePart;
use tree_shake::split::SplitResult;

fn line(lo: u32, hi: u32, declares: &[u32], uses: &[u32], side_effects: bool, dynamic: bool) -> Statement {
    Statement {
        span: Span::new(BytePos(lo), BytePos(hi)),
        declares: declares.to_vec(),
        uses: uses.to_vec(),
        side_effects,
        dynamic,
    }
}

fn found(request: &str, external_module: bool) -> AnalyzedReference {
    AnalyzedReference { request: request.to_string(), external_module }
}

fn analysis(references: Vec<AnalyzedReference>, async_module: Option<AsyncModule>) -> AnalyzeEcmascriptModuleResult {
    AnalyzeEcmascriptModuleResult { references, exports: vec!["a".to_string(), "b".to_string()], async_module }
}

fn module(dynamic: bool, async_module: Option<AsyncModule>) -> EcmascriptModuleAsset {
    EcmascriptModuleAsset {
        ident: AssetIdent::from_path("src/entry.js".to_string()),
        content: "export const a = 1; export const b = a + 1; console.log(a);".to_string(),
        parsed: ParseResult {
            statements: vec![
                line(0, 19, &[1], &[], false, false),
                line(20, 43, &[2], &[1], false, false),
                line(44, 59, &[], &[1, 3], true, dynamic),
            ],
            exports: vec![
                Export { name: "a".to_string(), binding: 1 },
                Export { name: "b".to_string(), binding: 2 },
            ],
        },
        ty: EcmascriptModuleAssetType::Ecmascript,
        analysis: analysis(vec![found("./whole", false), found("lodash", true)], async_module),
    }
}

fn to_part<'a>(
    module: &'a EcmascriptModuleAsset,
    part: ModulePart,
    import_externals: bool,
    description: &str,
) -> ModuleReference<'a> {
    ModuleReference::Single(SingleModuleReference {
        asset: EcmascriptModulePartAsset::new(module, part, import_externals),
        description: description.to_string(),
    })
}

#[test]
fn facade_refers_to_evaluation_and_exports() {
    let whole = module(false, None);
    let node = EcmascriptModulePartAsset::new(&whole, ModulePart::Facade, true);
    let references = node.references(&analysis(vec![found("./scoped", false)], None)).unwrap();
    assert_eq!(
        references,
        vec![
            to_part(&whole, ModulePart::Evaluation, true, "ecmascript module evaluation"),
            to_part(&whole, ModulePart::Exports, true, "ecmascript reexports"),
            ModuleReference::Analyzed(found("./scoped", false)),
        ]
    );
}

#[test]
fn exports_refer_to_each_export() {
    let whole = module(false, None);
    let node = EcmascriptModulePartAsset::new(&whole, ModulePart::Exports, false);
    let references = node.references(&analysis(vec![], None)).unwrap();
    assert_eq!(
        references,
        vec![
            to_part(&whole, ModulePart::Export("a".to_string()), false, "ecmascript export 'a'"),
            to_part(&whole, ModulePart::Export("b".to_string()), false, "ecmascript export 'b'"),
        ]
    );
}

#[test]
fn three_lines_split_into_five_parts_refer_to_what_they_need() {
    let whole = module(false, None);
    let scoped = analysis(vec![found("./scoped", false)], None);
    let b = EcmascriptModulePartAsset::new(&whole, ModulePart::Export("b".to_string()), true);
    assert_eq!(
        b.references(&scoped).unwrap(),
        vec![
            to_part(&whole, ModulePart::Internal(0), true, "ecmascript module part"),
            ModuleReference::Analyzed(found("./scoped", false)),
        ]
    );
    let evaluation = EcmascriptModulePartAsset::new(&whole, ModulePart::Evaluation, true);
    assert_eq!(
        evaluation.references(&scoped).unwrap(),
        vec![
            to_part(&whole, ModulePart::Internal(0), true, "ecmascript module part"),
            ModuleReference::Analyzed(found("./scoped", false)),
        ]
    );
    let a = EcmascriptModulePartAsset::new(&whole, ModulePart::Internal(0), true);
    assert_eq!(a.references(&scoped).unwrap(), vec![ModuleReference::Analyzed(found("./scoped", false))]);
    let facade_by_number = EcmascriptModulePartAsset::new(&whole, ModulePart::Internal(4), true);
    assert_eq!(
        facade_by_number.references(&analysis(vec![], None)).unwrap(),
        vec![
            to_part(&whole, ModulePart::Internal(2), true, "ecmascript module part"),
            to_part(&whole, ModulePart::Internal(3), true, "ecmascript module part"),
        ]
    );
}

#[test]
fn references_of_a_missing_part_fail() {
    let whole = module(false, None);
    let scoped = analysis(vec![], None);
    let node = EcmascriptModulePartAsset::new(&whole, ModulePart::Internal(9), true);
    assert_eq!(
        node.references(&scoped),
        Err(PartError::NotFound { module: whole.ident.clone(), part: ModulePart::Internal(9) })
    );
    let named = EcmascriptModulePartAsset::new(&whole, ModulePart::Export("zzz".to_string()), true);
    let error = named.references(&scoped).unwrap_err();
    assert_eq!(error.message(), "part export zzz is not found in the module src/entry.js");
}

#[test]
fn a_failing_part_leaves_its_siblings_alone() {
    let whole = module(false, None);
    let scoped = analysis(vec![found("./scoped", false)], None);
    let sibling = EcmascriptModulePartAsset::new(&whole, ModulePart::Export("b".to_string()), true);
    let before = sibling.references(&scoped);
    let split_before = split_module(&whole);
    let broken = EcmascriptModulePartAsset::new(&whole, ModulePart::Internal(9), true);
    assert!(broken.references(&scoped).is_err());
    assert!(broken.failsafe_parse().is_err());
    assert_eq!(sibling.references(&scoped), before);
    assert_eq!(split_module(&whole), split_before);
}

#[test]
fn identity_of_a_part() {
    let whole = module(false, None);
    let node = EcmascriptModulePartAsset::new(&whole, ModulePart::Export("a".to_string()), true);
    assert_eq!(
        node.ident(),
        AssetIdent { path: "src/entry.js".to_string(), part: Some(ModulePart::Export("a".to_string())) }
    );
    let other = EcmascriptModulePartAsset::new(&whole, ModulePart::Internal(0), true);
    assert_ne!(node.ident(), other.ident());
}

#[test]
fn parts_of_an_unsplit_module_are_the_module() {
    let whole = module(true, None);
    assert_eq!(split_module(&whole), SplitResult::Failed);
    let scoped = analysis(vec![found("./ignored", false)], None);
    for part in [ModulePart::Export("anything".to_string()), ModulePart::Internal(0), ModulePart::Facade] {
        let node = EcmascriptModulePartAsset::new(&whole, part, true);
        assert_eq!(node.ident(), whole.ident);
        assert_eq!(node.ident(), whole.ident);
        assert_eq!(node.failsafe_parse(), Ok(whole.parsed.clone()));
        assert_eq!(node.content(), &whole.content);
        assert_eq!(
            node.references(&scoped).unwrap(),
            vec![
                ModuleReference::Analyzed(found("./whole", false)),
                ModuleReference::Analyzed(found("lodash", true)),
            ]
        );
    }
}

#[test]
fn content_and_kind_are_those_of_the_module() {
    let whole = module(false, None);
    let node = EcmascriptModulePartAsset::new(&whole, ModulePart::Evaluation, false);
    assert_eq!(node.content(), "export const a = 1; export const b = a + 1; console.log(a);");
    assert_eq!(node.ty(), EcmascriptModuleAssetType::Ecmascript);
    assert_eq!(node.parse_original(), &whole.parsed);
    assert_eq!(node.failsafe_parse().unwrap().statements, vec![whole.parsed.statements[2].clone()]);
    assert_eq!(node.part, ModulePart::Evaluation);
    assert!(!node.import_externals);
}

#[test]
fn analysis_is_asked_for_the_part() {
    let whole = module(false, None);
    let node = EcmascriptModulePartAsset::new(&whole, ModulePart::Export("a".to_string()), false);
    let request = node.analyze();
    assert_eq!(request.module, &whole);
    assert_eq!(request.part, Some(ModulePart::Export("a".to_string())));
    assert_eq!(request.ignored_spans, None);
    let mut spans = HashSet::new();
    spans.insert(Span::new(BytePos(3), BytePos(9)));
    let request = analyze(&whole, ModulePart::Facade, Some(spans.clone()));
    assert_eq!(request.part, Some(ModulePart::Facade));
    assert_eq!(request.ignored_spans, Some(spans));
}

#[test]
fn chunk_item_carries_the_part() {
    let whole = module(false, None);
    let node = EcmascriptModulePartAsset::new(&whole, ModulePart::Internal(1), true);
    let item = node.as_chunk_item("context".to_string());
    assert_eq!(item.module, node);
    assert_eq!(item.chunking_context, "context");
}

#[test]
fn module_without_async_information_is_not_async() {
    let whole = module(false, None);
    let node = EcmascriptModulePartAsset::new(&whole, ModulePart::Internal(9), true);
    assert_eq!(node.is_async_module(&analysis(vec![found("lodash", true)], None)), Ok(false));
}

#[test]
fn top_level_await_makes_every_part_async() {
    let whole = module(false, Some(AsyncModule { has_top_level_await: true, import_externals: false }));
    let node = EcmascriptModulePartAsset::new(&whole, ModulePart::Internal(9), true);
    assert_eq!(node.is_async_module(&analysis(vec![], None)), Ok(true));
}

#[test]
fn outside_modules_make_a_part_async_by_its_own_references() {
    let whole = module(false, Some(AsyncModule { has_top_level_await: false, import_externals: true }));
    let a = EcmascriptModulePartAsset::new(&whole, ModulePart::Export("a".to_string()), true);
    assert_eq!(a.is_async_module(&analysis(vec![found("lodash", true)], None)), Ok(true));
    assert_eq!(a.is_async_module(&analysis(vec![found("./local", false)], None)), Ok(false));
    assert_eq!(a.is_async_module(&analysis(vec![], None)), Ok(false));
    let missing = EcmascriptModulePartAsset::new(&whole, ModulePart::Internal(9), true);
    assert_eq!(
        missing.is_async_module(&analysis(vec![], None)),
        Err(PartError::NotFound { module: whole.ident.clone(), part: ModulePart::Internal(9) })
    );
}

#[test]
fn outside_modules_do_not_count_when_not_imported_as_modules() {
    let whole = module(false, Some(AsyncModule { has_top_level_await: false, import_externals: false }));
    let a = EcmascriptModulePartAsset::new(&whole, ModulePart::Export("a".to_string()), true);
    assert_eq!(a.is_async_module(&analysis(vec![found("lodash", true)], None)), Ok(false));
}

#[test]
fn unsplit_module_is_async_by_the_references_of_the_whole() {
    let whole = module(true, Some(AsyncModule { has_top_level_await: false, import_externals: true }));
    let node = EcmascriptModulePartAsset::new(&whole, ModulePart::Internal(0), true);
    assert_eq!(node.is_async_module(&analysis(vec![], None)), Ok(true));
}

#[test]
fn outside_failures_name_the_module_and_the_part() {
    let whole = module(false, None);
    let node = EcmascriptModulePartAsset::new(&whole, ModulePart::Export("b".to_string()), true);
    let error = node.upstream_error("unexpected token".to_string());
    assert_eq!(
        error,
        PartError::Upstream {
            module: whole.ident.clone(),
            part: ModulePart::Export("b".to_string()),
            cause: "unexpected token".to_string(),
        }
    );
    assert_eq!(error.message(), "unexpected token (part export b of the module src/entry.js)");
}

#[test]
fn exports_of_a_part_are_those_of_its_analysis() {
    let whole = module(false, None);
    let node = EcmascriptModulePartAsset::new(&whole, ModulePart::Exports, true);
    let scoped = analysis(vec![], None);
    assert_eq!(node.get_exports(&scoped), &vec!["a".to_string(), "b".to_string()]);
}
