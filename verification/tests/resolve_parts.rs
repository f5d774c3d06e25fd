use swc_core::common::{BytePos, Span};
use tree_shake::error::PartError;
use tree_shake::ident::AssetIdent;
use tree_shake::parse::{Export, ParseResult, Statement};
use tree_shake::part::{Key, ModulePart};
use tree_shake::resolve::{get_part_id, part_of_module};
use tree_shake::split::{split, SplitResult};

fn plain(lo: u32, hi: u32, declares: &[u32], uses: &[u32], side_effects: bool) -> Statement {
    Statement {
        span: Span::new(BytePos(lo), BytePos(hi)),
        declares: declares.to_vec(),
        uses: uses.to_vec(),
        side_effects,
        dynamic: false,
    }
}

fn entry() -> AssetIdent {
    AssetIdent::from_path("src/entry.js".to_string())
}

fn three_statements() -> ParseResult {
    ParseResult {
        statements: vec![
            plain(0, 19, &[1], &[], false),
            plain(20, 43, &[2], &[1], false),
            plain(44, 59, &[], &[1, 3], true),
        ],
        exports: vec![
            Export { name: "a".to_string(), binding: 1 },
            Export { name: "b".to_string(), binding: 2 },
        ],
    }
}

fn unanalyzable() -> ParseResult {
    let mut module = three_statements();
    module.statements[2].dynamic = true;
    module
}

#[test]
fn fixed_parts_are_always_found() {
    let result = split(&entry(), &three_statements());
    assert_eq!(get_part_id(&result, &ModulePart::Evaluation), Ok(2));
    assert_eq!(get_part_id(&result, &ModulePart::Exports), Ok(3));
    assert_eq!(get_part_id(&result, &ModulePart::Facade), Ok(4));
}

#[test]
fn every_export_is_found() {
    let result = split(&entry(), &three_statements());
    assert_eq!(get_part_id(&result, &ModulePart::Export("a".to_string())), Ok(0));
    assert_eq!(get_part_id(&result, &ModulePart::Export("b".to_string())), Ok(1));
}

#[test]
fn unknown_export_is_not_found() {
    let result = split(&entry(), &three_statements());
    let asked = ModulePart::Export("c".to_string());
    assert_eq!(get_part_id(&result, &asked), Err(PartError::NotFound { module: entry(), part: asked.clone() }));
}

#[test]
fn internal_parts_are_found_within_the_table() {
    let result = split(&entry(), &three_statements());
    for id in 0..5u32 {
        assert_eq!(get_part_id(&result, &ModulePart::Internal(id)), Ok(id));
    }
}

#[test]
fn internal_part_out_of_range_is_not_found() {
    let result = split(&entry(), &three_statements());
    let asked = ModulePart::Internal(5);
    let error = get_part_id(&result, &asked).unwrap_err();
    assert_eq!(error, PartError::NotFound { module: entry(), part: ModulePart::Internal(5) });
    assert_eq!(error.message(), "part internal part 5 is not found in the module src/entry.js");
    let far = ModulePart::Internal(u32::MAX);
    assert_eq!(
        part_of_module(&three_statements(), &result, &far),
        Err(PartError::NotFound { module: entry(), part: far.clone() })
    );
}

#[test]
fn lookup_in_an_unsplit_module_is_an_error() {
    let error = get_part_id(&SplitResult::Failed, &ModulePart::Exports).unwrap_err();
    assert_eq!(error, PartError::Unsplit { part: ModulePart::Exports });
    assert_eq!(error.message(), "part exports was asked of a module that is not split");
}

#[test]
fn parts_project_to_their_units() {
    let module = three_statements();
    let result = split(&entry(), &module);
    let a = part_of_module(&module, &result, &ModulePart::Export("a".to_string())).unwrap();
    assert_eq!(a.statements, vec![module.statements[0].clone()]);
    assert_eq!(a.exports, vec![module.exports[0].clone()]);
    let same = part_of_module(&module, &result, &ModulePart::Internal(0)).unwrap();
    assert_eq!(a, same);
    let evaluation = part_of_module(&module, &result, &ModulePart::Evaluation).unwrap();
    assert_eq!(evaluation.statements, vec![module.statements[2].clone()]);
    let exports = part_of_module(&module, &result, &ModulePart::Exports).unwrap();
    assert_eq!(exports.statements, vec![]);
    assert_eq!(exports.exports, module.exports);
    let facade = part_of_module(&module, &result, &ModulePart::Facade).unwrap();
    assert_eq!(facade, exports);
}

#[test]
fn projected_statements_keep_their_positions() {
    let module = three_statements();
    let result = split(&entry(), &module);
    let b = part_of_module(&module, &result, &ModulePart::Export("b".to_string())).unwrap();
    assert_eq!(b.statements[0].span, Span::new(BytePos(20), BytePos(43)));
}

#[test]
fn every_address_of_an_unsplit_module_projects_to_the_whole() {
    let module = unanalyzable();
    let result = split(&entry(), &module);
    assert_eq!(result, SplitResult::Failed);
    let asked = vec![
        ModulePart::Export("anything".to_string()),
        ModulePart::Internal(0),
        ModulePart::Internal(77),
        ModulePart::Facade,
        ModulePart::Evaluation,
        ModulePart::Exports,
    ];
    for part in &asked {
        assert_eq!(part_of_module(&module, &result, part), Ok(module.clone()));
        assert_eq!(part_of_module(&module, &result, part), Ok(module.clone()));
    }
}

#[test]
fn hand_made_split_without_entries() {
    let result = SplitResult::Success {
        asset_ident: entry(),
        deps: vec![],
        entrypoints: vec![(Key::Export("x".to_string()), 7)],
        parts: vec![],
    };
    assert_eq!(
        get_part_id(&result, &ModulePart::Facade),
        Err(PartError::NotFound { module: entry(), part: ModulePart::Facade })
    );
    assert_eq!(
        get_part_id(&result, &ModulePart::Evaluation),
        Err(PartError::NotFound { module: entry(), part: ModulePart::Evaluation })
    );
    assert_eq!(get_part_id(&result, &ModulePart::Export("x".to_string())), Ok(7));
    // The entry point names a part that the table does not have.
    assert_eq!(
        part_of_module(&three_statements(), &result, &ModulePart::Export("x".to_string())),
        Err(PartError::NotFound { module: entry(), part: ModulePart::Export("x".to_string()) })
    );
}

#[test]
fn addresses_have_names() {
    assert_eq!(ModulePart::facade().describe(), "facade");
    assert_eq!(ModulePart::evaluation().describe(), "module evaluation");
    assert_eq!(ModulePart::exports().describe(), "exports");
    assert_eq!(ModulePart::export("main".to_string()).describe(), "export main");
    assert_eq!(ModulePart::internal(0).describe(), "internal part 0");
    assert_eq!(ModulePart::internal(4294967295).describe(), "internal part 4294967295");
    assert_eq!(ModulePart::internal(1050).describe(), "internal part 1050");
}

#[test]
fn addresses_compare_by_value() {
    assert!(ModulePart::export("a".to_string()).same(&ModulePart::Export("a".to_string())));
    assert!(!ModulePart::export("a".to_string()).same(&ModulePart::Export("b".to_string())));
    assert!(!ModulePart::internal(1).same(&ModulePart::Internal(2)));
    assert!(!ModulePart::Facade.same(&ModulePart::Exports));
    assert!(Key::Exports.same(&Key::Exports));
    assert!(!Key::Exports.same(&Key::ModuleEvaluation));
    assert!(Key::Export("a".to_string()).same(&Key::Export("a".to_string()).clone()));
    let narrowed = entry().with_part(&ModulePart::Internal(3));
    assert!(narrowed.same(&narrowed.clone()));
    assert!(!narrowed.same(&entry()));
    assert_eq!(narrowed.part, Some(ModulePart::Internal(3)));
    assert_eq!(narrowed.path, "src/entry.js");
}
