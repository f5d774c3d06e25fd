use swc_core::common::{BytePos, Span};
use tree_shake::ident::AssetIdent;
use tree_shake::parse::{Export, ParseResult, Statement};
use tree_shake::part::Key;
use tree_shake::split::{split, SplitResult};

fn statement(lo: u32, hi: u32, declares: &[u32], uses: &[u32], side_effects: bool) -> Statement {
    Statement {
        span: Span::new(BytePos(lo), BytePos(hi)),
        declares: declares.to_vec(),
        uses: uses.to_vec(),
        side_effects,
        dynamic: false,
    }
}

fn export(name: &str, binding: u32) -> Export {
    Export { name: name.to_string(), binding }
}

fn ident() -> AssetIdent {
    AssetIdent::from_path("src/entry.js".to_string())
}

// export const a = 1; export const b = a + 1; console.log(a);
fn three_lines() -> ParseResult {
    ParseResult {
        statements: vec![
            statement(0, 19, &[1], &[], false),
            statement(20, 43, &[2], &[1], false),
            statement(44, 59, &[], &[1, 3], true),
        ],
        exports: vec![export("a", 1), export("b", 2)],
    }
}

fn unwrap_split(result: SplitResult) -> (AssetIdent, Vec<Vec<u32>>, Vec<(Key, u32)>, Vec<ParseResult>) {
    match result {
        SplitResult::Success { asset_ident, deps, entrypoints, parts } => (asset_ident, deps, entrypoints, parts),
        SplitResult::Failed => panic!("the module was not split"),
    }
}

#[test]
fn three_lines_split_into_five_parts() {
    let module = three_lines();
    let (asset_ident, _, _, parts) = unwrap_split(split(&ident(), &module));
    assert_eq!(asset_ident, ident());
    assert_eq!(parts.len(), 5);
    assert_eq!(parts[0].statements, vec![statement(0, 19, &[1], &[], false)]);
    assert_eq!(parts[0].exports, vec![export("a", 1)]);
    assert_eq!(parts[1].statements, vec![statement(20, 43, &[2], &[1], false)]);
    assert_eq!(parts[1].exports, vec![export("b", 2)]);
    assert_eq!(parts[2].statements, vec![statement(44, 59, &[], &[1, 3], true)]);
    assert_eq!(parts[2].exports, vec![]);
    assert_eq!(parts[3].statements, vec![]);
    assert_eq!(parts[3].exports, vec![export("a", 1), export("b", 2)]);
    assert_eq!(parts[4].statements, vec![]);
    assert_eq!(parts[4].exports, vec![export("a", 1), export("b", 2)]);
}

#[test]
fn three_lines_dependencies() {
    let (_, deps, _, _) = unwrap_split(split(&ident(), &three_lines()));
    let expected: Vec<Vec<u32>> = vec![vec![], vec![0], vec![0], vec![0, 1], vec![2, 3]];
    assert_eq!(deps, expected);
}

#[test]
fn three_lines_entrypoints() {
    let (_, _, entrypoints, _) = unwrap_split(split(&ident(), &three_lines()));
    assert_eq!(
        entrypoints,
        vec![
            (Key::ModuleEvaluation, 2),
            (Key::Exports, 3),
            (Key::Export("a".to_string()), 0),
            (Key::Export("b".to_string()), 1),
        ]
    );
}

#[test]
fn splitting_twice_gives_the_same() {
    let module = three_lines();
    assert_eq!(split(&ident(), &module), split(&ident(), &module));
    let copy = module.clone();
    assert_eq!(split(&ident(), &module), split(&ident(), &copy));
}

#[test]
fn every_statement_is_in_one_part() {
    let module = three_lines();
    let (_, _, _, parts) = unwrap_split(split(&ident(), &module));
    for statement in &module.statements {
        let mut seen = 0;
        for part in &parts {
            for held in &part.statements {
                if held == statement {
                    seen += 1;
                }
            }
        }
        assert_eq!(seen, 1);
    }
    let total: usize = parts.iter().map(|part| part.statements.len()).sum();
    assert_eq!(total, module.statements.len());
}

#[test]
fn dependencies_lead_to_smaller_numbers() {
    let (_, deps, _, _) = unwrap_split(split(&ident(), &mutual_recursion()));
    for (part, needed) in deps.iter().enumerate() {
        for other in needed {
            assert!((*other as usize) < part);
        }
    }
}

// function f() { g() }  function g() { f() }  const h = f;
fn mutual_recursion() -> ParseResult {
    ParseResult {
        statements: vec![
            statement(0, 20, &[1], &[2], false),
            statement(21, 41, &[2], &[1], false),
            statement(42, 54, &[3], &[1], false),
        ],
        exports: vec![export("h", 3)],
    }
}

#[test]
fn statements_in_a_circle_share_a_part() {
    let module = mutual_recursion();
    let (_, deps, entrypoints, parts) = unwrap_split(split(&ident(), &module));
    assert_eq!(parts.len(), 5);
    // The evaluation part has nothing to run and needs nothing: it comes first.
    assert_eq!(parts[0].statements, vec![]);
    assert_eq!(parts[1].statements, vec![module.statements[0].clone(), module.statements[1].clone()]);
    assert_eq!(parts[2].statements, vec![module.statements[2].clone()]);
    let expected: Vec<Vec<u32>> = vec![vec![], vec![], vec![1], vec![2], vec![0, 3]];
    assert_eq!(deps, expected);
    assert_eq!(
        entrypoints,
        vec![(Key::ModuleEvaluation, 0), (Key::Exports, 3), (Key::Export("h".to_string()), 2)]
    );
}

#[test]
fn independent_statements_keep_source_order() {
    // const a = 1; const b = a + 1; const c = 5;
    let module = ParseResult {
        statements: vec![
            statement(0, 12, &[1], &[], false),
            statement(13, 29, &[2], &[1], false),
            statement(30, 42, &[3], &[], false),
        ],
        exports: vec![],
    };
    let (_, deps, entrypoints, parts) = unwrap_split(split(&ident(), &module));
    assert_eq!(parts.len(), 6);
    assert_eq!(parts[0].statements, vec![module.statements[0].clone()]);
    assert_eq!(parts[1].statements, vec![module.statements[2].clone()]);
    assert_eq!(parts[2].statements, vec![]);
    assert_eq!(parts[3].statements, vec![module.statements[1].clone()]);
    let expected: Vec<Vec<u32>> = vec![vec![], vec![], vec![], vec![0], vec![], vec![2, 4]];
    assert_eq!(deps, expected);
    assert_eq!(entrypoints, vec![(Key::ModuleEvaluation, 2), (Key::Exports, 4)]);
}

#[test]
fn side_effects_that_declare_join_the_evaluation() {
    // const z = effect(); export const y = z;
    let module = ParseResult {
        statements: vec![statement(0, 19, &[1], &[9], true), statement(20, 39, &[2], &[1], false)],
        exports: vec![export("y", 2)],
    };
    let (_, deps, entrypoints, parts) = unwrap_split(split(&ident(), &module));
    assert_eq!(parts.len(), 4);
    assert_eq!(parts[0].statements, vec![module.statements[0].clone()]);
    assert_eq!(parts[1].statements, vec![module.statements[1].clone()]);
    let expected: Vec<Vec<u32>> = vec![vec![], vec![0], vec![1], vec![0, 2]];
    assert_eq!(deps, expected);
    assert_eq!(
        entrypoints,
        vec![(Key::ModuleEvaluation, 0), (Key::Exports, 2), (Key::Export("y".to_string()), 1)]
    );
}

#[test]
fn all_side_effects_run_in_one_part() {
    // setup(); const a = 1; teardown();
    let module = ParseResult {
        statements: vec![
            statement(0, 8, &[], &[7], true),
            statement(9, 21, &[1], &[], false),
            statement(22, 33, &[], &[8], true),
        ],
        exports: vec![export("a", 1)],
    };
    let (_, deps, _, parts) = unwrap_split(split(&ident(), &module));
    assert_eq!(parts.len(), 4);
    assert_eq!(parts[0].statements, vec![module.statements[1].clone()]);
    assert_eq!(parts[1].statements, vec![module.statements[0].clone(), module.statements[2].clone()]);
    let expected: Vec<Vec<u32>> = vec![vec![], vec![], vec![0], vec![1, 2]];
    assert_eq!(deps, expected);
}

#[test]
fn empty_module_has_the_three_fixed_parts() {
    let module = ParseResult { statements: vec![], exports: vec![] };
    let (_, deps, entrypoints, parts) = unwrap_split(split(&ident(), &module));
    assert_eq!(parts.len(), 3);
    let expected: Vec<Vec<u32>> = vec![vec![], vec![], vec![0, 1]];
    assert_eq!(deps, expected);
    assert_eq!(entrypoints, vec![(Key::ModuleEvaluation, 0), (Key::Exports, 1)]);
}

#[test]
fn dynamic_code_is_not_split() {
    // export const a = 1; eval(input);
    let mut module = ParseResult {
        statements: vec![statement(0, 19, &[1], &[], false), statement(20, 32, &[], &[5], true)],
        exports: vec![export("a", 1)],
    };
    module.statements[1].dynamic = true;
    assert_eq!(split(&ident(), &module), SplitResult::Failed);
}

#[test]
fn export_without_a_declaration_is_not_split() {
    let module = ParseResult { statements: vec![statement(0, 12, &[1], &[], false)], exports: vec![export("b", 2)] };
    assert_eq!(split(&ident(), &module), SplitResult::Failed);
}

#[test]
fn export_declared_twice_is_not_split() {
    // var a = 1; var a = 2; export { a };
    let module = ParseResult {
        statements: vec![statement(0, 10, &[1], &[], false), statement(11, 21, &[1], &[], false)],
        exports: vec![export("a", 1)],
    };
    assert_eq!(split(&ident(), &module), SplitResult::Failed);
}

#[test]
fn binding_declared_twice_but_not_exported_is_split() {
    let module = ParseResult {
        statements: vec![
            statement(0, 10, &[1], &[], false),
            statement(11, 21, &[1], &[], false),
            statement(22, 40, &[2], &[1], false),
        ],
        exports: vec![export("b", 2)],
    };
    let (_, deps, _, parts) = unwrap_split(split(&ident(), &module));
    assert_eq!(parts.len(), 6);
    // The user of the binding needs both of its declarations.
    assert_eq!(deps[3], vec![0, 1]);
}

#[test]
fn exports_that_share_a_name_are_not_split() {
    let module = ParseResult {
        statements: vec![statement(0, 12, &[1], &[], false), statement(13, 25, &[2], &[], false)],
        exports: vec![export("a", 1), export("a", 2)],
    };
    assert_eq!(split(&ident(), &module), SplitResult::Failed);
}

#[test]
fn two_names_for_one_binding_are_split() {
    let module = ParseResult {
        statements: vec![statement(0, 12, &[1], &[], false)],
        exports: vec![export("a", 1), export("default", 1)],
    };
    let (_, deps, entrypoints, _) = unwrap_split(split(&ident(), &module));
    assert_eq!(deps[2], vec![0]);
    assert_eq!(
        entrypoints,
        vec![
            (Key::ModuleEvaluation, 1),
            (Key::Exports, 2),
            (Key::Export("a".to_string()), 0),
            (Key::Export("default".to_string()), 0),
        ]
    );
}
