use spirv_tools::generate::{generate_header, grammar_tables, registry_table, script_result};

#[test]
fn grammar_tables_arguments() {
    let args = grammar_tables();
    assert_eq!(args.len(), 15);
    assert_eq!(args[0], "spirv-tools/utils/ggt.py");
    assert_eq!(
        args[3],
        "--spirv-core-grammar=spirv-headers/include/spirv/unified1/spirv.core.grammar.json"
    );
    assert_eq!(
        args[4],
        "--extinst=,spirv-headers/include/spirv/unified1/extinst.debuginfo.grammar.json"
    );
    assert_eq!(
        args[7],
        "--extinst=SHDEBUG100_,spirv-headers/include/spirv/unified1/extinst.nonsemantic.shader.debuginfo.100.grammar.json"
    );
    assert_eq!(
        args[14],
        "--extinst=,spirv-headers/include/spirv/unified1/extinst.spv-amd-shader-trinary-minmax.grammar.json"
    );
}

#[test]
fn registry_table_arguments() {
    assert_eq!(
        registry_table(),
        vec![
            "spirv-tools/utils/generate_registry_tables.py",
            "--xml=spirv-headers/include/spirv/spir-v.xml",
            "--generator=generated/generators.inc",
        ]
    );
}

#[test]
fn generate_header_arguments() {
    assert_eq!(
        generate_header("NonSemanticShaderDebugInfo100", "nonsemantic.shader.debuginfo.100"),
        vec![
            "spirv-tools/utils/generate_language_headers.py",
            "--extinst-grammar=spirv-headers/include/spirv/unified1/extinst.nonsemantic.shader.debuginfo.100.grammar.json",
            "--extinst-output-path=generated/NonSemanticShaderDebugInfo100.h",
        ]
    );
}

#[test]
fn script_results() {
    assert_eq!(script_result(Some(0)), Ok(()));
    assert_eq!(script_result(Some(2)), Err(2));
    assert_eq!(script_result(None), Err(-1));
}
