//! The arguments of the scripts that generate the native library's tables and headers.
use vstd::prelude::*;

verus! {

/// The texts of a sequence of strings.
pub open spec fn texts(v: Seq<String>) -> Seq<Seq<char>> {
    v.map_values(|s: String| s@)
}

pub open spec fn grammar_dir() -> Seq<char> {
    "spirv-headers/include/spirv/unified1"@
}

/// The grammar file of an extended instruction set.
pub open spec fn extinst_grammar(grammar: Seq<char>) -> Seq<char> {
    grammar_dir() + "/extinst."@ + grammar + ".grammar.json"@
}

/// The argument that names an extended instruction set, with the prefix of its names.
pub open spec fn extinst_arg(prefix: Seq<char>, grammar: Seq<char>) -> Seq<char> {
    "--extinst="@ + prefix + ","@ + extinst_grammar(grammar)
}

/// The arguments of the script that generates the core and extended grammar tables.
pub open spec fn grammar_tables_args() -> Seq<Seq<char>> {
    seq![
        "spirv-tools/utils/ggt.py"@,
        "--core-tables-body-output=generated/core_tables_body.inc"@,
        "--core-tables-header-output=generated/core_tables_header.inc"@,
        "--spirv-core-grammar="@ + grammar_dir() + "/spirv.core.grammar.json"@,
        extinst_arg(""@, "debuginfo"@),
        extinst_arg(""@, "glsl.std.450"@),
        extinst_arg(""@, "nonsemantic.clspvreflection"@),
        extinst_arg("SHDEBUG100_"@, "nonsemantic.shader.debuginfo.100"@),
        extinst_arg(""@, "nonsemantic.vkspreflection"@),
        extinst_arg("CLDEBUG100_"@, "opencl.debuginfo.100"@),
        extinst_arg(""@, "opencl.std.100"@),
        extinst_arg(""@, "spv-amd-gcn-shader"@),
        extinst_arg(""@, "spv-amd-shader-ballot"@),
        extinst_arg(""@, "spv-amd-shader-explicit-vertex-parameter"@),
        extinst_arg(""@, "spv-amd-shader-trinary-minmax"@),
    ]
}

/// The arguments of the script that generates the table of registered generators.
pub open spec fn registry_table_args() -> Seq<Seq<char>> {
    seq![
        "spirv-tools/utils/generate_registry_tables.py"@,
        "--xml=spirv-headers/include/spirv/spir-v.xml"@,
        "--generator=generated/generators.inc"@,
    ]
}

/// The arguments of the script that writes the C header of an extended instruction set.
pub open spec fn generate_header_args(header_name: Seq<char>, grammar: Seq<char>) -> Seq<
    Seq<char>,
> {
    seq![
        "spirv-tools/utils/generate_language_headers.py"@,
        "--extinst-grammar="@ + extinst_grammar(grammar),
        "--extinst-output-path=generated/"@ + header_name + ".h"@,
    ]
}

fn text(s: &str) -> (r: String)
    ensures
        r@ == s@,
{
    String::from_str(s)
}

fn grammar_path(grammar: &str) -> (r: String)
    ensures
        r@ == extinst_grammar(grammar@),
{
    let mut r = String::from_str("spirv-headers/include/spirv/unified1");
    r.append("/extinst.");
    r.append(grammar);
    r.append(".grammar.json");
    r
}

fn extinst(prefix: &str, grammar: &str) -> (r: String)
    ensures
        r@ == extinst_arg(prefix@, grammar@),
{
    let mut r = String::from_str("--extinst=");
    r.append(prefix);
    r.append(",");
    let path = grammar_path(grammar);
    r.append(path.as_str());
    assert(r@ =~= extinst_arg(prefix@, grammar@));
    r
}

/// The arguments of the script that generates the core and extended grammar tables.
pub fn grammar_tables() -> (r: Vec<String>)
    ensures
        texts(r@) == grammar_tables_args(),
{
    let mut core = String::from_str("--spirv-core-grammar=");
    core.append("spirv-headers/include/spirv/unified1");
    core.append("/spirv.core.grammar.json");
    let r = vec![
        text("spirv-tools/utils/ggt.py"),
        text("--core-tables-body-output=generated/core_tables_body.inc"),
        text("--core-tables-header-output=generated/core_tables_header.inc"),
        core,
        extinst("", "debuginfo"),
        extinst("", "glsl.std.450"),
        extinst("", "nonsemantic.clspvreflection"),
        extinst("SHDEBUG100_", "nonsemantic.shader.debuginfo.100"),
        extinst("", "nonsemantic.vkspreflection"),
        extinst("CLDEBUG100_", "opencl.debuginfo.100"),
        extinst("", "opencl.std.100"),
        extinst("", "spv-amd-gcn-shader"),
        extinst("", "spv-amd-shader-ballot"),
        extinst("", "spv-amd-shader-explicit-vertex-parameter"),
        extinst("", "spv-amd-shader-trinary-minmax"),
    ];
    assert(texts(r@) =~= grammar_tables_args());
    r
}

/// The arguments of the script that generates the table of registered generators.
pub fn registry_table() -> (r: Vec<String>)
    ensures
        texts(r@) == registry_table_args(),
{
    let r = vec![
        text("spirv-tools/utils/generate_registry_tables.py"),
        text("--xml=spirv-headers/include/spirv/spir-v.xml"),
        text("--generator=generated/generators.inc"),
    ];
    assert(texts(r@) =~= registry_table_args());
    r
}

/// The arguments of the script that writes the C header `generated/<header_name>.h` from
/// the grammar of an extended instruction set.
pub fn generate_header(header_name: &str, grammar: &str) -> (r: Vec<String>)
    ensures
        texts(r@) == generate_header_args(header_name@, grammar@),
{
    let mut g = String::from_str("--extinst-grammar=");
    let path = grammar_path(grammar);
    g.append(path.as_str());
    let mut out = String::from_str("--extinst-output-path=generated/");
    out.append(header_name);
    out.append(".h");
    let r = vec![text("spirv-tools/utils/generate_language_headers.py"), g, out];
    assert(texts(r@) =~= generate_header_args(header_name@, grammar@));
    r
}

/// What a script's run comes to: `Ok` for exit code 0, else its exit code, or -1 where
/// there is none (it did not start, or a signal ended it).
pub fn script_result(code: Option<i32>) -> (r: Result<(), i32>)
    ensures
        r == match code {
            Some(0) => Ok(()),
            Some(c) => Err(c),
            None => Err(-1i32),
        },
{
    match code {
        Some(0) => Ok(()),
        Some(c) => Err(c),
        None => Err(-1),
    }
}

} // verus!
