use xbase::compile::{CompileCommand, CompileCommands};

fn lines(v: &[&str]) -> Vec<String> {
    v.iter().map(|s| s.to_string()).collect()
}

#[test]
fn test() {
    // A wordle-sized build transcript, parsed and dumped whole.
    let transcript = lines(&[
        "=== BUILD TARGET Wordle OF PROJECT wordle WITH CONFIGURATION Debug ===",
        "=== COMPILE Wordle ===",
        "<index-store-path> /tmp/wordle/idx",
        "/repos/swift/wordle/Sources/Game.swift",
        "/repos/swift/wordle/Sources/Board.swift",
        "Ld /tmp/wordle/Wordle normal",
    ]);
    let v = CompileCommands::from_logs(transcript);
    println!("{:#?}", v);
}

#[test]
fn swift_module_block_yields_one_command() {
    // A block matching the swift-module pattern, with an index store.
    let input = lines(&[
        "=== BUILD TARGET App ===",
        "=== COMPILE /src/a.swift ===",
        "<index-store-path> /tmp/idx",
        "/src/a.swift",
    ]);
    let db = CompileCommands::from_logs(input);
    assert_eq!(db.0.len(), 1);
    let c = &db.0[0];
    assert_eq!(c.name, "/src/a.swift");
    assert_eq!(c.files, vec!["/src/a.swift".to_string()]);
    assert_eq!(c.index_store_path, Some("/tmp/idx".to_string()));
    assert_eq!(c.arguments, vec!["/src/a.swift".to_string()]);
}

#[test]
fn no_recognized_blocks_yield_empty_database() {
    let input = lines(&[
        "Ld /tmp/out normal",
        "=== BUILD TARGET App ===",
        "warning: something",
        "CodeSign /tmp/out.app",
    ]);
    let db = CompileCommands::from_logs(input);
    assert_eq!(db.0.len(), 0);
}

#[test]
fn empty_input_yields_empty_database() {
    let db = CompileCommands::from_logs(Vec::new());
    assert_eq!(db.0.len(), 0);
}

#[test]
fn parsing_is_deterministic() {
    let input = &[
        "=== COMPILE Alpha ===",
        "-module-name",
        "Alpha",
        "/src/alpha.swift",
        "=== COMPILE Beta ===",
        "/src/beta.swift",
    ];
    let first = CompileCommands::from_logs(lines(input));
    let second = CompileCommands::from_logs(lines(input));
    assert_eq!(first, second);
}

#[test]
fn blocks_contribute_in_build_order_with_duplicates() {
    let input = lines(&[
        "=== COMPILE Alpha ===",
        "/src/alpha.swift",
        "=== COMPILE Beta ===",
        "/src/beta.swift",
        "=== COMPILE Alpha ===",
        "/src/alpha.swift",
    ]);
    let db = CompileCommands::from_logs(input);
    assert_eq!(db.0.len(), 3);
    assert_eq!(db.0[0].name, "Alpha");
    assert_eq!(db.0[1].name, "Beta");
    assert_eq!(db.0[2].name, "Alpha");
}

#[test]
fn block_without_source_files_is_skipped() {
    let input = lines(&[
        "=== COMPILE Alpha ===",
        "-module-name",
        "Alpha",
        "=== COMPILE Beta ===",
        "/src/beta.swift",
    ]);
    let db = CompileCommands::from_logs(input);
    assert_eq!(db.0.len(), 1);
    assert_eq!(db.0[0].name, "Beta");
}

#[test]
fn interleaved_non_compile_content_is_ignored() {
    let input = lines(&[
        "CompileC /tmp/x.o",
        "=== COMPILE Gamma ===",
        "",
        "-target arm64",
        "/src/gamma.swift",
        "=== LINK App ===",
        "ld -o App",
    ]);
    let db = CompileCommands::from_logs(input);
    assert_eq!(db.0.len(), 1);
    let c = &db.0[0];
    assert_eq!(c.name, "Gamma");
    assert_eq!(c.files, vec!["/src/gamma.swift".to_string()]);
    assert_eq!(c.index_store_path, None);
    // the empty line is dropped from the arguments, the rest kept in order
    assert_eq!(
        c.arguments,
        vec!["-target arm64".to_string(), "/src/gamma.swift".to_string()]
    );
}

#[test]
fn swift_module_extracts_block_behind_cursor() {
    let input = lines(&["=== COMPILE Delta ===", "/src/delta.swift"]);
    let cmd = CompileCommand::swift_module(&input, 1).expect("block carries a source file");
    assert_eq!(cmd.name, "Delta");
    assert_eq!(cmd.files, vec!["/src/delta.swift".to_string()]);
}

#[test]
fn empty_database_renders_as_empty_array() {
    let db = CompileCommands::from_logs(Vec::new());
    assert_eq!(db.to_json(), "[]");
}

#[test]
fn database_renders_pretty_deterministic_json() {
    let input = lines(&[
        "=== COMPILE App ===",
        "<index-store-path> /tmp/idx",
        "/src/a.swift",
    ]);
    let db = CompileCommands::from_logs(input);
    let expected = "[\n  {\n    \"name\": \"App\",\n    \"files\": [\n      \"/src/a.swift\"\n    ],\n    \"arguments\": [\n      \"/src/a.swift\"\n    ],\n    \"index_store_path\": \"/tmp/idx\"\n  }\n]";
    assert_eq!(db.to_json(), expected);
    assert_eq!(db.to_json(), db.to_json());
}
