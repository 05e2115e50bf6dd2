use lethalfixshaders::guid::{build_guid_table, get_guid};
use lethalfixshaders::materials::{copy_materials_to_shader, get_material_guid};
use lethalfixshaders::shaders::{
    add_suffix, create_subfolders_and_add_suffix, join_path, normalized_name, split_lines,
    ShaderError,
};
use lethalfixshaders::{SourceFile, Warning};

fn sf(name: &str, content: &str) -> SourceFile {
    SourceFile { name: String::from(name), content: String::from(content) }
}

#[test]
fn test_build_guid_table() {
    let yaml = "fileFormatVersion: 2\n\
                guid: e8c0f036827360544a6df55e8d2866c8\n\
                timeCreated: 1702147913\n\
                licenseType: Free\n\
                ShaderImporter:\n\
                \x20 externalObjects: {}\n\
                \x20 defaultTextures: []\n\
                \x20 nonModifiableTextures: []\n\
                \x20 userData:\n\
                \x20 assetBundleName:\n\
                \x20 assetBundleVariant:\n";
    assert_eq!(get_guid(yaml), Some("e8c0f036827360544a6df55e8d2866c8".to_string()));
}

#[test]
fn normalization_splits_segments() {
    assert_eq!(normalized_name("HDRP_Lit"), "HDRP/Lit");
    assert_eq!(normalized_name("Simple"), "Simple");
    assert_eq!(normalized_name("A_B_C"), "A/B/C");
    assert_eq!(normalized_name(""), "");
}

#[test]
fn normalization_again_changes_nothing() {
    let once = normalized_name("HDRP_Lit_Extra");
    assert_eq!(once, "HDRP/Lit/Extra");
    assert_eq!(normalized_name(&once), once);
}

#[test]
fn guid_extraction_first_line_wins() {
    let text = "other: 1\nguid: first\nguid: second\n";
    assert_eq!(get_guid(text), Some("first".to_string()));
}

#[test]
fn guid_extraction_needs_line_start() {
    let text = "my guid: nope\nxguid: nope\n";
    assert_eq!(get_guid(text), None);
    assert_eq!(get_guid(""), None);
}

#[test]
fn guid_extraction_trims_value() {
    assert_eq!(get_guid("guid: \tabc \r\n"), Some("abc".to_string()));
    assert_eq!(get_guid("guid: abc"), Some("abc".to_string()));
}

#[test]
fn table_maps_guid_to_normalized_path() {
    let files = vec![sf(
        "HDRP_Lit.shader.meta",
        "fileFormatVersion: 2\nguid: e8c0f036827360544a6df55e8d2866c8\ntimeCreated: 1702147913\n",
    )];
    let (table, warnings) = build_guid_table(&files, "out");
    assert!(warnings.is_empty());
    assert_eq!(
        table.lookup("e8c0f036827360544a6df55e8d2866c8"),
        Some("out/HDRP/Lit".to_string())
    );
    assert_eq!(table.lookup("missing"), None);
}

#[test]
fn table_skips_files_that_are_not_metadata() {
    let files = vec![sf("HDRP_Lit.shader", "guid: g1\n")];
    let (table, warnings) = build_guid_table(&files, "out");
    assert!(warnings.is_empty());
    assert_eq!(table.lookup("g1"), None);
}

#[test]
fn meta_without_guid_warns() {
    let files = vec![sf("X.shader.meta", "no identifier here\n")];
    let (table, warnings) = build_guid_table(&files, "out");
    assert_eq!(
        warnings,
        vec![Warning::MetaMissingGuid { file: "X.shader.meta".to_string() }]
    );
    assert_eq!(table.lookup("g"), None);
}

#[test]
fn duplicate_guid_last_file_wins() {
    let files = vec![
        sf("A_One.shader.meta", "guid: g\n"),
        sf("B_Two.shader.meta", "guid: g\n"),
    ];
    let (table, warnings) = build_guid_table(&files, "out");
    assert!(warnings.is_empty());
    assert_eq!(table.lookup("g"), Some("out/B/Two".to_string()));
}

#[test]
fn shader_rewrite_appends_suffix() {
    let input = "Shader \"Custom/LightningBoltShaderMesh\" {\nProperties {\n}\n";
    let out = add_suffix(input, "1").unwrap();
    assert_eq!(out, "Shader \"Custom/LightningBoltShaderMesh1\"\nProperties {\n}");
}

#[test]
fn shader_rewrite_single_quote_runs_to_line_end() {
    let out = add_suffix("Shader \"OnlyOpen\nnext\n", "2").unwrap();
    assert_eq!(out, "Shader \"OnlyOpen2\"\nnext");
}

#[test]
fn shader_rewrite_empty_file_is_an_error() {
    assert_eq!(add_suffix("", "1"), Err(ShaderError::EmptyFile));
}

#[test]
fn shader_rewrite_without_quotes_is_an_error() {
    assert_eq!(add_suffix("Shader NoQuotes {\nrest\n", "1"), Err(ShaderError::MissingName));
}

#[test]
fn restructure_plans_directory_and_rewrite() {
    let files = vec![
        sf("HDRP_Lit.shader", "Shader \"HDRP/Lit\" {\nbody\n"),
        sf("HDRP_Lit.shader.meta", "guid: g1\n"),
    ];
    let plan = create_subfolders_and_add_suffix(&files, "out", "1").unwrap();
    assert_eq!(plan.len(), 1);
    assert_eq!(plan[0].file_name, "HDRP_Lit.shader");
    assert_eq!(plan[0].out_dir, "out/HDRP/Lit");
    assert_eq!(plan[0].new_content, "Shader \"HDRP/Lit1\"\nbody");
}

#[test]
fn restructure_aborts_on_first_bad_shader() {
    let files = vec![
        sf("Ok_One.shader", "Shader \"A\" {\n"),
        sf("Bad.shader", ""),
    ];
    assert_eq!(
        create_subfolders_and_add_suffix(&files, "out", "1"),
        Err(ShaderError::EmptyFile)
    );
}

#[test]
fn material_guid_extraction() {
    let text = "someting\n  m_Shader: {fileID: 4800000, guid: abc, type: 3}\n";
    assert_eq!(get_material_guid(text), Some("abc".to_string()));
    let unindented = "m_Shader: {fileID: 4800000, guid: abc}\n";
    assert_eq!(get_material_guid(unindented), None);
}

#[test]
fn pipeline_routes_material_next_to_shader() {
    let shader_dir = vec![
        sf("HDRP_Lit.shader", "Shader \"HDRP/Lit\" {\nbody\n"),
        sf("HDRP_Lit.shader.meta", "fileFormatVersion: 2\nguid: g1\n"),
    ];
    let materials = vec![
        sf("Red.mat", "header\n  m_Shader: {fileID: 4800000, guid: g1, type: 3}\n"),
        sf("Red.mat.meta", "guid: m1\n"),
    ];
    let plan = create_subfolders_and_add_suffix(&shader_dir, "out", "1").unwrap();
    assert_eq!(plan.len(), 1);
    assert_eq!(plan[0].out_dir, "out/HDRP/Lit");
    assert!(plan[0].new_content.starts_with("Shader \"HDRP/Lit1\""));
    let (copies, warnings) = copy_materials_to_shader(&shader_dir, "out", &materials);
    assert!(warnings.is_empty());
    assert_eq!(copies.len(), 1);
    assert_eq!(copies[0].file_name, "Red.mat");
    assert_eq!(copies[0].meta_name, "Red.mat.meta");
    assert_eq!(copies[0].dest_dir, "out/HDRP/Lit");
}

#[test]
fn unknown_guid_warns_and_copies_nothing() {
    let shader_dir = vec![sf("HDRP_Lit.shader.meta", "guid: g1\n")];
    let materials = vec![sf(
        "Blue.mat",
        "  m_Shader: {fileID: 4800000, guid: gx, type: 3}\n",
    )];
    let (copies, warnings) = copy_materials_to_shader(&shader_dir, "out", &materials);
    assert_eq!(copies.len(), 0);
    assert_eq!(
        warnings,
        vec![Warning::UnknownGuid { file: "Blue.mat".to_string(), guid: "gx".to_string() }]
    );
}

#[test]
fn material_without_reference_warns() {
    let shader_dir = vec![sf("HDRP_Lit.shader.meta", "guid: g1\n")];
    let materials = vec![sf("Odd.mat", "nothing relevant\n")];
    let (copies, warnings) = copy_materials_to_shader(&shader_dir, "out", &materials);
    assert_eq!(copies.len(), 0);
    assert_eq!(
        warnings,
        vec![Warning::MaterialMissingGuid { file: "Odd.mat".to_string() }]
    );
}

#[test]
fn join_path_inserts_one_separator() {
    assert_eq!(join_path("out", "a/b"), "out/a/b");
    assert_eq!(join_path("out/", "a"), "out/a");
    assert_eq!(join_path("", "a"), "a");
}

#[test]
fn split_lines_matches_text_lines() {
    assert_eq!(split_lines("a\nb\n"), vec!["a", "b"]);
    assert_eq!(split_lines("a\r\nb"), vec!["a", "b"]);
    assert_eq!(split_lines("a\n\nb"), vec!["a", "", "b"]);
    assert_eq!(split_lines(""), Vec::<String>::new());
}
