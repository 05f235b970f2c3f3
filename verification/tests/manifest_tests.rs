use food_inspections::assets::ManifestFile;
use food_inspections::manifest::{manifest_files, manifest_from_text, ManifestError, TomlValue};

fn strings(v: &[&str]) -> Vec<String> {
    v.iter().map(|s| s.to_string()).collect()
}

fn text(s: &str) -> TomlValue {
    TomlValue::Text(s.to_string())
}

fn texts(v: &[&str]) -> TomlValue {
    TomlValue::Array(v.iter().map(|s| text(s)).collect())
}

fn table(entries: Vec<(&str, TomlValue)>) -> TomlValue {
    TomlValue::Table(entries.into_iter().map(|(k, v)| (k.to_string(), v)).collect())
}

#[test]
fn manifest_text_is_parsed_and_read() {
    let manifest = r#"
[[files]]
path = "/js/app.js"
commands = ["./web", "./build.sh"]
watch = ["./web/src/**/*.js"]
cache = 3

[[files]]
path = "/css/app.css"
commands = []
watch = ["./web/css/*.css", "./web/css/*.scss"]
"#;
    let expected = vec![
        ManifestFile {
            path: "/js/app.js".to_string(),
            commands: strings(&["./web", "./build.sh"]),
            watch: strings(&["./web/src/**/*.js"]),
        },
        ManifestFile {
            path: "/css/app.css".to_string(),
            commands: Vec::new(),
            watch: strings(&["./web/css/*.css", "./web/css/*.scss"]),
        },
    ];
    assert_eq!(manifest_from_text(manifest), Ok(expected));
}

#[test]
fn text_that_is_not_toml_is_refused() {
    assert_eq!(manifest_from_text("[[files]\npath = "), Err(ManifestError::NotToml));
}

#[test]
fn a_manifest_without_files_is_malformed() {
    assert_eq!(manifest_from_text("title = \"assets\"\n"), Err(ManifestError::Malformed));
    assert_eq!(manifest_from_text("files = 3\n"), Err(ManifestError::Malformed));
}

#[test]
fn an_entry_missing_a_key_or_of_the_wrong_type_is_malformed() {
    let no_watch = "[[files]]\npath = \"/a.js\"\ncommands = []\n";
    assert_eq!(manifest_from_text(no_watch), Err(ManifestError::Malformed));
    let numeric_path = "[[files]]\npath = 3\ncommands = []\nwatch = []\n";
    assert_eq!(manifest_from_text(numeric_path), Err(ManifestError::Malformed));
    let numeric_command = "[[files]]\npath = \"/a.js\"\ncommands = [\"x\", 1]\nwatch = []\n";
    assert_eq!(manifest_from_text(numeric_command), Err(ManifestError::Malformed));
}

#[test]
fn entries_are_read_from_the_tree_in_order() {
    let root = vec![(
        "files".to_string(),
        TomlValue::Array(vec![
            table(vec![("commands", texts(&["make"])), ("path", text("/b.css")), ("watch", texts(&[]))]),
            table(vec![("commands", texts(&[])), ("path", text("/a.js")), ("size", TomlValue::Other), ("watch", texts(&["a", "b"]))]),
        ]),
    )];
    let expected = vec![
        ManifestFile { path: "/b.css".to_string(), commands: strings(&["make"]), watch: Vec::new() },
        ManifestFile { path: "/a.js".to_string(), commands: Vec::new(), watch: strings(&["a", "b"]) },
    ];
    assert_eq!(manifest_files(&root), Ok(expected));
    let not_a_table = vec![("files".to_string(), TomlValue::Array(vec![text("/a.js")]))];
    assert_eq!(manifest_files(&not_a_table), Err(ManifestError::Malformed));
}
