use remote_table::json_file_builder::JsonFileBuilder;
use remote_table::json_file_builder::JsonModule;
use remote_table::json_file_builder::JsonOffsetValue;

fn find<'a>(out: &'a [(String, JsonModule)], name: &str) -> &'a JsonModule {
    &out
        .iter()
        .find(|(n, _)| n == name)
        .unwrap_or_else(|| panic!("namespace {name} missing"))
        .1
}

fn find_value<'a>(m: &'a JsonModule, name: &str) -> &'a JsonOffsetValue {
    &m.entries()
        .iter()
        .find(|(n, _)| n == name)
        .unwrap_or_else(|| panic!("variable {name} missing"))
        .1
}

#[test]
fn extension_is_json() {
    let mut b = JsonFileBuilder::default();
    assert_eq!(b.extension(), "json");
}

#[test]
fn namespaces_and_variables_accumulate() {
    let mut b = JsonFileBuilder::new();
    b.write_top_level();
    b.write_namespace("client", Some("client module"));
    b.write_variable("health", 0x100, Some("int32"));
    b.write_variable("armor", 0x104, None);
    b.write_namespace("engine", None);
    b.write_variable("build", 0x20, None);

    let out = b.write_closure(true).expect("eof returns the registry");
    assert_eq!(out.len(), 2);

    let client = find(&out, "client");
    assert_eq!(client.comment().as_deref(), Some("client module"));
    assert_eq!(client.entries().len(), 2);
    let health = find_value(client, "health");
    assert_eq!(health.value, 0x100);
    assert_eq!(health.comment.as_deref(), Some("int32"));
    assert_eq!(find_value(client, "armor").value, 0x104);

    let engine = find(&out, "engine");
    assert_eq!(engine.comment().as_deref(), None);
    assert_eq!(find_value(engine, "build").value, 0x20);
}

#[test]
fn rewriting_a_variable_overwrites_it() {
    let mut b = JsonFileBuilder::new();
    b.write_namespace("client", None);
    b.write_variable("health", 1, None);
    b.write_variable("health", 2, Some("moved"));
    let out = b.write_closure(true).expect("eof");
    let client = find(&out, "client");
    assert_eq!(client.entries().len(), 1);
    let health = find_value(client, "health");
    assert_eq!(health.value, 2);
    assert_eq!(health.comment.as_deref(), Some("moved"));
}

#[test]
fn renaming_a_namespace_comment_keeps_its_variables() {
    let mut b = JsonFileBuilder::new();
    b.write_namespace("client", Some("first"));
    b.write_variable("health", 1, None);
    b.write_namespace("client", Some("second"));
    let out = b.write_closure(true).expect("eof");
    assert_eq!(out.len(), 1);
    let client = find(&out, "client");
    assert_eq!(client.comment().as_deref(), Some("second"));
    assert_eq!(find_value(client, "health").value, 1);
}

#[test]
fn variables_without_a_namespace_go_under_the_empty_name() {
    let mut b = JsonFileBuilder::default();
    b.write_variable("orphan", 5, None);
    let out = b.write_closure(true).expect("eof");
    assert_eq!(out.len(), 1);
    assert_eq!(out[0].0, "");
    assert_eq!(find_value(&out[0].1, "orphan").value, 5);
}

#[test]
fn closure_before_eof_does_nothing() {
    let mut b = JsonFileBuilder::new();
    b.write_namespace("client", None);
    b.write_variable("health", 1, None);
    assert!(b.write_closure(false).is_none());
    let out = b.write_closure(true).expect("eof");
    assert_eq!(out.len(), 1);
}

#[test]
fn closure_at_eof_resets_the_builder() {
    let mut b = JsonFileBuilder::new();
    b.write_namespace("client", None);
    b.write_variable("health", 1, None);
    assert_eq!(b.write_closure(true).expect("eof").len(), 1);
    // The registry was handed out; the next document starts empty, but the
    // current namespace is kept.
    let out = b.write_closure(true).expect("eof");
    assert!(out.is_empty());
    b.write_variable("armor", 2, None);
    let out = b.write_closure(true).expect("eof");
    assert_eq!(out.len(), 1);
    assert_eq!(out[0].0, "client");
}
