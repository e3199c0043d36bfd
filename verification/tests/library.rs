use dmt::context::Context;
use dmt::csvsrc::csv_context;
use dmt::error::Error;
use dmt::node::Node;
use dmt::renderer::{assemble, build_search_path, output_path, parse_multipart, TemplateRenderer};
use dmt::sources::{env_context, load_source, yaml_context, DataSource, SourceInput, VariableMode};
use dmt::strutil::parse_u8;

fn scalar(v: &Node) -> &str {
    match v {
        Node::Scalar(s) => s.as_str(),
        _ => panic!("expected a scalar"),
    }
}

#[test]
fn env_variable_yields_key() {
    let vars = vec![("FOO".to_string(), "bar".to_string())];
    let c = env_context("", &vars);
    let v = c.get(&"FOO".to_string()).expect("FOO missing");
    assert_eq!(scalar(v), "bar");
}

#[test]
fn env_prefix_applied() {
    let vars = vec![("FOO".to_string(), "bar".to_string())];
    let c = env_context("env_", &vars);
    assert!(c.get(&"FOO".to_string()).is_none());
    let v = c.get(&"env_FOO".to_string()).expect("env_FOO missing");
    assert_eq!(scalar(v), "bar");
}

#[test]
fn context_add_replaces_and_extend_overrides() {
    let mut a = Context::new();
    a.add("k".to_string(), Node::Scalar("one".to_string()));
    a.add("k".to_string(), Node::Scalar("two".to_string()));
    assert_eq!(a.len(), 1);
    assert_eq!(scalar(a.get(&"k".to_string()).unwrap()), "two");

    let mut b = Context::new();
    b.add("k".to_string(), Node::Scalar("three".to_string()));
    b.add("other".to_string(), Node::Scalar("x".to_string()));
    a.extend(b);
    assert_eq!(scalar(a.get(&"k".to_string()).unwrap()), "three");
    assert_eq!(scalar(a.get(&"other".to_string()).unwrap()), "x");
    assert!(a.get(&"missing".to_string()).is_none());
}

#[test]
fn environment_wins_over_default_file() {
    let mut tr = TemplateRenderer::new("", "**/*", ".dmt.tpl", ".dmt.mtpl");
    tr.add_all_datasources(&vec![], &vec![]);
    // Sources, in order: default.yml, local.yml, environment.
    let inputs = vec![
        SourceInput::FileText("priority: default\nonly_default: yes\n".to_string()),
        SourceInput::Unavailable,
        SourceInput::EnvVars(vec![("priority".to_string(), "env".to_string())]),
    ];
    tr.refresh_contexts(&inputs);
    assert_eq!(scalar(tr.context.get(&"priority".to_string()).unwrap()), "env");
    assert_eq!(scalar(tr.context.get(&"only_default".to_string()).unwrap()), "yes");
}

#[test]
fn local_overrides_discovered_sources() {
    let mut tr = TemplateRenderer::new("", "**/*", ".dmt.tpl", ".dmt.mtpl");
    let ctx_paths = vec!["vals.dmt.ctx".to_string()];
    let csv_paths = vec!["k.dmt.csv".to_string()];
    tr.add_all_datasources(&ctx_paths, &csv_paths);
    // Sources, in order: default.yml, vals.dmt.ctx, k.dmt.csv, local.yml, env.
    let inputs = vec![
        SourceInput::Unavailable,
        SourceInput::FileText("k: fromctx\n".to_string()),
        SourceInput::FileBytes(b"a\nrow\n".to_vec()),
        SourceInput::FileText("k: fromlocal\n".to_string()),
        SourceInput::EnvVars(vec![]),
    ];
    tr.refresh_contexts(&inputs);
    assert_eq!(scalar(tr.context.get(&"k".to_string()).unwrap()), "fromlocal");
}

#[test]
fn csv_without_key_column_yields_list() {
    let data = b"name,qty\nbolt,4\nnut,9\n".to_vec();
    let src = DataSource::CsvFile { path: "widgets.dmt.csv".to_string(), prefix: "".to_string() };
    let c = load_source(&src, &SourceInput::FileBytes(data)).expect("load failed");
    match c.get(&"widgets".to_string()).expect("widgets missing") {
        Node::Sequence(rows) => {
            assert_eq!(rows.len(), 2);
            match &rows[0] {
                Node::Mapping(cols) => {
                    assert_eq!(cols.len(), 2);
                    assert_eq!(cols[0].0, Node::Scalar("name".to_string()));
                    assert_eq!(cols[0].1, Node::Scalar("bolt".to_string()));
                    assert_eq!(cols[1].0, Node::Scalar("qty".to_string()));
                    assert_eq!(cols[1].1, Node::Scalar("4".to_string()));
                }
                _ => panic!("expected a record mapping"),
            }
        }
        _ => panic!("expected a sequence"),
    }
}

#[test]
fn csv_with_key_column_yields_mapping() {
    let data = b"id,name\n1,bolt\n2,nut\n".to_vec();
    let src = DataSource::CsvFile {
        path: "widgets.id.dmt.csv".to_string(),
        prefix: "".to_string(),
    };
    let c = load_source(&src, &SourceInput::FileBytes(data)).expect("load failed");
    match c.get(&"widgets".to_string()).expect("widgets missing") {
        Node::Mapping(entries) => {
            assert_eq!(entries.len(), 2);
            assert_eq!(entries[0].0, Node::Scalar("1".to_string()));
            match &entries[0].1 {
                Node::Mapping(cols) => {
                    // The id column itself is absent from the value.
                    assert_eq!(cols.len(), 1);
                    assert_eq!(cols[0].0, Node::Scalar("name".to_string()));
                    assert_eq!(cols[0].1, Node::Scalar("bolt".to_string()));
                }
                _ => panic!("expected a record mapping"),
            }
            assert_eq!(entries[1].0, Node::Scalar("2".to_string()));
        }
        _ => panic!("expected a mapping"),
    }
}

#[test]
fn csv_three_segments_contributes_nothing() {
    let table = vec![vec!["a".to_string()], vec!["x".to_string()]];
    let c = csv_context("data.things.extra.dmt.csv", "", &table);
    assert_eq!(c.len(), 0);
    let c2 = csv_context("plain.txt", "", &table);
    assert_eq!(c2.len(), 0);
}

#[test]
fn csv_malformed_row_aborts_load() {
    let data = b"a,b\nonly_one_field\n".to_vec();
    let src = DataSource::CsvFile { path: "t.dmt.csv".to_string(), prefix: "".to_string() };
    let r = load_source(&src, &SourceInput::FileBytes(data));
    assert_eq!(r.unwrap_err(), Error::Parse);
}

#[test]
fn yaml_direct_mode_promotes_top_level() {
    let c = yaml_context(VariableMode::Direct, "", "a: 1\nb: text\n").expect("parse failed");
    assert_eq!(scalar(c.get(&"a".to_string()).unwrap()), "1");
    assert_eq!(scalar(c.get(&"b".to_string()).unwrap()), "text");
}

#[test]
fn yaml_legacy_mode_promotes_variables_only() {
    let text = "variables:\n  k: v\nother: ignored\n";
    let c = yaml_context(VariableMode::Legacy, "", text).expect("parse failed");
    assert_eq!(scalar(c.get(&"k".to_string()).unwrap()), "v");
    assert!(c.get(&"other".to_string()).is_none());

    let missing = yaml_context(VariableMode::Legacy, "", "other: x\n").expect("parse failed");
    assert_eq!(missing.len(), 0);
}

#[test]
fn yaml_non_mapping_root_yields_empty_context() {
    let c = yaml_context(VariableMode::Direct, "", "just a string").expect("parse failed");
    assert_eq!(c.len(), 0);
}

#[test]
fn yaml_parse_failure_is_parse_error() {
    let r = yaml_context(VariableMode::Direct, "", "a: [unclosed\nb: : :");
    assert_eq!(r.unwrap_err(), Error::Parse);
}

#[test]
fn unavailable_source_is_skipped() {
    let mut tr = TemplateRenderer::new("", "**/*", ".dmt.tpl", ".dmt.mtpl");
    tr.add_def_datasource("");
    tr.add_env_datasource("");
    let inputs = vec![
        SourceInput::Unavailable,
        SourceInput::EnvVars(vec![("A".to_string(), "1".to_string())]),
    ];
    tr.refresh_contexts(&inputs);
    assert_eq!(scalar(tr.context.get(&"A".to_string()).unwrap()), "1");

    let src = DataSource::YamlFile {
        path: "x.yml".to_string(),
        prefix: "".to_string(),
        mode: VariableMode::Direct,
    };
    assert!(load_source(&src, &SourceInput::Unavailable).is_err());
}

#[test]
fn output_path_strips_template_extension() {
    let r = output_path("", ".dmt.tpl", "a/b/hello.dmt.tpl").expect("derivation failed");
    assert_eq!(r, "a/b/hello");
    let under_base = output_path("base", ".dmt.tpl", "x.dmt.tpl").expect("derivation failed");
    assert_eq!(under_base, "base/x");
}

#[test]
fn render_fails_when_output_keeps_extension() {
    let mut tr = TemplateRenderer::new("", "**/*", ".dmt.tpl", ".dmt.mtpl");
    let inputs: Vec<SourceInput> = vec![];
    let templates = vec!["ok.dmt.tpl".to_string(), "twice.dmt.tpl.dmt.tpl".to_string()];
    let r = tr.render_default(&inputs, &templates);
    assert_eq!(r.unwrap_err(), Error::Config);
}

#[test]
fn render_plan_pairs_templates_with_outputs() {
    let mut tr = TemplateRenderer::new("", "**/*", ".dmt.tpl", ".dmt.mtpl");
    tr.add_env_datasource("");
    let inputs = vec![SourceInput::EnvVars(vec![("K".to_string(), "v".to_string())])];
    let templates = vec!["a/b/hello.dmt.tpl".to_string()];
    let plan = tr.render_default(&inputs, &templates).expect("render failed");
    assert_eq!(plan.len(), 1);
    assert_eq!(plan[0].0, "a/b/hello.dmt.tpl");
    assert_eq!(plan[0].1, "a/b/hello");
    assert_eq!(scalar(tr.context.get(&"K".to_string()).unwrap()), "v");
}

#[test]
fn render_pass_is_repeatable() {
    let templates = vec!["a/b/hello.dmt.tpl".to_string()];
    let mut plans = Vec::new();
    let mut values = Vec::new();
    for _ in 0..2 {
        let mut tr = TemplateRenderer::new("", "**/*", ".dmt.tpl", ".dmt.mtpl");
        tr.add_all_datasources(&vec![], &vec![]);
        let inputs = vec![
            SourceInput::FileText("priority: default\n".to_string()),
            SourceInput::Unavailable,
            SourceInput::EnvVars(vec![("priority".to_string(), "env".to_string())]),
        ];
        let plan = tr.render_default(&inputs, &templates).expect("render failed");
        plans.push(plan);
        values.push(scalar(tr.context.get(&"priority".to_string()).unwrap()).to_string());
    }
    assert_eq!(plans[0], plans[1]);
    assert_eq!(values[0], values[1]);
}

#[test]
fn multipart_descriptor_parses() {
    let text = "preamble: pre.txt\nglob: parts/*\npostfix: post.txt\nindent: 2\n";
    let m = parse_multipart(text).expect("parse failed");
    assert_eq!(m.preamble, "pre.txt");
    assert_eq!(m.glob, "parts/*");
    assert_eq!(m.postfix, "post.txt");
    assert_eq!(m.indent, 2);
}

#[test]
fn multipart_descriptor_missing_field_fails() {
    let text = "preamble: pre.txt\nglob: parts/*\n";
    assert_eq!(parse_multipart(text).unwrap_err(), Error::Parse);
    let huge = "preamble: p\nglob: g\npostfix: q\nindent: 300\n";
    assert_eq!(parse_multipart(huge).unwrap_err(), Error::Parse);
}

#[test]
fn multipart_plan_resolves_glob_and_output() {
    let mut tr = TemplateRenderer::new("base", "**/*", ".dmt.tpl", ".dmt.mtpl");
    let inputs: Vec<SourceInput> = vec![];
    let text = "preamble: pre.txt\nglob: parts/*\npostfix: post.txt\nindent: 1\n".to_string();
    let descriptors = vec![("conf.dmt.mtpl".to_string(), text)];
    let plans = tr.render_multipart(&inputs, &descriptors).expect("plan failed");
    assert_eq!(plans.len(), 1);
    assert_eq!(plans[0].descriptor_path, "conf.dmt.mtpl");
    assert_eq!(plans[0].output_path, "base/conf");
    assert_eq!(plans[0].fragment_pattern, "base/parts/*");
    assert_eq!(plans[0].indent, 1);
}

#[test]
fn assemble_indents_fragment_lines() {
    let frags = vec!["a\nb\n".to_string(), "c".to_string()];
    let out = assemble("HEAD\n", &frags, "TAIL", 2);
    assert_eq!(out, "HEAD\n  a\n  b\n    cTAIL");
    let empty = assemble("x", &Vec::new(), "y", 4);
    assert_eq!(empty, "xy");
}

#[test]
fn parse_u8_accepts_digits_in_range() {
    assert_eq!(parse_u8("0"), Some(0));
    assert_eq!(parse_u8("42"), Some(42));
    assert_eq!(parse_u8("255"), Some(255));
    assert_eq!(parse_u8("256"), None);
    assert_eq!(parse_u8(""), None);
    assert_eq!(parse_u8("12a"), None);
}

#[test]
fn custom_yml_datasource_overrides_all() {
    let mut tr = TemplateRenderer::new("tests/custom/", "**/*", ".dmt.tpl", "");
    tr.add_all_datasources(&vec![], &vec![]);
    tr.add_yml_datasource("", "custom.yml");
    // Sources, in order: default.yml, local.yml, environment, custom.yml.
    let inputs = vec![
        SourceInput::FileText("CUSTOM: no\n".to_string()),
        SourceInput::Unavailable,
        SourceInput::EnvVars(vec![]),
        SourceInput::FileText("CUSTOM: yes_for_custom\n".to_string()),
    ];
    tr.refresh_contexts(&inputs);
    assert_eq!(scalar(tr.context.get(&"CUSTOM".to_string()).unwrap()), "yes_for_custom");
    // The custom file is resolved under the base directory.
    match &tr.data_sources[3] {
        DataSource::YamlFile { path, .. } => assert_eq!(path, "tests/custom/custom.yml"),
        _ => panic!("expected a file source"),
    }
}

#[test]
fn legacy_mode_switches_extension_and_promotion() {
    let mut tr = TemplateRenderer::new("", "**/*", ".dmt.tpl", "");
    tr.set_mode(VariableMode::Legacy);
    assert_eq!(tr.target_extension, ".orig.tpl");
    tr.add_def_datasource("");
    let inputs = vec![SourceInput::FileText(
        "variables:\n  legacy_key: legacy_value\ntop: skipped\n".to_string(),
    )];
    tr.refresh_contexts(&inputs);
    assert_eq!(scalar(tr.context.get(&"legacy_key".to_string()).unwrap()), "legacy_value");
    assert!(tr.context.get(&"top".to_string()).is_none());

    let templates = vec!["conf.orig.tpl".to_string()];
    let plan = tr.render_default(&inputs, &templates).expect("render failed");
    assert_eq!(plan[0].1, "conf");
}

#[test]
fn search_path_joins_base_glob_extension() {
    assert_eq!(build_search_path("tests/custom/", "**/*", ".dmt.tpl"), "tests/custom/**/*.dmt.tpl");
    assert_eq!(build_search_path("", "**/*", ".dmt.csv"), "**/*.dmt.csv");
    assert_eq!(build_search_path("base", "**/*", ".dmt.ctx"), "base/**/*.dmt.ctx");
}
