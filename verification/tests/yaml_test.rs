use svg_render::error::PlanError;
use svg_render::yaml::{default_scales, parse_render_yaml, RenderYaml};

fn parse(s: &str) -> RenderYaml {
    parse_render_yaml(s).unwrap()
}

#[test]
fn should_be_able_to_parse_yaml() {
    let yaml = parse("scales: [1, 2, 3]\nthreads: 2");
    assert_eq!(
        yaml,
        RenderYaml {
            scales: vec![1, 2, 3],
            threads: Some(2),
        }
    );
}

#[test]
fn should_handle_missing_threads() {
    let yaml = parse("scales: [1, 2, 3]");
    assert_eq!(
        yaml,
        RenderYaml {
            scales: vec![1, 2, 3],
            threads: None,
        }
    );
}

#[test]
fn should_handle_missing_scales() {
    let yaml = parse("threads: 1");
    assert_eq!(
        yaml,
        RenderYaml {
            scales: vec![1],
            threads: Some(1),
        }
    );
}

#[test]
fn rejects_text_that_is_not_yaml() {
    assert!(matches!(
        parse_render_yaml("scales: [1, 2"),
        Err(PlanError::ConfigParse)
    ));
}

#[test]
fn rejects_documents_that_are_not_mappings() {
    assert!(matches!(
        parse_render_yaml("3"),
        Err(PlanError::ConfigParse)
    ));
    assert!(matches!(
        parse_render_yaml(""),
        Err(PlanError::ConfigParse)
    ));
}

#[test]
fn rejects_malformed_scales() {
    assert!(matches!(
        parse_render_yaml("scales: 5"),
        Err(PlanError::ConfigParse)
    ));
    assert!(matches!(
        parse_render_yaml("scales: [1.5]"),
        Err(PlanError::ConfigParse)
    ));
    assert!(matches!(
        parse_render_yaml("scales: [-1]"),
        Err(PlanError::ConfigParse)
    ));
    assert!(matches!(
        parse_render_yaml("scales: [4294967296]"),
        Err(PlanError::ConfigParse)
    ));
}

#[test]
fn rejects_malformed_threads() {
    assert!(matches!(
        parse_render_yaml("threads: many"),
        Err(PlanError::ConfigParse)
    ));
}

#[test]
fn null_threads_means_no_thread_count() {
    let yaml = parse("scales: [2]\nthreads: null");
    assert_eq!(
        yaml,
        RenderYaml {
            scales: vec![2],
            threads: None,
        }
    );
}

#[test]
fn ignores_unknown_keys() {
    let yaml = parse("scales: [2]\nother: [x, y]");
    assert_eq!(
        yaml,
        RenderYaml {
            scales: vec![2],
            threads: None,
        }
    );
}

#[test]
fn defaults_are_the_identity_scale_and_no_threads() {
    assert_eq!(default_scales(), vec![1]);
    let d = RenderYaml::default();
    assert_eq!(
        d,
        RenderYaml {
            scales: vec![1],
            threads: None,
        }
    );
}
