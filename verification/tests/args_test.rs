use svg_render::args::{map_single, plan_jobs, Args, SvgRenderJob};
use svg_render::error::PlanError;
use svg_render::paths::{DirEntry, FsView, PathKind};
use svg_render::yaml::RenderYaml;

fn entry(name: &str, is_file: bool, content: Option<&str>) -> DirEntry {
    DirEntry {
        name: name.to_string(),
        is_file,
        content: content.map(|c| c.to_string()),
    }
}

fn dir_view(path: &str, entries: Vec<DirEntry>) -> FsView {
    FsView {
        path: path.to_string(),
        kind: PathKind::Directory,
        content: None,
        entries,
    }
}

fn file_view(path: &str) -> FsView {
    FsView {
        path: path.to_string(),
        kind: PathKind::File,
        content: None,
        entries: vec![],
    }
}

fn job(from: &str, to: &str, scale: u32) -> SvgRenderJob {
    SvgRenderJob {
        from: from.to_string(),
        to: to.to_string(),
        scale,
    }
}

fn args(input: &str, output: &str, scales: Option<Vec<u32>>) -> Args {
    Args {
        output: output.to_string(),
        input: input.to_string(),
        scales,
        threads: None,
    }
}

#[test]
fn compute_jobs_file_to_file() {
    let jobs = args("example.svg", "another_file.doc", Some(vec![1]))
        .compute_jobs(&file_view("example.svg"), PathKind::File)
        .unwrap();
    assert_eq!(jobs, vec![job("example.svg", "another_file.doc", 1)]);
}

#[test]
fn compute_jobs_file_to_dir() {
    let jobs = args("example.svg", "multiple_svgs", Some(vec![1]))
        .compute_jobs(&file_view("example.svg"), PathKind::Directory)
        .unwrap();
    assert_eq!(jobs, vec![job("example.svg", "multiple_svgs/example.png", 1)]);
}

#[test]
fn compute_jobs_dir_to_dir() {
    let input = dir_view(
        "multiple_svgs",
        vec![
            entry("example2.svg", true, None),
            entry("example.svg", true, None),
        ],
    );
    let jobs = args("multiple_svgs", "empty", Some(vec![1]))
        .compute_jobs(&input, PathKind::Directory)
        .unwrap();
    assert_eq!(
        jobs,
        vec![
            job("multiple_svgs/example2.svg", "empty/example2.png", 1),
            job("multiple_svgs/example.svg", "empty/example.png", 1),
        ]
    );
}

#[test]
fn compute_jobs_dir_to_dir_multiple_scales() {
    let input = dir_view(
        "multiple_svgs",
        vec![
            entry("example2.svg", true, None),
            entry("example.svg", true, None),
        ],
    );
    let jobs = args("multiple_svgs", "empty", Some(vec![1, 2]))
        .compute_jobs(&input, PathKind::Directory)
        .unwrap();
    assert_eq!(
        jobs,
        vec![
            job("multiple_svgs/example2.svg", "empty/example2.png", 1),
            job("multiple_svgs/example2.svg", "empty/2.0x/example2.png", 2),
            job("multiple_svgs/example.svg", "empty/example.png", 1),
            job("multiple_svgs/example.svg", "empty/2.0x/example.png", 2),
        ]
    );
}

#[test]
fn compute_jobs_uses_scales_from_yaml_if_args_not_provided() {
    let input = dir_view(
        "has_render_yaml",
        vec![
            entry("example.svg", true, None),
            entry("render.yaml", true, Some("scales: [1, 2, 3]\n")),
        ],
    );
    let jobs = args("has_render_yaml", "empty", None)
        .compute_jobs(&input, PathKind::Directory)
        .unwrap();
    assert_eq!(
        jobs,
        vec![
            job("has_render_yaml/example.svg", "empty/example.png", 1),
            job("has_render_yaml/example.svg", "empty/2.0x/example.png", 2),
            job("has_render_yaml/example.svg", "empty/3.0x/example.png", 3),
        ]
    );
}

#[test]
fn compute_jobs_uses_scales_arg_over_yaml() {
    let input = dir_view(
        "has_render_yaml",
        vec![
            entry("example.svg", true, None),
            entry("render.yaml", true, Some("scales: [1, 2, 3]\n")),
        ],
    );
    let jobs = args("has_render_yaml", "empty", Some(vec![1]))
        .compute_jobs(&input, PathKind::Directory)
        .unwrap();
    assert_eq!(
        jobs,
        vec![job("has_render_yaml/example.svg", "empty/example.png", 1)]
    );
}

#[test]
fn compute_jobs_dir_to_file_is_ambiguous() {
    let input = dir_view(
        "multiple_svgs",
        vec![
            entry("example2.svg", true, None),
            entry("example.svg", true, None),
        ],
    );
    let r = args("multiple_svgs", "no_extension", Some(vec![1])).compute_jobs(
        &input,
        PathKind::File,
    );
    match r {
        Err(PlanError::AmbiguousOutput(conflicts)) => {
            assert_eq!(conflicts.len(), 2);
        }
        other => panic!("expected an ambiguity error, got {:?}", other),
    }
}

#[test]
fn compute_jobs_missing_input_errors() {
    let input = FsView {
        path: "gone".to_string(),
        kind: PathKind::Missing,
        content: None,
        entries: vec![],
    };
    let r = args("gone", "out", Some(vec![1])).compute_jobs(&input, PathKind::File);
    assert!(matches!(r, Err(PlanError::NotFound)));
}

#[test]
fn compute_jobs_bad_yaml_aborts() {
    let input = dir_view(
        "bad_render_yaml",
        vec![
            entry("example.svg", true, None),
            entry("render.yaml", true, Some("scales: [1, 2\n")),
        ],
    );
    let r = args("bad_render_yaml", "empty", Some(vec![1]))
        .compute_jobs(&input, PathKind::Directory);
    assert!(matches!(r, Err(PlanError::ConfigParse)));
}

#[test]
fn zero_pairs_to_file_output_is_an_empty_plan() {
    let input = dir_view("empty", vec![]);
    let jobs = args("empty", "out.png", Some(vec![1, 2]))
        .compute_jobs(&input, PathKind::File)
        .unwrap();
    assert_eq!(jobs.len(), 0);
}

#[test]
fn round_trip_two_sources_two_scales() {
    let sources = vec!["in/a.svg".to_string(), "in/b.svg".to_string()];
    let scales = vec![1, 2];
    let jobs = plan_jobs(&sources, &scales, &"out".to_string(), true).unwrap();
    assert_eq!(jobs.len(), 4);
    let expected = vec![
        job("in/a.svg", "out/a.png", 1),
        job("in/a.svg", "out/2.0x/a.png", 2),
        job("in/b.svg", "out/b.png", 1),
        job("in/b.svg", "out/2.0x/b.png", 2),
    ];
    for e in &expected {
        assert_eq!(jobs.iter().filter(|j| *j == e).count(), 1);
    }
}

#[test]
fn map_single_relocates_for_non_identity_scales() {
    let j = map_single(&"a.svg".to_string(), &"out.png".to_string(), false, 3);
    assert_eq!(j, job("a.svg", "3.0x/out.png", 3));
    let j = map_single(&"a.svg".to_string(), &"dir/out.png".to_string(), false, 10);
    assert_eq!(j, job("a.svg", "dir/10.0x/out.png", 10));
    let j = map_single(&"noext".to_string(), &"out".to_string(), true, 1);
    assert_eq!(j, job("noext", "out/noext.png", 1));
}

#[test]
fn merged_config_merges_each_field_independently() {
    let yaml = RenderYaml {
        scales: vec![1, 2, 3],
        threads: Some(7),
    };
    let a = args("in", "out", None);
    let merged = a.merged_config(&Some(yaml));
    assert_eq!(merged.scales, vec![1, 2, 3]);
    assert_eq!(merged.threads, Some(7));

    let a = Args {
        output: "out".to_string(),
        input: "in".to_string(),
        scales: Some(vec![5]),
        threads: None,
    };
    let yaml = RenderYaml {
        scales: vec![1, 2, 3],
        threads: Some(7),
    };
    let merged = a.merged_config(&Some(yaml));
    assert_eq!(merged.scales, vec![5]);
    assert_eq!(merged.threads, Some(7));

    let a = args("in", "out", None);
    let merged = a.merged_config(&None);
    assert_eq!(merged.scales, vec![1]);
    assert_eq!(merged.threads, None);
}
