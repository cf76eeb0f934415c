use svg_render::error::PlanError;
use svg_render::paths::{
    find_svgs, find_yaml, find_yaml_from_file, is_svg, parent_dir, path_join, rename_svg_to_png,
    DirEntry, FsView, PathKind,
};
use svg_render::yaml::RenderYaml;

fn entry(name: &str, is_file: bool, content: Option<&str>) -> DirEntry {
    DirEntry {
        name: name.to_string(),
        is_file,
        content: content.map(|c| c.to_string()),
    }
}

fn dir_view(path: &str, entries: Vec<DirEntry>) -> FsView {
    FsView {
        path: path.to_string(),
        kind: PathKind::Directory,
        content: None,
        entries,
    }
}

fn file_view(path: &str, content: Option<&str>) -> FsView {
    FsView {
        path: path.to_string(),
        kind: PathKind::File,
        content: content.map(|c| c.to_string()),
        entries: vec![],
    }
}

#[test]
fn test_svg_to_png() {
    assert_eq!(
        rename_svg_to_png("example.svg".to_string()),
        "example.png".to_string()
    );
    assert_eq!(
        rename_svg_to_png("noExtension".to_string()),
        "noExtension.png".to_string()
    );
    assert_eq!(
        rename_svg_to_png("deeply/nested/image.svg".to_string()),
        "deeply/nested/image.png".to_string()
    );
}

#[test]
fn test_is_svg() {
    assert!(is_svg(&"example.svg".to_string(), true));
    assert!(!is_svg(&"another_file.doc".to_string(), true));
    assert!(!is_svg(&"doesnt_exist".to_string(), false));
    assert!(!is_svg(&"no_extension".to_string(), true));
    assert!(!is_svg(&"".to_string(), false));
}

#[test]
fn test_find_svgs() {
    let root = dir_view(
        "/",
        vec![
            entry("another_file.doc", true, None),
            entry("bad_render_yaml", false, None),
            entry("empty", false, None),
            entry("example.svg", true, None),
            entry("has_render_yaml", false, None),
            entry("multiple_svgs", false, None),
            entry("no_extension", true, None),
        ],
    );
    assert_eq!(
        find_svgs(&root).unwrap(),
        vec!["/example.svg".to_string()]
    );
    assert_eq!(
        find_svgs(&file_view("example.svg", None)).unwrap(),
        vec!["example.svg".to_string()]
    );
    assert_eq!(
        find_svgs(&file_view("another_file.doc", None)).unwrap().len(),
        0
    );
    assert_eq!(
        find_svgs(&file_view("no_extension", None)).unwrap().len(),
        0
    );
    assert_eq!(
        find_svgs(&dir_view(
            "multiple_svgs/",
            vec![
                entry("example2.svg", true, None),
                entry("example.svg", true, None),
            ],
        ))
        .unwrap(),
        vec![
            "multiple_svgs/example2.svg".to_string(),
            "multiple_svgs/example.svg".to_string(),
        ]
    );
}

#[test]
fn find_svgs_missing_root_errors() {
    let root = FsView {
        path: "/doesnt_exist".to_string(),
        kind: PathKind::Missing,
        content: None,
        entries: vec![],
    };
    assert!(matches!(find_svgs(&root), Err(PlanError::NotFound)));
}

#[test]
fn can_read_render_yaml_from_exact_path() {
    let yaml = find_yaml_from_file(
        &"has_render_yaml/render.yaml".to_string(),
        &Some("scales: [1, 2, 3]\n".to_string()),
    )
    .unwrap()
    .unwrap();
    assert_eq!(
        yaml,
        RenderYaml {
            scales: vec![1, 2, 3],
            threads: None,
        }
    );
}

#[test]
fn ignores_non_yaml_files() {
    let r = find_yaml_from_file(&"has_render_yaml/not_yaml_or_svg.doc".to_string(), &None);
    assert!(matches!(r, Ok(None)));

    let r = find_yaml_from_file(&"has_render_yaml/doesnt_exist".to_string(), &None);
    assert!(matches!(r, Ok(None)));
}

#[test]
fn finds_yamls_in_dir() {
    let root = dir_view(
        "has_render_yaml",
        vec![
            entry("example.svg", true, None),
            entry("not_yaml_or_svg.doc", true, None),
            entry("render.yaml", true, Some("scales: [1, 2, 3]\n")),
        ],
    );
    let yaml = find_yaml(&root).unwrap().unwrap();
    assert_eq!(
        yaml,
        RenderYaml {
            scales: vec![1, 2, 3],
            threads: None,
        }
    );
}

#[test]
fn ignores_dirs_with_no_yaml() {
    let root = dir_view("empty", vec![]);
    assert!(matches!(find_yaml(&root), Ok(None)));
}

#[test]
fn handles_bad_yaml() {
    let root = dir_view(
        "bad_render_yaml",
        vec![entry("render.yaml", true, Some("scales: [1, 2\n"))],
    );
    assert!(matches!(find_yaml(&root), Err(_)));
}

#[test]
fn finds_yaml_when_root_is_the_file() {
    let root = file_view("some/dir/render.yaml", Some("scales: [2]\n"));
    let yaml = find_yaml(&root).unwrap().unwrap();
    assert_eq!(
        yaml,
        RenderYaml {
            scales: vec![2],
            threads: None,
        }
    );
}

#[test]
fn unread_yaml_is_an_io_error() {
    let root = dir_view("dir", vec![entry("render.yaml", true, None)]);
    assert!(matches!(find_yaml(&root), Err(PlanError::Io)));
}

#[test]
fn join_and_parent_behave_like_paths() {
    assert_eq!(path_join("a", "b.png"), "a/b.png".to_string());
    assert_eq!(path_join("a/", "b.png"), "a/b.png".to_string());
    assert_eq!(path_join("", "b.png"), "b.png".to_string());
    assert_eq!(path_join("/", "b.png"), "/b.png".to_string());
    assert_eq!(parent_dir("a/b.png"), "a".to_string());
    assert_eq!(parent_dir("b.png"), "".to_string());
    assert_eq!(parent_dir("/b.png"), "/".to_string());
}
