//! Tests of the site tree: access, insertion, and the build plan.

use codedpedia::component::block::{Block, InlineBlock, Paragraph};
use codedpedia::component::inline::Inline;
use codedpedia::component::page::Page;
use codedpedia::location::{Fragment, InternalPath};
use codedpedia::site::{BuildOp, Directory, Entry, InsertPathError, OutputFormat, Site};

fn text(s: &str) -> Inline {
    Inline::Text(String::from(s))
}

fn paragraph(s: &str) -> Block {
    Block::Paragraph(Paragraph(text(s)))
}

fn simple_page(title: &str, body: &str) -> Page {
    Page {
        banner: Block::Sequence(vec![]),
        title: String::from(title),
        assets: vec![],
        body: paragraph(body),
        children: vec![],
    }
}

fn make_directory() -> Directory {
    Directory {
        entries: vec![
            (
                Fragment::new("avocado").unwrap(),
                Entry::Directory(Directory {
                    entries: vec![
                        (
                            Fragment::new("apple").unwrap(),
                            Entry::Page(simple_page("My Page", "hello")),
                        ),
                        (Fragment::new("audio.ogg").unwrap(), Entry::Resource),
                    ],
                }),
            ),
            (Fragment::new("pineapple").unwrap(), Entry::Resource),
        ],
    }
}

#[test]
fn access_fragment_valid() {
    let dir = make_directory();
    assert!(dir.get(&Fragment::new("avocado").unwrap()).unwrap().is_directory());
}

#[test]
fn access_fragment_invalid() {
    let dir = make_directory();
    assert!(dir.get(&Fragment::new("grapes").unwrap()).is_none());
}

#[test]
fn access_internal_path_valid() {
    let dir = make_directory();
    assert!(dir.get_path(&InternalPath::parse("avocado/apple").unwrap()).unwrap().is_page());
}

#[test]
fn access_internal_path_invalid() {
    let dir = make_directory();
    assert!(dir.get_path(&InternalPath::parse("avocado/grapes").unwrap()).is_none());
}

#[test]
fn insert_at_empty_path_fails() {
    let mut dir = Directory::new();
    let err = dir.try_insert_path(&InternalPath::root(), Entry::Resource).unwrap_err();
    assert_eq!(err, InsertPathError::EmptyPath);
}

#[test]
fn insert_twice_fails_as_already_exists() {
    let mut dir = Directory::new();
    let path = InternalPath::parse("a/b").unwrap();
    dir.try_insert_path(&path, Entry::Resource).unwrap();
    let err = dir.try_insert_path(&path, Entry::Resource).unwrap_err();
    assert_eq!(err, InsertPathError::AlreadyExists);
}

#[test]
fn insert_auto_creates_intermediate_directories() {
    let mut dir = Directory::new();
    let path = InternalPath::parse("a/b/c").unwrap();
    dir.try_insert_path(&path, Entry::Resource).unwrap();
    assert!(dir.get_path(&InternalPath::parse("a").unwrap()).unwrap().is_directory());
    assert!(dir.get_path(&InternalPath::parse("a/b").unwrap()).unwrap().is_directory());
    assert!(dir.get_path(&InternalPath::parse("a/b/c").unwrap()).unwrap().is_resource());
}

#[test]
fn insert_through_non_directory_fails() {
    let mut dir = Directory::new();
    dir.try_insert_path(&InternalPath::parse("a").unwrap(), Entry::Resource).unwrap();
    let err = dir
        .try_insert_path(&InternalPath::parse("a/b").unwrap(), Entry::Resource)
        .unwrap_err();
    assert_eq!(err, InsertPathError::NonDirEntry);
}

#[test]
fn build_single_page_site() {
    let mut site = Site::new();
    site.root
        .try_insert_path(
            &InternalPath::parse("index.html").unwrap(),
            Entry::Page(simple_page("Hello", "World!")),
        )
        .unwrap();
    let ops = site.build_plan(&OutputFormat::Html);
    assert_eq!(ops.len(), 2);
    match &ops[0] {
        BuildOp::MakeDir(path) => assert!(path.is_root()),
        other => panic!("expected the root directory first, got {:?}", other),
    }
    match &ops[1] {
        BuildOp::WriteFile(path, contents) => {
            assert_eq!(path.to_string(), "index.html");
            assert!(contents.contains("Hello"));
            assert!(contents.contains("World!"));
            let parsed = scraper::Html::parse_document(contents);
            assert!(parsed.errors.is_empty(), "html errors: {:?}", parsed.errors);
        },
        other => panic!("expected exactly one file, got {:?}", other),
    }
}

#[test]
fn build_walks_depth_first_in_insertion_order() {
    let mut site = Site::new();
    site.root
        .try_insert_path(
            &InternalPath::parse("foo/index.html").unwrap(),
            Entry::Page(simple_page("Foo", "foo body")),
        )
        .unwrap();
    site.root
        .try_insert_path(&InternalPath::parse("styles/main.css").unwrap(), Entry::Resource)
        .unwrap();
    let ops = site.build_plan(&OutputFormat::Html);
    let shapes: Vec<String> = ops
        .iter()
        .map(|op| match op {
            BuildOp::MakeDir(p) => format!("dir {}", p.to_string()),
            BuildOp::WriteFile(p, _) => format!("file {}", p.to_string()),
            BuildOp::CopyResource(p) => format!("copy {}", p.to_string()),
        })
        .collect();
    assert_eq!(
        shapes,
        vec![
            String::from("dir "),
            String::from("dir foo"),
            String::from("file foo/index.html"),
            String::from("dir styles"),
            String::from("copy styles/main.css"),
        ],
    );
}

#[test]
fn build_markdown_page() {
    let mut site = Site::new();
    site.root
        .try_insert_path(
            &InternalPath::parse("index.md").unwrap(),
            Entry::Page(simple_page("Hello", "World!")),
        )
        .unwrap();
    let ops = site.build_plan(&OutputFormat::Markdown { indent_size: 4 });
    match &ops[1] {
        BuildOp::WriteFile(_, contents) => {
            assert_eq!(contents, "\n\n# Hello\n\nWorld!\n");
        },
        other => panic!("expected a file, got {:?}", other),
    }
}

#[test]
fn site_get_finds_inserted_page() {
    let mut site = Site::new();
    site.root
        .try_insert_path(
            &InternalPath::parse("a/b").unwrap(),
            Entry::Page(simple_page("T", "B")),
        )
        .unwrap();
    assert!(site.get(&InternalPath::parse("a/b").unwrap()).unwrap().is_page());
    assert!(site.get(&InternalPath::parse("a/c").unwrap()).is_none());
    let entry = site.get(&InternalPath::parse("a/b").unwrap()).unwrap();
    assert_eq!(entry.as_page().unwrap().title, "T");
}

#[test]
fn insert_error_messages() {
    assert_eq!(InsertPathError::EmptyPath.message(), "cannot insert at empty path");
    assert_eq!(
        InsertPathError::NonDirEntry.message(),
        "cannot create directory at non-directory entry",
    );
    assert_eq!(InsertPathError::AlreadyExists.message(), "path already exists");
}
