//! Tests of the location value types: fragments, ids, paths, external and
//! general locations, and the relative links computed between pages.

use codedpedia::component::location::render_href;
use codedpedia::encode::percent_encode_str;
use codedpedia::location::external::ViewRef;
use codedpedia::location::{
    External, Fragment, Id, Internal, InternalPath, InvalidExternal, InvalidFragment, InvalidId,
    Location,
};

#[test]
fn component_valid_alphanumeric() {
    let component = Fragment::parse("hell0").unwrap();
    assert_eq!(component.raw_contents(), "hell0");
}

#[test]
fn component_valid_slug() {
    let component = Fragment::parse("hello-world").unwrap();
    assert_eq!(component.raw_contents(), "hello-world");
}

#[test]
fn component_valid_with_spaces_and_punct() {
    let component = Fragment::parse("Hello, world!").unwrap();
    assert_eq!(component.raw_contents(), "Hello, world!");
}

#[test]
fn component_invalid_bar() {
    Fragment::parse("ha/he").unwrap_err();
}

#[test]
fn component_invalid_hash() {
    Fragment::parse("ha#he").unwrap_err();
}

#[test]
fn id_valid_alphanumeric() {
    let id = Id::parse("hell0").unwrap();
    assert_eq!(id.raw_contents(), "hell0");
}

#[test]
fn id_valid_slug() {
    let id = Id::parse("hello-world_yahoo").unwrap();
    assert_eq!(id.raw_contents(), "hello-world_yahoo");
}

#[test]
fn invalid_space() {
    Id::parse("h a").unwrap_err();
}

#[test]
fn id_invalid_bar() {
    Id::parse("ha/he").unwrap_err();
}

#[test]
fn id_invalid_hash() {
    Id::parse("ha#he").unwrap_err();
}

#[test]
fn valid_root() {
    let path0 = InternalPath::parse("").unwrap();
    let path1 = InternalPath::root();

    assert_eq!(path0, path1);
    assert_eq!(path0.to_string(), "");
    assert_eq!(path1.to_string(), "");
}

#[test]
fn valid_single_alphanumeric() {
    let path = InternalPath::parse("hell0").unwrap();
    assert_eq!(path.to_string(), "hell0");
}

#[test]
fn path_valid_slug() {
    let path = InternalPath::parse("hello-world/foo-bar").unwrap();
    assert_eq!(path.to_string(), "hello-world/foo-bar");
}

#[test]
fn path_valid_with_spaces_and_punct() {
    let path = InternalPath::parse("Hello, world!/test/done").unwrap();
    assert_eq!(path.to_string(), "Hello, world!/test/done");
}

#[test]
fn path_invalid_hash() {
    InternalPath::parse("ha#he").unwrap_err();
}

#[test]
fn iter_root() {
    let expected: Vec<Fragment> = Vec::new();
    let actual = InternalPath::root().components();

    assert_eq!(expected, actual);
}

#[test]
fn iter_single() {
    let expected: Vec<Fragment> = vec![Fragment::new("bl0g").unwrap()];
    let actual = InternalPath::parse("bl0g").unwrap().components();

    assert_eq!(expected, actual);
}

#[test]
fn iter_two() {
    let expected: Vec<Fragment> = vec![
        Fragment::new("bl0g").unwrap(),
        Fragment::new("new-post").unwrap(),
    ];
    let actual = InternalPath::parse("bl0g/new-post").unwrap().components();

    assert_eq!(expected, actual);
}

#[test]
fn iter_three() {
    let expected: Vec<Fragment> = vec![
        Fragment::new("bl0g").unwrap(),
        Fragment::new("new-post").unwrap(),
        Fragment::new("actual").unwrap(),
    ];
    let actual = InternalPath::parse("bl0g/new-post/actual").unwrap().components();

    assert_eq!(expected, actual);
}

#[test]
fn valid_with_host() {
    let external_loc = External::parse("https://duckduckgo.com/").unwrap();
    assert_eq!(external_loc.raw_contents(), "https://duckduckgo.com/");
    assert_eq!(
        external_loc.view_ref(),
        ViewRef::WithHost { scheme: String::from("https"), rest: String::from("duckduckgo.com/") }
    );
}

#[test]
fn valid_as_other() {
    let external_loc = External::parse("other://urn:isbn:123").unwrap();
    assert_eq!(external_loc.raw_contents(), "other://urn:isbn:123");
    assert_eq!(external_loc.view_ref(), ViewRef::Other(String::from("urn:isbn:123")));
}

#[test]
fn invalid_no_scheme() {
    External::parse("abcd").unwrap_err();
}

#[test]
fn invalid_empty_scheme() {
    External::parse("://abcd").unwrap_err();
}

#[test]
fn invalid_bad_scheme_start() {
    External::parse(".b://abcd").unwrap_err();
}

#[test]
fn invalid_bad_scheme_char() {
    External::parse("a!b://abcd").unwrap_err();
}

#[test]
fn valid_internal() {
    let location = Location::parse("blog/page#id").unwrap();
    assert_eq!(location.raw_contents(), "blog/page#id");
    assert_eq!(location, Location::Internal(Internal::parse("blog/page#id").unwrap()));
}

#[test]
fn valid_external() {
    let location = Location::parse("https://duckduckgo.com/").unwrap();
    assert_eq!(location.raw_contents(), "https://duckduckgo.com/");
    assert_eq!(
        location,
        Location::External(External::parse("https://duckduckgo.com/").unwrap()),
    );
}

#[test]
fn invalid_internal() {
    Location::parse("../page#id").unwrap_err();
}

#[test]
fn invalid_external() {
    Location::parse("://page").unwrap_err();
}

#[test]
fn eq_index_append() {
    let dir = InternalPath::parse("a/b").unwrap();
    let index = InternalPath::parse("a/b/index.html").unwrap();
    assert!(dir.eq_index(&index));
    assert!(index.eq_index(&dir));
    assert!(dir.eq_index(&dir));
    let other = InternalPath::parse("a/c/index.html").unwrap();
    assert!(!dir.eq_index(&other));
}

#[test]
fn link_to_self_is_empty() {
    let page = InternalPath::parse("a/b/index.html").unwrap();
    let target = Location::internal("a/b");
    assert_eq!(render_href(&target, &page), "");
    let same = Location::internal("a/b/index.html");
    assert_eq!(render_href(&same, &page), "");
}

#[test]
fn link_to_sibling() {
    let page = InternalPath::parse("a/b").unwrap();
    let target = Location::internal("a/c");
    assert_eq!(render_href(&target, &page), "c");
}

#[test]
fn link_between_index_pages() {
    let page = InternalPath::parse("a/b/index.html").unwrap();
    let target = Location::internal("a/c/index.html");
    assert_eq!(render_href(&target, &page), "../c/");
}

#[test]
fn link_with_anchor() {
    let page = InternalPath::parse("a/b").unwrap();
    let target = Location::internal("a/c#here");
    assert_eq!(render_href(&target, &page), "c#here");
}

#[test]
fn link_from_root_page() {
    let page = InternalPath::parse("index.html").unwrap();
    let target = Location::internal("foo/index.html");
    assert_eq!(render_href(&target, &page), "foo/");
}

#[test]
fn external_link_is_encoded() {
    let page = InternalPath::root();
    let target = Location::new("https://duckduckgo.com/?q=a b").unwrap();
    assert_eq!(render_href(&target, &page), "https://duckduckgo.com/?q=a%20b");
}

#[test]
fn other_scheme_drops_prefix() {
    let page = InternalPath::root();
    let target = Location::new("other://urn:isbn:123").unwrap();
    assert_eq!(render_href(&target, &page), "urn:isbn:123");
}

#[test]
fn percent_encoding_examples() {
    assert_eq!(percent_encode_str("a b"), "a%20b");
    assert_eq!(percent_encode_str("<it's>"), "%3Cit%27s%3E");
    assert_eq!(percent_encode_str("plain-text_0"), "plain-text_0");
    assert_eq!(percent_encode_str("()[]&`\\\""), "%28%29%5B%5D%26%60%5C%22");
}

#[test]
fn fragment_error_variants() {
    assert_eq!(Fragment::parse("").unwrap_err(), InvalidFragment::Empty);
    assert_eq!(Fragment::parse(".").unwrap_err(), InvalidFragment::CurrentDir);
    assert_eq!(Fragment::parse("..").unwrap_err(), InvalidFragment::ParentDir);
    assert_eq!(Fragment::parse("a/b").unwrap_err(), InvalidFragment::Bar);
    assert_eq!(Fragment::parse("a#b").unwrap_err(), InvalidFragment::Hash);
}

#[test]
fn id_error_variants() {
    assert_eq!(Id::parse("").unwrap_err(), InvalidId::Empty);
    assert_eq!(Id::parse("1a").unwrap_err(), InvalidId::InvalidStart('1'));
    assert_eq!(Id::parse("a!").unwrap_err(), InvalidId::InvalidChar('!'));
}

#[test]
fn external_error_variants() {
    assert_eq!(External::parse("abcd").unwrap_err(), InvalidExternal::MissingScheme);
    assert_eq!(External::parse("://abcd").unwrap_err(), InvalidExternal::EmptyScheme);
    assert_eq!(
        External::parse("9a://abcd").unwrap_err(),
        InvalidExternal::InvalidSchemeStart('9'),
    );
    assert_eq!(
        External::parse("a!b://abcd").unwrap_err(),
        InvalidExternal::InvalidSchemeChar('!'),
    );
}

#[test]
fn internal_splits_path_and_id() {
    let loc = Internal::parse("blog/page#intro").unwrap();
    assert_eq!(loc.path().to_string(), "blog/page");
    assert_eq!(loc.id().as_ref().unwrap().as_str(), "intro");
    let bare = Internal::parse("blog/page").unwrap();
    assert!(bare.id().is_none());
    let anchor_only = Internal::parse("#intro").unwrap();
    assert!(anchor_only.path().is_root());
}

#[test]
fn path_operations() {
    let mut path = InternalPath::parse("a/b").unwrap();
    assert_eq!(path.dir_depth(), 1);
    assert!(!path.is_root());
    path.push(Fragment::new("c").unwrap());
    assert_eq!(path.to_string(), "a/b/c");
    let parent = path.popped().unwrap();
    assert_eq!(parent.to_string(), "a/b");
    let popped = path.pop().unwrap();
    assert_eq!(popped.raw_contents(), "c");
    assert_eq!(path.to_string(), "a/b");
    let appended = path.append_str("d");
    assert_eq!(appended.to_string(), "a/b/d");
}

#[test]
fn error_messages() {
    assert_eq!(Fragment::parse("").unwrap_err().message(), "Fragment cannot be empty");
    assert_eq!(
        Fragment::parse("..").unwrap_err().message(),
        "Fragment cannot reference parent directory",
    );
    assert_eq!(
        Id::parse("1a").unwrap_err().message(),
        "Id must start with an ASCII letter, found 1",
    );
    assert_eq!(
        External::parse("abcd").unwrap_err().message(),
        "missing external location scheme",
    );
    assert_eq!(
        Location::parse("a/..").unwrap_err().message(),
        "Fragment cannot reference parent directory",
    );
}
