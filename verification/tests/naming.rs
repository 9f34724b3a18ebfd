use ros_action::naming::error::Error;
use ros_action::naming::path::Buffer;
use ros_action::naming::Resolver;

#[test]
fn constructs_from_legal_path() {
    assert!(Resolver::new("/foo").is_ok());
    assert!(Resolver::new("/foo/bar").is_ok());
    assert!(Resolver::new("/f1_aA/Ba02/Xx").is_ok());
    assert!(Resolver::new("").is_err());
    assert!(Resolver::new("a").is_err());
    assert!(Resolver::new("/123/").is_err());
    assert!(Resolver::new("/foo$").is_err());
    assert!(Resolver::new("/_e").is_err());
    assert!(Resolver::new("/a//b").is_err());
}

#[test]
fn rejects_illegal_names() {
    let r = Resolver::new("/some/long/path").unwrap();
    assert!(r.resolve("/fo$o").is_err());
    assert!(r.resolve("1foo/bar").is_err());
    assert!(r.resolve("#f1_aA/Ba02/Xx").is_err());
}

#[test]
fn resolves_absolute_names() {
    let r = Resolver::new("/some/long/path").unwrap();
    assert_eq!(vec![String::from("foo")], r.resolve("/foo").unwrap().get());
    assert_eq!(
        vec![String::from("foo"), String::from("bar")],
        r.resolve("/foo/bar").unwrap().get()
    );
    assert_eq!(
        vec![String::from("f1_aA"), String::from("Ba02"), String::from("Xx")],
        r.resolve("/f1_aA/Ba02/Xx").unwrap().get()
    );
}

#[test]
fn resolves_relative_names() {
    let r = Resolver::new("/some/long/path").unwrap();
    assert_eq!(
        vec![String::from("some"), String::from("long"), String::from("foo")],
        r.resolve("foo").unwrap().get()
    );
    assert_eq!(
        vec![
            String::from("some"),
            String::from("long"),
            String::from("foo"),
            String::from("bar")
        ],
        r.resolve("foo/bar").unwrap().get()
    );
    assert_eq!(
        vec![
            String::from("some"),
            String::from("long"),
            String::from("f1_aA"),
            String::from("Ba02"),
            String::from("Xx")
        ],
        r.resolve("f1_aA/Ba02/Xx").unwrap().get()
    );
}

#[test]
fn resolves_private_names() {
    let r = Resolver::new("/some/long/path").unwrap();
    assert_eq!(
        vec![
            String::from("some"),
            String::from("long"),
            String::from("path"),
            String::from("foo")
        ],
        r.resolve("~foo").unwrap().get()
    );
    assert_eq!(
        vec![
            String::from("some"),
            String::from("long"),
            String::from("path"),
            String::from("foo"),
            String::from("bar")
        ],
        r.resolve("~foo/bar").unwrap().get()
    );
    assert_eq!(
        vec![
            String::from("some"),
            String::from("long"),
            String::from("path"),
            String::from("f1_aA"),
            String::from("Ba02"),
            String::from("Xx")
        ],
        r.resolve("~f1_aA/Ba02/Xx").unwrap().get()
    );
}

#[test]
fn translates_strings() {
    let r = Resolver::new("/some/long/path").unwrap();
    assert_eq!(
        String::from("/f1_aA/Ba02/Xx"),
        r.translate("/f1_aA/Ba02/Xx").unwrap()
    );
    assert_eq!(
        String::from("/some/long/f1_aA/Ba02/Xx"),
        r.translate("f1_aA/Ba02/Xx").unwrap()
    );
    assert_eq!(
        String::from("/some/long/path/f1_aA/Ba02/Xx"),
        r.translate("~f1_aA/Ba02/Xx").unwrap()
    );
}

#[test]
fn supports_remapping() {
    let mut r = Resolver::new("/some/long/path").unwrap();
    r.map("a", "/d").unwrap();
    r.map("~x", "/e").unwrap();
    r.map("/z", "/f").unwrap();
    r.map("/a1", "g").unwrap();
    r.map("a2", "~g").unwrap();
    assert_eq!(String::from("/d"), r.translate("/some/long/a").unwrap());
    assert_eq!(String::from("/e"), r.translate("path/x").unwrap());
    assert_eq!(String::from("/f"), r.translate("/z").unwrap());
    assert_eq!(String::from("/some/long/g"), r.translate("/a1").unwrap());
    assert_eq!(
        String::from("/some/long/path/g"),
        r.translate("/some/long/a2").unwrap()
    );
    assert_eq!(
        String::from("/some/long/other"),
        r.translate("other").unwrap()
    );
}

#[test]
fn remap_scenario() {
    let mut r = Resolver::new("/some/long/path").unwrap();
    r.map("a", "/d").unwrap();
    r.map("~x", "/e").unwrap();
    r.map("/z", "/f").unwrap();
    assert_eq!(r.translate("/some/long/a").unwrap(), "/d");
    assert_eq!(r.translate("path/x").unwrap(), "/e");
    assert_eq!(r.translate("/z").unwrap(), "/f");
    assert_eq!(r.translate("other").unwrap(), "/some/long/other");
}

#[test]
fn parse_names_each_error() {
    assert_eq!(Buffer::parse("").unwrap_err(), Error::EmptyName);
    assert_eq!(Buffer::parse("a").unwrap_err(), Error::InvalidName);
    assert_eq!(Buffer::parse("a/b").unwrap_err(), Error::InvalidName);
    assert_eq!(Buffer::parse("/a/").unwrap_err(), Error::InvalidName);
    assert_eq!(Buffer::parse("//").unwrap_err(), Error::InvalidName);
    assert_eq!(Buffer::parse("//a").unwrap_err(), Error::InvalidName);
    assert_eq!(Buffer::parse("/a//b").unwrap_err(), Error::InvalidName);
    assert_eq!(Buffer::parse("/1a").unwrap_err(), Error::InvalidName);
    assert_eq!(Buffer::parse("/a/9").unwrap_err(), Error::InvalidName);
    assert_eq!(Buffer::parse("/_a").unwrap_err(), Error::InvalidName);
    assert_eq!(Buffer::parse("/a b").unwrap_err(), Error::InvalidName);
    assert_eq!(Buffer::parse("/a$").unwrap_err(), Error::InvalidName);
    assert_eq!(Buffer::parse("/a~").unwrap_err(), Error::InvalidName);
    assert_eq!(Buffer::parse("/\u{e9}").unwrap_err(), Error::InvalidName);
    assert_eq!(Buffer::parse("/a\u{e9}").unwrap_err(), Error::InvalidName);
    assert_eq!(Buffer::parse("\u{e9}").unwrap_err(), Error::InvalidName);
    assert_eq!(Buffer::parse("/a\u{1F600}b").unwrap_err(), Error::InvalidName);
    assert_eq!(Buffer::parse(" /a").unwrap_err(), Error::InvalidName);
    assert_eq!(Buffer::parse("/@").unwrap_err(), Error::InvalidName);
    assert_eq!(Buffer::parse("/[").unwrap_err(), Error::InvalidName);
    assert_eq!(Buffer::parse("/`").unwrap_err(), Error::InvalidName);
    assert_eq!(Buffer::parse("/{").unwrap_err(), Error::InvalidName);
    assert_eq!(Buffer::parse("/a:").unwrap_err(), Error::InvalidName);
    assert_eq!(Buffer::parse("/a/").unwrap_err(), Error::InvalidName);
}

#[test]
fn parse_accepts_the_edges_of_the_alphabet() {
    assert_eq!(Buffer::parse("/A").unwrap().get(), vec![String::from("A")]);
    assert_eq!(Buffer::parse("/Z").unwrap().get(), vec![String::from("Z")]);
    assert_eq!(Buffer::parse("/a").unwrap().get(), vec![String::from("a")]);
    assert_eq!(Buffer::parse("/z").unwrap().get(), vec![String::from("z")]);
    assert_eq!(
        Buffer::parse("/a0_9/Zz_").unwrap().get(),
        vec![String::from("a0_9"), String::from("Zz_")]
    );
}

#[test]
fn parse_reads_the_root() {
    let root = Buffer::parse("/").unwrap();
    assert!(root.is_root());
    assert!(root.get().is_empty());
    assert_eq!(root.to_string(), "");
    assert!(root.parent().is_none());
    assert!(!Buffer::parse("/a").unwrap().is_root());
}

#[test]
fn parsing_the_text_of_a_path_gives_the_path_back() {
    for text in ["/a", "/foo/bar", "/f1_aA/Ba02/Xx", "/a/b/c/d/e/f/g/h"] {
        let path = Buffer::parse(text).unwrap();
        assert_eq!(path.to_string(), text);
        assert_eq!(Buffer::parse(&path.to_string()).unwrap(), path);
    }
    assert_eq!(Buffer::parse(&Buffer::parse("/").unwrap().to_string()).unwrap_err(), Error::EmptyName);
}

#[test]
fn from_str_is_parse() {
    assert_eq!("/a/b".parse::<Buffer>(), Buffer::parse("/a/b"));
    assert_eq!("a/b".parse::<Buffer>(), Err(Error::InvalidName));
    assert_eq!("".parse::<Buffer>(), Err(Error::EmptyName));
}

#[test]
fn parent_drops_the_last_name() {
    let path = Buffer::parse("/some/long/path").unwrap();
    let parent = path.parent().unwrap();
    assert_eq!(parent.to_string(), "/some/long");
    assert_eq!(parent.parent().unwrap().to_string(), "/some");
    assert!(parent.parent().unwrap().parent().unwrap().is_root());
}

#[test]
fn new_names_each_error() {
    assert_eq!(Resolver::new("").err(), Some(Error::EmptyName));
    assert_eq!(Resolver::new("/").err(), Some(Error::InvalidName));
    assert_eq!(Resolver::new("a").err(), Some(Error::InvalidName));
    assert_eq!(Resolver::new("/a/").err(), Some(Error::InvalidName));
}

#[test]
fn resolve_names_each_error() {
    let r = Resolver::new("/some/long/path").unwrap();
    assert_eq!(r.resolve("").unwrap_err(), Error::EmptyName);
    assert_eq!(r.translate("").unwrap_err(), Error::EmptyName);
    assert_eq!(r.resolve("/").unwrap().to_string(), "");
    assert_eq!(r.resolve("~").unwrap_err(), Error::InvalidName);
    assert_eq!(r.resolve("~/x").unwrap_err(), Error::InvalidName);
    assert_eq!(r.resolve("x/").unwrap_err(), Error::InvalidName);
    assert_eq!(r.resolve("x~y").unwrap_err(), Error::InvalidName);
    assert_eq!(r.resolve("~1").unwrap_err(), Error::InvalidName);
    assert_eq!(r.resolve("\u{e9}").unwrap_err(), Error::InvalidName);
    assert_eq!(r.resolve("~\u{e9}").unwrap_err(), Error::InvalidName);
    assert_eq!(r.resolve("~x\u{1F600}").unwrap_err(), Error::InvalidName);
}

#[test]
fn a_node_below_the_root_has_the_root_as_namespace() {
    let r = Resolver::new("/node").unwrap();
    assert_eq!(r.translate("x").unwrap(), "/x");
    assert_eq!(r.translate("~x").unwrap(), "/node/x");
    assert_eq!(r.translate("x/y").unwrap(), "/x/y");
}

#[test]
fn map_fails_without_change_where_a_name_does_not_resolve() {
    let mut r = Resolver::new("/some/long/path").unwrap();
    r.map("a", "/d").unwrap();
    assert_eq!(r.map("a", "").unwrap_err(), Error::EmptyName);
    assert_eq!(r.map("", "/x").unwrap_err(), Error::EmptyName);
    assert_eq!(r.map("a", "/1").unwrap_err(), Error::InvalidName);
    assert_eq!(r.map("1", "").unwrap_err(), Error::InvalidName);
    assert_eq!(r.translate("a").unwrap(), "/d");
}

#[test]
fn the_last_remapping_of_a_name_wins() {
    let mut r = Resolver::new("/some/long/path").unwrap();
    r.map("a", "/d1").unwrap();
    r.map("b", "/e").unwrap();
    r.map("/some/long/a", "d2").unwrap();
    r.map("~q", "/f").unwrap();
    assert_eq!(r.translate("a").unwrap(), "/some/long/d2");
    assert_eq!(r.translate("/some/long/a").unwrap(), "/some/long/d2");
    assert_eq!(r.translate("b").unwrap(), "/e");
    assert_eq!(r.translate("path/q").unwrap(), "/f");
}

#[test]
fn a_remapped_name_is_not_remapped_again() {
    let mut r = Resolver::new("/n/x").unwrap();
    r.map("/a", "/b").unwrap();
    r.map("/b", "/c").unwrap();
    assert_eq!(r.translate("/a").unwrap(), "/b");
    assert_eq!(r.translate("/b").unwrap(), "/c");
}

#[test]
fn a_name_can_be_remapped_to_the_root() {
    let mut r = Resolver::new("/n/x").unwrap();
    r.map("/a", "/").unwrap();
    assert_eq!(r.translate("/a").unwrap(), "");
    r.map("/", "/b").unwrap();
    assert_eq!(r.translate("/").unwrap(), "/b");
}
