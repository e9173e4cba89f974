use rustman_lib::procfile::{Entry, Procfile, ProcfileError};

const PROCFILE: &str = "alpha: ./alpha\nbravo: ./bravo -p $PORT\ncharlie: bundle exec charlie\ndelta: ./delta\nweb: rails server\n";

const WRITTEN: &str =
    "alpha: ./alpha\nbravo:\t./bravo\nfoo_bar:\t./foo_bar\nfoo-bar:\t./foo-bar\n# baz:\t./baz\n";

#[test]
fn test_entry_constructor() {
    let entry = Entry::new(String::from("hello"), String::from("world"), String::from("rust"));
    assert_eq!(entry.line(), String::from("hello"));
    assert_eq!(entry.name(), String::from("world"));
    assert_eq!(entry.command(), String::from("rust"));
}

#[test]
fn test_parse() {
    let procfile = Procfile::new(Some(PROCFILE));
    assert_eq!(procfile.to_text(), PROCFILE.trim().to_string());
}

#[test]
fn test_procfile_save() {
    let procfile = Procfile::new(Some(PROCFILE));
    assert_eq!(procfile.to_text(), PROCFILE.trim().to_string());

    let image = procfile.save(Some("tests/Procfile.out")).expect("Save failed");
    assert_eq!(image.path, "tests/Procfile.out");

    let procfile = Procfile::new(Some(&image.contents));
    assert_eq!(procfile.to_text(), image.contents.trim().to_string());
    assert_eq!(procfile.to_text(), PROCFILE.trim().to_string());
}

#[test]
fn test_delete() {
    let mut procfile = Procfile::new(Some(PROCFILE));
    assert_eq!(5, procfile.len());
    let first = procfile.names()[0].clone();
    assert!(procfile.delete(&first));
    assert_eq!(4, procfile.len());
}

#[test]
fn test_can_load_from_a_file() {
    let mut procfile = Procfile::new(None);
    procfile.load(WRITTEN);
    assert_eq!("./alpha", procfile.lookup("alpha").unwrap().command());
    assert_eq!("./bravo", procfile.lookup("bravo").unwrap().command());
}

#[test]
fn test_loads_a_passed_in_procfile() {
    let procfile = Procfile::new(Some(WRITTEN));
    assert_eq!("./alpha", procfile.lookup("alpha").unwrap().command());
    assert_eq!("./bravo", procfile.lookup("bravo").unwrap().command());
    assert_eq!("./foo-bar", procfile.lookup("foo-bar").unwrap().command());
    assert_eq!("./foo_bar", procfile.lookup("foo_bar").unwrap().command());
}

#[test]
fn test_it_only_creates_procfile_entries_for_lines_matching_regex() {
    let procfile = Procfile::new(Some(WRITTEN));
    let ref_keys = vec!["alpha", "bravo", "foo-bar", "foo_bar"];
    assert_eq!(ref_keys, procfile.names());
}

#[test]
fn test_returns_nil_when_attempting_to_retrieve_an_non_existing_entry() {
    let procfile = Procfile::new(Some(WRITTEN));
    assert!(procfile.lookup("unicorn").is_none());
    assert!(procfile.lookup("baz").is_none());
    assert!(procfile.lookup("").is_none());
    assert!(Procfile::new(None).lookup("alpha").is_none());
}

#[test]
fn test_can_have_a_process_appended_to_it() {
    let mut procfile = Procfile::new(Some(WRITTEN));
    procfile.parse("charlie: ./charlie");
    assert_eq!("./charlie", procfile.lookup("charlie").unwrap().command());
    assert_eq!(5, procfile.len());
    assert_eq!("./alpha", procfile.lookup("alpha").unwrap().command());
}

#[test]
fn test_can_write_to_a_string() {
    let mut procfile = Procfile::new(None);
    procfile.parse("foo: ./foo");
    procfile.parse("bar: ./bar");
    assert_eq!(procfile.to_text(), "bar: ./bar\nfoo: ./foo");
}

#[test]
fn test_can_write_to_a_file() {
    let mut procfile = Procfile::new(None);
    procfile.parse("foo: ./foo");
    procfile.parse("bar: ./bar");
    let image = procfile.save(Some("/tmp/proc")).unwrap();
    assert_eq!(image.path, "/tmp/proc");
    assert_eq!(image.contents, "bar: ./bar\nfoo: ./foo");
}

#[test]
fn parse_passes_over_lines_that_declare_nothing() {
    let procfile = Procfile::new(Some("web: rails server\n# baz: ignored\n\n"));
    assert_eq!(procfile.len(), 1);
    assert_eq!(procfile.names(), vec!["web"]);
    let entry = procfile.lookup("web").unwrap();
    assert_eq!(entry.command(), "rails server");
    assert_eq!(entry.line(), "web: rails server");
}

#[test]
fn parse_lets_the_later_line_win() {
    let procfile = Procfile::new(Some("a: one\na: two"));
    assert_eq!(procfile.len(), 1);
    assert_eq!(procfile.lookup("a").unwrap().command(), "two");
    assert_eq!(procfile.lookup("a").unwrap().line(), "a: two");
    let procfile = Procfile::new(Some("a: one\nb: mid\na: two\n"));
    assert_eq!(procfile.to_text(), "a: two\nb: mid");
}

#[test]
fn parse_takes_crlf_as_a_line_ending() {
    let procfile = Procfile::new(Some("web: rails server\r\nworker: rake jobs\r\n"));
    assert_eq!(procfile.lookup("web").unwrap().command(), "rails server");
    assert_eq!(procfile.lookup("web").unwrap().line(), "web: rails server");
    assert_eq!(procfile.lookup("worker").unwrap().command(), "rake jobs");
    // A carriage return that no line feed follows stays in the command.
    let procfile = Procfile::new(Some("web: rails\rserver\nlast: x\r"));
    assert_eq!(procfile.lookup("web").unwrap().command(), "rails\rserver");
    assert_eq!(procfile.lookup("last").unwrap().command(), "x\r");
}

#[test]
fn parse_of_nothing_is_empty() {
    assert_eq!(Procfile::new(None).len(), 0);
    assert!(Procfile::new(None).is_empty());
    assert_eq!(Procfile::new(Some("")).len(), 0);
    assert_eq!(Procfile::new(Some("\n\n")).len(), 0);
    assert_eq!(Procfile::new(Some("no entry here")).len(), 0);
    assert_eq!(Procfile::new(None).to_text(), "");
}

#[test]
fn parse_adds_and_load_replaces() {
    let mut procfile = Procfile::new(Some("a: 1\nb: 2"));
    procfile.parse("c: 3\na: 4");
    assert_eq!(procfile.to_text(), "a: 4\nb: 2\nc: 3");
    procfile.load("z: 26");
    assert_eq!(procfile.to_text(), "z: 26");
    procfile.load("");
    assert!(procfile.is_empty());
}

#[test]
fn entries_come_in_the_order_of_their_names() {
    let procfile = Procfile::new(Some("b: 1\nB: 2\na_b: 3\na-b: 4\nab: 5\na: 6\n0: 7\n_: 8\n-: 9"));
    assert_eq!(procfile.names(), vec!["-", "0", "B", "_", "a", "a-b", "a_b", "ab", "b"]);
    let mut sorted: Vec<String> = procfile.names();
    sorted.sort();
    assert_eq!(sorted, procfile.names());
}

#[test]
fn entry_lines_follow_the_grammar() {
    let entry = Entry::parse("web:rails").unwrap();
    assert_eq!((entry.name(), entry.command()), ("web", "rails"));
    let entry = Entry::parse("web:\t \trails  server \t").unwrap();
    assert_eq!((entry.name(), entry.command()), ("web", "rails  server \t"));
    let entry = Entry::parse("a-b_C9: x: y").unwrap();
    assert_eq!((entry.name(), entry.command()), ("a-b_C9", "x: y"));
    let entry = Entry::parse("web:\u{a0}\u{2003}\u{3000}go").unwrap();
    assert_eq!(entry.command(), "go");
    let entry = Entry::parse("web: \u{200b}go").unwrap();
    assert_eq!(entry.command(), "\u{200b}go");
    let entry = Entry::parse("web:  \t").unwrap();
    assert_eq!(entry.command(), "\t");
    let entry = Entry::parse("web:\n\n x").unwrap();
    assert_eq!(entry.command(), "x");
    assert_eq!(entry.line(), "web:\n\n x");
    assert_eq!(entry.to_text(), "web: x");
}

#[test]
fn entry_lines_that_declare_nothing() {
    for line in [
        "",
        "web",
        "web:",
        ":",
        ": x",
        " web: x",
        "we b: x",
        "web : x",
        "w\u{e9}b: x",
        "# baz: ./baz",
        "web: x\n",
        "web: x\ny",
        "web:\n",
        "web: \n",
        "\nweb: x",
    ] {
        assert!(Entry::parse(line).is_none(), "{:?}", line);
    }
}

#[test]
fn delete_takes_one_entry_out() {
    let mut procfile = Procfile::new(Some("web: rails server\nworker: rake jobs"));
    assert_eq!(procfile.len(), 2);
    assert!(procfile.delete("web"));
    assert_eq!(procfile.len(), 1);
    assert!(procfile.lookup("web").is_none());
    assert_eq!(procfile.lookup("worker").unwrap().command(), "rake jobs");
    assert!(!procfile.delete("web"));
    assert!(!procfile.delete("unicorn"));
    assert_eq!(procfile.len(), 1);
    assert!(procfile.delete("worker"));
    assert!(procfile.is_empty());
    assert!(!procfile.delete("worker"));
}

#[test]
fn text_round_trip() {
    for text in [
        PROCFILE,
        WRITTEN,
        "",
        "web: rails server",
        "b: 2\r\na: 1\r\n\r\n# note\r\nc:3",
        "web: ",
        "a: x\r",
        "a: one\na: two",
    ] {
        let first = Procfile::new(Some(text));
        let written = first.to_text();
        let second = Procfile::new(Some(&written));
        assert_eq!(first.names(), second.names(), "{:?}", text);
        for name in first.names() {
            assert_eq!(
                first.lookup(&name).unwrap().command(),
                second.lookup(&name).unwrap().command()
            );
            assert_eq!(second.lookup(&name).unwrap().line(), second.lookup(&name).unwrap().to_text());
        }
        assert_eq!(second.to_text(), written);
    }
}

#[test]
fn text_round_trip_loses_a_carriage_return_before_a_line_feed() {
    let first = Procfile::new(Some("a: x\r\r\nb: y"));
    assert_eq!(first.lookup("a").unwrap().command(), "x\r");
    assert_eq!(first.to_text(), "a: x\r\nb: y");
    let second = Procfile::new(Some(&first.to_text()));
    assert_eq!(second.lookup("a").unwrap().command(), "x");
}

#[test]
fn guard_filename_falls_back_on_the_source_path() {
    let mut procfile = Procfile::new(Some(PROCFILE));
    assert_eq!(procfile.source_path(), None);
    assert_eq!(procfile.guard_filename(Some("Procfile")), Ok("Procfile".to_string()));
    assert_eq!(procfile.guard_filename(None), Err(ProcfileError::NoPath));
    assert_eq!(procfile.save(None).err(), Some(ProcfileError::NoPath));
    procfile.set_source_path(Some("etc/Procfile".to_string()));
    assert_eq!(procfile.source_path(), Some(&"etc/Procfile".to_string()));
    assert_eq!(procfile.guard_filename(None), Ok("etc/Procfile".to_string()));
    assert_eq!(procfile.guard_filename(Some("Procfile")), Ok("Procfile".to_string()));
    let image = procfile.save(None).unwrap();
    assert_eq!(image.path, "etc/Procfile");
    assert_eq!(image.contents, PROCFILE.trim());
    assert_eq!(procfile.len(), 5);
    procfile.load("a: b");
    assert_eq!(procfile.source_path(), Some(&"etc/Procfile".to_string()));
    procfile.set_source_path(None);
    assert_eq!(procfile.guard_filename(None), Err(ProcfileError::NoPath));
}
