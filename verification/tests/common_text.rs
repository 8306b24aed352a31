use lib::com_parse::{com_parse, com_tokenize};
use lib::com_path::{default_extension, file_base, file_extension, skip_path, strip_extension};
use lib::data_paths::parse_quake_dir;
use lib::entities::{parse_entities, EntityError};
use lib::netaddr::{NetAddr, NetAddrError};

#[test]
fn parses_words_and_quotes() {
    let input = "  foo \"bar baz\" qux";
    let tokens = com_tokenize(input);
    assert_eq!(tokens, vec!["foo", "bar baz", "qux"]);
}

#[test]
fn skips_comments() {
    let input = "foo // comment\nbar";
    let tokens = com_tokenize(input);
    assert_eq!(tokens, vec!["foo", "bar"]);
}

#[test]
fn com_parse_gives_rest() {
    let (token, rest) = com_parse("  first second").unwrap();
    assert_eq!(token, "first");
    assert_eq!(rest, " second");
    assert!(com_parse("   // only a comment").is_none());
    assert!(com_parse("").is_none());
    let (token, rest) = com_parse("\"open quote").unwrap();
    assert_eq!(token, "open quote");
    assert_eq!(rest, "");
}

#[test]
fn skips_path() {
    assert_eq!(skip_path("gfx/char.lmp"), "char.lmp");
    assert_eq!(skip_path("maps\\e1m1.bsp"), "e1m1.bsp");
}

#[test]
fn strips_extension() {
    assert_eq!(strip_extension("maps/e1m1.bsp"), "maps/e1m1");
}

#[test]
fn file_base_extracts() {
    assert_eq!(file_base("models/player.mdl"), "player");
}

#[test]
fn file_base_edge_cases() {
    assert_eq!(file_base(""), "?model?");
    assert_eq!(file_base("a/b.mdl"), "?model?");
    assert_eq!(file_base("dir\\name"), "name");
}

#[test]
fn file_extension_limits() {
    assert_eq!(file_extension("maps/e1m1.bsp"), "bsp");
    assert_eq!(file_extension("noext"), "");
    assert_eq!(file_extension("a.abcdefghij"), "abcdefg");
}

#[test]
fn default_extension_adds() {
    assert_eq!(default_extension("config", ".cfg"), "config.cfg");
    assert_eq!(default_extension("config.cfg", ".cfg"), "config.cfg");
}

#[test]
fn default_extension_ignores_dots_in_directories() {
    assert_eq!(default_extension("dir.d/config", ".cfg"), "dir.d/config.cfg");
}

#[test]
fn parses_quake_dir_value() {
    let input = r#"
            # comment
            quake_dir = "C:/Games/Quake"
        "#;
    assert_eq!(parse_quake_dir(input).as_deref(), Some("C:/Games/Quake"));
}

#[test]
fn ignores_missing_quake_dir() {
    let input = "other = \"value\"";
    assert!(parse_quake_dir(input).is_none());
}

#[test]
fn quake_dir_without_equals_stops() {
    assert!(parse_quake_dir("quake_dir\nquake_dir = '/q'").is_none());
    assert_eq!(parse_quake_dir("quake_dir = ''\r\nquake_dir = '/q' # x").as_deref(), Some("/q"));
}

#[test]
fn parses_entities_and_values() {
    let text = "{\n\"classname\" \"worldspawn\"\n\"wad\" \"foo.wad\"\n}\n{\n\"classname\" \"info\"\n\"angle\" \"90\"\n}\n";
    let entities = parse_entities(text).unwrap();
    assert_eq!(entities.len(), 2);
    assert_eq!(entities[0].get("classname"), Some("worldspawn"));
    assert_eq!(entities[0].get("wad"), Some("foo.wad"));
    assert_eq!(entities[1].get("angle"), Some("90"));
}

#[test]
fn errors_on_missing_closing_brace() {
    let text = "{\n\"classname\" \"worldspawn\"\n";
    let err = parse_entities(text).unwrap_err();
    assert!(matches!(err, EntityError::UnexpectedEof));
}

#[test]
fn entity_errors_and_case() {
    assert_eq!(
        parse_entities("x").unwrap_err(),
        EntityError::UnexpectedToken("x".to_string())
    );
    assert_eq!(
        parse_entities("{ \"a\" }").unwrap_err(),
        EntityError::UnexpectedToken("}".to_string())
    );
    let e = parse_entities("{ \"ClassName\" \"light\" }").unwrap();
    assert_eq!(e[0].get("CLASSNAME"), Some("light"));
    assert_eq!(e[0].get("origin"), None);
    assert_eq!(e[0].pairs().len(), 1);
}

#[test]
fn parses_ipv4_with_port() {
    let addr = NetAddr::parse("127.0.0.1:27500", 27001).unwrap();
    assert_eq!(addr.ip, [127, 0, 0, 1]);
    assert_eq!(addr.port, 27500);
}

#[test]
fn parses_ipv4_without_port() {
    let addr = NetAddr::parse("10.0.0.5", 27001).unwrap();
    assert_eq!(addr.ip, [10, 0, 0, 5]);
    assert_eq!(addr.port, 27001);
}

#[test]
fn netaddr_rejects_and_renders() {
    assert_eq!(NetAddr::parse("1.2.3.4:5:6", 1), Err(NetAddrError::InvalidFormat));
    assert_eq!(NetAddr::parse("1.2.3.256", 1), Err(NetAddrError::InvalidFormat));
    assert_eq!(NetAddr::parse("1.2.3.4:", 7).unwrap().port, 7);
    let addr = NetAddr::new([192, 168, 0, 10], 27500);
    assert_eq!(addr.to_string(), "192.168.0.10:27500");
    assert_eq!(NetAddr::parse(&addr.to_string(), 1).unwrap(), addr);
}
