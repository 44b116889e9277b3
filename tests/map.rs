use rrmap::format::udmf::de::ErrorKind;
use rrmap::format::udmf::{Decimal, Shape, Value};
use rrmap::editor::Editor;
use rrmap::map::{preprocess, LevelMap};

fn dec(whole: &str, fraction: &str) -> Decimal {
    Decimal {
        negative: false,
        whole: whole.to_string(),
        fraction: fraction.to_string(),
        exponent: 0,
    }
}

fn string(s: &str) -> Value {
    Value::String(s.to_string())
}

fn error_of(text: &str) -> ErrorKind {
    LevelMap::from_str(text).unwrap_err().kind().clone()
}

const HEADER: &str = "namespace = \"ringracers\";\nversion = 1;\n";

#[test]
fn thing_with_extras_and_absent_height() {
    let text = format!(
        "{}thing {{ x = 43.0; y = 459.0; angle = 30; type = 1; arg0 = \"WADSUP\"; }}",
        HEADER
    );
    let map = LevelMap::from_str(&text).unwrap();
    assert_eq!(map.namespace(), "ringracers");
    assert_eq!(map.version(), 1);
    assert_eq!(map.things().len(), 1);
    let thing = &map.things()[0];
    assert_eq!(thing.x, dec("43", "0"));
    assert_eq!(thing.y, dec("459", "0"));
    assert_eq!(thing.angle, 30);
    assert_eq!(thing.kind, 1);
    assert_eq!(thing.height, None);
    assert_eq!(thing.extras.len(), 1);
    assert_eq!(thing.extras.get("arg0"), Some(&string("WADSUP")));
    assert_eq!(thing.extras.get("type"), None);
}

#[test]
fn unknown_top_level_key_goes_to_extras() {
    let text = format!("{}sillykey = 7;", HEADER);
    let map = LevelMap::from_str(&text).unwrap();
    assert_eq!(map.extras().get("sillykey"), Some(&Value::Integer(7)));
    assert_eq!(map.extras().len(), 1);
    assert!(map.things().is_empty());
    assert!(map.vertices().is_empty());
    assert!(map.linedefs().is_empty());
    assert!(map.sidedefs().is_empty());
    assert!(map.sectors().is_empty());
}

#[test]
fn later_top_level_extra_replaces_earlier() {
    let text = format!("{}k = 1; k = \"two\";", HEADER);
    let map = LevelMap::from_str(&text).unwrap();
    assert_eq!(map.extras().get("k"), Some(&string("two")));
    assert_eq!(map.extras().len(), 1);
}

#[test]
fn missing_namespace() {
    assert_eq!(
        error_of("version = 1;"),
        ErrorKind::MissingField("namespace")
    );
}

#[test]
fn missing_version() {
    assert_eq!(
        error_of("namespace = \"a\";"),
        ErrorKind::MissingField("version")
    );
}

#[test]
fn records_in_order_with_defaults() {
    let text = format!(
        "{}\
        vertex {{ x = 1.0; y = 2.0; }}\n\
        vertex {{ x = 3.5; y = -4.0; }}\n\
        linedef {{ v1 = 0; v2 = 1; sidefront = 0; }}\n\
        linedef {{ v1 = 1; v2 = 0; sidefront = 1; sideback = 0; twosided = true; special = 5; }}\n\
        sidedef {{ sector = 0; }}\n\
        sidedef {{ offsetx = 3; offsety = -2; sector = 1; }}\n\
        sector {{ texturefloor = \"FLOOR\"; textureceiling = \"CEIL\"; heightceiling = 128; }}\n",
        HEADER
    );
    let map = LevelMap::from_str(&text).unwrap();
    let v = map.vertices();
    assert_eq!(v.len(), 2);
    assert_eq!(v[0].x, dec("1", "0"));
    assert_eq!(v[1].x, dec("3", "5"));
    assert!(v[1].y.negative);
    let l = map.linedefs();
    assert_eq!((l[0].v1, l[0].v2, l[0].side_front), (0, 1, 0));
    assert_eq!(l[0].side_back, None);
    assert!(!l[0].two_sided);
    assert_eq!(l[1].side_back, Some(0));
    assert!(l[1].two_sided);
    assert_eq!(l[1].extras.get("special"), Some(&Value::Integer(5)));
    let s = map.sidedefs();
    assert_eq!((s[0].offset_x, s[0].offset_y, s[0].sector), (0, 0, 0));
    assert_eq!((s[1].offset_x, s[1].offset_y, s[1].sector), (3, -2, 1));
    let sc = &map.sectors()[0];
    assert_eq!(sc.height_floor, 0);
    assert_eq!(sc.height_ceiling, 128);
    assert_eq!(sc.texture_floor, "FLOOR");
    assert_eq!(sc.texture_ceiling, "CEIL");
}

#[test]
fn comments_are_ignored() {
    let text = "// a map\nnamespace = \"a\"; // the game\nversion = 2;// v\n";
    let map = LevelMap::from_str(text).unwrap();
    assert_eq!(map.namespace(), "a");
    assert_eq!(map.version(), 2);
    assert_eq!(preprocess("a//b\nc"), "a\nc\n");
    assert_eq!(preprocess(""), "\n");
    assert_eq!(preprocess("a/b"), "a/b\n");
}

#[test]
fn no_coercion_between_integer_and_float() {
    let text = format!("{}vertex {{ x = 1; y = 2.0; }}", HEADER);
    assert_eq!(
        error_of(&text),
        ErrorKind::InvalidType {
            expected: Shape::Float,
            found: Shape::Integer
        }
    );
    let text = format!("{}thing {{ x = 1.0; y = 2.0; angle = 3.0; type = 1; }}", HEADER);
    assert_eq!(
        error_of(&text),
        ErrorKind::InvalidType {
            expected: Shape::Integer,
            found: Shape::Float
        }
    );
}

#[test]
fn record_field_errors() {
    let text = format!("{}vertex {{ x = 1.0; }}", HEADER);
    assert_eq!(error_of(&text), ErrorKind::MissingField("y"));
    let text = format!("{}vertex {{ x = 1.0; x = 2.0; y = 0.0; }}", HEADER);
    assert_eq!(error_of(&text), ErrorKind::DuplicateField("x"));
    let text = format!("{}vertex = 1;", HEADER);
    assert_eq!(
        error_of(&text),
        ErrorKind::InvalidType {
            expected: Shape::Block,
            found: Shape::Integer
        }
    );
}

#[test]
fn header_shape_errors() {
    assert_eq!(
        error_of("namespace = 1;"),
        ErrorKind::InvalidType {
            expected: Shape::String,
            found: Shape::Integer
        }
    );
    assert_eq!(
        error_of("version { }"),
        ErrorKind::InvalidType {
            expected: Shape::Integer,
            found: Shape::Block
        }
    );
    assert_eq!(
        error_of("mystery { a = 1; }"),
        ErrorKind::InvalidType {
            expected: Shape::Scalar,
            found: Shape::Block
        }
    );
}

#[test]
fn syntax_error_ends_decoding() {
    assert_eq!(error_of("namespace = \"a\"; version"), ErrorKind::Eof);
    assert_eq!(error_of("namespace = \"a\" version = 1;"), ErrorKind::ExpectedSeperator);
}

#[test]
fn empty_text_misses_namespace() {
    assert_eq!(error_of(""), ErrorKind::MissingField("namespace"));
}

#[test]
fn field_error_messages() {
    let text = format!("{}vertex {{ x = 1.0; }}", HEADER);
    assert_eq!(
        LevelMap::from_str(&text).unwrap_err().message(),
        "missing field `y`"
    );
    let text = format!("{}vertex {{ x = 1; y = 2.0; }}", HEADER);
    assert_eq!(
        LevelMap::from_str(&text).unwrap_err().message(),
        "invalid type integer, expected float"
    );
}

#[test]
fn editor_vertex_by_index() {
    let text = format!("{}vertex {{ x = 1.0; y = 2.0; }}", HEADER);
    let editor = Editor::new(LevelMap::from_str(&text).unwrap());
    assert_eq!(editor.vertex(0).unwrap().y, dec("2", "0"));
    assert!(editor.vertex(1).is_none());
    assert_eq!(editor.map().vertices().len(), 1);
}
