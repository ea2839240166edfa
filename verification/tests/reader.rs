use rson::io::reader::RsonReader;
use rson::rnodes::rnode::EnumNodeType;

#[test]
fn reader_parses_a_literal()
{
    let mut reader = RsonReader::from_literal(&String::from(" { \"a\": [] } "), false);
    assert!(reader.file_path.is_none());
    let node = reader.parse().unwrap();
    assert_eq!(node.get_node_type(), EnumNodeType::OBJECT);
    assert_eq!(node.get_node_type().to_string(), "OBJECT");
    assert_eq!(reader.parse().err(), Some(String::from("End of input (EOF)")));
}

#[test]
fn reader_reports_what_failed()
{
    let mut reader = RsonReader::from_text(String::from("{ +123.45 }"), Some(String::from("in.rson")), false);
    assert_eq!(reader.file_path, Some(String::from("in.rson")));
    assert_eq!(reader.parse().err(), Some(String::from("Failed to parse token into an AST RNode")));
    let mut bare = RsonReader::from_literal(&String::from("}"), false);
    assert_eq!(bare.parse().err(), Some(String::from("Failed to parse token into an AST RNode")));
    let mut bad = RsonReader::from_literal(&String::from("+"), false);
    assert_eq!(bad.parse().err(), Some(String::from("Error")));
}
