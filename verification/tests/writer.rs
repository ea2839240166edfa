use rson::io::writer::RsonWriter;
use rson::parser::number::to_num;
use rson::parser::parser::Parser;
use rson::rnodes::rnode::RNode;
use rson::rnodes::rnode_array::RNodeArray;
use rson::rnodes::rnode_bool::RNodeBool;
use rson::rnodes::rnode_double::RNodeDouble;
use rson::rnodes::rnode_null::RNodeNull;
use rson::rnodes::rnode_object::RNodeObject;
use rson::rnodes::rnode_string::RNodeString;
use rson::visitor::visitor::Visitor;

const DEFAULT_INDENT: u32 = 4;

fn written_double(text: &str) -> RNode {
    RNode::Double(RNodeDouble::new(to_num(&String::from(text)).unwrap()))
}

#[test]
fn increment_decrement_indent()
{
    let mut writer = RsonWriter::new(DEFAULT_INDENT);
    assert_eq!(writer.indent, DEFAULT_INDENT);
    assert_eq!(writer.cur_indent, 0);

    writer.increment_indent();
    assert_eq!(writer.cur_indent, DEFAULT_INDENT);

    writer.decrement_indent();
    assert_eq!(writer.cur_indent, 0);
}

#[test]
fn write_array()
{
    let mut vec: Vec<RNode> = Vec::new();
    vec.push(written_double("1.0"));
    vec.push(RNode::String(RNodeString::new_move(String::from("Hello, world!"))));
    vec.push(RNode::Bool(RNodeBool::new(false)));

    let node_array = RNode::Array(RNodeArray::new(vec));
    let mut writer = RsonWriter::new(DEFAULT_INDENT);
    let result = writer.write(&node_array);
    assert!(result);

    let result = writer.flush();
    assert_eq!(result, Some(String::from("[1.0, \"Hello, world!\", false]\n\n")));
}

#[test]
fn write_bool()
{
    let node_bool = RNode::Bool(RNodeBool::new(true));
    let mut writer = RsonWriter::new(DEFAULT_INDENT);
    let result = writer.write(&node_bool);
    assert!(!result);

    let result = writer.flush();
    assert!(result.is_none());
}

#[test]
fn write_double()
{
    let node_double = written_double("123.45E10");
    let mut writer = RsonWriter::new(DEFAULT_INDENT);
    let result = writer.write(&node_double);
    assert!(result);

    let result = writer.flush();
    assert_eq!(result, Some(String::from("123.45e10\n\n")));
}

#[test]
fn write_object_indents_entries()
{
    let inner = RNodeObject::new(Vec::new()).add_move(String::from("n"), RNode::Null(RNodeNull::new()));
    let obj = RNodeObject::new(Vec::new())
        .add_move(String::from("b"), RNode::Object(inner))
        .add_move(String::from("a"), RNode::Bool(RNodeBool::new(true)));
    let mut writer = RsonWriter::new(2);
    assert!(writer.write(&RNode::Object(obj)));
    let expected = "{\n  \"a\": true,\n  \"b\": {\n    \"n\": null\n  }\n\n}\n";
    assert_eq!(writer.builder.to_string(), expected);
    assert_eq!(writer.cur_indent, 0);
    assert_eq!(writer.flush(), Some(format!("{}\n", expected)));
}

#[test]
fn flush_adds_what_the_final_blank_line_lacks()
{
    let mut writer = RsonWriter::new(DEFAULT_INDENT);
    assert_eq!(writer.flush(), None);
    writer.builder.append_str("a");
    assert_eq!(writer.flush(), Some(String::from("a\n\n")));
    assert_eq!(writer.flush(), Some(String::from("a\n\n")));
    let mut one = RsonWriter::new(DEFAULT_INDENT);
    one.builder.append_str("a\n");
    assert_eq!(one.flush(), Some(String::from("a\n\n")));
    let mut only = RsonWriter::new(DEFAULT_INDENT);
    only.builder.append_str("\n");
    assert_eq!(only.flush(), Some(String::from("\n\n")));
    let mut two = RsonWriter::new(DEFAULT_INDENT);
    two.builder.append_str("a\n\n\n");
    assert_eq!(two.flush(), Some(String::from("a\n\n\n")));
}

#[test]
fn accept_calls_the_method_of_the_kind()
{
    let mut writer = RsonWriter::new(DEFAULT_INDENT);
    RNode::String(RNodeString::new_move(String::from("x"))).accept(&mut writer);
    writer.visit_null(&RNodeNull::new());
    assert_eq!(writer.builder.to_string(), "\"x\"null");
}

#[test]
fn written_document_parses_to_the_same_text()
{
    let input = String::from("{ \"k\": [1, true, null, \"s\", [2.5e3]], \"a\": { \"z\": -0.5 } }");
    let mut parser = Parser::new_copy(&input, false);
    let node = parser.parse().unwrap();
    let mut writer = RsonWriter::new(DEFAULT_INDENT);
    assert!(writer.write(&node));
    let text = writer.builder.to_string();
    let mut again = Parser::new_move(text.clone(), false);
    let node2 = again.parse().unwrap();
    let mut writer2 = RsonWriter::new(DEFAULT_INDENT);
    assert!(writer2.write(&node2));
    assert_eq!(writer2.builder.to_string(), text);
}

#[test]
fn array_that_starts_with_an_object_is_written_but_not_read_back()
{
    let inner = RNode::Object(RNodeObject::new(Vec::new()));
    let node = RNode::Array(RNodeArray::new(vec![inner]));
    let mut writer = RsonWriter::new(DEFAULT_INDENT);
    assert!(writer.write(&node));
    let text = writer.builder.to_string();
    assert_eq!(text, "[{\n}\n]");
    assert!(Parser::new_move(text, false).parse().is_err());

    let second = RNode::Array(RNodeArray::new(vec![
        RNode::Null(RNodeNull::new()),
        RNode::Object(RNodeObject::new(Vec::new())),
    ]));
    let mut writer = RsonWriter::new(DEFAULT_INDENT);
    assert!(writer.write(&second));
    let text = writer.builder.to_string();
    assert_eq!(text, "[null, {\n}\n]");
    let back = Parser::new_move(text, false).parse().unwrap();
    let items = back.as_array().unwrap();
    assert_eq!(items.len(), 2);
    assert!(items.get(0).unwrap().as_null().is_some());
    assert!(items.get(1).unwrap().as_object().unwrap().is_empty());
    assert!(items.get(2).is_none());
}

#[test]
fn written_numbers_are_read_back_part_by_part()
{
    for text in ["0", "-12.5", ".5", "5e-3", "-e5", "1.25E10", "7e.5", ".e5", "1e.", "3."] {
        let mut writer = RsonWriter::new(DEFAULT_INDENT);
        assert!(writer.write(&written_double(text)));
        let written = writer.builder.to_string();
        let node = Parser::new_move(written.clone(), false).parse().unwrap();
        let number = &node.as_double().unwrap().value;
        let given = to_num(&String::from(text)).unwrap();
        assert_eq!(number.negative, given.negative);
        assert_eq!(number.int_part, given.int_part);
        assert_eq!(number.frac_part, given.frac_part);
        assert_eq!(number.exponent.is_some(), given.exponent.is_some());
        let mut again = RsonWriter::new(DEFAULT_INDENT);
        assert!(again.write(&node));
        assert_eq!(again.builder.to_string(), written);
    }
}
