use rson::parser::number::Number;
use rson::parser::parser::Parser;
use rson::rnodes::rnode::EnumNodeType;

/// The floating-point value of a number: its digits are added up one by
/// one, then the power of ten and the sign are applied.
fn node_number_value(n: &Number) -> f64 {
    let mut result = 0.0;
    for ch in n.int_part.chars() {
        result *= 10.0;
        result += ch.to_digit(10).unwrap() as f64;
    }
    let mut multicand = 0.1;
    for ch in n.frac_part.chars() {
        result += (ch.to_digit(10).unwrap() as f64) * multicand;
        multicand /= 10.0;
    }
    if let Some(e) = &n.exponent {
        const EXP: f64 = 10.0;
        result *= EXP.powf(node_number_value(e));
    }
    if n.negative {
        result = -result;
    }
    result
}

#[test]
fn parse_empty_array()
{
    let input = String::from("[]");
    let mut parser = Parser::new_copy(&input, false);
    let node_type_result = parser.parse();

    assert!(node_type_result.is_ok());

    let rnode = node_type_result.unwrap();
    assert_eq!(rnode.get_node_type(), EnumNodeType::ARRAY);

    let node_array = rnode.as_array().unwrap();
    assert!(node_array.is_empty());
}

#[test]
fn parse_empty_array_with_space()
{
    let input = String::from("[   ]");
    let mut parser = Parser::new_copy(&input, false);
    let node_type_result = parser.parse();

    assert!(node_type_result.is_ok());

    let rnode = node_type_result.unwrap();
    assert_eq!(rnode.get_node_type(), EnumNodeType::ARRAY);

    let node_array = rnode.as_array().unwrap();
    assert!(node_array.is_empty());
}

#[test]
fn parse_array_with_inner_array()
{
    let input = String::from("[ [] ]");
    let mut parser = Parser::new_copy(&input, false);
    let node_type_result = parser.parse();

    assert!(node_type_result.is_ok());

    let rnode = node_type_result.unwrap();
    assert_eq!(rnode.get_node_type(), EnumNodeType::ARRAY);

    let node_array = rnode.as_array().unwrap();
    assert!(!node_array.is_empty());
    assert_eq!(node_array.len(), 1);

    let opt_node_array = node_array.get(0);
    assert!(opt_node_array.is_some());

    let node_array2 = opt_node_array.unwrap().as_array().unwrap();
    assert!(node_array2.is_empty());
    assert_eq!(node_array2.len(), 0);
}

#[test]
fn parse_array_with_inner_bool()
{
    let input = String::from("[ true ]");
    let mut parser = Parser::new_copy(&input, false);
    let node_type_result = parser.parse();

    assert!(node_type_result.is_ok());

    let rnode = node_type_result.unwrap();
    assert_eq!(rnode.get_node_type(), EnumNodeType::ARRAY);

    let node_array = rnode.as_array().unwrap();
    assert!(!node_array.is_empty());
    assert_eq!(node_array.len(), 1);

    let opt_node_bool = node_array.get(0);
    assert!(opt_node_bool.is_some());

    let node_bool = opt_node_bool.unwrap().as_bool().unwrap();
    assert!(node_bool.value);
}

#[test]
fn parse_array_with_inner_double()
{
    let input = String::from("[ 123.456 ]");
    let mut parser = Parser::new_copy(&input, false);
    let node_type_result = parser.parse();

    assert!(node_type_result.is_ok());

    let rnode = node_type_result.unwrap();
    assert_eq!(rnode.get_node_type(), EnumNodeType::ARRAY);

    let node_array = rnode.as_array().unwrap();
    assert!(!node_array.is_empty());
    assert_eq!(node_array.len(), 1);

    let opt_node_double = node_array.get(0);
    assert!(opt_node_double.is_some());

    let node_double = opt_node_double.unwrap().as_double().unwrap();
    assert_eq!(node_number_value(&node_double.value), 123.456);
}

#[test]
fn parse_array_with_inner_null()
{
    let input = String::from("[ null ]");
    let mut parser = Parser::new_copy(&input, false);
    let node_type_result = parser.parse();

    assert!(node_type_result.is_ok());

    let rnode = node_type_result.unwrap();
    assert_eq!(rnode.get_node_type(), EnumNodeType::ARRAY);

    let node_array = rnode.as_array().unwrap();
    assert!(!node_array.is_empty());
    assert_eq!(node_array.len(), 1);

    let opt_node_null = node_array.get(0);
    assert!(opt_node_null.is_some());
}

#[test]
fn parse_array_with_inner_string()
{
    let value = String::from("Hello, world!");
    let input = String::from("[ \"Hello, world!\" ]");
    let mut parser = Parser::new_copy(&input, false);
    let node_type_result = parser.parse();

    assert!(node_type_result.is_ok());

    let rnode = node_type_result.unwrap();
    assert_eq!(rnode.get_node_type(), EnumNodeType::ARRAY);

    let node_array = rnode.as_array().unwrap();
    assert!(!node_array.is_empty());
    assert_eq!(node_array.len(), 1);

    let opt_node_string = node_array.get(0);
    assert!(opt_node_string.is_some());

    let node_string = opt_node_string.unwrap().as_string().unwrap();
    assert_eq!(node_string.get_value(), &value);
}

#[test]
fn parse_array_with_inner_all_nodes()
{
    let input = String::from("[ [ ], true, 123.456, null, \"Hello\" ]");
    let mut parser = Parser::new_copy(&input, false);
    let node_type_result = parser.parse();

    assert!(node_type_result.is_ok());

    let rnode = node_type_result.unwrap();
    assert_eq!(rnode.get_node_type(), EnumNodeType::ARRAY);

    let node_array = rnode.as_array().unwrap();
    assert!(!node_array.is_empty());
    assert_eq!(node_array.len(), 5);

    let opt_sub_array = node_array.get(0);
    assert!(opt_sub_array.is_some());

    let node_sub_array = opt_sub_array.unwrap().as_array().unwrap();
    assert!(node_sub_array.is_empty());
    assert_eq!(node_sub_array.len(), 0);

    let opt_node_bool = node_array.get(1);
    assert!(opt_node_bool.is_some());

    let node_bool = opt_node_bool.unwrap().as_bool().unwrap();
    assert!(node_bool.value);

    let opt_node_double = node_array.get(2);
    assert!(opt_node_double.is_some());

    let node_double = opt_node_double.unwrap().as_double().unwrap();
    assert_eq!(node_number_value(&node_double.value), 123.456);

    let opt_node_null = node_array.get(3);
    assert!(opt_node_null.is_some());

    let opt_node_string = node_array.get(4);
    assert!(opt_node_string.is_some());

    let node_string = opt_node_string.unwrap().as_string().unwrap();
    assert_eq!(node_string.get_value(), "Hello");
}

#[test]
fn parse_bool()
{
    let input = String::from("true");
    let mut parser = Parser::new_copy(&input, false);
    let node_type_result = parser.parse();

    assert!(node_type_result.is_ok());

    let rnode = node_type_result.unwrap();
    assert_eq!(rnode.get_node_type(), EnumNodeType::BOOL);

    let node_bool = rnode.as_bool().unwrap();
    assert!(node_bool.value);
}

#[test]
fn parse_double()
{
    let num: f64 = 123.456;
    let input = num.to_string();
    let mut parser = Parser::new_copy(&input, false);
    let node_type_result = parser.parse();

    assert!(node_type_result.is_ok());

    let rnode = node_type_result.unwrap();
    assert_eq!(rnode.get_node_type(), EnumNodeType::DOUBLE);

    let node_double = rnode.as_double().unwrap();
    assert_eq!(node_number_value(&node_double.value), num);
}

#[test]
fn parse_null()
{
    let input = String::from("null");
    let mut parser = Parser::new_copy(&input, false);
    let node_type_result = parser.parse();

    assert!(node_type_result.is_ok());

    let rnode = node_type_result.unwrap();
    assert_eq!(rnode.get_node_type(), EnumNodeType::NULL);
}

#[test]
fn parse_object_single_pair()
{
    let key = String::from("key");
    let input = String::from("{ \"key\": 123.456 }");
    let mut parser = Parser::new_copy(&input, false);
    let node_type_result = parser.parse();

    assert!(node_type_result.is_ok());

    let rnode = node_type_result.unwrap();
    assert_eq!(rnode.get_node_type(), EnumNodeType::OBJECT);

    let node_object = rnode.as_object().unwrap();
    assert!(!node_object.is_empty());
    assert_eq!(node_object.len(), 1);

    let opt_rnode_value = node_object.get(&key);
    assert!(opt_rnode_value.is_some());

    let rnode_value = opt_rnode_value.unwrap().as_double().unwrap();
    assert_eq!(node_number_value(&rnode_value.value), 123.456);
}

#[test]
fn parse_object_single_pair_with_empty_string()
{
    let key = String::from("key");
    let input = String::from("{ \"key\": \"\" }");
    let mut parser = Parser::new_copy(&input, false);
    let node_type_result = parser.parse();

    assert!(node_type_result.is_ok());

    let rnode = node_type_result.unwrap();
    assert_eq!(rnode.get_node_type(), EnumNodeType::OBJECT);

    let node_object = rnode.as_object().unwrap();
    assert!(!node_object.is_empty());
    assert_eq!(node_object.len(), 1);

    let opt_rnode_value = node_object.get(&key);
    assert!(opt_rnode_value.is_some());

    let rnode_value = opt_rnode_value.unwrap().as_string().unwrap();
    assert_eq!(rnode_value.get_value(), "");
}

#[test]
fn parse_object_double_pair()
{
    let key0 = String::from("key0");
    let key1 = String::from("key1");
    let input = String::from("{ \"key0\": 123.456, \"key1\": -42 }");
    let mut parser = Parser::new_copy(&input, false);
    let node_type_result = parser.parse();

    assert!(node_type_result.is_ok());

    let rnode = node_type_result.unwrap();
    assert_eq!(rnode.get_node_type(), EnumNodeType::OBJECT);

    let node_object = rnode.as_object().unwrap();
    assert!(!node_object.is_empty());
    assert_eq!(node_object.len(), 2);

    let opt_rnode_value = node_object.get(&key0);
    assert!(opt_rnode_value.is_some());

    let rnode_value = opt_rnode_value.unwrap().as_double().unwrap();
    assert_eq!(node_number_value(&rnode_value.value), 123.456);

    let opt_rnode_value2 = node_object.get(&key1);
    assert!(opt_rnode_value2.is_some());

    let rnode_value2 = opt_rnode_value2.unwrap().as_double().unwrap();
    assert_eq!(node_number_value(&rnode_value2.value), -42.0);
}

#[test]
fn parse_object_five_pair()
{
    let key0 = String::from("key0");
    let key1 = String::from("key1");
    let key2 = String::from("key2");
    let key3 = String::from("key3");
    let key4 = String::from("key4");
    let inner_key1 = String::from("1");
    let inner_key2 = String::from("nil");
    let input = String::from("{ \"key0\": 123.456, \"key1\": -42, \"key2\": false, \"key3\": \"Hello\", \"key4\": { \"1\": 1, \"nil\": null } }");
    let mut parser = Parser::new_copy(&input, false);
    let node_type_result = parser.parse();

    assert!(node_type_result.is_ok());

    let rnode = node_type_result.unwrap();
    assert_eq!(rnode.get_node_type(), EnumNodeType::OBJECT);

    let node_object = rnode.as_object().unwrap();
    assert!(!node_object.is_empty());
    assert_eq!(node_object.len(), 5);

    let opt_rnode_value = node_object.get(&key0);
    assert!(opt_rnode_value.is_some());

    let rnode_value = opt_rnode_value.unwrap().as_double().unwrap();
    assert_eq!(node_number_value(&rnode_value.value), 123.456);

    let opt_rnode_value1 = node_object.get(&key1);
    assert!(opt_rnode_value1.is_some());

    let rnode_value1 = opt_rnode_value1.unwrap().as_double().unwrap();
    assert_eq!(node_number_value(&rnode_value1.value), -42.0);

    let opt_rnode_value2 = node_object.get(&key2);
    assert!(opt_rnode_value2.is_some());

    let rnode_value2 = opt_rnode_value2.unwrap().as_bool().unwrap();
    assert!(!rnode_value2.value);

    let opt_rnode_value3 = node_object.get(&key3);
    assert!(opt_rnode_value3.is_some());

    let rnode_value3 = opt_rnode_value3.unwrap().as_string().unwrap();
    assert_eq!(rnode_value3.get_value(), "Hello");

    let opt_rnode_value4 = node_object.get(&key4);
    assert!(opt_rnode_value4.is_some());

    let rnode_value4 = opt_rnode_value4.unwrap().as_object().unwrap();
    assert!(!rnode_value4.is_empty());
    assert_eq!(rnode_value4.len(), 2);

    let opt_inner_double = rnode_value4.get(&inner_key1);
    assert!(opt_inner_double.is_some());

    let rnode_inner_double = opt_inner_double.unwrap().as_double().unwrap();
    assert_eq!(node_number_value(&rnode_inner_double.value), 1.0);

    let opt_inner_nil = rnode_value4.get(&inner_key2);
    assert!(opt_inner_nil.is_some());

    let rnode_inner_null = opt_inner_nil.unwrap().as_null().unwrap();
    assert_eq!(rnode_inner_null.get_node_type(), EnumNodeType::NULL);
}

#[test]
fn parse_string()
{
    let value = String::from("Hi");
    let input = String::from("\"Hi\"");
    let mut parser = Parser::new_copy(&input, false);
    let node_type_result = parser.parse();

    assert!(node_type_result.is_ok());

    let rnode = node_type_result.unwrap();
    assert_eq!(rnode.get_node_type(), EnumNodeType::STRING);

    let node_string = rnode.as_string().unwrap();
    assert_eq!(node_string.get_value(), &value);
}

#[test]
fn parse_keeps_object_keys_in_order_whatever_the_source_order()
{
    let input = String::from("{ \"key1\": -42, \"key0\": 123.456, \"key1\": 7 }");
    let mut parser = Parser::new_copy(&input, false);
    let rnode = parser.parse().unwrap();
    let node_object = rnode.as_object().unwrap();
    let keys: Vec<&str> = node_object.get_map().iter().map(|e| e.0.as_str()).collect();
    assert_eq!(keys, vec!["key0", "key1"]);
    let last = node_object.get(&String::from("key1")).unwrap().as_double().unwrap();
    assert_eq!(node_number_value(&last.value), 7.0);
}

#[test]
fn parse_fails_on_malformed_structure_and_keeps_its_place()
{
    for text in ["[1,]", "[1,,2]", "[{}]", "{ \"a\" 1 }", "{ \"a\": }", "{ \"a\": 1 \"b\": 2 }", "{ 1: 2 }", "[1", "]", ":", "{ +123.45 }"] {
        let mut parser = Parser::new_move(String::from(text), false);
        assert_eq!(
            parser.parse().err(),
            Some(String::from("Failed to parse token into an AST RNode")),
            "{:?}",
            text
        );
    }
    let mut empty = Parser::new_move(String::from("   "), false);
    assert_eq!(empty.parse().err(), Some(String::from("End of input (EOF)")));
    let mut bad = Parser::new_move(String::from("\"abc"), false);
    assert_eq!(
        bad.parse().err(),
        Some(String::from("Error: Missing closing double-quote ('\"')."))
    );
}

#[test]
fn parse_reads_one_document_after_the_other()
{
    let mut parser = Parser::new_move(String::from("[1 2 [3]] { } true"), false);
    let first = parser.parse().unwrap();
    assert_eq!(first.as_array().unwrap().len(), 3);
    let second = parser.parse().unwrap();
    assert_eq!(second.get_node_type(), EnumNodeType::OBJECT);
    let third = parser.parse().unwrap();
    assert!(third.as_bool().unwrap().value);
    assert!(parser.parse().is_err());
}

#[test]
fn parse_array_of_bool_and_double()
{
    let input = String::from("[ true, 123.456 ]");
    let mut parser = Parser::new_copy(&input, false);
    let rnode = parser.parse().unwrap();
    assert_eq!(rnode.get_node_type(), EnumNodeType::ARRAY);
    let node_array = rnode.as_array().unwrap();
    assert_eq!(node_array.len(), 2);
    assert!(node_array.get(0).unwrap().as_bool().unwrap().value);
    let node_double = node_array.get(1).unwrap().as_double().unwrap();
    assert_eq!(node_number_value(&node_double.value), 123.456);
}
