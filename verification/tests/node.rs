use rson::parser::node::{EnumNodeType, NodeDouble, NodeTrait};
use rson::parser::number::to_num;

#[test]
fn node_double_holds_its_number()
{
    let mut node = NodeDouble::new(to_num(&String::from("42.0")).unwrap());
    assert_eq!(node.get_type(), EnumNodeType::DOUBLE);
    assert!(node.is_double() && !node.is_array() && !node.is_bool());
    assert!(!node.is_object() && !node.is_string());
    assert_eq!(node.get_value().int_part, "42");
    node.set_value(to_num(&String::from("101.5")).unwrap());
    assert_eq!(node.as_double().unwrap().int_part, "101");
    assert_eq!(node.as_double().unwrap().frac_part, "5");
    assert_eq!(node.as_bool(), Err(String::from("NodeDouble is not a NodeBool")));
    assert_eq!(node.as_string(), Err(String::from("NodeDouble is not a NodeString")));
}
