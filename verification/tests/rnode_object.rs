use rson::parser::number::{to_num, Number};
use rson::rnodes::rnode::{EnumNodeType, RNode};
use rson::rnodes::rnode_double::RNodeDouble;
use rson::rnodes::rnode_object::RNodeObject;

fn entry_number_value(n: &Number) -> f64 {
    let mut result = 0.0;
    for ch in n.int_part.chars() {
        result *= 10.0;
        result += ch.to_digit(10).unwrap() as f64;
    }
    let mut multicand = 0.1;
    for ch in n.frac_part.chars() {
        result += (ch.to_digit(10).unwrap() as f64) * multicand;
        multicand /= 10.0;
    }
    if let Some(e) = &n.exponent {
        const EXP: f64 = 10.0;
        result *= EXP.powf(entry_number_value(e));
    }
    if n.negative {
        result = -result;
    }
    result
}

fn double_node(value: f64) -> RNode {
    RNode::Double(RNodeDouble::new(to_num(&format!("{:?}", value)).unwrap()))
}

#[test]
fn create_object_from_builder()
{
    let key0 = String::from("key0");
    let key1 = String::from("key1");
    let val0 = 123.45;
    let val1 = -123.45;

    let mut obj = RNodeObject::new(Vec::<(String, RNode)>::new());
    obj = obj.add_copy(&key0, double_node(val0)).add_copy(&key1, double_node(val1));
    assert_eq!(obj.get_node_type(), EnumNodeType::OBJECT);

    let opt_val0 = obj.get(&key0);
    assert!(opt_val0.is_some());
    let node_double = opt_val0.unwrap().as_double().unwrap();
    assert_eq!(entry_number_value(&node_double.value), val0);

    let opt_val1 = obj.get(&key1);
    assert!(opt_val1.is_some());
    let node_double = opt_val1.unwrap().as_double().unwrap();
    assert_eq!(entry_number_value(&node_double.value), val1);
}

#[test]
fn object_keeps_keys_in_order()
{
    let mut obj = RNodeObject::new(Vec::<(String, RNode)>::new());
    obj = obj.add_move(String::from("b"), double_node(2.0));
    obj = obj.add_move(String::from("a"), double_node(1.0));
    obj = obj.add_move(String::from("ab"), double_node(3.0));
    obj = obj.add_move(String::from("a"), double_node(4.0));
    let keys: Vec<&str> = obj.get_map().iter().map(|e| e.0.as_str()).collect();
    assert_eq!(keys, vec!["a", "ab", "b"]);
    assert_eq!(obj.len(), 3);
    let first = obj.get(&String::from("a")).unwrap().as_double().unwrap();
    assert_eq!(entry_number_value(&first.value), 4.0);
    assert!(obj.get(&String::from("c")).is_none());
}

#[test]
fn object_from_entries_last_value_wins()
{
    let entries = vec![
        (String::from("k"), double_node(1.0)),
        (String::from("j"), double_node(2.0)),
        (String::from("k"), double_node(3.0)),
    ];
    let obj = RNodeObject::new(entries);
    assert_eq!(obj.len(), 2);
    let keys: Vec<&str> = obj.get_map().iter().map(|e| e.0.as_str()).collect();
    assert_eq!(keys, vec!["j", "k"]);
    let k = obj.get(&String::from("k")).unwrap().as_double().unwrap();
    assert_eq!(entry_number_value(&k.value), 3.0);
}
