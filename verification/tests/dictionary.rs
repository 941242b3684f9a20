use landmark_client::block::BlockData;
use landmark_client::color::Color;
use landmark_client::loader::ResourceDictionary;

fn block(name: &str, r: u8) -> BlockData {
    BlockData { name: String::from(name), color: Color { r, g: 0, b: 0 } }
}

#[test]
fn identifiers_follow_load_order() {
    let dict = ResourceDictionary::new(vec![block("stone", 1), block("grass", 2), block("sand", 3)]);
    assert_eq!(dict.get_block_id(&String::from("stone")), 0);
    assert_eq!(dict.get_block_id(&String::from("grass")), 1);
    assert_eq!(dict.get_block_id(&String::from("sand")), 2);
}

#[test]
fn duplicate_name_resolves_to_last_definition() {
    let dict = ResourceDictionary::new(vec![block("stone", 1), block("stone", 9)]);
    let id = dict.get_block_id(&String::from("stone"));
    assert_eq!(id, 1);
    assert_eq!(dict.get_block_data_from_id(id).color.r, 9);
}

#[test]
fn lookup_by_name_and_id_agree() {
    let dict = ResourceDictionary::new(vec![block("stone", 1), block("grass", 2)]);
    let by_name = dict.get_block_data_from_name(&String::from("grass"));
    let by_id = dict.get_block_data_from_id(1);
    assert_eq!(by_name.name, by_id.name);
    assert_eq!(by_name.color, by_id.color);
    assert_eq!(by_name.color, Color { r: 2, g: 0, b: 0 });
}

#[test]
fn default_color_is_black() {
    assert_eq!(Color::default(), Color { r: 0, g: 0, b: 0 });
}
