use tscn_parser::{Loader, ParseError, PropertyMap, PropertyTrait, Tscn, VarType};

fn parse(text: &str) -> Result<Tscn, ParseError> {
    Loader::new().parse_tscn(text)
}

#[test]
fn three_levels_of_parents() {
    let t = parse(
        "[node name=\"Root\" type=\"Node2D\" parent=\".\"]\n\
         [node name=\"Child\" type=\"Node2D\" parent=\"Root\"]\n\
         [node name=\"Leaf\" type=\"Sprite\" parent=\"Root/Child\"]\n",
    )
    .unwrap();
    assert_eq!(t.nodes.len(), 3);
    let root = &t.nodes[&0];
    let child = &t.nodes[&1];
    let leaf = &t.nodes[&2];
    assert_eq!(root.level, 0);
    assert_eq!(child.level, 1);
    assert_eq!(leaf.level, 2);
    assert_eq!(leaf.parent_id, 1);
    assert_eq!(child.parent_id, 0);
    assert_eq!(root.childrens, vec![1]);
    assert_eq!(child.childrens, vec![2]);
    assert_eq!(leaf.rtype, "Sprite");
    assert_eq!(root.uuid, 54996);
    assert_eq!(child.uuid, 23273);
    assert_eq!(leaf.uuid, 25234);
}

#[test]
fn root_without_parent_and_children_of_dot() {
    let t = parse(
        "[gd_scene load_steps=2 format=2]\n\n\
         [node name=\"Main\" type=\"Node\"]\n\
         [node name=\"A\" type=\"Node\" parent=\".\"]\n\
         [node name=\"B\" type=\"Node\" parent=\".\"]\n",
    )
    .unwrap();
    assert_eq!(t.nodes[&1].parent_id, 0);
    assert_eq!(t.nodes[&2].parent_id, 0);
    assert_eq!(t.nodes[&0].childrens, vec![1, 2]);
    assert_eq!(t.rtype, "Scene");
}

#[test]
fn reascension_to_a_shallower_ancestor() {
    let t = parse(
        "[node name=\"A\" parent=\".\"]\n\
         [node name=\"B\" parent=\"A\"]\n\
         [node name=\"D\" parent=\"B\"]\n\
         [node name=\"C\" parent=\"A\"]\n\
         [node name=\"E\" parent=\"A\"]\n",
    )
    .unwrap();
    assert_eq!(t.nodes[&2].parent_id, 1);
    assert_eq!(t.nodes[&2].level, 2);
    assert_eq!(t.nodes[&3].parent_id, 0);
    assert_eq!(t.nodes[&4].parent_id, 0);
    assert_eq!(t.nodes[&4].level, 1);
    assert_eq!(t.nodes[&0].childrens, vec![1, 3, 4]);
}

#[test]
fn parent_popped_by_a_sibling_is_gone() {
    let r = parse(
        "[node name=\"A\" parent=\".\"]\n\
         [node name=\"B\" parent=\"A\"]\n\
         [node name=\"C\" parent=\"A\"]\n\
         [node name=\"D\" parent=\"B\"]\n",
    );
    assert!(matches!(r, Err(ParseError::MissingParent)));
}

#[test]
fn unknown_parent_is_fatal() {
    let r = parse("[node name=\"A\" parent=\".\"]\n[node name=\"X\" parent=\"Ghost\"]\n");
    assert!(matches!(r, Err(ParseError::MissingParent)));
    let r = parse("[node name=\"X\" parent=\"Ghost\"]\n");
    assert!(matches!(r, Err(ParseError::MissingParent)));
}

#[test]
fn same_path_same_hash_other_order_other_hash() {
    let a = parse("[node name=\"A\" parent=\".\"]\n[node name=\"B\" parent=\"A\"]").unwrap();
    let b = parse("[node name=\"A\"]\n[node name=\"B\" parent=\".\"]").unwrap();
    let c = parse("[node name=\"B\" parent=\".\"]\n[node name=\"A\" parent=\"B\"]").unwrap();
    assert_eq!(a.nodes[&1].uuid, b.nodes[&1].uuid);
    assert_eq!(a.nodes[&1].uuid, 8673);
    assert_eq!(c.nodes[&1].uuid, 9185);
    assert_ne!(a.nodes[&1].uuid, c.nodes[&1].uuid);
    assert_eq!(a.nodes[&0].uuid, 40816);
}

#[test]
fn properties_go_to_the_open_block() {
    let t = parse(
        "[gd_resource type=\"Curve\" format=2]\n\
         [sub_resource type=\"Curve\" id=4]\n\
         _data = [ Vector2( 0, 0 ), 0.0, 1.0, 0, 0 ]\n\
         [resource]\n\
         name = \"res\"\n\
         tiles = {\n\
         \"size\": 16,\n\
         }\n\
         [node name=\"Root\" type=\"Node2D\"]\r\n\
         position = Vector2( 3, 4 )\r\n\
         [connection signal=\"x\" from=\"Root\" to=\"Root\" method=\"y\"]\n\
         ignored = 1",
    )
    .unwrap();
    assert_eq!(t.rtype, "Curve");
    let sub = &t.sub_resources[&4];
    assert_eq!(sub.rtype, "Curve");
    assert!(matches!(sub.properties.get_from(&"_data".to_string()), Some(VarType::Curve(c)) if c.points().len() == 1));
    assert!(matches!(t.resource.get_from(&"name".to_string()), Some(VarType::Str(s)) if s == "res"));
    assert!(matches!(t.resource.get_from(&"tiles/size".to_string()), Some(VarType::Num(16))));
    let root = &t.nodes[&0];
    assert!(matches!(root.properties.get_from(&"position".to_string()), Some(VarType::Vector(_))));
    assert!(root.properties.get_from(&"ignored".to_string()).is_none());
    assert_eq!(root.properties.entries.len(), 1);
}

#[test]
fn external_resources_are_requested_and_attached() {
    let mut loader = Loader::new();
    loader.register_path("res:/".to_string(), "/game".to_string());
    loader.register_path("user:/".to_string(), "/home".to_string());
    loader.register_path("res:/".to_string(), "/other".to_string());
    let mut t = loader
        .parse_tscn("[ext_resource path=\"res://Player.tscn\" type=\"PackedScene\" id=2]\n[ext_resource path=\"res://Gone.tscn\" type=\"PackedScene\" id=3]\n")
        .unwrap();
    let pending = loader.pending().clone();
    assert_eq!(pending, vec![(2, "res://Player.tscn".to_string()), (3, "res://Gone.tscn".to_string())]);
    let c = loader.candidates(&pending[0].1);
    assert_eq!(
        c,
        vec![("/game".to_string(), "Player.tscn".to_string()), ("/other".to_string(), "Player.tscn".to_string())]
    );
    let nested = loader.clone_loader().parse_tscn("[node name=\"P\"]\n").unwrap();
    t.attach_ext_resource(2, Some(nested));
    t.attach_ext_resource(3, None);
    assert_eq!(t.ext_resources.len(), 1);
    assert_eq!(t.ext_resources[&2].nodes[&0].name, "P");
    assert!(!t.ext_resources.contains_key(&3));
}

#[test]
fn candidates_need_a_separator_after_the_prefix() {
    let mut loader = Loader::new();
    loader.register_path("res:/".to_string(), "/game".to_string());
    assert!(loader.candidates(&"res:/".to_string()).is_empty());
    assert!(loader.candidates(&"other://x".to_string()).is_empty());
}

#[test]
fn insert_then_read_back_by_path() {
    let mut store = PropertyMap::new();
    store.insert_to("a/b/c".to_string(), VarType::Num(1));
    assert!(matches!(store.get_from(&"a/b/c".to_string()), Some(VarType::Num(1))));
    match store.get_from(&"a/b".to_string()) {
        Some(VarType::Dict(m)) => {
            assert_eq!(m.entries.len(), 1);
            assert_eq!(m.entries[0].0, "c");
        }
        other => panic!("{:?}", other),
    }
    assert!(store.get_from(&"a/x".to_string()).is_none());
}

#[test]
fn last_write_wins_and_non_map_blocks_the_path() {
    let mut store = PropertyMap::new();
    store.insert_to("k".to_string(), VarType::Num(1));
    store.insert_to("k".to_string(), VarType::Num(2));
    assert_eq!(store.entries.len(), 1);
    assert!(matches!(store.get_from(&"k".to_string()), Some(VarType::Num(2))));
    store.insert_to("k/x".to_string(), VarType::Num(3));
    assert!(matches!(store.get_from(&"k".to_string()), Some(VarType::Num(2))));
    assert!(store.get_from(&"k/x".to_string()).is_none());
}

#[test]
fn put_in_needs_a_map() {
    let mut store = PropertyMap::new();
    store.insert_to("m".to_string(), VarType::Dict(PropertyMap::new()));
    store.put_in(&"m".to_string(), "a/b".to_string(), VarType::Bool(true));
    assert!(matches!(store.get_from(&"m/a/b".to_string()), None));
    match store.get_from(&"m".to_string()) {
        Some(VarType::Dict(m)) => assert_eq!(m.entries[0].0, "a/b"),
        other => panic!("{:?}", other),
    }
    store.put_in(&"missing".to_string(), "a".to_string(), VarType::Bool(true));
    assert_eq!(store.entries.len(), 1);
}

#[test]
fn canonical_path_and_its_hash() {
    let mut ctx: indexmap::IndexMap<String, usize> = indexmap::IndexMap::new();
    ctx.insert("A".to_string(), 0);
    ctx.insert("B".to_string(), 1);
    assert_eq!(tscn_parser::TscnHelper::get_path(&ctx), "/A/B");
    assert_eq!(tscn_parser::TscnHelper::get_path_hash(&ctx), 8673);
    let empty: indexmap::IndexMap<String, usize> = indexmap::IndexMap::new();
    assert_eq!(tscn_parser::TscnHelper::get_path(&empty), "");
    assert_eq!(tscn_parser::TscnHelper::get_path_hash(&empty), 0);
}

#[test]
fn level_is_the_ancestor_index_plus_one() {
    let t = parse(
        "[node name=\"A\" parent=\".\"]\n\
         [node name=\"B\" parent=\"A\"]\n\
         [node name=\"A\" parent=\"B\"]\n\
         [node name=\"C\" parent=\"A\"]\n",
    )
    .unwrap();
    assert_eq!(t.nodes[&2].level, 2);
    assert_eq!(t.nodes[&3].parent_id, 2);
    assert_eq!(t.nodes[&3].level, 1);
}

#[test]
fn a_cloned_loader_keeps_only_the_mappings() {
    let mut loader = Loader::new();
    loader.register_path("res:/".to_string(), "/game".to_string());
    loader
        .parse_tscn("[gd_resource type=\"T\"]\n[ext_resource path=\"res://a\" id=1]\n")
        .unwrap();
    let fresh = loader.clone_loader();
    assert!(fresh.pending().is_empty());
    assert_eq!(fresh.candidates(&"res://a".to_string()).len(), 1);
}

#[test]
fn blank_and_unknown_lines_change_nothing() {
    let t = parse(
        "[node name=\"R\"]\n   \n\t\n[editable path=\"x\"]\nfoo = 1\n[node name=\"K\" parent=\".\"]\n",
    )
    .unwrap();
    assert_eq!(t.nodes.len(), 2);
    assert!(t.nodes[&0].properties.entries.is_empty());
    assert!(t.nodes[&1].properties.entries.is_empty());
}
