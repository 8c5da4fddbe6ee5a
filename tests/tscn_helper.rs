use tscn_parser::{Node, NodeType, TscnHelper};

#[test]
fn test_parse_node() {
    assert_eq!(
        TscnHelper::parse_node("[gd_scene load_steps=21 format=2]"),
        ("gd_scene", "load_steps=21 format=2")
    );
    assert_eq!(
        TscnHelper::parse_node("[gd_resource type=\"TileSet\" load_steps=7 format=2]"),
        ("gd_resource", "type=\"TileSet\" load_steps=7 format=2")
    );
    assert_eq!(
        TscnHelper::parse_node(
            "[ext_resource path=\"res://Scripts/Client.gd\" type=\"Script\" id=3]"
        ),
        (
            "ext_resource",
            "path=\"res://Scripts/Client.gd\" type=\"Script\" id=3"
        )
    );
    assert_eq!(
        TscnHelper::parse_node("[sub_resource type=\"TileSet\" id=5]"),
        ("sub_resource", "type=\"TileSet\" id=5")
    );
    assert_eq!(
        TscnHelper::parse_node("[node name=\"Simple Background\" type=\"Sprite\" parent=\".\"]"),
        (
            "node",
            "name=\"Simple Background\" type=\"Sprite\" parent=\".\""
        )
    );
    assert_eq!(
        TscnHelper::parse_node("[node name=\"Doggo\" parent=\".\" instance=ExtResource( 5 )]"),
        (
            "node",
            "name=\"Doggo\" parent=\".\" instance=ExtResource( 5 )"
        )
    );
    assert_eq!(TscnHelper::parse_node("[resource]"), ("resource", ""));
}

#[test]
fn test_get_node() {
    assert_eq!(
        TscnHelper::get_node("gd_scene", "load_steps=21 format=2"),
        Node {
            format: 2,
            load_steps: 21,
            node_type: NodeType::GdScene,
            ..Node::default()
        }
    );
    assert_eq!(
        TscnHelper::get_node("gd_resource", "type=\"TileSet\" load_steps=7 format=2"),
        Node {
            format: 2,
            load_steps: 7,
            rtype: "TileSet".to_string(),
            node_type: NodeType::GdResource,
            ..Node::default()
        }
    );
    assert_eq!(
        TscnHelper::get_node(
            "ext_resource",
            "path=\"res://Scripts/Client.gd\" type=\"Script\" id=3"
        ),
        Node {
            id: 3,
            rtype: "Script".to_string(),
            path: "res://Scripts/Client.gd".to_string(),
            node_type: NodeType::ExtResource,
            ..Node::default()
        }
    );
    assert_eq!(
        TscnHelper::get_node("sub_resource", "type=\"TileSet\" id=5"),
        Node {
            id: 5,
            rtype: "TileSet".to_string(),
            node_type: NodeType::SubResource,
            ..Node::default()
        }
    );
    assert_eq!(
        TscnHelper::get_node(
            "node",
            "name=\"Simple Background\" type=\"Sprite\" parent=\".\""
        ),
        Node {
            parent: ".".to_string(),
            rtype: "Sprite".to_string(),
            name: "Simple Background".to_string(),
            ..Node::default()
        }
    );
    assert_eq!(
        TscnHelper::get_node(
            "node",
            "name=\"Doggo\" parent=\".\" instance=ExtResource( 5 )"
        ),
        Node {
            parent: ".".to_string(),
            name: "Doggo".to_string(),
            instance_resource_id: 5,
            ..Node::default()
        }
    );
    assert_eq!(
        TscnHelper::get_node("resource", ""),
        Node {
            node_type: NodeType::Resource,
            ..Node::default()
        }
    );
}

#[test]
fn header_with_leading_spaces_inside_brackets() {
    assert_eq!(TscnHelper::parse_node("[[  node   name=\"A\"  ]]"), ("node", "name=\"A\""));
    assert_eq!(TscnHelper::parse_node("[]"), ("", ""));
}

#[test]
fn negative_id_reads_as_zero() {
    let n = TscnHelper::get_node("sub_resource", "id=-4 type=\"X\"");
    assert_eq!(n.id, 0);
    assert_eq!(n.rtype, "X");
}

#[test]
fn later_attribute_wins() {
    let n = TscnHelper::get_node("node", "name=\"A\" name=\"B\"");
    assert_eq!(n.name, "B");
}

#[test]
fn split_attributes_keeps_quoted_spaces() {
    let a = TscnHelper::split_attributes("name=\"Simple Background\" id=4");
    assert_eq!(a.len(), 2);
    assert_eq!(a[0].0, "name");
    assert!(matches!(&a[0].1, tscn_parser::VarType::Str(s) if s == "Simple Background"));
    assert_eq!(a[1].0, "id");
    assert!(matches!(a[1].1, tscn_parser::VarType::Num(4)));
}

#[test]
fn split_attributes_non_ascii_last_value() {
    let a = TscnHelper::split_attributes("name=\"Été\"");
    assert_eq!(a.len(), 1);
    assert!(matches!(&a[0].1, tscn_parser::VarType::Str(s) if s == "Été"));
}

#[test]
fn parse_command_needs_one_equals_sign() {
    let c = TscnHelper::parse_command("position = Vector2( 3, 4 )", "Sprite").unwrap();
    assert_eq!(c.lhs, "position");
    assert!(matches!(c.rhs, tscn_parser::VarType::Vector(_)));
    assert!(TscnHelper::parse_command("a = b = c", "").is_none());
    assert!(TscnHelper::parse_command("no sign here", "").is_none());
}

#[test]
fn parse_obj_strips_quotes_and_comma() {
    let c = TscnHelper::parse_obj("\"points\": PoolIntArray( 1, 2 ),", "").unwrap();
    assert_eq!(c.lhs, "points");
    assert!(matches!(&c.rhs, tscn_parser::VarType::IntArr(v) if v == &vec![1, 2]));
    assert!(TscnHelper::parse_obj("\"a\": \"res://x\"", "").is_none());
}

#[test]
fn equals_sign_inside_quotes_stays_in_the_value() {
    let a = TscnHelper::split_attributes("a=\"=\" b=\"x=y\"");
    assert_eq!(a.len(), 2);
    assert!(matches!(&a[0].1, tscn_parser::VarType::Str(s) if s == "="));
    assert!(matches!(&a[1].1, tscn_parser::VarType::Str(s) if s == "x=y"));
}

#[test]
fn spaces_inside_parentheses_are_kept() {
    let a = TscnHelper::split_attributes("pos=Vector2( 1, 2 ) size=Rect2( 0, 0, 4, 4 )");
    assert_eq!(a.len(), 2);
    assert!(matches!(a[0].1, tscn_parser::VarType::Vector(_)));
    assert_eq!(a[1].0, "size");
    assert!(matches!(a[1].1, tscn_parser::VarType::Rect2(_)));
}

#[test]
fn keys_may_start_with_any_character() {
    let a = TscnHelper::split_attributes("id=3 _hidden=1 2d=true name = \"N\"");
    let keys: Vec<&str> = a.iter().map(|p| p.0.as_str()).collect();
    assert_eq!(keys, vec!["id", "_hidden", "2d", "name"]);
    let n = TscnHelper::get_node("sub_resource", "id=3 _hidden=1 2d=true type=\"T\"");
    assert_eq!(n.id, 3);
    assert_eq!(n.rtype, "T");
    assert!(TscnHelper::split_attributes("   ").is_empty());
}

#[test]
fn unknown_keys_leave_the_descriptor_alone() {
    let plain = TscnHelper::get_node("node", "name=\"A\" parent=\".\"");
    let extra = TscnHelper::get_node("node", "_meta=1 name=\"A\" 9x=\"q r\" parent=\".\" groups=[ \"g\" ]");
    assert_eq!(plain, extra);
}

#[test]
fn brackets_keep_a_value_together() {
    let n = TscnHelper::get_node("node", "name=\"A\" groups=[ \"g\", \"h\" ] parent=\"Root\"");
    assert_eq!(n.parent, "Root");
    assert_eq!(n.name, "A");
    let a = TscnHelper::split_attributes("groups=[ \"g\" ] parent=\".\"");
    assert_eq!(a.len(), 2);
    assert_eq!(a[1].0, "parent");
}

#[test]
fn unknown_block_word_is_marked() {
    let n = TscnHelper::get_node("connection", "signal=\"pressed\" from=\"A\"");
    assert_eq!(n.node_type, NodeType::Unknown);
    assert_eq!(TscnHelper::get_node("node", "").node_type, NodeType::Node);
}
