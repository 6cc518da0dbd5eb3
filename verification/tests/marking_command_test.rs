use road_drawing::dxf::DxfLine;
use road_drawing::marking::{
    crosswalk_layer, execute_command, param_num, parse_command, parse_command_list, MarkingCommand,
};
use road_drawing::number::NumText;
use road_drawing::params::ParamMap;

#[test]
fn test_parse_crosswalk_command() {
    let json = r#"{"type": "crosswalk", "params": {"startOffset": "11000", "stripeCount": "7"}}"#;
    let cmd = parse_command(json).unwrap();
    assert_eq!(cmd.command_type, "crosswalk");
    assert_eq!(cmd.params.get("startOffset"), Some(&"11000".to_string()));
    assert_eq!(cmd.params.get("stripeCount"), Some(&"7".to_string()));
}

#[test]
fn test_parse_command_no_params() {
    let json = r#"{"type": "info"}"#;
    let cmd = parse_command(json).unwrap();
    assert_eq!(cmd.command_type, "info");
    assert!(cmd.params.is_empty());
}

#[test]
fn test_parse_command_empty_params() {
    let json = r#"{"type": "crosswalk", "params": {}}"#;
    let cmd = parse_command(json).unwrap();
    assert_eq!(cmd.command_type, "crosswalk");
    assert!(cmd.params.is_empty());
}

#[test]
fn test_parse_command_invalid_json() {
    assert!(parse_command("not json").is_none());
    assert!(parse_command("").is_none());
    assert!(parse_command("{}").is_none()); // no "type" field
}

#[test]
fn test_parse_command_all_crosswalk_params() {
    let json = r#"{
        "type": "crosswalk",
        "params": {
            "startOffset": "11000",
            "stripeLength": "4000",
            "stripeWidth": "450",
            "stripeCount": "7",
            "stripeSpacing": "450",
            "layer": "横断歩道",
            "centerlineLayer": "中心"
        }
    }"#;
    let cmd = parse_command(json).unwrap();
    assert_eq!(cmd.params.len(), 7);
    assert_eq!(cmd.params.get("stripeLength"), Some(&"4000".to_string()));
    assert_eq!(cmd.params.get("layer"), Some(&"横断歩道".to_string()));
}

#[test]
fn test_parse_command_list() {
    let json = r#"{"commands": [
        {"type": "crosswalk", "params": {"startOffset": "5000"}},
        {"type": "crosswalk", "params": {"startOffset": "15000"}}
    ]}"#;
    let cmds = parse_command_list(json);
    assert_eq!(cmds.len(), 2);
    assert_eq!(cmds[0].params.get("startOffset"), Some(&"5000".to_string()));
    assert_eq!(cmds[1].params.get("startOffset"), Some(&"15000".to_string()));
}

#[test]
fn test_parse_command_list_empty() {
    let json = r#"{"commands": []}"#;
    let cmds = parse_command_list(json);
    assert!(cmds.is_empty());
}

#[test]
fn test_parse_command_list_invalid() {
    let cmds = parse_command_list("not json");
    assert!(cmds.is_empty());
}

#[test]
fn test_parse_command_truncated_json() {
    assert!(parse_command(r#"{"type": "cross"#).is_none());
}

#[test]
fn test_parse_command_missing_closing_brace() {
    assert!(parse_command(r#"{"type": "crosswalk", "params": {"a": "b"}"#).is_some());
    // The outer brace isn't needed for extract_json_value to find "type"
}

#[test]
fn test_parse_command_no_type_value() {
    // "type" key exists but value is empty
    assert!(parse_command(r#"{"type": ""}"#).is_none());
}

#[test]
fn test_parse_command_type_not_string() {
    // "type" value is not in quotes — manual parser won't find it
    assert!(parse_command(r#"{"type": 42}"#).is_none());
}

#[test]
fn test_parse_command_nested_braces_in_params() {
    // Params with nested structure — should still extract top-level params
    let json = r#"{"type": "crosswalk", "params": {"startOffset": "5000", "layer": "テスト"}}"#;
    let cmd = parse_command(json).unwrap();
    assert_eq!(cmd.params.get("startOffset"), Some(&"5000".to_string()));
    assert_eq!(cmd.params.get("layer"), Some(&"テスト".to_string()));
}

#[test]
fn test_parse_command_extra_whitespace() {
    let json = r#"  {  "type"  :  "crosswalk"  ,  "params"  :  {  "startOffset"  :  "1000"  }  }  "#;
    let cmd = parse_command(json).unwrap();
    assert_eq!(cmd.command_type, "crosswalk");
    assert_eq!(cmd.params.get("startOffset"), Some(&"1000".to_string()));
}

#[test]
fn test_parse_command_list_no_commands_key() {
    let cmds = parse_command_list(r#"{"data": [{"type": "crosswalk"}]}"#);
    assert!(cmds.is_empty(), "Missing 'commands' key should return empty");
}

#[test]
fn test_parse_command_list_single_command() {
    let json = r#"{"commands": [{"type": "crosswalk", "params": {"stripeCount": "5"}}]}"#;
    let cmds = parse_command_list(json);
    assert_eq!(cmds.len(), 1);
    assert_eq!(cmds[0].command_type, "crosswalk");
    assert_eq!(cmds[0].params.get("stripeCount"), Some(&"5".to_string()));
}

#[test]
fn test_parse_command_list_mixed_valid_invalid() {
    let json = r#"{"commands": [
        {"type": "crosswalk", "params": {"startOffset": "1000"}},
        {"invalid": "no type here"},
        {"type": "stopline", "params": {}}
    ]}"#;
    let cmds = parse_command_list(json);
    // First and third are valid, second has no "type" → skipped
    assert_eq!(cmds.len(), 2);
    assert_eq!(cmds[0].command_type, "crosswalk");
    assert_eq!(cmds[1].command_type, "stopline");
}

#[test]
fn test_parse_command_list_empty_string() {
    assert!(parse_command_list("").is_empty());
}

#[test]
fn test_parse_command_list_commands_not_array() {
    let cmds = parse_command_list(r#"{"commands": "not an array"}"#);
    assert!(cmds.is_empty());
}

#[test]
fn test_marking_command_equality() {
    let cmd1 = MarkingCommand {
        command_type: "crosswalk".to_string(),
        params: ParamMap::from_pairs(vec![("a".to_string(), "1".to_string())]),
    };
    let cmd2 = MarkingCommand {
        command_type: "crosswalk".to_string(),
        params: ParamMap::from_pairs(vec![("a".to_string(), "1".to_string())]),
    };
    assert_eq!(cmd1, cmd2);
}

#[test]
fn test_marking_command_inequality() {
    let cmd1 = MarkingCommand {
        command_type: "crosswalk".to_string(),
        params: ParamMap::new(),
    };
    let cmd2 = MarkingCommand {
        command_type: "stopline".to_string(),
        params: ParamMap::new(),
    };
    assert_ne!(cmd1, cmd2);
}

#[test]
fn test_execute_unknown_command() {
    let cmd = MarkingCommand {
        command_type: "unknown_type".to_string(),
        params: ParamMap::new(),
    };
    let result = execute_command(&cmd, vec![]);
    assert!(result.lines.is_empty());
    assert!(result.message.contains("Unknown") || result.message.contains("unknown"));
}

#[test]
fn test_execute_crosswalk_no_centerlines() {
    // Without centerlines no stripe is drawn.
    let cmd = MarkingCommand {
        command_type: "crosswalk".to_string(),
        params: ParamMap::new(),
    };
    let result = execute_command(&cmd, vec![]);
    assert!(result.lines.is_empty());
}

#[test]
fn test_execute_stopline_unknown() {
    let cmd = MarkingCommand {
        command_type: "stopline".to_string(),
        params: ParamMap::new(),
    };
    let result = execute_command(&cmd, vec![]);
    assert!(result.lines.is_empty());
    assert!(result.message.contains("stopline"));
}

#[test]
fn test_execute_empty_type() {
    let cmd = MarkingCommand {
        command_type: "".to_string(),
        params: ParamMap::new(),
    };
    let result = execute_command(&cmd, vec![]);
    assert!(result.lines.is_empty());
}

fn n(s: &str) -> NumText {
    NumText::parse(s).unwrap()
}

#[test]
fn test_execute_crosswalk_reports_line_count() {
    let cmd = parse_command(r#"{"type": "crosswalk", "params": {"stripeCount": "3"}}"#).unwrap();
    let stripes: Vec<DxfLine> = (0..12).map(|i| DxfLine::new(n("0"), n(&i.to_string()), n("1"), n("1"))).collect();
    let result = execute_command(&cmd, stripes);
    assert_eq!(result.lines.len(), 12);
    assert_eq!(result.lines[5].y1.as_str(), "5");
    assert_eq!(result.message, "Generated 12 crosswalk lines");
    assert!(result.texts.is_empty());
}

#[test]
fn test_execute_unknown_message_exact() {
    let cmd = MarkingCommand { command_type: "stopline".to_string(), params: ParamMap::new() };
    let stripes = vec![DxfLine::new(n("0"), n("0"), n("1"), n("1"))];
    let result = execute_command(&cmd, stripes);
    assert_eq!(result.message, "Unknown command type: stopline");
    assert!(result.lines.is_empty());
}

#[test]
fn test_param_num_defaults() {
    let params = ParamMap::from_pairs(vec![
        ("stripeCount".to_string(), "abc".to_string()),
        ("startOffset".to_string(), "11000".to_string()),
    ]);
    assert_eq!(param_num(&params, "startOffset", &n("0")).as_str(), "11000");
    assert_eq!(param_num(&params, "stripeCount", &n("7")).as_str(), "7");
    assert_eq!(param_num(&params, "stripeWidth", &n("450")).as_str(), "450");
}

#[test]
fn test_crosswalk_layer_parameter_or_default() {
    let with = parse_command(r#"{"type": "crosswalk", "params": {"layer": "カスタム層"}}"#).unwrap();
    assert_eq!(crosswalk_layer(&with), "カスタム層");
    let without = parse_command(r#"{"type": "crosswalk"}"#).unwrap();
    assert_eq!(crosswalk_layer(&without), "横断歩道");
}
