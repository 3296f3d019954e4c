use mmids_core::config::parse;
use mmids_core::config::ConfigParseError;

#[test]
fn can_parse_settings() {
    let content = "
settings {
    first a
    second \"C:\\program files\\ffmpeg\\bin\\ffmpeg.exe\"
    flag

}
";

    let config = parse(content).unwrap();
    assert_eq!(config.settings.len(), 3, "Unexpected number of settings");
    assert_eq!(
        config.settings.get("first"),
        Some(&Some("a".to_string())),
        "Unexpected first value"
    );
    assert_eq!(
        config.settings.get("second"),
        Some(&Some(
            "C:\\program files\\ffmpeg\\bin\\ffmpeg.exe".to_string()
        )),
        "Unexpected second value"
    );
    assert_eq!(
        config.settings.get("flag"),
        Some(&None),
        "Unexpected flag value"
    );
}

#[test]
fn can_read_single_workflow() {
    let content = "
workflow name {
    rtmp_receive port=1935 app=receive stream_key=*
    hls path=c:\\temp\\test.m3u8 segment_size=\"3\" size=640x480 flag
}
";
    let config = parse(content).unwrap();
    assert_eq!(config.workflows.len(), 1, "Unexpected number of workflows");
    assert!(
        config.workflows.contains_key("name"),
        "workflow 'name' did not exist"
    );

    let workflow = config.workflows.get("name").unwrap();
    assert_eq!(workflow.name, "name".to_string(), "Unexpected workflow name");
    assert_eq!(
        workflow.steps.len(),
        2,
        "Unexpected number of workflow steps"
    );

    let step1 = workflow.steps.get(0).unwrap();
    assert_eq!(
        step1.step_type.0,
        "rtmp_receive".to_string(),
        "Unexpected type of step 1"
    );
    assert_eq!(step1.parameters.len(), 3, "Unexpected number of parameters");
    assert_eq!(
        step1.parameters.get("port"),
        Some(&Some("1935".to_string())),
        "Unexpected step 1 port value"
    );
    assert_eq!(
        step1.parameters.get("app"),
        Some(&Some("receive".to_string())),
        "Unexpected step 1 app value"
    );
    assert_eq!(
        step1.parameters.get("stream_key"),
        Some(&Some("*".to_string())),
        "Unexpected step 1 stream_key value"
    );

    let step2 = workflow.steps.get(1).unwrap();
    assert_eq!(
        step2.step_type.0,
        "hls".to_string(),
        "Unexpected type of step 1"
    );
    assert_eq!(step2.parameters.len(), 4, "Unexpected number of parameters");
    assert_eq!(
        step2.parameters.get("path"),
        Some(&Some("c:\\temp\\test.m3u8".to_string())),
        "Unexpected step 2 path value"
    );
    assert_eq!(
        step2.parameters.get("segment_size"),
        Some(&Some("3".to_string())),
        "Unexpected step 2 segment_size value"
    );
    assert_eq!(
        step2.parameters.get("size"),
        Some(&Some("640x480".to_string())),
        "Unexpected step 2 size value"
    );
    assert_eq!(
        step2.parameters.get("flag"),
        Some(&None),
        "Unexpected step 2 flag value"
    );
}

#[test]
fn can_read_multiple_workflows() {
    let content = "
workflow name {
    rtmp_receive port=1935 app=receive stream_key=*
    hls path=c:\\temp\\test.m3u8 segment_size=\"3\" size=640x480 flag
}

workflow name2 {
    another a
}
";
    let config = parse(content).unwrap();

    assert_eq!(config.workflows.len(), 2, "Unexpected number of workflows");
    assert!(
        config.workflows.contains_key("name"),
        "Could not find a workflow named 'name'"
    );
    assert!(
        config.workflows.contains_key("name2"),
        "Could not find a workflow named 'name2'"
    );
}

#[test]
fn duplicate_workflow_name_returns_error() {
    let content = "
workflow name {
    rtmp_receive port=1935 app=receive stream_key=*
    hls path=c:\\temp\\test.m3u8 segment_size=\"3\" size=640x480 flag
}

workflow name {
    another a
}
";
    match parse(content) {
        Err(ConfigParseError::DuplicateWorkflowName { name }) => {
            if name != "name".to_string() {
                panic!("Unexpected name in workflow: '{}'", name);
            }
        }
        Err(e) => panic!(
            "Expected duplicate workflow name error, instead got: {:?}",
            e
        ),
        Ok(_) => panic!("Received successful parse, but an error was expected"),
    }
}

#[test]
fn full_config_can_be_parsed() {
    let content = "
# comment
settings {
    first a # another comment
    second \"C:\\program files\\ffmpeg\\bin\\ffmpeg.exe\"
    flag

}

workflow name { #workflow comment
    rtmp_receive port=1935 app=receive stream_key=* #step comment
    hls path=c:\\temp\\test.m3u8 segment_size=\"3\" size=640x480 flag
}

workflow name2 {
    another a
}
";
    parse(content).unwrap();
}

#[test]
fn key_value_child_in_settings_is_rejected() {
    let content = "
settings {
    first=a
}
";
    match parse(content) {
        Err(ConfigParseError::InvalidSettingArgumentFormat { line }) => {
            assert_eq!(line, 3);
        }
        other => panic!("expected invalid setting argument format, got {:?}", other),
    }
}

#[test]
fn too_many_setting_arguments_is_rejected() {
    let content = "
settings {
    first a b
}
";
    match parse(content) {
        Err(ConfigParseError::TooManySettingArguments { line }) => {
            assert_eq!(line, 3);
        }
        other => panic!("expected too many setting arguments, got {:?}", other),
    }
}

#[test]
fn arguments_on_settings_header_are_rejected() {
    let content = "settings extra {\n}\n";
    match parse(content) {
        Err(ConfigParseError::ArgumentsSpecifiedOnSettingNode { line }) => {
            assert_eq!(line, 1);
        }
        other => panic!("expected settings-header argument error, got {:?}", other),
    }
}

#[test]
fn key_value_workflow_name_is_rejected() {
    let content = "workflow name=x {\n}\n";
    match parse(content) {
        Err(ConfigParseError::InvalidWorkflowName { line, name }) => {
            assert_eq!(line, 1);
            assert_eq!(name, "name=x".to_string());
        }
        other => panic!("expected invalid workflow name, got {:?}", other),
    }
}

#[test]
fn second_workflow_name_is_rejected() {
    let content = "workflow one two {\n}\n";
    match parse(content) {
        Err(ConfigParseError::TooManyWorkflowArguments { line }) => {
            assert_eq!(line, 1);
        }
        other => panic!("expected too many workflow arguments, got {:?}", other),
    }
}

#[test]
fn workflow_without_name_is_rejected() {
    let content = "\nworkflow {\n    step a\n}\n";
    match parse(content) {
        Err(ConfigParseError::NoNameOnWorkflow { line }) => {
            assert_eq!(line, 2);
        }
        other => panic!("expected missing workflow name error, got {:?}", other),
    }
}

#[test]
fn unknown_node_name_is_rejected() {
    let content = "bogus {\n}\n";
    match parse(content) {
        Err(ConfigParseError::InvalidNodeName { name, line }) => {
            assert_eq!(name, "bogus".to_string());
            assert_eq!(line, 1);
        }
        other => panic!("expected invalid node name, got {:?}", other),
    }
}

#[test]
fn unterminated_quote_is_rejected() {
    let content = "settings {\n    second \"oops\n}\n";
    match parse(content) {
        Err(ConfigParseError::InvalidSyntax { line }) => {
            assert_eq!(line, 2);
        }
        other => panic!("expected a syntax error, got {:?}", other),
    }
}

#[test]
fn unclosed_block_is_rejected() {
    let content = "settings {\n    flag\n";
    match parse(content) {
        Err(ConfigParseError::InvalidSyntax { .. }) => {}
        other => panic!("expected a syntax error, got {:?}", other),
    }
}

#[test]
fn comments_never_reach_parsed_strings() {
    let content = "
settings {
    first a # trailing words
}

workflow name { # block comment
    step key=value # step comment
}
";
    let config = parse(content).unwrap();
    assert_eq!(config.settings.get("first"), Some(&Some("a".to_string())));
    let wf = config.workflows.get("name").unwrap();
    let step = wf.steps.get(0).unwrap();
    assert_eq!(step.step_type.0, "step".to_string());
    assert_eq!(step.parameters.get("key"), Some(&Some("value".to_string())));
    assert!(!wf.name.contains('#'));
    assert!(!step.step_type.0.contains('#'));
}

#[test]
fn node_names_match_case_insensitively() {
    let content = "SETTINGS {\n    flag\n}\n";
    let config = parse(content).unwrap();
    assert_eq!(config.settings.get("flag"), Some(&None));
}

#[test]
fn settings_blocks_merge() {
    let content = "settings {\n    a 1\n}\nsettings {\n    b 2\n}\n";
    let config = parse(content).unwrap();
    assert_eq!(config.settings.len(), 2);
    assert_eq!(config.settings.get("a"), Some(&Some("1".to_string())));
    assert_eq!(config.settings.get("b"), Some(&Some("2".to_string())));
}
