use unleashed_agent::request::{
    estimate_image_tokens, read_tool_result_content, ImageSize, LanguageModelImage,
    LanguageModelRequestMessage, LanguageModelToolResult, LanguageModelToolResultContent,
    MessageContent, Role, Speed,
};

fn text(content: &str) -> LanguageModelToolResultContent {
    LanguageModelToolResultContent::Text(content.to_string())
}

fn read(json: &str) -> LanguageModelToolResultContent {
    LanguageModelToolResultContent::from_json(json).unwrap()
}

#[test]
fn test_language_model_tool_result_content_deserialization() {
    assert_eq!(read("\"hello world\""), text("hello world"));
    assert_eq!(read(r#"{"type": "text", "text": "hello"}"#), text("hello"));
    assert_eq!(read(r#"{"text": "hello"}"#), text("hello"));
    assert_eq!(read(r#"{"Type": "Text", "Text": "hello"}"#), text("hello"));

    match read(r#"{"source": "base64encodedimagedata"}"#) {
        LanguageModelToolResultContent::Image(image) => {
            assert_eq!(image.source, "base64encodedimagedata");
        }
        _ => panic!("Expected Image variant"),
    }
    match read(r#"{"image": {"source": "wrappedimagedata"}}"#) {
        LanguageModelToolResultContent::Image(image) => {
            assert_eq!(image.source, "wrappedimagedata");
        }
        _ => panic!("Expected Image variant"),
    }
    match read(r#"{"Source": "caseinsensitive"}"#) {
        LanguageModelToolResultContent::Image(image) => {
            assert_eq!(image.source, "caseinsensitive");
        }
        _ => panic!("Expected Image variant"),
    }
    match read(r#"{"source": "directimage"}"#) {
        LanguageModelToolResultContent::Image(image) => {
            assert_eq!(image.source, "directimage");
        }
        _ => panic!("Expected Image variant"),
    }
}

#[test]
fn test_language_model_tool_result_content_vec_deserialization() {
    assert_eq!(read_tool_result_content("\"hello\"").unwrap(), vec![text("hello")]);
    assert_eq!(
        read_tool_result_content(r#"{"type": "text", "text": "hello"}"#).unwrap(),
        vec![text("hello")]
    );

    let content = read_tool_result_content(
        r#"[
            {"type": "text", "text": "foo"},
            {"source": "data", "size": {"width": 1, "height": 2}}
        ]"#,
    )
    .unwrap();
    assert_eq!(content.len(), 2);
    assert_eq!(content[0], text("foo"));
    match &content[1] {
        LanguageModelToolResultContent::Image(image) => {
            assert_eq!(image.source, "data");
            assert_eq!(image.size.width, 1);
            assert_eq!(image.size.height, 2);
            assert_eq!(image.mime_type, "image/png");
        }
        _ => panic!("Expected Image variant"),
    }

    let roundtripped = read_tool_result_content(
        r#"[
            {"Text": "foo"},
            {"Image": {"source": "data", "size": {"width": 1, "height": 2}, "mime_type": "image/png"}}
        ]"#,
    )
    .unwrap();
    assert_eq!(roundtripped, content);
}

#[test]
fn test_estimate_image_tokens_uses_tile_formula() {
    assert_eq!(estimate_image_tokens(ImageSize { width: 1280, height: 720 }), 1_105);
    assert_eq!(estimate_image_tokens(ImageSize { width: 512, height: 512 }), 255);
    assert_eq!(estimate_image_tokens(ImageSize::default()), 1_100);
    assert_eq!(
        LanguageModelImage {
            source: "AAAA".into(),
            size: ImageSize { width: 1280, height: 720 },
            mime_type: "image/jpeg".into(),
        }
        .estimate_tokens(),
        1_105
    );
    assert_eq!(
        LanguageModelImage::from_source("AAAA".to_string()).to_base64_url(),
        "data:image/png;base64,AAAA"
    );
    assert_eq!(
        LanguageModelImage {
            source: "AAAA".into(),
            size: ImageSize::default(),
            mime_type: "image/jpeg".into(),
        }
        .to_base64_url(),
        "data:image/jpeg;base64,AAAA"
    );
}

#[test]
fn test_string_contents_includes_all_tool_result_text_parts() {
    let tool_result = LanguageModelToolResult {
        tool_use_id: "id".to_string(),
        tool_name: "tool".to_string(),
        is_error: false,
        content: vec![
            text("first "),
            LanguageModelToolResultContent::Image(LanguageModelImage::empty()),
            text("second"),
        ],
        output: None,
    };
    let message = LanguageModelRequestMessage {
        role: Role::User,
        content: vec![
            MessageContent::Text("prefix ".to_string()),
            MessageContent::ToolResult(tool_result),
            MessageContent::Text(" suffix".to_string()),
        ],
        cache: false,
        reasoning_details: None,
    };
    assert_eq!(message.string_contents(), "prefix first second suffix");
}

#[test]
fn a_part_of_no_known_shape_is_quoted() {
    let error = LanguageModelToolResultContent::from_json(r#"{"a":1}"#).unwrap_err();
    assert!(error.starts_with("data did not match any variant of LanguageModelToolResultContent."));
    assert!(error.ends_with("Got: {\n  \"a\": 1\n}"));
    assert!(LanguageModelToolResultContent::from_json("{").is_err());
    assert!(read_tool_result_content(r#"["a", 3]"#).is_err());
}

#[test]
fn larger_images_cost_no_less() {
    let tokens = |width, height| estimate_image_tokens(ImageSize { width, height });
    assert!(tokens(1, 1) <= tokens(513, 1) && tokens(513, 1) <= tokens(513, 2000));
}

#[test]
fn blank_messages_say_nothing() {
    let mut message = LanguageModelRequestMessage {
        role: Role::Assistant,
        content: vec![MessageContent::Text(" \n".to_string())],
        cache: false,
        reasoning_details: None,
    };
    assert!(message.contents_empty());
    message.content.push(MessageContent::Text("x".to_string()));
    assert!(!message.contents_empty());
    assert_eq!(Speed::Fast.toggle(), Speed::Standard);
}
